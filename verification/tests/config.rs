use springtime::config::{
    convert_error, ApplicationConfig, ApplicationConfigProvider, DefaultApplicationConfigProvider,
    OptionalApplicationConfig, CONFIG_ENV_PREFIX, CONFIG_FILE,
};
use springtime::error::ErrorPtr;

#[test]
fn should_install_tracing_logger_by_default() {
    assert!(ApplicationConfig::default().install_tracing_logger);
    assert_eq!(CONFIG_FILE, "springtime.json");
    assert_eq!(CONFIG_ENV_PREFIX, "SPRINGTIME");
}

#[test]
fn should_take_loaded_values_over_defaults() {
    let config = ApplicationConfig::init_from_environment(Ok(OptionalApplicationConfig {
        install_tracing_logger: Some(false),
    }))
    .unwrap();
    assert!(!config.install_tracing_logger);

    let config = ApplicationConfig::init_from_environment(Ok(OptionalApplicationConfig {
        install_tracing_logger: None,
    }))
    .unwrap();
    assert!(config.install_tracing_logger);
}

#[test]
fn should_pass_on_loading_errors() {
    let result = ApplicationConfig::init_from_environment(Err(convert_error("bad file".to_string())));
    assert_eq!(result.unwrap_err().message, "bad file");
}

#[test]
fn should_provide_cached_application_config() {
    let provider = DefaultApplicationConfigProvider::new(Ok(OptionalApplicationConfig {
        install_tracing_logger: Some(false),
    }))
    .unwrap();
    assert!(!provider.config().unwrap().install_tracing_logger);
    assert!(!provider.map_config().unwrap().install_tracing_logger);

    let provider = DefaultApplicationConfigProvider::new(Err(ErrorPtr::new("missing".to_string()))).unwrap();
    assert_eq!(provider.config().unwrap_err().message, "missing");
    assert_eq!(provider.config().unwrap_err().message, "missing");
}
