use springtime::error::ErrorPtr;
use springtime::web::{
    controller_mount, controller_serves, next_router_step, serving_controllers, DefaultWebConfigProvider, RouteMount, RouterStep, ServerConfig,
    WebConfig, WebConfigProvider, WebConfigWrapper, DEFAULT_SERVER_NAME,
};

fn names(values: &[&str]) -> Option<Vec<String>> {
    Some(values.iter().map(|v| v.to_string()).collect())
}

#[test]
fn should_configure_router_with_filtering() {
    let controllers = vec![names(&["1", "2"])];
    assert_eq!(serving_controllers(&controllers, &"1".to_string()), vec![0]);
}

#[test]
fn should_not_configure_router_with_filtering() {
    let controllers = vec![names(&["1", "2"])];
    assert!(serving_controllers(&controllers, &"3".to_string()).is_empty());
}

#[test]
fn should_serve_every_server_without_names() {
    assert!(controller_serves(&None, &"any".to_string()));
    assert!(!controller_serves(&Some(vec![]), &"any".to_string()));
    let controllers = vec![None, names(&["a"]), names(&["b"]), None];
    assert_eq!(serving_controllers(&controllers, &"b".to_string()), vec![0, 2, 3]);
}

#[test]
fn should_merge_root_controllers_and_nest_others() {
    assert_eq!(controller_mount(None), RouteMount::Merge);
    assert_eq!(controller_mount(Some("".to_string())), RouteMount::Merge);
    assert_eq!(controller_mount(Some("/".to_string())), RouteMount::Merge);
    assert_eq!(controller_mount(Some("/test".to_string())), RouteMount::Nest("/test".to_string()));
}

#[test]
fn should_create_default_web_config() {
    let config = WebConfig::default();
    assert_eq!(config.servers.len(), 1);
    assert_eq!(config.servers[0].0, DEFAULT_SERVER_NAME);
    assert_eq!(config.servers[0].1.listen_address, "0.0.0.0:80");
    assert_eq!(ServerConfig::default().listen_address, "0.0.0.0:80");
}

#[test]
fn should_provide_loaded_web_config() {
    let mut config = WebConfig::default();
    config.servers[0].1.listen_address = "127.0.0.1:8080".to_string();
    let provider = DefaultWebConfigProvider::new(Ok(WebConfigWrapper { web: config })).unwrap();
    assert_eq!(provider.config().unwrap().servers[0].1.listen_address, "127.0.0.1:8080");

    let provider = DefaultWebConfigProvider::new(Err(ErrorPtr::new("missing".to_string()))).unwrap();
    assert_eq!(provider.config().unwrap_err().message, "missing");
    assert!(WebConfig::init_from_config(Err(ErrorPtr::new("bad".to_string()))).is_err());
}

#[test]
fn should_step_through_router_building() {
    let serving = vec![2, 0];
    assert_eq!(next_router_step(&serving, 1, 0, false), Some(RouterStep::CreateRouter(2)));
    assert_eq!(next_router_step(&serving, 1, 1, false), Some(RouterStep::ConfigureRouter(2)));
    assert_eq!(next_router_step(&serving, 1, 2, false), Some(RouterStep::PostConfigureRouter(2)));
    assert_eq!(next_router_step(&serving, 1, 3, false), Some(RouterStep::Mount(2)));
    assert_eq!(next_router_step(&serving, 1, 4, false), Some(RouterStep::CreateRouter(0)));
    assert_eq!(next_router_step(&serving, 1, 8, false), Some(RouterStep::ApplyConfigure(0)));
    assert_eq!(next_router_step(&serving, 1, 9, false), None);
    assert_eq!(next_router_step(&serving, 1, 5, true), None);
}
