//! Application configuration: opinionated defaults, overridden by the values present in the
//! loaded configuration source.

use vstd::prelude::*;

use crate::error::ErrorPtr;

verus! {

/// Name of the default config file.
pub const CONFIG_FILE: &'static str = "springtime.json";

/// Prefix of environment variables which override configuration values.
pub const CONFIG_ENV_PREFIX: &'static str = "SPRINGTIME";

/// Turns an error into a shared error pointer.
pub fn convert_error(error: String) -> (r: ErrorPtr)
    ensures
        r@ == error@,
{
    ErrorPtr::new(error)
}

/// Framework configuration which can be provided by an [ApplicationConfigProvider].
#[non_exhaustive]
#[derive(Clone, Debug)]
pub struct ApplicationConfig {
    /// Should a default tracing logger be installed in the scope of the application.
    pub install_tracing_logger: bool,
}

impl Default for ApplicationConfig {
    fn default() -> (r: Self)
        ensures
            r.install_tracing_logger,
    {
        ApplicationConfig { install_tracing_logger: true }
    }
}

/// Configuration values as loaded: each one may be absent.
#[derive(Clone, Debug)]
pub struct OptionalApplicationConfig {
    pub install_tracing_logger: Option<bool>,
}

impl From<OptionalApplicationConfig> for ApplicationConfig {
    fn from(value: OptionalApplicationConfig) -> (r: Self) {
        let default = ApplicationConfig::default();
        ApplicationConfig {
            install_tracing_logger: match value.install_tracing_logger {
                Some(v) => v,
                None => default.install_tracing_logger,
            },
        }
    }
}

impl vstd::std_specs::convert::FromSpecImpl<OptionalApplicationConfig> for ApplicationConfig {
    open spec fn obeys_from_spec() -> bool {
        true
    }

    open spec fn from_spec(value: OptionalApplicationConfig) -> ApplicationConfig {
        ApplicationConfig {
            install_tracing_logger: match value.install_tracing_logger {
                Some(v) => v,
                None => true,
            },
        }
    }
}

impl ApplicationConfig {
    /// Builds the configuration from the loaded configuration values: absent values take their
    /// defaults; a loading error is passed on.
    pub fn init_from_environment(loaded: Result<OptionalApplicationConfig, ErrorPtr>) -> (r: Result<ApplicationConfig, ErrorPtr>)
        ensures
            match loaded {
                Ok(v) => r matches Ok(c) && c.install_tracing_logger == match v.install_tracing_logger {
                    Some(b) => b,
                    None => true,
                },
                Err(e) => r matches Err(f) && f@ == e@,
            },
    {
        match loaded {
            Ok(v) => Ok(ApplicationConfig::from(v)),
            Err(e) => Err(e),
        }
    }
}

/// Provider of the [ApplicationConfig]. The primary instance of the provider is used to retrieve
/// application configuration.
pub trait ApplicationConfigProvider {
    fn config(&self) -> Result<&ApplicationConfig, ErrorPtr>;
}

/// The provider used when no other is registered: it holds the configuration built once, from
/// the configuration source, or the error met doing so.
pub struct DefaultApplicationConfigProvider {
    config: Result<ApplicationConfig, ErrorPtr>,
}

impl DefaultApplicationConfigProvider {
    /// The cached configuration, or the error met building it.
    pub closed spec fn cached(&self) -> Result<ApplicationConfig, ErrorPtr> {
        self.config
    }

    /// Creates the provider from the loaded configuration values.
    pub fn new(loaded: Result<OptionalApplicationConfig, ErrorPtr>) -> (r: Result<Self, ErrorPtr>)
        ensures
            r matches Ok(p) && match loaded {
                Ok(v) => p.cached() matches Ok(c) && c.install_tracing_logger == match v.install_tracing_logger {
                    Some(b) => b,
                    None => true,
                },
                Err(e) => p.cached() matches Err(f) && f@ == e@,
            },
    {
        Ok(DefaultApplicationConfigProvider { config: ApplicationConfig::init_from_environment(loaded) })
    }

    /// Returns the cached configuration, or a copy of the cached error.
    pub fn map_config(&self) -> (r: Result<&ApplicationConfig, ErrorPtr>)
        ensures
            match self.cached() {
                Ok(c) => r == Ok::<&ApplicationConfig, ErrorPtr>(&c),
                Err(e) => r matches Err(f) && f@ == e@,
            },
    {
        match &self.config {
            Ok(config) => Ok(config),
            Err(error) => Err(error.duplicate()),
        }
    }
}

impl ApplicationConfigProvider for DefaultApplicationConfigProvider {
    fn config(&self) -> (r: Result<&ApplicationConfig, ErrorPtr>)
        ensures
            match self.cached() {
                Ok(c) => r == Ok::<&ApplicationConfig, ErrorPtr>(&c),
                Err(e) => r matches Err(f) && f@ == e@,
            },
    {
        self.map_config()
    }
}

} // verus!
