use springtime::error::ErrorPtr;
use springtime::migration::{
    collect_migrations, configure_runner, migration_names, migration_plan, migrations_directory, run_migrations_on_start, runner_settings, MigrationRunnerExecutor, MigrationSource, DefaultMigrationConfigProvider, MigrationConfig,
    MigrationConfigProvider, MigrationConfigWrapper, MigrationPlan, Target,
};

#[test]
fn should_use_opinionated_migration_defaults() {
    let config = MigrationConfig::default();
    assert!(config.run_migrations_on_start);
    assert!(matches!(config.target, Target::Latest));
    assert!(!config.grouped);
    assert!(config.abort_divergent);
    assert!(config.abort_missing);
    assert_eq!(config.migration_table_name, "refinery_schema_history");
}

#[test]
fn should_decide_migration_plan() {
    let mut config = MigrationConfig::default();
    assert_eq!(migration_plan(&config, 0), MigrationPlan::NoSources);
    assert_eq!(migration_plan(&config, 2), MigrationPlan::Run);
    config.run_migrations_on_start = false;
    assert_eq!(migration_plan(&config, 2), MigrationPlan::Disabled);
}

#[test]
fn should_collect_migrations_in_source_order() {
    let collected = collect_migrations(vec![Ok(vec![1, 2]), Ok(vec![]), Ok(vec![3])]).unwrap();
    assert_eq!(collected, vec![1, 2, 3]);
    assert!(collect_migrations::<u8>(vec![]).unwrap().is_empty());
}

#[test]
fn should_stop_at_first_source_error() {
    let result = collect_migrations(vec![
        Ok(vec![1]),
        Err(ErrorPtr::new("first".to_string())),
        Err(ErrorPtr::new("second".to_string())),
    ]);
    assert_eq!(result.unwrap_err().message, "first");
}

#[test]
fn should_provide_loaded_migration_config() {
    let mut config = MigrationConfig::default();
    config.grouped = true;
    config.target = Target::Version(3);
    let provider = DefaultMigrationConfigProvider::new(Ok(MigrationConfigWrapper { migration: config })).unwrap();
    let provided = provider.config().unwrap();
    assert!(provided.grouped);
    assert!(matches!(provided.target, Target::Version(3)));

    let provider = DefaultMigrationConfigProvider::new(Err(ErrorPtr::new("missing".to_string()))).unwrap();
    assert_eq!(provider.config().unwrap_err().message, "missing");
    assert!(MigrationConfig::init_from_config(Err(ErrorPtr::new("bad".to_string()))).is_err());
}

#[test]
fn should_configure_runner() {
    let migrations = vec![refinery_core::Migration::unapplied("V00__test", "test").unwrap()];
    let mut config = MigrationConfig::default();
    config.target = Target::FakeVersion(7);
    config.migration_table_name = "history".to_string();
    let configured = configure_runner(&migrations, &config);
    assert_eq!(configured.runner.get_migrations().len(), 1);
    assert_eq!(configured.migration_count, 1);
    assert!(matches!(configured.settings.target, Target::FakeVersion(7)));
    assert_eq!(configured.settings.migration_table_name, "history");
}

#[test]
fn should_take_runner_settings_from_config() {
    let mut config = MigrationConfig::default();
    config.target = Target::Version(3);
    config.grouped = true;
    config.abort_divergent = false;
    config.migration_table_name = "history".to_string();
    let settings = runner_settings(&config);
    assert!(matches!(settings.target, Target::Version(3)));
    assert!(settings.grouped);
    assert!(!settings.abort_divergent);
    assert!(settings.abort_missing);
    assert_eq!(settings.migration_table_name, "history");
}

struct TestSource(Result<usize, &'static str>);

impl MigrationSource for TestSource {
    fn migrations(&self) -> Result<Vec<refinery_core::Migration>, ErrorPtr> {
        match self.0 {
            Ok(count) => Ok((0..count)
                .map(|i| refinery_core::Migration::unapplied(&format!("V{}__test", i + 1), "test").unwrap())
                .collect()),
            Err(message) => Err(ErrorPtr::new(message.to_string())),
        }
    }
}

struct TestExecutor {
    seen: std::cell::RefCell<Vec<usize>>,
    fail: bool,
}

impl MigrationRunnerExecutor for TestExecutor {
    fn run_migrations(&self, runner: &refinery_core::Runner) -> Result<(), ErrorPtr> {
        self.seen.borrow_mut().push(runner.get_migrations().len());
        if self.fail {
            Err(ErrorPtr::new("executor".to_string()))
        } else {
            Ok(())
        }
    }
}

fn executor(fail: bool) -> TestExecutor {
    TestExecutor { seen: std::cell::RefCell::new(vec![]), fail }
}

#[test]
fn should_run_gathered_migrations_by_each_executor() {
    let config = MigrationConfig::default();
    let executors = vec![executor(false), executor(false)];
    assert!(run_migrations_on_start(&config, &vec![TestSource(Ok(2)), TestSource(Ok(1))], &executors).0.is_ok());
    assert_eq!(*executors[0].seen.borrow(), vec![3]);
    assert_eq!(*executors[1].seen.borrow(), vec![3]);
}

#[test]
fn should_stop_migrations_at_first_error() {
    let config = MigrationConfig::default();
    let executors = vec![executor(false)];
    let result = run_migrations_on_start(&config, &vec![TestSource(Ok(1)), TestSource(Err("source"))], &executors).0;
    assert_eq!(result.unwrap_err().message, "source");
    assert!(executors[0].seen.borrow().is_empty());

    let executors = vec![executor(true), executor(false)];
    let result = run_migrations_on_start(&config, &vec![TestSource(Ok(1))], &executors).0;
    assert_eq!(result.unwrap_err().message, "executor");
    assert_eq!(*executors[0].seen.borrow(), vec![1]);
    assert!(executors[1].seen.borrow().is_empty());
}

#[test]
fn should_skip_migrations_when_disabled_or_without_sources() {
    let mut config = MigrationConfig::default();
    let executors = vec![executor(false)];
    let no_sources: Vec<TestSource> = vec![];
    assert!(run_migrations_on_start(&config, &no_sources, &executors).0.is_ok());
    config.run_migrations_on_start = false;
    assert!(run_migrations_on_start(&config, &vec![TestSource(Err("source"))], &executors).0.is_ok());
    assert!(executors[0].seen.borrow().is_empty());
}

#[test]
fn should_name_discovered_migrations_by_file_stem() {
    let paths = vec!["migrations/V1__first.sql".to_string(), "migrations/V2__second.sql".to_string()];
    match migration_names(&paths) {
        Ok(names) => assert_eq!(names, vec!["V1__first".to_string(), "V2__second".to_string()]),
        Err(error) => panic!("cannot name {}", error.path),
    }
    match migration_names(&vec!["migrations/V1__first.sql".to_string(), "..".to_string()]) {
        Err(error) => assert_eq!(error.path, ".."),
        Ok(_) => panic!("a path without a file name has no stem"),
    }
    assert_eq!(migrations_directory(None), "migrations");
    assert_eq!(migrations_directory(Some("sql".to_string())), "sql");
}
