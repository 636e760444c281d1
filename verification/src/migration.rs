//! SQL migrations run on application start: their configuration, the decision whether to run
//! them, the gathering of migrations from all sources, and the configuration of the runner.

use vstd::prelude::*;

use crate::error::{steps_result, stopped_at_first_error, ErrorPtr};

verus! {

/// A migration, as loaded from a migration source.
#[verifier::external_type_specification]
#[verifier::external_body]
pub struct ExMigration(refinery_core::Migration);

/// The entry point which runs migrations against a database.
#[verifier::external_type_specification]
#[verifier::external_body]
pub struct ExRunner(refinery_core::Runner);

/// The target version up to which to migrate.
#[derive(Clone, Copy, Debug)]
pub enum Target {
    /// Latest version.
    Latest,
    /// User-provided version.
    Version(u32),
    /// Don't run migrations, just update the migration table to latest version.
    Fake,
    /// Don't run migrations, just update the migration table to user-provided version.
    FakeVersion(u32),
}

/// Migration configuration.
#[non_exhaustive]
#[derive(Clone, Debug)]
pub struct MigrationConfig {
    /// Should migrations run on application start.
    pub run_migrations_on_start: bool,
    /// The target version up to which to migrate.
    pub target: Target,
    /// Group migrations in a single transaction.
    pub grouped: bool,
    /// Should abort migration process if divergent migrations are found.
    pub abort_divergent: bool,
    /// Should abort if missing migrations are found.
    pub abort_missing: bool,
    /// Table name for migration data.
    pub migration_table_name: String,
}

impl Default for MigrationConfig {
    fn default() -> (r: Self)
        ensures
            r.run_migrations_on_start,
            r.target is Latest,
            !r.grouped,
            r.abort_divergent,
            r.abort_missing,
            r.migration_table_name@ == "refinery_schema_history"@,
    {
        MigrationConfig {
            run_migrations_on_start: true,
            target: Target::Latest,
            grouped: false,
            abort_divergent: true,
            abort_missing: true,
            migration_table_name: "refinery_schema_history".to_string(),
        }
    }
}

/// The configuration source's content: the migration configuration under its `migration` key.
#[derive(Clone, Debug)]
pub struct MigrationConfigWrapper {
    pub migration: MigrationConfig,
}

impl MigrationConfig {
    /// Takes the migration configuration out of the loaded configuration source; a loading
    /// error is passed on.
    pub fn init_from_config(loaded: Result<MigrationConfigWrapper, ErrorPtr>) -> (r: Result<MigrationConfig, ErrorPtr>)
        ensures
            match loaded {
                Ok(w) => r == Ok::<MigrationConfig, ErrorPtr>(w.migration),
                Err(e) => r == Err::<MigrationConfig, ErrorPtr>(e),
            },
    {
        match loaded {
            Ok(w) => Ok(w.migration),
            Err(e) => Err(e),
        }
    }
}

/// Provider for [MigrationConfig]. The primary instance of the provider is used to retrieve
/// migration configuration.
pub trait MigrationConfigProvider {
    /// Provide current config.
    fn config(&self) -> Result<&MigrationConfig, ErrorPtr>;
}

/// The provider used when no other is registered: it holds the configuration taken once from
/// the configuration source, or the error met doing so.
pub struct DefaultMigrationConfigProvider {
    config: Result<MigrationConfig, ErrorPtr>,
}

impl DefaultMigrationConfigProvider {
    /// The cached configuration, or the error met taking it.
    pub closed spec fn cached(&self) -> Result<MigrationConfig, ErrorPtr> {
        self.config
    }

    /// Creates the provider from the loaded configuration source.
    pub fn new(loaded: Result<MigrationConfigWrapper, ErrorPtr>) -> (r: Result<Self, ErrorPtr>)
        ensures
            r matches Ok(p) && match loaded {
                Ok(w) => p.cached() == Ok::<MigrationConfig, ErrorPtr>(w.migration),
                Err(e) => p.cached() == Err::<MigrationConfig, ErrorPtr>(e),
            },
    {
        Ok(DefaultMigrationConfigProvider { config: MigrationConfig::init_from_config(loaded) })
    }
}

impl MigrationConfigProvider for DefaultMigrationConfigProvider {
    fn config(&self) -> (r: Result<&MigrationConfig, ErrorPtr>)
        ensures
            match self.cached() {
                Ok(c) => r == Ok::<&MigrationConfig, ErrorPtr>(&c),
                Err(e) => r matches Err(f) && f@ == e@,
            },
    {
        match &self.config {
            Ok(config) => Ok(config),
            Err(error) => Err(error.duplicate()),
        }
    }
}

/// A source of migrations.
pub trait MigrationSource {
    /// Provides the migrations of this source.
    fn migrations(&self) -> Result<Vec<refinery_core::Migration>, ErrorPtr>;
}

/// Runs migrations contained in the given runner with a concrete database client.
pub trait MigrationRunnerExecutor {
    fn run_migrations(&self, runner: &refinery_core::Runner) -> Result<(), ErrorPtr>;
}

/// What the migration runner does on application start.
#[derive(Clone, Copy, Debug, PartialEq, Eq)]
pub enum MigrationPlan {
    /// Migrations are disabled by configuration.
    Disabled,
    /// There is no migration source.
    NoSources,
    /// Migrations are gathered and run.
    Run,
}

/// Decides what the migration runner does: nothing if migrations are disabled, nothing if no
/// migration source exists, otherwise run the migrations.
pub fn migration_plan(config: &MigrationConfig, source_count: usize) -> (r: MigrationPlan)
    ensures
        !config.run_migrations_on_start ==> r == MigrationPlan::Disabled,
        config.run_migrations_on_start && source_count == 0 ==> r == MigrationPlan::NoSources,
        config.run_migrations_on_start && source_count > 0 ==> r == MigrationPlan::Run,
{
    if !config.run_migrations_on_start {
        MigrationPlan::Disabled
    } else if source_count == 0 {
        MigrationPlan::NoSources
    } else {
        MigrationPlan::Run
    }
}

/// The migrations of all sources, in source order; the first source error instead, if any.
pub open spec fn collected<T>(results: Seq<Result<Vec<T>, ErrorPtr>>) -> Result<Seq<T>, ErrorPtr>
    decreases results.len(),
{
    if results.len() == 0 {
        Ok(Seq::empty())
    } else {
        match collected(results.drop_last()) {
            Ok(s) => match results.last() {
                Ok(v) => Ok(s + v@),
                Err(e) => Err(e),
            },
            Err(e) => Err(e),
        }
    }
}

/// Gathers the migrations of all sources, in source order, stopping at the first source error.
pub fn collect_migrations<T>(results: Vec<Result<Vec<T>, ErrorPtr>>) -> (r: Result<Vec<T>, ErrorPtr>)
    ensures
        match collected(results@) {
            Ok(s) => r matches Ok(v) && v@ == s,
            Err(e) => r == Err::<Vec<T>, ErrorPtr>(e),
        },
{
    let ghost given = results@;
    let total: usize = results.len();
    let mut pending = results;
    let mut reversed: Vec<Result<Vec<T>, ErrorPtr>> = Vec::new();
    while pending.len() > 0
        invariant
            given.len() == total,
            pending@.len() + reversed@.len() == given.len(),
            forall|i: int| 0 <= i < pending@.len() ==> pending@[i] == given[i],
            forall|i: int| 0 <= i < reversed@.len() ==> given[given.len() - 1 - i] == #[trigger] reversed@[i],
        decreases pending@.len(),
    {
        let x = pending.pop().unwrap();
        reversed.push(x);
    }
    let mut all: Vec<T> = Vec::new();
    let mut done: usize = 0;
    assert(given.take(0) =~= Seq::<Result<Vec<T>, ErrorPtr>>::empty());
    while reversed.len() > 0
        invariant
            given == results@,
            given.len() == total,
            reversed@.len() + done == given.len(),
            forall|i: int| 0 <= i < reversed@.len() ==> given[given.len() - 1 - i] == #[trigger] reversed@[i],
            collected(given.take(done as int)) == Ok::<Seq<T>, ErrorPtr>(all@),
        decreases reversed@.len(),
    {
        let x = reversed.pop().unwrap();
        assert(given[done as int] == x);
        assert(given.take(done + 1).drop_last() =~= given.take(done as int));
        match x {
            Ok(mut v) => {
                let ghost before = all@;
                let ghost vs = v@;
                all.append(&mut v);
                assert(all@ == before + vs);
            },
            Err(e) => {
                proof {
                    lemma_collected_error_persists(given, done as int + 1, given.len() as int);
                    assert(given.take(given.len() as int) =~= given);
                }
                return Err(e);
            },
        }
        done += 1;
    }
    assert(given.take(given.len() as int) =~= given);
    Ok(all)
}

proof fn lemma_collected_error_persists<T>(results: Seq<Result<Vec<T>, ErrorPtr>>, i: int, k: int)
    requires
        0 <= i <= k <= results.len(),
        collected(results.take(i)) is Err,
    ensures
        collected(results.take(k)) == collected(results.take(i)),
    decreases k - i,
{
    if k > i {
        lemma_collected_error_persists(results, i, k - 1);
        assert(results.take(k).drop_last() =~= results.take(k - 1));
    }
}

/// The settings a migration runner is created with.
#[derive(Clone, Debug)]
pub struct RunnerSettings {
    /// The target version up to which to migrate.
    pub target: Target,
    /// Group migrations in a single transaction.
    pub grouped: bool,
    /// Abort if divergent migrations are found.
    pub abort_divergent: bool,
    /// Abort if missing migrations are found.
    pub abort_missing: bool,
    /// Table name for migration data.
    pub migration_table_name: String,
}

/// Whether runner settings are those the migration configuration asks for: its target,
/// grouping, abort settings and table name.
pub open spec fn settings_for(s: RunnerSettings, config: MigrationConfig) -> bool {
    &&& s.target == config.target
    &&& s.grouped == config.grouped
    &&& s.abort_divergent == config.abort_divergent
    &&& s.abort_missing == config.abort_missing
    &&& s.migration_table_name@ == config.migration_table_name@
}

/// The runner settings the migration configuration asks for: its target, grouping, abort
/// settings and table name.
pub fn runner_settings(config: &MigrationConfig) -> (r: RunnerSettings)
    ensures
        settings_for(r, *config),
{
    RunnerSettings {
        target: config.target,
        grouped: config.grouped,
        abort_divergent: config.abort_divergent,
        abort_missing: config.abort_missing,
        migration_table_name: config.migration_table_name.clone(),
    }
}

/// Creates a runner for the given migrations (`Runner::new`) and sets each of the settings on
/// it (`Runner::set_target`, `set_grouped`, `set_abort_divergent`, `set_abort_missing`,
/// `set_migration_table_name`), the target taken over variant by variant. The runner panics on
/// an empty table name, which `requires` leaves out. The runner is opaque to the library:
/// nothing is stated of what it holds.
#[verifier::external_body]
fn runner_from_settings(migrations: &Vec<refinery_core::Migration>, settings: &RunnerSettings) -> (r: refinery_core::Runner)
    requires
        settings.migration_table_name@.len() > 0,
{
    let target = match settings.target {
        Target::Latest => refinery_core::Target::Latest,
        Target::Version(v) => refinery_core::Target::Version(i64::from(v)),
        Target::Fake => refinery_core::Target::Fake,
        Target::FakeVersion(v) => refinery_core::Target::FakeVersion(i64::from(v)),
    };
    let mut runner = refinery_core::Runner::new(migrations).set_target(target).set_grouped(settings.grouped)
        .set_abort_divergent(settings.abort_divergent).set_abort_missing(settings.abort_missing);
    runner.set_migration_table_name(settings.migration_table_name.as_str());
    runner
}

/// A migration runner together with the settings it was created with and the number of
/// migrations it was created for.
pub struct ConfiguredRunner {
    pub runner: refinery_core::Runner,
    pub settings: RunnerSettings,
    pub migration_count: usize,
}

/// Creates a runner for the gathered migrations, configured with the settings that
/// [runner_settings] takes from the migration configuration. The runner itself is opaque to
/// the library; the settings and migration count it was created with come with it.
pub fn configure_runner(migrations: &Vec<refinery_core::Migration>, config: &MigrationConfig) -> (r: ConfiguredRunner)
    requires
        config.migration_table_name@.len() > 0,
    ensures
        settings_for(r.settings, *config),
        r.migration_count == migrations@.len(),
{
    let settings = runner_settings(config);
    let runner = runner_from_settings(migrations, &settings);
    ConfiguredRunner { runner, settings, migration_count: migrations.len() }
}

/// The position of the next of `count` steps taken in turn, after `k` of them: none once a step
/// failed or every step was taken.
pub fn next_in_turn(count: usize, k: usize, last_failed: bool) -> (r: Option<usize>)
    ensures
        last_failed ==> r is None,
        !last_failed && k < count ==> r == Some(k),
        !last_failed && k >= count ==> r is None,
{
    if last_failed || k >= count {
        None
    } else {
        Some(k)
    }
}

/// What running migrations on start did: the outcomes of the sources asked, in order; the
/// runner created, if any; and the outcomes of the executors run on it, in order.
pub struct MigrationTrace {
    pub sources: Seq<Result<Vec<refinery_core::Migration>, ErrorPtr>>,
    pub runner: Option<ConfiguredRunner>,
    pub executors: Seq<Result<(), ErrorPtr>>,
}

/// Runs migrations on application start, as the migration plan for the configuration and the
/// sources decides: nothing when migrations are disabled or no source exists. Otherwise the
/// sources are asked in turn, as [next_in_turn] picks them, up to the first source error, which
/// is returned; the migrations
/// gathered as [collect_migrations] does are handed to a runner configured by
/// [configure_runner]; and each executor runs it once, in turn as [next_in_turn] picks it, up
/// to the first executor error, which is returned. What sources and executors return is decided by them; the
/// returned trace holds their outcomes and the runner.
pub fn run_migrations_on_start<S: MigrationSource, E: MigrationRunnerExecutor>(
    config: &MigrationConfig,
    sources: &Vec<S>,
    executors: &Vec<E>,
) -> (r: (Result<(), ErrorPtr>, Ghost<MigrationTrace>))
    requires
        config.run_migrations_on_start && sources@.len() > 0 ==> config.migration_table_name@.len() > 0,
    ensures
        !config.run_migrations_on_start || sources@.len() == 0 ==> {
            &&& r.0 is Ok
            &&& r.1@.sources.len() == 0
            &&& r.1@.runner is None
            &&& r.1@.executors.len() == 0
        },
        config.run_migrations_on_start && sources@.len() > 0 ==> {
            &&& r.1@.sources.len() > 0
            &&& stopped_at_first_error(r.1@.sources, sources@.len())
            &&& match collected(r.1@.sources) {
                Err(e) => {
                    &&& r.0 == Err::<(), ErrorPtr>(e)
                    &&& r.1@.runner is None
                    &&& r.1@.executors.len() == 0
                },
                Ok(migrations) => {
                    &&& r.1@.runner matches Some(c) && settings_for(c.settings, *config) && c.migration_count == migrations.len()
                    &&& stopped_at_first_error(r.1@.executors, executors@.len())
                    &&& r.0 == steps_result(r.1@.executors)
                },
            }
        },
{
    match migration_plan(config, sources.len()) {
        MigrationPlan::Run => {},
        _ => {
            let ghost trace = MigrationTrace { sources: Seq::empty(), runner: None, executors: Seq::empty() };
            return (Ok(()), Ghost(trace));
        },
    }
    let mut results: Vec<Result<Vec<refinery_core::Migration>, ErrorPtr>> = Vec::new();
    let mut failed = false;
    loop
        invariant
            config.run_migrations_on_start && sources@.len() > 0,
            results@.len() <= sources@.len(),
            forall|j: int| 0 <= j < results@.len() - 1 ==> #[trigger] results@[j] is Ok,
            failed <==> (results@.len() > 0 && results@.last() is Err),
        ensures
            results@.len() > 0,
            stopped_at_first_error(results@, sources@.len()),
        decreases sources@.len() - results@.len(),
    {
        match next_in_turn(sources.len(), results.len(), failed) {
            Some(index) => {
                let result = sources[index].migrations();
                failed = result.is_err();
                results.push(result);
            },
            None => {
                break;
            },
        }
    }
    let ghost source_outcomes = results@;
    let migrations = match collect_migrations(results) {
        Ok(m) => m,
        Err(e) => {
            let ghost trace = MigrationTrace { sources: source_outcomes, runner: None, executors: Seq::empty() };
            return (Err(e), Ghost(trace));
        },
    };
    let configured = configure_runner(&migrations, config);
    let mut last: Result<(), ErrorPtr> = Ok(());
    let ghost mut outcomes: Seq<Result<(), ErrorPtr>> = Seq::empty();
    let mut k: usize = 0;
    loop
        invariant
            k <= executors.len(),
            outcomes.len() == k,
            forall|j: int| 0 <= j < outcomes.len() - 1 ==> #[trigger] outcomes[j] is Ok,
            k > 0 ==> outcomes.last() == last,
            k == 0 ==> last is Ok,
        ensures
            last is Err || k >= executors.len(),
        decreases executors.len() - k,
    {
        match next_in_turn(executors.len(), k, last.is_err()) {
            Some(index) => {
                last = executors[index].run_migrations(&configured.runner);
                proof {
                    outcomes = outcomes.push(last);
                }
                k += 1;
            },
            None => {
                break;
            },
        }
    }
    let ghost trace = MigrationTrace { sources: source_outcomes, runner: Some(configured), executors: outcomes };
    match last {
        Ok(()) => (Ok(()), Ghost(trace)),
        Err(e) => (Err(e), Ghost(trace)),
    }
}

/// The priority of the runner that runs migrations on application start: it runs before
/// runners of the default priority.
pub const MIGRATION_RUNNER_PRIORITY: i8 = 100;

/// Where migrations are looked for when none is given.
pub open spec fn default_migrations_directory() -> Seq<char> {
    "migrations"@
}

/// The directory migrations are discovered in: the given one, or `migrations`.
pub fn migrations_directory(given: Option<String>) -> (r: String)
    ensures
        match given {
            Some(d) => r@ == d@,
            None => r@ == default_migrations_directory(),
        },
{
    match given {
        Some(d) => d,
        None => "migrations".to_string(),
    }
}

/// A discovered migration file whose name cannot be extracted from its path.
pub struct MigrationNameError {
    pub path: String,
}

/// Whether a text occurs in another as one contiguous part.
pub open spec fn is_part_of(part: Seq<char>, whole: Seq<char>) -> bool {
    exists|i: int| 0 <= i && i + part.len() <= whole.len() && #[trigger] whole.subrange(i, i + part.len()) == part
}

/// The file stem of a path (`Path::file_stem`), as a string when it is valid UTF-8
/// (`OsStr::to_str`). The stem is a portion of the path's final component, and `/` separates
/// components on every platform, so a stem is a part of the path without `/`. How a path splits
/// into components otherwise depends on the platform, so which part it is is not stated.
#[verifier::external_body]
fn file_stem(path: &str) -> (r: Option<String>)
    ensures
        r matches Some(s) ==> is_part_of(s@, path@) && !s@.contains('/'),
{
    std::path::Path::new(path).file_stem().and_then(|stem| stem.to_str()).map(|stem| stem.to_string())
}

/// The name of a migration discovered at a path, given the path's file stem: the stem, or an
/// error naming the path when it has none.
pub fn migration_name(path: &str, stem: Option<String>) -> (r: Result<String, MigrationNameError>)
    ensures
        match stem {
            Some(s) => r matches Ok(n) && n@ == s@,
            None => r matches Err(e) && e.path@ == path@,
        },
{
    match stem {
        Some(s) => Ok(s),
        None => Err(MigrationNameError { path: path.to_string() }),
    }
}

/// Names the migrations discovered at the given paths, in order, each by its file stem; the
/// first path without one gives the error.
pub fn migration_names(paths: &Vec<String>) -> (r: Result<Vec<String>, MigrationNameError>)
    ensures
        r matches Ok(names) ==> {
            &&& names@.len() == paths@.len()
            &&& forall|i: int| 0 <= i < names@.len()
                ==> is_part_of((#[trigger] names@[i])@, paths@[i]@) && !names@[i]@.contains('/')
        },
        r matches Err(e) ==> exists|i: int| 0 <= i < paths@.len() && e.path@ == (#[trigger] paths@[i])@,
        paths@.len() == 0 ==> (r matches Ok(names) && names@.len() == 0),
{
    let mut names: Vec<String> = Vec::new();
    let mut i: usize = 0;
    while i < paths.len()
        invariant
            i <= paths.len(),
            names@.len() == i,
            forall|j: int| 0 <= j < i ==> is_part_of((#[trigger] names@[j])@, paths@[j]@) && !names@[j]@.contains('/'),
        decreases paths.len() - i,
    {
        let stem = file_stem(paths[i].as_str());
        match migration_name(paths[i].as_str(), stem) {
            Ok(name) => {
                names.push(name);
            },
            Err(e) => {
                assert(e.path@ == paths@[i as int]@);
                return Err(e);
            },
        }
        i += 1;
    }
    Ok(names)
}

} // verus!
