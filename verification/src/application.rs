//! Core application logic: running the application runners by priority.

use vstd::prelude::*;

use crate::config::ApplicationConfig;
use crate::error::{steps_result, stopped_at_first_error, ComponentDefinitionRegistryError, ComponentInstanceProviderError, ErrorPtr};
use crate::ordering::{order_by_priority, priority_order};
use crate::runner::ApplicationRunner;

verus! {

/// Errors reported when running an application.
#[derive(Clone, Debug)]
pub enum ApplicationError {
    /// There was an error retrieving application runners from the component instance factory.
    RunnerInjectionError(ComponentInstanceProviderError),
    /// A runner returned an error.
    RunnerError(ErrorPtr),
    /// Cannot find any application config provider.
    MissingApplicationConfigProvider(ComponentInstanceProviderError),
    /// An error occurred while creating the default application.
    DefaultInitializationError(ComponentDefinitionRegistryError),
    /// The application config provider returned an error.
    CannotRetrieveApplicationConfig(ErrorPtr),
}

/// What the outcome of running one runner makes of the application run: it goes on after
/// success, and a runner error ends it with that error.
pub fn runner_result(result: Result<(), ErrorPtr>) -> (r: Result<(), ApplicationError>)
    ensures
        match result {
            Ok(()) => r == Ok::<(), ApplicationError>(()),
            Err(e) => r == Err::<(), ApplicationError>(ApplicationError::RunnerError(e)),
        },
{
    match result {
        Ok(()) => Ok(()),
        Err(e) => Err(ApplicationError::RunnerError(e)),
    }
}

/// The position of the runner to run next: after the `k` runners run so far in `order`, whose
/// last outcome is `last`, the next one in `order`; none once a runner has failed or every
/// runner has run.
pub fn next_runner(order: &Vec<usize>, k: usize, last: &Result<(), ErrorPtr>) -> (r: Option<usize>)
    ensures
        last is Err ==> r is None,
        last is Ok && k < order@.len() ==> r == Some(order@[k as int]),
        last is Ok && k >= order@.len() ==> r is None,
{
    if last.is_err() || k >= order.len() {
        None
    } else {
        Some(order[k])
    }
}

/// What running the runners did: the priority each runner reported, the positions of the
/// runners run, in the order they ran, and what each of them returned.
pub struct RunnerTrace {
    pub priorities: Seq<i8>,
    pub ran: Seq<usize>,
    pub outcomes: Seq<Result<(), ErrorPtr>>,
}

/// What a run of the runners ends with, given what the runners run returned: the error of the
/// last one, if it failed, as a runner error; otherwise success.
pub open spec fn runners_result(outcomes: Seq<Result<(), ErrorPtr>>) -> Result<(), ApplicationError> {
    match steps_result(outcomes) {
        Ok(()) => Ok(()),
        Err(e) => Err(ApplicationError::RunnerError(e)),
    }
}

/// Runs the runners by priority, highest first, runners of equal priority in their order: each
/// runner runs at most once, in the order [order_by_priority] gives for the priorities the
/// runners report, as [next_runner] picks it, and the first runner error stops the run and is
/// returned as a runner error. What each runner returns is decided by the runner; the returned
/// trace holds the priorities, the runners run and their outcomes.
pub fn run_runners<R: ApplicationRunner>(runners: &Vec<R>) -> (r: (Result<(), ApplicationError>, Ghost<RunnerTrace>))
    ensures
        r.1@.priorities.len() == runners@.len(),
        forall|i: int| 0 <= i < runners@.len() ==> r.1@.priorities[i] == (#[trigger] runners@[i]).spec_priority(),
        r.1@.ran == priority_order(r.1@.priorities).take(r.1@.outcomes.len() as int),
        stopped_at_first_error(r.1@.outcomes, runners@.len()),
        r.0 == runners_result(r.1@.outcomes),
{
    let mut priorities: Vec<i8> = Vec::new();
    let mut i: usize = 0;
    while i < runners.len()
        invariant
            i <= runners.len(),
            priorities@.len() == i,
            forall|j: int| 0 <= j < i ==> priorities@[j] == (#[trigger] runners@[j]).spec_priority(),
        decreases runners.len() - i,
    {
        priorities.push(runners[i].priority());
        i += 1;
    }
    let order = order_by_priority(&priorities);
    let mut last: Result<(), ErrorPtr> = Ok(());
    let ghost mut outcomes: Seq<Result<(), ErrorPtr>> = Seq::empty();
    let mut k: usize = 0;
    loop
        invariant
            k <= order@.len(),
            order@.len() == runners@.len(),
            order@ == priority_order(priorities@),
            priorities@.len() == runners@.len(),
            forall|j: int| 0 <= j < order@.len() ==> #[trigger] order@[j] < runners@.len(),
            outcomes.len() == k,
            forall|j: int| 0 <= j < outcomes.len() - 1 ==> #[trigger] outcomes[j] is Ok,
            k == 0 ==> last is Ok,
            k > 0 ==> outcomes.last() == last,
        ensures
            last is Err || k >= order@.len(),
        decreases order@.len() - k,
    {
        match next_runner(&order, k, &last) {
            Some(index) => {
                assert(k < order.len());
                last = runners[index].run();
                proof {
                    outcomes = outcomes.push(last);
                }
                k += 1;
            },
            None => {
                break;
            },
        }
    }
    let ghost trace = RunnerTrace { priorities: priorities@, ran: order@.take(k as int), outcomes };
    (runner_result(last), Ghost(trace))
}

/// Passes on the primary application config provider found, or reports that none can be had.
pub fn config_provider_or_error<T>(lookup: Result<T, ComponentInstanceProviderError>) -> (r: Result<T, ApplicationError>)
    ensures
        match lookup {
            Ok(p) => r == Ok::<T, ApplicationError>(p),
            Err(e) => r == Err::<T, ApplicationError>(ApplicationError::MissingApplicationConfigProvider(e)),
        },
{
    match lookup {
        Ok(p) => Ok(p),
        Err(e) => Err(ApplicationError::MissingApplicationConfigProvider(e)),
    }
}

/// Decides whether the tracing logger is installed, given the configuration the provider
/// returned; a provider error cannot be retrieved as configuration.
pub fn logger_installation(config: Result<&ApplicationConfig, ErrorPtr>) -> (r: Result<bool, ApplicationError>)
    ensures
        match config {
            Ok(c) => r == Ok::<bool, ApplicationError>(c.install_tracing_logger),
            Err(e) => r == Err::<bool, ApplicationError>(ApplicationError::CannotRetrieveApplicationConfig(e)),
        },
{
    match config {
        Ok(c) => Ok(c.install_tracing_logger),
        Err(e) => Err(ApplicationError::CannotRetrieveApplicationConfig(e)),
    }
}

/// Passes on the application runners found, or reports that they cannot be retrieved.
pub fn runners_or_error<T>(lookup: Result<Vec<T>, ComponentInstanceProviderError>) -> (r: Result<Vec<T>, ApplicationError>)
    ensures
        match lookup {
            Ok(v) => r == Ok::<Vec<T>, ApplicationError>(v),
            Err(e) => r == Err::<Vec<T>, ApplicationError>(ApplicationError::RunnerInjectionError(e)),
        },
{
    match lookup {
        Ok(v) => Ok(v),
        Err(e) => Err(ApplicationError::RunnerInjectionError(e)),
    }
}

} // verus!
