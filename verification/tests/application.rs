use springtime::application::{
    config_provider_or_error, logger_installation, next_runner, run_runners, runner_result, runners_or_error,
    ApplicationError,
};
use springtime::config::ApplicationConfig;
use springtime::error::{ComponentInstanceProviderError, ErrorPtr};
use springtime::ordering::order_by_priority;
use springtime::runner::{ApplicationRunner, DEFAULT_PRIORITY};
use std::cell::RefCell;
use std::rc::Rc;

#[derive(Debug)]
struct RecordingRunner {
    id: u8,
    priority: i8,
    fail: bool,
    log: Rc<RefCell<Vec<u8>>>,
}

impl ApplicationRunner for RecordingRunner {
    fn run(&self) -> Result<(), ErrorPtr> {
        self.log.borrow_mut().push(self.id);
        if self.fail {
            Err(ErrorPtr::new(format!("runner {} failed", self.id)))
        } else {
            Ok(())
        }
    }

    fn spec_priority(&self) -> i8 {
        self.priority
    }

    fn priority(&self) -> i8 {
        self.priority
    }
}

fn runner(id: u8, priority: i8, fail: bool, log: &Rc<RefCell<Vec<u8>>>) -> RecordingRunner {
    RecordingRunner { id, priority, fail, log: log.clone() }
}

#[test]
fn should_order_by_descending_priority_keeping_ties() {
    assert_eq!(order_by_priority(&vec![0, 100, -128, 100, 0]), vec![1, 3, 0, 4, 2]);
    assert!(order_by_priority(&vec![]).is_empty());
    assert_eq!(order_by_priority(&vec![-128, 127]), vec![1, 0]);
}

#[test]
fn should_pick_next_runner_until_first_error() {
    let order = vec![2, 0, 1];
    assert_eq!(next_runner(&order, 0, &Ok(())), Some(2));
    assert_eq!(next_runner(&order, 2, &Ok(())), Some(1));
    assert_eq!(next_runner(&order, 3, &Ok(())), None);
    assert_eq!(next_runner(&order, 1, &Err(ErrorPtr::new("stop".to_string()))), None);
}

#[test]
fn should_run_runners_by_priority() {
    let log = Rc::new(RefCell::new(vec![]));
    let runners = vec![runner(1, 0, false, &log), runner(2, 100, false, &log), runner(3, 0, false, &log)];
    assert!(run_runners(&runners).0.is_ok());
    assert_eq!(*log.borrow(), vec![2, 1, 3]);
}

#[test]
fn should_return_injector_error() {
    let type_id = 42;
    let lookup: Result<Vec<RecordingRunner>, ComponentInstanceProviderError> =
        Err(ComponentInstanceProviderError::NoPrimaryInstance(type_id));
    assert!(matches!(runners_or_error(lookup).unwrap_err(), ApplicationError::RunnerInjectionError(_)));
}

#[test]
fn should_decide_logger_installation() {
    let mut config = ApplicationConfig::default();
    assert!(logger_installation(Ok(&config)).unwrap());
    config.install_tracing_logger = false;
    assert!(!logger_installation(Ok(&config)).unwrap());
    match logger_installation(Err(ErrorPtr::new("unreadable".to_string()))) {
        Err(ApplicationError::CannotRetrieveApplicationConfig(e)) => assert_eq!(e.message, "unreadable"),
        _ => panic!("expected a configuration error"),
    }
    let missing: Result<u8, ComponentInstanceProviderError> = Err(ComponentInstanceProviderError::NoPrimaryInstance(1));
    assert!(matches!(config_provider_or_error(missing), Err(ApplicationError::MissingApplicationConfigProvider(_))));
    assert_eq!(config_provider_or_error::<u8>(Ok(3)).unwrap(), 3);
}

#[test]
fn should_return_runner_error() {
    let log = Rc::new(RefCell::new(vec![]));
    let runners = vec![runner(1, 0, false, &log), runner(2, 5, true, &log), runner(3, -1, false, &log)];
    match run_runners(&runners).0 {
        Err(ApplicationError::RunnerError(e)) => assert_eq!(e.message, "runner 2 failed"),
        _ => panic!("expected a runner error"),
    }
    assert_eq!(*log.borrow(), vec![2]);
}

#[test]
fn should_accept_no_runners() {
    let runners: Vec<RecordingRunner> = vec![];
    assert!(run_runners(&runners).0.is_ok());
}

struct DefaultPriorityRunner;

impl ApplicationRunner for DefaultPriorityRunner {
    fn run(&self) -> Result<(), ErrorPtr> {
        Ok(())
    }

    fn spec_priority(&self) -> i8 {
        DEFAULT_PRIORITY
    }

    fn priority(&self) -> i8 {
        DEFAULT_PRIORITY
    }
}

#[test]
fn should_map_runner_outcomes() {
    assert!(runner_result(Ok(())).is_ok());
    match runner_result(Err(ErrorPtr::new("stop".to_string()))) {
        Err(ApplicationError::RunnerError(e)) => assert_eq!(e.message, "stop"),
        _ => panic!("expected a runner error"),
    }
    assert_eq!(DefaultPriorityRunner.priority(), 0);
}

#[test]
fn should_run_lowest_priority_runner_last() {
    let log = Rc::new(RefCell::new(vec![]));
    let runners = vec![runner(1, -128, false, &log), runner(2, 127, false, &log), runner(3, 0, false, &log)];
    assert!(run_runners(&runners).0.is_ok());
    assert_eq!(*log.borrow(), vec![2, 3, 1]);
}
