use springtime::error::{ComponentInstanceProviderError, ErrorPtr};
use springtime::instance_provider::{
    cast_instance, instance_by_name_option, instances_typed, primary_instance_option, ComponentInstanceProvider,
};

const TEST_COMPONENT: u64 = 7;

#[derive(Clone, Copy, Debug, PartialEq)]
struct TestCast;

/// The typed view of an instance of the test component.
fn test_cast(_cast: TestCast, instance: u64, type_id: u64) -> Option<u64> {
    if type_id == TEST_COMPONENT {
        Some(instance)
    } else {
        None
    }
}

/// A provider answering every request for the test component with one instance, and checking
/// what it was asked.
struct SingleInstanceProvider {
    expected_name: &'static str,
    calls: usize,
}

impl ComponentInstanceProvider<TestCast> for SingleInstanceProvider {
    fn primary_instance(&mut self, type_id: u64) -> Result<(u64, TestCast), ComponentInstanceProviderError> {
        assert_eq!(type_id, TEST_COMPONENT);
        self.calls += 1;
        Ok((5, TestCast))
    }

    fn instances(&mut self, type_id: u64) -> Result<Vec<(u64, TestCast)>, ComponentInstanceProviderError> {
        assert_eq!(type_id, TEST_COMPONENT);
        self.calls += 1;
        Ok(vec![(5, TestCast)])
    }

    fn instance_by_name(&mut self, name: &str, type_id: u64) -> Result<(u64, TestCast), ComponentInstanceProviderError> {
        assert_eq!(name, self.expected_name);
        assert_eq!(type_id, TEST_COMPONENT);
        self.calls += 1;
        Ok((5, TestCast))
    }
}

fn typed(result: Result<(u64, TestCast), ComponentInstanceProviderError>) -> Result<u64, ComponentInstanceProviderError> {
    result.and_then(|(i, c)| cast_instance(test_cast(c, i, TEST_COMPONENT), TEST_COMPONENT))
}

fn provider() -> SingleInstanceProvider {
    SingleInstanceProvider { expected_name: "name", calls: 0 }
}

#[test]
fn should_provide_primary_instance_typed() {
    let mut instance_provider = provider();
    assert!(typed(instance_provider.primary_instance(TEST_COMPONENT)).is_ok());
    assert_eq!(instance_provider.calls, 1);
}

#[test]
fn should_provide_primary_instance_option() {
    let mut instance_provider = provider();
    assert!(primary_instance_option(typed(instance_provider.primary_instance(TEST_COMPONENT))).unwrap().is_some());
    assert_eq!(instance_provider.calls, 1);
}

#[test]
fn should_provide_instances_typed() {
    let mut instance_provider = provider();
    let all = instance_provider.instances(TEST_COMPONENT).unwrap();
    let casts = all.iter().map(|(i, c)| test_cast(*c, *i, TEST_COMPONENT)).collect();
    assert!(!instances_typed(casts, TEST_COMPONENT).unwrap().is_empty());
    assert_eq!(instance_provider.calls, 1);
}

#[test]
fn should_provide_instance_by_name_typed() {
    let name = "name";
    let mut instance_provider = provider();
    assert!(typed(instance_provider.instance_by_name(name, TEST_COMPONENT)).is_ok());
    assert_eq!(instance_provider.calls, 1);
}

#[test]
fn should_provide_instance_by_name_option() {
    let name = "name";
    let mut instance_provider = provider();
    assert!(instance_by_name_option(typed(instance_provider.instance_by_name(name, TEST_COMPONENT))).unwrap().is_some());
    assert_eq!(instance_provider.calls, 1);
}

#[test]
fn should_turn_failed_cast_into_incompatible_component() {
    assert_eq!(cast_instance(Some(3u64), 9).unwrap(), 3);
    assert!(matches!(cast_instance::<u64>(None, 9), Err(ComponentInstanceProviderError::IncompatibleComponent(9))));
}

#[test]
fn should_turn_missing_instances_into_none() {
    let missing: Result<u64, ComponentInstanceProviderError> = Err(ComponentInstanceProviderError::NoPrimaryInstance(1));
    assert_eq!(primary_instance_option(missing).unwrap(), None);
    let missing_name: Result<u64, ComponentInstanceProviderError> =
        Err(ComponentInstanceProviderError::NoNamedInstance("x".to_string()));
    assert_eq!(instance_by_name_option(missing_name).unwrap(), None);
    let missing_name: Result<u64, ComponentInstanceProviderError> =
        Err(ComponentInstanceProviderError::NoNamedInstance("x".to_string()));
    assert!(matches!(primary_instance_option(missing_name), Err(ComponentInstanceProviderError::NoNamedInstance(_))));
    let failed: Result<u64, ComponentInstanceProviderError> =
        Err(ComponentInstanceProviderError::ConstructorError(ErrorPtr::new("boom".to_string())));
    assert!(matches!(instance_by_name_option(failed), Err(ComponentInstanceProviderError::ConstructorError(_))));
}

#[test]
fn should_reject_instances_when_one_cast_fails() {
    let casts = vec![Some(1u64), None, Some(3)];
    assert!(matches!(instances_typed(casts, 4), Err(ComponentInstanceProviderError::IncompatibleComponent(4))));
    assert_eq!(instances_typed(vec![Some(1u64), Some(2)], 4).unwrap(), vec![1, 2]);
    assert!(instances_typed(Vec::<Option<u64>>::new(), 4).unwrap().is_empty());
}
