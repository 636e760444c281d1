use springtime::conditional::{
    registered_component, unregistered_component, unregistered_name, ConditionMetadata, ContextFactory, SimpleContextFactory,
};
use springtime::registry::{ComponentAliasMetadata, ComponentMetadata};
use springtime::component_registry::{
    ComponentAliasDefinition, ComponentDefinitionRegistry, StaticComponentDefinitionRegistry, TypedComponentDefinition,
};

const TEST_COMPONENT: u64 = 7;
const I8: u64 = 1;

#[derive(Clone, Copy, Debug)]
struct TestConstructor;

#[derive(Clone, Copy, Debug)]
struct TestCast;

type Registry = StaticComponentDefinitionRegistry<TestConstructor, TestCast>;

/// A registry holding a component of the test type under the given names, or an empty one.
fn registry(with_component: bool, names: &[&str]) -> Registry {
    let mut registry = StaticComponentDefinitionRegistry::new(
        false,
        &vec![],
        &vec![],
        &|_: &Registry, _: &TypedComponentDefinition<TestConstructor, TestCast, ()>| true,
        &|_: &Registry, _: &ComponentAliasDefinition<TestCast, ()>| true,
    )
    .unwrap();
    if with_component {
        registry
            .register_component(
                TEST_COMPONENT,
                "TestComponent",
                &ComponentMetadata {
                    names: names.iter().map(|n| n.to_string()).collect(),
                    scope: "".to_string(),
                    constructor: TestConstructor,
                    cast: TestCast,
                },
            )
            .unwrap();
    }
    registry
}

#[test]
fn should_check_for_component_existence() {
    let registered = registry(true, &[]);
    let context = SimpleContextFactory.create_context(&registered);
    assert!(registered_component(&context, TEST_COMPONENT));
    assert!(!unregistered_component(&context, TEST_COMPONENT));

    let missing = registry(false, &[]);
    let context = SimpleContextFactory.create_context(&missing);
    assert!(!registered_component(&context, TEST_COMPONENT));
    assert!(unregistered_component(&context, TEST_COMPONENT));
}

#[test]
fn should_check_for_name_existence() {
    let registry = registry(true, &["n1"]);
    let context = SimpleContextFactory.create_context(&registry);

    let metadata = ComponentMetadata {
        names: vec!["n2".to_string(), "n1".to_string()],
        scope: "".to_string(),
        constructor: TestConstructor,
        cast: TestCast,
    };
    let metadata = ConditionMetadata::Component { type_id: TEST_COMPONENT, metadata: &metadata };

    assert!(!unregistered_name(&context, &metadata));

    let metadata = ComponentAliasMetadata { is_primary: false, scope: None, cast: TestCast };
    let metadata: ConditionMetadata<TestConstructor, TestCast> =
        ConditionMetadata::Alias { alias_type: I8, target_type: TEST_COMPONENT, metadata: &metadata };

    assert!(unregistered_name(&context, &metadata));
}

#[test]
fn should_accept_component_with_new_names() {
    let registry = registry(true, &["n1"]);
    let context = SimpleContextFactory.create_context(&registry);

    let metadata = ComponentMetadata {
        names: vec!["n2".to_string(), "n3".to_string()],
        scope: "".to_string(),
        constructor: TestConstructor,
        cast: TestCast,
    };
    let metadata = ConditionMetadata::Component { type_id: TEST_COMPONENT, metadata: &metadata };

    assert!(unregistered_name(&context, &metadata));
}
