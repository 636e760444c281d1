use springtime::component_registry::{
    ComponentDefinitionRegistry, StaticComponentDefinitionRegistry, TypedComponentDefinition,
};
use springtime::error::ComponentInstanceProviderError;
use springtime::factory::{ComponentConstructor, ComponentFactory, ComponentFactoryBuilder};
use springtime::instance_provider::{primary_instance_option, ComponentInstanceProvider};
use springtime::registry::{ComponentAliasMetadata, ComponentMetadata};
use springtime::scope::{BuiltinScope, BuiltinScopeFactory, PROTOTYPE, SINGLETON};

const I8: u64 = 1;
const I16: u64 = 2;
const U8: u64 = 3;
const TEST_TRAIT_1: u64 = 21;
const TEST_TRAIT_2: u64 = 22;
const TEST_DEPENDENCY_1: u64 = 31;
const TEST_DEPENDENCY_2: u64 = 32;
const TEST_COMPONENT: u64 = 33;

#[derive(Clone, Copy, Debug, PartialEq)]
enum TestConstructor {
    /// Creates the instance with the given handle.
    Value(u64),
    /// Fails with a missing primary instance error.
    Failing,
    /// Requests the primary instance of the given type and returns it.
    Recursive(u64),
    /// Requests the dependencies of the test component, then creates the given handle.
    Composite(u64),
}

#[derive(Clone, Copy, Debug, PartialEq)]
enum TestCast {
    Component,
    Alias,
}

type Registry = StaticComponentDefinitionRegistry<TestConstructor, TestCast>;
type Factory = ComponentFactory<TestConstructor, TestCast, Registry, BuiltinScopeFactory, BuiltinScope>;

impl ComponentConstructor<Factory> for TestConstructor {
    fn construct(&self, provider: &mut Factory) -> Result<u64, ComponentInstanceProviderError> {
        match *self {
            TestConstructor::Value(handle) => Ok(handle),
            TestConstructor::Failing => Err(ComponentInstanceProviderError::NoPrimaryInstance(I8)),
            TestConstructor::Recursive(type_id) => provider.primary_instance(type_id).map(|(instance, _)| instance),
            TestConstructor::Composite(handle) => {
                provider.primary_instance(TEST_TRAIT_1)?;
                provider.primary_instance(TEST_DEPENDENCY_1)?;
                let all = provider.instances(TEST_TRAIT_1)?;
                assert_eq!(all.len(), 2);
                let optional = primary_instance_option(provider.primary_instance(TEST_TRAIT_2))?;
                assert!(optional.is_none());
                Ok(handle)
            },
        }
    }
}

fn empty_registry() -> Registry {
    StaticComponentDefinitionRegistry::new(
        true,
        &vec![],
        &vec![],
        &|_: &Registry, _: &TypedComponentDefinition<TestConstructor, TestCast, ()>| true,
        &|_: &Registry, _: &springtime::component_registry::ComponentAliasDefinition<TestCast, ()>| true,
    )
    .unwrap()
}

fn metadata(names: &[&str], scope: &str, constructor: TestConstructor) -> ComponentMetadata<TestConstructor, TestCast> {
    ComponentMetadata {
        names: names.iter().map(|n| n.to_string()).collect(),
        scope: scope.to_string(),
        constructor,
        cast: TestCast::Component,
    }
}

fn registry_with(type_id: u64, scope: &str, constructor: TestConstructor) -> Registry {
    let mut registry = empty_registry();
    registry.register_component(type_id, "i8", &metadata(&["name"], scope, constructor)).unwrap();
    registry
}

fn create_factory(registry: Registry) -> Factory {
    ComponentFactory::new(registry, vec![(PROTOTYPE.to_string(), BuiltinScopeFactory::Prototype)])
}

#[test]
fn should_return_primary_instance() {
    let mut factory = create_factory(registry_with(I8, PROTOTYPE, TestConstructor::Value(0)));
    assert!(factory.primary_instance(I8).is_ok());
}

#[test]
fn should_detect_primary_instance_loops() {
    let mut factory = create_factory(registry_with(I8, PROTOTYPE, TestConstructor::Recursive(I8)));
    assert!(matches!(
        factory.primary_instance(I8).unwrap_err(),
        ComponentInstanceProviderError::DependencyCycle(type_id) if type_id == I8
    ));
}

#[test]
fn should_not_return_missing_primary_instance() {
    let mut factory = create_factory(empty_registry());
    assert!(matches!(
        factory.primary_instance(I8).unwrap_err(),
        ComponentInstanceProviderError::NoPrimaryInstance(type_id) if type_id == I8
    ));
}

#[test]
fn should_recognize_primary_instance_missing_scope() {
    let mut factory = create_factory(registry_with(I8, SINGLETON, TestConstructor::Value(0)));
    assert!(matches!(
        factory.primary_instance(I8).unwrap_err(),
        ComponentInstanceProviderError::UnrecognizedScope(scope) if scope == SINGLETON
    ));
}

#[test]
fn should_forward_primary_instance_constructor_error() {
    let mut factory = create_factory(registry_with(I8, PROTOTYPE, TestConstructor::Failing));
    assert!(matches!(
        factory.primary_instance(I8).unwrap_err(),
        ComponentInstanceProviderError::NoPrimaryInstance(..)
    ));
}

#[test]
fn should_store_primary_instance_in_scope() {
    let registry = registry_with(I8, SINGLETON, TestConstructor::Value(42));
    let definition = registry.primary_component(I8).unwrap();
    let mut factory: Factory = ComponentFactory::new(registry, vec![(SINGLETON.to_string(), BuiltinScopeFactory::Singleton)]);

    factory.primary_instance(I8).unwrap();

    assert_eq!(factory.check_scope_instance(&definition).unwrap(), Some((42, TestCast::Component)));
}

#[test]
fn should_return_all_instances() {
    let mut registry = registry_with(I8, PROTOTYPE, TestConstructor::Value(1));
    registry.register_component(I16, "i16", &metadata(&["other"], PROTOTYPE, TestConstructor::Value(2))).unwrap();
    let alias = ComponentAliasMetadata { is_primary: false, scope: None, cast: TestCast::Alias };
    registry.register_alias(U8, I8, "u8", "i8", &alias).unwrap();
    registry.register_alias(U8, I16, "u8", "i16", &alias).unwrap();

    let mut factory = create_factory(registry);
    let instances = factory.instances(U8).unwrap();
    assert_eq!(instances.len(), 2);
    assert_eq!(instances, vec![(1, TestCast::Alias), (2, TestCast::Alias)]);
}

#[test]
fn should_return_instance_by_name() {
    let mut factory = create_factory(registry_with(I8, PROTOTYPE, TestConstructor::Value(0)));
    assert!(factory.instance_by_name("name", I8).is_ok());
    assert!(matches!(
        factory.instance_by_name("other", I8).unwrap_err(),
        ComponentInstanceProviderError::NoNamedInstance(name) if name == "other"
    ));
}

#[test]
fn should_reuse_singleton_instances() {
    let registry = registry_with(I8, SINGLETON, TestConstructor::Value(7));
    let mut factory = ComponentFactoryBuilder::new(registry).build();

    assert_eq!(factory.primary_instance(I8).unwrap(), (7, TestCast::Component));
    assert_eq!(factory.primary_instance(I8).unwrap(), (7, TestCast::Component));
    let definition = factory.primary_definition(I8).unwrap();
    assert_eq!(factory.check_scope_instance(&definition).unwrap(), Some((7, TestCast::Component)));
}

#[test]
fn should_not_keep_prototype_instances() {
    let registry = registry_with(I8, PROTOTYPE, TestConstructor::Value(7));
    let mut factory = ComponentFactoryBuilder::new(registry).build();

    factory.primary_instance(I8).unwrap();
    let definition = factory.primary_definition(I8).unwrap();
    assert_eq!(factory.check_scope_instance(&definition).unwrap(), None);
}

#[test]
fn should_create_components() {
    let mut registry = empty_registry();
    registry.register_component(TEST_DEPENDENCY_1, "TestDependency1", &metadata(&["test_dependency1"], SINGLETON, TestConstructor::Value(1))).unwrap();
    registry.register_component(TEST_DEPENDENCY_2, "TestDependency2", &metadata(&["test_dependency2"], SINGLETON, TestConstructor::Value(2))).unwrap();
    registry.register_alias(
        TEST_TRAIT_1,
        TEST_DEPENDENCY_1,
        "TestTrait1",
        "TestDependency1",
        &ComponentAliasMetadata { is_primary: false, scope: None, cast: TestCast::Alias },
    ).unwrap();
    registry.register_alias(
        TEST_TRAIT_1,
        TEST_DEPENDENCY_2,
        "TestTrait1",
        "TestDependency2",
        &ComponentAliasMetadata { is_primary: true, scope: None, cast: TestCast::Alias },
    ).unwrap();
    registry.register_component(TEST_COMPONENT, "TestComponent", &metadata(&["test_component"], SINGLETON, TestConstructor::Composite(3))).unwrap();

    let mut component_factory = ComponentFactoryBuilder::new(registry).build();

    let component = component_factory.primary_instance(TEST_COMPONENT);
    assert!(component.is_ok());
}

#[test]
fn should_build_factory_with_custom_scope() {
    let registry = registry_with(I8, "custom", TestConstructor::Value(4));
    let mut factory = ComponentFactoryBuilder::new(empty_registry())
        .with_definition_registry(registry)
        .with_scope_factory("custom".to_string(), BuiltinScopeFactory::Singleton)
        .build();

    assert_eq!(factory.primary_instance(I8).unwrap(), (4, TestCast::Component));

    let registry = registry_with(I8, "custom", TestConstructor::Value(4));
    let mut factory: Factory = ComponentFactoryBuilder::new(registry)
        .with_scope_factories(vec![(PROTOTYPE.to_string(), BuiltinScopeFactory::Prototype)])
        .build();
    assert!(matches!(
        factory.primary_instance(I8).unwrap_err(),
        ComponentInstanceProviderError::UnrecognizedScope(scope) if scope == "custom"
    ));
}

#[test]
fn should_end_construction_after_constructor_error() {
    let mut factory = create_factory(registry_with(I8, PROTOTYPE, TestConstructor::Failing));
    for _ in 0..2 {
        assert!(matches!(
            factory.primary_instance(I8).unwrap_err(),
            ComponentInstanceProviderError::NoPrimaryInstance(type_id) if type_id == I8
        ));
    }
}

#[test]
fn should_not_report_cycle_for_repeated_dependency() {
    let mut registry = registry_with(I8, PROTOTYPE, TestConstructor::Value(1));
    registry.register_component(I16, "i16", &metadata(&["other"], PROTOTYPE, TestConstructor::Recursive(I8))).unwrap();
    let mut factory = create_factory(registry);
    assert_eq!(factory.primary_instance(I16).unwrap(), (1, TestCast::Component));
    assert_eq!(factory.primary_instance(I16).unwrap(), (1, TestCast::Component));
}

#[test]
fn should_build_factory_from_definitions_with_overriding() {
    let definitions = vec![
        TypedComponentDefinition {
            target: I8,
            target_name: "i8".to_string(),
            condition: None,
            priority: 0,
            metadata: metadata(&["name"], SINGLETON, TestConstructor::Value(1)),
        },
        TypedComponentDefinition {
            target: I8,
            target_name: "i8".to_string(),
            condition: None,
            priority: 0,
            metadata: metadata(&["name"], SINGLETON, TestConstructor::Value(2)),
        },
    ];
    let builder = ComponentFactoryBuilder::from_definitions(
        &definitions,
        &vec![],
        &|_: &Registry, _: &TypedComponentDefinition<TestConstructor, TestCast, ()>| true,
        &|_: &Registry, _: &springtime::component_registry::ComponentAliasDefinition<TestCast, ()>| true,
    );
    let mut factory: Factory = match builder {
        Ok(b) => b.build(),
        Err(_) => panic!("overriding is allowed"),
    };
    assert_eq!(factory.primary_instance(I8).map(|(i, _)| i).ok(), Some(2));
}
