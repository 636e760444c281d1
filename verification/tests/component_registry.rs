use springtime::component_registry::{
    ComponentAliasDefinition, ComponentDefinitionRegistry, StaticComponentDefinitionRegistry, TypedComponentDefinition,
};
use springtime::conditional::{
    registered_component, unregistered_component, unregistered_name, ComponentDefinitionRegistryFacade,
    ConditionMetadata, ContextFactory, SimpleContextFactory,
};
use springtime::error::ComponentDefinitionRegistryError;
use springtime::registry::{ComponentAliasMetadata, ComponentMetadata};

#[derive(Clone, Copy, Debug, PartialEq)]
struct TestConstructor;

#[derive(Clone, Copy, Debug, PartialEq)]
enum TestCast {
    Component,
    Alias,
}

#[derive(Clone, Copy, Debug)]
enum Condition {
    Always,
    Never,
    Registered(u64),
    Unregistered(u64),
    UnregisteredName,
}

type Registry = StaticComponentDefinitionRegistry<TestConstructor, TestCast>;
type Definition = TypedComponentDefinition<TestConstructor, TestCast, Condition>;
type Alias = ComponentAliasDefinition<TestCast, Condition>;

const TEST_COMPONENT: u64 = 10;
const TEST_DEPENDENCY: u64 = 11;
const TEST_COMPONENT_2: u64 = 12;
const TEST_COMPONENT_3: u64 = 13;
const DISABLED_COMPONENT: u64 = 14;
const TEST_TRAIT_1: u64 = 21;
const TEST_TRAIT_2: u64 = 22;
const TEST_TRAIT_3: u64 = 23;

fn evaluate(registry: &Registry, condition: Condition, metadata: &ConditionMetadata<TestConstructor, TestCast>) -> bool {
    let context = SimpleContextFactory.create_context(registry);
    match condition {
        Condition::Always => true,
        Condition::Never => false,
        Condition::Registered(t) => registered_component(&context, t),
        Condition::Unregistered(t) => unregistered_component(&context, t),
        Condition::UnregisteredName => unregistered_name(&context, metadata),
    }
}

fn component_condition(registry: &Registry, definition: &Definition) -> bool {
    match definition.condition {
        Some(c) => evaluate(
            registry,
            c,
            &ConditionMetadata::Component { type_id: definition.target, metadata: &definition.metadata },
        ),
        None => true,
    }
}

fn alias_condition(registry: &Registry, alias: &Alias) -> bool {
    match alias.condition {
        Some(c) => evaluate(
            registry,
            c,
            &ConditionMetadata::Alias {
                alias_type: alias.alias_type,
                target_type: alias.target_type,
                metadata: &alias.metadata,
            },
        ),
        None => true,
    }
}

fn component(target: u64, names: &[&str], condition: Option<Condition>, priority: i8) -> Definition {
    TypedComponentDefinition {
        target,
        target_name: format!("type{}", target),
        condition,
        priority,
        metadata: ComponentMetadata {
            names: names.iter().map(|n| n.to_string()).collect(),
            scope: "SINGLETON".to_string(),
            constructor: TestConstructor,
            cast: TestCast::Component,
        },
    }
}

fn alias(alias_type: u64, target_type: u64, is_primary: bool, condition: Option<Condition>, priority: i8) -> Alias {
    ComponentAliasDefinition {
        alias_type,
        target_type,
        alias_name: format!("trait{}", alias_type),
        target_name: format!("type{}", target_type),
        condition,
        priority,
        metadata: ComponentAliasMetadata { is_primary, scope: None, cast: TestCast::Alias },
    }
}

fn empty_registry(allow_definition_overriding: bool) -> Registry {
    StaticComponentDefinitionRegistry::new(
        allow_definition_overriding,
        &vec![],
        &vec![],
        &component_condition,
        &alias_condition,
    )
    .unwrap()
}

/// The declarations of the components and aliases of the component tests: a dependency with
/// two trait aliases (one conditional on the dependency), two components, one of them with a
/// condition, a component enabled only while another is absent, and a disabled one.
fn declared_registry() -> Registry {
    let components = vec![
        component(TEST_DEPENDENCY, &["test_dependency"], None, 0),
        component(TEST_COMPONENT, &["test_component1"], None, 0),
        component(TEST_COMPONENT_2, &["dep2"], Some(Condition::Always), 0),
        component(TEST_COMPONENT_3, &["test_component3"], Some(Condition::Unregistered(TEST_COMPONENT_2)), 0),
        component(DISABLED_COMPONENT, &["disabled_component"], Some(Condition::Never), 0),
    ];
    let aliases = vec![
        alias(TEST_TRAIT_2, TEST_DEPENDENCY, false, None, 0),
        alias(TEST_TRAIT_3, TEST_DEPENDENCY, false, Some(Condition::Registered(TEST_DEPENDENCY)), 0),
        alias(TEST_TRAIT_1, TEST_COMPONENT_2, false, None, 0),
        alias(TEST_TRAIT_2, TEST_COMPONENT_2, true, Some(Condition::Always), 100),
        alias(TEST_TRAIT_2, TEST_COMPONENT_3, true, Some(Condition::Unregistered(TEST_COMPONENT_2)), 0),
    ];
    StaticComponentDefinitionRegistry::new(false, &components, &aliases, &component_condition, &alias_condition)
        .unwrap()
}

#[test]
fn component_registry_should_register_definition() {
    let mut registry = empty_registry(false);
    registry
        .register_component(
            TEST_COMPONENT,
            "TestComponent",
            &ComponentMetadata {
                names: vec!["a".to_string()],
                scope: "".to_string(),
                constructor: TestConstructor,
                cast: TestCast::Component,
            },
        )
        .unwrap();

    assert!(!registry.components_by_type(TEST_COMPONENT).is_empty());
    assert!(ComponentDefinitionRegistry::is_registered(&registry, TEST_COMPONENT));
    assert!(ComponentDefinitionRegistryFacade::is_registered(&registry, TEST_COMPONENT));
    assert!(ComponentDefinitionRegistry::is_name_registered(&registry, "a"));
}

#[test]
fn component_registry_should_not_register_duplicate_name() {
    let names = vec!["name".to_string()];
    let mut registry = empty_registry(false);
    registry
        .register_component(
            TEST_COMPONENT,
            "TestComponent",
            &ComponentMetadata {
                names: names.clone(),
                scope: "".to_string(),
                constructor: TestConstructor,
                cast: TestCast::Component,
            },
        )
        .unwrap();

    match registry
        .register_component(
            TEST_COMPONENT,
            "TestComponent",
            &ComponentMetadata { names, scope: "".to_string(), constructor: TestConstructor, cast: TestCast::Component },
        )
        .unwrap_err()
    {
        ComponentDefinitionRegistryError::DuplicateComponentName(name) => assert_eq!(name, "name"),
        e => panic!("unexpected error {:?}", e),
    }
}

#[test]
fn component_registry_should_override_duplicate_name() {
    let mut registry = empty_registry(true);
    registry
        .register_component(
            TEST_COMPONENT,
            "TestComponent",
            &ComponentMetadata {
                names: vec!["name".to_string()],
                scope: "".to_string(),
                constructor: TestConstructor,
                cast: TestCast::Component,
            },
        )
        .unwrap();
    registry
        .register_component(
            TEST_COMPONENT,
            "TestComponent",
            &ComponentMetadata {
                names: vec!["name2".to_string()],
                scope: "".to_string(),
                constructor: TestConstructor,
                cast: TestCast::Component,
            },
        )
        .unwrap();

    registry.component_by_name("name2", TEST_COMPONENT).unwrap();
}

#[test]
fn should_not_register_disabled_component() {
    let registry = declared_registry();
    assert!(!ComponentDefinitionRegistry::is_registered(&registry, DISABLED_COMPONENT));
}

#[test]
fn should_register_components() {
    let registry = declared_registry();
    assert!(!registry.components_by_type(TEST_DEPENDENCY).is_empty());
    assert!(!registry.components_by_type(TEST_COMPONENT_2).is_empty());
    assert!(!registry.components_by_type(TEST_TRAIT_1).is_empty());
    assert!(!registry.components_by_type(TEST_TRAIT_2).is_empty());
    assert!(!registry.components_by_type(TEST_TRAIT_3).is_empty());
    assert!(!ComponentDefinitionRegistry::is_registered(&registry, TEST_COMPONENT_3));
}

#[test]
fn should_register_alias_name() {
    let registry = declared_registry();
    assert!(registry.component_by_name("dep2", TEST_TRAIT_1).is_some());
}

#[test]
fn should_select_primary_alias_by_priority() {
    let registry = declared_registry();
    let primary = registry.primary_component(TEST_TRAIT_2).unwrap();
    assert_eq!(primary.resolved_type_id, TEST_COMPONENT_2);
    assert_eq!(registry.components_by_type(TEST_TRAIT_2).len(), 2);
}

#[test]
fn should_register_fallback_only_without_other_component() {
    let components = vec![
        component(TEST_COMPONENT_3, &["fallback"], Some(Condition::Unregistered(TEST_COMPONENT_2)), -128),
    ];
    let registry = StaticComponentDefinitionRegistry::new(false, &components, &vec![], &component_condition, &alias_condition)
        .unwrap();
    assert!(ComponentDefinitionRegistry::is_registered(&registry, TEST_COMPONENT_3));
}

#[test]
fn should_evaluate_conditions_by_priority() {
    let components = vec![
        component(TEST_COMPONENT_3, &["low"], Some(Condition::Unregistered(TEST_COMPONENT_2)), -1),
        component(TEST_COMPONENT_2, &["high"], Some(Condition::Always), 10),
    ];
    let registry = StaticComponentDefinitionRegistry::new(false, &components, &vec![], &component_condition, &alias_condition)
        .unwrap();
    assert!(ComponentDefinitionRegistry::is_registered(&registry, TEST_COMPONENT_2));
    assert!(!ComponentDefinitionRegistry::is_registered(&registry, TEST_COMPONENT_3));
}

#[test]
fn should_skip_component_with_registered_name() {
    let components = vec![
        component(TEST_COMPONENT, &["shared"], None, 0),
        component(TEST_COMPONENT_2, &["shared"], Some(Condition::UnregisteredName), 0),
    ];
    let registry = StaticComponentDefinitionRegistry::new(false, &components, &vec![], &component_condition, &alias_condition)
        .unwrap();
    assert!(ComponentDefinitionRegistry::is_registered(&registry, TEST_COMPONENT));
    assert!(!ComponentDefinitionRegistry::is_registered(&registry, TEST_COMPONENT_2));
}

#[test]
fn should_fail_on_duplicate_declared_names() {
    let components = vec![
        component(TEST_COMPONENT, &["shared"], None, 0),
        component(TEST_COMPONENT_2, &["shared"], None, 0),
    ];
    let result = StaticComponentDefinitionRegistry::new(false, &components, &vec![], &component_condition, &alias_condition);
    assert!(matches!(result, Err(ComponentDefinitionRegistryError::DuplicateComponentName(_))));
}

#[test]
fn should_skip_alias_of_disabled_component() {
    let components = vec![component(DISABLED_COMPONENT, &["disabled"], Some(Condition::Never), 0)];
    let aliases = vec![alias(TEST_TRAIT_1, DISABLED_COMPONENT, false, None, 0)];
    let registry = StaticComponentDefinitionRegistry::new(false, &components, &aliases, &component_condition, &alias_condition)
        .unwrap();
    assert!(!ComponentDefinitionRegistry::is_registered(&registry, TEST_TRAIT_1));
}

#[test]
fn should_fail_on_ambiguous_primary_alias() {
    let components = vec![component(TEST_COMPONENT, &["a"], None, 0), component(TEST_COMPONENT_2, &["b"], None, 0)];
    let aliases = vec![
        alias(TEST_TRAIT_1, TEST_COMPONENT, true, None, 0),
        alias(TEST_TRAIT_1, TEST_COMPONENT_2, true, None, 0),
    ];
    let result = StaticComponentDefinitionRegistry::new(false, &components, &aliases, &component_condition, &alias_condition);
    assert!(matches!(result, Err(ComponentDefinitionRegistryError::DuplicatePrimaryComponent { .. })));
}
