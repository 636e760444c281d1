use springtime::error::ComponentDefinitionRegistryError;
use springtime::registry::{ComponentAliasMetadata, ComponentMetadata, NamedComponentDefinitionMap};

#[derive(Clone, Copy, Debug, PartialEq)]
struct TestConstructor;

#[derive(Clone, Copy, Debug, PartialEq)]
enum TestCast {
    Component,
    Alias,
}

const I8: u64 = 1;
const I16: u64 = 2;
const U8: u64 = 3;
const U16: u64 = 4;

fn create_metadata() -> (ComponentMetadata<TestConstructor, TestCast>, u64) {
    (
        ComponentMetadata {
            names: vec!["name".to_string()],
            scope: "".to_string(),
            constructor: TestConstructor,
            cast: TestCast::Component,
        },
        I8,
    )
}

fn alias(is_primary: bool, scope: Option<String>) -> ComponentAliasMetadata<TestCast> {
    ComponentAliasMetadata { is_primary, scope, cast: TestCast::Alias }
}

#[test]
fn should_reject_primary_alias_for_ambiguous_target() {
    let definition = ComponentMetadata {
        names: vec![],
        scope: "".to_string(),
        constructor: TestConstructor,
        cast: TestCast::Component,
    };
    let alias_id_1 = U8;
    let alias_id_2 = U16;
    let target_id_1 = I16;
    let target_id_2 = U16;

    let mut registry = NamedComponentDefinitionMap::new();
    registry.try_register_component(target_id_1, "", &definition, false).unwrap();
    registry.try_register_component(target_id_2, "", &definition, false).unwrap();
    registry.try_register_alias(alias_id_1, target_id_1, "", "", &alias(false, None)).unwrap();
    registry.try_register_alias(alias_id_1, target_id_2, "", "", &alias(false, None)).unwrap();

    assert!(matches!(
        registry.try_register_alias(alias_id_2, alias_id_1, "", "", &alias(true, None)).unwrap_err(),
        ComponentDefinitionRegistryError::DuplicatePrimaryComponent { .. }
    ));
}

#[test]
fn should_register_definition() {
    let (definition, id) = create_metadata();

    let mut registry = NamedComponentDefinitionMap::new();
    registry.try_register_component(id, "", &definition, false).unwrap();

    assert_eq!(registry.components_by_type(id)[0].names, definition.names);
    assert_eq!(registry.component_by_name("name", id).unwrap().names, definition.names);
    assert!(registry.is_registered(id));
    assert!(registry.is_name_registered("name"));
}

#[test]
fn should_not_register_duplicate_name() {
    let (definition, id) = create_metadata();

    let mut registry = NamedComponentDefinitionMap::new();
    registry.try_register_component(id, "", &definition, false).unwrap();

    assert!(matches!(
        registry.try_register_component(id, "", &definition, false).unwrap_err(),
        ComponentDefinitionRegistryError::DuplicateComponentName(..)
    ));
}

#[test]
fn should_override_duplicate_name() {
    let (definition, id) = create_metadata();

    let mut registry = NamedComponentDefinitionMap::new();
    registry.try_register_component(id, "", &definition, true).unwrap();
    registry.try_register_component(id, "", &definition, true).unwrap();
}

#[test]
fn should_register_alias() {
    let (definition, id) = create_metadata();
    let alias_id = U8;

    let mut registry = NamedComponentDefinitionMap::new();
    registry.try_register_component(id, "", &definition, false).unwrap();
    registry.try_register_alias(alias_id, id, "", "", &alias(false, None)).unwrap();

    assert_eq!(registry.components_by_type(alias_id)[0].names, definition.names);
}

#[test]
fn should_register_alias_scope() {
    let (definition, id) = create_metadata();
    let alias_id = U8;

    let mut registry = NamedComponentDefinitionMap::new();
    registry.try_register_component(id, "", &definition, false).unwrap();
    registry.try_register_alias(alias_id, id, "", "", &alias(false, Some("scope".to_string()))).unwrap();

    assert_eq!(registry.components_by_type(alias_id)[0].scope, "scope");
}

#[test]
fn should_reject_duplicate_primary_alias() {
    let (definition, id) = create_metadata();
    let alias_id = U8;

    let mut registry = NamedComponentDefinitionMap::new();
    registry.try_register_component(id, "", &definition, false).unwrap();
    registry.try_register_alias(alias_id, id, "", "", &alias(true, None)).unwrap();

    assert!(matches!(
        registry.try_register_alias(alias_id, id, "", "", &alias(true, None)).unwrap_err(),
        ComponentDefinitionRegistryError::DuplicatePrimaryComponent { .. }
    ));
}

#[test]
fn should_return_primary_single_definition() {
    let (definition, id) = create_metadata();
    let alias_id = U8;

    let mut registry = NamedComponentDefinitionMap::new();
    registry.try_register_component(id, "", &definition, false).unwrap();
    registry.try_register_alias(alias_id, id, "", "", &alias(false, None)).unwrap();

    assert!(registry.primary_component(alias_id).is_some());
}

#[test]
fn should_return_explicit_primary_definition() {
    let (definition, id_1) = create_metadata();
    let id_2 = U16;
    let alias_id = U8;

    let mut registry = NamedComponentDefinitionMap::new();
    registry.try_register_component(id_1, "", &definition, false).unwrap();
    registry.try_register_component(id_2, "", &definition, true).unwrap();
    registry.try_register_alias(alias_id, id_1, "", "", &alias(false, None)).unwrap();
    registry.try_register_alias(alias_id, id_2, "", "", &alias(true, None)).unwrap();

    assert!(registry.primary_component(alias_id).is_some());
}

#[test]
fn should_not_return_unknown_primary_definition() {
    let (definition, id_1) = create_metadata();
    let id_2 = U16;
    let alias_id = U8;

    let mut registry = NamedComponentDefinitionMap::new();
    registry.try_register_component(id_1, "", &definition, false).unwrap();
    registry.try_register_component(id_2, "", &definition, true).unwrap();
    registry.try_register_alias(alias_id, id_1, "", "", &alias(false, None)).unwrap();
    registry.try_register_alias(alias_id, id_2, "", "", &alias(false, None)).unwrap();

    assert!(registry.primary_component(alias_id).is_none());
}

#[test]
fn should_reject_duplicate_component_type() {
    let (definition, id) = create_metadata();
    let other = ComponentMetadata {
        names: vec!["other".to_string()],
        scope: "".to_string(),
        constructor: TestConstructor,
        cast: TestCast::Component,
    };

    let mut registry = NamedComponentDefinitionMap::new();
    registry.try_register_component(id, "i8", &definition, false).unwrap();

    match registry.try_register_component(id, "i8", &other, false).unwrap_err() {
        ComponentDefinitionRegistryError::DuplicateComponentType(name) => assert_eq!(name, "i8"),
        e => panic!("unexpected error {:?}", e),
    }
    assert!(!registry.is_name_registered("other"));
}

#[test]
fn should_reject_alias_of_missing_target() {
    let mut registry: NamedComponentDefinitionMap<TestConstructor, TestCast> = NamedComponentDefinitionMap::new();

    match registry.try_register_alias(U8, I8, "alias", "target", &alias(false, None)).unwrap_err() {
        ComponentDefinitionRegistryError::MissingBaseComponent { alias_type, target_type } => {
            assert_eq!(alias_type, "alias");
            assert_eq!(target_type, "target");
        },
        e => panic!("unexpected error {:?}", e),
    }
    assert!(!registry.is_registered(U8));
}

#[test]
fn should_replace_names_of_overridden_definition() {
    let (definition, id) = create_metadata();
    let renamed = ComponentMetadata {
        names: vec!["name2".to_string()],
        scope: "".to_string(),
        constructor: TestConstructor,
        cast: TestCast::Component,
    };

    let mut registry = NamedComponentDefinitionMap::new();
    registry.try_register_component(id, "", &definition, true).unwrap();
    registry.try_register_component(id, "", &renamed, true).unwrap();

    assert_eq!(registry.components_by_type(id).len(), 1);
    assert!(registry.is_name_registered("name2"));
    assert!(!registry.is_name_registered("name"));
    assert!(registry.component_by_name("name", id).is_none());
}

#[test]
fn should_see_target_through_alias() {
    let (definition, id) = create_metadata();

    let mut registry = NamedComponentDefinitionMap::new();
    registry.try_register_component(id, "", &definition, false).unwrap();
    registry.try_register_alias(U8, id, "", "", &alias(true, Some("scope".to_string()))).unwrap();

    let seen = registry.components_by_type(U8);
    assert_eq!(seen.len(), 1);
    assert!(seen[0].is_primary);
    assert_eq!(seen[0].cast, TestCast::Alias);
    assert_eq!(seen[0].scope, "scope");
    assert_eq!(seen[0].resolved_type_id, id);
    let target = registry.components_by_type(id);
    assert!(!target[0].is_primary);
    assert_eq!(target[0].cast, TestCast::Component);
    assert_eq!(registry.component_by_name("name", U8).unwrap().resolved_type_id, id);
    assert!(registry.all_definitions().contains_key(&U8));
}

#[test]
fn should_keep_names_carried_by_other_types_after_override() {
    let (definition, id) = create_metadata();
    let renamed = ComponentMetadata {
        names: vec!["name2".to_string()],
        scope: "".to_string(),
        constructor: TestConstructor,
        cast: TestCast::Component,
    };

    let mut registry = NamedComponentDefinitionMap::new();
    registry.try_register_component(id, "", &definition, true).unwrap();
    registry.try_register_component(I16, "", &definition, true).unwrap();
    registry.try_register_component(id, "", &renamed, true).unwrap();

    assert!(registry.is_name_registered("name"));
    assert!(registry.is_name_registered("name2"));
    assert_eq!(registry.component_by_name("name", I16).unwrap().resolved_type_id, I16);
}

#[test]
fn should_keep_names_carried_by_alias_after_override() {
    let (definition, id) = create_metadata();
    let renamed = ComponentMetadata {
        names: vec!["name2".to_string()],
        scope: "".to_string(),
        constructor: TestConstructor,
        cast: TestCast::Component,
    };

    let mut registry = NamedComponentDefinitionMap::new();
    registry.try_register_component(id, "", &definition, true).unwrap();
    registry.try_register_alias(U8, id, "", "", &alias(false, None)).unwrap();
    registry.try_register_component(id, "", &renamed, true).unwrap();

    assert!(registry.is_name_registered("name"));
    assert!(registry.component_by_name("name", U8).is_some());
    assert!(registry.component_by_name("name", id).is_none());
}
