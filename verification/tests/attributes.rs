use springtime::attributes::{generate_names, parse_constructor_parameters, ConstructorParameter};

#[test]
fn should_parse_named_constructor_parameter() {
    let parameter = ConstructorParameter::from("dyn TestTrait1/test_trait_1_alias_name");
    assert_eq!(parameter.component_type, "dyn TestTrait1");
    assert_eq!(parameter.name, Some("test_trait_1_alias_name".to_string()));
}

#[test]
fn should_parse_unnamed_constructor_parameter() {
    let parameter = ConstructorParameter::from("TestComponent2");
    assert_eq!(parameter.component_type, "TestComponent2");
    assert_eq!(parameter.name, None);
}

#[test]
fn should_split_constructor_parameter_at_first_slash() {
    let parameter = ConstructorParameter::from("a/b/c");
    assert_eq!(parameter.component_type, "a");
    assert_eq!(parameter.name, Some("b/c".to_string()));
    let parameter = ConstructorParameter::from("/");
    assert_eq!(parameter.component_type, "");
    assert_eq!(parameter.name, Some("".to_string()));
}

#[test]
fn should_parse_constructor_parameters() {
    let parameters = parse_constructor_parameters(
        "TestComponent2,dyn TestTrait1 + Sync + Send/test_trait_1_alias_name,Vec<dyn TestTrait1 + Sync + Send>,Option<TestComponent2>",
    );
    assert_eq!(parameters.len(), 4);
    assert_eq!(parameters[0].component_type, "TestComponent2");
    assert_eq!(parameters[0].name, None);
    assert_eq!(parameters[1].component_type, "dyn TestTrait1 + Sync + Send");
    assert_eq!(parameters[1].name, Some("test_trait_1_alias_name".to_string()));
    assert_eq!(parameters[2].component_type, "Vec<dyn TestTrait1 + Sync + Send>");
    assert_eq!(parameters[3].component_type, "Option<TestComponent2>");
}

#[test]
fn should_keep_empty_constructor_parameters() {
    let parameters = parse_constructor_parameters("");
    assert_eq!(parameters.len(), 1);
    assert_eq!(parameters[0].component_type, "");
    let parameters = parse_constructor_parameters("a,,b,");
    let types: Vec<&str> = parameters.iter().map(|p| p.component_type.as_str()).collect();
    assert_eq!(types, vec!["a", "", "b", ""]);
}

#[test]
fn should_generate_names() {
    assert_eq!(generate_names(None, "TestComponent1"), vec!["test_component_1".to_string()]);
    assert_eq!(generate_names(None, "TestDependency"), vec!["test_dependency".to_string()]);
    assert_eq!(
        generate_names(Some(vec![Some("dep2".to_string()), None, Some("other".to_string())]), "TestComponent2"),
        vec!["dep2".to_string(), "other".to_string()]
    );
    assert!(generate_names(Some(vec![]), "TestComponent2").is_empty());
}
