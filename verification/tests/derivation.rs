use springtime::derivation::{
    alias_attributes, alias_registration, AliasItemError, AliasItemShape, ComponentAliasAttributes, component_attributes, component_registration, constructor_parameter_request, controller_attributes,
    controller_server_names, extract_router_configuration, field_attributes, generate_constructor_call_arguments,
    generate_constructor_parameters, generate_field_construction, generate_field_constructions,
    generate_method_configuration, get_injected_type, get_instance, get_wrapped_type, AliasAttributeItem, AttributeError,
    ComponentAttributeItem, ControllerAttributeItem, ControllerError, ControllerMethod, DefaultDefinition,
    FieldAttributeItem, FieldDeclaration, FieldInit, GenericArgShape, Getter, HttpMethod, MethodAttribute,
    MethodDeclaration, ParameterDeclaration, RequestedType, TypeParseError, TypeShape,
};

fn path(text: &str, segment: &str, args: Vec<GenericArgShape>) -> TypeShape {
    TypeShape::Path { text: text.to_string(), segment: segment.to_string(), args }
}

fn plain(name: &str) -> TypeShape {
    path(name, name, vec![])
}

fn trait_object(text: &str) -> TypeShape {
    TypeShape::TraitObject { text: text.to_string() }
}

fn ptr_to(inner: TypeShape) -> TypeShape {
    let text = format!("ComponentInstancePtr<{}>", type_text(&inner));
    path(&text, "ComponentInstancePtr", vec![GenericArgShape::Type(inner)])
}

fn wrapped(wrapper: &str, inner: TypeShape) -> TypeShape {
    let text = format!("{}<{}>", wrapper, type_text(&inner));
    path(&text, wrapper, vec![GenericArgShape::Type(inner)])
}

fn type_text(ty: &TypeShape) -> String {
    match ty {
        TypeShape::Path { text, .. } | TypeShape::TraitObject { text } | TypeShape::Other { text } => text.clone(),
    }
}

fn exactly(ty: &RequestedType) -> Option<&str> {
    match ty {
        RequestedType::Exactly(s) => Some(s.as_str()),
        RequestedType::DerefTarget(_) => None,
    }
}

fn deref_target(ty: &RequestedType) -> Option<&str> {
    match ty {
        RequestedType::DerefTarget(s) => Some(s.as_str()),
        RequestedType::Exactly(_) => None,
    }
}

#[test]
fn should_find_wrapped_types() {
    let option = wrapped("Option", ptr_to(plain("TestDependency")));
    assert_eq!(get_wrapped_type(&option, "Option", true), Some("TestDependency".to_string()));
    assert_eq!(get_wrapped_type(&option, "Option", false), Some("ComponentInstancePtr<TestDependency>".to_string()));
    assert_eq!(get_wrapped_type(&option, "Vec", true), None);
    let not_ptr = wrapped("Option", plain("TestDependency"));
    assert_eq!(get_wrapped_type(&not_ptr, "Option", true), None);
    assert_eq!(get_wrapped_type(&not_ptr, "Option", false), Some("TestDependency".to_string()));
    let two = path("Option<A, B>", "Option", vec![GenericArgShape::Type(plain("A")), GenericArgShape::Type(plain("B"))]);
    assert_eq!(get_wrapped_type(&two, "Option", false), None);
    assert_eq!(get_wrapped_type(&trait_object("dyn A"), "Option", false), None);
}

#[test]
fn should_inject_plain_and_trait_fields() {
    let concrete = get_instance(&ptr_to(plain("TestDependency")), &None);
    assert_eq!(concrete.getter, Getter::PrimaryInstanceTyped);
    assert_eq!(deref_target(&concrete.ty), Some("ComponentInstancePtr<TestDependency>"));
    assert!(concrete.name.is_none());

    let by_trait = get_instance(&ptr_to(trait_object("dyn TestTrait3 + Sync + Send")), &None);
    assert_eq!(by_trait.getter, Getter::PrimaryInstanceTyped);
    assert_eq!(exactly(&by_trait.ty), Some("dyn TestTrait3 + Sync + Send"));
    assert!(matches!(get_injected_type(&ptr_to(trait_object("dyn T"))), RequestedType::Exactly(_)));

    let named = get_instance(&ptr_to(trait_object("dyn TestTrait3")), &Some("test_dependency".to_string()));
    assert_eq!(named.getter, Getter::InstanceByNameTyped);
    assert_eq!(named.name, Some("test_dependency".to_string()));
}

#[test]
fn should_inject_optional_and_list_fields() {
    let optional = get_instance(&wrapped("Option", ptr_to(plain("TestDependency"))), &None);
    assert_eq!(optional.getter, Getter::PrimaryInstanceOption);
    assert_eq!(exactly(&optional.ty), Some("TestDependency"));

    let named_optional = get_instance(&wrapped("Option", ptr_to(trait_object("dyn TestTrait3"))), &Some("n".to_string()));
    assert_eq!(named_optional.getter, Getter::InstanceByNameOption);
    assert_eq!(exactly(&named_optional.ty), Some("dyn TestTrait3"));

    let all = get_instance(&wrapped("Vec", ptr_to(trait_object("dyn TestTrait3"))), &None);
    assert_eq!(all.getter, Getter::InstancesTyped);
    assert_eq!(exactly(&all.ty), Some("dyn TestTrait3"));
}

#[test]
fn should_combine_field_attribute_items() {
    let a = field_attributes(&vec![FieldAttributeItem::Default]).unwrap();
    assert!(matches!(a.default, Some(DefaultDefinition::Default)));
    let a = field_attributes(&vec![FieldAttributeItem::DefaultExpr("dummy_expr".to_string()), FieldAttributeItem::Ignore]).unwrap();
    assert!(matches!(a.default, Some(DefaultDefinition::Expr(ref p)) if p == "dummy_expr"));
    assert!(a.ignore);
    let a = field_attributes(&vec![FieldAttributeItem::Name("n".to_string()), FieldAttributeItem::Unknown]).unwrap();
    assert_eq!(a.name, Some("n".to_string()));
    assert!(matches!(
        field_attributes(&vec![FieldAttributeItem::Name("n".to_string()), FieldAttributeItem::Default]),
        Err(AttributeError::DefaultForNamedInstance)
    ));
    assert!(matches!(
        field_attributes(&vec![FieldAttributeItem::Default, FieldAttributeItem::Name("n".to_string())]),
        Err(AttributeError::NameForDefaultValue)
    ));
}

#[test]
fn should_fill_fields() {
    let fields = vec![
        FieldDeclaration { ty: ptr_to(plain("TestDependency")), attribute: None },
        FieldDeclaration { ty: plain("i8"), attribute: Some(vec![FieldAttributeItem::Default]) },
        FieldDeclaration { ty: plain("i8"), attribute: Some(vec![FieldAttributeItem::DefaultExpr("dummy_expr".to_string())]) },
        FieldDeclaration {
            ty: ptr_to(trait_object("dyn TestTrait3")),
            attribute: Some(vec![FieldAttributeItem::Name("test_dependency".to_string())]),
        },
        FieldDeclaration { ty: plain("i8"), attribute: Some(vec![FieldAttributeItem::Ignore]) },
    ];
    let inits = generate_field_constructions(&fields).unwrap();
    assert_eq!(inits.len(), 5);
    assert!(matches!(&inits[0], FieldInit::Inject(r) if r.getter == Getter::PrimaryInstanceTyped));
    assert!(matches!(&inits[1], FieldInit::DefaultValue));
    assert!(matches!(&inits[2], FieldInit::DefaultExpr(p) if p == "dummy_expr"));
    assert!(matches!(&inits[3], FieldInit::Inject(r) if r.getter == Getter::InstanceByNameTyped));
    assert!(matches!(&inits[4], FieldInit::Inject(r) if r.getter == Getter::PrimaryInstanceTyped));

    let arguments = generate_constructor_call_arguments(&fields).unwrap();
    assert_eq!(arguments.len(), 4);

    let broken = vec![FieldDeclaration {
        ty: plain("i8"),
        attribute: Some(vec![FieldAttributeItem::Default, FieldAttributeItem::Name("n".to_string())]),
    }];
    assert!(matches!(generate_field_constructions(&broken), Err(AttributeError::NameForDefaultValue)));
    assert!(matches!(generate_field_construction(&broken[0]), Err(AttributeError::NameForDefaultValue)));
    assert!(matches!(generate_constructor_call_arguments(&broken), Err(AttributeError::NameForDefaultValue)));
}

#[test]
fn should_request_constructor_parameters() {
    let parameters = vec![
        ParameterDeclaration { ty: Ok(plain("TestComponent2")), name: None },
        ParameterDeclaration { ty: Ok(trait_object("dyn TestTrait1 + Sync + Send")), name: Some("test_trait_1_alias_name".to_string()) },
        ParameterDeclaration { ty: Ok(wrapped("Vec", trait_object("dyn TestTrait1 + Sync + Send"))), name: None },
        ParameterDeclaration { ty: Ok(wrapped("Option", plain("TestComponent2"))), name: None },
        ParameterDeclaration { ty: Ok(wrapped("Option", plain("TestComponent2"))), name: Some("n".to_string()) },
    ];
    let requests = generate_constructor_parameters(&parameters).unwrap_or_else(|_| panic!("all parameter types parse"));
    assert_eq!(requests.len(), 5);
    assert_eq!(requests[0].getter, Getter::PrimaryInstanceTyped);
    assert_eq!(exactly(&requests[0].ty), Some("TestComponent2"));
    assert_eq!(requests[1].getter, Getter::InstanceByNameTyped);
    assert_eq!(exactly(&requests[1].ty), Some("dyn TestTrait1 + Sync + Send"));
    assert_eq!(requests[2].getter, Getter::InstancesTyped);
    assert_eq!(exactly(&requests[2].ty), Some("dyn TestTrait1 + Sync + Send"));
    assert_eq!(requests[3].getter, Getter::PrimaryInstanceOption);
    assert_eq!(exactly(&requests[3].ty), Some("TestComponent2"));
    assert_eq!(requests[4].getter, Getter::InstanceByNameOption);
    let single = constructor_parameter_request(&plain("X"), &None);
    assert_eq!(single.getter, Getter::PrimaryInstanceTyped);
}

#[test]
fn should_combine_component_attribute_items() {
    let attributes = component_attributes(&vec![
        ComponentAttributeItem::Names(Some(vec![Some("dep2".to_string()), None])),
        ComponentAttributeItem::Condition(Some("dummy_component_condition".to_string())),
        ComponentAttributeItem::Priority(Some(-128)),
        ComponentAttributeItem::Scope(Some("PROTOTYPE".to_string())),
        ComponentAttributeItem::Constructor(Some("test_component_3".to_string())),
        ComponentAttributeItem::ConstructorParameters(Some("TestComponent2,dyn TestTrait1/test_trait_1_alias_name".to_string())),
        ComponentAttributeItem::Unknown,
    ])
    .unwrap();
    assert_eq!(attributes.priority, -128);
    assert_eq!(attributes.scope, Some("PROTOTYPE".to_string()));
    assert_eq!(attributes.constructor, Some("test_component_3".to_string()));
    assert_eq!(attributes.constructor_parameters.len(), 2);
    assert_eq!(attributes.constructor_parameters[1].name, Some("test_trait_1_alias_name".to_string()));

    let registration = component_registration(&Some(attributes), "TestComponent2");
    assert_eq!(registration.names, vec!["dep2".to_string()]);
    assert_eq!(registration.condition, Some("dummy_component_condition".to_string()));
    assert_eq!(registration.priority, -128);
    assert_eq!(registration.scope, "PROTOTYPE");

    let registration = component_registration(&None, "TestComponent1");
    assert_eq!(registration.names, vec!["test_component_1".to_string()]);
    assert_eq!(registration.condition, None);
    assert_eq!(registration.priority, 0);
    assert_eq!(registration.scope, "SINGLETON");
}

#[test]
fn should_refuse_duplicate_component_attribute_items() {
    let twice = |item: fn() -> ComponentAttributeItem| component_attributes(&vec![item(), item()]).err();
    assert_eq!(twice(|| ComponentAttributeItem::Names(Some(vec![]))), Some(AttributeError::DuplicateNames));
    assert_eq!(twice(|| ComponentAttributeItem::Condition(Some("c".to_string()))), Some(AttributeError::DuplicateCondition));
    assert_eq!(twice(|| ComponentAttributeItem::Constructor(Some("c".to_string()))), Some(AttributeError::DuplicateConstructor));
    assert_eq!(twice(|| ComponentAttributeItem::Scope(Some("s".to_string()))), Some(AttributeError::DuplicateScope));
    assert_eq!(
        twice(|| ComponentAttributeItem::ConstructorParameters(Some("A".to_string()))),
        Some(AttributeError::DuplicateConstructorParameters)
    );
    assert_eq!(twice(|| ComponentAttributeItem::Priority(Some(3))), None);
    assert_eq!(twice(|| ComponentAttributeItem::Names(None)), None);
}

#[test]
fn should_combine_alias_attribute_items() {
    let alias = alias_attributes(&vec![
        AliasAttributeItem::Primary,
        AliasAttributeItem::Condition("dummy_alias_condition".to_string()),
        AliasAttributeItem::Priority(100),
    ])
    .unwrap();
    assert!(alias.is_primary);
    assert_eq!(alias.condition, Some("dummy_alias_condition".to_string()));
    assert_eq!(alias.priority, 100);
    assert_eq!(alias.scope, None);
    assert!(matches!(
        alias_attributes(&vec![AliasAttributeItem::Scope("a".to_string()), AliasAttributeItem::Scope("b".to_string())]),
        Err(AttributeError::DuplicateScope)
    ));
    assert!(matches!(alias_attributes(&vec![AliasAttributeItem::Unknown]), Err(AttributeError::UnknownAliasItem)));
}

#[test]
fn should_combine_controller_attribute_items() {
    let attributes = controller_attributes(&vec![
        ControllerAttributeItem::Path("/test".to_string()),
        ControllerAttributeItem::ServerNames(vec![Some("1".to_string()), None, Some("2".to_string())]),
    ])
    .unwrap();
    assert_eq!(attributes.path, Some("/test".to_string()));
    assert_eq!(controller_server_names(&attributes), Some(vec!["1".to_string(), "2".to_string()]));
    assert!(matches!(
        controller_attributes(&vec![ControllerAttributeItem::Path("a".to_string()), ControllerAttributeItem::Path("b".to_string())]),
        Err(ControllerError::DuplicatePath)
    ));
    assert!(matches!(controller_attributes(&vec![ControllerAttributeItem::Unknown]), Err(ControllerError::UnknownControllerItem)));
}

fn attribute(ident: Option<&str>, literal: Option<&str>) -> MethodAttribute {
    MethodAttribute { ident: ident.map(|s| s.to_string()), literal_argument: literal.map(|s| s.to_string()) }
}

#[test]
fn should_read_method_attributes() {
    assert!(matches!(
        generate_method_configuration(&attribute(Some("get"), Some("/test/{id}"))),
        Ok(Some(ControllerMethod::Route(HttpMethod::Get, ref p))) if p == "/test/{id}"
    ));
    assert!(matches!(generate_method_configuration(&attribute(Some("fallback"), None)), Ok(Some(ControllerMethod::Fallback))));
    assert!(matches!(generate_method_configuration(&attribute(Some("router_source"), None)), Ok(Some(ControllerMethod::Source))));
    assert!(matches!(
        generate_method_configuration(&attribute(Some("router_post_configure"), None)),
        Ok(Some(ControllerMethod::PostConfigure))
    ));
    assert!(matches!(generate_method_configuration(&attribute(Some("doc_like"), Some("text"))), Ok(None)));
    assert!(matches!(generate_method_configuration(&attribute(Some("inline"), None)), Ok(None)));
    assert!(matches!(generate_method_configuration(&attribute(Some("post"), None)), Err(ControllerError::InvalidRouteArgument)));
    assert!(matches!(generate_method_configuration(&attribute(None, None)), Ok(None)));
}

#[test]
fn should_extract_router_configuration() {
    let methods = vec![
        MethodDeclaration { name: "hello".to_string(), attributes: vec![attribute(Some("get"), Some("/{id}")), attribute(Some("post"), Some("/"))] },
        MethodDeclaration { name: "router".to_string(), attributes: vec![attribute(Some("router_source"), None)] },
        MethodDeclaration { name: "missing".to_string(), attributes: vec![attribute(Some("fallback"), None)] },
        MethodDeclaration { name: "layers".to_string(), attributes: vec![attribute(Some("router_post_configure"), None)] },
        MethodDeclaration { name: "helper".to_string(), attributes: vec![] },
    ];
    let configuration = extract_router_configuration(&methods).unwrap();
    assert_eq!(configuration.methods.len(), 3);
    assert_eq!(configuration.methods[0].0, "hello");
    assert!(matches!(configuration.methods[0].1, ControllerMethod::Route(HttpMethod::Get, _)));
    assert!(matches!(configuration.methods[1].1, ControllerMethod::Route(HttpMethod::Post, _)));
    assert_eq!(configuration.methods[2].0, "missing");
    assert!(matches!(configuration.methods[2].1, ControllerMethod::Fallback));
    assert_eq!(configuration.router_source, Some("router".to_string()));
    assert_eq!(configuration.post_configure_router, Some("layers".to_string()));

    let broken = vec![MethodDeclaration { name: "bad".to_string(), attributes: vec![attribute(Some("get"), None)] }];
    assert!(matches!(extract_router_configuration(&broken), Err(ControllerError::InvalidRouteArgument)));
}

fn alias_item(is_impl: bool, trait_path: Option<&str>, self_type_path: Option<&str>) -> AliasItemShape {
    AliasItemShape {
        is_impl,
        trait_path: trait_path.map(|t| t.to_string()),
        self_type_path: self_type_path.map(|t| t.to_string()),
    }
}

#[test]
fn should_build_alias_registration() {
    let attributes = ComponentAliasAttributes {
        is_primary: true,
        condition: Some("crate::enabled".to_string()),
        priority: -100,
        scope: Some("PROTOTYPE".to_string()),
    };
    let registration = alias_registration(&alias_item(true, Some("TestTrait"), Some("TestComponent")), &attributes).unwrap();
    assert_eq!(registration.alias_type, "TestTrait");
    assert_eq!(registration.target_type, "TestComponent");
    assert!(registration.is_primary);
    assert_eq!(registration.condition, Some("crate::enabled".to_string()));
    assert_eq!(registration.priority, -100);
    assert_eq!(registration.scope, Some("PROTOTYPE".to_string()));
}

#[test]
fn should_refuse_alias_items_that_are_no_component_trait_impls() {
    let attributes = ComponentAliasAttributes { is_primary: false, condition: None, priority: 0, scope: None };
    assert_eq!(
        alias_registration(&alias_item(false, Some("TestTrait"), Some("TestComponent")), &attributes).err(),
        Some(AliasItemError::NotAnImpl)
    );
    assert_eq!(
        alias_registration(&alias_item(true, None, Some("TestComponent")), &attributes).err(),
        Some(AliasItemError::MissingTraitIdentifier)
    );
    assert_eq!(
        alias_registration(&alias_item(true, Some("TestTrait"), None), &attributes).err(),
        Some(AliasItemError::NotAComponent)
    );
}

#[test]
fn should_keep_attributes_meaning_nothing_to_the_controller() {
    let methods = vec![
        MethodDeclaration {
            name: "hello".to_string(),
            attributes: vec![attribute(Some("doc"), Some("greets")), attribute(Some("get"), Some("/")), attribute(None, None)],
        },
        MethodDeclaration { name: "router".to_string(), attributes: vec![attribute(Some("router_source"), None)] },
    ];
    let configuration = extract_router_configuration(&methods).unwrap();
    assert_eq!(configuration.kept_attributes.len(), 2);
    assert_eq!(configuration.kept_attributes[0].len(), 2);
    assert_eq!(configuration.kept_attributes[0][0].ident, Some("doc".to_string()));
    assert_eq!(configuration.kept_attributes[0][0].literal_argument, Some("greets".to_string()));
    assert_eq!(configuration.kept_attributes[0][1].ident, None);
    assert!(configuration.kept_attributes[1].is_empty());
}

#[test]
fn should_report_first_constructor_parameter_that_is_no_type() {
    let parameters = vec![
        ParameterDeclaration { ty: Ok(plain("TestComponent2")), name: None },
        ParameterDeclaration { ty: Err(TypeParseError { message: "expected type".to_string() }), name: None },
        ParameterDeclaration { ty: Err(TypeParseError { message: "unexpected end".to_string() }), name: None },
    ];
    match generate_constructor_parameters(&parameters) {
        Err(e) => assert_eq!(e.message, "expected type"),
        Ok(_) => panic!("a parameter type does not parse"),
    }
}

#[test]
fn should_refuse_unparsable_attribute_values() {
    assert!(matches!(
        component_attributes(&vec![ComponentAttributeItem::UnparsablePriority]),
        Err(AttributeError::UnparsableValue)
    ));
    assert!(matches!(
        component_attributes(&vec![ComponentAttributeItem::UnparsableCondition]),
        Err(AttributeError::UnparsableValue)
    ));
    assert!(matches!(
        component_attributes(&vec![
            ComponentAttributeItem::Constructor(Some("create".to_string())),
            ComponentAttributeItem::UnparsableConstructor,
        ]),
        Err(AttributeError::DuplicateConstructor)
    ));
    assert!(matches!(alias_attributes(&vec![AliasAttributeItem::UnparsablePriority]), Err(AttributeError::UnparsableValue)));
    assert!(matches!(
        alias_attributes(&vec![AliasAttributeItem::Condition("a::b".to_string()), AliasAttributeItem::UnparsableCondition]),
        Err(AttributeError::DuplicateCondition)
    ));
}
