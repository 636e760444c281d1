use springtime::derivation::{
    generate_field_constructions, FieldAttributeItem, FieldDeclaration, FieldInit, GenericArgShape, Getter,
    RequestedType, TypeShape,
};
use springtime::error::ComponentInstanceProviderError;
use springtime::instance_provider::{
    cast_instance, instance_by_name_option, instances_typed, primary_instance_option, ComponentInstanceProvider,
};

const TEST_DEPENDENCY: u64 = 11;
const TEST_TRAIT_3: u64 = 23;

#[derive(Clone, Copy, Debug, PartialEq)]
enum TestCast {
    Dependency,
    Trait,
}

/// The typed view of an instance: available when the cast function belongs to the requested
/// type.
fn cast(cast: TestCast, instance: u64, type_id: u64) -> Option<u64> {
    match (cast, type_id) {
        (TestCast::Dependency, TEST_DEPENDENCY) | (TestCast::Trait, TEST_TRAIT_3) => Some(instance),
        _ => None,
    }
}

fn typed(result: Result<(u64, TestCast), ComponentInstanceProviderError>, type_id: u64) -> Result<u64, ComponentInstanceProviderError> {
    result.and_then(|(instance, c)| cast_instance(cast(c, instance, type_id), type_id))
}

/// Creates the dependency, which depends on nothing.
fn create_dependency<P: ComponentInstanceProvider<TestCast>>(_provider: &mut P) -> Result<u64, ComponentInstanceProviderError> {
    Ok(100)
}

fn path(text: &str, segment: &str, args: Vec<GenericArgShape>) -> TypeShape {
    TypeShape::Path { text: text.to_string(), segment: segment.to_string(), args }
}

fn type_text(ty: &TypeShape) -> String {
    match ty {
        TypeShape::Path { text, .. } | TypeShape::TraitObject { text } | TypeShape::Other { text } => text.clone(),
    }
}

fn ptr_to(inner: TypeShape) -> TypeShape {
    let text = format!("ComponentInstancePtr<{}>", type_text(&inner));
    path(&text, "ComponentInstancePtr", vec![GenericArgShape::Type(inner)])
}

fn wrapped(wrapper: &str, inner: TypeShape) -> TypeShape {
    let text = format!("{}<{}>", wrapper, type_text(&inner));
    path(&text, wrapper, vec![GenericArgShape::Type(inner)])
}

fn dependency() -> TypeShape {
    path("TestDependency", "TestDependency", vec![])
}

fn trait_3() -> TypeShape {
    TypeShape::TraitObject { text: "dyn TestTrait3 + Sync + Send".to_string() }
}

fn field(ty: TypeShape, attribute: Option<Vec<FieldAttributeItem>>) -> FieldDeclaration {
    FieldDeclaration { ty, attribute }
}

/// The fields of the first test component: a plain dependency, one by trait, an optional one, a
/// named one, a named optional one, two defaulted values and all implementations of a trait.
fn component_1_fields() -> Vec<FieldDeclaration> {
    let named = || Some(vec![FieldAttributeItem::Name("test_dependency".to_string())]);
    vec![
        field(ptr_to(dependency()), None),
        field(ptr_to(trait_3()), None),
        field(wrapped("Option", ptr_to(dependency())), None),
        field(ptr_to(trait_3()), named()),
        field(wrapped("Option", ptr_to(trait_3())), named()),
        field(path("i8", "i8", vec![]), Some(vec![FieldAttributeItem::Default])),
        field(path("i8", "i8", vec![]), Some(vec![FieldAttributeItem::DefaultExpr("dummy_expr".to_string())])),
        field(wrapped("Vec", ptr_to(trait_3())), None),
    ]
}

/// The fields of the second test component: a dependency and a defaulted value.
fn component_2_fields() -> Vec<FieldDeclaration> {
    vec![
        field(ptr_to(dependency()), None),
        field(path("i8", "i8", vec![]), Some(vec![FieldAttributeItem::DefaultExpr("dummy_expr".to_string())])),
    ]
}

/// The type key of a requested type.
fn key_of(ty: &RequestedType) -> u64 {
    let text = match ty {
        RequestedType::Exactly(t) | RequestedType::DerefTarget(t) => t,
    };
    if text.contains("TestTrait3") {
        TEST_TRAIT_3
    } else {
        TEST_DEPENDENCY
    }
}

/// Creates a component the way its derived constructor does: fills each field as the
/// derivation decides, requesting injected values from the provider, and returns the handle.
fn create_derived<P: ComponentInstanceProvider<TestCast>>(
    fields: &Vec<FieldDeclaration>,
    handle: u64,
    provider: &mut P,
) -> Result<u64, ComponentInstanceProviderError> {
    let inits = match generate_field_constructions(fields) {
        Ok(inits) => inits,
        Err(_) => panic!("the fields derive"),
    };
    for init in inits {
        if let FieldInit::Inject(request) = init {
            let key = key_of(&request.ty);
            let name = request.name.clone().unwrap_or_default();
            match request.getter {
                Getter::PrimaryInstanceTyped => {
                    typed(provider.primary_instance(key), key)?;
                },
                Getter::PrimaryInstanceOption => {
                    primary_instance_option(typed(provider.primary_instance(key), key))?;
                },
                Getter::InstanceByNameTyped => {
                    typed(provider.instance_by_name(&name, key), key)?;
                },
                Getter::InstanceByNameOption => {
                    instance_by_name_option(typed(provider.instance_by_name(&name, key), key))?;
                },
                Getter::InstancesTyped => {
                    let all = provider.instances(key)?;
                    let casts: Vec<Option<u64>> = all.iter().map(|(i, c)| cast(*c, *i, key)).collect();
                    instances_typed(casts, key)?;
                },
            }
        }
    }
    Ok(handle)
}

struct TestDependencyInstanceProvider;

impl ComponentInstanceProvider<TestCast> for TestDependencyInstanceProvider {
    fn primary_instance(&mut self, type_id: u64) -> Result<(u64, TestCast), ComponentInstanceProviderError> {
        if type_id == TEST_DEPENDENCY {
            return create_dependency(self).map(|p| (p, TestCast::Dependency));
        }
        if type_id == TEST_TRAIT_3 {
            return create_dependency(self).map(|p| (p, TestCast::Trait));
        }
        Err(ComponentInstanceProviderError::NoPrimaryInstance(type_id))
    }

    fn instances(&mut self, type_id: u64) -> Result<Vec<(u64, TestCast)>, ComponentInstanceProviderError> {
        self.primary_instance(type_id).map(|(p, c)| vec![(p, c)])
    }

    fn instance_by_name(&mut self, name: &str, _type_id: u64) -> Result<(u64, TestCast), ComponentInstanceProviderError> {
        if name == "test_dependency" {
            self.primary_instance(TEST_TRAIT_3)
        } else {
            Err(ComponentInstanceProviderError::NoNamedInstance(name.to_string()))
        }
    }
}

#[test]
fn should_directly_create_with_explicit_dependency() {
    let mut instance_provider = TestDependencyInstanceProvider;
    assert!(create_derived(&component_1_fields(), 1, &mut instance_provider).is_ok());
    assert!(create_derived(&component_2_fields(), 2, &mut instance_provider).is_ok());
}

#[test]
fn should_report_incompatible_component() {
    let mut instance_provider = TestDependencyInstanceProvider;
    let result = typed(instance_provider.primary_instance(TEST_DEPENDENCY), TEST_TRAIT_3);
    assert!(matches!(result, Err(ComponentInstanceProviderError::IncompatibleComponent(t)) if t == TEST_TRAIT_3));
}
