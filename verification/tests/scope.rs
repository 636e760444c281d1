use springtime::registry::ComponentDefinition;
use springtime::scope::{
    BuiltinScope, BuiltinScopeFactory, PrototypeScope, PrototypeScopeFactory, Scope, ScopeFactory, SingletonScope,
    SingletonScopeFactory,
};

#[derive(Clone, Copy, Debug)]
struct TestConstructor;

#[derive(Clone, Copy, Debug)]
struct TestCast;

const U8: u64 = 3;
const U16: u64 = 4;

fn create_definition(resolved_type_id: u64) -> ComponentDefinition<TestConstructor, TestCast> {
    ComponentDefinition {
        names: vec![],
        is_primary: false,
        scope: "".to_string(),
        resolved_type_id,
        resolved_type_name: "u8".to_string(),
        constructor: TestConstructor,
        cast: TestCast,
    }
}

#[test]
fn should_support_singletons() {
    let definition = create_definition(U8);
    let factory = SingletonScopeFactory;
    let mut scope: SingletonScope =
        <SingletonScopeFactory as ScopeFactory<TestConstructor, TestCast, SingletonScope>>::create_scope(&factory);

    scope.store_instance(&definition, 0);

    assert!(scope.instance(&definition).is_some());
}

#[test]
fn should_support_prototypes() {
    let definition = create_definition(U8);
    let factory = PrototypeScopeFactory;
    let mut scope: PrototypeScope =
        <PrototypeScopeFactory as ScopeFactory<TestConstructor, TestCast, PrototypeScope>>::create_scope(&factory);

    scope.store_instance(&definition, 0);

    assert!(scope.instance(&definition).is_none());
}

#[test]
fn should_keep_one_singleton_per_type() {
    let first = create_definition(U8);
    let second = create_definition(U16);
    let mut scope: BuiltinScope =
        <BuiltinScopeFactory as ScopeFactory<TestConstructor, TestCast, BuiltinScope>>::create_scope(&BuiltinScopeFactory::Singleton);

    assert_eq!(scope.instance(&first), None);
    scope.store_instance(&first, 5);
    scope.store_instance(&second, 6);
    assert_eq!(scope.instance(&first), Some(5));
    assert_eq!(scope.instance(&second), Some(6));
    scope.store_instance(&first, 9);
    assert_eq!(scope.instance(&first), Some(9));
    assert_eq!(scope.instance(&second), Some(6));
}

#[test]
fn should_never_keep_prototypes() {
    let definition = create_definition(U8);
    let mut scope: BuiltinScope =
        <BuiltinScopeFactory as ScopeFactory<TestConstructor, TestCast, BuiltinScope>>::create_scope(&BuiltinScopeFactory::Prototype);

    scope.store_instance(&definition, 5);
    assert_eq!(scope.instance(&definition), None);
}
