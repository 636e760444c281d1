//! Component instances are contained in scopes: containers which decide when to reuse or create
//! an instance. Instances are referred to by numeric handles. The singleton scope keeps one
//! instance per concrete component type; the prototype scope keeps none, so that each request
//! creates a new instance.

use std::collections::HashMap;
use vstd::prelude::*;

use crate::registry::{ComponentDefinition, ComponentDefinitionView};

verus! {

broadcast use vstd::std_specs::hash::group_hash_axioms;

/// Name of the singleton scope.
pub const SINGLETON: &'static str = "SINGLETON";

/// Name of the prototype scope.
pub const PROTOTYPE: &'static str = "PROTOTYPE";

/// A scope containing component instances.
pub trait Scope<C, K> {
    /// The instance this scope holds for a definition, if any.
    spec fn spec_instance(&self, definition: ComponentDefinitionView<C, K>) -> Option<u64>;

    /// Gets an instance requested for the given definition, if available in this scope.
    fn instance(&self, definition: &ComponentDefinition<C, K>) -> (r: Option<u64>)
        ensures
            r == self.spec_instance(definition@),
    ;

    /// Whether `after` is this scope with the given instance stored for a definition (a scope
    /// which does not keep instances stays as it is).
    spec fn spec_stored(&self, definition: ComponentDefinitionView<C, K>, instance: u64, after: &Self) -> bool;

    /// Stores given instance in the scope. The scope might not support storing instances and
    /// ignore it.
    fn store_instance(&mut self, definition: &ComponentDefinition<C, K>, instance: u64)
        ensures
            old(self).spec_stored(definition@, instance, final(self)),
    ;

    /// Storing an instance for a definition the scope holds none for keeps every instance the
    /// scope holds, and changes none held for a definition of another concrete type.
    proof fn lemma_store_keeps_instances(
        &self,
        definition: ComponentDefinitionView<C, K>,
        instance: u64,
        after: &Self,
        other: ComponentDefinitionView<C, K>,
    )
        requires
            self.spec_stored(definition, instance, after),
            self.spec_instance(definition) is None,
        ensures
            self.spec_instance(other) is Some ==> after.spec_instance(other) == self.spec_instance(other),
            other.resolved_type_id != definition.resolved_type_id && after.spec_instance(other) is Some
                ==> after.spec_instance(other) == self.spec_instance(other),
    ;
}

/// Factory for scopes. A freshly created scope holds no instance.
pub trait ScopeFactory<C, K, S: Scope<C, K>> {
    /// Whether `s` is of the kind of scope this factory creates.
    spec fn spec_creates(&self, s: S) -> bool;

    fn create_scope(&self) -> (s: S)
        ensures
            forall|d: ComponentDefinitionView<C, K>| s.spec_instance(d) is None,
            self.spec_creates(s),
    ;
}

/// Scope for instances shared between components: one instance per concrete component type.
pub struct SingletonScope {
    instances: HashMap<u64, u64>,
}

impl View for SingletonScope {
    type V = Map<u64, u64>;

    closed spec fn view(&self) -> Map<u64, u64> {
        self.instances@
    }
}

impl SingletonScope {
    /// Creates an empty singleton scope.
    pub fn new() -> (r: SingletonScope)
        ensures
            r@ == Map::<u64, u64>::empty(),
    {
        SingletonScope { instances: HashMap::new() }
    }
}

impl<C, K> Scope<C, K> for SingletonScope {
    open spec fn spec_instance(&self, definition: ComponentDefinitionView<C, K>) -> Option<u64> {
        if self@.contains_key(definition.resolved_type_id) {
            Some(self@[definition.resolved_type_id])
        } else {
            None
        }
    }

    fn instance(&self, definition: &ComponentDefinition<C, K>) -> (r: Option<u64>) {
        match self.instances.get(&definition.resolved_type_id) {
            Some(i) => Some(*i),
            None => None,
        }
    }

    open spec fn spec_stored(&self, definition: ComponentDefinitionView<C, K>, instance: u64, after: &Self) -> bool {
        after@ == self@.insert(definition.resolved_type_id, instance)
    }

    fn store_instance(&mut self, definition: &ComponentDefinition<C, K>, instance: u64) {
        self.instances.insert(definition.resolved_type_id, instance);
    }

    proof fn lemma_store_keeps_instances(
        &self,
        definition: ComponentDefinitionView<C, K>,
        instance: u64,
        after: &Self,
        other: ComponentDefinitionView<C, K>,
    ) {
    }
}

/// A scope which creates a new instance of a given component on each request.
#[derive(Default, Copy, Clone, Eq, PartialEq)]
pub struct PrototypeScope;

impl<C, K> Scope<C, K> for PrototypeScope {
    open spec fn spec_instance(&self, definition: ComponentDefinitionView<C, K>) -> Option<u64> {
        None
    }

    fn instance(&self, definition: &ComponentDefinition<C, K>) -> (r: Option<u64>) {
        None
    }

    open spec fn spec_stored(&self, definition: ComponentDefinitionView<C, K>, instance: u64, after: &Self) -> bool {
        true
    }

    fn store_instance(&mut self, definition: &ComponentDefinition<C, K>, instance: u64) {
    }

    proof fn lemma_store_keeps_instances(
        &self,
        definition: ComponentDefinitionView<C, K>,
        instance: u64,
        after: &Self,
        other: ComponentDefinitionView<C, K>,
    ) {
    }
}

/// Factory of [SingletonScope]s.
#[derive(Copy, Clone, Eq, PartialEq, Default)]
pub struct SingletonScopeFactory;

impl<C, K> ScopeFactory<C, K, SingletonScope> for SingletonScopeFactory {
    open spec fn spec_creates(&self, s: SingletonScope) -> bool {
        true
    }

    fn create_scope(&self) -> (s: SingletonScope) {
        SingletonScope::new()
    }
}

/// Factory of [PrototypeScope]s.
#[derive(Copy, Clone, Eq, PartialEq, Default)]
pub struct PrototypeScopeFactory;

impl<C, K> ScopeFactory<C, K, PrototypeScope> for PrototypeScopeFactory {
    open spec fn spec_creates(&self, s: PrototypeScope) -> bool {
        true
    }

    fn create_scope(&self) -> (s: PrototypeScope) {
        PrototypeScope
    }
}

/// A scope of one of the built-in kinds.
pub enum BuiltinScope {
    Singleton(SingletonScope),
    Prototype(PrototypeScope),
}

impl<C, K> Scope<C, K> for BuiltinScope {
    open spec fn spec_instance(&self, definition: ComponentDefinitionView<C, K>) -> Option<u64> {
        match self {
            BuiltinScope::Singleton(s) => <SingletonScope as Scope<C, K>>::spec_instance(s, definition),
            BuiltinScope::Prototype(p) => <PrototypeScope as Scope<C, K>>::spec_instance(p, definition),
        }
    }

    fn instance(&self, definition: &ComponentDefinition<C, K>) -> (r: Option<u64>) {
        match self {
            BuiltinScope::Singleton(s) => s.instance(definition),
            BuiltinScope::Prototype(p) => p.instance(definition),
        }
    }

    open spec fn spec_stored(&self, definition: ComponentDefinitionView<C, K>, instance: u64, after: &Self) -> bool {
        match (*self, *after) {
            (BuiltinScope::Singleton(a), BuiltinScope::Singleton(b)) => <SingletonScope as Scope<C, K>>::spec_stored(&a, definition, instance, &b),
            (BuiltinScope::Prototype(_), BuiltinScope::Prototype(_)) => true,
            _ => false,
        }
    }

    fn store_instance(&mut self, definition: &ComponentDefinition<C, K>, instance: u64) {
        match self {
            BuiltinScope::Singleton(s) => s.store_instance(definition, instance),
            BuiltinScope::Prototype(p) => p.store_instance(definition, instance),
        }
    }

    proof fn lemma_store_keeps_instances(
        &self,
        definition: ComponentDefinitionView<C, K>,
        instance: u64,
        after: &Self,
        other: ComponentDefinitionView<C, K>,
    ) {
        match (*self, *after) {
            (BuiltinScope::Singleton(a), BuiltinScope::Singleton(b)) => {
                <SingletonScope as Scope<C, K>>::lemma_store_keeps_instances(&a, definition, instance, &b, other);
            },
            _ => {},
        }
    }
}

/// A factory of one of the built-in scope kinds.
#[derive(Copy, Clone, Eq, PartialEq)]
pub enum BuiltinScopeFactory {
    Singleton,
    Prototype,
}

impl<C, K> ScopeFactory<C, K, BuiltinScope> for BuiltinScopeFactory {
    /// A factory of a kind creates scopes of that kind.
    open spec fn spec_creates(&self, s: BuiltinScope) -> bool {
        match *self {
            BuiltinScopeFactory::Singleton => s is Singleton,
            BuiltinScopeFactory::Prototype => s is Prototype,
        }
    }

    fn create_scope(&self) -> (s: BuiltinScope) {
        match self {
            BuiltinScopeFactory::Singleton => BuiltinScope::Singleton(SingletonScope::new()),
            BuiltinScopeFactory::Prototype => BuiltinScope::Prototype(PrototypeScope),
        }
    }
}

/// A singleton scope returns, for any definition of a concrete type, the instance last stored
/// for that type, and storing leaves other types' instances unchanged; a prototype scope never
/// returns an instance, whatever was stored.
pub proof fn lemma_scope_reuse<C, K>(
    before: BuiltinScope,
    after: BuiltinScope,
    stored: ComponentDefinitionView<C, K>,
    instance: u64,
    requested: ComponentDefinitionView<C, K>,
)
    requires
        <BuiltinScope as Scope<C, K>>::spec_stored(&before, stored, instance, &after),
    ensures
        before is Singleton ==> {
            &&& requested.resolved_type_id == stored.resolved_type_id
                ==> <BuiltinScope as Scope<C, K>>::spec_instance(&after, requested) == Some(instance)
            &&& requested.resolved_type_id != stored.resolved_type_id
                ==> <BuiltinScope as Scope<C, K>>::spec_instance(&after, requested)
                    == <BuiltinScope as Scope<C, K>>::spec_instance(&before, requested)
        },
        before is Prototype ==> <BuiltinScope as Scope<C, K>>::spec_instance(&after, requested) is None,
{
}

} // verus!
