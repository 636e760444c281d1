//! Conditional component definition registration support: a read-only registry facade, the
//! context handed to registration conditions, and the built-in conditions.

use vstd::prelude::*;

use crate::registry::{ComponentAliasMetadata, ComponentMetadata, string_views};

verus! {

/// A read-only facade of a component definition registry, safe to use in registration
/// conditions.
pub trait ComponentDefinitionRegistryFacade {
    /// Type keys which have at least one definition.
    spec fn registered_types(&self) -> Set<u64>;

    /// Registered component names.
    spec fn registered_names(&self) -> Set<Seq<char>>;

    /// Checks if given type is present in this registry.
    fn is_registered(&self, target: u64) -> (r: bool)
        ensures
            r == self.registered_types().contains(target),
    ;

    /// Checks if there's a definition with given name.
    fn is_name_registered(&self, name: &str) -> (r: bool)
        ensures
            r == self.registered_names().contains(name@),
    ;
}

/// Context information for use by condition implementations.
pub trait Context {
    type Registry: ComponentDefinitionRegistryFacade;

    /// The registry for which the conditional evaluation is taking place.
    spec fn spec_registry(&self) -> Self::Registry;

    /// Returns the registry for which the conditional evaluation is taking place.
    fn registry(&self) -> (r: &Self::Registry)
        ensures
            *r == self.spec_registry(),
    ;
}

/// Factory for contexts for conditional component registration.
pub trait ContextFactory<'a, R: ComponentDefinitionRegistryFacade + 'a> {
    type Created: Context<Registry = R>;

    /// Creates a new context when starting evaluation.
    fn create_context(&self, registry: &'a R) -> (c: Self::Created)
        ensures
            c.spec_registry() == *registry,
    ;
}

/// A context holding only the registry.
pub struct SimpleContext<'a, R> {
    registry: &'a R,
}

impl<'a, R: ComponentDefinitionRegistryFacade> Context for SimpleContext<'a, R> {
    type Registry = R;

    closed spec fn spec_registry(&self) -> R {
        *self.registry
    }

    fn registry(&self) -> (r: &R) {
        self.registry
    }
}

/// Factory producing contexts containing only the necessary data and nothing more.
#[derive(Default, Debug, Copy, Clone, Eq, PartialEq)]
pub struct SimpleContextFactory;

impl<'a, R: ComponentDefinitionRegistryFacade + 'a> ContextFactory<'a, R> for SimpleContextFactory {
    type Created = SimpleContext<'a, R>;

    fn create_context(&self, registry: &'a R) -> (c: SimpleContext<'a, R>) {
        SimpleContext { registry }
    }
}

/// Metadata for the entity which is currently evaluated for registration.
pub enum ConditionMetadata<'a, C, K> {
    Component { type_id: u64, metadata: &'a ComponentMetadata<C, K> },
    Alias { alias_type: u64, target_type: u64, metadata: &'a ComponentAliasMetadata<K> },
}

/// Simple condition returning true if the given type is already registered.
pub fn registered_component<X: Context>(context: &X, type_id: u64) -> (r: bool)
    ensures
        r == context.spec_registry().registered_types().contains(type_id),
{
    context.registry().is_registered(type_id)
}

/// Simple condition returning true if the given type is not registered yet.
pub fn unregistered_component<X: Context>(context: &X, type_id: u64) -> (r: bool)
    ensures
        r == !context.spec_registry().registered_types().contains(type_id),
{
    !registered_component(context, type_id)
}

/// Whether any of the given names is registered.
pub open spec fn any_name_registered(names: Seq<Seq<char>>, registered: Set<Seq<char>>) -> bool {
    exists|i: int| 0 <= i < names.len() && registered.contains(#[trigger] names[i])
}

/// Returns true if no name of the evaluated component is already registered; aliases always
/// pass.
#[verifier::loop_isolation(false)]
pub fn unregistered_name<X: Context, C, K>(context: &X, metadata: &ConditionMetadata<C, K>) -> (r: bool)
    ensures
        r == match metadata {
            ConditionMetadata::Component { metadata: m, .. } => !any_name_registered(
                string_views(m.names@),
                context.spec_registry().registered_names(),
            ),
            ConditionMetadata::Alias { .. } => true,
        },
{
    let registry = context.registry();
    match metadata {
        ConditionMetadata::Component { metadata: m, .. } => {
            let ghost nv = string_views(m.names@);
            let mut i: usize = 0;
            while i < m.names.len()
                invariant
                    i <= m.names.len(),
                    nv == string_views(m.names@),
                    *registry == context.spec_registry(),
                    forall|j: int| 0 <= j < i ==> !registry.registered_names().contains(#[trigger] nv[j]),
                decreases m.names.len() - i,
            {
                if registry.is_name_registered(m.names[i].as_str()) {
                    assert(registry.registered_names().contains(nv[i as int]));
                    return false;
                }
                i += 1;
            }
            true
        },
        ConditionMetadata::Alias { .. } => true,
    }
}

} // verus!
