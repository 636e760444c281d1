//! Decisions of the component factory: which definition serves a request, when an instance is
//! taken from its scope, when a dependency cycle or an unknown scope is reported, and where a
//! newly constructed instance is stored. [ComponentFactory::create_instance] runs a definition's
//! constructor while its type is marked as under construction, and the factory provides
//! instances to constructors through [ComponentInstanceProvider].

use vstd::prelude::*;

use crate::component_registry::{
    conditions_consistent, registration_outcome, ComponentAliasDefinition, ComponentDefinitionRegistry,
    StaticComponentDefinitionRegistry, TypedComponentDefinition,
};
use crate::error::{ComponentDefinitionRegistryError, ComponentInstanceProviderError, ProviderErrorView};
use crate::instance_provider::ComponentInstanceProvider;
use crate::registry::{
    names_consistent, definition_views, definitions_of, find_named, primary_of, ComponentDefinition, ComponentDefinitionView,
};
use crate::scope::{lemma_scope_reuse, BuiltinScope, BuiltinScopeFactory, Scope, ScopeFactory, PROTOTYPE, SINGLETON};

verus! {

broadcast use vstd::seq_lib::group_seq_properties;

/// The value registered under a name: the first entry with that name.
pub open spec fn named<T>(pairs: Seq<(String, T)>, name: Seq<char>) -> Option<T>
    decreases pairs.len(),
{
    if pairs.len() == 0 {
        None
    } else if pairs[0].0@ == name {
        Some(pairs[0].1)
    } else {
        named(pairs.drop_first(), name)
    }
}

proof fn lemma_named_first<T>(pairs: Seq<(String, T)>, name: Seq<char>, i: int)
    requires
        0 <= i < pairs.len(),
        pairs[i].0@ == name,
        forall|j: int| 0 <= j < i ==> pairs[j].0@ != name,
    ensures
        named(pairs, name) == Some(pairs[i].1),
    decreases i,
{
    if i > 0 {
        lemma_named_first(pairs.drop_first(), name, i - 1);
    }
}

proof fn lemma_named_none<T>(pairs: Seq<(String, T)>, name: Seq<char>)
    requires
        forall|j: int| 0 <= j < pairs.len() ==> pairs[j].0@ != name,
    ensures
        named(pairs, name) is None,
    decreases pairs.len(),
{
    if pairs.len() > 0 {
        lemma_named_none(pairs.drop_first(), name);
    }
}

proof fn lemma_named_update<T>(pairs: Seq<(String, T)>, i: int, entry: (String, T), other: Seq<char>)
    requires
        0 <= i < pairs.len(),
        entry.0@ == pairs[i].0@,
        forall|j: int| 0 <= j < i ==> pairs[j].0@ != entry.0@,
    ensures
        named(pairs.update(i, entry), entry.0@) == Some(entry.1),
        other != entry.0@ ==> named(pairs.update(i, entry), other) == named(pairs, other),
    decreases i,
{
    if i == 0 {
        assert(pairs.update(i, entry).drop_first() =~= pairs.drop_first());
    } else {
        assert(pairs.update(i, entry).drop_first() =~= pairs.drop_first().update(i - 1, entry));
        lemma_named_update(pairs.drop_first(), i - 1, entry, other);
    }
}

proof fn lemma_named_push<T>(pairs: Seq<(String, T)>, entry: (String, T), other: Seq<char>)
    requires
        named(pairs, entry.0@) is None,
    ensures
        named(pairs.push(entry), entry.0@) == Some(entry.1),
        other != entry.0@ ==> named(pairs.push(entry), other) == named(pairs, other),
    decreases pairs.len(),
{
    if pairs.len() > 0 {
        assert(pairs.push(entry).drop_first() =~= pairs.drop_first().push(entry));
        lemma_named_push(pairs.drop_first(), entry, other);
    } else {
        assert(pairs.push(entry).drop_first() =~= Seq::<(String, T)>::empty());
    }
}

/// Finds the position of the first entry with a given name.
fn find_named_entry<T>(pairs: &Vec<(String, T)>, name: &String) -> (r: Option<usize>)
    ensures
        match r {
            Some(i) => i < pairs@.len() && pairs@[i as int].0@ == name@ && named(pairs@, name@) == Some(pairs@[i as int].1)
                && forall|j: int| 0 <= j < i ==> pairs@[j].0@ != name@,
            None => named(pairs@, name@) is None,
        },
{
    let mut i: usize = 0;
    while i < pairs.len()
        invariant
            i <= pairs.len(),
            forall|j: int| 0 <= j < i ==> pairs@[j].0@ != name@,
        decreases pairs.len() - i,
    {
        if pairs[i].0 == *name {
            proof {
                lemma_named_first(pairs@, name@, i as int);
            }
            return Some(i);
        }
        i += 1;
    }
    proof {
        lemma_named_none(pairs@, name@);
    }
    None
}

/// Checks whether a list of type keys holds a given key.
fn holds_type(v: &Vec<u64>, t: u64) -> (r: bool)
    ensures
        r == v@.contains(t),
{
    let mut i: usize = 0;
    while i < v.len()
        invariant
            i <= v.len(),
            forall|j: int| 0 <= j < i ==> v@[j] != t,
        decreases v.len() - i,
    {
        if v[i] == t {
            return true;
        }
        i += 1;
    }
    false
}

/// Creates a component instance, requesting its dependencies from the given provider; the
/// handle of the new instance is returned.
pub trait ComponentConstructor<P: ProviderFrame> {
    /// A constructor uses the provider only to request instances, so the provider changes only
    /// as requests for instances change it.
    fn construct(&self, provider: &mut P) -> (r: Result<u64, ComponentInstanceProviderError>)
        ensures
            old(provider).keeps_frame(final(provider)),
    ;
}

/// A provider of instances to constructors, and how requests for instances may change it.
pub trait ProviderFrame {
    /// Whether `after` is this provider changed at most as requests for instances change it.
    spec fn keeps_frame(&self, after: &Self) -> bool;
}

/// Generic factory of component instances. Uses definitions from a definition registry, and
/// scopes, created on first use by the scope factory registered under their name, to keep
/// instances for reuse.
pub struct ComponentFactory<C, K, R, F, S> {
    definition_registry: R,
    scope_factories: Vec<(String, F)>,
    scopes: Vec<(String, S)>,
    types_under_construction: Vec<u64>,
    marker: core::marker::PhantomData<(C, K)>,
}

impl<C, K, R, F, S> ComponentFactory<C, K, R, F, S> {
    /// The definition registry.
    pub closed spec fn registry(&self) -> R {
        self.definition_registry
    }

    /// The scope factory registered under a name.
    pub closed spec fn factory_named(&self, name: Seq<char>) -> Option<F> {
        named(self.scope_factories@, name)
    }

    /// The scope created under a name, if it was created.
    pub closed spec fn scope_named(&self, name: Seq<char>) -> Option<S> {
        named(self.scopes@, name)
    }

    /// Types whose constructor is running.
    pub closed spec fn under_construction(&self) -> Set<u64> {
        self.types_under_construction@.to_set()
    }
}

impl<C: Copy, K: Copy, R: ComponentDefinitionRegistry<C, K>, F: ScopeFactory<C, K, S>, S: Scope<C, K>> ProviderFrame for ComponentFactory<C, K, R, F, S> {
    open spec fn keeps_frame(&self, after: &Self) -> bool {
        self.keeps_frame_of(after)
    }
}

impl<C: Copy, K: Copy, R: ComponentDefinitionRegistry<C, K>, F: ScopeFactory<C, K, S>, S: Scope<C, K>> ComponentFactory<C, K, R, F, S> {
    /// Whether `other` has the registry, scope factories, scopes and types under construction
    /// of this factory.
    pub open spec fn same_state(&self, other: &Self) -> bool {
        &&& other.registry() == self.registry()
        &&& forall|n: Seq<char>| #[trigger] other.factory_named(n) == self.factory_named(n)
        &&& forall|n: Seq<char>| #[trigger] other.scope_named(n) == self.scope_named(n)
        &&& other.under_construction() == self.under_construction()
    }

    /// The instance the scope created under a name holds for a definition, if any.
    pub open spec fn kept(&self, name: Seq<char>, d: ComponentDefinitionView<C, K>) -> Option<u64> {
        match self.scope_named(name) {
            Some(s) => s.spec_instance(d),
            None => None,
        }
    }

    /// Whether `after` is this factory changed at most as requests for instances change it: the
    /// registry, the scope factories and the types under construction are unchanged, every
    /// instance a scope holds is still held, and instances newly held are of types that were not
    /// under construction.
    pub open spec fn keeps_frame_of(&self, after: &Self) -> bool {
        &&& after.registry() == self.registry()
        &&& forall|n: Seq<char>| #[trigger] after.factory_named(n) == self.factory_named(n)
        &&& after.under_construction() == self.under_construction()
        &&& forall|n: Seq<char>, d: ComponentDefinitionView<C, K>|
            #[trigger] self.kept(n, d) is Some ==> after.kept(n, d) == self.kept(n, d)
        &&& forall|n: Seq<char>, d: ComponentDefinitionView<C, K>|
            #[trigger] after.kept(n, d) is Some && self.kept(n, d) is None
                ==> !self.under_construction().contains(d.resolved_type_id)
    }

    /// What requesting an instance for a definition gives, from this factory, ending in
    /// `after`: a type whose constructor is running is a dependency cycle; a scope that neither
    /// exists nor has a factory is unrecognized; an instance kept in the existing scope is
    /// returned as it is; otherwise the constructor runs, and whatever it gives the factory is
    /// changed at most as requests change it (the registry, the scope factories and the types
    /// under construction unchanged, every instance held before still held); a new instance
    /// comes with the definition's cast function and is stored in the definition's scope as it
    /// stood when the constructor returned.
    pub open spec fn creation_outcome(
        &self,
        d: ComponentDefinitionView<C, K>,
        r: Result<(u64, K), ComponentInstanceProviderError>,
        after: &Self,
    ) -> bool {
        if self.under_construction().contains(d.resolved_type_id) {
            &&& r matches Err(e) && e@ == ProviderErrorView::DependencyCycle(d.resolved_type_id)
            &&& self.same_state(after)
        } else if self.scope_named(d.scope) is None && self.factory_named(d.scope) is None {
            &&& r matches Err(e) && e@ == ProviderErrorView::UnrecognizedScope(d.scope)
            &&& self.same_state(after)
        } else if self.scope_named(d.scope) is Some && self.scope_named(d.scope).unwrap().spec_instance(d) is Some {
            &&& r == Ok::<(u64, K), ComponentInstanceProviderError>(
                (self.scope_named(d.scope).unwrap().spec_instance(d).unwrap(), d.cast),
            )
            &&& self.same_state(after)
        } else {
            &&& self.keeps_frame_of(after)
            &&& r matches Ok(x) ==> {
                &&& x.1 == d.cast
                &&& after.scope_named(d.scope) is Some
                &&& exists|mid: S| #[trigger] mid.spec_stored(d, x.0, &after.scope_named(d.scope).unwrap())
            }
        }
    }

    /// Whether a request for a definition, made from this factory, runs the definition's
    /// constructor: its type is not under construction, its scope exists or can be created, and
    /// the scope keeps no instance for it.
    pub open spec fn request_constructs(&self, d: ComponentDefinitionView<C, K>) -> bool {
        &&& !self.under_construction().contains(d.resolved_type_id)
        &&& !(self.scope_named(d.scope) is None && self.factory_named(d.scope) is None)
        &&& !(self.scope_named(d.scope) is Some && self.scope_named(d.scope).unwrap().spec_instance(d) is Some)
    }

    /// Requests for the first definitions of `defs`, made in order from this factory, passing
    /// through `states`, gave the instances `outs`.
    pub open spec fn requests_in_order(
        &self,
        defs: Seq<ComponentDefinitionView<C, K>>,
        states: Seq<Self>,
        outs: Seq<(u64, K)>,
    ) -> bool {
        &&& outs.len() <= defs.len()
        &&& states.len() == outs.len() + 1
        &&& states[0] == *self
        &&& forall|i: int| 0 <= i < outs.len()
            ==> (#[trigger] states[i]).creation_outcome(defs[i], Ok(outs[i]), &states[i + 1])
    }

    /// Creates a new factory with given registry and scope factories; no scope is created and no
    /// type is under construction.
    pub fn new(definition_registry: R, scope_factories: Vec<(String, F)>) -> (r: Self)
        ensures
            r.registry() == definition_registry,
            forall|n: Seq<char>| r.factory_named(n) == named(scope_factories@, n),
            forall|n: Seq<char>| r.scope_named(n) is None,
            r.under_construction() == Set::<u64>::empty(),
    {
        let r = ComponentFactory {
            definition_registry,
            scope_factories,
            scopes: Vec::new(),
            types_under_construction: Vec::new(),
            marker: core::marker::PhantomData,
        };
        assert(r.under_construction() =~= Set::<u64>::empty());
        r
    }

    /// The definition serving a request for the primary instance of a type.
    pub fn primary_definition(&self, type_id: u64) -> (r: Result<ComponentDefinition<C, K>, ComponentInstanceProviderError>)
        ensures
            match primary_of(definitions_of(self.registry().registry_view(), type_id)) {
                Some(d) => r matches Ok(x) && x@ == d,
                None => r matches Err(e) && e@ == ProviderErrorView::NoPrimaryInstance(type_id),
            },
    {
        match self.definition_registry.primary_component(type_id) {
            Some(d) => Ok(d),
            None => Err(ComponentInstanceProviderError::NoPrimaryInstance(type_id)),
        }
    }

    /// The definition serving a request for a named instance of a type.
    pub fn named_definition(&self, name: &str, type_id: u64) -> (r: Result<ComponentDefinition<C, K>, ComponentInstanceProviderError>)
        ensures
            match find_named(definitions_of(self.registry().registry_view(), type_id), name@) {
                Some(d) => r matches Ok(x) && x@ == d,
                None => r matches Err(e) && e@ == ProviderErrorView::NoNamedInstance(name@),
            },
    {
        match self.definition_registry.component_by_name(name, type_id) {
            Some(d) => Ok(d),
            None => Err(ComponentInstanceProviderError::NoNamedInstance(name.to_string())),
        }
    }

    /// The definitions serving a request for all instances of a type.
    pub fn all_type_definitions(&self, type_id: u64) -> (r: Vec<ComponentDefinition<C, K>>)
        ensures
            definition_views(r@) == definitions_of(self.registry().registry_view(), type_id),
    {
        self.definition_registry.components_by_type(type_id)
    }

    /// Looks up the instance kept for a definition: a type whose constructor is running is a
    /// dependency cycle; otherwise the definition's scope is created on first use (an unknown
    /// scope name is an error), and asked for an instance, returned with the definition's cast
    /// function.
    pub fn check_scope_instance(&mut self, definition: &ComponentDefinition<C, K>) -> (r: Result<
        Option<(u64, K)>,
        ComponentInstanceProviderError,
    >)
        ensures
            final(self).registry() == old(self).registry(),
            forall|n: Seq<char>| final(self).factory_named(n) == old(self).factory_named(n),
            final(self).under_construction() == old(self).under_construction(),
            forall|n: Seq<char>| n != definition.scope@ ==> final(self).scope_named(n) == old(self).scope_named(n),
            if old(self).under_construction().contains(definition.resolved_type_id) {
                &&& r matches Err(e) && e@ == ProviderErrorView::DependencyCycle(definition.resolved_type_id)
                &&& final(self).scope_named(definition.scope@) == old(self).scope_named(definition.scope@)
            } else if old(self).scope_named(definition.scope@) is None && old(self).factory_named(definition.scope@) is None {
                &&& r matches Err(e) && e@ == ProviderErrorView::UnrecognizedScope(definition.scope@)
                &&& final(self).scope_named(definition.scope@) is None
            } else {
                &&& final(self).scope_named(definition.scope@) is Some
                &&& old(self).scope_named(definition.scope@) is Some ==> final(self).scope_named(definition.scope@) == old(self).scope_named(definition.scope@)
                &&& old(self).scope_named(definition.scope@) is None ==> forall|d| final(self).scope_named(definition.scope@).unwrap().spec_instance(d) is None
                &&& r == Ok::<Option<(u64, K)>, ComponentInstanceProviderError>(
                    match final(self).scope_named(definition.scope@).unwrap().spec_instance(definition@) {
                        Some(i) => Some((i, definition.cast)),
                        None => None,
                    },
                )
            },
    {
        if holds_type(&self.types_under_construction, definition.resolved_type_id) {
            return Err(ComponentInstanceProviderError::DependencyCycle(definition.resolved_type_id));
        }
        let index = match find_named_entry(&self.scopes, &definition.scope) {
            Some(i) => i,
            None => {
                match find_named_entry(&self.scope_factories, &definition.scope) {
                    Some(f) => {
                        let scope = self.scope_factories[f].1.create_scope();
                        let ghost before = self.scopes@;
                        let entry = (definition.scope.clone(), scope);
                        proof {
                            assert forall|n: Seq<char>| n != entry.0@ implies named(before.push(entry), n) == named(before, n) by {
                                lemma_named_push(before, entry, n);
                            }
                            lemma_named_push(before, entry, entry.0@);
                        }
                        self.scopes.push(entry);
                        self.scopes.len() - 1
                    },
                    None => {
                        return Err(ComponentInstanceProviderError::UnrecognizedScope(definition.scope.clone()));
                    },
                }
            },
        };
        proof {
            assert(self.scopes@[index as int].0@ == definition.scope@);
        }
        let found = self.scopes[index].1.instance(definition);
        match found {
            Some(i) => Ok(Some((i, definition.cast))),
            None => Ok(None),
        }
    }

    /// Marks the definition's type as under construction, before its constructor runs.
    pub fn begin_construction(&mut self, definition: &ComponentDefinition<C, K>)
        ensures
            final(self).registry() == old(self).registry(),
            forall|n: Seq<char>| final(self).factory_named(n) == old(self).factory_named(n),
            forall|n: Seq<char>| final(self).scope_named(n) == old(self).scope_named(n),
            final(self).under_construction() == old(self).under_construction().insert(definition.resolved_type_id),
    {
        self.types_under_construction.push(definition.resolved_type_id);
    }

    /// Clears the definition's type from the types under construction, after its constructor
    /// returned.
    pub fn end_construction(&mut self, definition: &ComponentDefinition<C, K>)
        ensures
            final(self).registry() == old(self).registry(),
            forall|n: Seq<char>| final(self).factory_named(n) == old(self).factory_named(n),
            forall|n: Seq<char>| final(self).scope_named(n) == old(self).scope_named(n),
            final(self).under_construction() == old(self).under_construction().remove(definition.resolved_type_id),
    {
        let t = definition.resolved_type_id;
        let mut kept: Vec<u64> = Vec::new();
        let mut i: usize = 0;
        while i < self.types_under_construction.len()
            invariant
                i <= self.types_under_construction.len(),
                forall|x: u64| #[trigger] kept@.contains(x) <==> (self.types_under_construction@.take(i as int).contains(x) && x != t),
            decreases self.types_under_construction.len() - i,
        {
            assert(self.types_under_construction@.take(i + 1) =~= self.types_under_construction@.take(i as int).push(self.types_under_construction@[i as int]));
            if self.types_under_construction[i] != t {
                kept.push(self.types_under_construction[i]);
            }
            i += 1;
        }
        assert(self.types_under_construction@.take(self.types_under_construction.len() as int) =~= self.types_under_construction@);
        let ghost before = self.types_under_construction@;
        self.types_under_construction = kept;
        assert(self.under_construction() =~= before.to_set().remove(t));
    }

    /// Ends the construction of an instance for a definition, given what its constructor
    /// returned: the type leaves the types under construction; a constructor error is passed
    /// on; a new instance is stored in the definition's scope and returned with the
    /// definition's cast function, unless that scope does not exist.
    pub fn finish_construction(
        &mut self,
        definition: &ComponentDefinition<C, K>,
        constructed: Result<u64, ComponentInstanceProviderError>,
    ) -> (r: Result<(u64, K), ComponentInstanceProviderError>)
        ensures
            final(self).registry() == old(self).registry(),
            forall|n: Seq<char>| final(self).factory_named(n) == old(self).factory_named(n),
            final(self).under_construction() == old(self).under_construction().remove(definition.resolved_type_id),
            forall|n: Seq<char>| n != definition.scope@ ==> final(self).scope_named(n) == old(self).scope_named(n),
            match constructed {
                Err(e) => r == Err::<(u64, K), ComponentInstanceProviderError>(e)
                    && final(self).scope_named(definition.scope@) == old(self).scope_named(definition.scope@),
                Ok(i) => if old(self).scope_named(definition.scope@) is None {
                    &&& r matches Err(e) && e@ == ProviderErrorView::UnrecognizedScope(definition.scope@)
                    &&& final(self).scope_named(definition.scope@) is None
                } else {
                    &&& r == Ok::<(u64, K), ComponentInstanceProviderError>((i, definition.cast))
                    &&& final(self).scope_named(definition.scope@) is Some
                    &&& old(self).scope_named(definition.scope@).unwrap().spec_stored(
                        definition@,
                        i,
                        &final(self).scope_named(definition.scope@).unwrap(),
                    )
                },
            },
    {
        self.end_construction(definition);
        match constructed {
            Err(e) => Err(e),
            Ok(instance) => match self.store_instance_in_scope(definition, instance) {
                Ok(()) => Ok((instance, definition.cast)),
                Err(e) => Err(e),
            },
        }
    }

    /// Stores a newly constructed instance in the definition's scope.
    pub fn store_instance_in_scope(&mut self, definition: &ComponentDefinition<C, K>, instance: u64) -> (r: Result<
        (),
        ComponentInstanceProviderError,
    >)
        ensures
            final(self).registry() == old(self).registry(),
            forall|n: Seq<char>| final(self).factory_named(n) == old(self).factory_named(n),
            final(self).under_construction() == old(self).under_construction(),
            forall|n: Seq<char>| n != definition.scope@ ==> final(self).scope_named(n) == old(self).scope_named(n),
            old(self).scope_named(definition.scope@) is None <==> r is Err,
            r matches Err(e) ==> e@ == ProviderErrorView::UnrecognizedScope(definition.scope@) && final(self).scope_named(definition.scope@) is None,
            r is Ok ==> final(self).scope_named(definition.scope@) is Some
                && old(self).scope_named(definition.scope@).unwrap().spec_stored(definition@, instance, &final(self).scope_named(definition.scope@).unwrap()),
    {
        match find_named_entry(&self.scopes, &definition.scope) {
            Some(index) => {
                let ghost before = self.scopes@;
                let (name, mut scope) = self.scopes.remove(index);
                scope.store_instance(definition, instance);
                let entry = (name, scope);
                proof {
                    assert forall|n: Seq<char>| n != entry.0@ implies named(before.update(index as int, entry), n) == named(before, n) by {
                        lemma_named_update(before, index as int, entry, n);
                    }
                    lemma_named_update(before, index as int, entry, entry.0@);
                }
                self.scopes.insert(index, entry);
                assert(self.scopes@ =~= before.update(index as int, entry));
                Ok(())
            },
            None => Err(ComponentInstanceProviderError::UnrecognizedScope(definition.scope.clone())),
        }
    }
}

impl<
    C: Copy + ComponentConstructor<ComponentFactory<C, K, R, F, S>>,
    K: Copy,
    R: ComponentDefinitionRegistry<C, K>,
    F: ScopeFactory<C, K, S>,
    S: Scope<C, K>,
> ComponentFactory<C, K, R, F, S> {
    /// Returns the instance for a definition: the one kept in its scope, or a new one from its
    /// constructor, which may request further instances from this factory while the type is
    /// under construction.
    pub fn create_instance(&mut self, definition: &ComponentDefinition<C, K>) -> (r: Result<
        (u64, K),
        ComponentInstanceProviderError,
    >)
        ensures
            old(self).creation_outcome(definition@, r, final(self)),
    {
        match self.check_scope_instance(definition) {
            Err(e) => {
                return Err(e);
            },
            Ok(Some(found)) => {
                return Ok(found);
            },
            Ok(None) => {},
        }
        let ghost f1 = *self;
        self.begin_construction(definition);
        let ghost f2 = *self;
        let constructed = definition.constructor.construct(self);
        let ghost f3 = *self;
        let ghost mid = self.scope_named(definition.scope@);
        let r = self.finish_construction(definition, constructed);
        proof {
            let d = definition@;
            let t = d.resolved_type_id;
            if r is Ok {
                let stored = self.scope_named(definition.scope@).unwrap();
                assert(mid.unwrap().spec_stored(definition@, r->Ok_0.0, &stored));
            }
            lemma_construction_bracket(*old(self), f2, *self, t);
            assert(self.under_construction() == old(self).under_construction());
            assert forall|n: Seq<char>| #[trigger] self.factory_named(n) == old(self).factory_named(n) by {
                assert(f1.factory_named(n) == old(self).factory_named(n));
                assert(f2.factory_named(n) == f1.factory_named(n));
                assert(f3.factory_named(n) == f2.factory_named(n));
            }
            assert(f2.kept(d.scope, d) is None);
            assert(f3.kept(d.scope, d) is None) by {
                if f3.kept(d.scope, d) is Some {
                    assert(f2.under_construction().contains(t));
                }
            }
            assert forall|n: Seq<char>, e: ComponentDefinitionView<C, K>|
                #[trigger] old(self).kept(n, e) is Some implies self.kept(n, e) == old(self).kept(n, e) by {
                assert(f1.kept(n, e) == old(self).kept(n, e));
                assert(f2.kept(n, e) == f1.kept(n, e));
                assert(f3.kept(n, e) == f2.kept(n, e));
                if n == d.scope && constructed is Ok && mid is Some {
                    mid.unwrap().lemma_store_keeps_instances(d, constructed->Ok_0, &self.scope_named(n).unwrap(), e);
                }
            }
            assert forall|n: Seq<char>, e: ComponentDefinitionView<C, K>|
                #[trigger] self.kept(n, e) is Some && old(self).kept(n, e) is None
                    implies !old(self).under_construction().contains(e.resolved_type_id) by {
                assert(f2.kept(n, e) == f1.kept(n, e));
                if n != d.scope {
                    assert(f1.kept(n, e) == old(self).kept(n, e));
                    assert(self.kept(n, e) == f3.kept(n, e));
                } else {
                    assert(f1.kept(n, e) is None);
                    if constructed is Ok && mid is Some && e.resolved_type_id != t {
                        mid.unwrap().lemma_store_keeps_instances(d, constructed->Ok_0, &self.scope_named(n).unwrap(), e);
                        assert(self.kept(n, e) == f3.kept(n, e));
                    } else if !(constructed is Ok && mid is Some) {
                        assert(self.kept(n, e) == f3.kept(n, e));
                    }
                }
            }
            assert(old(self).keeps_frame_of(self));
        }
        r
    }
}

impl<
    C: Copy + ComponentConstructor<ComponentFactory<C, K, R, F, S>>,
    K: Copy,
    R: ComponentDefinitionRegistry<C, K>,
    F: ScopeFactory<C, K, S>,
    S: Scope<C, K>,
> ComponentInstanceProvider<K> for ComponentFactory<C, K, R, F, S> {
    fn primary_instance(&mut self, type_id: u64) -> (r: Result<(u64, K), ComponentInstanceProviderError>)
        ensures
            match primary_of(definitions_of(old(self).registry().registry_view(), type_id)) {
                Some(d) => old(self).creation_outcome(d, r, final(self)),
                None => {
                    &&& r matches Err(e) && e@ == ProviderErrorView::NoPrimaryInstance(type_id)
                    &&& old(self).same_state(final(self))
                },
            },
            old(self).keeps_frame_of(final(self)),
    {
        let definition = match self.primary_definition(type_id) {
            Ok(d) => d,
            Err(e) => {
                proof {
                    lemma_keeps_own_frame(*self);
                }
                return Err(e);
            },
        };
        let ghost before = *self;
        let r = self.create_instance(&definition);
        proof {
            lemma_request_keeps_frame(before, definition@, r, *self);
        }
        r
    }

    fn instances(&mut self, type_id: u64) -> (r: Result<Vec<(u64, K)>, ComponentInstanceProviderError>)
        ensures
            definitions_of(old(self).registry().registry_view(), type_id).len() == 0 ==> {
                &&& r matches Ok(v) && v@.len() == 0
                &&& old(self).same_state(final(self))
            },
            r matches Ok(v) ==> {
                &&& v@.len() == definitions_of(old(self).registry().registry_view(), type_id).len()
                &&& forall|i: int| 0 <= i < v@.len()
                    ==> (#[trigger] v@[i]).1 == definitions_of(old(self).registry().registry_view(), type_id)[i].cast
                &&& exists|states: Seq<Self>| {
                    &&& #[trigger] old(self).requests_in_order(
                        definitions_of(old(self).registry().registry_view(), type_id),
                        states,
                        v@,
                    )
                    &&& states.last() == *final(self)
                }
            },
            r matches Err(e) ==> exists|states: Seq<Self>, outs: Seq<(u64, K)>| {
                &&& #[trigger] old(self).requests_in_order(definitions_of(old(self).registry().registry_view(), type_id), states, outs)
                &&& outs.len() < definitions_of(old(self).registry().registry_view(), type_id).len()
                &&& states.last().creation_outcome(
                    definitions_of(old(self).registry().registry_view(), type_id)[outs.len() as int],
                    Err(e),
                    final(self),
                )
            },
            old(self).keeps_frame_of(final(self)),
    {
        let ghost defs = definitions_of(self.registry().registry_view(), type_id);
        let ghost start = *self;
        proof {
            lemma_keeps_own_frame(*self);
        }
        let definitions = self.all_type_definitions(type_id);
        let mut result: Vec<(u64, K)> = Vec::new();
        let ghost mut states: Seq<Self> = seq![*self];
        let mut i: usize = 0;
        while i < definitions.len()
            invariant
                definition_views(definitions@) == defs,
                i == 0 ==> start.same_state(self),
                defs.len() == definitions@.len(),
                defs == definitions_of(old(self).registry().registry_view(), type_id),
                i <= definitions.len(),
                result@.len() == i,
                forall|j: int| 0 <= j < i ==> (#[trigger] result@[j]).1 == defs[j].cast,
                states.len() == i + 1,
                states[0] == *old(self),
                states[i as int] == *self,
                forall|j: int| 0 <= j < i ==> (#[trigger] states[j]).creation_outcome(defs[j], Ok(result@[j]), &states[j + 1]),
                old(self).keeps_frame_of(self),
            decreases definitions.len() - i,
        {
            assert(defs[i as int] == definitions@[i as int]@);
            let ghost before = *self;
            let outcome = self.create_instance(&definitions[i]);
            proof {
                lemma_request_keeps_frame(before, definitions@[i as int]@, outcome, *self);
                lemma_keeps_frame_transitive(*old(self), before, *self);
            }
            match outcome {
                Ok(x) => {
                    let ghost prev = states;
                    proof {
                        states = states.push(*self);
                        assert forall|j: int| 0 <= j < i + 1 implies (#[trigger] states[j]).creation_outcome(
                            defs[j],
                            Ok(result@.push(x)[j]),
                            &states[j + 1],
                        ) by {
                            if j < i {
                                assert(states[j] == prev[j] && states[j + 1] == prev[j + 1]);
                                assert(result@.push(x)[j] == result@[j]);
                            }
                        }
                    }
                    result.push(x);
                },
                Err(e) => {
                    assert(old(self).requests_in_order(defs, states, result@));
                    return Err(e);
                },
            }
            i += 1;
        }
        assert(old(self).requests_in_order(defs, states, result@));
        Ok(result)
    }

    fn instance_by_name(&mut self, name: &str, type_id: u64) -> (r: Result<(u64, K), ComponentInstanceProviderError>)
        ensures
            match find_named(definitions_of(old(self).registry().registry_view(), type_id), name@) {
                Some(d) => old(self).creation_outcome(d, r, final(self)),
                None => {
                    &&& r matches Err(e) && e@ == ProviderErrorView::NoNamedInstance(name@)
                    &&& old(self).same_state(final(self))
                },
            },
            old(self).keeps_frame_of(final(self)),
    {
        let definition = match self.named_definition(name, type_id) {
            Ok(d) => d,
            Err(e) => {
                proof {
                    lemma_keeps_own_frame(*self);
                }
                return Err(e);
            },
        };
        let ghost before = *self;
        let r = self.create_instance(&definition);
        proof {
            lemma_request_keeps_frame(before, definition@, r, *self);
        }
        r
    }
}

/// Builder for [ComponentFactory] with sensible defaults, for easy construction.
pub struct ComponentFactoryBuilder<R, F> {
    definition_registry: R,
    scope_factories: Vec<(String, F)>,
}

impl<R, F> ComponentFactoryBuilder<R, F> {
    /// The definition registry the factory is built with.
    pub closed spec fn registry(&self) -> R {
        self.definition_registry
    }

    /// The scope factory registered under a name.
    pub closed spec fn factory_named(&self, name: Seq<char>) -> Option<F> {
        named(self.scope_factories@, name)
    }
}

impl<R> ComponentFactoryBuilder<R, BuiltinScopeFactory> {
    /// Creates a new builder with the given definition registry and the built-in scope
    /// factories under [SINGLETON] and [PROTOTYPE].
    pub fn new(definition_registry: R) -> (r: Self)
        ensures
            r.registry() == definition_registry,
            r.factory_named(SINGLETON@) == Some(BuiltinScopeFactory::Singleton),
            r.factory_named(PROTOTYPE@) == Some(BuiltinScopeFactory::Prototype),
            forall|n: Seq<char>| n != SINGLETON@ && n != PROTOTYPE@ ==> r.factory_named(n) is None,
    {
        let mut scope_factories: Vec<(String, BuiltinScopeFactory)> = Vec::new();
        scope_factories.push((SINGLETON.to_string(), BuiltinScopeFactory::Singleton));
        scope_factories.push((PROTOTYPE.to_string(), BuiltinScopeFactory::Prototype));
        proof {
            reveal_strlit("SINGLETON");
            reveal_strlit("PROTOTYPE");
            let pairs = scope_factories@;
            assert(pairs.drop_first().drop_first() =~= Seq::<(String, BuiltinScopeFactory)>::empty());
            assert(SINGLETON@ != PROTOTYPE@) by {
                assert(SINGLETON@[0] != PROTOTYPE@[0]);
            }
            assert(named(pairs.drop_first(), PROTOTYPE@) == Some(BuiltinScopeFactory::Prototype));
            assert forall|n: Seq<char>| n != SINGLETON@ && n != PROTOTYPE@ implies named(pairs, n) is None by {
                assert(named(pairs.drop_first().drop_first(), n) is None);
                assert(named(pairs.drop_first(), n) == named(pairs.drop_first().drop_first(), n));
                assert(named(pairs, n) == named(pairs.drop_first(), n));
            }
        }
        ComponentFactoryBuilder { definition_registry, scope_factories }
    }
}

impl<C: Copy, K: Copy> ComponentFactoryBuilder<StaticComponentDefinitionRegistry<C, K>, BuiltinScopeFactory> {
    /// Creates a builder over the registry built from statically declared definitions with
    /// definition overriding allowed, and the built-in scope factories; an error building the
    /// registry is returned as it is.
    pub fn from_definitions<D, FC, FA>(
        component_definitions: &Vec<TypedComponentDefinition<C, K, D>>,
        alias_definitions: &Vec<ComponentAliasDefinition<K, D>>,
        component_condition: &FC,
        alias_condition: &FA,
    ) -> (r: Result<Self, ComponentDefinitionRegistryError>)
        where
            FC: Fn(&StaticComponentDefinitionRegistry<C, K>, &TypedComponentDefinition<C, K, D>) -> bool,
            FA: Fn(&StaticComponentDefinitionRegistry<C, K>, &ComponentAliasDefinition<K, D>) -> bool,
        requires
            forall|reg: &StaticComponentDefinitionRegistry<C, K>, d: &TypedComponentDefinition<C, K, D>| component_condition.requires((reg, d)),
            forall|reg: &StaticComponentDefinitionRegistry<C, K>, a: &ComponentAliasDefinition<K, D>| alias_condition.requires((reg, a)),
        ensures
            exists|cd: Seq<bool>, cs: Seq<StaticComponentDefinitionRegistry<C, K>>, ad: Seq<bool>, as_: Seq<StaticComponentDefinitionRegistry<C, K>>| {
                &&& conditions_consistent(*component_condition, *alias_condition, true, component_definitions@, alias_definitions@, cd, cs, ad, as_)
                &&& match registration_outcome(true, component_definitions@, alias_definitions@, cd, ad) {
                    Ok(v) => r matches Ok(b) && b.registry()@ == v,
                    Err(e) => r matches Err(err) && err@ == e,
                }
            },
            r matches Ok(b) ==> {
                &&& b.registry().allows_overriding()
                &&& names_consistent(b.registry()@)
                &&& b.factory_named(SINGLETON@) == Some(BuiltinScopeFactory::Singleton)
                &&& b.factory_named(PROTOTYPE@) == Some(BuiltinScopeFactory::Prototype)
                &&& forall|n: Seq<char>| n != SINGLETON@ && n != PROTOTYPE@ ==> b.factory_named(n) is None
            },
    {
        match StaticComponentDefinitionRegistry::new(
            true,
            component_definitions,
            alias_definitions,
            component_condition,
            alias_condition,
        ) {
            Ok(registry) => Ok(ComponentFactoryBuilder::new(registry)),
            Err(e) => Err(e),
        }
    }
}

impl<R, F> ComponentFactoryBuilder<R, F> {
    /// Sets a new definition registry.
    pub fn with_definition_registry<Q>(self, definition_registry: Q) -> (r: ComponentFactoryBuilder<Q, F>)
        ensures
            r.registry() == definition_registry,
            forall|n: Seq<char>| r.factory_named(n) == self.factory_named(n),
    {
        ComponentFactoryBuilder { definition_registry, scope_factories: self.scope_factories }
    }

    /// Sets new scope factories, each under its name.
    pub fn with_scope_factories<G>(self, scope_factories: Vec<(String, G)>) -> (r: ComponentFactoryBuilder<R, G>)
        ensures
            r.registry() == self.registry(),
            forall|n: Seq<char>| r.factory_named(n) == named(scope_factories@, n),
    {
        ComponentFactoryBuilder { definition_registry: self.definition_registry, scope_factories }
    }

    /// Adds a new scope factory under a name, in place of one registered under that name.
    pub fn with_scope_factory(self, name: String, factory: F) -> (r: Self)
        ensures
            r.registry() == self.registry(),
            r.factory_named(name@) == Some(factory),
            forall|n: Seq<char>| n != name@ ==> r.factory_named(n) == self.factory_named(n),
    {
        let mut scope_factories = self.scope_factories;
        let ghost before = scope_factories@;
        let entry = (name, factory);
        match find_named_entry(&scope_factories, &entry.0) {
            Some(index) => {
                proof {
                    assert forall|n: Seq<char>| n != entry.0@ implies named(before.update(index as int, entry), n) == named(before, n) by {
                        lemma_named_update(before, index as int, entry, n);
                    }
                    lemma_named_update(before, index as int, entry, entry.0@);
                }
                scope_factories.set(index, entry);
            },
            None => {
                proof {
                    assert forall|n: Seq<char>| n != entry.0@ implies named(before.push(entry), n) == named(before, n) by {
                        lemma_named_push(before, entry, n);
                    }
                    lemma_named_push(before, entry, entry.0@);
                }
                scope_factories.push(entry);
            },
        }
        ComponentFactoryBuilder { definition_registry: self.definition_registry, scope_factories }
    }
}

impl<R, F> ComponentFactoryBuilder<R, F> {
    /// Builds the resulting [ComponentFactory].
    pub fn build<C: Copy, K: Copy, S: Scope<C, K>>(self) -> (r: ComponentFactory<C, K, R, F, S>)
        where
            R: ComponentDefinitionRegistry<C, K>,
            F: ScopeFactory<C, K, S>,
        ensures
            r.registry() == self.registry(),
            forall|n: Seq<char>| r.factory_named(n) == self.factory_named(n),
            forall|n: Seq<char>| r.scope_named(n) is None,
            r.under_construction() == Set::<u64>::empty(),
    {
        ComponentFactory::new(self.definition_registry, self.scope_factories)
    }
}

/// An instance stored for a definition in a singleton scope is what the factory gives back for
/// any later request for a definition of the same concrete type in that scope, while that type
/// is not under construction; nothing in the factory changes.
pub proof fn lemma_singleton_instance_reused<C: Copy, K: Copy, R: ComponentDefinitionRegistry<C, K>>(
    factory: ComponentFactory<C, K, R, BuiltinScopeFactory, BuiltinScope>,
    scope_before: BuiltinScope,
    stored: ComponentDefinitionView<C, K>,
    instance: u64,
    requested: ComponentDefinitionView<C, K>,
    r: Result<(u64, K), ComponentInstanceProviderError>,
    after: ComponentFactory<C, K, R, BuiltinScopeFactory, BuiltinScope>,
)
    requires
        scope_before is Singleton,
        factory.scope_named(stored.scope) is Some,
        <BuiltinScope as Scope<C, K>>::spec_stored(&scope_before, stored, instance, &factory.scope_named(stored.scope).unwrap()),
        requested.scope == stored.scope,
        requested.resolved_type_id == stored.resolved_type_id,
        !factory.under_construction().contains(requested.resolved_type_id),
        factory.creation_outcome(requested, r, &after),
    ensures
        r == Ok::<(u64, K), ComponentInstanceProviderError>((instance, requested.cast)),
        factory.same_state(&after),
{
    lemma_scope_reuse(scope_before, factory.scope_named(stored.scope).unwrap(), stored, instance, requested);
}

/// A request for a definition of a singleton scope that gave an instance, whether kept or newly
/// constructed, leaves that instance in the scope: a second request for the same definition,
/// from the factory as the first one left it, gives the same instance and changes nothing.
pub proof fn lemma_singleton_reused_across_requests<C: Copy, K: Copy, R: ComponentDefinitionRegistry<C, K>>(
    first: ComponentFactory<C, K, R, BuiltinScopeFactory, BuiltinScope>,
    d: ComponentDefinitionView<C, K>,
    instance: u64,
    cast: K,
    second: ComponentFactory<C, K, R, BuiltinScopeFactory, BuiltinScope>,
    r: Result<(u64, K), ComponentInstanceProviderError>,
    last: ComponentFactory<C, K, R, BuiltinScopeFactory, BuiltinScope>,
)
    requires
        first.creation_outcome(d, Ok((instance, cast)), &second),
        second.scope_named(d.scope) matches Some(s) && s is Singleton,
        second.creation_outcome(d, r, &last),
    ensures
        r == Ok::<(u64, K), ComponentInstanceProviderError>((instance, d.cast)),
        second.same_state(&last),
{
    let after = second.scope_named(d.scope).unwrap();
    if !first.under_construction().contains(d.resolved_type_id) && !(first.scope_named(d.scope) is None
        && first.factory_named(d.scope) is None) && !(first.scope_named(d.scope) is Some
        && first.scope_named(d.scope).unwrap().spec_instance(d) is Some) {
        let mid = choose|mid: BuiltinScope| #[trigger] mid.spec_stored(d, instance, &after);
        lemma_scope_reuse(mid, after, d, instance, d);
    } else {
        assert(second.scope_named(d.scope) == first.scope_named(d.scope));
    }
}

/// A request for a definition of a prototype scope never takes a kept instance: while the
/// definition's type is not under construction, the definition's constructor is run. After a
/// request that gave an instance, the type is no longer under construction, so a second request,
/// while the scope is still a prototype scope, runs the constructor again.
pub proof fn lemma_prototype_constructs_on_every_request<C: Copy, K: Copy, R: ComponentDefinitionRegistry<C, K>>(
    first: ComponentFactory<C, K, R, BuiltinScopeFactory, BuiltinScope>,
    d: ComponentDefinitionView<C, K>,
    r: Result<(u64, K), ComponentInstanceProviderError>,
    second: ComponentFactory<C, K, R, BuiltinScopeFactory, BuiltinScope>,
)
    requires
        first.scope_named(d.scope) matches Some(s) && s is Prototype,
        !first.under_construction().contains(d.resolved_type_id),
        first.creation_outcome(d, r, &second),
    ensures
        first.request_constructs(d),
        r is Ok && (second.scope_named(d.scope) matches Some(s) && s is Prototype) ==> second.request_constructs(d),
{
}

/// A factory keeps its own frame.
pub proof fn lemma_keeps_own_frame<C: Copy, K: Copy, R: ComponentDefinitionRegistry<C, K>, F: ScopeFactory<C, K, S>, S: Scope<C, K>>(
    f: ComponentFactory<C, K, R, F, S>,
)
    ensures
        f.keeps_frame_of(&f),
{
}

/// Every request for an instance changes the factory at most as requests change it: the
/// registry, the scope factories and the types under construction stay, and every instance a
/// scope holds is still held afterwards.
pub proof fn lemma_request_keeps_frame<C: Copy, K: Copy, R: ComponentDefinitionRegistry<C, K>, F: ScopeFactory<C, K, S>, S: Scope<C, K>>(
    f: ComponentFactory<C, K, R, F, S>,
    d: ComponentDefinitionView<C, K>,
    r: Result<(u64, K), ComponentInstanceProviderError>,
    after: ComponentFactory<C, K, R, F, S>,
)
    requires
        f.creation_outcome(d, r, &after),
    ensures
        f.keeps_frame_of(&after),
{
    if f.same_state(&after) {
        assert forall|n: Seq<char>, e: ComponentDefinitionView<C, K>|
            #[trigger] f.kept(n, e) is Some implies after.kept(n, e) == f.kept(n, e) by {
            assert(after.scope_named(n) == f.scope_named(n));
        }
        assert forall|n: Seq<char>, e: ComponentDefinitionView<C, K>|
            #[trigger] after.kept(n, e) is Some && f.kept(n, e) is None implies !f.under_construction().contains(e.resolved_type_id) by {
            assert(after.scope_named(n) == f.scope_named(n));
        }
    }
}

/// Changes made by requests compose: what two runs of requests keep, their succession keeps.
pub proof fn lemma_keeps_frame_transitive<C: Copy, K: Copy, R: ComponentDefinitionRegistry<C, K>, F: ScopeFactory<C, K, S>, S: Scope<C, K>>(
    a: ComponentFactory<C, K, R, F, S>,
    b: ComponentFactory<C, K, R, F, S>,
    c: ComponentFactory<C, K, R, F, S>,
)
    requires
        a.keeps_frame_of(&b),
        b.keeps_frame_of(&c),
    ensures
        a.keeps_frame_of(&c),
{
    assert forall|n: Seq<char>| #[trigger] c.factory_named(n) == a.factory_named(n) by {
        assert(b.factory_named(n) == a.factory_named(n));
    }
    assert forall|n: Seq<char>, e: ComponentDefinitionView<C, K>|
        #[trigger] a.kept(n, e) is Some implies c.kept(n, e) == a.kept(n, e) by {
        assert(b.kept(n, e) == a.kept(n, e));
    }
    assert forall|n: Seq<char>, e: ComponentDefinitionView<C, K>|
        #[trigger] c.kept(n, e) is Some && a.kept(n, e) is None implies !a.under_construction().contains(e.resolved_type_id) by {
        if b.kept(n, e) is Some {
        } else {
            assert(c.kept(n, e) is Some && b.kept(n, e) is None);
        }
    }
}

/// Two requests for the primary instance of a type, the second made from the factory as the
/// first left it, give the same instance when the type's primary definition is in a singleton
/// scope: the registry is unchanged, so both resolve the same definition, and the instance
/// given first is held in the scope.
pub proof fn lemma_singleton_primary_instance_reused<C: Copy, K: Copy, R: ComponentDefinitionRegistry<C, K>>(
    first: ComponentFactory<C, K, R, BuiltinScopeFactory, BuiltinScope>,
    t: u64,
    d: ComponentDefinitionView<C, K>,
    instance: u64,
    cast: K,
    second: ComponentFactory<C, K, R, BuiltinScopeFactory, BuiltinScope>,
    r: Result<(u64, K), ComponentInstanceProviderError>,
    last: ComponentFactory<C, K, R, BuiltinScopeFactory, BuiltinScope>,
)
    requires
        primary_of(definitions_of(first.registry().registry_view(), t)) == Some(d),
        first.creation_outcome(d, Ok((instance, cast)), &second),
        second.scope_named(d.scope) matches Some(s) && s is Singleton,
        match primary_of(definitions_of(second.registry().registry_view(), t)) {
            Some(e) => second.creation_outcome(e, r, &last),
            None => r is Err && second.same_state(&last),
        },
    ensures
        r == Ok::<(u64, K), ComponentInstanceProviderError>((instance, d.cast)),
        second.same_state(&last),
{
    lemma_request_keeps_frame(first, d, Ok((instance, cast)), second);
    lemma_singleton_reused_across_requests(first, d, instance, cast, second, r, last);
}

/// Beginning and then ending the construction of a type that was not under construction
/// leaves the types under construction as they were, the type being under construction in
/// between.
pub proof fn lemma_construction_bracket<C: Copy, K: Copy, R: ComponentDefinitionRegistry<C, K>, F: ScopeFactory<C, K, S>, S: Scope<C, K>>(
    before: ComponentFactory<C, K, R, F, S>,
    during: ComponentFactory<C, K, R, F, S>,
    after: ComponentFactory<C, K, R, F, S>,
    type_id: u64,
)
    requires
        !before.under_construction().contains(type_id),
        during.under_construction() == before.under_construction().insert(type_id),
        after.under_construction() == during.under_construction().remove(type_id),
    ensures
        during.under_construction().contains(type_id),
        after.under_construction() == before.under_construction(),
{
    assert(after.under_construction() =~= before.under_construction());
}

} // verus!
