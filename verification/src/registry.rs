//! The named component definition map: the storage behind component definition registries.
//! Definitions are kept per type key; every registered concrete component contributes its names
//! to a global name set.

use std::collections::HashMap;
use vstd::prelude::*;

use crate::error::{ComponentDefinitionRegistryError, RegistryErrorView};

verus! {

broadcast use {vstd::std_specs::hash::group_hash_axioms, vstd::seq_lib::group_seq_properties};

/// The abstract values of a sequence of strings.
pub open spec fn string_views(s: Seq<String>) -> Seq<Seq<char>> {
    s.map_values(|x: String| x@)
}

/// Definition for a component registered in a definition registry. The constructor and cast
/// functions are carried as opaque copyable values.
#[derive(Clone, Debug)]
pub struct ComponentDefinition<C, K> {
    /// Each component has at least one name, which can be used to request a specific instance.
    pub names: Vec<String>,
    /// With multiple components registered for a given type, one of them can be marked as primary
    /// and returned when requesting a single instance.
    pub is_primary: bool,
    /// Which scope to use when requesting given component.
    pub scope: String,
    /// Concrete component type key.
    pub resolved_type_id: u64,
    /// Human-readable type name for reporting purposes.
    pub resolved_type_name: String,
    /// Constructor for type-erased instances.
    pub constructor: C,
    /// Cast function associated with the type under which the definition is registered.
    pub cast: K,
}

/// Abstract value of a [ComponentDefinition].
pub struct ComponentDefinitionView<C, K> {
    pub names: Seq<Seq<char>>,
    pub is_primary: bool,
    pub scope: Seq<char>,
    pub resolved_type_id: u64,
    pub resolved_type_name: Seq<char>,
    pub constructor: C,
    pub cast: K,
}

impl<C, K> View for ComponentDefinition<C, K> {
    type V = ComponentDefinitionView<C, K>;

    open spec fn view(&self) -> ComponentDefinitionView<C, K> {
        ComponentDefinitionView {
            names: string_views(self.names@),
            is_primary: self.is_primary,
            scope: self.scope@,
            resolved_type_id: self.resolved_type_id,
            resolved_type_name: self.resolved_type_name@,
            constructor: self.constructor,
            cast: self.cast,
        }
    }
}

/// Registration information for a component.
#[derive(Clone, Debug)]
pub struct ComponentMetadata<C, K> {
    pub names: Vec<String>,
    pub scope: String,
    pub constructor: C,
    pub cast: K,
}

/// Registration information for an alias of a component.
#[derive(Clone, Debug)]
pub struct ComponentAliasMetadata<K> {
    pub is_primary: bool,
    pub scope: Option<String>,
    pub cast: K,
}

/// Copies a list of strings.
pub fn copy_strings(v: &Vec<String>) -> (r: Vec<String>)
    ensures
        string_views(r@) == string_views(v@),
{
    let mut r: Vec<String> = Vec::new();
    let mut i: usize = 0;
    while i < v.len()
        invariant
            i <= v.len(),
            r@.len() == i,
            forall|j: int| 0 <= j < i ==> r@[j]@ == v@[j]@,
        decreases v.len() - i,
    {
        r.push(v[i].clone());
        i += 1;
    }
    assert(string_views(r@) =~= string_views(v@));
    r
}

/// Checks whether a list of strings holds a given string.
pub fn contains_string(v: &Vec<String>, s: &String) -> (r: bool)
    ensures
        r == string_views(v@).contains(s@),
{
    let mut i: usize = 0;
    while i < v.len()
        invariant
            i <= v.len(),
            forall|j: int| 0 <= j < i ==> string_views(v@)[j] != s@,
        decreases v.len() - i,
    {
        if v[i] == *s {
            assert(string_views(v@)[i as int] == s@);
            return true;
        }
        i += 1;
    }
    proof {
        if string_views(v@).contains(s@) {
            let j = choose|j: int| 0 <= j < string_views(v@).len() && string_views(v@)[j] == s@;
            assert(string_views(v@)[j] != s@);
        }
    }
    false
}

impl<C: Copy, K: Copy> ComponentDefinition<C, K> {
    /// Returns an identical copy of this definition.
    pub fn duplicate(&self) -> (r: Self)
        ensures
            r@ == self@,
    {
        ComponentDefinition {
            names: copy_strings(&self.names),
            is_primary: self.is_primary,
            scope: self.scope.clone(),
            resolved_type_id: self.resolved_type_id,
            resolved_type_name: self.resolved_type_name.clone(),
            constructor: self.constructor,
            cast: self.cast,
        }
    }
}

/// The abstract values of a sequence of definitions.
pub open spec fn definition_views<C, K>(s: Seq<ComponentDefinition<C, K>>) -> Seq<ComponentDefinitionView<C, K>> {
    s.map_values(|d: ComponentDefinition<C, K>| d@)
}

/// Copies a list of definitions.
pub fn copy_definitions<C: Copy, K: Copy>(v: &Vec<ComponentDefinition<C, K>>) -> (r: Vec<ComponentDefinition<C, K>>)
    ensures
        definition_views(r@) == definition_views(v@),
{
    let mut r: Vec<ComponentDefinition<C, K>> = Vec::new();
    let mut i: usize = 0;
    while i < v.len()
        invariant
            i <= v.len(),
            r@.len() == i,
            forall|j: int| 0 <= j < i ==> r@[j]@ == v@[j]@,
        decreases v.len() - i,
    {
        r.push(v[i].duplicate());
        i += 1;
    }
    assert(definition_views(r@) =~= definition_views(v@));
    r
}

/// The first definition, in registration order, which carries the given name.
pub open spec fn find_named<C, K>(defs: Seq<ComponentDefinitionView<C, K>>, name: Seq<char>) -> Option<ComponentDefinitionView<C, K>>
    decreases defs.len(),
{
    if defs.len() == 0 {
        None
    } else if defs[0].names.contains(name) {
        Some(defs[0])
    } else {
        find_named(defs.drop_first(), name)
    }
}

/// The first definition, in registration order, marked as primary.
pub open spec fn find_primary<C, K>(defs: Seq<ComponentDefinitionView<C, K>>) -> Option<ComponentDefinitionView<C, K>>
    decreases defs.len(),
{
    if defs.len() == 0 {
        None
    } else if defs[0].is_primary {
        Some(defs[0])
    } else {
        find_primary(defs.drop_first())
    }
}

proof fn lemma_find_primary_first<C, K>(defs: Seq<ComponentDefinitionView<C, K>>, i: int)
    requires
        0 <= i < defs.len(),
        defs[i].is_primary,
        forall|j: int| 0 <= j < i ==> !(#[trigger] defs[j]).is_primary,
    ensures
        find_primary(defs) == Some(defs[i]),
    decreases i,
{
    if i > 0 {
        lemma_find_primary_first(defs.drop_first(), i - 1);
    }
}

proof fn lemma_find_primary_none<C, K>(defs: Seq<ComponentDefinitionView<C, K>>)
    requires
        forall|j: int| 0 <= j < defs.len() ==> !(#[trigger] defs[j]).is_primary,
    ensures
        find_primary(defs) is None,
    decreases defs.len(),
{
    if defs.len() > 0 {
        lemma_find_primary_none(defs.drop_first());
    }
}

proof fn lemma_find_named_first<C, K>(defs: Seq<ComponentDefinitionView<C, K>>, name: Seq<char>, i: int)
    requires
        0 <= i < defs.len(),
        defs[i].names.contains(name),
        forall|j: int| 0 <= j < i ==> !(#[trigger] defs[j]).names.contains(name),
    ensures
        find_named(defs, name) == Some(defs[i]),
    decreases i,
{
    if i > 0 {
        lemma_find_named_first(defs.drop_first(), name, i - 1);
    }
}

proof fn lemma_find_named_none<C, K>(defs: Seq<ComponentDefinitionView<C, K>>, name: Seq<char>)
    requires
        forall|j: int| 0 <= j < defs.len() ==> !(#[trigger] defs[j]).names.contains(name),
    ensures
        find_named(defs, name) is None,
    decreases defs.len(),
{
    if defs.len() > 0 {
        lemma_find_named_none(defs.drop_first(), name);
    }
}

/// The primary definition of a type: its only definition when it has exactly one; otherwise
/// the first definition, in registration order, that is marked primary, and none when no
/// definition is marked primary.
pub proof fn lemma_primary_is_first_marked<C, K>(defs: Seq<ComponentDefinitionView<C, K>>, i: int)
    ensures
        defs.len() == 1 ==> primary_of(defs) == Some(defs[0]),
        defs.len() != 1 && 0 <= i < defs.len() && defs[i].is_primary
            && (forall|j: int| 0 <= j < i ==> !(#[trigger] defs[j]).is_primary) ==> primary_of(defs) == Some(defs[i]),
        defs.len() != 1 && (forall|j: int| 0 <= j < defs.len() ==> !(#[trigger] defs[j]).is_primary) ==> primary_of(defs) is None,
{
    if defs.len() != 1 && 0 <= i < defs.len() && defs[i].is_primary
        && (forall|j: int| 0 <= j < i ==> !(#[trigger] defs[j]).is_primary) {
        lemma_find_primary_first(defs, i);
    }
    if defs.len() != 1 && (forall|j: int| 0 <= j < defs.len() ==> !(#[trigger] defs[j]).is_primary) {
        lemma_find_primary_none(defs);
    }
}

/// The definition of a type found under a name: the first definition, in registration order,
/// that carries the name, and none when no definition carries it.
pub proof fn lemma_named_is_first_carrier<C, K>(defs: Seq<ComponentDefinitionView<C, K>>, name: Seq<char>, i: int)
    ensures
        0 <= i < defs.len() && defs[i].names.contains(name)
            && (forall|j: int| 0 <= j < i ==> !(#[trigger] defs[j]).names.contains(name)) ==> find_named(defs, name) == Some(defs[i]),
        (forall|j: int| 0 <= j < defs.len() ==> !(#[trigger] defs[j]).names.contains(name)) ==> find_named(defs, name) is None,
{
    if 0 <= i < defs.len() && defs[i].names.contains(name)
        && (forall|j: int| 0 <= j < i ==> !(#[trigger] defs[j]).names.contains(name)) {
        lemma_find_named_first(defs, name, i);
    }
    if forall|j: int| 0 <= j < defs.len() ==> !(#[trigger] defs[j]).names.contains(name) {
        lemma_find_named_none(defs, name);
    }
}

/// The primary definition among the definitions of one type: the only one, if there is exactly
/// one, else the first one marked as primary.
pub open spec fn primary_of<C, K>(defs: Seq<ComponentDefinitionView<C, K>>) -> Option<ComponentDefinitionView<C, K>> {
    if defs.len() == 1 {
        Some(defs[0])
    } else {
        find_primary(defs)
    }
}

/// The first name of a list which is already in a registered name set.
pub open spec fn first_registered_name(names: Seq<Seq<char>>, registered: Set<Seq<char>>) -> Option<Seq<char>>
    decreases names.len(),
{
    if names.len() == 0 {
        None
    } else if registered.contains(names[0]) {
        Some(names[0])
    } else {
        first_registered_name(names.drop_first(), registered)
    }
}

/// All names carried by a sequence of definitions.
pub open spec fn names_of_entries<C, K>(entries: Seq<ComponentDefinitionView<C, K>>) -> Set<Seq<char>> {
    Set::new(|n: Seq<char>| exists|i: int| 0 <= i < entries.len() && #[trigger] entries[i].names.contains(n))
}

/// Abstract value of a [NamedComponentDefinitionMap]: definitions per type key, and each
/// registered component name together with the type key it is registered under.
pub struct RegistryView<C, K> {
    pub definitions: Map<u64, Seq<ComponentDefinitionView<C, K>>>,
    pub owned: Set<(Seq<char>, u64)>,
}

/// The registered component names.
pub open spec fn registered_names<C, K>(v: RegistryView<C, K>) -> Set<Seq<char>> {
    Set::new(|n: Seq<char>| exists|k: u64| #[trigger] v.owned.contains((n, k)))
}

/// The names registered under each type key are exactly the names its definitions carry.
pub open spec fn names_consistent<C, K>(v: RegistryView<C, K>) -> bool {
    forall|n: Seq<char>, k: u64| #[trigger] v.owned.contains((n, k)) <==> names_of_entries(definitions_of(v, k)).contains(n)
}

/// Definitions of a type key, empty if none were registered.
pub open spec fn definitions_of<C, K>(v: RegistryView<C, K>, type_id: u64) -> Seq<ComponentDefinitionView<C, K>> {
    if v.definitions.contains_key(type_id) {
        v.definitions[type_id]
    } else {
        Seq::empty()
    }
}

/// Whether a type key has at least one definition.
pub open spec fn type_registered<C, K>(v: RegistryView<C, K>, type_id: u64) -> bool {
    definitions_of(v, type_id).len() > 0
}

/// The definition created when registering a component.
pub open spec fn new_definition<C, K>(target: u64, target_name: Seq<char>, metadata: ComponentMetadata<C, K>) -> ComponentDefinitionView<C, K> {
    ComponentDefinitionView {
        names: string_views(metadata.names@),
        is_primary: false,
        scope: metadata.scope@,
        resolved_type_id: target,
        resolved_type_name: target_name,
        constructor: metadata.constructor,
        cast: metadata.cast,
    }
}

/// The error, if any, with which registering a component is refused.
pub open spec fn component_registration_error<C, K>(
    v: RegistryView<C, K>,
    target: u64,
    target_name: Seq<char>,
    metadata: ComponentMetadata<C, K>,
    allow_definition_overriding: bool,
) -> Option<RegistryErrorView> {
    if allow_definition_overriding {
        None
    } else if first_registered_name(string_views(metadata.names@), registered_names(v)) is Some {
        Some(RegistryErrorView::DuplicateComponentName(
            first_registered_name(string_views(metadata.names@), registered_names(v)).unwrap(),
        ))
    } else if type_registered(v, target) {
        Some(RegistryErrorView::DuplicateComponentType(target_name))
    } else {
        None
    }
}

/// The registry after registering a component: the type holds exactly the new definition, and
/// the names registered under the type are exactly the new definition's names.
pub open spec fn with_component<C, K>(
    v: RegistryView<C, K>,
    target: u64,
    target_name: Seq<char>,
    metadata: ComponentMetadata<C, K>,
) -> RegistryView<C, K> {
    RegistryView {
        definitions: v.definitions.insert(target, seq![new_definition(target, target_name, metadata)]),
        owned: Set::new(
            |p: (Seq<char>, u64)|
                (v.owned.contains(p) && p.1 != target) || (p.1 == target && string_views(metadata.names@).contains(p.0)),
        ),
    }
}

/// A target definition as seen through an alias.
pub open spec fn aliased<C, K>(d: ComponentDefinitionView<C, K>, metadata: ComponentAliasMetadata<K>) -> ComponentDefinitionView<C, K> {
    ComponentDefinitionView {
        is_primary: metadata.is_primary,
        cast: metadata.cast,
        scope: match metadata.scope {
            Some(s) => s@,
            None => d.scope,
        },
        ..d
    }
}

/// Whether any definition in a sequence is marked as primary.
pub open spec fn has_primary<C, K>(defs: Seq<ComponentDefinitionView<C, K>>) -> bool {
    exists|i: int| 0 <= i < defs.len() && #[trigger] defs[i].is_primary
}

/// The error, if any, with which registering an alias is refused.
pub open spec fn alias_registration_error<C, K>(
    v: RegistryView<C, K>,
    alias_type: u64,
    target_type: u64,
    alias_name: Seq<char>,
    target_name: Seq<char>,
    metadata: ComponentAliasMetadata<K>,
) -> Option<RegistryErrorView> {
    if !type_registered(v, target_type) {
        Some(RegistryErrorView::MissingBaseComponent { alias_type: alias_name, target_type: target_name })
    } else if metadata.is_primary && definitions_of(v, target_type).len() > 1 {
        Some(RegistryErrorView::DuplicatePrimaryComponent { alias_type: alias_name, target_type: target_name })
    } else if metadata.is_primary && has_primary(definitions_of(v, alias_type)) {
        Some(RegistryErrorView::DuplicatePrimaryComponent { alias_type: alias_name, target_type: target_name })
    } else {
        None
    }
}

/// The registry after registering an alias: the alias type gains the target's definitions, as
/// seen through the alias, after its own.
pub open spec fn with_alias<C, K>(
    v: RegistryView<C, K>,
    alias_type: u64,
    target_type: u64,
    metadata: ComponentAliasMetadata<K>,
) -> RegistryView<C, K> {
    RegistryView {
        definitions: v.definitions.insert(
            alias_type,
            definitions_of(v, alias_type) + definitions_of(v, target_type).map_values(
                |d: ComponentDefinitionView<C, K>| aliased(d, metadata),
            ),
        ),
        owned: Set::new(
            |p: (Seq<char>, u64)|
                v.owned.contains(p) || (p.1 == alias_type && names_of_entries(definitions_of(v, target_type)).contains(p.0)),
        ),
    }
}


/// The name and type key pairs held by a list.
pub open spec fn owned_of(entries: Seq<(String, u64)>) -> Set<(Seq<char>, u64)> {
    Set::new(|p: (Seq<char>, u64)| exists|j: int| 0 <= j < entries.len() && (#[trigger] entries[j]).0@ == p.0 && entries[j].1 == p.1)
}

/// Checks whether a list of name and type key pairs holds a name, under any type key.
fn holds_name(entries: &Vec<(String, u64)>, n: &String) -> (r: bool)
    ensures
        r == exists|k: u64| #[trigger] owned_of(entries@).contains((n@, k)),
{
    let mut i: usize = 0;
    while i < entries.len()
        invariant
            i <= entries.len(),
            forall|j: int| 0 <= j < i ==> (#[trigger] entries@[j]).0@ != n@,
        decreases entries.len() - i,
    {
        if entries[i].0 == *n {
            assert(owned_of(entries@).contains((n@, entries@[i as int].1)));
            return true;
        }
        i += 1;
    }
    proof {
        if exists|k: u64| #[trigger] owned_of(entries@).contains((n@, k)) {
            let k = choose|k: u64| #[trigger] owned_of(entries@).contains((n@, k));
            let j = choose|j: int| 0 <= j < entries@.len() && (#[trigger] entries@[j]).0@ == n@ && entries@[j].1 == k;
            assert(entries@[j].0@ != n@);
        }
    }
    false
}

/// The pairs of a list, except those of a given type key.
fn entries_without(entries: &Vec<(String, u64)>, target: u64) -> (r: Vec<(String, u64)>)
    ensures
        owned_of(r@) == Set::new(|p: (Seq<char>, u64)| owned_of(entries@).contains(p) && p.1 != target),
{
    let mut r: Vec<(String, u64)> = Vec::new();
    let mut i: usize = 0;
    while i < entries.len()
        invariant
            i <= entries.len(),
            forall|p: (Seq<char>, u64)| #[trigger] owned_of(r@).contains(p) <==> (owned_of(entries@.take(i as int)).contains(p) && p.1 != target),
        decreases entries.len() - i,
    {
        let ghost before = r@;
        assert(entries@.take(i + 1) =~= entries@.take(i as int).push(entries@[i as int]));
        let e = &entries[i];
        if e.1 != target {
            r.push((e.0.clone(), e.1));
            assert forall|p: (Seq<char>, u64)| #[trigger] owned_of(r@).contains(p) <==> (owned_of(entries@.take(i + 1)).contains(p) && p.1 != target) by {
                if owned_of(r@).contains(p) {
                    let j = choose|j: int| 0 <= j < r@.len() && (#[trigger] r@[j]).0@ == p.0 && r@[j].1 == p.1;
                    if j < before.len() {
                        assert(owned_of(before).contains(p));
                        let m = choose|m: int| 0 <= m < i && (#[trigger] entries@.take(i as int)[m]).0@ == p.0 && entries@.take(i as int)[m].1 == p.1;
                        assert(entries@.take(i + 1)[m] == entries@.take(i as int)[m]);
                    } else {
                        assert(entries@.take(i + 1)[i as int] == entries@[i as int]);
                    }
                }
                if owned_of(entries@.take(i + 1)).contains(p) && p.1 != target {
                    let m = choose|m: int| 0 <= m < i + 1 && (#[trigger] entries@.take(i + 1)[m]).0@ == p.0 && entries@.take(i + 1)[m].1 == p.1;
                    if m < i {
                        assert(entries@.take(i as int)[m] == entries@.take(i + 1)[m]);
                        assert(owned_of(before).contains(p));
                        let j = choose|j: int| 0 <= j < before.len() && (#[trigger] before[j]).0@ == p.0 && before[j].1 == p.1;
                        assert(r@[j] == before[j]);
                    } else {
                        assert(r@[before.len() as int].0@ == p.0);
                    }
                }
            }
        } else {
            assert forall|p: (Seq<char>, u64)| #[trigger] owned_of(r@).contains(p) <==> (owned_of(entries@.take(i + 1)).contains(p) && p.1 != target) by {
                if owned_of(entries@.take(i + 1)).contains(p) && p.1 != target {
                    let m = choose|m: int| 0 <= m < i + 1 && (#[trigger] entries@.take(i + 1)[m]).0@ == p.0 && entries@.take(i + 1)[m].1 == p.1;
                    assert(entries@.take(i as int)[m] == entries@.take(i + 1)[m]);
                }
                if owned_of(entries@.take(i as int)).contains(p) {
                    let m = choose|m: int| 0 <= m < i && (#[trigger] entries@.take(i as int)[m]).0@ == p.0 && entries@.take(i as int)[m].1 == p.1;
                    assert(entries@.take(i + 1)[m] == entries@.take(i as int)[m]);
                }
            }
        }
        i += 1;
    }
    assert(entries@.take(entries@.len() as int) =~= entries@);
    assert(owned_of(r@) =~= Set::new(|p: (Seq<char>, u64)| owned_of(entries@).contains(p) && p.1 != target));
    r
}

/// A list of pairs extended by each of the given names paired with a type key.
fn entries_with(base: Vec<(String, u64)>, names: &Vec<String>, owner: u64) -> (r: Vec<(String, u64)>)
    ensures
        owned_of(r@) == Set::new(
            |p: (Seq<char>, u64)| owned_of(base@).contains(p) || (p.1 == owner && string_views(names@).contains(p.0)),
        ),
{
    let ghost start = base@;
    let mut r = base;
    let mut i: usize = 0;
    while i < names.len()
        invariant
            i <= names.len(),
            r@.len() == start.len() + i,
            forall|j: int| 0 <= j < start.len() ==> r@[j] == start[j],
            forall|j: int| 0 <= j < i ==> (#[trigger] r@[start.len() + j]).0@ == names@[j]@ && r@[start.len() + j].1 == owner,
        decreases names.len() - i,
    {
        r.push((names[i].clone(), owner));
        i += 1;
    }
    assert forall|p: (Seq<char>, u64)| #[trigger] owned_of(r@).contains(p) <==> (owned_of(start).contains(p) || (p.1 == owner && string_views(names@).contains(p.0))) by {
        if owned_of(r@).contains(p) {
            let j = choose|j: int| 0 <= j < r@.len() && (#[trigger] r@[j]).0@ == p.0 && r@[j].1 == p.1;
            if j < start.len() {
                assert(start[j] == r@[j]);
            } else {
                assert(r@[start.len() + (j - start.len())] == r@[j]);
                assert(string_views(names@)[j - start.len()] == p.0);
            }
        }
        if owned_of(start).contains(p) {
            let j = choose|j: int| 0 <= j < start.len() && (#[trigger] start[j]).0@ == p.0 && start[j].1 == p.1;
            assert(r@[j] == start[j]);
        }
        if p.1 == owner && string_views(names@).contains(p.0) {
            let j = choose|j: int| 0 <= j < string_views(names@).len() && string_views(names@)[j] == p.0;
            assert(r@[start.len() + j].0@ == names@[j]@);
        }
    }
    assert(owned_of(r@) =~= Set::new(
        |p: (Seq<char>, u64)| owned_of(start).contains(p) || (p.1 == owner && string_views(names@).contains(p.0)),
    ));
    r
}

/// Every type holds at most one definition marked as primary.
pub open spec fn at_most_one_primary<C, K>(v: RegistryView<C, K>) -> bool {
    forall|t: u64, i: int, j: int|
        v.definitions.contains_key(t) && 0 <= i < v.definitions[t].len() && 0 <= j < v.definitions[t].len()
            && (#[trigger] v.definitions[t][i]).is_primary && (#[trigger] v.definitions[t][j]).is_primary ==> i == j
}

/// After a component is registered, its type holds exactly the new definition: it is the
/// primary definition of the type, it is found under each of its names, and each name is
/// registered.
pub proof fn lemma_registered_component_is_found<C, K>(
    v: RegistryView<C, K>,
    target: u64,
    target_name: Seq<char>,
    metadata: ComponentMetadata<C, K>,
    name: Seq<char>,
)
    ensures
        ({
            let w = with_component(v, target, target_name, metadata);
            let d = new_definition(target, target_name, metadata);
            &&& definitions_of(w, target) == seq![d]
            &&& type_registered(w, target)
            &&& primary_of(definitions_of(w, target)) == Some(d)
            &&& string_views(metadata.names@).contains(name) ==> {
                &&& find_named(definitions_of(w, target), name) == Some(d)
                &&& registered_names(w).contains(name)
            }
        }),
{
    let w = with_component(v, target, target_name, metadata);
    let d = new_definition(target, target_name, metadata);
    assert(definitions_of(w, target) == seq![d]);
    if string_views(metadata.names@).contains(name) {
        assert(d.names.contains(name));
        assert(w.owned.contains((name, target)));
    }
}

/// Registering a component or an alias leaves the definitions of every other type unchanged.
pub proof fn lemma_registration_preserves_other_types<C, K>(
    v: RegistryView<C, K>,
    target: u64,
    target_name: Seq<char>,
    metadata: ComponentMetadata<C, K>,
    alias_type: u64,
    target_type: u64,
    alias_metadata: ComponentAliasMetadata<K>,
    other: u64,
)
    ensures
        other != target ==> definitions_of(with_component(v, target, target_name, metadata), other) == definitions_of(v, other),
        other != alias_type ==> definitions_of(with_alias(v, alias_type, target_type, alias_metadata), other) == definitions_of(v, other),
        names_consistent(v) ==> registered_names(with_alias(v, alias_type, target_type, alias_metadata)) == registered_names(v),
{
    if names_consistent(v) {
        let w = with_alias(v, alias_type, target_type, alias_metadata);
        assert forall|n: Seq<char>| registered_names(w).contains(n) implies registered_names(v).contains(n) by {
            let k = choose|k: u64| w.owned.contains((n, k));
            if !v.owned.contains((n, k)) {
                assert(v.owned.contains((n, target_type)));
            }
        }
        assert forall|n: Seq<char>| registered_names(v).contains(n) implies registered_names(w).contains(n) by {
            let k = choose|k: u64| v.owned.contains((n, k));
            assert(w.owned.contains((n, k)));
        }
        assert(registered_names(w) =~= registered_names(v));
    }
}

/// No registration ever makes a registered type unregistered.
pub proof fn lemma_registered_types_persist<C, K>(
    v: RegistryView<C, K>,
    target: u64,
    target_name: Seq<char>,
    metadata: ComponentMetadata<C, K>,
    alias_type: u64,
    target_type: u64,
    alias_metadata: ComponentAliasMetadata<K>,
    t: u64,
)
    requires
        type_registered(v, t),
    ensures
        type_registered(with_component(v, target, target_name, metadata), t),
        alias_registration_error(v, alias_type, target_type, Seq::empty(), Seq::empty(), alias_metadata) is None
            ==> type_registered(with_alias(v, alias_type, target_type, alias_metadata), t),
{
    let w = with_alias(v, alias_type, target_type, alias_metadata);
    if t == alias_type {
        assert(definitions_of(w, t).len() >= definitions_of(v, t).len());
    }
}

/// A registered alias resolves to its target: the alias type's definitions are its previous
/// ones followed by the target's, each keeping the target's names, constructor and concrete
/// type, with the alias's primary marker and cast function. A sole non-primary-clashing alias
/// of a single-definition target makes that definition the alias's primary one.
pub proof fn lemma_alias_resolves_to_target<C, K>(
    v: RegistryView<C, K>,
    alias_type: u64,
    target_type: u64,
    alias_name: Seq<char>,
    target_name: Seq<char>,
    metadata: ComponentAliasMetadata<K>,
)
    requires
        alias_registration_error(v, alias_type, target_type, alias_name, target_name, metadata) is None,
    ensures
        ({
            let w = with_alias(v, alias_type, target_type, metadata);
            let before = definitions_of(v, alias_type);
            let target = definitions_of(v, target_type);
            &&& definitions_of(w, alias_type).len() == before.len() + target.len()
            &&& forall|i: int| 0 <= i < before.len() ==> definitions_of(w, alias_type)[i] == before[i]
            &&& forall|i: int| 0 <= i < target.len() ==> {
                let d = #[trigger] definitions_of(w, alias_type)[before.len() + i];
                &&& d.names == target[i].names
                &&& d.constructor == target[i].constructor
                &&& d.resolved_type_id == target[i].resolved_type_id
                &&& d.is_primary == metadata.is_primary
                &&& d.cast == metadata.cast
            }
            &&& (before.len() == 0 && target.len() == 1) ==> primary_of(definitions_of(w, alias_type)) == Some(aliased(target[0], metadata))
        }),
{
    let w = with_alias(v, alias_type, target_type, metadata);
    let before = definitions_of(v, alias_type);
    let target = definitions_of(v, target_type);
    assert(definitions_of(w, alias_type) == before + target.map_values(|d: ComponentDefinitionView<C, K>| aliased(d, metadata)));
}

/// Registration keeps at most one primary definition per type.
pub proof fn lemma_at_most_one_primary_preserved<C, K>(
    v: RegistryView<C, K>,
    target: u64,
    target_name: Seq<char>,
    metadata: ComponentMetadata<C, K>,
    alias_type: u64,
    target_type: u64,
    alias_name: Seq<char>,
    alias_target_name: Seq<char>,
    alias_metadata: ComponentAliasMetadata<K>,
)
    requires
        at_most_one_primary(v),
    ensures
        at_most_one_primary(with_component(v, target, target_name, metadata)),
        alias_registration_error(v, alias_type, target_type, alias_name, alias_target_name, alias_metadata) is None
            ==> at_most_one_primary(with_alias(v, alias_type, target_type, alias_metadata)),
{
    let w = with_component(v, target, target_name, metadata);
    assert forall|t: u64, i: int, j: int|
        w.definitions.contains_key(t) && 0 <= i < w.definitions[t].len() && 0 <= j < w.definitions[t].len()
            && (#[trigger] w.definitions[t][i]).is_primary && (#[trigger] w.definitions[t][j]).is_primary implies i == j by {
        if t != target {
            assert(w.definitions[t] == v.definitions[t]);
        }
    }
    if alias_registration_error(v, alias_type, target_type, alias_name, alias_target_name, alias_metadata) is None {
        let a = with_alias(v, alias_type, target_type, alias_metadata);
        let before = definitions_of(v, alias_type);
        let tdefs = definitions_of(v, target_type);
        let moved = tdefs.map_values(|d: ComponentDefinitionView<C, K>| aliased(d, alias_metadata));
        assert forall|t: u64, i: int, j: int|
            a.definitions.contains_key(t) && 0 <= i < a.definitions[t].len() && 0 <= j < a.definitions[t].len()
                && (#[trigger] a.definitions[t][i]).is_primary && (#[trigger] a.definitions[t][j]).is_primary implies i == j by {
            if t != alias_type {
                assert(a.definitions[t] == v.definitions[t]);
            } else {
                assert(a.definitions[t] == before + moved);
                if alias_metadata.is_primary {
                    assert(tdefs.len() == 1);
                    assert(!has_primary(before));
                    if i < before.len() {
                        assert(before[i].is_primary);
                    }
                    if j < before.len() {
                        assert(before[j].is_primary);
                    }
                } else {
                    if i >= before.len() {
                        assert(moved[i - before.len()].is_primary == false);
                    }
                    if j >= before.len() {
                        assert(moved[j - before.len()].is_primary == false);
                    }
                    if v.definitions.contains_key(alias_type) {
                        assert(before == v.definitions[alias_type]);
                        assert(v.definitions[alias_type][i].is_primary);
                    }
                }
            }
        }
    }
}

/// Without overriding, a registration succeeds only when none of the component's names is
/// registered and its type has no definition yet.
pub proof fn lemma_no_overriding_refuses_duplicates<C, K>(
    v: RegistryView<C, K>,
    target: u64,
    target_name: Seq<char>,
    metadata: ComponentMetadata<C, K>,
    name: Seq<char>,
)
    requires
        component_registration_error(v, target, target_name, metadata, false) is None,
    ensures
        !type_registered(v, target),
        string_views(metadata.names@).contains(name) ==> !registered_names(v).contains(name),
{
    if string_views(metadata.names@).contains(name) {
        lemma_first_registered_name_none(string_views(metadata.names@), registered_names(v), name);
    }
}

/// Registering a component keeps the registered names exactly the names that the definitions
/// carry, under the type keys that hold them; in particular, replacing a type's definitions
/// keeps every name that definitions of other types still carry.
pub proof fn lemma_component_keeps_names_consistent<C, K>(
    v: RegistryView<C, K>,
    target: u64,
    target_name: Seq<char>,
    metadata: ComponentMetadata<C, K>,
)
    requires
        names_consistent(v),
    ensures
        names_consistent(with_component(v, target, target_name, metadata)),
{
    let w = with_component(v, target, target_name, metadata);
    let d = new_definition(target, target_name, metadata);
    assert forall|n: Seq<char>, k: u64| #[trigger] w.owned.contains((n, k)) <==> names_of_entries(definitions_of(w, k)).contains(n) by {
        if k == target {
            assert(definitions_of(w, k) == seq![d]);
            if names_of_entries(definitions_of(w, k)).contains(n) {
                let i = choose|i: int| 0 <= i < definitions_of(w, k).len() && #[trigger] definitions_of(w, k)[i].names.contains(n);
                assert(i == 0);
            }
            if string_views(metadata.names@).contains(n) {
                assert(definitions_of(w, k)[0].names.contains(n));
            }
        } else {
            assert(definitions_of(w, k) == definitions_of(v, k));
        }
    }
}

/// Registering an alias keeps the registered names exactly the names that the definitions
/// carry, under the type keys that hold them: the target's names become registered under the
/// alias type too.
pub proof fn lemma_alias_keeps_names_consistent<C, K>(
    v: RegistryView<C, K>,
    alias_type: u64,
    target_type: u64,
    alias_metadata: ComponentAliasMetadata<K>,
)
    requires
        names_consistent(v),
    ensures
        names_consistent(with_alias(v, alias_type, target_type, alias_metadata)),
{
    let a = with_alias(v, alias_type, target_type, alias_metadata);
    let before = definitions_of(v, alias_type);
    let tdefs = definitions_of(v, target_type);
    let moved = tdefs.map_values(|x: ComponentDefinitionView<C, K>| aliased(x, alias_metadata));
    assert forall|n: Seq<char>, k: u64| #[trigger] a.owned.contains((n, k)) <==> names_of_entries(definitions_of(a, k)).contains(n) by {
        if k == alias_type {
            let all = definitions_of(a, k);
            assert(all == before + moved);
            if names_of_entries(all).contains(n) {
                let i = choose|i: int| 0 <= i < all.len() && #[trigger] all[i].names.contains(n);
                if i < before.len() {
                    assert(before[i].names.contains(n));
                    assert(names_of_entries(before).contains(n));
                } else {
                    assert(tdefs[i - before.len()].names.contains(n));
                    assert(names_of_entries(tdefs).contains(n));
                }
            }
            if names_of_entries(before).contains(n) {
                let i = choose|i: int| 0 <= i < before.len() && #[trigger] before[i].names.contains(n);
                assert(all[i].names.contains(n));
            }
            if names_of_entries(tdefs).contains(n) {
                let i = choose|i: int| 0 <= i < tdefs.len() && #[trigger] tdefs[i].names.contains(n);
                assert(all[before.len() + i].names.contains(n));
            }
        } else {
            assert(definitions_of(a, k) == definitions_of(v, k));
        }
    }
}

/// In a registry whose names are consistent, a name is registered exactly when some definition
/// carries it.
pub proof fn lemma_registered_names_are_carried<C, K>(v: RegistryView<C, K>, n: Seq<char>)
    requires
        names_consistent(v),
    ensures
        registered_names(v).contains(n) <==> exists|k: u64| names_of_entries(#[trigger] definitions_of(v, k)).contains(n),
{
    if registered_names(v).contains(n) {
        let k = choose|k: u64| v.owned.contains((n, k));
        assert(names_of_entries(definitions_of(v, k)).contains(n));
    }
    if exists|k: u64| names_of_entries(#[trigger] definitions_of(v, k)).contains(n) {
        let k = choose|k: u64| names_of_entries(#[trigger] definitions_of(v, k)).contains(n);
        assert(v.owned.contains((n, k)));
    }
}

proof fn lemma_first_registered_name_none(names: Seq<Seq<char>>, registered: Set<Seq<char>>, name: Seq<char>)
    requires
        first_registered_name(names, registered) is None,
        names.contains(name),
    ensures
        !registered.contains(name),
    decreases names.len(),
{
    if names[0] != name {
        assert(names.drop_first().contains(name)) by {
            let i = choose|i: int| 0 <= i < names.len() && names[i] == name;
            assert(names.drop_first()[i - 1] == name);
        }
        lemma_first_registered_name_none(names.drop_first(), registered, name);
    }
}

/// Definitions stored per type key, together with each registered name and the type key it is
/// registered under.
#[derive(Debug)]
pub struct NamedComponentDefinitionMap<C, K> {
    definitions: HashMap<u64, Vec<ComponentDefinition<C, K>>>,
    names: Vec<(String, u64)>,
}

impl<C, K> NamedComponentDefinitionMap<C, K> {
    /// The names registered under each type key are exactly the names its definitions carry.
    #[verifier::type_invariant]
    closed spec fn names_match_definitions(self) -> bool {
        names_consistent(self@)
    }
}

impl<C, K> View for NamedComponentDefinitionMap<C, K> {
    type V = RegistryView<C, K>;

    closed spec fn view(&self) -> RegistryView<C, K> {
        RegistryView {
            definitions: self.definitions@.map_values(
                |v: Vec<ComponentDefinition<C, K>>| definition_views(v@),
            ),
            owned: owned_of(self.names@),
        }
    }
}

impl<C: Copy, K: Copy> NamedComponentDefinitionMap<C, K> {
    /// Creates an empty map.
    pub fn new() -> (r: Self)
        ensures
            r@.definitions == Map::<u64, Seq<ComponentDefinitionView<C, K>>>::empty(),
            r@.owned == Set::<(Seq<char>, u64)>::empty(),
            names_consistent(r@),
    {
        let r = NamedComponentDefinitionMap { definitions: HashMap::new(), names: Vec::new() };
        assert(r@.definitions =~= Map::<u64, Seq<ComponentDefinitionView<C, K>>>::empty());
        assert(r@.owned =~= Set::<(Seq<char>, u64)>::empty());
        r
    }

    /// Adds a new definition for a given type. Unless overriding is allowed, a name already
    /// registered or a type which already has a definition is refused; otherwise the type's
    /// definitions are replaced by the new one. The names registered under the type become the
    /// new definition's names; names that definitions of other types carry stay registered.
    pub fn try_register_component(
        &mut self,
        target: u64,
        target_name: &str,
        metadata: &ComponentMetadata<C, K>,
        allow_definition_overriding: bool,
    ) -> (r: Result<(), ComponentDefinitionRegistryError>)
        ensures
            match component_registration_error(old(self)@, target, target_name@, *metadata, allow_definition_overriding) {
                Some(e) => r matches Err(err) && err@ == e && final(self)@ == old(self)@,
                None => r is Ok && final(self)@ == with_component(old(self)@, target, target_name@, *metadata),
            },
            names_consistent(old(self)@) ==> names_consistent(final(self)@),
    {
        let ghost nv = string_views(metadata.names@);
        if !allow_definition_overriding {
            assert(nv.skip(0) =~= nv);
            let mut i: usize = 0;
            while i < metadata.names.len()
                invariant
                    i <= metadata.names.len(),
                    nv == string_views(metadata.names@),
                    self@ == old(self)@,
                    !allow_definition_overriding,
                    first_registered_name(nv, registered_names(self@)) == first_registered_name(nv.skip(i as int), registered_names(self@)),
                decreases metadata.names.len() - i,
            {
                assert(nv.skip(i as int).drop_first() =~= nv.skip(i + 1));
                let held = holds_name(&self.names, &metadata.names[i]);
                assert(held == registered_names(self@).contains(nv[i as int]));
                if held {
                    assert(nv.skip(i as int)[0] == nv[i as int]);
                    return Err(ComponentDefinitionRegistryError::DuplicateComponentName(metadata.names[i].clone()));
                }
                i += 1;
            }
            assert(nv.skip(metadata.names.len() as int) =~= Seq::<Seq<char>>::empty());
        }
        proof {
            use_type_invariant(&*self);
        }
        let ghost v0 = self@;
        match self.definitions.get(&target) {
            Some(entries) => {
                assert(definitions_of(v0, target) == definition_views(entries@));
                if !allow_definition_overriding && entries.len() > 0 {
                    return Err(ComponentDefinitionRegistryError::DuplicateComponentType(target_name.to_string()));
                }
            },
            None => {},
        }
        let kept = entries_without(&self.names, target);
        let names = entries_with(kept, &metadata.names, target);
        let definition = ComponentDefinition {
            names: copy_strings(&metadata.names),
            is_primary: false,
            scope: metadata.scope.clone(),
            resolved_type_id: target,
            resolved_type_name: target_name.to_string(),
            constructor: metadata.constructor,
            cast: metadata.cast,
        };
        let mut entries: Vec<ComponentDefinition<C, K>> = Vec::new();
        entries.push(definition);
        let mut taken = NamedComponentDefinitionMap::new();
        std::mem::swap(self, &mut taken);
        let NamedComponentDefinitionMap { definitions: mut defs, names: _ } = taken;
        let ghost old_defs = defs@;
        defs.insert(target, entries);
        proof {
            let expected = with_component(v0, target, target_name@, *metadata);
            assert(definition_views(entries@) =~= seq![new_definition(target, target_name@, *metadata)]);
            let w = RegistryView {
                definitions: defs@.map_values(|v: Vec<ComponentDefinition<C, K>>| definition_views(v@)),
                owned: owned_of(names@),
            };
            assert(w.definitions =~= expected.definitions);
            assert(w.owned =~= expected.owned);
            assert(w == expected);
            lemma_component_keeps_names_consistent(v0, target, target_name@, *metadata);
        }
        *self = NamedComponentDefinitionMap { definitions: defs, names };
        Ok(())
    }

    /// Adds an alias for a component of target type: the alias type gains the target's
    /// definitions, marked primary or not, with the alias's cast function and, if given, scope.
    /// A missing target, or a primary alias with an ambiguous target or clashing with an
    /// existing primary definition of the alias type, is refused.
    pub fn try_register_alias(
        &mut self,
        alias_type: u64,
        target_type: u64,
        alias_name: &str,
        target_name: &str,
        metadata: &ComponentAliasMetadata<K>,
    ) -> (r: Result<(), ComponentDefinitionRegistryError>)
        ensures
            match alias_registration_error(old(self)@, alias_type, target_type, alias_name@, target_name@, *metadata) {
                Some(e) => r matches Err(err) && err@ == e && final(self)@ == old(self)@,
                None => r is Ok && final(self)@ == with_alias(old(self)@, alias_type, target_type, *metadata),
            },
            names_consistent(old(self)@) ==> names_consistent(final(self)@),
    {
        proof {
            use_type_invariant(&*self);
        }
        let ghost v0 = self@;
        let mut moved: Vec<ComponentDefinition<C, K>> = Vec::new();
        match self.definitions.get(&target_type) {
            Some(target_definitions) => {
                let ghost tv = definition_views(target_definitions@);
                assert(definitions_of(v0, target_type) == tv);
                if target_definitions.len() == 0 {
                    return Err(ComponentDefinitionRegistryError::MissingBaseComponent {
                        alias_type: alias_name.to_string(),
                        target_type: target_name.to_string(),
                    });
                }
                if metadata.is_primary && target_definitions.len() > 1 {
                    return Err(ComponentDefinitionRegistryError::DuplicatePrimaryComponent {
                        alias_type: alias_name.to_string(),
                        target_type: target_name.to_string(),
                    });
                }
                let mut i: usize = 0;
                while i < target_definitions.len()
                    invariant
                        i <= target_definitions.len(),
                        tv == definition_views(target_definitions@),
                        moved@.len() == i,
                        forall|j: int| 0 <= j < i ==> (#[trigger] moved@[j])@ == aliased(tv[j], *metadata),
                    decreases target_definitions.len() - i,
                {
                    let mut definition = target_definitions[i].duplicate();
                    definition.is_primary = metadata.is_primary;
                    definition.cast = metadata.cast;
                    match &metadata.scope {
                        Some(scope) => {
                            definition.scope = scope.clone();
                        },
                        None => {},
                    }
                    moved.push(definition);
                    i += 1;
                }
                assert(definition_views(moved@) =~= tv.map_values(
                    |d: ComponentDefinitionView<C, K>| aliased(d, *metadata),
                ));
                assert(definition_views(moved@) =~= definitions_of(v0, target_type).map_values(
                    |d: ComponentDefinitionView<C, K>| aliased(d, *metadata),
                ));
            },
            None => {
                return Err(ComponentDefinitionRegistryError::MissingBaseComponent {
                    alias_type: alias_name.to_string(),
                    target_type: target_name.to_string(),
                });
            },
        }
        let alias_has_primary = match self.definitions.get(&alias_type) {
            Some(alias_definitions) => {
                assert(definitions_of(v0, alias_type) == definition_views(alias_definitions@));
                let ghost av = definition_views(alias_definitions@);
                let mut found = false;
                let mut i: usize = 0;
                while i < alias_definitions.len()
                    invariant
                        i <= alias_definitions.len(),
                        av == definition_views(alias_definitions@),
                        found == exists|j: int| 0 <= j < i && #[trigger] av[j].is_primary,
                    decreases alias_definitions.len() - i,
                {
                    if alias_definitions[i].is_primary {
                        assert(av[i as int].is_primary);
                        found = true;
                    }
                    i += 1;
                }
                found
            },
            None => false,
        };
        if metadata.is_primary && alias_has_primary {
            return Err(ComponentDefinitionRegistryError::DuplicatePrimaryComponent {
                alias_type: alias_name.to_string(),
                target_type: target_name.to_string(),
            });
        }
        let ghost owned0 = v0.owned;
        let ghost mv = definition_views(moved@);
        let mut taken = NamedComponentDefinitionMap::new();
        std::mem::swap(self, &mut taken);
        let NamedComponentDefinitionMap { definitions: mut defs, names: mut cur } = taken;
        assert(owned_of(cur@) =~= Set::new(
            |p: (Seq<char>, u64)| owned0.contains(p) || (p.1 == alias_type && exists|j: int| 0 <= j < 0 && #[trigger] mv[j].names.contains(p.0)),
        ));
        let mut i: usize = 0;
        while i < moved.len()
            invariant
                i <= moved.len(),
                mv == definition_views(moved@),
                owned_of(cur@) == Set::new(
                    |p: (Seq<char>, u64)| owned0.contains(p) || (p.1 == alias_type && exists|j: int| 0 <= j < i && #[trigger] mv[j].names.contains(p.0)),
                ),
            decreases moved.len() - i,
        {
            let ghost prev = cur@;
            cur = entries_with(cur, &moved[i].names, alias_type);
            proof {
                assert(mv[i as int].names == string_views(moved@[i as int].names@));
                assert forall|p: (Seq<char>, u64)| #[trigger] owned_of(cur@).contains(p) <==> (owned0.contains(p) || (p.1 == alias_type && exists|j: int| 0 <= j < i + 1 && #[trigger] mv[j].names.contains(p.0))) by {
                    if p.1 == alias_type && exists|j: int| 0 <= j < i + 1 && #[trigger] mv[j].names.contains(p.0) {
                        let j = choose|j: int| 0 <= j < i + 1 && #[trigger] mv[j].names.contains(p.0);
                        if j < i {
                            assert(owned_of(prev).contains(p));
                        }
                    }
                    if owned_of(prev).contains(p) && !owned0.contains(p) {
                        let j = choose|j: int| 0 <= j < i && #[trigger] mv[j].names.contains(p.0);
                        assert(0 <= j < i + 1 && mv[j].names.contains(p.0));
                    }
                }
                assert(owned_of(cur@) =~= Set::new(
                    |p: (Seq<char>, u64)| owned0.contains(p) || (p.1 == alias_type && exists|j: int| 0 <= j < i + 1 && #[trigger] mv[j].names.contains(p.0)),
                ));
            }
            i += 1;
        }
        let mut combined = match defs.remove(&alias_type) {
            Some(existing) => existing,
            None => {
                let e: Vec<ComponentDefinition<C, K>> = Vec::new();
                assert(definition_views(e@) =~= definitions_of(v0, alias_type));
                e
            },
        };
        let ghost before_append = combined@;
        let ghost moved_before = moved@;
        combined.append(&mut moved);
        defs.insert(alias_type, combined);
        proof {
            let expected = with_alias(v0, alias_type, target_type, *metadata);
            assert(definition_views(combined@) =~= definition_views(before_append) + definition_views(moved_before));
            let w = RegistryView {
                definitions: defs@.map_values(|v: Vec<ComponentDefinition<C, K>>| definition_views(v@)),
                owned: owned_of(cur@),
            };
            assert(w.definitions =~= expected.definitions);
            let tdefs = definitions_of(v0, target_type);
            assert forall|p: (Seq<char>, u64)| #[trigger] w.owned.contains(p) <==> expected.owned.contains(p) by {
                if p.1 == alias_type && names_of_entries(tdefs).contains(p.0) {
                    let j = choose|j: int| 0 <= j < tdefs.len() && #[trigger] tdefs[j].names.contains(p.0);
                    assert(mv[j].names == tdefs[j].names);
                    assert(0 <= j < mv.len() && mv[j].names.contains(p.0));
                }
                if w.owned.contains(p) && !owned0.contains(p) {
                    let j = choose|j: int| 0 <= j < mv.len() && #[trigger] mv[j].names.contains(p.0);
                    assert(mv[j].names == tdefs[j].names);
                    assert(names_of_entries(tdefs).contains(p.0));
                }
            }
            assert(w.owned =~= expected.owned);
            assert(w == expected);
            lemma_alias_keeps_names_consistent(v0, alias_type, target_type, *metadata);
        }
        *self = NamedComponentDefinitionMap { definitions: defs, names: cur };
        Ok(())
    }

    /// Returns all definitions registered for a given type, in registration order.
    pub fn components_by_type(&self, type_id: u64) -> (r: Vec<ComponentDefinition<C, K>>)
        ensures
            definition_views(r@) == definitions_of(self@, type_id),
    {
        match self.definitions.get(&type_id) {
            Some(defs) => copy_definitions(defs),
            None => {
                let r: Vec<ComponentDefinition<C, K>> = Vec::new();
                assert(definition_views(r@) =~= Seq::<ComponentDefinitionView<C, K>>::empty());
                r
            },
        }
    }

    /// Returns the first definition of a given type which carries a given name.
    pub fn component_by_name(&self, name: &str, type_id: u64) -> (r: Option<ComponentDefinition<C, K>>)
        ensures
            match r {
                Some(d) => find_named(definitions_of(self@, type_id), name@) == Some(d@),
                None => find_named(definitions_of(self@, type_id), name@) is None,
            },
            forall|i: int|
                0 <= i < definitions_of(self@, type_id).len() && (#[trigger] definitions_of(self@, type_id)[i]).names.contains(name@)
                    && (forall|j: int| 0 <= j < i ==> !(#[trigger] definitions_of(self@, type_id)[j]).names.contains(name@))
                    ==> (r matches Some(d) && d@ == definitions_of(self@, type_id)[i]),
            (forall|j: int| 0 <= j < definitions_of(self@, type_id).len() ==> !(#[trigger] definitions_of(self@, type_id)[j]).names.contains(name@))
                ==> r is None,
    {
        proof {
            let defs = definitions_of(self@, type_id);
            assert forall|i: int|
                0 <= i < defs.len() && (#[trigger] defs[i]).names.contains(name@)
                    && (forall|j: int| 0 <= j < i ==> !(#[trigger] defs[j]).names.contains(name@))
                    implies find_named(defs, name@) == Some(defs[i]) by {
                lemma_named_is_first_carrier(defs, name@, i);
            }
            lemma_named_is_first_carrier(defs, name@, 0);
        }
        let wanted = name.to_string();
        assert(wanted@ == name@);
        match self.definitions.get(&type_id) {
            Some(defs) => {
                let ghost all = definition_views(defs@);
                assert(self.definitions@.contains_key(type_id) && self.definitions@[type_id] == *defs);
                assert(definitions_of(self@, type_id) == all);
                assert(all.skip(0) =~= all);
                let mut i: usize = 0;
                while i < defs.len()
                    invariant
                        i <= defs.len(),
                        all == definition_views(defs@),
                        definitions_of(self@, type_id) == all,
                        wanted@ == name@,
                        find_named(all, name@) == find_named(all.skip(i as int), name@),
                        forall|k: int|
                            0 <= k < all.len() && (#[trigger] all[k]).names.contains(name@)
                                && (forall|j: int| 0 <= j < k ==> !(#[trigger] all[j]).names.contains(name@))
                                ==> find_named(all, name@) == Some(all[k]),
                    decreases defs.len() - i,
                {
                    assert(all.skip(i as int).drop_first() =~= all.skip(i + 1));
                    if contains_string(&defs[i].names, &wanted) {
                        assert(all.skip(i as int)[0] == all[i as int]);
                        return Some(defs[i].duplicate());
                    }
                    i += 1;
                }
                None
            },
            None => None,
        }
    }

    /// Returns the primary definition of a given type.
    pub fn primary_component(&self, type_id: u64) -> (r: Option<ComponentDefinition<C, K>>)
        ensures
            match r {
                Some(d) => primary_of(definitions_of(self@, type_id)) == Some(d@),
                None => primary_of(definitions_of(self@, type_id)) is None,
            },
            definitions_of(self@, type_id).len() == 1 ==> (r matches Some(d) && d@ == definitions_of(self@, type_id)[0]),
            forall|i: int|
                definitions_of(self@, type_id).len() != 1 && 0 <= i < definitions_of(self@, type_id).len()
                    && (#[trigger] definitions_of(self@, type_id)[i]).is_primary
                    && (forall|j: int| 0 <= j < i ==> !(#[trigger] definitions_of(self@, type_id)[j]).is_primary)
                    ==> (r matches Some(d) && d@ == definitions_of(self@, type_id)[i]),
            definitions_of(self@, type_id).len() != 1
                && (forall|j: int| 0 <= j < definitions_of(self@, type_id).len() ==> !(#[trigger] definitions_of(self@, type_id)[j]).is_primary)
                ==> r is None,
    {
        proof {
            let defs = definitions_of(self@, type_id);
            assert forall|i: int|
                defs.len() != 1 && 0 <= i < defs.len() && (#[trigger] defs[i]).is_primary
                    && (forall|j: int| 0 <= j < i ==> !(#[trigger] defs[j]).is_primary)
                    implies primary_of(defs) == Some(defs[i]) by {
                lemma_primary_is_first_marked(defs, i);
            }
            lemma_primary_is_first_marked(defs, 0);
        }
        match self.definitions.get(&type_id) {
            Some(defs) => {
                if defs.len() == 1 {
                    return Some(defs[0].duplicate());
                }
                let ghost all = definition_views(defs@);
                assert(self.definitions@.contains_key(type_id) && self.definitions@[type_id] == *defs);
                assert(definitions_of(self@, type_id) == all);
                assert(all.skip(0) =~= all);
                let mut i: usize = 0;
                while i < defs.len()
                    invariant
                        i <= defs.len(),
                        all == definition_views(defs@),
                        definitions_of(self@, type_id) == all,
                        defs.len() != 1,
                        find_primary(all) == find_primary(all.skip(i as int)),
                        forall|k: int|
                            0 <= k < all.len() && (#[trigger] all[k]).is_primary
                                && (forall|j: int| 0 <= j < k ==> !(#[trigger] all[j]).is_primary)
                                ==> primary_of(all) == Some(all[k]),
                    decreases defs.len() - i,
                {
                    assert(all.skip(i as int).drop_first() =~= all.skip(i + 1));
                    if defs[i].is_primary {
                        assert(all.skip(i as int)[0] == all[i as int]);
                        return Some(defs[i].duplicate());
                    }
                    i += 1;
                }
                None
            },
            None => None,
        }
    }

    /// Checks if given type has at least one definition.
    pub fn is_registered(&self, target: u64) -> (r: bool)
        ensures
            r == type_registered(self@, target),
    {
        match self.definitions.get(&target) {
            Some(defs) => defs.len() > 0,
            None => false,
        }
    }

    /// Checks if given name is registered.
    pub fn is_name_registered(&self, name: &str) -> (r: bool)
        ensures
            r == registered_names(self@).contains(name@),
            r <==> exists|k: u64| names_of_entries(#[trigger] definitions_of(self@, k)).contains(name@),
    {
        let wanted = name.to_string();
        assert(wanted@ == name@);
        proof {
            use_type_invariant(self);
            lemma_registered_names_are_carried(self@, name@);
        }
        holds_name(&self.names, &wanted)
    }

    /// Returns a copy of the whole map.
    pub fn all_definitions(&self) -> (r: HashMap<u64, Vec<ComponentDefinition<C, K>>>)
        ensures
            r@.map_values(|v: Vec<ComponentDefinition<C, K>>| definition_views(v@)) == self@.definitions,
    {
        self.definitions.clone()
    }
}

} // verus!
