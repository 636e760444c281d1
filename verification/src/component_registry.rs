//! Registries of component definitions. [StaticComponentDefinitionRegistry] is built from
//! statically declared component and alias definitions, registering them in an order which
//! ensures dependencies are met:
//! 1. unconditional components,
//! 2. unconditional aliases for unconditional components,
//! 3. conditional components, by priority,
//! 4. unconditional aliases for conditional components,
//! 5. conditional aliases, by priority.

use std::collections::HashMap;
use vstd::prelude::*;

use crate::conditional::ComponentDefinitionRegistryFacade;
use crate::error::{ComponentDefinitionRegistryError, RegistryErrorView};
use crate::ordering::{lemma_priority_order_sorted, order_by_priority, priority_order};
use crate::registry::{
    alias_registration_error, component_registration_error, definition_views, definitions_of, find_named,
    lemma_alias_keeps_names_consistent, lemma_component_keeps_names_consistent, names_consistent,
    names_of_entries, primary_of, type_registered, with_alias, with_component, ComponentAliasMetadata,
    ComponentDefinition, ComponentDefinitionView, ComponentMetadata, NamedComponentDefinitionMap, RegistryView,
};

verus! {

broadcast use vstd::seq_lib::group_seq_properties;

/// A statically declared component definition.
pub struct TypedComponentDefinition<C, K, D> {
    pub target: u64,
    pub target_name: String,
    pub condition: Option<D>,
    pub priority: i8,
    pub metadata: ComponentMetadata<C, K>,
}

/// A statically declared alias definition.
pub struct ComponentAliasDefinition<K, D> {
    pub alias_type: u64,
    pub target_type: u64,
    pub alias_name: String,
    pub target_name: String,
    pub condition: Option<D>,
    pub priority: i8,
    pub metadata: ComponentAliasMetadata<K>,
}

/// The outcome of registering one component definition.
pub open spec fn component_step<C, K, D>(
    v: RegistryView<C, K>,
    d: TypedComponentDefinition<C, K, D>,
    allow_definition_overriding: bool,
) -> Result<RegistryView<C, K>, RegistryErrorView> {
    match component_registration_error(v, d.target, d.target_name@, d.metadata, allow_definition_overriding) {
        Some(e) => Err(e),
        None => Ok(with_component(v, d.target, d.target_name@, d.metadata)),
    }
}

/// The outcome of registering one alias definition.
pub open spec fn alias_step<C, K, D>(v: RegistryView<C, K>, a: ComponentAliasDefinition<K, D>) -> Result<
    RegistryView<C, K>,
    RegistryErrorView,
> {
    match alias_registration_error(v, a.alias_type, a.target_type, a.alias_name@, a.target_name@, a.metadata) {
        Some(e) => Err(e),
        None => Ok(with_alias(v, a.alias_type, a.target_type, a.metadata)),
    }
}

/// Registers, in order, the component definitions selected by `mask`, stopping at the first
/// error.
pub open spec fn fold_components<C, K, D>(
    v: RegistryView<C, K>,
    defs: Seq<TypedComponentDefinition<C, K, D>>,
    mask: Seq<bool>,
    allow_definition_overriding: bool,
) -> Result<RegistryView<C, K>, RegistryErrorView>
    decreases defs.len(),
{
    if defs.len() == 0 {
        Ok(v)
    } else {
        match fold_components(v, defs.drop_last(), mask.drop_last(), allow_definition_overriding) {
            Ok(w) => if mask.last() {
                component_step(w, defs.last(), allow_definition_overriding)
            } else {
                Ok(w)
            },
            Err(e) => Err(e),
        }
    }
}

/// Registers, in order, the alias definitions selected by `mask`, stopping at the first error.
pub open spec fn fold_aliases<C, K, D>(
    v: RegistryView<C, K>,
    aliases: Seq<ComponentAliasDefinition<K, D>>,
    mask: Seq<bool>,
) -> Result<RegistryView<C, K>, RegistryErrorView>
    decreases aliases.len(),
{
    if aliases.len() == 0 {
        Ok(v)
    } else {
        match fold_aliases(v, aliases.drop_last(), mask.drop_last()) {
            Ok(w) => if mask.last() {
                alias_step(w, aliases.last())
            } else {
                Ok(w)
            },
            Err(e) => Err(e),
        }
    }
}

/// Target types of the component definitions selected by `mask`.
pub open spec fn selected_targets<C, K, D>(defs: Seq<TypedComponentDefinition<C, K, D>>, mask: Seq<bool>) -> Set<u64> {
    Set::new(|t: u64| exists|i: int| 0 <= i < defs.len() && mask[i] && #[trigger] defs[i].target == t)
}

/// Selects the component definitions without a condition.
pub open spec fn unconditional_component_mask<C, K, D>(defs: Seq<TypedComponentDefinition<C, K, D>>) -> Seq<bool> {
    defs.map_values(|d: TypedComponentDefinition<C, K, D>| d.condition is None)
}

/// Selects the alias definitions without a condition whose target is enabled.
pub open spec fn unconditional_alias_mask<K, D>(aliases: Seq<ComponentAliasDefinition<K, D>>, enabled: Set<u64>) -> Seq<bool> {
    aliases.map_values(|a: ComponentAliasDefinition<K, D>| a.condition is None && enabled.contains(a.target_type))
}

/// The component definitions with a condition, in declaration order.
pub open spec fn conditional_components<C, K, D>(defs: Seq<TypedComponentDefinition<C, K, D>>) -> Seq<TypedComponentDefinition<C, K, D>>
    decreases defs.len(),
{
    if defs.len() == 0 {
        Seq::empty()
    } else if defs.last().condition is Some {
        conditional_components(defs.drop_last()).push(defs.last())
    } else {
        conditional_components(defs.drop_last())
    }
}

/// The alias definitions with a condition whose target is enabled, in declaration order.
pub open spec fn conditional_alias_candidates<K, D>(aliases: Seq<ComponentAliasDefinition<K, D>>, enabled: Set<u64>) -> Seq<ComponentAliasDefinition<K, D>>
    decreases aliases.len(),
{
    if aliases.len() == 0 {
        Seq::empty()
    } else if aliases.last().condition is Some && enabled.contains(aliases.last().target_type) {
        conditional_alias_candidates(aliases.drop_last(), enabled).push(aliases.last())
    } else {
        conditional_alias_candidates(aliases.drop_last(), enabled)
    }
}

/// Component definitions in priority order.
pub open spec fn components_by_priority<C, K, D>(defs: Seq<TypedComponentDefinition<C, K, D>>) -> Seq<TypedComponentDefinition<C, K, D>> {
    priority_order(defs.map_values(|d: TypedComponentDefinition<C, K, D>| d.priority)).map_values(|k: usize| defs[k as int])
}

/// Alias definitions in priority order.
pub open spec fn aliases_by_priority<K, D>(aliases: Seq<ComponentAliasDefinition<K, D>>) -> Seq<ComponentAliasDefinition<K, D>> {
    priority_order(aliases.map_values(|a: ComponentAliasDefinition<K, D>| a.priority)).map_values(|k: usize| aliases[k as int])
}

/// The empty registry.
pub open spec fn empty_registry<C, K>() -> RegistryView<C, K> {
    RegistryView { definitions: Map::empty(), owned: Set::empty() }
}

/// The outcome of the unconditional stages: unconditional components, then unconditional
/// aliases of them.
pub open spec fn unconditional_outcome<C, K, D>(
    allow_definition_overriding: bool,
    components: Seq<TypedComponentDefinition<C, K, D>>,
    aliases: Seq<ComponentAliasDefinition<K, D>>,
) -> Result<RegistryView<C, K>, RegistryErrorView> {
    let mask = unconditional_component_mask(components);
    match fold_components(empty_registry(), components, mask, allow_definition_overriding) {
        Ok(v) => fold_aliases(v, aliases, unconditional_alias_mask(aliases, selected_targets(components, mask))),
        Err(e) => Err(e),
    }
}

/// The outcome of building a registry from static definitions, given the decisions of the
/// conditions of the conditional components (in priority order) and of the conditional
/// aliases (in priority order).
pub open spec fn registration_outcome<C, K, D>(
    allow_definition_overriding: bool,
    components: Seq<TypedComponentDefinition<C, K, D>>,
    aliases: Seq<ComponentAliasDefinition<K, D>>,
    component_decisions: Seq<bool>,
    alias_decisions: Seq<bool>,
) -> Result<RegistryView<C, K>, RegistryErrorView> {
    let enabled = selected_targets(components, unconditional_component_mask(components));
    let conditional = components_by_priority(conditional_components(components));
    match unconditional_outcome(allow_definition_overriding, components, aliases) {
        Ok(v2) => match fold_components(v2, conditional, component_decisions, allow_definition_overriding) {
            Ok(v3) => {
                let new_enabled = selected_targets(conditional, component_decisions);
                match fold_aliases(v3, aliases, unconditional_alias_mask(aliases, new_enabled)) {
                    Ok(v4) => fold_aliases(
                        v4,
                        aliases_by_priority(conditional_alias_candidates(aliases, enabled.union(new_enabled))),
                        alias_decisions,
                    ),
                    Err(e) => Err(e),
                }
            },
            Err(e) => Err(e),
        },
        Err(e) => Err(e),
    }
}

/// The conditions' decisions are consistent with the evaluators: each is one the evaluator may
/// return given the registry as it stood when the definition was evaluated.
pub open spec fn conditions_consistent<
    C,
    K,
    D,
    FC: Fn(&StaticComponentDefinitionRegistry<C, K>, &TypedComponentDefinition<C, K, D>) -> bool,
    FA: Fn(&StaticComponentDefinitionRegistry<C, K>, &ComponentAliasDefinition<K, D>) -> bool,
>(
    component_condition: FC,
    alias_condition: FA,
    allow_definition_overriding: bool,
    components: Seq<TypedComponentDefinition<C, K, D>>,
    aliases: Seq<ComponentAliasDefinition<K, D>>,
    component_decisions: Seq<bool>,
    component_snapshots: Seq<StaticComponentDefinitionRegistry<C, K>>,
    alias_decisions: Seq<bool>,
    alias_snapshots: Seq<StaticComponentDefinitionRegistry<C, K>>,
) -> bool {
    let enabled = selected_targets(components, unconditional_component_mask(components));
    let conditional = components_by_priority(conditional_components(components));
    match unconditional_outcome(allow_definition_overriding, components, aliases) {
        Ok(v2) => {
            &&& component_decisions_consistent(component_condition, v2, conditional, component_decisions, component_snapshots, allow_definition_overriding)
            &&& match fold_components(v2, conditional, component_decisions, allow_definition_overriding) {
                Ok(v3) => {
                    let new_enabled = selected_targets(conditional, component_decisions);
                    match fold_aliases(v3, aliases, unconditional_alias_mask(aliases, new_enabled)) {
                        Ok(v4) => alias_decisions_consistent(
                            alias_condition,
                            v4,
                            aliases_by_priority(conditional_alias_candidates(aliases, enabled.union(new_enabled))),
                            alias_decisions,
                            alias_snapshots,
                            allow_definition_overriding,
                        ),
                        Err(_) => true,
                    }
                },
                Err(_) => true,
            }
        },
        Err(_) => true,
    }
}

/// Registering components in order keeps every registered type registered, registers the
/// target of each selected definition, and registers no other type.
proof fn lemma_fold_components_registered<C, K, D>(
    v: RegistryView<C, K>,
    defs: Seq<TypedComponentDefinition<C, K, D>>,
    mask: Seq<bool>,
    allow: bool,
    t: u64,
)
    requires
        mask.len() == defs.len(),
    ensures
        fold_components(v, defs, mask, allow) matches Ok(w) ==> {
            &&& (type_registered(v, t) || exists|i: int| 0 <= i < defs.len() && mask[i] && #[trigger] defs[i].target == t)
                ==> type_registered(w, t)
            &&& type_registered(w, t)
                ==> (type_registered(v, t) || exists|i: int| 0 <= i < defs.len() && mask[i] && #[trigger] defs[i].target == t)
        },
    decreases defs.len(),
{
    if defs.len() > 0 {
        let n = defs.len() - 1;
        lemma_fold_components_registered(v, defs.drop_last(), mask.drop_last(), allow, t);
        if let Ok(w0) = fold_components(v, defs.drop_last(), mask.drop_last(), allow) {
            if fold_components(v, defs, mask, allow) is Ok {
                let w = fold_components(v, defs, mask, allow)->Ok_0;
                assert forall|i: int| 0 <= i < n && mask.drop_last()[i] && #[trigger] defs.drop_last()[i].target == t
                    implies (0 <= i < defs.len() && mask[i] && defs[i].target == t) by {}
                if mask.last() {
                    assert(w == with_component(w0, defs.last().target, defs.last().target_name@, defs.last().metadata));
                    if type_registered(w, t) && t != defs.last().target {
                        assert(definitions_of(w, t) == definitions_of(w0, t));
                    }
                    if type_registered(w0, t) && t != defs.last().target {
                        assert(definitions_of(w, t) == definitions_of(w0, t));
                    }
                    if exists|i: int| 0 <= i < defs.len() && mask[i] && #[trigger] defs[i].target == t {
                        let i = choose|i: int| 0 <= i < defs.len() && mask[i] && #[trigger] defs[i].target == t;
                        if i < n {
                            assert(mask.drop_last()[i] && defs.drop_last()[i].target == t);
                        }
                    }
                } else {
                    if exists|i: int| 0 <= i < defs.len() && mask[i] && #[trigger] defs[i].target == t {
                        let i = choose|i: int| 0 <= i < defs.len() && mask[i] && #[trigger] defs[i].target == t;
                        assert(i < n);
                        assert(mask.drop_last()[i] && defs.drop_last()[i].target == t);
                    }
                }
            }
        }
    }
}

/// Registering aliases in order keeps every registered type registered, and registers no type
/// other than the alias types of the selected aliases.
proof fn lemma_fold_aliases_registered<C, K, D>(
    v: RegistryView<C, K>,
    aliases: Seq<ComponentAliasDefinition<K, D>>,
    mask: Seq<bool>,
    t: u64,
)
    requires
        mask.len() == aliases.len(),
    ensures
        fold_aliases(v, aliases, mask) matches Ok(w) ==> {
            &&& type_registered(v, t) ==> type_registered(w, t)
            &&& type_registered(w, t)
                ==> (type_registered(v, t) || exists|i: int| 0 <= i < aliases.len() && mask[i] && #[trigger] aliases[i].alias_type == t)
        },
    decreases aliases.len(),
{
    if aliases.len() > 0 {
        let n = aliases.len() - 1;
        lemma_fold_aliases_registered(v, aliases.drop_last(), mask.drop_last(), t);
        if let Ok(w0) = fold_aliases(v, aliases.drop_last(), mask.drop_last()) {
            if fold_aliases(v, aliases, mask) is Ok {
                let w = fold_aliases(v, aliases, mask)->Ok_0;
                if mask.last() {
                    let a = aliases.last();
                    assert(w == with_alias(w0, a.alias_type, a.target_type, a.metadata));
                    if t != a.alias_type {
                        assert(definitions_of(w, t) == definitions_of(w0, t));
                    } else {
                        assert(definitions_of(w, t).len() >= definitions_of(w0, t).len());
                    }
                }
                if type_registered(w0, t) && exists|i: int| 0 <= i < n && mask.drop_last()[i] && #[trigger] aliases.drop_last()[i].alias_type == t {
                    let i = choose|i: int| 0 <= i < n && mask.drop_last()[i] && #[trigger] aliases.drop_last()[i].alias_type == t;
                    assert(mask[i] && aliases[i].alias_type == t);
                }
                if exists|i: int| 0 <= i < n && mask.drop_last()[i] && #[trigger] aliases.drop_last()[i].alias_type == t {
                    let i = choose|i: int| 0 <= i < n && mask.drop_last()[i] && #[trigger] aliases.drop_last()[i].alias_type == t;
                    assert(mask[i] && aliases[i].alias_type == t);
                }
            }
        }
    }
}

/// Every alias candidate is one of the declared aliases.
proof fn lemma_alias_candidates_declared<K, D>(aliases: Seq<ComponentAliasDefinition<K, D>>, enabled: Set<u64>, k: int)
    requires
        0 <= k < conditional_alias_candidates(aliases, enabled).len(),
    ensures
        conditional_alias_candidates(aliases, enabled).len() <= aliases.len(),
        exists|j: int| 0 <= j < aliases.len() && aliases[j] == conditional_alias_candidates(aliases, enabled)[k],
    decreases aliases.len(),
{
    let rest = conditional_alias_candidates(aliases.drop_last(), enabled);
    lemma_alias_candidates_len(aliases.drop_last(), enabled);
    if k < rest.len() {
        lemma_alias_candidates_declared(aliases.drop_last(), enabled, k);
        let j = choose|j: int| 0 <= j < aliases.drop_last().len() && aliases.drop_last()[j] == rest[k];
        assert(aliases[j] == conditional_alias_candidates(aliases, enabled)[k]);
    } else {
        assert(aliases[aliases.len() - 1] == conditional_alias_candidates(aliases, enabled)[k]);
    }
}

proof fn lemma_alias_candidates_len<K, D>(aliases: Seq<ComponentAliasDefinition<K, D>>, enabled: Set<u64>)
    ensures
        conditional_alias_candidates(aliases, enabled).len() <= aliases.len(),
    decreases aliases.len(),
{
    if aliases.len() > 0 {
        lemma_alias_candidates_len(aliases.drop_last(), enabled);
    }
}

/// Every component declared without a condition is registered when building the registry
/// succeeds, whatever the conditions decided.
pub proof fn lemma_unconditional_components_registered<C, K, D>(
    allow_definition_overriding: bool,
    components: Seq<TypedComponentDefinition<C, K, D>>,
    aliases: Seq<ComponentAliasDefinition<K, D>>,
    component_decisions: Seq<bool>,
    alias_decisions: Seq<bool>,
    i: int,
)
    requires
        0 <= i < components.len(),
        components[i].condition is None,
        component_decisions.len() == components_by_priority(conditional_components(components)).len(),
        alias_decisions.len() == aliases_by_priority(conditional_alias_candidates(
            aliases,
            selected_targets(components, unconditional_component_mask(components)).union(
                selected_targets(components_by_priority(conditional_components(components)), component_decisions),
            ),
        )).len(),
    ensures
        registration_outcome(allow_definition_overriding, components, aliases, component_decisions, alias_decisions) matches Ok(v)
            ==> type_registered(v, components[i].target),
{
    let t = components[i].target;
    let mask = unconditional_component_mask(components);
    let enabled = selected_targets(components, mask);
    let conditional = components_by_priority(conditional_components(components));
    let new_enabled = selected_targets(conditional, component_decisions);
    let candidates = aliases_by_priority(conditional_alias_candidates(aliases, enabled.union(new_enabled)));
    lemma_fold_components_registered(empty_registry(), components, mask, allow_definition_overriding, t);
    assert(mask[i]);
    if let Ok(v1) = fold_components(empty_registry(), components, mask, allow_definition_overriding) {
        let amask = unconditional_alias_mask(aliases, enabled);
        lemma_fold_aliases_registered(v1, aliases, amask, t);
        if let Ok(v2) = fold_aliases(v1, aliases, amask) {
            lemma_fold_components_registered(v2, conditional, component_decisions, allow_definition_overriding, t);
            if let Ok(v3) = fold_components(v2, conditional, component_decisions, allow_definition_overriding) {
                let nmask = unconditional_alias_mask(aliases, new_enabled);
                lemma_fold_aliases_registered(v3, aliases, nmask, t);
                if let Ok(v4) = fold_aliases(v3, aliases, nmask) {
                    lemma_fold_aliases_registered(v4, candidates, alias_decisions, t);
                }
            }
        }
    }
}

/// Building the registry registers no type that is neither the target of a component declared
/// without a condition, nor the target of a conditional component whose condition passed, nor
/// the alias type of a declared alias: in particular, a component whose condition fails is
/// not registered.
pub proof fn lemma_only_enabled_components_registered<C, K, D>(
    allow_definition_overriding: bool,
    components: Seq<TypedComponentDefinition<C, K, D>>,
    aliases: Seq<ComponentAliasDefinition<K, D>>,
    component_decisions: Seq<bool>,
    alias_decisions: Seq<bool>,
    t: u64,
)
    requires
        aliases.len() <= usize::MAX,
        component_decisions.len() == components_by_priority(conditional_components(components)).len(),
        alias_decisions.len() == aliases_by_priority(conditional_alias_candidates(
            aliases,
            selected_targets(components, unconditional_component_mask(components)).union(
                selected_targets(components_by_priority(conditional_components(components)), component_decisions),
            ),
        )).len(),
        forall|i: int| 0 <= i < components.len() && (#[trigger] components[i]).condition is None ==> components[i].target != t,
        forall|k: int| 0 <= k < component_decisions.len() && component_decisions[k]
            ==> (#[trigger] components_by_priority(conditional_components(components))[k]).target != t,
        forall|j: int| 0 <= j < aliases.len() ==> (#[trigger] aliases[j]).alias_type != t,
    ensures
        registration_outcome(allow_definition_overriding, components, aliases, component_decisions, alias_decisions) matches Ok(v)
            ==> !type_registered(v, t),
{
    let mask = unconditional_component_mask(components);
    let enabled = selected_targets(components, mask);
    let conditional = components_by_priority(conditional_components(components));
    let new_enabled = selected_targets(conditional, component_decisions);
    let cands = conditional_alias_candidates(aliases, enabled.union(new_enabled));
    let candidates = aliases_by_priority(cands);
    assert(!type_registered(empty_registry::<C, K>(), t));
    lemma_fold_components_registered(empty_registry(), components, mask, allow_definition_overriding, t);
    if let Ok(v1) = fold_components(empty_registry(), components, mask, allow_definition_overriding) {
        assert(!type_registered(v1, t)) by {
            if exists|i: int| 0 <= i < components.len() && mask[i] && #[trigger] components[i].target == t {
                let i = choose|i: int| 0 <= i < components.len() && mask[i] && #[trigger] components[i].target == t;
                assert(components[i].condition is None);
            }
        }
        let amask = unconditional_alias_mask(aliases, enabled);
        lemma_fold_aliases_registered(v1, aliases, amask, t);
        if let Ok(v2) = fold_aliases(v1, aliases, amask) {
            lemma_fold_components_registered(v2, conditional, component_decisions, allow_definition_overriding, t);
            if let Ok(v3) = fold_components(v2, conditional, component_decisions, allow_definition_overriding) {
                let nmask = unconditional_alias_mask(aliases, new_enabled);
                lemma_fold_aliases_registered(v3, aliases, nmask, t);
                if let Ok(v4) = fold_aliases(v3, aliases, nmask) {
                    lemma_fold_aliases_registered(v4, candidates, alias_decisions, t);
                    lemma_alias_candidates_len(aliases, enabled.union(new_enabled));
                    let prios = cands.map_values(|a: ComponentAliasDefinition<K, D>| a.priority);
                    lemma_priority_order_sorted(prios);
                    assert forall|m: int| 0 <= m < candidates.len() implies (#[trigger] candidates[m]).alias_type != t by {
                        let k = priority_order(prios)[m] as int;
                        assert(candidates[m] == cands[k]);
                        lemma_alias_candidates_declared(aliases, enabled.union(new_enabled), k);
                    }
                }
            }
        }
    }
}

/// Registry of component definitions initialized from statically declared definitions.
pub struct StaticComponentDefinitionRegistry<C, K> {
    definition_map: NamedComponentDefinitionMap<C, K>,
    allow_definition_overriding: bool,
}

impl<C, K> View for StaticComponentDefinitionRegistry<C, K> {
    type V = RegistryView<C, K>;

    closed spec fn view(&self) -> RegistryView<C, K> {
        self.definition_map@
    }
}

/// Each decision is one the condition evaluator may return for the definition, given the
/// registry as it stood when the definition was evaluated.
pub open spec fn component_decisions_consistent<C, K, D, F: Fn(&StaticComponentDefinitionRegistry<C, K>, &TypedComponentDefinition<C, K, D>) -> bool>(
    evaluate: F,
    v: RegistryView<C, K>,
    items: Seq<TypedComponentDefinition<C, K, D>>,
    decisions: Seq<bool>,
    snapshots: Seq<StaticComponentDefinitionRegistry<C, K>>,
    allow_definition_overriding: bool,
) -> bool {
    &&& decisions.len() == items.len()
    &&& snapshots.len() == items.len()
    &&& forall|i: int|
        0 <= i < items.len() ==> (fold_components(v, items.take(i), decisions.take(i), allow_definition_overriding) matches Ok(w) ==> {
            &&& (#[trigger] snapshots[i])@ == w
            &&& snapshots[i].allows_overriding() == allow_definition_overriding
            &&& evaluate.ensures((&snapshots[i], &items[i]), decisions[i])
        })
}

/// Each decision is one the condition evaluator may return for the alias, given the registry as
/// it stood when the alias was evaluated.
pub open spec fn alias_decisions_consistent<C, K, D, F: Fn(&StaticComponentDefinitionRegistry<C, K>, &ComponentAliasDefinition<K, D>) -> bool>(
    evaluate: F,
    v: RegistryView<C, K>,
    items: Seq<ComponentAliasDefinition<K, D>>,
    decisions: Seq<bool>,
    snapshots: Seq<StaticComponentDefinitionRegistry<C, K>>,
    allow_definition_overriding: bool,
) -> bool {
    &&& decisions.len() == items.len()
    &&& snapshots.len() == items.len()
    &&& forall|i: int|
        0 <= i < items.len() ==> (fold_aliases(v, items.take(i), decisions.take(i)) matches Ok(w) ==> {
            &&& (#[trigger] snapshots[i])@ == w
            &&& snapshots[i].allows_overriding() == allow_definition_overriding
            &&& evaluate.ensures((&snapshots[i], &items[i]), decisions[i])
        })
}

proof fn lemma_fold_components_error_persists<C, K, D>(
    v: RegistryView<C, K>,
    items: Seq<TypedComponentDefinition<C, K, D>>,
    decisions: Seq<bool>,
    allow: bool,
    i: int,
    k: int,
)
    requires
        0 <= i <= k <= items.len(),
        decisions.len() == items.len(),
        fold_components(v, items.take(i), decisions.take(i), allow) is Err,
    ensures
        fold_components(v, items.take(k), decisions.take(k), allow) == fold_components(v, items.take(i), decisions.take(i), allow),
    decreases k - i,
{
    if k > i {
        lemma_fold_components_error_persists(v, items, decisions, allow, i, k - 1);
        assert(items.take(k).drop_last() =~= items.take(k - 1));
        assert(decisions.take(k).drop_last() =~= decisions.take(k - 1));
    }
}

proof fn lemma_fold_aliases_error_persists<C, K, D>(
    v: RegistryView<C, K>,
    items: Seq<ComponentAliasDefinition<K, D>>,
    decisions: Seq<bool>,
    i: int,
    k: int,
)
    requires
        0 <= i <= k <= items.len(),
        decisions.len() == items.len(),
        fold_aliases(v, items.take(i), decisions.take(i)) is Err,
    ensures
        fold_aliases(v, items.take(k), decisions.take(k)) == fold_aliases(v, items.take(i), decisions.take(i)),
    decreases k - i,
{
    if k > i {
        lemma_fold_aliases_error_persists(v, items, decisions, i, k - 1);
        assert(items.take(k).drop_last() =~= items.take(k - 1));
        assert(decisions.take(k).drop_last() =~= decisions.take(k - 1));
    }
}

proof fn lemma_fold_components_keeps_names_consistent<C, K, D>(
    v: RegistryView<C, K>,
    defs: Seq<TypedComponentDefinition<C, K, D>>,
    mask: Seq<bool>,
    allow: bool,
)
    requires
        names_consistent(v),
    ensures
        fold_components(v, defs, mask, allow) matches Ok(w) ==> names_consistent(w),
    decreases defs.len(),
{
    if defs.len() > 0 {
        lemma_fold_components_keeps_names_consistent(v, defs.drop_last(), mask.drop_last(), allow);
        if let Ok(w) = fold_components(v, defs.drop_last(), mask.drop_last(), allow) {
            let d = defs.last();
            lemma_component_keeps_names_consistent(w, d.target, d.target_name@, d.metadata);
        }
    }
}

proof fn lemma_fold_aliases_keeps_names_consistent<C, K, D>(
    v: RegistryView<C, K>,
    aliases: Seq<ComponentAliasDefinition<K, D>>,
    mask: Seq<bool>,
)
    requires
        names_consistent(v),
    ensures
        fold_aliases(v, aliases, mask) matches Ok(w) ==> names_consistent(w),
    decreases aliases.len(),
{
    if aliases.len() > 0 {
        lemma_fold_aliases_keeps_names_consistent(v, aliases.drop_last(), mask.drop_last());
        if let Ok(w) = fold_aliases(v, aliases.drop_last(), mask.drop_last()) {
            let a = aliases.last();
            lemma_alias_keeps_names_consistent(w, a.alias_type, a.target_type, a.metadata);
        }
    }
}

/// A registry built from static definitions registers exactly the names that its definitions
/// carry, under the type keys that hold them, whatever the conditions decided.
pub proof fn lemma_built_registry_names_consistent<C, K, D>(
    allow_definition_overriding: bool,
    components: Seq<TypedComponentDefinition<C, K, D>>,
    aliases: Seq<ComponentAliasDefinition<K, D>>,
    component_decisions: Seq<bool>,
    alias_decisions: Seq<bool>,
)
    ensures
        registration_outcome(allow_definition_overriding, components, aliases, component_decisions, alias_decisions) matches Ok(v)
            ==> names_consistent(v),
{
    let e = empty_registry::<C, K>();
    assert(names_consistent(e)) by {
        assert forall|n: Seq<char>, k: u64| #[trigger] e.owned.contains((n, k)) <==> names_of_entries(definitions_of(e, k)).contains(n) by {
            assert(definitions_of(e, k) =~= Seq::<ComponentDefinitionView<C, K>>::empty());
        }
    }
    let mask = unconditional_component_mask(components);
    let enabled = selected_targets(components, mask);
    let conditional = components_by_priority(conditional_components(components));
    lemma_fold_components_keeps_names_consistent(e, components, mask, allow_definition_overriding);
    if let Ok(v1) = fold_components(e, components, mask, allow_definition_overriding) {
        lemma_fold_aliases_keeps_names_consistent(v1, aliases, unconditional_alias_mask(aliases, enabled));
        if let Ok(v2) = fold_aliases(v1, aliases, unconditional_alias_mask(aliases, enabled)) {
            lemma_fold_components_keeps_names_consistent(v2, conditional, component_decisions, allow_definition_overriding);
            if let Ok(v3) = fold_components(v2, conditional, component_decisions, allow_definition_overriding) {
                let new_enabled = selected_targets(conditional, component_decisions);
                lemma_fold_aliases_keeps_names_consistent(v3, aliases, unconditional_alias_mask(aliases, new_enabled));
                if let Ok(v4) = fold_aliases(v3, aliases, unconditional_alias_mask(aliases, new_enabled)) {
                    lemma_fold_aliases_keeps_names_consistent(
                        v4,
                        aliases_by_priority(conditional_alias_candidates(aliases, enabled.union(new_enabled))),
                        alias_decisions,
                    );
                }
            }
        }
    }
}

/// Positions of the component definitions which carry a condition.
fn conditional_positions<C, K, D>(defs: &Vec<TypedComponentDefinition<C, K, D>>) -> (r: Vec<usize>)
    ensures
        forall|i: int| 0 <= i < r@.len() ==> #[trigger] r@[i] < defs@.len(),
        r@.map_values(|p: usize| defs@[p as int]) == conditional_components(defs@),
{
    let mut r: Vec<usize> = Vec::new();
    let mut i: usize = 0;
    while i < defs.len()
        invariant
            i <= defs.len(),
            forall|j: int| 0 <= j < r@.len() ==> #[trigger] r@[j] < i,
            r@.map_values(|p: usize| defs@[p as int]) == conditional_components(defs@.take(i as int)),
        decreases defs.len() - i,
    {
        let ghost before = r@;
        assert(defs@.take(i + 1).drop_last() =~= defs@.take(i as int));
        if defs[i].condition.is_some() {
            r.push(i);
            assert(r@.map_values(|p: usize| defs@[p as int]) =~= before.map_values(|p: usize| defs@[p as int]).push(defs@[i as int]));
        }
        i += 1;
    }
    assert(defs@.take(defs.len() as int) =~= defs@);
    r
}

/// Positions of the alias definitions which carry a condition and whose target is enabled.
fn alias_candidate_positions<K, D>(aliases: &Vec<ComponentAliasDefinition<K, D>>, enabled: &Vec<u64>) -> (r: Vec<usize>)
    ensures
        forall|i: int| 0 <= i < r@.len() ==> #[trigger] r@[i] < aliases@.len(),
        r@.map_values(|p: usize| aliases@[p as int]) == conditional_alias_candidates(aliases@, enabled@.to_set()),
{
    let mut r: Vec<usize> = Vec::new();
    let mut i: usize = 0;
    while i < aliases.len()
        invariant
            i <= aliases.len(),
            forall|j: int| 0 <= j < r@.len() ==> #[trigger] r@[j] < i,
            r@.map_values(|p: usize| aliases@[p as int]) == conditional_alias_candidates(aliases@.take(i as int), enabled@.to_set()),
        decreases aliases.len() - i,
    {
        let ghost before = r@;
        assert(aliases@.take(i + 1).drop_last() =~= aliases@.take(i as int));
        if aliases[i].condition.is_some() && contains_u64(enabled, aliases[i].target_type) {
            r.push(i);
            assert(r@.map_values(|p: usize| aliases@[p as int]) =~= before.map_values(|p: usize| aliases@[p as int]).push(aliases@[i as int]));
        }
        i += 1;
    }
    assert(aliases@.take(aliases.len() as int) =~= aliases@);
    r
}

/// Checks whether a list of type keys holds a given key.
fn contains_u64(v: &Vec<u64>, x: u64) -> (r: bool)
    ensures
        r == v@.to_set().contains(x),
{
    let mut i: usize = 0;
    while i < v.len()
        invariant
            i <= v.len(),
            forall|j: int| 0 <= j < i ==> v@[j] != x,
        decreases v.len() - i,
    {
        if v[i] == x {
            assert(v@.contains(x));
            return true;
        }
        i += 1;
    }
    false
}

impl<C, K> StaticComponentDefinitionRegistry<C, K> {
    /// Whether registering over existing names and types is allowed.
    pub closed spec fn allows_overriding(&self) -> bool {
        self.allow_definition_overriding
    }
}

impl<C: Copy, K: Copy> StaticComponentDefinitionRegistry<C, K> {
    /// Registers, in order, the component definitions without a condition into an empty
    /// registry. Returns the registry and the enabled types.
    fn register_unconditional_components<D>(
        component_definitions: &Vec<TypedComponentDefinition<C, K, D>>,
        allow_definition_overriding: bool,
    ) -> (r: Result<(Self, Vec<u64>), ComponentDefinitionRegistryError>)
        ensures
            match fold_components(empty_registry(), component_definitions@, unconditional_component_mask(component_definitions@), allow_definition_overriding) {
                Ok(v) => r matches Ok((reg, enabled)) && reg@ == v && reg.allows_overriding() == allow_definition_overriding
                    && enabled@.to_set() == selected_targets(component_definitions@, unconditional_component_mask(component_definitions@)),
                Err(e) => r matches Err(err) && err@ == e,
            },
    {
        let ghost defs = component_definitions@;
        let ghost mask = unconditional_component_mask(defs);
        let mut registry = StaticComponentDefinitionRegistry {
            definition_map: NamedComponentDefinitionMap::new(),
            allow_definition_overriding,
        };
        assert(registry@ =~= empty_registry::<C, K>());
        let mut enabled: Vec<u64> = Vec::new();
        let mut i: usize = 0;
        while i < component_definitions.len()
            invariant
                i <= component_definitions.len(),
                defs == component_definitions@,
                mask == unconditional_component_mask(defs),
                registry.allow_definition_overriding == allow_definition_overriding,
                fold_components(empty_registry(), defs.take(i as int), mask.take(i as int), allow_definition_overriding) == Ok::<RegistryView<C, K>, RegistryErrorView>(registry@),
                enabled@.to_set() == selected_targets(defs.take(i as int), mask.take(i as int)),
            decreases component_definitions.len() - i,
        {
            let definition = &component_definitions[i];
            assert(defs.take(i + 1).drop_last() =~= defs.take(i as int));
            assert(mask.take(i + 1).drop_last() =~= mask.take(i as int));
            let ghost prev_enabled = enabled@;
            if definition.condition.is_none() {
                match registry.definition_map.try_register_component(
                    definition.target,
                    definition.target_name.as_str(),
                    &definition.metadata,
                    allow_definition_overriding,
                ) {
                    Ok(()) => {
                        enabled.push(definition.target);
                    },
                    Err(e) => {
                        proof {
                            lemma_fold_components_error_persists(empty_registry(), defs, mask, allow_definition_overriding, i + 1, defs.len() as int);
                            assert(defs.take(defs.len() as int) =~= defs);
                            assert(mask.take(defs.len() as int) =~= mask);
                        }
                        return Err(e);
                    },
                }
            }
            assert(enabled@.to_set() =~= selected_targets(defs.take(i + 1), mask.take(i + 1))) by {
                assert forall|t: u64| enabled@.to_set().contains(t) implies selected_targets(defs.take(i + 1), mask.take(i + 1)).contains(t) by {
                    if t != defs[i as int].target || !mask[i as int] {
                        assert(prev_enabled.to_set().contains(t));
                        let j = choose|j: int| 0 <= j < i && mask.take(i as int)[j] && #[trigger] defs.take(i as int)[j].target == t;
                        assert(defs.take(i + 1)[j].target == t);
                    } else {
                        assert(defs.take(i + 1)[i as int].target == t);
                    }
                }
                assert forall|t: u64| selected_targets(defs.take(i + 1), mask.take(i + 1)).contains(t) implies enabled@.to_set().contains(t) by {
                    let j = choose|j: int| 0 <= j < i + 1 && mask.take(i + 1)[j] && #[trigger] defs.take(i + 1)[j].target == t;
                    if j < i {
                        assert(defs.take(i as int)[j].target == t);
                        assert(selected_targets(defs.take(i as int), mask.take(i as int)).contains(t));
                    } else {
                        assert(enabled@.last() == t);
                    }
                }
            }
            i += 1;
        }
        assert(defs.take(defs.len() as int) =~= defs);
        assert(mask.take(defs.len() as int) =~= mask);
        Ok((registry, enabled))
    }

    /// Builds a registry from statically declared definitions: unconditional components, then
    /// unconditional aliases of them, then conditional components by priority (each one whose
    /// condition passes on the registry as it stands), then unconditional aliases of those, then
    /// conditional aliases of any enabled type by priority. The first refused registration is
    /// returned as the error.
    pub fn new<D, FC, FA>(
        allow_definition_overriding: bool,
        component_definitions: &Vec<TypedComponentDefinition<C, K, D>>,
        alias_definitions: &Vec<ComponentAliasDefinition<K, D>>,
        component_condition: &FC,
        alias_condition: &FA,
    ) -> (r: Result<Self, ComponentDefinitionRegistryError>)
        where
            FC: Fn(&StaticComponentDefinitionRegistry<C, K>, &TypedComponentDefinition<C, K, D>) -> bool,
            FA: Fn(&StaticComponentDefinitionRegistry<C, K>, &ComponentAliasDefinition<K, D>) -> bool,
        requires
            forall|reg: &StaticComponentDefinitionRegistry<C, K>, d: &TypedComponentDefinition<C, K, D>| component_condition.requires((reg, d)),
            forall|reg: &StaticComponentDefinitionRegistry<C, K>, a: &ComponentAliasDefinition<K, D>| alias_condition.requires((reg, a)),
        ensures
            exists|cd: Seq<bool>, cs: Seq<Self>, ad: Seq<bool>, as_: Seq<Self>| {
                &&& conditions_consistent(*component_condition, *alias_condition, allow_definition_overriding, component_definitions@, alias_definitions@, cd, cs, ad, as_)
                &&& match registration_outcome(allow_definition_overriding, component_definitions@, alias_definitions@, cd, ad) {
                    Ok(v) => r matches Ok(reg) && reg@ == v && reg.allows_overriding() == allow_definition_overriding,
                    Err(e) => r matches Err(err) && err@ == e,
                }
            },
            r matches Ok(reg) ==> names_consistent(reg@),
    {
        let ghost comps = component_definitions@;
        let ghost aliases = alias_definitions@;
        let ghost enabled_set = selected_targets(comps, unconditional_component_mask(comps));
        let ghost conditional = components_by_priority(conditional_components(comps));
        let (mut registry, enabled) = match Self::register_unconditional_components(component_definitions, allow_definition_overriding) {
            Ok(pair) => pair,
            Err(e) => {
                assert(conditions_consistent(*component_condition, *alias_condition, allow_definition_overriding, comps, aliases, Seq::empty(), Seq::empty(), Seq::empty(), Seq::empty()));
                return Err(e);
            },
        };
        match registry.register_unconditional_aliases(alias_definitions, &enabled) {
            Ok(()) => {},
            Err(e) => {
                assert(conditions_consistent(*component_condition, *alias_condition, allow_definition_overriding, comps, aliases, Seq::empty(), Seq::empty(), Seq::empty(), Seq::empty()));
                return Err(e);
            },
        }
        let ghost v2 = registry@;
        assert(unconditional_outcome(allow_definition_overriding, comps, aliases) == Ok::<RegistryView<C, K>, RegistryErrorView>(v2));
        if component_definitions.len() == 0 && alias_definitions.len() == 0 {
            proof {
                assert(conditional_components(comps) =~= Seq::<TypedComponentDefinition<C, K, D>>::empty());
                assert(conditional.len() == 0);
                assert(conditional_alias_candidates(aliases, enabled_set) =~= Seq::<ComponentAliasDefinition<K, D>>::empty());
                let e: Seq<bool> = Seq::empty();
                let new_enabled = selected_targets(conditional, e);
                assert(conditional_alias_candidates(aliases, enabled_set.union(new_enabled)) =~= Seq::<ComponentAliasDefinition<K, D>>::empty());
                assert(conditions_consistent(*component_condition, *alias_condition, allow_definition_overriding, comps, aliases, e, Seq::empty(), e, Seq::empty()));
                assert(registration_outcome(allow_definition_overriding, comps, aliases, e, e) == Ok::<RegistryView<C, K>, RegistryErrorView>(v2));
                lemma_built_registry_names_consistent(allow_definition_overriding, comps, aliases, e, e);
            }
            return Ok(registry);
        }
        let (result, Ghost(cd), Ghost(cs)) = registry.register_conditional_components(component_definitions, component_condition);
        let new_enabled = match result {
            Ok(ne) => ne,
            Err(e) => {
                assert(conditions_consistent(*component_condition, *alias_condition, allow_definition_overriding, comps, aliases, cd, cs, Seq::empty(), Seq::empty()));
                return Err(e);
            },
        };
        let ghost v3 = registry@;
        match registry.register_unconditional_aliases(alias_definitions, &new_enabled) {
            Ok(()) => {},
            Err(e) => {
                assert(conditions_consistent(*component_condition, *alias_condition, allow_definition_overriding, comps, aliases, cd, cs, Seq::empty(), Seq::empty()));
                return Err(e);
            },
        }
        let mut all_enabled = enabled;
        let mut extra = new_enabled;
        let ghost first = all_enabled@;
        let ghost second = extra@;
        all_enabled.append(&mut extra);
        assert(all_enabled@.to_set() =~= first.to_set().union(second.to_set())) by {
            assert(all_enabled@ == first + second);
        }
        let (result, Ghost(ad), Ghost(as_)) = registry.register_conditional_aliases(alias_definitions, &all_enabled, alias_condition);
        assert(conditions_consistent(*component_condition, *alias_condition, allow_definition_overriding, comps, aliases, cd, cs, ad, as_));
        proof {
            lemma_built_registry_names_consistent(allow_definition_overriding, comps, aliases, cd, ad);
        }
        match result {
            Ok(()) => Ok(registry),
            Err(e) => Err(e),
        }
    }

    /// Evaluates the conditions of the conditional component definitions, by priority, against
    /// the registry as it stands, registering each definition whose condition passes. Returns
    /// the types so enabled, with the decisions taken and the registries they were taken on.
    fn register_conditional_components<D, FC>(
        &mut self,
        component_definitions: &Vec<TypedComponentDefinition<C, K, D>>,
        evaluate: &FC,
    ) -> (r: (Result<Vec<u64>, ComponentDefinitionRegistryError>, Ghost<Seq<bool>>, Ghost<Seq<Self>>))
        where
            FC: Fn(&StaticComponentDefinitionRegistry<C, K>, &TypedComponentDefinition<C, K, D>) -> bool,
        requires
            forall|reg: &StaticComponentDefinitionRegistry<C, K>, d: &TypedComponentDefinition<C, K, D>| evaluate.requires((reg, d)),
        ensures
            final(self).allows_overriding() == old(self).allows_overriding(),
            component_decisions_consistent(
                *evaluate,
                old(self)@,
                components_by_priority(conditional_components(component_definitions@)),
                r.1@,
                r.2@,
                old(self).allows_overriding(),
            ),
            match fold_components(old(self)@, components_by_priority(conditional_components(component_definitions@)), r.1@, old(self).allows_overriding()) {
                Ok(v) => r.0 matches Ok(enabled) && final(self)@ == v
                    && enabled@.to_set() == selected_targets(components_by_priority(conditional_components(component_definitions@)), r.1@),
                Err(e) => r.0 matches Err(err) && err@ == e,
            },
    {
        let ghost defs = component_definitions@;
        let ghost allow = self.allow_definition_overriding;
        let ghost v0 = self@;
        let positions = conditional_positions(component_definitions);
        let ghost cond = conditional_components(defs);
        assert(cond.len() == positions@.len());
        let mut priorities: Vec<i8> = Vec::new();
        let mut k: usize = 0;
        while k < positions.len()
            invariant
                k <= positions.len(),
                defs == component_definitions@,
                cond == conditional_components(defs),
                positions@.map_values(|p: usize| defs[p as int]) == cond,
                forall|j: int| 0 <= j < positions@.len() ==> #[trigger] positions@[j] < defs.len(),
                priorities@.len() == k,
                forall|j: int| 0 <= j < k ==> priorities@[j] == (#[trigger] cond[j]).priority,
            decreases positions.len() - k,
        {
            assert(cond[k as int] == defs[positions@[k as int] as int]);
            priorities.push(component_definitions[positions[k]].priority);
            k += 1;
        }
        assert(priorities@ =~= cond.map_values(|d: TypedComponentDefinition<C, K, D>| d.priority));
        let order = order_by_priority(&priorities);
        let ghost sorted = components_by_priority(cond);
        assert(sorted.len() == order@.len());
        let ghost mut decisions: Seq<bool> = Seq::empty();
        let ghost mut snapshots: Seq<Self> = Seq::empty();
        let mut enabled: Vec<u64> = Vec::new();
        assert(sorted.take(0) =~= Seq::<TypedComponentDefinition<C, K, D>>::empty());
        assert(enabled@.to_set() =~= selected_targets(sorted.take(0), decisions));
        let mut i: usize = 0;
        while i < order.len()
            invariant
                i <= order.len(),
                defs == component_definitions@,
                cond == conditional_components(defs),
                positions@.map_values(|p: usize| defs[p as int]) == cond,
                forall|j: int| 0 <= j < positions@.len() ==> #[trigger] positions@[j] < defs.len(),
                priorities@.len() == positions@.len(),
                order@ == priority_order(priorities@),
                priorities@ == cond.map_values(|d: TypedComponentDefinition<C, K, D>| d.priority),
                forall|j: int| 0 <= j < order@.len() ==> #[trigger] order@[j] < priorities@.len(),
                sorted == components_by_priority(cond),
                sorted.len() == order@.len(),
                allow == self.allow_definition_overriding,
                allow == old(self).allows_overriding(),
                v0 == old(self)@,
                decisions.len() == i,
                snapshots.len() == i,
                forall|reg: &StaticComponentDefinitionRegistry<C, K>, d: &TypedComponentDefinition<C, K, D>| evaluate.requires((reg, d)),
                fold_components(v0, sorted.take(i as int), decisions, allow) == Ok::<RegistryView<C, K>, RegistryErrorView>(self@),
                enabled@.to_set() == selected_targets(sorted.take(i as int), decisions),
                forall|j: int|
                    0 <= j < i ==> (fold_components(v0, sorted.take(j), decisions.take(j), allow) matches Ok(w) ==> {
                        &&& (#[trigger] snapshots[j])@ == w
                        &&& snapshots[j].allows_overriding() == allow
                        &&& evaluate.ensures((&snapshots[j], &sorted[j]), decisions[j])
                    }),
            decreases order.len() - i,
        {
            let item = &component_definitions[positions[order[i]]];
            assert(*item == sorted[i as int]);
            let ghost snapshot = *self;
            assert(decisions.take(i as int) =~= decisions);
            let passed = evaluate(&*self, item);
            let ghost new_decisions = decisions.push(passed);
            assert(sorted.take(i + 1).drop_last() =~= sorted.take(i as int));
            assert(new_decisions.drop_last() =~= decisions);
            assert(new_decisions.take(i + 1) =~= new_decisions);
            let ghost prev_enabled = enabled@;
            if passed {
                match self.definition_map.try_register_component(
                    item.target,
                    item.target_name.as_str(),
                    &item.metadata,
                    self.allow_definition_overriding,
                ) {
                    Ok(()) => {
                        enabled.push(item.target);
                    },
                    Err(e) => {
                        let ghost rest = (sorted.len() - i - 1) as nat;
                        let ghost full_decisions = new_decisions + Seq::new(rest, |_j: int| false);
                        let ghost full_snapshots = snapshots.push(snapshot) + Seq::new(rest, |_j: int| snapshot);
                        proof {
                            assert(full_decisions.take(i + 1) =~= new_decisions);
                            lemma_fold_components_error_persists(v0, sorted, full_decisions, allow, i + 1, sorted.len() as int);
                            assert(sorted.take(sorted.len() as int) =~= sorted);
                            assert(full_decisions.take(sorted.len() as int) =~= full_decisions);
                            assert forall|j: int|
                                0 <= j < sorted.len() implies (fold_components(v0, sorted.take(j), full_decisions.take(j), allow) matches Ok(w) ==> {
                                    &&& (#[trigger] full_snapshots[j])@ == w
                                    &&& full_snapshots[j].allows_overriding() == allow
                                    &&& evaluate.ensures((&full_snapshots[j], &sorted[j]), full_decisions[j])
                                }) by {
                                if j < i {
                                    assert(full_decisions.take(j) =~= decisions.take(j));
                                    assert(full_snapshots[j] == snapshots[j]);
                                    assert(full_decisions[j] == decisions[j]);
                                } else if j == i {
                                    assert(full_decisions.take(j) =~= decisions);
                                    assert(full_snapshots[j] == snapshot);
                                } else {
                                    lemma_fold_components_error_persists(v0, sorted, full_decisions, allow, i + 1, j);
                                }
                            }
                        }
                        return (Err(e), Ghost(full_decisions), Ghost(full_snapshots));
                    },
                }
            }
            proof {
                assert forall|t: u64| enabled@.to_set().contains(t) == selected_targets(sorted.take(i + 1), new_decisions).contains(t) by {
                    if enabled@.to_set().contains(t) {
                        if passed && t == sorted[i as int].target {
                            assert(sorted.take(i + 1)[i as int].target == t);
                        } else {
                            assert(prev_enabled.to_set().contains(t));
                            let j = choose|j: int| 0 <= j < i && decisions[j] && #[trigger] sorted.take(i as int)[j].target == t;
                            assert(sorted.take(i + 1)[j].target == t);
                        }
                    }
                    if selected_targets(sorted.take(i + 1), new_decisions).contains(t) {
                        let j = choose|j: int| 0 <= j < i + 1 && new_decisions[j] && #[trigger] sorted.take(i + 1)[j].target == t;
                        if j < i {
                            assert(sorted.take(i as int)[j].target == t);
                            assert(selected_targets(sorted.take(i as int), decisions).contains(t));
                        } else {
                            assert(enabled@.last() == t);
                        }
                    }
                }
                assert(enabled@.to_set() =~= selected_targets(sorted.take(i + 1), new_decisions));
                let old_snapshots = snapshots;
                let old_decisions = decisions;
                decisions = new_decisions;
                snapshots = snapshots.push(snapshot);
                assert forall|j: int|
                    0 <= j < i + 1 implies (fold_components(v0, sorted.take(j), decisions.take(j), allow) matches Ok(w) ==> {
                        &&& (#[trigger] snapshots[j])@ == w
                        &&& snapshots[j].allows_overriding() == allow
                        &&& evaluate.ensures((&snapshots[j], &sorted[j]), decisions[j])
                    }) by {
                    if j < i {
                        assert(decisions.take(j) =~= old_decisions.take(j));
                        assert(snapshots[j] == old_snapshots[j]);
                    } else {
                        assert(decisions.take(j) =~= old_decisions);
                    }
                }
            }
            i += 1;
        }
        assert(sorted.take(sorted.len() as int) =~= sorted);
        (Ok(enabled), Ghost(decisions), Ghost(snapshots))
    }

    /// Evaluates the conditions of the conditional alias definitions whose target is enabled,
    /// by priority, against the registry as it stands, registering each alias whose condition
    /// passes. Returns the decisions taken and the registries they were taken on.
    fn register_conditional_aliases<D, FA>(
        &mut self,
        alias_definitions: &Vec<ComponentAliasDefinition<K, D>>,
        enabled: &Vec<u64>,
        evaluate: &FA,
    ) -> (r: (Result<(), ComponentDefinitionRegistryError>, Ghost<Seq<bool>>, Ghost<Seq<Self>>))
        where
            FA: Fn(&StaticComponentDefinitionRegistry<C, K>, &ComponentAliasDefinition<K, D>) -> bool,
        requires
            forall|reg: &StaticComponentDefinitionRegistry<C, K>, a: &ComponentAliasDefinition<K, D>| evaluate.requires((reg, a)),
        ensures
            final(self).allows_overriding() == old(self).allows_overriding(),
            alias_decisions_consistent(
                *evaluate,
                old(self)@,
                aliases_by_priority(conditional_alias_candidates(alias_definitions@, enabled@.to_set())),
                r.1@,
                r.2@,
                old(self).allows_overriding(),
            ),
            match fold_aliases(old(self)@, aliases_by_priority(conditional_alias_candidates(alias_definitions@, enabled@.to_set())), r.1@) {
                Ok(v) => r.0 is Ok && final(self)@ == v,
                Err(e) => r.0 matches Err(err) && err@ == e,
            },
    {
        let ghost aliases = alias_definitions@;
        let ghost allow = self.allow_definition_overriding;
        let ghost v0 = self@;
        let positions = alias_candidate_positions(alias_definitions, enabled);
        let ghost cond = conditional_alias_candidates(aliases, enabled@.to_set());
        assert(cond.len() == positions@.len());
        let mut priorities: Vec<i8> = Vec::new();
        let mut k: usize = 0;
        while k < positions.len()
            invariant
                k <= positions.len(),
                aliases == alias_definitions@,
                cond == conditional_alias_candidates(aliases, enabled@.to_set()),
                positions@.map_values(|p: usize| aliases[p as int]) == cond,
                forall|j: int| 0 <= j < positions@.len() ==> #[trigger] positions@[j] < aliases.len(),
                priorities@.len() == k,
                forall|j: int| 0 <= j < k ==> priorities@[j] == (#[trigger] cond[j]).priority,
            decreases positions.len() - k,
        {
            assert(cond[k as int] == aliases[positions@[k as int] as int]);
            priorities.push(alias_definitions[positions[k]].priority);
            k += 1;
        }
        assert(priorities@ =~= cond.map_values(|a: ComponentAliasDefinition<K, D>| a.priority));
        let order = order_by_priority(&priorities);
        let ghost sorted = aliases_by_priority(cond);
        assert(sorted.len() == order@.len());
        let ghost mut decisions: Seq<bool> = Seq::empty();
        let ghost mut snapshots: Seq<Self> = Seq::empty();
        assert(sorted.take(0) =~= Seq::<ComponentAliasDefinition<K, D>>::empty());
        let mut i: usize = 0;
        while i < order.len()
            invariant
                i <= order.len(),
                aliases == alias_definitions@,
                cond == conditional_alias_candidates(aliases, enabled@.to_set()),
                positions@.map_values(|p: usize| aliases[p as int]) == cond,
                forall|j: int| 0 <= j < positions@.len() ==> #[trigger] positions@[j] < aliases.len(),
                priorities@.len() == positions@.len(),
                order@ == priority_order(priorities@),
                priorities@ == cond.map_values(|a: ComponentAliasDefinition<K, D>| a.priority),
                forall|j: int| 0 <= j < order@.len() ==> #[trigger] order@[j] < priorities@.len(),
                sorted == aliases_by_priority(cond),
                sorted.len() == order@.len(),
                allow == self.allow_definition_overriding,
                allow == old(self).allows_overriding(),
                v0 == old(self)@,
                decisions.len() == i,
                snapshots.len() == i,
                forall|reg: &StaticComponentDefinitionRegistry<C, K>, a: &ComponentAliasDefinition<K, D>| evaluate.requires((reg, a)),
                fold_aliases(v0, sorted.take(i as int), decisions) == Ok::<RegistryView<C, K>, RegistryErrorView>(self@),
                forall|j: int|
                    0 <= j < i ==> (fold_aliases(v0, sorted.take(j), decisions.take(j)) matches Ok(w) ==> {
                        &&& (#[trigger] snapshots[j])@ == w
                        &&& snapshots[j].allows_overriding() == allow
                        &&& evaluate.ensures((&snapshots[j], &sorted[j]), decisions[j])
                    }),
            decreases order.len() - i,
        {
            let item = &alias_definitions[positions[order[i]]];
            assert(*item == sorted[i as int]);
            let ghost snapshot = *self;
            assert(decisions.take(i as int) =~= decisions);
            let passed = evaluate(&*self, item);
            let ghost new_decisions = decisions.push(passed);
            assert(sorted.take(i + 1).drop_last() =~= sorted.take(i as int));
            assert(new_decisions.drop_last() =~= decisions);
            assert(new_decisions.take(i + 1) =~= new_decisions);
            if passed {
                match self.definition_map.try_register_alias(
                    item.alias_type,
                    item.target_type,
                    item.alias_name.as_str(),
                    item.target_name.as_str(),
                    &item.metadata,
                ) {
                    Ok(()) => {},
                    Err(e) => {
                        let ghost rest = (sorted.len() - i - 1) as nat;
                        let ghost full_decisions = new_decisions + Seq::new(rest, |_j: int| false);
                        let ghost full_snapshots = snapshots.push(snapshot) + Seq::new(rest, |_j: int| snapshot);
                        proof {
                            assert(full_decisions.take(i + 1) =~= new_decisions);
                            lemma_fold_aliases_error_persists(v0, sorted, full_decisions, i + 1, sorted.len() as int);
                            assert(sorted.take(sorted.len() as int) =~= sorted);
                            assert(full_decisions.take(sorted.len() as int) =~= full_decisions);
                            assert forall|j: int|
                                0 <= j < sorted.len() implies (fold_aliases(v0, sorted.take(j), full_decisions.take(j)) matches Ok(w) ==> {
                                    &&& (#[trigger] full_snapshots[j])@ == w
                                    &&& full_snapshots[j].allows_overriding() == allow
                                    &&& evaluate.ensures((&full_snapshots[j], &sorted[j]), full_decisions[j])
                                }) by {
                                if j < i {
                                    assert(full_decisions.take(j) =~= decisions.take(j));
                                    assert(full_snapshots[j] == snapshots[j]);
                                    assert(full_decisions[j] == decisions[j]);
                                } else if j == i {
                                    assert(full_decisions.take(j) =~= decisions);
                                    assert(full_snapshots[j] == snapshot);
                                } else {
                                    lemma_fold_aliases_error_persists(v0, sorted, full_decisions, i + 1, j);
                                }
                            }
                        }
                        return (Err(e), Ghost(full_decisions), Ghost(full_snapshots));
                    },
                }
            }
            proof {
                let old_snapshots = snapshots;
                let old_decisions = decisions;
                decisions = new_decisions;
                snapshots = snapshots.push(snapshot);
                assert forall|j: int|
                    0 <= j < i + 1 implies (fold_aliases(v0, sorted.take(j), decisions.take(j)) matches Ok(w) ==> {
                        &&& (#[trigger] snapshots[j])@ == w
                        &&& snapshots[j].allows_overriding() == allow
                        &&& evaluate.ensures((&snapshots[j], &sorted[j]), decisions[j])
                    }) by {
                    if j < i {
                        assert(decisions.take(j) =~= old_decisions.take(j));
                        assert(snapshots[j] == old_snapshots[j]);
                    } else {
                        assert(decisions.take(j) =~= old_decisions);
                    }
                }
            }
            i += 1;
        }
        assert(sorted.take(sorted.len() as int) =~= sorted);
        (Ok(()), Ghost(decisions), Ghost(snapshots))
    }

    /// Registers, in order, the alias definitions without a condition whose target is enabled.
    fn register_unconditional_aliases<D>(
        &mut self,
        alias_definitions: &Vec<ComponentAliasDefinition<K, D>>,
        enabled: &Vec<u64>,
    ) -> (r: Result<(), ComponentDefinitionRegistryError>)
        ensures
            final(self).allows_overriding() == old(self).allows_overriding(),
            match fold_aliases(old(self)@, alias_definitions@, unconditional_alias_mask(alias_definitions@, enabled@.to_set())) {
                Ok(v) => r is Ok && final(self)@ == v,
                Err(e) => r matches Err(err) && err@ == e,
            },
    {
        let ghost aliases = alias_definitions@;
        let ghost mask = unconditional_alias_mask(aliases, enabled@.to_set());
        let ghost v0 = self@;
        let mut i: usize = 0;
        while i < alias_definitions.len()
            invariant
                i <= alias_definitions.len(),
                aliases == alias_definitions@,
                mask == unconditional_alias_mask(aliases, enabled@.to_set()),
                self.allows_overriding() == old(self).allows_overriding(),
                v0 == old(self)@,
                fold_aliases(v0, aliases.take(i as int), mask.take(i as int)) == Ok::<RegistryView<C, K>, RegistryErrorView>(self@),
            decreases alias_definitions.len() - i,
        {
            let definition = &alias_definitions[i];
            assert(aliases.take(i + 1).drop_last() =~= aliases.take(i as int));
            assert(mask.take(i + 1).drop_last() =~= mask.take(i as int));
            if definition.condition.is_none() && contains_u64(enabled, definition.target_type) {
                match self.definition_map.try_register_alias(
                    definition.alias_type,
                    definition.target_type,
                    definition.alias_name.as_str(),
                    definition.target_name.as_str(),
                    &definition.metadata,
                ) {
                    Ok(()) => {},
                    Err(e) => {
                        proof {
                            lemma_fold_aliases_error_persists(v0, aliases, mask, i + 1, aliases.len() as int);
                            assert(aliases.take(aliases.len() as int) =~= aliases);
                            assert(mask.take(aliases.len() as int) =~= mask);
                        }
                        return Err(e);
                    },
                }
            }
            i += 1;
        }
        assert(aliases.take(aliases.len() as int) =~= aliases);
        assert(mask.take(aliases.len() as int) =~= mask);
        Ok(())
    }
}

/// A registry of component definitions which can be used when requesting instances.
pub trait ComponentDefinitionRegistry<C, K> {
    /// The registered definitions and names.
    spec fn registry_view(&self) -> RegistryView<C, K>;

    /// Adds a new definition for a given type. Handling of duplicate component names is
    /// registry-dependent. The name is used for reporting purposes.
    fn register_component(
        &mut self,
        target: u64,
        target_name: &str,
        metadata: &ComponentMetadata<C, K>,
    ) -> (r: Result<(), ComponentDefinitionRegistryError>);

    /// Adds an alias for a component of target type. Names are used for reporting purposes.
    fn register_alias(
        &mut self,
        alias_type: u64,
        target_type: u64,
        alias_name: &str,
        target_name: &str,
        metadata: &ComponentAliasMetadata<K>,
    ) -> (r: Result<(), ComponentDefinitionRegistryError>);

    /// Returns all registered definitions for a given type.
    fn components_by_type(&self, type_id: u64) -> (r: Vec<ComponentDefinition<C, K>>)
        ensures
            definition_views(r@) == definitions_of(self.registry_view(), type_id),
    ;

    /// Returns a definition with given name.
    fn component_by_name(&self, name: &str, type_id: u64) -> (r: Option<ComponentDefinition<C, K>>)
        ensures
            match r {
                Some(d) => find_named(definitions_of(self.registry_view(), type_id), name@) == Some(d@),
                None => find_named(definitions_of(self.registry_view(), type_id), name@) is None,
            },
    ;

    /// Returns primary component for a given type.
    fn primary_component(&self, type_id: u64) -> (r: Option<ComponentDefinition<C, K>>)
        ensures
            match r {
                Some(d) => primary_of(definitions_of(self.registry_view(), type_id)) == Some(d@),
                None => primary_of(definitions_of(self.registry_view(), type_id)) is None,
            },
    ;

    /// Checks if given type is present in this registry.
    fn is_registered(&self, type_id: u64) -> (r: bool)
        ensures
            r == type_registered(self.registry_view(), type_id),
    ;

    /// Checks if there's a definition with given name.
    fn is_name_registered(&self, name: &str) -> (r: bool)
        ensures
            r == crate::registry::registered_names(self.registry_view()).contains(name@),
    ;

    /// Returns a copy of the whole registry as a map.
    fn all_definitions(&self) -> (r: HashMap<u64, Vec<ComponentDefinition<C, K>>>)
        ensures
            r@.map_values(|v: Vec<ComponentDefinition<C, K>>| definition_views(v@)) == self.registry_view().definitions,
    ;
}

impl<C: Copy, K: Copy> ComponentDefinitionRegistry<C, K> for StaticComponentDefinitionRegistry<C, K> {
    open spec fn registry_view(&self) -> RegistryView<C, K> {
        self@
    }

    fn register_component(
        &mut self,
        target: u64,
        target_name: &str,
        metadata: &ComponentMetadata<C, K>,
    ) -> (r: Result<(), ComponentDefinitionRegistryError>)
        ensures
            final(self).allows_overriding() == old(self).allows_overriding(),
            match component_registration_error(old(self)@, target, target_name@, *metadata, old(self).allows_overriding()) {
                Some(e) => r matches Err(err) && err@ == e && final(self)@ == old(self)@,
                None => r is Ok && final(self)@ == with_component(old(self)@, target, target_name@, *metadata),
            },
            names_consistent(old(self)@) ==> names_consistent(final(self)@),
    {
        self.definition_map.try_register_component(target, target_name, metadata, self.allow_definition_overriding)
    }

    fn register_alias(
        &mut self,
        alias_type: u64,
        target_type: u64,
        alias_name: &str,
        target_name: &str,
        metadata: &ComponentAliasMetadata<K>,
    ) -> (r: Result<(), ComponentDefinitionRegistryError>)
        ensures
            final(self).allows_overriding() == old(self).allows_overriding(),
            match alias_registration_error(old(self)@, alias_type, target_type, alias_name@, target_name@, *metadata) {
                Some(e) => r matches Err(err) && err@ == e && final(self)@ == old(self)@,
                None => r is Ok && final(self)@ == with_alias(old(self)@, alias_type, target_type, *metadata),
            },
            names_consistent(old(self)@) ==> names_consistent(final(self)@),
    {
        self.definition_map.try_register_alias(alias_type, target_type, alias_name, target_name, metadata)
    }

    fn components_by_type(&self, type_id: u64) -> (r: Vec<ComponentDefinition<C, K>>) {
        self.definition_map.components_by_type(type_id)
    }

    fn component_by_name(&self, name: &str, type_id: u64) -> (r: Option<ComponentDefinition<C, K>>) {
        self.definition_map.component_by_name(name, type_id)
    }

    fn primary_component(&self, type_id: u64) -> (r: Option<ComponentDefinition<C, K>>) {
        self.definition_map.primary_component(type_id)
    }

    fn is_registered(&self, type_id: u64) -> (r: bool) {
        self.definition_map.is_registered(type_id)
    }

    fn is_name_registered(&self, name: &str) -> (r: bool) {
        self.definition_map.is_name_registered(name)
    }

    fn all_definitions(&self) -> (r: HashMap<u64, Vec<ComponentDefinition<C, K>>>) {
        self.definition_map.all_definitions()
    }
}

impl<C: Copy, K: Copy> ComponentDefinitionRegistryFacade for StaticComponentDefinitionRegistry<C, K> {
    open spec fn registered_types(&self) -> Set<u64> {
        Set::new(|t: u64| type_registered(self@, t))
    }

    open spec fn registered_names(&self) -> Set<Seq<char>> {
        crate::registry::registered_names(self@)
    }

    fn is_registered(&self, target: u64) -> (r: bool) {
        self.definition_map.is_registered(target)
    }

    fn is_name_registered(&self, name: &str) -> (r: bool) {
        self.definition_map.is_name_registered(name)
    }
}

} // verus!
