//! Typed access to component instances: casting type-erased instances to the requested type,
//! and turning missing instances into absent optional dependencies.

use vstd::prelude::*;

use crate::error::{ComponentInstanceProviderError, ProviderErrorView};

verus! {

/// Provider of component instances, referred to by their handles, each with the cast function
/// associated with the type under which its definition is registered.
pub trait ComponentInstanceProvider<K> {
    /// Tries to return a primary instance of a given type: the only one registered, or the one
    /// marked as primary.
    fn primary_instance(&mut self, type_id: u64) -> Result<(u64, K), ComponentInstanceProviderError>;

    /// Tries to return all instances of a given type.
    fn instances(&mut self, type_id: u64) -> Result<Vec<(u64, K)>, ComponentInstanceProviderError>;

    /// Tries to return an instance with the given name and type.
    fn instance_by_name(&mut self, name: &str, type_id: u64) -> Result<(u64, K), ComponentInstanceProviderError>;
}

/// Turns the result of casting a type-erased instance (`None` when the instance is not of the
/// requested type) into the typed instance, or an incompatible component error for the
/// requested type key.
pub fn cast_instance<T>(cast_result: Option<T>, type_id: u64) -> (r: Result<T, ComponentInstanceProviderError>)
    ensures
        match cast_result {
            Some(x) => r == Ok::<T, ComponentInstanceProviderError>(x),
            None => r matches Err(e) && e@ == ProviderErrorView::IncompatibleComponent(type_id),
        },
{
    match cast_result {
        Some(x) => Ok(x),
        None => Err(ComponentInstanceProviderError::IncompatibleComponent(type_id)),
    }
}

/// Turns the result of requesting a primary instance into an optional instance: a missing
/// primary instance becomes `None`, other errors stay errors.
pub fn primary_instance_option<T>(result: Result<T, ComponentInstanceProviderError>) -> (r: Result<Option<T>, ComponentInstanceProviderError>)
    ensures
        match result {
            Ok(x) => r == Ok::<Option<T>, ComponentInstanceProviderError>(Some(x)),
            Err(ComponentInstanceProviderError::NoPrimaryInstance(_)) => r == Ok::<Option<T>, ComponentInstanceProviderError>(None),
            Err(e) => r matches Err(f) && f@ == e@,
        },
{
    match result {
        Ok(x) => Ok(Some(x)),
        Err(ComponentInstanceProviderError::NoPrimaryInstance(_)) => Ok(None),
        Err(e) => Err(e),
    }
}

/// Turns the result of requesting a named instance into an optional instance: a missing
/// instance (no instance of that name, or no primary instance) becomes `None`, other errors
/// stay errors.
pub fn instance_by_name_option<T>(result: Result<T, ComponentInstanceProviderError>) -> (r: Result<Option<T>, ComponentInstanceProviderError>)
    ensures
        match result {
            Ok(x) => r == Ok::<Option<T>, ComponentInstanceProviderError>(Some(x)),
            Err(ComponentInstanceProviderError::NoPrimaryInstance(_)) => r == Ok::<Option<T>, ComponentInstanceProviderError>(None),
            Err(ComponentInstanceProviderError::NoNamedInstance(_)) => r == Ok::<Option<T>, ComponentInstanceProviderError>(None),
            Err(e) => r matches Err(f) && f@ == e@,
        },
{
    match result {
        Ok(x) => Ok(Some(x)),
        Err(ComponentInstanceProviderError::NoPrimaryInstance(_)) => Ok(None),
        Err(ComponentInstanceProviderError::NoNamedInstance(_)) => Ok(None),
        Err(e) => Err(e),
    }
}

/// Whether every cast succeeded.
pub open spec fn all_cast<T>(casts: Seq<Option<T>>) -> bool {
    forall|i: int| 0 <= i < casts.len() ==> (#[trigger] casts[i]) is Some
}

/// Collects the typed instances of all components of a type, in order; any instance which is
/// not of the requested type makes the whole request fail with an incompatible component error.
pub fn instances_typed<T>(casts: Vec<Option<T>>, type_id: u64) -> (r: Result<Vec<T>, ComponentInstanceProviderError>)
    ensures
        all_cast(casts@) ==> (r matches Ok(v) && v@.len() == casts@.len()
            && forall|i: int| 0 <= i < casts@.len() ==> casts@[i] == Some(#[trigger] v@[i])),
        !all_cast(casts@) ==> (r matches Err(e) && e@ == ProviderErrorView::IncompatibleComponent(type_id)),
{
    let ghost given = casts@;
    let mut pending = casts;
    let mut reversed: Vec<T> = Vec::new();
    while pending.len() > 0
        invariant
            given == casts@,
            pending@.len() + reversed@.len() == given.len(),
            forall|i: int| 0 <= i < pending@.len() ==> pending@[i] == given[i],
            forall|i: int| 0 <= i < reversed@.len() ==> given[given.len() - 1 - i] == Some(#[trigger] reversed@[i]),
        decreases pending@.len(),
    {
        match pending.pop() {
            Some(Some(x)) => {
                reversed.push(x);
            },
            _ => {
                proof {
                    assert(!(given[pending@.len() as int] is Some));
                    assert(!all_cast(given));
                }
                return Err(ComponentInstanceProviderError::IncompatibleComponent(type_id));
            },
        }
    }
    let ghost rev = reversed@;
    let mut result: Vec<T> = Vec::new();
    while reversed.len() > 0
        invariant
            given == casts@,
            reversed@.len() + result@.len() == given.len(),
            rev.len() == given.len(),
            forall|i: int| 0 <= i < reversed@.len() ==> reversed@[i] == rev[i],
            forall|i: int| 0 <= i < rev.len() ==> given[given.len() - 1 - i] == Some(#[trigger] rev[i]),
            forall|i: int| 0 <= i < result@.len() ==> given[i] == Some(#[trigger] result@[i]),
        decreases reversed@.len(),
    {
        let x = reversed.pop().unwrap();
        proof {
            assert(rev[reversed@.len() as int] == x);
            assert(given[given.len() - 1 - reversed@.len()] == Some(x));
        }
        result.push(x);
    }
    assert(all_cast(given)) by {
        assert forall|j: int| 0 <= j < given.len() implies (#[trigger] given[j]) is Some by {
            assert(given[given.len() - 1 - (given.len() - 1 - j)] == Some(rev[given.len() - 1 - j]));
        }
    }
    Ok(result)
}

} // verus!
