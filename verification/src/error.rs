//! Errors reported by component registries and instance providers.

use vstd::prelude::*;

verus! {

/// A type-erased error description, carried through the framework without inspection.
#[derive(Clone, Debug)]
pub struct ErrorPtr {
    pub message: String,
}

impl View for ErrorPtr {
    type V = Seq<char>;

    open spec fn view(&self) -> Seq<char> {
        self.message@
    }
}

impl ErrorPtr {
    /// Wraps an error message.
    pub fn new(message: String) -> (r: ErrorPtr)
        ensures
            r@ == message@,
    {
        ErrorPtr { message }
    }

    /// Returns an identical copy of this error.
    pub fn duplicate(&self) -> (r: ErrorPtr)
        ensures
            r@ == self@,
    {
        ErrorPtr { message: self.message.clone() }
    }
}

/// The outcomes of steps run one after another, stopping at the first error, out of `total`
/// steps: every outcome but the last is a success, and fewer than `total` steps ran only if the
/// last one failed.
pub open spec fn stopped_at_first_error<T>(outcomes: Seq<Result<T, ErrorPtr>>, total: nat) -> bool {
    &&& outcomes.len() <= total
    &&& forall|j: int| 0 <= j < outcomes.len() - 1 ==> #[trigger] outcomes[j] is Ok
    &&& outcomes.len() < total ==> outcomes.len() > 0 && outcomes.last() is Err
}

/// What a run of steps ends with: the error of its last step, if that one failed, or success.
pub open spec fn steps_result(outcomes: Seq<Result<(), ErrorPtr>>) -> Result<(), ErrorPtr> {
    if outcomes.len() > 0 && outcomes.last() is Err {
        Err(outcomes.last()->Err_0)
    } else {
        Ok(())
    }
}

/// Errors related to creating and managing components. Component types are identified by
/// numeric type keys.
#[derive(Clone, Debug)]
pub enum ComponentInstanceProviderError {
    /// Primary instance of a given component is not specified, if many components exist for a
    /// given type, or no component is registered at all.
    NoPrimaryInstance(u64),
    /// Tried to cast one type to another, incompatible one.
    IncompatibleComponent(u64),
    /// Cannot find component with given name.
    NoNamedInstance(String),
    /// Component registered for an unknown scope.
    UnrecognizedScope(String),
    /// Found a cycle when creating given type.
    DependencyCycle(u64),
    /// Custom constructor returned an error.
    ConstructorError(ErrorPtr),
}

/// Abstract value of a [ComponentInstanceProviderError].
pub enum ProviderErrorView {
    NoPrimaryInstance(u64),
    IncompatibleComponent(u64),
    NoNamedInstance(Seq<char>),
    UnrecognizedScope(Seq<char>),
    DependencyCycle(u64),
    ConstructorError(Seq<char>),
}

impl View for ComponentInstanceProviderError {
    type V = ProviderErrorView;

    open spec fn view(&self) -> ProviderErrorView {
        match self {
            ComponentInstanceProviderError::NoPrimaryInstance(t) => ProviderErrorView::NoPrimaryInstance(*t),
            ComponentInstanceProviderError::IncompatibleComponent(t) => ProviderErrorView::IncompatibleComponent(*t),
            ComponentInstanceProviderError::NoNamedInstance(n) => ProviderErrorView::NoNamedInstance(n@),
            ComponentInstanceProviderError::UnrecognizedScope(s) => ProviderErrorView::UnrecognizedScope(s@),
            ComponentInstanceProviderError::DependencyCycle(t) => ProviderErrorView::DependencyCycle(*t),
            ComponentInstanceProviderError::ConstructorError(e) => ProviderErrorView::ConstructorError(e@),
        }
    }
}

impl ComponentInstanceProviderError {
    /// Returns an identical copy of this error.
    pub fn duplicate(&self) -> (r: ComponentInstanceProviderError)
        ensures
            r@ == self@,
    {
        match self {
            ComponentInstanceProviderError::NoPrimaryInstance(t) => ComponentInstanceProviderError::NoPrimaryInstance(*t),
            ComponentInstanceProviderError::IncompatibleComponent(t) => ComponentInstanceProviderError::IncompatibleComponent(*t),
            ComponentInstanceProviderError::NoNamedInstance(n) => ComponentInstanceProviderError::NoNamedInstance(n.clone()),
            ComponentInstanceProviderError::UnrecognizedScope(s) => ComponentInstanceProviderError::UnrecognizedScope(s.clone()),
            ComponentInstanceProviderError::DependencyCycle(t) => ComponentInstanceProviderError::DependencyCycle(*t),
            ComponentInstanceProviderError::ConstructorError(e) => ComponentInstanceProviderError::ConstructorError(e.duplicate()),
        }
    }
}

/// Error related to component registries. Type names are carried for reporting purposes.
#[derive(Clone, Debug)]
pub enum ComponentDefinitionRegistryError {
    DuplicateComponentName(String),
    DuplicateComponentType(String),
    MissingBaseComponent { alias_type: String, target_type: String },
    DuplicatePrimaryComponent { alias_type: String, target_type: String },
}

/// Abstract value of a [ComponentDefinitionRegistryError].
pub enum RegistryErrorView {
    DuplicateComponentName(Seq<char>),
    DuplicateComponentType(Seq<char>),
    MissingBaseComponent { alias_type: Seq<char>, target_type: Seq<char> },
    DuplicatePrimaryComponent { alias_type: Seq<char>, target_type: Seq<char> },
}

impl View for ComponentDefinitionRegistryError {
    type V = RegistryErrorView;

    open spec fn view(&self) -> RegistryErrorView {
        match self {
            ComponentDefinitionRegistryError::DuplicateComponentName(n) => RegistryErrorView::DuplicateComponentName(n@),
            ComponentDefinitionRegistryError::DuplicateComponentType(n) => RegistryErrorView::DuplicateComponentType(n@),
            ComponentDefinitionRegistryError::MissingBaseComponent { alias_type, target_type } =>
                RegistryErrorView::MissingBaseComponent { alias_type: alias_type@, target_type: target_type@ },
            ComponentDefinitionRegistryError::DuplicatePrimaryComponent { alias_type, target_type } =>
                RegistryErrorView::DuplicatePrimaryComponent { alias_type: alias_type@, target_type: target_type@ },
        }
    }
}

} // verus!
