//! How a component is derived from its declaration: which instance request fills each field and
//! each constructor parameter, and how the items of the `component` attributes combine into
//! the component's registration. Declarations are given by the shapes of their types and the
//! items of their attributes.

use vstd::prelude::*;

use crate::attributes::{generate_names, literal_names, literal_values, parameter_of, parse_constructor_parameters, snake_case, split_all, ConstructorParameter};
use crate::registry::string_views;
use crate::scope::SINGLETON;

verus! {

/// The shape of a type, as far as deriving a component reads it; each shape carries the type's
/// text.
pub enum TypeShape {
    /// A path type, by the name of its last segment and that segment's angle-bracketed
    /// arguments (none when it has no angle brackets).
    Path { text: String, segment: String, args: Vec<GenericArgShape> },
    /// A trait object type.
    TraitObject { text: String },
    /// Any other type.
    Other { text: String },
}

/// A generic argument: a type, or anything else (a lifetime, a constant, ...).
pub enum GenericArgShape {
    Type(TypeShape),
    Other { text: String },
}

/// The text of a type.
pub open spec fn type_text(ty: TypeShape) -> Seq<char> {
    match ty {
        TypeShape::Path { text, .. } => text@,
        TypeShape::TraitObject { text } => text@,
        TypeShape::Other { text } => text@,
    }
}

/// The text of a generic argument.
pub open spec fn arg_text(arg: GenericArgShape) -> Seq<char> {
    match arg {
        GenericArgShape::Type(ty) => type_text(ty),
        GenericArgShape::Other { text } => text@,
    }
}

/// The name of the pointer type instances are injected in.
pub open spec fn instance_ptr_name() -> Seq<char> {
    seq!['C', 'o', 'm', 'p', 'o', 'n', 'e', 'n', 't', 'I', 'n', 's', 't', 'a', 'n', 'c', 'e', 'P', 't', 'r']
}

/// The type wrapped in `wrapper<..>`: its single generic argument; when a pointer is required,
/// the type pointed to by that argument, which must be an instance pointer type.
pub open spec fn wrapped_type(ty: TypeShape, wrapper: Seq<char>, require_ptr: bool) -> Option<Seq<char>> {
    match ty {
        TypeShape::Path { segment, args, .. } => if segment@ != wrapper || args@.len() != 1 {
            None
        } else if !require_ptr {
            Some(arg_text(args@[0]))
        } else {
            match args@[0] {
                GenericArgShape::Type(TypeShape::Path { segment: inner, args: inner_args, .. }) => {
                    if inner@ == instance_ptr_name() && inner_args@.len() > 0 && inner_args@[0] is Type {
                        Some(arg_text(inner_args@[0]))
                    } else {
                        None
                    }
                },
                _ => None,
            }
        },
        _ => None,
    }
}

/// Checks whether a string holds the name of the instance pointer type.
fn is_instance_ptr_name(s: &String) -> (r: bool)
    ensures
        r == (s@ == instance_ptr_name()),
{
    let name = "ComponentInstancePtr".to_string();
    proof {
        reveal_strlit("ComponentInstancePtr");
        assert("ComponentInstancePtr"@ =~= instance_ptr_name());
    }
    *s == name
}

/// Copies the text of a type.
fn copy_type_text(ty: &TypeShape) -> (r: String)
    ensures
        r@ == type_text(*ty),
{
    match ty {
        TypeShape::Path { text, .. } => text.clone(),
        TypeShape::TraitObject { text } => text.clone(),
        TypeShape::Other { text } => text.clone(),
    }
}

/// Copies the text of a generic argument.
fn copy_arg_text(arg: &GenericArgShape) -> (r: String)
    ensures
        r@ == arg_text(*arg),
{
    match arg {
        GenericArgShape::Type(ty) => copy_type_text(ty),
        GenericArgShape::Other { text } => text.clone(),
    }
}

/// Extracts the type wrapped in `wrapper<..>`; when a pointer is required, the type pointed to
/// by the single argument, which must be an instance pointer type.
pub fn get_wrapped_type(ty: &TypeShape, expected_wrapper: &str, require_ptr: bool) -> (r: Option<String>)
    ensures
        match wrapped_type(*ty, expected_wrapper@, require_ptr) {
            Some(t) => r matches Some(s) && s@ == t,
            None => r is None,
        },
{
    match ty {
        TypeShape::Path { segment, args, .. } => {
            let wrapper = expected_wrapper.to_string();
            if !(*segment == wrapper) || args.len() != 1 {
                return None;
            }
            if !require_ptr {
                return Some(copy_arg_text(&args[0]));
            }
            match &args[0] {
                GenericArgShape::Type(TypeShape::Path { segment: inner, args: inner_args, .. }) => {
                    if is_instance_ptr_name(inner) && inner_args.len() > 0 {
                        match &inner_args[0] {
                            GenericArgShape::Type(_) => Some(copy_arg_text(&inner_args[0])),
                            GenericArgShape::Other { .. } => None,
                        }
                    } else {
                        None
                    }
                },
                _ => None,
            }
        },
        _ => None,
    }
}

/// The type requested for an injected instance.
pub enum RequestedType {
    /// Exactly the given type.
    Exactly(String),
    /// The type the given pointer type dereferences to.
    DerefTarget(String),
}

/// What the requested type of a plain injected field is: the trait object inside an instance
/// pointer to one, or otherwise the type the field's pointer type dereferences to.
pub open spec fn injected_type(ty: TypeShape) -> (Seq<char>, bool) {
    match ty {
        TypeShape::Path { segment, args, .. } => {
            if segment@ == instance_ptr_name() && args@.len() > 0 && args@[0] matches GenericArgShape::Type(
                TypeShape::TraitObject { .. },
            ) {
                (arg_text(args@[0]), true)
            } else {
                (type_text(ty), false)
            }
        },
        _ => (type_text(ty), false),
    }
}

/// Whether a requested type is the one described by `(text, exact)`.
pub open spec fn requested_is(r: RequestedType, expected: (Seq<char>, bool)) -> bool {
    match r {
        RequestedType::Exactly(s) => expected.1 && s@ == expected.0,
        RequestedType::DerefTarget(s) => !expected.1 && s@ == expected.0,
    }
}

/// Determines the type requested for a plain injected field.
pub fn get_injected_type(ty: &TypeShape) -> (r: RequestedType)
    ensures
        requested_is(r, injected_type(*ty)),
{
    match ty {
        TypeShape::Path { segment, args, .. } => {
            if is_instance_ptr_name(segment) && args.len() > 0 {
                match &args[0] {
                    GenericArgShape::Type(TypeShape::TraitObject { text }) => {
                        return RequestedType::Exactly(text.clone());
                    },
                    _ => {},
                }
            }
            RequestedType::DerefTarget(copy_type_text(ty))
        },
        _ => RequestedType::DerefTarget(copy_type_text(ty)),
    }
}

/// The instance provider call that fills an injected value.
#[derive(Clone, Copy, Debug, PartialEq, Eq, Structural)]
pub enum Getter {
    PrimaryInstanceTyped,
    PrimaryInstanceOption,
    InstancesTyped,
    InstanceByNameTyped,
    InstanceByNameOption,
}

/// A request for an injected value: the call, the requested type and the instance name.
pub struct InstanceRequest {
    pub getter: Getter,
    pub ty: RequestedType,
    pub name: Option<String>,
}

/// Whether `r` is the request for a field of type `ty`, injected under `name` if given: an
/// optional instance pointer asks for an optional instance, a list of instance pointers for all
/// instances, anything else for the (named) instance itself.
pub open spec fn field_request(ty: TypeShape, name: Option<Seq<char>>, r: InstanceRequest) -> bool {
    let option = seq!['O', 'p', 't', 'i', 'o', 'n'];
    let vec = seq!['V', 'e', 'c'];
    &&& match (r.name, name) {
        (Some(a), Some(b)) => a@ == b,
        (None, None) => true,
        _ => false,
    }
    &&& if wrapped_type(ty, option, true) is Some {
        &&& r.getter == (if name is Some { Getter::InstanceByNameOption } else { Getter::PrimaryInstanceOption })
        &&& requested_is(r.ty, (wrapped_type(ty, option, true).unwrap(), true))
    } else if wrapped_type(ty, vec, true) is Some {
        &&& r.getter == Getter::InstancesTyped
        &&& requested_is(r.ty, (wrapped_type(ty, vec, true).unwrap(), true))
    } else {
        &&& r.getter == (if name is Some { Getter::InstanceByNameTyped } else { Getter::PrimaryInstanceTyped })
        &&& requested_is(r.ty, injected_type(ty))
    }
}

/// Copies an optional name.
fn copy_name(name: &Option<String>) -> (r: Option<String>)
    ensures
        match (r, *name) {
            (Some(a), Some(b)) => a@ == b@,
            (None, None) => true,
            _ => false,
        },
{
    match name {
        Some(n) => Some(n.clone()),
        None => None,
    }
}

/// The view of an optional name.
pub open spec fn name_view(name: Option<String>) -> Option<Seq<char>> {
    match name {
        Some(n) => Some(n@),
        None => None,
    }
}

/// Decides how a field of the given type is injected, under the given instance name if any.
pub fn get_instance(ty: &TypeShape, name: &Option<String>) -> (r: InstanceRequest)
    ensures
        field_request(*ty, name_view(*name), r),
{
    proof {
        reveal_strlit("Option");
        reveal_strlit("Vec");
        assert("Option"@ =~= seq!['O', 'p', 't', 'i', 'o', 'n']);
        assert("Vec"@ =~= seq!['V', 'e', 'c']);
    }
    let named = name.is_some();
    match get_wrapped_type(ty, "Option", true) {
        Some(inner) => {
            return InstanceRequest {
                getter: if named { Getter::InstanceByNameOption } else { Getter::PrimaryInstanceOption },
                ty: RequestedType::Exactly(inner),
                name: copy_name(name),
            };
        },
        None => {},
    }
    match get_wrapped_type(ty, "Vec", true) {
        Some(inner) => {
            return InstanceRequest { getter: Getter::InstancesTyped, ty: RequestedType::Exactly(inner), name: copy_name(name) };
        },
        None => {},
    }
    InstanceRequest {
        getter: if named { Getter::InstanceByNameTyped } else { Getter::PrimaryInstanceTyped },
        ty: get_injected_type(ty),
        name: copy_name(name),
    }
}

/// Whether `r` is the request for a constructor parameter of type `ty`, named `name` if given:
/// a named parameter asks for the named (optional) instance; otherwise a list asks for all
/// instances, an option for an optional instance, and anything else for the instance itself.
/// The requested types are taken as written.
pub open spec fn parameter_request(ty: TypeShape, name: Option<Seq<char>>, r: InstanceRequest) -> bool {
    let option = seq!['O', 'p', 't', 'i', 'o', 'n'];
    let vec = seq!['V', 'e', 'c'];
    &&& match (r.name, name) {
        (Some(a), Some(b)) => a@ == b,
        (None, None) => true,
        _ => false,
    }
    &&& if name is Some {
        if wrapped_type(ty, option, false) is Some {
            &&& r.getter == Getter::InstanceByNameOption
            &&& requested_is(r.ty, (wrapped_type(ty, option, false).unwrap(), true))
        } else {
            &&& r.getter == Getter::InstanceByNameTyped
            &&& requested_is(r.ty, (type_text(ty), true))
        }
    } else if wrapped_type(ty, vec, false) is Some {
        &&& r.getter == Getter::InstancesTyped
        &&& requested_is(r.ty, (wrapped_type(ty, vec, false).unwrap(), true))
    } else if wrapped_type(ty, option, false) is Some {
        &&& r.getter == Getter::PrimaryInstanceOption
        &&& requested_is(r.ty, (wrapped_type(ty, option, false).unwrap(), true))
    } else {
        &&& r.getter == Getter::PrimaryInstanceTyped
        &&& requested_is(r.ty, (type_text(ty), true))
    }
}

/// Decides how a constructor parameter of the given type, named if given, is requested.
pub fn constructor_parameter_request(ty: &TypeShape, name: &Option<String>) -> (r: InstanceRequest)
    ensures
        parameter_request(*ty, name_view(*name), r),
{
    proof {
        reveal_strlit("Option");
        reveal_strlit("Vec");
        assert("Option"@ =~= seq!['O', 'p', 't', 'i', 'o', 'n']);
        assert("Vec"@ =~= seq!['V', 'e', 'c']);
    }
    if name.is_some() {
        return match get_wrapped_type(ty, "Option", false) {
            Some(inner) => InstanceRequest {
                getter: Getter::InstanceByNameOption,
                ty: RequestedType::Exactly(inner),
                name: copy_name(name),
            },
            None => InstanceRequest {
                getter: Getter::InstanceByNameTyped,
                ty: RequestedType::Exactly(copy_type_text(ty)),
                name: copy_name(name),
            },
        };
    }
    match get_wrapped_type(ty, "Vec", false) {
        Some(inner) => {
            return InstanceRequest { getter: Getter::InstancesTyped, ty: RequestedType::Exactly(inner), name: None };
        },
        None => {},
    }
    match get_wrapped_type(ty, "Option", false) {
        Some(inner) => InstanceRequest { getter: Getter::PrimaryInstanceOption, ty: RequestedType::Exactly(inner), name: None },
        None => InstanceRequest {
            getter: Getter::PrimaryInstanceTyped,
            ty: RequestedType::Exactly(copy_type_text(ty)),
            name: None,
        },
    }
}

/// An item of a field's `component` attribute.
pub enum FieldAttributeItem {
    /// `default`: the field takes its type's default value.
    Default,
    /// `default = "path"`: the field takes the value of the function at the path.
    DefaultExpr(String),
    /// `name = "name"`: the field is injected with the instance of that name.
    Name(String),
    /// `ignore`: the field is no constructor argument.
    Ignore,
    /// Any other item, which has no effect.
    Unknown,
}

/// How a field without injection is filled.
pub enum DefaultDefinition {
    /// The type's default value.
    Default,
    /// The value of the function at the given path.
    Expr(String),
}

/// The settings of a field's `component` attribute.
pub struct FieldAttributes {
    pub default: Option<DefaultDefinition>,
    pub name: Option<String>,
    pub ignore: bool,
}

/// The abstract value of the settings of a field's attribute: the default (`None` for none,
/// `Some(None)` for the type's default, `Some(Some(path))` for a function), the name and the
/// ignore marker.
pub struct FieldSettings {
    pub default: Option<Option<Seq<char>>>,
    pub name: Option<Seq<char>>,
    pub ignore: bool,
}

/// Errors in the items of `component` attributes.
#[derive(Clone, Copy, Debug, PartialEq, Eq, Structural)]
pub enum AttributeError {
    /// A default value is given for a field injected by name.
    DefaultForNamedInstance,
    /// A name is given for a field with a default value.
    NameForDefaultValue,
    /// The names are given twice.
    DuplicateNames,
    /// The condition is given twice.
    DuplicateCondition,
    /// The constructor is given twice.
    DuplicateConstructor,
    /// The scope is given twice.
    DuplicateScope,
    /// The constructor parameters are given twice.
    DuplicateConstructorParameters,
    /// An alias attribute holds an item it does not know.
    UnknownAliasItem,
    /// A value of the right kind of literal does not parse: an integer out of the priority
    /// range, or a string that is no path.
    UnparsableValue,
}

/// The settings of a field's attribute after its items, in order: a default after a name, or a
/// name after a default, is an error; a later default or name replaces an earlier one.
pub open spec fn field_settings(items: Seq<FieldAttributeItem>) -> Result<FieldSettings, AttributeError>
    decreases items.len(),
{
    if items.len() == 0 {
        Ok(FieldSettings { default: None, name: None, ignore: false })
    } else {
        match field_settings(items.drop_last()) {
            Err(e) => Err(e),
            Ok(s) => match items.last() {
                FieldAttributeItem::Default => if s.name is Some {
                    Err(AttributeError::DefaultForNamedInstance)
                } else {
                    Ok(FieldSettings { default: Some(None), ..s })
                },
                FieldAttributeItem::DefaultExpr(path) => if s.name is Some {
                    Err(AttributeError::DefaultForNamedInstance)
                } else {
                    Ok(FieldSettings { default: Some(Some(path@)), ..s })
                },
                FieldAttributeItem::Name(n) => if s.default is Some {
                    Err(AttributeError::NameForDefaultValue)
                } else {
                    Ok(FieldSettings { name: Some(n@), ..s })
                },
                FieldAttributeItem::Ignore => Ok(FieldSettings { ignore: true, ..s }),
                FieldAttributeItem::Unknown => Ok(s),
            },
        }
    }
}

/// The abstract value of field settings.
pub open spec fn settings_of(a: FieldAttributes) -> FieldSettings {
    FieldSettings {
        default: match a.default {
            None => None,
            Some(DefaultDefinition::Default) => Some(None),
            Some(DefaultDefinition::Expr(p)) => Some(Some(p@)),
        },
        name: name_view(a.name),
        ignore: a.ignore,
    }
}

/// Combines the items of a field's `component` attribute into its settings.
pub fn field_attributes(items: &Vec<FieldAttributeItem>) -> (r: Result<FieldAttributes, AttributeError>)
    ensures
        match field_settings(items@) {
            Ok(s) => r matches Ok(a) && settings_of(a) == s,
            Err(e) => r == Err::<FieldAttributes, AttributeError>(e),
        },
{
    let mut default: Option<DefaultDefinition> = None;
    let mut name: Option<String> = None;
    let mut ignore = false;
    let mut i: usize = 0;
    while i < items.len()
        invariant
            i <= items.len(),
            field_settings(items@.take(i as int)) == Ok::<FieldSettings, AttributeError>(
                settings_of(FieldAttributes { default, name, ignore }),
            ),
        decreases items.len() - i,
    {
        assert(items@.take(i + 1).drop_last() =~= items@.take(i as int));
        match &items[i] {
            FieldAttributeItem::Default => {
                if name.is_some() {
                    assert(items@.take(items@.len() as int) =~= items@);
                    proof {
                        lemma_field_settings_error_persists(items@, i + 1, items@.len() as int);
                    }
                    return Err(AttributeError::DefaultForNamedInstance);
                }
                default = Some(DefaultDefinition::Default);
            },
            FieldAttributeItem::DefaultExpr(path) => {
                if name.is_some() {
                    assert(items@.take(items@.len() as int) =~= items@);
                    proof {
                        lemma_field_settings_error_persists(items@, i + 1, items@.len() as int);
                    }
                    return Err(AttributeError::DefaultForNamedInstance);
                }
                default = Some(DefaultDefinition::Expr(path.clone()));
            },
            FieldAttributeItem::Name(n) => {
                if default.is_some() {
                    assert(items@.take(items@.len() as int) =~= items@);
                    proof {
                        lemma_field_settings_error_persists(items@, i + 1, items@.len() as int);
                    }
                    return Err(AttributeError::NameForDefaultValue);
                }
                name = Some(n.clone());
            },
            FieldAttributeItem::Ignore => {
                ignore = true;
            },
            FieldAttributeItem::Unknown => {},
        }
        i += 1;
    }
    assert(items@.take(items@.len() as int) =~= items@);
    Ok(FieldAttributes { default, name, ignore })
}

proof fn lemma_field_settings_error_persists(items: Seq<FieldAttributeItem>, i: int, k: int)
    requires
        0 <= i <= k <= items.len(),
        field_settings(items.take(i)) is Err,
    ensures
        field_settings(items.take(k)) == field_settings(items.take(i)),
    decreases k - i,
{
    if k > i {
        lemma_field_settings_error_persists(items, i, k - 1);
        assert(items.take(k).drop_last() =~= items.take(k - 1));
    }
}

/// A field of a component declaration: its type, and the items of its first `component`
/// attribute, if it has one.
pub struct FieldDeclaration {
    pub ty: TypeShape,
    pub attribute: Option<Vec<FieldAttributeItem>>,
}

/// How a field of a component is filled.
pub enum FieldInit {
    /// With its type's default value.
    DefaultValue,
    /// With the value of the function at the given path.
    DefaultExpr(String),
    /// With an instance requested from the instance provider.
    Inject(InstanceRequest),
}

/// Whether `init` fills a field with the given type and settings: a default value, the value of
/// a default function, or else the instance requested under the field's name, if any.
pub open spec fn init_for(ty: TypeShape, s: FieldSettings, init: FieldInit) -> bool {
    match s.default {
        Some(Some(p)) => init matches FieldInit::DefaultExpr(q) && q@ == p,
        Some(None) => init is DefaultValue,
        None => init matches FieldInit::Inject(req) && field_request(ty, s.name, req),
    }
}

/// What filling a field gives: a field without attribute is injected by type; otherwise its
/// attribute's settings decide, and an error in them is the result.
pub open spec fn field_construction(field: FieldDeclaration) -> Result<FieldSettings, AttributeError> {
    match field.attribute {
        None => Ok(FieldSettings { default: None, name: None, ignore: false }),
        Some(items) => field_settings(items@),
    }
}

/// Decides how a field is filled.
pub fn generate_field_construction(field: &FieldDeclaration) -> (r: Result<FieldInit, AttributeError>)
    ensures
        match field_construction(*field) {
            Ok(s) => r matches Ok(init) && init_for(field.ty, s, init),
            Err(e) => r == Err::<FieldInit, AttributeError>(e),
        },
{
    match &field.attribute {
        None => Ok(FieldInit::Inject(get_instance(&field.ty, &None))),
        Some(items) => {
            let attributes = match field_attributes(items) {
                Ok(a) => a,
                Err(e) => {
                    return Err(e);
                },
            };
            match attributes.default {
                Some(DefaultDefinition::Expr(path)) => Ok(FieldInit::DefaultExpr(path)),
                Some(DefaultDefinition::Default) => Ok(FieldInit::DefaultValue),
                None => Ok(FieldInit::Inject(get_instance(&field.ty, &attributes.name))),
            }
        },
    }
}

/// Whether `init` fills the field as its settings decide (false for a field whose attribute is
/// in error).
pub open spec fn fills(field: FieldDeclaration, init: FieldInit) -> bool {
    match field_construction(field) {
        Ok(s) => init_for(field.ty, s, init),
        Err(_) => false,
    }
}

/// The first error met filling fields in order.
pub open spec fn first_field_error(fields: Seq<FieldDeclaration>) -> Option<AttributeError>
    decreases fields.len(),
{
    if fields.len() == 0 {
        None
    } else {
        match first_field_error(fields.drop_last()) {
            Some(e) => Some(e),
            None => match field_construction(fields.last()) {
                Err(e) => Some(e),
                Ok(_) => None,
            },
        }
    }
}

proof fn lemma_first_field_error_prefix(fields: Seq<FieldDeclaration>, i: int)
    requires
        0 <= i <= fields.len(),
        first_field_error(fields) is None,
    ensures
        first_field_error(fields.take(i)) is None,
        forall|j: int| 0 <= j < i ==> (#[trigger] field_construction(fields[j])) is Ok,
    decreases fields.len() - i,
{
    if i < fields.len() {
        lemma_first_field_error_prefix(fields, i + 1);
        assert(fields.take(i + 1).drop_last() =~= fields.take(i));
        assert(fields.take(i + 1)[i] == fields[i]);
    } else {
        assert(fields.take(i) =~= fields);
        lemma_first_field_error_all(fields);
    }
}

proof fn lemma_first_field_error_all(fields: Seq<FieldDeclaration>)
    requires
        first_field_error(fields) is None,
    ensures
        forall|j: int| 0 <= j < fields.len() ==> (#[trigger] field_construction(fields[j])) is Ok,
    decreases fields.len(),
{
    if fields.len() > 0 {
        lemma_first_field_error_all(fields.drop_last());
        assert forall|j: int| 0 <= j < fields.len() implies (#[trigger] field_construction(fields[j])) is Ok by {
            if j < fields.len() - 1 {
                assert(fields.drop_last()[j] == fields[j]);
            }
        }
    }
}

proof fn lemma_first_field_error_step(fields: Seq<FieldDeclaration>, i: int)
    requires
        0 <= i < fields.len(),
        first_field_error(fields.take(i)) is None,
    ensures
        first_field_error(fields.take(i + 1)) == match field_construction(fields[i]) {
            Err(e) => Some(e),
            Ok(_) => None::<AttributeError>,
        },
{
    assert(fields.take(i + 1).drop_last() =~= fields.take(i));
}

proof fn lemma_first_field_error_persists(fields: Seq<FieldDeclaration>, i: int, k: int)
    requires
        0 <= i <= k <= fields.len(),
        first_field_error(fields.take(i)) is Some,
    ensures
        first_field_error(fields.take(k)) == first_field_error(fields.take(i)),
    decreases k - i,
{
    if k > i {
        lemma_first_field_error_persists(fields, i, k - 1);
        assert(fields.take(k).drop_last() =~= fields.take(k - 1));
    }
}

/// Decides how each field of a component built as a struct is filled, in order; the first
/// error in a field attribute is the result.
pub fn generate_field_constructions(fields: &Vec<FieldDeclaration>) -> (r: Result<Vec<FieldInit>, AttributeError>)
    ensures
        match first_field_error(fields@) {
            Some(e) => r == Err::<Vec<FieldInit>, AttributeError>(e),
            None => r matches Ok(inits) && inits@.len() == fields@.len() && forall|j: int| 0 <= j < fields@.len()
                ==> fills(fields@[j], #[trigger] inits@[j]),
        },
{
    let mut inits: Vec<FieldInit> = Vec::new();
    let mut i: usize = 0;
    while i < fields.len()
        invariant
            i <= fields.len(),
            inits@.len() == i,
            first_field_error(fields@.take(i as int)) is None,
            forall|j: int| 0 <= j < i ==> fills(fields@[j], #[trigger] inits@[j]),
        decreases fields.len() - i,
    {
        proof {
            lemma_first_field_error_step(fields@, i as int);
        }
        match generate_field_construction(&fields[i]) {
            Ok(init) => {
                inits.push(init);
            },
            Err(e) => {
                proof {
                    lemma_first_field_error_persists(fields@, i + 1, fields@.len() as int);
                    assert(fields@.take(fields@.len() as int) =~= fields@);
                }
                return Err(e);
            },
        }
        i += 1;
    }
    assert(fields@.take(fields@.len() as int) =~= fields@);
    Ok(inits)
}

/// Whether a field is passed to a custom constructor: unless its attribute marks it ignored.
pub open spec fn passed_to_constructor(field: FieldDeclaration) -> bool {
    match field_construction(field) {
        Ok(s) => !s.ignore,
        Err(_) => true,
    }
}

/// The fields passed to a custom constructor, in order.
pub open spec fn constructor_fields(fields: Seq<FieldDeclaration>) -> Seq<FieldDeclaration>
    decreases fields.len(),
{
    if fields.len() == 0 {
        Seq::empty()
    } else if passed_to_constructor(fields.last()) {
        constructor_fields(fields.drop_last()).push(fields.last())
    } else {
        constructor_fields(fields.drop_last())
    }
}

/// Decides the arguments a custom constructor is called with from the component's fields: each
/// field not marked ignored, filled as a struct field would be, in order; the first error in a
/// field attribute is the result.
pub fn generate_constructor_call_arguments(fields: &Vec<FieldDeclaration>) -> (r: Result<Vec<FieldInit>, AttributeError>)
    ensures
        match first_field_error(fields@) {
            Some(e) => r == Err::<Vec<FieldInit>, AttributeError>(e),
            None => r matches Ok(inits) && inits@.len() == constructor_fields(fields@).len() && forall|j: int|
                0 <= j < inits@.len() ==> fills(constructor_fields(fields@)[j], #[trigger] inits@[j]),
        },
{
    let mut inits: Vec<FieldInit> = Vec::new();
    let mut i: usize = 0;
    while i < fields.len()
        invariant
            i <= fields.len(),
            first_field_error(fields@.take(i as int)) is None,
            inits@.len() == constructor_fields(fields@.take(i as int)).len(),
            forall|j: int| 0 <= j < inits@.len() ==> fills(constructor_fields(fields@.take(i as int))[j], #[trigger] inits@[j]),
        decreases fields.len() - i,
    {
        proof {
            lemma_first_field_error_step(fields@, i as int);
            assert(fields@.take(i + 1).drop_last() =~= fields@.take(i as int));
            assert(fields@.take(i + 1).last() == fields@[i as int]);
        }
        let ignored = match &fields[i].attribute {
            Some(items) => match field_attributes(items) {
                Ok(a) => a.ignore,
                Err(e) => {
                    proof {
                        lemma_first_field_error_persists(fields@, i + 1, fields@.len() as int);
                        assert(fields@.take(fields@.len() as int) =~= fields@);
                    }
                    return Err(e);
                },
            },
            None => false,
        };
        if !ignored {
            match generate_field_construction(&fields[i]) {
                Ok(init) => {
                    inits.push(init);
                },
                Err(e) => {
                    proof {
                        lemma_first_field_error_persists(fields@, i + 1, fields@.len() as int);
                        assert(fields@.take(fields@.len() as int) =~= fields@);
                    }
                    return Err(e);
                },
            }
        }
        i += 1;
    }
    assert(fields@.take(fields@.len() as int) =~= fields@);
    Ok(inits)
}

/// Why the text of a constructor parameter's type is not a Rust type: the parser's message.
pub struct TypeParseError {
    pub message: String,
}

/// A constructor parameter: its type text as the type parser read it, and the instance name
/// it is requested under, if any.
pub struct ParameterDeclaration {
    pub ty: Result<TypeShape, TypeParseError>,
    pub name: Option<String>,
}

/// Decides how each constructor parameter is requested, in order; the first parameter whose
/// type text is not a type gives its parse error instead.
pub fn generate_constructor_parameters(parameters: &Vec<ParameterDeclaration>) -> (r: Result<
    Vec<InstanceRequest>,
    TypeParseError,
>)
    ensures
        r is Ok <==> forall|j: int| 0 <= j < parameters@.len() ==> (#[trigger] parameters@[j]).ty is Ok,
        r matches Ok(v) ==> {
            &&& v@.len() == parameters@.len()
            &&& forall|j: int| 0 <= j < v@.len()
                ==> parameter_request(parameters@[j].ty->Ok_0, name_view(parameters@[j].name), #[trigger] v@[j])
        },
        r matches Err(e) ==> exists|k: int| {
            &&& 0 <= k < parameters@.len()
            &&& (#[trigger] parameters@[k]).ty matches Err(p) && p.message@ == e.message@
            &&& forall|j: int| 0 <= j < k ==> (#[trigger] parameters@[j]).ty is Ok
        },
{
    let mut r: Vec<InstanceRequest> = Vec::new();
    let mut i: usize = 0;
    while i < parameters.len()
        invariant
            i <= parameters.len(),
            r@.len() == i,
            forall|j: int| 0 <= j < i ==> (#[trigger] parameters@[j]).ty is Ok,
            forall|j: int| 0 <= j < i ==> parameter_request(parameters@[j].ty->Ok_0, name_view(parameters@[j].name), #[trigger] r@[j]),
        decreases parameters.len() - i,
    {
        match &parameters[i].ty {
            Ok(ty) => {
                r.push(constructor_parameter_request(ty, &parameters[i].name));
            },
            Err(p) => {
                let e = TypeParseError { message: p.message.clone() };
                assert(parameters@[i as int].ty matches Err(q) && q.message@ == e.message@);
                return Err(e);
            },
        }
        i += 1;
    }
    Ok(r)
}

/// An item of a component's `component` attribute; a value of the wrong kind of literal is
/// `None`, and has no effect beyond its duplicate check.
pub enum ComponentAttributeItem {
    /// `names = [..]`: the string literals among the elements (`None` for other elements), or
    /// `None` when the value is no array.
    Names(Option<Vec<Option<String>>>),
    /// `condition = "path"`.
    Condition(Option<String>),
    /// `priority = n`.
    Priority(Option<i8>),
    /// `constructor = "path"`.
    Constructor(Option<String>),
    /// `scope = "name"`.
    Scope(Option<String>),
    /// `constructor_parameters = "..."`.
    ConstructorParameters(Option<String>),
    /// `condition = "..."` whose string is no path.
    UnparsableCondition,
    /// `priority = n` whose integer does not fit the priority range.
    UnparsablePriority,
    /// `constructor = "..."` whose string is no path.
    UnparsableConstructor,
    /// Any other item, which has no effect.
    Unknown,
}

/// The settings of a component's attribute.
pub struct ComponentAttributes {
    pub names: Option<Vec<Option<String>>>,
    pub condition: Option<String>,
    pub priority: i8,
    pub scope: Option<String>,
    pub constructor: Option<String>,
    pub constructor_parameters: Vec<ConstructorParameter>,
}

/// The views of optional strings.
pub open spec fn optional_views(names: Seq<Option<String>>) -> Seq<Option<Seq<char>>> {
    names.map_values(|n: Option<String>| name_view(n))
}

/// The abstract value of a component's attribute settings; the constructor parameters are kept
/// as the text they are parsed from.
pub struct ComponentSettings {
    pub names: Option<Seq<Option<Seq<char>>>>,
    pub condition: Option<Seq<char>>,
    pub priority: i8,
    pub scope: Option<Seq<char>>,
    pub constructor: Option<Seq<char>>,
    pub constructor_parameters: Option<Seq<char>>,
}

/// The settings of a component's attribute after its items, in order: names, condition,
/// constructor, scope and constructor parameters may each be given once; a later priority
/// replaces an earlier one.
pub open spec fn component_settings(items: Seq<ComponentAttributeItem>) -> Result<ComponentSettings, AttributeError>
    decreases items.len(),
{
    if items.len() == 0 {
        Ok(
            ComponentSettings {
                names: None,
                condition: None,
                priority: 0,
                scope: None,
                constructor: None,
                constructor_parameters: None,
            },
        )
    } else {
        match component_settings(items.drop_last()) {
            Err(e) => Err(e),
            Ok(s) => match items.last() {
                ComponentAttributeItem::Names(v) => if s.names is Some {
                    Err(AttributeError::DuplicateNames)
                } else {
                    match v {
                        Some(list) => Ok(ComponentSettings { names: Some(optional_views(list@)), ..s }),
                        None => Ok(s),
                    }
                },
                ComponentAttributeItem::Condition(c) => if s.condition is Some {
                    Err(AttributeError::DuplicateCondition)
                } else {
                    Ok(ComponentSettings { condition: name_view(c), ..s })
                },
                ComponentAttributeItem::Priority(p) => match p {
                    Some(x) => Ok(ComponentSettings { priority: x, ..s }),
                    None => Ok(s),
                },
                ComponentAttributeItem::Constructor(c) => if s.constructor is Some {
                    Err(AttributeError::DuplicateConstructor)
                } else {
                    Ok(ComponentSettings { constructor: name_view(c), ..s })
                },
                ComponentAttributeItem::Scope(c) => if s.scope is Some {
                    Err(AttributeError::DuplicateScope)
                } else {
                    Ok(ComponentSettings { scope: name_view(c), ..s })
                },
                ComponentAttributeItem::ConstructorParameters(c) => if s.constructor_parameters is Some {
                    Err(AttributeError::DuplicateConstructorParameters)
                } else {
                    Ok(ComponentSettings { constructor_parameters: name_view(c), ..s })
                },
                ComponentAttributeItem::UnparsableCondition => if s.condition is Some {
                    Err(AttributeError::DuplicateCondition)
                } else {
                    Err(AttributeError::UnparsableValue)
                },
                ComponentAttributeItem::UnparsablePriority => Err(AttributeError::UnparsableValue),
                ComponentAttributeItem::UnparsableConstructor => if s.constructor is Some {
                    Err(AttributeError::DuplicateConstructor)
                } else {
                    Err(AttributeError::UnparsableValue)
                },
                ComponentAttributeItem::Unknown => Ok(s),
            },
        }
    }
}

/// Whether `params` are the constructor parameters written as `text`, if any.
pub open spec fn parameters_parsed(text: Option<Seq<char>>, params: Seq<ConstructorParameter>) -> bool {
    match text {
        None => params.len() == 0,
        Some(t) => {
            &&& params.len() == split_all(t, ',').len()
            &&& forall|k: int| 0 <= k < params.len() ==> parameter_of(split_all(t, ',')[k], #[trigger] params[k])
        },
    }
}

/// Whether `a` holds the settings `s`.
pub open spec fn holds_settings(a: ComponentAttributes, s: ComponentSettings) -> bool {
    &&& match (a.names, s.names) {
        (Some(v), Some(w)) => optional_views(v@) == w,
        (None, None) => true,
        _ => false,
    }
    &&& name_view(a.condition) == s.condition
    &&& a.priority == s.priority
    &&& name_view(a.scope) == s.scope
    &&& name_view(a.constructor) == s.constructor
    &&& parameters_parsed(s.constructor_parameters, a.constructor_parameters@)
}

/// Copies a list of optional strings.
fn copy_optional_names(names: &Vec<Option<String>>) -> (r: Vec<Option<String>>)
    ensures
        optional_views(r@) == optional_views(names@),
{
    let mut r: Vec<Option<String>> = Vec::new();
    let mut i: usize = 0;
    while i < names.len()
        invariant
            i <= names.len(),
            r@.len() == i,
            forall|j: int| 0 <= j < i ==> name_view(#[trigger] r@[j]) == name_view(names@[j]),
        decreases names.len() - i,
    {
        r.push(copy_name(&names[i]));
        i += 1;
    }
    assert(optional_views(r@) =~= optional_views(names@));
    r
}

proof fn lemma_component_settings_error_persists(items: Seq<ComponentAttributeItem>, i: int, k: int)
    requires
        0 <= i <= k <= items.len(),
        component_settings(items.take(i)) is Err,
    ensures
        component_settings(items.take(k)) == component_settings(items.take(i)),
    decreases k - i,
{
    if k > i {
        lemma_component_settings_error_persists(items, i, k - 1);
        assert(items.take(k).drop_last() =~= items.take(k - 1));
    }
}

/// Combines the items of a component's `component` attribute into its settings.
pub fn component_attributes(items: &Vec<ComponentAttributeItem>) -> (r: Result<ComponentAttributes, AttributeError>)
    ensures
        match component_settings(items@) {
            Ok(s) => r matches Ok(a) && holds_settings(a, s),
            Err(e) => r == Err::<ComponentAttributes, AttributeError>(e),
        },
{
    let mut result = ComponentAttributes {
        names: None,
        condition: None,
        priority: 0,
        scope: None,
        constructor: None,
        constructor_parameters: Vec::new(),
    };
    let ghost mut settings = ComponentSettings {
        names: None,
        condition: None,
        priority: 0,
        scope: None,
        constructor: None,
        constructor_parameters: None,
    };
    let mut i: usize = 0;
    while i < items.len()
        invariant
            i <= items.len(),
            component_settings(items@.take(i as int)) == Ok::<ComponentSettings, AttributeError>(settings),
            holds_settings(result, settings),
        decreases items.len() - i,
    {
        assert(items@.take(i + 1).drop_last() =~= items@.take(i as int));
        let failure = match &items[i] {
            ComponentAttributeItem::Names(v) => {
                if result.names.is_some() {
                    Some(AttributeError::DuplicateNames)
                } else {
                    match v {
                        Some(list) => {
                            result.names = Some(copy_optional_names(list));
                            proof {
                                settings = ComponentSettings { names: Some(optional_views(list@)), ..settings };
                            }
                        },
                        None => {},
                    }
                    None
                }
            },
            ComponentAttributeItem::Condition(c) => {
                if result.condition.is_some() {
                    Some(AttributeError::DuplicateCondition)
                } else {
                    result.condition = copy_name(c);
                    proof {
                        settings = ComponentSettings { condition: name_view(*c), ..settings };
                    }
                    None
                }
            },
            ComponentAttributeItem::Priority(p) => {
                match p {
                    Some(x) => {
                        result.priority = *x;
                        proof {
                            settings = ComponentSettings { priority: *x, ..settings };
                        }
                    },
                    None => {},
                }
                None
            },
            ComponentAttributeItem::Constructor(c) => {
                if result.constructor.is_some() {
                    Some(AttributeError::DuplicateConstructor)
                } else {
                    result.constructor = copy_name(c);
                    proof {
                        settings = ComponentSettings { constructor: name_view(*c), ..settings };
                    }
                    None
                }
            },
            ComponentAttributeItem::Scope(c) => {
                if result.scope.is_some() {
                    Some(AttributeError::DuplicateScope)
                } else {
                    result.scope = copy_name(c);
                    proof {
                        settings = ComponentSettings { scope: name_view(*c), ..settings };
                    }
                    None
                }
            },
            ComponentAttributeItem::ConstructorParameters(c) => {
                if result.constructor_parameters.len() > 0 {
                    Some(AttributeError::DuplicateConstructorParameters)
                } else {
                    match c {
                        Some(text) => {
                            result.constructor_parameters = parse_constructor_parameters(text.as_str());
                            proof {
                                settings = ComponentSettings { constructor_parameters: Some(text@), ..settings };
                            }
                        },
                        None => {},
                    }
                    None
                }
            },
            ComponentAttributeItem::UnparsableCondition => {
                if result.condition.is_some() {
                    Some(AttributeError::DuplicateCondition)
                } else {
                    Some(AttributeError::UnparsableValue)
                }
            },
            ComponentAttributeItem::UnparsablePriority => Some(AttributeError::UnparsableValue),
            ComponentAttributeItem::UnparsableConstructor => {
                if result.constructor.is_some() {
                    Some(AttributeError::DuplicateConstructor)
                } else {
                    Some(AttributeError::UnparsableValue)
                }
            },
            ComponentAttributeItem::Unknown => None,
        };
        match failure {
            Some(e) => {
                proof {
                    lemma_component_settings_error_persists(items@, i + 1, items@.len() as int);
                    assert(items@.take(items@.len() as int) =~= items@);
                }
                return Err(e);
            },
            None => {},
        }
        i += 1;
    }
    assert(items@.take(items@.len() as int) =~= items@);
    Ok(result)
}

/// How a derived component is registered.
pub struct Registration {
    pub names: Vec<String>,
    pub condition: Option<String>,
    pub priority: i8,
    pub scope: String,
}

/// Decides how a component with the given identifier and attribute settings is registered:
/// under the names its attribute gives, or its identifier in snake case; with its condition,
/// if any; with its priority, 0 by default; in its scope, the singleton scope by default.
pub fn component_registration(attributes: &Option<ComponentAttributes>, ident: &str) -> (r: Registration)
    ensures
        match attributes {
            Some(a) => {
                &&& match a.names {
                    Some(names) => string_views(r.names@) == literal_names(names@),
                    None => string_views(r.names@) == seq![snake_case(ident@)],
                }
                &&& name_view(r.condition) == name_view(a.condition)
                &&& r.priority == a.priority
                &&& r.scope@ == match a.scope {
                    Some(sc) => sc@,
                    None => SINGLETON@,
                }
            },
            None => {
                &&& string_views(r.names@) == seq![snake_case(ident@)]
                &&& r.condition is None
                &&& r.priority == 0
                &&& r.scope@ == SINGLETON@
            },
        },
{
    match attributes {
        Some(a) => {
            let names = match &a.names {
                Some(list) => literal_values(list),
                None => generate_names(None, ident),
            };
            let scope = match &a.scope {
                Some(sc) => sc.clone(),
                None => SINGLETON.to_string(),
            };
            Registration { names, condition: copy_name(&a.condition), priority: a.priority, scope }
        },
        None => Registration {
            names: generate_names(None, ident),
            condition: None,
            priority: 0,
            scope: SINGLETON.to_string(),
        },
    }
}

/// An item of a `component_alias` attribute.
pub enum AliasAttributeItem {
    /// `primary`.
    Primary,
    /// `condition = "path"`.
    Condition(String),
    /// `priority = n`.
    Priority(i8),
    /// `scope = "name"`.
    Scope(String),
    /// `condition = "..."` whose string is no path.
    UnparsableCondition,
    /// `priority = n` whose integer does not fit the priority range.
    UnparsablePriority,
    /// Anything else, which is refused.
    Unknown,
}

/// The settings of a `component_alias` attribute.
pub struct ComponentAliasAttributes {
    pub is_primary: bool,
    pub condition: Option<String>,
    pub priority: i8,
    pub scope: Option<String>,
}

/// The abstract value of alias settings.
pub struct AliasSettings {
    pub is_primary: bool,
    pub condition: Option<Seq<char>>,
    pub priority: i8,
    pub scope: Option<Seq<char>>,
}

/// The settings of an alias attribute after its items, in order: the condition and the scope
/// may each be given once, a later priority replaces an earlier one, and an unknown item is
/// refused.
pub open spec fn alias_settings(items: Seq<AliasAttributeItem>) -> Result<AliasSettings, AttributeError>
    decreases items.len(),
{
    if items.len() == 0 {
        Ok(AliasSettings { is_primary: false, condition: None, priority: 0, scope: None })
    } else {
        match alias_settings(items.drop_last()) {
            Err(e) => Err(e),
            Ok(s) => match items.last() {
                AliasAttributeItem::Primary => Ok(AliasSettings { is_primary: true, ..s }),
                AliasAttributeItem::Condition(c) => if s.condition is Some {
                    Err(AttributeError::DuplicateCondition)
                } else {
                    Ok(AliasSettings { condition: Some(c@), ..s })
                },
                AliasAttributeItem::Priority(p) => Ok(AliasSettings { priority: p, ..s }),
                AliasAttributeItem::Scope(c) => if s.scope is Some {
                    Err(AttributeError::DuplicateScope)
                } else {
                    Ok(AliasSettings { scope: Some(c@), ..s })
                },
                AliasAttributeItem::UnparsableCondition => if s.condition is Some {
                    Err(AttributeError::DuplicateCondition)
                } else {
                    Err(AttributeError::UnparsableValue)
                },
                AliasAttributeItem::UnparsablePriority => Err(AttributeError::UnparsableValue),
                AliasAttributeItem::Unknown => Err(AttributeError::UnknownAliasItem),
            },
        }
    }
}

proof fn lemma_alias_settings_error_persists(items: Seq<AliasAttributeItem>, i: int, k: int)
    requires
        0 <= i <= k <= items.len(),
        alias_settings(items.take(i)) is Err,
    ensures
        alias_settings(items.take(k)) == alias_settings(items.take(i)),
    decreases k - i,
{
    if k > i {
        lemma_alias_settings_error_persists(items, i, k - 1);
        assert(items.take(k).drop_last() =~= items.take(k - 1));
    }
}

/// Combines the items of a `component_alias` attribute into its settings.
pub fn alias_attributes(items: &Vec<AliasAttributeItem>) -> (r: Result<ComponentAliasAttributes, AttributeError>)
    ensures
        match alias_settings(items@) {
            Ok(s) => r matches Ok(a) && a.is_primary == s.is_primary && name_view(a.condition) == s.condition
                && a.priority == s.priority && name_view(a.scope) == s.scope,
            Err(e) => r == Err::<ComponentAliasAttributes, AttributeError>(e),
        },
{
    let mut result = ComponentAliasAttributes { is_primary: false, condition: None, priority: 0, scope: None };
    let mut i: usize = 0;
    while i < items.len()
        invariant
            i <= items.len(),
            alias_settings(items@.take(i as int)) == Ok::<AliasSettings, AttributeError>(
                AliasSettings {
                    is_primary: result.is_primary,
                    condition: name_view(result.condition),
                    priority: result.priority,
                    scope: name_view(result.scope),
                },
            ),
        decreases items.len() - i,
    {
        assert(items@.take(i + 1).drop_last() =~= items@.take(i as int));
        let failure = match &items[i] {
            AliasAttributeItem::Primary => {
                result.is_primary = true;
                None
            },
            AliasAttributeItem::Condition(c) => {
                if result.condition.is_some() {
                    Some(AttributeError::DuplicateCondition)
                } else {
                    result.condition = Some(c.clone());
                    None
                }
            },
            AliasAttributeItem::Priority(p) => {
                result.priority = *p;
                None
            },
            AliasAttributeItem::Scope(c) => {
                if result.scope.is_some() {
                    Some(AttributeError::DuplicateScope)
                } else {
                    result.scope = Some(c.clone());
                    None
                }
            },
            AliasAttributeItem::UnparsableCondition => {
                if result.condition.is_some() {
                    Some(AttributeError::DuplicateCondition)
                } else {
                    Some(AttributeError::UnparsableValue)
                }
            },
            AliasAttributeItem::UnparsablePriority => Some(AttributeError::UnparsableValue),
            AliasAttributeItem::Unknown => Some(AttributeError::UnknownAliasItem),
        };
        match failure {
            Some(e) => {
                proof {
                    lemma_alias_settings_error_persists(items@, i + 1, items@.len() as int);
                    assert(items@.take(items@.len() as int) =~= items@);
                }
                return Err(e);
            },
            None => {},
        }
        i += 1;
    }
    assert(items@.take(items@.len() as int) =~= items@);
    Ok(result)
}

/// What alias registration reads of the item a `component_alias` attribute is put on: whether
/// it is an impl block, the path of the trait it implements, if any, and the path of the type
/// it implements the trait for, if that type is given by a path.
pub struct AliasItemShape {
    pub is_impl: bool,
    pub trait_path: Option<String>,
    pub self_type_path: Option<String>,
}

/// Why an item cannot be registered as an alias.
#[derive(Clone, Copy, Debug, PartialEq, Eq, Structural)]
pub enum AliasItemError {
    /// The item is not an impl block: registering traits for components is possible only on
    /// trait implementations.
    NotAnImpl,
    /// The impl block implements no trait.
    MissingTraitIdentifier,
    /// The trait is implemented for a type not given by a path: registering traits is only
    /// available for components.
    NotAComponent,
}

/// The alias registration generated for an item: the trait (the alias type) and the component
/// implementing it (the target type), with the alias attribute's settings.
pub struct AliasRegistration {
    pub alias_type: String,
    pub target_type: String,
    pub is_primary: bool,
    pub condition: Option<String>,
    pub priority: i8,
    pub scope: Option<String>,
}

/// Builds the alias registration for an item carrying a `component_alias` attribute: the item
/// must be a trait implementation for a type given by a path.
pub fn alias_registration(item: &AliasItemShape, attributes: &ComponentAliasAttributes) -> (r: Result<
    AliasRegistration,
    AliasItemError,
>)
    ensures
        !item.is_impl ==> r == Err::<AliasRegistration, AliasItemError>(AliasItemError::NotAnImpl),
        item.is_impl && item.trait_path is None ==> r == Err::<AliasRegistration, AliasItemError>(
            AliasItemError::MissingTraitIdentifier,
        ),
        item.is_impl && item.trait_path is Some && item.self_type_path is None ==> r == Err::<
            AliasRegistration,
            AliasItemError,
        >(AliasItemError::NotAComponent),
        item.is_impl && item.trait_path is Some && item.self_type_path is Some ==> (r matches Ok(a) && {
            &&& a.alias_type@ == item.trait_path->0@
            &&& a.target_type@ == item.self_type_path->0@
            &&& a.is_primary == attributes.is_primary
            &&& a.priority == attributes.priority
            &&& name_view(a.condition) == name_view(attributes.condition)
            &&& name_view(a.scope) == name_view(attributes.scope)
        }),
{
    if !item.is_impl {
        return Err(AliasItemError::NotAnImpl);
    }
    let trait_path = match &item.trait_path {
        Some(t) => t,
        None => {
            return Err(AliasItemError::MissingTraitIdentifier);
        },
    };
    let self_type_path = match &item.self_type_path {
        Some(s) => s,
        None => {
            return Err(AliasItemError::NotAComponent);
        },
    };
    Ok(AliasRegistration {
        alias_type: trait_path.clone(),
        target_type: self_type_path.clone(),
        is_primary: attributes.is_primary,
        condition: copy_name(&attributes.condition),
        priority: attributes.priority,
        scope: copy_name(&attributes.scope),
    })
}

/// An item of a `controller` attribute.
pub enum ControllerAttributeItem {
    /// `path = "..."`.
    Path(String),
    /// `server_names = [..]`: the string literals among the elements (`None` for other
    /// elements).
    ServerNames(Vec<Option<String>>),
    /// Anything else, which is refused.
    Unknown,
}

/// The settings of a `controller` attribute.
pub struct ControllerAttributes {
    pub path: Option<String>,
    pub server_names: Option<Vec<Option<String>>>,
}

/// Errors in the declaration of a controller.
#[derive(Clone, Copy, Debug, PartialEq, Eq, Structural)]
pub enum ControllerError {
    /// The path is given twice.
    DuplicatePath,
    /// The server names are given twice.
    DuplicateServerNames,
    /// A `controller` attribute holds an item it does not know.
    UnknownControllerItem,
    /// A method attribute's arguments are not a string literal.
    InvalidRouteArgument,
}

/// The abstract value of controller settings.
pub struct ControllerSettings {
    pub path: Option<Seq<char>>,
    pub server_names: Option<Seq<Option<Seq<char>>>>,
}

/// The settings of a `controller` attribute after its items, in order: the path and the
/// server names may each be given once, and an unknown item is refused.
pub open spec fn controller_settings(items: Seq<ControllerAttributeItem>) -> Result<ControllerSettings, ControllerError>
    decreases items.len(),
{
    if items.len() == 0 {
        Ok(ControllerSettings { path: None, server_names: None })
    } else {
        match controller_settings(items.drop_last()) {
            Err(e) => Err(e),
            Ok(s) => match items.last() {
                ControllerAttributeItem::Path(p) => if s.path is Some {
                    Err(ControllerError::DuplicatePath)
                } else {
                    Ok(ControllerSettings { path: Some(p@), ..s })
                },
                ControllerAttributeItem::ServerNames(v) => if s.server_names is Some {
                    Err(ControllerError::DuplicateServerNames)
                } else {
                    Ok(ControllerSettings { server_names: Some(optional_views(v@)), ..s })
                },
                ControllerAttributeItem::Unknown => Err(ControllerError::UnknownControllerItem),
            },
        }
    }
}

proof fn lemma_controller_settings_error_persists(items: Seq<ControllerAttributeItem>, i: int, k: int)
    requires
        0 <= i <= k <= items.len(),
        controller_settings(items.take(i)) is Err,
    ensures
        controller_settings(items.take(k)) == controller_settings(items.take(i)),
    decreases k - i,
{
    if k > i {
        lemma_controller_settings_error_persists(items, i, k - 1);
        assert(items.take(k).drop_last() =~= items.take(k - 1));
    }
}

/// Combines the items of a `controller` attribute into its settings.
pub fn controller_attributes(items: &Vec<ControllerAttributeItem>) -> (r: Result<ControllerAttributes, ControllerError>)
    ensures
        match controller_settings(items@) {
            Ok(s) => r matches Ok(a) && name_view(a.path) == s.path && match (a.server_names, s.server_names) {
                (Some(v), Some(w)) => optional_views(v@) == w,
                (None, None) => true,
                _ => false,
            },
            Err(e) => r == Err::<ControllerAttributes, ControllerError>(e),
        },
{
    let mut result = ControllerAttributes { path: None, server_names: None };
    let ghost mut settings = ControllerSettings { path: None, server_names: None };
    let mut i: usize = 0;
    while i < items.len()
        invariant
            i <= items.len(),
            controller_settings(items@.take(i as int)) == Ok::<ControllerSettings, ControllerError>(settings),
            name_view(result.path) == settings.path,
            match (result.server_names, settings.server_names) {
                (Some(v), Some(w)) => optional_views(v@) == w,
                (None, None) => true,
                _ => false,
            },
        decreases items.len() - i,
    {
        assert(items@.take(i + 1).drop_last() =~= items@.take(i as int));
        let failure = match &items[i] {
            ControllerAttributeItem::Path(p) => {
                if result.path.is_some() {
                    Some(ControllerError::DuplicatePath)
                } else {
                    result.path = Some(p.clone());
                    proof {
                        settings = ControllerSettings { path: Some(p@), ..settings };
                    }
                    None
                }
            },
            ControllerAttributeItem::ServerNames(v) => {
                if result.server_names.is_some() {
                    Some(ControllerError::DuplicateServerNames)
                } else {
                    result.server_names = Some(copy_optional_names(v));
                    proof {
                        settings = ControllerSettings { server_names: Some(optional_views(v@)), ..settings };
                    }
                    None
                }
            },
            ControllerAttributeItem::Unknown => Some(ControllerError::UnknownControllerItem),
        };
        match failure {
            Some(e) => {
                proof {
                    lemma_controller_settings_error_persists(items@, i + 1, items@.len() as int);
                    assert(items@.take(items@.len() as int) =~= items@);
                }
                return Err(e);
            },
            None => {},
        }
        i += 1;
    }
    assert(items@.take(items@.len() as int) =~= items@);
    Ok(result)
}

/// The server names a controller declares: the string values among the given names, in order.
pub fn controller_server_names(attributes: &ControllerAttributes) -> (r: Option<Vec<String>>)
    ensures
        match attributes.server_names {
            Some(names) => r matches Some(v) && string_views(v@) == literal_names(names@),
            None => r is None,
        },
{
    match &attributes.server_names {
        Some(names) => Some(literal_values(names)),
        None => None,
    }
}

/// An attribute of a controller method: the identifier naming it, if its path is one, and its
/// arguments as a string literal, if they are one.
pub struct MethodAttribute {
    pub ident: Option<String>,
    pub literal_argument: Option<String>,
}

/// The HTTP methods a handler can be routed for.
#[derive(Clone, Copy, Debug, PartialEq, Eq, Structural)]
pub enum HttpMethod {
    Delete,
    Get,
    Head,
    Options,
    Patch,
    Post,
    Put,
    Trace,
}

/// What a method attribute makes of its method.
pub enum ControllerMethod {
    /// The method handles requests to the path with the HTTP method.
    Route(HttpMethod, String),
    /// The method handles requests no other route matches.
    Fallback,
    /// The method creates the controller's router.
    Source,
    /// The method adjusts the controller's router after its routes are added.
    PostConfigure,
}

/// The abstract value of what a method attribute makes of its method.
pub enum MethodMeaning {
    Route(HttpMethod, Seq<char>),
    Fallback,
    Source,
    PostConfigure,
}

/// The abstract value of a controller method meaning.
pub open spec fn meaning_view(m: ControllerMethod) -> MethodMeaning {
    match m {
        ControllerMethod::Route(h, p) => MethodMeaning::Route(h, p@),
        ControllerMethod::Fallback => MethodMeaning::Fallback,
        ControllerMethod::Source => MethodMeaning::Source,
        ControllerMethod::PostConfigure => MethodMeaning::PostConfigure,
    }
}

/// The abstract value of an optional controller method meaning.
pub open spec fn optional_meaning_view(m: Option<ControllerMethod>) -> Option<MethodMeaning> {
    match m {
        Some(x) => Some(meaning_view(x)),
        None => None,
    }
}

/// The HTTP method an attribute identifier names, if any.
pub open spec fn http_method_of(ident: Seq<char>) -> Option<HttpMethod> {
    if ident == seq!['d', 'e', 'l', 'e', 't', 'e'] {
        Some(HttpMethod::Delete)
    } else if ident == seq!['g', 'e', 't'] {
        Some(HttpMethod::Get)
    } else if ident == seq!['h', 'e', 'a', 'd'] {
        Some(HttpMethod::Head)
    } else if ident == seq!['o', 'p', 't', 'i', 'o', 'n', 's'] {
        Some(HttpMethod::Options)
    } else if ident == seq!['p', 'a', 't', 'c', 'h'] {
        Some(HttpMethod::Patch)
    } else if ident == seq!['p', 'o', 's', 't'] {
        Some(HttpMethod::Post)
    } else if ident == seq!['p', 'u', 't'] {
        Some(HttpMethod::Put)
    } else if ident == seq!['t', 'r', 'a', 'c', 'e'] {
        Some(HttpMethod::Trace)
    } else {
        None
    }
}

/// The attribute identifier that names an HTTP method: the method's name in lower case.
pub open spec fn method_name(m: HttpMethod) -> Seq<char> {
    match m {
        HttpMethod::Delete => "delete"@,
        HttpMethod::Get => "get"@,
        HttpMethod::Head => "head"@,
        HttpMethod::Options => "options"@,
        HttpMethod::Patch => "patch"@,
        HttpMethod::Post => "post"@,
        HttpMethod::Put => "put"@,
        HttpMethod::Trace => "trace"@,
    }
}

/// An attribute identifier routes for an HTTP method exactly when it is that method's name:
/// each method's name gives that method, and an identifier giving a method is its name.
pub proof fn lemma_http_method_names(ident: Seq<char>, m: HttpMethod)
    ensures
        http_method_of(method_name(m)) == Some(m),
        http_method_of(ident) == Some(m) ==> ident == method_name(m),
{
    reveal_strlit("delete");
    reveal_strlit("get");
    reveal_strlit("head");
    reveal_strlit("options");
    reveal_strlit("patch");
    reveal_strlit("post");
    reveal_strlit("put");
    reveal_strlit("trace");
    assert("delete"@ =~= seq!['d', 'e', 'l', 'e', 't', 'e']);
    assert("get"@ =~= seq!['g', 'e', 't']);
    assert("head"@ =~= seq!['h', 'e', 'a', 'd']);
    assert("options"@ =~= seq!['o', 'p', 't', 'i', 'o', 'n', 's']);
    assert("patch"@ =~= seq!['p', 'a', 't', 'c', 'h']);
    assert("post"@ =~= seq!['p', 'o', 's', 't']);
    assert("put"@ =~= seq!['p', 'u', 't']);
    assert("trace"@ =~= seq!['t', 'r', 'a', 'c', 'e']);
}

/// What a method attribute means, if anything: `fallback`, `router_source` and
/// `router_post_configure` mark the method; an attribute named by an HTTP method must have a
/// string literal as its arguments, the path it routes the method for; any other attribute
/// means nothing to the controller and stays on the method.
pub open spec fn method_attribute_meaning(attr: MethodAttribute) -> Result<Option<MethodMeaning>, ControllerError> {
    match attr.ident {
        None => Ok(None),
        Some(ident) => if ident@ == seq!['f', 'a', 'l', 'l', 'b', 'a', 'c', 'k'] {
            Ok(Some(MethodMeaning::Fallback))
        } else if ident@ == seq!['r', 'o', 'u', 't', 'e', 'r', '_', 's', 'o', 'u', 'r', 'c', 'e'] {
            Ok(Some(MethodMeaning::Source))
        } else if ident@ == seq![
            'r', 'o', 'u', 't', 'e', 'r', '_', 'p', 'o', 's', 't', '_', 'c', 'o', 'n', 'f', 'i', 'g', 'u', 'r', 'e',
        ] {
            Ok(Some(MethodMeaning::PostConfigure))
        } else {
            match http_method_of(ident@) {
                None => Ok(None),
                Some(m) => match attr.literal_argument {
                    None => Err(ControllerError::InvalidRouteArgument),
                    Some(path) => Ok(Some(MethodMeaning::Route(m, path@))),
                },
            }
        },
    }
}

/// Checks whether a string equals a literal.
fn equals_literal(s: &String, literal: &str) -> (r: bool)
    ensures
        r == (s@ == literal@),
{
    let l = literal.to_string();
    *s == l
}

/// Determines the HTTP method an attribute identifier names, if any.
fn http_method(ident: &String) -> (r: Option<HttpMethod>)
    ensures
        r == http_method_of(ident@),
{
    proof {
        reveal_strlit("delete");
        reveal_strlit("get");
        reveal_strlit("head");
        reveal_strlit("options");
        reveal_strlit("patch");
        reveal_strlit("post");
        reveal_strlit("put");
        reveal_strlit("trace");
    }
    if equals_literal(ident, "delete") {
        assert("delete"@ =~= seq!['d', 'e', 'l', 'e', 't', 'e']);
        Some(HttpMethod::Delete)
    } else if equals_literal(ident, "get") {
        assert("get"@ =~= seq!['g', 'e', 't']);
        Some(HttpMethod::Get)
    } else if equals_literal(ident, "head") {
        assert("head"@ =~= seq!['h', 'e', 'a', 'd']);
        Some(HttpMethod::Head)
    } else if equals_literal(ident, "options") {
        assert("options"@ =~= seq!['o', 'p', 't', 'i', 'o', 'n', 's']);
        Some(HttpMethod::Options)
    } else if equals_literal(ident, "patch") {
        assert("patch"@ =~= seq!['p', 'a', 't', 'c', 'h']);
        Some(HttpMethod::Patch)
    } else if equals_literal(ident, "post") {
        assert("post"@ =~= seq!['p', 'o', 's', 't']);
        Some(HttpMethod::Post)
    } else if equals_literal(ident, "put") {
        assert("put"@ =~= seq!['p', 'u', 't']);
        Some(HttpMethod::Put)
    } else if equals_literal(ident, "trace") {
        assert("trace"@ =~= seq!['t', 'r', 'a', 'c', 'e']);
        Some(HttpMethod::Trace)
    } else {
        assert("delete"@ =~= seq!['d', 'e', 'l', 'e', 't', 'e']);
        assert("get"@ =~= seq!['g', 'e', 't']);
        assert("head"@ =~= seq!['h', 'e', 'a', 'd']);
        assert("options"@ =~= seq!['o', 'p', 't', 'i', 'o', 'n', 's']);
        assert("patch"@ =~= seq!['p', 'a', 't', 'c', 'h']);
        assert("post"@ =~= seq!['p', 'o', 's', 't']);
        assert("put"@ =~= seq!['p', 'u', 't']);
        assert("trace"@ =~= seq!['t', 'r', 'a', 'c', 'e']);
        None
    }
}

/// Determines what a method attribute means.
pub fn generate_method_configuration(attr: &MethodAttribute) -> (r: Result<Option<ControllerMethod>, ControllerError>)
    ensures
        match method_attribute_meaning(*attr) {
            Ok(m) => r matches Ok(n) && optional_meaning_view(n) == m,
            Err(e) => r == Err::<Option<ControllerMethod>, ControllerError>(e),
        },
        forall|m: HttpMethod|
            #![trigger method_name(m)]
            attr.ident is Some && attr.ident->0@ == method_name(m) && attr.literal_argument is Some
                ==> (r matches Ok(Some(ControllerMethod::Route(routed, q))) && routed == m
                    && q@ == attr.literal_argument->0@),
{
    proof {
        reveal_strlit("delete");
        reveal_strlit("get");
        reveal_strlit("head");
        reveal_strlit("options");
        reveal_strlit("patch");
        reveal_strlit("post");
        reveal_strlit("put");
        reveal_strlit("trace");
        assert forall|m: HttpMethod| #[trigger] method_name(m).len() < 8 by {}
        assert forall|m: HttpMethod| http_method_of(#[trigger] method_name(m)) == Some(m) by {
            lemma_http_method_names(method_name(m), m);
        }
    }
    match &attr.ident {
        None => Ok(None),
        Some(ident) => {
            proof {
                reveal_strlit("fallback");
                reveal_strlit("router_source");
                reveal_strlit("router_post_configure");
                assert("fallback"@ =~= seq!['f', 'a', 'l', 'l', 'b', 'a', 'c', 'k']);
                assert("router_source"@ =~= seq!['r', 'o', 'u', 't', 'e', 'r', '_', 's', 'o', 'u', 'r', 'c', 'e']);
                assert("router_post_configure"@ =~= seq![
                    'r', 'o', 'u', 't', 'e', 'r', '_', 'p', 'o', 's', 't', '_', 'c', 'o', 'n', 'f', 'i', 'g', 'u', 'r', 'e',
                ]);
            }
            if equals_literal(ident, "fallback") {
                return Ok(Some(ControllerMethod::Fallback));
            }
            if equals_literal(ident, "router_source") {
                return Ok(Some(ControllerMethod::Source));
            }
            if equals_literal(ident, "router_post_configure") {
                return Ok(Some(ControllerMethod::PostConfigure));
            }
            match http_method(ident) {
                None => Ok(None),
                Some(m) => match &attr.literal_argument {
                    None => Err(ControllerError::InvalidRouteArgument),
                    Some(path) => Ok(Some(ControllerMethod::Route(m, path.clone()))),
                },
            }
        },
    }
}

/// A method of a controller's impl block: its name and its attributes.
pub struct MethodDeclaration {
    pub name: String,
    pub attributes: Vec<MethodAttribute>,
}

/// How a controller's router is configured: the routes and fallbacks, each with the name of
/// its handler method, in order; the method creating the router, if any; the method adjusting
/// it afterwards, if any; and, for each method in order, the attributes left on it once the
/// controller attributes are taken off.
pub struct RouterConfiguration {
    pub methods: Vec<(String, ControllerMethod)>,
    pub router_source: Option<String>,
    pub post_configure_router: Option<String>,
    pub kept_attributes: Vec<Vec<MethodAttribute>>,
}

/// The abstract value of a method attribute: its identifier and its literal argument.
pub open spec fn attribute_view(a: MethodAttribute) -> (Option<Seq<char>>, Option<Seq<char>>) {
    (name_view(a.ident), name_view(a.literal_argument))
}

/// The abstract values of a list of method attributes.
pub open spec fn attribute_views(attrs: Seq<MethodAttribute>) -> Seq<(Option<Seq<char>>, Option<Seq<char>>)> {
    attrs.map_values(|a: MethodAttribute| attribute_view(a))
}

/// The attributes of a method which mean nothing to the controller, in order: they stay on the
/// method.
pub open spec fn kept_attributes_of(attrs: Seq<MethodAttribute>) -> Seq<(Option<Seq<char>>, Option<Seq<char>>)>
    decreases attrs.len(),
{
    if attrs.len() == 0 {
        Seq::empty()
    } else if method_attribute_meaning(attrs.last()) == Ok::<Option<MethodMeaning>, ControllerError>(None) {
        kept_attributes_of(attrs.drop_last()).push(attribute_view(attrs.last()))
    } else {
        kept_attributes_of(attrs.drop_last())
    }
}

/// The abstract value of a router configuration.
pub struct RouterSettings {
    pub methods: Seq<(Seq<char>, MethodMeaning)>,
    pub router_source: Option<Seq<char>>,
    pub post_configure_router: Option<Seq<char>>,
    pub kept: Seq<Seq<(Option<Seq<char>>, Option<Seq<char>>)>>,
}

/// The abstract value of a router configuration.
pub open spec fn router_view(c: RouterConfiguration) -> RouterSettings {
    RouterSettings {
        methods: c.methods@.map_values(|e: (String, ControllerMethod)| (e.0@, meaning_view(e.1))),
        router_source: name_view(c.router_source),
        post_configure_router: name_view(c.post_configure_router),
        kept: c.kept_attributes@.map_values(|v: Vec<MethodAttribute>| attribute_views(v@)),
    }
}

/// The meanings of a method's attributes, in order: the first error among them, if any.
pub open spec fn attribute_meanings(attrs: Seq<MethodAttribute>) -> Result<Seq<MethodMeaning>, ControllerError>
    decreases attrs.len(),
{
    if attrs.len() == 0 {
        Ok(Seq::empty())
    } else {
        match attribute_meanings(attrs.drop_last()) {
            Err(e) => Err(e),
            Ok(list) => match method_attribute_meaning(attrs.last()) {
                Err(e) => Err(e),
                Ok(Some(m)) => Ok(list.push(m)),
                Ok(None) => Ok(list),
            },
        }
    }
}

/// A router configuration with the meanings of a method's attributes applied in order: routes
/// and fallbacks are added, a router source or post-configuration method replaces an earlier
/// one.
pub open spec fn apply_meanings(c: RouterSettings, name: Seq<char>, meanings: Seq<MethodMeaning>) -> RouterSettings
    decreases meanings.len(),
{
    if meanings.len() == 0 {
        c
    } else {
        let before = apply_meanings(c, name, meanings.drop_last());
        match meanings.last() {
            MethodMeaning::Source => RouterSettings { router_source: Some(name), ..before },
            MethodMeaning::PostConfigure => RouterSettings { post_configure_router: Some(name), ..before },
            m => RouterSettings { methods: before.methods.push((name, m)), ..before },
        }
    }
}

/// The router configuration of a controller's methods, in order, each method's attributes
/// that mean nothing to the controller kept for it: the first error in a method attribute, if
/// any.
pub open spec fn router_settings(methods: Seq<MethodDeclaration>) -> Result<RouterSettings, ControllerError>
    decreases methods.len(),
{
    if methods.len() == 0 {
        Ok(RouterSettings { methods: Seq::empty(), router_source: None, post_configure_router: None, kept: Seq::empty() })
    } else {
        match router_settings(methods.drop_last()) {
            Err(e) => Err(e),
            Ok(c) => match attribute_meanings(methods.last().attributes@) {
                Err(e) => Err(e),
                Ok(list) => {
                    let applied = apply_meanings(c, methods.last().name@, list);
                    Ok(RouterSettings { kept: applied.kept.push(kept_attributes_of(methods.last().attributes@)), ..applied })
                },
            },
        }
    }
}

proof fn lemma_router_settings_error_persists(methods: Seq<MethodDeclaration>, i: int, k: int)
    requires
        0 <= i <= k <= methods.len(),
        router_settings(methods.take(i)) is Err,
    ensures
        router_settings(methods.take(k)) == router_settings(methods.take(i)),
    decreases k - i,
{
    if k > i {
        lemma_router_settings_error_persists(methods, i, k - 1);
        assert(methods.take(k).drop_last() =~= methods.take(k - 1));
    }
}

proof fn lemma_attribute_meanings_error_persists(attrs: Seq<MethodAttribute>, i: int, k: int)
    requires
        0 <= i <= k <= attrs.len(),
        attribute_meanings(attrs.take(i)) is Err,
    ensures
        attribute_meanings(attrs.take(k)) == attribute_meanings(attrs.take(i)),
    decreases k - i,
{
    if k > i {
        lemma_attribute_meanings_error_persists(attrs, i, k - 1);
        assert(attrs.take(k).drop_last() =~= attrs.take(k - 1));
    }
}

/// Determines the meanings of a method's attributes, in order.
fn method_meanings(attrs: &Vec<MethodAttribute>) -> (r: Result<Vec<ControllerMethod>, ControllerError>)
    ensures
        match attribute_meanings(attrs@) {
            Ok(list) => r matches Ok(v) && v@.map_values(|m: ControllerMethod| meaning_view(m)) == list,
            Err(e) => r == Err::<Vec<ControllerMethod>, ControllerError>(e),
        },
{
    let mut v: Vec<ControllerMethod> = Vec::new();
    let mut i: usize = 0;
    assert(attrs@.take(0) =~= Seq::<MethodAttribute>::empty());
    assert(v@.map_values(|m: ControllerMethod| meaning_view(m)) =~= Seq::<MethodMeaning>::empty());
    while i < attrs.len()
        invariant
            i <= attrs.len(),
            attribute_meanings(attrs@.take(i as int)) == Ok::<Seq<MethodMeaning>, ControllerError>(
                v@.map_values(|m: ControllerMethod| meaning_view(m)),
            ),
        decreases attrs.len() - i,
    {
        assert(attrs@.take(i + 1).drop_last() =~= attrs@.take(i as int));
        assert(attrs@.take(i + 1).last() == attrs@[i as int]);
        match generate_method_configuration(&attrs[i]) {
            Ok(Some(m)) => {
                let ghost before = v@;
                v.push(m);
                assert(v@.map_values(|m: ControllerMethod| meaning_view(m)) =~= before.map_values(
                    |m: ControllerMethod| meaning_view(m),
                ).push(meaning_view(v@[v@.len() - 1])));
            },
            Ok(None) => {},
            Err(e) => {
                proof {
                    lemma_attribute_meanings_error_persists(attrs@, i + 1, attrs@.len() as int);
                    assert(attrs@.take(attrs@.len() as int) =~= attrs@);
                }
                return Err(e);
            },
        }
        i += 1;
    }
    assert(attrs@.take(attrs@.len() as int) =~= attrs@);
    Ok(v)
}

proof fn lemma_meanings_keep_attributes(c: RouterSettings, name: Seq<char>, meanings: Seq<MethodMeaning>)
    ensures
        apply_meanings(c, name, meanings).kept == c.kept,
    decreases meanings.len(),
{
    if meanings.len() > 0 {
        lemma_meanings_keep_attributes(c, name, meanings.drop_last());
    }
}

/// The attributes of a method which mean nothing to the controller, copied in order.
fn kept_attributes(attrs: &Vec<MethodAttribute>) -> (r: Vec<MethodAttribute>)
    ensures
        attribute_views(r@) == kept_attributes_of(attrs@),
{
    let mut r: Vec<MethodAttribute> = Vec::new();
    let mut i: usize = 0;
    assert(attrs@.take(0) =~= Seq::<MethodAttribute>::empty());
    assert(attribute_views(r@) =~= Seq::<(Option<Seq<char>>, Option<Seq<char>>)>::empty());
    while i < attrs.len()
        invariant
            i <= attrs.len(),
            attribute_views(r@) == kept_attributes_of(attrs@.take(i as int)),
        decreases attrs.len() - i,
    {
        assert(attrs@.take(i + 1).drop_last() =~= attrs@.take(i as int));
        assert(attrs@.take(i + 1).last() == attrs@[i as int]);
        let meaning = generate_method_configuration(&attrs[i]);
        match meaning {
            Ok(None) => {
                let ghost before = r@;
                let copy = MethodAttribute {
                    ident: copy_name(&attrs[i].ident),
                    literal_argument: copy_name(&attrs[i].literal_argument),
                };
                assert(attribute_view(copy) == attribute_view(attrs@[i as int]));
                r.push(copy);
                assert(attribute_views(r@) =~= attribute_views(before).push(attribute_view(copy)));
            },
            _ => {
                assert(method_attribute_meaning(attrs@[i as int]) != Ok::<Option<MethodMeaning>, ControllerError>(None)) by {
                    if method_attribute_meaning(attrs@[i as int]) == Ok::<Option<MethodMeaning>, ControllerError>(None) {
                        assert(meaning matches Ok(n) && optional_meaning_view(n) is None);
                    }
                }
            },
        }
        i += 1;
    }
    assert(attrs@.take(attrs@.len() as int) =~= attrs@);
    r
}

/// Determines how a controller's router is configured from the attributes of its methods.
pub fn extract_router_configuration(methods: &Vec<MethodDeclaration>) -> (r: Result<RouterConfiguration, ControllerError>)
    ensures
        match router_settings(methods@) {
            Ok(c) => r matches Ok(conf) && router_view(conf) == c,
            Err(e) => r == Err::<RouterConfiguration, ControllerError>(e),
        },
{
    let mut conf = RouterConfiguration {
        methods: Vec::new(),
        router_source: None,
        post_configure_router: None,
        kept_attributes: Vec::new(),
    };
    assert(router_view(conf).methods =~= Seq::<(Seq<char>, MethodMeaning)>::empty());
    assert(router_view(conf).kept =~= Seq::<Seq<(Option<Seq<char>>, Option<Seq<char>>)>>::empty());
    let mut i: usize = 0;
    while i < methods.len()
        invariant
            i <= methods.len(),
            router_settings(methods@.take(i as int)) == Ok::<RouterSettings, ControllerError>(router_view(conf)),
        decreases methods.len() - i,
    {
        assert(methods@.take(i + 1).drop_last() =~= methods@.take(i as int));
        assert(methods@.take(i + 1).last() == methods@[i as int]);
        let meanings = match method_meanings(&methods[i].attributes) {
            Ok(v) => v,
            Err(e) => {
                proof {
                    lemma_router_settings_error_persists(methods@, i + 1, methods@.len() as int);
                    assert(methods@.take(methods@.len() as int) =~= methods@);
                }
                return Err(e);
            },
        };
        let ghost start = router_view(conf);
        let ghost all = meanings@.map_values(|m: ControllerMethod| meaning_view(m));
        let name = &methods[i].name;
        let total: usize = meanings.len();
        let mut remaining = meanings;
        let mut k: usize = 0;
        let mut reversed: Vec<ControllerMethod> = Vec::new();
        while remaining.len() > 0
            invariant
                remaining@.len() + reversed@.len() == total,
                total == all.len(),
                forall|j: int| 0 <= j < remaining@.len() ==> meaning_view(#[trigger] remaining@[j]) == all[j],
                forall|j: int| 0 <= j < reversed@.len() ==> meaning_view(#[trigger] reversed@[j]) == all[total - 1 - j],
            decreases remaining@.len(),
        {
            let m = remaining.pop().unwrap();
            reversed.push(m);
        }
        while reversed.len() > 0
            invariant
                reversed@.len() + k == total,
                total == all.len(),
                forall|j: int| 0 <= j < reversed@.len() ==> meaning_view(#[trigger] reversed@[j]) == all[total - 1 - j],
                router_view(conf) == apply_meanings(start, name@, all.take(k as int)),
            decreases reversed@.len(),
        {
            let m = reversed.pop().unwrap();
            assert(all.take(k + 1).drop_last() =~= all.take(k as int));
            assert(meaning_view(m) == all[k as int]);
            match m {
                ControllerMethod::Source => {
                    conf.router_source = Some(name.clone());
                },
                ControllerMethod::PostConfigure => {
                    conf.post_configure_router = Some(name.clone());
                },
                other => {
                    let ghost before = conf.methods@;
                    conf.methods.push((name.clone(), other));
                    assert(conf.methods@.map_values(|e: (String, ControllerMethod)| (e.0@, meaning_view(e.1))) =~= before.map_values(
                        |e: (String, ControllerMethod)| (e.0@, meaning_view(e.1)),
                    ).push((name@, all[k as int])));
                },
            }
            k += 1;
        }
        assert(all.take(total as int) =~= all);
        proof {
            lemma_meanings_keep_attributes(start, name@, all);
        }
        let kept = kept_attributes(&methods[i].attributes);
        let ghost before_kept = conf.kept_attributes@;
        conf.kept_attributes.push(kept);
        assert(router_view(conf).kept =~= start.kept.push(kept_attributes_of(methods@[i as int].attributes@)));
        i += 1;
    }
    assert(methods@.take(methods@.len() as int) =~= methods@);
    Ok(conf)
}

} // verus!
