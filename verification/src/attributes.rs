//! The text of component attributes: constructor parameters of the form `Type` or
//! `Type/name`, separated by commas, and the names a component is registered under.

use convert_case::Casing;
use vstd::prelude::*;

use crate::registry::string_views;

verus! {

/// The first position at or after `from` where `s` holds `c`.
pub open spec fn position_of(s: Seq<char>, c: char, from: int) -> Option<int>
    decreases s.len() - from,
{
    if from < 0 || from >= s.len() {
        None
    } else if s[from] == c {
        Some(from)
    } else {
        position_of(s, c, from + 1)
    }
}

proof fn lemma_position_skips(s: Seq<char>, c: char, from: int, to: int)
    requires
        0 <= from <= to <= s.len(),
        forall|j: int| from <= j < to ==> s[j] != c,
    ensures
        position_of(s, c, from) == position_of(s, c, to),
    decreases to - from,
{
    if from < to {
        lemma_position_skips(s, c, from + 1, to);
    }
}

proof fn lemma_position_found(s: Seq<char>, c: char, from: int)
    requires
        0 <= from,
    ensures
        match position_of(s, c, from) {
            Some(i) => from <= i < s.len() && s[i] == c && forall|j: int| from <= j < i ==> s[j] != c,
            None => forall|j: int| from <= j < s.len() ==> s[j] != c,
        },
    decreases s.len() - from,
{
    if from < s.len() && s[from] != c {
        lemma_position_found(s, c, from + 1);
    }
}

/// Finds the first position of a character in a string.
fn find_char(s: &str, c: char) -> (r: Option<usize>)
    ensures
        match position_of(s@, c, 0) {
            Some(i) => r == Some(i as usize),
            None => r is None,
        },
{
    let n = s.unicode_len();
    let mut i: usize = 0;
    while i < n
        invariant
            n == s@.len(),
            i <= n,
            forall|j: int| 0 <= j < i ==> s@[j] != c,
        decreases n - i,
    {
        if s.get_char(i) == c {
            proof {
                lemma_position_skips(s@, c, 0, i as int);
            }
            return Some(i);
        }
        i += 1;
    }
    proof {
        lemma_position_skips(s@, c, 0, i as int);
    }
    None
}

/// A constructor parameter: the type of the component to inject, and optionally the name of the
/// instance to inject.
#[derive(Clone, Debug)]
pub struct ConstructorParameter {
    pub component_type: String,
    pub name: Option<String>,
}

/// Whether `p` is the parameter written as `text`: the text up to the first `/` is the type and
/// the rest the name; without a `/`, the whole text is the type and there is no name.
pub open spec fn parameter_of(text: Seq<char>, p: ConstructorParameter) -> bool {
    match position_of(text, '/', 0) {
        Some(i) => {
            &&& p.component_type@ == text.subrange(0, i)
            &&& p.name matches Some(n) && n@ == text.subrange(i + 1, text.len() as int)
        },
        None => {
            &&& p.component_type@ == text
            &&& p.name is None
        },
    }
}

impl<'a> From<&'a str> for ConstructorParameter {
    fn from(value: &'a str) -> (r: Self)
        ensures
            parameter_of(value@, r),
    {
        match find_char(value, '/') {
            Some(i) => {
                proof {
                    lemma_position_found(value@, '/', 0);
                }
                let n = value.unicode_len();
                let component_type = value.substring_char(0, i);
                let name = value.substring_char(i + 1, n);
                ConstructorParameter {
                    component_type: component_type.to_string(),
                    name: Some(name.to_string()),
                }
            },
            None => ConstructorParameter { component_type: value.to_string(), name: None },
        }
    }
}

/// What `from` gives is stated by [parameter_of], on its `ensures`: a parameter is fixed by its
/// text only up to the identity of its strings, which no text determines, so `from` is not
/// claimed to give one particular value.
impl<'a> vstd::std_specs::convert::FromSpecImpl<&'a str> for ConstructorParameter {
    open spec fn obeys_from_spec() -> bool {
        false
    }

    open spec fn from_spec(value: &'a str) -> ConstructorParameter {
        choose|p: ConstructorParameter| parameter_of(value@, p)
    }
}

/// The pieces of `s` between the occurrences of `c`, in order; a string without `c` is one
/// piece.
pub open spec fn split_all(s: Seq<char>, c: char) -> Seq<Seq<char>>
    decreases s.len(),
{
    match position_of(s, c, 0) {
        Some(i) => if 0 <= i < s.len() {
            seq![s.subrange(0, i)] + split_all(s.subrange(i + 1, s.len() as int), c)
        } else {
            seq![s]
        },
        None => seq![s],
    }
}

/// Parses a comma-separated list of constructor parameters, each piece taken as written.
pub fn parse_constructor_parameters(value: &str) -> (r: Vec<ConstructorParameter>)
    ensures
        r@.len() == split_all(value@, ',').len(),
        forall|k: int| 0 <= k < r@.len() ==> parameter_of(split_all(value@, ',')[k], #[trigger] r@[k]),
{
    let mut r: Vec<ConstructorParameter> = Vec::new();
    let mut rest: &str = value;
    let ghost mut pieces: Seq<Seq<char>> = Seq::empty();
    loop
        invariant
            pieces.len() == r@.len(),
            forall|k: int| 0 <= k < r@.len() ==> parameter_of(pieces[k], #[trigger] r@[k]),
            pieces + split_all(rest@, ',') == split_all(value@, ','),
        decreases rest@.len(),
    {
        match find_char(rest, ',') {
            Some(i) => {
                proof {
                    lemma_position_found(rest@, ',', 0);
                }
                let n = rest.unicode_len();
                let piece = rest.substring_char(0, i);
                let tail = rest.substring_char(i + 1, n);
                let ghost before = rest@;
                r.push(ConstructorParameter::from(piece));
                proof {
                    assert(split_all(before, ',') == seq![piece@] + split_all(tail@, ','));
                    assert(pieces.push(piece@) + split_all(tail@, ',') =~= pieces + split_all(before, ','));
                    pieces = pieces.push(piece@);
                }
                rest = tail;
            },
            None => {
                let ghost last = rest@;
                r.push(ConstructorParameter::from(rest));
                proof {
                    assert(split_all(last, ',') == seq![last]);
                    pieces = pieces.push(last);
                    assert(pieces =~= split_all(value@, ','));
                }
                return r;
            },
        }
    }
}

/// What a name turns into in snake case, as `convert_case` computes it with its default word
/// boundaries.
pub uninterp spec fn snake_case(ident: Seq<char>) -> Seq<char>;

/// Converts an identifier to snake case (`Casing::to_case` with `Case::Snake`); the result is
/// named, not stated.
#[verifier::external_body]
fn to_snake_case(ident: &str) -> (r: String)
    ensures
        r@ == snake_case(ident@),
{
    ident.to_case(convert_case::Case::Snake)
}

/// The string values among the given names, in order.
pub open spec fn literal_names(names: Seq<Option<String>>) -> Seq<Seq<char>>
    decreases names.len(),
{
    if names.len() == 0 {
        Seq::empty()
    } else {
        let before = literal_names(names.drop_last());
        match names.last() {
            Some(s) => before.push(s@),
            None => before,
        }
    }
}

/// The string values among the given optional strings, in order.
pub fn literal_values(names: &Vec<Option<String>>) -> (r: Vec<String>)
    ensures
        string_views(r@) == literal_names(names@),
{
    let mut r: Vec<String> = Vec::new();
    let mut i: usize = 0;
    while i < names.len()
        invariant
            i <= names.len(),
            string_views(r@) == literal_names(names@.take(i as int)),
        decreases names.len() - i,
    {
        assert(names@.take(i + 1).drop_last() =~= names@.take(i as int));
        match &names[i] {
            Some(s) => {
                r.push(s.clone());
                assert(string_views(r@) =~= literal_names(names@.take(i as int)).push(s@));
            },
            None => {},
        }
        i += 1;
    }
    assert(names@.take(names@.len() as int) =~= names@);
    r
}

/// The names a component is registered under: the string values among the names given in its
/// attribute (an element that is no string literal is `None`), or, without the attribute, its
/// identifier in snake case.
pub fn generate_names(attribute_names: Option<Vec<Option<String>>>, ident: &str) -> (r: Vec<String>)
    ensures
        match attribute_names {
            Some(names) => string_views(r@) == literal_names(names@),
            None => string_views(r@) == seq![snake_case(ident@)],
        },
{
    match attribute_names {
        Some(names) => literal_values(&names),
        None => {
            let mut r: Vec<String> = Vec::new();
            r.push(to_snake_case(ident));
            assert(string_views(r@) =~= seq![snake_case(ident@)]);
            r
        },
    }
}

} // verus!
