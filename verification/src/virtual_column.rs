//! Virtual column names: a read of an inner field of a variant column is
//! rewritten to a named virtual column, so the storage layer can serve the
//! already extracted data. The key-path text is parsed by an outside
//! library; building the column's name from the parsed path is the core's
//! own logic.

use vstd::prelude::*;
use crate::text::dec_digits;
use crate::text::u64_to_dec_string;

verus! {

/// One step of a key path into a variant value.
#[derive(Clone, PartialEq, Eq, Debug)]
pub enum KeyPathPart {
    /// An array index; negative values index from the end.
    Index(i32),
    /// A quoted object field name.
    QuotedName(String),
    /// A bare object field name.
    Name(String),
}

/// The ghost image of one parsed key-path step.
pub enum KeyPathV {
    Index(i32),
    QuotedName(Seq<char>),
    Name(Seq<char>),
}

pub uninterp spec fn key_paths_of(input: Seq<u8>) -> Option<Seq<KeyPathV>>;

/// Whether the bytes hold a double-quote character.
pub open spec fn has_quote_byte(input: Seq<u8>) -> bool {
    exists|i: int| 0 <= i < input.len() && input[i] == 34u8
}

/// Whether the bytes hold a double-quote character.
fn contains_quote(input: &[u8]) -> (r: bool)
    ensures
        r == has_quote_byte(input@),
{
    let n = input.len();
    for i in 0..n
        invariant
            n == input@.len(),
            forall|j: int| 0 <= j < i ==> input@[j] != 34u8,
    {
        if input[i] == 34u8 {
            return true;
        }
    }
    false
}

/// A parsed step corresponds to its ghost image.
pub open spec fn key_path_part_matches(p: KeyPathPart, v: KeyPathV) -> bool {
    match (p, v) {
        (KeyPathPart::Index(a), KeyPathV::Index(b)) => a == b,
        (KeyPathPart::QuotedName(a), KeyPathV::QuotedName(b)) => a@ == b,
        (KeyPathPart::Name(a), KeyPathV::Name(b)) => a@ == b,
        _ => false,
    }
}

/// Relies on `jsonb::keypath::parse_key_paths`: whether the text parses,
/// and the steps it parses to, depend on the input bytes alone. The
/// library's quoted-name scanner runs past the end of the input when a
/// double quote opens a name that never closes, so quote-bearing inputs
/// are kept away from the call altogether.
#[verifier::external_body]
fn parse_key_paths(input: &[u8]) -> (r: Option<Vec<KeyPathPart>>)
    requires
        !has_quote_byte(input@),
    ensures
        r.is_some() == key_paths_of(input@).is_some(),
        r matches Option::Some(parts) ==> key_paths_of(input@) matches Option::Some(v)
            && parts@.len() == v.len() && forall|i: int|
            0 <= i < v.len() ==> key_path_part_matches(#[trigger] parts@[i], v[i]),
{
    match jsonb::keypath::parse_key_paths(input) {
        Ok(paths) => Option::Some(
            paths
                .paths
                .iter()
                .map(|p| match p {
                    jsonb::keypath::KeyPath::Index(i) => KeyPathPart::Index(*i),
                    jsonb::keypath::KeyPath::QuotedName(n) => KeyPathPart::QuotedName(n.to_string()),
                    jsonb::keypath::KeyPath::Name(n) => KeyPathPart::Name(n.to_string()),
                })
                .collect(),
        ),
        Err(_) => Option::None,
    }
}

/// The rendering of a signed index.
pub open spec fn int_dec_digits(i: int) -> Seq<char> {
    if i < 0 {
        seq!['-'] + dec_digits((-i) as nat)
    } else {
        dec_digits(i as nat)
    }
}

/// The rendered text of one path step inside its brackets: an index as its
/// number, a field name in single quotes.
pub open spec fn key_path_text(v: KeyPathV) -> Seq<char> {
    match v {
        KeyPathV::Index(i) => int_dec_digits(i as int),
        KeyPathV::QuotedName(n) => seq!['\''] + n + seq!['\''],
        KeyPathV::Name(n) => seq!['\''] + n + seq!['\''],
    }
}

/// The virtual column's name: the base column followed by each path step
/// in brackets.
pub open spec fn virtual_column_name_spec(base: Seq<char>, v: Seq<KeyPathV>, upto: int) -> Seq<
    char,
>
    decreases upto,
{
    if upto <= 0 {
        base
    } else {
        virtual_column_name_spec(base, v, upto - 1) + seq!['['] + key_path_text(v[upto - 1])
            + seq![']']
    }
}

/// Renders a signed index.
fn i32_to_dec_string(i: i32) -> (r: String)
    ensures
        r@ == int_dec_digits(i as int),
{
    proof {
        reveal_strlit("-");
    }
    if i < 0 {
        let mut s = "-".to_owned();
        let magnitude = if i == i32::MIN {
            2147483648u64
        } else {
            (-i) as u64
        };
        s.append(u64_to_dec_string(magnitude).as_str());
        proof {
            assert(s@ =~= int_dec_digits(i as int));
        }
        s
    } else {
        u64_to_dec_string(i as u64)
    }
}

/// Builds the virtual column's name from the base column and the parsed
/// path steps.
pub fn build_virtual_column_name(column_name: &str, paths: &Vec<KeyPathPart>, Ghost(v): Ghost<
    Seq<KeyPathV>,
>) -> (r: String)
    requires
        paths@.len() == v.len(),
        forall|i: int| 0 <= i < v.len() ==> key_path_part_matches(#[trigger] paths@[i], v[i]),
    ensures
        r@ == virtual_column_name_spec(column_name@, v, v.len() as int),
{
    proof {
        reveal_strlit("[");
        reveal_strlit("]");
        reveal_strlit("'");
    }
    let mut name = column_name.to_owned();
    let n = paths.len();
    for i in 0..n
        invariant
            n == paths@.len(),
            n == v.len(),
            forall|j: int| 0 <= j < v.len() ==> key_path_part_matches(#[trigger] paths@[j], v[j]),
            name@ == virtual_column_name_spec(column_name@, v, i as int),
            "["@ == seq!['['],
            "]"@ == seq![']'],
            "'"@ == seq!['\''],
    {
        name.append("[");
        match &paths[i] {
            KeyPathPart::Index(idx) => {
                name.append(i32_to_dec_string(*idx).as_str());
            },
            KeyPathPart::QuotedName(field) => {
                name.append("'");
                name.append(field.as_str());
                name.append("'");
            },
            KeyPathPart::Name(field) => {
                name.append("'");
                name.append(field.as_str());
                name.append("'");
            },
        }
        name.append("]");
        proof {
            assert(name@ =~= virtual_column_name_spec(column_name@, v, i as int + 1));
        }
    }
    name
}

/// Parses a key-path text and, when it parses, builds the virtual column
/// name it denotes over the base column. Text that does not parse yields
/// nothing, as does text holding a double quote: quoted field names are
/// not accepted here, which keeps the parser away from inputs it cannot
/// handle.
pub fn virtual_column_name_for_path(column_name: &str, path: &[u8]) -> (r: Option<String>)
    ensures
        r.is_some() == (!has_quote_byte(path@) && key_paths_of(path@).is_some()),
        r matches Option::Some(name) ==> key_paths_of(path@) matches Option::Some(v) && name@
            == virtual_column_name_spec(column_name@, v, v.len() as int),
{
    if contains_quote(path) {
        return Option::None;
    }
    match parse_key_paths(path) {
        Option::Some(parts) => {
            let ghost v = key_paths_of(path@).unwrap();
            Option::Some(build_virtual_column_name(column_name, &parts, Ghost(v)))
        },
        Option::None => Option::None,
    }
}

} // verus!
