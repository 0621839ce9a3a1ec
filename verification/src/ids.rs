//! Identifiers that are made up on the spot.

use crate::hostpath;
use crate::text;
use vstd::prelude::*;

verus! {

broadcast use vstd::string::group_string_axioms;

/// Whether a character is a lowercase hexadecimal digit.
pub open spec fn is_hex(c: char) -> bool {
    '0' <= c <= '9' || 'a' <= c <= 'f'
}

/// Whether a character is the variant digit of a UUID.
pub open spec fn is_variant_digit(c: char) -> bool {
    c == '8' || c == '9' || c == 'a' || c == 'b'
}

/// Whether a text is a UUID of a version, in groups with hyphens between them.
pub open spec fn is_uuid(text: Seq<char>, version: char) -> bool {
    &&& text.len() == 36
    &&& forall|i: int|
        0 <= i < 36 ==> if i == 8 || i == 13 || i == 18 || i == 23 {
            #[trigger] text[i] == '-'
        } else {
            is_hex(text[i])
        }
    &&& text[14] == version
    &&& is_variant_digit(text[19])
}

/// Whether a text is a UUID of a version, without hyphens.
pub open spec fn is_simple_uuid(text: Seq<char>, version: char) -> bool {
    &&& text.len() == 32
    &&& forall|i: int| 0 <= i < 32 ==> is_hex(#[trigger] text[i])
    &&& text[12] == version
    &&& is_variant_digit(text[16])
}

/// `uuid::Uuid::now_v7`, written with hyphens: a UUID of version 7, made from
/// the time and random bits. Which one is left to chance.
#[verifier::external_body]
pub(crate) fn time_ordered_id() -> (r: String)
    ensures
        is_uuid(r@, '7'),
{
    uuid::Uuid::now_v7().to_string()
}

/// `uuid::Uuid::new_v4`, written without hyphens: a UUID of version 4, made from
/// random bits. Which one is left to chance.
#[verifier::external_body]
pub(crate) fn random_id() -> (r: String)
    ensures
        is_simple_uuid(r@, '4'),
{
    uuid::Uuid::new_v4().simple().to_string()
}

/// Whether a path is one of a directory that was made up under `parent`.
pub open spec fn is_fresh_directory(
    path: Seq<char>,
    parent: Seq<char>,
    prefix: Seq<char>,
) -> bool {
    exists|id: Seq<char>|
        #[trigger] is_uuid(id, '7') && path == hostpath::joined(parent, prefix + id)
}

/// A directory under `parent` whose name is made up, behind a prefix.
pub(crate) fn fresh_directory(parent: &str, prefix: &str) -> (r: String)
    ensures
        is_fresh_directory(r@, parent@, prefix@),
{
    let id = time_ordered_id();
    let name = text::concat(prefix, id.as_str());
    hostpath::join(parent, name.as_str())
}

} // verus!
