//! Identifiers.
use vstd::prelude::*;

verus! {

/// A lower-case hexadecimal digit.
pub open spec fn is_hex(c: char) -> bool {
    ('0' <= c && c <= '9') || ('a' <= c && c <= 'f')
}

/// Thirty-two hexadecimal digits.
pub open spec fn is_simple_uuid(s: Seq<char>) -> bool {
    &&& s.len() == 32
    &&& forall|i: int| 0 <= i < s.len() ==> is_hex(#[trigger] s[i])
}

/// Thirty-two hexadecimal digits in groups of 8, 4, 4, 4 and 12, joined by hyphens.
pub open spec fn is_uuid(s: Seq<char>) -> bool {
    &&& s.len() == 36
    &&& forall|i: int|
        0 <= i < s.len() ==> if i == 8 || i == 13 || i == 18 || i == 23 {
            #[trigger] s[i] == '-'
        } else {
            is_hex(s[i])
        }
}

/// `uuid::Uuid::new_v4` in its simple form: a random id, of which only the
/// shape is known.
#[verifier::external_body]
pub(crate) fn random_simple() -> (r: String)
    ensures
        is_simple_uuid(r@),
{
    uuid::Uuid::new_v4().simple().to_string()
}

/// `uuid::Uuid::new_v4` in its hyphenated form: a random id, of which only the
/// shape is known.
#[verifier::external_body]
pub(crate) fn random_hyphenated() -> (r: String)
    ensures
        is_uuid(r@),
{
    uuid::Uuid::new_v4().to_string()
}

/// The text of the name-based id (version 5) of a name in a namespace.
pub uninterp spec fn uuid_v5(namespace: u128, name: Seq<char>) -> Seq<char>;

/// `uuid::Uuid::new_v5` over the UTF-8 bytes of a name, in its hyphenated form.
/// Which digits come out is left to the name `uuid_v5`.
#[verifier::external_body]
pub(crate) fn named(namespace: u128, name: &str) -> (r: String)
    ensures
        r@ == uuid_v5(namespace, name@),
        is_uuid(r@),
{
    uuid::Uuid::new_v5(&uuid::Uuid::from_u128(namespace), name.as_bytes()).to_string()
}

} // verus!
