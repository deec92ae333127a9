//! Identifiers nobody has used before.

use vstd::prelude::*;

verus! {

/// Thirty-two lower-case hexadecimal digits.
pub open spec fn is_id(s: Seq<char>) -> bool {
    &&& s.len() == 32
    &&& forall|i: int| 0 <= i < s.len() ==> is_hex(#[trigger] s[i])
}

/// A lower-case hexadecimal digit.
pub open spec fn is_hex(c: char) -> bool {
    '0' <= c <= '9' || 'a' <= c <= 'f'
}

/// Trusted: `uuid::Uuid::now_v7` in its simple form is 32 lower-case hexadecimal digits. Which ones
/// depends on the time and on chance.
#[verifier::external_body]
pub(crate) fn ordered_id() -> (r: String)
    ensures
        is_id(r@),
{
    uuid::Uuid::now_v7().simple().to_string()
}

/// Whether bytes carry the marks of a random identifier: version 4, in the standard variant.
pub open spec fn is_random_id(bytes: Seq<u8>) -> bool {
    bytes.len() == 16 && bytes[6] / 16 == 4 && bytes[8] / 64 == 2
}

/// Trusted: `uuid::Uuid::new_v4` has version 4 and the standard variant; its other bits depend on
/// chance.
#[verifier::external_body]
pub(crate) fn random_id() -> (r: [u8; 16])
    ensures
        is_random_id(r@),
{
    uuid::Uuid::new_v4().into_bytes()
}

} // verus!
