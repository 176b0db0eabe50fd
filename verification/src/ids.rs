//! Ids for devices and transfers.

use vstd::prelude::*;

verus! {

/// Whether a character is a lowercase hexadecimal digit.
pub open spec fn is_hex(c: char) -> bool {
    ('0' <= c <= '9') || ('a' <= c <= 'f')
}

/// Whether a text is a random UUID in its usual form: 36 characters, hyphens
/// at four places, lowercase hexadecimal digits elsewhere, with the digits for
/// version 4 and for the variant in their places.
pub open spec fn is_random_uuid(s: Seq<char>) -> bool {
    &&& s.len() == 36
    &&& s[8] == '-' && s[13] == '-' && s[18] == '-' && s[23] == '-'
    &&& forall|i: int|
        0 <= i < 36 && i != 8 && i != 13 && i != 18 && i != 23 ==> is_hex(#[trigger] s[i])
    &&& s[14] == '4'
    &&& s[19] == '8' || s[19] == '9' || s[19] == 'a' || s[19] == 'b'
}

/// `Uuid::new_v4` of the `uuid` crate, written out as text: some random UUID.
/// That two calls give different ids is left unsaid, for it rests on chance.
/// The call panics where the system has no randomness to give.
#[verifier::external_body]
fn random_uuid() -> (r: String)
    ensures
        is_random_uuid(r@),
{
    uuid::Uuid::new_v4().to_string()
}

/// A new id.
pub fn fresh_id() -> (r: String)
    ensures
        is_random_uuid(r@),
{
    random_uuid()
}

/// The given id, or a new one where none is given.
pub fn id_or_fresh(given: Option<String>) -> (r: String)
    ensures
        match given {
            Some(id) => r@ == id@,
            None => is_random_uuid(r@),
        },
{
    match given {
        Some(id) => id,
        None => random_uuid(),
    }
}

} // verus!
