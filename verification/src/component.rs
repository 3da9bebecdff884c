//! Component identifiers.
use vstd::prelude::*;
use uuid::Uuid;

verus! {

/// The identifier of a component.
pub type ComponentID = String;

/// A lowercase hexadecimal digit.
pub open spec fn is_lower_hex(c: char) -> bool {
    ('0' <= c && c <= '9') || ('a' <= c && c <= 'f')
}

/// The hyphenated lowercase text of a version-4 (random) UUID: 36 characters, hyphens at
/// positions 8, 13, 18 and 23, lowercase hexadecimal digits elsewhere, the version digit
/// `4` at position 14 and a variant digit among `8`, `9`, `a`, `b` at position 19.
pub open spec fn is_uuid_v4_text(s: Seq<char>) -> bool {
    &&& s.len() == 36
    &&& forall|i: int| 0 <= i < 36 ==> (if i == 8 || i == 13 || i == 18 || i == 23 {
        s[i] == '-'
    } else {
        is_lower_hex(#[trigger] s[i])
    })
    &&& s[14] == '4'
    &&& (s[19] == '8' || s[19] == '9' || s[19] == 'a' || s[19] == 'b')
}

/// `Uuid::new_v4()` rendered with `to_string()`: the crate masks a random 128-bit number to
/// version 4 and the RFC variant, and renders a UUID in hyphenated lowercase form. Which
/// UUID comes out is left open: it is random.
#[verifier::external_body]
fn random_uuid_text() -> (r: String)
    ensures
        is_uuid_v4_text(r@),
{
    Uuid::new_v4().to_string()
}

/// A new, random component identifier.
pub fn new_component_id() -> (r: ComponentID)
    ensures
        is_uuid_v4_text(r@),
{
    random_uuid_text()
}

} // verus!
