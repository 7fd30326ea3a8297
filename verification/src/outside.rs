//! The trusted boundary to the outside crates.
//!
//! Each wrapper makes exactly one outside call; its contract names the
//! result through an uninterpreted function of the argument text, since
//! both parsers are deterministic functions of their input alone.

use vstd::prelude::*;

verus! {

/// The canonical hyphenated text of the filesystem identifier that `s`
/// spells, if `s` spells one.
pub uninterp spec fn uuid_canonical_of(s: Seq<char>) -> Option<Seq<char>>;

/// Relies on `uuid::Uuid::parse_str` (parses the hexadecimal identifier
/// formats, returns `Err` on anything else) and on `uuid::Uuid`'s `Display`
/// (the canonical lowercase hyphenated form). Both depend on the input text
/// alone.
#[verifier::external_body]
pub fn parse_uuid_canonical(s: &str) -> (r: Option<String>)
    ensures
        r is Some <==> uuid_canonical_of(s@) is Some,
        r is Some ==> r->Some_0@ == uuid_canonical_of(s@)->Some_0,
{
    match uuid::Uuid::parse_str(s) {
        Ok(u) => Some(u.to_string()),
        Err(_) => None,
    }
}

/// The number of bytes that the human-readable quantity `s` names
/// (for instance `512 KiB`), if `s` is well-formed.
pub uninterp spec fn byte_quantity_of(s: Seq<char>) -> Option<u64>;

/// Relies on `byte_unit::Byte::parse_str` (unit suffixes with case ignored
/// on the byte unit, `Err` on malformed text) and `Byte::as_u64`; the result
/// depends on the input text alone.
#[verifier::external_body]
pub fn parse_byte_quantity(s: &str) -> (r: Option<u64>)
    ensures
        r == byte_quantity_of(s@),
{
    match byte_unit::Byte::parse_str(s, true) {
        Ok(b) => Some(b.as_u64()),
        Err(_) => None,
    }
}

} // verus!
