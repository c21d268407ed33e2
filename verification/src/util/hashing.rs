//! Identity derivation from textual keys.
//!
//! Every place that turns a textual key into a point identity goes through
//! [`string_to_u64`], so that a record written under a key is found again by
//! a deletion that names the same key.

use std::hash::{Hash, Hasher};
use twox_hash::XxHash64;
use vstd::prelude::*;

verus! {

/// The 64-bit digest that `twox_hash::XxHash64`, seeded with zero, yields
/// after the text has been fed to it through `str`'s `Hash` impl.
pub uninterp spec fn xxhash64_of_text(text: Seq<char>) -> u64;

/// The identity of a record whose designated field is textual.
pub open spec fn text_identity(text: Seq<char>) -> u64 {
    xxhash64_of_text(text)
}

/// Calls `XxHash64::default()`, `str::hash` and `Hasher::finish`.
///
/// Trusted: the digest depends on the text alone (the seed is fixed at zero
/// and the hasher starts empty), so it is the named digest of the text.
#[verifier::external_body]
fn xxhash64(s: &str) -> (digest: u64)
    ensures
        digest == xxhash64_of_text(s@),
{
    let mut hasher = XxHash64::default();
    s.hash(&mut hasher);
    hasher.finish()
}

/// Derives the 64-bit identity of a textual key.
///
/// The result is a function of the text alone: equal texts give equal
/// identities, in every call and every process.
pub fn string_to_u64(s: &str) -> (id: u64)
    ensures
        id == text_identity(s@),
{
    xxhash64(s)
}

/// The value of the field that a record's identity is derived from.
#[derive(Debug, PartialEq, Eq)]
pub enum IdentityField {
    /// A textual field.
    Text(String),
    /// A numeric field.
    Number(u64),
}

/// The identity that a field gives: the digest of a text, a number itself.
pub open spec fn field_identity(field: IdentityField) -> u64 {
    match field {
        IdentityField::Text(text) => text_identity(text@),
        IdentityField::Number(number) => number,
    }
}

/// Derives a record's identity from its designated field.
pub fn identity(field: &IdentityField) -> (id: u64)
    ensures
        id == field_identity(*field),
{
    match field {
        IdentityField::Text(text) => string_to_u64(text.as_str()),
        IdentityField::Number(number) => *number,
    }
}

} // verus!
