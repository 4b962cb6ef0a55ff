//! Bindings to code outside the verified library.
//!
//! Each function here is trusted: its body makes one call into std or an
//! outside crate, and its contract states only what that call's
//! documentation promises.  Everything else in the crate is verified
//! against these contracts.

use vstd::prelude::*;

verus! {

/// Relies on `str::chars` and `Iterator::collect`: the characters of a
/// string slice, in order.
#[verifier::external_body]
pub fn str_to_chars(s: &str) -> (r: Vec<char>)
    ensures
        r@ == s@,
{
    s.chars().collect()
}

/// Relies on `Iterator::collect` for `String`: the string made of exactly
/// the given characters, in order.
#[verifier::external_body]
pub fn chars_to_string(v: &Vec<char>) -> (r: String)
    ensures
        r@ == v@,
{
    v.iter().collect()
}

/// Relies on `char::from_u32`: `Some` exactly for Unicode scalar values
/// (not a surrogate, at most 0x10FFFF), and the returned character has the
/// given code point.
#[verifier::external_body]
pub fn char_from_u32(u: u32) -> (r: Option<char>)
    ensures
        match r {
            Some(c) => c as u32 == u && !(0xD800 <= u < 0xE000) && u <= 0x10FFFF,
            None => 0xD800 <= u < 0xE000 || u > 0x10FFFF,
        },
{
    char::from_u32(u)
}

/// Relies on `uuid::Uuid::new_v4` and its `Display` form: a freshly drawn
/// random version-4 UUID in the documented 36-character hyphenated form.
/// Nothing can be promised about which identifier comes back.
#[verifier::external_body]
pub fn fresh_uuid() -> (r: String)
    ensures
        r@.len() == 36,
{
    uuid::Uuid::new_v4().to_string()
}

/// Relies on `chrono::Utc::now`, read out as epoch seconds with
/// `DateTime::timestamp`.  The wall clock can move arbitrarily, so nothing
/// is promised about the value.
#[verifier::external_body]
pub fn now_epoch_seconds() -> (r: i64) {
    chrono::Utc::now().timestamp()
}

} // verus!
