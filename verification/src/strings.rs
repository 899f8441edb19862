//! Small verified helpers for building `String` values character by
//! character, together with the decimal rendering used by the listing
//! formatter.

use vstd::prelude::*;

verus! {

/// Relies on `String::push`: appends exactly one character to the string.
#[verifier::external_body]
pub fn push_char(s: &mut String, c: char)
    ensures
        final(s)@ == old(s)@.push(c),
{
    s.push(c);
}

/// The decimal digit character for a value below ten.
pub open spec fn dec_digit(v: nat) -> char
    recommends
        v < 10,
{
    (48 + v) as char
}

/// The decimal rendering of `v`, most significant digit first, with no
/// leading zeros (a single `'0'` for zero).
pub open spec fn dec_digits(v: nat) -> Seq<char>
    decreases v,
{
    if v < 10 {
        seq![dec_digit(v)]
    } else {
        dec_digits(v / 10).push(dec_digit(v % 10))
    }
}

/// Appends the decimal rendering of `v` to `s`.
pub fn push_u64_decimal(s: &mut String, v: u64)
    ensures
        final(s)@ == old(s)@ + dec_digits(v as nat),
    decreases v,
{
    if v < 10 {
        let c = (48 + v as u8) as char;
        assert(c == dec_digit(v as nat)) by {
            assert(48 + (v as nat) < 128);
        }
        push_char(s, c);
        assert(s@ =~= old(s)@ + dec_digits(v as nat));
    } else {
        push_u64_decimal(s, v / 10);
        let d = v % 10;
        let c = (48 + d as u8) as char;
        assert(c == dec_digit((v as nat) % 10));
        push_char(s, c);
        assert(s@ =~= old(s)@ + dec_digits(v as nat));
    }
}

/// The decimal rendering of `v` as a fresh string.
pub fn u64_to_decimal(v: u64) -> (r: String)
    ensures
        r@ == dec_digits(v as nat),
{
    let mut s = String::new();
    push_u64_decimal(&mut s, v);
    assert(s@ =~= dec_digits(v as nat));
    s
}

} // verus!
