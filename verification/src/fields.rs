//! The per-field codec of the 512-byte header block: text fields are
//! NUL- and non-ASCII-filtered byte runs, numeric fields are octal ASCII
//! digit strings.  Every field is decoded independently from its
//! `(byte offset, byte length)` region, and a numeric field that fails to
//! parse degrades to zero rather than aborting the decode.

use vstd::prelude::*;
use crate::strings::push_char;

verus! {

/// An ASCII decimal digit byte (`'0'` through `'9'`).
pub open spec fn is_digit_byte(b: u8) -> bool {
    48 <= b <= 57
}

/// An ASCII octal digit byte (`'0'` through `'7'`).
pub open spec fn is_octal_byte(b: u8) -> bool {
    48 <= b <= 55
}

/// The decimal digit bytes of a raw field, in order, with everything else
/// dropped.
pub open spec fn digits_of(raw: Seq<u8>) -> Seq<u8>
    decreases raw.len(),
{
    if raw.len() == 0 {
        Seq::empty()
    } else {
        let prefix = digits_of(raw.drop_last());
        if is_digit_byte(raw.last()) {
            prefix.push(raw.last())
        } else {
            prefix
        }
    }
}

/// Every byte of the sequence is an octal digit.
pub open spec fn all_octal(ds: Seq<u8>) -> bool {
    forall|i: int| 0 <= i < ds.len() ==> is_octal_byte(#[trigger] ds[i])
}

/// The value of a digit string read in base eight, most significant digit
/// first.
pub open spec fn octal_fold(ds: Seq<u8>) -> int
    decreases ds.len(),
{
    if ds.len() == 0 {
        0
    } else {
        octal_fold(ds.drop_last()) * 8 + (ds.last() - 48)
    }
}

/// Eight to the `n`th power: the number of values a run of `n` octal
/// digits can express.
pub open spec fn pow8(n: nat) -> nat
    decreases n,
{
    if n == 0 {
        1nat
    } else {
        8 * pow8((n - 1) as nat)
    }
}

/// The value of a numeric field region: keep the decimal digit bytes,
/// read them in base eight; an empty digit run, a digit eight or nine, or
/// a value beyond `max` all degrade to zero.
pub open spec fn field_number(raw: Seq<u8>, max: nat) -> nat {
    let ds = digits_of(raw);
    if ds.len() == 0 || !all_octal(ds) || octal_fold(ds) > max {
        0
    } else {
        octal_fold(ds) as nat
    }
}

/// A byte kept by text-field decoding: not NUL and ASCII.
pub open spec fn keep_text_byte(b: u8) -> bool {
    b != 0 && b < 128
}

/// The characters of a text field region: NUL bytes and non-ASCII bytes
/// dropped, the rest read as characters.
pub open spec fn text_filter(raw: Seq<u8>) -> Seq<char>
    decreases raw.len(),
{
    if raw.len() == 0 {
        Seq::empty()
    } else {
        let prefix = text_filter(raw.drop_last());
        if keep_text_byte(raw.last()) {
            prefix.push(raw.last() as char)
        } else {
            prefix
        }
    }
}

/// A fold over a digit run stays below eight to the run's length.
pub proof fn lemma_octal_fold_bound(ds: Seq<u8>)
    requires
        all_octal(ds),
    ensures
        0 <= octal_fold(ds) < pow8(ds.len()),
    decreases ds.len(),
{
    if ds.len() > 0 {
        assert(all_octal(ds.drop_last())) by {
            assert(forall|i: int|
                0 <= i < ds.len() - 1 ==> #[trigger] ds.drop_last()[i] == ds[i]);
        }
        lemma_octal_fold_bound(ds.drop_last());
    }
}

/// A sum of the byte values of a sequence.
pub open spec fn sum_bytes(s: Seq<u8>) -> int
    decreases s.len(),
{
    if s.len() == 0 {
        0
    } else {
        sum_bytes(s.drop_last()) + s.last()
    }
}

/// A byte sum lies between zero and 255 per byte.
pub proof fn lemma_sum_bytes_bound(s: Seq<u8>)
    ensures
        0 <= sum_bytes(s) <= 255 * s.len(),
    decreases s.len(),
{
    if s.len() > 0 {
        lemma_sum_bytes_bound(s.drop_last());
    }
}

/// Decodes a numeric field: the value of the region's octal digit string,
/// or zero where the region holds no digits, a non-octal digit, or a value
/// beyond `max`.
pub fn decode_number(block: &[u8], off: usize, len: usize, max: u64) -> (r: u64)
    requires
        off + len <= block@.len(),
        len <= 12,
    ensures
        r == field_number(block@.subrange(off as int, off + len), max as nat),
        r <= max,
{
    let ghost raw = block@.subrange(off as int, off + len);
    let n = block.len();
    let mut val: u64 = 0;
    let mut count: usize = 0;
    let mut octal_ok: bool = true;
    let mut i: usize = 0;
    proof {
        lemma_pow8_monotone(0, 12);
    }
    while i < len
        invariant
            i <= len,
            len <= 12,
            off + len <= n == block@.len(),
            raw == block@.subrange(off as int, off + len),
            digits_of(raw.take(i as int)).len() == count,
            count <= i,
            octal_ok == all_octal(digits_of(raw.take(i as int))),
            octal_ok ==> val == octal_fold(digits_of(raw.take(i as int))),
            val < pow8(count as nat),
            pow8(count as nat) <= pow8(12),
        decreases len - i,
    {
        let b = block[off + i];
        let ghost ds_old = digits_of(raw.take(i as int));
        proof {
            assert(raw.take(i + 1).drop_last() =~= raw.take(i as int));
            assert(raw.take(i + 1).last() == b);
            lemma_pow8_monotone((count + 1) as nat, 12);
        }
        if 48 <= b && b <= 57 {
            proof {
                let dsn = digits_of(raw.take(i + 1));
                assert(dsn == ds_old.push(b));
                assert(dsn.drop_last() =~= ds_old);
                assert(forall|j: int| 0 <= j < ds_old.len() ==> #[trigger] dsn[j] == ds_old[j]);
                assert(dsn[ds_old.len() as int] == b);
                if is_octal_byte(b) && all_octal(ds_old) {
                    assert(all_octal(dsn));
                }
                if !is_octal_byte(b) {
                    assert(!all_octal(dsn));
                }
                if !all_octal(ds_old) {
                    let j = choose|j: int| 0 <= j < ds_old.len() && !is_octal_byte(ds_old[j]);
                    assert(!is_octal_byte(dsn[j]));
                    assert(!all_octal(dsn));
                }
                assert(octal_fold(dsn) == octal_fold(ds_old) * 8 + (b - 48));
            }
            if b <= 55 && octal_ok {
                assert(val * 8 + (b - 48) < pow8((count + 1) as nat)) by {
                    assert(pow8((count + 1) as nat) == 8 * pow8(count as nat));
                }
                assert(pow8(12) == 68719476736) by {
                    reveal_with_fuel(pow8, 13);
                }
                val = val * 8 + ((b - 48) as u64);
            } else {
                octal_ok = false;
            }
            count = count + 1;
        }
        i = i + 1;
    }
    assert(raw.take(len as int) =~= raw);
    let ghost ds = digits_of(raw);
    if count == 0 || !octal_ok || val > max {
        proof {
            if ds.len() != 0 && all_octal(ds) && octal_fold(ds) <= max {
                lemma_octal_fold_bound(ds);
            }
        }
        0
    } else {
        val
    }
}

/// Larger exponents give larger powers of eight.
pub proof fn lemma_pow8_monotone(a: nat, b: nat)
    requires
        a <= b,
    ensures
        pow8(a) <= pow8(b),
    decreases b,
{
    if a < b {
        lemma_pow8_monotone(a, (b - 1) as nat);
    }
}

/// A field keeps at most one digit per byte.
pub proof fn lemma_digits_len(raw: Seq<u8>)
    ensures
        digits_of(raw).len() <= raw.len(),
    decreases raw.len(),
{
    if raw.len() > 0 {
        lemma_digits_len(raw.drop_last());
    }
}

/// A numeric field's value stays below eight to the field's byte length.
pub proof fn lemma_field_number_small(raw: Seq<u8>, max: nat)
    ensures
        field_number(raw, max) < pow8(raw.len()),
{
    let ds = digits_of(raw);
    lemma_digits_len(raw);
    lemma_pow8_monotone(ds.len(), raw.len());
    if ds.len() == 0 || !all_octal(ds) || octal_fold(ds) > max {
        lemma_pow8_monotone(0, raw.len());
    } else {
        lemma_octal_fold_bound(ds);
    }
}

/// Decodes a text field: keeps the region's non-NUL ASCII bytes as
/// characters.
pub fn decode_text(block: &[u8], off: usize, len: usize) -> (r: String)
    requires
        off + len <= block@.len(),
    ensures
        r@ == text_filter(block@.subrange(off as int, off + len)),
{
    let ghost raw = block@.subrange(off as int, off + len);
    let n = block.len();
    let mut s = String::new();
    let mut i: usize = 0;
    while i < len
        invariant
            i <= len,
            off + len <= n == block@.len(),
            raw == block@.subrange(off as int, off + len),
            s@ == text_filter(raw.take(i as int)),
        decreases len - i,
    {
        let b = block[off + i];
        assert(raw.take(i + 1).drop_last() =~= raw.take(i as int));
        assert(raw.take(i + 1).last() == b);
        if b != 0 && b < 128 {
            push_char(&mut s, b as char);
        }
        i = i + 1;
    }
    assert(raw.take(len as int) =~= raw);
    s
}

/// A run of `n` NUL bytes.
pub open spec fn zeros(n: nat) -> Seq<u8> {
    Seq::new(n, |i: int| 0u8)
}

/// The `w` zero-padded octal digit bytes of `v`, most significant first.
pub open spec fn oct_digits(v: nat, w: nat) -> Seq<u8>
    decreases w,
{
    if w == 0 {
        Seq::empty()
    } else {
        oct_digits(v / 8, (w - 1) as nat).push((48 + v % 8) as u8)
    }
}

/// An encoded numeric field of width `w`: `w - 1` zero-padded octal
/// digits followed by a NUL byte.
pub open spec fn octal_field(v: nat, w: nat) -> Seq<u8>
    recommends
        w >= 1,
{
    oct_digits(v, (w - 1) as nat).push(0u8)
}

/// The single encoded byte of an ASCII character.
pub open spec fn ascii_byte(c: char) -> u8 {
    ((c as u32) & 0x7f) as u8
}

/// The bytes of an ASCII character sequence, one byte per character.
pub open spec fn text_bytes(s: Seq<char>) -> Seq<u8> {
    Seq::new(s.len(), |i: int| ascii_byte(s[i]))
}

/// The encoded byte of an ASCII character carries the character's value.
pub proof fn lemma_ascii_byte(c: char)
    requires
        (c as u32) < 128,
    ensures
        ascii_byte(c) as u32 == c as u32,
        ascii_byte(c) < 128,
        (c as u32) != 0 ==> ascii_byte(c) != 0,
        (ascii_byte(c) as char) == c,
{
    let cv = c as u32;
    assert(((cv & 0x7f) as u8) as u32 == cv && ((cv & 0x7f) as u8) < 128) by (bit_vector)
        requires
            cv < 128,
    ;
    assert((ascii_byte(c) as char) as u32 == ascii_byte(c) as u32);
}

/// For ASCII text the UTF-8 encoding is exactly one byte per character.
pub proof fn lemma_text_bytes_is_utf8(s: Seq<char>)
    requires
        vstd::utf8::is_ascii_chars(s),
    ensures
        vstd::utf8::encode_utf8(s) == text_bytes(s),
    decreases s.len(),
{
    if s.len() == 0 {
        assert(vstd::utf8::encode_utf8(s) =~= text_bytes(s));
    } else {
        let cv = s[0] as u32;
        assert(cv < 128);
        assert(vstd::utf8::has_width_1_encoding(cv));
        let rest = s.drop_first();
        assert(vstd::utf8::is_ascii_chars(rest)) by {
            assert(forall|i: int| 0 <= i < rest.len() ==> #[trigger] rest[i] == s[i + 1]);
        }
        lemma_text_bytes_is_utf8(rest);
        assert(vstd::utf8::encode_scalar(cv) == seq![ascii_byte(s[0])]);
        assert(vstd::utf8::encode_utf8(s) =~= text_bytes(s)) by {
            assert(forall|i: int|
                0 <= i < rest.len() ==> #[trigger] text_bytes(rest)[i] == text_bytes(s)[i + 1]);
        }
    }
}

/// An encoded text field of width `w`: the characters' bytes, NUL-padded.
pub open spec fn text_field(s: Seq<char>, w: nat) -> Seq<u8>
    recommends
        s.len() <= w,
{
    text_bytes(s) + zeros((w - s.len()) as nat)
}

/// Text that survives a text field round trip: ASCII and free of NUL.
pub open spec fn valid_text(s: Seq<char>) -> bool {
    forall|i: int| 0 <= i < s.len() ==> 0 < #[trigger] (s[i] as u32) < 128
}

/// The octal digit run of a value: `w` bytes, all octal digits.
pub proof fn lemma_oct_digits_props(v: nat, w: nat)
    ensures
        oct_digits(v, w).len() == w,
        all_octal(oct_digits(v, w)),
        digits_of(oct_digits(v, w)) == oct_digits(v, w),
    decreases w,
{
    if w > 0 {
        lemma_oct_digits_props(v / 8, (w - 1) as nat);
        let prev = oct_digits(v / 8, (w - 1) as nat);
        let whole = oct_digits(v, w);
        assert(whole.drop_last() =~= prev);
        assert(forall|i: int| 0 <= i < prev.len() ==> #[trigger] whole[i] == prev[i]);
        assert(is_octal_byte(whole.last()));
        assert(digits_of(whole) =~= whole);
    }
}

/// Reading back the octal digit run of a value below `pow8(w)` yields the
/// value again.
pub proof fn lemma_oct_digits_fold(v: nat, w: nat)
    requires
        v < pow8(w),
    ensures
        octal_fold(oct_digits(v, w)) == v,
    decreases w,
{
    if w == 0 {
    } else {
        assert(pow8(w) == 8 * pow8((w - 1) as nat));
        assert(v / 8 < pow8((w - 1) as nat));
        lemma_oct_digits_fold(v / 8, (w - 1) as nat);
        let whole = oct_digits(v, w);
        assert(whole.drop_last() =~= oct_digits(v / 8, (w - 1) as nat));
        assert(whole.last() == (48 + v % 8) as u8);
        assert(octal_fold(whole) == (v / 8) * 8 + v % 8);
        assert((v / 8) * 8 + v % 8 == v) by (nonlinear_arith);
    }
}

/// Trailing NUL padding adds no digits.
pub proof fn lemma_digits_of_pad(xs: Seq<u8>, k: nat)
    ensures
        digits_of(xs + zeros(k)) == digits_of(xs),
    decreases k,
{
    if k == 0 {
        assert(xs + zeros(0) =~= xs);
    } else {
        let shorter = xs + zeros((k - 1) as nat);
        assert((xs + zeros(k)).drop_last() =~= shorter);
        assert((xs + zeros(k)).last() == 0);
        lemma_digits_of_pad(xs, (k - 1) as nat);
    }
}

/// A numeric field region decodes back to the value it encodes, for any
/// value the field's digit run can hold.
pub proof fn lemma_octal_field_roundtrip(v: nat, w: nat, max: nat)
    requires
        1 <= w,
        v < pow8((w - 1) as nat),
        v <= max,
    ensures
        field_number(octal_field(v, w), max) == v,
{
    let ds0 = oct_digits(v, (w - 1) as nat);
    lemma_oct_digits_props(v, (w - 1) as nat);
    lemma_oct_digits_fold(v, (w - 1) as nat);
    assert(octal_field(v, w) =~= ds0 + zeros(1));
    lemma_digits_of_pad(ds0, 1);
    assert(digits_of(octal_field(v, w)) == ds0);
    if w == 1 {
        assert(ds0.len() == 0);
        assert(v == 0);
        assert(field_number(octal_field(v, w), max) == 0);
    }
}

/// Trailing NUL padding adds no text characters.
pub proof fn lemma_text_filter_pad(xs: Seq<u8>, k: nat)
    ensures
        text_filter(xs + zeros(k)) == text_filter(xs),
    decreases k,
{
    if k == 0 {
        assert(xs + zeros(0) =~= xs);
    } else {
        let shorter = xs + zeros((k - 1) as nat);
        assert((xs + zeros(k)).drop_last() =~= shorter);
        assert((xs + zeros(k)).last() == 0);
        lemma_text_filter_pad(xs, (k - 1) as nat);
    }
}

/// The bytes of ASCII NUL-free text decode back to the same characters.
pub proof fn lemma_text_bytes_filter(s: Seq<char>)
    requires
        valid_text(s),
    ensures
        text_filter(text_bytes(s)) == s,
    decreases s.len(),
{
    if s.len() == 0 {
        assert(text_filter(text_bytes(s)) =~= s);
    } else {
        let shorter = s.drop_last();
        assert(valid_text(shorter)) by {
            assert(forall|i: int|
                0 <= i < shorter.len() ==> #[trigger] shorter[i] == s[i]);
        }
        lemma_text_bytes_filter(shorter);
        assert(0 < (s[s.len() - 1] as u32) < 128);
        lemma_ascii_byte(s.last());
        assert(text_bytes(s).drop_last() =~= text_bytes(shorter));
        assert(text_bytes(s).last() == ascii_byte(s.last()));
        assert(keep_text_byte(ascii_byte(s.last())));
        assert(text_filter(text_bytes(s)) =~= s);
    }
}

/// A text field region decodes back to the text it encodes, for ASCII
/// NUL-free text within the field's width.
pub proof fn lemma_text_field_roundtrip(s: Seq<char>, w: nat)
    requires
        valid_text(s),
        s.len() <= w,
    ensures
        text_filter(text_field(s, w)) == s,
{
    lemma_text_filter_pad(text_bytes(s), (w - s.len()) as nat);
    lemma_text_bytes_filter(s);
}

/// A run of `n` ASCII space bytes.
pub open spec fn spaces(n: nat) -> Seq<u8> {
    Seq::new(n, |i: int| 32u8)
}

/// A byte sum splits over concatenation.
pub proof fn lemma_sum_bytes_concat(a: Seq<u8>, b: Seq<u8>)
    ensures
        sum_bytes(a + b) == sum_bytes(a) + sum_bytes(b),
    decreases b.len(),
{
    if b.len() == 0 {
        assert(a + b =~= a);
    } else {
        assert((a + b).drop_last() =~= a + b.drop_last());
        assert((a + b).last() == b.last());
        lemma_sum_bytes_concat(a, b.drop_last());
    }
}

/// The byte sum of a run of one repeated byte.
pub proof fn lemma_sum_repeat(b: u8, n: nat)
    ensures
        sum_bytes(Seq::new(n, |i: int| b)) == n * b,
    decreases n,
{
    let whole = Seq::new(n, |i: int| b);
    if n == 0 {
        assert(whole.len() == 0);
        assert(sum_bytes(whole) == 0);
    } else {
        let shorter = Seq::new((n - 1) as nat, |i: int| b);
        assert(whole.drop_last() =~= shorter);
        assert(whole.last() == b);
        lemma_sum_repeat(b, (n - 1) as nat);
        assert(sum_bytes(whole) == (n - 1) * b + b);
        assert((n - 1) * b + b == n * b) by (nonlinear_arith);
        assert(sum_bytes(whole) == n * b);
    }
}

/// An encoded numeric field is as long as its width.
pub proof fn lemma_octal_field_len(v: nat, w: nat)
    requires
        w >= 1,
    ensures
        octal_field(v, w).len() == w,
        all_octal(oct_digits(v, (w - 1) as nat)),
{
    lemma_oct_digits_props(v, (w - 1) as nat);
}

/// A run of NUL bytes decodes to empty text.
pub proof fn lemma_text_filter_zeros(k: nat)
    ensures
        text_filter(zeros(k)) == Seq::<char>::empty(),
{
    assert(Seq::<u8>::empty() + zeros(k) =~= zeros(k));
    lemma_text_filter_pad(Seq::<u8>::empty(), k);
}

/// A run of NUL bytes holds no digits, so a numeric field there reads
/// zero.
pub proof fn lemma_field_number_zeros(k: nat, max: nat)
    ensures
        field_number(zeros(k), max) == 0,
{
    assert(Seq::<u8>::empty() + zeros(k) =~= zeros(k));
    lemma_digits_of_pad(Seq::<u8>::empty(), k);
}

/// Appends the `w` zero-padded octal digit bytes of `v` to `out`.
pub fn push_oct_digits(out: &mut Vec<u8>, v: u64, w: usize)
    ensures
        final(out)@ == old(out)@ + oct_digits(v as nat, w as nat),
    decreases w,
{
    if w == 0 {
        assert(out@ =~= old(out)@ + oct_digits(v as nat, 0));
    } else {
        push_oct_digits(out, v / 8, w - 1);
        out.push(48 + (v % 8) as u8);
        assert(out@ =~= old(out)@ + oct_digits(v as nat, w as nat));
    }
}

/// Appends an encoded numeric field of width `w`: octal digits, then NUL.
pub fn push_octal_field(out: &mut Vec<u8>, v: u64, w: usize)
    requires
        w >= 1,
    ensures
        final(out)@ == old(out)@ + octal_field(v as nat, w as nat),
{
    push_oct_digits(out, v, w - 1);
    out.push(0);
    assert(out@ =~= old(out)@ + octal_field(v as nat, w as nat));
}

/// Appends `n` NUL bytes.
pub fn push_zeros(out: &mut Vec<u8>, n: usize)
    ensures
        final(out)@ == old(out)@ + zeros(n as nat),
{
    let mut i: usize = 0;
    while i < n
        invariant
            i <= n,
            out@ == old(out)@ + zeros(i as nat),
        decreases n - i,
    {
        out.push(0);
        assert(out@ =~= old(out)@ + zeros((i + 1) as nat));
        i = i + 1;
    }
}

/// Checks that a string is NUL-free ASCII: exactly the text a header's
/// text field can carry and give back unchanged.
pub fn check_valid_text(s: &str) -> (r: bool)
    ensures
        r == valid_text(s@),
{
    if !s.is_ascii() {
        proof {
            if valid_text(s@) {
                lemma_valid_text_is_ascii(s@);
            }
        }
        return false;
    }
    proof {
        lemma_text_bytes_is_utf8(s@);
    }
    let bs = s.as_bytes();
    assert(bs@ == text_bytes(s@));
    let n = bs.len();
    let mut i: usize = 0;
    while i < n
        invariant
            i <= n,
            n == bs@.len() == s@.len(),
            bs@ == text_bytes(s@),
            vstd::utf8::is_ascii_chars(s@),
            forall|j: int| 0 <= j < i ==> 0 < #[trigger] (s@[j] as u32) < 128,
        decreases n - i,
    {
        let ghost c = s@[i as int];
        proof {
            assert('\0' <= c <= '\u{7f}');
            assert((c as u32) < 128);
            lemma_ascii_byte(c);
        }
        if bs[i] == 0 {
            assert(!valid_text(s@)) by {
                assert((c as u32) == 0);
            }
            return false;
        }
        assert(0 < (c as u32) < 128);
        i = i + 1;
    }
    true
}

/// NUL-free ASCII text lies in the range `is_ascii_chars` asks for.
pub proof fn lemma_valid_text_is_ascii(s: Seq<char>)
    requires
        valid_text(s),
    ensures
        vstd::utf8::is_ascii_chars(s),
{
    assert forall|i: int| 0 <= i < s.len() implies '\0' <= #[trigger] s[i] <= '\u{7f}' by {
        assert(0 < (s[i] as u32) < 128);
        lemma_char_ascii_range(s[i]);
    }
}

/// A character whose scalar value is below 128 lies in the ASCII range.
proof fn lemma_char_ascii_range(c: char)
    requires
        0 < (c as u32) < 128,
    ensures
        '\0' <= c <= '\u{7f}',
{
}

/// Appends an encoded text field of width `w`: the string's bytes, then
/// NUL padding.
pub fn push_text_field(out: &mut Vec<u8>, s: &str, w: usize)
    requires
        s@.len() <= w,
        valid_text(s@),
    ensures
        final(out)@ == old(out)@ + text_field(s@, w as nat),
{
    proof {
        lemma_valid_text_is_ascii(s@);
        lemma_text_bytes_is_utf8(s@);
    }
    let bs = s.as_bytes();
    assert(bs@ == text_bytes(s@));
    let n = bs.len();
    let mut i: usize = 0;
    while i < n
        invariant
            i <= n,
            n == bs@.len(),
            bs@ == text_bytes(s@),
            s@.len() == n <= w,
            out@ == old(out)@ + text_bytes(s@).take(i as int),
        decreases n - i,
    {
        let b = bs[i];
        out.push(b);
        assert(out@ =~= old(out)@ + text_bytes(s@).take(i + 1));
        i = i + 1;
    }
    assert(text_bytes(s@).take(n as int) =~= text_bytes(s@));
    push_zeros(out, w - n);
    assert(out@ =~= old(out)@ + text_field(s@, w as nat));
}

} // verus!
