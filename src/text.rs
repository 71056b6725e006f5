//! Decimal digits and ASCII text.
use vstd::prelude::*;

verus! {

/// The decimal digits of `n`, most significant first, without leading zeros.
pub open spec fn dec_digits(n: nat) -> Seq<u8>
    decreases n,
{
    if n < 10 {
        seq![(48 + n) as u8]
    } else {
        dec_digits(n / 10).push((48 + n % 10) as u8)
    }
}

/// The decimal form of a signed integer: a minus sign before negative values.
pub open spec fn signed_digits(v: int) -> Seq<u8> {
    if v < 0 {
        seq![45u8] + dec_digits((-v) as nat)
    } else {
        dec_digits(v as nat)
    }
}

/// The characters that stand for the bytes of ASCII text.
pub open spec fn ascii_chars(b: Seq<u8>) -> Seq<char> {
    b.map_values(|x: u8| x as char)
}

pub open spec fn is_ascii_text(b: Seq<u8>) -> bool {
    forall|i: int| 0 <= i < b.len() ==> b[i] < 128
}

pub proof fn lemma_dec_digits_ascii(n: nat)
    ensures
        is_ascii_text(dec_digits(n)),
        dec_digits(n).len() >= 1,
    decreases n,
{
    if n >= 10 {
        lemma_dec_digits_ascii(n / 10);
    }
}

/// Appends the decimal digits of `n`.
pub fn push_decimal(out: &mut Vec<u8>, n: u64)
    ensures
        final(out)@ == old(out)@ + dec_digits(n as nat),
    decreases n,
{
    if n < 10 {
        out.push(48u8 + n as u8);
        assert(old(out)@ + dec_digits(n as nat) =~= old(out)@.push((48 + n) as u8));
    } else {
        push_decimal(out, n / 10);
        out.push(48u8 + (n % 10) as u8);
        assert(old(out)@ + dec_digits(n as nat) =~= old(out)@ + dec_digits((n / 10) as nat)
            + seq![(48 + n % 10) as u8]);
    }
}

/// Appends the decimal form of `v`, with a minus sign when it is negative.
pub fn push_signed(out: &mut Vec<u8>, v: i64)
    ensures
        final(out)@ == old(out)@ + signed_digits(v as int),
{
    if v < 0 {
        out.push(45u8);
        let m: u64 = (-(v + 1)) as u64 + 1;
        push_decimal(out, m);
        assert(old(out)@ + signed_digits(v as int) =~= old(out)@.push(45u8) + dec_digits(
            m as nat,
        ));
    } else {
        push_decimal(out, v as u64);
    }
}

/// The characters that a byte string encodes when it is valid UTF-8;
/// `None` when it is not.
pub uninterp spec fn utf8_text(b: Seq<u8>) -> Option<Seq<char>>;

/// Relies on `String::from_utf8`: it succeeds exactly on valid UTF-8 and
/// then holds the characters the bytes encode; bytes below 128 are valid
/// UTF-8, each one the character of the same code.
#[verifier::external_body]
pub(crate) fn string_from_utf8(b: Vec<u8>) -> (r: Option<String>)
    ensures
        match utf8_text(b@) {
            Some(t) => r is Some && r->0@ == t,
            None => r is None,
        },
        is_ascii_text(b@) ==> r is Some && r->0@ == ascii_chars(b@),
{
    String::from_utf8(b).ok()
}

/// The string of some ASCII bytes.
pub fn string_from_ascii(b: Vec<u8>) -> (r: String)
    requires
        is_ascii_text(b@),
    ensures
        r@ == ascii_chars(b@),
{
    match string_from_utf8(b) {
        Some(s) => s,
        None => String::new(),
    }
}

} // verus!
