//! BER primitives: definite lengths, tag/length/value framing and
//! two's-complement integer contents.
use vstd::prelude::*;
use vstd::arithmetic::div_mod::lemma_fundamental_div_mod_converse;

verus! {

/// 256 to the power `k`.
pub open spec fn pow256(k: nat) -> nat
    decreases k,
{
    if k == 0 {
        1
    } else {
        256 * pow256((k - 1) as nat)
    }
}

/// Big-endian bytes of `n` with no leading zero byte (one byte for zero).
pub open spec fn be_min(n: nat) -> Seq<u8>
    decreases n,
{
    if n < 256 {
        seq![n as u8]
    } else {
        be_min(n / 256).push((n % 256) as u8)
    }
}

/// The unsigned big-endian value of some bytes.
pub open spec fn be_val(s: Seq<u8>) -> nat
    decreases s.len(),
{
    if s.len() == 0 {
        0
    } else {
        be_val(s.drop_last()) * 256 + s.last() as nat
    }
}

/// The definite length octets of a content of `n` bytes: the short form
/// below 128, else the long form with the fewest length bytes.
pub open spec fn enc_len(n: nat) -> Seq<u8> {
    if n < 128 {
        seq![n as u8]
    } else {
        seq![(128 + be_min(n).len()) as u8] + be_min(n)
    }
}

/// One element: tag octet, length octets, content.
pub open spec fn tlv(tag: u8, content: Seq<u8>) -> Seq<u8> {
    seq![tag] + enc_len(content.len()) + content
}

/// Reads length octets: the length and how many octets carry it. Both the
/// short and the long form (up to eight length bytes) are accepted; the
/// indefinite form is not.
pub open spec fn parse_len(s: Seq<u8>) -> Option<(nat, nat)> {
    if s.len() == 0 {
        None
    } else if s[0] < 128 {
        Some((s[0] as nat, 1))
    } else {
        let k = s[0] - 128;
        if 1 <= k <= 8 && s.len() >= 1 + k {
            Some((be_val(s.subrange(1, 1 + k)), (1 + k) as nat))
        } else {
            None
        }
    }
}

/// Reads one element at the front of `s`: its tag and where its content
/// starts and ends. `None` when the framing is truncated or overruns `s`.
pub open spec fn parse_tlv(s: Seq<u8>) -> Option<(u8, int, int)> {
    if s.len() == 0 {
        None
    } else {
        match parse_len(s.skip(1)) {
            Some((n, h)) => if 1 + h + n <= s.len() {
                Some((s[0], (1 + h) as int, (1 + h + n) as int))
            } else {
                None
            },
            None => None,
        }
    }
}

/// The lower bound of the signed range that `k` bytes hold, negated.
pub open spec fn half_range(k: nat) -> int
    decreases k,
{
    if k <= 1 {
        128
    } else {
        256 * half_range((k - 1) as nat)
    }
}

/// The minimal two's-complement content of an INTEGER: no superfluous
/// leading 0x00 or 0xFF byte.
pub open spec fn int_bytes(v: int) -> Seq<u8>
    decreases (if v < 0 { -v } else { v }),
{
    if -128 <= v < 128 {
        seq![(v % 256) as u8]
    } else {
        int_bytes(v / 256).push((v % 256) as u8)
    }
}

/// A byte read as a signed value.
pub open spec fn signed_byte(b: u8) -> int {
    if b >= 128 {
        b - 256
    } else {
        b as int
    }
}

/// The signed value of two's-complement bytes, sign-extended from the
/// leading byte.
pub open spec fn int_of(s: Seq<u8>) -> int
    decreases s.len(),
{
    if s.len() <= 1 {
        if s.len() == 0 {
            0
        } else {
            signed_byte(s[0])
        }
    } else {
        int_of(s.drop_last()) * 256 + s.last() as int
    }
}

/// The value of an INTEGER content: between one and nine bytes.
pub open spec fn int_content(c: Seq<u8>) -> Option<int> {
    if 1 <= c.len() <= 9 {
        Some(int_of(c))
    } else {
        None
    }
}

pub proof fn lemma_pow256_pos(k: nat)
    ensures
        pow256(k) >= 1,
    decreases k,
{
    if k > 0 {
        lemma_pow256_pos((k - 1) as nat);
    }
}

pub proof fn lemma_pow256_mono(a: nat, b: nat)
    requires
        a <= b,
    ensures
        pow256(a) <= pow256(b),
    decreases b,
{
    if a < b {
        lemma_pow256_mono(a, (b - 1) as nat);
        lemma_pow256_pos((b - 1) as nat);
    }
}

pub proof fn lemma_half_range_mono(a: nat, b: nat)
    requires
        a <= b,
    ensures
        half_range(a) <= half_range(b),
    decreases b,
{
    if a < b {
        lemma_half_range_mono(a, (b - 1) as nat);
        lemma_half_range_pos((b - 1) as nat);
    }
}

pub proof fn lemma_be_min(n: nat, k: nat)
    requires
        n < pow256(k),
        k >= 1,
    ensures
        be_val(be_min(n)) == n,
        1 <= be_min(n).len() <= k,
    decreases n,
{
    if n >= 256 {
        lemma_fundamental_div_mod_converse(n as int, 256, n as int / 256, n as int % 256);
        assert(pow256(0) == 1);
        if k == 1 {
            assert(false);
        }
        assert(n / 256 < pow256((k - 1) as nat)) by (nonlinear_arith)
            requires
                n < 256 * pow256((k - 1) as nat),
        ;
        lemma_be_min(n / 256, (k - 1) as nat);
        assert(be_min(n).drop_last() =~= be_min(n / 256));
        assert(be_min(n).last() == n % 256);
        assert(be_val(be_min(n)) == be_val(be_min(n / 256)) * 256 + n % 256);
        vstd::arithmetic::div_mod::lemma_fundamental_div_mod(n as int, 256);
    } else {
        assert(be_min(n).drop_last() =~= seq![]);
        assert(be_val(be_min(n)) == be_val(seq![]) * 256 + n);
    }
}

pub proof fn lemma_pow256_values()
    ensures
        pow256(7) == 0x100_0000_0000_0000,
        pow256(8) == 0x1_0000_0000_0000_0000,
{
    reveal_with_fuel(pow256, 9);
}

pub proof fn lemma_half_range_values()
    ensures
        half_range(8) == 0x8000_0000_0000_0000,
        half_range(9) == 0x80_0000_0000_0000_0000,
{
    reveal_with_fuel(half_range, 10);
}

pub proof fn lemma_be_val_bound(s: Seq<u8>)
    ensures
        be_val(s) < pow256(s.len()),
    decreases s.len(),
{
    if s.len() > 0 {
        lemma_be_val_bound(s.drop_last());
        let p = pow256((s.len() - 1) as nat);
        let v = be_val(s.drop_last());
        assert(v * 256 + s.last() < 256 * p) by (nonlinear_arith)
            requires
                v < p,
                s.last() < 256,
        ;
    }
}

pub proof fn lemma_int_bytes(v: int, k: nat)
    requires
        k >= 1,
        -half_range(k) <= v < half_range(k),
    ensures
        int_of(int_bytes(v)) == v,
        1 <= int_bytes(v).len() <= k,
    decreases k,
{
    if -128 <= v < 128 {
        lemma_fundamental_div_mod_converse(v, 256, if v < 0 { -1 } else { 0 }, if v < 0 { v + 256 } else { v });
    } else {
        let q = v / 256;
        let r = v % 256;
        lemma_fundamental_div_mod_converse(v, 256, q, r);
        vstd::arithmetic::div_mod::lemma_fundamental_div_mod(v, 256);
        if k == 1 {
            assert(false);
        }
        let h = half_range((k - 1) as nat);
        assert(-h <= q < h) by (nonlinear_arith)
            requires
                -256 * h <= v < 256 * h,
                v == q * 256 + r,
                0 <= r < 256,
        ;
        lemma_int_bytes(q, (k - 1) as nat);
        assert(int_bytes(v).drop_last() =~= int_bytes(q));
    }
}

proof fn lemma_int_bytes_nonempty(v: int)
    ensures
        int_bytes(v).len() >= 1,
{
}

/// The INTEGER content is minimal: a leading 0x00 is followed by a byte
/// with its top bit set, and a leading 0xFF by one with its top bit clear.
pub proof fn lemma_int_bytes_minimal(v: int)
    ensures
        int_bytes(v).len() >= 2 ==> !(int_bytes(v)[0] == 0 && int_bytes(v)[1] < 128) && !(
        int_bytes(v)[0] == 255 && int_bytes(v)[1] >= 128),
    decreases (if v < 0 { -v } else { v }),
{
    if !(-128 <= v < 128) {
        let q = v / 256;
        let r = v % 256;
        vstd::arithmetic::div_mod::lemma_fundamental_div_mod(v, 256);
        let p = int_bytes(q);
        lemma_int_bytes_nonempty(q / 256);
        lemma_int_bytes_nonempty(q);
        assert(int_bytes(v) == p.push(r as u8));
        if -128 <= q < 128 {
            lemma_fundamental_div_mod_converse(q, 256, if q < 0 { -1 } else { 0 }, if q < 0 { q + 256 } else { q });
            assert(int_bytes(v)[0] == p[0]);
            assert(int_bytes(v)[1] == r as u8);
        } else {
            assert(if q < 0 { -q } else { q } < if v < 0 { -v } else { v }) by (nonlinear_arith)
                requires
                    v == 256 * q + r,
                    0 <= r < 256,
                    !(-128 <= v < 128),
            ;
            lemma_int_bytes_minimal(q);
            assert(int_bytes(v)[0] == p[0]);
            assert(int_bytes(v)[1] == p[1]);
        }
    }
}

pub proof fn lemma_half_range_pos(k: nat)
    ensures
        half_range(k) >= 128,
    decreases k,
{
    if k > 1 {
        lemma_half_range_pos((k - 1) as nat);
    }
}

pub proof fn lemma_int_of_bound(s: Seq<u8>)
    requires
        s.len() >= 1,
    ensures
        -half_range(s.len()) <= int_of(s) < half_range(s.len()),
    decreases s.len(),
{
    if s.len() > 1 {
        lemma_int_of_bound(s.drop_last());
        let h = half_range((s.len() - 1) as nat);
        let v = int_of(s.drop_last());
        assert(-256 * h <= v * 256 + s.last() < 256 * h) by (nonlinear_arith)
            requires
                -h <= v < h,
                0 <= s.last() < 256,
        ;
    }
}

/// The size of the tag and length octets before a content of `n` bytes.
pub open spec fn hdr_len(n: nat) -> int {
    (1 + enc_len(n).len()) as int
}

/// How an element reads back: its tag, its content and what follows it.
pub proof fn lemma_parse_tlv(tag: u8, c: Seq<u8>, rest: Seq<u8>)
    requires
        c.len() < pow256(8),
    ensures
        parse_tlv(tlv(tag, c) + rest) == Some(
            (tag, hdr_len(c.len()), hdr_len(c.len()) + c.len()),
        ),
        (tlv(tag, c) + rest).subrange(hdr_len(c.len()), hdr_len(c.len()) + c.len()) == c,
        (tlv(tag, c) + rest).skip(hdr_len(c.len()) + c.len()) == rest,
        tlv(tag, c).len() == hdr_len(c.len()) + c.len(),
{
    let s = tlv(tag, c) + rest;
    let e = enc_len(c.len());
    let h = hdr_len(c.len());
    assert(s.skip(1) =~= e + c + rest);
    if c.len() >= 128 {
        lemma_be_min(c.len(), 8);
        let b = be_min(c.len());
        let k = b.len() as int;
        assert((e + c + rest).subrange(1, 1 + k) =~= b);
    }
    assert(s.subrange(h, h + c.len()) =~= c);
    assert(s.skip(h + c.len()) =~= rest);
}

/// Floor division and Euclidean remainder by 256.
fn div_mod_256(v: i128) -> (r: (i128, u8))
    ensures
        r.0 == v / 256,
        r.1 == v % 256,
{
    let (q, m): (i128, u8) = if v >= 0 {
        let u: u128 = v as u128;
        ((u / 256) as i128, (u % 256) as u8)
    } else {
        let u: u128 = (-(v + 1)) as u128;
        (-((u / 256) as i128) - 1, (255 - u % 256) as u8)
    };
    proof {
        lemma_fundamental_div_mod_converse(v as int, 256, q as int, m as int);
    }
    (q, m)
}

/// Appends the minimal two's-complement bytes of `v`.
pub fn push_int_bytes(out: &mut Vec<u8>, v: i128)
    ensures
        final(out)@ == old(out)@ + int_bytes(v as int),
    decreases (if v < 0 { -(v as int) } else { v as int }),
{
    let (q, m) = div_mod_256(v);
    if -128 <= v && v < 128 {
        out.push(m);
        assert(old(out)@ + int_bytes(v as int) =~= old(out)@.push(m));
    } else {
        push_int_bytes(out, q);
        out.push(m);
        assert(old(out)@ + int_bytes(v as int) =~= old(out)@ + int_bytes(q as int) + seq![m]);
    }
}

/// Appends the big-endian bytes of `n` without leading zeros.
fn push_be(out: &mut Vec<u8>, n: u64)
    ensures
        final(out)@ == old(out)@ + be_min(n as nat),
    decreases n,
{
    if n < 256 {
        out.push(n as u8);
        assert(old(out)@ + be_min(n as nat) =~= old(out)@.push(n as u8));
    } else {
        push_be(out, n / 256);
        out.push((n % 256) as u8);
        assert(old(out)@ + be_min(n as nat) =~= old(out)@ + be_min((n / 256) as nat) + seq![
            (n % 256) as u8,
        ]);
    }
}

/// Appends the length octets for a content of `n` bytes.
pub fn push_len(out: &mut Vec<u8>, n: usize)
    ensures
        final(out)@ == old(out)@ + enc_len(n as nat),
{
    if n < 128 {
        out.push(n as u8);
        assert(old(out)@ + enc_len(n as nat) =~= old(out)@.push(n as u8));
    } else {
        let mut b: Vec<u8> = Vec::new();
        push_be(&mut b, n as u64);
        proof {
            assert(b@ =~= be_min(n as nat));
            lemma_pow256_values();
            lemma_be_min(n as nat, 8);
        }
        out.push(128u8 + b.len() as u8);
        out.append(&mut b);
        assert(old(out)@ + enc_len(n as nat) =~= old(out)@ + seq![(128 + be_min(n as nat).len()) as u8] + be_min(n as nat));
    }
}

/// Appends one element with the given tag and content.
pub fn push_tlv(out: &mut Vec<u8>, tag: u8, content: &Vec<u8>)
    ensures
        final(out)@ == old(out)@ + tlv(tag, content@),
{
    out.push(tag);
    push_len(out, content.len());
    let mut i: usize = 0;
    let ghost mid = out@;
    while i < content.len()
        invariant
            i <= content@.len(),
            out@ == mid + content@.take(i as int),
        decreases content@.len() - i,
    {
        out.push(content[i]);
        i = i + 1;
        assert(out@ =~= mid + content@.take(i as int));
    }
    assert(content@.take(i as int) =~= content@);
    assert(old(out)@ + tlv(tag, content@) =~= mid + content@);
}

/// Appends an INTEGER-shaped element (the given tag, the minimal
/// two's-complement content of `v`).
pub fn push_integer(out: &mut Vec<u8>, tag: u8, v: i128)
    ensures
        final(out)@ == old(out)@ + tlv(tag, int_bytes(v as int)),
{
    let mut c: Vec<u8> = Vec::new();
    push_int_bytes(&mut c, v);
    assert(c@ =~= int_bytes(v as int));
    push_tlv(out, tag, &c);
}

/// Reads the element at `pos`, within `buf[pos..end]`: its tag and the
/// bounds of its content in `buf`.
pub fn read_tlv(buf: &[u8], pos: usize, end: usize) -> (r: Option<(u8, usize, usize)>)
    requires
        pos <= end <= buf@.len(),
    ensures
        match (r, parse_tlv(buf@.subrange(pos as int, end as int))) {
            (Some((t, a, b)), Some((t2, a2, b2))) => t == t2 && a == pos + a2 && b == pos + b2,
            (None, None) => true,
            _ => false,
        },
{
    let ghost s = buf@.subrange(pos as int, end as int);
    if pos >= end {
        return None;
    }
    let tag = buf[pos];
    let ghost l = s.skip(1);
    if pos + 1 >= end {
        return None;
    }
    let b0 = buf[pos + 1];
    let n: usize;
    let h: usize;
    if b0 < 128 {
        n = b0 as usize;
        h = 1;
    } else {
        let k: usize = (b0 - 128) as usize;
        if k < 1 || k > 8 || end - (pos + 2) < k {
            return None;
        }
        let mut acc: u64 = 0;
        let mut j: usize = 0;
        while j < k
            invariant
                1 <= k <= 8,
                pos + 2 + k <= end <= buf@.len(),
                j <= k,
                acc == be_val(buf@.subrange(pos + 2, pos + 2 + j)),
            decreases k - j,
        {
            let ghost t = buf@.subrange(pos + 2, pos + 2 + j);
            proof {
                lemma_be_val_bound(t);
                lemma_pow256_mono(j as nat, 7);
                lemma_pow256_values();
                assert(buf@.subrange(pos + 2, pos + 2 + j + 1).drop_last() =~= t);
            }
            acc = acc * 256 + buf[pos + 2 + j] as u64;
            j = j + 1;
        }
        assert(l.subrange(1, 1 + k as int) =~= buf@.subrange(pos + 2, pos + 2 + k));
        if acc > (end - (pos + 2 + k)) as u64 {
            return None;
        }
        n = acc as usize;
        h = 1 + k;
    }
    if end - (pos + 1 + h) < n {
        return None;
    }
    Some((tag, pos + 1 + h, pos + 1 + h + n))
}

/// Reads an INTEGER content in `buf[a..b]`.
pub fn read_int(buf: &[u8], a: usize, b: usize) -> (r: Option<i128>)
    requires
        a <= b <= buf@.len(),
    ensures
        match (int_content(buf@.subrange(a as int, b as int)), r) {
            (Some(v), Some(x)) => x == v,
            (None, None) => true,
            _ => false,
        },
{
    if b - a < 1 || b - a > 9 {
        return None;
    }
    let first = buf[a];
    let mut acc: i128 = if first >= 128 { first as i128 - 256 } else { first as i128 };
    let mut j: usize = a + 1;
    assert(buf@.subrange(a as int, j as int) =~= seq![first]);
    while j < b
        invariant
            a < j <= b <= buf@.len(),
            b - a <= 9,
            acc == int_of(buf@.subrange(a as int, j as int)),
        decreases b - j,
    {
        let ghost t = buf@.subrange(a as int, j as int);
        proof {
            lemma_int_of_bound(t);
            lemma_half_range_mono(t.len(), 8);
            lemma_half_range_values();
            assert(buf@.subrange(a as int, j + 1).drop_last() =~= t);
        }
        acc = acc * 256 + buf[j] as i128;
        j = j + 1;
    }
    Some(acc)
}

} // verus!
