//! The BER content of an OBJECT IDENTIFIER: sub-identifiers in base 128.
use vstd::prelude::*;

verus! {

/// The leading base-128 digits of a sub-identifier, each with its
/// continuation bit set.
pub open spec fn b128_prefix(q: nat) -> Seq<u8>
    decreases q,
{
    if q == 0 {
        seq![]
    } else {
        b128_prefix(q / 128).push((128 + q % 128) as u8)
    }
}

/// One sub-identifier in big-endian base 128; all bytes but the last carry
/// the continuation bit 0x80.
pub open spec fn b128(v: nat) -> Seq<u8> {
    b128_prefix(v / 128).push((v % 128) as u8)
}

/// Sub-identifiers one after another.
pub open spec fn subids_bytes(ids: Seq<nat>) -> Seq<u8>
    decreases ids.len(),
{
    if ids.len() == 0 {
        seq![]
    } else {
        b128(ids[0]) + subids_bytes(ids.skip(1))
    }
}

/// The sub-identifiers of an identifier: the first two arcs packed into one
/// as `40 * X + Y`, then the others.
pub open spec fn oid_subids(a: Seq<u32>) -> Seq<nat> {
    seq![(40 * a[0] + a[1]) as nat] + a.skip(2).map_values(|x: u32| x as nat)
}

/// The content octets of an OBJECT IDENTIFIER.
pub open spec fn oid_content(a: Seq<u32>) -> Seq<u8> {
    subids_bytes(oid_subids(a))
}

/// The identifiers that BER can carry: two arcs or more, the first at most
/// 2, the second below 40 unless the first is 2, and the packed pair in 32
/// bits.
pub open spec fn encodable(a: Seq<u32>) -> bool {
    a.len() >= 2 && a[0] <= 2 && (a[0] < 2 ==> a[1] < 40) && 40 * a[0] + a[1] <= u32::MAX
}

/// The length of the sub-identifier at the front: up to and including the
/// first byte without the continuation bit.
pub open spec fn subid_len(s: Seq<u8>) -> Option<nat>
    decreases s.len(),
{
    if s.len() == 0 {
        None
    } else if s[0] < 128 {
        Some(1)
    } else {
        match subid_len(s.skip(1)) {
            Some(k) => Some(k + 1),
            None => None,
        }
    }
}

/// The value of base-128 digits (the continuation bits ignored).
pub open spec fn b128_val(s: Seq<u8>) -> nat
    decreases s.len(),
{
    if s.len() == 0 {
        0
    } else {
        b128_val(s.drop_last()) * 128 + (s.last() % 128) as nat
    }
}

/// Splits a content into sub-identifiers.
pub open spec fn parse_subids(s: Seq<u8>) -> Option<Seq<nat>>
    decreases s.len(),
{
    if s.len() == 0 {
        Some(seq![])
    } else {
        match subid_len(s) {
            Some(k) => if 1 <= k <= s.len() {
                match parse_subids(s.skip(k as int)) {
                    Some(r) => Some(seq![b128_val(s.take(k as int))] + r),
                    None => None,
                }
            } else {
                None
            },
            None => None,
        }
    }
}

/// The arcs that sub-identifiers stand for: the first is split into
/// `X = min(first / 40, 2)` and `first - 40 * X`.
pub open spec fn arcs_of_subids(ids: Seq<nat>) -> Seq<u32> {
    let f = ids[0];
    let x: nat = if f / 40 < 2 {
        f / 40
    } else {
        2
    };
    seq![x as u32, (f - 40 * x) as u32] + ids.skip(1).map_values(|v: nat| v as u32)
}

/// Reads an OBJECT IDENTIFIER content: `None` when a sub-identifier is cut
/// short, when there is none, or when one exceeds 32 bits.
pub open spec fn parse_oid_content(c: Seq<u8>) -> Option<Seq<u32>> {
    match parse_subids(c) {
        Some(ids) => if ids.len() >= 1 && (forall|i: int|
            0 <= i < ids.len() ==> #[trigger] ids[i] <= u32::MAX) {
            Some(arcs_of_subids(ids))
        } else {
            None
        },
        None => None,
    }
}

pub open spec fn prepend(d: Seq<nat>, o: Option<Seq<nat>>) -> Option<Seq<nat>> {
    match o {
        Some(r) => Some(d + r),
        None => None,
    }
}

proof fn lemma_b128_prefix(q: nat)
    ensures
        forall|i: int| 0 <= i < b128_prefix(q).len() ==> #[trigger] b128_prefix(q)[i] >= 128,
        b128_val(b128_prefix(q)) == q,
    decreases q,
{
    if q > 0 {
        lemma_b128_prefix(q / 128);
        assert(b128_prefix(q).drop_last() =~= b128_prefix(q / 128));
        vstd::arithmetic::div_mod::lemma_fundamental_div_mod(q as int, 128);
    }
}

proof fn lemma_scan(s: Seq<u8>, j: int)
    requires
        0 <= j <= s.len(),
        forall|k: int| 0 <= k < j ==> s[k] >= 128,
    ensures
        j < s.len() && s[j] < 128 ==> subid_len(s) == Some((j + 1) as nat),
        j == s.len() ==> subid_len(s) is None,
    decreases j,
{
    if j > 0 {
        lemma_scan(s.skip(1), j - 1);
    } else if s.len() > 0 {
        assert(s[0] == s[j]);
    }
}

proof fn lemma_b128(v: nat, rest: Seq<u8>)
    ensures
        subid_len(b128(v) + rest) == Some(b128(v).len()),
        b128_val(b128(v)) == v,
        b128(v).len() >= 1,
{
    let p = b128_prefix(v / 128);
    lemma_b128_prefix(v / 128);
    let s = b128(v) + rest;
    assert forall|k: int| 0 <= k < p.len() implies s[k] >= 128 by {
        assert(s[k] == p[k]);
    }
    lemma_scan(s, p.len() as int);
    assert(b128(v).drop_last() =~= p);
    vstd::arithmetic::div_mod::lemma_fundamental_div_mod(v as int, 128);
}

pub proof fn lemma_parse_subids(ids: Seq<nat>)
    ensures
        parse_subids(subids_bytes(ids)) == Some(ids),
    decreases ids.len(),
{
    if ids.len() > 0 {
        let b = b128(ids[0]);
        let t = subids_bytes(ids.skip(1));
        let s = b + t;
        lemma_b128(ids[0], t);
        lemma_parse_subids(ids.skip(1));
        assert(s.skip(b.len() as int) =~= t);
        assert(s.take(b.len() as int) =~= b);
        assert(seq![ids[0]] + ids.skip(1) =~= ids);
    } else {
        assert(subids_bytes(ids) =~= seq![]);
    }
}

/// An encodable identifier reads back from its content.
pub proof fn lemma_oid_content(a: Seq<u32>)
    requires
        encodable(a),
    ensures
        parse_oid_content(oid_content(a)) == Some(a),
{
    let ids = oid_subids(a);
    lemma_parse_subids(ids);
    assert forall|i: int| 0 <= i < ids.len() implies #[trigger] ids[i] <= u32::MAX by {
        if i > 0 {
            assert(ids[i] == a[i + 1]);
        }
    }
    let f = ids[0];
    assert(f == 40 * a[0] + a[1]);
    if a[0] < 2 {
        assert(f / 40 == a[0]) by (nonlinear_arith)
            requires
                f == 40 * a[0] + a[1],
                a[1] < 40,
        ;
    } else {
        assert(f / 40 >= 2) by (nonlinear_arith)
            requires
                f == 80 + a[1],
        ;
    }
    assert(arcs_of_subids(ids) =~= a);
}

proof fn lemma_subids_bytes_push(ids: Seq<nat>, v: nat)
    ensures
        subids_bytes(ids.push(v)) == subids_bytes(ids) + b128(v),
    decreases ids.len(),
{
    if ids.len() == 0 {
        assert(subids_bytes(ids.push(v)) =~= b128(v) + subids_bytes(ids.push(v).skip(1)));
        assert(ids.push(v).skip(1) =~= seq![]);
        assert(subids_bytes(seq![]) =~= seq![]);
        assert(subids_bytes(ids) =~= seq![]);
        assert(b128(v) + seq![] =~= b128(v));
    } else {
        lemma_subids_bytes_push(ids.skip(1), v);
        assert(ids.push(v).skip(1) =~= ids.skip(1).push(v));
        assert(subids_bytes(ids.push(v)) =~= b128(ids[0]) + (subids_bytes(ids.skip(1)) + b128(v)));
    }
}

fn push_b128_prefix(out: &mut Vec<u8>, q: u32)
    ensures
        final(out)@ == old(out)@ + b128_prefix(q as nat),
    decreases q,
{
    if q == 0 {
        assert(old(out)@ + b128_prefix(0) =~= old(out)@);
    } else {
        push_b128_prefix(out, q / 128);
        out.push(128u8 + (q % 128) as u8);
        assert(old(out)@ + b128_prefix(q as nat) =~= old(out)@ + b128_prefix((q / 128) as nat)
            + seq![(128 + q % 128) as u8]);
    }
}

fn push_b128(out: &mut Vec<u8>, v: u32)
    ensures
        final(out)@ == old(out)@ + b128(v as nat),
{
    push_b128_prefix(out, v / 128);
    out.push((v % 128) as u8);
    assert(old(out)@ + b128(v as nat) =~= old(out)@ + b128_prefix((v / 128) as nat) + seq![
        (v % 128) as u8,
    ]);
}

/// Appends the content octets of an encodable identifier.
pub fn push_oid_content(out: &mut Vec<u8>, a: &Vec<u32>)
    requires
        encodable(a@),
    ensures
        final(out)@ == old(out)@ + oid_content(a@),
{
    let ghost ids = oid_subids(a@);
    let first: u32 = 40 * a[0] + a[1];
    push_b128(out, first);
    proof {
        lemma_subids_bytes_push(seq![], first as nat);
        assert(ids.take(1) =~= seq![].push(first as nat));
        assert(subids_bytes(seq![]) =~= seq![]);
    }
    let mut i: usize = 2;
    while i < a.len()
        invariant
            2 <= i <= a@.len(),
            ids == oid_subids(a@),
            ids.len() == a@.len() - 1,
            out@ == old(out)@ + subids_bytes(ids.take(i - 1)),
        decreases a@.len() - i,
    {
        push_b128(out, a[i]);
        proof {
            assert(ids.take(i as int) =~= ids.take(i - 1).push(a@[i as int] as nat));
            lemma_subids_bytes_push(ids.take(i - 1), a@[i as int] as nat);
        }
        i = i + 1;
    }
    assert(ids.take(i - 1) =~= ids);
}

/// Reads the identifier whose content is `buf[a..b]`.
pub fn read_oid_content(buf: &[u8], a: usize, b: usize) -> (r: Option<Vec<u32>>)
    requires
        a <= b <= buf@.len(),
    ensures
        match parse_oid_content(buf@.subrange(a as int, b as int)) {
            Some(arcs) => r is Some && r->0@ == arcs,
            None => r is None,
        },
{
    let ghost c = buf@.subrange(a as int, b as int);
    let mut ids: Vec<u32> = Vec::new();
    let ghost mut done: Seq<nat> = seq![];
    let mut start: usize = a;
    let mut i: usize = a;
    let mut acc: u64 = 0;
    let mut over = false;
    assert(prepend(done, parse_subids(c)) =~= parse_subids(c)) by {
        match parse_subids(c) {
            Some(r) => assert(done + r =~= r),
            None => {},
        }
    }
    assert(buf@.subrange(a as int, a as int) =~= seq![]);
    while i < b
        invariant
            a <= start <= i <= b <= buf@.len(),
            c == buf@.subrange(a as int, b as int),
            parse_subids(c) == prepend(done, parse_subids(buf@.subrange(start as int, b as int))),
            ids@.len() == done.len(),
            forall|k: int| 0 <= k < done.len() ==> ids@[k] == done[k],
            forall|k: int| start <= k < i ==> buf@[k] >= 128,
            acc <= u32::MAX,
            !over ==> acc == b128_val(buf@.subrange(start as int, i as int)),
            over ==> b128_val(buf@.subrange(start as int, i as int)) > u32::MAX,
        decreases b - i,
    {
        let x = buf[i];
        let ghost pre = buf@.subrange(start as int, i as int);
        proof {
            assert(buf@.subrange(start as int, i + 1).drop_last() =~= pre);
        }
        if !over {
            let nv: u64 = acc * 128 + (x % 128) as u64;
            if nv > 0xFFFF_FFFFu64 {
                over = true;
            } else {
                acc = nv;
            }
        }
        if x < 128 {
            let ghost s = buf@.subrange(start as int, b as int);
            let ghost v = b128_val(buf@.subrange(start as int, i + 1));
            proof {
                assert forall|k: int| 0 <= k < i - start implies s[k] >= 128 by {
                    assert(s[k] == buf@[start + k]);
                }
                lemma_scan(s, i - start);
                assert(s.skip(i + 1 - start) =~= buf@.subrange(i + 1, b as int));
                assert(s.take(i + 1 - start) =~= buf@.subrange(start as int, i + 1));
                match parse_subids(buf@.subrange(i + 1, b as int)) {
                    Some(r) => assert(done + (seq![v] + r) =~= done.push(v) + r),
                    None => {},
                }
            }
            if over {
                proof {
                    match parse_subids(c) {
                        Some(all) => assert(all[done.len() as int] == v),
                        None => {},
                    }
                }
                return None;
            }
            ids.push(acc as u32);
            proof {
                done = done.push(v);
            }
            start = i + 1;
            acc = 0;
            assert(buf@.subrange(start as int, start as int) =~= seq![]);
        }
        i = i + 1;
    }
    if start < b {
        proof {
            let s = buf@.subrange(start as int, b as int);
            assert forall|k: int| 0 <= k < s.len() implies s[k] >= 128 by {
                assert(s[k] == buf@[start + k]);
            }
            lemma_scan(s, s.len() as int);
        }
        return None;
    }
    proof {
        assert(buf@.subrange(start as int, b as int) =~= seq![]);
        assert(done + seq![] =~= done);
    }
    if ids.len() == 0 {
        return None;
    }
    let f = ids[0];
    let x: u32 = if f / 40 < 2 { f / 40 } else { 2 };
    let mut arcs: Vec<u32> = Vec::new();
    arcs.push(x);
    arcs.push(f - 40 * x);
    let mut j: usize = 1;
    while j < ids.len()
        invariant
            1 <= j <= ids@.len(),
            ids@.len() == done.len(),
            done.len() >= 1,
            forall|k: int| 0 <= k < done.len() ==> ids@[k] == done[k],
            arcs@ == seq![x, (f - 40 * x) as u32] + done.skip(1).take(j - 1).map_values(
                |v: nat| v as u32,
            ),
        decreases ids@.len() - j,
    {
        arcs.push(ids[j]);
        j = j + 1;
        assert(arcs@ =~= seq![x, (f - 40 * x) as u32] + done.skip(1).take(j - 1).map_values(
            |v: nat| v as u32,
        ));
    }
    assert(done.skip(1).take(j - 1) =~= done.skip(1));
    proof {
        assert forall|k: int| 0 <= k < done.len() implies #[trigger] done[k] <= u32::MAX by {
            assert(ids@[k] == done[k]);
        }
    }
    Some(arcs)
}

} // verus!
