//! Object identifiers: dotted-text parsing, rendering, prefix and order.
use vstd::prelude::*;
use vstd::string::StringSliceAdditionalSpecFns;
use crate::text::{dec_digits, push_decimal, ascii_chars, is_ascii_text, lemma_dec_digits_ascii, string_from_ascii};

verus! {

/// An object identifier: an ordered sequence of arcs.
#[derive(Clone, Debug, PartialEq, Eq)]
pub struct Oid {
    pub arcs: Vec<u32>,
}

impl View for Oid {
    type V = Seq<u32>;

    open spec fn view(&self) -> Seq<u32> {
        self.arcs@
    }
}

/// `a` is a prefix of `b`: `b` lies in the subtree rooted at `a`.
pub open spec fn is_prefix(a: Seq<u32>, b: Seq<u32>) -> bool {
    a.len() <= b.len() && b.take(a.len() as int) == a
}

/// Lexicographic order, compared arc by arc from index `i` on.
pub open spec fn lt_from(a: Seq<u32>, b: Seq<u32>, i: int) -> bool
    decreases a.len() - i,
{
    if i >= a.len() {
        i < b.len()
    } else if i >= b.len() {
        false
    } else if a[i] != b[i] {
        a[i] < b[i]
    } else {
        lt_from(a, b, i + 1)
    }
}

/// `a` comes strictly before `b` in lexicographic, arc-wise order.
pub open spec fn oid_lt(a: Seq<u32>, b: Seq<u32>) -> bool {
    lt_from(a, b, 0)
}

pub proof fn lemma_lt_irreflexive_from(a: Seq<u32>, i: int)
    requires
        0 <= i,
    ensures
        !lt_from(a, a, i),
    decreases a.len() - i,
{
    if i < a.len() {
        lemma_lt_irreflexive_from(a, i + 1);
    }
}

pub open spec fn is_digit(b: u8) -> bool {
    48 <= b <= 57
}

/// The value of a run of decimal digits.
pub open spec fn dec_val(s: Seq<u8>) -> nat
    decreases s.len(),
{
    if s.len() == 0 {
        0
    } else {
        dec_val(s.drop_last()) * 10 + (s.last() - 48) as nat
    }
}

/// The arc that a run of digits stands for: none unless it is non-empty,
/// all digits, and its value fits in 32 bits.
pub open spec fn digit_arcs(d: Seq<u8>) -> Seq<u32> {
    if d.len() > 0 && (forall|i: int| 0 <= i < d.len() ==> is_digit(#[trigger] d[i]))
        && dec_val(d) <= u32::MAX {
        seq![dec_val(d) as u32]
    } else {
        seq![]
    }
}

/// The arc that a dot-separated segment stands for: its digits, after one
/// optional leading `+`.
pub open spec fn segment_arcs(seg: Seq<u8>) -> Seq<u32> {
    if seg.len() > 0 && seg[0] == 43 {
        digit_arcs(seg.skip(1))
    } else {
        digit_arcs(seg)
    }
}

/// The index of the last dot, or -1.
pub open spec fn last_dot(s: Seq<u8>) -> int
    decreases s.len(),
{
    if s.len() == 0 {
        -1
    } else if s.last() == 46 {
        s.len() - 1
    } else {
        last_dot(s.drop_last())
    }
}

/// The arcs of a dotted text: its dot-separated segments, each read as a
/// number, with empty or non-numeric segments left out.
pub open spec fn text_arcs(s: Seq<u8>) -> Seq<u32>
    decreases s.len(),
{
    let k = last_dot(s);
    if k < 0 || k >= s.len() {
        segment_arcs(s)
    } else {
        text_arcs(s.take(k)) + segment_arcs(s.skip(k + 1))
    }
}

/// The dotted rendering of a sequence of arcs: `1.3.6.1`.
pub open spec fn dotted(a: Seq<u32>) -> Seq<u8>
    decreases a.len(),
{
    if a.len() == 0 {
        seq![]
    } else if a.len() == 1 {
        dec_digits(a[0] as nat)
    } else {
        dotted(a.drop_last()) + seq![46u8] + dec_digits(a.last() as nat)
    }
}

proof fn lemma_last_dot_bounds(s: Seq<u8>)
    ensures
        -1 <= last_dot(s) < s.len(),
        last_dot(s) >= 0 ==> s[last_dot(s)] == 46,
    decreases s.len(),
{
    if s.len() > 0 && s.last() != 46 {
        lemma_last_dot_bounds(s.drop_last());
    }
}

proof fn lemma_last_dot_at(s: Seq<u8>, j: int)
    requires
        -1 <= j < s.len(),
        j >= 0 ==> s[j] == 46,
        forall|k: int| j < k < s.len() ==> s[k] != 46,
    ensures
        last_dot(s) == j,
    decreases s.len(),
{
    if s.len() > 0 && s.last() != 46 {
        lemma_last_dot_at(s.drop_last(), j);
    }
}

proof fn lemma_dec_val_step(s: Seq<u8>, b: u8)
    ensures
        dec_val(s.push(b)) == dec_val(s) * 10 + (b - 48) as nat,
        is_digit(b) ==> dec_val(s.push(b)) >= dec_val(s),
{
    assert(s.push(b).drop_last() =~= s);
}

proof fn lemma_close_segment(s: Seq<u8>, seg: int, i: int)
    requires
        0 <= seg <= i <= s.len(),
        seg > 0 ==> s[seg - 1] == 46,
        forall|k: int| seg <= k < i ==> s[k] != 46,
    ensures
        text_arcs(s.take(i)) == (if seg == 0 {
            seq![]
        } else {
            text_arcs(s.take(seg - 1))
        }) + segment_arcs(s.subrange(seg, i)),
{
    let t = s.take(i);
    let sub = s.subrange(seg, i);
    lemma_last_dot_at(t, seg - 1);
    assert(t.skip(seg) =~= sub);
    if seg > 0 {
        assert(t.take(seg - 1) =~= s.take(seg - 1));
        assert(text_arcs(t) == text_arcs(t.take(seg - 1)) + segment_arcs(t.skip(seg)));
    } else {
        assert(text_arcs(t) == segment_arcs(t));
        assert(t =~= sub);
        assert(seq![] + segment_arcs(sub) =~= segment_arcs(sub));
    }
}

/// Reads the segment `s[a..b]`.
fn read_segment(s: &[u8], a: usize, b: usize) -> (r: Option<u32>)
    requires
        a <= b <= s@.len(),
    ensures
        segment_arcs(s@.subrange(a as int, b as int)) == (match r {
            Some(v) => seq![v],
            None => seq![],
        }),
{
    let ghost seg = s@.subrange(a as int, b as int);
    let start: usize = if a < b && s[a] == 43u8 { a + 1 } else { a };
    let ghost d = s@.subrange(start as int, b as int);
    assert(segment_arcs(seg) == digit_arcs(d)) by {
        if start > a {
            assert(seg.skip(1) =~= d);
        } else {
            assert(seg =~= d);
        }
    }
    let mut val: u64 = 0;
    let mut i: usize = start;
    assert(s@.subrange(start as int, start as int) =~= seq![]);
    while i < b
        invariant
            start <= i <= b <= s@.len(),
            d == s@.subrange(start as int, b as int),
            seg == s@.subrange(a as int, b as int),
            segment_arcs(seg) == digit_arcs(d),
            forall|k: int| start <= k < i ==> is_digit(#[trigger] s@[k]),
            val <= u32::MAX,
            val == dec_val(s@.subrange(start as int, i as int)),
        decreases b - i,
    {
        let c = s[i];
        let ghost pre = s@.subrange(start as int, i as int);
        proof {
            assert(s@.subrange(start as int, i + 1) =~= pre.push(c));
            lemma_dec_val_step(pre, c);
        }
        if c < 48u8 || c > 57u8 {
            proof {
                assert(d[i - start] == c);
                assert(!is_digit(d[i - start]));
                assert(digit_arcs(d) =~= seq![]);
            }
            return None;
        }
        let nv: u64 = val * 10 + (c - 48u8) as u64;
        if nv > 0xFFFF_FFFFu64 {
            proof {
                lemma_dec_val_mono(s@, start as int, i + 1, b as int);
                if forall|k: int| 0 <= k < d.len() ==> is_digit(#[trigger] d[k]) {
                    assert forall|k: int| start <= k < b implies is_digit(#[trigger] s@[k]) by {
                        assert(s@[k] == d[k - start]);
                    }
                    assert(dec_val(d) > u32::MAX);
                }
                assert(digit_arcs(d) =~= seq![]);
            }
            return None;
        }
        val = nv;
        i = i + 1;
    }
    proof {
        assert(d =~= s@.subrange(start as int, i as int));
        assert forall|k: int| 0 <= k < d.len() implies is_digit(#[trigger] d[k]) by {
            assert(d[k] == s@[start + k]);
        }
    }
    if b == start {
        None
    } else {
        Some(val as u32)
    }
}

/// A longer run of digits is worth at least as much.
proof fn lemma_dec_val_mono(s: Seq<u8>, a: int, i: int, b: int)
    requires
        0 <= a <= i <= b <= s.len(),
    ensures
        (forall|k: int| a <= k < b ==> is_digit(#[trigger] s[k])) ==> dec_val(s.subrange(a, b))
            >= dec_val(s.subrange(a, i)),
    decreases b - i,
{
    if i < b {
        lemma_dec_val_mono(s, a, i + 1, b);
        assert(s.subrange(a, i + 1) =~= s.subrange(a, i).push(s[i]));
        lemma_dec_val_step(s.subrange(a, i), s[i]);
    }
}

proof fn lemma_dec_digits(n: nat)
    ensures
        dec_digits(n).len() >= 1,
        forall|i: int| 0 <= i < dec_digits(n).len() ==> is_digit(#[trigger] dec_digits(n)[i]),
        dec_val(dec_digits(n)) == n,
    decreases n,
{
    if n >= 10 {
        lemma_dec_digits(n / 10);
        let p = dec_digits(n / 10);
        let c = (48 + n % 10) as u8;
        lemma_dec_val_step(p, c);
        assert(dec_digits(n) == p.push(c));
        assert(c - 48 == n % 10);
        vstd::arithmetic::div_mod::lemma_fundamental_div_mod(n as int, 10);
        assert(dec_val(dec_digits(n)) == (n / 10) * 10 + n % 10);
    } else {
        assert(dec_digits(n).drop_last() =~= seq![]);
        assert(dec_val(dec_digits(n)) == dec_val(seq![]) * 10 + n);
    }
}

/// Parsing the dotted text of an identifier gives the identifier back.
pub proof fn lemma_parse_dotted(a: Seq<u32>)
    requires
        a.len() >= 1,
    ensures
        text_arcs(dotted(a)) == a,
    decreases a.len(),
{
    let n = a.last();
    let d = dec_digits(n as nat);
    lemma_dec_digits(n as nat);
    assert(d[0] != 43);
    assert(digit_arcs(d) == seq![n]);
    if a.len() == 1 {
        lemma_last_dot_at(d, -1);
        assert(segment_arcs(d) == seq![n]);
        assert(seq![n] =~= a);
    } else {
        let init = dotted(a.drop_last());
        let s = init + seq![46u8] + d;
        let k = init.len() as int;
        assert(s == dotted(a));
        assert forall|j: int| k < j < s.len() implies s[j] != 46 by {
            assert(s[j] == d[j - k - 1]);
            assert(is_digit(d[j - k - 1]));
        }
        lemma_last_dot_at(s, k);
        assert(s.take(k) =~= init);
        assert(s.skip(k + 1) =~= d);
        lemma_parse_dotted(a.drop_last());
        assert(a.drop_last() + seq![n] =~= a);
    }
}

pub proof fn lemma_dotted_ascii(a: Seq<u32>)
    ensures
        is_ascii_text(dotted(a)),
    decreases a.len(),
{
    if a.len() == 1 {
        lemma_dec_digits_ascii(a[0] as nat);
    } else if a.len() > 1 {
        lemma_dotted_ascii(a.drop_last());
        lemma_dec_digits_ascii(a.last() as nat);
    }
}

impl Oid {
    /// An identifier has at least one arc.
    pub open spec fn wf(&self) -> bool {
        self@.len() >= 1
    }

    /// Parses a dotted text (`.1.3.6.1.2.1`). A leading dot is optional;
    /// empty or non-numeric segments are skipped. `None` when no segment
    /// gives an arc.
    pub fn parse(text: &str) -> (r: Option<Oid>)
        ensures
            match r {
                Some(o) => o@ == text_arcs(text.spec_bytes()) && o.wf(),
                None => text_arcs(text.spec_bytes()).len() == 0,
            },
    {
        let s = text.as_bytes();
        let n = s.len();
        let mut arcs: Vec<u32> = Vec::new();
        let mut seg: usize = 0;
        let mut i: usize = 0;
        while i < n
            invariant
                s@ == text.spec_bytes(),
                n == s@.len(),
                seg <= i <= n,
                arcs@ == (if seg == 0 { seq![] } else { text_arcs(s@.take(seg - 1)) }),
                seg > 0 ==> s@[seg - 1] == 46,
                forall|k: int| seg <= k < i ==> s@[k] != 46,
            decreases n - i,
        {
            if s[i] == 46u8 {
                proof {
                    lemma_close_segment(s@, seg as int, i as int);
                }
                if let Some(v) = read_segment(s, seg, i) {
                    arcs.push(v);
                }
                proof {
                    assert(arcs@ =~= text_arcs(s@.take(i as int)));
                    assert(s@.take(i as int) =~= s@.take((i + 1) - 1));
                }
                seg = i + 1;
            }
            i = i + 1;
        }
        proof {
            lemma_close_segment(s@, seg as int, n as int);
            assert(s@.take(n as int) =~= s@);
        }
        if let Some(v) = read_segment(s, seg, n) {
            arcs.push(v);
        }
        proof {
            assert(arcs@ =~= text_arcs(s@));
        }
        if arcs.len() == 0 {
            None
        } else {
            Some(Oid { arcs })
        }
    }

    /// `self` is a prefix of `other`: `other` lies in the subtree at `self`.
    pub fn is_prefix_of(&self, other: &Oid) -> (r: bool)
        ensures
            r == is_prefix(self@, other@),
    {
        let n = self.arcs.len();
        if n > other.arcs.len() {
            return false;
        }
        let mut i: usize = 0;
        while i < n
            invariant
                n == self@.len(),
                n <= other@.len(),
                i <= n,
                forall|k: int| 0 <= k < i ==> self@[k] == other@[k],
            decreases n - i,
        {
            if self.arcs[i] != other.arcs[i] {
                return false;
            }
            i = i + 1;
        }
        assert(other@.take(n as int) =~= self@);
        true
    }

    /// `self` comes strictly before `other` in lexicographic order.
    pub fn less_than(&self, other: &Oid) -> (r: bool)
        ensures
            r == oid_lt(self@, other@),
    {
        let mut i: usize = 0;
        loop
            invariant
                lt_from(self@, other@, i as int) == oid_lt(self@, other@),
            decreases self@.len() - i,
        {
            if i >= self.arcs.len() {
                return i < other.arcs.len();
            }
            if i >= other.arcs.len() {
                return false;
            }
            if self.arcs[i] != other.arcs[i] {
                return self.arcs[i] < other.arcs[i];
            }
            i = i + 1;
        }
    }

    /// The arcs after the first `k`.
    pub fn suffix(&self, k: usize) -> (r: Vec<u32>)
        requires
            k <= self@.len(),
        ensures
            r@ == self@.skip(k as int),
    {
        let mut r: Vec<u32> = Vec::new();
        let mut i: usize = k;
        while i < self.arcs.len()
            invariant
                k <= i <= self@.len(),
                r@ == self@.subrange(k as int, i as int),
            decreases self@.len() - i,
        {
            r.push(self.arcs[i]);
            i = i + 1;
            assert(r@ =~= self@.subrange(k as int, i as int));
        }
        assert(self@.skip(k as int) =~= self@.subrange(k as int, i as int));
        r
    }

    /// Appends the dotted form of the arcs.
    pub fn push_dotted(&self, out: &mut Vec<u8>)
        ensures
            final(out)@ == old(out)@ + dotted(self@),
    {
        let mut i: usize = 0;
        while i < self.arcs.len()
            invariant
                i <= self@.len(),
                out@ == old(out)@ + dotted(self@.take(i as int)),
            decreases self@.len() - i,
        {
            let ghost before = out@;
            if i > 0 {
                out.push(46u8);
            }
            push_decimal(out, self.arcs[i] as u64);
            proof {
                let t = self@.take(i + 1);
                assert(t.drop_last() =~= self@.take(i as int));
                if i == 0 {
                    assert(self@.take(0) =~= seq![]);
                    assert(out@ =~= old(out)@ + dotted(t));
                } else {
                    assert(out@ =~= old(out)@ + dotted(t));
                }
            }
            i = i + 1;
        }
        assert(self@.take(i as int) =~= self@);
    }

    /// The dotted text of the identifier, without a leading dot.
    pub fn to_dotted(&self) -> (r: String)
        ensures
            r@ == ascii_chars(dotted(self@)),
    {
        let mut out: Vec<u8> = Vec::new();
        self.push_dotted(&mut out);
        proof {
            assert(out@ =~= dotted(self@));
            lemma_dotted_ascii(self@);
        }
        string_from_ascii(out)
    }
}

} // verus!
