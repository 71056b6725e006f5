//! The BER decoder: each reader follows one rule of the grammar in
//! `model` and returns exactly what that rule gives.
use vstd::prelude::*;
use crate::ber::{parse_tlv, read_tlv, read_int};
use crate::oid_ber::read_oid_content;
use crate::model::{VarBindModel, PduKind, Version, value_of, kind_of_tag, split_tlv, parse_varbind, parse_varbinds, parse_int_elem, parse_pdu, parse_message};
use crate::message::{Value, VarBind, SimplePdu, BulkPdu, Pdu, Message, bindings_view, copy_range};
use crate::oid::Oid;

verus! {

/// Reads the element at `pos` within `buf[pos..end]`.
pub fn read_elem(buf: &[u8], pos: usize, end: usize) -> (r: Option<(u8, usize, usize)>)
    requires
        pos <= end <= buf@.len(),
    ensures
        match (split_tlv(buf@.subrange(pos as int, end as int)), r) {
            (Some((t, c, rest)), Some((rt, a, b))) => rt == t && pos <= a <= b <= end && c
                == buf@.subrange(a as int, b as int) && rest == buf@.subrange(b as int, end as int)
                && parse_tlv(buf@.subrange(pos as int, end as int)) == Some(
                (t, a - pos, b - pos),
            ),
            (None, None) => true,
            _ => false,
        },
{
    let r = read_tlv(buf, pos, end);
    proof {
        let s = buf@.subrange(pos as int, end as int);
        match r {
            Some((t, a, b)) => {
                assert(s.subrange(a - pos, b - pos) =~= buf@.subrange(a as int, b as int));
                assert(s.skip(b - pos) =~= buf@.subrange(b as int, end as int));
            },
            None => {},
        }
    }
    r
}

/// Reads the value that tag `t` and the content `buf[a..b]` stand for.
pub fn read_value(buf: &[u8], t: u8, a: usize, b: usize) -> (r: Option<Value>)
    requires
        a <= b <= buf@.len(),
    ensures
        match value_of(t, buf@.subrange(a as int, b as int)) {
            Some(v) => r is Some && r->0@ == v,
            None => r is None,
        },
{
    if t == 0x02 || t == 0x41 || t == 0x42 || t == 0x43 || t == 0x46 {
        let i = match read_int(buf, a, b) {
            Some(i) => i,
            None => return None,
        };
        if t == 0x02 {
            if i < -0x8000_0000_0000_0000i128 || i > 0x7fff_ffff_ffff_ffffi128 {
                None
            } else {
                Some(Value::Integer(i as i64))
            }
        } else if t == 0x46 {
            if i < 0 || i > 0xffff_ffff_ffff_ffffi128 {
                None
            } else {
                Some(Value::Counter64(i as u64))
            }
        } else if i < 0 || i > 0xffff_ffffi128 {
            None
        } else if t == 0x41 {
            Some(Value::Counter32(i as u32))
        } else if t == 0x42 {
            Some(Value::Unsigned32(i as u32))
        } else {
            Some(Value::TimeTicks(i as u32))
        }
    } else if t == 0x04 {
        Some(Value::OctetString(copy_range(buf, a, b)))
    } else if t == 0x44 {
        Some(Value::Opaque(copy_range(buf, a, b)))
    } else if t == 0x06 {
        match read_oid_content(buf, a, b) {
            Some(arcs) => Some(Value::ObjectId(Oid { arcs })),
            None => None,
        }
    } else if t == 0x40 {
        if b - a != 4 {
            None
        } else {
            let ip: [u8; 4] = [buf[a], buf[a + 1], buf[a + 2], buf[a + 3]];
            assert(ip@ =~= buf@.subrange(a as int, b as int));
            Some(Value::IpAddress(ip))
        }
    } else if t == 0x05 || t == 0x80 || t == 0x81 || t == 0x82 {
        if b != a {
            None
        } else if t == 0x05 {
            Some(Value::Null)
        } else if t == 0x80 {
            Some(Value::NoSuchObject)
        } else if t == 0x81 {
            Some(Value::NoSuchInstance)
        } else {
            Some(Value::EndOfMibView)
        }
    } else {
        None
    }
}

/// Reads a binding whose SEQUENCE content is `buf[a..b]`.
pub fn read_varbind(buf: &[u8], a: usize, b: usize) -> (r: Option<VarBind>)
    requires
        a <= b <= buf@.len(),
    ensures
        match parse_varbind(buf@.subrange(a as int, b as int)) {
            Some(vb) => r is Some && r->0@ == vb,
            None => r is None,
        },
{
    let (t, oa, ob) = match read_elem(buf, a, b) {
        Some(e) => e,
        None => return None,
    };
    if t != 0x06 {
        return None;
    }
    let arcs = read_oid_content(buf, oa, ob);
    let (vt, va, vb) = match read_elem(buf, ob, b) {
        Some(e) => e,
        None => {
            return None;
        },
    };
    if vb != b {
        assert(buf@.subrange(vb as int, b as int).len() != 0);
        return None;
    }
    assert(buf@.subrange(vb as int, b as int) =~= seq![]);
    let arcs = match arcs {
        Some(x) => x,
        None => return None,
    };
    match read_value(buf, vt, va, vb) {
        Some(value) => Some(VarBind { name: Oid { arcs }, value }),
        None => None,
    }
}

pub open spec fn prepend_bindings(d: Seq<VarBindModel>, o: Option<Seq<VarBindModel>>) -> Option<
    Seq<VarBindModel>,
> {
    match o {
        Some(r) => Some(d + r),
        None => None,
    }
}

/// Reads the bindings that fill `buf[a..b]`.
pub fn read_varbinds(buf: &[u8], a: usize, b: usize) -> (r: Option<Vec<VarBind>>)
    requires
        a <= b <= buf@.len(),
    ensures
        match parse_varbinds(buf@.subrange(a as int, b as int)) {
            Some(bs) => r is Some && bindings_view(r->0@) == bs,
            None => r is None,
        },
{
    let ghost c = buf@.subrange(a as int, b as int);
    let mut out: Vec<VarBind> = Vec::new();
    let mut pos: usize = a;
    assert(prepend_bindings(bindings_view(out@), parse_varbinds(c)) =~= parse_varbinds(c)) by {
        assert(bindings_view(out@) =~= seq![]);
        match parse_varbinds(c) {
            Some(x) => assert(bindings_view(out@) + x =~= x),
            None => {},
        }
    }
    while pos < b
        invariant
            a <= pos <= b <= buf@.len(),
            c == buf@.subrange(a as int, b as int),
            parse_varbinds(c) == prepend_bindings(
                bindings_view(out@),
                parse_varbinds(buf@.subrange(pos as int, b as int)),
            ),
        decreases b - pos,
    {
        let ghost s = buf@.subrange(pos as int, b as int);
        let (t, ca, cb) = match read_elem(buf, pos, b) {
            Some(e) => e,
            None => return None,
        };
        if t != 0x30 {
            return None;
        }
        let vb = match read_varbind(buf, ca, cb) {
            Some(x) => x,
            None => return None,
        };
        proof {
            assert(s.subrange(ca - pos, cb - pos) =~= buf@.subrange(ca as int, cb as int));
            assert(s.skip(cb - pos) =~= buf@.subrange(cb as int, b as int));
            let d = bindings_view(out@);
            assert(bindings_view(out@.push(vb)) =~= d.push(vb@));
            match parse_varbinds(buf@.subrange(cb as int, b as int)) {
                Some(x) => assert(d + (seq![vb@] + x) =~= d.push(vb@) + x),
                None => {},
            }
        }
        out.push(vb);
        pos = cb;
    }
    proof {
        assert(buf@.subrange(pos as int, b as int) =~= seq![]);
        assert(bindings_view(out@) + seq![] =~= bindings_view(out@));
    }
    Some(out)
}

/// Reads an INTEGER element at `pos`; returns its value and where the next
/// element starts.
pub fn read_int_elem(buf: &[u8], pos: usize, end: usize) -> (r: Option<(i128, usize)>)
    requires
        pos <= end <= buf@.len(),
    ensures
        match (parse_int_elem(buf@.subrange(pos as int, end as int)), r) {
            (Some((i, rest)), Some((ri, next))) => ri == i && pos <= next <= end && rest
                == buf@.subrange(next as int, end as int),
            (None, None) => true,
            _ => false,
        },
{
    let (t, a, b) = match read_elem(buf, pos, end) {
        Some(e) => e,
        None => return None,
    };
    if t != 0x02 {
        return None;
    }
    match read_int(buf, a, b) {
        Some(i) => Some((i, b)),
        None => None,
    }
}

fn simple_pdu(kind: PduKind, p: SimplePdu) -> (r: Pdu)
    requires
        kind != PduKind::GetBulkRequest,
    ensures
        r@ == crate::message::simple_view(kind, p),
{
    match kind {
        PduKind::GetRequest => Pdu::GetRequest(p),
        PduKind::GetNextRequest => Pdu::GetNextRequest(p),
        PduKind::GetResponse => Pdu::GetResponse(p),
        PduKind::SetRequest => Pdu::SetRequest(p),
        _ => Pdu::Trap(p),
    }
}

/// Reads a PDU of the given kind whose content is `buf[a..b]`.
pub fn read_pdu(buf: &[u8], kind: PduKind, a: usize, b: usize) -> (r: Option<Pdu>)
    requires
        a <= b <= buf@.len(),
    ensures
        match parse_pdu(kind, buf@.subrange(a as int, b as int)) {
            Some(p) => r is Some && r->0@ == p,
            None => r is None,
        },
{
    reveal(parse_pdu);
    let (rid, after_id) = match read_int_elem(buf, a, b) {
        Some(x) => x,
        None => return None,
    };
    let (x, after_first) = match read_int_elem(buf, after_id, b) {
        Some(v) => v,
        None => return None,
    };
    let (y, after_second) = match read_int_elem(buf, after_first, b) {
        Some(v) => v,
        None => return None,
    };
    let (t, la, lb) = match read_elem(buf, after_second, b) {
        Some(e) => e,
        None => return None,
    };
    let bulk = match kind {
        PduKind::GetBulkRequest => true,
        _ => false,
    };
    let xmax: i128 = if bulk { 0xffff_ffff } else { 0xff };
    if t != 0x30 || lb != b || rid < -0x8000_0000i128 || rid > 0x7fff_ffffi128 || x < 0 || x
        > xmax || y < 0 || y > 0xffff_ffffi128 {
        proof {
            if lb != b {
                assert(buf@.subrange(lb as int, b as int).len() != 0);
            }
        }
        return None;
    }
    let bindings = match read_varbinds(buf, la, lb) {
        Some(v) => v,
        None => return None,
    };
    if bulk {
        Some(
            Pdu::GetBulkRequest(
                BulkPdu {
                    request_id: rid as i32,
                    non_repeaters: x as u32,
                    max_repetitions: y as u32,
                    bindings,
                },
            ),
        )
    } else {
        Some(
            simple_pdu(
                kind,
                SimplePdu {
                    request_id: rid as i32,
                    error_status: x as u8,
                    error_index: y as u32,
                    bindings,
                },
            ),
        )
    }
}

fn kind_from_tag(t: u8) -> (r: Option<PduKind>)
    ensures
        r == kind_of_tag(t),
{
    if t == 0xa0 {
        Some(PduKind::GetRequest)
    } else if t == 0xa1 {
        Some(PduKind::GetNextRequest)
    } else if t == 0xa2 {
        Some(PduKind::GetResponse)
    } else if t == 0xa3 {
        Some(PduKind::SetRequest)
    } else if t == 0xa5 {
        Some(PduKind::GetBulkRequest)
    } else if t == 0xa7 {
        Some(PduKind::Trap)
    } else {
        None
    }
}

/// Reads the message that fills `buf`.
pub fn read_message(buf: &[u8]) -> (r: Option<Message>)
    ensures
        match parse_message(buf@) {
            Some(m) => r is Some && r->0@ == m,
            None => r is None,
        },
{
    let n = buf.len();
    assert(buf@.subrange(0, n as int) =~= buf@);
    let (t, a, b) = match read_elem(buf, 0, n) {
        Some(e) => e,
        None => return None,
    };
    if t != 0x30 || b != n {
        proof {
            if b != n {
                assert(buf@.subrange(b as int, n as int).len() != 0);
            }
        }
        return None;
    }
    let (v, after_version) = match read_int_elem(buf, a, b) {
        Some(x) => x,
        None => return None,
    };
    let (ct, ca, cb) = match read_elem(buf, after_version, b) {
        Some(e) => e,
        None => return None,
    };
    let (pt, pa, pb) = match read_elem(buf, cb, b) {
        Some(e) => e,
        None => return None,
    };
    if ct != 0x04 || pb != b || (v != 0 && v != 1) {
        proof {
            if pb != b {
                assert(buf@.subrange(pb as int, b as int).len() != 0);
            }
        }
        return None;
    }
    proof {
        assert(buf@.subrange(pb as int, b as int) =~= seq![]);
        assert(buf@.subrange(b as int, n as int) =~= seq![]);
    }
    let kind = match kind_from_tag(pt) {
        Some(k) => k,
        None => return None,
    };
    let pdu = match read_pdu(buf, kind, pa, pb) {
        Some(p) => p,
        None => return None,
    };
    Some(
        Message {
            version: if v == 0 { Version::V1 } else { Version::V2c },
            community: copy_range(buf, ca, cb),
            pdu,
        },
    )
}

} // verus!
