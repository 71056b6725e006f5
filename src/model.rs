//! The SNMP message model and its BER grammar, stated over mathematical
//! values, with the round-trip law of the codec.
use vstd::prelude::*;
use crate::ber::{tlv, int_bytes, int_content, parse_tlv, pow256, half_range, hdr_len, lemma_parse_tlv, lemma_int_bytes, lemma_pow256_values, lemma_half_range_values};
use crate::oid_ber::{oid_content, encodable, parse_oid_content, lemma_oid_content};

verus! {

/// What a value slot holds, as a mathematical value.
pub enum ValueModel {
    Integer(i64),
    OctetString(Seq<u8>),
    ObjectId(Seq<u32>),
    IpAddress(Seq<u8>),
    Counter32(u32),
    Unsigned32(u32),
    TimeTicks(u32),
    Counter64(u64),
    Opaque(Seq<u8>),
    Null,
    NoSuchObject,
    NoSuchInstance,
    EndOfMibView,
}

pub struct VarBindModel {
    pub name: Seq<u32>,
    pub value: ValueModel,
}

/// The kinds of PDU, each with its context-specific constructed tag.
#[derive(Clone, Copy, Debug, PartialEq, Eq, Structural)]
pub enum PduKind {
    GetRequest,
    GetNextRequest,
    GetResponse,
    SetRequest,
    GetBulkRequest,
    Trap,
}

/// A PDU as a mathematical value. For a bulk request `first` and `second`
/// are non-repeaters and max-repetitions; for the others they are
/// error-status and error-index.
pub struct PduModel {
    pub kind: PduKind,
    pub request_id: i32,
    pub first: u32,
    pub second: u32,
    pub bindings: Seq<VarBindModel>,
}

/// The protocol versions: v1 is sent as 0, v2c as 1.
#[derive(Clone, Copy, Debug, PartialEq, Eq, Structural)]
pub enum Version {
    V1,
    V2c,
}

pub struct MessageModel {
    pub version: Version,
    pub community: Seq<u8>,
    pub pdu: PduModel,
}

pub open spec fn version_code(v: Version) -> int {
    match v {
        Version::V1 => 0,
        Version::V2c => 1,
    }
}

pub open spec fn pdu_tag(k: PduKind) -> u8 {
    match k {
        PduKind::GetRequest => 0xa0,
        PduKind::GetNextRequest => 0xa1,
        PduKind::GetResponse => 0xa2,
        PduKind::SetRequest => 0xa3,
        PduKind::GetBulkRequest => 0xa5,
        PduKind::Trap => 0xa7,
    }
}

pub open spec fn kind_of_tag(t: u8) -> Option<PduKind> {
    if t == 0xa0 {
        Some(PduKind::GetRequest)
    } else if t == 0xa1 {
        Some(PduKind::GetNextRequest)
    } else if t == 0xa2 {
        Some(PduKind::GetResponse)
    } else if t == 0xa3 {
        Some(PduKind::SetRequest)
    } else if t == 0xa5 {
        Some(PduKind::GetBulkRequest)
    } else if t == 0xa7 {
        Some(PduKind::Trap)
    } else {
        None
    }
}

/// The tag and content octets of a value: universal tags for INTEGER,
/// OCTET STRING, NULL and OBJECT IDENTIFIER, application tags for the SMI
/// types, context tags for the exception indicators.
pub open spec fn value_tag(v: ValueModel) -> u8 {
    match v {
        ValueModel::Integer(_) => 0x02,
        ValueModel::OctetString(_) => 0x04,
        ValueModel::Null => 0x05,
        ValueModel::ObjectId(_) => 0x06,
        ValueModel::IpAddress(_) => 0x40,
        ValueModel::Counter32(_) => 0x41,
        ValueModel::Unsigned32(_) => 0x42,
        ValueModel::TimeTicks(_) => 0x43,
        ValueModel::Opaque(_) => 0x44,
        ValueModel::Counter64(_) => 0x46,
        ValueModel::NoSuchObject => 0x80,
        ValueModel::NoSuchInstance => 0x81,
        ValueModel::EndOfMibView => 0x82,
    }
}

pub open spec fn value_content(v: ValueModel) -> Seq<u8> {
    match v {
        ValueModel::Integer(i) => int_bytes(i as int),
        ValueModel::OctetString(b) => b,
        ValueModel::ObjectId(a) => oid_content(a),
        ValueModel::IpAddress(b) => b,
        ValueModel::Counter32(n) => int_bytes(n as int),
        ValueModel::Unsigned32(n) => int_bytes(n as int),
        ValueModel::TimeTicks(n) => int_bytes(n as int),
        ValueModel::Counter64(n) => int_bytes(n as int),
        ValueModel::Opaque(b) => b,
        _ => seq![],
    }
}

pub open spec fn enc_value(v: ValueModel) -> Seq<u8> {
    tlv(value_tag(v), value_content(v))
}

/// The value that a tag and a content stand for; `None` for an unknown
/// tag, a malformed content or a number out of the type's range.
pub open spec fn value_of(t: u8, c: Seq<u8>) -> Option<ValueModel> {
    if t == 0x02 {
        match int_content(c) {
            Some(i) => if i64::MIN <= i <= i64::MAX {
                Some(ValueModel::Integer(i as i64))
            } else {
                None
            },
            None => None,
        }
    } else if t == 0x04 {
        Some(ValueModel::OctetString(c))
    } else if t == 0x05 {
        if c.len() == 0 {
            Some(ValueModel::Null)
        } else {
            None
        }
    } else if t == 0x06 {
        match parse_oid_content(c) {
            Some(a) => Some(ValueModel::ObjectId(a)),
            None => None,
        }
    } else if t == 0x40 {
        if c.len() == 4 {
            Some(ValueModel::IpAddress(c))
        } else {
            None
        }
    } else if t == 0x41 || t == 0x42 || t == 0x43 {
        match int_content(c) {
            Some(i) => if 0 <= i <= u32::MAX {
                Some(
                    if t == 0x41 {
                        ValueModel::Counter32(i as u32)
                    } else if t == 0x42 {
                        ValueModel::Unsigned32(i as u32)
                    } else {
                        ValueModel::TimeTicks(i as u32)
                    },
                )
            } else {
                None
            },
            None => None,
        }
    } else if t == 0x44 {
        Some(ValueModel::Opaque(c))
    } else if t == 0x46 {
        match int_content(c) {
            Some(i) => if 0 <= i <= u64::MAX {
                Some(ValueModel::Counter64(i as u64))
            } else {
                None
            },
            None => None,
        }
    } else if t == 0x80 || t == 0x81 || t == 0x82 {
        if c.len() == 0 {
            Some(
                if t == 0x80 {
                    ValueModel::NoSuchObject
                } else if t == 0x81 {
                    ValueModel::NoSuchInstance
                } else {
                    ValueModel::EndOfMibView
                },
            )
        } else {
            None
        }
    } else {
        None
    }
}

/// A value that the grammar can carry: an identifier with at least two
/// arcs that BER can pack, an address of four bytes.
pub open spec fn value_wf(v: ValueModel) -> bool {
    match v {
        ValueModel::ObjectId(a) => encodable(a),
        ValueModel::IpAddress(b) => b.len() == 4,
        _ => true,
    }
}

pub open spec fn varbind_wf(vb: VarBindModel) -> bool {
    encodable(vb.name) && value_wf(vb.value)
}

pub open spec fn pdu_wf(p: PduModel) -> bool {
    (p.kind != PduKind::GetBulkRequest ==> p.first <= u8::MAX) && forall|i: int|
        0 <= i < p.bindings.len() ==> #[trigger] varbind_wf(p.bindings[i])
}

pub open spec fn message_wf(m: MessageModel) -> bool {
    pdu_wf(m.pdu)
}

/// A binding: SEQUENCE { name OBJECT IDENTIFIER, value }.
pub open spec fn varbind_content(vb: VarBindModel) -> Seq<u8> {
    tlv(0x06, oid_content(vb.name)) + enc_value(vb.value)
}

pub open spec fn enc_varbinds(bs: Seq<VarBindModel>) -> Seq<u8>
    decreases bs.len(),
{
    if bs.len() == 0 {
        seq![]
    } else {
        tlv(0x30, varbind_content(bs[0])) + enc_varbinds(bs.skip(1))
    }
}

/// A PDU's content: request-id, the two numbers, the bindings list.
pub open spec fn pdu_content(p: PduModel) -> Seq<u8> {
    tlv(0x02, int_bytes(p.request_id as int)) + tlv(0x02, int_bytes(p.first as int)) + tlv(
        0x02,
        int_bytes(p.second as int),
    ) + tlv(0x30, enc_varbinds(p.bindings))
}

pub open spec fn message_content(m: MessageModel) -> Seq<u8> {
    tlv(0x02, int_bytes(version_code(m.version))) + tlv(0x04, m.community) + tlv(
        pdu_tag(m.pdu.kind),
        pdu_content(m.pdu),
    )
}

/// The BER encoding of a message.
pub open spec fn enc_message(m: MessageModel) -> Seq<u8> {
    tlv(0x30, message_content(m))
}

/// The element at the front of `s`: tag, content, and what follows.
pub open spec fn split_tlv(s: Seq<u8>) -> Option<(u8, Seq<u8>, Seq<u8>)> {
    match parse_tlv(s) {
        Some((t, a, b)) => Some((t, s.subrange(a, b), s.skip(b))),
        None => None,
    }
}

/// The content of a binding: an identifier element, then exactly one value
/// element.
pub open spec fn parse_varbind(c: Seq<u8>) -> Option<VarBindModel> {
    match split_tlv(c) {
        Some((t, oc, r1)) => if t != 0x06 {
            None
        } else {
            match (parse_oid_content(oc), split_tlv(r1)) {
                (Some(name), Some((vt, vc, r2))) => if r2.len() != 0 {
                    None
                } else {
                    match value_of(vt, vc) {
                        Some(value) => Some(VarBindModel { name, value }),
                        None => None,
                    }
                },
                _ => None,
            }
        },
        None => None,
    }
}

/// A run of binding elements that fills `s` exactly.
pub open spec fn parse_varbinds(s: Seq<u8>) -> Option<Seq<VarBindModel>>
    decreases s.len(),
{
    if s.len() == 0 {
        Some(seq![])
    } else {
        match parse_tlv(s) {
            Some((t, a, b)) => if t == 0x30 && 0 < b <= s.len() {
                match (parse_varbind(s.subrange(a, b)), parse_varbinds(s.skip(b))) {
                    (Some(vb), Some(rest)) => Some(seq![vb] + rest),
                    _ => None,
                }
            } else {
                None
            },
            None => None,
        }
    }
}

/// An INTEGER element at the front of `s`, and what follows it.
pub open spec fn parse_int_elem(s: Seq<u8>) -> Option<(int, Seq<u8>)> {
    match split_tlv(s) {
        Some((t, c, r)) => if t != 0x02 {
            None
        } else {
            match int_content(c) {
                Some(i) => Some((i, r)),
                None => None,
            }
        },
        None => None,
    }
}

/// The content of a PDU of the given kind.
#[verifier::opaque]
pub open spec fn parse_pdu(kind: PduKind, c: Seq<u8>) -> Option<PduModel> {
    match parse_int_elem(c) {
        Some((rid, r1)) => match parse_int_elem(r1) {
            Some((x, r2)) => match parse_int_elem(r2) {
                Some((y, r3)) => match split_tlv(r3) {
                    Some((t, lc, r4)) => {
                        let xmax: int = if kind == PduKind::GetBulkRequest {
                            u32::MAX as int
                        } else {
                            u8::MAX as int
                        };
                        if t == 0x30 && r4.len() == 0 && i32::MIN <= rid <= i32::MAX && 0 <= x
                            <= xmax && 0 <= y <= u32::MAX {
                            match parse_varbinds(lc) {
                                Some(bs) => Some(
                                    PduModel {
                                        kind,
                                        request_id: rid as i32,
                                        first: x as u32,
                                        second: y as u32,
                                        bindings: bs,
                                    },
                                ),
                                None => None,
                            }
                        } else {
                            None
                        }
                    },
                    None => None,
                },
                None => None,
            },
            None => None,
        },
        None => None,
    }
}

/// The message that `s` encodes: one SEQUENCE filling `s`, holding the
/// version (0 or 1), the community and one PDU.
pub open spec fn parse_message(s: Seq<u8>) -> Option<MessageModel> {
    match split_tlv(s) {
        Some((t, c, r)) => if t != 0x30 || r.len() != 0 {
            None
        } else {
            match parse_int_elem(c) {
                Some((v, r1)) => match split_tlv(r1) {
                    Some((ct, community, r2)) => match split_tlv(r2) {
                        Some((pt, pc, r3)) => if ct == 0x04 && r3.len() == 0 && (v == 0 || v
                            == 1) {
                            match kind_of_tag(pt) {
                                Some(kind) => match parse_pdu(kind, pc) {
                                    Some(pdu) => Some(
                                        MessageModel {
                                            version: if v == 0 {
                                                Version::V1
                                            } else {
                                                Version::V2c
                                            },
                                            community,
                                            pdu,
                                        },
                                    ),
                                    None => None,
                                },
                                None => None,
                            }
                        } else {
                            None
                        },
                        None => None,
                    },
                    None => None,
                },
                None => None,
            }
        },
        None => None,
    }
}

proof fn lemma_split(tag: u8, c: Seq<u8>, rest: Seq<u8>)
    requires
        c.len() < pow256(8),
    ensures
        split_tlv(tlv(tag, c) + rest) == Some((tag, c, rest)),
        tlv(tag, c).len() == hdr_len(c.len()) + c.len(),
        tlv(tag, c).len() > c.len(),
{
    lemma_parse_tlv(tag, c, rest);
}

proof fn lemma_split_end(tag: u8, c: Seq<u8>)
    requires
        c.len() < pow256(8),
    ensures
        split_tlv(tlv(tag, c)) == Some((tag, c, Seq::<u8>::empty())),
        tlv(tag, c).len() > c.len(),
{
    lemma_split(tag, c, seq![]);
    assert(tlv(tag, c) + seq![] =~= tlv(tag, c));
}

proof fn lemma_int_elem(v: int, rest: Seq<u8>)
    requires
        -half_range(9) <= v < half_range(9),
    ensures
        parse_int_elem(tlv(0x02, int_bytes(v)) + rest) == Some((v, rest)),
{
    lemma_int_bytes(v, 9);
    lemma_pow256_values();
    lemma_split(0x02, int_bytes(v), rest);
}

/// Every value that the grammar can carry reads back from its element: the
/// element splits into the value's tag and content, and these decode to the
/// value itself, never to another type.
pub proof fn lemma_value_round_trip(v: ValueModel, rest: Seq<u8>)
    requires
        value_wf(v),
        value_content(v).len() < pow256(8),
    ensures
        split_tlv(enc_value(v) + rest) == Some((value_tag(v), value_content(v), rest)),
        value_of(value_tag(v), value_content(v)) == Some(v),
{
    lemma_split(value_tag(v), value_content(v), rest);
    lemma_half_range_values();
    reveal_with_fuel(half_range, 10);
    match v {
        ValueModel::Integer(i) => {
            lemma_int_bytes(i as int, 8);
        },
        ValueModel::ObjectId(a) => {
            lemma_oid_content(a);
        },
        ValueModel::Counter32(n) => {
            lemma_int_bytes(n as int, 9);
        },
        ValueModel::Unsigned32(n) => {
            lemma_int_bytes(n as int, 9);
        },
        ValueModel::TimeTicks(n) => {
            lemma_int_bytes(n as int, 9);
        },
        ValueModel::Counter64(n) => {
            lemma_int_bytes(n as int, 9);
        },
        _ => {},
    }
}

proof fn lemma_varbind(vb: VarBindModel)
    requires
        varbind_wf(vb),
        varbind_content(vb).len() < pow256(8),
    ensures
        parse_varbind(varbind_content(vb)) == Some(vb),
{
    let oc = oid_content(vb.name);
    let ve = enc_value(vb.value);
    lemma_split(0x06, oc, ve);
    lemma_split_end(value_tag(vb.value), value_content(vb.value));
    assert(ve + seq![] =~= ve);
    lemma_value_round_trip(vb.value, seq![]);
    lemma_oid_content(vb.name);
}

proof fn lemma_varbinds(bs: Seq<VarBindModel>)
    requires
        forall|i: int| 0 <= i < bs.len() ==> #[trigger] varbind_wf(bs[i]),
        enc_varbinds(bs).len() < pow256(8),
    ensures
        parse_varbinds(enc_varbinds(bs)) == Some(bs),
    decreases bs.len(),
{
    if bs.len() == 0 {
        assert(enc_varbinds(bs) =~= seq![]);
    } else {
        let c = varbind_content(bs[0]);
        let rest = enc_varbinds(bs.skip(1));
        let s = enc_varbinds(bs);
        assert(s == tlv(0x30, c) + rest);
        lemma_split(0x30, c, rest);
        lemma_parse_tlv(0x30, c, rest);
        assert(varbind_wf(bs[0]));
        lemma_varbind(bs[0]);
        assert forall|i: int| 0 <= i < bs.skip(1).len() implies #[trigger] varbind_wf(
            bs.skip(1)[i],
        ) by {
            assert(bs.skip(1)[i] == bs[i + 1]);
        }
        lemma_varbinds(bs.skip(1));
        assert(seq![bs[0]] + bs.skip(1) =~= bs);
    }
}

proof fn lemma_tlv_len(tag: u8, c: Seq<u8>)
    ensures
        tlv(tag, c).len() > c.len(),
{
}

proof fn lemma_pdu(p: PduModel)
    requires
        pdu_wf(p),
        pdu_content(p).len() < pow256(8),
    ensures
        parse_pdu(p.kind, pdu_content(p)) == Some(p),
{
    let pc = pdu_content(p);
    let lst = enc_varbinds(p.bindings);
    lemma_half_range_values();
    let e_rid = tlv(0x02, int_bytes(p.request_id as int));
    let e_x = tlv(0x02, int_bytes(p.first as int));
    let e_y = tlv(0x02, int_bytes(p.second as int));
    let e_l = tlv(0x30, lst);
    assert(pc =~= e_rid + (e_x + (e_y + e_l)));
    lemma_int_elem(p.request_id as int, e_x + (e_y + e_l));
    lemma_int_elem(p.first as int, e_y + e_l);
    lemma_int_elem(p.second as int, e_l);
    lemma_tlv_len(0x30, lst);
    lemma_split_end(0x30, lst);
    lemma_varbinds(p.bindings);
    reveal(parse_pdu);
}

/// Decoding the encoding of a well-formed message gives the message back.
/// (Its encoding must fit in memory: under 2^64 bytes.)
#[verifier::rlimit(40)]
pub proof fn lemma_message_round_trip(m: MessageModel)
    requires
        message_wf(m),
        enc_message(m).len() < pow256(8),
    ensures
        parse_message(enc_message(m)) == Some(m),
{
    let p = m.pdu;
    let mc = message_content(m);
    let pc = pdu_content(p);
    lemma_half_range_values();
    lemma_tlv_len(0x30, mc);
    lemma_split_end(0x30, mc);
    let e_ver = tlv(0x02, int_bytes(version_code(m.version)));
    let e_com = tlv(0x04, m.community);
    let e_pdu = tlv(pdu_tag(p.kind), pc);
    assert(mc =~= e_ver + (e_com + e_pdu));
    lemma_tlv_len(0x04, m.community);
    lemma_tlv_len(pdu_tag(p.kind), pc);
    lemma_int_elem(version_code(m.version), e_com + e_pdu);
    lemma_split(0x04, m.community, e_pdu);
    lemma_split_end(pdu_tag(p.kind), pc);
    lemma_pdu(p);
    assert(kind_of_tag(pdu_tag(p.kind)) == Some(p.kind));
    assert(split_tlv(enc_message(m)) == Some((0x30u8, mc, Seq::<u8>::empty())));
    assert(parse_int_elem(mc) == Some((version_code(m.version), e_com + e_pdu)));
    assert(split_tlv(e_com + e_pdu) == Some((0x04u8, m.community, e_pdu)));
    assert(split_tlv(e_pdu) == Some((pdu_tag(p.kind), pc, Seq::<u8>::empty())));
    assert(parse_pdu(p.kind, pc) == Some(p));
}

} // verus!
