//! Values, bindings, PDUs and messages, with their BER encoder and decoder.
use vstd::prelude::*;
use crate::ber::{tlv, push_tlv, push_integer};
use crate::oid_ber::{oid_content, push_oid_content};
use crate::model::{ValueModel, VarBindModel, PduModel, PduKind, Version, MessageModel, enc_value, value_wf, varbind_wf, pdu_wf, message_wf, varbind_content, enc_varbinds, pdu_content, pdu_tag, message_content, enc_message};
use crate::oid::Oid;

verus! {

/// A typed value in a binding's value slot. `Null` is also what a request
/// sends to ask the agent for a value. The last three are the v2 exception
/// indicators.
#[derive(Clone, Debug, PartialEq, Eq)]
pub enum Value {
    Integer(i64),
    OctetString(Vec<u8>),
    ObjectId(Oid),
    IpAddress([u8; 4]),
    Counter32(u32),
    Unsigned32(u32),
    TimeTicks(u32),
    Counter64(u64),
    Opaque(Vec<u8>),
    Null,
    NoSuchObject,
    NoSuchInstance,
    EndOfMibView,
}

impl View for Value {
    type V = ValueModel;

    open spec fn view(&self) -> ValueModel {
        match self {
            Value::Integer(i) => ValueModel::Integer(*i),
            Value::OctetString(b) => ValueModel::OctetString(b@),
            Value::ObjectId(o) => ValueModel::ObjectId(o@),
            Value::IpAddress(a) => ValueModel::IpAddress(a@),
            Value::Counter32(n) => ValueModel::Counter32(*n),
            Value::Unsigned32(n) => ValueModel::Unsigned32(*n),
            Value::TimeTicks(n) => ValueModel::TimeTicks(*n),
            Value::Counter64(n) => ValueModel::Counter64(*n),
            Value::Opaque(b) => ValueModel::Opaque(b@),
            Value::Null => ValueModel::Null,
            Value::NoSuchObject => ValueModel::NoSuchObject,
            Value::NoSuchInstance => ValueModel::NoSuchInstance,
            Value::EndOfMibView => ValueModel::EndOfMibView,
        }
    }
}

/// A variable binding: a name and the value in its slot.
#[derive(Clone, Debug, PartialEq, Eq)]
pub struct VarBind {
    pub name: Oid,
    pub value: Value,
}

impl View for VarBind {
    type V = VarBindModel;

    open spec fn view(&self) -> VarBindModel {
        VarBindModel { name: self.name@, value: self.value@ }
    }
}

pub open spec fn bindings_view(bs: Seq<VarBind>) -> Seq<VarBindModel> {
    bs.map_values(|b: VarBind| b@)
}

/// The body of every PDU but a bulk request.
#[derive(Clone, Debug, PartialEq, Eq)]
pub struct SimplePdu {
    pub request_id: i32,
    pub error_status: u8,
    pub error_index: u32,
    pub bindings: Vec<VarBind>,
}

/// The body of a bulk request.
#[derive(Clone, Debug, PartialEq, Eq)]
pub struct BulkPdu {
    pub request_id: i32,
    pub non_repeaters: u32,
    pub max_repetitions: u32,
    pub bindings: Vec<VarBind>,
}

#[derive(Clone, Debug, PartialEq, Eq)]
pub enum Pdu {
    GetRequest(SimplePdu),
    GetNextRequest(SimplePdu),
    GetResponse(SimplePdu),
    SetRequest(SimplePdu),
    GetBulkRequest(BulkPdu),
    Trap(SimplePdu),
}

pub open spec fn simple_view(kind: PduKind, p: SimplePdu) -> PduModel {
    PduModel {
        kind,
        request_id: p.request_id,
        first: p.error_status as u32,
        second: p.error_index,
        bindings: bindings_view(p.bindings@),
    }
}

impl View for Pdu {
    type V = PduModel;

    open spec fn view(&self) -> PduModel {
        match self {
            Pdu::GetRequest(p) => simple_view(PduKind::GetRequest, *p),
            Pdu::GetNextRequest(p) => simple_view(PduKind::GetNextRequest, *p),
            Pdu::GetResponse(p) => simple_view(PduKind::GetResponse, *p),
            Pdu::SetRequest(p) => simple_view(PduKind::SetRequest, *p),
            Pdu::GetBulkRequest(p) => PduModel {
                kind: PduKind::GetBulkRequest,
                request_id: p.request_id,
                first: p.non_repeaters,
                second: p.max_repetitions,
                bindings: bindings_view(p.bindings@),
            },
            Pdu::Trap(p) => simple_view(PduKind::Trap, *p),
        }
    }
}

/// One SNMP message: version, community and PDU.
#[derive(Clone, Debug, PartialEq, Eq)]
pub struct Message {
    pub version: Version,
    pub community: Vec<u8>,
    pub pdu: Pdu,
}

impl View for Message {
    type V = MessageModel;

    open spec fn view(&self) -> MessageModel {
        MessageModel { version: self.version, community: self.community@, pdu: self.pdu@ }
    }
}

proof fn lemma_enc_varbinds_push(bs: Seq<VarBindModel>, b: VarBindModel)
    ensures
        enc_varbinds(bs.push(b)) == enc_varbinds(bs) + tlv(0x30, varbind_content(b)),
    decreases bs.len(),
{
    if bs.len() == 0 {
        assert(bs.push(b).skip(1) =~= seq![]);
        assert(enc_varbinds(seq![]) =~= seq![]);
        assert(enc_varbinds(bs) =~= seq![]);
        assert(enc_varbinds(bs.push(b)) =~= tlv(0x30, varbind_content(b)));
    } else {
        lemma_enc_varbinds_push(bs.skip(1), b);
        assert(bs.push(b).skip(1) =~= bs.skip(1).push(b));
        assert(enc_varbinds(bs.push(b)) =~= tlv(0x30, varbind_content(bs[0])) + (enc_varbinds(
            bs.skip(1),
        ) + tlv(0x30, varbind_content(b))));
    }
}

fn push_bytes(out: &mut Vec<u8>, b: &Vec<u8>)
    ensures
        final(out)@ == old(out)@ + b@,
{
    let mut i: usize = 0;
    while i < b.len()
        invariant
            i <= b@.len(),
            out@ == old(out)@ + b@.take(i as int),
        decreases b@.len() - i,
    {
        out.push(b[i]);
        i = i + 1;
        assert(out@ =~= old(out)@ + b@.take(i as int));
    }
    assert(b@.take(i as int) =~= b@);
}

pub(crate) fn copy_range(buf: &[u8], a: usize, b: usize) -> (r: Vec<u8>)
    requires
        a <= b <= buf@.len(),
    ensures
        r@ == buf@.subrange(a as int, b as int),
{
    let mut r: Vec<u8> = Vec::new();
    let mut i: usize = a;
    while i < b
        invariant
            a <= i <= b <= buf@.len(),
            r@ == buf@.subrange(a as int, i as int),
        decreases b - i,
    {
        r.push(buf[i]);
        i = i + 1;
        assert(r@ =~= buf@.subrange(a as int, i as int));
    }
    r
}

impl Value {
    /// Appends the element of this value.
    pub fn push_ber(&self, out: &mut Vec<u8>)
        requires
            value_wf(self@),
        ensures
            final(out)@ == old(out)@ + enc_value(self@),
    {
        match self {
            Value::Integer(i) => push_integer(out, 0x02, *i as i128),
            Value::OctetString(b) => push_tlv(out, 0x04, b),
            Value::ObjectId(o) => {
                let mut c: Vec<u8> = Vec::new();
                push_oid_content(&mut c, &o.arcs);
                assert(c@ =~= oid_content(o@));
                push_tlv(out, 0x06, &c);
            },
            Value::IpAddress(a) => {
                let c: Vec<u8> = vec![a[0], a[1], a[2], a[3]];
                assert(c@ =~= a@);
                push_tlv(out, 0x40, &c);
            },
            Value::Counter32(n) => push_integer(out, 0x41, *n as i128),
            Value::Unsigned32(n) => push_integer(out, 0x42, *n as i128),
            Value::TimeTicks(n) => push_integer(out, 0x43, *n as i128),
            Value::Counter64(n) => push_integer(out, 0x46, *n as i128),
            Value::Opaque(b) => push_tlv(out, 0x44, b),
            Value::Null => push_tlv(out, 0x05, &Vec::new()),
            Value::NoSuchObject => push_tlv(out, 0x80, &Vec::new()),
            Value::NoSuchInstance => push_tlv(out, 0x81, &Vec::new()),
            Value::EndOfMibView => push_tlv(out, 0x82, &Vec::new()),
        }
    }
}

impl VarBind {
    /// Appends the SEQUENCE element of this binding.
    pub fn push_ber(&self, out: &mut Vec<u8>)
        requires
            varbind_wf(self@),
        ensures
            final(out)@ == old(out)@ + tlv(0x30, varbind_content(self@)),
    {
        let mut oc: Vec<u8> = Vec::new();
        push_oid_content(&mut oc, &self.name.arcs);
        assert(oc@ =~= oid_content(self.name@));
        let mut c: Vec<u8> = Vec::new();
        push_tlv(&mut c, 0x06, &oc);
        self.value.push_ber(&mut c);
        assert(c@ =~= varbind_content(self@));
        push_tlv(out, 0x30, &c);
    }
}

/// Appends the elements of the bindings, one after another.
fn push_bindings(out: &mut Vec<u8>, bs: &Vec<VarBind>)
    requires
        forall|i: int| 0 <= i < bs@.len() ==> #[trigger] varbind_wf(bs@[i]@),
    ensures
        final(out)@ == old(out)@ + enc_varbinds(bindings_view(bs@)),
{
    let ghost view = bindings_view(bs@);
    let mut i: usize = 0;
    assert(enc_varbinds(view.take(0)) =~= seq![]) by {
        assert(view.take(0) =~= seq![]);
    }
    while i < bs.len()
        invariant
            i <= bs@.len(),
            view == bindings_view(bs@),
            forall|i: int| 0 <= i < bs@.len() ==> #[trigger] varbind_wf(bs@[i]@),
            out@ == old(out)@ + enc_varbinds(view.take(i as int)),
        decreases bs@.len() - i,
    {
        bs[i].push_ber(out);
        proof {
            assert(view.take(i + 1) =~= view.take(i as int).push(bs@[i as int]@));
            lemma_enc_varbinds_push(view.take(i as int), bs@[i as int]@);
        }
        i = i + 1;
    }
    assert(view.take(i as int) =~= view);
}

fn push_pdu_body(
    out: &mut Vec<u8>,
    tag: u8,
    request_id: i32,
    first: u32,
    second: u32,
    bs: &Vec<VarBind>,
)
    requires
        forall|i: int|
            0 <= i < bs@.len() ==> #[trigger] varbind_wf(bindings_view(bs@)[i]),
    ensures
        final(out)@ == old(out)@ + tlv(
            tag,
            pdu_content(
                PduModel {
                    kind: PduKind::GetRequest,
                    request_id,
                    first,
                    second,
                    bindings: bindings_view(bs@),
                },
            ),
        ),
{
    assert forall|i: int| 0 <= i < bs@.len() implies #[trigger] varbind_wf(bs@[i]@) by {
        assert(bindings_view(bs@)[i] == bs@[i]@);
    }
    let mut c: Vec<u8> = Vec::new();
    push_integer(&mut c, 0x02, request_id as i128);
    push_integer(&mut c, 0x02, first as i128);
    push_integer(&mut c, 0x02, second as i128);
    let mut l: Vec<u8> = Vec::new();
    push_bindings(&mut l, bs);
    assert(l@ =~= enc_varbinds(bindings_view(bs@)));
    push_tlv(&mut c, 0x30, &l);
    push_tlv(out, tag, &c);
    assert(c@ =~= pdu_content(
        PduModel {
            kind: PduKind::GetRequest,
            request_id,
            first,
            second,
            bindings: bindings_view(bs@),
        },
    ));
}

impl Pdu {
    pub open spec fn wf(&self) -> bool {
        pdu_wf(self@)
    }

    /// Appends the element of this PDU, under the tag of its kind.
    pub fn push_ber(&self, out: &mut Vec<u8>)
        requires
            self.wf(),
        ensures
            final(out)@ == old(out)@ + tlv(pdu_tag(self@.kind), pdu_content(self@)),
    {
        proof {
            let bs = self@.bindings;
            assert(forall|i: int| 0 <= i < bs.len() ==> #[trigger] varbind_wf(bs[i]));
        }
        match self {
            Pdu::GetBulkRequest(b) => push_pdu_body(
                out,
                0xa5,
                b.request_id,
                b.non_repeaters,
                b.max_repetitions,
                &b.bindings,
            ),
            Pdu::GetRequest(p) => push_pdu_body(
                out,
                0xa0,
                p.request_id,
                p.error_status as u32,
                p.error_index,
                &p.bindings,
            ),
            Pdu::GetNextRequest(p) => push_pdu_body(
                out,
                0xa1,
                p.request_id,
                p.error_status as u32,
                p.error_index,
                &p.bindings,
            ),
            Pdu::GetResponse(p) => push_pdu_body(
                out,
                0xa2,
                p.request_id,
                p.error_status as u32,
                p.error_index,
                &p.bindings,
            ),
            Pdu::SetRequest(p) => push_pdu_body(
                out,
                0xa3,
                p.request_id,
                p.error_status as u32,
                p.error_index,
                &p.bindings,
            ),
            Pdu::Trap(p) => push_pdu_body(
                out,
                0xa7,
                p.request_id,
                p.error_status as u32,
                p.error_index,
                &p.bindings,
            ),
        }
    }
}

impl Message {
    pub open spec fn wf(&self) -> bool {
        message_wf(self@)
    }

    /// The BER encoding of the message: a SEQUENCE of the version, the
    /// community and the PDU, with minimal integers and definite lengths.
    pub fn encode(&self) -> (r: Vec<u8>)
        requires
            self.wf(),
        ensures
            r@ == enc_message(self@),
    {
        let mut c: Vec<u8> = Vec::new();
        let code: i128 = match self.version {
            Version::V1 => 0,
            Version::V2c => 1,
        };
        push_integer(&mut c, 0x02, code);
        push_tlv(&mut c, 0x04, &self.community);
        self.pdu.push_ber(&mut c);
        assert(c@ =~= message_content(self@));
        let mut out: Vec<u8> = Vec::new();
        push_tlv(&mut out, 0x30, &c);
        assert(out@ =~= enc_message(self@));
        out
    }
}

} // verus!
