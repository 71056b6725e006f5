//! One manager-to-agent session without its socket: request construction,
//! the retry policy of one exchange, and the checks on a reply.
use vstd::prelude::*;
use crate::error::SnmpError;
use crate::model::{ValueModel, VarBindModel, PduModel, PduKind, Version, MessageModel, enc_message, parse_message, varbind_wf};
use crate::message::{Value, VarBind, SimplePdu, BulkPdu, Pdu, Message, simple_view};
use crate::decode::read_message;
use crate::oid::Oid;
use crate::oid_ber::encodable;

verus! {

/// The number of times one request is sent before the exchange gives up.
pub const MAX_ATTEMPTS: u32 = 2;

/// The request that asks for the value of `name`: one binding whose value
/// slot holds NULL.
pub open spec fn request_model(
    version: Version,
    community: Seq<u8>,
    kind: PduKind,
    request_id: i32,
    first: u32,
    second: u32,
    name: Seq<u32>,
) -> MessageModel {
    MessageModel {
        version,
        community,
        pdu: PduModel {
            kind,
            request_id,
            first,
            second,
            bindings: seq![VarBindModel { name, value: ValueModel::Null }],
        },
    }
}

/// The request-id that follows `id`: ids count up from 1 and start again
/// at 1 after the largest.
pub open spec fn following_id(id: i32) -> i32 {
    if id == i32::MAX || id < 1 {
        1
    } else {
        (id + 1) as i32
    }
}

/// A session's settings and its request-id counter.
pub struct Session {
    pub version: Version,
    pub community: Vec<u8>,
    pub next_id: i32,
}

impl Version {
    /// The version that a numeric code stands for: 0 is v1, 1 is v2c.
    pub fn from_code(code: u8) -> (r: Option<Version>)
        ensures
            code == 0 ==> r == Some(Version::V1),
            code == 1 ==> r == Some(Version::V2c),
            code > 1 ==> r is None,
    {
        if code == 0 {
            Some(Version::V1)
        } else if code == 1 {
            Some(Version::V2c)
        } else {
            None
        }
    }
}

impl Oid {
    /// An identifier that BER can carry.
    pub fn is_encodable(&self) -> (r: bool)
        ensures
            r == encodable(self@),
    {
        self.arcs.len() >= 2 && self.arcs[0] <= 2 && (self.arcs[0] == 2 || self.arcs[1] < 40)
            && self.arcs[1] as u64 + 40 * self.arcs[0] as u64 <= 0xffff_ffffu64
    }

    /// A copy of the identifier.
    pub fn duplicate(&self) -> (r: Oid)
        ensures
            r@ == self@,
    {
        let arcs = self.arcs.clone();
        assert(arcs@ =~= self.arcs@);
        Oid { arcs }
    }
}

fn copy_bytes(b: &Vec<u8>) -> (r: Vec<u8>)
    ensures
        r@ == b@,
{
    let r = b.clone();
    assert(r@ =~= b@);
    r
}

impl Message {
    /// Decodes one datagram. `ParseError` exactly when the bytes are not the
    /// encoding of a message.
    pub fn decode(bytes: &[u8]) -> (r: Result<Message, SnmpError>)
        ensures
            match parse_message(bytes@) {
                Some(m) => r is Ok && r->Ok_0@ == m,
                None => r == Err::<Message, SnmpError>(SnmpError::ParseError),
            },
    {
        match read_message(bytes) {
            Some(m) => Ok(m),
            None => Err(SnmpError::ParseError),
        }
    }
}

/// Checks a reply: it must decode, and its PDU must be a response. Returns
/// the response PDU, with its error-status and error-index for the caller to
/// act on.
pub fn interpret_response(bytes: &[u8]) -> (r: Result<SimplePdu, SnmpError>)
    ensures
        match parse_message(bytes@) {
            None => r == Err::<SimplePdu, SnmpError>(SnmpError::ParseError),
            Some(m) => if m.pdu.kind == PduKind::GetResponse {
                r is Ok && simple_view(PduKind::GetResponse, r->Ok_0) == m.pdu
            } else {
                r == Err::<SimplePdu, SnmpError>(SnmpError::ProtocolError)
            },
        },
{
    match Message::decode(bytes) {
        Ok(m) => match m.pdu {
            Pdu::GetResponse(p) => Ok(p),
            _ => Err(SnmpError::ProtocolError),
        },
        Err(e) => Err(e),
    }
}

/// What an exchange does after one attempt.
#[derive(Clone, Copy, Debug, PartialEq, Eq, Structural)]
pub enum Attempt {
    /// The datagram could not be sent.
    SendFailed,
    /// It was sent, and nothing came back within the timeout.
    ReceiveFailed,
    /// A datagram came back.
    Received,
}

#[derive(Clone, Copy, Debug, PartialEq, Eq, Structural)]
pub enum Next {
    /// Send the same bytes again.
    Resend,
    /// Hand the received datagram on.
    Deliver,
    /// Give up with this error.
    Fail(SnmpError),
}

/// The retry policy: a send failure ends the exchange at once, a reply ends
/// it, and a missed reply sends again until `MAX_ATTEMPTS` sends were made.
pub open spec fn decide(attempts: nat, outcome: Attempt) -> Next {
    match outcome {
        Attempt::SendFailed => Next::Fail(SnmpError::SendError),
        Attempt::Received => Next::Deliver,
        Attempt::ReceiveFailed => if attempts < MAX_ATTEMPTS {
            Next::Resend
        } else {
            Next::Fail(SnmpError::ReceiveError)
        },
    }
}

/// Decides what follows attempt number `attempts` (counted from 1).
pub fn after_attempt(attempts: u32, outcome: Attempt) -> (r: Next)
    ensures
        r == decide(attempts as nat, outcome),
{
    match outcome {
        Attempt::SendFailed => Next::Fail(SnmpError::SendError),
        Attempt::Received => Next::Deliver,
        Attempt::ReceiveFailed => if attempts < MAX_ATTEMPTS {
            Next::Resend
        } else {
            Next::Fail(SnmpError::ReceiveError)
        },
    }
}

/// An exchange run against the outcomes of successive attempts, from attempt
/// `k + 1` on: how many sends it made and how it ended.
pub open spec fn run_exchange(outcomes: Seq<Attempt>, k: nat) -> (nat, Next)
    decreases outcomes.len() - k,
{
    if k >= outcomes.len() {
        (k, Next::Resend)
    } else {
        let d = decide(k + 1, outcomes[k as int]);
        if d == Next::Resend {
            run_exchange(outcomes, k + 1)
        } else {
            (k + 1, d)
        }
    }
}

/// When no reply ever comes, the exchange reports a receive failure after
/// exactly `MAX_ATTEMPTS` sends.
pub proof fn lemma_retry_gives_up(outcomes: Seq<Attempt>)
    requires
        outcomes.len() >= MAX_ATTEMPTS,
        forall|i: int| 0 <= i < outcomes.len() ==> outcomes[i] == Attempt::ReceiveFailed,
    ensures
        run_exchange(outcomes, 0) == (MAX_ATTEMPTS as nat, Next::Fail(SnmpError::ReceiveError)),
{
    assert(decide(1, outcomes[0]) == Next::Resend);
    assert(decide(2, outcomes[1]) == Next::Fail(SnmpError::ReceiveError));
    assert(run_exchange(outcomes, 1) == (2nat, Next::Fail(SnmpError::ReceiveError)));
}

/// A failed send ends the exchange at once, without another send.
pub proof fn lemma_send_failure_is_final(outcomes: Seq<Attempt>)
    requires
        outcomes.len() >= 1,
        outcomes[0] == Attempt::SendFailed,
    ensures
        run_exchange(outcomes, 0) == (1nat, Next::Fail(SnmpError::SendError)),
{
}

fn single_binding(oid: &Oid) -> (r: Vec<VarBind>)
    ensures
        r@.len() == 1,
        r@[0]@ == (VarBindModel { name: oid@, value: ValueModel::Null }),
{
    vec![VarBind { name: oid.duplicate(), value: Value::Null }]
}

impl Session {
    pub open spec fn next_request_id(&self) -> i32 {
        self.next_id
    }

    /// A session with the given version and community; request-ids start
    /// at 1.
    pub fn new(version: Version, community: Vec<u8>) -> (r: Session)
        ensures
            r.version == version,
            r.community@ == community@,
            r.next_request_id() == 1,
    {
        Session { version, community, next_id: 1 }
    }

    fn take_request_id(&mut self) -> (r: i32)
        ensures
            r == old(self).next_id,
            final(self).next_id == following_id(old(self).next_id),
            final(self).version == old(self).version,
            final(self).community == old(self).community,
    {
        let id = self.next_id;
        self.next_id = if id == i32::MAX || id < 1 {
            1
        } else {
            id + 1
        };
        id
    }

    fn simple_request(&mut self, kind: PduKind, oid: &Oid) -> (r: Vec<u8>)
        requires
            encodable(oid@),
            kind != PduKind::GetBulkRequest,
        ensures
            r@ == enc_message(
                request_model(
                    old(self).version,
                    old(self).community@,
                    kind,
                    old(self).next_id,
                    0,
                    0,
                    oid@,
                ),
            ),
            final(self).next_id == following_id(old(self).next_id),
            final(self).version == old(self).version,
            final(self).community == old(self).community,
    {
        let id = self.take_request_id();
        let p = SimplePdu {
            request_id: id,
            error_status: 0,
            error_index: 0,
            bindings: single_binding(oid),
        };
        let pdu = match kind {
            PduKind::GetRequest => Pdu::GetRequest(p),
            PduKind::GetNextRequest => Pdu::GetNextRequest(p),
            PduKind::GetResponse => Pdu::GetResponse(p),
            PduKind::SetRequest => Pdu::SetRequest(p),
            _ => Pdu::Trap(p),
        };
        let m = Message { version: self.version, community: copy_bytes(&self.community), pdu };
        proof {
            let want = request_model(
                old(self).version,
                old(self).community@,
                kind,
                old(self).next_id,
                0,
                0,
                oid@,
            );
            assert(m@.pdu.bindings =~= want.pdu.bindings);
            assert(m@ == want);
            assert(varbind_wf(m@.pdu.bindings[0]));
        }
        m.encode()
    }

    /// The encoded GetRequest for `oid`, under the next request-id.
    pub fn get_request(&mut self, oid: &Oid) -> (r: Vec<u8>)
        requires
            encodable(oid@),
        ensures
            r@ == enc_message(
                request_model(
                    old(self).version,
                    old(self).community@,
                    PduKind::GetRequest,
                    old(self).next_request_id(),
                    0,
                    0,
                    oid@,
                ),
            ),
            final(self).next_request_id() == following_id(old(self).next_request_id()),
            final(self).version == old(self).version,
            final(self).community == old(self).community,
    {
        self.simple_request(PduKind::GetRequest, oid)
    }

    /// The encoded GetNextRequest for `oid`, under the next request-id.
    pub fn get_next_request(&mut self, oid: &Oid) -> (r: Vec<u8>)
        requires
            encodable(oid@),
        ensures
            r@ == enc_message(
                request_model(
                    old(self).version,
                    old(self).community@,
                    PduKind::GetNextRequest,
                    old(self).next_request_id(),
                    0,
                    0,
                    oid@,
                ),
            ),
            final(self).next_request_id() == following_id(old(self).next_request_id()),
            final(self).version == old(self).version,
            final(self).community == old(self).community,
    {
        self.simple_request(PduKind::GetNextRequest, oid)
    }

    /// The encoded GetBulkRequest for `oid`: non-repeaters and
    /// max-repetitions go into the PDU unchanged.
    pub fn get_bulk_request(&mut self, oid: &Oid, non_repeaters: u32, max_repetitions: u32) -> (r:
        Vec<u8>)
        requires
            encodable(oid@),
        ensures
            r@ == enc_message(
                request_model(
                    old(self).version,
                    old(self).community@,
                    PduKind::GetBulkRequest,
                    old(self).next_request_id(),
                    non_repeaters,
                    max_repetitions,
                    oid@,
                ),
            ),
            final(self).next_request_id() == following_id(old(self).next_request_id()),
            final(self).version == old(self).version,
            final(self).community == old(self).community,
    {
        let id = self.take_request_id();
        let p = BulkPdu { request_id: id, non_repeaters, max_repetitions, bindings: single_binding(oid) };
        let m = Message {
            version: self.version,
            community: copy_bytes(&self.community),
            pdu: Pdu::GetBulkRequest(p),
        };
        proof {
            let want = request_model(
                old(self).version,
                old(self).community@,
                PduKind::GetBulkRequest,
                old(self).next_id,
                non_repeaters,
                max_repetitions,
                oid@,
            );
            assert(m@.pdu.bindings =~= want.pdu.bindings);
            assert(m@ == want);
            assert(varbind_wf(m@.pdu.bindings[0]));
        }
        m.encode()
    }
}

} // verus!
