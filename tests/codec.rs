use snmp_client::{BulkPdu, Message, Oid, Pdu, PduKind, SimplePdu, SnmpError, Value, VarBind, Version};

fn oid(arcs: &[u32]) -> Oid {
    Oid { arcs: arcs.to_vec() }
}

fn response_with(value: Value) -> Message {
    Message {
        version: Version::V2c,
        community: b"public".to_vec(),
        pdu: Pdu::GetResponse(SimplePdu {
            request_id: 77,
            error_status: 0,
            error_index: 0,
            bindings: vec![VarBind { name: oid(&[1, 3, 6, 1, 2, 1, 1, 3, 0]), value }],
        }),
    }
}

fn round_trip(m: &Message) -> Message {
    let bytes = m.encode();
    Message::decode(&bytes).unwrap()
}

#[test]
fn round_trip_every_value_kind() {
    let values = vec![
        Value::Integer(0),
        Value::Integer(-1),
        Value::Integer(127),
        Value::Integer(128),
        Value::Integer(-129),
        Value::Integer(i64::MIN),
        Value::Integer(i64::MAX),
        Value::OctetString(b"eth0".to_vec()),
        Value::OctetString(vec![]),
        Value::ObjectId(oid(&[1, 3, 6, 1, 4, 1, 2021, 4294967295])),
        Value::ObjectId(oid(&[2, 999, 3])),
        Value::IpAddress([10, 123, 0, 20]),
        Value::Counter32(u32::MAX),
        Value::Unsigned32(2147483648),
        Value::TimeTicks(123456),
        Value::Counter64(u64::MAX),
        Value::Opaque(vec![0x9f, 0x78, 0x04, 0x3f, 0x80, 0x00, 0x00]),
        Value::Null,
        Value::NoSuchObject,
        Value::NoSuchInstance,
        Value::EndOfMibView,
    ];
    for v in values {
        let m = response_with(v);
        assert_eq!(round_trip(&m), m);
    }
}

#[test]
fn round_trip_every_pdu_kind() {
    let body = || SimplePdu {
        request_id: -5,
        error_status: 2,
        error_index: 1,
        bindings: vec![VarBind { name: oid(&[1, 3, 6, 1]), value: Value::Null }],
    };
    let pdus = vec![
        Pdu::GetRequest(body()),
        Pdu::GetNextRequest(body()),
        Pdu::GetResponse(body()),
        Pdu::SetRequest(body()),
        Pdu::Trap(body()),
        Pdu::GetBulkRequest(BulkPdu {
            request_id: i32::MAX,
            non_repeaters: 1,
            max_repetitions: u32::MAX,
            bindings: vec![],
        }),
    ];
    for pdu in pdus {
        let m = Message { version: Version::V1, community: b"CampUs".to_vec(), pdu };
        assert_eq!(round_trip(&m), m);
    }
}

#[test]
fn encodes_get_request_exactly() {
    let m = Message {
        version: Version::V2c,
        community: b"public".to_vec(),
        pdu: Pdu::GetRequest(SimplePdu {
            request_id: 1,
            error_status: 0,
            error_index: 0,
            bindings: vec![VarBind { name: oid(&[1, 3, 6, 1, 2, 1, 1, 1, 0]), value: Value::Null }],
        }),
    };
    let expected: Vec<u8> = vec![
        0x30, 0x26, 0x02, 0x01, 0x01, 0x04, 0x06, b'p', b'u', b'b', b'l', b'i', b'c', 0xa0, 0x19,
        0x02, 0x01, 0x01, 0x02, 0x01, 0x00, 0x02, 0x01, 0x00, 0x30, 0x0e, 0x30, 0x0c, 0x06, 0x08,
        0x2b, 0x06, 0x01, 0x02, 0x01, 0x01, 0x01, 0x00, 0x05, 0x00,
    ];
    assert_eq!(m.encode(), expected);
}

// In `response_with`, the value element starts at offset 38: message and
// PDU headers, three one-byte integers, list and binding headers, and the
// ten bytes of the name.
const VALUE_AT: usize = 38;

fn integer_bytes(v: i64) -> Vec<u8> {
    let bytes = response_with(Value::Integer(v)).encode();
    assert_eq!(bytes[VALUE_AT], 0x02);
    let len = bytes[VALUE_AT + 1] as usize;
    assert_eq!(bytes.len(), VALUE_AT + 2 + len);
    bytes[VALUE_AT + 2..].to_vec()
}

#[test]
fn integer_128_has_guard_byte() {
    assert_eq!(integer_bytes(128), vec![0x00, 0x80]);
    assert_eq!(integer_bytes(-128), vec![0x80]);
    assert_eq!(integer_bytes(127), vec![0x7f]);
    assert_eq!(integer_bytes(256), vec![0x01, 0x00]);
    assert_eq!(integer_bytes(-129), vec![0xff, 0x7f]);
    assert_eq!(integer_bytes(0), vec![0x00]);
}

fn message_with_integer_content(content: &[u8]) -> Vec<u8> {
    let mut m = response_with(Value::Null).encode();
    // Replace the trailing NULL (05 00) by an INTEGER with the given content.
    m.truncate(m.len() - 2);
    m.push(0x02);
    m.push(content.len() as u8);
    m.extend_from_slice(content);
    let grow = content.len();
    // Fix the four enclosing lengths (message, PDU, list, binding).
    fix_lengths(&mut m, grow);
    m
}

fn fix_lengths(m: &mut Vec<u8>, grow: usize) {
    // Message: 30 L; PDU at offset 2 + 3 + 8; list and binding follow the
    // three integers of the PDU.
    m[1] += grow as u8;
    let pdu = 2 + 3 + 8;
    m[pdu + 1] += grow as u8;
    let list = pdu + 2 + 3 + 3 + 3;
    m[list + 1] += grow as u8;
    m[list + 3] += grow as u8;
}

fn decoded_integer(content: &[u8]) -> Value {
    let m = Message::decode(&message_with_integer_content(content)).unwrap();
    match m.pdu {
        Pdu::GetResponse(p) => p.bindings[0].value.clone(),
        _ => panic!("not a response"),
    }
}

#[test]
fn integer_sign_extension() {
    assert_eq!(decoded_integer(&[0x00, 0x80]), Value::Integer(128));
    assert_eq!(decoded_integer(&[0x80]), Value::Integer(-128));
    assert_eq!(decoded_integer(&[0xff, 0xff]), Value::Integer(-1));
}

#[test]
fn integer_overflow_is_rejected() {
    let bytes = message_with_integer_content(&[0x00, 0x80, 0, 0, 0, 0, 0, 0, 0]);
    assert_eq!(Message::decode(&bytes), Err(SnmpError::ParseError));
}

#[test]
fn long_form_lengths() {
    let m = response_with(Value::OctetString(vec![b'a'; 200]));
    let bytes = m.encode();
    assert_eq!(&bytes[0..3], &[0x30, 0x81, 0xf2]);
    assert_eq!(round_trip(&m), m);
    let big = response_with(Value::Opaque(vec![7; 300]));
    let bytes = big.encode();
    assert_eq!(&bytes[0..2], &[0x30, 0x82]);
    assert_eq!(round_trip(&big), big);
}

#[test]
fn non_minimal_length_is_accepted() {
    // 30 81 03 ... : a long-form length where the short form would do.
    let short = vec![0x30, 0x03, 0x02, 0x01, 0x00];
    let long = vec![0x30, 0x81, 0x03, 0x02, 0x01, 0x00];
    // Neither holds a whole message, so both fail the same way.
    assert_eq!(Message::decode(&short), Err(SnmpError::ParseError));
    assert_eq!(Message::decode(&long), Err(SnmpError::ParseError));
    let m = response_with(Value::Integer(5));
    let bytes = m.encode();
    let mut widened = vec![0x30, 0x81];
    widened.extend_from_slice(&bytes[1..]);
    assert_eq!(Message::decode(&widened).unwrap(), m);
}

#[test]
fn malformed_input_is_a_parse_error() {
    let good = response_with(Value::Counter32(9)).encode();
    assert_eq!(Message::decode(&[]), Err(SnmpError::ParseError));
    assert_eq!(Message::decode(&good[..good.len() - 1]), Err(SnmpError::ParseError));
    let mut trailing = good.clone();
    trailing.push(0);
    assert_eq!(Message::decode(&trailing), Err(SnmpError::ParseError));
    let mut bad_tag = good.clone();
    bad_tag[13] = 0xa6;
    assert_eq!(Message::decode(&bad_tag), Err(SnmpError::ParseError));
    let mut bad_version = good.clone();
    bad_version[4] = 3;
    assert_eq!(Message::decode(&bad_version), Err(SnmpError::ParseError));
    // An indefinite length is not accepted.
    let mut indefinite = good.clone();
    indefinite[1] = 0x80;
    assert_eq!(Message::decode(&indefinite), Err(SnmpError::ParseError));
}

#[test]
fn oid_first_arcs_are_packed() {
    let m = response_with(Value::ObjectId(oid(&[2, 100, 3])));
    let bytes = m.encode();
    // 2.100 packs to 180 = 0x81 0x34 in base 128.
    let n = bytes.len();
    assert_eq!(&bytes[n - 5..], &[0x06, 0x03, 0x81, 0x34, 0x03]);
    assert_eq!(round_trip(&m), m);
}
