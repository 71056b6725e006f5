use snmp_client::{
    after_attempt, interpret_response, render, Attempt, Message, Next, Oid, Pdu, SimplePdu,
    Session, SnmpError, Value, VarBind, Version, MAX_ATTEMPTS,
};

fn oid(arcs: &[u32]) -> Oid {
    Oid { arcs: arcs.to_vec() }
}

/// Runs the retry policy against a sequence of attempt outcomes; returns the
/// number of sends and how the exchange ended.
fn run(outcomes: &[Attempt]) -> (u32, Next) {
    let mut sends = 0;
    loop {
        let outcome = outcomes[sends as usize];
        sends += 1;
        match after_attempt(sends, outcome) {
            Next::Resend => continue,
            other => return (sends, other),
        }
    }
}

#[test]
fn timeout_after_exactly_two_sends() {
    let all_lost = vec![Attempt::ReceiveFailed; 10];
    assert_eq!(run(&all_lost), (2, Next::Fail(SnmpError::ReceiveError)));
    assert_eq!(MAX_ATTEMPTS, 2);
}

#[test]
fn retry_then_success_and_send_failure() {
    assert_eq!(run(&[Attempt::ReceiveFailed, Attempt::Received]), (2, Next::Deliver));
    assert_eq!(run(&[Attempt::Received]), (1, Next::Deliver));
    assert_eq!(run(&[Attempt::SendFailed]), (1, Next::Fail(SnmpError::SendError)));
    assert_eq!(
        run(&[Attempt::ReceiveFailed, Attempt::SendFailed]),
        (2, Next::Fail(SnmpError::SendError))
    );
}

#[test]
fn get_bulk_passes_counts_through() {
    let mut s = Session::new(Version::V2c, b"public".to_vec());
    let bytes = s.get_bulk_request(&oid(&[1, 3, 6, 1, 2, 1, 2, 2]), 0, 10);
    // non-repeaters and max-repetitions as the second and third integers.
    assert_eq!(&bytes[13..24], &[0xa5, 0x18, 0x02, 0x01, 0x01, 0x02, 0x01, 0x00, 0x02, 0x01, 0x0a]);
    match Message::decode(&bytes).unwrap().pdu {
        Pdu::GetBulkRequest(b) => {
            assert_eq!(b.non_repeaters, 0);
            assert_eq!(b.max_repetitions, 10);
            assert_eq!(b.request_id, 1);
            assert_eq!(b.bindings, vec![VarBind { name: oid(&[1, 3, 6, 1, 2, 1, 2, 2]), value: Value::Null }]);
        }
        _ => panic!("not a bulk request"),
    }
}

#[test]
fn request_ids_count_up() {
    let mut s = Session::new(Version::V1, b"CampUs".to_vec());
    let name = oid(&[1, 3, 6, 1, 2, 1, 2, 2, 1, 6, 16]);
    let first = Message::decode(&s.get_request(&name)).unwrap();
    let second = Message::decode(&s.get_next_request(&name)).unwrap();
    assert_eq!(first.version, Version::V1);
    assert_eq!(first.community, b"CampUs".to_vec());
    match (first.pdu, second.pdu) {
        (Pdu::GetRequest(a), Pdu::GetNextRequest(b)) => {
            assert_eq!(a.request_id, 1);
            assert_eq!(b.request_id, 2);
            assert_eq!(a.bindings[0].value, Value::Null);
        }
        _ => panic!("wrong kinds"),
    }
    s.next_id = i32::MAX;
    let _ = s.get_request(&name);
    assert_eq!(s.next_id, 1);
}

#[test]
fn response_checks() {
    let response = Message {
        version: Version::V2c,
        community: b"public".to_vec(),
        pdu: Pdu::GetResponse(SimplePdu {
            request_id: 4,
            error_status: 2,
            error_index: 1,
            bindings: vec![VarBind { name: oid(&[1, 3, 6, 1]), value: Value::Null }],
        }),
    };
    let p = interpret_response(&response.encode()).unwrap();
    assert_eq!(p.error_status, 2);
    assert_eq!(p.error_index, 1);
    let mut s = Session::new(Version::V2c, b"public".to_vec());
    let request = s.get_request(&oid(&[1, 3, 6, 1]));
    assert_eq!(interpret_response(&request), Err(SnmpError::ProtocolError));
    assert_eq!(interpret_response(&[0x30, 0x00]), Err(SnmpError::ParseError));
}

#[test]
fn encodable_oids() {
    assert!(oid(&[1, 3, 6]).is_encodable());
    assert!(oid(&[2, 500]).is_encodable());
    assert!(!oid(&[1]).is_encodable());
    assert!(!oid(&[3, 1]).is_encodable());
    assert!(!oid(&[1, 40]).is_encodable());
    assert_eq!(Version::from_code(1), Some(Version::V2c));
    assert_eq!(Version::from_code(0), Some(Version::V1));
    assert_eq!(Version::from_code(3), None);
}

#[test]
fn value_rendering() {
    assert_eq!(render(&Value::Integer(-42)), "-42");
    assert_eq!(render(&Value::Integer(i64::MIN)), "-9223372036854775808");
    assert_eq!(render(&Value::OctetString(b"eth0".to_vec())), "eth0");
    assert_eq!(render(&Value::OctetString(vec![0x00, 0x1b, 0xff])), "0x001bff");
    assert_eq!(render(&Value::OctetString(vec![0xc3, 0xa9])), "\u{e9}");
    assert_eq!(render(&Value::OctetString(b"port 1\tup\n".to_vec())), "port 1\tup\n");
    assert_eq!(render(&Value::OctetString(vec![0xc3])), "0xc3");
    assert_eq!(render(&Value::OctetString(vec![])), "");
    assert_eq!(render(&Value::ObjectId(oid(&[1, 3, 6, 1]))), "1.3.6.1");
    assert_eq!(render(&Value::IpAddress([10, 123, 0, 20])), "10.123.0.20");
    assert_eq!(render(&Value::Counter32(4294967295)), "4294967295");
    assert_eq!(render(&Value::Unsigned32(7)), "7");
    assert_eq!(render(&Value::TimeTicks(0)), "0");
    assert_eq!(render(&Value::Counter64(18446744073709551615)), "18446744073709551615");
    assert_eq!(render(&Value::Opaque(vec![0xab, 0x01])), "0xab01");
    assert_eq!(render(&Value::Opaque(vec![])), "0x");
    assert_eq!(render(&Value::Null), "NULL");
    assert_eq!(render(&Value::NoSuchObject), "noSuchObject");
    assert_eq!(render(&Value::NoSuchInstance), "noSuchInstance");
    assert_eq!(render(&Value::EndOfMibView), "endOfMibView");
}
