use snmp_client::{Oid, SimplePdu, SnmpError, Value, VarBind, Walk, WalkStep};

fn parse(text: &str) -> Oid {
    Oid::parse(text).unwrap()
}

fn reply(name: &str, value: Value) -> Result<SimplePdu, SnmpError> {
    Ok(SimplePdu {
        request_id: 1,
        error_status: 0,
        error_index: 0,
        bindings: vec![VarBind { name: parse(name), value }],
    })
}

#[test]
fn subtree_prefix_test() {
    let a = Oid { arcs: vec![1, 3, 6, 1, 2, 1] };
    let b = Oid { arcs: vec![1, 3, 6, 1, 2, 1, 1, 1] };
    let c = Oid { arcs: vec![1, 3, 6, 1, 3, 1] };
    assert!(a.is_prefix_of(&b));
    assert!(a.is_prefix_of(&a));
    assert!(!a.is_prefix_of(&c));
    assert!(!b.is_prefix_of(&a));
    assert!(a.less_than(&b));
    assert!(a.less_than(&c));
    assert!(!a.less_than(&a));
}

#[test]
fn walk_stops_when_agent_repeats_oid() {
    let mut walk = Walk::new(parse("1.3.6.1.2.1.2"));
    // An agent that answers GetNext with the OID it was asked for.
    let mut steps = 0;
    loop {
        let asked = walk.current.to_dotted();
        let step = walk.advance(reply(&asked, Value::Integer(1)));
        steps += 1;
        assert!(steps < 10, "walk did not stop");
        if step != WalkStep::Continue {
            assert_eq!(step, WalkStep::Finished);
            break;
        }
    }
    assert_eq!(steps, 1);
    assert!(walk.into_entries().is_empty());
}

#[test]
fn walk_stops_at_subtree_boundary() {
    let mut walk = Walk::new(parse("1.3.6.1.2.1.2.2.1.6"));
    let agent = vec![
        "1.3.6.1.2.1.2.2.1.6.1",
        "1.3.6.1.2.1.2.2.1.6.2",
        "1.3.6.1.2.1.2.3.1.1",
        "1.3.6.1.2.1.2.3.1.2",
    ];
    let mut consumed = 0;
    for (i, name) in agent.iter().enumerate() {
        consumed += 1;
        let step = walk.advance(reply(name, Value::OctetString(vec![i as u8])));
        if step != WalkStep::Continue {
            assert_eq!(step, WalkStep::Finished);
            break;
        }
    }
    assert_eq!(consumed, 3);
    let entries = walk.into_entries();
    assert_eq!(entries.len(), 2);
    assert_eq!(entries[0].suffix, vec![1]);
    assert_eq!(entries[1].suffix, vec![2]);
    assert_eq!(entries[0].value, Value::OctetString(vec![0]));
    assert_eq!(entries[1].value, Value::OctetString(vec![1]));
}

#[test]
fn walk_stops_on_decreasing_oid() {
    let mut walk = Walk::new(parse("1.3.6.1"));
    assert_eq!(walk.advance(reply("1.3.6.1.5", Value::Null)), WalkStep::Continue);
    assert_eq!(walk.advance(reply("1.3.6.1.4", Value::Null)), WalkStep::Finished);
    assert_eq!(walk.current.arcs, vec![1, 3, 6, 1, 5]);
}

#[test]
fn walk_fails_fast_on_step_error() {
    let mut walk = Walk::new(parse("1.3.6.1"));
    assert_eq!(walk.advance(Err(SnmpError::ReceiveError)), WalkStep::Failed(SnmpError::ReceiveError));
    let empty = Ok(SimplePdu { request_id: 1, error_status: 0, error_index: 0, bindings: vec![] });
    assert_eq!(walk.advance(empty), WalkStep::Failed(SnmpError::ProtocolError));
}

#[test]
fn walk_ends_on_end_of_mib_and_error_status() {
    let mut walk = Walk::new(parse("1.3.6.1"));
    assert_eq!(walk.advance(reply("1.3.6.1.9", Value::EndOfMibView)), WalkStep::Finished);
    let fault = Ok(SimplePdu {
        request_id: 1,
        error_status: 2,
        error_index: 1,
        bindings: vec![VarBind { name: parse("1.3.6.1.9"), value: Value::Null }],
    });
    assert_eq!(walk.advance(fault), WalkStep::Finished);
    assert!(walk.into_entries().is_empty());
}

#[test]
fn oid_text_parsing() {
    assert_eq!(parse(".1.3.6.1.2.1.2.2.1.6.16").arcs, vec![1, 3, 6, 1, 2, 1, 2, 2, 1, 6, 16]);
    assert_eq!(parse("1..3.x.5").arcs, vec![1, 3, 5]);
    assert_eq!(parse("1.4294967295.4294967296").arcs, vec![1, 4294967295]);
    assert_eq!(parse("7").arcs, vec![7]);
    assert_eq!(parse("1.+7.3").arcs, vec![1, 7, 3]);
    assert_eq!(parse("1.+.++2.-3.3").arcs, vec![1, 3]);
    assert!(Oid::parse("").is_none());
    assert!(Oid::parse("a.b.").is_none());
    assert_eq!(parse(".1.3.6.1.2.1").to_dotted(), "1.3.6.1.2.1");
    let o = Oid { arcs: vec![0, 4294967295, 10, 7] };
    assert_eq!(parse(&o.to_dotted()), o);
}
