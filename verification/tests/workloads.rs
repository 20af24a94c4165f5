//! The workloads: CRDTs with their gossip, broadcast, the transactional
//! store, and the lin-kv reply interpretation.
use maelstrom_node::broadcast::{BroadcastService, Request as BRequest, Response as BResponse};
use maelstrom_node::crdt::{Crdt, CrdtService, Request as CRequest, Response as CResponse};
use maelstrom_node::datomic::{
    apply_txn, conflict_response, Datomic, IntOrString, Key, Op, Response as TxnResponse,
    ServiceErrorCode, Tree, Txn, Value,
};
use maelstrom_node::error::Error;
use maelstrom_node::gcounter::GCounter;
use maelstrom_node::gset::GSet;
use maelstrom_node::linkv::{
    interpret_cas, interpret_read, interpret_write, LinKvErrorCode, LinKvResponse,
};
use maelstrom_node::message::MessagePayload;
use maelstrom_node::node::{Node, NodeId};
use maelstrom_node::pncounter::PnCounter;
use maelstrom_node::serve::RequestHandler;

fn id(s: &str) -> NodeId {
    NodeId::new(s.to_string())
}

fn node(me: &str, all: &[&str]) -> Node {
    Node::new(id(me), all.iter().map(|s| id(s)).collect())
}

fn counter_value(c: &GCounter) -> u64 {
    c.query().value
}

#[test]
fn g_counter_converges_to_twelve() {
    // two adds on one node, one on another, then one exchange in each
    // direction: both reads must see the total of 12
    let mut a = GCounter::initial();
    let mut b = GCounter::initial();
    a.add(&id("c0"), maelstrom_node::gcounter::Add { delta: 3 });
    a.add(&id("c0"), maelstrom_node::gcounter::Add { delta: 5 });
    b.add(&id("c1"), maelstrom_node::gcounter::Add { delta: 4 });
    let sa = a.state();
    let sb = b.state();
    a.merge(sb);
    b.merge(sa);
    assert_eq!(counter_value(&a), 12);
    assert_eq!(counter_value(&b), 12);
}

#[test]
fn g_counter_merge_is_idempotent() {
    let mut a = GCounter::initial();
    a.add(&id("c0"), maelstrom_node::gcounter::Add { delta: 9 });
    let s = a.state();
    a.merge(s);
    assert_eq!(counter_value(&a), 9);
}

#[test]
fn pn_counter_sums_signed_deltas() {
    let mut a = PnCounter::initial();
    a.add(&id("c0"), maelstrom_node::pncounter::Add { delta: -2 });
    a.add(&id("c0"), maelstrom_node::pncounter::Add { delta: 5 });
    assert_eq!(a.query().value, 3);
}

#[test]
fn pn_counter_zero_delta_is_noop() {
    let mut a = PnCounter::initial();
    a.add(&id("c0"), maelstrom_node::pncounter::Add { delta: 0 });
    assert_eq!(a.query().value, 0);
}

#[test]
fn pn_counter_converges_both_ways() {
    let mut a = PnCounter::initial();
    let mut b = PnCounter::initial();
    a.add(&id("c0"), maelstrom_node::pncounter::Add { delta: 7 });
    b.add(&id("c1"), maelstrom_node::pncounter::Add { delta: -3 });
    let sa = a.state();
    let sb = b.state();
    a.merge(sb);
    b.merge(sa);
    assert_eq!(a.query().value, 4);
    assert_eq!(b.query().value, 4);
}

#[test]
fn g_set_deduplicates_and_merges() {
    let mut a = GSet::initial();
    let mut b = GSet::initial();
    a.add(&id("c0"), maelstrom_node::gset::Add { element: 1 });
    a.add(&id("c0"), maelstrom_node::gset::Add { element: 1 });
    a.add(&id("c0"), maelstrom_node::gset::Add { element: 2 });
    b.add(&id("c1"), maelstrom_node::gset::Add { element: 2 });
    b.add(&id("c1"), maelstrom_node::gset::Add { element: 3 });
    let sa = a.state();
    let sb = b.state();
    a.merge(sb);
    b.merge(sa);
    let mut qa = a.query().value;
    let mut qb = b.query().value;
    qa.sort();
    qb.sort();
    assert_eq!(qa, vec![1, 2, 3]);
    assert_eq!(qb, vec![1, 2, 3]);
}

#[test]
fn crdt_service_dispatches_requests() {
    let mut svc: CrdtService<GCounter> = CrdtService::new();
    let r = svc.handle(&id("n0"), &id("c0"), CRequest::Add(maelstrom_node::gcounter::Add { delta: 3 }));
    assert!(matches!(r, Ok(Some(CResponse::AddOk))));
    let r = svc.handle(&id("n0"), &id("c0"), CRequest::Read);
    match r {
        Ok(Some(CResponse::ReadOk(q))) => assert_eq!(q.value, 3),
        _ => panic!("read must answer with the sum"),
    }
    let other = {
        let mut peer = GCounter::initial();
        peer.add(&id("c1"), maelstrom_node::gcounter::Add { delta: 4 });
        peer.state()
    };
    let r = svc.handle(&id("n0"), &id("n1"), CRequest::Replicate(other));
    assert!(matches!(r, Ok(None)));
    let r = svc.handle(&id("n0"), &id("c0"), CRequest::Read);
    match r {
        Ok(Some(CResponse::ReadOk(q))) => assert_eq!(q.value, 7),
        _ => panic!("read must answer with the merged sum"),
    }
}

#[test]
fn crdt_replicate_targets_every_peer_once() {
    let mut n = node("n0", &["n0", "n1", "n2"]);
    let svc: CrdtService<GCounter> = CrdtService::new();
    let frames = svc.replicate(&mut n);
    assert_eq!(frames.len(), 2);
    let dests: Vec<&str> = frames.iter().map(|m| m.dest.as_str()).collect();
    assert_eq!(dests, vec!["n1", "n2"]);
    for frame in &frames {
        assert_eq!(frame.src.as_str(), "n0");
        assert!(frame.body.msg_id.is_some());
        assert!(frame.body.in_reply_to.is_none());
        assert!(matches!(
            frame.body.payload,
            MessagePayload::Request(CRequest::Replicate(_))
        ));
    }
}

#[test]
fn broadcast_floods_new_values_once() {
    let mut svc = BroadcastService::new();
    let topology = vec![
        (id("n0"), vec![id("n1")]),
        (id("n1"), vec![id("n0")]),
    ];
    let r = svc.handle(&id("n0"), &id("c0"), BRequest::Topology { topology });
    assert!(matches!(r, Ok(Some(BResponse::TopologyOk))));
    let r = svc.handle(&id("n0"), &id("c0"), BRequest::Broadcast { message: 7 });
    assert!(matches!(r, Ok(Some(BResponse::BroadcastOk))));
    assert_eq!(svc.pop_outbox(), Some((id("n1"), 7)));
    assert!(svc.pop_outbox().is_none());
    // a repeated value is acknowledged but queues nothing
    let r = svc.handle(&id("n0"), &id("c0"), BRequest::Broadcast { message: 7 });
    assert!(matches!(r, Ok(Some(BResponse::BroadcastOk))));
    assert!(svc.pop_outbox().is_none());
    // the peer observing the flood serves it from a read
    let mut peer = BroadcastService::new();
    let topology = vec![
        (id("n0"), vec![id("n1")]),
        (id("n1"), vec![id("n0")]),
    ];
    let r = peer.handle(&id("n1"), &id("c0"), BRequest::Topology { topology });
    assert!(matches!(r, Ok(Some(BResponse::TopologyOk))));
    let r = peer.handle(&id("n1"), &id("n0"), BRequest::Broadcast { message: 7 });
    assert!(matches!(r, Ok(Some(BResponse::BroadcastOk))));
    match peer.handle(&id("n1"), &id("c1"), BRequest::Read) {
        Ok(Some(BResponse::ReadOk { messages })) => assert_eq!(messages, vec![7]),
        _ => panic!("read must return the observed values"),
    }
}

#[test]
fn broadcast_excludes_sender_from_flood() {
    let mut svc = BroadcastService::new();
    let topology = vec![(id("n0"), vec![id("n1"), id("n2")])];
    svc.handle(&id("n0"), &id("c0"), BRequest::Topology { topology }).unwrap();
    svc.handle(&id("n0"), &id("n1"), BRequest::Broadcast { message: 4 }).unwrap();
    assert_eq!(svc.pop_outbox(), Some((id("n2"), 4)));
    assert!(svc.pop_outbox().is_none());
}

#[test]
fn topology_must_name_this_node() {
    let mut svc = BroadcastService::new();
    let topology = vec![(id("n1"), vec![id("n0")])];
    match svc.handle(&id("n0"), &id("c0"), BRequest::Topology { topology }) {
        Err(e) => assert_eq!(e, Error::MissingSelfTopology),
        Ok(_) => panic!("a topology without this node must be refused"),
    }
}

#[test]
fn topology_excludes_self_from_neighbors() {
    let mut svc = BroadcastService::new();
    let topology = vec![(id("n0"), vec![id("n0"), id("n1")])];
    svc.handle(&id("n0"), &id("c0"), BRequest::Topology { topology }).unwrap();
    svc.handle(&id("n0"), &id("c0"), BRequest::Broadcast { message: 1 }).unwrap();
    assert_eq!(svc.pop_outbox(), Some((id("n1"), 1)));
    assert!(svc.pop_outbox().is_none());
}

fn append(k: u64, v: u64) -> (Op, Key, Option<Value>) {
    (Op::Append, Key(k), Some(Value::Int(v)))
}

fn read(k: u64) -> (Op, Key, Option<Value>) {
    (Op::Read, Key(k), None)
}

#[test]
fn txn_reads_see_prior_appends() {
    let txn = Txn { txn: vec![append(1, 100), read(1), append(1, 200), read(1)] };
    let root = Tree::new();
    let (_, filled) = apply_txn(&root, &txn).unwrap();
    assert_eq!(filled.txn.len(), 4);
    match &filled.txn[1] {
        (Op::Read, Key(1), Some(Value::List(v))) => assert_eq!(v, &vec![100]),
        _ => panic!("the first read must observe [100]"),
    }
    match &filled.txn[3] {
        (Op::Read, Key(1), Some(Value::List(v))) => assert_eq!(v, &vec![100, 200]),
        _ => panic!("the second read must observe [100, 200]"),
    }
}

#[test]
fn txn_read_of_missing_key_is_absent() {
    let txn = Txn { txn: vec![read(9)] };
    let (_, filled) = apply_txn(&Tree::new(), &txn).unwrap();
    assert!(matches!(&filled.txn[0], (Op::Read, Key(9), None)));
}

#[test]
fn txn_append_requires_value() {
    let txn = Txn { txn: vec![(Op::Append, Key(1), None)] };
    match apply_txn(&Tree::new(), &txn) {
        Err(e) => assert_eq!(e, Error::MissingAppendValue),
        Ok(_) => panic!("an append without a value must fail the batch"),
    }
}

#[test]
fn txn_commits_survive_into_the_next_snapshot() {
    let txn1 = Txn { txn: vec![append(1, 100)] };
    let (root2, _) = apply_txn(&Tree::new(), &txn1).unwrap();
    let txn2 = Txn { txn: vec![read(1)] };
    let (_, filled) = apply_txn(&root2, &txn2).unwrap();
    match &filled.txn[0] {
        (Op::Read, Key(1), Some(Value::List(v))) => assert_eq!(v, &vec![100]),
        _ => panic!("a committed append must be visible"),
    }
}

#[test]
fn txn_driver_allows_three_attempts() {
    let mut run = Datomic::new(Txn { txn: vec![append(1, 1)] });
    assert!(run.begin_attempt());
    assert!(run.begin_attempt());
    assert!(run.begin_attempt());
    assert!(!run.begin_attempt());
    let resp = conflict_response();
    match resp {
        TxnResponse::Error { code, text } => {
            assert_eq!(code, ServiceErrorCode::TxnConflict);
            assert_eq!(code.code(), 30);
            assert_eq!(text, "txn conflict");
        },
        _ => panic!("exhausted attempts must yield the conflict error"),
    }
}

#[test]
fn txn_driver_executes_against_snapshot() {
    let run = Datomic::new(Txn { txn: vec![append(2, 5), read(2)] });
    let (to, filled) = run.execute(&Tree::new()).unwrap();
    match &filled.txn[1] {
        (Op::Read, Key(2), Some(Value::List(v))) => assert_eq!(v, &vec![5]),
        _ => panic!("the read must observe the append"),
    }
    let check = Txn { txn: vec![read(2)] };
    let (_, seen) = apply_txn(&to, &check).unwrap();
    match &seen.txn[0] {
        (Op::Read, Key(2), Some(Value::List(v))) => assert_eq!(v, &vec![5]),
        _ => panic!("the new root must hold the appended list"),
    }
}

#[test]
fn value_append_promotes_integers() {
    match Value::Int(1).append(&Value::Int(2)) {
        Value::List(v) => assert_eq!(v, vec![1, 2]),
        _ => panic!("append must yield a list"),
    }
    match Value::List(vec![1]).append(&Value::Int(3)) {
        Value::List(v) => assert_eq!(v, vec![1, 3]),
        _ => panic!("append must yield a list"),
    }
    match Value::Int(7).append(&Value::List(vec![8, 9])) {
        Value::List(v) => assert_eq!(v, vec![7, 8, 9]),
        _ => panic!("append must yield a list"),
    }
    match Value::empty().append(&Value::Int(4)) {
        Value::List(v) => assert_eq!(v, vec![4]),
        _ => panic!("append must yield a list"),
    }
}

#[test]
fn key_decodes_integers_and_decimal_strings() {
    assert_eq!(Key::try_from(IntOrString::Int(5)).unwrap(), Key(5));
    assert_eq!(Key::try_from(IntOrString::Text("123".to_string())).unwrap(), Key(123));
    assert_eq!(Key::try_from(IntOrString::Text("+42".to_string())).unwrap(), Key(42));
    assert_eq!(Key::try_from(IntOrString::Text("0007".to_string())).unwrap(), Key(7));
    assert_eq!(
        Key::try_from(IntOrString::Text("18446744073709551615".to_string())).unwrap(),
        Key(u64::MAX)
    );
}

#[test]
fn key_rejects_malformed_strings() {
    for bad in ["", "+", "12a", "-3", " 5", "18446744073709551616"] {
        assert_eq!(
            Key::try_from(IntOrString::Text(bad.to_string())).unwrap_err(),
            Error::DeserializationFailed
        );
    }
}

#[test]
fn lin_kv_read_interpretation() {
    assert_eq!(interpret_read::<u64>(LinKvResponse::ReadOk { value: 5 }).unwrap(), Some(5));
    let missing = LinKvResponse::<u64>::Error {
        code: LinKvErrorCode::KeyDoesNotExist,
        text: "nope".to_string(),
    };
    assert_eq!(interpret_read(missing).unwrap(), None);
    let unexpected = LinKvResponse::<u64>::Error {
        code: LinKvErrorCode::PreconditionFailed,
        text: "no".to_string(),
    };
    assert_eq!(interpret_read(unexpected).unwrap_err(), Error::UnexpectedResponse);
    assert_eq!(
        interpret_read::<u64>(LinKvResponse::CasOk).unwrap_err(),
        Error::UnexpectedResponse
    );
}

#[test]
fn lin_kv_cas_interpretation() {
    assert!(interpret_cas::<u64>(LinKvResponse::CasOk).unwrap());
    let lost = LinKvResponse::<u64>::Error {
        code: LinKvErrorCode::PreconditionFailed,
        text: "changed".to_string(),
    };
    assert!(!interpret_cas(lost).unwrap());
    let unexpected = LinKvResponse::<u64>::Error {
        code: LinKvErrorCode::KeyDoesNotExist,
        text: "no".to_string(),
    };
    assert_eq!(interpret_cas(unexpected).unwrap_err(), Error::UnexpectedResponse);
    assert_eq!(
        interpret_cas::<u64>(LinKvResponse::WriteOk).unwrap_err(),
        Error::UnexpectedResponse
    );
}

#[test]
fn lin_kv_write_interpretation() {
    assert!(interpret_write::<u64>(LinKvResponse::WriteOk).is_ok());
    assert_eq!(
        interpret_write::<u64>(LinKvResponse::CasOk).unwrap_err(),
        Error::UnexpectedResponse
    );
}

#[test]
fn lin_kv_error_codes() {
    assert_eq!(LinKvErrorCode::KeyDoesNotExist.code(), 20);
    assert_eq!(LinKvErrorCode::PreconditionFailed.code(), 22);
    assert_eq!(LinKvErrorCode::from_code(20), Some(LinKvErrorCode::KeyDoesNotExist));
    assert_eq!(LinKvErrorCode::from_code(22), Some(LinKvErrorCode::PreconditionFailed));
    assert_eq!(LinKvErrorCode::from_code(13), None);
}
