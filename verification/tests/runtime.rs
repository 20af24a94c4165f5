//! The messaging runtime: identity, correlation, retries, init, and echo.
use maelstrom_node::client::{Client, RetryState};
use maelstrom_node::echo::{EchoHandler, EchoRequest, EchoResponse};
use maelstrom_node::error::Error;
use maelstrom_node::init::{recv_init, InitRequest, InitResponse};
use maelstrom_node::message::{Message, MessageBody, MessageId, MessagePayload};
use maelstrom_node::node::{Node, NodeId};
use maelstrom_node::serve::make_service;

fn id(s: &str) -> NodeId {
    NodeId::new(s.to_string())
}

fn node(me: &str, all: &[&str]) -> Node {
    Node::new(id(me), all.iter().map(|s| id(s)).collect())
}

#[test]
fn init_handshake() {
    let received = Message {
        src: id("c0"),
        dest: id("n0"),
        body: MessageBody {
            msg_id: Some(MessageId(1)),
            in_reply_to: None,
            payload: InitRequest::Init { node_id: id("n0"), node_ids: vec![id("n0"), id("n1")] },
        },
    };
    let (n, reply) = recv_init(received).unwrap();
    assert_eq!(n.node_id().as_str(), "n0");
    assert_eq!(n.node_ids().len(), 2);
    assert_eq!(reply.src.as_str(), "n0");
    assert_eq!(reply.dest.as_str(), "c0");
    assert_eq!(reply.body.in_reply_to, Some(MessageId(1)));
    assert_eq!(reply.body.msg_id, Some(MessageId(1)));
    assert!(matches!(reply.body.payload, InitResponse::InitOk));
}

#[test]
fn init_rejects_misaddressed_request() {
    let received = Message {
        src: id("c0"),
        dest: id("n1"),
        body: MessageBody {
            msg_id: Some(MessageId(1)),
            in_reply_to: None,
            payload: InitRequest::Init { node_id: id("n0"), node_ids: vec![id("n0")] },
        },
    };
    match recv_init(received) {
        Err(e) => assert_eq!(e, Error::InitFailed),
        Ok(_) => panic!("a misaddressed init must fail"),
    }
}

#[test]
fn message_ids_strictly_increase() {
    let mut n = node("n0", &["n0", "n1"]);
    let (_, first) = n.build_message_to(id("n1"), None, 0u64);
    let (_, second) = n.build_message_to(id("n1"), None, 0u64);
    assert_eq!(first, MessageId(1));
    assert_eq!(second, MessageId(2));
    assert!(second.0 > first.0);
}

#[test]
fn build_message_sets_envelope() {
    let mut n = node("n0", &["n0", "n1"]);
    let (m, msg_id) = n.build_message_to(id("n1"), Some(MessageId(7)), 42u64);
    assert_eq!(m.src.as_str(), "n0");
    assert_eq!(m.dest.as_str(), "n1");
    assert_eq!(m.body.msg_id, Some(msg_id));
    assert_eq!(m.body.in_reply_to, Some(MessageId(7)));
    assert_eq!(m.body.payload, 42u64);
}

#[test]
fn echo_round_trip() {
    let mut n = node("n0", &["n0"]);
    let mut service = make_service(EchoHandler);
    let request = Message {
        src: id("c0"),
        dest: id("n0"),
        body: MessageBody {
            msg_id: Some(MessageId(2)),
            in_reply_to: None,
            payload: EchoRequest::Echo { echo: "hi".to_string() },
        },
    };
    let reply = service.handle_message(&mut n, request).unwrap().unwrap();
    assert_eq!(reply.src.as_str(), "n0");
    assert_eq!(reply.dest.as_str(), "c0");
    assert_eq!(reply.body.in_reply_to, Some(MessageId(2)));
    let EchoResponse::EchoOk { echo } = reply.body.payload;
    assert_eq!(echo, "hi");
}

#[test]
fn service_rejects_request_with_correlation_id() {
    let mut n = node("n0", &["n0"]);
    let mut service = make_service(EchoHandler);
    let request = Message {
        src: id("c0"),
        dest: id("n0"),
        body: MessageBody {
            msg_id: Some(MessageId(2)),
            in_reply_to: Some(MessageId(1)),
            payload: EchoRequest::Echo { echo: "hi".to_string() },
        },
    };
    match service.handle_message(&mut n, request) {
        Err(e) => assert_eq!(e, Error::UnexpectedInReplyTo),
        Ok(_) => panic!("a request carrying a correlation id must be refused"),
    }
}

#[test]
fn send_refuses_self() {
    let mut n = node("n0", &["n0", "n1"]);
    let mut client = Client::new();
    match client.send_start::<u64, u64>(&mut n, id("n0"), 5, 0) {
        Err(e) => assert_eq!(e, Error::SendToSelf),
        Ok(_) => panic!("a send to the node itself must be refused"),
    }
}

#[test]
fn send_correlates_response() {
    let mut n = node("n0", &["n0", "n1"]);
    let mut client = Client::new();
    let (m, request_id, evicted) = client.send_start::<u64, u64>(&mut n, id("n1"), 5, 0).unwrap();
    assert!(evicted.is_empty());
    assert_eq!(m.body.msg_id, Some(request_id));
    assert!(matches!(m.body.payload, MessagePayload::Request(5)));
    let response = Message {
        src: id("n1"),
        dest: id("n0"),
        body: MessageBody { msg_id: Some(MessageId(9)), in_reply_to: Some(request_id), payload: 77u64 },
    };
    let (delivered_to, payload) = client.handle(response).unwrap();
    assert_eq!(delivered_to, request_id);
    assert_eq!(payload, 77);
}

#[test]
fn completion_happens_at_most_once() {
    let mut n = node("n0", &["n0", "n1"]);
    let mut client = Client::new();
    let (_, request_id, _) = client.send_start::<u64, u64>(&mut n, id("n1"), 5, 0).unwrap();
    let response = |p: u64| Message {
        src: id("n1"),
        dest: id("n0"),
        body: MessageBody { msg_id: None, in_reply_to: Some(request_id), payload: p },
    };
    assert!(client.handle(response(1)).is_ok());
    assert_eq!(client.handle(response(2)).unwrap_err(), Error::UnknownCorrelation);
}

#[test]
fn response_needs_correlation_id() {
    let mut client = Client::new();
    let response = Message {
        src: id("n1"),
        dest: id("n0"),
        body: MessageBody { msg_id: Some(MessageId(9)), in_reply_to: None, payload: 1u64 },
    };
    assert_eq!(client.handle(response).unwrap_err(), Error::MissingInReplyTo);
}

#[test]
fn stale_pending_entries_are_evicted() {
    let mut n = node("n0", &["n0", "n1"]);
    let mut client = Client::new();
    let (_, old_id, _) = client.send_start::<u64, u64>(&mut n, id("n1"), 1, 0).unwrap();
    // 4000 ms later the TTL of 3000 ms has passed: the next send evicts it
    let (_, _, evicted) = client.send_start::<u64, u64>(&mut n, id("n1"), 2, 4000).unwrap();
    assert_eq!(evicted, vec![old_id]);
    let late = Message {
        src: id("n1"),
        dest: id("n0"),
        body: MessageBody { msg_id: None, in_reply_to: Some(old_id), payload: 9u64 },
    };
    assert_eq!(client.handle(late).unwrap_err(), Error::UnknownCorrelation);
}

#[test]
fn fresh_pending_entries_survive_eviction() {
    let mut n = node("n0", &["n0", "n1"]);
    let mut client = Client::new();
    let (_, first, _) = client.send_start::<u64, u64>(&mut n, id("n1"), 1, 1000).unwrap();
    let (_, second, evicted) = client.send_start::<u64, u64>(&mut n, id("n1"), 2, 2000).unwrap();
    assert!(evicted.is_empty());
    let respond = |rid: MessageId| Message {
        src: id("n1"),
        dest: id("n0"),
        body: MessageBody { msg_id: None, in_reply_to: Some(rid), payload: 0u64 },
    };
    assert!(client.handle(respond(first)).is_ok());
    assert!(client.handle(respond(second)).is_ok());
}

#[test]
fn retry_keeps_one_message_id() {
    let mut n = node("n0", &["n0", "n1"]);
    let mut client = Client::new();
    let mut retry: RetryState<u64, u64> = RetryState::start(&mut n, 3, id("n1"), 5);
    let original_id = retry.message().body.msg_id;
    assert!(original_id.is_some());
    let mut attempts = 0;
    let mut now = 0;
    while retry.next_attempt(&mut client, now) {
        assert_eq!(retry.message().body.msg_id, original_id);
        attempts += 1;
        now += 1000;
    }
    assert_eq!(attempts, 3);
    assert!(!retry.next_attempt(&mut client, now));
}

#[test]
fn late_response_completes_retried_request() {
    let mut n = node("n0", &["n0", "n1"]);
    let mut client = Client::new();
    let mut retry: RetryState<u64, u64> = RetryState::start(&mut n, 2, id("n1"), 5);
    let rid = retry.message().body.msg_id.unwrap();
    assert!(retry.next_attempt(&mut client, 0));
    // the first attempt times out; the second re-registers the same id
    assert!(retry.next_attempt(&mut client, 4000));
    let response = Message {
        src: id("n1"),
        dest: id("n0"),
        body: MessageBody { msg_id: None, in_reply_to: Some(rid), payload: 8u64 },
    };
    let (delivered_to, payload) = client.handle(response).unwrap();
    assert_eq!(delivered_to, rid);
    assert_eq!(payload, 8);
}

#[test]
fn lin_kv_node_id() {
    assert_eq!(NodeId::lin_kv().as_str(), "lin-kv");
}

#[test]
fn replace_payload_keeps_routing() {
    let m = Message {
        src: id("a"),
        dest: id("b"),
        body: MessageBody { msg_id: Some(MessageId(3)), in_reply_to: Some(MessageId(2)), payload: 10u32 },
    };
    let (prev, m2) = m.replace_payload("x");
    assert_eq!(prev, 10);
    assert_eq!(m2.src.as_str(), "a");
    assert_eq!(m2.dest.as_str(), "b");
    assert_eq!(m2.body.msg_id, Some(MessageId(3)));
    assert_eq!(m2.body.in_reply_to, Some(MessageId(2)));
    assert_eq!(m2.body.payload, "x");
}
