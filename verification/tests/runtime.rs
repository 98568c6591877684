//! End-to-end scenarios for the runtime core: handshake, echo, unique
//! identifiers, retries and timers.

use gossip_glomers::io::IO;
use gossip_glomers::node::{Event, Node};
use gossip_glomers::proto::{from_line, to_line, Message, Payload};
use gossip_glomers::timer::Timers;
use gossip_glomers::workloads::echo::EchoServer;
use gossip_glomers::workloads::unique_ids::UniqueIdServer;
use gossip_glomers::Error;

fn feed(node: &mut Node<EchoServer, ()>, line: &str, now: u64) -> Vec<String> {
    let m = from_line(line).expect("decode");
    let cont = node.handle_event(Event::Message(m), now).expect("handle");
    assert!(cont);
    node.io.take_outbox().iter().map(|m| to_line(m)).collect()
}

#[test]
fn echo_scenario() {
    let init = from_line(
        "{\"src\":\"c1\",\"dest\":\"n1\",\"body\":{\"type\":\"init\",\"msg_id\":1,\"node_id\":\"n1\",\"node_ids\":[\"n1\"]}}",
    )
    .expect("decode init");
    let mut node: Node<EchoServer, ()> = Node::init(&init, 0).expect("init");
    let first: Vec<String> = node.io.take_outbox().iter().map(|m| to_line(m)).collect();
    assert_eq!(first.len(), 1);
    assert_eq!(
        first[0],
        "{\"src\":\"n1\",\"dest\":\"c1\",\"body\":{\"msg_id\":0,\"in_reply_to\":1,\"type\":\"init_ok\"}}"
    );

    let out = feed(
        &mut node,
        "{\"src\":\"c1\",\"dest\":\"n1\",\"body\":{\"type\":\"echo\",\"msg_id\":2,\"echo\":\"hi\"}}",
        1,
    );
    assert_eq!(out.len(), 1);
    assert_eq!(
        out[0],
        "{\"src\":\"n1\",\"dest\":\"c1\",\"body\":{\"msg_id\":1,\"in_reply_to\":2,\"type\":\"echo_ok\",\"echo\":\"hi\"}}"
    );
}

#[test]
fn handshake_rejects_other_payloads() {
    let not_init = from_line(
        "{\"src\":\"c1\",\"dest\":\"n1\",\"body\":{\"type\":\"echo\",\"msg_id\":1,\"echo\":\"x\"}}",
    )
    .expect("decode");
    let r: Result<Node<EchoServer, ()>, Error> = Node::init(&not_init, 0);
    assert!(r.is_err());
}

#[test]
fn unique_ids_scenario() {
    let init = from_line(
        "{\"src\":\"c1\",\"dest\":\"n2\",\"body\":{\"type\":\"init\",\"msg_id\":1,\"node_id\":\"n2\",\"node_ids\":[\"n1\",\"n2\",\"n3\"]}}",
    )
    .expect("decode init");
    let mut node: Node<UniqueIdServer, ()> = Node::init(&init, 0).expect("init");
    let _ = node.io.take_outbox();
    for (i, expect) in [(2u64, "n2-1"), (3u64, "n2-2")] {
        let line = format!(
            "{{\"src\":\"c1\",\"dest\":\"n2\",\"body\":{{\"type\":\"generate\",\"msg_id\":{}}}}}",
            i
        );
        let m = from_line(&line).expect("decode");
        node.handle_event(Event::Message(m), 1).expect("handle");
        let out = node.io.take_outbox();
        assert_eq!(out.len(), 1);
        match &out[0].body.payload {
            Payload::GenerateOk { id } => assert_eq!(id, expect),
            _ => panic!("expected generate_ok"),
        }
    }
}

#[test]
fn msg_ids_are_monotone_from_zero() {
    let init = from_line(
        "{\"src\":\"c1\",\"dest\":\"n1\",\"body\":{\"type\":\"init\",\"msg_id\":7,\"node_id\":\"n1\",\"node_ids\":[\"n1\"]}}",
    )
    .expect("decode init");
    let mut node: Node<EchoServer, ()> = Node::init(&init, 0).expect("init");
    let mut seen: Vec<u64> = node
        .io
        .take_outbox()
        .iter()
        .map(|m| m.body.id.expect("id"))
        .collect();
    for k in 0..5u64 {
        let line = format!(
            "{{\"src\":\"c1\",\"dest\":\"n1\",\"body\":{{\"type\":\"echo\",\"msg_id\":{},\"echo\":\"x\"}}}}",
            k + 10
        );
        let m = from_line(&line).expect("decode");
        node.handle_event(Event::Message(m), k).expect("handle");
        for sent in node.io.take_outbox() {
            seen.push(sent.body.id.expect("id"));
        }
    }
    assert_eq!(seen, vec![0, 1, 2, 3, 4, 5]);
}

#[test]
fn rpc_retry_scenario() {
    // A request with retry and a 50 ms timeout whose peer never
    // replies: after 200 ms at least three envelopes with the same
    // payload went out under distinct identifiers, and the table holds
    // exactly the most recent attempt.
    let mut io = IO::new(String::from("n1"));
    let payload = Payload::Echo { echo: String::from("ping") };
    io.rpc_request_with_retry("n2", &payload, 50, 0).expect("request");
    let mut now = 0u64;
    for _ in 0..3 {
        now += 60;
        let (_expired, _hint) = io.rpc_tend(now).expect("tend");
    }
    let sent = io.take_outbox();
    assert!(sent.len() >= 3);
    let mut ids: Vec<u64> = Vec::new();
    for m in &sent {
        assert_eq!(m.dst, "n2");
        match &m.body.payload {
            Payload::Echo { echo } => assert_eq!(echo, "ping"),
            _ => panic!("unexpected payload"),
        }
        ids.push(m.body.id.expect("id"));
    }
    for w in ids.windows(2) {
        assert!(w[0] < w[1]);
    }
    assert_eq!(io.pending.len(), 1);
    assert_eq!(io.pending[0].id, *ids.last().unwrap());
}

#[test]
fn rpc_mark_completed_is_idempotent_and_total() {
    let mut io = IO::new(String::from("n1"));
    let payload = Payload::Echo { echo: String::from("x") };
    let id = io.rpc_request_with_retry("n2", &payload, 50, 0).expect("request");
    let reply = Message {
        src: String::from("n2"),
        dst: String::from("n1"),
        body: gossip_glomers::proto::Body {
            id: Some(9),
            in_reply_to: Some(id),
            payload: Payload::EchoOk { echo: String::from("x") },
        },
    };
    assert!(io.rpc_still_pending(&reply));
    io.rpc_mark_completed(&reply);
    assert_eq!(io.pending.len(), 0);
    assert!(!io.rpc_still_pending(&reply));
    // Twice has the effect of once, and an unknown key is a no-op.
    io.rpc_mark_completed(&reply);
    assert_eq!(io.pending.len(), 0);
    let no_reply = Message {
        src: String::from("n2"),
        dst: String::from("n1"),
        body: gossip_glomers::proto::Body {
            id: Some(10),
            in_reply_to: None,
            payload: Payload::EchoOk { echo: String::from("x") },
        },
    };
    io.rpc_mark_completed(&no_reply);
    assert_eq!(io.pending.len(), 0);
}

#[test]
fn tender_sleep_hint_is_clamped() {
    let mut io = IO::new(String::from("n1"));
    let payload = Payload::Echo { echo: String::from("x") };
    io.rpc_request("n2", &payload, 500, false, 100).expect("request");
    let (expired, hint) = io.rpc_tend(150).expect("tend");
    assert_eq!(expired.len(), 0);
    assert_eq!(hint, 450);
    let (expired, hint) = io.rpc_tend(700).expect("tend");
    assert_eq!(expired.len(), 1);
    assert!(!expired[0].retry);
    assert_eq!(hint, u64::MAX);
    assert_eq!(io.pending.len(), 0);
}

#[test]
fn timer_fires_once_per_interval() {
    let mut timers: Timers<u8> = Timers::new();
    timers.register_timer(7, 10, 0);
    let mut fired_total = 0;
    for now in [0u64, 5, 10, 12, 15, 25, 26, 27, 40] {
        let (fired, _hint) = timers.fire(now);
        fired_total += fired.len();
        for t in fired {
            assert_eq!(t, 7);
        }
    }
    // Due at 10, 25 and 40 only: never twice within one interval.
    assert_eq!(fired_total, 3);
}

#[test]
fn eof_stops_the_loop() {
    let init = from_line(
        "{\"src\":\"c1\",\"dest\":\"n1\",\"body\":{\"type\":\"init\",\"msg_id\":1,\"node_id\":\"n1\",\"node_ids\":[\"n1\"]}}",
    )
    .expect("decode init");
    let mut node: Node<EchoServer, ()> = Node::init(&init, 0).expect("init");
    let cont = node.handle_event(Event::EOF, 5).expect("handle");
    assert!(!cont);
}
