//! Multi-node flows: write forwarding in the partitioned log, replica
//! pulls, and replicated transactional writes.

use gossip_glomers::io::{ClusterState, IO};
use gossip_glomers::node::Server;
use gossip_glomers::proto::{Body, Message, Op, Payload};
use gossip_glomers::timer::Timers;
use gossip_glomers::workloads::kafka_multi::KafkaServer;
use gossip_glomers::workloads::txn_two::TxnKVServer;

fn msg(src: &str, dst: &str, id: Option<u64>, irt: Option<u64>, payload: Payload) -> Message {
    Message {
        src: String::from(src),
        dst: String::from(dst),
        body: Body { id, in_reply_to: irt, payload },
    }
}

fn cluster(me: &str, all: &[&str]) -> ClusterState {
    ClusterState {
        node_id: String::from(me),
        node_ids: all.iter().map(|s| String::from(*s)).collect(),
    }
}

#[test]
fn kafka_forwarded_send_is_relayed() {
    let names = ["n0", "n1"];
    let cs0 = cluster("n0", &names);
    let cs1 = cluster("n1", &names);
    let mut t0: Timers<gossip_glomers::workloads::kafka_multi::Timer> = Timers::new();
    let mut t1: Timers<gossip_glomers::workloads::kafka_multi::Timer> = Timers::new();
    let mut s0 = <KafkaServer as Server<_>>::init(&cs0, &mut t0, 0).expect("init");
    let mut s1 = <KafkaServer as Server<_>>::init(&cs1, &mut t1, 0).expect("init");
    let mut io0 = IO::new(String::from("n0"));
    let mut io1 = IO::new(String::from("n1"));

    // Key "1" belongs to node 1, so n0 forwards the write there.
    let send = msg(
        "c1",
        "n0",
        Some(5),
        None,
        Payload::Send { key: String::from("1"), msg: 42, forwarded_for: None },
    );
    s0.handle(&cs0, &mut io0, &send, 0).expect("send");
    let out0 = io0.take_outbox();
    assert_eq!(out0.len(), 1);
    assert_eq!(out0[0].dst, "n1");
    match &out0[0].body.payload {
        Payload::Send { key, msg, forwarded_for } => {
            assert_eq!(key, "1");
            assert_eq!(*msg, 42);
            assert_eq!(forwarded_for.as_ref().expect("origin").0, "c1");
            assert_eq!(forwarded_for.as_ref().expect("origin").1, 5);
        },
        _ => panic!("expected a forwarded send"),
    }
    assert_eq!(io0.pending.len(), 1);

    // The leader appends and answers with the tuple carried back.
    s1.handle(&cs1, &mut io1, &out0[0], 1).expect("leader send");
    let out1 = io1.take_outbox();
    assert_eq!(out1.len(), 1);
    match &out1[0].body.payload {
        Payload::SendOk { offset, forwarded_for } => {
            assert_eq!(*offset, 0);
            assert!(forwarded_for.is_some());
        },
        _ => panic!("expected send_ok"),
    }

    // The forwarder relays the offset to the origin and closes the
    // pending request.
    s0.handle(&cs0, &mut io0, &out1[0], 2).expect("relay");
    let relayed = io0.take_outbox();
    assert_eq!(relayed.len(), 1);
    assert_eq!(relayed[0].dst, "c1");
    assert_eq!(relayed[0].body.in_reply_to, Some(5));
    match &relayed[0].body.payload {
        Payload::SendOk { offset, forwarded_for } => {
            assert_eq!(*offset, 0);
            assert!(forwarded_for.is_none());
        },
        _ => panic!("expected send_ok"),
    }
    assert_eq!(io0.pending.len(), 0);

    // A duplicate of the same reply is a late response and is ignored.
    s0.handle(&cs0, &mut io0, &out1[0], 3).expect("late reply");
    assert_eq!(io0.take_outbox().len(), 0);
}

#[test]
fn kafka_replica_pull_copies_the_log() {
    let names = ["n0", "n1"];
    let cs0 = cluster("n0", &names);
    let cs1 = cluster("n1", &names);
    let mut t0: Timers<gossip_glomers::workloads::kafka_multi::Timer> = Timers::new();
    let mut t1: Timers<gossip_glomers::workloads::kafka_multi::Timer> = Timers::new();
    let mut s0 = <KafkaServer as Server<_>>::init(&cs0, &mut t0, 0).expect("init");
    let mut s1 = <KafkaServer as Server<_>>::init(&cs1, &mut t1, 0).expect("init");
    let mut io0 = IO::new(String::from("n0"));
    let mut io1 = IO::new(String::from("n1"));

    // Key "2" belongs to node 0; write two values there.
    for (i, v) in [7u64, 9].iter().enumerate() {
        let send = msg(
            "c1",
            "n0",
            Some(i as u64 + 1),
            None,
            Payload::Send { key: String::from("2"), msg: *v, forwarded_for: None },
        );
        s0.handle(&cs0, &mut io0, &send, 0).expect("send");
        let _ = io0.take_outbox();
    }

    // The replica asks the leader for everything it has.
    let poll = msg(
        "n1",
        "n0",
        Some(3),
        None,
        Payload::ReplicaPoll { offsets: Vec::new() },
    );
    s0.handle(&cs0, &mut io0, &poll, 1).expect("replica poll");
    let out0 = io0.take_outbox();
    match &out0[0].body.payload {
        Payload::ReplicaPollOk { msgs } => {
            assert_eq!(msgs.len(), 1);
            assert_eq!(msgs[0].0, "2");
            assert_eq!(msgs[0].1, vec![(0, 7), (1, 9)]);
        },
        _ => panic!("expected replica_poll_ok"),
    }

    // The replica adopts the records once the reply closes a pending
    // request of its own.
    io1.rpc_request("n0", &Payload::ReplicaPoll { offsets: Vec::new() }, 5000, false, 0)
        .expect("request");
    let _ = io1.take_outbox();
    let reply = msg("n0", "n1", Some(9), Some(0), match &out0[0].body.payload {
        Payload::ReplicaPollOk { msgs } => Payload::ReplicaPollOk {
            msgs: msgs.clone(),
        },
        _ => unreachable!(),
    });
    s1.handle(&cs1, &mut io1, &reply, 2).expect("adopt");
    assert_eq!(io1.pending.len(), 0);

    let read = msg(
        "c1",
        "n1",
        Some(4),
        None,
        Payload::Poll { offsets: vec![(String::from("2"), 0)] },
    );
    s1.handle(&cs1, &mut io1, &read, 3).expect("poll");
    let out1 = io1.take_outbox();
    match &out1[out1.len() - 1].body.payload {
        Payload::PollOk { msgs } => {
            assert_eq!(msgs[0].1, vec![(0, 7), (1, 9)]);
        },
        _ => panic!("expected poll_ok"),
    }
}

#[test]
fn kafka_commit_offsets_keeps_the_maximum() {
    let cs = cluster("n0", &["n0"]);
    let mut t: Timers<gossip_glomers::workloads::kafka_multi::Timer> = Timers::new();
    let mut s = <KafkaServer as Server<_>>::init(&cs, &mut t, 0).expect("init");
    let mut io = IO::new(String::from("n0"));
    for v in [5u64, 3, 9, 2] {
        let commit = msg(
            "c1",
            "n0",
            Some(v),
            None,
            Payload::CommitOffsets { offsets: vec![(String::from("0"), v)] },
        );
        s.handle(&cs, &mut io, &commit, 0).expect("commit");
        let _ = io.take_outbox();
    }
    let list = msg(
        "c1",
        "n0",
        Some(20),
        None,
        Payload::ListCommittedOffsets { keys: vec![String::from("0")] },
    );
    s.handle(&cs, &mut io, &list, 0).expect("list");
    let out = io.take_outbox();
    match &out[0].body.payload {
        Payload::ListCommittedOffsetsOk { offsets } => {
            assert_eq!(offsets, &vec![(String::from("0"), 9)]);
        },
        _ => panic!("expected listing"),
    }
}

#[test]
fn txn_writes_replicate_to_the_peer() {
    let names = ["n0", "n1"];
    let cs0 = cluster("n0", &names);
    let cs1 = cluster("n1", &names);
    let mut t0: Timers<()> = Timers::new();
    let mut t1: Timers<()> = Timers::new();
    let mut s0 = <TxnKVServer as Server<()>>::init(&cs0, &mut t0, 0).expect("init");
    let mut s1 = <TxnKVServer as Server<()>>::init(&cs1, &mut t1, 0).expect("init");
    let mut io0 = IO::new(String::from("n0"));
    let mut io1 = IO::new(String::from("n1"));

    let txn = vec![Op::Write { key: 1, value: 5 }, Op::Read { key: 1, value: None }];
    let input = msg("c1", "n0", Some(1), None, Payload::Txn { txn });
    s0.handle(&cs0, &mut io0, &input, 0).expect("txn");
    let out0 = io0.take_outbox();
    let replicate = out0
        .iter()
        .find(|m| matches!(m.body.payload, Payload::Replicate { .. }))
        .expect("replicate envelope");
    assert_eq!(replicate.dst, "n1");

    s1.handle(&cs1, &mut io1, replicate, 1).expect("replicate");
    let out1 = io1.take_outbox();
    assert!(matches!(out1[0].body.payload, Payload::ReplicateOk));

    // The acknowledgement closes the pending request on the writer.
    s0.handle(&cs0, &mut io0, &out1[0], 2).expect("ack");
    assert_eq!(io0.pending.len(), 0);

    // The peer now reads the replicated value.
    let read = msg(
        "c2",
        "n1",
        Some(3),
        None,
        Payload::Txn { txn: vec![Op::Read { key: 1, value: None }] },
    );
    s1.handle(&cs1, &mut io1, &read, 4).expect("read txn");
    let out = io1.take_outbox();
    match &out[out.len() - 1].body.payload {
        Payload::TxnOk { txn } => assert_eq!(txn[0], Op::Read { key: 1, value: Some(5) }),
        _ => panic!("expected txn_ok"),
    }
}

#[test]
fn txn_replicate_keyed_to_a_live_request_is_fatal() {
    // A replicate whose in_reply_to keys one of this node's own live
    // requests is not a peer write: the protocol treats it as fatal.
    let names = ["n0", "n1"];
    let cs0 = cluster("n0", &names);
    let mut t0: Timers<()> = Timers::new();
    let mut s0 = <TxnKVServer as Server<()>>::init(&cs0, &mut t0, 0).expect("init");
    let mut io0 = IO::new(String::from("n0"));
    let txn = vec![Op::Write { key: 1, value: 5 }];
    let input = msg("c1", "n0", Some(1), None, Payload::Txn { txn });
    s0.handle(&cs0, &mut io0, &input, 0).expect("txn");
    let pending_id = io0.pending[0].id;
    let bad = msg(
        "n1",
        "n0",
        Some(9),
        Some(pending_id),
        Payload::Replicate { delta: None, ops: Some(vec![Op::Write { key: 2, value: 7 }]) },
    );
    assert!(s0.handle(&cs0, &mut io0, &bad, 1).is_err());
}
