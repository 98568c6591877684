//! Workload scenarios: broadcast convergence, counter convergence, the
//! transactional store, and the partitioned log.

use gossip_glomers::io::IO;
use gossip_glomers::proto::{Body, Message, Op, Payload};
use gossip_glomers::timer::Timers;
use gossip_glomers::workloads::broadcast_tree_batch::BroadcastServer as BatchServer;
use gossip_glomers::workloads::g_counter::{GCounter, GCounterServer};
use gossip_glomers::workloads::kafka_single::KafkaServer;
use gossip_glomers::workloads::txn_single::TxnKVServer;
use gossip_glomers::io::ClusterState;
use gossip_glomers::node::Server;
use gossip_glomers::workloads::broadcast_tree::BroadcastServer as TreeServer;

fn msg(src: &str, dst: &str, id: Option<u64>, irt: Option<u64>, payload: Payload) -> Message {
    Message {
        src: String::from(src),
        dst: String::from(dst),
        body: Body { id, in_reply_to: irt, payload },
    }
}

fn cluster(me: &str, all: &[&str]) -> ClusterState {
    ClusterState {
        node_id: String::from(me),
        node_ids: all.iter().map(|s| String::from(*s)).collect(),
    }
}

#[test]
fn txn_kv_scenario() {
    let cs = cluster("n1", &["n1"]);
    let mut timers: Timers<()> = Timers::new();
    let mut server = <TxnKVServer as Server<()>>::init(&cs, &mut timers, 0).expect("init");
    let mut io = IO::new(String::from("n1"));
    let txn = vec![
        Op::Write { key: 1, value: 5 },
        Op::Read { key: 1, value: None },
        Op::Read { key: 2, value: None },
    ];
    let input = msg("c1", "n1", Some(3), None, Payload::Txn { txn });
    server.handle(&mut io, &input).expect("txn");
    let out = io.take_outbox();
    assert_eq!(out.len(), 1);
    match &out[0].body.payload {
        Payload::TxnOk { txn } => {
            assert_eq!(txn.len(), 3);
            assert_eq!(txn[0], Op::Write { key: 1, value: 5 });
            assert_eq!(txn[1], Op::Read { key: 1, value: Some(5) });
            assert_eq!(txn[2], Op::Read { key: 2, value: None });
        },
        _ => panic!("expected txn_ok"),
    }
    assert_eq!(out[0].body.in_reply_to, Some(3));
}

#[test]
fn counter_convergence_scenario() {
    // Two add{3} at n0 and one add{4} at n1, replication delivered:
    // both nodes read 10.
    let cs0 = cluster("n0", &["n0", "n1"]);
    let cs1 = cluster("n1", &["n0", "n1"]);
    let mut t0: Timers<()> = Timers::new();
    let mut t1: Timers<()> = Timers::new();
    let mut s0 = <GCounterServer as Server<()>>::init(&cs0, &mut t0, 0).expect("init");
    let mut s1 = <GCounterServer as Server<()>>::init(&cs1, &mut t1, 0).expect("init");
    let mut io0 = IO::new(String::from("n0"));
    let mut io1 = IO::new(String::from("n1"));

    let mut deliver_adds = |s: &mut GCounterServer,
                            io: &mut IO,
                            cs: &ClusterState,
                            src: &str,
                            delta: u64,
                            id: u64| {
        let input = msg(src, cs.node_id.as_str(), Some(id), None, Payload::Add { delta });
        s.handle(cs, io, &input, 0).expect("add");
        io.take_outbox()
    };
    let out_a = deliver_adds(&mut s0, &mut io0, &cs0, "c1", 3, 1);
    let out_b = deliver_adds(&mut s0, &mut io0, &cs0, "c2", 3, 2);
    let out_c = deliver_adds(&mut s1, &mut io1, &cs1, "c3", 4, 1);

    // Route every replicate envelope to its peer.
    for m in out_a.iter().chain(out_b.iter()) {
        if let Payload::Replicate { .. } = m.body.payload {
            assert_eq!(m.dst, "n1");
            s1.handle(&cs1, &mut io1, m, 0).expect("replicate");
        }
    }
    for m in out_c.iter() {
        if let Payload::Replicate { .. } = m.body.payload {
            assert_eq!(m.dst, "n0");
            s0.handle(&cs0, &mut io0, m, 0).expect("replicate");
        }
    }
    let _ = io0.take_outbox();
    let _ = io1.take_outbox();

    for (s, io, cs) in [(&mut s0, &mut io0, &cs0), (&mut s1, &mut io1, &cs1)] {
        let read = msg("c9", cs.node_id.as_str(), Some(7), None, Payload::Read);
        s.handle(cs, io, &read, 0).expect("read");
        let out = io.take_outbox();
        match &out[out.len() - 1].body.payload {
            Payload::ReadOk { value, .. } => assert_eq!(*value, Some(10)),
            _ => panic!("expected read_ok"),
        }
    }
}

#[test]
fn gcounter_tracks_origins() {
    let mut g = GCounter::new();
    g.increment(String::from("a"), 2).expect("inc");
    g.increment(String::from("b"), 3).expect("inc");
    g.increment(String::from("a"), 5).expect("inc");
    assert_eq!(g.value().expect("value"), 10);
    assert!(g.increment(String::from("a"), u64::MAX).is_err());
    assert_eq!(g.value().expect("value"), 10);
}

#[test]
fn broadcast_convergence_scenario() {
    // Three nodes under the two-root tree: n0 and n1 are co-roots and
    // n2 hangs under n0.  A value reaching n2 arrives everywhere after
    // one gossip tick per hop.
    let names = ["n0", "n1", "n2"];
    let mut servers: Vec<BatchServer> = Vec::new();
    let mut ios: Vec<IO> = Vec::new();
    let mut clusters: Vec<ClusterState> = Vec::new();
    for me in names {
        let cs = cluster(me, &names);
        let mut t: Timers<gossip_glomers::workloads::broadcast::Timer> = Timers::new();
        servers.push(<BatchServer as Server<_>>::init(&cs, &mut t, 0).expect("init"));
        ios.push(IO::new(String::from(me)));
        clusters.push(cs);
    }
    assert_eq!(servers[2].neighbours, vec![String::from("n0")]);

    let b = msg("c1", "n2", Some(1), None, Payload::Broadcast { message: Some(7), batch: None });
    servers[2].handle(&clusters[2], &mut ios[2], &b).expect("broadcast");
    let _ = ios[2].take_outbox();

    // One gossip tick per hop, routing each batch to its destination.
    for _hop in 0..2 {
        for i in 0..3 {
            servers[i].gossip_tick(&mut ios[i], 250).expect("tick");
        }
        let mut moved: Vec<(usize, Message)> = Vec::new();
        for i in 0..3 {
            for m in ios[i].take_outbox() {
                if let Payload::Broadcast { .. } = m.body.payload {
                    let to = names.iter().position(|n| *n == m.dst).expect("dest");
                    moved.push((to, m));
                }
            }
        }
        for (to, m) in moved {
            servers[to].handle(&clusters[to], &mut ios[to], &m).expect("deliver");
        }
    }

    for i in 0..3 {
        let read = msg("c9", names[i], Some(9), None, Payload::Read);
        servers[i].handle(&clusters[i], &mut ios[i], &read).expect("read");
        let out = ios[i].take_outbox();
        match &out[out.len() - 1].body.payload {
            Payload::ReadOk { messages, .. } => {
                assert!(messages.as_ref().expect("messages").contains(&7));
            },
            _ => panic!("expected read_ok"),
        }
    }
}

#[test]
fn tree_gossip_reaches_at_most_five_peers() {
    let names = ["n0", "n1", "n2", "n3", "n4", "n5", "n6"];
    let cs = cluster("n0", &names);
    let mut t: Timers<gossip_glomers::workloads::broadcast::Timer> = Timers::new();
    let mut server = <TreeServer as Server<_>>::init(&cs, &mut t, 0).expect("init");
    let mut io = IO::new(String::from("n0"));
    let b = msg("c1", "n0", Some(1), None, Payload::Broadcast { message: Some(3), batch: None });
    server.handle(&cs, &mut io, &b, 0).expect("broadcast");
    let _ = io.take_outbox();
    server.gossip_tick(&cs, &mut io).expect("tick");
    let out = io.take_outbox();
    assert_eq!(out.len(), 5);
    for m in &out {
        assert!(names.iter().any(|n| *n == m.dst));
        match &m.body.payload {
            Payload::Gossip { messages } => assert_eq!(messages, &vec![3]),
            _ => panic!("expected gossip"),
        }
    }
}

#[test]
fn kafka_single_scenario() {
    let cs = cluster("n1", &["n1"]);
    let mut t: Timers<()> = Timers::new();
    let mut server = <KafkaServer as Server<()>>::init(&cs, &mut t, 0).expect("init");
    let mut io = IO::new(String::from("n1"));

    for (i, v) in [11u64, 22, 33].iter().enumerate() {
        let input = msg(
            "c1",
            "n1",
            Some(i as u64 + 1),
            None,
            Payload::Send { key: String::from("k1"), msg: *v, forwarded_for: None },
        );
        server.handle(&mut io, &input).expect("send");
        let out = io.take_outbox();
        match &out[0].body.payload {
            Payload::SendOk { offset, .. } => assert_eq!(*offset, i as u64),
            _ => panic!("expected send_ok"),
        }
    }

    let poll = msg(
        "c1",
        "n1",
        Some(9),
        None,
        Payload::Poll { offsets: vec![(String::from("k1"), 1)] },
    );
    server.handle(&mut io, &poll).expect("poll");
    let out = io.take_outbox();
    match &out[0].body.payload {
        Payload::PollOk { msgs } => {
            assert_eq!(msgs.len(), 1);
            assert_eq!(msgs[0].0, "k1");
            assert_eq!(msgs[0].1, vec![(1, 22), (2, 33)]);
        },
        _ => panic!("expected poll_ok"),
    }

    let commit = msg(
        "c1",
        "n1",
        Some(10),
        None,
        Payload::CommitOffsets { offsets: vec![(String::from("k1"), 2)] },
    );
    server.handle(&mut io, &commit).expect("commit");
    let _ = io.take_outbox();
    let list = msg(
        "c1",
        "n1",
        Some(11),
        None,
        Payload::ListCommittedOffsets { keys: vec![String::from("k1"), String::from("k2")] },
    );
    server.handle(&mut io, &list).expect("list");
    let out = io.take_outbox();
    match &out[0].body.payload {
        Payload::ListCommittedOffsetsOk { offsets } => {
            assert_eq!(offsets, &vec![(String::from("k1"), 2)]);
        },
        _ => panic!("expected listing"),
    }
}
