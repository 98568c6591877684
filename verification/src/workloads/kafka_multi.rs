//! The replicated partitioned-log workload: keys are partitioned by
//! number across the cluster, writes are forwarded to the key's
//! leader, and replicas pull the leaders' logs on a timer.

use vstd::prelude::*;

use crate::assoc::{assoc_get, assoc_has, assoc_unique, lemma_assoc_get_absent, lemma_assoc_get_at};
use crate::io::{envelope, request_msgs, ClusterState, Request, IO};
use crate::proto::{kv_view, strs_view, Message, Payload, PayloadV};
use crate::text::{dec_value, is_dec_text, parse_u64};
use crate::timer::Timers;
use crate::node::Server;
use crate::workloads::broadcast_tree::{name_of, node_name};
use crate::workloads::kafka_single::{
    assoc_put, commit_max, lemma_assoc_log_push, lemma_assoc_log_update, lemma_assoc_put_is_push,
    lemma_assoc_put_is_update, list_committed, logs_view, merged_offset, poll_msgs, read_slice,
};
use crate::Error;

verus! {

/// The replica-poll timer tag.
#[derive(Clone, Copy)]
pub enum Timer {
    ReplicaPoll,
}

/// One per-key log, as in the single-node workload but polled in
/// slices of fifty.
pub struct Log {
    pub records: Vec<(u64, u64)>,
}

impl Log {
    /// An empty log.
    pub fn new() -> (r: Log)
        ensures
            r.records@ == Seq::<(u64, u64)>::empty(),
    {
        Log { records: Vec::new() }
    }

    /// Append one value; its offset is the count of records before it.
    pub fn append(&mut self, message: u64) -> (offset: u64)
        requires
            old(self).records@.len() < u64::MAX,
        ensures
            offset == old(self).records@.len(),
            final(self).records@ == old(self).records@.push((offset, message)),
    {
        let offset = self.records.len() as u64;
        self.records.push((offset, message));
        offset
    }

    /// Append records pulled from a leader, as they came.
    pub fn append_records(&mut self, records: &Vec<(u64, u64)>)
        ensures
            final(self).records@ == old(self).records@ + records@,
    {
        let mut i: usize = 0;
        while i < records.len()
            invariant
                0 <= i <= records@.len(),
                self.records@ == old(self).records@ + records@.subrange(0, i as int),
            decreases records@.len() - i,
        {
            self.records.push(records[i]);
            proof {
                assert(self.records@ =~= old(self).records@ + records@.subrange(0, i + 1));
            }
            i = i + 1;
        }
        proof {
            assert(records@.subrange(0, records@.len() as int) =~= records@);
        }
    }

    /// Up to fifty records starting at `offset`.
    pub fn read_from(&self, offset: u64) -> (r: Vec<(u64, u64)>)
        ensures
            r@ == read_slice(self.records@, offset, 50),
    {
        let len = self.records.len();
        let mut lo: usize = len;
        if offset < len as u64 {
            lo = offset as usize;
        }
        let mut hi: usize = len;
        if len - lo > 50 {
            hi = lo + 50;
        }
        let mut out: Vec<(u64, u64)> = Vec::new();
        let mut i: usize = lo;
        while i < hi
            invariant
                lo <= i <= hi <= self.records@.len(),
                out@ == self.records@.subrange(lo as int, i as int),
            decreases hi - i,
        {
            out.push(self.records[i]);
            proof {
                assert(out@ =~= self.records@.subrange(lo as int, i + 1));
            }
            i = i + 1;
        }
        proof {
            assert(out@ =~= read_slice(self.records@, offset, 50));
        }
        out
    }

    /// The offset of the last record, or zero when the log is empty.
    pub fn current_offset(&self) -> (r: u64)
        ensures
            r == if self.records@.len() > 0 {
                self.records@.last().0
            } else {
                0
            },
    {
        if self.records.len() > 0 {
            self.records[self.records.len() - 1].0
        } else {
            0
        }
    }
}

/// The shapes of the per-key logs, in order.
pub open spec fn mlogs_view(s: Seq<(String, Log)>) -> Seq<(Seq<char>, Seq<(u64, u64)>)> {
    Seq::new(s.len(), |i: int| (s[i].0@, s[i].1.records@))
}

/// Whether `key` is numeric and fits a machine word.
pub open spec fn numeric_key(key: Seq<char>) -> bool {
    is_dec_text(key) && dec_value(key) <= u64::MAX
}

/// The leader of a numeric key among `n` nodes: its value modulo `n`.
pub open spec fn leader_of(key: Seq<char>, n: int) -> int {
    dec_value(key) as int % n
}

/// What a replica poll answers: for each log this node leads, in store
/// order, the slice from the offset the replica asked for (zero when
/// it asked for none).
pub open spec fn replica_msgs(
    logs: Seq<(Seq<char>, Seq<(u64, u64)>)>,
    offsets: Seq<(Seq<char>, u64)>,
    my_id: int,
    n: int,
) -> Seq<(Seq<char>, Seq<(u64, u64)>)>
    decreases logs.len(),
{
    if logs.len() == 0 {
        Seq::empty()
    } else {
        (if numeric_key(logs[0].0) && leader_of(logs[0].0, n) == my_id {
            let off = match assoc_get(offsets, logs[0].0) {
                Option::Some(o) => o,
                Option::None => 0,
            };
            seq![(logs[0].0, read_slice(logs[0].1, off, 50))]
        } else {
            Seq::empty()
        }) + replica_msgs(logs.drop_first(), offsets, my_id, n)
    }
}

/// The logs with `key` bound to `recs`: rebinding in place, or
/// appended when fresh.
pub open spec fn logs_put(
    logs: Seq<(Seq<char>, Seq<(u64, u64)>)>,
    key: Seq<char>,
    recs: Seq<(u64, u64)>,
) -> Seq<(Seq<char>, Seq<(u64, u64)>)>
    decreases logs.len(),
{
    if logs.len() == 0 {
        seq![(key, recs)]
    } else if logs[0].0 == key {
        seq![(key, recs)] + logs.drop_first()
    } else {
        seq![logs[0]] + logs_put(logs.drop_first(), key, recs)
    }
}

/// When `key` is bound at `i`, `logs_put` is an update in place.
proof fn lemma_logs_put_is_update(
    s: Seq<(Seq<char>, Seq<(u64, u64)>)>,
    key: Seq<char>,
    v: Seq<(u64, u64)>,
    i: int,
)
    requires
        0 <= i < s.len(),
        s[i].0 == key,
        forall|k: int| 0 <= k < i ==> (#[trigger] s[k]).0 != key,
    ensures
        logs_put(s, key, v) == s.update(i, (key, v)),
    decreases i,
{
    if i == 0 {
        assert(logs_put(s, key, v) =~= s.update(0, (key, v)));
    } else {
        lemma_logs_put_is_update(s.drop_first(), key, v, i - 1);
        assert(s.drop_first()[i - 1] == s[i]);
        assert(logs_put(s, key, v) =~= s.update(i, (key, v)));
    }
}

/// When `key` is unbound, `logs_put` appends.
proof fn lemma_logs_put_is_push(
    s: Seq<(Seq<char>, Seq<(u64, u64)>)>,
    key: Seq<char>,
    v: Seq<(u64, u64)>,
)
    requires
        forall|k: int| 0 <= k < s.len() ==> (#[trigger] s[k]).0 != key,
    ensures
        logs_put(s, key, v) == s.push((key, v)),
    decreases s.len(),
{
    if s.len() == 0 {
        assert(logs_put(s, key, v) =~= s.push((key, v)));
    } else {
        lemma_logs_put_is_push(s.drop_first(), key, v);
        assert(logs_put(s, key, v) =~= s.push((key, v)));
    }
}

/// The logs after adopting a replica-poll reply: for each answered key
/// in reply order, the pulled records are appended to that key's log,
/// a fresh log when the key is new.
pub open spec fn apply_replica(
    logs: Seq<(Seq<char>, Seq<(u64, u64)>)>,
    msgs: Seq<(Seq<char>, Seq<(u64, u64)>)>,
) -> Seq<(Seq<char>, Seq<(u64, u64)>)>
    decreases msgs.len(),
{
    if msgs.len() == 0 {
        logs
    } else {
        let cur = match assoc_get(logs, msgs[0].0) {
            Option::Some(rs) => rs,
            Option::None => Seq::empty(),
        };
        apply_replica(logs_put(logs, msgs[0].0, cur + msgs[0].1), msgs.drop_first())
    }
}

/// The poll offsets one peer is asked for: every key that peer leads,
/// just past the last record this node holds for it (offset one for an
/// empty log, as the leader numbers from zero); a log already at the
/// last representable offset is left out.
pub open spec fn peer_offsets(
    logs: Seq<(Seq<char>, Seq<(u64, u64)>)>,
    peer: Seq<char>,
    my_id: int,
    n: int,
) -> Seq<(Seq<char>, u64)>
    decreases logs.len(),
{
    if logs.len() == 0 {
        Seq::empty()
    } else {
        let key = logs[0].0;
        let last = if logs[0].1.len() > 0 {
            logs[0].1.last().0
        } else {
            0
        };
        (if numeric_key(key) && n > 0 && leader_of(key, n) != my_id && name_of(
            leader_of(key, n),
        ) == peer && last < u64::MAX {
            seq![(key, (last + 1) as u64)]
        } else {
            Seq::empty()
        }) + peer_offsets(logs.drop_first(), peer, my_id, n)
    }
}

/// The envelopes one replica tick emits: one tracked poll per peer, in
/// cluster order, under consecutive fresh identifiers.
pub open spec fn tick_msgs(
    logs: Seq<(Seq<char>, Seq<(u64, u64)>)>,
    peers: Seq<Seq<char>>,
    my_id: int,
    n: int,
    src: Seq<char>,
    base: int,
) -> Seq<crate::proto::MessageV> {
    Seq::new(
        peers.len(),
        |i: int| envelope(
            src,
            peers[i],
            (base + i) as u64,
            Option::None,
            PayloadV::ReplicaPoll { offsets: peer_offsets(logs, peers[i], my_id, n) },
        ),
    )
}

/// The records one replica tick tracks: five-second timeouts, no retry.
pub open spec fn tick_recs(
    logs: Seq<(Seq<char>, Seq<(u64, u64)>)>,
    peers: Seq<Seq<char>>,
    my_id: int,
    n: int,
    base: int,
    now: u64,
) -> Seq<crate::io::RequestV> {
    Seq::new(
        peers.len(),
        |i: int| crate::io::RequestV {
            id: (base + i) as u64,
            dst: peers[i],
            payload: PayloadV::ReplicaPoll { offsets: peer_offsets(logs, peers[i], my_id, n) },
            timeout: 5000,
            issued_at: now,
            retry: false,
        },
    )
}

/// The replicated partitioned-log handler.
pub struct KafkaServer {
    pub logs: Vec<(String, Log)>,
    pub offset_store: Vec<(String, u64)>,
    pub my_id: u64,
}

impl KafkaServer {
    /// Keys are unique in both stores.
    pub open spec fn wf(self) -> bool {
        &&& assoc_unique(mlogs_view(self.logs@))
        &&& assoc_unique(kv_view(self.offset_store@))
    }

    /// Bind `key` to the larger of its stored offset and `v`.
    #[verifier::loop_isolation(false)]
    fn commit_one(&mut self, key: &String, v: u64)
        requires
            assoc_unique(kv_view(old(self).offset_store@)),
        ensures
            assoc_unique(kv_view(final(self).offset_store@)),
            kv_view(final(self).offset_store@) == assoc_put(
                kv_view(old(self).offset_store@),
                key@,
                merged_offset(kv_view(old(self).offset_store@), key@, v),
            ),
            final(self).logs@ == old(self).logs@,
            final(self).my_id == old(self).my_id,
    {
        let ghost sv = kv_view(self.offset_store@);
        match crate::assoc::assoc_find(&self.offset_store, key.as_str()) {
            Option::Some(i) => {
                proof {
                    lemma_assoc_get_at(sv, key@, i as int);
                }
                let cur = self.offset_store[i].1;
                let nv = if v > cur {
                    v
                } else {
                    cur
                };
                let k2 = self.offset_store[i].0.clone();
                self.offset_store.set(i, (k2, nv));
                proof {
                    assert(kv_view(self.offset_store@) =~= sv.update(
                        i as int,
                        (sv[i as int].0, nv),
                    ));
                    crate::assoc::lemma_assoc_update(sv, i as int, nv);
                    lemma_assoc_put_is_update(sv, key@, nv, i as int);
                }
            },
            Option::None => {
                proof {
                    lemma_assoc_get_absent(sv, key@);
                }
                self.offset_store.push((key.clone(), v));
                proof {
                    assert(kv_view(self.offset_store@) =~= sv.push((key@, v)));
                    crate::assoc::lemma_assoc_push(sv, key@, v);
                    lemma_assoc_put_is_push(sv, key@, v);
                }
            },
        }
    }

    /// Answer a replica poll against the logs this node leads.
    #[verifier::loop_isolation(false)]
    fn replica_poll(&self, offsets: &Vec<(String, u64)>, n: u64) -> (r: Vec<(String, Vec<(u64, u64)>)>)
        requires
            n > 0,
        ensures
            crate::proto::recs_view(r@) == replica_msgs(
                mlogs_view(self.logs@),
                kv_view(offsets@),
                self.my_id as int,
                n as int,
            ),
    {
        let ghost lv = mlogs_view(self.logs@);
        let ghost ov = kv_view(offsets@);
        let mut out: Vec<(String, Vec<(u64, u64)>)> = Vec::new();
        proof {
            assert(lv.skip(0) =~= lv);
            assert(crate::proto::recs_view(out@) + replica_msgs(lv, ov, self.my_id as int, n as int)
                =~= replica_msgs(lv, ov, self.my_id as int, n as int));
        }
        let mut i: usize = 0;
        while i < self.logs.len()
            invariant
                0 <= i <= self.logs@.len(),
                crate::proto::recs_view(out@) + replica_msgs(
                    lv.skip(i as int),
                    ov,
                    self.my_id as int,
                    n as int,
                ) == replica_msgs(lv, ov, self.my_id as int, n as int),
            decreases self.logs@.len() - i,
        {
            proof {
                assert(lv.skip(i as int)[0] == lv[i as int]);
                assert(lv.skip(i as int).drop_first() =~= lv.skip(i + 1));
            }
            let own = match parse_u64(self.logs[i].0.as_str()) {
                Option::Some(k) => k % n == self.my_id,
                Option::None => false,
            };
            if own {
                let off: u64 = match crate::assoc::assoc_find(offsets, self.logs[i].0.as_str()) {
                    Option::Some(j) => {
                        proof {
                            lemma_assoc_get_at(ov, lv[i as int].0, j as int);
                        }
                        offsets[j].1
                    },
                    Option::None => {
                        proof {
                            lemma_assoc_get_absent(ov, lv[i as int].0);
                        }
                        0
                    },
                };
                let recs = self.logs[i].1.read_from(off);
                let ghost pre = out@;
                out.push((self.logs[i].0.clone(), recs));
                proof {
                    assert(crate::proto::recs_view(out@) =~= crate::proto::recs_view(pre).push(
                        (lv[i as int].0, read_slice(lv[i as int].1, off, 50)),
                    ));
                    assert(crate::proto::recs_view(out@) + replica_msgs(
                        lv.skip(i + 1),
                        ov,
                        self.my_id as int,
                        n as int,
                    ) =~= replica_msgs(lv, ov, self.my_id as int, n as int));
                }
            } else {
                proof {
                    assert(crate::proto::recs_view(out@) + replica_msgs(
                        lv.skip(i + 1),
                        ov,
                        self.my_id as int,
                        n as int,
                    ) =~= replica_msgs(lv, ov, self.my_id as int, n as int));
                }
            }
            i = i + 1;
        }
        proof {
            assert(lv.skip(lv.len() as int) =~= Seq::<(Seq<char>, Seq<(u64, u64)>)>::empty());
            assert(crate::proto::recs_view(out@) =~= crate::proto::recs_view(out@) + replica_msgs(
                lv.skip(lv.len() as int),
                ov,
                self.my_id as int,
                n as int,
            ));
        }
        out
    }
}

impl KafkaServer {
    /// One step of the replicated log protocol.
    ///
    /// A `send` for a key this node leads appends and answers the
    /// offset, carrying back any forwarding tuple; one for another
    /// leader is forwarded there with the origin recorded.  A
    /// forwarded `send_ok` still pending is relayed to its origin.
    /// `poll` and `list_committed_offsets` answer from local state;
    /// `commit_offsets` max-merges and replicates to the peers;
    /// `replica_poll` answers the led logs; `replica_poll_ok` appends
    /// the pulled records.  Late replies are discarded; the rest is
    /// fatal.
    #[verifier::loop_isolation(false)]
    #[verifier::rlimit(100)]
    #[verifier::spinoff_prover]
    pub fn handle(
        &mut self,
        cluster_state: &ClusterState,
        io: &mut IO,
        input: &Message,
        now_ms: u64,
    ) -> (r: Result<(), Error>)
        requires
            old(self).wf(),
            old(io).wf(),
        ensures
            final(self).wf(),
            final(io).wf(),
            final(io).node_id@ == old(io).node_id@,
            crate::io::history_extends(old(io).history@, final(io).history@),
            match input@.body.payload {
                PayloadV::Send { key, msg, forwarded_for } => {
                    let n = cluster_state.node_ids@.len() as int;
                    let logs0 = mlogs_view(old(self).logs@);
                    let recs0 = match assoc_get(logs0, key) {
                        Option::Some(rs) => rs,
                        Option::None => Seq::empty(),
                    };
                    &&& (r is Ok <==> n > 0 && numeric_key(key) && (if leader_of(key, n) == old(
                        self,
                    ).my_id {
                        recs0.len() < u64::MAX && old(io).seq < u64::MAX
                    } else {
                        input@.body.id is Some && old(io).seq < u64::MAX
                    }))
                    &&& r is Ok ==> if leader_of(key, n) == old(self).my_id {
                        &&& assoc_get(mlogs_view(final(self).logs@), key) == Option::Some(
                            recs0.push((recs0.len() as u64, msg)),
                        )
                        &&& final(io).history@ == old(io).history@.push(
                            envelope(
                                old(io).node_id@,
                                input@.src,
                                old(io).seq,
                                input@.body.id,
                                PayloadV::SendOk { offset: recs0.len() as u64, forwarded_for },
                            ),
                        )
                    } else {
                        &&& *final(self) == *old(self)
                        &&& final(io).history@ == old(io).history@.push(
                            envelope(
                                old(io).node_id@,
                                name_of(leader_of(key, n)),
                                old(io).seq,
                                Option::None,
                                PayloadV::Send {
                                    key,
                                    msg,
                                    forwarded_for: Option::Some(
                                        (input@.src, input@.body.id->Some_0),
                                    ),
                                },
                            ),
                        )
                        &&& final(io).pending_view() == old(io).pending_view().push(
                            crate::io::RequestV {
                                id: old(io).seq,
                                dst: name_of(leader_of(key, n)),
                                payload: PayloadV::Send {
                                    key,
                                    msg,
                                    forwarded_for: Option::Some(
                                        (input@.src, input@.body.id->Some_0),
                                    ),
                                },
                                timeout: 250,
                                issued_at: now_ms,
                                retry: true,
                            },
                        )
                    }
                },
                PayloadV::SendOk { offset, forwarded_for } => {
                    &&& (r is Ok <==> !(input@.body.in_reply_to is Some && crate::io::has_pending(
                        old(io).pending_view(),
                        input@.body.in_reply_to->Some_0,
                    )) || (forwarded_for is Some && old(io).seq < u64::MAX))
                    &&& r is Ok ==> if input@.body.in_reply_to is Some && crate::io::has_pending(
                        old(io).pending_view(),
                        input@.body.in_reply_to->Some_0,
                    ) {
                        &&& forwarded_for is Some
                        &&& final(io).history@ == old(io).history@.push(
                            envelope(
                                old(io).node_id@,
                                forwarded_for->Some_0.0,
                                old(io).seq,
                                Option::Some(forwarded_for->Some_0.1),
                                PayloadV::SendOk { offset, forwarded_for: Option::None },
                            ),
                        )
                        &&& final(io).pending_view() == crate::io::mark_completed_spec(
                            old(io).pending_view(),
                            input@.body.in_reply_to,
                        )
                    } else {
                        *final(self) == *old(self) && *final(io) == *old(io)
                    }
                },
                PayloadV::Poll { offsets } => (r is Ok <==> old(io).seq < u64::MAX) && (r is Ok
                    ==> *final(self) == *old(self) && final(io).history@ == old(io).history@.push(
                    envelope(
                        old(io).node_id@,
                        input@.src,
                        old(io).seq,
                        input@.body.id,
                        PayloadV::PollOk {
                            msgs: poll_msgs(mlogs_view(old(self).logs@), offsets, 50),
                        },
                    ),
                )),
                PayloadV::CommitOffsets { offsets } => {
                    let peers = crate::assoc::peers_except(
                        strs_view(cluster_state.node_ids@),
                        cluster_state.node_id@,
                        Option::Some(input@.src),
                    );
                    &&& (r is Ok <==> old(io).seq + peers.len() + 1 <= u64::MAX)
                    &&& r is Ok ==> {
                    &&& final(io).pending_view() == old(io).pending_view()
                        + crate::io::request_recs(
                        peers,
                        old(io).seq as int,
                        PayloadV::CommitOffsets { offsets },
                        250,
                        now_ms,
                        true,
                    )
                    &&& kv_view(final(self).offset_store@) == commit_max(
                        kv_view(old(self).offset_store@),
                        offsets,
                    )
                    &&& final(io).history@ == old(io).history@ + request_msgs(
                        peers,
                        old(io).node_id@,
                        old(io).seq as int,
                        PayloadV::CommitOffsets { offsets },
                    ).push(
                        envelope(
                            old(io).node_id@,
                            input@.src,
                            (old(io).seq + peers.len()) as u64,
                            input@.body.id,
                            PayloadV::CommitOffsetsOk,
                        ),
                    )
                    }
                },
                PayloadV::CommitOffsetsOk => r is Ok && *final(self) == *old(self) && final(io).history@
                    == old(io).history@ && final(io).pending_view() == crate::io::mark_completed_spec(
                    old(io).pending_view(),
                    input@.body.in_reply_to,
                ),
                PayloadV::ListCommittedOffsets { keys } => (r is Ok <==> old(io).seq < u64::MAX)
                    && (r is Ok ==> *final(self) == *old(self) && final(io).history@ == old(
                    io,
                ).history@.push(
                    envelope(
                        old(io).node_id@,
                        input@.src,
                        old(io).seq,
                        input@.body.id,
                        PayloadV::ListCommittedOffsetsOk {
                            offsets: list_committed(kv_view(old(self).offset_store@), keys),
                        },
                    ),
                )),
                PayloadV::ReplicaPoll { offsets } => (r is Ok <==> cluster_state.node_ids@.len()
                    > 0 && old(io).seq < u64::MAX) && (r is Ok ==> *final(self) == *old(self)
                    && final(io).history@ == old(io).history@.push(
                    envelope(
                        old(io).node_id@,
                        input@.src,
                        old(io).seq,
                        input@.body.id,
                        PayloadV::ReplicaPollOk {
                            msgs: replica_msgs(
                                mlogs_view(old(self).logs@),
                                offsets,
                                old(self).my_id as int,
                                cluster_state.node_ids@.len() as int,
                            ),
                        },
                    ),
                )),
                PayloadV::ReplicaPollOk { msgs } => {
                    &&& r is Ok
                    &&& if input@.body.in_reply_to is Some && crate::io::has_pending(
                        old(io).pending_view(),
                        input@.body.in_reply_to->Some_0,
                    ) {
                        &&& mlogs_view(final(self).logs@) == apply_replica(
                            mlogs_view(old(self).logs@),
                            msgs,
                        )
                        &&& final(self).offset_store@ == old(self).offset_store@
                        &&& final(self).my_id == old(self).my_id
                        &&& final(io).history@ == old(io).history@
                        &&& final(io).pending_view() == crate::io::mark_completed_spec(
                            old(io).pending_view(),
                            input@.body.in_reply_to,
                        )
                    } else {
                        *final(self) == *old(self) && *final(io) == *old(io)
                    }
                },
                _ => {
                    &&& (r is Ok <==> input@.body.in_reply_to is Some && !crate::io::has_pending(
                        old(io).pending_view(),
                        input@.body.in_reply_to->Some_0,
                    ))
                    &&& *final(self) == *old(self)
                    &&& *final(io) == *old(io)
                },
            },
    {
        match &input.body.payload {
            Payload::Send { key, msg, forwarded_for } => {
                let n = cluster_state.node_ids.len() as u64;
                if n == 0 {
                    return Result::Err(Error::UnexpectedMessage);
                }
                let Option::Some(int_key) = parse_u64(key.as_str()) else {
                    return Result::Err(Error::Decode);
                };
                let leader = int_key % n;
                if leader == self.my_id {
                    let ghost logs0 = mlogs_view(self.logs@);
                    let offset: u64;
                    match crate::assoc::assoc_find(&self.logs, key.as_str()) {
                        Option::Some(j) => {
                            proof {
                                lemma_assoc_get_at(logs0, key@, j as int);
                            }
                            if self.logs[j].1.records.len() as u64 == u64::MAX {
                                return Result::Err(Error::Overflow);
                            }
                            let k2 = self.logs[j].0.clone();
                            let mut entry = (k2, Log::new());
                            self.logs.set_and_swap(j, &mut entry);
                            let mut log = entry.1;
                            offset = log.append(*msg);
                            let k3 = self.logs[j].0.clone();
                            self.logs.set(j, (k3, log));
                            proof {
                                let ghost rec = (offset, input@.body.payload->Send_msg);
                                assert(mlogs_view(self.logs@) =~= logs0.update(
                                    j as int,
                                    (logs0[j as int].0, logs0[j as int].1.push(rec)),
                                ));
                                lemma_assoc_log_update(
                                    logs0,
                                    j as int,
                                    logs0[j as int].1.push(rec),
                                );
                            }
                        },
                        Option::None => {
                            proof {
                                lemma_assoc_get_absent(logs0, key@);
                            }
                            let mut log = Log::new();
                            offset = log.append(*msg);
                            self.logs.push((key.clone(), log));
                            proof {
                                let ghost rec = (0u64, input@.body.payload->Send_msg);
                                assert(mlogs_view(self.logs@) =~= logs0.push((key@, seq![rec])));
                                lemma_assoc_log_push(logs0, key@, seq![rec]);
                                assert(Seq::<(u64, u64)>::empty().push(rec) =~= seq![rec]);
                            }
                        },
                    }
                    let fwd = crate::proto::copy_forward(forwarded_for);
                    let send_ok = Payload::SendOk { offset, forwarded_for: fwd };
                    io.rpc_reply_to(input, &send_ok)?;
                    Result::Ok(())
                } else {
                    let Option::Some(origin_id) = input.body.id else {
                        return Result::Err(Error::UnexpectedMessage);
                    };
                    let send = Payload::Send {
                        key: key.clone(),
                        msg: *msg,
                        forwarded_for: Option::Some((input.src.clone(), origin_id)),
                    };
                    let dst = node_name(leader);
                    io.rpc_request_with_retry(dst.as_str(), &send, 250, now_ms)?;
                    Result::Ok(())
                }
            },
            Payload::SendOk { offset, forwarded_for } => {
                if !io.rpc_still_pending(input) {
                    return Result::Ok(());
                }
                let Option::Some(f) = forwarded_for else {
                    return Result::Err(Error::UnexpectedMessage);
                };
                let send_ok = Payload::SendOk { offset: *offset, forwarded_for: Option::None };
                io.send(f.0.as_str(), Option::Some(f.1), &send_ok)?;
                io.rpc_mark_completed(input);
                Result::Ok(())
            },
            Payload::Poll { offsets } => {
                let msgs = self.poll50(offsets);
                let poll_ok = Payload::PollOk { msgs };
                io.rpc_reply_to(input, &poll_ok)?;
                Result::Ok(())
            },
            Payload::CommitOffsets { offsets } => {
                let ghost ov = kv_view(offsets@);
                proof {
                    assert(ov.skip(0) =~= ov);
                }
                let mut i: usize = 0;
                while i < offsets.len()
                    invariant
                        0 <= i <= offsets@.len(),
                        assoc_unique(kv_view(self.offset_store@)),
                        commit_max(kv_view(self.offset_store@), ov.skip(i as int)) == commit_max(
                            kv_view(old(self).offset_store@),
                            ov,
                        ),
                        self.logs@ == old(self).logs@,
                        self.my_id == old(self).my_id,
                    decreases offsets@.len() - i,
                {
                    proof {
                        assert(ov.skip(i as int)[0] == ov[i as int]);
                        assert(ov.skip(i as int).drop_first() =~= ov.skip(i + 1));
                    }
                    self.commit_one(&offsets[i].0, offsets[i].1);
                    i = i + 1;
                }
                proof {
                    assert(ov.skip(ov.len() as int) =~= Seq::<(Seq<char>, u64)>::empty());
                }
                let peers = crate::assoc::filter_peers(
                    &cluster_state.node_ids,
                    cluster_state.node_id.as_str(),
                    Option::Some(input.src.as_str()),
                );
                let commit = Payload::CommitOffsets {
                    offsets: crate::proto::copy_offsets(offsets),
                };
                io.rpc_request_all(&peers, &commit, 250, true, now_ms)?;
                let ok = Payload::CommitOffsetsOk;
                io.rpc_reply_to(input, &ok)?;
                Result::Ok(())
            },
            Payload::CommitOffsetsOk => {
                if io.rpc_still_pending(input) {
                    io.rpc_mark_completed(input);
                } else {
                    proof {
                        crate::io::lemma_mark_completed_noop(
                            io.pending_view(),
                            input@.body.in_reply_to,
                        );
                    }
                }
                Result::Ok(())
            },
            Payload::ListCommittedOffsets { keys } => {
                let offsets = self.list50(keys);
                let ok = Payload::ListCommittedOffsetsOk { offsets };
                io.rpc_reply_to(input, &ok)?;
                Result::Ok(())
            },
            Payload::ReplicaPoll { offsets } => {
                let n = cluster_state.node_ids.len() as u64;
                if n == 0 {
                    return Result::Err(Error::UnexpectedMessage);
                }
                let msgs = self.replica_poll(offsets, n);
                let ok = Payload::ReplicaPollOk { msgs };
                io.rpc_reply_to(input, &ok)?;
                Result::Ok(())
            },
            Payload::ReplicaPollOk { msgs } => {
                if !io.rpc_still_pending(input) {
                    return Result::Ok(());
                }
                let ghost mv = crate::proto::recs_view(msgs@);
                let ghost base_logs = mlogs_view(self.logs@);
                proof {
                    assert(mv.skip(0) =~= mv);
                }
                let mut i: usize = 0;
                while i < msgs.len()
                    invariant
                        0 <= i <= msgs@.len(),
                        assoc_unique(mlogs_view(self.logs@)),
                        self.offset_store@ == old(self).offset_store@,
                        self.my_id == old(self).my_id,
                        apply_replica(mlogs_view(self.logs@), mv.skip(i as int)) == apply_replica(
                            base_logs,
                            mv,
                        ),
                    decreases msgs@.len() - i,
                {
                    proof {
                        assert(mv.skip(i as int)[0] == mv[i as int]);
                        assert(mv.skip(i as int).drop_first() =~= mv.skip(i + 1));
                    }
                    let ghost logs0 = mlogs_view(self.logs@);
                    match crate::assoc::assoc_find(&self.logs, msgs[i].0.as_str()) {
                        Option::Some(j) => {
                            proof {
                                lemma_assoc_get_at(logs0, mv[i as int].0, j as int);
                            }
                            let k2 = self.logs[j].0.clone();
                            let mut entry = (k2, Log::new());
                            self.logs.set_and_swap(j, &mut entry);
                            let mut log = entry.1;
                            log.append_records(&msgs[i].1);
                            let k3 = self.logs[j].0.clone();
                            self.logs.set(j, (k3, log));
                            proof {
                                assert(mlogs_view(self.logs@) =~= logs0.update(
                                    j as int,
                                    (logs0[j as int].0, logs0[j as int].1 + mv[i as int].1),
                                ));
                                lemma_assoc_log_update(
                                    logs0,
                                    j as int,
                                    logs0[j as int].1 + mv[i as int].1,
                                );
                                lemma_logs_put_is_update(
                                    logs0,
                                    mv[i as int].0,
                                    logs0[j as int].1 + mv[i as int].1,
                                    j as int,
                                );
                            }
                        },
                        Option::None => {
                            proof {
                                lemma_assoc_get_absent(logs0, mv[i as int].0);
                            }
                            let mut log = Log::new();
                            log.append_records(&msgs[i].1);
                            self.logs.push((msgs[i].0.clone(), log));
                            proof {
                                assert(Seq::<(u64, u64)>::empty() + mv[i as int].1 =~= mv[
                                    i as int].1);
                                assert(mlogs_view(self.logs@) =~= logs0.push(
                                    (mv[i as int].0, Seq::<(u64, u64)>::empty() + mv[i as int].1),
                                ));
                                assert(!assoc_has(logs0, mv[i as int].0)) by {
                                    if assoc_has(logs0, mv[i as int].0) {
                                        let w = choose|w: int|
                                            0 <= w < logs0.len() && logs0[w].0 == mv[i as int].0;
                                    }
                                }
                                lemma_assoc_log_push(
                                    logs0,
                                    mv[i as int].0,
                                    Seq::<(u64, u64)>::empty() + mv[i as int].1,
                                );
                                lemma_logs_put_is_push(
                                    logs0,
                                    mv[i as int].0,
                                    Seq::<(u64, u64)>::empty() + mv[i as int].1,
                                );
                            }
                        },
                    }
                    i = i + 1;
                }
                proof {
                    assert(mv.skip(mv.len() as int) =~= Seq::<(Seq<char>, Seq<(u64, u64)>)>::empty());
                }
                io.rpc_mark_completed(input);
                Result::Ok(())
            },
            _ => {
                if input.body.in_reply_to.is_some() && !io.rpc_still_pending(input) {
                    Result::Ok(())
                } else {
                    Result::Err(Error::UnexpectedMessage)
                }
            },
        }
    }

    /// Answer one poll request against the logs, fifty records a key.
    #[verifier::loop_isolation(false)]
    fn poll50(&self, offsets: &Vec<(String, u64)>) -> (r: Vec<(String, Vec<(u64, u64)>)>)
        ensures
            crate::proto::recs_view(r@) == poll_msgs(mlogs_view(self.logs@), kv_view(offsets@), 50),
    {
        let ghost lv = mlogs_view(self.logs@);
        let ghost ov = kv_view(offsets@);
        let mut out: Vec<(String, Vec<(u64, u64)>)> = Vec::new();
        let mut i: usize = 0;
        while i < offsets.len()
            invariant
                0 <= i <= offsets@.len(),
                out@.len() == i,
                forall|k: int|
                    0 <= k < i ==> #[trigger] crate::proto::recs_view(out@)[k] == poll_msgs(
                        lv,
                        ov,
                        50,
                    )[k],
            decreases offsets@.len() - i,
        {
            let recs: Vec<(u64, u64)> = match crate::assoc::assoc_find(&self.logs, offsets[i].0.as_str()) {
                Option::Some(j) => {
                    proof {
                        lemma_assoc_get_at(lv, ov[i as int].0, j as int);
                    }
                    self.logs[j].1.read_from(offsets[i].1)
                },
                Option::None => {
                    proof {
                        lemma_assoc_get_absent(lv, ov[i as int].0);
                    }
                    Vec::new()
                },
            };
            let ghost pre = out@;
            out.push((offsets[i].0.clone(), recs));
            proof {
                assert forall|k: int| 0 <= k < i + 1 implies #[trigger] crate::proto::recs_view(
                    out@,
                )[k] == poll_msgs(lv, ov, 50)[k] by {
                    if k < i {
                        assert(out@[k] == pre[k]);
                        assert(crate::proto::recs_view(out@)[k] == crate::proto::recs_view(pre)[k]);
                    }
                }
            }
            i = i + 1;
        }
        proof {
            assert(crate::proto::recs_view(out@) =~= poll_msgs(lv, ov, 50));
        }
        out
    }

    /// Answer one committed-offsets listing.
    #[verifier::loop_isolation(false)]
    fn list50(&self, keys: &Vec<String>) -> (r: Vec<(String, u64)>)
        ensures
            kv_view(r@) == list_committed(kv_view(self.offset_store@), strs_view(keys@)),
    {
        let ghost sv = kv_view(self.offset_store@);
        let ghost kvs = strs_view(keys@);
        let mut out: Vec<(String, u64)> = Vec::new();
        proof {
            assert(kvs.skip(0) =~= kvs);
            assert(kv_view(out@) + list_committed(sv, kvs) =~= list_committed(sv, kvs));
        }
        let mut i: usize = 0;
        while i < keys.len()
            invariant
                0 <= i <= keys@.len(),
                kv_view(out@) + list_committed(sv, kvs.skip(i as int)) == list_committed(sv, kvs),
            decreases keys@.len() - i,
        {
            proof {
                assert(kvs.skip(i as int)[0] == kvs[i as int]);
                assert(kvs.skip(i as int).drop_first() =~= kvs.skip(i + 1));
            }
            match crate::assoc::assoc_find(&self.offset_store, keys[i].as_str()) {
                Option::Some(j) => {
                    proof {
                        lemma_assoc_get_at(sv, kvs[i as int], j as int);
                    }
                    out.push((keys[i].clone(), self.offset_store[j].1));
                    proof {
                        assert(kv_view(out@) + list_committed(sv, kvs.skip(i + 1)) =~= list_committed(
                            sv,
                            kvs,
                        ));
                    }
                },
                Option::None => {
                    proof {
                        lemma_assoc_get_absent(sv, kvs[i as int]);
                        assert(kv_view(out@) + list_committed(sv, kvs.skip(i + 1)) =~= list_committed(
                            sv,
                            kvs,
                        ));
                    }
                },
            }
            i = i + 1;
        }
        proof {
            assert(kvs.skip(kvs.len() as int) =~= Seq::<Seq<char>>::empty());
            assert(kv_view(out@) =~= kv_view(out@) + list_committed(sv, kvs.skip(kvs.len() as int)));
        }
        out
    }

    /// One replica-poll tick: to each peer in cluster order, one
    /// tracked request asking for the tail of every log that peer
    /// leads, from just past what this node already holds, with a
    /// five-second timeout and no retry.  Fails only when the
    /// identifier space cannot hold one request per peer, and then
    /// changes nothing.
    #[verifier::loop_isolation(false)]
    #[verifier::rlimit(100)]
    pub fn replica_tick(
        &mut self,
        cluster_state: &ClusterState,
        io: &mut IO,
        now_ms: u64,
    ) -> (r: Result<(), Error>)
        requires
            old(self).wf(),
            old(io).wf(),
        ensures
            final(self).wf(),
            final(io).wf(),
            final(io).node_id@ == old(io).node_id@,
            crate::io::history_extends(old(io).history@, final(io).history@),
            *final(self) == *old(self),
            r is Ok <==> old(io).seq + crate::assoc::peers_except(
                strs_view(cluster_state.node_ids@),
                cluster_state.node_id@,
                Option::None,
            ).len() <= u64::MAX,
            r is Err ==> *final(io) == *old(io),
            r is Ok ==> {
                let peers = crate::assoc::peers_except(
                    strs_view(cluster_state.node_ids@),
                    cluster_state.node_id@,
                    Option::None,
                );
                let lv = mlogs_view(old(self).logs@);
                let my = old(self).my_id as int;
                let n = cluster_state.node_ids@.len() as int;
                let base = old(io).seq as int;
                &&& final(io).seq == old(io).seq + peers.len()
                &&& final(io).history@ == old(io).history@ + tick_msgs(
                    lv,
                    peers,
                    my,
                    n,
                    old(io).node_id@,
                    base,
                )
                &&& final(io).pending_view() == old(io).pending_view() + tick_recs(
                    lv,
                    peers,
                    my,
                    n,
                    base,
                    now_ms,
                )
            },
    {
        let peers = crate::assoc::filter_peers(
            &cluster_state.node_ids,
            cluster_state.node_id.as_str(),
            Option::None,
        );
        let n_nodes = cluster_state.node_ids.len() as u64;
        if peers.len() as u64 > u64::MAX - io.seq {
            return Result::Err(Error::SeqExhausted);
        }
        let ghost pv = strs_view(peers@);
        let ghost lv = mlogs_view(self.logs@);
        let ghost my = self.my_id as int;
        let ghost nn = cluster_state.node_ids@.len() as int;
        let ghost src = io.node_id@;
        let ghost base = io.seq as int;
        let ghost hist0 = io.history@;
        let ghost pend0 = io.pending_view();
        let mut p: usize = 0;
        while p < peers.len()
            invariant
                0 <= p <= peers@.len(),
                *self == *old(self),
                io.wf(),
                io.node_id@ == old(io).node_id@,
                crate::io::history_extends(old(io).history@, io.history@),
                io.seq == base + p,
                io.history@ == hist0 + tick_msgs(lv, pv.subrange(0, p as int), my, nn, src, base),
                io.pending_view() == pend0 + tick_recs(
                    lv,
                    pv.subrange(0, p as int),
                    my,
                    nn,
                    base,
                    now_ms,
                ),
            decreases peers@.len() - p,
        {
            let peer = &peers[p];
            let ghost peer_v = pv[p as int];
            let mut offsets: Vec<(String, u64)> = Vec::new();
            proof {
                assert(lv.skip(0) =~= lv);
                assert(kv_view(offsets@) + peer_offsets(lv, peer_v, my, nn) =~= peer_offsets(
                    lv,
                    peer_v,
                    my,
                    nn,
                ));
            }
            let mut i: usize = 0;
            while i < self.logs.len()
                invariant
                    0 <= i <= self.logs@.len(),
                    *self == *old(self),
                    kv_view(offsets@) + peer_offsets(lv.skip(i as int), peer_v, my, nn)
                        == peer_offsets(lv, peer_v, my, nn),
                decreases self.logs@.len() - i,
            {
                proof {
                    assert(lv.skip(i as int)[0] == lv[i as int]);
                    assert(lv.skip(i as int).drop_first() =~= lv.skip(i + 1));
                }
                let owned_by_peer = match parse_u64(self.logs[i].0.as_str()) {
                    Option::Some(k) => {
                        if n_nodes > 0 && k % n_nodes != self.my_id {
                            let name = node_name(k % n_nodes);
                            crate::proto::str_eq(name.as_str(), peer.as_str())
                        } else {
                            false
                        }
                    },
                    Option::None => false,
                };
                let mut pushed = false;
                if owned_by_peer {
                    let cur = self.logs[i].1.current_offset();
                    if cur < u64::MAX {
                        offsets.push((self.logs[i].0.clone(), cur + 1));
                        pushed = true;
                    }
                }
                proof {
                    assert(kv_view(offsets@) + peer_offsets(lv.skip(i + 1), peer_v, my, nn)
                        =~= peer_offsets(lv, peer_v, my, nn));
                }
                i = i + 1;
            }
            proof {
                assert(lv.skip(lv.len() as int) =~= Seq::<(Seq<char>, Seq<(u64, u64)>)>::empty());
                assert(kv_view(offsets@) =~= kv_view(offsets@) + peer_offsets(
                    lv.skip(lv.len() as int),
                    peer_v,
                    my,
                    nn,
                ));
            }
            let request = Payload::ReplicaPoll { offsets };
            let res = io.rpc_request(peer.as_str(), &request, 5000, false, now_ms);
            proof {
                assert(res is Ok);
                assert(io.history@ =~= hist0 + tick_msgs(
                    lv,
                    pv.subrange(0, p + 1),
                    my,
                    nn,
                    src,
                    base,
                ));
                assert(io.pending_view() =~= pend0 + tick_recs(
                    lv,
                    pv.subrange(0, p + 1),
                    my,
                    nn,
                    base,
                    now_ms,
                ));
            }
            p = p + 1;
        }
        proof {
            assert(pv.subrange(0, pv.len() as int) =~= pv);
        }
        Result::Ok(())
    }
}

impl Server<Timer> for KafkaServer {
    open spec fn wf(&self) -> bool {
        KafkaServer::wf(*self)
    }

    fn init(cluster_state: &ClusterState, timers: &mut Timers<Timer>, now_ms: u64) -> (r: Result<
        Self,
        Error,
    >)
        ensures
            final(timers).regs@.len() == old(timers).regs@.len() + 1,
            forall|i: int|
                0 <= i < old(timers).regs@.len() ==> final(timers).regs@[i] == old(
                    timers,
                ).regs@[i],
            final(timers).regs@.last().timer is ReplicaPoll,
            final(timers).regs@.last().interval == 250,
            final(timers).regs@.last().last_fire == now_ms,
            final(timers).regs@.last().fires@ == Seq::<u64>::empty(),
            r is Ok <==> cluster_state.node_id@.len() >= 1 && is_dec_text(
                cluster_state.node_id@.skip(1),
            ) && dec_value(cluster_state.node_id@.skip(1)) <= u64::MAX,
            r is Ok ==> (r->Ok_0).my_id == dec_value(cluster_state.node_id@.skip(1)) && (
            r->Ok_0).logs@.len() == 0 && (r->Ok_0).offset_store@.len() == 0,
    {
        timers.register_timer(Timer::ReplicaPoll, 250, now_ms);
        let id_str = cluster_state.node_id.as_str();
        if id_str.unicode_len() < 1 {
            return Result::Err(Error::UnexpectedMessage);
        }
        let suffix = id_str.substring_char(1, id_str.unicode_len());
        proof {
            assert(suffix@ =~= cluster_state.node_id@.skip(1));
        }
        let Option::Some(my_id) = parse_u64(suffix) else {
            return Result::Err(Error::UnexpectedMessage);
        };
        let s = KafkaServer { logs: Vec::new(), offset_store: Vec::new(), my_id };
        proof {
            assert(mlogs_view(s.logs@) =~= Seq::<(Seq<char>, Seq<(u64, u64)>)>::empty());
            assert(kv_view(s.offset_store@) =~= Seq::<(Seq<char>, u64)>::empty());
        }
        Result::Ok(s)
    }

    fn on_message(
        &mut self,
        cluster_state: &ClusterState,
        io: &mut IO,
        input: Message,
        now_ms: u64,
    ) -> Result<(), Error> {
        let r = self.handle(cluster_state, io, &input, now_ms);
        proof {
            crate::io::lemma_history_extends(old(io).history@, io.history@);
        }
        r
    }

    fn on_timer(
        &mut self,
        cluster_state: &ClusterState,
        io: &mut IO,
        tag: Timer,
        now_ms: u64,
    ) -> Result<(), Error> {
        let r = self.replica_tick(cluster_state, io, now_ms);
        proof {
            crate::io::lemma_history_extends(old(io).history@, io.history@);
        }
        r
    }

    fn on_rpc_timeout(&mut self, cluster_state: &ClusterState, timeout: Request) -> Result<
        (),
        Error,
    > {
        Result::Err(Error::UnexpectedTimeout)
    }
}

} // verus!
