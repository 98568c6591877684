//! The single-node partitioned-log workload: per-key append-only logs,
//! polled in slices, with client-committed offsets.

use vstd::prelude::*;

use crate::assoc::{assoc_get, assoc_unique, lemma_assoc_get_absent, lemma_assoc_get_at,
    lemma_assoc_push, lemma_assoc_update};
use crate::io::{envelope, ClusterState, Request, IO};
use crate::proto::{kv_view, Message, Payload, PayloadV};
use crate::timer::Timers;
use crate::node::Server;
use crate::Error;

verus! {

/// One per-key log: records are `(offset, value)` pairs, the offset
/// being the record's position.
pub struct Log {
    pub records: Vec<(u64, u64)>,
}

/// The slice a poll answers: up to `limit` records starting at
/// `offset`, clamped to the log's end.
pub open spec fn read_slice(recs: Seq<(u64, u64)>, offset: u64, limit: int) -> Seq<(u64, u64)> {
    let lo = if offset as int <= recs.len() {
        offset as int
    } else {
        recs.len() as int
    };
    let hi = if offset + limit <= recs.len() {
        offset + limit
    } else {
        recs.len() as int
    };
    recs.subrange(lo, hi)
}

impl Log {
    /// An empty log.
    pub fn new() -> (r: Log)
        ensures
            r.records@ == Seq::<(u64, u64)>::empty(),
    {
        Log { records: Vec::new() }
    }

    /// Append one value; its offset is the count of records before it.
    pub fn append(&mut self, message: u64) -> (offset: u64)
        requires
            old(self).records@.len() < u64::MAX,
        ensures
            offset == old(self).records@.len(),
            final(self).records@ == old(self).records@.push((offset, message)),
    {
        let offset = self.records.len() as u64;
        self.records.push((offset, message));
        offset
    }

    /// Up to ten records starting at `offset`.
    pub fn read_from(&self, offset: u64) -> (r: Vec<(u64, u64)>)
        ensures
            r@ == read_slice(self.records@, offset, 10),
    {
        let len = self.records.len();
        let mut lo: usize = len;
        if offset < len as u64 {
            lo = offset as usize;
        }
        let mut hi: usize = len;
        if len - lo > 10 {
            hi = lo + 10;
        }
        let mut out: Vec<(u64, u64)> = Vec::new();
        let mut i: usize = lo;
        while i < hi
            invariant
                lo <= i <= hi <= self.records@.len(),
                out@ == self.records@.subrange(lo as int, i as int),
            decreases hi - i,
        {
            out.push(self.records[i]);
            proof {
                assert(out@ =~= self.records@.subrange(lo as int, i + 1));
            }
            i = i + 1;
        }
        proof {
            assert(out@ =~= read_slice(self.records@, offset, 10));
        }
        out
    }
}

/// The shapes of the per-key logs, in order.
pub open spec fn logs_view(s: Seq<(String, Log)>) -> Seq<(Seq<char>, Seq<(u64, u64)>)> {
    Seq::new(s.len(), |i: int| (s[i].0@, s[i].1.records@))
}

/// What a poll answers: for each requested key, in request order, the
/// slice of its log from the requested offset — empty for an unknown
/// key.
pub open spec fn poll_msgs(
    logs: Seq<(Seq<char>, Seq<(u64, u64)>)>,
    offsets: Seq<(Seq<char>, u64)>,
    limit: int,
) -> Seq<(Seq<char>, Seq<(u64, u64)>)> {
    Seq::new(
        offsets.len(),
        |i: int| (
            offsets[i].0,
            match assoc_get(logs, offsets[i].0) {
                Option::Some(recs) => read_slice(recs, offsets[i].1, limit),
                Option::None => Seq::empty(),
            },
        ),
    )
}

/// The larger of an offered offset and the stored one (absent counts
/// as zero).
pub open spec fn merged_offset(store: Seq<(Seq<char>, u64)>, key: Seq<char>, v: u64) -> u64 {
    let cur = match assoc_get(store, key) {
        Option::Some(c) => c,
        Option::None => 0,
    };
    if v > cur {
        v
    } else {
        cur
    }
}

/// The committed-offsets store after a max-merge commit: each offered
/// offset replaces the stored one only when larger.
pub open spec fn commit_max(
    store: Seq<(Seq<char>, u64)>,
    offsets: Seq<(Seq<char>, u64)>,
) -> Seq<(Seq<char>, u64)>
    decreases offsets.len(),
{
    if offsets.len() == 0 {
        store
    } else {
        commit_max(
            assoc_put(store, offsets[0].0, merged_offset(store, offsets[0].0, offsets[0].1)),
            offsets.drop_first(),
        )
    }
}

/// The store with `key` bound to `v`: rebinding in place, or appended
/// when fresh.
pub open spec fn assoc_put(
    store: Seq<(Seq<char>, u64)>,
    key: Seq<char>,
    v: u64,
) -> Seq<(Seq<char>, u64)>
    decreases store.len(),
{
    if store.len() == 0 {
        seq![(key, v)]
    } else if store[0].0 == key {
        seq![(key, v)] + store.drop_first()
    } else {
        seq![store[0]] + assoc_put(store.drop_first(), key, v)
    }
}

/// What a committed-offsets listing answers: the requested keys that
/// have a committed offset, in request order.
pub open spec fn list_committed(
    store: Seq<(Seq<char>, u64)>,
    keys: Seq<Seq<char>>,
) -> Seq<(Seq<char>, u64)>
    decreases keys.len(),
{
    if keys.len() == 0 {
        Seq::empty()
    } else {
        (match assoc_get(store, keys[0]) {
            Option::Some(v) => seq![(keys[0], v)],
            Option::None => Seq::empty(),
        }) + list_committed(store, keys.drop_first())
    }
}

/// Bind `key` to the larger of its stored offset and `v`.
#[verifier::loop_isolation(false)]
pub fn store_put(store: &mut Vec<(String, u64)>, key: &String, v: u64)
    requires
        assoc_unique(kv_view(old(store)@)),
    ensures
        assoc_unique(kv_view(final(store)@)),
        kv_view(final(store)@) == assoc_put(
            kv_view(old(store)@),
            key@,
            merged_offset(kv_view(old(store)@), key@, v),
        ),
    decreases old(store)@.len(),
{
    let ghost kv0 = kv_view(store@);
    match crate::assoc::assoc_find(store, key.as_str()) {
        Option::Some(i) => {
            proof {
                lemma_assoc_get_at(kv0, key@, i as int);
            }
            let cur = store[i].1;
            let nv = if v > cur {
                v
            } else {
                cur
            };
            let k2 = store[i].0.clone();
            store.set(i, (k2, nv));
            proof {
                assert(kv_view(store@) =~= kv0.update(i as int, (kv0[i as int].0, nv)));
                lemma_assoc_update(kv0, i as int, nv);
                lemma_assoc_put_is_update(kv0, key@, nv, i as int);
            }
        },
        Option::None => {
            store.push((key.clone(), v));
            proof {
                lemma_assoc_get_absent(kv0, key@);
                assert(kv_view(store@) =~= kv0.push((key@, v)));
                lemma_assoc_push(kv0, key@, v);
                lemma_assoc_put_is_push(kv0, key@, v);
            }
        },
    }
}

/// When `key` is bound at `i`, `assoc_put` is an update in place.
pub proof fn lemma_assoc_put_is_update(s: Seq<(Seq<char>, u64)>, key: Seq<char>, v: u64, i: int)
    requires
        0 <= i < s.len(),
        s[i].0 == key,
        forall|k: int| 0 <= k < i ==> (#[trigger] s[k]).0 != key,
    ensures
        assoc_put(s, key, v) == s.update(i, (key, v)),
    decreases i,
{
    if i == 0 {
        assert(assoc_put(s, key, v) =~= s.update(0, (key, v)));
    } else {
        lemma_assoc_put_is_update(s.drop_first(), key, v, i - 1);
        assert(s.drop_first()[i - 1] == s[i]);
        assert(assoc_put(s, key, v) =~= s.update(i, (key, v)));
    }
}

/// When `key` is unbound, `assoc_put` appends.
pub proof fn lemma_assoc_put_is_push(s: Seq<(Seq<char>, u64)>, key: Seq<char>, v: u64)
    requires
        forall|k: int| 0 <= k < s.len() ==> (#[trigger] s[k]).0 != key,
    ensures
        assoc_put(s, key, v) == s.push((key, v)),
    decreases s.len(),
{
    if s.len() == 0 {
        assert(assoc_put(s, key, v) =~= s.push((key, v)));
    } else {
        lemma_assoc_put_is_push(s.drop_first(), key, v);
        assert(assoc_put(s, key, v) =~= s.push((key, v)));
    }
}

/// The single-node partitioned-log handler.
pub struct KafkaServer {
    pub logs: Vec<(String, Log)>,
    pub offset_store: Vec<(String, u64)>,
}

impl KafkaServer {
    /// Keys are unique in both stores.
    pub open spec fn wf(self) -> bool {
        &&& assoc_unique(logs_view(self.logs@))
        &&& assoc_unique(kv_view(self.offset_store@))
    }

    /// Answer one poll request against the logs.
    #[verifier::loop_isolation(false)]
    fn poll(&self, offsets: &Vec<(String, u64)>) -> (r: Vec<(String, Vec<(u64, u64)>)>)
        ensures
            crate::proto::recs_view(r@) == poll_msgs(
                logs_view(self.logs@),
                kv_view(offsets@),
                10,
            ),
    {
        let ghost lv = logs_view(self.logs@);
        let ghost ov = kv_view(offsets@);
        let mut out: Vec<(String, Vec<(u64, u64)>)> = Vec::new();
        let mut i: usize = 0;
        while i < offsets.len()
            invariant
                0 <= i <= offsets@.len(),
                out@.len() == i,
                forall|k: int|
                    0 <= k < i ==> #[trigger] crate::proto::recs_view(out@)[k] == poll_msgs(
                        lv,
                        ov,
                        10,
                    )[k],
            decreases offsets@.len() - i,
        {
            let recs: Vec<(u64, u64)> = match crate::assoc::assoc_find(&self.logs, offsets[i].0.as_str()) {
                Option::Some(j) => {
                    proof {
                        lemma_assoc_get_at(lv, ov[i as int].0, j as int);
                    }
                    self.logs[j].1.read_from(offsets[i].1)
                },
                Option::None => {
                    proof {
                        lemma_assoc_get_absent(lv, ov[i as int].0);
                    }
                    Vec::new()
                },
            };
            let ghost pre = out@;
            out.push((offsets[i].0.clone(), recs));
            proof {
                assert forall|k: int| 0 <= k < i + 1 implies #[trigger] crate::proto::recs_view(
                    out@,
                )[k] == poll_msgs(lv, ov, 10)[k] by {
                    if k < i {
                        assert(out@[k] == pre[k]);
                        assert(crate::proto::recs_view(out@)[k] == crate::proto::recs_view(pre)[k]);
                    }
                }
            }
            i = i + 1;
        }
        proof {
            assert(crate::proto::recs_view(out@) =~= poll_msgs(lv, ov, 10));
        }
        out
    }

    /// Answer one committed-offsets listing.
    #[verifier::loop_isolation(false)]
    fn list(&self, keys: &Vec<String>) -> (r: Vec<(String, u64)>)
        ensures
            kv_view(r@) == list_committed(
                kv_view(self.offset_store@),
                crate::proto::strs_view(keys@),
            ),
    {
        let ghost sv = kv_view(self.offset_store@);
        let ghost kvs = crate::proto::strs_view(keys@);
        let mut out: Vec<(String, u64)> = Vec::new();
        proof {
            assert(kvs.skip(0) =~= kvs);
            assert(kv_view(out@) + list_committed(sv, kvs) =~= list_committed(sv, kvs));
        }
        let mut i: usize = 0;
        while i < keys.len()
            invariant
                0 <= i <= keys@.len(),
                kv_view(out@) + list_committed(sv, kvs.skip(i as int)) == list_committed(sv, kvs),
            decreases keys@.len() - i,
        {
            proof {
                assert(kvs.skip(i as int)[0] == kvs[i as int]);
                assert(kvs.skip(i as int).drop_first() =~= kvs.skip(i + 1));
            }
            match crate::assoc::assoc_find(&self.offset_store, keys[i].as_str()) {
                Option::Some(j) => {
                    proof {
                        lemma_assoc_get_at(sv, kvs[i as int], j as int);
                    }
                    out.push((keys[i].clone(), self.offset_store[j].1));
                    proof {
                        assert(kv_view(out@) + list_committed(sv, kvs.skip(i + 1)) =~= list_committed(
                            sv,
                            kvs,
                        ));
                    }
                },
                Option::None => {
                    proof {
                        lemma_assoc_get_absent(sv, kvs[i as int]);
                        assert(kv_view(out@) + list_committed(sv, kvs.skip(i + 1)) =~= list_committed(
                            sv,
                            kvs,
                        ));
                    }
                },
            }
            i = i + 1;
        }
        proof {
            assert(kvs.skip(kvs.len() as int) =~= Seq::<Seq<char>>::empty());
            assert(kv_view(out@) =~= kv_view(out@) + list_committed(sv, kvs.skip(kvs.len() as int)));
        }
        out
    }

    /// Commit each offered offset: the stored offset only ever grows.
    #[verifier::loop_isolation(false)]
    fn commit(&mut self, offsets: &Vec<(String, u64)>)
        requires
            assoc_unique(kv_view(old(self).offset_store@)),
        ensures
            assoc_unique(kv_view(final(self).offset_store@)),
            kv_view(final(self).offset_store@) == commit_max(
                kv_view(old(self).offset_store@),
                kv_view(offsets@),
            ),
            final(self).logs@ == old(self).logs@,
    {
        let ghost ov = kv_view(offsets@);
        let ghost sv0 = kv_view(self.offset_store@);
        proof {
            assert(ov.skip(0) =~= ov);
        }
        let mut i: usize = 0;
        while i < offsets.len()
            invariant
                0 <= i <= offsets@.len(),
                assoc_unique(kv_view(self.offset_store@)),
                commit_max(kv_view(self.offset_store@), ov.skip(i as int)) == commit_max(sv0, ov),
                self.logs@ == old(self).logs@,
            decreases offsets@.len() - i,
        {
            proof {
                assert(ov.skip(i as int)[0] == ov[i as int]);
                assert(ov.skip(i as int).drop_first() =~= ov.skip(i + 1));
            }
            store_put(&mut self.offset_store, &offsets[i].0, offsets[i].1);
            i = i + 1;
        }
        proof {
            assert(ov.skip(ov.len() as int) =~= Seq::<(Seq<char>, u64)>::empty());
        }
    }

    /// One step of the single-node log protocol.
    ///
    /// `send` appends under its key — a fresh log when the key is new —
    /// and answers the record's offset; `poll` answers up to ten
    /// records per requested key from the requested offsets;
    /// `commit_offsets` stores the larger of each offered offset and
    /// the one already held; and
    /// `list_committed_offsets` answers the stored ones.  Anything
    /// else is fatal.
    #[verifier::rlimit(100)]
    pub fn handle(&mut self, io: &mut IO, input: &Message) -> (r: Result<(), Error>)
        requires
            old(self).wf(),
            old(io).wf(),
        ensures
            final(self).wf(),
            final(io).wf(),
            final(io).node_id@ == old(io).node_id@,
            crate::io::history_extends(old(io).history@, final(io).history@),
            match input@.body.payload {
                PayloadV::Send { key, msg, forwarded_for } => {
                    let logs0 = logs_view(old(self).logs@);
                    let recs0 = match assoc_get(logs0, key) {
                        Option::Some(rs) => rs,
                        Option::None => Seq::empty(),
                    };
                    &&& (r is Ok <==> recs0.len() < u64::MAX && old(io).seq < u64::MAX)
                    &&& r is Ok ==> {
                    &&& assoc_get(logs_view(final(self).logs@), key) == Option::Some(
                        recs0.push((recs0.len() as u64, msg)),
                    )
                    &&& final(io).history@ == old(io).history@.push(
                        envelope(
                            old(io).node_id@,
                            input@.src,
                            old(io).seq,
                            input@.body.id,
                            PayloadV::SendOk {
                                offset: recs0.len() as u64,
                                forwarded_for: Option::None,
                            },
                        ),
                    )
                    }
                },
                PayloadV::Poll { offsets } => (r is Ok <==> old(io).seq < u64::MAX) && (r is Ok
                    ==> *final(self) == *old(self) && final(io).history@ == old(io).history@.push(
                    envelope(
                        old(io).node_id@,
                        input@.src,
                        old(io).seq,
                        input@.body.id,
                        PayloadV::PollOk {
                            msgs: poll_msgs(logs_view(old(self).logs@), offsets, 10),
                        },
                    ),
                )),
                PayloadV::CommitOffsets { offsets } => (r is Ok <==> old(io).seq < u64::MAX) && (r
                    is Ok ==> kv_view(final(self).offset_store@) == commit_max(
                    kv_view(old(self).offset_store@),
                    offsets,
                ) && final(io).history@ == old(io).history@.push(
                    envelope(
                        old(io).node_id@,
                        input@.src,
                        old(io).seq,
                        input@.body.id,
                        PayloadV::CommitOffsetsOk,
                    ),
                )),
                PayloadV::ListCommittedOffsets { keys } => (r is Ok <==> old(io).seq < u64::MAX)
                    && (r is Ok ==> *final(self) == *old(self) && final(io).history@ == old(
                    io,
                ).history@.push(
                    envelope(
                        old(io).node_id@,
                        input@.src,
                        old(io).seq,
                        input@.body.id,
                        PayloadV::ListCommittedOffsetsOk {
                            offsets: list_committed(kv_view(old(self).offset_store@), keys),
                        },
                    ),
                )),
                _ => r is Err && *final(self) == *old(self) && *final(io) == *old(io),
            },
    {
        match &input.body.payload {
            Payload::Send { key, msg, forwarded_for } => {
                let ghost logs0 = logs_view(self.logs@);
                let offset: u64;
                match crate::assoc::assoc_find(&self.logs, key.as_str()) {
                    Option::Some(j) => {
                        proof {
                            lemma_assoc_get_at(logs0, key@, j as int);
                        }
                        if self.logs[j].1.records.len() as u64 == u64::MAX {
                            return Result::Err(Error::Overflow);
                        }
                        let k2 = self.logs[j].0.clone();
                        let mut entry = (k2, Log::new());
                        self.logs.set_and_swap(j, &mut entry);
                        let mut log = entry.1;
                        offset = log.append(*msg);
                        let k3 = self.logs[j].0.clone();
                        self.logs.set(j, (k3, log));
                        proof {
                            let ghost rec = (offset, input@.body.payload->Send_msg);
                            assert(logs_view(self.logs@) =~= logs0.update(
                                j as int,
                                (logs0[j as int].0, logs0[j as int].1.push(rec)),
                            ));
                            lemma_assoc_log_update(logs0, j as int, logs0[j as int].1.push(rec));
                        }
                    },
                    Option::None => {
                        proof {
                            lemma_assoc_get_absent(logs0, key@);
                        }
                        let mut log = Log::new();
                        offset = log.append(*msg);
                        self.logs.push((key.clone(), log));
                        proof {
                            let ghost rec = (0u64, input@.body.payload->Send_msg);
                            assert(logs_view(self.logs@) =~= logs0.push((key@, seq![rec])));
                            lemma_assoc_log_push(logs0, key@, seq![rec]);
                            assert(Seq::<(u64, u64)>::empty().push(rec) =~= seq![rec]);
                        }
                    },
                }
                let send_ok = Payload::SendOk { offset, forwarded_for: Option::None };
                io.rpc_reply_to(input, &send_ok)?;
                Result::Ok(())
            },
            Payload::Poll { offsets } => {
                let msgs = self.poll(offsets);
                let poll_ok = Payload::PollOk { msgs };
                io.rpc_reply_to(input, &poll_ok)?;
                Result::Ok(())
            },
            Payload::CommitOffsets { offsets } => {
                self.commit(offsets);
                let ok = Payload::CommitOffsetsOk;
                io.rpc_reply_to(input, &ok)?;
                Result::Ok(())
            },
            Payload::ListCommittedOffsets { keys } => {
                let offsets = self.list(keys);
                let ok = Payload::ListCommittedOffsetsOk { offsets };
                io.rpc_reply_to(input, &ok)?;
                Result::Ok(())
            },
            _ => Result::Err(Error::UnexpectedMessage),
        }
    }
}

/// Replacing the log at `i` rebinds its key and nothing else.
pub proof fn lemma_assoc_log_update(
    s: Seq<(Seq<char>, Seq<(u64, u64)>)>,
    i: int,
    v: Seq<(u64, u64)>,
)
    requires
        assoc_unique(s),
        0 <= i < s.len(),
    ensures
        assoc_unique(s.update(i, (s[i].0, v))),
        assoc_get(s.update(i, (s[i].0, v)), s[i].0) == Option::Some(v),
        forall|key: Seq<char>|
            key != s[i].0 ==> #[trigger] assoc_get(s.update(i, (s[i].0, v)), key) == assoc_get(
                s,
                key,
            ),
{
    lemma_assoc_update(s, i, v);
}

/// Appending a fresh key binds it and nothing else.
pub proof fn lemma_assoc_log_push(
    s: Seq<(Seq<char>, Seq<(u64, u64)>)>,
    key: Seq<char>,
    v: Seq<(u64, u64)>,
)
    requires
        assoc_unique(s),
        !crate::assoc::assoc_has(s, key),
    ensures
        assoc_unique(s.push((key, v))),
        assoc_get(s.push((key, v)), key) == Option::Some(v),
{
    lemma_assoc_push(s, key, v);
}

impl Server<()> for KafkaServer {
    open spec fn wf(&self) -> bool {
        KafkaServer::wf(*self)
    }

    fn init(cluster_state: &ClusterState, timers: &mut Timers<()>, now_ms: u64) -> (r: Result<
        Self,
        Error,
    >)
        ensures
            r is Ok,
            *final(timers) == *old(timers),
            (r->Ok_0).logs@.len() == 0,
            (r->Ok_0).offset_store@.len() == 0,
    {
        let s = KafkaServer { logs: Vec::new(), offset_store: Vec::new() };
        proof {
            assert(logs_view(s.logs@) =~= Seq::<(Seq<char>, Seq<(u64, u64)>)>::empty());
            assert(kv_view(s.offset_store@) =~= Seq::<(Seq<char>, u64)>::empty());
        }
        Result::Ok(s)
    }

    fn on_message(
        &mut self,
        cluster_state: &ClusterState,
        io: &mut IO,
        input: Message,
        now_ms: u64,
    ) -> Result<(), Error> {
        let r = self.handle(io, &input);
        proof {
            crate::io::lemma_history_extends(old(io).history@, io.history@);
        }
        r
    }

    fn on_timer(&mut self, cluster_state: &ClusterState, io: &mut IO, tag: (), now_ms: u64) -> Result<
        (),
        Error,
    > {
        Result::Ok(())
    }

    fn on_rpc_timeout(&mut self, cluster_state: &ClusterState, timeout: Request) -> Result<
        (),
        Error,
    > {
        Result::Err(Error::UnexpectedTimeout)
    }
}

} // verus!
