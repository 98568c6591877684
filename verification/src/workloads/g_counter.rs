//! The grow-only counter workload: each node accumulates the deltas it
//! has observed per origin, and the value is their sum.

use vstd::prelude::*;

use crate::assoc::{
    assoc_get, assoc_unique, lemma_assoc_get_absent, lemma_assoc_get_at, lemma_assoc_push,
    lemma_assoc_update,
};
use crate::io::{envelope, request_msgs, request_recs, ClusterState, Request, IO};
use crate::proto::{kv_view, strs_view, Message, Payload, PayloadV};
use crate::timer::Timers;
use crate::node::Server;
use crate::Error;

verus! {

/// The sum of all per-origin counts.
pub open spec fn sum_counts(s: Seq<(Seq<char>, u64)>) -> int
    decreases s.len(),
{
    if s.len() == 0 {
        0
    } else {
        sum_counts(s.drop_last()) + s.last().1
    }
}

/// Rebinding one origin shifts the sum by the difference.
proof fn lemma_sum_update(s: Seq<(Seq<char>, u64)>, i: int, v: u64)
    requires
        0 <= i < s.len(),
    ensures
        sum_counts(s.update(i, (s[i].0, v))) == sum_counts(s) - s[i].1 + v,
    decreases s.len(),
{
    let s2 = s.update(i, (s[i].0, v));
    if i == s.len() - 1 {
        assert(s2.drop_last() =~= s.drop_last());
    } else {
        lemma_sum_update(s.drop_last(), i, v);
        assert(s2.drop_last() =~= s.drop_last().update(i, (s.drop_last()[i].0, v)));
        assert(s2.last() == s.last());
    }
}

/// A new origin adds its count to the sum.
proof fn lemma_sum_push(s: Seq<(Seq<char>, u64)>, key: Seq<char>, v: u64)
    ensures
        sum_counts(s.push((key, v))) == sum_counts(s) + v,
{
    assert(s.push((key, v)).drop_last() =~= s);
}

/// A prefix never sums to more than the whole.
proof fn lemma_sum_prefix(s: Seq<(Seq<char>, u64)>, i: int)
    requires
        0 <= i <= s.len(),
    ensures
        sum_counts(s.subrange(0, i)) <= sum_counts(s),
    decreases s.len() - i,
{
    if i < s.len() {
        assert(s.subrange(0, i + 1).drop_last() =~= s.subrange(0, i));
        assert(s.subrange(0, i + 1).last() == s[i]);
        lemma_sum_prefix(s, i + 1);
    } else {
        assert(s.subrange(0, i) =~= s);
    }
}

/// The grow-only counter: a count per origin, keys unique.
pub struct GCounter {
    pub counters: Vec<(String, u64)>,
}

impl GCounter {
    /// Keys are unique, so each origin has one count.
    pub open spec fn wf(self) -> bool {
        assoc_unique(kv_view(self.counters@))
    }

    /// The count recorded for an origin, zero before the first delta.
    pub open spec fn count_of(self, node: Seq<char>) -> int {
        match assoc_get(kv_view(self.counters@), node) {
            Option::Some(v) => v as int,
            Option::None => 0,
        }
    }

    /// The counter's value: the sum over every origin.
    pub open spec fn total(self) -> int {
        sum_counts(kv_view(self.counters@))
    }

    /// An empty counter.
    pub fn new() -> (r: GCounter)
        ensures
            r.wf(),
            r.counters@.len() == 0,
            r.total() == 0,
            forall|n: Seq<char>| r.count_of(n) == 0,
    {
        let r = GCounter { counters: Vec::new() };
        proof {
            assert(kv_view(r.counters@) =~= Seq::<(Seq<char>, u64)>::empty());
            assert forall|n: Seq<char>| r.count_of(n) == 0 by {
                lemma_assoc_get_absent::<u64>(kv_view(r.counters@), n);
            }
        }
        r
    }

    /// Add `value` to the count observed from `node`.  Fails exactly
    /// when that count would no longer fit, and then changes nothing.
    pub fn increment(&mut self, node: String, value: u64) -> (r: Result<(), Error>)
        requires
            old(self).wf(),
        ensures
            final(self).wf(),
            r is Ok <==> old(self).count_of(node@) + value <= u64::MAX,
            r is Err ==> *final(self) == *old(self),
            r is Ok ==> final(self).count_of(node@) == old(self).count_of(node@) + value,
            r is Ok ==> forall|n2: Seq<char>|
                n2 != node@ ==> final(self).count_of(n2) == old(self).count_of(n2),
            r is Ok ==> final(self).total() == old(self).total() + value,
    {
        let ghost kv0 = kv_view(self.counters@);
        match crate::assoc::assoc_find(&self.counters, node.as_str()) {
            Option::Some(i) => {
                proof {
                    assert(kv0[i as int].0 == node@);
                    assert(forall|k: int| 0 <= k < i ==> (#[trigger] kv0[k]).0 != node@);
                    lemma_assoc_get_at(kv0, node@, i as int);
                }
                let cur = self.counters[i].1;
                if value > u64::MAX - cur {
                    return Result::Err(Error::Overflow);
                }
                let key = self.counters[i].0.clone();
                self.counters.set(i, (key, cur + value));
                proof {
                    assert(kv_view(self.counters@) =~= kv0.update(
                        i as int,
                        (kv0[i as int].0, (cur + value) as u64),
                    ));
                    lemma_assoc_update(kv0, i as int, (cur + value) as u64);
                    lemma_sum_update(kv0, i as int, (cur + value) as u64);
                }
                Result::Ok(())
            },
            Option::None => {
                proof {
                    lemma_assoc_get_absent(kv0, node@);
                }
                self.counters.push((node, value));
                proof {
                    let ghost node_v = kv_view(self.counters@).last().0;
                    assert(kv_view(self.counters@) =~= kv0.push((node_v, value)));
                    lemma_assoc_push(kv0, node_v, value);
                    lemma_sum_push(kv0, node_v, value);
                }
                Result::Ok(())
            },
        }
    }

    /// The sum of every origin's count.  Fails exactly when the sum no
    /// longer fits in a machine word.
    #[verifier::loop_isolation(false)]
    pub fn value(&self) -> (r: Result<u64, Error>)
        ensures
            r is Ok <==> self.total() <= u64::MAX,
            r is Ok ==> r->Ok_0 == self.total(),
    {
        let ghost kv = kv_view(self.counters@);
        let mut acc: u64 = 0;
        let mut i: usize = 0;
        while i < self.counters.len()
            invariant
                0 <= i <= self.counters@.len(),
                acc == sum_counts(kv.subrange(0, i as int)),
            decreases self.counters@.len() - i,
        {
            proof {
                assert(kv.subrange(0, i + 1).drop_last() =~= kv.subrange(0, i as int));
                assert(kv.subrange(0, i + 1).last() == kv[i as int]);
            }
            let v = self.counters[i].1;
            if v > u64::MAX - acc {
                proof {
                    lemma_sum_prefix(kv, i + 1);
                }
                return Result::Err(Error::Overflow);
            }
            acc = acc + v;
            i = i + 1;
        }
        proof {
            assert(kv.subrange(0, kv.len() as int) =~= kv);
        }
        Result::Ok(acc)
    }
}

/// The grow-only counter handler.
pub struct GCounterServer {
    pub gcounter: GCounter,
}

impl GCounterServer {
    /// One step of the counter protocol.
    ///
    /// `add` records the delta under the sender and replicates it to
    /// every other node with retries; `replicate` records the delta
    /// under the replicating peer and acknowledges; `read` answers the
    /// sum; acknowledgements close their pending requests.  A count or
    /// sum outgrowing a machine word, an identifier space too small for
    /// the sends, and a payload this workload never receives are fatal.
    pub fn handle(
        &mut self,
        cluster_state: &ClusterState,
        io: &mut IO,
        input: &Message,
        now_ms: u64,
    ) -> (r: Result<(), Error>)
        requires
            old(self).gcounter.wf(),
            old(io).wf(),
        ensures
            final(self).gcounter.wf(),
            final(io).wf(),
            final(io).node_id@ == old(io).node_id@,
            crate::io::history_extends(old(io).history@, final(io).history@),
            match input@.body.payload {
                PayloadV::Add { delta } => {
                    let peers = crate::assoc::peers_except(
                        strs_view(cluster_state.node_ids@),
                        cluster_state.node_id@,
                        Option::Some(input@.src),
                    );
                    &&& (r is Ok <==> old(self).gcounter.count_of(input@.src) + delta <= u64::MAX
                        && old(io).seq + peers.len() + 1 <= u64::MAX)
                    &&& r is Ok ==> {
                        &&& final(self).gcounter.count_of(input@.src) == old(
                            self,
                        ).gcounter.count_of(input@.src) + delta
                        &&& final(self).gcounter.total() == old(self).gcounter.total() + delta
                        &&& final(io).pending_view() == old(io).pending_view() + request_recs(
                            peers,
                            old(io).seq as int,
                            PayloadV::Replicate { delta: Option::Some(delta), ops: Option::None },
                            500,
                            now_ms,
                            true,
                        )
                        &&& final(io).history@ == old(io).history@ + request_msgs(
                            peers,
                            old(io).node_id@,
                            old(io).seq as int,
                            PayloadV::Replicate { delta: Option::Some(delta), ops: Option::None },
                        ).push(
                            envelope(
                                old(io).node_id@,
                                input@.src,
                                (old(io).seq + peers.len()) as u64,
                                input@.body.id,
                                PayloadV::AddOk,
                            ),
                        )
                    }
                },
                PayloadV::AddOk => r is Ok && *final(self) == *old(self) && final(io).pending_view()
                    == crate::io::mark_completed_spec(old(io).pending_view(), input@.body.in_reply_to)
                    && final(io).history@ == old(io).history@,
                PayloadV::Read => {
                    &&& (r is Ok <==> old(self).gcounter.total() <= u64::MAX && old(io).seq
                        < u64::MAX)
                    &&& r is Ok ==> *final(self) == *old(self) && final(io).history@ == old(
                        io,
                    ).history@.push(
                        envelope(
                            old(io).node_id@,
                            input@.src,
                            old(io).seq,
                            input@.body.id,
                            PayloadV::ReadOk {
                                messages: Option::None,
                                value: Option::Some(old(self).gcounter.total() as u64),
                            },
                        ),
                    )
                },
                PayloadV::Replicate { delta, ops } => {
                    &&& (r is Ok <==> delta is Some && old(self).gcounter.count_of(input@.src)
                        + delta->Some_0 <= u64::MAX && old(io).seq < u64::MAX)
                    &&& r is Ok ==> {
                    let d = delta->Some_0;
                    &&& final(self).gcounter.count_of(input@.src) == old(self).gcounter.count_of(
                        input@.src,
                    ) + d
                    &&& final(self).gcounter.total() == old(self).gcounter.total() + d
                    &&& final(io).history@ == old(io).history@.push(
                        envelope(
                            old(io).node_id@,
                            input@.src,
                            old(io).seq,
                            input@.body.id,
                            PayloadV::ReplicateOk,
                        ),
                    )
                    }
                },
                PayloadV::ReplicateOk => r is Ok && *final(self) == *old(self) && final(io).pending_view()
                    == crate::io::mark_completed_spec(old(io).pending_view(), input@.body.in_reply_to)
                    && final(io).history@ == old(io).history@,
                _ => r is Err,
            },
    {
        match &input.body.payload {
            Payload::Add { delta } => {
                self.gcounter.increment(input.src.clone(), *delta)?;
                let peers = crate::assoc::filter_peers(
                    &cluster_state.node_ids,
                    cluster_state.node_id.as_str(),
                    Option::Some(input.src.as_str()),
                );
                let replicate = Payload::Replicate { delta: Option::Some(*delta), ops: Option::None };
                io.rpc_request_all(&peers, &replicate, 500, true, now_ms)?;
                let add_ok = Payload::AddOk;
                io.rpc_reply_to(input, &add_ok)?;
                Result::Ok(())
            },
            Payload::AddOk => {
                io.rpc_mark_completed(input);
                Result::Ok(())
            },
            Payload::Read => {
                let total = self.gcounter.value()?;
                let read_ok = Payload::ReadOk { messages: Option::None, value: Option::Some(total) };
                io.rpc_reply_to(input, &read_ok)?;
                Result::Ok(())
            },
            Payload::Replicate { delta, ops } => {
                let Option::Some(d) = delta else {
                    return Result::Err(Error::UnexpectedMessage);
                };
                self.gcounter.increment(input.src.clone(), *d)?;
                let replicate_ok = Payload::ReplicateOk;
                io.rpc_reply_to(input, &replicate_ok)?;
                Result::Ok(())
            },
            Payload::ReplicateOk => {
                io.rpc_mark_completed(input);
                Result::Ok(())
            },
            _ => Result::Err(Error::UnexpectedMessage),
        }
    }
}

impl Server<()> for GCounterServer {
    open spec fn wf(&self) -> bool {
        self.gcounter.wf()
    }

    fn init(cluster_state: &ClusterState, timers: &mut Timers<()>, now_ms: u64) -> (r: Result<
        Self,
        Error,
    >)
        ensures
            r is Ok,
            *final(timers) == *old(timers),
            (r->Ok_0).gcounter.counters@.len() == 0,
            (r->Ok_0).gcounter.total() == 0,
    {
        Result::Ok(GCounterServer { gcounter: GCounter::new() })
    }

    fn on_message(
        &mut self,
        cluster_state: &ClusterState,
        io: &mut IO,
        input: Message,
        now_ms: u64,
    ) -> Result<(), Error> {
        let r = self.handle(cluster_state, io, &input, now_ms);
        proof {
            crate::io::lemma_history_extends(old(io).history@, io.history@);
        }
        r
    }

    fn on_timer(&mut self, cluster_state: &ClusterState, io: &mut IO, tag: (), now_ms: u64) -> Result<
        (),
        Error,
    > {
        Result::Ok(())
    }

    fn on_rpc_timeout(&mut self, cluster_state: &ClusterState, timeout: Request) -> Result<
        (),
        Error,
    > {
        Result::Ok(())
    }
}

} // verus!
