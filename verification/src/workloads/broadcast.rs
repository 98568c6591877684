//! The broadcast workload: a set of values spread by gossip along a
//! client-supplied topology.

use vstd::prelude::*;

use crate::assoc::{assoc_get, assoc_unique, lemma_assoc_get_absent, lemma_assoc_get_at,
    lemma_assoc_update};
use crate::io::{envelope, request_msgs, ClusterState, Request, IO};
use crate::proto::MessageV;
use crate::proto::{strs_view, Message, Payload, PayloadV};
use crate::timer::Timers;
use crate::node::Server;
use crate::Error;

verus! {

/// The gossip timer tag.
#[derive(Clone, Copy)]
pub enum Timer {
    Gossip,
}

/// The view of per-peer seen sets.
pub open spec fn seen_view(s: Seq<(String, Vec<u64>)>) -> Seq<(Seq<char>, Seq<u64>)> {
    Seq::new(s.len(), |i: int| (s[i].0@, s[i].1@))
}

/// Insert a value into a duplicate-free vector; answers whether it was
/// new.
pub fn set_insert(v: &mut Vec<u64>, m: u64) -> (added: bool)
    ensures
        added == !old(v)@.contains(m),
        added ==> final(v)@ == old(v)@.push(m),
        !added ==> final(v)@ == old(v)@,
{
    let mut i: usize = 0;
    while i < v.len()
        invariant
            0 <= i <= v@.len(),
            forall|k: int| 0 <= k < i ==> v@[k] != m,
            v@ == old(v)@,
        decreases v@.len() - i,
    {
        if v[i] == m {
            return false;
        }
        i = i + 1;
    }
    v.push(m);
    true
}

/// The values of `incoming` that are new to `have`, first occurrences
/// only, in order.
pub open spec fn new_values(have: Seq<u64>, incoming: Seq<u64>) -> Seq<u64>
    decreases incoming.len(),
{
    if incoming.len() == 0 {
        Seq::empty()
    } else if have.contains(incoming[0]) {
        new_values(have, incoming.drop_first())
    } else {
        seq![incoming[0]] + new_values(have.push(incoming[0]), incoming.drop_first())
    }
}

/// Add every incoming value not yet present, in order, keeping the
/// vector duplicate-free; answers the values that were new.
#[verifier::loop_isolation(false)]
pub fn set_extend(v: &mut Vec<u64>, incoming: &Vec<u64>) -> (added: Vec<u64>)
    requires
        forall|i: int, j: int| 0 <= i < j < old(v)@.len() ==> old(v)@[i] != old(v)@[j],
    ensures
        forall|i: int, j: int| 0 <= i < j < final(v)@.len() ==> final(v)@[i] != final(v)@[j],
        final(v)@ == old(v)@ + new_values(old(v)@, incoming@),
        added@ == new_values(old(v)@, incoming@),
{
    let ghost v0 = v@;
    let ghost inc = incoming@;
    let mut added: Vec<u64> = Vec::new();
    proof {
        assert(inc.skip(0) =~= inc);
        assert(Seq::<u64>::empty() + new_values(v@, inc) =~= new_values(v@, inc));
        assert(v0 + Seq::<u64>::empty() =~= v0);
    }
    let mut i: usize = 0;
    while i < incoming.len()
        invariant
            0 <= i <= inc.len(),
            forall|a: int, b: int| 0 <= a < b < v@.len() ==> v@[a] != v@[b],
            new_values(v0, inc) == added@ + new_values(v@, inc.skip(i as int)),
            v@ == v0 + added@,
        decreases inc.len() - i,
    {
        proof {
            assert(inc.skip(i as int)[0] == inc[i as int]);
            assert(inc.skip(i as int).drop_first() =~= inc.skip(i + 1));
        }
        let m = incoming[i];
        let added_now = set_insert(v, m);
        if added_now {
            added.push(m);
            proof {
                assert(new_values(v0, inc) =~= added@ + new_values(v@, inc.skip(i + 1)));
                assert(v@ =~= v0 + added@);
            }
        }
        i = i + 1;
    }
    proof {
        assert(inc.skip(inc.len() as int) =~= Seq::<u64>::empty());
        assert(added@ + new_values(v@, inc.skip(inc.len() as int)) =~= added@);
    }
    added
}

/// Whether a run of values holds no duplicates.
pub open spec fn nums_unique(s: Seq<u64>) -> bool {
    forall|a: int, b: int| 0 <= a < b < s.len() ==> s[a] != s[b]
}

/// The values a neighbour has not yet acknowledged, in value-set order.
pub open spec fn unseen_by(
    messages: Seq<u64>,
    seen: Seq<(Seq<char>, Seq<u64>)>,
    nb: Seq<char>,
) -> Seq<u64> {
    let sn = match assoc_get(seen, nb) {
        Option::Some(v) => v,
        Option::None => Seq::<u64>::empty(),
    };
    messages.filter(|m: u64| !sn.contains(m))
}

/// The envelopes one gossip pass emits: for each neighbour in order,
/// one gossip holding exactly what that neighbour lacks, skipped when
/// it lacks nothing; identifiers run consecutively from `base`.
pub open spec fn gossip_msgs(
    nbs: Seq<Seq<char>>,
    messages: Seq<u64>,
    seen: Seq<(Seq<char>, Seq<u64>)>,
    src: Seq<char>,
    base: int,
) -> Seq<MessageV>
    decreases nbs.len(),
{
    if nbs.len() == 0 {
        Seq::empty()
    } else {
        let d = unseen_by(messages, seen, nbs[0]);
        if d.len() > 0 {
            seq![
                envelope(src, nbs[0], base as u64, Option::None, PayloadV::Gossip { messages: d }),
            ] + gossip_msgs(nbs.drop_first(), messages, seen, src, base + 1)
        } else {
            gossip_msgs(nbs.drop_first(), messages, seen, src, base)
        }
    }
}

/// Whether a vector holds a value.
pub fn contains_val(v: &Vec<u64>, m: u64) -> (r: bool)
    ensures
        r == v@.contains(m),
{
    let mut q: usize = 0;
    while q < v.len()
        invariant
            0 <= q <= v@.len(),
            forall|x: int| 0 <= x < q ==> v@[x] != m,
        decreases v@.len() - q,
    {
        if v[q] == m {
            proof {
                assert(v@[q as int] == m);
            }
            return true;
        }
        q = q + 1;
    }
    false
}

/// The broadcast handler's state.
pub struct BroadcastServer {
    pub messages: Vec<u64>,
    pub seen: Vec<(String, Vec<u64>)>,
    pub neighbours: Vec<String>,
}

impl BroadcastServer {
    /// The value set is duplicate-free and the seen table's keys are
    /// unique.
    pub open spec fn wf(self) -> bool {
        &&& nums_unique(self.messages@)
        &&& assoc_unique(seen_view(self.seen@))
        &&& forall|i: int| 0 <= i < self.seen@.len() ==> nums_unique((#[trigger] self.seen@[i]).1@)
    }

    /// One step of the gossip-broadcast protocol.
    ///
    /// `topology` adopts this node's neighbour list and acknowledges;
    /// `broadcast` records the value and acknowledges; `broadcast_ok`
    /// closes its pending request; `read` answers the values seen so
    /// far; `gossip` records the incoming values and which of them the
    /// sender had.  The rest is fatal.
    #[verifier::loop_isolation(false)]
    pub fn handle(
        &mut self,
        cluster_state: &ClusterState,
        io: &mut IO,
        input: &Message,
    ) -> (r: Result<(), Error>)
        requires
            old(self).wf(),
            old(io).wf(),
        ensures
            final(self).wf(),
            final(io).wf(),
            final(io).node_id@ == old(io).node_id@,
            crate::io::history_extends(old(io).history@, final(io).history@),
            match input@.body.payload {
                PayloadV::Topology { topology } => {
                    &&& (r is Ok <==> crate::assoc::assoc_has(
                        topology,
                        cluster_state.node_id@,
                    ) && old(io).seq < u64::MAX)
                    &&& (r is Ok ==> strs_view(final(self).neighbours@) == strs_view(
                        old(self).neighbours@,
                    ) + assoc_get(topology, cluster_state.node_id@)->Some_0 && final(io).history@
                        == old(io).history@.push(
                        envelope(
                            old(io).node_id@,
                            input@.src,
                            old(io).seq,
                            input@.body.id,
                            PayloadV::TopologyOk,
                        ),
                    ))
                },
                PayloadV::Broadcast { message, batch } => {
                    &&& (r is Ok <==> message is Some && batch is None && old(io).seq < u64::MAX)
                    &&& (r is Ok ==> {
                        let m = message->Some_0;
                        &&& (old(self).messages@.contains(m) ==> final(self).messages@ == old(
                            self,
                        ).messages@)
                        &&& (!old(self).messages@.contains(m) ==> final(self).messages@ == old(
                            self,
                        ).messages@.push(m))
                        &&& final(io).history@ == old(io).history@.push(
                            envelope(
                                old(io).node_id@,
                                input@.src,
                                old(io).seq,
                                input@.body.id,
                                PayloadV::BroadcastOk,
                            ),
                        )
                    })
                },
                PayloadV::BroadcastOk => r is Ok && *final(self) == *old(self) && final(io).pending_view()
                    == crate::io::mark_completed_spec(old(io).pending_view(), input@.body.in_reply_to)
                    && final(io).history@ == old(io).history@,
                PayloadV::Read => {
                    &&& (r is Ok <==> old(io).seq < u64::MAX)
                    &&& r is Ok ==> *final(self) == *old(self) && final(io).history@ == old(
                        io,
                    ).history@.push(
                        envelope(
                            old(io).node_id@,
                            input@.src,
                            old(io).seq,
                            input@.body.id,
                            PayloadV::ReadOk {
                                messages: Option::Some(old(self).messages@),
                                value: Option::None,
                            },
                        ),
                    )
                },
                PayloadV::Gossip { messages } => {
                    &&& (r is Ok <==> crate::assoc::assoc_has(
                        seen_view(old(self).seen@),
                        input@.src,
                    ))
                    &&& (r is Ok ==> {
                        let learned = new_values(old(self).messages@, messages);
                        let sv0 = seen_view(old(self).seen@);
                        let entry0 = assoc_get(sv0, input@.src)->Some_0;
                        &&& final(self).messages@ == old(self).messages@ + learned
                        &&& final(self).neighbours@ == old(self).neighbours@
                        &&& *final(io) == *old(io)
                        &&& assoc_get(seen_view(final(self).seen@), input@.src) == Option::Some(
                            entry0 + new_values(entry0, learned),
                        )
                        &&& forall|k2: Seq<char>|
                            k2 != input@.src ==> assoc_get(seen_view(final(self).seen@), k2)
                                == assoc_get(sv0, k2)
                    })
                },
                _ => r is Err,
            },
    {
        match &input.body.payload {
            Payload::Topology { topology } => {
                let ghost tv = crate::proto::topo_view(topology@);
                match crate::assoc::assoc_find(topology, cluster_state.node_id.as_str()) {
                    Option::Some(j) => {
                        proof {
                            lemma_assoc_get_at(tv, cluster_state.node_id@, j as int);
                        }
                        let ghost nb0 = strs_view(self.neighbours@);
                        let mut k: usize = 0;
                        while k < topology[j].1.len()
                            invariant
                                0 <= j < topology@.len(),
                                0 <= k <= topology@[j as int].1@.len(),
                                strs_view(self.neighbours@) == nb0 + strs_view(
                                    topology@[j as int].1@,
                                ).subrange(0, k as int),
                                self.messages@ == old(self).messages@,
                                self.seen@ == old(self).seen@,
                            decreases topology@[j as int].1@.len() - k,
                        {
                            let ghost pre = self.neighbours@;
                            let nb = topology[j].1[k].clone();
                            let ghost nbv = nb@;
                            self.neighbours.push(nb);
                            proof {
                                assert(nbv == topology@[j as int].1@[k as int]@);
                                assert(self.neighbours@ == pre.push(self.neighbours@.last()));
                                assert(self.neighbours@.last()@ == nbv);
                                assert forall|x: int|
                                    0 <= x < self.neighbours@.len() implies strs_view(
                                    self.neighbours@,
                                )[x] == (nb0 + strs_view(topology@[j as int].1@).subrange(
                                    0,
                                    k + 1,
                                ))[x] by {
                                    if x < pre.len() {
                                        assert(self.neighbours@[x] == pre[x]);
                                        assert(strs_view(pre)[x] == pre[x]@);
                                    }
                                }
                                assert(strs_view(self.neighbours@) =~= nb0 + strs_view(
                                    topology@[j as int].1@,
                                ).subrange(0, k + 1));
                            }
                            k = k + 1;
                        }
                        proof {
                            assert(strs_view(topology@[j as int].1@).subrange(
                                0,
                                strs_view(topology@[j as int].1@).len() as int,
                            ) =~= strs_view(topology@[j as int].1@));
                        }
                        let reply = Payload::TopologyOk;
                        io.rpc_reply_to(input, &reply)?;
                        proof {
                            assert(crate::assoc::assoc_has(tv, cluster_state.node_id@)) by {
                                assert(tv[j as int].0 == cluster_state.node_id@);
                            }
                        }
                        Result::Ok(())
                    },
                    Option::None => {
                        proof {
                            lemma_assoc_get_absent(tv, cluster_state.node_id@);
                            assert(!crate::assoc::assoc_has(tv, cluster_state.node_id@)) by {
                                if crate::assoc::assoc_has(tv, cluster_state.node_id@) {
                                    let w = choose|w: int|
                                        0 <= w < tv.len() && tv[w].0 == cluster_state.node_id@;
                                }
                            }
                        }
                        Result::Err(Error::UnexpectedMessage)
                    },
                }
            },
            Payload::Broadcast { message, batch } => {
                let Option::Some(m) = message else {
                    return Result::Err(Error::UnexpectedMessage);
                };
                if batch.is_some() {
                    return Result::Err(Error::UnexpectedMessage);
                }
                let added = set_insert(&mut self.messages, *m);
                let reply = Payload::BroadcastOk;
                io.rpc_reply_to(input, &reply)?;
                Result::Ok(())
            },
            Payload::BroadcastOk => {
                io.rpc_mark_completed(input);
                Result::Ok(())
            },
            Payload::Read => {
                let values = crate::workloads::broadcast::copy_values(&self.messages);
                let reply = Payload::ReadOk { messages: Option::Some(values), value: Option::None };
                io.rpc_reply_to(input, &reply)?;
                Result::Ok(())
            },
            Payload::Gossip { messages } => {
                let ghost sv = seen_view(self.seen@);
                match crate::assoc::assoc_find(&self.seen, input.src.as_str()) {
                    Option::Some(j) => {
                        proof {
                            assert(crate::assoc::assoc_has(sv, input@.src)) by {
                                assert(sv[j as int].0 == input@.src);
                            }
                        }
                        proof {
                            lemma_assoc_get_at(sv, input@.src, j as int);
                        }
                        let added = set_extend(&mut self.messages, messages);
                        let key = self.seen[j].0.clone();
                        let mut entry = (key, Vec::new());
                        self.seen.set_and_swap(j, &mut entry);
                        let mut seen_list = entry.1;
                        let _ = set_extend(&mut seen_list, &added);
                        let ghost new_entry = seen_list@;
                        let key2 = self.seen[j].0.clone();
                        self.seen.set(j, (key2, seen_list));
                        proof {
                            assert(seen_view(self.seen@) =~= sv.update(
                                j as int,
                                (sv[j as int].0, new_entry),
                            ));
                            lemma_assoc_update(sv, j as int, new_entry);
                            assert forall|x: int| 0 <= x < self.seen@.len() implies nums_unique(
                                (#[trigger] self.seen@[x]).1@,
                            ) by {
                                if x != j {
                                    assert(self.seen@[x] == old(self).seen@[x]);
                                }
                            }
                        }
                        Result::Ok(())
                    },
                    Option::None => {
                        proof {
                            assert(!crate::assoc::assoc_has(sv, input@.src)) by {
                                if crate::assoc::assoc_has(sv, input@.src) {
                                    let w = choose|w: int|
                                        0 <= w < sv.len() && sv[w].0 == input@.src;
                                }
                            }
                        }
                        Result::Err(Error::UnexpectedMessage)
                    },
                }
            },
            _ => Result::Err(Error::UnexpectedMessage),
        }
    }

    /// One gossip pass: to each neighbour in order, one gossip envelope
    /// holding exactly the values that neighbour has not acknowledged,
    /// sent only when there are any; state and pending table untouched.
    /// Sends are fire-and-forget, so the pass itself never fails; only
    /// an exhausted identifier space can silence it.
    #[verifier::loop_isolation(false)]
    #[verifier::rlimit(100)]
    pub fn gossip_tick(&mut self, io: &mut IO, now_ms: u64) -> (r: Result<(), Error>)
        requires
            old(self).wf(),
            old(io).wf(),
        ensures
            final(self).wf(),
            final(io).wf(),
            final(io).node_id@ == old(io).node_id@,
            crate::io::history_extends(old(io).history@, final(io).history@),
            *final(self) == *old(self),
            final(io).pending_view() == old(io).pending_view(),
            r is Ok,
            old(io).seq + old(self).neighbours@.len() <= u64::MAX ==> final(io).history@ == old(
                io,
            ).history@ + gossip_msgs(
                strs_view(old(self).neighbours@),
                old(self).messages@,
                seen_view(old(self).seen@),
                old(io).node_id@,
                old(io).seq as int,
            ),
    {
        let ghost nv = strs_view(self.neighbours@);
        let ghost msgs = self.messages@;
        let ghost seen0 = seen_view(self.seen@);
        let ghost src = io.node_id@;
        let ghost seq0 = io.seq;
        let ghost hist0 = io.history@;
        let ghost full = gossip_msgs(nv, msgs, seen0, src, seq0 as int);
        proof {
            assert(nv.skip(0) =~= nv);
            assert(io.history@.skip(hist0.len() as int) =~= Seq::<MessageV>::empty());
            assert(Seq::<MessageV>::empty() + full =~= full);
        }
        let n = self.neighbours.len();
        let mut i: usize = 0;
        while i < n
            invariant
                0 <= i <= n,
                n == self.neighbours@.len(),
                self.wf(),
                io.wf(),
                io.node_id@ == old(io).node_id@,
                crate::io::history_extends(old(io).history@, io.history@),
                *self == *old(self),
                io.pending_view() == old(io).pending_view(),
                seq0 + n <= u64::MAX ==> {
                    &&& seq0 <= io.seq <= seq0 + i
                    &&& io.history@.len() - hist0.len() == io.seq - seq0
                    &&& full == io.history@.skip(hist0.len() as int) + gossip_msgs(
                        nv.skip(i as int),
                        msgs,
                        seen0,
                        src,
                        io.seq as int,
                    )
                },
            decreases n - i,
        {
            proof {
                assert(nv.skip(i as int)[0] == nv[i as int]);
                assert(nv.skip(i as int).drop_first() =~= nv.skip(i + 1));
            }
            let ghost sn = match assoc_get(seen0, nv[i as int]) {
                Option::Some(v) => v,
                Option::None => Seq::<u64>::empty(),
            };
            let dst_seen: Vec<u64> = match crate::assoc::assoc_find(
                &self.seen,
                self.neighbours[i].as_str(),
            ) {
                Option::Some(j) => {
                    proof {
                        lemma_assoc_get_at(seen_view(self.seen@), nv[i as int], j as int);
                    }
                    copy_values(&self.seen[j].1)
                },
                Option::None => {
                    proof {
                        lemma_assoc_get_absent(seen_view(self.seen@), nv[i as int]);
                    }
                    Vec::new()
                },
            };
            proof {
                assert(dst_seen@ == sn);
            }
            let mut to_send: Vec<u64> = Vec::new();
            let mut k: usize = 0;
            while k < self.messages.len()
                invariant
                    0 <= k <= self.messages@.len(),
                    dst_seen@ == sn,
                    to_send@ == msgs.subrange(0, k as int).filter(|m: u64| !sn.contains(m)),
                decreases self.messages@.len() - k,
            {
                proof {
                    reveal_with_fuel(Seq::filter, 2);
                    assert(msgs.subrange(0, k + 1).drop_last() =~= msgs.subrange(0, k as int));
                    assert(msgs.subrange(0, k + 1).last() == msgs[k as int]);
                }
                let m = self.messages[k];
                if !contains_val(&dst_seen, m) {
                    to_send.push(m);
                    proof {
                        assert(to_send@ =~= msgs.subrange(0, k + 1).filter(
                            |x: u64| !sn.contains(x),
                        ));
                    }
                } else {
                    proof {
                        assert(to_send@ =~= msgs.subrange(0, k + 1).filter(
                            |x: u64| !sn.contains(x),
                        ));
                    }
                }
                k = k + 1;
            }
            proof {
                assert(msgs.subrange(0, msgs.len() as int) =~= msgs);
                assert(to_send@ == unseen_by(msgs, seen0, nv[i as int]));
            }
            if to_send.len() > 0 {
                let ghost pre_hist = io.history@;
                let ghost pre_seq = io.seq;
                let gossip = Payload::Gossip { messages: to_send };
                let res = io.fire_and_forget(self.neighbours[i].as_str(), &gossip);
                proof {
                    if seq0 + n <= u64::MAX {
                        assert(pre_seq < u64::MAX);
                        assert(io.history@ == pre_hist.push(
                            envelope(
                                src,
                                nv[i as int],
                                pre_seq,
                                Option::None,
                                PayloadV::Gossip {
                                    messages: unseen_by(msgs, seen0, nv[i as int]),
                                },
                            ),
                        ));
                        assert(io.history@.skip(hist0.len() as int) =~= pre_hist.skip(
                            hist0.len() as int,
                        ).push(io.history@.last()));
                        assert(full =~= io.history@.skip(hist0.len() as int) + gossip_msgs(
                            nv.skip(i + 1),
                            msgs,
                            seen0,
                            src,
                            io.seq as int,
                        ));
                    }
                }
            } else {
                proof {
                    if seq0 + n <= u64::MAX {
                        assert(gossip_msgs(nv.skip(i as int), msgs, seen0, src, io.seq as int)
                            == gossip_msgs(nv.skip(i + 1), msgs, seen0, src, io.seq as int));
                    }
                }
            }
            i = i + 1;
        }
        proof {
            if seq0 + n <= u64::MAX {
                assert(nv.skip(n as int) =~= Seq::<Seq<char>>::empty());
                assert(full =~= io.history@.skip(hist0.len() as int));
                assert(io.history@ =~= hist0 + full);
            }
        }
        Result::Ok(())
    }
}

/// Copy a vector of numbers.
pub fn copy_values(v: &Vec<u64>) -> (r: Vec<u64>)
    ensures
        r@ == v@,
{
    let mut out: Vec<u64> = Vec::new();
    let mut i: usize = 0;
    while i < v.len()
        invariant
            0 <= i <= v@.len(),
            out@ == v@.subrange(0, i as int),
        decreases v@.len() - i,
    {
        out.push(v[i]);
        proof {
            assert(out@ =~= v@.subrange(0, i + 1));
        }
        i = i + 1;
    }
    proof {
        assert(v@.subrange(0, v@.len() as int) =~= v@);
    }
    out
}

impl Server<Timer> for BroadcastServer {
    open spec fn wf(&self) -> bool {
        BroadcastServer::wf(*self)
    }

    fn init(cluster_state: &ClusterState, timers: &mut Timers<Timer>, now_ms: u64) -> (r: Result<
        Self,
        Error,
    >)
        ensures
            r is Ok,
            final(timers).regs@.len() == old(timers).regs@.len() + 1,
            forall|i: int|
                0 <= i < old(timers).regs@.len() ==> final(timers).regs@[i] == old(
                    timers,
                ).regs@[i],
            final(timers).regs@.last().timer is Gossip,
            final(timers).regs@.last().interval == 1000,
            final(timers).regs@.last().last_fire == now_ms,
            final(timers).regs@.last().fires@ == Seq::<u64>::empty(),
            (r->Ok_0).messages@.len() == 0,
            (r->Ok_0).neighbours@.len() == 0,
            forall|key: Seq<char>|
                #[trigger] assoc_get(seen_view((r->Ok_0).seen@), key) == (if strs_view(
                    cluster_state.node_ids@,
                ).contains(key) {
                    Option::Some(Seq::<u64>::empty())
                } else {
                    Option::<Seq<u64>>::None
                }),
    {
        timers.register_timer(Timer::Gossip, 1000, now_ms);
        let mut seen: Vec<(String, Vec<u64>)> = Vec::new();
        let mut i: usize = 0;
        while i < cluster_state.node_ids.len()
            invariant
                0 <= i <= cluster_state.node_ids@.len(),
                seen@.len() == i,
                forall|k: int| 0 <= k < i ==> seen_view(seen@)[k].0 == cluster_state.node_ids@[k]@,
            decreases cluster_state.node_ids@.len() - i,
        {
            seen.push((cluster_state.node_ids[i].clone(), Vec::new()));
            i = i + 1;
        }
        // Distinct peers may in principle share a name; keep only the
        // first of each so the seen table's keys stay unique.
        let mut unique_seen: Vec<(String, Vec<u64>)> = Vec::new();
        let mut j: usize = 0;
        while j < seen.len()
            invariant
                0 <= j <= seen@.len(),
                assoc_unique(seen_view(unique_seen@)),
                forall|x: int| 0 <= x < unique_seen@.len() ==> (#[trigger] unique_seen@[x]).1@.len()
                    == 0,
                forall|key: Seq<char>|
                    #[trigger] assoc_get(seen_view(unique_seen@), key) == (if (exists|x: int|
                        0 <= x < j && (#[trigger] seen@[x]).0@ == key) {
                        Option::Some(Seq::<u64>::empty())
                    } else {
                        Option::<Seq<u64>>::None
                    }),
            decreases seen@.len() - j,
        {
            let ghost uv = seen_view(unique_seen@);
            let ghost k0 = seen@[j as int].0@;
            match crate::assoc::assoc_find(&unique_seen, seen[j].0.as_str()) {
                Option::Some(w) => {
                    proof {
                        crate::assoc::lemma_assoc_get_at(uv, k0, w as int);
                        assert(uv[w as int].1.len() == 0);
                        assert(uv[w as int].1 =~= Seq::<u64>::empty());
                        assert forall|key: Seq<char>|
                            #[trigger] assoc_get(seen_view(unique_seen@), key) == (if (exists|
                                x: int,
                            |
                                0 <= x < j + 1 && (#[trigger] seen@[x]).0@ == key) {
                                Option::Some(Seq::<u64>::empty())
                            } else {
                                Option::<Seq<u64>>::None
                            }) by {
                            if key == k0 {
                                assert(assoc_get(uv, k0) == Option::Some(uv[w as int].1));
                            } else {
                                assert(forall|x: int|
                                    0 <= x < j + 1 && (#[trigger] seen@[x]).0@ == key <==> 0 <= x
                                        < j && seen@[x].0@ == key);
                            }
                        }
                    }
                },
                Option::None => {
                    let key = seen[j].0.clone();
                    unique_seen.push((key, Vec::new()));
                    proof {
                        assert(seen_view(unique_seen@) =~= uv.push((k0, Seq::<u64>::empty())));
                        assert(!crate::assoc::assoc_has(uv, k0)) by {
                            if crate::assoc::assoc_has(uv, k0) {
                                let w = choose|w: int| 0 <= w < uv.len() && uv[w].0 == k0;
                            }
                        }
                        crate::assoc::lemma_assoc_push(uv, k0, Seq::<u64>::empty());
                        assert forall|key: Seq<char>|
                            #[trigger] assoc_get(seen_view(unique_seen@), key) == (if (exists|
                                x: int,
                            |
                                0 <= x < j + 1 && (#[trigger] seen@[x]).0@ == key) {
                                Option::Some(Seq::<u64>::empty())
                            } else {
                                Option::<Seq<u64>>::None
                            }) by {
                            if key == k0 {
                            } else {
                                assert(assoc_get(seen_view(unique_seen@), key) == assoc_get(
                                    uv,
                                    key,
                                ));
                                assert(forall|x: int|
                                    0 <= x < j + 1 && (#[trigger] seen@[x]).0@ == key <==> 0 <= x
                                        < j && seen@[x].0@ == key);
                            }
                        }
                    }
                },
            }
            j = j + 1;
        }
        let server = BroadcastServer { messages: Vec::new(), seen: unique_seen, neighbours: Vec::new() };
        proof {
            assert forall|x: int| 0 <= x < server.seen@.len() implies nums_unique(
                (#[trigger] server.seen@[x]).1@,
            ) by {}
            let nv = strs_view(cluster_state.node_ids@);
            assert forall|key: Seq<char>|
                #[trigger] assoc_get(seen_view(server.seen@), key) == (if nv.contains(key) {
                    Option::Some(Seq::<u64>::empty())
                } else {
                    Option::<Seq<u64>>::None
                }) by {
                if nv.contains(key) {
                    let y = choose|y: int| 0 <= y < nv.len() && nv[y] == key;
                    assert(seen@[y].0@ == cluster_state.node_ids@[y]@);
                    assert(seen_view(seen@)[y].0 == seen@[y].0@);
                    assert(exists|x: int|
                        0 <= x < seen@.len() && (#[trigger] seen@[x]).0@ == key);
                } else {
                    if exists|x: int| 0 <= x < seen@.len() && (#[trigger] seen@[x]).0@ == key {
                        let x = choose|x: int|
                            0 <= x < seen@.len() && (#[trigger] seen@[x]).0@ == key;
                        assert(seen_view(seen@)[x].0 == cluster_state.node_ids@[x]@);
                        assert(nv[x] == key);
                    }
                }
            }
        }
        Result::Ok(server)
    }

    fn on_message(
        &mut self,
        cluster_state: &ClusterState,
        io: &mut IO,
        input: Message,
        now_ms: u64,
    ) -> Result<(), Error> {
        let r = self.handle(cluster_state, io, &input);
        proof {
            crate::io::lemma_history_extends(old(io).history@, io.history@);
        }
        r
    }

    fn on_timer(
        &mut self,
        cluster_state: &ClusterState,
        io: &mut IO,
        tag: Timer,
        now_ms: u64,
    ) -> Result<(), Error> {
        let r = self.gossip_tick(io, now_ms);
        proof {
            crate::io::lemma_history_extends(old(io).history@, io.history@);
        }
        r
    }

    fn on_rpc_timeout(&mut self, cluster_state: &ClusterState, timeout: Request) -> Result<
        (),
        Error,
    > {
        Result::Ok(())
    }
}

} // verus!
