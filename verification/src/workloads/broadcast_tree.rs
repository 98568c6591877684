//! The tree-broadcast workload: the fixed two-root tree, each value
//! forwarded along its edges with retries, plus random gossip.

use rand::seq::SliceRandom;
use vstd::prelude::*;

use crate::assoc::peers_except;
use crate::io::{envelope, request_msgs, request_recs, ClusterState, Request, IO};
use crate::proto::{strs_view, Message, Payload, PayloadV};
use crate::text::{dec_spec, push_dec, u64_to_string};
use crate::timer::Timers;
use crate::node::Server;
use crate::workloads::broadcast::{new_values, seen_view, set_extend, set_insert, Timer};
use crate::Error;

verus! {

/// The name the harness gives node `k`.
pub open spec fn name_of(k: int) -> Seq<char> {
    seq!['n'] + dec_spec(k as nat)
}

/// Build the name of node `k`.
pub fn node_name(k: u64) -> (r: String)
    ensures
        r@ == name_of(k as int),
{
    proof {
        reveal_strlit("n");
    }
    let mut s: String = "n".to_owned();
    push_dec(k, &mut s);
    proof {
        assert(s@ =~= name_of(k as int));
    }
    s
}

/// The neighbours of node `i` among `n` nodes under the two-root
/// scheme: nodes 0 and 1 are co-roots linked to each other, the rest
/// split in half by index — the larger first half under node 0, the
/// rest under node 1.
pub open spec fn two_root_neighbours(i: int, n: int) -> Seq<Seq<char>> {
    let mid = (n - 1) / 2;
    if i == 0 {
        Seq::new(mid as nat, |t: int| name_of(t + 2)).push(name_of(1))
    } else if i == 1 {
        Seq::new((n - 2 - mid) as nat, |t: int| name_of(t + 2 + mid)).push(name_of(0))
    } else if i < 2 + mid {
        seq![name_of(0)]
    } else {
        seq![name_of(1)]
    }
}

/// Build the two-root neighbour list for node `i` of `n`.
#[verifier::loop_isolation(false)]
pub fn build_two_root(i: u64, n: u64) -> (r: Vec<String>)
    requires
        2 <= n,
        i < n,
    ensures
        strs_view(r@) == two_root_neighbours(i as int, n as int),
{
    let mid: u64 = (n - 1) / 2;
    let mut out: Vec<String> = Vec::new();
    if i == 0 {
        let mut t: u64 = 0;
        while t < mid
            invariant
                0 <= t <= mid,
                out@.len() == t,
                forall|x: int| 0 <= x < t ==> (#[trigger] out@[x])@ == name_of(x + 2),
            decreases mid - t,
        {
            out.push(node_name(t + 2));
            t = t + 1;
        }
        out.push(node_name(1));
        proof {
            assert(strs_view(out@) =~= two_root_neighbours(0, n as int));
        }
    } else if i == 1 {
        let rest: u64 = n - 2 - mid;
        let mut t: u64 = 0;
        while t < rest
            invariant
                0 <= t <= rest,
                out@.len() == t,
                forall|x: int| 0 <= x < t ==> (#[trigger] out@[x])@ == name_of(x + 2 + mid),
            decreases rest - t,
        {
            out.push(node_name(t + 2 + mid));
            t = t + 1;
        }
        out.push(node_name(0));
        proof {
            assert(strs_view(out@) =~= two_root_neighbours(1, n as int));
        }
    } else if i < 2 + mid {
        out.push(node_name(0));
        proof {
            assert(strs_view(out@) =~= seq![name_of(0)]);
        }
    } else {
        out.push(node_name(1));
        proof {
            assert(strs_view(out@) =~= seq![name_of(1)]);
        }
    }
    out
}

/// This node's index under the harness naming, if it has one.
pub fn find_index(node_id: &str, n: u64) -> (r: Option<u64>)
    ensures
        match r {
            Option::Some(i) => i < n && node_id@ == name_of(i as int),
            Option::None => forall|k: int| 0 <= k < n ==> node_id@ != name_of(k),
        },
{
    let mut k: u64 = 0;
    while k < n
        invariant
            0 <= k <= n,
            forall|t: int| 0 <= t < k ==> node_id@ != name_of(t),
        decreases n - k,
    {
        let name = node_name(k);
        if crate::proto::str_eq(node_id, name.as_str()) {
            return Option::Some(k);
        }
        k = k + 1;
    }
    Option::None
}

/// Relies on rand's `SliceRandom::choose_multiple`: it yields
/// `min(amount, len)` elements of the slice, drawn by distinct
/// indices, in an order the generator picks.
#[verifier::external_body]
fn choose_nodes(nodes: &Vec<String>, amount: usize) -> (r: Vec<String>)
    ensures
        r@.len() == if amount as int <= nodes@.len() {
            amount as int
        } else {
            nodes@.len() as int
        },
        forall|i: int|
            0 <= i < r@.len() ==> exists|j: int|
                0 <= j < nodes@.len() && (#[trigger] r@[i])@ == nodes@[j]@,
{
    nodes.choose_multiple(&mut rand::thread_rng(), amount).cloned().collect()
}

/// The tree-broadcast handler's state.
pub struct BroadcastServer {
    pub messages: Vec<u64>,
    pub seen: Vec<(String, Vec<u64>)>,
    pub neighbours: Vec<String>,
}

impl BroadcastServer {
    /// The value set is duplicate-free and the seen table's keys are
    /// unique.
    pub open spec fn wf(self) -> bool {
        &&& forall|i: int, j: int|
            0 <= i < j < self.messages@.len() ==> self.messages@[i] != self.messages@[j]
        &&& crate::assoc::assoc_unique(seen_view(self.seen@))
    }

    /// One step of the tree-broadcast protocol.
    ///
    /// A new `broadcast` value is forwarded with retries to every
    /// neighbour but the sender before the acknowledgement; a value
    /// already seen is only acknowledged.  `topology` is acknowledged
    /// and ignored — the tree is fixed at startup.  `gossip` records
    /// the incoming values.  The rest is fatal.
    #[verifier::loop_isolation(false)]
    pub fn handle(
        &mut self,
        cluster_state: &ClusterState,
        io: &mut IO,
        input: &Message,
        now_ms: u64,
    ) -> (r: Result<(), Error>)
        requires
            old(self).wf(),
            old(io).wf(),
        ensures
            final(self).wf(),
            final(io).wf(),
            final(io).node_id@ == old(io).node_id@,
            crate::io::history_extends(old(io).history@, final(io).history@),
            match input@.body.payload {
                PayloadV::Topology { .. } => {
                    &&& (r is Ok <==> old(io).seq < u64::MAX)
                    &&& r is Ok ==> *final(self) == *old(self) && final(io).history@ == old(
                        io,
                    ).history@.push(
                        envelope(
                            old(io).node_id@,
                            input@.src,
                            old(io).seq,
                            input@.body.id,
                            PayloadV::TopologyOk,
                        ),
                    )
                },
                PayloadV::Broadcast { message, batch } => {
                    &&& (r is Ok <==> message is Some && batch is None && {
                        let targets = peers_except(
                            strs_view(old(self).neighbours@),
                            input@.src,
                            Option::None,
                        );
                        if old(self).messages@.contains(message->Some_0) {
                            old(io).seq < u64::MAX
                        } else {
                            old(io).seq + targets.len() + 1 <= u64::MAX
                        }
                    })
                    &&& (r is Ok && !old(self).messages@.contains(message->Some_0) ==> {
                        let m = message->Some_0;
                        let targets = peers_except(
                            strs_view(old(self).neighbours@),
                            input@.src,
                            Option::None,
                        );
                        &&& final(self).messages@ == old(self).messages@.push(m)
                        &&& final(io).pending_view() == old(io).pending_view() + request_recs(
                            targets,
                            old(io).seq as int,
                            PayloadV::Broadcast {
                                message: Option::Some(m),
                                batch: Option::None,
                            },
                            400,
                            now_ms,
                            true,
                        )
                        &&& final(io).history@ == old(io).history@ + request_msgs(
                            targets,
                            old(io).node_id@,
                            old(io).seq as int,
                            PayloadV::Broadcast {
                                message: Option::Some(m),
                                batch: Option::None,
                            },
                        ).push(
                            envelope(
                                old(io).node_id@,
                                input@.src,
                                (old(io).seq + targets.len()) as u64,
                                input@.body.id,
                                PayloadV::BroadcastOk,
                            ),
                        )
                    })
                    &&& (r is Ok && old(self).messages@.contains(message->Some_0)
                        ==> final(self).messages@ == old(self).messages@
                        && final(io).history@ == old(io).history@.push(
                        envelope(
                            old(io).node_id@,
                            input@.src,
                            old(io).seq,
                            input@.body.id,
                            PayloadV::BroadcastOk,
                        ),
                    ))
                },
                PayloadV::BroadcastOk => r is Ok && *final(self) == *old(self) && final(io).pending_view()
                    == crate::io::mark_completed_spec(old(io).pending_view(), input@.body.in_reply_to)
                    && final(io).history@ == old(io).history@,
                PayloadV::Read => {
                    &&& (r is Ok <==> old(io).seq < u64::MAX)
                    &&& r is Ok ==> *final(self) == *old(self) && final(io).history@ == old(
                        io,
                    ).history@.push(
                        envelope(
                            old(io).node_id@,
                            input@.src,
                            old(io).seq,
                            input@.body.id,
                            PayloadV::ReadOk {
                                messages: Option::Some(old(self).messages@),
                                value: Option::None,
                            },
                        ),
                    )
                },
                PayloadV::Gossip { messages } => r is Ok && final(self).messages@
                    == old(self).messages@ + new_values(old(self).messages@, messages)
                    && *final(io) == *old(io),
                _ => r is Err,
            },
    {
        match &input.body.payload {
            Payload::Topology { .. } => {
                let reply = Payload::TopologyOk;
                io.rpc_reply_to(input, &reply)?;
                Result::Ok(())
            },
            Payload::Broadcast { message, batch } => {
                let Option::Some(m) = message else {
                    return Result::Err(Error::UnexpectedMessage);
                };
                if batch.is_some() {
                    return Result::Err(Error::UnexpectedMessage);
                }
                let added = set_insert(&mut self.messages, *m);
                if added {
                    let targets = crate::assoc::filter_peers(
                        &self.neighbours,
                        input.src.as_str(),
                        Option::None,
                    );
                    let forward = Payload::Broadcast {
                        message: Option::Some(*m),
                        batch: Option::None,
                    };
                    io.rpc_request_all(&targets, &forward, 400, true, now_ms)?;
                }
                let reply = Payload::BroadcastOk;
                io.rpc_reply_to(input, &reply)?;
                Result::Ok(())
            },
            Payload::BroadcastOk => {
                io.rpc_mark_completed(input);
                Result::Ok(())
            },
            Payload::Read => {
                let values = crate::workloads::broadcast::copy_values(&self.messages);
                let reply = Payload::ReadOk { messages: Option::Some(values), value: Option::None };
                io.rpc_reply_to(input, &reply)?;
                Result::Ok(())
            },
            Payload::Gossip { messages } => {
                let _ = set_extend(&mut self.messages, messages);
                Result::Ok(())
            },
            _ => Result::Err(Error::UnexpectedMessage),
        }
    }

    /// One gossip pass: with a non-empty value set, the whole set goes
    /// to `min(5, cluster size)` peers the generator picks, one gossip
    /// envelope each; with an empty set, nothing happens.  Whatever the
    /// draw, every envelope goes to a cluster member; only an exhausted
    /// identifier space can fail the pass, changing nothing.
    pub fn gossip_tick(&mut self, cluster_state: &ClusterState, io: &mut IO) -> (r: Result<
        (),
        Error,
    >)
        requires
            old(self).wf(),
            old(io).wf(),
        ensures
            final(self).wf(),
            final(io).wf(),
            final(io).node_id@ == old(io).node_id@,
            crate::io::history_extends(old(io).history@, final(io).history@),
            *final(self) == *old(self),
            final(io).pending_view() == old(io).pending_view(),
            r is Ok <==> old(self).messages@.len() == 0 || old(io).seq + draw_count(
                cluster_state.node_ids@.len() as int,
            ) <= u64::MAX,
            r is Err ==> *final(io) == *old(io),
            old(self).messages@.len() == 0 ==> *final(io) == *old(io),
            r is Ok && old(self).messages@.len() > 0 ==> (exists|targets: Seq<Seq<char>>|
                {
                    &&& targets.len() == draw_count(cluster_state.node_ids@.len() as int)
                    &&& #[trigger] drawn_from(targets, strs_view(cluster_state.node_ids@))
                    &&& final(io).history@ == old(io).history@ + request_msgs(
                        targets,
                        old(io).node_id@,
                        old(io).seq as int,
                        PayloadV::Gossip { messages: old(self).messages@ },
                    )
                }),
    {
        let targets = choose_nodes(&cluster_state.node_ids, 5);
        if self.messages.len() > 0 {
            let values = crate::workloads::broadcast::copy_values(&self.messages);
            let gossip = Payload::Gossip { messages: values };
            io.send_all(&targets, &gossip, 0)?;
            proof {
                let tv = strs_view(targets@);
                assert(tv.len() == draw_count(cluster_state.node_ids@.len() as int));
                let sv = strs_view(cluster_state.node_ids@);
                assert forall|x: int| 0 <= x < tv.len() implies sv.contains(
                    #[trigger] tv[x],
                ) by {
                    assert(tv[x] == targets@[x]@);
                    let y = choose|y: int|
                        0 <= y < cluster_state.node_ids@.len() && targets@[x]@
                            == cluster_state.node_ids@[y]@;
                    assert(sv[y] == cluster_state.node_ids@[y]@);
                    assert(sv[y] == tv[x]);
                }
                assert(drawn_from(tv, sv));
                assert(io.history@ == old(io).history@ + request_msgs(
                    tv,
                    old(io).node_id@,
                    old(io).seq as int,
                    PayloadV::Gossip { messages: old(self).messages@ },
                ));
            }
        }
        Result::Ok(())
    }
}

/// Whether every one of `targets` names a cluster member.
pub open spec fn drawn_from(targets: Seq<Seq<char>>, nodes: Seq<Seq<char>>) -> bool {
    forall|x: int| 0 <= x < targets.len() ==> nodes.contains(#[trigger] targets[x])
}

/// How many peers one random gossip pass reaches in a cluster of `n`.
pub open spec fn draw_count(n: int) -> int {
    if n < 5 {
        n
    } else {
        5
    }
}

impl Server<Timer> for BroadcastServer {
    open spec fn wf(&self) -> bool {
        BroadcastServer::wf(*self)
    }

    fn init(cluster_state: &ClusterState, timers: &mut Timers<Timer>, now_ms: u64) -> (r: Result<
        Self,
        Error,
    >)
        ensures
            *final(timers) == *old(timers),
            r is Ok <==> cluster_state.node_ids@.len() >= 2 && (exists|i: int|
                0 <= i < cluster_state.node_ids@.len() && cluster_state.node_id@ == #[trigger] name_of(
                    i,
                )),
            r is Ok ==> (r->Ok_0).messages@.len() == 0 && (r->Ok_0).seen@.len() == 0 && (exists|
                i: int,
            |
                0 <= i < cluster_state.node_ids@.len() && cluster_state.node_id@
                    == #[trigger] name_of(i) && strs_view((r->Ok_0).neighbours@)
                    == two_root_neighbours(i, cluster_state.node_ids@.len() as int)),
    {
        let n = cluster_state.node_ids.len() as u64;
        if n < 2 {
            return Result::Err(Error::UnexpectedMessage);
        }
        let Option::Some(i) = find_index(cluster_state.node_id.as_str(), n) else {
            return Result::Err(Error::UnexpectedMessage);
        };
        let neighbours = build_two_root(i, n);
        let server = BroadcastServer { messages: Vec::new(), seen: Vec::new(), neighbours };
        proof {
            assert(seen_view(server.seen@) =~= Seq::<(Seq<char>, Seq<u64>)>::empty());
            assert(0 <= i < cluster_state.node_ids@.len() && cluster_state.node_id@ == name_of(
                i as int,
            ) && strs_view(server.neighbours@) == two_root_neighbours(
                i as int,
                cluster_state.node_ids@.len() as int,
            ));
        }
        Result::Ok(server)
    }

    fn on_message(
        &mut self,
        cluster_state: &ClusterState,
        io: &mut IO,
        input: Message,
        now_ms: u64,
    ) -> Result<(), Error> {
        let r = self.handle(cluster_state, io, &input, now_ms);
        proof {
            crate::io::lemma_history_extends(old(io).history@, io.history@);
        }
        r
    }

    fn on_timer(
        &mut self,
        cluster_state: &ClusterState,
        io: &mut IO,
        tag: Timer,
        now_ms: u64,
    ) -> Result<(), Error> {
        let r = self.gossip_tick(cluster_state, io);
        proof {
            crate::io::lemma_history_extends(old(io).history@, io.history@);
        }
        r
    }

    fn on_rpc_timeout(&mut self, cluster_state: &ClusterState, timeout: Request) -> Result<
        (),
        Error,
    > {
        Result::Ok(())
    }
}

} // verus!
