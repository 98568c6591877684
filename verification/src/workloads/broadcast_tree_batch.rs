//! The batched tree-broadcast workload: two co-roots share the cluster,
//! and unacknowledged values travel in batches on each gossip tick.

use vstd::prelude::*;

use crate::io::{envelope, request_msgs, request_recs, ClusterState, Request, IO};
use crate::proto::{strs_view, Message, Payload, PayloadV};
use crate::timer::Timers;
use crate::node::Server;
use crate::workloads::broadcast::{new_values, seen_view, set_extend, set_insert, Timer};
use crate::workloads::broadcast_tree::{build_two_root, find_index, name_of, two_root_neighbours};
use crate::Error;

verus! {

/// The batched tree-broadcast handler's state: the values seen, and an
/// outbox of values not yet pushed to the neighbours.
pub struct BroadcastServer {
    pub messages: Vec<u64>,
    pub seen: Vec<(String, Vec<u64>)>,
    pub neighbours: Vec<String>,
    pub outbox: Vec<u64>,
}

impl BroadcastServer {
    /// Value set and outbox are duplicate-free; seen keys unique.
    pub open spec fn wf(self) -> bool {
        &&& forall|i: int, j: int|
            0 <= i < j < self.messages@.len() ==> self.messages@[i] != self.messages@[j]
        &&& forall|i: int, j: int|
            0 <= i < j < self.outbox@.len() ==> self.outbox@[i] != self.outbox@[j]
        &&& crate::assoc::assoc_unique(seen_view(self.seen@))
    }

    /// One step of the batched protocol.
    ///
    /// A `broadcast` carries one value or a batch, never both — both
    /// present is a fatal decode error, both absent fatal too.  New
    /// values join the set and the outbox; the reply acknowledges.
    /// `gossip` records incoming values.  The rest is fatal.
    #[verifier::loop_isolation(false)]
    pub fn handle(
        &mut self,
        cluster_state: &ClusterState,
        io: &mut IO,
        input: &Message,
    ) -> (r: Result<(), Error>)
        requires
            old(self).wf(),
            old(io).wf(),
        ensures
            final(self).wf(),
            final(io).wf(),
            final(io).node_id@ == old(io).node_id@,
            crate::io::history_extends(old(io).history@, final(io).history@),
            match input@.body.payload {
                PayloadV::Topology { .. } => {
                    &&& (r is Ok <==> old(io).seq < u64::MAX)
                    &&& r is Ok ==> *final(self) == *old(self) && final(io).history@ == old(
                        io,
                    ).history@.push(
                        envelope(
                            old(io).node_id@,
                            input@.src,
                            old(io).seq,
                            input@.body.id,
                            PayloadV::TopologyOk,
                        ),
                    )
                },
                PayloadV::Broadcast { message, batch } => {
                    &&& (r is Ok <==> (message is Some <==> !(batch is Some)) && old(io).seq
                        < u64::MAX)
                    &&& (r is Ok && message is Some && batch is None ==> {
                        let m = message->Some_0;
                        &&& final(self).messages@ == old(self).messages@ + new_values(
                            old(self).messages@,
                            seq![m],
                        )
                        &&& final(self).outbox@ == old(self).outbox@ + new_values(
                            old(self).outbox@,
                            new_values(old(self).messages@, seq![m]),
                        )
                        &&& final(io).history@ == old(io).history@.push(
                            envelope(
                                old(io).node_id@,
                                input@.src,
                                old(io).seq,
                                input@.body.id,
                                PayloadV::BroadcastOk,
                            ),
                        )
                    })
                    &&& (r is Ok && message is None && batch is Some ==> {
                        let b = batch->Some_0;
                        &&& final(self).messages@ == old(self).messages@ + new_values(
                            old(self).messages@,
                            b,
                        )
                        &&& final(self).outbox@ == old(self).outbox@ + new_values(
                            old(self).outbox@,
                            b,
                        )
                        &&& final(io).history@ == old(io).history@.push(
                            envelope(
                                old(io).node_id@,
                                input@.src,
                                old(io).seq,
                                input@.body.id,
                                PayloadV::BroadcastOk,
                            ),
                        )
                    })
                },
                PayloadV::BroadcastOk => r is Ok && *final(self) == *old(self) && final(io).pending_view()
                    == crate::io::mark_completed_spec(old(io).pending_view(), input@.body.in_reply_to)
                    && final(io).history@ == old(io).history@,
                PayloadV::Read => {
                    &&& (r is Ok <==> old(io).seq < u64::MAX)
                    &&& r is Ok ==> *final(self) == *old(self) && final(io).history@ == old(
                        io,
                    ).history@.push(
                        envelope(
                            old(io).node_id@,
                            input@.src,
                            old(io).seq,
                            input@.body.id,
                            PayloadV::ReadOk {
                                messages: Option::Some(old(self).messages@),
                                value: Option::None,
                            },
                        ),
                    )
                },
                PayloadV::Gossip { messages } => r is Ok && final(self).messages@
                    == old(self).messages@ + new_values(old(self).messages@, messages)
                    && *final(io) == *old(io),
                _ => r is Err,
            },
    {
        match &input.body.payload {
            Payload::Topology { .. } => {
                let reply = Payload::TopologyOk;
                io.rpc_reply_to(input, &reply)?;
                Result::Ok(())
            },
            Payload::Broadcast { message, batch } => {
                match (message, batch) {
                    (Option::Some(m), Option::None) => {
                        let added = set_insert(&mut self.messages, *m);
                        proof {
                            reveal_with_fuel(new_values, 2);
                            assert(seq![input@.body.payload->Broadcast_message->Some_0].drop_first()
                                =~= Seq::<u64>::empty());
                        }
                        if added {
                            let _ = set_insert(&mut self.outbox, *m);
                            proof {
                                reveal_with_fuel(new_values, 2);
                                assert(final(self).outbox@ == old(self).outbox@ + new_values(
                                    old(self).outbox@,
                                    new_values(
                                        old(self).messages@,
                                        seq![input@.body.payload->Broadcast_message->Some_0],
                                    ),
                                )) by {
                                    reveal_with_fuel(new_values, 3);
                                    if old(self).outbox@.contains(
                                        input@.body.payload->Broadcast_message->Some_0,
                                    ) {
                                        assert(self.outbox@ =~= old(self).outbox@ + new_values(
                                            old(self).outbox@,
                                            new_values(
                                                old(self).messages@,
                                                seq![
                                                    input@.body.payload->Broadcast_message->Some_0,
                                                ],
                                            ),
                                        ));
                                    } else {
                                        assert(self.outbox@ =~= old(self).outbox@ + new_values(
                                            old(self).outbox@,
                                            new_values(
                                                old(self).messages@,
                                                seq![
                                                    input@.body.payload->Broadcast_message->Some_0,
                                                ],
                                            ),
                                        ));
                                    }
                                }
                            }
                        } else {
                            proof {
                                reveal_with_fuel(new_values, 2);
                                assert(self.messages@ =~= old(self).messages@ + new_values(
                                    old(self).messages@,
                                    seq![input@.body.payload->Broadcast_message->Some_0],
                                ));
                                assert(self.outbox@ =~= old(self).outbox@ + new_values(
                                    old(self).outbox@,
                                    new_values(
                                        old(self).messages@,
                                        seq![input@.body.payload->Broadcast_message->Some_0],
                                    ),
                                ));
                            }
                        }
                        let reply = Payload::BroadcastOk;
                        io.rpc_reply_to(input, &reply)?;
                        Result::Ok(())
                    },
                    (Option::None, Option::Some(b)) => {
                        let added = set_extend(&mut self.messages, b);
                        let _ = set_extend(&mut self.outbox, b);
                        let reply = Payload::BroadcastOk;
                        io.rpc_reply_to(input, &reply)?;
                        Result::Ok(())
                    },
                    _ => Result::Err(Error::Decode),
                }
            },
            Payload::BroadcastOk => {
                io.rpc_mark_completed(input);
                Result::Ok(())
            },
            Payload::Read => {
                let values = crate::workloads::broadcast::copy_values(&self.messages);
                let reply = Payload::ReadOk { messages: Option::Some(values), value: Option::None };
                io.rpc_reply_to(input, &reply)?;
                Result::Ok(())
            },
            Payload::Gossip { messages } => {
                let _ = set_extend(&mut self.messages, messages);
                Result::Ok(())
            },
            _ => Result::Err(Error::UnexpectedMessage),
        }
    }

    /// One gossip tick: push the outbox, when it holds anything, as a
    /// batch to every neighbour with retries, then clear it.
    pub fn gossip_tick(&mut self, io: &mut IO, now_ms: u64) -> (r: Result<(), Error>)
        requires
            old(self).wf(),
            old(io).wf(),
        ensures
            final(self).wf(),
            final(io).wf(),
            final(io).node_id@ == old(io).node_id@,
            crate::io::history_extends(old(io).history@, final(io).history@),
            final(self).messages@ == old(self).messages@,
            final(self).neighbours@ == old(self).neighbours@,
            r is Ok <==> old(self).outbox@.len() == 0 || old(io).seq + old(
                self,
            ).neighbours@.len() <= u64::MAX,
            r is Err ==> *final(self) == *old(self) && *final(io) == *old(io),
            r is Ok && old(self).outbox@.len() > 0 ==> final(self).outbox@ == Seq::<u64>::empty()
                && final(io).history@ == old(io).history@ + request_msgs(
                strs_view(old(self).neighbours@),
                old(io).node_id@,
                old(io).seq as int,
                PayloadV::Broadcast {
                    message: Option::None,
                    batch: Option::Some(old(self).outbox@),
                },
            ) && final(io).pending_view() == old(io).pending_view() + request_recs(
                strs_view(old(self).neighbours@),
                old(io).seq as int,
                PayloadV::Broadcast {
                    message: Option::None,
                    batch: Option::Some(old(self).outbox@),
                },
                400,
                now_ms,
                true,
            ),
            old(self).outbox@.len() == 0 ==> r is Ok && *final(self) == *old(self) && *final(io)
                == *old(io),
    {
        if self.outbox.len() > 0 {
            let batch = crate::workloads::broadcast::copy_values(&self.outbox);
            let payload = Payload::Broadcast { message: Option::None, batch: Option::Some(batch) };
            io.rpc_request_all(&self.neighbours, &payload, 400, true, now_ms)?;
            self.outbox = Vec::new();
        }
        Result::Ok(())
    }
}

impl Server<Timer> for BroadcastServer {
    open spec fn wf(&self) -> bool {
        BroadcastServer::wf(*self)
    }

    fn init(cluster_state: &ClusterState, timers: &mut Timers<Timer>, now_ms: u64) -> (r: Result<
        Self,
        Error,
    >)
        ensures
            final(timers).regs@.len() == old(timers).regs@.len() + 1,
            forall|i: int|
                0 <= i < old(timers).regs@.len() ==> final(timers).regs@[i] == old(
                    timers,
                ).regs@[i],
            final(timers).regs@.last().timer is Gossip,
            final(timers).regs@.last().interval == 250,
            final(timers).regs@.last().last_fire == now_ms,
            final(timers).regs@.last().fires@ == Seq::<u64>::empty(),
            r is Ok <==> cluster_state.node_ids@.len() >= 2 && (exists|i: int|
                0 <= i < cluster_state.node_ids@.len() && cluster_state.node_id@ == #[trigger] name_of(
                    i,
                )),
            r is Ok ==> (r->Ok_0).messages@.len() == 0 && (r->Ok_0).outbox@.len() == 0 && (
            r->Ok_0).seen@.len() == 0 && (exists|i: int|
                0 <= i < cluster_state.node_ids@.len() && cluster_state.node_id@
                    == #[trigger] name_of(i) && strs_view((r->Ok_0).neighbours@)
                    == two_root_neighbours(i, cluster_state.node_ids@.len() as int)),
    {
        timers.register_timer(Timer::Gossip, 250, now_ms);
        let n = cluster_state.node_ids.len() as u64;
        if n < 2 {
            return Result::Err(Error::UnexpectedMessage);
        }
        let Option::Some(i) = find_index(cluster_state.node_id.as_str(), n) else {
            return Result::Err(Error::UnexpectedMessage);
        };
        let neighbours = build_two_root(i, n);
        let server = BroadcastServer {
            messages: Vec::new(),
            seen: Vec::new(),
            neighbours,
            outbox: Vec::new(),
        };
        proof {
            assert(seen_view(server.seen@) =~= Seq::<(Seq<char>, Seq<u64>)>::empty());
            assert(0 <= i < cluster_state.node_ids@.len() && cluster_state.node_id@ == name_of(
                i as int,
            ) && strs_view(server.neighbours@) == two_root_neighbours(
                i as int,
                cluster_state.node_ids@.len() as int,
            ));
        }
        Result::Ok(server)
    }

    fn on_message(
        &mut self,
        cluster_state: &ClusterState,
        io: &mut IO,
        input: Message,
        now_ms: u64,
    ) -> Result<(), Error> {
        let r = self.handle(cluster_state, io, &input);
        proof {
            crate::io::lemma_history_extends(old(io).history@, io.history@);
        }
        r
    }

    fn on_timer(
        &mut self,
        cluster_state: &ClusterState,
        io: &mut IO,
        tag: Timer,
        now_ms: u64,
    ) -> Result<(), Error> {
        let r = self.gossip_tick(io, now_ms);
        proof {
            crate::io::lemma_history_extends(old(io).history@, io.history@);
        }
        r
    }

    fn on_rpc_timeout(&mut self, cluster_state: &ClusterState, timeout: Request) -> Result<
        (),
        Error,
    > {
        Result::Ok(())
    }
}

} // verus!
