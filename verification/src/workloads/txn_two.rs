//! The replicated transactional key-value workload: writes are applied
//! locally and replicated to every peer with retries; late replication
//! acknowledgements are discarded by the pending-table guard.

use vstd::prelude::*;

use crate::io::{envelope, request_msgs, request_recs, ClusterState, Request, IO};
use crate::proto::{strs_view, Message, Op, Payload, PayloadV};
use crate::timer::Timers;
use crate::node::Server;
use crate::workloads::txn_single::{apply_txn, txn_result, txn_store, txn_writes};
use crate::Error;
use std::collections::HashMap;

verus! {

broadcast use vstd::std_specs::hash::group_hash_axioms;

/// The replicated transactional key-value handler.
pub struct TxnKVServer {
    pub store: HashMap<u64, u64>,
}

impl TxnKVServer {
    /// One step of the replicated store.
    ///
    /// `txn` runs the transaction, replicates its writes (when any) to
    /// every peer with retries, and answers `txn_ok`; `replicate`
    /// applies the writes and acknowledges; `replicate_ok` closes its
    /// pending request; a late reply of any other kind is discarded;
    /// anything else — a `replicate` that keys a live request of this
    /// node's own included — is fatal.
    pub fn handle(
        &mut self,
        cluster_state: &ClusterState,
        io: &mut IO,
        input: &Message,
        now_ms: u64,
    ) -> (r: Result<(), Error>)
        requires
            old(io).wf(),
        ensures
            final(io).wf(),
            final(io).node_id@ == old(io).node_id@,
            crate::io::history_extends(old(io).history@, final(io).history@),
            match input@.body.payload {
                PayloadV::Txn { txn } => {
                    let peers = crate::assoc::peers_except(
                        strs_view(cluster_state.node_ids@),
                        cluster_state.node_id@,
                        Option::None,
                    );
                    let writes = txn_writes(txn);
                    &&& (r is Ok <==> (if writes.len() == 0 {
                        old(io).seq < u64::MAX
                    } else {
                        old(io).seq + peers.len() + 1 <= u64::MAX
                    }))
                    &&& r is Ok ==> {
                    &&& final(self).store@ == txn_store(old(self).store@, txn)
                    &&& (writes.len() > 0 ==> final(io).pending_view() == old(io).pending_view()
                        + request_recs(
                        peers,
                        old(io).seq as int,
                        PayloadV::Replicate { delta: Option::None, ops: Option::Some(writes) },
                        500,
                        now_ms,
                        true,
                    ))
                    &&& (writes.len() > 0 ==> final(io).history@ == old(io).history@
                        + request_msgs(
                        peers,
                        old(io).node_id@,
                        old(io).seq as int,
                        PayloadV::Replicate { delta: Option::None, ops: Option::Some(writes) },
                    ).push(
                        envelope(
                            old(io).node_id@,
                            input@.src,
                            (old(io).seq + peers.len()) as u64,
                            input@.body.id,
                            PayloadV::TxnOk { txn: txn_result(old(self).store@, txn) },
                        ),
                    ))
                    &&& (writes.len() == 0 ==> final(io).history@ == old(io).history@.push(
                        envelope(
                            old(io).node_id@,
                            input@.src,
                            old(io).seq,
                            input@.body.id,
                            PayloadV::TxnOk { txn: txn_result(old(self).store@, txn) },
                        ),
                    ))
                    }
                },
                PayloadV::Replicate { delta, ops } => {
                    &&& (r is Ok <==> ops is Some && !(input@.body.in_reply_to is Some
                        && crate::io::has_pending(
                        old(io).pending_view(),
                        input@.body.in_reply_to->Some_0,
                    )) && old(io).seq < u64::MAX)
                    &&& r is Ok ==> {
                        let w = ops->Some_0;
                        &&& final(self).store@ == txn_store(old(self).store@, w)
                        &&& final(io).history@ == old(io).history@.push(
                            envelope(
                                old(io).node_id@,
                                input@.src,
                                old(io).seq,
                                input@.body.id,
                                PayloadV::ReplicateOk,
                            ),
                        )
                    }
                },
                PayloadV::ReplicateOk => r is Ok && *final(self) == *old(self) && final(io).pending_view()
                    == crate::io::mark_completed_spec(old(io).pending_view(), input@.body.in_reply_to)
                    && final(io).history@ == old(io).history@,
                _ => {
                    &&& (r is Ok <==> input@.body.in_reply_to is Some && !crate::io::has_pending(
                        old(io).pending_view(),
                        input@.body.in_reply_to->Some_0,
                    ))
                    &&& *final(self) == *old(self)
                    &&& *final(io) == *old(io)
                },
            },
    {
        match &input.body.payload {
            Payload::Txn { txn } => {
                let pair = apply_txn(&mut self.store, txn);
                let result = pair.0;
                let writes = pair.1;
                if writes.len() > 0 {
                    let peers = crate::assoc::filter_peers(
                        &cluster_state.node_ids,
                        cluster_state.node_id.as_str(),
                        Option::None,
                    );
                    let replicate = Payload::Replicate {
                        delta: Option::None,
                        ops: Option::Some(writes),
                    };
                    io.rpc_request_all(&peers, &replicate, 500, true, now_ms)?;
                }
                let txn_ok = Payload::TxnOk { txn: result };
                io.rpc_reply_to(input, &txn_ok)?;
                Result::Ok(())
            },
            Payload::Replicate { delta, ops } => {
                let Option::Some(w) = ops else {
                    return Result::Err(Error::UnexpectedMessage);
                };
                if io.rpc_still_pending(input) {
                    return Result::Err(Error::UnexpectedMessage);
                }
                let pair = apply_txn(&mut self.store, w);
                let replicate_ok = Payload::ReplicateOk;
                io.rpc_reply_to(input, &replicate_ok)?;
                Result::Ok(())
            },
            Payload::ReplicateOk => {
                io.rpc_mark_completed(input);
                Result::Ok(())
            },
            _ => {
                if input.body.in_reply_to.is_some() && !io.rpc_still_pending(input) {
                    Result::Ok(())
                } else {
                    Result::Err(Error::UnexpectedMessage)
                }
            },
        }
    }
}

impl Server<()> for TxnKVServer {
    open spec fn wf(&self) -> bool {
        true
    }

    fn init(cluster_state: &ClusterState, timers: &mut Timers<()>, now_ms: u64) -> (r: Result<
        Self,
        Error,
    >)
        ensures
            r is Ok,
            *final(timers) == *old(timers),
            (r->Ok_0).store@ == Map::<u64, u64>::empty(),
    {
        Result::Ok(TxnKVServer { store: HashMap::new() })
    }

    fn on_message(
        &mut self,
        cluster_state: &ClusterState,
        io: &mut IO,
        input: Message,
        now_ms: u64,
    ) -> Result<(), Error> {
        let r = self.handle(cluster_state, io, &input, now_ms);
        proof {
            crate::io::lemma_history_extends(old(io).history@, io.history@);
        }
        r
    }

    fn on_timer(&mut self, cluster_state: &ClusterState, io: &mut IO, tag: (), now_ms: u64) -> Result<
        (),
        Error,
    > {
        Result::Ok(())
    }

    fn on_rpc_timeout(&mut self, cluster_state: &ClusterState, timeout: Request) -> Result<
        (),
        Error,
    > {
        Result::Ok(())
    }
}

} // verus!
