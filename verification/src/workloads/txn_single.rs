//! The single-node transactional key-value workload: a transaction is a
//! list of reads and writes applied in order, writes taking effect at
//! once.

use vstd::prelude::*;

use crate::io::{envelope, ClusterState, Request, IO};
use crate::proto::{Message, Op, Payload, PayloadV};
use crate::timer::Timers;
use crate::node::Server;
use crate::Error;
use std::collections::HashMap;

verus! {

broadcast use vstd::std_specs::hash::group_hash_axioms;

/// The steps a transaction answers: each read carries the value the
/// store held when it ran, each write echoes itself.
pub open spec fn txn_result(m: Map<u64, u64>, ops: Seq<Op>) -> Seq<Op>
    decreases ops.len(),
{
    if ops.len() == 0 {
        Seq::empty()
    } else {
        match ops[0] {
            Op::Read { key, value } => seq![
                Op::Read {
                    key,
                    value: if m.contains_key(key) {
                        Option::Some(m[key])
                    } else {
                        Option::None
                    },
                },
            ] + txn_result(m, ops.drop_first()),
            Op::Write { key, value } => seq![Op::Write { key, value }] + txn_result(
                m.insert(key, value),
                ops.drop_first(),
            ),
        }
    }
}

/// The store after a transaction ran.
pub open spec fn txn_store(m: Map<u64, u64>, ops: Seq<Op>) -> Map<u64, u64>
    decreases ops.len(),
{
    if ops.len() == 0 {
        m
    } else {
        match ops[0] {
            Op::Read { .. } => txn_store(m, ops.drop_first()),
            Op::Write { key, value } => txn_store(m.insert(key, value), ops.drop_first()),
        }
    }
}

/// The write steps of a transaction, in order.
pub open spec fn txn_writes(ops: Seq<Op>) -> Seq<Op> {
    ops.filter(|op: Op| op is Write)
}

/// Run a transaction against the store: writes apply immediately, each
/// read answers the value current when it ran.
#[verifier::loop_isolation(false)]
pub fn apply_txn(store: &mut HashMap<u64, u64>, ops: &Vec<Op>) -> (r: (Vec<Op>, Vec<Op>))
    ensures
        final(store)@ == txn_store(old(store)@, ops@),
        r.0@ == txn_result(old(store)@, ops@),
        r.1@ == txn_writes(ops@),
{
    let ghost m0 = store@;
    proof {
        assert(ops@.skip(0) =~= ops@);
        assert(Seq::<Op>::empty() + txn_result(store@, ops@) =~= txn_result(store@, ops@));
        assert(txn_writes(ops@.subrange(0, 0)) =~= Seq::<Op>::empty()) by {
            assert(ops@.subrange(0, 0) =~= Seq::<Op>::empty());
            reveal_with_fuel(Seq::filter, 1);
        }
    }
    let mut result: Vec<Op> = Vec::new();
    let mut writes: Vec<Op> = Vec::new();
    let mut i: usize = 0;
    while i < ops.len()
        invariant
            0 <= i <= ops@.len(),
            txn_result(m0, ops@) == result@ + txn_result(store@, ops@.skip(i as int)),
            txn_store(m0, ops@) == txn_store(store@, ops@.skip(i as int)),
            writes@ == txn_writes(ops@.subrange(0, i as int)),
        decreases ops@.len() - i,
    {
        proof {
            assert(ops@.skip(i as int)[0] == ops@[i as int]);
            assert(ops@.skip(i as int).drop_first() =~= ops@.skip(i + 1));
            assert(ops@.subrange(0, i + 1).drop_last() =~= ops@.subrange(0, i as int));
            assert(ops@.subrange(0, i + 1).last() == ops@[i as int]);
            reveal_with_fuel(Seq::filter, 2);
        }
        match ops[i] {
            Op::Read { key, value } => {
                let v = match store.get(&key) {
                    Option::Some(x) => Option::Some(*x),
                    Option::None => Option::None,
                };
                result.push(Op::Read { key, value: v });
                proof {
                    assert(result@ =~= result@);
                    assert(txn_result(m0, ops@) =~= result@ + txn_result(
                        store@,
                        ops@.skip(i + 1),
                    ));
                    assert(writes@ =~= txn_writes(ops@.subrange(0, i + 1)));
                }
            },
            Op::Write { key, value } => {
                store.insert(key, value);
                result.push(Op::Write { key, value });
                writes.push(Op::Write { key, value });
                proof {
                    assert(txn_result(m0, ops@) =~= result@ + txn_result(
                        store@,
                        ops@.skip(i + 1),
                    ));
                    assert(writes@ =~= txn_writes(ops@.subrange(0, i + 1)));
                }
            },
        }
        i = i + 1;
    }
    proof {
        assert(ops@.skip(ops@.len() as int) =~= Seq::<Op>::empty());
        assert(result@ + txn_result(store@, ops@.skip(ops@.len() as int)) =~= result@);
        assert(ops@.subrange(0, ops@.len() as int) =~= ops@);
    }
    (result, writes)
}

/// The single-node transactional key-value handler.
pub struct TxnKVServer {
    pub store: HashMap<u64, u64>,
}

impl TxnKVServer {
    /// Answer `txn` with `txn_ok` carrying each step's outcome; any
    /// other payload is one this workload never receives, and fatal.
    pub fn handle(&mut self, io: &mut IO, input: &Message) -> (r: Result<(), Error>)
        requires
            old(io).wf(),
        ensures
            final(io).wf(),
            final(io).node_id@ == old(io).node_id@,
            final(io).pending_view() == old(io).pending_view(),
            crate::io::history_extends(old(io).history@, final(io).history@),
            match input@.body.payload {
                PayloadV::Txn { txn } => {
                    &&& (r is Ok <==> old(io).seq < u64::MAX)
                    &&& (r is Ok ==> final(self).store@ == txn_store(old(self).store@, txn)
                        && final(io).history@ == old(io).history@.push(
                        envelope(
                            old(io).node_id@,
                            input@.src,
                            old(io).seq,
                            input@.body.id,
                            PayloadV::TxnOk { txn: txn_result(old(self).store@, txn) },
                        ),
                    ))
                },
                _ => r is Err && *final(self) == *old(self) && *final(io) == *old(io),
            },
    {
        match &input.body.payload {
            Payload::Txn { txn } => {
                let pair = apply_txn(&mut self.store, txn);
                let txn_ok = Payload::TxnOk { txn: pair.0 };
                io.rpc_reply_to(input, &txn_ok)?;
                Result::Ok(())
            },
            _ => Result::Err(Error::UnexpectedMessage),
        }
    }
}

impl Server<()> for TxnKVServer {
    open spec fn wf(&self) -> bool {
        true
    }

    fn init(cluster_state: &ClusterState, timers: &mut Timers<()>, now_ms: u64) -> (r: Result<
        Self,
        Error,
    >)
        ensures
            r is Ok,
            *final(timers) == *old(timers),
            (r->Ok_0).store@ == Map::<u64, u64>::empty(),
    {
        Result::Ok(TxnKVServer { store: HashMap::new() })
    }

    fn on_message(
        &mut self,
        cluster_state: &ClusterState,
        io: &mut IO,
        input: Message,
        now_ms: u64,
    ) -> Result<(), Error> {
        let r = self.handle(io, &input);
        proof {
            crate::io::lemma_history_extends(old(io).history@, io.history@);
        }
        r
    }

    fn on_timer(&mut self, cluster_state: &ClusterState, io: &mut IO, tag: (), now_ms: u64) -> Result<
        (),
        Error,
    > {
        Result::Ok(())
    }

    fn on_rpc_timeout(&mut self, cluster_state: &ClusterState, timeout: Request) -> Result<
        (),
        Error,
    > {
        Result::Ok(())
    }
}

} // verus!
