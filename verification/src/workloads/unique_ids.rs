//! The unique-identifiers workload: each reply carries an identifier no
//! other reply of this process ever carries.

use vstd::prelude::*;

use crate::io::{envelope, ClusterState, Request, IO};
use crate::proto::{Message, Payload, PayloadV};
use crate::text::dec_spec;
use crate::timer::Timers;
use crate::node::Server;
use crate::Error;

verus! {

/// The identifier generated for sequence number `n` at node `id`:
/// `<id>-<n>`, unique because `n` is never reused.
pub open spec fn unique_id(node_id: Seq<char>, n: u64) -> Seq<char> {
    node_id + seq!['-'] + dec_spec(n as nat)
}

/// The unique-identifiers handler: no state beyond the port's counter.
pub struct UniqueIdServer {}

impl UniqueIdServer {
    /// Answer `generate` with `generate_ok` carrying this node's name
    /// joined to the sequence number the reply itself is sent under.
    pub fn handle(&mut self, cluster_state: &ClusterState, io: &mut IO, input: &Message) -> (r:
        Result<(), Error>)
        requires
            old(io).wf(),
        ensures
            final(io).wf(),
            final(io).node_id@ == old(io).node_id@,
            final(io).pending_view() == old(io).pending_view(),
            r is Err ==> *final(io) == *old(io),
            match input@.body.payload {
                PayloadV::Generate => {
                    &&& (r is Ok <==> old(io).seq < u64::MAX)
                    &&& (r is Ok ==> final(io).history@ == old(io).history@.push(
                        envelope(
                            old(io).node_id@,
                            input@.src,
                            old(io).seq,
                            input@.body.id,
                            PayloadV::GenerateOk {
                                id: unique_id(cluster_state.node_id@, old(io).seq),
                            },
                        ),
                    ))
                },
                _ => r is Err && *final(io) == *old(io),
            },
    {
        match &input.body.payload {
            Payload::Generate => {
                let mut id = cluster_state.node_id.clone();
                proof {
                    reveal_strlit("-");
                }
                id.append("-");
                crate::text::push_dec(io.seq, &mut id);
                proof {
                    assert(id@ =~= unique_id(cluster_state.node_id@, io.seq));
                }
                let reply = Payload::GenerateOk { id };
                io.rpc_reply_to(input, &reply)?;
                Result::Ok(())
            },
            _ => Result::Err(Error::UnexpectedMessage),
        }
    }
}

impl Server<()> for UniqueIdServer {
    open spec fn wf(&self) -> bool {
        true
    }

    fn init(cluster_state: &ClusterState, timers: &mut Timers<()>, now_ms: u64) -> (r: Result<
        Self,
        Error,
    >)
        ensures
            r is Ok,
            *final(timers) == *old(timers),
    {
        Result::Ok(UniqueIdServer {  })
    }

    fn on_message(
        &mut self,
        cluster_state: &ClusterState,
        io: &mut IO,
        input: Message,
        now_ms: u64,
    ) -> Result<(), Error> {
        let r = self.handle(cluster_state, io, &input);
        proof {
            crate::io::lemma_history_extends(old(io).history@, io.history@);
        }
        r
    }

    fn on_timer(&mut self, cluster_state: &ClusterState, io: &mut IO, tag: (), now_ms: u64) -> Result<
        (),
        Error,
    > {
        Result::Err(Error::UnexpectedTimeout)
    }

    fn on_rpc_timeout(&mut self, cluster_state: &ClusterState, timeout: Request) -> Result<
        (),
        Error,
    > {
        Result::Err(Error::UnexpectedTimeout)
    }
}

} // verus!
