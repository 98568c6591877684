//! The echo workload: a pure reply.

use vstd::prelude::*;

use crate::io::{envelope, ClusterState, Request, IO};
use crate::proto::{Message, Payload, PayloadV};
use crate::timer::Timers;
use crate::node::Server;
use crate::Error;

verus! {

/// The echo handler: no state.
pub struct EchoServer {}

impl EchoServer {
    /// Answer `echo` with `echo_ok` carrying the same text; any other
    /// payload is one this workload never receives, and fatal.
    pub fn handle(&mut self, io: &mut IO, input: &Message) -> (r: Result<(), Error>)
        requires
            old(io).wf(),
        ensures
            final(io).wf(),
            final(io).node_id@ == old(io).node_id@,
            final(io).pending_view() == old(io).pending_view(),
            r is Err ==> *final(io) == *old(io),
            match input@.body.payload {
                PayloadV::Echo { echo } => {
                    &&& (r is Ok <==> old(io).seq < u64::MAX)
                    &&& (r is Ok ==> final(io).history@ == old(io).history@.push(
                        envelope(
                            old(io).node_id@,
                            input@.src,
                            old(io).seq,
                            input@.body.id,
                            PayloadV::EchoOk { echo },
                        ),
                    ))
                },
                PayloadV::EchoOk { .. } => r is Ok && *final(io) == *old(io),
                _ => r is Err && *final(io) == *old(io),
            },
    {
        match &input.body.payload {
            Payload::Echo { echo } => {
                let reply = Payload::EchoOk { echo: echo.clone() };
                io.rpc_reply_to(input, &reply)?;
                Result::Ok(())
            },
            Payload::EchoOk { .. } => Result::Ok(()),
            _ => Result::Err(Error::UnexpectedMessage),
        }
    }
}

impl Server<()> for EchoServer {
    open spec fn wf(&self) -> bool {
        true
    }

    fn init(cluster_state: &ClusterState, timers: &mut Timers<()>, now_ms: u64) -> (r: Result<
        Self,
        Error,
    >)
        ensures
            r is Ok,
            *final(timers) == *old(timers),
    {
        Result::Ok(EchoServer {  })
    }

    fn on_message(
        &mut self,
        cluster_state: &ClusterState,
        io: &mut IO,
        input: Message,
        now_ms: u64,
    ) -> Result<(), Error> {
        let r = self.handle(io, &input);
        proof {
            crate::io::lemma_history_extends(old(io).history@, io.history@);
        }
        r
    }

    fn on_timer(&mut self, cluster_state: &ClusterState, io: &mut IO, tag: (), now_ms: u64) -> Result<
        (),
        Error,
    > {
        Result::Ok(())
    }

    fn on_rpc_timeout(&mut self, cluster_state: &ClusterState, timeout: Request) -> Result<
        (),
        Error,
    > {
        Result::Err(Error::UnexpectedTimeout)
    }
}

} // verus!
