//! The event dispatcher: the handshake, the handler contract, and the
//! per-event step of the main loop.
//!
//! The loop around it — blocking reads, channels, the clock — lives
//! outside the library.  It decodes one envelope (or observes a timer
//! deadline or end of input), hands the event to `handle_event` with
//! the current time in milliseconds, drains the outbox, and sleeps at
//! most `sleep_hint` milliseconds before the next pass.

use vstd::prelude::*;

use crate::io::{envelope, live_of, min_left, ClusterState, Request, RequestV, IO};
use crate::proto::{Message, Payload, PayloadV};
use crate::timer::Timers;
use crate::Error;

verus! {

/// The cap on any wait between dispatch passes, in milliseconds.
pub const TICK_CAP_MS: u64 = 1000;

/// The time elapsed since the last tick, never negative.
pub open spec fn elapsed_ms(last_tick: u64, now: u64) -> int {
    if now >= last_tick {
        now - last_tick
    } else {
        0
    }
}

/// The refreshed wait after a tick: the tender's hint capped at one
/// second, then lowered to the timer registry's hint when that is
/// sooner.
pub open spec fn refreshed_hint(tender: int, timer: int) -> int {
    let capped = if tender < TICK_CAP_MS {
        tender
    } else {
        TICK_CAP_MS as int
    };
    if timer < capped {
        timer
    } else {
        capped
    }
}

/// One event of the dispatch stream.
pub enum Event<T> {
    Message(Message),
    Timer(T),
    Tick,
    EOF,
}

/// The workload handler contract: a state machine over the runtime.
///
/// Every callback leaves the handler and the port well formed and only
/// appends to the emission history; any error it returns is fatal to
/// the process.
pub trait Server<T>: Sized {
    /// The handler's own invariant.
    spec fn wf(&self) -> bool;

    /// Construct the handler and register its timers.
    fn init(cluster_state: &ClusterState, timers: &mut Timers<T>, now_ms: u64) -> (r: Result<
        Self,
        Error,
    >)
        requires
            old(timers).wf(),
        ensures
            final(timers).wf(),
            r is Ok ==> (r->Ok_0).wf(),
    ;

    /// React to one inbound envelope.
    fn on_message(
        &mut self,
        cluster_state: &ClusterState,
        io: &mut IO,
        input: Message,
        now_ms: u64,
    ) -> (r: Result<(), Error>)
        requires
            old(self).wf(),
            old(io).wf(),
        ensures
            final(self).wf(),
            final(io).wf(),
            final(io).node_id@ == old(io).node_id@,
            old(io).history@.is_prefix_of(final(io).history@),
    ;

    /// React to one timer firing.
    fn on_timer(&mut self, cluster_state: &ClusterState, io: &mut IO, tag: T, now_ms: u64) -> (r:
        Result<(), Error>)
        requires
            old(self).wf(),
            old(io).wf(),
        ensures
            final(self).wf(),
            final(io).wf(),
            final(io).node_id@ == old(io).node_id@,
            old(io).history@.is_prefix_of(final(io).history@),
    ;

    /// Observe an expired request the tender already removed (and, if
    /// retryable, already re-issued).
    fn on_rpc_timeout(&mut self, cluster_state: &ClusterState, timeout: Request) -> (r: Result<
        (),
        Error,
    >)
        requires
            old(self).wf(),
        ensures
            final(self).wf(),
    ;
}

/// One node: cluster identity, outbound port, handler state, timers,
/// and the tick bookkeeping of the dispatch loop.
pub struct Node<H, T> {
    pub cluster_state: ClusterState,
    pub io: IO,
    pub handler: H,
    pub timers: Timers<T>,
    pub tick_timeout: u64,
    pub last_tick: u64,
}

impl<H: Server<T>, T: Copy> Node<H, T> {
    /// The node's invariant.
    pub open spec fn wf(self) -> bool {
        &&& self.io.wf()
        &&& self.timers.wf()
        &&& self.handler.wf()
        &&& self.io.node_id@ == self.cluster_state.node_id@
        &&& self.tick_timeout <= TICK_CAP_MS
    }

    /// The handshake: take the decoded first envelope, which must be
    /// `init`, build the cluster state, construct the handler, and
    /// emit the `init_ok` reply as the very first envelope — `msg_id`
    /// 0, `in_reply_to` the init's `msg_id`, addressed to its sender.
    pub fn init(init_msg: &Message, now_ms: u64) -> (r: Result<Node<H, T>, Error>)
        ensures
            !(init_msg@.body.payload is Init) ==> r is Err,
            r is Ok ==> {
                let n = r->Ok_0;
                &&& n.wf()
                &&& init_msg@.body.payload is Init
                &&& n.cluster_state.node_id@ == init_msg@.body.payload->Init_node_id
                &&& crate::proto::strs_view(n.cluster_state.node_ids@)
                    == init_msg@.body.payload->Init_node_ids
                &&& n.io.seq == 1
                &&& n.io.history@.len() == 1
                &&& n.io.history@[0] == envelope(
                    init_msg@.body.payload->Init_node_id,
                    init_msg@.src,
                    0,
                    init_msg@.body.id,
                    PayloadV::InitOk,
                )
                &&& n.io.outbox_view() == n.io.history@
            },
    {
        let Payload::Init { node_id, node_ids } = &init_msg.body.payload else {
            return Result::Err(Error::UnexpectedMessage);
        };
        let cluster_state = ClusterState {
            node_id: node_id.clone(),
            node_ids: crate::proto::clone_strs(node_ids),
        };
        let mut timers: Timers<T> = Timers::new();
        let handler = H::init(&cluster_state, &mut timers, now_ms)?;
        let mut io = IO::new(node_id.clone());
        let reply = Payload::InitOk;
        let res = io.rpc_reply_to(init_msg, &reply);
        proof {
            assert(res is Ok);
        }
        let node = Node { cluster_state, io, handler, timers, tick_timeout: 0, last_tick: now_ms };
        proof {
            assert(node.io.history@ =~= seq![
                envelope(
                    init_msg@.body.payload->Init_node_id,
                    init_msg@.src,
                    0,
                    init_msg@.body.id,
                    PayloadV::InitOk,
                ),
            ]);
            assert(node.io.outbox_view() =~= node.io.history@);
        }
        Result::Ok(node)
    }

    /// The wait the loop may sleep before the next pass, in
    /// milliseconds: never above the cap, and refreshed by every tick.
    pub fn sleep_hint(&self) -> (r: u64)
        ensures
            r == self.tick_timeout,
    {
        self.tick_timeout
    }

    /// Apply one event, then service the tender and the timers when a
    /// tick boundary has been reached.
    ///
    /// Returns `Ok(false)` exactly on end of input, `Ok(true)` when
    /// the loop should continue; an error from the handler or the
    /// tender is fatal.  Expired retryable requests have been
    /// re-issued by the tender before the handler observes them.  On a
    /// tick boundary the refreshed wait is the least of the tender's
    /// hint over the then-pending table, the timer registry's hint, and
    /// the one-second cap; off a boundary the wait shrinks by the time
    /// elapsed.  It never exceeds the cap.
    #[verifier::loop_isolation(false)]
    pub fn handle_event(&mut self, event: Event<T>, now_ms: u64) -> (r: Result<bool, Error>)
        requires
            old(self).wf(),
        ensures
            final(self).wf(),
            final(self).io.node_id@ == old(self).io.node_id@,
            final(self).cluster_state.node_id@ == old(self).cluster_state.node_id@,
            crate::proto::strs_view(final(self).cluster_state.node_ids@) == crate::proto::strs_view(
                old(self).cluster_state.node_ids@,
            ),
            old(self).io.history@.is_prefix_of(final(self).io.history@),
            r is Ok ==> ((r->Ok_0 == false) <==> event is EOF),
            event is EOF ==> r == Result::<bool, Error>::Ok(false) && *final(self) == *old(self),
            r is Ok && !(event is EOF) ==> final(self).tick_timeout <= TICK_CAP_MS,
            r is Ok && !(event is EOF) && elapsed_ms(old(self).last_tick, now_ms) >= old(
                self,
            ).tick_timeout ==> (exists|p_mid: Seq<RequestV>|
                final(self).tick_timeout == refreshed_hint(
                    min_left(#[trigger] live_of(p_mid, now_ms), now_ms),
                    crate::timer::min_timer_left(final(self).timers.regs@, now_ms),
                )),
            r is Ok && !(event is EOF) && elapsed_ms(old(self).last_tick, now_ms) < old(
                self,
            ).tick_timeout ==> final(self).tick_timeout == old(self).tick_timeout - elapsed_ms(
                old(self).last_tick,
                now_ms,
            ),
    {
        match event {
            Event::Message(m) => {
                self.handler.on_message(&self.cluster_state, &mut self.io, m, now_ms)?;
            },
            Event::Timer(t) => {
                self.handler.on_timer(&self.cluster_state, &mut self.io, t, now_ms)?;
            },
            Event::Tick => {},
            Event::EOF => {
                return Result::Ok(false);
            },
        }
        let since = if now_ms >= self.last_tick {
            now_ms - self.last_tick
        } else {
            0
        };
        if since >= self.tick_timeout {
            let ghost p_mid = self.io.pending_view();
            let pair = self.io.rpc_tend(now_ms)?;
            let mut timeouts = pair.0;
            let mut hint = if pair.1 < TICK_CAP_MS {
                pair.1
            } else {
                TICK_CAP_MS
            };
            let ghost io_mid = self.io;
            let ghost timers_mid = self.timers;
            loop
                invariant
                    self.wf(),
                    self.io.node_id@ == old(self).io.node_id@,
                    self.cluster_state == old(self).cluster_state,
                    old(self).io.history@.is_prefix_of(self.io.history@),
                    self.io == io_mid,
                    self.timers == timers_mid,
                decreases timeouts@.len(),
            {
                let Option::Some(rec) = timeouts.pop() else { break };
                self.handler.on_rpc_timeout(&self.cluster_state, rec)?;
            }
            let fired = self.timers.fire(now_ms);
            let mut tags = fired.0;
            if fired.1 < hint {
                hint = fired.1;
            }
            let ghost timers_fired = self.timers;
            loop
                invariant
                    self.wf(),
                    self.io.node_id@ == old(self).io.node_id@,
                    self.cluster_state == old(self).cluster_state,
                    old(self).io.history@.is_prefix_of(self.io.history@),
                    self.timers == timers_fired,
                decreases tags@.len(),
            {
                let Option::Some(tag) = tags.pop() else { break };
                self.handler.on_timer(&self.cluster_state, &mut self.io, tag, now_ms)?;
            }
            self.tick_timeout = hint;
            proof {
                assert(hint == refreshed_hint(
                    min_left(live_of(p_mid, now_ms), now_ms),
                    crate::timer::min_timer_left(self.timers.regs@, now_ms),
                ));
            }
        } else {
            self.tick_timeout = self.tick_timeout - since;
        }
        self.last_tick = now_ms;
        Result::Ok(true)
    }
}

} // verus!
