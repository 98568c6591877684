//! The outbound port: the sequence allocator, the output buffer, and
//! the pending-request table with its tender.
//!
//! Every envelope the node emits goes through `send`.  The port keeps a
//! ghost history of everything emitted; the writer drains the real
//! outbox and prints one line per envelope.  Time reaches the port as
//! plain milliseconds supplied by the caller.

use vstd::prelude::*;

use crate::proto::{wf_msg, wf_payload, BodyV, Message, MessageV, Payload, PayloadV};
use crate::Error;

verus! {

/// This node's identity and the cluster around it; immutable after the
/// handshake.
pub struct ClusterState {
    pub node_id: String,
    pub node_ids: Vec<String>,
}

/// One tracked outbound request: a retry record in the pending table.
pub struct Request {
    pub id: u64,
    pub dst: String,
    pub payload: Payload,
    pub timeout: u64,
    pub issued_at: u64,
    pub retry: bool,
}

/// The mathematical shape of a retry record.
pub struct RequestV {
    pub id: u64,
    pub dst: Seq<char>,
    pub payload: PayloadV,
    pub timeout: u64,
    pub issued_at: u64,
    pub retry: bool,
}

impl View for Request {
    type V = RequestV;

    open spec fn view(&self) -> RequestV {
        RequestV {
            id: self.id,
            dst: self.dst@,
            payload: self.payload@,
            timeout: self.timeout,
            issued_at: self.issued_at,
            retry: self.retry,
        }
    }
}

impl Clone for Request {
    /// A copy that carries the same record.
    fn clone(&self) -> (res: Self)
        ensures
            res@ == self@,
    {
        Request {
            id: self.id,
            dst: self.dst.clone(),
            payload: self.payload.clone(),
            timeout: self.timeout,
            issued_at: self.issued_at,
            retry: self.retry,
        }
    }
}

/// The shapes of a run of retry records, in order.
pub open spec fn reqs_view(s: Seq<Request>) -> Seq<RequestV> {
    Seq::new(s.len(), |i: int| s[i]@)
}

/// The envelope `send` builds from its arguments.
pub open spec fn envelope(
    src: Seq<char>,
    dst: Seq<char>,
    id: u64,
    in_reply_to: Option<u64>,
    payload: PayloadV,
) -> MessageV {
    MessageV {
        src,
        dst,
        body: BodyV { id: Option::Some(id), in_reply_to, payload },
    }
}

/// Whether the pending table holds a record keyed `id`.
pub open spec fn has_pending(pending: Seq<RequestV>, id: u64) -> bool {
    exists|i: int| 0 <= i < pending.len() && (#[trigger] pending[i]).id == id
}

/// The table without the record keyed `k`, order kept.
pub open spec fn drop_key(pending: Seq<RequestV>, k: u64) -> Seq<RequestV> {
    pending.filter(|r: RequestV| r.id != k)
}

/// The pending table after a reply with `in_reply_to` was marked
/// completed: the record with that key is gone, and nothing else moved.
pub open spec fn mark_completed_spec(pending: Seq<RequestV>, in_reply_to: Option<u64>) -> Seq<
    RequestV,
> {
    match in_reply_to {
        Option::Some(k) => drop_key(pending, k),
        Option::None => pending,
    }
}

/// Whether a record's deadline has passed at `now`.
pub open spec fn is_expired(r: RequestV, now: u64) -> bool {
    now >= r.issued_at + r.timeout
}

/// The milliseconds left until a record's deadline, never negative;
/// a record stamped in the future has its whole timeout left.
pub open spec fn time_left(r: RequestV, now: u64) -> int {
    if is_expired(r, now) {
        0
    } else if now <= r.issued_at {
        r.timeout as int
    } else {
        r.issued_at + r.timeout - now
    }
}

/// The records of `s` whose deadline has passed at `now`, in order.
pub open spec fn expired_of(s: Seq<RequestV>, now: u64) -> Seq<RequestV> {
    s.filter(|r: RequestV| is_expired(r, now))
}

/// The records of `s` still within their deadline at `now`, in order.
pub open spec fn live_of(s: Seq<RequestV>, now: u64) -> Seq<RequestV> {
    s.filter(|r: RequestV| !is_expired(r, now))
}

/// The records of `s` flagged retryable, in order.
pub open spec fn retries_of(s: Seq<RequestV>) -> Seq<RequestV> {
    s.filter(|r: RequestV| r.retry)
}

/// The fresh records the tender inserts for the retryable expired
/// ones: same destination, payload snapshot and timeout; fresh
/// identifiers from `base` up; issued at `now`.
pub open spec fn new_recs(rs: Seq<RequestV>, base: int, now: u64) -> Seq<RequestV> {
    Seq::new(
        rs.len(),
        |i: int| RequestV {
            id: (base + i) as u64,
            dst: rs[i].dst,
            payload: rs[i].payload,
            timeout: rs[i].timeout,
            issued_at: now,
            retry: true,
        },
    )
}

/// The envelopes the tender re-emits for the retryable expired
/// records: structurally identical payloads to the same destinations,
/// under fresh identifiers from `base` up.
pub open spec fn reissue_msgs(rs: Seq<RequestV>, src: Seq<char>, base: int) -> Seq<MessageV> {
    Seq::new(
        rs.len(),
        |i: int| envelope(src, rs[i].dst, (base + i) as u64, Option::None, rs[i].payload),
    )
}

/// The sleep hint: the least milliseconds left until a deadline among
/// `s`, never negative, and the largest value when nothing is pending.
pub open spec fn min_left(s: Seq<RequestV>, now: u64) -> int
    decreases s.len(),
{
    if s.len() == 0 {
        u64::MAX as int
    } else if time_left(s.last(), now) < min_left(s.drop_last(), now) {
        time_left(s.last(), now)
    } else {
        min_left(s.drop_last(), now)
    }
}


/// The envelopes a bulk request pass emits: one per target, in order,
/// under consecutive fresh identifiers from `base`.
pub open spec fn request_msgs(
    targets: Seq<Seq<char>>,
    src: Seq<char>,
    base: int,
    payload: PayloadV,
) -> Seq<MessageV> {
    Seq::new(targets.len(), |i: int| envelope(src, targets[i], (base + i) as u64, Option::None, payload))
}

/// The records a bulk request pass inserts: one per target, in order.
pub open spec fn request_recs(
    targets: Seq<Seq<char>>,
    base: int,
    payload: PayloadV,
    timeout: u64,
    now: u64,
    retry: bool,
) -> Seq<RequestV> {
    Seq::new(
        targets.len(),
        |i: int| RequestV {
            id: (base + i) as u64,
            dst: targets[i],
            payload,
            timeout,
            issued_at: now,
            retry,
        },
    )
}

/// Law: the tender's sleep hint is never negative and never overshoots
/// a surviving record's deadline.
pub proof fn lemma_min_left_bounds(s: Seq<RequestV>, now: u64)
    ensures
        0 <= min_left(s, now),
        forall|i: int| 0 <= i < s.len() ==> min_left(s, now) <= time_left(#[trigger] s[i], now),
    decreases s.len(),
{
    if s.len() > 0 {
        lemma_min_left_bounds(s.drop_last(), now);
        assert forall|i: int| 0 <= i < s.len() implies min_left(s, now) <= time_left(
            #[trigger] s[i],
            now,
        ) by {
            if i < s.len() - 1 {
                assert(s.drop_last()[i] == s[i]);
            }
        }
    }
}

/// The outbound port.  `seq` is the next identifier to allocate;
/// `history` records every envelope ever emitted, in order; `outbox`
/// holds the emitted envelopes the writer has not yet drained.
pub struct IO {
    pub node_id: String,
    pub seq: u64,
    pub pending: Vec<Request>,
    pub outbox: Vec<Message>,
    pub history: Ghost<Seq<MessageV>>,
}

impl IO {
    /// The shapes of the pending table, in order.
    pub open spec fn pending_view(self) -> Seq<RequestV> {
        reqs_view(self.pending@)
    }

    /// The shapes of the undrained envelopes, in order.
    pub open spec fn outbox_view(self) -> Seq<MessageV> {
        Seq::new(self.outbox@.len(), |i: int| self.outbox@[i]@)
    }

    /// The port's invariant.
    ///
    /// The history holds exactly the envelopes this node emitted: the
    /// envelope at position `i` carries `msg_id` `i`, this node's name
    /// as source, and a payload the codec accepts.  The pending table's
    /// keys rise strictly (so none is ever reused), every key was
    /// allocated, and the record at key `k` matches the envelope
    /// emitted under `k`.  The outbox is a suffix of the history.
    pub open spec fn wf(self) -> bool {
        &&& self.history@.len() == self.seq as int
        &&& forall|i: int|
            0 <= i < self.history@.len() ==> (#[trigger] self.history@[i]).body.id
                == Option::Some(i as u64)
        &&& forall|i: int|
            0 <= i < self.history@.len() ==> (#[trigger] self.history@[i]).src == self.node_id@
        &&& forall|i: int| 0 <= i < self.history@.len() ==> wf_msg(#[trigger] self.history@[i])
        &&& forall|i: int, j: int|
            0 <= i < j < self.pending_view().len() ==> self.pending_view()[i].id
                < self.pending_view()[j].id
        &&& forall|i: int|
            0 <= i < self.pending_view().len() ==> (#[trigger] self.pending_view()[i]).id
                < self.seq
        &&& forall|i: int|
            0 <= i < self.pending_view().len() ==> {
                let r = #[trigger] self.pending_view()[i];
                &&& self.history@[r.id as int].dst == r.dst
                &&& self.history@[r.id as int].body.payload == r.payload
                &&& self.history@[r.id as int].body.in_reply_to is None
            }
        &&& self.outbox@.len() <= self.history@.len()
        &&& forall|i: int|
            0 <= i < self.outbox@.len() ==> (#[trigger] self.outbox_view()[i]) == self.history@[
                self.history@.len() - self.outbox@.len() + i]
    }

    /// A fresh port for the named node: nothing emitted, nothing
    /// pending.
    pub fn new(node_id: String) -> (r: IO)
        ensures
            r.wf(),
            r.node_id@ == node_id@,
            r.seq == 0,
            r.history@ == Seq::<MessageV>::empty(),
            r.pending_view() == Seq::<RequestV>::empty(),
            r.outbox_view() == Seq::<MessageV>::empty(),
    {
        let io = IO {
            node_id,
            seq: 0,
            pending: Vec::new(),
            outbox: Vec::new(),
            history: Ghost(Seq::empty()),
        };
        proof {
            assert(io.pending_view() =~= Seq::<RequestV>::empty());
            assert(io.outbox_view() =~= Seq::<MessageV>::empty());
        }
        io
    }

    /// Emit one envelope with a fresh `msg_id`: the identifier equals
    /// the count of envelopes emitted before it, so identifiers are
    /// exactly 0, 1, 2, … in emission order.  Fails only when the
    /// sequence space is exhausted, and then changes nothing.
    pub fn send(&mut self, to: &str, in_reply_to: Option<u64>, payload: &Payload) -> (r: Result<
        u64,
        Error,
    >)
        requires
            old(self).wf(),
            wf_payload(payload@),
        ensures
            final(self).wf(),
            final(self).node_id@ == old(self).node_id@,
            final(self).pending_view() == old(self).pending_view(),
            r is Ok <==> old(self).seq < u64::MAX,
            r is Err ==> *final(self) == *old(self),
            r is Ok ==> r->Ok_0 == old(self).seq && final(self).seq == old(self).seq + 1
                && final(self).history@ == old(self).history@.push(
                envelope(old(self).node_id@, to@, old(self).seq, in_reply_to, payload@),
            ) && final(self).outbox_view() == old(self).outbox_view().push(
                envelope(old(self).node_id@, to@, old(self).seq, in_reply_to, payload@),
            ),
    {
        if self.seq == u64::MAX {
            return Result::Err(Error::SeqExhausted);
        }
        let id = self.seq;
        let msg = Message {
            src: self.node_id.clone(),
            dst: to.to_owned(),
            body: crate::proto::Body {
                id: Option::Some(id),
                in_reply_to,
                payload: payload.clone(),
            },
        };
        let ghost mv = msg@;
        self.outbox.push(msg);
        proof {
            self.history@ = self.history@.push(mv);
        }
        self.seq = id + 1;
        proof {
            assert(mv == envelope(old(self).node_id@, to@, id, in_reply_to, payload@));
            assert(self.pending_view() =~= old(self).pending_view());
            assert(self.outbox_view() =~= old(self).outbox_view().push(mv));
            assert forall|i: int| 0 <= i < self.outbox@.len() implies (
            #[trigger] self.outbox_view()[i]) == self.history@[self.history@.len()
                - self.outbox@.len() + i] by {
                if i < self.outbox@.len() - 1 {
                    assert(self.outbox_view()[i] == old(self).outbox_view()[i]);
                }
            }
        }
        Result::Ok(id)
    }

    /// Emit an envelope and swallow a failure: the one send whose error
    /// is not surfaced.
    pub fn fire_and_forget(&mut self, dst: &str, message: &Payload) -> (r: Result<(), Error>)
        requires
            old(self).wf(),
            wf_payload(message@),
        ensures
            final(self).wf(),
            final(self).node_id@ == old(self).node_id@,
            final(self).pending_view() == old(self).pending_view(),
            r is Ok,
            old(self).seq < u64::MAX ==> final(self).history@ == old(self).history@.push(
                envelope(old(self).node_id@, dst@, old(self).seq, Option::None, message@),
            ) && final(self).seq == old(self).seq + 1,
            old(self).seq == u64::MAX ==> *final(self) == *old(self),
    {
        let _ = self.send(dst, Option::None, message);
        Result::Ok(())
    }

    /// Emit a request envelope and track it in the pending table under
    /// its fresh identifier, stamped `issued_at = now_ms`.
    pub fn rpc_request(
        &mut self,
        dst: &str,
        request: &Payload,
        timeout: u64,
        retry: bool,
        now_ms: u64,
    ) -> (r: Result<u64, Error>)
        requires
            old(self).wf(),
            wf_payload(request@),
        ensures
            final(self).wf(),
            final(self).node_id@ == old(self).node_id@,
            r is Ok <==> old(self).seq < u64::MAX,
            r is Err ==> *final(self) == *old(self),
            r is Ok ==> r->Ok_0 == old(self).seq && final(self).seq == old(self).seq + 1
                && final(self).history@ == old(self).history@.push(
                envelope(old(self).node_id@, dst@, old(self).seq, Option::None, request@),
            ) && final(self).outbox_view() == old(self).outbox_view().push(
                envelope(old(self).node_id@, dst@, old(self).seq, Option::None, request@),
            ) && final(self).pending_view() == old(self).pending_view().push(
                RequestV {
                    id: old(self).seq,
                    dst: dst@,
                    payload: request@,
                    timeout,
                    issued_at: now_ms,
                    retry,
                },
            ),
    {
        let id = self.send(dst, Option::None, request)?;
        let rec = Request {
            id,
            dst: dst.to_owned(),
            payload: request.clone(),
            timeout,
            issued_at: now_ms,
            retry,
        };
        let ghost rv = rec@;
        self.pending.push(rec);
        proof {
            assert(self.pending_view() =~= old(self).pending_view().push(rv));
            assert forall|i: int, j: int|
                0 <= i < j < self.pending_view().len() implies self.pending_view()[i].id
                < self.pending_view()[j].id by {
                if j < self.pending_view().len() - 1 {
                    assert(self.pending_view()[j] == old(self).pending_view()[j]);
                }
            }
        }
        Result::Ok(id)
    }

    /// `rpc_request` with the retry flag set.
    pub fn rpc_request_with_retry(
        &mut self,
        dst: &str,
        request: &Payload,
        retry_after: u64,
        now_ms: u64,
    ) -> (r: Result<u64, Error>)
        requires
            old(self).wf(),
            wf_payload(request@),
        ensures
            final(self).wf(),
            final(self).node_id@ == old(self).node_id@,
            r is Ok <==> old(self).seq < u64::MAX,
            r is Err ==> *final(self) == *old(self),
            r is Ok ==> r->Ok_0 == old(self).seq && final(self).seq == old(self).seq + 1
                && final(self).history@ == old(self).history@.push(
                envelope(old(self).node_id@, dst@, old(self).seq, Option::None, request@),
            ) && final(self).outbox_view() == old(self).outbox_view().push(
                envelope(old(self).node_id@, dst@, old(self).seq, Option::None, request@),
            ) && final(self).pending_view() == old(self).pending_view().push(
                RequestV {
                    id: old(self).seq,
                    dst: dst@,
                    payload: request@,
                    timeout: retry_after,
                    issued_at: now_ms,
                    retry: true,
                },
            ),
    {
        self.rpc_request(dst, request, retry_after, true, now_ms)
    }

    /// Reply to an incoming envelope: the reply goes to its source and
    /// carries its `msg_id` as `in_reply_to`.
    pub fn rpc_reply_to(&mut self, message: &Message, reply: &Payload) -> (r: Result<u64, Error>)
        requires
            old(self).wf(),
            wf_payload(reply@),
        ensures
            final(self).wf(),
            final(self).node_id@ == old(self).node_id@,
            final(self).pending_view() == old(self).pending_view(),
            r is Ok <==> old(self).seq < u64::MAX,
            r is Err ==> *final(self) == *old(self),
            r is Ok ==> r->Ok_0 == old(self).seq && final(self).seq == old(self).seq + 1
                && final(self).history@ == old(self).history@.push(
                envelope(
                    old(self).node_id@,
                    message.src@,
                    old(self).seq,
                    message.body.id,
                    reply@,
                ),
            ) && final(self).outbox_view() == old(self).outbox_view().push(
                envelope(
                    old(self).node_id@,
                    message.src@,
                    old(self).seq,
                    message.body.id,
                    reply@,
                ),
            ),
    {
        self.send(message.src.as_str(), message.body.id, reply)
    }

    /// Drop the pending record a reply closes.  A no-op when the reply
    /// carries no `in_reply_to` or the key is not in the table; it
    /// never fails, and marking the same reply twice equals marking it
    /// once.
    #[verifier::loop_isolation(false)]
    pub fn rpc_mark_completed(&mut self, message: &Message)
        requires
            old(self).wf(),
        ensures
            final(self).wf(),
            final(self).node_id@ == old(self).node_id@,
            final(self).seq == old(self).seq,
            final(self).history@ == old(self).history@,
            final(self).outbox@ == old(self).outbox@,
            final(self).pending_view() == mark_completed_spec(
                old(self).pending_view(),
                message.body.in_reply_to,
            ),
    {
        let Option::Some(k) = message.body.in_reply_to else {
            return ;
        };
        let ghost pv = self.pending_view();
        let mut kept: Vec<Request> = Vec::new();
        let mut i: usize = 0;
        while i < self.pending.len()
            invariant
                0 <= i <= self.pending@.len(),
                pv == reqs_view(self.pending@),
                pv.len() == self.pending@.len(),
                reqs_view(kept@) == pv.subrange(0, i as int).filter(|r: RequestV| r.id != k),
            decreases self.pending@.len() - i,
        {
            proof {
                assert(pv.subrange(0, i + 1).drop_last() =~= pv.subrange(0, i as int));
                assert(pv.subrange(0, i + 1).last() == pv[i as int]);
                reveal_with_fuel(Seq::filter, 2);
            }
            if self.pending[i].id != k {
                let rec = self.pending[i].clone();
                let ghost rv = rec@;
                kept.push(rec);
                proof {
                    assert(rv == pv[i as int]);
                    assert(reqs_view(kept@) =~= pv.subrange(0, i as int).filter(
                        |r: RequestV| r.id != k,
                    ).push(pv[i as int]));
                }
            }
            i = i + 1;
        }
        proof {
            assert(pv.subrange(0, pv.len() as int) =~= pv);
        }
        self.pending = kept;
        proof {
            lemma_filter_keeps_order(pv, k, self.seq);
            assert(self.pending_view() == drop_key(pv, k));
            assert(self.outbox_view() =~= old(self).outbox_view());
            assert forall|idx: int| 0 <= idx < self.pending_view().len() implies {
                let r = #[trigger] self.pending_view()[idx];
                &&& r.id < self.seq
                &&& self.history@[r.id as int].dst == r.dst
                &&& self.history@[r.id as int].body.payload == r.payload
                &&& self.history@[r.id as int].body.in_reply_to is None
            } by {
                assert(pv.contains(drop_key(pv, k)[idx]));
                let j = choose|j: int| 0 <= j < pv.len() && pv[j] == drop_key(pv, k)[idx];
                assert(old(self).pending_view()[j] == self.pending_view()[idx]);
            }
        }
    }


    /// One tender pass at `now_ms`.
    ///
    /// Every expired record leaves the table and is returned, in table
    /// order.  Each one flagged retryable is re-issued at once: a
    /// structurally identical payload to the same destination with the
    /// same timeout, under a fresh identifier, stamped `now_ms`.  The
    /// second result is the sleep hint: the least time left among the
    /// surviving records, never negative.  Fails only when the
    /// sequence space cannot hold the re-issues, and then changes
    /// nothing.
    #[verifier::loop_isolation(false)]
    #[verifier::rlimit(100)]
    #[verifier::spinoff_prover]
    pub fn rpc_tend(&mut self, now_ms: u64) -> (r: Result<(Vec<Request>, u64), Error>)
        requires
            old(self).wf(),
        ensures
            final(self).wf(),
            final(self).node_id@ == old(self).node_id@,
            r is Ok <==> old(self).seq + retries_of(
                expired_of(old(self).pending_view(), now_ms),
            ).len() <= u64::MAX,
            r is Err ==> *final(self) == *old(self),
            r is Ok ==> {
                let exp = expired_of(old(self).pending_view(), now_ms);
                let rs = retries_of(exp);
                let base = old(self).seq as int;
                &&& reqs_view((r->Ok_0).0@) == exp
                &&& (r->Ok_0).1 == min_left(live_of(old(self).pending_view(), now_ms), now_ms)
                &&& final(self).seq == old(self).seq + rs.len()
                &&& final(self).pending_view() == live_of(old(self).pending_view(), now_ms)
                    + new_recs(rs, base, now_ms)
                &&& final(self).history@ == old(self).history@ + reissue_msgs(
                    rs,
                    old(self).node_id@,
                    base,
                )
                &&& final(self).outbox_view() == old(self).outbox_view() + reissue_msgs(
                    rs,
                    old(self).node_id@,
                    base,
                )
            },
    {
        let ghost pv = self.pending_view();
        proof {
            reveal_with_fuel(Seq::filter, 2);
        }
        let mut kept: Vec<Request> = Vec::new();
        let mut expired: Vec<Request> = Vec::new();
        let mut i: usize = 0;
        while i < self.pending.len()
            invariant
                0 <= i <= self.pending@.len(),
                reqs_view(kept@) == live_of(pv.subrange(0, i as int), now_ms),
                reqs_view(expired@) == expired_of(pv.subrange(0, i as int), now_ms),
            decreases self.pending@.len() - i,
        {
            proof {
                assert(pv.subrange(0, i + 1).drop_last() =~= pv.subrange(0, i as int));
                assert(pv.subrange(0, i + 1).last() == pv[i as int]);
            }
            let rec = &self.pending[i];
            let exp_now = now_ms >= rec.issued_at && now_ms - rec.issued_at >= rec.timeout;
            proof {
                assert(exp_now == is_expired(pv[i as int], now_ms));
            }
            if exp_now {
                let c = self.pending[i].clone();
                let ghost cv = c@;
                expired.push(c);
                proof {
                    assert(cv == pv[i as int]);
                    assert(reqs_view(expired@) =~= expired_of(pv.subrange(0, i + 1), now_ms));
                    assert(reqs_view(kept@) =~= live_of(pv.subrange(0, i + 1), now_ms));
                }
            } else {
                let c = self.pending[i].clone();
                let ghost cv = c@;
                kept.push(c);
                proof {
                    assert(cv == pv[i as int]);
                    assert(reqs_view(kept@) =~= live_of(pv.subrange(0, i + 1), now_ms));
                    assert(reqs_view(expired@) =~= expired_of(pv.subrange(0, i + 1), now_ms));
                }
            }
            i = i + 1;
        }
        proof {
            assert(pv.subrange(0, pv.len() as int) =~= pv);
        }
        let ghost expv = expired_of(pv, now_ms);
        let ghost keptv = live_of(pv, now_ms);

        // Count the retryable expired records before touching anything.
        let mut nretry: u64 = 0;
        let mut j: usize = 0;
        while j < expired.len()
            invariant
                0 <= j <= expired@.len(),
                reqs_view(expired@) == expv,
                nretry == retries_of(expv.subrange(0, j as int)).len(),
                nretry <= j,
            decreases expired@.len() - j,
        {
            proof {
                assert(expv.subrange(0, j + 1).drop_last() =~= expv.subrange(0, j as int));
                assert(expv.subrange(0, j + 1).last() == expv[j as int]);
            }
            if expired[j].retry {
                nretry = nretry + 1;
            }
            j = j + 1;
        }
        proof {
            assert(expv.subrange(0, expv.len() as int) =~= expv);
        }
        let ghost rs = retries_of(expv);
        if nretry > u64::MAX - self.seq {
            return Result::Err(Error::SeqExhausted);
        }

        // The sleep hint over the surviving records.
        let mut hint: u64 = u64::MAX;
        let mut h: usize = 0;
        while h < kept.len()
            invariant
                0 <= h <= kept@.len(),
                reqs_view(kept@) == keptv,
                hint == min_left(keptv.subrange(0, h as int), now_ms),
            decreases kept@.len() - h,
        {
            proof {
                assert(keptv.subrange(0, h + 1).drop_last() =~= keptv.subrange(0, h as int));
                assert(keptv.subrange(0, h + 1).last() == keptv[h as int]);
            }
            let rec = &kept[h];
            let left: u64 = if now_ms >= rec.issued_at {
                if now_ms - rec.issued_at >= rec.timeout {
                    0
                } else {
                    rec.timeout - (now_ms - rec.issued_at)
                }
            } else {
                rec.timeout
            };
            proof {
                assert(left == time_left(keptv[h as int], now_ms));
            }
            if left < hint {
                hint = left;
            }
            h = h + 1;
        }
        proof {
            assert(keptv.subrange(0, keptv.len() as int) =~= keptv);
        }

        // Install the survivors, then re-issue the retryable ones.
        let ghost hist0 = self.history@;
        let ghost out0 = self.outbox_view();
        let ghost seq0 = self.seq;
        self.pending = kept;
        proof {
            lemma_filter_ordered(pv, |r: RequestV| !is_expired(r, now_ms));
            lemma_filter_ordered(pv, |r: RequestV| is_expired(r, now_ms));
            lemma_filter_ordered(expv, |r: RequestV| r.retry);
            assert(self.pending_view() == keptv);
            assert(self.outbox_view() =~= out0);
            assert forall|idx: int| 0 <= idx < keptv.len() implies {
                let r = #[trigger] keptv[idx];
                &&& r.id < self.seq
                &&& self.history@[r.id as int].dst == r.dst
                &&& self.history@[r.id as int].body.payload == r.payload
                &&& self.history@[r.id as int].body.in_reply_to is None
                &&& wf_payload(r.payload)
            } by {
                assert(pv.contains(keptv[idx]));
                let w = choose|w: int| 0 <= w < pv.len() && pv[w] == keptv[idx];
                assert(old(self).pending_view()[w] == keptv[idx]);
            }
            assert forall|idx: int| 0 <= idx < expv.len() implies wf_payload(
                (#[trigger] expv[idx]).payload,
            ) by {
                assert(pv.contains(expv[idx]));
                let w = choose|w: int| 0 <= w < pv.len() && pv[w] == expv[idx];
                assert(old(self).pending_view()[w] == expv[idx]);
            }
            assert forall|idx: int| 0 <= idx < rs.len() implies wf_payload(
                (#[trigger] rs[idx]).payload,
            ) by {
                assert(expv.contains(rs[idx]));
            }
            assert(self.wf());
        }
        let mut q: usize = 0;
        let mut c: u64 = 0;
        while q < expired.len()
            invariant
                0 <= q <= expired@.len(),
                reqs_view(expired@) == expv,
                c == retries_of(expv.subrange(0, q as int)).len(),
                c <= nretry,
                nretry == rs.len(),
                seq0 + nretry <= u64::MAX,
                self.wf(),
                self.node_id@ == old(self).node_id@,
                self.seq == seq0 + c,
                self.pending_view() == keptv + new_recs(rs.subrange(0, c as int), seq0 as int, now_ms),
                self.history@ == hist0 + reissue_msgs(rs.subrange(0, c as int), old(self).node_id@, seq0 as int),
                self.outbox_view() == out0 + reissue_msgs(rs.subrange(0, c as int), old(self).node_id@, seq0 as int),
                forall|idx: int| 0 <= idx < rs.len() ==> wf_payload((#[trigger] rs[idx]).payload),
            decreases expired@.len() - q,
        {
            proof {
                assert(expv.subrange(0, q + 1).drop_last() =~= expv.subrange(0, q as int));
                assert(expv.subrange(0, q + 1).last() == expv[q as int]);
            }
            if expired[q].retry {
                proof {
                    assert(rs == expv.filter(|r: RequestV| r.retry));
                    lemma_filter_prefix(expv, |r: RequestV| r.retry, q as int);
                    lemma_filter_prefix(expv, |r: RequestV| r.retry, q + 1);
                    assert(retries_of(expv.subrange(0, q + 1)) == retries_of(
                        expv.subrange(0, q as int),
                    ).push(expv[q as int]));
                    assert(retries_of(expv.subrange(0, q as int)) == rs.subrange(0, c as int));
                    assert(retries_of(expv.subrange(0, q + 1)) == rs.subrange(0, c + 1));
                    assert(rs.subrange(0, c + 1)[c as int] == rs[c as int]);
                    assert(retries_of(expv.subrange(0, q as int)).push(expv[q as int])[c as int]
                        == expv[q as int]);
                    assert(rs[c as int] == expv[q as int]);
                }
                let dst = expired[q].dst.clone();
                let payload = expired[q].payload.clone();
                let timeout = expired[q].timeout;
                let res = self.rpc_request_with_retry(dst.as_str(), &payload, timeout, now_ms);
                proof {
                    assert(res is Ok);
                    assert(self.pending_view() =~= keptv + new_recs(
                        rs.subrange(0, c + 1),
                        seq0 as int,
                        now_ms,
                    ));
                    assert(self.history@ =~= hist0 + reissue_msgs(
                        rs.subrange(0, c + 1),
                        old(self).node_id@,
                        seq0 as int,
                    ));
                    assert(self.outbox_view() =~= out0 + reissue_msgs(
                        rs.subrange(0, c + 1),
                        old(self).node_id@,
                        seq0 as int,
                    ));
                }
                c = c + 1;
            }
            q = q + 1;
        }
        proof {
            assert(expv.subrange(0, expv.len() as int) =~= expv);
            assert(c == rs.len());
            assert(rs.subrange(0, rs.len() as int) =~= rs);
        }
        Result::Ok((expired, hint))
    }


    /// Issue the same tracked request to every target, in order, each
    /// under a fresh identifier.  Fails only when the sequence space
    /// cannot hold them all, and then changes nothing.
    #[verifier::loop_isolation(false)]
    #[verifier::rlimit(60)]
    pub fn rpc_request_all(
        &mut self,
        targets: &Vec<String>,
        request: &Payload,
        timeout: u64,
        retry: bool,
        now_ms: u64,
    ) -> (r: Result<(), Error>)
        requires
            old(self).wf(),
            wf_payload(request@),
        ensures
            final(self).wf(),
            final(self).node_id@ == old(self).node_id@,
            r is Ok <==> old(self).seq + targets@.len() <= u64::MAX,
            r is Err ==> *final(self) == *old(self),
            r is Ok ==> {
                let tv = crate::proto::strs_view(targets@);
                let base = old(self).seq as int;
                &&& final(self).seq == old(self).seq + targets@.len()
                &&& final(self).history@ == old(self).history@ + request_msgs(
                    tv,
                    old(self).node_id@,
                    base,
                    request@,
                )
                &&& final(self).outbox_view() == old(self).outbox_view() + request_msgs(
                    tv,
                    old(self).node_id@,
                    base,
                    request@,
                )
                &&& final(self).pending_view() == old(self).pending_view() + request_recs(
                    tv,
                    base,
                    request@,
                    timeout,
                    now_ms,
                    retry,
                )
            },
    {
        let n = targets.len();
        if n as u64 > u64::MAX - self.seq {
            return Result::Err(Error::SeqExhausted);
        }
        let ghost tv = crate::proto::strs_view(targets@);
        let ghost base = self.seq as int;
        let ghost hist0 = self.history@;
        let ghost out0 = self.outbox_view();
        let ghost pend0 = self.pending_view();
        let mut i: usize = 0;
        while i < n
            invariant
                0 <= i <= n,
                n == targets@.len(),
                self.wf(),
                self.node_id@ == old(self).node_id@,
                self.seq == base + i,
                self.history@ == hist0 + request_msgs(tv.subrange(0, i as int), old(self).node_id@, base, request@),
                self.outbox_view() == out0 + request_msgs(tv.subrange(0, i as int), old(self).node_id@, base, request@),
                self.pending_view() == pend0 + request_recs(tv.subrange(0, i as int), base, request@, timeout, now_ms, retry),
            decreases n - i,
        {
            let res = self.rpc_request(targets[i].as_str(), request, timeout, retry, now_ms);
            proof {
                assert(res is Ok);
                assert(tv.subrange(0, i + 1) =~= tv.subrange(0, i as int).push(tv[i as int]));
                assert(self.history@ =~= hist0 + request_msgs(tv.subrange(0, i + 1), old(self).node_id@, base, request@));
                assert(self.outbox_view() =~= out0 + request_msgs(tv.subrange(0, i + 1), old(self).node_id@, base, request@));
                assert(self.pending_view() =~= pend0 + request_recs(tv.subrange(0, i + 1), base, request@, timeout, now_ms, retry));
            }
            i = i + 1;
        }
        proof {
            assert(tv.subrange(0, n as int) =~= tv);
        }
        Result::Ok(())
    }

    /// Emit the same untracked envelope to every target, in order.
    /// Fails only when the sequence space cannot hold them all, and
    /// then changes nothing.
    #[verifier::loop_isolation(false)]
    #[verifier::rlimit(60)]
    pub fn send_all(&mut self, targets: &Vec<String>, payload: &Payload, now_ms: u64) -> (r: Result<
        (),
        Error,
    >)
        requires
            old(self).wf(),
            wf_payload(payload@),
        ensures
            final(self).wf(),
            final(self).node_id@ == old(self).node_id@,
            final(self).pending_view() == old(self).pending_view(),
            r is Ok <==> old(self).seq + targets@.len() <= u64::MAX,
            r is Err ==> *final(self) == *old(self),
            r is Ok ==> {
                let tv = crate::proto::strs_view(targets@);
                let base = old(self).seq as int;
                &&& final(self).seq == old(self).seq + targets@.len()
                &&& final(self).history@ == old(self).history@ + request_msgs(
                    tv,
                    old(self).node_id@,
                    base,
                    payload@,
                )
                &&& final(self).outbox_view() == old(self).outbox_view() + request_msgs(
                    tv,
                    old(self).node_id@,
                    base,
                    payload@,
                )
            },
    {
        let n = targets.len();
        if n as u64 > u64::MAX - self.seq {
            return Result::Err(Error::SeqExhausted);
        }
        let ghost tv = crate::proto::strs_view(targets@);
        let ghost base = self.seq as int;
        let ghost hist0 = self.history@;
        let ghost out0 = self.outbox_view();
        let mut i: usize = 0;
        while i < n
            invariant
                0 <= i <= n,
                n == targets@.len(),
                self.wf(),
                self.node_id@ == old(self).node_id@,
                self.pending_view() == old(self).pending_view(),
                self.seq == base + i,
                self.history@ == hist0 + request_msgs(tv.subrange(0, i as int), old(self).node_id@, base, payload@),
                self.outbox_view() == out0 + request_msgs(tv.subrange(0, i as int), old(self).node_id@, base, payload@),
            decreases n - i,
        {
            let res = self.send(targets[i].as_str(), Option::None, payload);
            proof {
                assert(res is Ok);
                assert(tv.subrange(0, i + 1) =~= tv.subrange(0, i as int).push(tv[i as int]));
                assert(self.history@ =~= hist0 + request_msgs(tv.subrange(0, i + 1), old(self).node_id@, base, payload@));
                assert(self.outbox_view() =~= out0 + request_msgs(tv.subrange(0, i + 1), old(self).node_id@, base, payload@));
            }
            i = i + 1;
        }
        proof {
            assert(tv.subrange(0, n as int) =~= tv);
        }
        Result::Ok(())
    }

    /// Whether a reply still has a live request to close: its
    /// `in_reply_to` is present and keys a record in the table.  Late
    /// and duplicate replies answer false, so handlers can discard
    /// them.
    #[verifier::loop_isolation(false)]
    pub fn rpc_still_pending(&self, message: &Message) -> (r: bool)
        requires
            self.wf(),
        ensures
            r == (message.body.in_reply_to is Some && has_pending(
                self.pending_view(),
                message.body.in_reply_to->Some_0,
            )),
    {
        let Option::Some(k) = message.body.in_reply_to else {
            return false;
        };
        let mut i: usize = 0;
        while i < self.pending.len()
            invariant
                0 <= i <= self.pending@.len(),
                forall|j: int| 0 <= j < i ==> (#[trigger] self.pending_view()[j]).id != k,
            decreases self.pending@.len() - i,
        {
            if self.pending[i].id == k {
                proof {
                    assert(0 <= i < self.pending_view().len() && self.pending_view()[
                        i as int].id == k);
                    assert(has_pending(self.pending_view(), k));
                }
                return true;
            }
            i = i + 1;
        }
        false
    }

    /// Hand the undrained envelopes to the writer, in emission order,
    /// and clear the outbox.
    pub fn take_outbox(&mut self) -> (r: Vec<Message>)
        requires
            old(self).wf(),
        ensures
            final(self).wf(),
            final(self).node_id@ == old(self).node_id@,
            final(self).seq == old(self).seq,
            final(self).history@ == old(self).history@,
            final(self).pending@ == old(self).pending@,
            final(self).outbox@.len() == 0,
            r@ == old(self).outbox@,
    {
        let mut out: Vec<Message> = Vec::new();
        core::mem::swap(&mut out, &mut self.outbox);
        proof {
            assert(final(self).outbox_view() =~= Seq::<MessageV>::empty());
        }
        out
    }
}

/// What filtering a sorted table leaves: a sorted table of records
/// that all stood in the original.
proof fn lemma_filter_ordered(s: Seq<RequestV>, pred: spec_fn(RequestV) -> bool)
    requires
        forall|a: int, b: int| 0 <= a < b < s.len() ==> s[a].id < s[b].id,
    ensures
        forall|i: int|
            0 <= i < s.filter(pred).len() ==> s.contains(#[trigger] s.filter(pred)[i]),
        forall|a: int, b: int|
            0 <= a < b < s.filter(pred).len() ==> (#[trigger] s.filter(pred)[a]).id < (
            #[trigger] s.filter(pred)[b]).id,
    decreases s.len(),
{
    reveal_with_fuel(Seq::filter, 2);
    if s.len() > 0 {
        lemma_filter_ordered(s.drop_last(), pred);
        let sub = s.drop_last().filter(pred);
        assert forall|i: int| 0 <= i < s.filter(pred).len() implies s.contains(
            #[trigger] s.filter(pred)[i],
        ) by {
            if i < sub.len() {
                assert(s.drop_last().contains(sub[i]));
                let j = choose|j: int| 0 <= j < s.drop_last().len() && s.drop_last()[j] == sub[i];
                assert(s[j] == sub[i]);
            } else {
                assert(s.filter(pred)[i] == s.last());
                assert(s[s.len() - 1] == s.last());
            }
        }
        assert forall|a: int, b: int|
            0 <= a < b < s.filter(pred).len() implies (#[trigger] s.filter(pred)[a]).id < (
        #[trigger] s.filter(pred)[b]).id by {
            if b < sub.len() {
            } else {
                assert(s.filter(pred)[b] == s.last());
                assert(s.drop_last().contains(sub[a]));
                let j = choose|j: int|
                    0 <= j < s.drop_last().len() && s.drop_last()[j] == sub[a];
                assert(s[j].id < s[s.len() - 1].id);
            }
        }
    }
}

/// The filter of a prefix is a prefix of the filter.
proof fn lemma_filter_prefix(s: Seq<RequestV>, pred: spec_fn(RequestV) -> bool, q: int)
    requires
        0 <= q <= s.len(),
    ensures
        s.subrange(0, q).filter(pred) == s.filter(pred).subrange(
            0,
            s.subrange(0, q).filter(pred).len() as int,
        ),
        s.subrange(0, q).filter(pred).len() <= s.filter(pred).len(),
    decreases s.len(),
{
    reveal_with_fuel(Seq::filter, 2);
    if q == s.len() {
        assert(s.subrange(0, q) =~= s);
        assert(s.filter(pred).subrange(0, s.filter(pred).len() as int) =~= s.filter(pred));
    } else if s.len() > 0 {
        lemma_filter_prefix(s.drop_last(), pred, q);
        assert(s.drop_last().subrange(0, q) =~= s.subrange(0, q));
        let fl = s.subrange(0, q).filter(pred).len() as int;
        if pred(s.last()) {
            assert(s.filter(pred) == s.drop_last().filter(pred).push(s.last()));
            assert(s.filter(pred).subrange(0, fl) =~= s.drop_last().filter(pred).subrange(0, fl));
        } else {
            assert(s.filter(pred) == s.drop_last().filter(pred));
        }
    }
}

/// `lemma_filter_ordered` for the key filter.
proof fn lemma_filter_keeps_order(s: Seq<RequestV>, k: u64, seq: u64)
    requires
        forall|a: int, b: int| 0 <= a < b < s.len() ==> s[a].id < s[b].id,
    ensures
        forall|i: int|
            0 <= i < drop_key(s, k).len() ==> s.contains(#[trigger] drop_key(s, k)[i]),
        forall|a: int, b: int|
            0 <= a < b < drop_key(s, k).len() ==> (#[trigger] drop_key(s, k)[a]).id < (
            #[trigger] drop_key(s, k)[b]).id,
{
    lemma_filter_ordered(s, |r: RequestV| r.id != k);
    assert(drop_key(s, k) == s.filter(|r: RequestV| r.id != k));
}


/// Whether `b` carries everything `a` does, in place, and possibly
/// more after it.
pub open spec fn history_extends(a: Seq<MessageV>, b: Seq<MessageV>) -> bool {
    a.len() <= b.len() && forall|i: int| 0 <= i < a.len() ==> a[i] == #[trigger] b[i]
}

/// A history that another one extends is a prefix of it.
pub proof fn lemma_history_extends(a: Seq<MessageV>, b: Seq<MessageV>)
    requires
        history_extends(a, b),
    ensures
        a.is_prefix_of(b),
{
    assert(a =~= b.subrange(0, a.len() as int));
}

/// A filter that keeps every element changes nothing.
proof fn lemma_filter_all(s: Seq<RequestV>, pred: spec_fn(RequestV) -> bool)
    requires
        forall|i: int| 0 <= i < s.len() ==> pred(#[trigger] s[i]),
    ensures
        s.filter(pred) == s,
    decreases s.len(),
{
    reveal_with_fuel(Seq::filter, 2);
    if s.len() > 0 {
        lemma_filter_all(s.drop_last(), pred);
        assert(s.filter(pred) =~= s);
    }
}

/// Law: emitted identifiers rise strictly in emission order, and the
/// first envelope a node ever emits — the handshake reply — carries 0.
pub proof fn lemma_ids_strictly_increase(io: IO)
    requires
        io.wf(),
    ensures
        forall|i: int, j: int|
            0 <= i < j < io.history@.len() ==> (#[trigger] io.history@[i]).body.id->Some_0 < (
            #[trigger] io.history@[j]).body.id->Some_0,
        io.history@.len() > 0 ==> io.history@[0].body.id == Option::Some(0u64),
{
}

/// Law: marking a reply completed is a no-op when its `in_reply_to` is
/// absent or keys no pending record; it never fails.
pub proof fn lemma_mark_completed_noop(pending: Seq<RequestV>, in_reply_to: Option<u64>)
    requires
        in_reply_to is None || !has_pending(pending, in_reply_to->Some_0),
    ensures
        mark_completed_spec(pending, in_reply_to) == pending,
{
    if in_reply_to is Some {
        let k = in_reply_to->Some_0;
        assert forall|i: int| 0 <= i < pending.len() implies (#[trigger] pending[i]).id != k by {}
        lemma_filter_all(pending, |r: RequestV| r.id != k);
    }
}

/// Law: marking the same reply completed twice has the same effect on
/// the pending table as marking it once.
pub proof fn lemma_mark_completed_twice(pending: Seq<RequestV>, in_reply_to: Option<u64>)
    ensures
        mark_completed_spec(mark_completed_spec(pending, in_reply_to), in_reply_to)
            == mark_completed_spec(pending, in_reply_to),
{
    if in_reply_to is Some {
        let k = in_reply_to->Some_0;
        let once = mark_completed_spec(pending, in_reply_to);
        assert forall|i: int| 0 <= i < once.len() implies (#[trigger] once[i]).id != k by {
            broadcast use vstd::seq_lib::group_filter_ensures;

            assert(once == pending.filter(|r: RequestV| r.id != k));
        }
        lemma_filter_all(once, |r: RequestV| r.id != k);
    }
}

} // verus!
