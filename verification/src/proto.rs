//! The envelope model: message, body and payload, with their JSON
//! encodings.
//!
//! A payload is a tagged union carried flat inside the body under a
//! `type` discriminator.  The runtime owns `init` and `init_ok`; the
//! remaining variants belong to the reference workloads.  Optional
//! fields are elided from the wire when absent, and an absent field and
//! an explicit `null` decode alike.

use vstd::prelude::*;

use crate::Error;
use crate::json::{
    field_views_of, json_text, json_to_string, json_view, lemma_field_views_of_index,
    lemma_field_views_of_push, lemma_json_text_no_newline, lemma_views_of_index,
    lemma_views_of_push, no_newline, obj_get, views_of, Json, JsonV,
};

verus! {

/// One read or write step of a transaction, carried on the wire as a
/// three-element array `["r"|"w", key, value-or-null]`.
#[derive(Clone, Copy, PartialEq, Eq, Structural, Debug)]
pub enum Op {
    Read { key: u64, value: Option<u64> },
    Write { key: u64, value: u64 },
}

/// The contents of the `init` payload.
#[derive(Debug)]
pub struct Init {
    pub node_id: String,
    pub node_ids: Vec<String>,
}

/// Every payload the runtime can carry: the handshake pair plus the
/// variants of the reference workloads.
#[derive(Debug)]
pub enum Payload {
    Init { node_id: String, node_ids: Vec<String> },
    InitOk,
    Echo { echo: String },
    EchoOk { echo: String },
    Generate,
    GenerateOk { id: String },
    Topology { topology: Vec<(String, Vec<String>)> },
    TopologyOk,
    Broadcast { message: Option<u64>, batch: Option<Vec<u64>> },
    BroadcastOk,
    Read,
    ReadOk { messages: Option<Vec<u64>>, value: Option<u64> },
    Gossip { messages: Vec<u64> },
    Add { delta: u64 },
    AddOk,
    Replicate { delta: Option<u64>, ops: Option<Vec<Op>> },
    ReplicateOk,
    Send { key: String, msg: u64, forwarded_for: Option<(String, u64)> },
    SendOk { offset: u64, forwarded_for: Option<(String, u64)> },
    Poll { offsets: Vec<(String, u64)> },
    PollOk { msgs: Vec<(String, Vec<(u64, u64)>)> },
    CommitOffsets { offsets: Vec<(String, u64)> },
    CommitOffsetsOk,
    ListCommittedOffsets { keys: Vec<String> },
    ListCommittedOffsetsOk { offsets: Vec<(String, u64)> },
    ReplicaPoll { offsets: Vec<(String, u64)> },
    ReplicaPollOk { msgs: Vec<(String, Vec<(u64, u64)>)> },
    Txn { txn: Vec<Op> },
    TxnOk { txn: Vec<Op> },
}

/// The body of an envelope: `msg_id` on the wire is the field `id`.
#[derive(Debug)]
pub struct Body {
    pub id: Option<u64>,
    pub in_reply_to: Option<u64>,
    pub payload: Payload,
}

/// One envelope: `dst` is `dest` on the wire.
#[derive(Debug)]
pub struct Message {
    pub src: String,
    pub dst: String,
    pub body: Body,
}

/// The mathematical shape of a payload.
pub enum PayloadV {
    Init { node_id: Seq<char>, node_ids: Seq<Seq<char>> },
    InitOk,
    Echo { echo: Seq<char> },
    EchoOk { echo: Seq<char> },
    Generate,
    GenerateOk { id: Seq<char> },
    Topology { topology: Seq<(Seq<char>, Seq<Seq<char>>)> },
    TopologyOk,
    Broadcast { message: Option<u64>, batch: Option<Seq<u64>> },
    BroadcastOk,
    Read,
    ReadOk { messages: Option<Seq<u64>>, value: Option<u64> },
    Gossip { messages: Seq<u64> },
    Add { delta: u64 },
    AddOk,
    Replicate { delta: Option<u64>, ops: Option<Seq<Op>> },
    ReplicateOk,
    Send { key: Seq<char>, msg: u64, forwarded_for: Option<(Seq<char>, u64)> },
    SendOk { offset: u64, forwarded_for: Option<(Seq<char>, u64)> },
    Poll { offsets: Seq<(Seq<char>, u64)> },
    PollOk { msgs: Seq<(Seq<char>, Seq<(u64, u64)>)> },
    CommitOffsets { offsets: Seq<(Seq<char>, u64)> },
    CommitOffsetsOk,
    ListCommittedOffsets { keys: Seq<Seq<char>> },
    ListCommittedOffsetsOk { offsets: Seq<(Seq<char>, u64)> },
    ReplicaPoll { offsets: Seq<(Seq<char>, u64)> },
    ReplicaPollOk { msgs: Seq<(Seq<char>, Seq<(u64, u64)>)> },
    Txn { txn: Seq<Op> },
    TxnOk { txn: Seq<Op> },
}

/// The mathematical shape of a body.
pub struct BodyV {
    pub id: Option<u64>,
    pub in_reply_to: Option<u64>,
    pub payload: PayloadV,
}

/// The mathematical shape of an envelope.
pub struct MessageV {
    pub src: Seq<char>,
    pub dst: Seq<char>,
    pub body: BodyV,
}

/// The views of a sequence of strings, in order.
pub open spec fn strs_view(v: Seq<String>) -> Seq<Seq<char>> {
    Seq::new(v.len(), |i: int| v[i]@)
}

/// The views of string-keyed numbers, in order.
pub open spec fn kv_view(v: Seq<(String, u64)>) -> Seq<(Seq<char>, u64)> {
    Seq::new(v.len(), |i: int| (v[i].0@, v[i].1))
}

/// The views of string-keyed record lists, in order.
pub open spec fn recs_view(v: Seq<(String, Vec<(u64, u64)>)>) -> Seq<(Seq<char>, Seq<(u64, u64)>)> {
    Seq::new(v.len(), |i: int| (v[i].0@, v[i].1@))
}

/// The views of string-keyed string lists, in order.
pub open spec fn topo_view(v: Seq<(String, Vec<String>)>) -> Seq<(Seq<char>, Seq<Seq<char>>)> {
    Seq::new(v.len(), |i: int| (v[i].0@, strs_view(v[i].1@)))
}

/// The view of an optional sequence of numbers.
pub open spec fn opt_nums_view(v: Option<Vec<u64>>) -> Option<Seq<u64>> {
    match v {
        Option::Some(xs) => Option::Some(xs@),
        Option::None => Option::None,
    }
}

/// The view of an optional forwarding tuple.
pub open spec fn opt_fwd_view(v: Option<(String, u64)>) -> Option<(Seq<char>, u64)> {
    match v {
        Option::Some(f) => Option::Some((f.0@, f.1)),
        Option::None => Option::None,
    }
}

/// The view of an optional operation list.
pub open spec fn opt_ops_view(v: Option<Vec<Op>>) -> Option<Seq<Op>> {
    match v {
        Option::Some(xs) => Option::Some(xs@),
        Option::None => Option::None,
    }
}

impl View for Payload {
    type V = PayloadV;

    open spec fn view(&self) -> PayloadV {
        match self {
            Payload::Init { node_id, node_ids } => PayloadV::Init {
                node_id: node_id@,
                node_ids: strs_view(node_ids@),
            },
            Payload::InitOk => PayloadV::InitOk,
            Payload::Echo { echo } => PayloadV::Echo { echo: echo@ },
            Payload::EchoOk { echo } => PayloadV::EchoOk { echo: echo@ },
            Payload::Generate => PayloadV::Generate,
            Payload::GenerateOk { id } => PayloadV::GenerateOk { id: id@ },
            Payload::Topology { topology } => PayloadV::Topology {
                topology: topo_view(topology@),
            },
            Payload::TopologyOk => PayloadV::TopologyOk,
            Payload::Broadcast { message, batch } => PayloadV::Broadcast {
                message: *message,
                batch: opt_nums_view(*batch),
            },
            Payload::BroadcastOk => PayloadV::BroadcastOk,
            Payload::Read => PayloadV::Read,
            Payload::ReadOk { messages, value } => PayloadV::ReadOk {
                messages: opt_nums_view(*messages),
                value: *value,
            },
            Payload::Gossip { messages } => PayloadV::Gossip { messages: messages@ },
            Payload::Add { delta } => PayloadV::Add { delta: *delta },
            Payload::AddOk => PayloadV::AddOk,
            Payload::Replicate { delta, ops } => PayloadV::Replicate {
                delta: *delta,
                ops: opt_ops_view(*ops),
            },
            Payload::ReplicateOk => PayloadV::ReplicateOk,
            Payload::Send { key, msg, forwarded_for } => PayloadV::Send {
                key: key@,
                msg: *msg,
                forwarded_for: opt_fwd_view(*forwarded_for),
            },
            Payload::SendOk { offset, forwarded_for } => PayloadV::SendOk {
                offset: *offset,
                forwarded_for: opt_fwd_view(*forwarded_for),
            },
            Payload::Poll { offsets } => PayloadV::Poll { offsets: kv_view(offsets@) },
            Payload::PollOk { msgs } => PayloadV::PollOk { msgs: recs_view(msgs@) },
            Payload::CommitOffsets { offsets } => PayloadV::CommitOffsets {
                offsets: kv_view(offsets@),
            },
            Payload::CommitOffsetsOk => PayloadV::CommitOffsetsOk,
            Payload::ListCommittedOffsets { keys } => PayloadV::ListCommittedOffsets {
                keys: strs_view(keys@),
            },
            Payload::ListCommittedOffsetsOk { offsets } => PayloadV::ListCommittedOffsetsOk {
                offsets: kv_view(offsets@),
            },
            Payload::ReplicaPoll { offsets } => PayloadV::ReplicaPoll {
                offsets: kv_view(offsets@),
            },
            Payload::ReplicaPollOk { msgs } => PayloadV::ReplicaPollOk { msgs: recs_view(msgs@) },
            Payload::Txn { txn } => PayloadV::Txn { txn: txn@ },
            Payload::TxnOk { txn } => PayloadV::TxnOk { txn: txn@ },
        }
    }
}

impl View for Body {
    type V = BodyV;

    open spec fn view(&self) -> BodyV {
        BodyV { id: self.id, in_reply_to: self.in_reply_to, payload: self.payload@ }
    }
}

impl View for Message {
    type V = MessageV;

    open spec fn view(&self) -> MessageV {
        MessageV { src: self.src@, dst: self.dst@, body: self.body@ }
    }
}

impl View for Init {
    type V = PayloadV;

    open spec fn view(&self) -> PayloadV {
        PayloadV::Init { node_id: self.node_id@, node_ids: strs_view(self.node_ids@) }
    }
}


/// The JSON shape of an optional number: `null` when absent.
pub open spec fn opt_num_json(v: Option<u64>) -> JsonV {
    match v {
        Option::Some(n) => JsonV::Num(n),
        Option::None => JsonV::Null,
    }
}

/// The JSON shape of one transaction step.
pub open spec fn op_json(op: Op) -> JsonV {
    match op {
        Op::Read { key, value } => JsonV::Arr(
            seq![JsonV::Str("r"@), JsonV::Num(key), opt_num_json(value)],
        ),
        Op::Write { key, value } => JsonV::Arr(
            seq![JsonV::Str("w"@), JsonV::Num(key), JsonV::Num(value)],
        ),
    }
}

/// The JSON shapes of a list of transaction steps.
pub open spec fn ops_json(ops: Seq<Op>) -> Seq<JsonV> {
    Seq::new(ops.len(), |i: int| op_json(ops[i]))
}

/// The JSON shapes of a list of numbers.
pub open spec fn nums_json(xs: Seq<u64>) -> Seq<JsonV> {
    Seq::new(xs.len(), |i: int| JsonV::Num(xs[i]))
}

/// The JSON shapes of a list of strings.
pub open spec fn strs_json(xs: Seq<Seq<char>>) -> Seq<JsonV> {
    Seq::new(xs.len(), |i: int| JsonV::Str(xs[i]))
}

/// The JSON fields of a string-keyed map of numbers.
pub open spec fn kv_json(xs: Seq<(Seq<char>, u64)>) -> Seq<(Seq<char>, JsonV)> {
    Seq::new(xs.len(), |i: int| (xs[i].0, JsonV::Num(xs[i].1)))
}

/// The JSON shape of one log record: a two-element array.
pub open spec fn rec_json(r: (u64, u64)) -> JsonV {
    JsonV::Arr(seq![JsonV::Num(r.0), JsonV::Num(r.1)])
}

/// The JSON shapes of a list of log records.
pub open spec fn rec_list_json(rs: Seq<(u64, u64)>) -> Seq<JsonV> {
    Seq::new(rs.len(), |i: int| rec_json(rs[i]))
}

/// The JSON fields of a string-keyed map of record lists.
pub open spec fn recs_json(xs: Seq<(Seq<char>, Seq<(u64, u64)>)>) -> Seq<(Seq<char>, JsonV)> {
    Seq::new(xs.len(), |i: int| (xs[i].0, JsonV::Arr(rec_list_json(xs[i].1))))
}

/// The JSON fields of a string-keyed map of string lists.
pub open spec fn topo_json(xs: Seq<(Seq<char>, Seq<Seq<char>>)>) -> Seq<(Seq<char>, JsonV)> {
    Seq::new(xs.len(), |i: int| (xs[i].0, JsonV::Arr(strs_json(xs[i].1))))
}

/// A field holding a number, present only when the value is.
pub open spec fn opt_num_field(name: Seq<char>, v: Option<u64>) -> Seq<(Seq<char>, JsonV)> {
    match v {
        Option::Some(n) => seq![(name, JsonV::Num(n))],
        Option::None => Seq::empty(),
    }
}

/// A field holding an array of numbers, present only when the value is.
pub open spec fn opt_nums_field(name: Seq<char>, v: Option<Seq<u64>>) -> Seq<(Seq<char>, JsonV)> {
    match v {
        Option::Some(xs) => seq![(name, JsonV::Arr(nums_json(xs)))],
        Option::None => Seq::empty(),
    }
}

/// The forwarding tuple as a field, elided when absent.
pub open spec fn opt_fwd_field(v: Option<(Seq<char>, u64)>) -> Seq<(Seq<char>, JsonV)> {
    match v {
        Option::Some(f) => seq![
            ("forwarded_for"@, JsonV::Arr(seq![JsonV::Str(f.0), JsonV::Num(f.1)])),
        ],
        Option::None => Seq::empty(),
    }
}

/// A field holding an array of steps, present only when the value is.
pub open spec fn opt_ops_field(name: Seq<char>, v: Option<Seq<Op>>) -> Seq<(Seq<char>, JsonV)> {
    match v {
        Option::Some(xs) => seq![(name, JsonV::Arr(ops_json(xs)))],
        Option::None => Seq::empty(),
    }
}

/// The discriminator value of a payload on the wire.
pub open spec fn tag_of(p: PayloadV) -> Seq<char> {
    match p {
        PayloadV::Init { .. } => "init"@,
        PayloadV::InitOk => "init_ok"@,
        PayloadV::Echo { .. } => "echo"@,
        PayloadV::EchoOk { .. } => "echo_ok"@,
        PayloadV::Generate => "generate"@,
        PayloadV::GenerateOk { .. } => "generate_ok"@,
        PayloadV::Topology { .. } => "topology"@,
        PayloadV::TopologyOk => "topology_ok"@,
        PayloadV::Broadcast { .. } => "broadcast"@,
        PayloadV::BroadcastOk => "broadcast_ok"@,
        PayloadV::Read => "read"@,
        PayloadV::ReadOk { .. } => "read_ok"@,
        PayloadV::Gossip { .. } => "gossip"@,
        PayloadV::Add { .. } => "add"@,
        PayloadV::AddOk => "add_ok"@,
        PayloadV::Replicate { .. } => "replicate"@,
        PayloadV::ReplicateOk => "replicate_ok"@,
        PayloadV::Send { .. } => "send"@,
        PayloadV::SendOk { .. } => "send_ok"@,
        PayloadV::Poll { .. } => "poll"@,
        PayloadV::PollOk { .. } => "poll_ok"@,
        PayloadV::CommitOffsets { .. } => "commit_offsets"@,
        PayloadV::CommitOffsetsOk => "commit_offsets_ok"@,
        PayloadV::ListCommittedOffsets { .. } => "list_committed_offsets"@,
        PayloadV::ListCommittedOffsetsOk { .. } => "list_committed_offsets_ok"@,
        PayloadV::ReplicaPoll { .. } => "replica_poll"@,
        PayloadV::ReplicaPollOk { .. } => "replica_poll_ok"@,
        PayloadV::Txn { .. } => "txn"@,
        PayloadV::TxnOk { .. } => "txn_ok"@,
    }
}

/// The body fields a payload contributes, its discriminator first.
pub open spec fn payload_fields(p: PayloadV) -> Seq<(Seq<char>, JsonV)> {
    seq![("type"@, JsonV::Str(tag_of(p)))] + match p {
        PayloadV::Init { node_id, node_ids } => seq![
            ("node_id"@, JsonV::Str(node_id)),
            ("node_ids"@, JsonV::Arr(strs_json(node_ids))),
        ],
        PayloadV::InitOk => Seq::empty(),
        PayloadV::Echo { echo } => seq![("echo"@, JsonV::Str(echo))],
        PayloadV::EchoOk { echo } => seq![("echo"@, JsonV::Str(echo))],
        PayloadV::Generate => Seq::empty(),
        PayloadV::GenerateOk { id } => seq![("id"@, JsonV::Str(id))],
        PayloadV::Topology { topology } => seq![("topology"@, JsonV::Obj(topo_json(topology)))],
        PayloadV::TopologyOk => Seq::empty(),
        PayloadV::Broadcast { message, batch } => opt_num_field("message"@, message)
            + opt_nums_field("batch"@, batch),
        PayloadV::BroadcastOk => Seq::empty(),
        PayloadV::Read => Seq::empty(),
        PayloadV::ReadOk { messages, value } => opt_nums_field("messages"@, messages)
            + opt_num_field("value"@, value),
        PayloadV::Gossip { messages } => seq![("messages"@, JsonV::Arr(nums_json(messages)))],
        PayloadV::Add { delta } => seq![("delta"@, JsonV::Num(delta))],
        PayloadV::AddOk => Seq::empty(),
        PayloadV::Replicate { delta, ops } => opt_num_field("delta"@, delta) + opt_ops_field(
            "ops"@,
            ops,
        ),
        PayloadV::ReplicateOk => Seq::empty(),
        PayloadV::Send { key, msg, forwarded_for } => seq![
            ("key"@, JsonV::Str(key)),
            ("msg"@, JsonV::Num(msg)),
        ] + opt_fwd_field(forwarded_for),
        PayloadV::SendOk { offset, forwarded_for } => seq![("offset"@, JsonV::Num(offset))]
            + opt_fwd_field(forwarded_for),
        PayloadV::Poll { offsets } => seq![("offsets"@, JsonV::Obj(kv_json(offsets)))],
        PayloadV::PollOk { msgs } => seq![("msgs"@, JsonV::Obj(recs_json(msgs)))],
        PayloadV::CommitOffsets { offsets } => seq![("offsets"@, JsonV::Obj(kv_json(offsets)))],
        PayloadV::CommitOffsetsOk => Seq::empty(),
        PayloadV::ListCommittedOffsets { keys } => seq![("keys"@, JsonV::Arr(strs_json(keys)))],
        PayloadV::ListCommittedOffsetsOk { offsets } => seq![
            ("offsets"@, JsonV::Obj(kv_json(offsets))),
        ],
        PayloadV::ReplicaPoll { offsets } => seq![("offsets"@, JsonV::Obj(kv_json(offsets)))],
        PayloadV::ReplicaPollOk { msgs } => seq![("msgs"@, JsonV::Obj(recs_json(msgs)))],
        PayloadV::Txn { txn } => seq![("txn"@, JsonV::Arr(ops_json(txn)))],
        PayloadV::TxnOk { txn } => seq![("txn"@, JsonV::Arr(ops_json(txn)))],
    }
}

/// The fields of a body object: identifiers first, elided when absent,
/// then the payload flattened in.
pub open spec fn body_fields(b: BodyV) -> Seq<(Seq<char>, JsonV)> {
    opt_num_field("msg_id"@, b.id) + opt_num_field("in_reply_to"@, b.in_reply_to)
        + payload_fields(b.payload)
}

/// The JSON shape of a whole envelope.
pub open spec fn msg_json(m: MessageV) -> JsonV {
    JsonV::Obj(
        seq![
            ("src"@, JsonV::Str(m.src)),
            ("dest"@, JsonV::Str(m.dst)),
            ("body"@, JsonV::Obj(body_fields(m.body))),
        ],
    )
}


/// The numbers `xs` as a JSON array.
fn nums_to_json(xs: &Vec<u64>) -> (j: Json)
    ensures
        j@ == JsonV::Arr(nums_json(xs@)),
{
    broadcast use lemma_views_of_push;

    let mut items: Vec<Json> = Vec::new();
    let mut i: usize = 0;
    while i < xs.len()
        invariant
            0 <= i <= xs@.len(),
            views_of(items@) == nums_json(xs@.subrange(0, i as int)),
        decreases xs@.len() - i,
    {
        let ghost pre = items@;
        items.push(Json::Num(xs[i]));
        proof {
            lemma_views_of_push(pre, Json::Num(xs@[i as int]));
            assert(views_of(items@) =~= nums_json(xs@.subrange(0, i + 1)));
        }
        i = i + 1;
    }
    proof {
        assert(xs@.subrange(0, xs@.len() as int) =~= xs@);
    }
    Json::Arr(items)
}

/// The strings `xs` as a JSON array.
fn strs_to_json(xs: &Vec<String>) -> (j: Json)
    ensures
        j@ == JsonV::Arr(strs_json(strs_view(xs@))),
{
    broadcast use lemma_views_of_push;

    let mut items: Vec<Json> = Vec::new();
    let mut i: usize = 0;
    while i < xs.len()
        invariant
            0 <= i <= xs@.len(),
            views_of(items@) == strs_json(strs_view(xs@.subrange(0, i as int))),
        decreases xs@.len() - i,
    {
        let x = Json::Str(xs[i].clone());
        let ghost xg = x;
        let ghost pre = items@;
        items.push(x);
        proof {
            lemma_views_of_push(pre, xg);
            assert(views_of(items@) =~= strs_json(strs_view(xs@.subrange(0, i + 1))));
        }
        i = i + 1;
    }
    proof {
        assert(xs@.subrange(0, xs@.len() as int) =~= xs@);
        assert(strs_json(strs_view(xs@.subrange(0, xs@.len() as int))) =~= strs_json(
            strs_view(xs@),
        ));
    }
    Json::Arr(items)
}

/// One transaction step as its wire array.
fn op_to_json(op: &Op) -> (j: Json)
    ensures
        j@ == op_json(*op),
{
    let mut items: Vec<Json> = Vec::new();
    match op {
        Op::Read { key, value } => {
            items.push(Json::Str("r".to_owned()));
            items.push(Json::Num(*key));
            match value {
                Option::Some(v) => items.push(Json::Num(*v)),
                Option::None => items.push(Json::Null),
            }
            proof {
                lemma_views_of_index(items@);
                assert(views_of(items@) =~= seq![
                    JsonV::Str("r"@),
                    JsonV::Num(*key),
                    opt_num_json(*value),
                ]);
            }
        },
        Op::Write { key, value } => {
            items.push(Json::Str("w".to_owned()));
            items.push(Json::Num(*key));
            items.push(Json::Num(*value));
            proof {
                lemma_views_of_index(items@);
                assert(views_of(items@) =~= seq![
                    JsonV::Str("w"@),
                    JsonV::Num(*key),
                    JsonV::Num(*value),
                ]);
            }
        },
    }
    Json::Arr(items)
}

/// The transaction steps `ops` as a JSON array.
fn ops_to_json(ops: &Vec<Op>) -> (j: Json)
    ensures
        j@ == JsonV::Arr(ops_json(ops@)),
{
    broadcast use lemma_views_of_push;

    let mut items: Vec<Json> = Vec::new();
    let mut i: usize = 0;
    while i < ops.len()
        invariant
            0 <= i <= ops@.len(),
            views_of(items@) == ops_json(ops@.subrange(0, i as int)),
        decreases ops@.len() - i,
    {
        let x = op_to_json(&ops[i]);
        let ghost xg = x;
        let ghost pre = items@;
        items.push(x);
        proof {
            lemma_views_of_push(pre, xg);
            assert(views_of(items@) =~= ops_json(ops@.subrange(0, i + 1)));
        }
        i = i + 1;
    }
    proof {
        assert(ops@.subrange(0, ops@.len() as int) =~= ops@);
    }
    Json::Arr(items)
}

/// One log record as its wire pair.
fn rec_to_json(r: (u64, u64)) -> (j: Json)
    ensures
        j@ == rec_json(r),
{
    let mut items: Vec<Json> = Vec::new();
    items.push(Json::Num(r.0));
    items.push(Json::Num(r.1));
    proof {
        lemma_views_of_index(items@);
        assert(views_of(items@) =~= seq![JsonV::Num(r.0), JsonV::Num(r.1)]);
    }
    Json::Arr(items)
}

/// The records `rs` as a JSON array of pairs.
fn rec_list_to_json(rs: &Vec<(u64, u64)>) -> (j: Json)
    ensures
        j@ == JsonV::Arr(rec_list_json(rs@)),
{
    broadcast use lemma_views_of_push;

    let mut items: Vec<Json> = Vec::new();
    let mut i: usize = 0;
    while i < rs.len()
        invariant
            0 <= i <= rs@.len(),
            views_of(items@) == rec_list_json(rs@.subrange(0, i as int)),
        decreases rs@.len() - i,
    {
        let x = rec_to_json(rs[i]);
        let ghost xg = x;
        let ghost pre = items@;
        items.push(x);
        proof {
            lemma_views_of_push(pre, xg);
            assert(views_of(items@) =~= rec_list_json(rs@.subrange(0, i + 1)));
        }
        i = i + 1;
    }
    proof {
        assert(rs@.subrange(0, rs@.len() as int) =~= rs@);
    }
    Json::Arr(items)
}

/// A string-keyed map of numbers as a JSON object.
fn kv_to_json(xs: &Vec<(String, u64)>) -> (j: Json)
    ensures
        j@ == JsonV::Obj(kv_json(kv_view(xs@))),
{
    broadcast use lemma_field_views_of_push;

    let mut fields: Vec<(String, Json)> = Vec::new();
    let mut i: usize = 0;
    while i < xs.len()
        invariant
            0 <= i <= xs@.len(),
            field_views_of(fields@) == kv_json(kv_view(xs@.subrange(0, i as int))),
        decreases xs@.len() - i,
    {
        let x = (xs[i].0.clone(), Json::Num(xs[i].1));
        let ghost xg = x;
        let ghost pre = fields@;
        fields.push(x);
        proof {
            lemma_field_views_of_push(pre, xg);
            assert(field_views_of(fields@) =~= kv_json(kv_view(xs@.subrange(0, i + 1))));
        }
        i = i + 1;
    }
    proof {
        assert(xs@.subrange(0, xs@.len() as int) =~= xs@);
        assert(kv_json(kv_view(xs@.subrange(0, xs@.len() as int))) =~= kv_json(kv_view(xs@)));
    }
    Json::Obj(fields)
}

/// A string-keyed map of record lists as a JSON object.
fn recs_to_json(xs: &Vec<(String, Vec<(u64, u64)>)>) -> (j: Json)
    ensures
        j@ == JsonV::Obj(recs_json(recs_view(xs@))),
{
    broadcast use lemma_field_views_of_push;

    let mut fields: Vec<(String, Json)> = Vec::new();
    let mut i: usize = 0;
    while i < xs.len()
        invariant
            0 <= i <= xs@.len(),
            field_views_of(fields@) == recs_json(recs_view(xs@.subrange(0, i as int))),
        decreases xs@.len() - i,
    {
        let v = rec_list_to_json(&xs[i].1);
        let x = (xs[i].0.clone(), v);
        let ghost xg = x;
        let ghost pre = fields@;
        fields.push(x);
        proof {
            lemma_field_views_of_push(pre, xg);
            assert(field_views_of(fields@) =~= recs_json(recs_view(xs@.subrange(0, i + 1))));
        }
        i = i + 1;
    }
    proof {
        assert(xs@.subrange(0, xs@.len() as int) =~= xs@);
        assert(recs_json(recs_view(xs@.subrange(0, xs@.len() as int))) =~= recs_json(
            recs_view(xs@),
        ));
    }
    Json::Obj(fields)
}

/// A string-keyed map of string lists as a JSON object.
fn topo_to_json(xs: &Vec<(String, Vec<String>)>) -> (j: Json)
    ensures
        j@ == JsonV::Obj(topo_json(topo_view(xs@))),
{
    broadcast use lemma_field_views_of_push;

    let mut fields: Vec<(String, Json)> = Vec::new();
    let mut i: usize = 0;
    while i < xs.len()
        invariant
            0 <= i <= xs@.len(),
            field_views_of(fields@) == topo_json(topo_view(xs@.subrange(0, i as int))),
        decreases xs@.len() - i,
    {
        let v = strs_to_json(&xs[i].1);
        let x = (xs[i].0.clone(), v);
        let ghost xg = x;
        let ghost pre = fields@;
        fields.push(x);
        proof {
            lemma_field_views_of_push(pre, xg);
            assert(field_views_of(fields@) =~= topo_json(topo_view(xs@.subrange(0, i + 1))));
        }
        i = i + 1;
    }
    proof {
        assert(xs@.subrange(0, xs@.len() as int) =~= xs@);
        assert(topo_json(topo_view(xs@.subrange(0, xs@.len() as int))) =~= topo_json(
            topo_view(xs@),
        ));
    }
    Json::Obj(fields)
}


/// Append one field, owned, to an object under construction.
fn push_field(fields: &mut Vec<(String, Json)>, name: &str, v: Json)
    ensures
        field_views_of(final(fields)@) == field_views_of(old(fields)@) + seq![(name@, v@)],
{
    let ghost pre = fields@;
    let x = (name.to_owned(), v);
    let ghost xg = x;
    fields.push(x);
    proof {
        lemma_field_views_of_push(pre, xg);
    }
}

/// Append the fields a payload contributes to a body object, the
/// discriminator first.
fn payload_to_fields(p: &Payload, fields: &mut Vec<(String, Json)>)
    ensures
        field_views_of(final(fields)@) == field_views_of(old(fields)@) + payload_fields(p@),
{
    let ghost pre = fields@;
    match p {
        Payload::Init { node_id, node_ids } => {
            push_field(fields, "type", Json::Str("init".to_owned()));
            push_field(fields, "node_id", Json::Str(node_id.clone()));
            let ids = strs_to_json(node_ids);
            push_field(fields, "node_ids", ids);
        },
        Payload::InitOk => {
            push_field(fields, "type", Json::Str("init_ok".to_owned()));
        },
        Payload::Echo { echo } => {
            push_field(fields, "type", Json::Str("echo".to_owned()));
            push_field(fields, "echo", Json::Str(echo.clone()));
        },
        Payload::EchoOk { echo } => {
            push_field(fields, "type", Json::Str("echo_ok".to_owned()));
            push_field(fields, "echo", Json::Str(echo.clone()));
        },
        Payload::Generate => {
            push_field(fields, "type", Json::Str("generate".to_owned()));
        },
        Payload::GenerateOk { id } => {
            push_field(fields, "type", Json::Str("generate_ok".to_owned()));
            push_field(fields, "id", Json::Str(id.clone()));
        },
        Payload::Topology { topology } => {
            push_field(fields, "type", Json::Str("topology".to_owned()));
            let t = topo_to_json(topology);
            push_field(fields, "topology", t);
        },
        Payload::TopologyOk => {
            push_field(fields, "type", Json::Str("topology_ok".to_owned()));
        },
        Payload::Broadcast { message, batch } => {
            push_field(fields, "type", Json::Str("broadcast".to_owned()));
            if let Option::Some(m) = message {
                push_field(fields, "message", Json::Num(*m));
            }
            if let Option::Some(b) = batch {
                let bj = nums_to_json(b);
                push_field(fields, "batch", bj);
            }
        },
        Payload::BroadcastOk => {
            push_field(fields, "type", Json::Str("broadcast_ok".to_owned()));
        },
        Payload::Read => {
            push_field(fields, "type", Json::Str("read".to_owned()));
        },
        Payload::ReadOk { messages, value } => {
            push_field(fields, "type", Json::Str("read_ok".to_owned()));
            if let Option::Some(ms) = messages {
                let mj = nums_to_json(ms);
                push_field(fields, "messages", mj);
            }
            if let Option::Some(v) = value {
                push_field(fields, "value", Json::Num(*v));
            }
        },
        Payload::Gossip { messages } => {
            push_field(fields, "type", Json::Str("gossip".to_owned()));
            let mj = nums_to_json(messages);
            push_field(fields, "messages", mj);
        },
        Payload::Add { delta } => {
            push_field(fields, "type", Json::Str("add".to_owned()));
            push_field(fields, "delta", Json::Num(*delta));
        },
        Payload::AddOk => {
            push_field(fields, "type", Json::Str("add_ok".to_owned()));
        },
        Payload::Replicate { delta, ops } => {
            push_field(fields, "type", Json::Str("replicate".to_owned()));
            if let Option::Some(d) = delta {
                push_field(fields, "delta", Json::Num(*d));
            }
            if let Option::Some(os) = ops {
                let oj = ops_to_json(os);
                push_field(fields, "ops", oj);
            }
        },
        Payload::ReplicateOk => {
            push_field(fields, "type", Json::Str("replicate_ok".to_owned()));
        },
        Payload::Send { key, msg, forwarded_for } => {
            push_field(fields, "type", Json::Str("send".to_owned()));
            push_field(fields, "key", Json::Str(key.clone()));
            push_field(fields, "msg", Json::Num(*msg));
            if let Option::Some(f) = forwarded_for {
                let fj = fwd_to_json(f);
                push_field(fields, "forwarded_for", fj);
            }
        },
        Payload::SendOk { offset, forwarded_for } => {
            push_field(fields, "type", Json::Str("send_ok".to_owned()));
            push_field(fields, "offset", Json::Num(*offset));
            if let Option::Some(f) = forwarded_for {
                let fj = fwd_to_json(f);
                push_field(fields, "forwarded_for", fj);
            }
        },
        Payload::Poll { offsets } => {
            push_field(fields, "type", Json::Str("poll".to_owned()));
            let oj = kv_to_json(offsets);
            push_field(fields, "offsets", oj);
        },
        Payload::PollOk { msgs } => {
            push_field(fields, "type", Json::Str("poll_ok".to_owned()));
            let mj = recs_to_json(msgs);
            push_field(fields, "msgs", mj);
        },
        Payload::CommitOffsets { offsets } => {
            push_field(fields, "type", Json::Str("commit_offsets".to_owned()));
            let oj = kv_to_json(offsets);
            push_field(fields, "offsets", oj);
        },
        Payload::CommitOffsetsOk => {
            push_field(fields, "type", Json::Str("commit_offsets_ok".to_owned()));
        },
        Payload::ListCommittedOffsets { keys } => {
            push_field(fields, "type", Json::Str("list_committed_offsets".to_owned()));
            let kj = strs_to_json(keys);
            push_field(fields, "keys", kj);
        },
        Payload::ListCommittedOffsetsOk { offsets } => {
            push_field(fields, "type", Json::Str("list_committed_offsets_ok".to_owned()));
            let oj = kv_to_json(offsets);
            push_field(fields, "offsets", oj);
        },
        Payload::ReplicaPoll { offsets } => {
            push_field(fields, "type", Json::Str("replica_poll".to_owned()));
            let oj = kv_to_json(offsets);
            push_field(fields, "offsets", oj);
        },
        Payload::ReplicaPollOk { msgs } => {
            push_field(fields, "type", Json::Str("replica_poll_ok".to_owned()));
            let mj = recs_to_json(msgs);
            push_field(fields, "msgs", mj);
        },
        Payload::Txn { txn } => {
            push_field(fields, "type", Json::Str("txn".to_owned()));
            let tj = ops_to_json(txn);
            push_field(fields, "txn", tj);
        },
        Payload::TxnOk { txn } => {
            push_field(fields, "type", Json::Str("txn_ok".to_owned()));
            let tj = ops_to_json(txn);
            push_field(fields, "txn", tj);
        },
    }
    proof {
        assert(field_views_of(fields@) =~= field_views_of(pre) + payload_fields(p@));
    }
}

/// The forwarding tuple as its wire array.
fn fwd_to_json(f: &(String, u64)) -> (j: Json)
    ensures
        j@ == JsonV::Arr(seq![JsonV::Str(f.0@), JsonV::Num(f.1)]),
{
    let mut items: Vec<Json> = Vec::new();
    items.push(Json::Str(f.0.clone()));
    items.push(Json::Num(f.1));
    proof {
        lemma_views_of_index(items@);
        assert(views_of(items@) =~= seq![JsonV::Str(f.0@), JsonV::Num(f.1)]);
    }
    Json::Arr(items)
}

/// A whole body as a JSON object.
fn body_to_json(b: &Body) -> (j: Json)
    ensures
        j@ == JsonV::Obj(body_fields(b@)),
{
    let mut fields: Vec<(String, Json)> = Vec::new();
    if let Option::Some(id) = b.id {
        push_field(&mut fields, "msg_id", Json::Num(id));
    }
    if let Option::Some(r) = b.in_reply_to {
        push_field(&mut fields, "in_reply_to", Json::Num(r));
    }
    payload_to_fields(&b.payload, &mut fields);
    proof {
        assert(field_views_of(fields@) =~= body_fields(b@));
    }
    Json::Obj(fields)
}

/// A whole envelope as a JSON object.
pub fn msg_to_json(m: &Message) -> (j: Json)
    ensures
        j@ == msg_json(m@),
{
    let body = body_to_json(&m.body);
    let mut fields: Vec<(String, Json)> = Vec::new();
    push_field(&mut fields, "src", Json::Str(m.src.clone()));
    push_field(&mut fields, "dest", Json::Str(m.dst.clone()));
    push_field(&mut fields, "body", body);
    proof {
        assert(field_views_of(fields@) =~= seq![
            ("src"@, JsonV::Str(m.src@)),
            ("dest"@, JsonV::Str(m.dst@)),
            ("body"@, JsonV::Obj(body_fields(m.body@))),
        ]);
    }
    Json::Obj(fields)
}


/// Decode an array of numbers.
pub open spec fn dec_nums(items: Seq<JsonV>) -> Option<Seq<u64>> {
    if forall|i: int| 0 <= i < items.len() ==> #[trigger] items[i] is Num {
        Option::Some(Seq::new(items.len(), |i: int| items[i]->Num_0))
    } else {
        Option::None
    }
}

/// Decode an array of strings.
pub open spec fn dec_strs(items: Seq<JsonV>) -> Option<Seq<Seq<char>>> {
    if forall|i: int| 0 <= i < items.len() ==> #[trigger] items[i] is Str {
        Option::Some(Seq::new(items.len(), |i: int| items[i]->Str_0))
    } else {
        Option::None
    }
}

/// Decode one transaction step from its wire array.
pub open spec fn dec_op(v: JsonV) -> Option<Op> {
    match v {
        JsonV::Arr(items) => {
            if items.len() == 3 && items[0] is Str && items[1] is Num {
                if items[0]->Str_0 == "r"@ {
                    match items[2] {
                        JsonV::Null => Option::Some(
                            Op::Read { key: items[1]->Num_0, value: Option::None },
                        ),
                        JsonV::Num(n) => Option::Some(
                            Op::Read { key: items[1]->Num_0, value: Option::Some(n) },
                        ),
                        _ => Option::None,
                    }
                } else if items[0]->Str_0 == "w"@ {
                    match items[2] {
                        JsonV::Num(n) => Option::Some(
                            Op::Write { key: items[1]->Num_0, value: n },
                        ),
                        _ => Option::None,
                    }
                } else {
                    Option::None
                }
            } else {
                Option::None
            }
        },
        _ => Option::None,
    }
}

/// Decode an array of transaction steps.
pub open spec fn dec_ops(items: Seq<JsonV>) -> Option<Seq<Op>> {
    if forall|i: int| 0 <= i < items.len() ==> #[trigger] dec_op(items[i]) is Some {
        Option::Some(Seq::new(items.len(), |i: int| dec_op(items[i])->Some_0))
    } else {
        Option::None
    }
}

/// Decode an object of numbers, keys kept in wire order.
pub open spec fn dec_kv(fields: Seq<(Seq<char>, JsonV)>) -> Option<Seq<(Seq<char>, u64)>> {
    if forall|i: int| 0 <= i < fields.len() ==> #[trigger] fields[i].1 is Num {
        Option::Some(Seq::new(fields.len(), |i: int| (fields[i].0, fields[i].1->Num_0)))
    } else {
        Option::None
    }
}

/// Decode one log record: a two-element array of numbers.
pub open spec fn dec_rec(v: JsonV) -> Option<(u64, u64)> {
    match v {
        JsonV::Arr(items) => {
            if items.len() == 2 && items[0] is Num && items[1] is Num {
                Option::Some((items[0]->Num_0, items[1]->Num_0))
            } else {
                Option::None
            }
        },
        _ => Option::None,
    }
}

/// Decode an array of log records.
pub open spec fn dec_rec_list(items: Seq<JsonV>) -> Option<Seq<(u64, u64)>> {
    if forall|i: int| 0 <= i < items.len() ==> #[trigger] dec_rec(items[i]) is Some {
        Option::Some(Seq::new(items.len(), |i: int| dec_rec(items[i])->Some_0))
    } else {
        Option::None
    }
}

/// Decode an object of record lists.
pub open spec fn dec_recs(fields: Seq<(Seq<char>, JsonV)>) -> Option<
    Seq<(Seq<char>, Seq<(u64, u64)>)>,
> {
    if forall|i: int|
        0 <= i < fields.len() ==> #[trigger] fields[i].1 is Arr && dec_rec_list(
            fields[i].1->Arr_0,
        ) is Some {
        Option::Some(
            Seq::new(fields.len(), |i: int| (fields[i].0, dec_rec_list(fields[i].1->Arr_0)->Some_0)),
        )
    } else {
        Option::None
    }
}

/// Decode an object of string lists.
pub open spec fn dec_topo(fields: Seq<(Seq<char>, JsonV)>) -> Option<
    Seq<(Seq<char>, Seq<Seq<char>>)>,
> {
    if forall|i: int|
        0 <= i < fields.len() ==> #[trigger] fields[i].1 is Arr && dec_strs(
            fields[i].1->Arr_0,
        ) is Some {
        Option::Some(
            Seq::new(fields.len(), |i: int| (fields[i].0, dec_strs(fields[i].1->Arr_0)->Some_0)),
        )
    } else {
        Option::None
    }
}

/// Decode the forwarding tuple: a string and a number.
pub open spec fn dec_fwd(v: JsonV) -> Option<(Seq<char>, u64)> {
    match v {
        JsonV::Arr(items) => {
            if items.len() == 2 && items[0] is Str && items[1] is Num {
                Option::Some((items[0]->Str_0, items[1]->Num_0))
            } else {
                Option::None
            }
        },
        _ => Option::None,
    }
}

/// An optional number field: absent and `null` both decode to absent.
pub open spec fn dec_opt_num(fields: Seq<(Seq<char>, JsonV)>, key: Seq<char>) -> Option<
    Option<u64>,
> {
    match obj_get(fields, key) {
        Option::None => Option::Some(Option::None),
        Option::Some(JsonV::Null) => Option::Some(Option::None),
        Option::Some(JsonV::Num(n)) => Option::Some(Option::Some(n)),
        Option::Some(_) => Option::None,
    }
}

/// A required number field.
pub open spec fn dec_req_num(fields: Seq<(Seq<char>, JsonV)>, key: Seq<char>) -> Option<u64> {
    match obj_get(fields, key) {
        Option::Some(JsonV::Num(n)) => Option::Some(n),
        _ => Option::None,
    }
}

/// A required string field.
pub open spec fn dec_req_str(fields: Seq<(Seq<char>, JsonV)>, key: Seq<char>) -> Option<Seq<char>> {
    match obj_get(fields, key) {
        Option::Some(JsonV::Str(t)) => Option::Some(t),
        _ => Option::None,
    }
}

/// An optional array-of-numbers field: absent and `null` decode alike.
pub open spec fn dec_opt_nums(fields: Seq<(Seq<char>, JsonV)>, key: Seq<char>) -> Option<
    Option<Seq<u64>>,
> {
    match obj_get(fields, key) {
        Option::None => Option::Some(Option::None),
        Option::Some(JsonV::Null) => Option::Some(Option::None),
        Option::Some(JsonV::Arr(items)) => match dec_nums(items) {
            Option::Some(ns) => Option::Some(Option::Some(ns)),
            Option::None => Option::None,
        },
        Option::Some(_) => Option::None,
    }
}

/// An optional array-of-steps field: absent and `null` decode alike.
pub open spec fn dec_opt_ops(fields: Seq<(Seq<char>, JsonV)>, key: Seq<char>) -> Option<
    Option<Seq<Op>>,
> {
    match obj_get(fields, key) {
        Option::None => Option::Some(Option::None),
        Option::Some(JsonV::Null) => Option::Some(Option::None),
        Option::Some(JsonV::Arr(items)) => match dec_ops(items) {
            Option::Some(os) => Option::Some(Option::Some(os)),
            Option::None => Option::None,
        },
        Option::Some(_) => Option::None,
    }
}

/// The optional forwarding field: absent and `null` decode alike.
pub open spec fn dec_opt_fwd(fields: Seq<(Seq<char>, JsonV)>) -> Option<
    Option<(Seq<char>, u64)>,
> {
    match obj_get(fields, "forwarded_for"@) {
        Option::None => Option::Some(Option::None),
        Option::Some(JsonV::Null) => Option::Some(Option::None),
        Option::Some(v) => match dec_fwd(v) {
            Option::Some(f) => Option::Some(Option::Some(f)),
            Option::None => Option::None,
        },
    }
}

/// Decode the payload carried flat in a body object: pick the
/// discriminator, then the variant's fields.  Unknown fields are
/// ignored; an unknown or missing discriminator, a missing required
/// field, or a wrongly typed field is a decode failure, as is a
/// `broadcast` carrying both `message` and `batch`.
pub open spec fn spec_decode_payload(fields: Seq<(Seq<char>, JsonV)>) -> Option<PayloadV> {
    match dec_req_str(fields, "type"@) {
        Option::None => Option::None,
        Option::Some(tag) => {
            if tag == "init"@ {
                match (dec_req_str(fields, "node_id"@), obj_get(fields, "node_ids"@)) {
                    (Option::Some(node_id), Option::Some(JsonV::Arr(items))) => match dec_strs(
                        items,
                    ) {
                        Option::Some(node_ids) => Option::Some(
                            PayloadV::Init { node_id, node_ids },
                        ),
                        Option::None => Option::None,
                    },
                    _ => Option::None,
                }
            } else if tag == "init_ok"@ {
                Option::Some(PayloadV::InitOk)
            } else if tag == "echo"@ {
                match dec_req_str(fields, "echo"@) {
                    Option::Some(echo) => Option::Some(PayloadV::Echo { echo }),
                    Option::None => Option::None,
                }
            } else if tag == "echo_ok"@ {
                match dec_req_str(fields, "echo"@) {
                    Option::Some(echo) => Option::Some(PayloadV::EchoOk { echo }),
                    Option::None => Option::None,
                }
            } else if tag == "generate"@ {
                Option::Some(PayloadV::Generate)
            } else if tag == "generate_ok"@ {
                match dec_req_str(fields, "id"@) {
                    Option::Some(id) => Option::Some(PayloadV::GenerateOk { id }),
                    Option::None => Option::None,
                }
            } else if tag == "topology"@ {
                match obj_get(fields, "topology"@) {
                    Option::Some(JsonV::Obj(tf)) => match dec_topo(tf) {
                        Option::Some(topology) => Option::Some(PayloadV::Topology { topology }),
                        Option::None => Option::None,
                    },
                    _ => Option::None,
                }
            } else if tag == "topology_ok"@ {
                Option::Some(PayloadV::TopologyOk)
            } else if tag == "broadcast"@ {
                match (dec_opt_num(fields, "message"@), dec_opt_nums(fields, "batch"@)) {
                    (Option::Some(message), Option::Some(batch)) => {
                        if message is Some && batch is Some {
                            Option::None
                        } else {
                            Option::Some(PayloadV::Broadcast { message, batch })
                        }
                    },
                    _ => Option::None,
                }
            } else if tag == "broadcast_ok"@ {
                Option::Some(PayloadV::BroadcastOk)
            } else if tag == "read"@ {
                Option::Some(PayloadV::Read)
            } else if tag == "read_ok"@ {
                match (dec_opt_nums(fields, "messages"@), dec_opt_num(fields, "value"@)) {
                    (Option::Some(messages), Option::Some(value)) => Option::Some(
                        PayloadV::ReadOk { messages, value },
                    ),
                    _ => Option::None,
                }
            } else if tag == "gossip"@ {
                match obj_get(fields, "messages"@) {
                    Option::Some(JsonV::Arr(items)) => match dec_nums(items) {
                        Option::Some(messages) => Option::Some(PayloadV::Gossip { messages }),
                        Option::None => Option::None,
                    },
                    _ => Option::None,
                }
            } else if tag == "add"@ {
                match dec_req_num(fields, "delta"@) {
                    Option::Some(delta) => Option::Some(PayloadV::Add { delta }),
                    Option::None => Option::None,
                }
            } else if tag == "add_ok"@ {
                Option::Some(PayloadV::AddOk)
            } else if tag == "replicate"@ {
                match (dec_opt_num(fields, "delta"@), dec_opt_ops(fields, "ops"@)) {
                    (Option::Some(delta), Option::Some(ops)) => Option::Some(
                        PayloadV::Replicate { delta, ops },
                    ),
                    _ => Option::None,
                }
            } else if tag == "replicate_ok"@ {
                Option::Some(PayloadV::ReplicateOk)
            } else if tag == "send"@ {
                match (
                    dec_req_str(fields, "key"@),
                    dec_req_num(fields, "msg"@),
                    dec_opt_fwd(fields),
                ) {
                    (
                        Option::Some(key),
                        Option::Some(msg),
                        Option::Some(forwarded_for),
                    ) => Option::Some(PayloadV::Send { key, msg, forwarded_for }),
                    _ => Option::None,
                }
            } else if tag == "send_ok"@ {
                match (dec_req_num(fields, "offset"@), dec_opt_fwd(fields)) {
                    (Option::Some(offset), Option::Some(forwarded_for)) => Option::Some(
                        PayloadV::SendOk { offset, forwarded_for },
                    ),
                    _ => Option::None,
                }
            } else if tag == "poll"@ {
                match obj_get(fields, "offsets"@) {
                    Option::Some(JsonV::Obj(of)) => match dec_kv(of) {
                        Option::Some(offsets) => Option::Some(PayloadV::Poll { offsets }),
                        Option::None => Option::None,
                    },
                    _ => Option::None,
                }
            } else if tag == "poll_ok"@ {
                match obj_get(fields, "msgs"@) {
                    Option::Some(JsonV::Obj(mf)) => match dec_recs(mf) {
                        Option::Some(msgs) => Option::Some(PayloadV::PollOk { msgs }),
                        Option::None => Option::None,
                    },
                    _ => Option::None,
                }
            } else if tag == "commit_offsets"@ {
                match obj_get(fields, "offsets"@) {
                    Option::Some(JsonV::Obj(of)) => match dec_kv(of) {
                        Option::Some(offsets) => Option::Some(PayloadV::CommitOffsets { offsets }),
                        Option::None => Option::None,
                    },
                    _ => Option::None,
                }
            } else if tag == "commit_offsets_ok"@ {
                Option::Some(PayloadV::CommitOffsetsOk)
            } else if tag == "list_committed_offsets"@ {
                match obj_get(fields, "keys"@) {
                    Option::Some(JsonV::Arr(items)) => match dec_strs(items) {
                        Option::Some(keys) => Option::Some(
                            PayloadV::ListCommittedOffsets { keys },
                        ),
                        Option::None => Option::None,
                    },
                    _ => Option::None,
                }
            } else if tag == "list_committed_offsets_ok"@ {
                match obj_get(fields, "offsets"@) {
                    Option::Some(JsonV::Obj(of)) => match dec_kv(of) {
                        Option::Some(offsets) => Option::Some(
                            PayloadV::ListCommittedOffsetsOk { offsets },
                        ),
                        Option::None => Option::None,
                    },
                    _ => Option::None,
                }
            } else if tag == "replica_poll"@ {
                match obj_get(fields, "offsets"@) {
                    Option::Some(JsonV::Obj(of)) => match dec_kv(of) {
                        Option::Some(offsets) => Option::Some(PayloadV::ReplicaPoll { offsets }),
                        Option::None => Option::None,
                    },
                    _ => Option::None,
                }
            } else if tag == "replica_poll_ok"@ {
                match obj_get(fields, "msgs"@) {
                    Option::Some(JsonV::Obj(mf)) => match dec_recs(mf) {
                        Option::Some(msgs) => Option::Some(PayloadV::ReplicaPollOk { msgs }),
                        Option::None => Option::None,
                    },
                    _ => Option::None,
                }
            } else if tag == "txn"@ {
                match obj_get(fields, "txn"@) {
                    Option::Some(JsonV::Arr(items)) => match dec_ops(items) {
                        Option::Some(txn) => Option::Some(PayloadV::Txn { txn }),
                        Option::None => Option::None,
                    },
                    _ => Option::None,
                }
            } else if tag == "txn_ok"@ {
                match obj_get(fields, "txn"@) {
                    Option::Some(JsonV::Arr(items)) => match dec_ops(items) {
                        Option::Some(txn) => Option::Some(PayloadV::TxnOk { txn }),
                        Option::None => Option::None,
                    },
                    _ => Option::None,
                }
            } else {
                Option::None
            }
        },
    }
}

/// Decode a body object: optional identifiers, then the payload.
pub open spec fn spec_decode_body(fields: Seq<(Seq<char>, JsonV)>) -> Option<BodyV> {
    match (
        dec_opt_num(fields, "msg_id"@),
        dec_opt_num(fields, "in_reply_to"@),
        spec_decode_payload(fields),
    ) {
        (Option::Some(id), Option::Some(in_reply_to), Option::Some(payload)) => Option::Some(
            BodyV { id, in_reply_to, payload },
        ),
        _ => Option::None,
    }
}

/// Decode a whole envelope from its JSON object.
pub open spec fn spec_decode_msg(j: JsonV) -> Option<MessageV> {
    match j {
        JsonV::Obj(fields) => match (
            dec_req_str(fields, "src"@),
            dec_req_str(fields, "dest"@),
            obj_get(fields, "body"@),
        ) {
            (Option::Some(src), Option::Some(dst), Option::Some(JsonV::Obj(bf))) => {
                match spec_decode_body(bf) {
                    Option::Some(body) => Option::Some(MessageV { src, dst, body }),
                    Option::None => Option::None,
                }
            },
            _ => Option::None,
        },
        _ => Option::None,
    }
}


/// Whether two string slices hold the same characters.
pub fn str_eq(a: &str, b: &str) -> (r: bool)
    ensures
        r == (a@ == b@),
{
    let n = a.unicode_len();
    let m = b.unicode_len();
    if n != m {
        return false;
    }
    let mut i: usize = 0;
    while i < n
        invariant
            0 <= i <= n,
            n == a@.len(),
            n == b@.len(),
            forall|k: int| 0 <= k < i ==> a@[k] == b@[k],
        decreases n - i,
    {
        if a.get_char(i) != b.get_char(i) {
            return false;
        }
        i = i + 1;
    }
    proof {
        assert(a@ =~= b@);
    }
    true
}

/// The first field bound to `key`, if any.
fn get_field<'a>(fields: &'a Vec<(String, Json)>, key: &str) -> (r: Option<&'a Json>)
    ensures
        match r {
            Option::Some(v) => obj_get(field_views_of(fields@), key@) == Option::Some(v@),
            Option::None => obj_get(field_views_of(fields@), key@) is None,
        },
{
    proof {
        lemma_field_views_of_index(fields@);
    }
    let ghost fv = field_views_of(fields@);
    proof {
        assert(fv.skip(0) =~= fv);
    }
    let mut i: usize = 0;
    while i < fields.len()
        invariant
            0 <= i <= fields@.len(),
            fv == field_views_of(fields@),
            fv.len() == fields@.len(),
            forall|k: int|
                0 <= k < fields@.len() ==> fv[k] == (fields@[k].0@, json_view(fields@[k].1)),
            obj_get(fv, key@) == obj_get(fv.skip(i as int), key@),
        decreases fields@.len() - i,
    {
        if str_eq(fields[i].0.as_str(), key) {
            proof {
                assert(fv.skip(i as int)[0] == fv[i as int]);
            }
            return Option::Some(&fields[i].1);
        }
        proof {
            assert(fv.skip(i as int)[0] == fv[i as int]);
            assert(fv.skip(i as int).drop_first() =~= fv.skip(i + 1));
        }
        i = i + 1;
    }
    proof {
        assert(fv.skip(fields@.len() as int) =~= Seq::<(Seq<char>, JsonV)>::empty());
    }
    Option::None
}

/// Decode an array of numbers.
fn dec_nums_exec(items: &Vec<Json>) -> (r: Option<Vec<u64>>)
    ensures
        match r {
            Option::Some(ns) => dec_nums(views_of(items@)) == Option::Some(ns@),
            Option::None => dec_nums(views_of(items@)) is None,
        },
{
    proof {
        lemma_views_of_index(items@);
    }
    let ghost vs = views_of(items@);
    let mut out: Vec<u64> = Vec::new();
    let mut i: usize = 0;
    while i < items.len()
        invariant
            0 <= i <= items@.len(),
            vs == views_of(items@),
            vs.len() == items@.len(),
            forall|k: int| 0 <= k < items@.len() ==> vs[k] == json_view(items@[k]),
            out@.len() == i,
            forall|k: int| 0 <= k < i ==> #[trigger] vs[k] is Num && out@[k] == vs[k]->Num_0,
        decreases items@.len() - i,
    {
        match &items[i] {
            Json::Num(n) => {
                out.push(*n);
            },
            _ => {
                proof {
                    assert(!(vs[i as int] is Num));
                }
                return Option::None;
            },
        }
        i = i + 1;
    }
    proof {
        assert(dec_nums(vs) == Option::Some(Seq::new(vs.len(), |k: int| vs[k]->Num_0)));
        assert(out@ =~= Seq::new(vs.len(), |k: int| vs[k]->Num_0));
    }
    Option::Some(out)
}

/// Decode an array of strings.
fn dec_strs_exec(items: &Vec<Json>) -> (r: Option<Vec<String>>)
    ensures
        match r {
            Option::Some(xs) => dec_strs(views_of(items@)) == Option::Some(strs_view(xs@)),
            Option::None => dec_strs(views_of(items@)) is None,
        },
{
    proof {
        lemma_views_of_index(items@);
    }
    let ghost vs = views_of(items@);
    let mut out: Vec<String> = Vec::new();
    let mut i: usize = 0;
    while i < items.len()
        invariant
            0 <= i <= items@.len(),
            vs == views_of(items@),
            vs.len() == items@.len(),
            forall|k: int| 0 <= k < items@.len() ==> vs[k] == json_view(items@[k]),
            out@.len() == i,
            forall|k: int| 0 <= k < i ==> #[trigger] vs[k] is Str && out@[k]@ == vs[k]->Str_0,
        decreases items@.len() - i,
    {
        match &items[i] {
            Json::Str(t) => {
                out.push(t.clone());
            },
            _ => {
                proof {
                    assert(!(vs[i as int] is Str));
                }
                return Option::None;
            },
        }
        i = i + 1;
    }
    proof {
        assert(dec_strs(vs) == Option::Some(Seq::new(vs.len(), |k: int| vs[k]->Str_0)));
        assert(strs_view(out@) =~= Seq::new(vs.len(), |k: int| vs[k]->Str_0));
    }
    Option::Some(out)
}

/// Decode one transaction step.
fn dec_op_exec(j: &Json) -> (r: Option<Op>)
    ensures
        match r {
            Option::Some(op) => dec_op(j@) == Option::Some(op),
            Option::None => dec_op(j@) is None,
        },
{
    let Json::Arr(items) = j else { return Option::None };
    proof {
        lemma_views_of_index(items@);
    }
    if items.len() != 3 {
        return Option::None;
    }
    let Json::Str(kind) = &items[0] else { return Option::None };
    let Json::Num(key) = &items[1] else { return Option::None };
    if str_eq(kind.as_str(), "r") {
        match &items[2] {
            Json::Null => Option::Some(Op::Read { key: *key, value: Option::None }),
            Json::Num(n) => Option::Some(Op::Read { key: *key, value: Option::Some(*n) }),
            _ => Option::None,
        }
    } else if str_eq(kind.as_str(), "w") {
        match &items[2] {
            Json::Num(n) => Option::Some(Op::Write { key: *key, value: *n }),
            _ => Option::None,
        }
    } else {
        Option::None
    }
}

/// Decode an array of transaction steps.
fn dec_ops_exec(items: &Vec<Json>) -> (r: Option<Vec<Op>>)
    ensures
        match r {
            Option::Some(os) => dec_ops(views_of(items@)) == Option::Some(os@),
            Option::None => dec_ops(views_of(items@)) is None,
        },
{
    proof {
        lemma_views_of_index(items@);
    }
    let ghost vs = views_of(items@);
    let mut out: Vec<Op> = Vec::new();
    let mut i: usize = 0;
    while i < items.len()
        invariant
            0 <= i <= items@.len(),
            vs == views_of(items@),
            vs.len() == items@.len(),
            forall|k: int| 0 <= k < items@.len() ==> vs[k] == json_view(items@[k]),
            out@.len() == i,
            forall|k: int|
                0 <= k < i ==> #[trigger] dec_op(vs[k]) is Some && out@[k] == dec_op(vs[k])->Some_0,
        decreases items@.len() - i,
    {
        match dec_op_exec(&items[i]) {
            Option::Some(op) => {
                out.push(op);
            },
            Option::None => {
                proof {
                    assert(!(dec_op(vs[i as int]) is Some));
                }
                return Option::None;
            },
        }
        i = i + 1;
    }
    proof {
        assert(dec_ops(vs) == Option::Some(Seq::new(vs.len(), |k: int| dec_op(vs[k])->Some_0)));
        assert(out@ =~= Seq::new(vs.len(), |k: int| dec_op(vs[k])->Some_0));
    }
    Option::Some(out)
}

/// Decode an object of numbers.
fn dec_kv_exec(fields: &Vec<(String, Json)>) -> (r: Option<Vec<(String, u64)>>)
    ensures
        match r {
            Option::Some(xs) => dec_kv(field_views_of(fields@)) == Option::Some(kv_view(xs@)),
            Option::None => dec_kv(field_views_of(fields@)) is None,
        },
{
    proof {
        lemma_field_views_of_index(fields@);
    }
    let ghost fv = field_views_of(fields@);
    let mut out: Vec<(String, u64)> = Vec::new();
    let mut i: usize = 0;
    while i < fields.len()
        invariant
            0 <= i <= fields@.len(),
            fv == field_views_of(fields@),
            fv.len() == fields@.len(),
            forall|k: int|
                0 <= k < fields@.len() ==> fv[k] == (fields@[k].0@, json_view(fields@[k].1)),
            out@.len() == i,
            forall|k: int|
                0 <= k < i ==> #[trigger] fv[k].1 is Num && out@[k].0@ == fv[k].0 && out@[k].1
                    == fv[k].1->Num_0,
        decreases fields@.len() - i,
    {
        match &fields[i].1 {
            Json::Num(n) => {
                out.push((fields[i].0.clone(), *n));
            },
            _ => {
                proof {
                    assert(!(fv[i as int].1 is Num));
                }
                return Option::None;
            },
        }
        i = i + 1;
    }
    proof {
        assert(dec_kv(fv) == Option::Some(Seq::new(fv.len(), |k: int| (fv[k].0, fv[k].1->Num_0))));
        assert(kv_view(out@) =~= Seq::new(fv.len(), |k: int| (fv[k].0, fv[k].1->Num_0)));
    }
    Option::Some(out)
}

/// Decode one log record.
fn dec_rec_exec(j: &Json) -> (r: Option<(u64, u64)>)
    ensures
        match r {
            Option::Some(p) => dec_rec(j@) == Option::Some(p),
            Option::None => dec_rec(j@) is None,
        },
{
    let Json::Arr(items) = j else { return Option::None };
    proof {
        lemma_views_of_index(items@);
    }
    if items.len() != 2 {
        return Option::None;
    }
    let Json::Num(a) = &items[0] else { return Option::None };
    let Json::Num(b) = &items[1] else { return Option::None };
    Option::Some((*a, *b))
}

/// Decode an array of log records.
fn dec_rec_list_exec(items: &Vec<Json>) -> (r: Option<Vec<(u64, u64)>>)
    ensures
        match r {
            Option::Some(rs) => dec_rec_list(views_of(items@)) == Option::Some(rs@),
            Option::None => dec_rec_list(views_of(items@)) is None,
        },
{
    proof {
        lemma_views_of_index(items@);
    }
    let ghost vs = views_of(items@);
    let mut out: Vec<(u64, u64)> = Vec::new();
    let mut i: usize = 0;
    while i < items.len()
        invariant
            0 <= i <= items@.len(),
            vs == views_of(items@),
            vs.len() == items@.len(),
            forall|k: int| 0 <= k < items@.len() ==> vs[k] == json_view(items@[k]),
            out@.len() == i,
            forall|k: int|
                0 <= k < i ==> #[trigger] dec_rec(vs[k]) is Some && out@[k] == dec_rec(
                    vs[k],
                )->Some_0,
        decreases items@.len() - i,
    {
        match dec_rec_exec(&items[i]) {
            Option::Some(p) => {
                out.push(p);
            },
            Option::None => {
                proof {
                    assert(!(dec_rec(vs[i as int]) is Some));
                }
                return Option::None;
            },
        }
        i = i + 1;
    }
    proof {
        assert(dec_rec_list(vs) == Option::Some(
            Seq::new(vs.len(), |k: int| dec_rec(vs[k])->Some_0),
        ));
        assert(out@ =~= Seq::new(vs.len(), |k: int| dec_rec(vs[k])->Some_0));
    }
    Option::Some(out)
}

/// Decode an object of record lists.
fn dec_recs_exec(fields: &Vec<(String, Json)>) -> (r: Option<Vec<(String, Vec<(u64, u64)>)>>)
    ensures
        match r {
            Option::Some(xs) => dec_recs(field_views_of(fields@)) == Option::Some(recs_view(xs@)),
            Option::None => dec_recs(field_views_of(fields@)) is None,
        },
{
    proof {
        lemma_field_views_of_index(fields@);
    }
    let ghost fv = field_views_of(fields@);
    let mut out: Vec<(String, Vec<(u64, u64)>)> = Vec::new();
    let mut i: usize = 0;
    while i < fields.len()
        invariant
            0 <= i <= fields@.len(),
            fv == field_views_of(fields@),
            fv.len() == fields@.len(),
            forall|k: int|
                0 <= k < fields@.len() ==> fv[k] == (fields@[k].0@, json_view(fields@[k].1)),
            out@.len() == i,
            forall|k: int|
                0 <= k < i ==> #[trigger] fv[k].1 is Arr && dec_rec_list(fv[k].1->Arr_0) is Some
                    && out@[k].0@ == fv[k].0 && out@[k].1@ == dec_rec_list(fv[k].1->Arr_0)->Some_0,
        decreases fields@.len() - i,
    {
        match &fields[i].1 {
            Json::Arr(items) => {
                match dec_rec_list_exec(items) {
                    Option::Some(rs) => {
                        out.push((fields[i].0.clone(), rs));
                    },
                    Option::None => {
                        return Option::None;
                    },
                }
            },
            _ => {
                proof {
                    assert(!(fv[i as int].1 is Arr));
                }
                return Option::None;
            },
        }
        i = i + 1;
    }
    proof {
        assert(dec_recs(fv) == Option::Some(
            Seq::new(fv.len(), |k: int| (fv[k].0, dec_rec_list(fv[k].1->Arr_0)->Some_0)),
        ));
        assert(recs_view(out@) =~= Seq::new(
            fv.len(),
            |k: int| (fv[k].0, dec_rec_list(fv[k].1->Arr_0)->Some_0),
        ));
    }
    Option::Some(out)
}

/// Decode an object of string lists.
fn dec_topo_exec(fields: &Vec<(String, Json)>) -> (r: Option<Vec<(String, Vec<String>)>>)
    ensures
        match r {
            Option::Some(xs) => dec_topo(field_views_of(fields@)) == Option::Some(topo_view(xs@)),
            Option::None => dec_topo(field_views_of(fields@)) is None,
        },
{
    proof {
        lemma_field_views_of_index(fields@);
    }
    let ghost fv = field_views_of(fields@);
    let mut out: Vec<(String, Vec<String>)> = Vec::new();
    let mut i: usize = 0;
    while i < fields.len()
        invariant
            0 <= i <= fields@.len(),
            fv == field_views_of(fields@),
            fv.len() == fields@.len(),
            forall|k: int|
                0 <= k < fields@.len() ==> fv[k] == (fields@[k].0@, json_view(fields@[k].1)),
            out@.len() == i,
            forall|k: int|
                0 <= k < i ==> #[trigger] fv[k].1 is Arr && dec_strs(fv[k].1->Arr_0) is Some
                    && out@[k].0@ == fv[k].0 && strs_view(out@[k].1@) == dec_strs(
                    fv[k].1->Arr_0,
                )->Some_0,
        decreases fields@.len() - i,
    {
        match &fields[i].1 {
            Json::Arr(items) => {
                match dec_strs_exec(items) {
                    Option::Some(ss) => {
                        out.push((fields[i].0.clone(), ss));
                    },
                    Option::None => {
                        return Option::None;
                    },
                }
            },
            _ => {
                proof {
                    assert(!(fv[i as int].1 is Arr));
                }
                return Option::None;
            },
        }
        i = i + 1;
    }
    proof {
        assert(dec_topo(fv) == Option::Some(
            Seq::new(fv.len(), |k: int| (fv[k].0, dec_strs(fv[k].1->Arr_0)->Some_0)),
        ));
        assert(topo_view(out@) =~= Seq::new(
            fv.len(),
            |k: int| (fv[k].0, dec_strs(fv[k].1->Arr_0)->Some_0),
        ));
    }
    Option::Some(out)
}


/// Decode an optional number field.
fn dec_opt_num_exec(fields: &Vec<(String, Json)>, key: &str) -> (r: Option<Option<u64>>)
    ensures
        match r {
            Option::Some(v) => dec_opt_num(field_views_of(fields@), key@) == Option::Some(v),
            Option::None => dec_opt_num(field_views_of(fields@), key@) is None,
        },
{
    match get_field(fields, key) {
        Option::None => Option::Some(Option::None),
        Option::Some(j) => match j {
            Json::Null => Option::Some(Option::None),
            Json::Num(n) => Option::Some(Option::Some(*n)),
            _ => Option::None,
        },
    }
}

/// Decode an optional array-of-numbers field.
fn dec_opt_nums_exec(fields: &Vec<(String, Json)>, key: &str) -> (r: Option<Option<Vec<u64>>>)
    ensures
        match r {
            Option::Some(v) => dec_opt_nums(field_views_of(fields@), key@) == Option::Some(
                opt_nums_view(v),
            ),
            Option::None => dec_opt_nums(field_views_of(fields@), key@) is None,
        },
{
    match get_field(fields, key) {
        Option::None => Option::Some(Option::None),
        Option::Some(j) => match j {
            Json::Null => Option::Some(Option::None),
            Json::Arr(items) => match dec_nums_exec(items) {
                Option::Some(ns) => Option::Some(Option::Some(ns)),
                Option::None => Option::None,
            },
            _ => Option::None,
        },
    }
}

/// Decode an optional array-of-steps field.
fn dec_opt_ops_exec(fields: &Vec<(String, Json)>, key: &str) -> (r: Option<Option<Vec<Op>>>)
    ensures
        match r {
            Option::Some(v) => dec_opt_ops(field_views_of(fields@), key@) == Option::Some(
                opt_ops_view(v),
            ),
            Option::None => dec_opt_ops(field_views_of(fields@), key@) is None,
        },
{
    match get_field(fields, key) {
        Option::None => Option::Some(Option::None),
        Option::Some(j) => match j {
            Json::Null => Option::Some(Option::None),
            Json::Arr(items) => match dec_ops_exec(items) {
                Option::Some(os) => Option::Some(Option::Some(os)),
                Option::None => Option::None,
            },
            _ => Option::None,
        },
    }
}

/// Decode the optional forwarding field.
fn dec_opt_fwd_exec(fields: &Vec<(String, Json)>) -> (r: Option<Option<(String, u64)>>)
    ensures
        match r {
            Option::Some(v) => dec_opt_fwd(field_views_of(fields@)) == Option::Some(
                opt_fwd_view(v),
            ),
            Option::None => dec_opt_fwd(field_views_of(fields@)) is None,
        },
{
    match get_field(fields, "forwarded_for") {
        Option::None => Option::Some(Option::None),
        Option::Some(j) => match j {
            Json::Null => Option::Some(Option::None),
            Json::Arr(items) => {
                proof {
                    lemma_views_of_index(items@);
                }
                if items.len() != 2 {
                    return Option::None;
                }
                let Json::Str(node) = &items[0] else { return Option::None };
                let Json::Num(id) = &items[1] else { return Option::None };
                Option::Some(Option::Some((node.clone(), *id)))
            },
            _ => Option::None,
        },
    }
}

/// Decode the payload carried flat in the body fields.
fn decode_payload(fields: &Vec<(String, Json)>) -> (r: Option<Payload>)
    ensures
        match r {
            Option::Some(p) => spec_decode_payload(field_views_of(fields@)) == Option::Some(p@),
            Option::None => spec_decode_payload(field_views_of(fields@)) is None,
        },
{
    let Option::Some(tag_j) = get_field(fields, "type") else { return Option::None };
    let Json::Str(tag) = tag_j else { return Option::None };
    let t = tag.as_str();
    if str_eq(t, "init") {
        let Option::Some(nid_j) = get_field(fields, "node_id") else { return Option::None };
        let Json::Str(node_id) = nid_j else { return Option::None };
        let Option::Some(ids_j) = get_field(fields, "node_ids") else { return Option::None };
        let Json::Arr(items) = ids_j else { return Option::None };
        let Option::Some(node_ids) = dec_strs_exec(items) else { return Option::None };
        Option::Some(Payload::Init { node_id: node_id.clone(), node_ids })
    } else if str_eq(t, "init_ok") {
        Option::Some(Payload::InitOk)
    } else if str_eq(t, "echo") {
        let Option::Some(e_j) = get_field(fields, "echo") else { return Option::None };
        let Json::Str(echo) = e_j else { return Option::None };
        Option::Some(Payload::Echo { echo: echo.clone() })
    } else if str_eq(t, "echo_ok") {
        let Option::Some(e_j) = get_field(fields, "echo") else { return Option::None };
        let Json::Str(echo) = e_j else { return Option::None };
        Option::Some(Payload::EchoOk { echo: echo.clone() })
    } else if str_eq(t, "generate") {
        Option::Some(Payload::Generate)
    } else if str_eq(t, "generate_ok") {
        let Option::Some(i_j) = get_field(fields, "id") else { return Option::None };
        let Json::Str(id) = i_j else { return Option::None };
        Option::Some(Payload::GenerateOk { id: id.clone() })
    } else if str_eq(t, "topology") {
        let Option::Some(t_j) = get_field(fields, "topology") else { return Option::None };
        let Json::Obj(tf) = t_j else { return Option::None };
        let Option::Some(topology) = dec_topo_exec(tf) else { return Option::None };
        Option::Some(Payload::Topology { topology })
    } else if str_eq(t, "topology_ok") {
        Option::Some(Payload::TopologyOk)
    } else if str_eq(t, "broadcast") {
        let Option::Some(message) = dec_opt_num_exec(fields, "message") else {
            return Option::None
        };
        let Option::Some(batch) = dec_opt_nums_exec(fields, "batch") else { return Option::None };
        if message.is_some() && batch.is_some() {
            return Option::None;
        }
        Option::Some(Payload::Broadcast { message, batch })
    } else if str_eq(t, "broadcast_ok") {
        Option::Some(Payload::BroadcastOk)
    } else if str_eq(t, "read") {
        Option::Some(Payload::Read)
    } else if str_eq(t, "read_ok") {
        let Option::Some(messages) = dec_opt_nums_exec(fields, "messages") else {
            return Option::None
        };
        let Option::Some(value) = dec_opt_num_exec(fields, "value") else { return Option::None };
        Option::Some(Payload::ReadOk { messages, value })
    } else if str_eq(t, "gossip") {
        let Option::Some(m_j) = get_field(fields, "messages") else { return Option::None };
        let Json::Arr(items) = m_j else { return Option::None };
        let Option::Some(messages) = dec_nums_exec(items) else { return Option::None };
        Option::Some(Payload::Gossip { messages })
    } else if str_eq(t, "add") {
        let Option::Some(d_j) = get_field(fields, "delta") else { return Option::None };
        let Json::Num(delta) = d_j else { return Option::None };
        Option::Some(Payload::Add { delta: *delta })
    } else if str_eq(t, "add_ok") {
        Option::Some(Payload::AddOk)
    } else if str_eq(t, "replicate") {
        let Option::Some(delta) = dec_opt_num_exec(fields, "delta") else { return Option::None };
        let Option::Some(ops) = dec_opt_ops_exec(fields, "ops") else { return Option::None };
        Option::Some(Payload::Replicate { delta, ops })
    } else if str_eq(t, "replicate_ok") {
        Option::Some(Payload::ReplicateOk)
    } else if str_eq(t, "send") {
        let Option::Some(k_j) = get_field(fields, "key") else { return Option::None };
        let Json::Str(key) = k_j else { return Option::None };
        let Option::Some(m_j) = get_field(fields, "msg") else { return Option::None };
        let Json::Num(msg) = m_j else { return Option::None };
        let Option::Some(forwarded_for) = dec_opt_fwd_exec(fields) else { return Option::None };
        Option::Some(Payload::Send { key: key.clone(), msg: *msg, forwarded_for })
    } else if str_eq(t, "send_ok") {
        let Option::Some(o_j) = get_field(fields, "offset") else { return Option::None };
        let Json::Num(offset) = o_j else { return Option::None };
        let Option::Some(forwarded_for) = dec_opt_fwd_exec(fields) else { return Option::None };
        Option::Some(Payload::SendOk { offset: *offset, forwarded_for })
    } else if str_eq(t, "poll") {
        let Option::Some(o_j) = get_field(fields, "offsets") else { return Option::None };
        let Json::Obj(of) = o_j else { return Option::None };
        let Option::Some(offsets) = dec_kv_exec(of) else { return Option::None };
        Option::Some(Payload::Poll { offsets })
    } else if str_eq(t, "poll_ok") {
        let Option::Some(m_j) = get_field(fields, "msgs") else { return Option::None };
        let Json::Obj(mf) = m_j else { return Option::None };
        let Option::Some(msgs) = dec_recs_exec(mf) else { return Option::None };
        Option::Some(Payload::PollOk { msgs })
    } else if str_eq(t, "commit_offsets") {
        let Option::Some(o_j) = get_field(fields, "offsets") else { return Option::None };
        let Json::Obj(of) = o_j else { return Option::None };
        let Option::Some(offsets) = dec_kv_exec(of) else { return Option::None };
        Option::Some(Payload::CommitOffsets { offsets })
    } else if str_eq(t, "commit_offsets_ok") {
        Option::Some(Payload::CommitOffsetsOk)
    } else if str_eq(t, "list_committed_offsets") {
        let Option::Some(k_j) = get_field(fields, "keys") else { return Option::None };
        let Json::Arr(items) = k_j else { return Option::None };
        let Option::Some(keys) = dec_strs_exec(items) else { return Option::None };
        Option::Some(Payload::ListCommittedOffsets { keys })
    } else if str_eq(t, "list_committed_offsets_ok") {
        let Option::Some(o_j) = get_field(fields, "offsets") else { return Option::None };
        let Json::Obj(of) = o_j else { return Option::None };
        let Option::Some(offsets) = dec_kv_exec(of) else { return Option::None };
        Option::Some(Payload::ListCommittedOffsetsOk { offsets })
    } else if str_eq(t, "replica_poll") {
        let Option::Some(o_j) = get_field(fields, "offsets") else { return Option::None };
        let Json::Obj(of) = o_j else { return Option::None };
        let Option::Some(offsets) = dec_kv_exec(of) else { return Option::None };
        Option::Some(Payload::ReplicaPoll { offsets })
    } else if str_eq(t, "replica_poll_ok") {
        let Option::Some(m_j) = get_field(fields, "msgs") else { return Option::None };
        let Json::Obj(mf) = m_j else { return Option::None };
        let Option::Some(msgs) = dec_recs_exec(mf) else { return Option::None };
        Option::Some(Payload::ReplicaPollOk { msgs })
    } else if str_eq(t, "txn") {
        let Option::Some(t_j) = get_field(fields, "txn") else { return Option::None };
        let Json::Arr(items) = t_j else { return Option::None };
        let Option::Some(txn) = dec_ops_exec(items) else { return Option::None };
        Option::Some(Payload::Txn { txn })
    } else if str_eq(t, "txn_ok") {
        let Option::Some(t_j) = get_field(fields, "txn") else { return Option::None };
        let Json::Arr(items) = t_j else { return Option::None };
        let Option::Some(txn) = dec_ops_exec(items) else { return Option::None };
        Option::Some(Payload::TxnOk { txn })
    } else {
        Option::None
    }
}

/// Decode a whole envelope from a parsed JSON value.  Succeeds exactly
/// on the values the schema admits; any other value is a decode error,
/// which the runtime treats as fatal.
pub fn decode_msg(j: &Json) -> (r: Result<Message, Error>)
    ensures
        match r {
            Result::Ok(m) => spec_decode_msg(j@) == Option::Some(m@),
            Result::Err(e) => spec_decode_msg(j@) is None && e is Decode,
        },
{
    let Json::Obj(fields) = j else { return Result::Err(Error::Decode) };
    let Option::Some(s_j) = get_field(fields, "src") else { return Result::Err(Error::Decode) };
    let Json::Str(src) = s_j else { return Result::Err(Error::Decode) };
    let Option::Some(d_j) = get_field(fields, "dest") else { return Result::Err(Error::Decode) };
    let Json::Str(dst) = d_j else { return Result::Err(Error::Decode) };
    let Option::Some(b_j) = get_field(fields, "body") else { return Result::Err(Error::Decode) };
    let Json::Obj(bf) = b_j else { return Result::Err(Error::Decode) };
    let Option::Some(id) = dec_opt_num_exec(bf, "msg_id") else {
        return Result::Err(Error::Decode)
    };
    let Option::Some(in_reply_to) = dec_opt_num_exec(bf, "in_reply_to") else {
        return Result::Err(Error::Decode)
    };
    let Option::Some(payload) = decode_payload(bf) else { return Result::Err(Error::Decode) };
    Result::Ok(
        Message {
            src: src.clone(),
            dst: dst.clone(),
            body: Body { id, in_reply_to, payload },
        },
    )
}


/// A payload the encoder may be handed: a `broadcast` does not carry
/// `message` and `batch` at once — the schema forbids the pair and the
/// decoder rejects it.
pub open spec fn wf_payload(p: PayloadV) -> bool {
    match p {
        PayloadV::Broadcast { message, batch } => !(message is Some && batch is Some),
        _ => true,
    }
}

/// A message the encoder may be handed.
pub open spec fn wf_msg(m: MessageV) -> bool {
    wf_payload(m.body.payload)
}

/// Looking a key up in a concatenation searches the left part first.
proof fn lemma_obj_get_concat(a: Seq<(Seq<char>, JsonV)>, b: Seq<(Seq<char>, JsonV)>, key: Seq<char>)
    ensures
        obj_get(a + b, key) == match obj_get(a, key) {
            Option::Some(v) => Option::Some(v),
            Option::None => obj_get(b, key),
        },
    decreases a.len(),
{
    if a.len() == 0 {
        assert(a + b =~= b);
    } else {
        lemma_obj_get_concat(a.drop_first(), b, key);
        assert((a + b).drop_first() =~= a.drop_first() + b);
        assert((a + b)[0] == a[0]);
    }
}

/// Looking a key up in a one-field object.
proof fn lemma_obj_get_single(k: Seq<char>, v: JsonV, key: Seq<char>)
    ensures
        obj_get(seq![(k, v)], key) == if k == key {
            Option::Some(v)
        } else {
            Option::None::<JsonV>
        },
{
    reveal_with_fuel(obj_get, 2);
    assert(seq![(k, v)][0] == (k, v));
    assert(seq![(k, v)].drop_first() =~= Seq::<(Seq<char>, JsonV)>::empty());
}

/// One transaction step survives its trip through the wire shape.
proof fn lemma_op_round_trip(op: Op)
    ensures
        dec_op(op_json(op)) == Option::Some(op),
{
    reveal_strlit("r");
    reveal_strlit("w");
    assert("r"@.len() == 1);
    assert("w"@.len() == 1);
    assert("r"@[0] == 'r');
    assert("w"@[0] == 'w');
    assert("r"@ != "w"@);
    match op {
        Op::Read { key, value } => {
            let items = seq![JsonV::Str("r"@), JsonV::Num(key), opt_num_json(value)];
            assert(items[0] == JsonV::Str("r"@));
            assert(items[1] == JsonV::Num(key));
            assert(items[2] == opt_num_json(value));
        },
        Op::Write { key, value } => {
            let items = seq![JsonV::Str("w"@), JsonV::Num(key), JsonV::Num(value)];
            assert(items[0] == JsonV::Str("w"@));
            assert(items[1] == JsonV::Num(key));
            assert(items[2] == JsonV::Num(value));
        },
    }
}

/// A list of transaction steps survives the trip.
proof fn lemma_ops_round_trip(ops: Seq<Op>)
    ensures
        dec_ops(ops_json(ops)) == Option::Some(ops),
{
    assert forall|i: int| 0 <= i < ops_json(ops).len() implies #[trigger] dec_op(
        ops_json(ops)[i],
    ) is Some by {
        lemma_op_round_trip(ops[i]);
    }
    assert forall|i: int| 0 <= i < ops.len() implies dec_op(ops_json(ops)[i])->Some_0 == ops[i] by {
        lemma_op_round_trip(ops[i]);
    }
    assert(dec_ops(ops_json(ops))->Some_0 =~= ops);
}

/// An array of numbers survives the trip.
proof fn lemma_nums_round_trip(xs: Seq<u64>)
    ensures
        dec_nums(nums_json(xs)) == Option::Some(xs),
{
    assert(dec_nums(nums_json(xs))->Some_0 =~= xs);
}

/// An array of strings survives the trip.
proof fn lemma_strs_round_trip(xs: Seq<Seq<char>>)
    ensures
        dec_strs(strs_json(xs)) == Option::Some(xs),
{
    assert(dec_strs(strs_json(xs))->Some_0 =~= xs);
}

/// An object of numbers survives the trip.
proof fn lemma_kv_round_trip(xs: Seq<(Seq<char>, u64)>)
    ensures
        dec_kv(kv_json(xs)) == Option::Some(xs),
{
    assert(dec_kv(kv_json(xs))->Some_0 =~= xs);
}

/// An object of record lists survives the trip.
proof fn lemma_recs_round_trip(xs: Seq<(Seq<char>, Seq<(u64, u64)>)>)
    ensures
        dec_recs(recs_json(xs)) == Option::Some(xs),
{
    assert forall|i: int| 0 <= i < recs_json(xs).len() implies #[trigger] recs_json(xs)[i].1
        is Arr && dec_rec_list(recs_json(xs)[i].1->Arr_0) is Some by {
        assert(dec_rec_list(rec_list_json(xs[i].1))->Some_0 =~= xs[i].1);
    }
    assert forall|i: int| 0 <= i < xs.len() implies dec_rec_list(
        recs_json(xs)[i].1->Arr_0,
    )->Some_0 == xs[i].1 by {
        assert(dec_rec_list(rec_list_json(xs[i].1))->Some_0 =~= xs[i].1);
    }
    assert(dec_recs(recs_json(xs))->Some_0 =~= xs);
}

/// An object of string lists survives the trip.
proof fn lemma_topo_round_trip(xs: Seq<(Seq<char>, Seq<Seq<char>>)>)
    ensures
        dec_topo(topo_json(xs)) == Option::Some(xs),
{
    assert forall|i: int| 0 <= i < topo_json(xs).len() implies #[trigger] topo_json(xs)[i].1
        is Arr && dec_strs(topo_json(xs)[i].1->Arr_0) is Some by {
        lemma_strs_round_trip(xs[i].1);
    }
    assert forall|i: int| 0 <= i < xs.len() implies dec_strs(topo_json(xs)[i].1->Arr_0)->Some_0
        == xs[i].1 by {
        lemma_strs_round_trip(xs[i].1);
    }
    assert(dec_topo(topo_json(xs))->Some_0 =~= xs);
}

/// The length and first character of every literal the codec
/// compares: enough to tell any two of them apart.
proof fn lit_facts()
    ensures
        "r"@.len() == 1,
        "r"@[0] == 'r',
        "w"@.len() == 1,
        "w"@[0] == 'w',
        "src"@.len() == 3,
        "src"@[0] == 's',
        "dest"@.len() == 4,
        "dest"@[0] == 'd',
        "body"@.len() == 4,
        "body"@[0] == 'b',
        "type"@.len() == 4,
        "type"@[0] == 't',
        "msg_id"@.len() == 6,
        "msg_id"@[0] == 'm',
        "in_reply_to"@.len() == 11,
        "in_reply_to"@[0] == 'i',
        "node_id"@.len() == 7,
        "node_id"@[0] == 'n',
        "node_ids"@.len() == 8,
        "node_ids"@[0] == 'n',
        "echo"@.len() == 4,
        "echo"@[0] == 'e',
        "id"@.len() == 2,
        "id"@[0] == 'i',
        "topology"@.len() == 8,
        "topology"@[0] == 't',
        "message"@.len() == 7,
        "message"@[0] == 'm',
        "batch"@.len() == 5,
        "batch"@[0] == 'b',
        "messages"@.len() == 8,
        "messages"@[0] == 'm',
        "value"@.len() == 5,
        "value"@[0] == 'v',
        "delta"@.len() == 5,
        "delta"@[0] == 'd',
        "ops"@.len() == 3,
        "ops"@[0] == 'o',
        "key"@.len() == 3,
        "key"@[0] == 'k',
        "msg"@.len() == 3,
        "msg"@[0] == 'm',
        "forwarded_for"@.len() == 13,
        "forwarded_for"@[0] == 'f',
        "offset"@.len() == 6,
        "offset"@[0] == 'o',
        "offsets"@.len() == 7,
        "offsets"@[0] == 'o',
        "msgs"@.len() == 4,
        "msgs"@[0] == 'm',
        "keys"@.len() == 4,
        "keys"@[0] == 'k',
        "txn"@.len() == 3,
        "txn"@[0] == 't',
        "init"@.len() == 4,
        "init"@[0] == 'i',
        "init_ok"@.len() == 7,
        "init_ok"@[0] == 'i',
        "echo_ok"@.len() == 7,
        "echo_ok"@[0] == 'e',
        "generate"@.len() == 8,
        "generate"@[0] == 'g',
        "generate_ok"@.len() == 11,
        "generate_ok"@[0] == 'g',
        "topology_ok"@.len() == 11,
        "topology_ok"@[0] == 't',
        "broadcast"@.len() == 9,
        "broadcast"@[0] == 'b',
        "broadcast_ok"@.len() == 12,
        "broadcast_ok"@[0] == 'b',
        "read"@.len() == 4,
        "read"@[0] == 'r',
        "read_ok"@.len() == 7,
        "read_ok"@[0] == 'r',
        "gossip"@.len() == 6,
        "gossip"@[0] == 'g',
        "add"@.len() == 3,
        "add"@[0] == 'a',
        "add_ok"@.len() == 6,
        "add_ok"@[0] == 'a',
        "replicate"@.len() == 9,
        "replicate"@[0] == 'r',
        "replicate_ok"@.len() == 12,
        "replicate_ok"@[0] == 'r',
        "send"@.len() == 4,
        "send"@[0] == 's',
        "send_ok"@.len() == 7,
        "send_ok"@[0] == 's',
        "poll"@.len() == 4,
        "poll"@[0] == 'p',
        "poll_ok"@.len() == 7,
        "poll_ok"@[0] == 'p',
        "commit_offsets"@.len() == 14,
        "commit_offsets"@[0] == 'c',
        "commit_offsets_ok"@.len() == 17,
        "commit_offsets_ok"@[0] == 'c',
        "list_committed_offsets"@.len() == 22,
        "list_committed_offsets"@[0] == 'l',
        "list_committed_offsets_ok"@.len() == 25,
        "list_committed_offsets_ok"@[0] == 'l',
        "replica_poll"@.len() == 12,
        "replica_poll"@[0] == 'r',
        "replica_poll_ok"@.len() == 15,
        "replica_poll_ok"@[0] == 'r',
        "txn_ok"@.len() == 6,
        "txn_ok"@[0] == 't',
        "replicate_ok"@[7] == 't',
        "replica_poll"@[7] == '_',
{
    reveal_strlit("r");
    reveal_strlit("w");
    reveal_strlit("src");
    reveal_strlit("dest");
    reveal_strlit("body");
    reveal_strlit("type");
    reveal_strlit("msg_id");
    reveal_strlit("in_reply_to");
    reveal_strlit("node_id");
    reveal_strlit("node_ids");
    reveal_strlit("echo");
    reveal_strlit("id");
    reveal_strlit("topology");
    reveal_strlit("message");
    reveal_strlit("batch");
    reveal_strlit("messages");
    reveal_strlit("value");
    reveal_strlit("delta");
    reveal_strlit("ops");
    reveal_strlit("key");
    reveal_strlit("msg");
    reveal_strlit("forwarded_for");
    reveal_strlit("offset");
    reveal_strlit("offsets");
    reveal_strlit("msgs");
    reveal_strlit("keys");
    reveal_strlit("txn");
    reveal_strlit("init");
    reveal_strlit("init_ok");
    reveal_strlit("echo_ok");
    reveal_strlit("generate");
    reveal_strlit("generate_ok");
    reveal_strlit("topology_ok");
    reveal_strlit("broadcast");
    reveal_strlit("broadcast_ok");
    reveal_strlit("read");
    reveal_strlit("read_ok");
    reveal_strlit("gossip");
    reveal_strlit("add");
    reveal_strlit("add_ok");
    reveal_strlit("replicate");
    reveal_strlit("replicate_ok");
    reveal_strlit("send");
    reveal_strlit("send_ok");
    reveal_strlit("poll");
    reveal_strlit("poll_ok");
    reveal_strlit("commit_offsets");
    reveal_strlit("commit_offsets_ok");
    reveal_strlit("list_committed_offsets");
    reveal_strlit("list_committed_offsets_ok");
    reveal_strlit("replica_poll");
    reveal_strlit("replica_poll_ok");
    reveal_strlit("txn_ok");
    assert("r"@.len() == 1);
    assert("r"@[0] == 'r');
    assert("w"@.len() == 1);
    assert("w"@[0] == 'w');
    assert("src"@.len() == 3);
    assert("src"@[0] == 's');
    assert("dest"@.len() == 4);
    assert("dest"@[0] == 'd');
    assert("body"@.len() == 4);
    assert("body"@[0] == 'b');
    assert("type"@.len() == 4);
    assert("type"@[0] == 't');
    assert("msg_id"@.len() == 6);
    assert("msg_id"@[0] == 'm');
    assert("in_reply_to"@.len() == 11);
    assert("in_reply_to"@[0] == 'i');
    assert("node_id"@.len() == 7);
    assert("node_id"@[0] == 'n');
    assert("node_ids"@.len() == 8);
    assert("node_ids"@[0] == 'n');
    assert("echo"@.len() == 4);
    assert("echo"@[0] == 'e');
    assert("id"@.len() == 2);
    assert("id"@[0] == 'i');
    assert("topology"@.len() == 8);
    assert("topology"@[0] == 't');
    assert("message"@.len() == 7);
    assert("message"@[0] == 'm');
    assert("batch"@.len() == 5);
    assert("batch"@[0] == 'b');
    assert("messages"@.len() == 8);
    assert("messages"@[0] == 'm');
    assert("value"@.len() == 5);
    assert("value"@[0] == 'v');
    assert("delta"@.len() == 5);
    assert("delta"@[0] == 'd');
    assert("ops"@.len() == 3);
    assert("ops"@[0] == 'o');
    assert("key"@.len() == 3);
    assert("key"@[0] == 'k');
    assert("msg"@.len() == 3);
    assert("msg"@[0] == 'm');
    assert("forwarded_for"@.len() == 13);
    assert("forwarded_for"@[0] == 'f');
    assert("offset"@.len() == 6);
    assert("offset"@[0] == 'o');
    assert("offsets"@.len() == 7);
    assert("offsets"@[0] == 'o');
    assert("msgs"@.len() == 4);
    assert("msgs"@[0] == 'm');
    assert("keys"@.len() == 4);
    assert("keys"@[0] == 'k');
    assert("txn"@.len() == 3);
    assert("txn"@[0] == 't');
    assert("init"@.len() == 4);
    assert("init"@[0] == 'i');
    assert("init_ok"@.len() == 7);
    assert("init_ok"@[0] == 'i');
    assert("echo_ok"@.len() == 7);
    assert("echo_ok"@[0] == 'e');
    assert("generate"@.len() == 8);
    assert("generate"@[0] == 'g');
    assert("generate_ok"@.len() == 11);
    assert("generate_ok"@[0] == 'g');
    assert("topology_ok"@.len() == 11);
    assert("topology_ok"@[0] == 't');
    assert("broadcast"@.len() == 9);
    assert("broadcast"@[0] == 'b');
    assert("broadcast_ok"@.len() == 12);
    assert("broadcast_ok"@[0] == 'b');
    assert("read"@.len() == 4);
    assert("read"@[0] == 'r');
    assert("read_ok"@.len() == 7);
    assert("read_ok"@[0] == 'r');
    assert("gossip"@.len() == 6);
    assert("gossip"@[0] == 'g');
    assert("add"@.len() == 3);
    assert("add"@[0] == 'a');
    assert("add_ok"@.len() == 6);
    assert("add_ok"@[0] == 'a');
    assert("replicate"@.len() == 9);
    assert("replicate"@[0] == 'r');
    assert("replicate_ok"@.len() == 12);
    assert("replicate_ok"@[0] == 'r');
    assert("send"@.len() == 4);
    assert("send"@[0] == 's');
    assert("send_ok"@.len() == 7);
    assert("send_ok"@[0] == 's');
    assert("poll"@.len() == 4);
    assert("poll"@[0] == 'p');
    assert("poll_ok"@.len() == 7);
    assert("poll_ok"@[0] == 'p');
    assert("commit_offsets"@.len() == 14);
    assert("commit_offsets"@[0] == 'c');
    assert("commit_offsets_ok"@.len() == 17);
    assert("commit_offsets_ok"@[0] == 'c');
    assert("list_committed_offsets"@.len() == 22);
    assert("list_committed_offsets"@[0] == 'l');
    assert("list_committed_offsets_ok"@.len() == 25);
    assert("list_committed_offsets_ok"@[0] == 'l');
    assert("replica_poll"@.len() == 12);
    assert("replica_poll"@[0] == 'r');
    assert("replica_poll_ok"@.len() == 15);
    assert("replica_poll_ok"@[0] == 'r');
    assert("txn_ok"@.len() == 6);
    assert("txn_ok"@[0] == 't');
    assert("replicate_ok"@[7] == 't');
    assert("replica_poll"@[7] == '_');
}

/// A body object built by the encoder decodes back to the same body.
#[verifier::rlimit(60)]
proof fn lemma_body_round_trip(b: BodyV)
    requires
        wf_payload(b.payload),
    ensures
        spec_decode_body(body_fields(b)) == Option::Some(b),
{
    lit_facts();
    reveal_with_fuel(obj_get, 10);
    let idf = opt_num_field("msg_id"@, b.id);
    let irf = opt_num_field("in_reply_to"@, b.in_reply_to);
    let pf = payload_fields(b.payload);
    let bf = body_fields(b);
    assert(bf == idf + irf + pf);
    assert forall|key: Seq<char>| true implies #[trigger] obj_get(bf, key) == match obj_get(
        idf,
        key,
    ) {
        Option::Some(v) => Option::Some(v),
        Option::None => match obj_get(irf, key) {
            Option::Some(v) => Option::Some(v),
            Option::None => obj_get(pf, key),
        },
    } by {
        lemma_obj_get_concat(idf + irf, pf, key);
        lemma_obj_get_concat(idf, irf, key);
        assert((idf + irf) + pf =~= bf);
    }
    if b.id is Some {
        lemma_obj_get_single("msg_id"@, JsonV::Num(b.id->Some_0), "msg_id"@);
    }
    if b.in_reply_to is Some {
        lemma_obj_get_single("in_reply_to"@, JsonV::Num(b.in_reply_to->Some_0), "in_reply_to"@);
    }
    assert(dec_opt_num(bf, "msg_id"@) == Option::Some(b.id));
    assert(dec_opt_num(bf, "in_reply_to"@) == Option::Some(b.in_reply_to));
    lemma_payload_fields_decode(b.payload, idf + irf);
    assert(idf + irf + pf =~= (idf + irf) + pf);
    assert(spec_decode_payload(bf) == Option::Some(b.payload));
}

/// Whether no field of `pre` uses a key the payload codec reads.
pub open spec fn keys_clear(pre: Seq<(Seq<char>, JsonV)>) -> bool {
    forall|i: int|
        0 <= i < pre.len() ==> (#[trigger] pre[i].0) == "msg_id"@ || pre[i].0 == "in_reply_to"@
}

/// The payload fields decode back to the payload, whatever identifier
/// fields stand in front of them.
#[verifier::rlimit(100)]
#[verifier::spinoff_prover]
proof fn lemma_payload_fields_decode(p: PayloadV, pre: Seq<(Seq<char>, JsonV)>)
    requires
        wf_payload(p),
        keys_clear(pre),
    ensures
        spec_decode_payload(pre + payload_fields(p)) == Option::Some(p),
    decreases pre.len(),
{
    lit_facts();
    reveal_with_fuel(obj_get, 10);
    if pre.len() > 0 {
        lemma_payload_fields_decode(p, pre.drop_first());
        let whole = pre + payload_fields(p);
        let rest = pre.drop_first() + payload_fields(p);
        assert(whole.drop_first() =~= rest);
        assert(whole[0] == pre[0]);
        assert forall|key: Seq<char>| key != "msg_id"@ && key != "in_reply_to"@ implies #[trigger] obj_get(
            whole,
            key,
        ) == obj_get(rest, key) by {}
        assert(spec_decode_payload(whole) == spec_decode_payload(rest));
    } else {
        let pf = payload_fields(p);
        assert(pre + pf =~= pf);
        lemma_payload_decode_plain(p);
    }
}

/// The payload fields alone decode back to the payload.
#[verifier::rlimit(100)]
#[verifier::spinoff_prover]
proof fn lemma_payload_decode_plain(p: PayloadV)
    requires
        wf_payload(p),
    ensures
        spec_decode_payload(payload_fields(p)) == Option::Some(p),
{
    lit_facts();
    reveal_with_fuel(obj_get, 10);
    let pf = payload_fields(p);
    let tagf = seq![("type"@, JsonV::Str(tag_of(p)))];
    assert(pf[0] == ("type"@, JsonV::Str(tag_of(p))));
    assert forall|key: Seq<char>| true implies #[trigger] obj_get(pf, key) == if key == "type"@ {
        Option::Some(JsonV::Str(tag_of(p)))
    } else {
        obj_get(pf.drop_first(), key)
    } by {}
    match p {
        PayloadV::Init { node_id, node_ids } => {
            let rest = seq![
                ("node_id"@, JsonV::Str(node_id)),
                ("node_ids"@, JsonV::Arr(strs_json(node_ids))),
            ];
            assert(pf.drop_first() =~= rest);
            assert(rest.drop_first() =~= seq![("node_ids"@, JsonV::Arr(strs_json(node_ids)))]);
            lemma_strs_round_trip(node_ids);
        },
        PayloadV::Echo { echo } => {
            assert(pf.drop_first() =~= seq![("echo"@, JsonV::Str(echo))]);
        },
        PayloadV::EchoOk { echo } => {
            assert(pf.drop_first() =~= seq![("echo"@, JsonV::Str(echo))]);
        },
        PayloadV::GenerateOk { id } => {
            assert(pf.drop_first() =~= seq![("id"@, JsonV::Str(id))]);
        },
        PayloadV::Topology { topology } => {
            assert(pf.drop_first() =~= seq![("topology"@, JsonV::Obj(topo_json(topology)))]);
            lemma_topo_round_trip(topology);
        },
        PayloadV::Broadcast { message, batch } => {
            let mf = opt_num_field("message"@, message);
            let bf2 = opt_nums_field("batch"@, batch);
            assert(pf.drop_first() =~= mf + bf2);
            lemma_obj_get_concat(mf, bf2, "message"@);
            lemma_obj_get_concat(mf, bf2, "batch"@);
            if message is Some {
                lemma_obj_get_single("message"@, JsonV::Num(message->Some_0), "message"@);
                lemma_obj_get_single("message"@, JsonV::Num(message->Some_0), "batch"@);
            }
            if batch is Some {
                lemma_obj_get_single("batch"@, JsonV::Arr(nums_json(batch->Some_0)), "batch"@);
                lemma_nums_round_trip(batch->Some_0);
            }
        },
        PayloadV::ReadOk { messages, value } => {
            let mf = opt_nums_field("messages"@, messages);
            let vf = opt_num_field("value"@, value);
            assert(pf.drop_first() =~= mf + vf);
            lemma_obj_get_concat(mf, vf, "messages"@);
            lemma_obj_get_concat(mf, vf, "value"@);
            if messages is Some {
                lemma_obj_get_single(
                    "messages"@,
                    JsonV::Arr(nums_json(messages->Some_0)),
                    "messages"@,
                );
                lemma_obj_get_single(
                    "messages"@,
                    JsonV::Arr(nums_json(messages->Some_0)),
                    "value"@,
                );
                lemma_nums_round_trip(messages->Some_0);
            }
            if value is Some {
                lemma_obj_get_single("value"@, JsonV::Num(value->Some_0), "value"@);
            }
        },
        PayloadV::Gossip { messages } => {
            assert(pf.drop_first() =~= seq![("messages"@, JsonV::Arr(nums_json(messages)))]);
            lemma_nums_round_trip(messages);
        },
        PayloadV::Add { delta } => {
            assert(pf.drop_first() =~= seq![("delta"@, JsonV::Num(delta))]);
        },
        PayloadV::Replicate { delta, ops } => {
            let df = opt_num_field("delta"@, delta);
            let of = opt_ops_field("ops"@, ops);
            assert(pf.drop_first() =~= df + of);
            lemma_obj_get_concat(df, of, "delta"@);
            lemma_obj_get_concat(df, of, "ops"@);
            if delta is Some {
                lemma_obj_get_single("delta"@, JsonV::Num(delta->Some_0), "delta"@);
                lemma_obj_get_single("delta"@, JsonV::Num(delta->Some_0), "ops"@);
            }
            if ops is Some {
                lemma_obj_get_single("ops"@, JsonV::Arr(ops_json(ops->Some_0)), "ops"@);
                lemma_ops_round_trip(ops->Some_0);
            }
        },
        PayloadV::Send { key, msg, forwarded_for } => {
            let ff = opt_fwd_field(forwarded_for);
            let fixed = seq![("key"@, JsonV::Str(key)), ("msg"@, JsonV::Num(msg))];
            assert(pf.drop_first() =~= fixed + ff);
            assert((fixed + ff)[0] == fixed[0]);
            assert((fixed + ff).drop_first() =~= seq![("msg"@, JsonV::Num(msg))] + ff);
            assert((seq![("msg"@, JsonV::Num(msg))] + ff)[0] == ("msg"@, JsonV::Num(msg)));
            assert((seq![("msg"@, JsonV::Num(msg))] + ff).drop_first() =~= ff);
            if forwarded_for is Some {
                let f = forwarded_for->Some_0;
                assert(ff[0] == (
                    "forwarded_for"@,
                    JsonV::Arr(seq![JsonV::Str(f.0), JsonV::Num(f.1)]),
                ));
            }
        },
        PayloadV::SendOk { offset, forwarded_for } => {
            let ff = opt_fwd_field(forwarded_for);
            let fixed = seq![("offset"@, JsonV::Num(offset))];
            assert(pf.drop_first() =~= fixed + ff);
            assert((fixed + ff)[0] == fixed[0]);
            assert((fixed + ff).drop_first() =~= ff);
            if forwarded_for is Some {
                let f = forwarded_for->Some_0;
                assert(ff[0] == (
                    "forwarded_for"@,
                    JsonV::Arr(seq![JsonV::Str(f.0), JsonV::Num(f.1)]),
                ));
            }
        },
        PayloadV::Poll { offsets } => {
            assert(pf.drop_first() =~= seq![("offsets"@, JsonV::Obj(kv_json(offsets)))]);
            lemma_kv_round_trip(offsets);
        },
        PayloadV::PollOk { msgs } => {
            assert(pf.drop_first() =~= seq![("msgs"@, JsonV::Obj(recs_json(msgs)))]);
            lemma_recs_round_trip(msgs);
        },
        PayloadV::CommitOffsets { offsets } => {
            assert(pf.drop_first() =~= seq![("offsets"@, JsonV::Obj(kv_json(offsets)))]);
            lemma_kv_round_trip(offsets);
        },
        PayloadV::ListCommittedOffsets { keys } => {
            assert(pf.drop_first() =~= seq![("keys"@, JsonV::Arr(strs_json(keys)))]);
            lemma_strs_round_trip(keys);
        },
        PayloadV::ListCommittedOffsetsOk { offsets } => {
            assert(pf.drop_first() =~= seq![("offsets"@, JsonV::Obj(kv_json(offsets)))]);
            lemma_kv_round_trip(offsets);
        },
        PayloadV::ReplicaPoll { offsets } => {
            assert(pf.drop_first() =~= seq![("offsets"@, JsonV::Obj(kv_json(offsets)))]);
            lemma_kv_round_trip(offsets);
        },
        PayloadV::ReplicaPollOk { msgs } => {
            assert(pf.drop_first() =~= seq![("msgs"@, JsonV::Obj(recs_json(msgs)))]);
            lemma_recs_round_trip(msgs);
        },
        PayloadV::Txn { txn } => {
            assert(pf.drop_first() =~= seq![("txn"@, JsonV::Arr(ops_json(txn)))]);
            lemma_ops_round_trip(txn);
        },
        PayloadV::TxnOk { txn } => {
            assert(pf.drop_first() =~= seq![("txn"@, JsonV::Arr(ops_json(txn)))]);
            lemma_ops_round_trip(txn);
        },
        _ => {
            assert(pf.drop_first() =~= Seq::<(Seq<char>, JsonV)>::empty());
        },
    }
}

/// Law: an envelope encoded by this codec decodes back to itself.
///
/// Together with `lemma_decode_wf` this says that decoding and
/// re-encoding an envelope loses nothing: absent optional fields and
/// explicit `null`s meet in the same decoded value.
pub proof fn lemma_msg_round_trip(m: MessageV)
    requires
        wf_msg(m),
    ensures
        spec_decode_msg(msg_json(m)) == Option::Some(m),
{
    lit_facts();
    reveal_with_fuel(obj_get, 10);
    let fields = seq![
        ("src"@, JsonV::Str(m.src)),
        ("dest"@, JsonV::Str(m.dst)),
        ("body"@, JsonV::Obj(body_fields(m.body))),
    ];
    assert(fields[0] == ("src"@, JsonV::Str(m.src)));
    assert(fields.drop_first() =~= seq![
        ("dest"@, JsonV::Str(m.dst)),
        ("body"@, JsonV::Obj(body_fields(m.body))),
    ]);
    assert(fields.drop_first().drop_first() =~= seq![
        ("body"@, JsonV::Obj(body_fields(m.body))),
    ]);
    lemma_body_round_trip(m.body);
}

/// Law: whatever JSON object an envelope was decoded from, the decoded
/// envelope is one the encoder accepts.
pub proof fn lemma_decode_wf(j: JsonV, m: MessageV)
    requires
        spec_decode_msg(j) == Option::Some(m),
    ensures
        wf_msg(m),
{
}

/// Law: decoding an envelope and re-encoding it yields a JSON object
/// that decodes to the same envelope.
pub proof fn lemma_reencode_round_trip(j: JsonV, m: MessageV)
    requires
        spec_decode_msg(j) == Option::Some(m),
    ensures
        spec_decode_msg(msg_json(m)) == Option::Some(m),
{
    lemma_decode_wf(j, m);
    lemma_msg_round_trip(m);
}


/// Copy a vector of numbers.
fn clone_nums(v: &Vec<u64>) -> (r: Vec<u64>)
    ensures
        r@ == v@,
{
    let mut out: Vec<u64> = Vec::new();
    let mut i: usize = 0;
    while i < v.len()
        invariant
            0 <= i <= v@.len(),
            out@ == v@.subrange(0, i as int),
        decreases v@.len() - i,
    {
        out.push(v[i]);
        proof {
            assert(out@ =~= v@.subrange(0, i + 1));
        }
        i = i + 1;
    }
    proof {
        assert(v@.subrange(0, v@.len() as int) =~= v@);
    }
    out
}

/// Copy a vector of steps.
fn clone_ops(v: &Vec<Op>) -> (r: Vec<Op>)
    ensures
        r@ == v@,
{
    let mut out: Vec<Op> = Vec::new();
    let mut i: usize = 0;
    while i < v.len()
        invariant
            0 <= i <= v@.len(),
            out@ == v@.subrange(0, i as int),
        decreases v@.len() - i,
    {
        out.push(v[i]);
        proof {
            assert(out@ =~= v@.subrange(0, i + 1));
        }
        i = i + 1;
    }
    proof {
        assert(v@.subrange(0, v@.len() as int) =~= v@);
    }
    out
}

/// Copy a vector of strings.
pub fn clone_strs(v: &Vec<String>) -> (r: Vec<String>)
    ensures
        strs_view(r@) == strs_view(v@),
{
    let mut out: Vec<String> = Vec::new();
    let mut i: usize = 0;
    while i < v.len()
        invariant
            0 <= i <= v@.len(),
            out@.len() == i,
            forall|k: int| 0 <= k < i ==> out@[k]@ == v@[k]@,
        decreases v@.len() - i,
    {
        out.push(v[i].clone());
        i = i + 1;
    }
    proof {
        assert(strs_view(out@) =~= strs_view(v@));
    }
    out
}

/// Copy a string-keyed map of numbers.
fn clone_kv(v: &Vec<(String, u64)>) -> (r: Vec<(String, u64)>)
    ensures
        kv_view(r@) == kv_view(v@),
{
    let mut out: Vec<(String, u64)> = Vec::new();
    let mut i: usize = 0;
    while i < v.len()
        invariant
            0 <= i <= v@.len(),
            out@.len() == i,
            forall|k: int| 0 <= k < i ==> out@[k].0@ == v@[k].0@ && out@[k].1 == v@[k].1,
        decreases v@.len() - i,
    {
        out.push((v[i].0.clone(), v[i].1));
        i = i + 1;
    }
    proof {
        assert(kv_view(out@) =~= kv_view(v@));
    }
    out
}

/// Copy a string-keyed map of record lists.
fn clone_recs(v: &Vec<(String, Vec<(u64, u64)>)>) -> (r: Vec<(String, Vec<(u64, u64)>)>)
    ensures
        recs_view(r@) == recs_view(v@),
{
    let mut out: Vec<(String, Vec<(u64, u64)>)> = Vec::new();
    let mut i: usize = 0;
    while i < v.len()
        invariant
            0 <= i <= v@.len(),
            out@.len() == i,
            forall|k: int| 0 <= k < i ==> out@[k].0@ == v@[k].0@ && out@[k].1@ == v@[k].1@,
        decreases v@.len() - i,
    {
        let mut inner: Vec<(u64, u64)> = Vec::new();
        let mut j: usize = 0;
        while j < v[i].1.len()
            invariant
                0 <= i < v@.len(),
                0 <= j <= v@[i as int].1@.len(),
                inner@ == v@[i as int].1@.subrange(0, j as int),
            decreases v@[i as int].1@.len() - j,
        {
            inner.push(v[i].1[j]);
            proof {
                assert(inner@ =~= v@[i as int].1@.subrange(0, j + 1));
            }
            j = j + 1;
        }
        proof {
            assert(v@[i as int].1@.subrange(0, v@[i as int].1@.len() as int) =~= v@[i as int].1@);
        }
        out.push((v[i].0.clone(), inner));
        i = i + 1;
    }
    proof {
        assert(recs_view(out@) =~= recs_view(v@));
    }
    out
}

/// Copy a string-keyed map of string lists.
fn clone_topo(v: &Vec<(String, Vec<String>)>) -> (r: Vec<(String, Vec<String>)>)
    ensures
        topo_view(r@) == topo_view(v@),
{
    let mut out: Vec<(String, Vec<String>)> = Vec::new();
    let mut i: usize = 0;
    while i < v.len()
        invariant
            0 <= i <= v@.len(),
            out@.len() == i,
            forall|k: int|
                0 <= k < i ==> out@[k].0@ == v@[k].0@ && strs_view(out@[k].1@) == strs_view(
                    v@[k].1@,
                ),
        decreases v@.len() - i,
    {
        let inner = clone_strs(&v[i].1);
        out.push((v[i].0.clone(), inner));
        i = i + 1;
    }
    proof {
        assert forall|k: int| 0 <= k < v@.len() implies topo_view(out@)[k] == topo_view(v@)[k] by {}
        assert(topo_view(out@) =~= topo_view(v@));
    }
    out
}

/// Copy an optional forwarding tuple.
fn clone_fwd(v: &Option<(String, u64)>) -> (r: Option<(String, u64)>)
    ensures
        opt_fwd_view(r) == opt_fwd_view(*v),
{
    match v {
        Option::Some(f) => Option::Some((f.0.clone(), f.1)),
        Option::None => Option::None,
    }
}

impl Clone for Payload {
    /// A copy that carries the same wire shape.
    fn clone(&self) -> (res: Self)
        ensures
            res@ == self@,
    {
        match self {
            Payload::Init { node_id, node_ids } => Payload::Init {
                node_id: node_id.clone(),
                node_ids: clone_strs(node_ids),
            },
            Payload::InitOk => Payload::InitOk,
            Payload::Echo { echo } => Payload::Echo { echo: echo.clone() },
            Payload::EchoOk { echo } => Payload::EchoOk { echo: echo.clone() },
            Payload::Generate => Payload::Generate,
            Payload::GenerateOk { id } => Payload::GenerateOk { id: id.clone() },
            Payload::Topology { topology } => Payload::Topology { topology: clone_topo(topology) },
            Payload::TopologyOk => Payload::TopologyOk,
            Payload::Broadcast { message, batch } => Payload::Broadcast {
                message: *message,
                batch: match batch {
                    Option::Some(b) => Option::Some(clone_nums(b)),
                    Option::None => Option::None,
                },
            },
            Payload::BroadcastOk => Payload::BroadcastOk,
            Payload::Read => Payload::Read,
            Payload::ReadOk { messages, value } => Payload::ReadOk {
                messages: match messages {
                    Option::Some(ms) => Option::Some(clone_nums(ms)),
                    Option::None => Option::None,
                },
                value: *value,
            },
            Payload::Gossip { messages } => Payload::Gossip { messages: clone_nums(messages) },
            Payload::Add { delta } => Payload::Add { delta: *delta },
            Payload::AddOk => Payload::AddOk,
            Payload::Replicate { delta, ops } => Payload::Replicate {
                delta: *delta,
                ops: match ops {
                    Option::Some(os) => Option::Some(clone_ops(os)),
                    Option::None => Option::None,
                },
            },
            Payload::ReplicateOk => Payload::ReplicateOk,
            Payload::Send { key, msg, forwarded_for } => Payload::Send {
                key: key.clone(),
                msg: *msg,
                forwarded_for: clone_fwd(forwarded_for),
            },
            Payload::SendOk { offset, forwarded_for } => Payload::SendOk {
                offset: *offset,
                forwarded_for: clone_fwd(forwarded_for),
            },
            Payload::Poll { offsets } => Payload::Poll { offsets: clone_kv(offsets) },
            Payload::PollOk { msgs } => Payload::PollOk { msgs: clone_recs(msgs) },
            Payload::CommitOffsets { offsets } => Payload::CommitOffsets {
                offsets: clone_kv(offsets),
            },
            Payload::CommitOffsetsOk => Payload::CommitOffsetsOk,
            Payload::ListCommittedOffsets { keys } => Payload::ListCommittedOffsets {
                keys: clone_strs(keys),
            },
            Payload::ListCommittedOffsetsOk { offsets } => Payload::ListCommittedOffsetsOk {
                offsets: clone_kv(offsets),
            },
            Payload::ReplicaPoll { offsets } => Payload::ReplicaPoll { offsets: clone_kv(offsets) },
            Payload::ReplicaPollOk { msgs } => Payload::ReplicaPollOk { msgs: clone_recs(msgs) },
            Payload::Txn { txn } => Payload::Txn { txn: clone_ops(txn) },
            Payload::TxnOk { txn } => Payload::TxnOk { txn: clone_ops(txn) },
        }
    }
}

impl Clone for Body {
    /// A copy that carries the same wire shape.
    fn clone(&self) -> (res: Self)
        ensures
            res@ == self@,
    {
        Body { id: self.id, in_reply_to: self.in_reply_to, payload: self.payload.clone() }
    }
}

impl Clone for Message {
    /// A copy that carries the same wire shape.
    fn clone(&self) -> (res: Self)
        ensures
            res@ == self@,
    {
        Message { src: self.src.clone(), dst: self.dst.clone(), body: self.body.clone() }
    }
}

impl Clone for Init {
    /// A copy with the same identifiers.
    fn clone(&self) -> (res: Self)
        ensures
            res@ == self@,
    {
        Init { node_id: self.node_id.clone(), node_ids: clone_strs(&self.node_ids) }
    }
}

/// One wire line for an envelope: its canonical JSON text, which holds
/// no line break.  The writer appends exactly one newline after it, so
/// no two envelopes ever share a line.
pub fn to_line(m: &Message) -> (s: String)
    ensures
        s@ == json_text(msg_json(m@)),
        no_newline(s@),
{
    let j = msg_to_json(m);
    let s = json_to_string(&j);
    proof {
        lemma_json_text_no_newline(msg_json(m@));
    }
    s
}

/// Parse and decode one line of input: the text must be the JSON of an
/// envelope the schema admits; everything else is a decode error, which
/// the runtime treats as fatal.  Complete: on the line the encoder
/// wrote for any envelope — what `to_line` yields — exactly that
/// envelope comes back.  Sound: an accepted line is, between runs of
/// whitespace, a rendering of a JSON value that decodes to the returned
/// envelope, which is always one the encoder accepts back.
pub fn from_line(s: &str) -> (r: Result<Message, Error>)
    ensures
        r is Ok ==> wf_msg((r->Ok_0)@),
        forall|m: MessageV|
            s@ == json_text(#[trigger] msg_json(m)) && wf_msg(m) ==> r is Ok && (r->Ok_0)@ == m,
        r is Ok ==> exists|jv: JsonV, a: int, b: int|
            #![trigger crate::parse::value_span(jv, a, b)]
            crate::parse::value_span(jv, a, b) && 0 <= a <= b <= s@.len() && crate::parse::ws_at(
                s@,
                0,
                a,
            ) && crate::parse::renders_value_at(s@, a, b, jv) && crate::parse::ws_at(
                s@,
                b,
                s@.len() as int,
            ) && spec_decode_msg(jv) == Option::Some((r->Ok_0)@),
{
    let jres = crate::parse::parse_json(s);
    proof {
        assert forall|m: MessageV|
            s@ == json_text(#[trigger] msg_json(m)) && wf_msg(m) implies jres is Some && (
        jres->Some_0)@ == msg_json(m) && spec_decode_msg((jres->Some_0)@) == Option::Some(m) by {
            lemma_msg_round_trip(m);
        }
    }
    let Option::Some(j) = jres else { return Result::Err(Error::Decode) };
    let ghost jv = j@;
    let m = decode_msg(&j)?;
    proof {
        lemma_decode_wf(j@, m@);
        let (jv2, a, b) = choose|jv2: JsonV, a: int, b: int|
            #![trigger crate::parse::value_span(jv2, a, b)]
            crate::parse::value_span(jv2, a, b) && 0 <= a <= b <= s@.len() && crate::parse::ws_at(
                s@,
                0,
                a,
            ) && crate::parse::renders_value_at(s@, a, b, jv2) && crate::parse::ws_at(
                s@,
                b,
                s@.len() as int,
            ) && jv2 == jv;
        assert(crate::parse::value_span(jv2, a, b));
        assert(spec_decode_msg(jv2) == Option::Some(m@));
    }
    Result::Ok(m)
}


/// Copy an optional forwarding tuple.
pub fn copy_forward(v: &Option<(String, u64)>) -> (r: Option<(String, u64)>)
    ensures
        opt_fwd_view(r) == opt_fwd_view(*v),
{
    match v {
        Option::Some(f) => Option::Some((f.0.clone(), f.1)),
        Option::None => Option::None,
    }
}

/// Copy a string-keyed map of numbers.
pub fn copy_offsets(v: &Vec<(String, u64)>) -> (r: Vec<(String, u64)>)
    ensures
        kv_view(r@) == kv_view(v@),
{
    let mut out: Vec<(String, u64)> = Vec::new();
    let mut i: usize = 0;
    while i < v.len()
        invariant
            0 <= i <= v@.len(),
            out@.len() == i,
            forall|k: int| 0 <= k < i ==> out@[k].0@ == v@[k].0@ && out@[k].1 == v@[k].1,
        decreases v@.len() - i,
    {
        out.push((v[i].0.clone(), v[i].1));
        i = i + 1;
    }
    proof {
        assert(kv_view(out@) =~= kv_view(v@));
    }
    out
}

} // verus!
