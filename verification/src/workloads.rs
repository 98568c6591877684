//! The reference workloads: thin state machines over the node runtime.

pub mod broadcast;
pub mod broadcast_tree;
pub mod broadcast_tree_batch;
pub mod echo;
pub mod g_counter;
pub mod kafka_multi;
pub mod kafka_single;
pub mod txn_single;
pub mod txn_two;
pub mod unique_ids;
