//! A verified messaging runtime for Maelstrom-style distributed workloads.
//!
//! The crate models each runtime component as a state machine over plain
//! values: node identity with monotonic message ids, request/response
//! correlation with TTL eviction, a request-handler service adapter,
//! state-based CRDTs with proved merge laws, a transactional key-value
//! engine over a linearizable store, and a gossiping broadcast service.
//! An embedding program performs the JSON transport and the async
//! scheduling around these state machines.

pub mod datomic;
pub mod echo;
pub mod error;
pub mod init;
pub mod linkv;
pub mod message;
pub mod assoc;
pub mod broadcast;
pub mod client;
pub mod crdt;
pub mod gcounter;
pub mod gset;
pub mod pncounter;
pub mod node;
pub mod outgoing;
pub mod serve;
