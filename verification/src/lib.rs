//! Verified core of a peer-to-peer UDP toolkit: a small reliable-delivery
//! layer over datagrams, a rendezvous relay that pairs hosts with peers,
//! the decisions a peer takes while punching through NATs, and the
//! packet-forwarding core of a sharded TURN-style relay.
pub mod endpoint;
pub mod wire;
pub mod reliable;
pub mod trusted;
pub mod turn;
pub mod sharecode;
pub mod relay;
pub mod peer;
