//! A node for a simulated unreliable-network testbed that provides reliable
//! broadcast: a value injected at any node eventually becomes known to every
//! node, although messages may be silently dropped and the transport never
//! retransmits. The node exchanges line-delimited request/response envelopes
//! and relies on a gossip engine that retries, batches and retires outbound
//! broadcasts until every peer has acknowledged them.

pub mod common;
pub mod echo;
pub mod gossip;
pub mod protocol;
pub mod requests;
pub mod unique;
