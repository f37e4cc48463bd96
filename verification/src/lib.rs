//! A peer-to-peer node core: a framed command codec, a correlated
//! request/response exchange, a routing-table model fed by peer discovery,
//! a fair composition of the three event sources, a state-free command
//! dispatcher with a decentralized-identity trust-ping handshake, and the
//! line-oriented control interface of the node loop.
//!
//! The transport, the DHT algorithm, local-network discovery and DID
//! resolution are external collaborators: this crate holds the decisions
//! and the wire formats, stated over byte sequences and sequence models.

pub mod bytes;
pub mod codec;
pub mod composer;
pub mod didcomm;
pub mod dispatch;
pub mod exchange;
pub mod node;
pub mod peer;
pub mod routing;
