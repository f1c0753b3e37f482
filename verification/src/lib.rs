//! The decisions of a probe for NAT traversal between two peers.
//!
//! A listener looks for a relay that grants it a reservation ([`discovery`]), tells the dialer
//! where it can be reached ([`rendezvous`]) and waits for it ([`watch`]). A dialer goes through
//! the relay and sees whether a direct connection comes about ([`dial`]). Each of them is a state
//! machine: its `step` takes in what the network reported and says what to do next.

pub mod bootstrap;
pub mod clock;
pub mod dial;
pub mod dial_laws;
pub mod discovery;
pub mod discovery_laws;
pub mod event;
pub mod ip;
pub mod learn;
pub mod multiaddr;
pub mod peer;
pub mod rendezvous;
pub mod seqs;
pub mod text;
pub mod watch;

pub use multiaddr::Multiaddr;
pub use peer::PeerId;
pub use peer::PeerSet;
