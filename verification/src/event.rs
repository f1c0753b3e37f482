//! What the network reports.
use crate::multiaddr::{ConnectedPoint, Multiaddr};
use crate::peer::PeerId;
use vstd::prelude::*;

verus! {

use crate::multiaddr::{addr_views, Component};

/// An event of the network that a run can depend on. Listeners and connections are known by
/// numbers, one for each that was opened.
#[derive(Debug)]
pub enum NetEvent {
    /// A peer told what it is: the address it sees this side at, the protocols that it speaks, and
    /// the addresses that it listens on.
    Identified {
        peer: PeerId,
        observed: Multiaddr,
        protocols: Vec<String>,
        listen_addrs: Vec<Multiaddr>,
    },
    /// A listener of this side can be reached at an address.
    NewListenAddr { listener: u64, addr: Multiaddr },
    /// A listener of this side is closed.
    ListenerClosed { listener: u64 },
    /// A connection could not be made, to the peer if it is known.
    DialFailed { target: Option<PeerId> },
    /// A connection to a peer stands.
    Connected { connection: u64, peer: PeerId, endpoint: ConnectedPoint },
    /// An attempt to reach a peer directly ended.
    HolePunch { peer: PeerId, ok: bool },
    /// A ping of a peer came back, over the connection.
    Pinged { connection: u64, peer: PeerId, rtt: u128 },
    /// Anything else, a ping that failed too.
    Other,
}

/// View of a [`NetEvent`].
pub enum NetEventView {
    Identified {
        peer: Seq<u8>,
        observed: Seq<Component>,
        protocols: Seq<Seq<char>>,
        listen_addrs: Seq<Seq<Component>>,
    },
    NewListenAddr { listener: u64, addr: Seq<Component> },
    ListenerClosed { listener: u64 },
    DialFailed { target: Option<Seq<u8>> },
    Connected { connection: u64, peer: Seq<u8>, remote: Seq<Component> },
    HolePunch { peer: Seq<u8>, ok: bool },
    Pinged { connection: u64, peer: Seq<u8>, rtt: u128 },
    Other,
}

/// Views of the given texts.
pub open spec fn text_views(texts: Seq<String>) -> Seq<Seq<char>> {
    texts.map_values(|t: String| t@)
}

impl View for NetEvent {
    type V = NetEventView;

    open spec fn view(&self) -> NetEventView {
        match *self {
            NetEvent::Identified { peer, observed, protocols, listen_addrs } => {
                NetEventView::Identified {
                    peer: peer@,
                    observed: observed@,
                    protocols: text_views(protocols@),
                    listen_addrs: addr_views(listen_addrs@),
                }
            },
            NetEvent::NewListenAddr { listener, addr } => NetEventView::NewListenAddr {
                listener,
                addr: addr@,
            },
            NetEvent::ListenerClosed { listener } => NetEventView::ListenerClosed { listener },
            NetEvent::DialFailed { target } => NetEventView::DialFailed {
                target: match target {
                    Some(p) => Some(p@),
                    None => None,
                },
            },
            NetEvent::Connected { connection, peer, endpoint } => NetEventView::Connected {
                connection,
                peer: peer@,
                remote: endpoint.remote(),
            },
            NetEvent::HolePunch { peer, ok } => NetEventView::HolePunch { peer: peer@, ok },
            NetEvent::Pinged { connection, peer, rtt } => NetEventView::Pinged {
                connection,
                peer: peer@,
                rtt,
            },
            NetEvent::Other => NetEventView::Other,
        }
    }
}

/// The protocol that a relay speaks to those who ask it for a reservation.
pub open spec fn hop_protocol() -> Seq<char> {
    "/libp2p/circuit/relay/0.2.0/hop"@
}

/// `libp2p::relay::HOP_PROTOCOL_NAME`, as the text that its `Display` writes.
#[verifier::external_body]
fn outside_hop_protocol() -> (r: String)
    ensures
        r@ == hop_protocol(),
{
    libp2p::relay::HOP_PROTOCOL_NAME.to_string()
}

/// Whether a peer that speaks these protocols offers itself as a relay.
pub fn speaks_hop(protocols: &Vec<String>) -> (r: bool)
    ensures
        r == text_views(protocols@).contains(hop_protocol()),
        r <==> exists|i: int|
            0 <= i < protocols@.len() && (#[trigger] protocols@[i])@
                == "/libp2p/circuit/relay/0.2.0/hop"@,
{
    let hop = outside_hop_protocol();
    let mut i: usize = 0;
    while i < protocols.len()
        invariant
            i <= protocols.len(),
            hop@ == hop_protocol(),
            forall|j: int| 0 <= j < i ==> text_views(protocols@)[j] != hop_protocol(),
        decreases protocols.len() - i,
    {
        if protocols[i] == hop {
            assert(text_views(protocols@)[i as int] == hop_protocol());
            assert(protocols@[i as int]@ == hop_protocol());
            return true;
        }
        i += 1;
    }
    assert forall|j: int| 0 <= j < protocols@.len() implies (#[trigger] protocols@[j])@
        != hop_protocol() by {
        assert(text_views(protocols@)[j] != hop_protocol());
    }
    false
}

/// Texts are seen one by one, in order.
pub proof fn law_texts_are_seen_whole(texts: Seq<String>)
    ensures
        text_views(texts).len() == texts.len(),
        forall|i: int| 0 <= i < texts.len() ==> #[trigger] text_views(texts)[i] == texts[i]@,
{
}

/// An event is seen as what it is, with all that it holds; of the ends of a connection the other
/// one is seen.
pub proof fn law_events_are_seen_whole(event: NetEvent)
    ensures
        match event {
            NetEvent::Identified { peer, observed, protocols, listen_addrs } => event@ matches
                NetEventView::Identified { peer: p, observed: o, protocols: q, listen_addrs: l } && p
                == peer@ && o == observed@ && q == text_views(protocols@) && l == addr_views(
                listen_addrs@,
            ),
            NetEvent::NewListenAddr { listener, addr } => event@ matches
                NetEventView::NewListenAddr { listener: l, addr: a } && l == listener && a == addr@,
            NetEvent::ListenerClosed { listener } => event@ matches
                NetEventView::ListenerClosed { listener: l } && l == listener,
            NetEvent::DialFailed { target: Some(peer) } => event@ matches
                NetEventView::DialFailed { target: Some(p) } && p == peer@,
            NetEvent::DialFailed { target: None } => event@ matches
                NetEventView::DialFailed { target: None },
            NetEvent::Connected { connection, peer, endpoint } => event@ matches
                NetEventView::Connected { connection: c, peer: p, remote } && c == connection && p
                == peer@ && remote == endpoint.remote(),
            NetEvent::HolePunch { peer, ok } => event@ matches
                NetEventView::HolePunch { peer: p, ok: b } && p == peer@ && b == ok,
            NetEvent::Pinged { connection, peer, rtt } => event@ matches
                NetEventView::Pinged { connection: c, peer: p, rtt: t } && c == connection && p
                == peer@ && t == rtt,
            NetEvent::Other => event@ is Other,
        },
{
}

} // verus!
