//! What the listener tells the dialer.
use crate::multiaddr::Multiaddr;
use crate::peer::PeerId;
use vstd::prelude::*;

verus! {

use crate::event::text_views;
use crate::multiaddr::{addr_text, addr_views, plain_addr, reads_as, Component};
use crate::peer::{names_peer, peer_text};

/// The listener's peer id and the addresses at which the dialer should try it,
/// `<relay>/p2p-circuit/p2p/<peer_id>` each.
#[derive(Debug)]
pub struct Rendezvous {
    pub peer_id: String,
    pub circuit_addrs: Vec<String>,
}

/// View of a [`Rendezvous`].
#[verifier::ext_equal]
pub struct RendezvousView {
    pub peer_id: Seq<char>,
    pub circuit_addrs: Seq<Seq<char>>,
}

impl View for Rendezvous {
    type V = RendezvousView;

    open spec fn view(&self) -> RendezvousView {
        RendezvousView { peer_id: self.peer_id@, circuit_addrs: text_views(self.circuit_addrs@) }
    }
}

/// The rendezvous of a listener that was granted the given addresses.
pub open spec fn rendezvous_of(peer: Seq<u8>, accepted: Seq<Seq<Component>>) -> RendezvousView {
    RendezvousView {
        peer_id: peer_text(peer),
        circuit_addrs: accepted.map_values(|a: Seq<Component>| addr_text(a)),
    }
}

/// Whether the peer and the addresses can be read from the rendezvous.
pub open spec fn tells(rv: RendezvousView, peer: Seq<u8>, addrs: Seq<Seq<Component>>) -> bool {
    &&& names_peer(rv.peer_id, peer)
    &&& rv.circuit_addrs.len() == addrs.len()
    &&& forall|i: int|
        0 <= i < addrs.len() ==> reads_as(#[trigger] rv.circuit_addrs[i], addrs[i])
}

impl Rendezvous {
    /// The rendezvous of the peer that was granted these addresses. The dialer can read the peer
    /// and every plain address from it.
    pub fn new(local_peer_id: &PeerId, accepted: &Vec<Multiaddr>) -> (r: Rendezvous)
        ensures
            r@ == rendezvous_of(local_peer_id@, addr_views(accepted@)),
            names_peer(r@.peer_id, local_peer_id@),
            forall|i: int|
                0 <= i < accepted@.len() && plain_addr(accepted@[i]@) ==> reads_as(
                    #[trigger] r@.circuit_addrs[i],
                    accepted@[i]@,
                ),
            addr_views(accepted@).all(|a: Seq<Component>| plain_addr(a)) ==> tells(
                r@,
                local_peer_id@,
                addr_views(accepted@),
            ),
    {
        let mut circuit_addrs: Vec<String> = Vec::new();
        let mut i: usize = 0;
        while i < accepted.len()
            invariant
                i <= accepted.len(),
                circuit_addrs.len() == i,
                forall|j: int| 0 <= j < i ==> (#[trigger] circuit_addrs@[j])@ == addr_text(accepted@[j]@),
                forall|j: int|
                    0 <= j < i && plain_addr(accepted@[j]@) ==> reads_as(
                        (#[trigger] circuit_addrs@[j])@,
                        accepted@[j]@,
                    ),
            decreases accepted.len() - i,
        {
            circuit_addrs.push(accepted[i].text());
            i += 1;
        }
        let r = Rendezvous { peer_id: local_peer_id.text(), circuit_addrs };
        proof {
            let addrs = addr_views(accepted@);
            assert(r@ =~= rendezvous_of(local_peer_id@, addrs));
            if addrs.all(|a: Seq<Component>| plain_addr(a)) {
                assert forall|i: int| 0 <= i < addrs.len() implies reads_as(
                    #[trigger] r@.circuit_addrs[i],
                    addrs[i],
                ) by {
                    assert((|a: Seq<Component>| plain_addr(a))(addrs[i]));
                }
            }
        }
        r
    }
}

/// A rendezvous tells every granted address, in order, and none besides, and the peer, each by its
/// text.
pub proof fn law_rendezvous_tells_every_address(
    peer: Seq<u8>,
    accepted: Seq<Seq<Component>>,
    i: int,
)
    requires
        0 <= i < accepted.len(),
    ensures
        rendezvous_of(peer, accepted).peer_id == peer_text(peer),
        rendezvous_of(peer, accepted).circuit_addrs.len() == accepted.len(),
        rendezvous_of(peer, accepted).circuit_addrs[i] == addr_text(accepted[i]),
{
}

} // verus!
