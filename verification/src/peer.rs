//! Peers and sets of peers.
use vstd::prelude::*;

verus! {

/// The largest digest, in bytes, that an identity hash of a peer id holds.
pub const MAX_INLINE_KEY: u8 = 42;

/// The largest digest, in bytes, of any other hash.
pub const MAX_DIGEST: u8 = 64;

/// Code of the identity hash.
pub const IDENTITY_CODE: u8 = 0;

/// Code of the SHA2-256 hash.
pub const SHA256_CODE: u8 = 0x12;

/// The raw form of a peer id: a hash code, the length of the digest, the digest. The hash is
/// SHA2-256, or the identity for keys short enough to stand for themselves.
pub open spec fn peer_bytes(b: Seq<u8>) -> bool {
    &&& b.len() >= 2
    &&& b.len() == b[1] + 2
    &&& (b[0] == SHA256_CODE && b[1] <= MAX_DIGEST) || (b[0] == IDENTITY_CODE && b[1]
        <= MAX_INLINE_KEY)
}

/// Identifier of a peer of the network. Its view is its raw form.
#[derive(Debug)]
pub struct PeerId {
    pub(crate) bytes: Vec<u8>,
}

/// Error of [`PeerId::parse`]: what libp2p says is wrong with the text.
#[verifier::external_type_specification]
#[verifier::external_body]
pub struct ExParseError(libp2p::identity::ParseError);

/// The raw form of the peer id that libp2p reads from bytes, if it reads one.
pub uninterp spec fn peer_from_bytes(bytes: Seq<u8>) -> Option<Seq<u8>>;

/// The raw form of the peer id that libp2p reads from a text, or its error.
pub uninterp spec fn peer_from_text(text: Seq<char>) -> Result<
    Seq<u8>,
    libp2p::identity::ParseError,
>;

/// Whether the text is read as the peer.
pub open spec fn names_peer(text: Seq<char>, peer: Seq<u8>) -> bool {
    peer_from_text(text) matches Ok(bytes) && bytes == peer
}

/// The text that libp2p writes for the peer id of the given raw form.
pub uninterp spec fn peer_text(bytes: Seq<u8>) -> Seq<char>;

/// `libp2p::PeerId::from_bytes`, handing out the raw form again (`to_bytes`). What comes out is
/// the raw form of a peer id, and the raw form of a peer id comes out as it went in.
#[verifier::external_body]
fn outside_from_bytes(bytes: &[u8]) -> (r: Option<Vec<u8>>)
    ensures
        r is Some == peer_from_bytes(bytes@) is Some,
        r is Some ==> r->0@ == peer_from_bytes(bytes@)->0,
        r is Some ==> peer_bytes(r->0@),
        peer_bytes(bytes@) ==> r is Some && r->0@ == bytes@,
{
    libp2p::PeerId::from_bytes(bytes).ok().map(|id| id.to_bytes())
}

/// `<libp2p::PeerId as FromStr>::from_str`, handing out the raw form. What comes out is the raw
/// form of a peer id.
#[verifier::external_body]
fn outside_from_text(text: &str) -> (r: Result<Vec<u8>, libp2p::identity::ParseError>)
    ensures
        r is Ok == peer_from_text(text@) is Ok,
        r is Ok ==> r->Ok_0@ == peer_from_text(text@)->Ok_0,
        r is Err ==> r->Err_0 == peer_from_text(text@)->Err_0,
        r is Ok ==> peer_bytes(r->Ok_0@),
{
    <libp2p::PeerId as std::str::FromStr>::from_str(text).map(|id| id.to_bytes())
}

/// `<libp2p::PeerId as Display>::fmt`: the base-58 text of the peer id with this raw form.
/// Reading that text gives back the raw form.
#[verifier::external_body]
fn outside_text(id: &PeerId) -> (r: String)
    ensures
        r@ == peer_text(id@),
        names_peer(r@, id@),
{
    libp2p::PeerId::from_bytes(&id.bytes).expect("a peer id").to_string()
}

impl View for PeerId {
    type V = Seq<u8>;

    closed spec fn view(&self) -> Seq<u8> {
        self.bytes@
    }
}

impl PeerId {
    #[verifier::type_invariant]
    spec fn well_formed(self) -> bool {
        peer_bytes(self.bytes@)
    }

    /// The peer id that these bytes hold.
    pub fn from_bytes(bytes: &[u8]) -> (r: Option<PeerId>)
        ensures
            r is Some == peer_from_bytes(bytes@) is Some,
            r is Some ==> r->0@ == peer_from_bytes(bytes@)->0,
            r is Some ==> peer_bytes(r->0@),
            peer_bytes(bytes@) ==> r is Some && r->0@ == bytes@,
    {
        match outside_from_bytes(bytes) {
            Some(bytes) => Some(PeerId { bytes }),
            None => None,
        }
    }

    /// The peer id that this text holds.
    pub fn parse(text: &str) -> (r: Result<PeerId, libp2p::identity::ParseError>)
        ensures
            r is Ok == peer_from_text(text@) is Ok,
            r is Ok ==> r->Ok_0@ == peer_from_text(text@)->Ok_0,
            r is Err ==> r->Err_0 == peer_from_text(text@)->Err_0,
            r is Ok ==> peer_bytes(r->Ok_0@),
    {
        match outside_from_text(text) {
            Ok(bytes) => Ok(PeerId { bytes }),
            Err(e) => Err(e),
        }
    }

    /// The text of this peer id, from which [`PeerId::parse`] gives it back.
    pub fn text(&self) -> (r: String)
        ensures
            r@ == peer_text(self@),
            names_peer(r@, self@),
    {
        outside_text(self)
    }

    /// The raw form.
    pub fn as_bytes(&self) -> (r: &[u8])
        ensures
            r@ == self@,
            peer_bytes(r@),
    {
        proof {
            use_type_invariant(self);
        }
        self.bytes.as_slice()
    }
}

impl Clone for PeerId {
    fn clone(&self) -> (r: PeerId)
        ensures
            r@ == self@,
    {
        proof {
            use_type_invariant(self);
        }
        let bytes = self.bytes.clone();
        assert(bytes@ =~= self.bytes@);
        PeerId { bytes }
    }
}

impl PartialEq for PeerId {
    fn eq(&self, other: &PeerId) -> (r: bool) {
        if self.bytes.len() != other.bytes.len() {
            return false;
        }
        let mut i: usize = 0;
        while i < self.bytes.len()
            invariant
                i <= self.bytes.len(),
                self.bytes.len() == other.bytes.len(),
                forall|j: int| 0 <= j < i ==> self.bytes@[j] == other.bytes@[j],
            decreases self.bytes.len() - i,
        {
            if self.bytes[i] != other.bytes[i] {
                return false;
            }
            i += 1;
        }
        assert(self.bytes@ =~= other.bytes@);
        true
    }
}

impl vstd::std_specs::cmp::PartialEqSpecImpl for PeerId {
    open spec fn obeys_eq_spec() -> bool {
        true
    }

    open spec fn eq_spec(&self, other: &PeerId) -> bool {
        self@ == other@
    }
}

impl Eq for PeerId {

}

/// The views of the given peers.
pub open spec fn peer_views(peers: Seq<PeerId>) -> Seq<Seq<u8>> {
    peers.map_values(|p: PeerId| p@)
}

/// A set of peers. Its view is the set of their views.
#[derive(Debug)]
pub struct PeerSet {
    peers: Vec<PeerId>,
}

impl View for PeerSet {
    type V = Set<Seq<u8>>;

    closed spec fn view(&self) -> Set<Seq<u8>> {
        peer_views(self.peers@).to_set()
    }
}

impl PeerSet {
    /// No peer stands in the list twice.
    #[verifier::type_invariant]
    spec fn well_formed(self) -> bool {
        peer_views(self.peers@).no_duplicates()
    }

    /// The empty set.
    pub fn new() -> (r: PeerSet)
        ensures
            r@ == Set::<Seq<u8>>::empty(),
    {
        let peers: Vec<PeerId> = Vec::new();
        assert(peer_views(peers@).to_set() =~= Set::<Seq<u8>>::empty());
        PeerSet { peers }
    }

    /// Whether the peer is in the set.
    pub fn contains(&self, peer: &PeerId) -> (r: bool)
        ensures
            r == self@.contains(peer@),
    {
        let mut i: usize = 0;
        while i < self.peers.len()
            invariant
                i <= self.peers.len(),
                forall|j: int| 0 <= j < i ==> peer_views(self.peers@)[j] != peer@,
            decreases self.peers.len() - i,
        {
            if self.peers[i] == *peer {
                assert(peer_views(self.peers@)[i as int] == peer@);
                return true;
            }
            i += 1;
        }
        false
    }

    /// Adds the peer, and says whether it was not there before.
    pub fn insert(&mut self, peer: PeerId) -> (r: bool)
        ensures
            final(self)@ == old(self)@.insert(peer@),
            r == !old(self)@.contains(peer@),
    {
        if self.contains(&peer) {
            assert(self@ =~= self@.insert(peer@));
            return false;
        }
        proof {
            use_type_invariant(&*self);
        }
        let mut peers: Vec<PeerId> = Vec::new();
        std::mem::swap(&mut peers, &mut self.peers);
        let ghost before = peer_views(peers@);
        peers.push(peer);
        proof {
            let after = peer_views(peers@);
            assert(after =~= before.push(peer@));
            assert(after.to_set() =~= before.to_set().insert(peer@)) by {
                assert forall|x: Seq<u8>| before.contains(x) implies after.contains(x) by {
                    let k = choose|k: int| 0 <= k < before.len() && before[k] == x;
                    assert(after[k] == x);
                }
                assert(after[before.len() as int] == peer@);
            }
            assert(after.no_duplicates()) by {
                assert(!before.contains(peer@));
            }
        }
        self.peers = peers;
        true
    }

    /// How many peers are in the set.
    pub fn len(&self) -> (r: usize)
        ensures
            r == self@.len(),
            self@.finite(),
    {
        proof {
            use_type_invariant(self);
            peer_views(self.peers@).unique_seq_to_set();
        }
        self.peers.len()
    }
}

} // verus!
