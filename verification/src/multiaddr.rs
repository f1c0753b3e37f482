//! Multiaddresses: the components of an address, in order.
use crate::ip::{is_public_v4, is_public_v6};
use crate::peer::PeerId;
use libp2p::multiaddr::Protocol;
use libp2p::{Multiaddr as OutsideAddr, PeerId as OutsideId};
use std::collections::VecDeque;
use vstd::prelude::*;

verus! {

use crate::ip::{v4_public, v6_public};
use crate::seqs::{first_index, lemma_first_index, lemma_first_index_is};

/// Error of [`Multiaddr::parse`]: what libp2p says is wrong with the text.
#[verifier::external_type_specification]
#[verifier::external_body]
pub struct ExMultiaddrError(libp2p::multiaddr::Error);

/// The code that a raw form begins with. libp2p knows codes of one and of two bytes, seven bits in
/// each, the lowest first; the upper bit tells that another byte follows.
pub open spec fn code(raw: Seq<u8>) -> int {
    if raw.len() == 0 {
        0
    } else if raw.len() == 1 || raw[0] < 128 {
        raw[0] as int
    } else {
        raw[0] - 128 + 128 * raw[1]
    }
}

/// What follows the first number of the bytes, whose last byte is the first below 128.
pub open spec fn after_number(bytes: Seq<u8>) -> Seq<u8>
    decreases bytes.len(),
{
    if bytes.len() == 0 {
        bytes
    } else if bytes[0] < 128 {
        bytes.skip(1)
    } else {
        after_number(bytes.skip(1))
    }
}

/// What a raw form holds behind its code and its length, where its kind has a length.
pub open spec fn payload(raw: Seq<u8>) -> Seq<u8> {
    after_number(after_number(raw))
}

/// The codes of `ip4`, `ip6`, `p2p` and `p2p-circuit`, which have variants of their own.
pub open spec fn has_variant(code: int) -> bool {
    code == 4 || code == 41 || code == 421 || code == 290
}

/// The codes of `dns`, `dns4`, `dns6`, `dnsaddr`, `ip6zone`, `sni` and `unix`, whose payload is
/// written as it is.
pub open spec fn holds_name(code: int) -> bool {
    code == 53 || code == 54 || code == 55 || code == 56 || code == 42 || code == 449 || code == 400
}

/// The codes of `onion` and `onion3`, whose raw form ends with a port.
pub open spec fn holds_onion(code: int) -> bool {
    code == 444 || code == 445
}

/// Code of `garlic64`.
pub open spec fn garlic64() -> int {
    446
}

/// Code of `garlic32`.
pub open spec fn garlic32() -> int {
    447
}

/// Whether the text of the component with this raw form is read back as that component. A name is
/// unless it holds a slash, an onion address unless its port is 0, a garlic address where its
/// length is one that libp2p takes, and every other kind always.
pub open spec fn reads_back(raw: Seq<u8>) -> bool {
    if holds_name(code(raw)) {
        !payload(raw).contains(0x2f)
    } else if holds_onion(code(raw)) {
        !(raw[raw.len() - 2] == 0 && raw[raw.len() - 1] == 0)
    } else if code(raw) == garlic64() {
        387 <= payload(raw).len() <= 462
    } else if code(raw) == garlic32() {
        payload(raw).len() == 32 || payload(raw).len() >= 34
    } else {
        true
    }
}

/// The raw form of the component that libp2p reads at the head of the bytes, if it reads one.
pub uninterp spec fn part_from_bytes(bytes: Seq<u8>) -> Option<Seq<u8>>;

/// `libp2p::multiaddr::Protocol::from_bytes`, handing out the raw form of the component that it
/// reads (`Multiaddr::from` and `to_vec`). From a raw form that component is read again.
#[verifier::external_body]
fn outside_part(bytes: &[u8]) -> (r: Option<Vec<u8>>)
    ensures
        r is Some == part_from_bytes(bytes@) is Some,
        r is Some ==> r->0@ == part_from_bytes(bytes@)->0,
        r is Some ==> part_from_bytes(r->0@) == Some(r->0@),
{
    Protocol::from_bytes(bytes).ok().map(|(p, _)| OutsideAddr::from(p).to_vec())
}

/// A component in raw form: its code, its length where its kind has one, and its payload, as
/// libp2p writes them. Its kind is one without a variant of its own. Its view is the raw form.
#[derive(Debug)]
pub struct RawPart {
    bytes: Vec<u8>,
}

impl View for RawPart {
    type V = Seq<u8>;

    closed spec fn view(&self) -> Seq<u8> {
        self.bytes@
    }
}

impl RawPart {
    #[verifier::type_invariant]
    spec fn well_formed(self) -> bool {
        &&& part_from_bytes(self.bytes@) == Some(self.bytes@)
        &&& !has_variant(code(self.bytes@))
    }

    /// The component at the head of the bytes, if its kind has no variant of its own.
    pub fn from_bytes(bytes: &[u8]) -> (r: Option<RawPart>)
        ensures
            r is Some <==> (part_from_bytes(bytes@) matches Some(raw) && !has_variant(code(raw))),
            r is Some ==> r->0@ == part_from_bytes(bytes@)->0,
    {
        match outside_part(bytes) {
            Some(raw) => {
                let kind: u32 = code_of(raw.as_slice());
                if kind == 4 || kind == 41 || kind == 421 || kind == 290 {
                    None
                } else {
                    Some(RawPart { bytes: raw })
                }
            },
            None => None,
        }
    }

    /// The raw form.
    pub fn as_bytes(&self) -> (r: &[u8])
        ensures
            r@ == self@,
            part_from_bytes(r@) == Some(r@),
            !has_variant(code(r@)),
    {
        proof {
            use_type_invariant(self);
        }
        self.bytes.as_slice()
    }
}

/// The code that a raw form begins with.
fn code_of(raw: &[u8]) -> (r: u32)
    ensures
        r == code(raw@),
{
    if raw.len() == 0 {
        0
    } else if raw.len() == 1 || raw[0] < 128 {
        raw[0] as u32
    } else {
        raw[0] as u32 - 128 + 128 * raw[1] as u32
    }
}

/// One component of an address.
#[derive(Debug)]
pub enum AddrPart {
    Ip4([u8; 4]),
    Ip6([u16; 8]),
    P2p(PeerId),
    P2pCircuit,
    /// A component of any other kind.
    Other(RawPart),
}

/// View of an [`AddrPart`].
pub enum Component {
    Ip4(Seq<u8>),
    Ip6(Seq<u16>),
    P2p(Seq<u8>),
    P2pCircuit,
    Other(Seq<u8>),
}

impl View for AddrPart {
    type V = Component;

    open spec fn view(&self) -> Component {
        match *self {
            AddrPart::Ip4(octets) => Component::Ip4(octets@),
            AddrPart::Ip6(segments) => Component::Ip6(segments@),
            AddrPart::P2p(peer) => Component::P2p(peer@),
            AddrPart::P2pCircuit => Component::P2pCircuit,
            AddrPart::Other(raw) => Component::Other(raw@),
        }
    }
}

/// Views of the given components.
pub open spec fn components(parts: Seq<AddrPart>) -> Seq<Component> {
    parts.map_values(|p: AddrPart| p@)
}

/// An address. Its view is the sequence of its components.
#[derive(Debug)]
pub struct Multiaddr {
    pub parts: Vec<AddrPart>,
}

impl View for Multiaddr {
    type V = Seq<Component>;

    open spec fn view(&self) -> Seq<Component> {
        components(self.parts@)
    }
}

/// Views of the given addresses.
pub open spec fn addr_views(addrs: Seq<Multiaddr>) -> Seq<Seq<Component>> {
    addrs.map_values(|a: Multiaddr| a@)
}

/// What was read from a text: an address, or what is wrong with the text.
pub type Parsed = Result<Multiaddr, libp2p::multiaddr::Error>;

/// View of a [`Parsed`].
pub type ParsedView = Result<Seq<Component>, libp2p::multiaddr::Error>;

/// View of what was read from a text.
pub open spec fn parsed_view(parsed: Parsed) -> ParsedView {
    match parsed {
        Ok(addr) => Ok(addr@),
        Err(e) => Err(e),
    }
}

/// The components that libp2p reads from the text of an address, or its error.
pub uninterp spec fn addr_from_text(text: Seq<char>) -> Result<
    Seq<Component>,
    libp2p::multiaddr::Error,
>;

/// The text that libp2p writes for an address.
pub uninterp spec fn addr_text(addr: Seq<Component>) -> Seq<char>;

/// Whether the text is read as the address.
pub open spec fn reads_as(text: Seq<char>, addr: Seq<Component>) -> bool {
    addr_from_text(text) matches Ok(a) && a == addr
}

/// A component whose text is read back.
pub open spec fn plain_component(c: Component) -> bool {
    match c {
        Component::Other(raw) => reads_back(raw),
        _ => true,
    }
}

/// An address all of whose components are.
pub open spec fn plain_addr(addr: Seq<Component>) -> bool {
    forall|i: int| 0 <= i < addr.len() ==> plain_component(#[trigger] addr[i])
}

/// `<libp2p::Multiaddr as FromStr>::from_str`, handing out what `Multiaddr::iter` walks over.
#[verifier::external_body]
fn outside_parse(text: &str) -> (r: Result<Vec<AddrPart>, libp2p::multiaddr::Error>)
    ensures
        r is Ok == addr_from_text(text@) is Ok,
        r is Ok ==> components(r->Ok_0@) == addr_from_text(text@)->Ok_0,
        r is Err ==> r->Err_0 == addr_from_text(text@)->Err_0,
{
    Ok(text.parse::<OutsideAddr>()?.iter().map(|p| match p {
        Protocol::Ip4(ip) => AddrPart::Ip4(ip.octets()),
        Protocol::Ip6(ip) => AddrPart::Ip6(ip.segments()),
        Protocol::P2p(id) => AddrPart::P2p(PeerId { bytes: id.to_bytes() }),
        Protocol::P2pCircuit => AddrPart::P2pCircuit,
        other => AddrPart::Other(RawPart { bytes: OutsideAddr::from(other).to_vec() }),
    }).collect())
}

/// `<libp2p::Multiaddr as Display>::fmt` on the address that `Multiaddr::from_iter` makes of the
/// components. The text of an address whose components are all read back is read as that address.
#[verifier::external_body]
fn outside_text(parts: &Vec<AddrPart>) -> (r: String)
    ensures
        r@ == addr_text(components(parts@)),
        plain_addr(components(parts@)) ==> reads_as(r@, components(parts@)),
{
    let addr: OutsideAddr = parts.iter().map(|p| match p {
        AddrPart::Ip4(octets) => Protocol::Ip4((*octets).into()),
        AddrPart::Ip6(segments) => Protocol::Ip6((*segments).into()),
        AddrPart::P2p(id) => Protocol::P2p(OutsideId::from_bytes(&id.bytes).expect("a peer id")),
        AddrPart::P2pCircuit => Protocol::P2pCircuit,
        AddrPart::Other(raw) => Protocol::from_bytes(&raw.bytes).expect("a component").0,
    }).collect();
    addr.to_string()
}

/// The peer that the first component naming a peer names.
pub open spec fn peer_of(addr: Seq<Component>) -> Option<Seq<u8>> {
    let k = first_index(addr, |c: Component| c is P2p);
    if k < addr.len() {
        Some(addr[k as int]->P2p_0)
    } else {
        None
    }
}

/// A component that does not speak against the address being reachable from the public internet.
pub open spec fn public_component(c: Component) -> bool {
    match c {
        Component::P2pCircuit => false,
        Component::Ip4(octets) => v4_public(octets),
        Component::Ip6(segments) => v6_public(segments),
        _ => true,
    }
}

/// An address none of whose components speaks against it being public.
pub open spec fn public_addr(addr: Seq<Component>) -> bool {
    forall|i: int| 0 <= i < addr.len() ==> public_component(#[trigger] addr[i])
}

/// An address that goes through a relay.
pub open spec fn relayed_addr(addr: Seq<Component>) -> bool {
    exists|i: int| 0 <= i < addr.len() && #[trigger] addr[i] is P2pCircuit
}

/// The components before the first circuit: the address of the relay, where the address is
/// relayed, and the whole address where it is not.
pub open spec fn relay_part(addr: Seq<Component>) -> Seq<Component> {
    addr.take(first_index(addr, |c: Component| c is P2pCircuit) as int)
}

impl Multiaddr {
    /// The address that this text holds.
    pub fn parse(text: &str) -> (r: Result<Multiaddr, libp2p::multiaddr::Error>)
        ensures
            parsed_view(r) == addr_from_text(text@),
    {
        match outside_parse(text) {
            Ok(parts) => Ok(Multiaddr { parts }),
            Err(e) => Err(e),
        }
    }

    /// The text of this address. From that of a plain address [`Multiaddr::parse`] gives back the
    /// address.
    pub fn text(&self) -> (r: String)
        ensures
            r@ == addr_text(self@),
            plain_addr(self@) ==> reads_as(r@, self@),
    {
        outside_text(&self.parts)
    }

    /// The address with one more component at its end.
    pub fn with(self, part: AddrPart) -> (r: Multiaddr)
        ensures
            r@ == self@.push(part@),
    {
        let mut parts = self.parts;
        let ghost before = parts@;
        parts.push(part);
        assert(components(parts@) =~= components(before).push(part@));
        Multiaddr { parts }
    }

    /// The components before the first circuit.
    pub fn into_relay_part(self) -> (r: Multiaddr)
        ensures
            r@ == relay_part(self@),
    {
        let mut parts = self.parts;
        let mut n: usize = 0;
        while n < parts.len() && !matches!(parts[n], AddrPart::P2pCircuit)
            invariant
                n <= parts.len(),
                forall|i: int| 0 <= i < n ==> !(#[trigger] components(parts@)[i] is P2pCircuit),
            ensures
                n < parts.len() ==> components(parts@)[n as int] is P2pCircuit,
            decreases parts.len() - n,
        {
            n += 1;
        }
        proof {
            lemma_first_index_is(components(parts@), |c: Component| c is P2pCircuit, n as int);
        }
        let ghost before = parts@;
        parts.truncate(n);
        assert(components(parts@) =~= components(before).take(n as int));
        Multiaddr { parts }
    }
}

/// The peer that the address names first.
pub fn peer_id_of(addr: &Multiaddr) -> (r: Option<PeerId>)
    ensures
        r is Some == peer_of(addr@) is Some,
        r is Some ==> r->0@ == peer_of(addr@)->0,
{
    let mut i: usize = 0;
    while i < addr.parts.len()
        invariant
            i <= addr.parts.len(),
            forall|j: int| 0 <= j < i ==> !(#[trigger] addr@[j] is P2p),
        decreases addr.parts.len() - i,
    {
        if let AddrPart::P2p(peer) = &addr.parts[i] {
            proof {
                lemma_first_index_is(addr@, |c: Component| c is P2p, i as int);
            }
            return Some(peer.clone());
        }
        i += 1;
    }
    proof {
        lemma_first_index_is(addr@, |c: Component| c is P2p, i as int);
    }
    None
}

/// A peer and an address that names it.
pub type NamedAddrView = (Seq<u8>, Seq<Component>);

/// Views of the given pairs.
pub open spec fn named_views(named: Seq<(PeerId, Multiaddr)>) -> Seq<NamedAddrView> {
    named.map_values(|c: (PeerId, Multiaddr)| (c.0@, c.1@))
}

/// Of the addresses those that name a peer, in order, each with the peer that it names.
pub open spec fn named_addrs(addrs: Seq<Seq<Component>>) -> Seq<NamedAddrView> {
    addrs.filter(|a: Seq<Component>| peer_of(a) is Some).map_values(
        |a: Seq<Component>| (peer_of(a)->0, a),
    )
}

/// One more address counts if it names a peer.
proof fn lemma_named_addrs_push(addrs: Seq<Seq<Component>>, addr: Seq<Component>)
    ensures
        named_addrs(addrs.push(addr)) == match peer_of(addr) {
            Some(peer) => named_addrs(addrs).push((peer, addr)),
            None => named_addrs(addrs),
        },
{
    reveal(Seq::filter);
    let more = addrs.push(addr);
    assert(more.drop_last() =~= addrs);
    assert(named_addrs(more) =~= match peer_of(addr) {
        Some(peer) => named_addrs(addrs).push((peer, addr)),
        None => named_addrs(addrs),
    });
}

/// Of the addresses those that name a peer, each with the peer that it names.
pub fn name_addrs(addrs: Vec<Multiaddr>) -> (r: VecDeque<(PeerId, Multiaddr)>)
    ensures
        named_views(r@) == named_addrs(addr_views(addrs@)),
{
    let mut named: VecDeque<(PeerId, Multiaddr)> = VecDeque::new();
    let ghost views = addr_views(addrs@);
    assert(named_views(named@) =~= named_addrs(views.take(0))) by {
        reveal(Seq::filter);
    }
    for addr in it: addrs
        invariant
            it.seq() == addrs@,
            views == addr_views(addrs@),
            named_views(named@) == named_addrs(views.take(it.index() as int)),
    {
        let ghost k = it.index() as int;
        let ghost before = named@;
        assert(addr@ == views[k]);
        proof {
            lemma_named_addrs_push(views.take(k), views[k]);
            assert(views.take(k).push(views[k]) =~= views.take(k + 1));
        }
        if let Some(peer) = peer_id_of(&addr) {
            named.push_back((peer, addr));
            assert(named_views(named@) =~= named_views(before).push(
                (peer_of(views[k])->0, views[k]),
            ));
        }
    }
    assert(views.take(views.len() as int) =~= views);
    named
}

/// Heuristic for an address that is probably reachable from the public internet: it goes through
/// no relay, and no IP address in it is loopback, private, link-local or behind a carrier NAT.
pub fn is_public(addr: &Multiaddr) -> (r: bool)
    ensures
        r == public_addr(addr@),
{
    let mut i: usize = 0;
    while i < addr.parts.len()
        invariant
            i <= addr.parts.len(),
            forall|j: int| 0 <= j < i ==> public_component(#[trigger] addr@[j]),
        decreases addr.parts.len() - i,
    {
        let public = match &addr.parts[i] {
            AddrPart::P2pCircuit => false,
            AddrPart::Ip4(octets) => is_public_v4(octets),
            AddrPart::Ip6(segments) => is_public_v6(segments),
            _ => true,
        };
        if !public {
            assert(!public_component(addr@[i as int]));
            return false;
        }
        i += 1;
    }
    true
}

/// The two ends of a connection as one side sees it.
#[derive(Debug)]
pub enum ConnectedPoint {
    /// This side dialed the address.
    Dialer { address: Multiaddr },
    /// This side was dialed; the address is the one to send back to.
    Listener { send_back_addr: Multiaddr },
}

impl ConnectedPoint {
    /// The address of the other side.
    pub open spec fn remote(self) -> Seq<Component> {
        match self {
            ConnectedPoint::Dialer { address } => address@,
            ConnectedPoint::Listener { send_back_addr } => send_back_addr@,
        }
    }
}

/// Whether the connection goes through a relay.
pub fn is_relayed(ep: &ConnectedPoint) -> (r: bool)
    ensures
        r == relayed_addr(ep.remote()),
{
    let addr = match ep {
        ConnectedPoint::Dialer { address } => address,
        ConnectedPoint::Listener { send_back_addr } => send_back_addr,
    };
    let mut i: usize = 0;
    while i < addr.parts.len()
        invariant
            i <= addr.parts.len(),
            addr@ == ep.remote(),
            forall|j: int| 0 <= j < i ==> !(#[trigger] addr@[j] is P2pCircuit),
        decreases addr.parts.len() - i,
    {
        if matches!(addr.parts[i], AddrPart::P2pCircuit) {
            assert(addr@[i as int] is P2pCircuit);
            return true;
        }
        i += 1;
    }
    false
}

/// An address through a relay is never taken for a public one.
pub proof fn law_relayed_is_not_public(addr: Seq<Component>)
    ensures
        relayed_addr(addr) ==> !public_addr(addr),
{
    if relayed_addr(addr) {
        let i = choose|i: int| 0 <= i < addr.len() && #[trigger] addr[i] is P2pCircuit;
        assert(!public_component(addr[i]));
    }
}

/// The relay part of an address is the longest beginning of it that goes through no relay: it is
/// the whole address where that is not relayed, and else a circuit follows it.
pub proof fn law_relay_part_ends_at_the_circuit(addr: Seq<Component>)
    ensures
        !relayed_addr(relay_part(addr)),
        relay_part(addr).len() <= addr.len(),
        relay_part(addr) == addr.take(relay_part(addr).len() as int),
        !relayed_addr(addr) ==> relay_part(addr) == addr,
        relayed_addr(addr) ==> relay_part(addr).len() < addr.len()
            && addr[relay_part(addr).len() as int] is P2pCircuit,
{
    let p = |c: Component| c is P2pCircuit;
    lemma_first_index(addr, p);
    let k = first_index(addr, p) as int;
    assert forall|i: int| 0 <= i < relay_part(addr).len() implies !(#[trigger] relay_part(
        addr,
    )[i] is P2pCircuit) by {
        assert(!p(addr[i]));
    }
    if k < addr.len() {
        assert(p(addr[k]));
    } else {
        assert(relay_part(addr) =~= addr);
    }
}

/// The relay part of a circuit address is the address of the relay that the circuit was asked
/// for, whatever follows the circuit.
pub proof fn law_circuit_leads_back_to_its_relay(relay: Seq<Component>, rest: Seq<Component>)
    requires
        !relayed_addr(relay),
    ensures
        relay_part(relay.push(Component::P2pCircuit) + rest) == relay,
{
    let addr = relay.push(Component::P2pCircuit) + rest;
    assert forall|i: int| 0 <= i < relay.len() implies !(#[trigger] addr[i] is P2pCircuit) by {
        assert(addr[i] == relay[i]);
    }
    lemma_first_index_is(addr, |c: Component| c is P2pCircuit, relay.len() as int);
    assert(relay_part(addr) =~= relay);
}

/// An address that named no peer names the peer appended to it; one that named a peer still names
/// the same.
pub proof fn law_appended_peer_is_named(addr: Seq<Component>, peer: Seq<u8>)
    ensures
        peer_of(addr) is None ==> peer_of(addr.push(Component::P2p(peer))) == Some(peer),
        peer_of(addr) is Some ==> peer_of(addr.push(Component::P2p(peer))) == peer_of(addr),
{
    let p = |c: Component| c is P2p;
    let longer = addr.push(Component::P2p(peer));
    lemma_first_index(addr, p);
    let k = first_index(addr, p) as int;
    assert forall|i: int| 0 <= i < k implies !p(#[trigger] longer[i]) by {
        assert(longer[i] == addr[i]);
    }
    if k < addr.len() {
        assert(longer[k] == addr[k]);
    }
    lemma_first_index_is(longer, p, k);
}

/// The code of a raw form is its first byte where that is below 128, and else takes seven bits of
/// each of its first two bytes.
pub proof fn law_code_takes_seven_bits_of_a_byte(raw: Seq<u8>)
    requires
        raw.len() >= 2,
    ensures
        raw[0] < 128 ==> code(raw) == raw[0],
        raw[0] >= 128 ==> code(raw) % 128 == raw[0] % 128 && code(raw) / 128 == raw[1],
{
}

/// An address names a peer exactly if some component does, and it is the one that the first such
/// component names.
pub proof fn law_first_peer_is_named(addr: Seq<Component>, i: int)
    requires
        0 <= i < addr.len(),
    ensures
        addr[i] matches Component::P2p(peer) ==> {
            &&& peer_of(addr) is Some
            &&& (forall|j: int| 0 <= j < i ==> !(#[trigger] addr[j] is P2p)) ==> peer_of(addr)
                == Some(peer)
        },
        peer_of(addr) matches Some(peer) ==> addr.contains(Component::P2p(peer)),
{
    let p = |c: Component| c is P2p;
    lemma_first_index(addr, p);
    let k = first_index(addr, p) as int;
    if addr[i] is P2p {
        assert(p(addr[i]));
        if forall|j: int| 0 <= j < i ==> !(#[trigger] addr[j] is P2p) {
            lemma_first_index_is(addr, p, i);
        }
    }
    if k < addr.len() {
        assert(p(addr[k]));
        assert(addr[k] == Component::P2p(addr[k]->P2p_0));
    }
}

/// An address that holds no peer names none.
pub proof fn law_no_peer_no_name(addr: Seq<Component>)
    requires
        forall|i: int| 0 <= i < addr.len() ==> !(#[trigger] addr[i] is P2p),
    ensures
        peer_of(addr) is None,
{
    lemma_first_index(addr, |c: Component| c is P2p);
}

/// An address goes through a relay exactly if it holds a circuit.
pub proof fn law_relayed_means_a_circuit(addr: Seq<Component>)
    ensures
        relayed_addr(addr) <==> addr.contains(Component::P2pCircuit),
{
    if relayed_addr(addr) {
        let i = choose|i: int| 0 <= i < addr.len() && #[trigger] addr[i] is P2pCircuit;
        assert(addr[i] == Component::P2pCircuit);
    }
}

/// Whether an address is public is told by its components one by one: the parts of an address
/// must both be public.
pub proof fn law_public_in_all_parts(a: Seq<Component>, b: Seq<Component>)
    ensures
        public_addr(Seq::empty()),
        public_addr(a + b) <==> public_addr(a) && public_addr(b),
{
    let c = a + b;
    if public_addr(c) {
        assert forall|i: int| 0 <= i < a.len() implies public_component(#[trigger] a[i]) by {
            assert(c[i] == a[i]);
        }
        assert forall|i: int| 0 <= i < b.len() implies public_component(#[trigger] b[i]) by {
            assert(c[a.len() + i] == b[i]);
        }
    }
}

/// Of single components a circuit is not public, an IP address is as its ranges say, and every
/// other component is.
pub proof fn law_public_component(c: Component)
    ensures
        public_addr(seq![c]) <==> {
            &&& c != Component::P2pCircuit
            &&& c matches Component::Ip4(octets) ==> v4_public(octets)
            &&& c matches Component::Ip6(segments) ==> v6_public(segments)
        },
{
    assert(seq![c][0] == c);
}

/// Which addresses name a peer is told of each by itself, and their order stays: those of two
/// lists are those of the first, then those of the second.
pub proof fn law_named_one_by_one(a: Seq<Seq<Component>>, b: Seq<Seq<Component>>)
    ensures
        named_addrs(a + b) == named_addrs(a) + named_addrs(b),
    decreases b.len(),
{
    if b.len() == 0 {
        assert(a + b =~= a);
        assert(named_addrs(b) =~= Seq::empty()) by {
            reveal(Seq::filter);
        }
        assert(named_addrs(a) + named_addrs(b) =~= named_addrs(a));
    } else {
        let front = b.drop_last();
        law_named_one_by_one(a, front);
        lemma_named_addrs_push(a + front, b.last());
        lemma_named_addrs_push(front, b.last());
        assert((a + front).push(b.last()) =~= a + b);
        assert(front.push(b.last()) =~= b);
        assert(named_addrs(a + b) =~= named_addrs(a) + named_addrs(b));
    }
}

/// A single address is kept with the peer that it names, and passed over where it names none.
pub proof fn law_named_alone(addr: Seq<Component>)
    ensures
        peer_of(addr) matches Some(peer) ==> named_addrs(seq![addr]) == seq![(peer, addr)],
        peer_of(addr) is None ==> named_addrs(seq![addr]) == Seq::<NamedAddrView>::empty(),
{
    let none = Seq::<Seq<Component>>::empty();
    assert(named_addrs(none) =~= Seq::empty()) by {
        reveal(Seq::filter);
    }
    lemma_named_addrs_push(none, addr);
    assert(none.push(addr) =~= seq![addr]);
    if let Some(peer) = peer_of(addr) {
        assert(named_addrs(none).push((peer, addr)) =~= seq![(peer, addr)]);
    }
}

/// Of raw forms, whose code is written in as few bytes as can be, those of `ip4` and `ip6` begin
/// with 4 and 41, and those of `p2p` and `p2p-circuit` with a5 03 and a2 02 in hexadecimal. No
/// others have a variant of their own.
pub proof fn law_kinds_with_a_variant(raw: Seq<u8>)
    requires
        raw.len() >= 2,
        raw[0] >= 128 ==> 0 < raw[1] < 128,
    ensures
        has_variant(code(raw)) <==> {
            ||| raw[0] == 4
            ||| raw[0] == 41
            ||| raw[0] == 0xa5 && raw[1] == 0x03
            ||| raw[0] == 0xa2 && raw[1] == 0x02
        },
{
}

/// A component is seen as what it is, with all that it holds, and a component of another kind as
/// its raw form.
pub proof fn law_components_are_seen_whole(part: AddrPart)
    ensures
        match part {
            AddrPart::Ip4(octets) => part@ matches Component::Ip4(o) && o == octets@,
            AddrPart::Ip6(segments) => part@ matches Component::Ip6(g) && g == segments@,
            AddrPart::P2p(peer) => part@ matches Component::P2p(p) && p == peer@,
            AddrPart::P2pCircuit => part@ is P2pCircuit,
            AddrPart::Other(raw) => part@ matches Component::Other(r) && r == raw@,
        },
{
}

/// Lists are seen whole and in order: an address component by component, addresses and named
/// addresses one by one.
pub proof fn law_addresses_are_seen_whole(
    addr: Multiaddr,
    addrs: Seq<Multiaddr>,
    named: Seq<(PeerId, Multiaddr)>,
)
    ensures
        addr@.len() == addr.parts@.len(),
        forall|i: int| 0 <= i < addr@.len() ==> #[trigger] addr@[i] == addr.parts@[i]@,
        addr_views(addrs).len() == addrs.len(),
        forall|i: int| 0 <= i < addrs.len() ==> #[trigger] addr_views(addrs)[i] == addrs[i]@,
        named_views(named).len() == named.len(),
        forall|i: int|
            0 <= i < named.len() ==> #[trigger] named_views(named)[i] == (
                named[i].0@,
                named[i].1@,
            ),
{
}

/// What was read from a text is seen as the address, or as the error.
pub proof fn law_what_was_read_is_seen(parsed: Parsed)
    ensures
        match parsed {
            Ok(addr) => parsed_view(parsed) matches Ok(a) && a == addr@,
            Err(e) => parsed_view(parsed) matches Err(f) && f == e,
        },
{
}

/// The other end of a connection is the address that was dialed, or the one to send back to.
pub proof fn law_other_end_of_a_connection(address: Multiaddr)
    ensures
        (ConnectedPoint::Dialer { address }).remote() == address@,
        (ConnectedPoint::Listener { send_back_addr: address }).remote() == address@,
{
}

} // verus!
