//! The listener's search for a relay that grants it a reservation.
use crate::clock::{earlier_of, time_left, SECOND};
use crate::event::{speaks_hop, NetEvent};
use crate::multiaddr::{is_public, name_addrs, AddrPart, Multiaddr};
use crate::peer::{PeerId, PeerSet};
use crate::rendezvous::Rendezvous;
use crate::text::decimal_text;
use crate::watch::DialerWatch;
use std::collections::VecDeque;
use vstd::prelude::*;

verus! {

use crate::clock::{earlier, left, MAX_ELAPSED};
use crate::event::{hop_protocol, NetEventView};
use crate::multiaddr::{
    addr_views,
    named_addrs,
    named_views,
    plain_addr,
    public_addr,
    Component,
    NamedAddrView,
};
use crate::rendezvous::{rendezvous_of, tells};
use crate::seqs::{first_index, lemma_first_index_is};
use crate::text::decimal;
use crate::watch::WatchView;

/// Time between the end of one random walk through the DHT and the start of the next.
pub const WALK_PERIOD: u128 = 5_000_000_000;

/// Where in its round the search stands.
#[derive(Debug)]
enum Turn {
    /// A new round begins.
    Walk,
    /// A random walk was asked for.
    WalkRequested,
    /// Candidates may be tried.
    Reserve,
    /// A reservation on this peer was asked for.
    ReserveRequested(PeerId),
    /// Nothing more to start in this round.
    Check,
    /// The network was asked for its next event.
    Waiting,
}

/// View of the place in the round.
pub enum TurnView {
    Walk,
    WalkRequested,
    Reserve,
    ReserveRequested(Seq<u8>),
    Check,
    Waiting,
}

impl View for Turn {
    type V = TurnView;

    closed spec fn view(&self) -> TurnView {
        match *self {
            Turn::Walk => TurnView::Walk,
            Turn::WalkRequested => TurnView::WalkRequested,
            Turn::Reserve => TurnView::Reserve,
            Turn::ReserveRequested(peer) => TurnView::ReserveRequested(peer@),
            Turn::Check => TurnView::Check,
            Turn::Waiting => TurnView::Waiting,
        }
    }
}

/// What the caller reports to a search.
#[derive(Debug)]
pub enum DiscoveryInput {
    /// What was asked for is done, or its time is over, or a reservation could not be asked for.
    Done,
    /// The reservation was asked for; the listener with this number waits for it.
    Listening { listener: u64 },
    /// The network reported an event.
    Event(NetEvent),
}

/// View of a [`DiscoveryInput`].
pub enum DiscoveryInputView {
    Done,
    Listening { listener: u64 },
    Event(NetEventView),
}

impl View for DiscoveryInput {
    type V = DiscoveryInputView;

    open spec fn view(&self) -> DiscoveryInputView {
        match *self {
            DiscoveryInput::Done => DiscoveryInputView::Done,
            DiscoveryInput::Listening { listener } => DiscoveryInputView::Listening { listener },
            DiscoveryInput::Event(event) => DiscoveryInputView::Event(event@),
        }
    }
}

/// What a search asks its caller to do.
#[derive(Debug)]
pub enum DiscoveryAction {
    /// Look up the peers closest to a random key in the DHT.
    StartWalk,
    /// Listen on the address, which asks the peer for a reservation.
    Reserve { peer: PeerId, addr: Multiaddr },
    /// Note the address as one under which this side can be reached.
    AddExternalAddress { addr: Multiaddr },
    /// Close the listener.
    RemoveListener { listener: u64 },
    /// Wait for the next event, at most for the given time.
    Wait { limit: u128 },
    /// Stop: a reservation was granted.
    Publish,
    /// Stop: no reservation was granted within the given seconds, from as many peers as given.
    GiveUp { seconds: u64, tried: usize },
    /// Stop: no reservation was granted before the run has to end.
    TimedOut,
}

/// View of a [`DiscoveryAction`].
pub enum DiscoveryActionView {
    StartWalk,
    Reserve { peer: Seq<u8>, addr: Seq<Component> },
    AddExternalAddress { addr: Seq<Component> },
    RemoveListener { listener: u64 },
    Wait { limit: u128 },
    Publish,
    GiveUp { seconds: u64, tried: nat },
    TimedOut,
}

impl View for DiscoveryAction {
    type V = DiscoveryActionView;

    open spec fn view(&self) -> DiscoveryActionView {
        match *self {
            DiscoveryAction::StartWalk => DiscoveryActionView::StartWalk,
            DiscoveryAction::Reserve { peer, addr } => DiscoveryActionView::Reserve {
                peer: peer@,
                addr: addr@,
            },
            DiscoveryAction::AddExternalAddress { addr } => {
                DiscoveryActionView::AddExternalAddress { addr: addr@ }
            },
            DiscoveryAction::RemoveListener { listener } => DiscoveryActionView::RemoveListener {
                listener,
            },
            DiscoveryAction::Wait { limit } => DiscoveryActionView::Wait { limit },
            DiscoveryAction::Publish => DiscoveryActionView::Publish,
            DiscoveryAction::GiveUp { seconds, tried } => DiscoveryActionView::GiveUp {
                seconds,
                tried: tried as nat,
            },
            DiscoveryAction::TimedOut => DiscoveryActionView::TimedOut,
        }
    }
}

/// View of an action that may be absent.
pub open spec fn action_view(action: Option<DiscoveryAction>) -> Option<DiscoveryActionView> {
    match action {
        Some(a) => Some(a@),
        None => None,
    }
}

/// View of a [`Discovery`].
#[verifier::ext_equal]
pub struct DiscoveryView {
    /// Candidates not asked yet, the next one first.
    pub candidates: Seq<NamedAddrView>,
    /// Peers that were asked.
    pub tried: Set<Seq<u8>>,
    /// The reservation in flight: whom it was asked from and the listener that waits for it.
    pub active: Option<(Seq<u8>, u64)>,
    /// Addresses granted.
    pub accepted: Seq<Seq<Component>>,
    /// Peers that never serve as relays.
    pub bootstrap: Set<Seq<u8>>,
    /// Whether candidates are looked for in the DHT.
    pub use_dht: bool,
    /// Seconds after which the search gives up.
    pub seconds: u64,
    /// When the search gives up.
    pub give_up_at: u128,
    /// When the run has to end.
    pub deadline: u128,
    /// When the next walk is due.
    pub next_walk: u128,
    /// Where in its round the search stands.
    pub turn: TurnView,
}

/// The state in which a search starts.
pub open spec fn discovery_start(
    relays: Seq<Seq<Component>>,
    bootstrap: Set<Seq<u8>>,
    seconds: u64,
    deadline: u128,
    now: u128,
) -> DiscoveryView {
    DiscoveryView {
        candidates: named_addrs(relays),
        tried: Set::empty(),
        active: None,
        accepted: Seq::empty(),
        bootstrap,
        use_dht: relays.len() == 0,
        seconds,
        give_up_at: (now + seconds * SECOND) as u128,
        deadline,
        next_walk: now,
        turn: TurnView::Walk,
    }
}

/// The address to reach a peer at, of those that it listens on: the first public one, or the
/// first of all where none is public.
pub open spec fn preferred(addrs: Seq<Seq<Component>>) -> Seq<Component> {
    let k = first_index(addrs, |a: Seq<Component>| public_addr(a));
    if k < addrs.len() {
        addrs[k as int]
    } else {
        addrs[0]
    }
}

/// Whether a peer that told what it is becomes a candidate.
pub open spec fn is_candidate(
    s: DiscoveryView,
    peer: Seq<u8>,
    protocols: Seq<Seq<char>>,
    listen_addrs: Seq<Seq<Component>>,
) -> bool {
    &&& s.use_dht
    &&& !s.bootstrap.contains(peer)
    &&& !s.tried.contains(peer)
    &&& protocols.contains(hop_protocol())
    &&& listen_addrs.len() > 0
}

/// The peer that the reservation in flight was asked from.
pub open spec fn active_peer(s: DiscoveryView) -> Option<Seq<u8>> {
    match s.active {
        Some((peer, _)) => Some(peer),
        None => None,
    }
}

/// The listener that waits for the reservation in flight.
pub open spec fn active_listener(s: DiscoveryView) -> Option<u64> {
    match s.active {
        Some((_, listener)) => Some(listener),
        None => None,
    }
}

/// What an event changes, and what it makes the search ask for at once.
pub open spec fn react(s: DiscoveryView, event: NetEventView) -> (
    DiscoveryView,
    Option<DiscoveryActionView>,
) {
    match event {
        NetEventView::Identified { peer, observed, protocols, listen_addrs } => {
            let candidates = if is_candidate(s, peer, protocols, listen_addrs) {
                s.candidates.push((peer, preferred(listen_addrs).push(Component::P2p(peer))))
            } else {
                s.candidates
            };
            (
                DiscoveryView { candidates, ..s },
                Some(DiscoveryActionView::AddExternalAddress { addr: observed }),
            )
        },
        NetEventView::NewListenAddr { listener, addr } if active_listener(s) == Some(listener) => (
            DiscoveryView { accepted: s.accepted.push(addr), ..s },
            None,
        ),
        NetEventView::ListenerClosed { listener } if active_listener(s) == Some(listener) => (
            DiscoveryView { active: None, ..s },
            None,
        ),
        NetEventView::DialFailed { target: Some(peer) } if active_peer(s) == Some(peer) => (
            DiscoveryView { active: None, ..s },
            Some(DiscoveryActionView::RemoveListener { listener: active_listener(s)->0 }),
        ),
        _ => (s, None),
    }
}

/// What a report changes, and what it makes the search ask for at once.
pub open spec fn absorb(s: DiscoveryView, input: DiscoveryInputView, now: u128) -> (
    DiscoveryView,
    Option<DiscoveryActionView>,
) {
    match (s.turn, input) {
        (TurnView::WalkRequested, _) => (
            DiscoveryView {
                next_walk: (now + WALK_PERIOD) as u128,
                turn: TurnView::Reserve,
                ..s
            },
            None,
        ),
        (TurnView::ReserveRequested(peer), DiscoveryInputView::Listening { listener }) => (
            DiscoveryView { active: Some((peer, listener)), turn: TurnView::Check, ..s },
            None,
        ),
        (TurnView::ReserveRequested(_), _) => (
            DiscoveryView { turn: TurnView::Reserve, ..s },
            None,
        ),
        (TurnView::Waiting, DiscoveryInputView::Event(event)) => react(
            DiscoveryView { turn: TurnView::Walk, ..s },
            event,
        ),
        (TurnView::Waiting, _) => (DiscoveryView { turn: TurnView::Walk, ..s }, None),
        _ => (s, None),
    }
}

/// Whether the search may ask a candidate now.
pub open spec fn may_reserve(s: DiscoveryView) -> bool {
    (s.turn is Walk || s.turn is Reserve) && s.active is None
}

/// Position of the first candidate that was not tried.
pub open spec fn next_untried(s: DiscoveryView) -> nat {
    first_index(s.candidates, |c: NamedAddrView| !s.tried.contains(c.0))
}

/// Whether the search gives up, if nothing is granted: its seconds are over. Given relays are
/// still waited for while one of them may answer.
pub open spec fn gives_up(s: DiscoveryView, now: u128) -> bool {
    &&& s.give_up_at <= now
    &&& s.use_dht || (s.active is None && next_untried(s) >= s.candidates.len())
}

/// Until when a search waits for the next event: the deadline, and with the DHT also the next walk
/// and the moment to give up.
pub open spec fn wake_at(s: DiscoveryView) -> u128 {
    if s.use_dht {
        earlier(s.deadline, earlier(s.give_up_at, s.next_walk))
    } else {
        s.deadline
    }
}

/// What a search asks for when it stands in state `s`. While nothing is granted it stops once it
/// gives up or its deadline is reached. Else it asks for a walk that is due, else for a reservation
/// from the first candidate not tried, else to publish what was granted, or to wait. Candidates
/// that were tried before are dropped on the way.
pub open spec fn decide(s: DiscoveryView, now: u128) -> (DiscoveryView, DiscoveryActionView) {
    let k = next_untried(s) as int;
    if s.accepted.len() == 0 && gives_up(s, now) {
        (s, DiscoveryActionView::GiveUp { seconds: s.seconds, tried: s.tried.len() })
    } else if s.accepted.len() == 0 && s.deadline <= now {
        (s, DiscoveryActionView::TimedOut)
    } else if s.turn is Walk && s.use_dht && s.next_walk <= now {
        (DiscoveryView { turn: TurnView::WalkRequested, ..s }, DiscoveryActionView::StartWalk)
    } else if may_reserve(s) && k < s.candidates.len() {
        let (peer, addr) = s.candidates[k];
        (
            DiscoveryView {
                candidates: s.candidates.skip(k + 1),
                tried: s.tried.insert(peer),
                turn: TurnView::ReserveRequested(peer),
                ..s
            },
            DiscoveryActionView::Reserve { peer, addr: addr.push(Component::P2pCircuit) },
        )
    } else {
        let candidates = if may_reserve(s) {
            Seq::empty()
        } else {
            s.candidates
        };
        if s.accepted.len() > 0 {
            (
                DiscoveryView { candidates, turn: TurnView::Check, ..s },
                DiscoveryActionView::Publish,
            )
        } else {
            (
                DiscoveryView { candidates, turn: TurnView::Waiting, ..s },
                DiscoveryActionView::Wait { limit: left(wake_at(s), now) },
            )
        }
    }
}

/// One step of a search: it takes a report in, and asks for the next thing to do.
pub open spec fn discovery_step(s: DiscoveryView, input: DiscoveryInputView, now: u128) -> (
    DiscoveryView,
    DiscoveryActionView,
) {
    let (t, at_once) = absorb(s, input, now);
    match at_once {
        Some(action) => (t, action),
        None => decide(t, now),
    }
}

/// The search for a relay. The caller hands every report to [`Discovery::step`] and does what
/// that asks for, until it asks to publish or to stop.
#[derive(Debug)]
pub struct Discovery {
    candidates: VecDeque<(PeerId, Multiaddr)>,
    tried: PeerSet,
    active: Option<(PeerId, u64)>,
    accepted: Vec<Multiaddr>,
    bootstrap: PeerSet,
    use_dht: bool,
    seconds: u64,
    give_up_at: u128,
    deadline: u128,
    next_walk: u128,
    turn: Turn,
}

impl View for Discovery {
    type V = DiscoveryView;

    closed spec fn view(&self) -> DiscoveryView {
        DiscoveryView {
            candidates: named_views(self.candidates@),
            tried: self.tried@,
            active: match self.active {
                Some((peer, listener)) => Some((peer@, listener)),
                None => None,
            },
            accepted: addr_views(self.accepted@),
            bootstrap: self.bootstrap@,
            use_dht: self.use_dht,
            seconds: self.seconds,
            give_up_at: self.give_up_at,
            deadline: self.deadline,
            next_walk: self.next_walk,
            turn: self.turn@,
        }
    }
}

/// Of the addresses that a peer listens on, the one to reach it at.
pub fn preferred_addr(listen_addrs: Vec<Multiaddr>) -> (r: Option<Multiaddr>)
    ensures
        r is Some == (listen_addrs@.len() > 0),
        r is Some ==> r->0@ == preferred(addr_views(listen_addrs@)),
{
    let mut addrs = listen_addrs;
    if addrs.len() == 0 {
        return None;
    }
    let ghost views = addr_views(addrs@);
    let ghost public = |a: Seq<Component>| public_addr(a);
    let mut k: usize = 0;
    while k < addrs.len() && !is_public(&addrs[k])
        invariant
            k <= addrs.len(),
            views == addr_views(addrs@),
            public == (|a: Seq<Component>| public_addr(a)),
            forall|i: int| 0 <= i < k ==> !public(#[trigger] views[i]),
        ensures
            k < addrs.len() ==> public(views[k as int]),
        decreases addrs.len() - k,
    {
        k += 1;
    }
    proof {
        lemma_first_index_is(views, public, k as int);
    }
    if k == addrs.len() {
        k = 0;
    }
    assert(addrs@[k as int]@ == views[k as int]);
    Some(addrs.swap_remove(k))
}

impl Discovery {
    /// Starts a search in a run that has to end at the deadline. In the DHT it gives up after the
    /// given seconds. Given relays are asked in their order, and then the DHT is not used; one
    /// whose address names no peer is passed over.
    pub fn new(
        explicit_relays: Vec<Multiaddr>,
        bootstrap_peers: PeerSet,
        discovery_secs: u64,
        deadline: u128,
        now: u128,
    ) -> (r: Discovery)
        requires
            now <= MAX_ELAPSED,
        ensures
            r@ == discovery_start(
                addr_views(explicit_relays@),
                bootstrap_peers@,
                discovery_secs,
                deadline,
                now,
            ),
    {
        let use_dht = explicit_relays.len() == 0;
        let candidates = name_addrs(explicit_relays);
        let accepted: Vec<Multiaddr> = Vec::new();
        assert(addr_views(accepted@) =~= Seq::empty());
        Discovery {
            candidates,
            tried: PeerSet::new(),
            active: None,
            accepted,
            bootstrap: bootstrap_peers,
            use_dht,
            seconds: discovery_secs,
            give_up_at: now + discovery_secs as u128 * SECOND,
            deadline,
            next_walk: now,
            turn: Turn::Walk,
        }
    }

    /// What the dialer has to know to reach the peer with this id, which runs the search.
    pub fn rendezvous(&self, local_peer_id: &PeerId) -> (r: Rendezvous)
        ensures
            r@ == rendezvous_of(local_peer_id@, self@.accepted),
            self@.accepted.all(|a: Seq<Component>| plain_addr(a)) ==> tells(
                r@,
                local_peer_id@,
                self@.accepted,
            ),
    {
        Rendezvous::new(local_peer_id, &self.accepted)
    }

    /// Ends the search and waits for the dialer, until the same deadline.
    pub fn into_watch(self) -> (r: DialerWatch)
        ensures
            r@ == (WatchView {
                dialers: Set::empty(),
                bootstrap: self@.bootstrap,
                deadline: self@.deadline,
            }),
    {
        DialerWatch::new(self.bootstrap, self.deadline)
    }

    /// Takes an event in.
    fn react(&mut self, event: NetEvent) -> (r: Option<DiscoveryAction>)
        ensures
            (final(self)@, action_view(r)) == react(old(self)@, event@),
    {
        match event {
            NetEvent::Identified { peer, observed, protocols, listen_addrs } => {
                if self.use_dht && !self.bootstrap.contains(&peer) && !self.tried.contains(&peer)
                    && speaks_hop(&protocols) {
                    if let Some(addr) = preferred_addr(listen_addrs) {
                        let addr = addr.with(AddrPart::P2p(peer.clone()));
                        let ghost before = self.candidates@;
                        self.candidates.push_back((peer, addr));
                        assert(named_views(self.candidates@) =~= named_views(before).push(
                            (peer@, addr@),
                        ));
                    }
                }
                Some(DiscoveryAction::AddExternalAddress { addr: observed })
            },
            NetEvent::NewListenAddr { listener, addr } => {
                if self.waits_on(listener) {
                    let ghost before = self.accepted@;
                    self.accepted.push(addr);
                    assert(addr_views(self.accepted@) =~= addr_views(before).push(addr@));
                }
                None
            },
            NetEvent::ListenerClosed { listener } => {
                if self.waits_on(listener) {
                    self.active = None;
                }
                None
            },
            NetEvent::DialFailed { target: Some(peer) } => {
                match self.active.take() {
                    Some((asked, listener)) => {
                        if asked == peer {
                            return Some(DiscoveryAction::RemoveListener { listener });
                        }
                        self.active = Some((asked, listener));
                    },
                    None => {},
                }
                None
            },
            _ => None,
        }
    }

    /// Whether the listener waits for the reservation in flight.
    fn waits_on(&self, listener: u64) -> (r: bool)
        ensures
            r == (active_listener(self@) == Some(listener)),
    {
        match &self.active {
            Some((_, l)) => *l == listener,
            None => false,
        }
    }

    /// Takes a report in.
    fn absorb(&mut self, input: DiscoveryInput, now: u128) -> (r: Option<DiscoveryAction>)
        requires
            now <= MAX_ELAPSED,
        ensures
            (final(self)@, action_view(r)) == absorb(old(self)@, input@, now),
    {
        let mut turn = Turn::Check;
        std::mem::swap(&mut turn, &mut self.turn);
        match turn {
            Turn::WalkRequested => {
                self.next_walk = now + WALK_PERIOD;
                self.turn = Turn::Reserve;
                None
            },
            Turn::ReserveRequested(peer) => {
                match input {
                    DiscoveryInput::Listening { listener } => {
                        self.active = Some((peer, listener));
                        self.turn = Turn::Check;
                    },
                    _ => {
                        self.turn = Turn::Reserve;
                    },
                }
                None
            },
            Turn::Waiting => {
                self.turn = Turn::Walk;
                match input {
                    DiscoveryInput::Event(event) => self.react(event),
                    _ => None,
                }
            },
            other => {
                self.turn = other;
                None
            },
        }
    }

    /// Says what to do next.
    fn decide(&mut self, now: u128) -> (r: DiscoveryAction)
        ensures
            (final(self)@, r@) == decide(old(self)@, now),
    {
        if self.accepted.len() == 0 {
            if self.give_up_at <= now && (self.use_dht || (self.active.is_none()
                && !self.any_untried())) {
                return DiscoveryAction::GiveUp { seconds: self.seconds, tried: self.tried.len() };
            }
            if self.deadline <= now {
                return DiscoveryAction::TimedOut;
            }
        }
        if matches!(self.turn, Turn::Walk) && self.use_dht && self.next_walk <= now {
            self.turn = Turn::WalkRequested;
            return DiscoveryAction::StartWalk;
        }
        if matches!(self.turn, Turn::Walk | Turn::Reserve) && self.active.is_none() {
            if let Some((peer, addr)) = self.take_untried() {
                self.turn = Turn::ReserveRequested(peer.clone());
                return DiscoveryAction::Reserve { peer, addr: addr.with(AddrPart::P2pCircuit) };
            }
        }
        if self.accepted.len() > 0 {
            self.turn = Turn::Check;
            return DiscoveryAction::Publish;
        }
        self.turn = Turn::Waiting;
        let moment = if self.use_dht {
            earlier_of(self.deadline, earlier_of(self.give_up_at, self.next_walk))
        } else {
            self.deadline
        };
        DiscoveryAction::Wait { limit: time_left(moment, now) }
    }

    /// Whether a candidate is left that was not tried.
    fn any_untried(&self) -> (r: bool)
        ensures
            r == (next_untried(self@) < self@.candidates.len()),
    {
        let ghost s = self@;
        let ghost untried = |c: NamedAddrView| !s.tried.contains(c.0);
        let mut k: usize = 0;
        while k < self.candidates.len() && self.tried.contains(&self.candidates[k].0)
            invariant
                s == self@,
                k <= self.candidates@.len(),
                untried == (|c: NamedAddrView| !s.tried.contains(c.0)),
                forall|i: int| 0 <= i < k ==> !untried(#[trigger] s.candidates[i]),
            ensures
                k < self.candidates@.len() ==> untried(s.candidates[k as int]),
            decreases self.candidates@.len() - k,
        {
            assert(s.candidates[k as int].0 == self.candidates@[k as int].0@);
            k += 1;
        }
        proof {
            lemma_first_index_is(s.candidates, untried, k as int);
        }
        k < self.candidates.len()
    }

    /// Takes a report in and says what to do next. The first report is
    /// [`DiscoveryInput::Done`].
    pub fn step(&mut self, input: DiscoveryInput, now: u128) -> (r: DiscoveryAction)
        requires
            now <= MAX_ELAPSED,
        ensures
            (final(self)@, r@) == discovery_step(old(self)@, input@, now),
    {
        match self.absorb(input, now) {
            Some(action) => action,
            None => self.decide(now),
        }
    }

    /// Takes the next candidate that was not tried from the queue, and counts it as tried.
    fn take_untried(&mut self) -> (r: Option<(PeerId, Multiaddr)>)
        ensures
            ({
                let s = old(self)@;
                let k = next_untried(s) as int;
                if k < s.candidates.len() {
                    &&& r is Some
                    &&& ((r->0).0@, (r->0).1@) == s.candidates[k]
                    &&& final(self)@ == (DiscoveryView {
                        candidates: s.candidates.skip(k + 1),
                        tried: s.tried.insert(s.candidates[k].0),
                        ..s
                    })
                } else {
                    &&& r is None
                    &&& final(self)@ == (DiscoveryView { candidates: Seq::empty(), ..s })
                }
            }),
    {
        let ghost s = self@;
        let ghost untried = |c: NamedAddrView| !s.tried.contains(c.0);
        let ghost mut k: int = 0;
        assert(s.candidates.skip(0) =~= s.candidates);
        loop
            invariant
                s == old(self)@,
                0 <= k <= s.candidates.len(),
                untried == (|c: NamedAddrView| !s.tried.contains(c.0)),
                self@ == (DiscoveryView { candidates: s.candidates.skip(k), ..s }),
                forall|i: int| 0 <= i < k ==> !untried(#[trigger] s.candidates[i]),
            decreases s.candidates.len() - k,
        {
            let ghost before = self.candidates@;
            assert(named_views(before) == s.candidates.skip(k));
            match self.candidates.pop_front() {
                Some((peer, addr)) => {
                    proof {
                        assert(named_views(before)[0] == (peer@, addr@));
                        assert(s.candidates[k] == (peer@, addr@));
                        assert(self.candidates@ == before.subrange(1, before.len() as int));
                        assert(named_views(self.candidates@) =~= named_views(before).skip(1));
                        assert(s.candidates.skip(k).skip(1) =~= s.candidates.skip(k + 1));
                    }
                    if self.tried.insert(peer.clone()) {
                        proof {
                            lemma_first_index_is(s.candidates, untried, k);
                        }
                        return Some((peer, addr));
                    }
                    proof {
                        assert(s.tried.insert(peer@) =~= s.tried);
                        k = k + 1;
                    }
                },
                None => {
                    proof {
                        assert(k == s.candidates.len());
                        lemma_first_index_is(s.candidates, untried, k);
                        assert(s.candidates.skip(k) =~= Seq::empty());
                    }
                    return None;
                },
            }
        }
    }
}

/// The message of a search that timed out.
pub fn search_timeout_message() -> (r: String)
    ensures
        r@ == "timed out waiting for a relay reservation"@,
{
    "timed out waiting for a relay reservation".to_owned()
}

/// The message of a search that gave up.
pub fn give_up_message(seconds: u64, tried: usize) -> (r: String)
    ensures
        r@ == "no relay accepted a reservation within "@ + decimal(seconds as nat) + "s ("@
            + decimal(tried as nat) + " peers tried)"@,
{
    let mut message = "no relay accepted a reservation within ".to_owned();
    message.append(decimal_text(seconds as u128).as_str());
    message.append("s (");
    message.append(decimal_text(tried as u128).as_str());
    message.append(" peers tried)");
    message
}

/// Reports and actions are seen as what they are, with all that they hold.
pub proof fn law_search_reports_and_actions_are_seen_whole(
    input: DiscoveryInput,
    action: DiscoveryAction,
)
    ensures
        match input {
            DiscoveryInput::Done => input@ is Done,
            DiscoveryInput::Listening { listener } => input@ matches DiscoveryInputView::Listening {
                listener: l,
            } && l == listener,
            DiscoveryInput::Event(event) => input@ matches DiscoveryInputView::Event(e) && e
                == event@,
        },
        match action {
            DiscoveryAction::StartWalk => action@ is StartWalk,
            DiscoveryAction::Reserve { peer, addr } => action@ matches
                DiscoveryActionView::Reserve { peer: p, addr: a } && p == peer@ && a == addr@,
            DiscoveryAction::AddExternalAddress { addr } => action@ matches
                DiscoveryActionView::AddExternalAddress { addr: a } && a == addr@,
            DiscoveryAction::RemoveListener { listener } => action@ matches
                DiscoveryActionView::RemoveListener { listener: l } && l == listener,
            DiscoveryAction::Wait { limit } => action@ matches
                DiscoveryActionView::Wait { limit: l } && l == limit,
            DiscoveryAction::Publish => action@ is Publish,
            DiscoveryAction::GiveUp { seconds, tried } => action@ matches
                DiscoveryActionView::GiveUp { seconds: s, tried: t } && s == seconds && t == tried,
            DiscoveryAction::TimedOut => action@ is TimedOut,
        },
{
}

} // verus!
