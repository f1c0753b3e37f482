//! The dialer's run.
use crate::clock::{earlier_of, time_left};
use crate::event::NetEvent;
use crate::learn::{learn_observed_addr, DialInput, LearnAction};
use crate::multiaddr::{is_relayed, Multiaddr, Parsed};
use crate::peer::PeerId;
use crate::rendezvous::Rendezvous;
use crate::text::truth_text;
use std::collections::{HashMap, VecDeque};
use vstd::prelude::*;

verus! {

use crate::clock::{earlier, left, MAX_ELAPSED};
use crate::event::{text_views, NetEventView};
use crate::learn::{learn_step, DialInputView, LearnActionView};
use crate::multiaddr::{
    addr_from_text,
    parsed_view,
    relay_part,
    relayed_addr,
    Component,
    ParsedView,
};
use crate::peer::peer_from_text;
use crate::rendezvous::RendezvousView;
use crate::text::truth;

/// How long to wait for a peer that tells the address at which it sees this side.
pub const LEARN_TIME: u128 = 15_000_000_000;

/// How long to go on after the first ping, for a direct connection to come about.
pub const GRACE: u128 = 20_000_000_000;

/// What a dialer is at.
#[derive(Debug)]
pub enum DialPhase {
    /// It dials the relays.
    Relays,
    /// It waits for an observed address, at most until the given time.
    Learn { until: u128 },
    /// It dials the listener.
    Listener,
    /// It watches what becomes of the connections.
    Watch,
    /// It is done.
    Over,
}

/// Why a dialer fails.
#[derive(Debug)]
pub enum DialFault {
    /// A text of the rendezvous is no address.
    Address(libp2p::multiaddr::Error),
    /// An address of the listener could not be dialed.
    Refused,
}

/// View of a [`DialFault`].
pub enum DialFaultView {
    Address(libp2p::multiaddr::Error),
    Refused,
}

impl View for DialFault {
    type V = DialFaultView;

    open spec fn view(&self) -> DialFaultView {
        match *self {
            DialFault::Address(e) => DialFaultView::Address(e),
            DialFault::Refused => DialFaultView::Refused,
        }
    }
}

/// What a dialer asks its caller to do.
#[derive(Debug)]
pub enum DialAction {
    /// Dial the relay, and go on even if that cannot be done.
    DialRelay { addr: Multiaddr },
    /// Dial the listener.
    DialListener { addr: Multiaddr },
    /// Note the address as one under which this side can be reached.
    AddExternalAddress { addr: Multiaddr },
    /// Wait for the next event, at most for the given time.
    Wait { limit: u128 },
    /// Stop and report.
    Report,
    /// Stop: the run failed.
    Fail { fault: DialFault },
    /// Nothing: the run is over.
    Over,
}

/// View of a [`DialAction`].
pub enum DialActionView {
    DialRelay { addr: Seq<Component> },
    DialListener { addr: Seq<Component> },
    AddExternalAddress { addr: Seq<Component> },
    Wait { limit: u128 },
    Report,
    Fail { fault: DialFaultView },
    Over,
}

impl View for DialAction {
    type V = DialActionView;

    open spec fn view(&self) -> DialActionView {
        match *self {
            DialAction::DialRelay { addr } => DialActionView::DialRelay { addr: addr@ },
            DialAction::DialListener { addr } => DialActionView::DialListener { addr: addr@ },
            DialAction::AddExternalAddress { addr } => DialActionView::AddExternalAddress {
                addr: addr@,
            },
            DialAction::Wait { limit } => DialActionView::Wait { limit },
            DialAction::Report => DialActionView::Report,
            DialAction::Fail { fault } => DialActionView::Fail { fault: fault@ },
            DialAction::Over => DialActionView::Over,
        }
    }
}

/// View of an action that may be absent.
pub open spec fn action_view(action: Option<DialAction>) -> Option<DialActionView> {
    match action {
        Some(a) => Some(a@),
        None => None,
    }
}

/// Views of what was read from texts.
pub open spec fn parsed_views(parsed: Seq<Parsed>) -> Seq<ParsedView> {
    parsed.map_values(|p: Parsed| parsed_view(p))
}

/// View of a [`Dialer`].
#[verifier::ext_equal]
pub struct DialView {
    /// The listener.
    pub remote: Seq<u8>,
    /// Addresses of the listener whose relays are still to be dialed, in order.
    pub hops: Seq<ParsedView>,
    /// Addresses of the listener still to be dialed, in order.
    pub targets: Seq<ParsedView>,
    /// When the run ends at the latest.
    pub deadline: u128,
    /// What the dialer is at.
    pub phase: DialPhase,
    /// The connections to the listener, and whether each goes through a relay.
    pub links: Map<u64, bool>,
    /// Whether a connection to the listener came about while the dialer watched.
    pub connected: bool,
    /// Whether a ping of the listener came back over a relayed connection.
    pub got_relayed: bool,
    /// Whether a ping of the listener came back over a direct connection.
    pub got_direct: bool,
    /// How the last attempt to reach the listener directly ended.
    pub hole_punch: Option<bool>,
    /// When the run ends after the first ping.
    pub grace: Option<u128>,
}

/// The state in which a dialer starts.
pub open spec fn dial_start(
    remote: Seq<u8>,
    hops: Seq<ParsedView>,
    targets: Seq<ParsedView>,
    deadline: u128,
) -> DialView {
    DialView {
        remote,
        hops,
        targets,
        deadline,
        phase: DialPhase::Relays,
        links: Map::empty(),
        connected: false,
        got_relayed: false,
        got_direct: false,
        hole_punch: None,
        grace: None,
    }
}

/// The state in which a dialer with the given rendezvous starts, or the error where that names no
/// peer.
pub open spec fn dial_open(rv: RendezvousView, deadline: u128) -> Result<
    DialView,
    libp2p::identity::ParseError,
> {
    let parsed = rv.circuit_addrs.map_values(|t: Seq<char>| addr_from_text(t));
    match peer_from_text(rv.peer_id) {
        Ok(remote) => Ok(dial_start(remote, parsed, parsed, deadline)),
        Err(e) => Err(e),
    }
}

/// What a dialer notes of an event: which connections to the listener there are, whether one came
/// about while it watched, and over which of them the listener's pings came back.
pub open spec fn note(s: DialView, event: NetEventView) -> DialView {
    match event {
        NetEventView::Connected { connection, peer, remote } if peer == s.remote => DialView {
            links: s.links.insert(connection, relayed_addr(remote)),
            connected: s.connected || s.phase is Watch,
            ..s
        },
        NetEventView::Pinged { connection, peer, .. } if peer == s.remote
            && s.links.dom().contains(connection) => if s.links[connection] {
            DialView { got_relayed: true, ..s }
        } else {
            DialView { got_direct: true, ..s }
        },
        _ => s,
    }
}

/// What a dialer notes of a report.
pub open spec fn noted(s: DialView, input: DialInputView) -> DialView {
    match input {
        DialInputView::Event(event) => note(s, event),
        _ => s,
    }
}

/// What an event changes while the dialer watches, and what it makes the dialer ask for at once.
pub open spec fn watch_event(s: DialView, event: NetEventView, now: u128) -> (
    DialView,
    Option<DialActionView>,
) {
    match event {
        NetEventView::HolePunch { peer, ok } if peer == s.remote => (
            DialView { hole_punch: Some(ok), ..s },
            None,
        ),
        NetEventView::Pinged { peer, .. } if peer == s.remote && s.grace is None => (
            DialView { grace: Some((now + GRACE) as u128), ..s },
            None,
        ),
        NetEventView::Identified { observed, .. } => (
            s,
            Some(DialActionView::AddExternalAddress { addr: observed }),
        ),
        _ => (s, None),
    }
}

/// What a report changes, and what it makes the dialer ask for at once.
pub open spec fn dial_absorb(s: DialView, input: DialInputView, now: u128) -> (
    DialView,
    Option<DialActionView>,
) {
    let t = noted(s, input);
    match (t.phase, input) {
        (DialPhase::Learn { until }, _) => match learn_step(until, input, now) {
            LearnActionView::Wait { limit } => (t, Some(DialActionView::Wait { limit })),
            LearnActionView::Learned { addr } => (
                DialView { phase: DialPhase::Listener, ..t },
                Some(DialActionView::AddExternalAddress { addr }),
            ),
            LearnActionView::Stop => (DialView { phase: DialPhase::Listener, ..t }, None),
        },
        (DialPhase::Listener, DialInputView::Refused) => (
            DialView { phase: DialPhase::Over, ..t },
            Some(DialActionView::Fail { fault: DialFaultView::Refused }),
        ),
        (DialPhase::Watch, DialInputView::Elapsed) => (
            DialView { phase: DialPhase::Over, ..t },
            Some(DialActionView::Report),
        ),
        (DialPhase::Watch, DialInputView::Event(event)) => watch_event(t, event, now),
        _ => (t, None),
    }
}

/// What is left of the run while the dialer watches: until the deadline, and after the first ping
/// until its grace is over.
pub open spec fn run_left(s: DialView, now: u128) -> u128 {
    let hard = left(s.deadline, now);
    match s.grace {
        Some(grace) if left(grace, now) < hard => left(grace, now),
        _ => hard,
    }
}

/// What a dialer that watches asks for.
pub open spec fn watch_decide(s: DialView, now: u128) -> (DialView, DialActionView) {
    let limit = run_left(s, now);
    if limit == 0 {
        (DialView { phase: DialPhase::Over, ..s }, DialActionView::Report)
    } else {
        (DialView { phase: DialPhase::Watch, ..s }, DialActionView::Wait { limit })
    }
}

/// What a dialer that dials the listener asks for: to dial its next address, and to watch once all
/// are dialed.
pub open spec fn listener_decide(s: DialView, now: u128) -> (DialView, DialActionView) {
    if s.targets.len() == 0 {
        watch_decide(s, now)
    } else {
        let rest = s.targets.skip(1);
        match s.targets[0] {
            Ok(addr) => (
                DialView { targets: rest, phase: DialPhase::Listener, ..s },
                DialActionView::DialListener { addr },
            ),
            Err(e) => (
                DialView { targets: rest, phase: DialPhase::Over, ..s },
                DialActionView::Fail { fault: DialFaultView::Address(e) },
            ),
        }
    }
}

/// Until when a dialer waits for an observed address.
pub open spec fn learn_until(s: DialView, now: u128) -> u128 {
    earlier(s.deadline, (now + LEARN_TIME) as u128)
}

/// What a dialer asks for when it stands in state `s`.
pub open spec fn dial_decide(s: DialView, now: u128) -> (DialView, DialActionView) {
    match s.phase {
        DialPhase::Relays => if s.hops.len() > 0 {
            let rest = s.hops.skip(1);
            match s.hops[0] {
                Ok(addr) => (
                    DialView { hops: rest, ..s },
                    DialActionView::DialRelay { addr: relay_part(addr) },
                ),
                Err(e) => (
                    DialView { hops: rest, phase: DialPhase::Over, ..s },
                    DialActionView::Fail { fault: DialFaultView::Address(e) },
                ),
            }
        } else if learn_until(s, now) > now {
            let until = learn_until(s, now);
            (
                DialView { phase: DialPhase::Learn { until }, ..s },
                DialActionView::Wait { limit: left(until, now) },
            )
        } else {
            listener_decide(s, now)
        },
        DialPhase::Learn { until } => (s, DialActionView::Wait { limit: left(until, now) }),
        DialPhase::Listener => listener_decide(s, now),
        DialPhase::Watch => watch_decide(s, now),
        DialPhase::Over => (s, DialActionView::Over),
    }
}

/// One step of a dialer: it takes a report in, and asks for the next thing to do.
pub open spec fn dial_step(s: DialView, input: DialInputView, now: u128) -> (
    DialView,
    DialActionView,
) {
    let (t, at_once) = dial_absorb(s, input, now);
    match at_once {
        Some(action) => (t, action),
        None => dial_decide(t, now),
    }
}

/// The dialer. The caller hands every report to [`Dialer::step`] and does what that asks for,
/// until it asks to report or fails.
#[derive(Debug)]
pub struct Dialer {
    remote: PeerId,
    hops: VecDeque<Parsed>,
    targets: VecDeque<Parsed>,
    deadline: u128,
    phase: DialPhase,
    links: HashMap<u64, bool>,
    connected: bool,
    got_relayed: bool,
    got_direct: bool,
    hole_punch: Option<bool>,
    grace: Option<u128>,
}

impl View for Dialer {
    type V = DialView;

    closed spec fn view(&self) -> DialView {
        DialView {
            remote: self.remote@,
            hops: parsed_views(self.hops@),
            targets: parsed_views(self.targets@),
            deadline: self.deadline,
            phase: self.phase,
            links: self.links@,
            connected: self.connected,
            got_relayed: self.got_relayed,
            got_direct: self.got_direct,
            hole_punch: self.hole_punch,
            grace: self.grace,
        }
    }
}

/// Reads an address from each of the texts.
fn parse_each(texts: &Vec<String>) -> (r: VecDeque<Parsed>)
    ensures
        parsed_views(r@) == text_views(texts@).map_values(|t: Seq<char>| addr_from_text(t)),
{
    let mut parsed: VecDeque<Parsed> = VecDeque::new();
    let mut i: usize = 0;
    while i < texts.len()
        invariant
            i <= texts.len(),
            parsed@.len() == i,
            forall|j: int|
                0 <= j < i ==> parsed_view(#[trigger] parsed@[j]) == addr_from_text(texts@[j]@),
        decreases texts.len() - i,
    {
        parsed.push_back(Multiaddr::parse(texts[i].as_str()));
        i += 1;
    }
    assert(parsed_views(parsed@) =~= text_views(texts@).map_values(
        |t: Seq<char>| addr_from_text(t),
    ));
    parsed
}

/// Takes the first of what was read.
fn pop_parsed(queue: &mut VecDeque<Parsed>) -> (r: Option<Parsed>)
    ensures
        ({
            let before = parsed_views(old(queue)@);
            if before.len() == 0 {
                r is None && parsed_views(final(queue)@) == before
            } else {
                &&& r is Some
                &&& parsed_view(r->0) == before[0]
                &&& parsed_views(final(queue)@) == before.skip(1)
            }
        }),
{
    let ghost before = queue@;
    let first = queue.pop_front();
    assert(before.len() > 0 ==> parsed_views(queue@) =~= parsed_views(before).skip(1));
    first
}

impl Dialer {
    /// A dialer for the listener with this rendezvous, whose run ends at the deadline at the
    /// latest.
    pub fn open(rv: &Rendezvous, deadline: u128) -> (r: Result<
        Dialer,
        libp2p::identity::ParseError,
    >)
        ensures
            r is Ok == dial_open(rv@, deadline) is Ok,
            r is Ok ==> r->Ok_0@ == dial_open(rv@, deadline)->Ok_0,
            r is Err ==> r->Err_0 == dial_open(rv@, deadline)->Err_0,
    {
        match PeerId::parse(rv.peer_id.as_str()) {
            Ok(remote) => {
                let hops = parse_each(&rv.circuit_addrs);
                let targets = parse_each(&rv.circuit_addrs);
                Ok(Dialer::new(remote, hops, targets, deadline))
            },
            Err(e) => Err(e),
        }
    }

    /// A dialer for the listener with this id. What was read from the texts of its addresses is
    /// given twice: first for dialing the relays, then for dialing the listener.
    pub fn new(
        remote: PeerId,
        hops: VecDeque<Parsed>,
        targets: VecDeque<Parsed>,
        deadline: u128,
    ) -> (r: Dialer)
        ensures
            r@ == dial_start(remote@, parsed_views(hops@), parsed_views(targets@), deadline),
    {
        Dialer {
            remote,
            hops,
            targets,
            deadline,
            phase: DialPhase::Relays,
            links: HashMap::new(),
            connected: false,
            got_relayed: false,
            got_direct: false,
            hole_punch: None,
            grace: None,
        }
    }

    /// Notes what an event tells of the connections to the listener.
    fn note(&mut self, event: &NetEvent)
        ensures
            final(self)@ == note(old(self)@, event@),
    {
        broadcast use vstd::std_specs::hash::group_hash_axioms;

        match event {
            NetEvent::Connected { connection, peer, endpoint } => {
                if *peer == self.remote {
                    self.links.insert(*connection, is_relayed(endpoint));
                    if matches!(self.phase, DialPhase::Watch) {
                        self.connected = true;
                    }
                }
            },
            NetEvent::Pinged { connection, peer, .. } => {
                if *peer == self.remote {
                    let link = match self.links.get(connection) {
                        Some(relayed) => Some(*relayed),
                        None => None,
                    };
                    match link {
                        Some(true) => {
                            self.got_relayed = true;
                        },
                        Some(false) => {
                            self.got_direct = true;
                        },
                        None => {},
                    }
                }
            },
            _ => {},
        }
    }

    /// Takes an event in while watching.
    fn watch_event(&mut self, event: NetEvent, now: u128) -> (r: Option<DialAction>)
        requires
            now <= MAX_ELAPSED,
        ensures
            (final(self)@, action_view(r)) == watch_event(old(self)@, event@, now),
    {
        match event {
            NetEvent::HolePunch { peer, ok } => {
                if peer == self.remote {
                    self.hole_punch = Some(ok);
                }
                None
            },
            NetEvent::Pinged { peer, .. } => {
                if peer == self.remote && self.grace.is_none() {
                    self.grace = Some(now + GRACE);
                }
                None
            },
            NetEvent::Identified { observed, .. } => {
                Some(DialAction::AddExternalAddress { addr: observed })
            },
            _ => None,
        }
    }

    /// Takes a report in.
    fn absorb(&mut self, input: DialInput, now: u128) -> (r: Option<DialAction>)
        requires
            now <= MAX_ELAPSED,
        ensures
            (final(self)@, action_view(r)) == dial_absorb(old(self)@, input@, now),
    {
        if let DialInput::Event(event) = &input {
            self.note(event);
        }
        match self.phase {
            DialPhase::Learn { until } => match learn_observed_addr(until, input, now) {
                LearnAction::Wait { limit } => Some(DialAction::Wait { limit }),
                LearnAction::Learned { addr } => {
                    self.phase = DialPhase::Listener;
                    Some(DialAction::AddExternalAddress { addr })
                },
                LearnAction::Stop => {
                    self.phase = DialPhase::Listener;
                    None
                },
            },
            DialPhase::Listener => match input {
                DialInput::Refused => {
                    self.phase = DialPhase::Over;
                    Some(DialAction::Fail { fault: DialFault::Refused })
                },
                _ => None,
            },
            DialPhase::Watch => match input {
                DialInput::Elapsed => {
                    self.phase = DialPhase::Over;
                    Some(DialAction::Report)
                },
                DialInput::Event(event) => self.watch_event(event, now),
                _ => None,
            },
            _ => None,
        }
    }

    /// Says how long to go on watching, if at all.
    fn watch(&mut self, now: u128) -> (r: DialAction)
        ensures
            (final(self)@, r@) == watch_decide(old(self)@, now),
    {
        let hard = time_left(self.deadline, now);
        let limit = match self.grace {
            Some(grace) => {
                let soft = time_left(grace, now);
                if soft < hard {
                    soft
                } else {
                    hard
                }
            },
            None => hard,
        };
        if limit == 0 {
            self.phase = DialPhase::Over;
            DialAction::Report
        } else {
            self.phase = DialPhase::Watch;
            DialAction::Wait { limit }
        }
    }

    /// Ends the run because of a text that is no address.
    fn fail(&mut self, error: libp2p::multiaddr::Error) -> (r: DialAction)
        ensures
            final(self)@ == (DialView { phase: DialPhase::Over, ..old(self)@ }),
            r@ == (DialActionView::Fail { fault: DialFaultView::Address(error) }),
    {
        self.phase = DialPhase::Over;
        DialAction::Fail { fault: DialFault::Address(error) }
    }

    /// Says which address of the listener to dial next, or how long to watch.
    fn dial_listener(&mut self, now: u128) -> (r: DialAction)
        ensures
            (final(self)@, r@) == listener_decide(old(self)@, now),
    {
        match pop_parsed(&mut self.targets) {
            Some(Ok(addr)) => {
                self.phase = DialPhase::Listener;
                DialAction::DialListener { addr }
            },
            Some(Err(e)) => self.fail(e),
            None => self.watch(now),
        }
    }

    /// Says what to do next.
    fn decide(&mut self, now: u128) -> (r: DialAction)
        requires
            now <= MAX_ELAPSED,
        ensures
            (final(self)@, r@) == dial_decide(old(self)@, now),
    {
        match self.phase {
            DialPhase::Relays => match pop_parsed(&mut self.hops) {
                Some(Ok(addr)) => DialAction::DialRelay { addr: addr.into_relay_part() },
                Some(Err(e)) => self.fail(e),
                None => {
                    let until: u128 = earlier_of(self.deadline, now + LEARN_TIME);
                    if until > now {
                        self.phase = DialPhase::Learn { until };
                        DialAction::Wait { limit: time_left(until, now) }
                    } else {
                        self.dial_listener(now)
                    }
                },
            },
            DialPhase::Learn { until } => DialAction::Wait { limit: time_left(until, now) },
            DialPhase::Listener => self.dial_listener(now),
            DialPhase::Watch => self.watch(now),
            DialPhase::Over => DialAction::Over,
        }
    }

    /// Takes a report in and says what to do next. The first report is [`DialInput::Done`].
    pub fn step(&mut self, input: DialInput, now: u128) -> (r: DialAction)
        requires
            now <= MAX_ELAPSED,
        ensures
            (final(self)@, r@) == dial_step(old(self)@, input@, now),
    {
        match self.absorb(input, now) {
            Some(action) => action,
            None => self.decide(now),
        }
    }

    /// The line that tells over which connections pings of the listener came back, and how the
    /// last attempt to reach it directly ended.
    pub fn summary(&self) -> (r: String)
        ensures
            r@ == summary_line(self@),
    {
        let mut line = "DIALER_RESULT relayed=".to_owned();
        line.append(truth_text(self.got_relayed));
        line.append(" direct=");
        line.append(truth_text(self.got_direct));
        line.append(" hole_punch=");
        line.append(
            match self.hole_punch {
                Some(ok) => truth_text(ok),
                None => "none",
            },
        );
        line
    }

    /// Whether the run ended well: a connection to the listener came about while the dialer
    /// watched, or a ping of the listener came back over one.
    pub fn outcome(&self) -> (r: Result<(), String>)
        ensures
            r is Ok == ends_well(self@),
            r is Ok == (self@.connected || self@.got_relayed || self@.got_direct),
            r is Err ==> r->Err_0@ == "never connected to listener"@,
    {
        if self.connected || self.got_relayed || self.got_direct {
            Ok(())
        } else {
            Err("never connected to listener".to_owned())
        }
    }
}

/// Whether a run ends well: a connection to the listener came about while the dialer watched, or a
/// ping of the listener came back over one.
pub open spec fn ends_well(s: DialView) -> bool {
    s.connected || s.got_relayed || s.got_direct
}

/// The line that tells what a dialer saw.
pub open spec fn summary_line(s: DialView) -> Seq<char> {
    "DIALER_RESULT relayed="@ + truth(s.got_relayed) + " direct="@ + truth(s.got_direct)
        + " hole_punch="@ + match s.hole_punch {
        Some(ok) => truth(ok),
        None => "none"@,
    }
}

/// Actions are seen as what they are, with all that they hold, a fault with its error.
pub proof fn law_dial_actions_are_seen_whole(action: DialAction)
    ensures
        match action {
            DialAction::DialRelay { addr } => action@ matches DialActionView::DialRelay { addr: a }
                && a == addr@,
            DialAction::DialListener { addr } => action@ matches
                DialActionView::DialListener { addr: a } && a == addr@,
            DialAction::AddExternalAddress { addr } => action@ matches
                DialActionView::AddExternalAddress { addr: a } && a == addr@,
            DialAction::Wait { limit } => action@ matches DialActionView::Wait { limit: l } && l
                == limit,
            DialAction::Report => action@ is Report,
            DialAction::Fail { fault: DialFault::Address(error) } => action@ matches
                DialActionView::Fail { fault: DialFaultView::Address(e) } && e == error,
            DialAction::Fail { fault: DialFault::Refused } => action@ matches
                DialActionView::Fail { fault: DialFaultView::Refused },
            DialAction::Over => action@ is Over,
        },
{
}

} // verus!
