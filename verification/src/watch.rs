//! The listener's wait for the dialer.
use crate::clock::{time_left, MILLISECOND};
use crate::event::NetEvent;
use crate::multiaddr::is_relayed;
use crate::peer::{PeerId, PeerSet};
use crate::text::decimal_text;
use vstd::prelude::*;

verus! {

use crate::clock::left;
use crate::event::NetEventView;
use crate::multiaddr::{law_relayed_means_a_circuit, relayed_addr, Component};
use crate::peer::peer_text;
use crate::text::decimal;

/// What the caller reports to a wait.
#[derive(Debug)]
pub enum WatchInput {
    /// The wait begins.
    Begin,
    /// The time of the last wait is over.
    Elapsed,
    /// The network reported an event.
    Event(NetEvent),
}

/// View of a [`WatchInput`].
pub enum WatchInputView {
    Begin,
    Elapsed,
    Event(NetEventView),
}

impl View for WatchInput {
    type V = WatchInputView;

    open spec fn view(&self) -> WatchInputView {
        match *self {
            WatchInput::Begin => WatchInputView::Begin,
            WatchInput::Elapsed => WatchInputView::Elapsed,
            WatchInput::Event(event) => WatchInputView::Event(event@),
        }
    }
}

/// What a wait asks its caller to do.
#[derive(Debug)]
pub enum WatchAction {
    /// Wait for the next event, at most for the given time.
    Wait { limit: u128 },
    /// Stop: the dialer did not come in time.
    TimedOut,
    /// Stop: the dialer answered a ping.
    Reached { peer: PeerId, rtt: u128 },
}

/// View of a [`WatchAction`].
pub enum WatchActionView {
    Wait { limit: u128 },
    TimedOut,
    Reached { peer: Seq<u8>, rtt: u128 },
}

impl View for WatchAction {
    type V = WatchActionView;

    open spec fn view(&self) -> WatchActionView {
        match *self {
            WatchAction::Wait { limit } => WatchActionView::Wait { limit },
            WatchAction::TimedOut => WatchActionView::TimedOut,
            WatchAction::Reached { peer, rtt } => WatchActionView::Reached { peer: peer@, rtt },
        }
    }
}

/// View of a [`DialerWatch`].
#[verifier::ext_equal]
pub struct WatchView {
    /// Peers that arrived through a relay.
    pub dialers: Set<Seq<u8>>,
    /// Peers that are never taken for the dialer.
    pub bootstrap: Set<Seq<u8>>,
    /// When the wait ends.
    pub deadline: u128,
}

/// Whether the event is the arrival of the peer through a relay.
pub open spec fn arrives(event: NetEventView, peer: Seq<u8>) -> bool {
    event matches NetEventView::Connected { peer: p, remote, .. } && p == peer && relayed_addr(remote)
}

/// The peers that may be the dialer after a report.
pub open spec fn watch_hear(s: WatchView, input: WatchInputView) -> WatchView {
    match input {
        WatchInputView::Event(NetEventView::Connected { peer, remote, .. }) if relayed_addr(
            remote,
        ) && !s.bootstrap.contains(peer) => WatchView { dialers: s.dialers.insert(peer), ..s },
        _ => s,
    }
}

/// One step of a wait. A ping counts only from a peer that arrived through a relay before.
pub open spec fn watch_step(s: WatchView, input: WatchInputView, now: u128) -> (
    WatchView,
    WatchActionView,
) {
    match input {
        WatchInputView::Elapsed => (s, WatchActionView::TimedOut),
        WatchInputView::Event(NetEventView::Pinged { peer, rtt, .. }) if s.dialers.contains(peer) => (
            s,
            WatchActionView::Reached { peer, rtt },
        ),
        _ => {
            let t = watch_hear(s, input);
            let limit = left(t.deadline, now);
            if limit == 0 {
                (t, WatchActionView::TimedOut)
            } else {
                (t, WatchActionView::Wait { limit })
            }
        },
    }
}

/// The wait for the dialer. Only pings of peers that arrived through a relay count: others that
/// this side is connected to ping too.
#[derive(Debug)]
pub struct DialerWatch {
    dialers: PeerSet,
    bootstrap: PeerSet,
    deadline: u128,
}

impl View for DialerWatch {
    type V = WatchView;

    closed spec fn view(&self) -> WatchView {
        WatchView {
            dialers: self.dialers@,
            bootstrap: self.bootstrap@,
            deadline: self.deadline,
        }
    }
}

impl DialerWatch {
    /// Starts a wait that ends at the deadline.
    pub fn new(bootstrap_peers: PeerSet, deadline: u128) -> (r: DialerWatch)
        ensures
            r@ == (WatchView { dialers: Set::empty(), bootstrap: bootstrap_peers@, deadline }),
    {
        DialerWatch { dialers: PeerSet::new(), bootstrap: bootstrap_peers, deadline }
    }

    /// Takes a report in and says what to do next. The first report is [`WatchInput::Begin`].
    pub fn step(&mut self, input: WatchInput, now: u128) -> (r: WatchAction)
        ensures
            (final(self)@, r@) == watch_step(old(self)@, input@, now),
    {
        match input {
            WatchInput::Elapsed => {
                return WatchAction::TimedOut;
            },
            WatchInput::Event(NetEvent::Pinged { peer, rtt, .. }) => {
                if self.dialers.contains(&peer) {
                    return WatchAction::Reached { peer, rtt };
                }
            },
            WatchInput::Event(NetEvent::Connected { peer, endpoint, .. }) => {
                if is_relayed(&endpoint) && !self.bootstrap.contains(&peer) {
                    self.dialers.insert(peer);
                }
            },
            _ => {},
        }
        let limit = time_left(self.deadline, now);
        if limit == 0 {
            WatchAction::TimedOut
        } else {
            WatchAction::Wait { limit }
        }
    }
}

/// The line that tells that the peer was reached, with the time its ping took, in whole
/// milliseconds.
pub open spec fn listener_line(peer: Seq<u8>, rtt: u128) -> Seq<char> {
    "LISTENER_OK peer="@ + peer_text(peer) + " rtt_ms="@ + decimal((rtt / MILLISECOND) as nat)
}

/// The line that tells that the peer was reached.
pub fn listener_report(peer: &PeerId, rtt: u128) -> (r: String)
    ensures
        r@ == listener_line(peer@, rtt),
        r@ == "LISTENER_OK peer="@ + peer_text(peer@) + " rtt_ms="@ + decimal(
            (rtt / 1_000_000) as nat,
        ),
{
    listener_report_of(peer.text().as_str(), rtt)
}

/// The line that tells that the peer with this text was reached.
pub fn listener_report_of(peer: &str, rtt: u128) -> (r: String)
    ensures
        r@ == "LISTENER_OK peer="@ + peer@ + " rtt_ms="@ + decimal((rtt / MILLISECOND) as nat),
        r@ == "LISTENER_OK peer="@ + peer@ + " rtt_ms="@ + decimal((rtt / 1_000_000) as nat),
{
    let mut line = "LISTENER_OK peer=".to_owned();
    line.append(peer);
    line.append(" rtt_ms=");
    line.append(decimal_text(rtt / MILLISECOND).as_str());
    line
}

/// The message of a wait that timed out.
pub fn watch_timeout_message() -> (r: String)
    ensures
        r@ == "timed out waiting for dialer"@,
{
    "timed out waiting for dialer".to_owned()
}

/// The reports that a wait gets, in order, each with its time.
pub type WatchReports = Seq<(WatchInputView, u128)>;

/// The state after the given reports.
pub open spec fn watch_run(s: WatchView, reports: WatchReports) -> WatchView
    decreases reports.len(),
{
    if reports.len() == 0 {
        s
    } else {
        let t = watch_run(s, reports.drop_last());
        watch_step(t, reports.last().0, reports.last().1).0
    }
}

/// What the wait asks for on report number `i`.
pub open spec fn watch_asked(s: WatchView, reports: WatchReports, i: int) -> WatchActionView {
    watch_step(watch_run(s, reports.take(i)), reports[i].0, reports[i].1).1
}

/// Whether report number `j` is the arrival of the peer through a relay.
pub open spec fn arrived(reports: WatchReports, j: int, peer: Seq<u8>) -> bool {
    reports[j].0 matches WatchInputView::Event(event) && arrives(event, peer)
}

/// The peers that may be the dialer are those outside the bootstrap set that arrived through a
/// relay.
proof fn lemma_watch_dialers(s: WatchView, reports: WatchReports, n: int)
    requires
        s.dialers == Set::<Seq<u8>>::empty(),
        0 <= n <= reports.len(),
    ensures
        watch_run(s, reports.take(n)).bootstrap == s.bootstrap,
        watch_run(s, reports.take(n)).deadline == s.deadline,
        forall|p: Seq<u8>| #[trigger]
            watch_run(s, reports.take(n)).dialers.contains(p) <==> !s.bootstrap.contains(p)
                && exists|j: int| 0 <= j < n && #[trigger] arrived(reports, j, p),
    decreases n,
{
    if n == 0 {
        assert(watch_run(s, reports.take(0)) == s);
    } else {
        lemma_watch_dialers(s, reports, n - 1);
        let shorter = reports.take(n - 1);
        let longer = reports.take(n);
        assert(longer.drop_last() =~= shorter);
        assert(longer.last() == reports[n - 1]);
        let t = watch_run(s, shorter);
        let u = watch_run(s, longer);
        assert forall|p: Seq<u8>| #[trigger] u.dialers.contains(p) <==> !s.bootstrap.contains(p)
            && exists|j: int| 0 <= j < n && #[trigger] arrived(reports, j, p) by {
            if u.dialers.contains(p) && !t.dialers.contains(p) {
                assert(arrived(reports, n - 1, p));
            }
            if !s.bootstrap.contains(p) && exists|j: int|
                0 <= j < n && #[trigger] arrived(reports, j, p) {
                let j = choose|j: int| 0 <= j < n && #[trigger] arrived(reports, j, p);
                if j < n - 1 {
                    assert(t.dialers.contains(p));
                }
            }
        }
    }
}

/// The wait ends well exactly when a ping comes back from a peer outside the bootstrap set that
/// arrived through a relay before.
pub proof fn law_only_relayed_arrivals_count(
    bootstrap: Set<Seq<u8>>,
    deadline: u128,
    reports: WatchReports,
    i: int,
    peer: Seq<u8>,
    rtt: u128,
)
    requires
        0 <= i < reports.len(),
    ensures
        ({
            let s = WatchView { dialers: Set::empty(), bootstrap, deadline };
            watch_asked(s, reports, i) == (WatchActionView::Reached { peer, rtt }) <==> {
                &&& reports[i].0 matches WatchInputView::Event(
                    NetEventView::Pinged { peer: p, rtt: t, .. },
                ) && p == peer && t == rtt
                &&& !bootstrap.contains(peer)
                &&& exists|j: int| 0 <= j < i && #[trigger] arrived(reports, j, peer)
            }
        }),
{
    let s = WatchView { dialers: Set::empty(), bootstrap, deadline };
    lemma_watch_dialers(s, reports, i);
    assert(watch_run(s, reports.take(i)).dialers.contains(peer) <==> !s.bootstrap.contains(peer)
        && exists|j: int| 0 <= j < i && #[trigger] arrived(reports, j, peer));
}

/// The wait never outlasts its deadline: it waits only for what is left, and times out once
/// nothing is left, unless the dialer just answered.
pub proof fn law_wait_ends_at_the_deadline(
    bootstrap: Set<Seq<u8>>,
    deadline: u128,
    reports: WatchReports,
    i: int,
)
    requires
        0 <= i < reports.len(),
    ensures
        ({
            let s = WatchView { dialers: Set::empty(), bootstrap, deadline };
            let now = reports[i].1;
            match watch_asked(s, reports, i) {
                WatchActionView::Wait { limit } => limit > 0 && now + limit == deadline,
                WatchActionView::TimedOut => deadline <= now || reports[i].0 is Elapsed,
                WatchActionView::Reached { .. } => true,
            }
        }),
{
    let s = WatchView { dialers: Set::empty(), bootstrap, deadline };
    lemma_watch_dialers(s, reports, i);
}

/// One step of a wait, told by what it gives. The peers that may be the dialer grow by one that
/// connects through a circuit and is no bootstrap peer, and never else. The wait ends well
/// exactly on a ping of one of them, with that peer and that time. It times out exactly when its
/// time is reported over or its deadline is reached, and else waits until the deadline.
pub proof fn law_wait_by_what_it_hears(s: WatchView, input: WatchInputView, now: u128)
    ensures
        ({
            let (t, action) = watch_step(s, input, now);
            let dialer_pinged = input matches WatchInputView::Event(
                NetEventView::Pinged { peer, .. },
            ) && s.dialers.contains(peer);
            &&& t.bootstrap == s.bootstrap && t.deadline == s.deadline
            &&& forall|p: Seq<u8>| #[trigger]
                t.dialers.contains(p) <==> s.dialers.contains(p) || (input matches
                    WatchInputView::Event(NetEventView::Connected { peer, remote, .. }) && peer == p
                    && remote.contains(Component::P2pCircuit) && !s.bootstrap.contains(p))
            &&& match action {
                WatchActionView::Reached { peer, rtt } => dialer_pinged && (input matches
                    WatchInputView::Event(NetEventView::Pinged { peer: p, rtt: t, .. }) && p == peer
                    && t == rtt),
                WatchActionView::TimedOut => !dialer_pinged && (input is Elapsed || s.deadline
                    <= now),
                WatchActionView::Wait { limit } => !dialer_pinged && !(input is Elapsed) && now
                    < s.deadline && now + limit == s.deadline,
            }
        }),
{
    if let WatchInputView::Event(NetEventView::Connected { remote, .. }) = input {
        law_relayed_means_a_circuit(remote);
    }
}

/// Reports and actions are seen as what they are, with all that they hold.
pub proof fn law_wait_reports_and_actions_are_seen_whole(input: WatchInput, action: WatchAction)
    ensures
        match input {
            WatchInput::Begin => input@ is Begin,
            WatchInput::Elapsed => input@ is Elapsed,
            WatchInput::Event(event) => input@ matches WatchInputView::Event(e) && e == event@,
        },
        match action {
            WatchAction::Wait { limit } => action@ matches WatchActionView::Wait { limit: l } && l
                == limit,
            WatchAction::TimedOut => action@ is TimedOut,
            WatchAction::Reached { peer, rtt } => action@ matches
                WatchActionView::Reached { peer: p, rtt: t } && p == peer@ && t == rtt,
        },
{
}

} // verus!
