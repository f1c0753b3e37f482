//! What holds of every run of a dialer, whatever the network reports.
use vstd::prelude::*;

verus! {

use crate::clock::MAX_ELAPSED;
use crate::dial::{
    dial_open,
    dial_start,
    dial_step,
    ends_well,
    learn_until,
    noted,
    parsed_views,
    summary_line,
    watch_event,
    DialActionView,
    DialFaultView,
    DialPhase,
    DialView,
    GRACE,
    LEARN_TIME,
};
use crate::event::NetEventView;
use crate::learn::DialInputView;
use crate::multiaddr::{
    addr_from_text,
    law_circuit_leads_back_to_its_relay,
    law_relayed_means_a_circuit,
    parsed_view,
    relay_part,
    reads_as,
    relayed_addr,
    Component,
    Parsed,
    ParsedView,
};
use crate::peer::peer_from_text;
use crate::rendezvous::{tells, RendezvousView};

/// The reports that a dialer gets, in order, each with its time.
pub type DialReports = Seq<(DialInputView, u128)>;

/// The state after the given reports.
pub open spec fn dial_run(s: DialView, reports: DialReports) -> DialView
    decreases reports.len(),
{
    if reports.len() == 0 {
        s
    } else {
        let t = dial_run(s, reports.drop_last());
        dial_step(t, reports.last().0, reports.last().1).0
    }
}

/// What the dialer asks for on report number `i`.
pub open spec fn dial_asked(s: DialView, reports: DialReports, i: int) -> DialActionView {
    dial_step(dial_run(s, reports.take(i)), reports[i].0, reports[i].1).1
}

/// One more report is one more step.
proof fn lemma_dial_run_step(s: DialView, reports: DialReports, i: int)
    requires
        0 <= i < reports.len(),
    ensures
        dial_run(s, reports.take(i + 1)) == dial_step(
            dial_run(s, reports.take(i)),
            reports[i].0,
            reports[i].1,
        ).0,
{
    let longer = reports.take(i + 1);
    assert(longer.drop_last() =~= reports.take(i));
    assert(longer.last() == reports[i]);
}

/// The event that report number `i` is, if it comes while the dialer watches.
pub open spec fn seen(s: DialView, reports: DialReports, i: int) -> Option<NetEventView> {
    match reports[i].0 {
        DialInputView::Event(event) if dial_run(s, reports.take(i)).phase is Watch => Some(event),
        _ => None,
    }
}

/// Whether report number `j` shows that the connection to the peer stands.
pub open spec fn opens(reports: DialReports, remote: Seq<u8>, j: int, connection: u64) -> bool {
    reports[j].0 matches DialInputView::Event(
        NetEventView::Connected { connection: c, peer, .. },
    ) && c == connection && peer == remote
}

/// Whether report number `j` is the last of the first `n` that shows that the connection to the
/// peer stands, and whether it shows it through a relay.
pub open spec fn opened(
    reports: DialReports,
    remote: Seq<u8>,
    n: int,
    j: int,
    connection: u64,
    relayed: bool,
) -> bool {
    &&& 0 <= j < n
    &&& opens(reports, remote, j, connection)
    &&& forall|k: int| j < k < n ==> !#[trigger] opens(reports, remote, k, connection)
    &&& reports[j].0 matches DialInputView::Event(NetEventView::Connected { remote: addr, .. })
        && relayed_addr(addr) == relayed
}

/// Whether report number `i` shows a ping of the peer that came back over a connection that was
/// shown before, through a relay or direct.
pub open spec fn ping_ran_over(
    reports: DialReports,
    remote: Seq<u8>,
    i: int,
    relayed: bool,
) -> bool {
    reports[i].0 matches DialInputView::Event(NetEventView::Pinged { connection, peer, .. })
        && peer == remote && exists|j: int| #[trigger]
        opened(reports, remote, i, j, connection, relayed)
}

/// Whether report number `i` shows a connection to the listener that came about while the dialer
/// watched.
pub open spec fn connects(s: DialView, reports: DialReports, i: int) -> bool {
    seen(s, reports, i) matches Some(NetEventView::Connected { peer, .. }) && peer == s.remote
}

/// Whether report number `i` shows how an attempt to reach the listener directly ended.
pub open spec fn punches(s: DialView, reports: DialReports, i: int) -> bool {
    seen(s, reports, i) matches Some(NetEventView::HolePunch { peer, .. }) && peer == s.remote
}

/// Whether report number `i` shows a ping of the listener.
pub open spec fn pings(s: DialView, reports: DialReports, i: int) -> bool {
    seen(s, reports, i) matches Some(NetEventView::Pinged { peer, .. }) && peer == s.remote
}

/// Whether report number `i` is the last of the first `n` that shows such an end, with this
/// result.
pub open spec fn last_punch(s: DialView, reports: DialReports, n: int, i: int, ok: bool) -> bool {
    &&& 0 <= i < n
    &&& seen(s, reports, i) == Some(NetEventView::HolePunch { peer: s.remote, ok })
    &&& forall|k: int| i < k < n ==> !#[trigger] punches(s, reports, k)
}

/// Whether report number `i` is the first of all that shows a ping of the listener.
pub open spec fn first_ping(s: DialView, reports: DialReports, i: int) -> bool {
    &&& pings(s, reports, i)
    &&& forall|k: int| 0 <= k < i ==> !#[trigger] pings(s, reports, k)
}

/// What a dialer has noted of the connections to the listener after the first `n` reports.
spec fn link_notes(t: DialView, remote: Seq<u8>, reports: DialReports, n: int) -> bool {
    &&& t.remote == remote
    &&& forall|c: u64| #[trigger]
        t.links.dom().contains(c) ==> exists|j: int| #[trigger]
            opened(reports, remote, n, j, c, t.links[c])
    &&& forall|c: u64, j: int|
        0 <= j < n && #[trigger] opens(reports, remote, j, c) ==> t.links.dom().contains(c)
    &&& t.got_relayed <==> exists|i: int|
        0 <= i < n && #[trigger] ping_ran_over(reports, remote, i, true)
    &&& t.got_direct <==> exists|i: int|
        0 <= i < n && #[trigger] ping_ran_over(reports, remote, i, false)
}

/// What a dialer has noted while it watched, after the first `n` reports.
spec fn watch_notes(s: DialView, reports: DialReports, n: int) -> bool {
    let t = dial_run(s, reports.take(n));
    &&& t.remote == s.remote
    &&& t.connected <==> exists|i: int| 0 <= i < n && #[trigger] connects(s, reports, i)
    &&& match t.hole_punch {
        Some(ok) => exists|i: int| #[trigger] last_punch(s, reports, n, i, ok),
        None => forall|i: int| 0 <= i < n ==> !#[trigger] punches(s, reports, i),
    }
    &&& match t.grace {
        Some(grace) => exists|i: int|
            0 <= i < n && #[trigger] first_ping(s, reports, i) && grace == (reports[i].1
                + GRACE) as u128,
        None => forall|i: int| 0 <= i < n ==> !#[trigger] pings(s, reports, i),
    }
}

/// A step changes what is noted of the connections only by the report itself.
proof fn lemma_step_notes_links(s: DialView, input: DialInputView, now: u128)
    ensures
        ({
            let t = dial_step(s, input, now).0;
            let u = noted(s, input);
            &&& t.remote == u.remote
            &&& t.links == u.links
            &&& t.got_relayed == u.got_relayed
            &&& t.got_direct == u.got_direct
        }),
{
}

/// A step changes the rest of what is noted only by an event that is seen while watching.
proof fn lemma_step_notes_watch(s: DialView, input: DialInputView, now: u128)
    ensures
        ({
            let t = dial_step(s, input, now).0;
            let u = match input {
                DialInputView::Event(event) if s.phase is Watch => watch_event(s, event, now).0,
                _ => s,
            };
            &&& t.remote == s.remote
            &&& t.connected == noted(s, input).connected
            &&& t.hole_punch == u.hole_punch
            &&& t.grace == u.grace
        }),
{
}

/// A ping counts for the kind of its connection, as the connection was last shown.
proof fn lemma_ping_path(t: DialView, remote: Seq<u8>, reports: DialReports, m: int)
    requires
        0 <= m < reports.len(),
        link_notes(t, remote, reports, m),
    ensures
        ({
            let u = noted(t, reports[m].0);
            &&& u.got_relayed == (t.got_relayed || ping_ran_over(reports, remote, m, true))
            &&& u.got_direct == (t.got_direct || ping_ran_over(reports, remote, m, false))
        }),
{
    if let DialInputView::Event(NetEventView::Pinged { connection, peer, .. }) = reports[m].0 {
        if peer == remote {
            if t.links.dom().contains(connection) {
                let b = t.links[connection];
                let j = choose|j: int| #[trigger] opened(reports, remote, m, j, connection, b);
                assert(ping_ran_over(reports, remote, m, b));
                let other = !b;
                if ping_ran_over(reports, remote, m, other) {
                    let k = choose|k: int| #[trigger]
                        opened(reports, remote, m, k, connection, other);
                    assert(opens(reports, remote, j, connection));
                    assert(opens(reports, remote, k, connection));
                    assert(false);
                }
            } else {
                assert forall|j: int, b: bool| !#[trigger]
                    opened(reports, remote, m, j, connection, b) by {
                    if opened(reports, remote, m, j, connection, b) {
                        assert(opens(reports, remote, j, connection));
                    }
                }
            }
        }
    }
}

/// What is noted of the connections stays right with one more report.
proof fn lemma_link_notes_step(
    t: DialView,
    v: DialView,
    remote: Seq<u8>,
    reports: DialReports,
    m: int,
)
    requires
        0 <= m < reports.len(),
        link_notes(t, remote, reports, m),
        ({
            let u = noted(t, reports[m].0);
            &&& v.remote == u.remote
            &&& v.links == u.links
            &&& v.got_relayed == u.got_relayed
            &&& v.got_direct == u.got_direct
        }),
    ensures
        link_notes(v, remote, reports, m + 1),
{
    let n = m + 1;
    lemma_ping_path(t, remote, reports, m);
    assert forall|c: u64| #[trigger] v.links.dom().contains(c) implies exists|j: int| #[trigger]
        opened(reports, remote, n, j, c, v.links[c]) by {
        if opens(reports, remote, m, c) {
            assert(opened(reports, remote, n, m, c, v.links[c]));
        } else {
            assert(t.links.dom().contains(c));
            let j = choose|j: int| #[trigger] opened(reports, remote, m, j, c, t.links[c]);
            assert(opened(reports, remote, n, j, c, v.links[c]));
        }
    }
}

#[verifier::rlimit(50)]
proof fn lemma_link_notes(s: DialView, reports: DialReports, n: int)
    requires
        s.links == Map::<u64, bool>::empty(),
        !s.got_relayed,
        !s.got_direct,
        0 <= n <= reports.len(),
    ensures
        link_notes(dial_run(s, reports.take(n)), s.remote, reports, n),
    decreases n,
{
    if n == 0 {
        assert(dial_run(s, reports.take(0)) == s);
    } else {
        let m = n - 1;
        lemma_link_notes(s, reports, m);
        lemma_dial_run_step(s, reports, m);
        let t = dial_run(s, reports.take(m));
        lemma_step_notes_links(t, reports[m].0, reports[m].1);
        lemma_link_notes_step(t, dial_run(s, reports.take(n)), s.remote, reports, m);
    }
}

#[verifier::rlimit(50)]
proof fn lemma_watch_notes(s: DialView, reports: DialReports, n: int)
    requires
        !s.connected,
        s.hole_punch is None,
        s.grace is None,
        0 <= n <= reports.len(),
    ensures
        watch_notes(s, reports, n),
    decreases n,
{
    if n == 0 {
        assert(dial_run(s, reports.take(0)) == s);
    } else {
        let m = n - 1;
        lemma_watch_notes(s, reports, m);
        lemma_dial_run_step(s, reports, m);
        let t = dial_run(s, reports.take(m));
        let v = dial_run(s, reports.take(n));
        lemma_step_notes_watch(t, reports[m].0, reports[m].1);
        assert(v.connected == (t.connected || connects(s, reports, m)));
        if punches(s, reports, m) {
            assert(last_punch(s, reports, n, m, v.hole_punch->0));
        } else {
            assert(v.hole_punch == t.hole_punch);
            if let Some(ok) = t.hole_punch {
                let i = choose|i: int| #[trigger] last_punch(s, reports, m, i, ok);
                assert(last_punch(s, reports, n, i, ok));
            }
        }
        if pings(s, reports, m) && t.grace is None {
            assert(first_ping(s, reports, m));
        } else {
            assert(v.grace == t.grace);
        }
    }
}

/// A dialer reports over which kind of connection pings of the listener came back: a relayed one
/// exactly if one of them ran over a relayed connection, and a direct one likewise. Its run ends
/// well exactly if one of them did either, or a connection to the listener came about while it
/// watched.
pub proof fn law_reports_the_path_of_the_pings(
    remote: Seq<u8>,
    hops: Seq<ParsedView>,
    targets: Seq<ParsedView>,
    deadline: u128,
    reports: DialReports,
)
    ensures
        ({
            let s = dial_start(remote, hops, targets, deadline);
            let t = dial_run(s, reports);
            &&& t.got_relayed <==> exists|i: int|
                0 <= i < reports.len() && #[trigger] ping_ran_over(reports, remote, i, true)
            &&& t.got_direct <==> exists|i: int|
                0 <= i < reports.len() && #[trigger] ping_ran_over(reports, remote, i, false)
            &&& t.connected <==> exists|i: int|
                0 <= i < reports.len() && #[trigger] connects(s, reports, i)
            &&& ends_well(t) <==> t.got_relayed || t.got_direct || t.connected
        }),
{
    let s = dial_start(remote, hops, targets, deadline);
    lemma_link_notes(s, reports, reports.len() as int);
    lemma_watch_notes(s, reports, reports.len() as int);
    assert(reports.take(reports.len() as int) =~= reports);
}

/// The peer that an event is about, if it is about one.
pub open spec fn peer_concerned(event: NetEventView) -> Option<Seq<u8>> {
    match event {
        NetEventView::Identified { peer, .. } => Some(peer),
        NetEventView::DialFailed { target } => target,
        NetEventView::Connected { peer, .. } => Some(peer),
        NetEventView::HolePunch { peer, .. } => Some(peer),
        NetEventView::Pinged { peer, .. } => Some(peer),
        _ => None,
    }
}

/// An event that is not about the listener changes nothing of what a dialer reports, nor of how
/// its run ends or of its grace, whatever the dialer is at.
pub proof fn law_other_peers_do_not_count(s: DialView, event: NetEventView, now: u128)
    requires
        peer_concerned(event) != Some(s.remote),
    ensures
        ({
            let t = dial_step(s, DialInputView::Event(event), now).0;
            &&& summary_line(t) == summary_line(s)
            &&& ends_well(t) == ends_well(s)
            &&& t.connected == s.connected
            &&& t.links == s.links
            &&& t.grace == s.grace
        }),
{
}

/// The given reports without those that a dialer gets while it watches and that are events not
/// about the listener.
pub open spec fn without_others(s: DialView, reports: DialReports) -> DialReports
    decreases reports.len(),
{
    if reports.len() == 0 {
        reports
    } else {
        let earlier = reports.drop_last();
        let kept = without_others(s, earlier);
        match reports.last().0 {
            DialInputView::Event(event) if dial_run(s, earlier).phase is Watch && peer_concerned(
                event,
            ) != Some(s.remote) => kept,
            _ => kept.push(reports.last()),
        }
    }
}

/// While a dialer watches, an event that is not about the listener can only end its run.
proof fn lemma_watching_ignores_others(t: DialView, event: NetEventView, now: u128)
    requires
        t.phase is Watch,
        peer_concerned(event) != Some(t.remote),
    ensures
        ({
            let v = dial_step(t, DialInputView::Event(event), now).0;
            v == t || v == (DialView { phase: DialPhase::Over, ..t })
        }),
{
}

/// Two states that differ in nothing, or only in that the run of the first is over.
spec fn same_but_over(t: DialView, u: DialView) -> bool {
    t == u || t == (DialView { phase: DialPhase::Over, ..u })
}

#[verifier::rlimit(50)]
proof fn lemma_others_left_out(s: DialView, reports: DialReports)
    requires
        forall|i: int|
            0 <= i < reports.len() ==> !((#[trigger] dial_run(s, reports.take(i))).phase is Over),
    ensures
        same_but_over(dial_run(s, reports), dial_run(s, without_others(s, reports))),
        dial_run(s, reports).remote == s.remote,
    decreases reports.len(),
{
    if reports.len() > 0 {
        let n = reports.len() - 1;
        let earlier = reports.drop_last();
        assert(earlier =~= reports.take(n));
        assert forall|i: int| 0 <= i < earlier.len() implies !((#[trigger] dial_run(
            s,
            earlier.take(i),
        )).phase is Over) by {
            assert(earlier.take(i) =~= reports.take(i));
        }
        lemma_others_left_out(s, earlier);
        let t = dial_run(s, earlier);
        assert(!(dial_run(s, reports.take(n)).phase is Over));
        let kept = without_others(s, earlier);
        let (input, now) = reports.last();
        lemma_step_notes_links(t, input, now);
        assert(t == dial_run(s, kept));
        if without_others(s, reports) == kept {
            if let DialInputView::Event(event) = input {
                if t.phase is Watch && peer_concerned(event) != Some(s.remote) {
                    lemma_watching_ignores_others(t, event, now);
                }
            }
        }
        assert(kept.push(reports.last()).drop_last() =~= kept);
    }
}

/// Leaving out what a dialer hears of other peers while it watches changes neither what it reports
/// nor whether its run ends well. The reports are those of a run that is not over before the last
/// of them.
pub proof fn law_runs_without_other_peers_report_the_same(
    remote: Seq<u8>,
    hops: Seq<ParsedView>,
    targets: Seq<ParsedView>,
    deadline: u128,
    reports: DialReports,
)
    requires
        forall|i: int|
            0 <= i < reports.len() ==> !((#[trigger] dial_run(
                dial_start(remote, hops, targets, deadline),
                reports.take(i),
            )).phase is Over),
    ensures
        ({
            let s = dial_start(remote, hops, targets, deadline);
            let t = dial_run(s, reports);
            let u = dial_run(s, without_others(s, reports));
            &&& summary_line(t) == summary_line(u)
            &&& ends_well(t) == ends_well(u)
        }),
{
    lemma_others_left_out(dial_start(remote, hops, targets, deadline), reports);
}

/// What a dialer reports of the attempts to reach the listener directly is how the last one that
/// it saw ended, and nothing where it saw none.
pub proof fn law_reports_the_last_hole_punch(
    remote: Seq<u8>,
    hops: Seq<ParsedView>,
    targets: Seq<ParsedView>,
    deadline: u128,
    reports: DialReports,
)
    ensures
        ({
            let s = dial_start(remote, hops, targets, deadline);
            match dial_run(s, reports).hole_punch {
                Some(ok) => exists|i: int| #[trigger]
                    last_punch(s, reports, reports.len() as int, i, ok),
                None => forall|i: int|
                    0 <= i < reports.len() ==> !#[trigger] punches(s, reports, i),
            }
        }),
{
    let s = dial_start(remote, hops, targets, deadline);
    lemma_watch_notes(s, reports, reports.len() as int);
    assert(reports.take(reports.len() as int) =~= reports);
}

/// The grace of a run counts from the first ping of the listener, whatever comes later, and there
/// is none before it.
pub proof fn law_grace_counts_from_the_first_ping(
    remote: Seq<u8>,
    hops: Seq<ParsedView>,
    targets: Seq<ParsedView>,
    deadline: u128,
    reports: DialReports,
)
    ensures
        ({
            let s = dial_start(remote, hops, targets, deadline);
            match dial_run(s, reports).grace {
                Some(grace) => exists|i: int|
                    0 <= i < reports.len() && #[trigger] first_ping(s, reports, i) && grace == (
                    reports[i].1 + GRACE) as u128,
                None => forall|i: int|
                    0 <= i < reports.len() ==> !#[trigger] pings(s, reports, i),
            }
        }),
{
    let s = dial_start(remote, hops, targets, deadline);
    lemma_watch_notes(s, reports, reports.len() as int);
    assert(reports.take(reports.len() as int) =~= reports);
}

/// A dialer that watches waits neither past its deadline nor past its grace, and it reports only
/// when one of them is over.
pub proof fn law_watching_ends_in_time(s: DialView, input: DialInputView, now: u128)
    ensures
        ({
            let (t, action) = dial_step(s, input, now);
            &&& t.phase is Watch ==> (action matches DialActionView::Wait { limit } ==> {
                &&& limit > 0
                &&& now + limit <= t.deadline
                &&& t.grace matches Some(grace) ==> now + limit <= grace
            })
            &&& action is Report ==> {
                ||| input is Elapsed
                ||| t.deadline <= now
                ||| t.grace matches Some(grace) && grace <= now
            }
        }),
{
}

/// The wait for an observed address ends in time: it begins when the last relay was dialed, lasts
/// [`LEARN_TIME`] at the longest and no longer than the run, and gives way to dialing the listener.
pub proof fn law_learning_ends_in_time(s: DialView, input: DialInputView, now: u128)
    ensures
        ({
            let (t, action) = dial_step(s, input, now);
            let until = learn_until(s, now);
            &&& until <= s.deadline && until <= (now + LEARN_TIME) as u128
            &&& s.phase is Relays && s.hops.len() == 0 && until > now ==> {
                &&& t.phase == DialPhase::Learn { until }
                &&& action matches DialActionView::Wait { limit } && now + limit == until
            }
            &&& s.phase is Relays && s.hops.len() == 0 && until <= now ==> !(t.phase is Learn)
                && !(t.phase is Relays)
            &&& s.phase matches DialPhase::Learn { until } ==> match action {
                DialActionView::Wait { limit } if t.phase is Learn => t.phase == s.phase && now
                    + limit == until,
                _ => !(t.phase is Learn) && !(t.phase is Relays),
            }
        }),
{
}

proof fn lemma_step_learns_before_the_deadline(t: DialView, input: DialInputView, now: u128)
    requires
        t.phase matches DialPhase::Learn { until } ==> until <= t.deadline,
    ensures
        ({
            let v = dial_step(t, input, now).0;
            &&& v.deadline == t.deadline
            &&& v.phase matches DialPhase::Learn { until } ==> until <= t.deadline
        }),
{
}

#[verifier::rlimit(50)]
proof fn lemma_learns_before_the_deadline(s: DialView, reports: DialReports, n: int)
    requires
        s.phase is Relays,
        0 <= n <= reports.len(),
    ensures
        ({
            let t = dial_run(s, reports.take(n));
            &&& t.deadline == s.deadline
            &&& t.phase matches DialPhase::Learn { until } ==> until <= s.deadline
        }),
    decreases n,
{
    if n == 0 {
        assert(dial_run(s, reports.take(0)) == s);
    } else {
        lemma_learns_before_the_deadline(s, reports, n - 1);
        lemma_dial_run_step(s, reports, n - 1);
        let t = dial_run(s, reports.take(n - 1));
        lemma_step_learns_before_the_deadline(t, reports[n - 1].0, reports[n - 1].1);
    }
}

proof fn lemma_step_waits_before_the_deadline(t: DialView, input: DialInputView, now: u128)
    requires
        t.phase matches DialPhase::Learn { until } ==> until <= t.deadline,
    ensures
        dial_step(t, input, now).1 matches DialActionView::Wait { limit } ==> limit > 0 && now
            + limit <= t.deadline,
{
}

/// A dialer never waits past its deadline, whatever it is at: no wait reaches past it, and none
/// begins from then on.
#[verifier::rlimit(50)]
pub proof fn law_dialer_ends_by_the_deadline(
    remote: Seq<u8>,
    hops: Seq<ParsedView>,
    targets: Seq<ParsedView>,
    deadline: u128,
    reports: DialReports,
    i: int,
)
    requires
        0 <= i < reports.len(),
    ensures
        dial_asked(dial_start(remote, hops, targets, deadline), reports, i) matches
            DialActionView::Wait { limit } ==> limit > 0 && reports[i].1 + limit <= deadline,
{
    let s = dial_start(remote, hops, targets, deadline);
    lemma_learns_before_the_deadline(s, reports, i);
    lemma_step_waits_before_the_deadline(
        dial_run(s, reports.take(i)),
        reports[i].0,
        reports[i].1,
    );
}

/// Whoever tells a dialer that learns or watches the address at which it sees this side, the
/// address is noted.
pub proof fn law_dialer_notes_observed_addresses(
    s: DialView,
    peer: Seq<u8>,
    observed: Seq<Component>,
    protocols: Seq<Seq<char>>,
    listen_addrs: Seq<Seq<Component>>,
    now: u128,
)
    requires
        s.phase is Learn || s.phase is Watch,
    ensures
        dial_step(
            s,
            DialInputView::Event(
                NetEventView::Identified { peer, observed, protocols, listen_addrs },
            ),
            now,
        ).1 == (DialActionView::AddExternalAddress { addr: observed }),
{
}

/// The order of the phases.
spec fn rank(phase: DialPhase) -> int {
    match phase {
        DialPhase::Relays => 0,
        DialPhase::Learn { .. } => 1,
        DialPhase::Listener => 2,
        DialPhase::Watch => 3,
        DialPhase::Over => 4,
    }
}

/// A step never goes back to an earlier phase. It dials relays in the first only, and the listener
/// before it watches.
proof fn lemma_step_rank(t: DialView, input: DialInputView, now: u128)
    ensures
        ({
            let (v, action) = dial_step(t, input, now);
            &&& rank(t.phase) <= rank(v.phase)
            &&& action is DialRelay ==> rank(t.phase) == 0
            &&& action is DialListener ==> rank(v.phase) == 2
        }),
{
}

#[verifier::rlimit(50)]
proof fn lemma_rank_grows(s: DialView, reports: DialReports, m: int, n: int)
    requires
        0 <= m <= n <= reports.len(),
    ensures
        rank(dial_run(s, reports.take(m)).phase) <= rank(dial_run(s, reports.take(n)).phase),
    decreases n - m,
{
    if m < n {
        lemma_rank_grows(s, reports, m, n - 1);
        lemma_dial_run_step(s, reports, n - 1);
        lemma_step_rank(dial_run(s, reports.take(n - 1)), reports[n - 1].0, reports[n - 1].1);
    }
}

/// Every relay is dialed before the listener is: once the listener was dialed no relay is.
#[verifier::rlimit(50)]
pub proof fn law_relays_are_dialed_first(s: DialView, reports: DialReports, i: int, j: int)
    requires
        0 <= i < j < reports.len(),
        dial_asked(s, reports, i) is DialListener,
    ensures
        !(dial_asked(s, reports, j) is DialRelay),
{
    lemma_dial_run_step(s, reports, i);
    lemma_step_rank(dial_run(s, reports.take(i)), reports[i].0, reports[i].1);
    lemma_rank_grows(s, reports, i + 1, j);
    lemma_step_rank(dial_run(s, reports.take(j)), reports[j].0, reports[j].1);
}

/// What is still to be dialed is a tail of what there was at the start. The relays are all dialed
/// before the dialer goes on, and so are the addresses of the listener.
spec fn dial_progress(s: DialView, t: DialView) -> bool {
    &&& t.hops.len() <= s.hops.len()
    &&& t.hops == s.hops.skip(s.hops.len() - t.hops.len())
    &&& t.targets.len() <= s.targets.len()
    &&& t.targets == s.targets.skip(s.targets.len() - t.targets.len())
    &&& (t.phase is Learn || t.phase is Listener || t.phase is Watch) ==> t.hops.len() == 0
    &&& t.phase is Watch ==> t.targets.len() == 0
    &&& (t.phase is Relays || t.phase is Learn) ==> t.targets == s.targets
}

/// What one step does to what is still to be dialed, and to the phase.
spec fn advances(t: DialView, v: DialView) -> bool {
    &&& v.hops == t.hops || (t.phase is Relays && t.hops.len() > 0 && v.hops == t.hops.skip(1))
    &&& v.targets == t.targets || (t.targets.len() > 0 && v.targets == t.targets.skip(1) && (
    v.phase is Listener || v.phase is Over))
    &&& (v.phase is Learn || v.phase is Listener || v.phase is Watch) && t.phase is Relays
        ==> t.hops.len() == 0 && v.hops == t.hops
    &&& v.phase is Watch && !(t.phase is Watch) ==> t.targets.len() == 0
    &&& v.phase is Relays ==> t.phase is Relays
    &&& v.phase is Learn ==> t.phase is Relays || t.phase is Learn
    &&& v.phase is Watch || v.phase is Listener || v.phase is Learn ==> !(t.phase is Over)
}

proof fn lemma_step_advances(t: DialView, input: DialInputView, now: u128)
    ensures
        advances(t, dial_step(t, input, now).0),
{
}

/// What is left stays a tail if one more is taken from its head.
proof fn lemma_advance_is_progress(s: DialView, t: DialView, v: DialView)
    requires
        dial_progress(s, t),
        advances(t, v),
    ensures
        dial_progress(s, v),
{
    if v.hops != t.hops {
        assert(v.hops =~= s.hops.skip(s.hops.len() - v.hops.len()));
    }
    if v.targets != t.targets {
        assert(v.targets =~= s.targets.skip(s.targets.len() - v.targets.len()));
    }
}

#[verifier::rlimit(50)]
proof fn lemma_dial_progress(s: DialView, reports: DialReports, n: int)
    requires
        s.phase is Relays,
        0 <= n <= reports.len(),
    ensures
        dial_progress(s, dial_run(s, reports.take(n))),
    decreases n,
{
    if n == 0 {
        assert(dial_run(s, reports.take(0)) == s);
        assert(s.hops.skip(0) =~= s.hops);
        assert(s.targets.skip(0) =~= s.targets);
    } else {
        lemma_dial_progress(s, reports, n - 1);
        lemma_dial_run_step(s, reports, n - 1);
        let t = dial_run(s, reports.take(n - 1));
        let v = dial_run(s, reports.take(n));
        lemma_step_advances(t, reports[n - 1].0, reports[n - 1].1);
        lemma_advance_is_progress(s, t, v);
    }
}

/// A step dials the first of what is left, and takes it off.
proof fn lemma_step_dials(t: DialView, input: DialInputView, now: u128)
    ensures
        ({
            let (v, action) = dial_step(t, input, now);
            &&& action matches DialActionView::DialRelay { addr } ==> {
                &&& t.hops.len() > 0
                &&& t.hops[0] matches Ok(a) && addr == relay_part(a)
                &&& v.hops == t.hops.skip(1)
            }
            &&& action matches DialActionView::DialListener { addr } ==> {
                &&& t.targets.len() > 0
                &&& t.targets[0] matches Ok(a) && addr == a
                &&& v.targets == t.targets.skip(1)
                &&& t.hops.len() == 0 || t.phase is Learn || t.phase is Listener
            }
        }),
{
}

/// Addresses are dialed in their order, each once as its relay part and once as a whole; and the
/// dialer watches only after it dialed all of them.
#[verifier::rlimit(50)]
pub proof fn law_addresses_are_dialed_in_order(
    remote: Seq<u8>,
    hops: Seq<ParsedView>,
    targets: Seq<ParsedView>,
    deadline: u128,
    reports: DialReports,
    i: int,
)
    requires
        0 <= i < reports.len(),
    ensures
        ({
            let s = dial_start(remote, hops, targets, deadline);
            let t = dial_run(s, reports.take(i));
            let h = hops.len() - t.hops.len();
            let k = targets.len() - t.targets.len();
            &&& h >= 0 && k >= 0
            &&& dial_asked(s, reports, i) matches DialActionView::DialRelay { addr } ==> {
                &&& h < hops.len()
                &&& hops[h] matches Ok(a) && addr == relay_part(a)
                &&& dial_run(s, reports.take(i + 1)).hops.len() == t.hops.len() - 1
            }
            &&& dial_asked(s, reports, i) matches DialActionView::DialListener { addr } ==> {
                &&& h == hops.len()
                &&& k < targets.len()
                &&& targets[k] matches Ok(a) && addr == a
                &&& dial_run(s, reports.take(i + 1)).targets.len() == t.targets.len() - 1
            }
            &&& t.phase is Watch ==> h == hops.len() && k == targets.len()
        }),
{
    let s = dial_start(remote, hops, targets, deadline);
    lemma_dial_progress(s, reports, i);
    lemma_dial_run_step(s, reports, i);
    lemma_step_dials(dial_run(s, reports.take(i)), reports[i].0, reports[i].1);
}

/// The addresses, each read without fault.
pub open spec fn all_read(addrs: Seq<Seq<Component>>) -> Seq<ParsedView> {
    addrs.map_values(|a: Seq<Component>| ParsedView::Ok(a))
}

/// A dialer that gets a rendezvous from which the peer and its addresses can be read dials that
/// peer, at those addresses.
pub proof fn law_rendezvous_leads_to_the_listener(
    rv: RendezvousView,
    peer: Seq<u8>,
    addrs: Seq<Seq<Component>>,
    deadline: u128,
)
    requires
        tells(rv, peer, addrs),
    ensures
        dial_open(rv, deadline) is Ok,
        dial_open(rv, deadline)->Ok_0 == dial_start(
            peer,
            all_read(addrs),
            all_read(addrs),
            deadline,
        ),
{
    let parsed = rv.circuit_addrs.map_values(|t: Seq<char>| addr_from_text(t));
    assert(parsed =~= all_read(addrs)) by {
        assert forall|i: int| 0 <= i < addrs.len() implies parsed[i] == all_read(addrs)[i] by {
            assert(reads_as(rv.circuit_addrs[i], addrs[i]));
        }
    }
}

/// The first thing that such a dialer does is to dial the relay on which the listener reserved.
pub proof fn law_dialer_meets_the_listener_at_its_relay(
    rv: RendezvousView,
    peer: Seq<u8>,
    addrs: Seq<Seq<Component>>,
    relay: Seq<Component>,
    rest: Seq<Component>,
    deadline: u128,
    now: u128,
)
    requires
        tells(rv, peer, addrs),
        addrs.len() > 0,
        !relayed_addr(relay),
        addrs[0] == relay.push(Component::P2pCircuit) + rest,
    ensures
        dial_open(rv, deadline) is Ok,
        dial_step(dial_open(rv, deadline)->Ok_0, DialInputView::Done, now).1 == (
        DialActionView::DialRelay { addr: relay }),
{
    law_rendezvous_leads_to_the_listener(rv, peer, addrs, deadline);
    law_circuit_leads_back_to_its_relay(relay, rest);
    assert(all_read(addrs)[0] == ParsedView::Ok(addrs[0]));
}

/// How a dialer starts: with all relays and all addresses still to be dialed, and nothing seen.
pub proof fn law_dialer_starts_with_nothing_seen(
    remote: Seq<u8>,
    hops: Seq<ParsedView>,
    targets: Seq<ParsedView>,
    deadline: u128,
)
    ensures
        ({
            let s = dial_start(remote, hops, targets, deadline);
            &&& s.remote == remote
            &&& s.hops == hops
            &&& s.targets == targets
            &&& s.deadline == deadline
            &&& s.phase is Relays
            &&& forall|c: u64| !#[trigger] s.links.dom().contains(c)
            &&& !s.connected && !s.got_relayed && !s.got_direct
            &&& s.hole_punch is None && s.grace is None
        }),
{
}

/// A rendezvous whose peer can be read gives a dialer for that peer, with what each of its texts
/// holds, faults included, once for the relays and once for the listener. One whose peer cannot be
/// read gives the error of that text.
pub proof fn law_rendezvous_is_read_text_by_text(rv: RendezvousView, deadline: u128, i: int)
    requires
        0 <= i < rv.circuit_addrs.len(),
    ensures
        match peer_from_text(rv.peer_id) {
            Ok(peer) => dial_open(rv, deadline) matches Ok(s) && {
                &&& s.remote == peer
                &&& s.deadline == deadline
                &&& s.phase is Relays
                &&& s.hops.len() == rv.circuit_addrs.len()
                &&& s.targets.len() == rv.circuit_addrs.len()
                &&& s.hops[i] == addr_from_text(rv.circuit_addrs[i])
                &&& s.targets[i] == addr_from_text(rv.circuit_addrs[i])
            },
            Err(e) => dial_open(rv, deadline) matches Err(f) && f == e,
        },
{
}

/// What a report changes of what a dialer knows, whatever it is at. A connection to the listener
/// is known with whether it holds a circuit, and counts as made while the dialer watches. A ping
/// of the listener counts for the kind of its connection, if that is known, and the first one while
/// the dialer watches starts its grace, of twenty seconds. The end of a hole punch with the
/// listener while the dialer watches replaces the one before. Nothing else changes any of this.
pub proof fn law_what_a_report_tells_the_dialer(s: DialView, input: DialInputView, now: u128)
    ensures
        ({
            let t = dial_step(s, input, now).0;
            let watching = s.phase is Watch;
            &&& t.remote == s.remote
            &&& t.deadline == s.deadline
            &&& match input {
                DialInputView::Event(NetEventView::Connected { connection, peer, remote }) => if peer
                    == s.remote {
                    &&& t.links == s.links.insert(connection, remote.contains(Component::P2pCircuit))
                    &&& t.connected == (s.connected || watching)
                } else {
                    t.links == s.links && t.connected == s.connected
                },
                _ => t.links == s.links && t.connected == s.connected,
            }
            &&& match input {
                DialInputView::Event(NetEventView::Pinged { connection, peer, .. }) => if peer
                    == s.remote {
                    &&& t.got_relayed == (s.got_relayed || s.links.contains_pair(connection, true))
                    &&& t.got_direct == (s.got_direct || s.links.contains_pair(connection, false))
                    &&& t.grace == if watching && s.grace is None {
                        Some((now + 20_000_000_000) as u128)
                    } else {
                        s.grace
                    }
                } else {
                    t.got_relayed == s.got_relayed && t.got_direct == s.got_direct && t.grace
                        == s.grace
                },
                _ => t.got_relayed == s.got_relayed && t.got_direct == s.got_direct && t.grace
                    == s.grace,
            }
            &&& match input {
                DialInputView::Event(NetEventView::HolePunch { peer, ok }) => t.hole_punch == if peer
                    == s.remote && watching {
                    Some(ok)
                } else {
                    s.hole_punch
                },
                _ => t.hole_punch == s.hole_punch,
            }
        }),
{
    if let DialInputView::Event(NetEventView::Connected { remote, .. }) = input {
        law_relayed_means_a_circuit(remote);
    }
    lemma_step_notes_links(s, input, now);
    lemma_step_notes_watch(s, input, now);
    lemma_step_keeps_deadline(s, input, now);
}

proof fn lemma_step_keeps_deadline(s: DialView, input: DialInputView, now: u128)
    ensures
        dial_step(s, input, now).0.deadline == s.deadline,
{
}

/// Whether a dialer that asks for the action at the given time, and then stands in state `t`,
/// watches as long as it should: it waits until the first of its deadline and its grace, and
/// reports, and is over, exactly if one of them is reached.
pub open spec fn watches_on(t: DialView, action: DialActionView, now: u128) -> bool {
    if t.deadline <= now || (t.grace matches Some(grace) && grace <= now) {
        action is Report && t.phase is Over
    } else {
        &&& t.phase is Watch
        &&& action matches DialActionView::Wait { limit } && {
            &&& now + limit <= t.deadline
            &&& t.grace matches Some(grace) ==> now + limit <= grace
            &&& now + limit == t.deadline || (t.grace matches Some(grace) && now + limit == grace)
        }
    }
}

/// While a dialer watches, no event ends its run other than by a report, and that only once its
/// deadline is reached or its grace is over. It notes an address at which a peer sees it, and
/// otherwise waits for the rest of its time, or reports if there is none: a dial that failed, to
/// the listener or to anyone, does not fail the run.
pub proof fn law_watching_goes_on_whatever_happens(s: DialView, event: NetEventView, now: u128)
    requires
        s.phase is Watch,
    ensures
        ({
            let (t, action) = dial_step(s, DialInputView::Event(event), now);
            &&& t.hops == s.hops && t.targets == s.targets
            &&& match event {
                NetEventView::Identified { observed, .. } => {
                    &&& action == (DialActionView::AddExternalAddress { addr: observed })
                    &&& t.phase is Watch
                },
                _ => watches_on(t, action, now),
            }
        }),
{
}

/// A dialer that watches reports when its time is reported over, and goes on watching when what it
/// asked for is done.
pub proof fn law_watching_without_an_event(s: DialView, now: u128)
    requires
        s.phase is Watch,
    ensures
        ({
            let (t, action) = dial_step(s, DialInputView::Elapsed, now);
            action is Report && t == (DialView { phase: DialPhase::Over, ..s })
        }),
        ({
            let (t, action) = dial_step(s, DialInputView::Done, now);
            watches_on(t, action, now)
        }),
        dial_step(s, DialInputView::Refused, now) == dial_step(s, DialInputView::Done, now),
{
}

/// Whether a dialer in state `s` that asks for the action, and then stands in state `t`, goes on to
/// the listener: it dials the first address that is left, fails on a text that is none, with its
/// error, and watches once no address is left.
pub open spec fn goes_to_the_listener(
    s: DialView,
    t: DialView,
    action: DialActionView,
    now: u128,
) -> bool {
    if s.targets.len() == 0 {
        t.targets == s.targets && watches_on(t, action, now)
    } else {
        &&& t.targets == s.targets.skip(1)
        &&& match s.targets[0] {
            Ok(addr) => action == (DialActionView::DialListener { addr }) && t.phase is Listener,
            Err(e) => action == (DialActionView::Fail { fault: DialFaultView::Address(e) })
                && t.phase is Over,
        }
    }
}

/// A dialer that dials the listener goes on with its next address whatever is reported, but for
/// an address that could not be dialed, which fails the run.
pub proof fn law_listener_is_dialed_address_by_address(
    s: DialView,
    input: DialInputView,
    now: u128,
)
    requires
        s.phase is Listener,
    ensures
        ({
            let (t, action) = dial_step(s, input, now);
            &&& t.hops == s.hops
            &&& input is Refused ==> {
                &&& action == (DialActionView::Fail { fault: DialFaultView::Refused })
                &&& t == (DialView { phase: DialPhase::Over, ..s })
            }
            &&& !(input is Refused) ==> goes_to_the_listener(s, t, action, now)
        }),
{
}

/// A dialer that dials the relays dials the relay part of its next address whatever is reported,
/// also that the last could not be dialed, and fails on a text that is no address, with its error.
/// Once none is left it waits for an observed address, for fifteen seconds or what is left of its
/// run, and goes to the listener where nothing is left.
pub proof fn law_relays_are_dialed_one_by_one(s: DialView, input: DialInputView, now: u128)
    requires
        s.phase is Relays,
        now <= MAX_ELAPSED,
    ensures
        ({
            let (t, action) = dial_step(s, input, now);
            if s.hops.len() > 0 {
                &&& t.hops == s.hops.skip(1)
                &&& t.targets == s.targets
                &&& match s.hops[0] {
                    Ok(addr) => action matches DialActionView::DialRelay { addr: a } && a
                        == relay_part(addr) && t.phase is Relays,
                    Err(e) => action == (DialActionView::Fail { fault: DialFaultView::Address(e) })
                        && t.phase is Over,
                }
            } else if now < s.deadline {
                &&& t.hops == s.hops && t.targets == s.targets
                &&& action matches DialActionView::Wait { limit } && {
                    &&& limit <= 15_000_000_000 && now + limit <= s.deadline
                    &&& limit == 15_000_000_000 || now + limit == s.deadline
                    &&& t.phase == DialPhase::Learn { until: (now + limit) as u128 }
                }
            } else {
                t.hops == s.hops && goes_to_the_listener(s, t, action, now)
            }
        }),
{
}

/// A dialer that learns its address notes the one that it is told first and then dials the
/// listener. It also goes to the listener when its time is over, and until then waits for the rest
/// of it.
pub proof fn law_learning_leads_to_the_listener(s: DialView, input: DialInputView, now: u128)
    requires
        s.phase is Learn,
    ensures
        ({
            let (t, action) = dial_step(s, input, now);
            let until = s.phase->until;
            &&& t.hops == s.hops
            &&& match input {
                DialInputView::Event(NetEventView::Identified { observed, .. }) => {
                    &&& action == (DialActionView::AddExternalAddress { addr: observed })
                    &&& t == (DialView { phase: DialPhase::Listener, ..s })
                },
                DialInputView::Elapsed => goes_to_the_listener(s, t, action, now),
                _ => if until <= now {
                    goes_to_the_listener(s, t, action, now)
                } else {
                    &&& action matches DialActionView::Wait { limit } && now + limit == until
                    &&& t.phase == s.phase && t.targets == s.targets
                },
            }
        }),
{
}

/// What was read from texts is seen one by one, in order.
pub proof fn law_readings_are_seen_whole(parsed: Seq<Parsed>)
    ensures
        parsed_views(parsed).len() == parsed.len(),
        forall|i: int|
            0 <= i < parsed.len() ==> #[trigger] parsed_views(parsed)[i] == parsed_view(parsed[i]),
{
}

/// Once its run is over a dialer asks for nothing more.
pub proof fn law_over_is_the_end(s: DialView, input: DialInputView, now: u128)
    requires
        s.phase is Over,
    ensures
        dial_step(s, input, now).1 is Over,
        dial_step(s, input, now).0.phase is Over,
{
}

/// What the line of a dialer says of the three things that it tells.
pub open spec fn line(relayed: Seq<char>, direct: Seq<char>, hole_punch: Seq<char>) -> Seq<char> {
    "DIALER_RESULT relayed="@ + relayed + " direct="@ + direct + " hole_punch="@ + hole_punch
}

/// The line tells each of its three values by itself, whatever the other two are: `true` or
/// `false` for the pings over relayed and over direct connections, and for the hole punch `true`,
/// `false`, or `none` where there was none.
pub proof fn law_line_tells_each_value(s: DialView)
    ensures
        exists|r: Seq<char>, d: Seq<char>, h: Seq<char>|
            {
                &&& summary_line(s) == #[trigger] line(r, d, h)
                &&& s.got_relayed ==> r == "true"@
                &&& !s.got_relayed ==> r == "false"@
                &&& s.got_direct ==> d == "true"@
                &&& !s.got_direct ==> d == "false"@
                &&& s.hole_punch == Some(true) ==> h == "true"@
                &&& s.hole_punch == Some(false) ==> h == "false"@
                &&& s.hole_punch is None ==> h == "none"@
            },
{
    let r = if s.got_relayed {
        "true"@
    } else {
        "false"@
    };
    let d = if s.got_direct {
        "true"@
    } else {
        "false"@
    };
    let h = match s.hole_punch {
        Some(ok) => if ok {
            "true"@
        } else {
            "false"@
        },
        None => "none"@,
    };
    assert(summary_line(s) =~= line(r, d, h));
}

/// Two lines that agree hold the same words.
proof fn lemma_line_words(
    r: Seq<char>,
    d: Seq<char>,
    h: Seq<char>,
    q: Seq<char>,
    e: Seq<char>,
    g: Seq<char>,
)
    requires
        r == "true"@ || r == "false"@,
        d == "true"@ || d == "false"@,
        q == "true"@ || q == "false"@,
        e == "true"@ || e == "false"@,
        line(r, d, h) == line(q, e, g),
    ensures
        r == q,
        d == e,
        h == g,
{
    reveal_strlit("true");
    reveal_strlit("false");
    reveal_strlit("DIALER_RESULT relayed=");
    reveal_strlit(" direct=");
    reveal_strlit(" hole_punch=");
    let x = line(r, d, h);
    let y = line(q, e, g);
    let a = "DIALER_RESULT relayed="@.len() as int;
    assert(x[a] == r[0]);
    assert(y[a] == q[0]);
    assert(r == q);
    let b = a + r.len() + " direct="@.len();
    assert(x[b] == d[0]);
    assert(y[b] == e[0]);
    assert(d == e);
    let c = b + d.len() + " hole_punch="@.len();
    assert(x.skip(c) =~= h);
    assert(y.skip(c) =~= g);
}

/// Dialers that differ in any of the three things that the line tells have different lines.
pub proof fn law_lines_tell_dialers_apart(s: DialView, t: DialView)
    ensures
        summary_line(s) == summary_line(t) <==> {
            &&& s.got_relayed == t.got_relayed
            &&& s.got_direct == t.got_direct
            &&& s.hole_punch == t.hole_punch
        },
{
    law_line_tells_each_value(s);
    law_line_tells_each_value(t);
    let (r, d, h) = choose|r: Seq<char>, d: Seq<char>, h: Seq<char>|
        {
            &&& summary_line(s) == #[trigger] line(r, d, h)
            &&& s.got_relayed ==> r == "true"@
            &&& !s.got_relayed ==> r == "false"@
            &&& s.got_direct ==> d == "true"@
            &&& !s.got_direct ==> d == "false"@
            &&& s.hole_punch == Some(true) ==> h == "true"@
            &&& s.hole_punch == Some(false) ==> h == "false"@
            &&& s.hole_punch is None ==> h == "none"@
        };
    let (q, e, g) = choose|r: Seq<char>, d: Seq<char>, h: Seq<char>|
        {
            &&& summary_line(t) == #[trigger] line(r, d, h)
            &&& t.got_relayed ==> r == "true"@
            &&& !t.got_relayed ==> r == "false"@
            &&& t.got_direct ==> d == "true"@
            &&& !t.got_direct ==> d == "false"@
            &&& t.hole_punch == Some(true) ==> h == "true"@
            &&& t.hole_punch == Some(false) ==> h == "false"@
            &&& t.hole_punch is None ==> h == "none"@
        };
    if summary_line(s) == summary_line(t) {
        lemma_line_words(r, d, h, q, e, g);
    }
    reveal_strlit("true");
    reveal_strlit("false");
    reveal_strlit("none");
    assert("true"@[0] == 't' && "false"@[0] == 'f' && "none"@[0] == 'n');
}

} // verus!
