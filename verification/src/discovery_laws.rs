//! What holds of every search for a relay, whatever the network reports.
use vstd::prelude::*;

verus! {

use crate::clock::{earlier, left, MAX_ELAPSED};
use crate::discovery::{
    absorb,
    active_listener,
    active_peer,
    discovery_start,
    discovery_step,
    next_untried,
    preferred,
    DiscoveryActionView,
    DiscoveryInputView,
    DiscoveryView,
    TurnView,
    WALK_PERIOD,
};
use crate::event::{hop_protocol, NetEventView};
use crate::multiaddr::{named_addrs, peer_of, public_addr, Component, NamedAddrView};
use crate::seqs::{first_index, lemma_first_index};

/// The reports that a search gets, in order, each with its time.
pub type Reports = Seq<(DiscoveryInputView, u128)>;

/// The state after the given reports.
pub open spec fn run(s: DiscoveryView, reports: Reports) -> DiscoveryView
    decreases reports.len(),
{
    if reports.len() == 0 {
        s
    } else {
        let t = run(s, reports.drop_last());
        discovery_step(t, reports.last().0, reports.last().1).0
    }
}

/// What the search asks for on report number `i`.
pub open spec fn asked(s: DiscoveryView, reports: Reports, i: int) -> DiscoveryActionView {
    discovery_step(run(s, reports.take(i)), reports[i].0, reports[i].1).1
}

/// Whether the search asks the peer for a reservation on report number `i`.
pub open spec fn asks_peer(s: DiscoveryView, reports: Reports, i: int, peer: Seq<u8>) -> bool {
    asked(s, reports, i) matches DiscoveryActionView::Reserve { peer: p, .. } && p == peer
}

/// One more report is one more step.
proof fn lemma_run_step(s: DiscoveryView, reports: Reports, i: int)
    requires
        0 <= i < reports.len(),
    ensures
        run(s, reports.take(i + 1)) == discovery_step(
            run(s, reports.take(i)),
            reports[i].0,
            reports[i].1,
        ).0,
{
    let longer = reports.take(i + 1);
    assert(longer.drop_last() =~= reports.take(i));
    assert(longer.last() == reports[i]);
}

/// A step asks only a peer not tried, which is tried from then on, and forgets no peer tried.
proof fn lemma_step_tried(s: DiscoveryView, input: DiscoveryInputView, now: u128)
    ensures
        ({
            let (t, action) = discovery_step(s, input, now);
            match action {
                DiscoveryActionView::Reserve { peer, .. } => {
                    &&& !s.tried.contains(peer)
                    &&& t.tried == s.tried.insert(peer)
                },
                _ => t.tried == s.tried,
            }
        }),
{
    let (u, _) = absorb(s, input, now);
    lemma_first_index(u.candidates, |c: NamedAddrView| !u.tried.contains(c.0));
}

/// The peers tried after a number of reports are those tried at the start and those asked since.
proof fn lemma_run_tried(s: DiscoveryView, reports: Reports, n: int)
    requires
        0 <= n <= reports.len(),
    ensures
        forall|p: Seq<u8>| #[trigger]
            run(s, reports.take(n)).tried.contains(p) <==> s.tried.contains(p) || exists|i: int|
                0 <= i < n && #[trigger] asks_peer(s, reports, i, p),
    decreases n,
{
    if n == 0 {
        assert(run(s, reports.take(0)) == s);
    } else {
        lemma_run_tried(s, reports, n - 1);
        lemma_run_step(s, reports, n - 1);
        let t = run(s, reports.take(n - 1));
        lemma_step_tried(t, reports[n - 1].0, reports[n - 1].1);
        assert forall|p: Seq<u8>| #[trigger]
            run(s, reports.take(n)).tried.contains(p) <==> s.tried.contains(p) || exists|i: int|
                0 <= i < n && #[trigger] asks_peer(s, reports, i, p) by {
            if run(s, reports.take(n)).tried.contains(p) && !t.tried.contains(p) {
                assert(asks_peer(s, reports, n - 1, p));
            }
            if exists|i: int| 0 <= i < n && #[trigger] asks_peer(s, reports, i, p) {
                let i = choose|i: int| 0 <= i < n && #[trigger] asks_peer(s, reports, i, p);
                if i < n - 1 {
                    assert(t.tried.contains(p));
                }
            }
        }
    }
}

/// No peer is asked for a reservation twice.
pub proof fn law_no_peer_is_asked_twice(
    s: DiscoveryView,
    reports: Reports,
    i: int,
    j: int,
    peer: Seq<u8>,
)
    requires
        0 <= i < j < reports.len(),
        asks_peer(s, reports, i, peer),
    ensures
        !asks_peer(s, reports, j, peer),
{
    lemma_run_tried(s, reports, j);
    assert(run(s, reports.take(j)).tried.contains(peer));
    lemma_step_tried(run(s, reports.take(j)), reports[j].0, reports[j].1);
}

/// The peers that a search counts as tried are those that it asked for a reservation.
pub proof fn law_tried_are_the_peers_asked(
    relays: Seq<Seq<Component>>,
    bootstrap: Set<Seq<u8>>,
    seconds: u64,
    deadline: u128,
    now: u128,
    reports: Reports,
    peer: Seq<u8>,
)
    ensures
        run(discovery_start(relays, bootstrap, seconds, deadline, now), reports).tried.contains(peer) <==> (
        exists|i: int|
            0 <= i < reports.len() && #[trigger] asks_peer(
                discovery_start(relays, bootstrap, seconds, deadline, now),
                reports,
                i,
                peer,
            )),
{
    let s = discovery_start(relays, bootstrap, seconds, deadline, now);
    lemma_run_tried(s, reports, reports.len() as int);
    assert(reports.take(reports.len() as int) =~= reports);
    assert(run(s, reports.take(reports.len() as int)).tried.contains(peer) <==> s.tried.contains(
        peer,
    ) || exists|i: int| 0 <= i < reports.len() && #[trigger] asks_peer(s, reports, i, peer));
}

/// A reservation is asked for only while none is in flight.
pub proof fn law_one_reservation_at_a_time(s: DiscoveryView, input: DiscoveryInputView, now: u128)
    ensures
        discovery_step(s, input, now).1 is Reserve ==> discovery_step(s, input, now).0.active is None,
{
}

/// A step of a search without the DHT takes candidates from the head of its queue, and adds none.
proof fn lemma_step_without_dht(s: DiscoveryView, input: DiscoveryInputView, now: u128)
    requires
        !s.use_dht,
    ensures
        ({
            let (t, action) = discovery_step(s, input, now);
            &&& !t.use_dht
            &&& t.deadline == s.deadline
            &&& exists|m: int|
                0 <= m <= s.candidates.len() && #[trigger] s.candidates.skip(m) == t.candidates
            &&& !(action is StartWalk)
            &&& action matches DiscoveryActionView::Wait { limit } ==> limit == left(
                s.deadline,
                now,
            )
            &&& action matches DiscoveryActionView::Reserve { peer, addr } ==> exists|k: int|
                0 <= k < s.candidates.len() && #[trigger] s.candidates[k].0 == peer && addr
                    == s.candidates[k].1.push(Component::P2pCircuit)
        }),
{
    let (u, _) = absorb(s, input, now);
    let (t, action) = discovery_step(s, input, now);
    assert(u.candidates == s.candidates);
    lemma_first_index(u.candidates, |c: NamedAddrView| !u.tried.contains(c.0));
    assert(s.candidates.skip(0) =~= s.candidates);
    assert(s.candidates.skip(s.candidates.len() as int) =~= Seq::empty());
    let k = next_untried(u) as int;
    if action is Reserve {
        assert(s.candidates.skip(k + 1) == t.candidates);
        assert(s.candidates[k].0 == action->peer);
    }
}

/// A run without the DHT leaves a tail of the candidates it began with, and asks for no walk.
proof fn lemma_run_without_dht(s: DiscoveryView, reports: Reports, n: int)
    requires
        !s.use_dht,
        0 <= n <= reports.len(),
    ensures
        !run(s, reports.take(n)).use_dht,
        run(s, reports.take(n)).deadline == s.deadline,
        exists|m: int|
            0 <= m <= s.candidates.len() && #[trigger] s.candidates.skip(m) == run(
                s,
                reports.take(n),
            ).candidates,
    decreases n,
{
    if n == 0 {
        assert(run(s, reports.take(0)) == s);
        assert(s.candidates.skip(0) =~= s.candidates);
    } else {
        lemma_run_without_dht(s, reports, n - 1);
        lemma_run_step(s, reports, n - 1);
        let t = run(s, reports.take(n - 1));
        lemma_step_without_dht(t, reports[n - 1].0, reports[n - 1].1);
        let m = choose|m: int|
            0 <= m <= s.candidates.len() && #[trigger] s.candidates.skip(m) == t.candidates;
        let u = run(s, reports.take(n));
        let l = choose|l: int|
            0 <= l <= t.candidates.len() && #[trigger] t.candidates.skip(l) == u.candidates;
        assert(s.candidates.skip(m + l) =~= s.candidates.skip(m).skip(l));
    }
}

/// Where relays are given, the DHT is left alone: no walk is asked for, a wait lasts until the
/// deadline if nothing happens, and a reservation is asked for only from a given relay, at the
/// address given for it. What is still to be asked is always a tail of the given list.
pub proof fn law_given_relays_replace_the_dht(
    relays: Seq<Seq<Component>>,
    bootstrap: Set<Seq<u8>>,
    seconds: u64,
    deadline: u128,
    now: u128,
    reports: Reports,
    i: int,
)
    requires
        relays.len() > 0,
        0 <= i < reports.len(),
    ensures
        ({
            let s = discovery_start(relays, bootstrap, seconds, deadline, now);
            let action = asked(s, reports, i);
            &&& !(action is StartWalk)
            &&& action matches DiscoveryActionView::Wait { limit } ==> limit == left(
                deadline,
                reports[i].1,
            )
            &&& action matches DiscoveryActionView::Reserve { peer, addr } ==> exists|k: int|
                0 <= k < relays.len() && peer_of(#[trigger] relays[k]) == Some(peer) && addr
                    == relays[k].push(Component::P2pCircuit)
            &&& exists|m: int|
                0 <= m <= named_addrs(relays).len() && #[trigger] named_addrs(relays).skip(m)
                    == run(s, reports.take(i)).candidates
        }),
{
    let s = discovery_start(relays, bootstrap, seconds, deadline, now);
    lemma_run_without_dht(s, reports, i);
    let t = run(s, reports.take(i));
    lemma_step_without_dht(t, reports[i].0, reports[i].1);
    let action = asked(s, reports, i);
    if action is Reserve {
        let m = choose|m: int|
            0 <= m <= s.candidates.len() && #[trigger] s.candidates.skip(m) == t.candidates;
        let k = choose|k: int|
            0 <= k < t.candidates.len() && #[trigger] t.candidates[k].0 == action->peer
                && action->Reserve_addr == t.candidates[k].1.push(Component::P2pCircuit);
        let named = |a: Seq<Component>| peer_of(a) is Some;
        let kept = relays.filter(named);
        assert(t.candidates[k] == s.candidates[m + k]);
        assert(s.candidates[m + k] == (peer_of(kept[m + k])->0, kept[m + k]));
        relays.lemma_filter_pred(named, m + k);
        assert(named(kept[m + k]));
        relays.lemma_filter_contains_rev(named, kept[m + k]);
        let r = choose|r: int| 0 <= r < relays.len() && relays[r] == kept[m + k];
        assert(peer_of(relays[r]) == Some(action->peer));
    }
}

/// Whether the report is of a peer that speaks the relay protocol, and the candidate is that peer
/// at the address it is best reached at.
pub open spec fn offers(report: DiscoveryInputView, c: NamedAddrView) -> bool {
    match report {
        DiscoveryInputView::Event(
            NetEventView::Identified { peer, protocols, listen_addrs, .. },
        ) => {
            &&& protocols.contains(hop_protocol())
            &&& listen_addrs.len() > 0
            &&& c == (peer, preferred(listen_addrs).push(Component::P2p(peer)))
        },
        _ => false,
    }
}

/// Whether one of the first `n` reports offers the candidate.
pub open spec fn offered(reports: Reports, n: int, c: NamedAddrView) -> bool {
    exists|j: int| 0 <= j < n && offers(#[trigger] reports[j].0, c)
}

/// Every candidate is a peer outside the bootstrap set that was offered by one of the first `n`
/// reports.
spec fn candidates_were_offered(t: DiscoveryView, reports: Reports, n: int) -> bool {
    forall|k: int|
        0 <= k < t.candidates.len() ==> offered(reports, n, #[trigger] t.candidates[k])
            && !t.bootstrap.contains(t.candidates[k].0)
}

/// What a search without given relays has among its candidates was offered to it.
proof fn lemma_run_candidates(s: DiscoveryView, reports: Reports, n: int)
    requires
        s.candidates.len() == 0,
        0 <= n <= reports.len(),
    ensures
        candidates_were_offered(run(s, reports.take(n)), reports, n),
        run(s, reports.take(n)).bootstrap == s.bootstrap,
    decreases n,
{
    if n == 0 {
        assert(run(s, reports.take(0)) == s);
    } else {
        lemma_run_candidates(s, reports, n - 1);
        lemma_run_step(s, reports, n - 1);
        let t = run(s, reports.take(n - 1));
        let (input, now) = reports[n - 1];
        let (u, _) = absorb(t, input, now);
        assert(candidates_were_offered(u, reports, n)) by {
            assert forall|k: int| 0 <= k < u.candidates.len() implies offered(
                reports,
                n,
                #[trigger] u.candidates[k],
            ) && !u.bootstrap.contains(u.candidates[k].0) by {
                let c = u.candidates[k];
                if k < t.candidates.len() {
                    assert(t.candidates[k] == c);
                    let j = choose|j: int| 0 <= j < n - 1 && offers(#[trigger] reports[j].0, c);
                    assert(offers(reports[j].0, c));
                } else {
                    assert(offers(reports[n - 1].0, c));
                }
            }
        }
        let v = run(s, reports.take(n));
        lemma_first_index(u.candidates, |c: NamedAddrView| !u.tried.contains(c.0));
        assert forall|k: int| 0 <= k < v.candidates.len() implies offered(
            reports,
            n,
            #[trigger] v.candidates[k],
        ) && !v.bootstrap.contains(v.candidates[k].0) by {
            let d = u.candidates.len() - v.candidates.len();
            assert(v.candidates[k] == u.candidates[k + d]);
        }
    }
}

/// Where no relay is given, a reservation is asked for only from a peer outside the bootstrap set
/// that told before that it speaks the relay protocol. It is asked at the address
/// that the peer is best reached at, with the peer and the circuit appended.
pub proof fn law_found_relays_offered_themselves(
    bootstrap: Set<Seq<u8>>,
    seconds: u64,
    deadline: u128,
    now: u128,
    reports: Reports,
    i: int,
)
    requires
        0 <= i < reports.len(),
    ensures
        asked(discovery_start(Seq::empty(), bootstrap, seconds, deadline, now), reports, i) matches
            DiscoveryActionView::Reserve { peer, addr } ==> {
            &&& !bootstrap.contains(peer)
            &&& addr.len() >= 2
            &&& addr[addr.len() - 2] == Component::P2p(peer)
            &&& addr[addr.len() - 1] == Component::P2pCircuit
            &&& offered(reports, i, (peer, addr.drop_last()))
        },
{
    let s = discovery_start(Seq::empty(), bootstrap, seconds, deadline, now);
    assert(named_addrs(Seq::empty()) =~= Seq::empty()) by {
        reveal(Seq::filter);
    }
    let action = asked(s, reports, i);
    if action is Reserve {
        lemma_run_candidates(s, reports, i);
        let t = run(s, reports.take(i));
        let (u, _) = absorb(t, reports[i].0, reports[i].1);
        lemma_first_index(u.candidates, |c: NamedAddrView| !u.tried.contains(c.0));
        let k = next_untried(u) as int;
        let c = u.candidates[k];
        assert(action->Reserve_addr.drop_last() =~= c.1);
        assert(u.candidates == t.candidates);
        assert(offered(reports, i, t.candidates[k]));
        let j = choose|j: int| 0 <= j < i && offers(#[trigger] reports[j].0, c);
        assert(offers(reports[j].0, c));
    }
}

/// Once an address is granted the search waits for nothing more.
spec fn settled(t: DiscoveryView) -> bool {
    t.accepted.len() > 0 ==> {
        &&& t.accepted.len() == 1
        &&& t.active is Some
        &&& !(t.turn is Waiting)
        &&& !(t.turn is ReserveRequested)
    }
}

/// Whether report number `j` grants the address to the reservation then in flight.
pub open spec fn grants(s: DiscoveryView, reports: Reports, j: int, addr: Seq<Component>) -> bool {
    reports[j].0 matches DiscoveryInputView::Event(
        NetEventView::NewListenAddr { listener, addr: a },
    ) && a == addr && active_listener(run(s, reports.take(j))) == Some(listener)
}

proof fn lemma_run_settled(s: DiscoveryView, reports: Reports, n: int)
    requires
        s.accepted.len() == 0,
        0 <= n <= reports.len(),
    ensures
        settled(run(s, reports.take(n))),
        run(s, reports.take(n)).accepted.len() > 0 ==> exists|j: int|
            0 <= j < n && #[trigger] grants(s, reports, j, run(s, reports.take(n)).accepted[0]),
    decreases n,
{
    if n == 0 {
        assert(run(s, reports.take(0)) == s);
    } else {
        lemma_run_settled(s, reports, n - 1);
        lemma_run_step(s, reports, n - 1);
        let t = run(s, reports.take(n - 1));
        let v = run(s, reports.take(n));
        if t.accepted.len() == 0 && v.accepted.len() > 0 {
            assert(grants(s, reports, n - 1, v.accepted[0]));
        } else if v.accepted.len() > 0 {
            assert(v.accepted == t.accepted);
            let j = choose|j: int|
                0 <= j < n - 1 && #[trigger] grants(s, reports, j, t.accepted[0]);
            assert(grants(s, reports, j, v.accepted[0]));
        }
    }
}

/// When the search asks to publish it has exactly one address, and that address was granted to
/// the reservation that was in flight at the time.
pub proof fn law_one_granted_address_is_published(
    relays: Seq<Seq<Component>>,
    bootstrap: Set<Seq<u8>>,
    seconds: u64,
    deadline: u128,
    now: u128,
    reports: Reports,
    i: int,
)
    requires
        0 <= i < reports.len(),
        asked(discovery_start(relays, bootstrap, seconds, deadline, now), reports, i) is Publish,
    ensures
        ({
            let s = discovery_start(relays, bootstrap, seconds, deadline, now);
            let accepted = run(s, reports.take(i + 1)).accepted;
            &&& accepted.len() == 1
            &&& exists|j: int| 0 <= j <= i && #[trigger] grants(s, reports, j, accepted[0])
        }),
{
    let s = discovery_start(relays, bootstrap, seconds, deadline, now);
    lemma_run_settled(s, reports, i + 1);
    lemma_run_step(s, reports, i);
}

/// A granted address is published: on the next report, or on the one after where a walk was due
/// first.
pub proof fn law_granted_address_is_published(
    relays: Seq<Seq<Component>>,
    bootstrap: Set<Seq<u8>>,
    seconds: u64,
    deadline: u128,
    now: u128,
    reports: Reports,
    i: int,
)
    requires
        0 <= i < reports.len() - 1,
        run(
            discovery_start(relays, bootstrap, seconds, deadline, now),
            reports.take(i),
        ).accepted.len() > 0,
    ensures
        ({
            let s = discovery_start(relays, bootstrap, seconds, deadline, now);
            ||| asked(s, reports, i) is Publish
            ||| asked(s, reports, i) is StartWalk && asked(s, reports, i + 1) is Publish
        }),
{
    let s = discovery_start(relays, bootstrap, seconds, deadline, now);
    lemma_run_settled(s, reports, i);
    lemma_run_step(s, reports, i);
}

/// The search gives up only when its seconds are over and nothing is granted, and where relays
/// were given only when nothing is in flight and nobody is left to ask. It then tells how many
/// peers it tried.
pub proof fn law_gives_up_only_after_its_seconds(
    s: DiscoveryView,
    input: DiscoveryInputView,
    now: u128,
)
    ensures
        ({
            let (t, action) = discovery_step(s, input, now);
            action matches DiscoveryActionView::GiveUp { seconds, tried } ==> {
                &&& t.give_up_at <= now
                &&& t.accepted.len() == 0
                &&& !t.use_dht ==> t.active is None && next_untried(t) >= t.candidates.len()
                &&& seconds == s.seconds
                &&& tried == t.tried.len()
            }
        }),
{
}

/// Candidates are asked in the order in which they were found: only those before the one asked are
/// passed over, and each of them was tried before. A new one goes to the end of the queue, and no
/// candidate is dropped that was not tried.
pub proof fn law_candidates_are_asked_in_turn(
    s: DiscoveryView,
    input: DiscoveryInputView,
    now: u128,
)
    ensures
        ({
            let (t, action) = discovery_step(s, input, now);
            match action {
                DiscoveryActionView::Reserve { peer, addr } => exists|k: int|
                    {
                        &&& 0 <= k < s.candidates.len()
                        &&& #[trigger] s.candidates[k] == (peer, addr.drop_last())
                        &&& t.candidates == s.candidates.skip(k + 1)
                        &&& forall|j: int|
                            0 <= j < k ==> s.tried.contains((#[trigger] s.candidates[j]).0)
                    },
                DiscoveryActionView::AddExternalAddress { .. } => {
                    ||| t.candidates == s.candidates
                    ||| exists|c: NamedAddrView| t.candidates == #[trigger] s.candidates.push(c)
                },
                _ => {
                    ||| t.candidates == s.candidates
                    ||| t.candidates.len() == 0 && forall|j: int|
                        0 <= j < s.candidates.len() ==> s.tried.contains(
                            (#[trigger] s.candidates[j]).0,
                        )
                },
            }
        }),
{
    let (u, _) = absorb(s, input, now);
    let (_, action) = discovery_step(s, input, now);
    let untried = |c: NamedAddrView| !u.tried.contains(c.0);
    lemma_first_index(u.candidates, untried);
    let k = next_untried(u) as int;
    assert forall|j: int| 0 <= j < k implies u.tried.contains((#[trigger] u.candidates[j]).0) by {
        assert(!untried(u.candidates[j]));
    }
    if action is Reserve {
        assert(action->Reserve_addr.drop_last() =~= s.candidates[k].1);
        assert(s.candidates[k] == (action->peer, action->Reserve_addr.drop_last()));
    }
}

/// Whether the place in the round fits what is in flight and in the queue.
spec fn in_step(t: DiscoveryView) -> bool {
    &&& t.turn is ReserveRequested ==> t.active is None
    &&& t.turn is Check ==> t.active is Some || t.candidates.len() == 0
}

proof fn lemma_run_in_step(s: DiscoveryView, reports: Reports, n: int)
    requires
        in_step(s),
        0 <= n <= reports.len(),
    ensures
        in_step(run(s, reports.take(n))),
        run(s, reports.take(n)).use_dht == s.use_dht,
        run(s, reports.take(n)).give_up_at == s.give_up_at,
        run(s, reports.take(n)).deadline == s.deadline,
    decreases n,
{
    if n == 0 {
        assert(run(s, reports.take(0)) == s);
    } else {
        lemma_run_in_step(s, reports, n - 1);
        lemma_run_step(s, reports, n - 1);
    }
}

/// The search never idles: it waits only while nothing is granted and there is time left, and
/// only if a reservation is in flight or nobody is left to ask.
pub proof fn law_search_never_idles(
    relays: Seq<Seq<Component>>,
    bootstrap: Set<Seq<u8>>,
    seconds: u64,
    deadline: u128,
    now: u128,
    reports: Reports,
    i: int,
)
    requires
        0 <= i < reports.len(),
        asked(discovery_start(relays, bootstrap, seconds, deadline, now), reports, i) is Wait,
    ensures
        ({
            let s = discovery_start(relays, bootstrap, seconds, deadline, now);
            let t = run(s, reports.take(i + 1));
            &&& t.accepted.len() == 0
            &&& t.active is Some || t.candidates.len() == 0
            &&& reports[i].1 < deadline
            &&& t.active is None || s.use_dht ==> reports[i].1 < s.give_up_at
        }),
{
    let s = discovery_start(relays, bootstrap, seconds, deadline, now);
    lemma_run_in_step(s, reports, i);
    lemma_run_in_step(s, reports, i + 1);
    lemma_run_step(s, reports, i);
}

/// A reservation stays in flight until the network reports that its listener is closed or that
/// its peer cannot be dialed. In the second case the listener is closed.
pub proof fn law_reservation_stays_in_flight(
    relays: Seq<Seq<Component>>,
    bootstrap: Set<Seq<u8>>,
    seconds: u64,
    deadline: u128,
    now: u128,
    reports: Reports,
    i: int,
)
    requires
        0 <= i < reports.len(),
        run(discovery_start(relays, bootstrap, seconds, deadline, now), reports.take(i)).active is Some,
    ensures
        ({
            let s = discovery_start(relays, bootstrap, seconds, deadline, now);
            let t = run(s, reports.take(i));
            let u = run(s, reports.take(i + 1));
            let listener = active_listener(t)->0;
            ||| u.active == t.active
            ||| reports[i].0 == DiscoveryInputView::Event(NetEventView::ListenerClosed { listener })
            ||| {
                &&& u.active is None
                &&& reports[i].0 == DiscoveryInputView::Event(
                    NetEventView::DialFailed { target: active_peer(t) },
                )
                &&& asked(s, reports, i) == (DiscoveryActionView::RemoveListener { listener })
            }
        }),
{
    let s = discovery_start(relays, bootstrap, seconds, deadline, now);
    lemma_run_in_step(s, reports, i);
    lemma_run_step(s, reports, i);
}

/// Whoever tells a waiting search the address at which it sees this side, the address is noted.
pub proof fn law_search_notes_observed_addresses(
    s: DiscoveryView,
    peer: Seq<u8>,
    observed: Seq<Component>,
    protocols: Seq<Seq<char>>,
    listen_addrs: Seq<Seq<Component>>,
    now: u128,
)
    requires
        s.turn is Waiting,
    ensures
        discovery_step(
            s,
            DiscoveryInputView::Event(
                NetEventView::Identified { peer, observed, protocols, listen_addrs },
            ),
            now,
        ).1 == (DiscoveryActionView::AddExternalAddress { addr: observed }),
{
}

/// No report is earlier than the one before it, and none is later than can be told.
pub open spec fn in_order(reports: Reports) -> bool {
    &&& forall|i: int, j: int|
        0 <= i <= j < reports.len() ==> (#[trigger] reports[i]).1 <= (#[trigger] reports[j]).1
    &&& forall|i: int| 0 <= i < reports.len() ==> (#[trigger] reports[i]).1 <= MAX_ELAPSED
}

/// When a search ends at the latest, if nothing is granted: at its deadline, and in the DHT also
/// after its seconds.
pub open spec fn search_end(s: DiscoveryView) -> u128 {
    if s.use_dht {
        earlier(s.deadline, s.give_up_at)
    } else {
        s.deadline
    }
}

/// Whether the action ends a search without success.
pub open spec fn stops(action: DiscoveryActionView) -> bool {
    action is GiveUp || action is TimedOut
}

/// Whether the action answers an event at once, before the search goes on.
pub open spec fn answers(action: DiscoveryActionView) -> bool {
    action is AddExternalAddress || action is RemoveListener
}

/// The search never outlasts its deadline, nor its seconds in the DHT. No wait reaches past
/// them, and from then on, while nothing is granted, the search stops; if an event has to be
/// answered first, it stops right after. In the DHT it gives up once its seconds are over.
pub proof fn law_search_ends_in_time(
    relays: Seq<Seq<Component>>,
    bootstrap: Set<Seq<u8>>,
    seconds: u64,
    deadline: u128,
    now: u128,
    reports: Reports,
    i: int,
)
    requires
        in_order(reports),
        0 <= i < reports.len(),
    ensures
        ({
            let s = discovery_start(relays, bootstrap, seconds, deadline, now);
            let action = asked(s, reports, i);
            let time = reports[i].1;
            let granted = run(s, reports.take(i + 1)).accepted.len() > 0;
            &&& action matches DiscoveryActionView::Wait { limit } ==> time + limit <= search_end(s)
            &&& search_end(s) <= time && !granted ==> stops(action) || (answers(action) && (i + 1
                < reports.len() ==> stops(asked(s, reports, i + 1))))
            &&& relays.len() == 0 && s.give_up_at <= time && !granted ==> action is GiveUp
                || answers(action)
        }),
{
    let s = discovery_start(relays, bootstrap, seconds, deadline, now);
    lemma_run_in_step(s, reports, i);
    lemma_run_in_step(s, reports, i + 1);
    lemma_run_step(s, reports, i);
    if i + 1 < reports.len() {
        assert(reports[i].1 <= reports[i + 1].1);
    }
}

/// After a walk that ended with report `from`, the next is due no earlier than a period later.
proof fn lemma_run_next_walk(s: DiscoveryView, reports: Reports, from: int, n: int)
    requires
        in_order(reports),
        0 <= from < n <= reports.len(),
        run(s, reports.take(from)).turn is WalkRequested,
    ensures
        run(s, reports.take(n)).next_walk >= reports[from].1 + WALK_PERIOD,
    decreases n,
{
    lemma_run_step(s, reports, n - 1);
    if n - 1 > from {
        lemma_run_next_walk(s, reports, from, n - 1);
        assert(reports[from].1 <= reports[n - 1].1);
    }
}

/// Between the end of one walk, which the report after its start tells, and the start of any later
/// walk lies at least [`WALK_PERIOD`].
pub proof fn law_walks_keep_their_distance(s: DiscoveryView, reports: Reports, i: int, j: int)
    requires
        in_order(reports),
        0 <= i < j < reports.len(),
        asked(s, reports, i) is StartWalk,
        asked(s, reports, j) is StartWalk,
    ensures
        i + 1 < j,
        reports[j].1 >= reports[i + 1].1 + WALK_PERIOD,
{
    lemma_run_step(s, reports, i);
    if i + 1 < j {
        lemma_run_next_walk(s, reports, i + 1, j);
    }
}

/// Whether the address is the one to reach a peer at that listens on the given ones: of a list that
/// holds a public address, a public one with no public one before it; of a list that holds none,
/// the first.
pub open spec fn best_of(addrs: Seq<Seq<Component>>, addr: Seq<Component>) -> bool {
    exists|k: int|
        {
            &&& 0 <= k < addrs.len()
            &&& #[trigger] addrs[k] == addr
            &&& public_addr(addr) ==> forall|j: int|
                0 <= j < k ==> !public_addr(#[trigger] addrs[j])
            &&& !public_addr(addr) ==> k == 0 && forall|j: int|
                0 <= j < addrs.len() ==> !public_addr(#[trigger] addrs[j])
        }
}

/// Of a list that holds a public address the chosen address is public, and none before it in the
/// list is; of a list that holds none it is the first.
pub proof fn law_first_public_address_is_chosen(addrs: Seq<Seq<Component>>)
    requires
        addrs.len() > 0,
    ensures
        best_of(addrs, preferred(addrs)),
        (exists|i: int| 0 <= i < addrs.len() && public_addr(#[trigger] addrs[i])) ==> exists|k: int|
            {
                &&& 0 <= k < addrs.len()
                &&& #[trigger] addrs[k] == preferred(addrs)
                &&& public_addr(addrs[k])
                &&& forall|j: int| 0 <= j < k ==> !public_addr(#[trigger] addrs[j])
            },
        (forall|i: int| 0 <= i < addrs.len() ==> !public_addr(#[trigger] addrs[i])) ==> preferred(
            addrs,
        ) == addrs[0],
{
    let p = |a: Seq<Component>| public_addr(a);
    lemma_first_index(addrs, p);
    let k = first_index(addrs, p) as int;
    assert forall|j: int| 0 <= j < k implies !public_addr(#[trigger] addrs[j]) by {
        assert(!p(addrs[j]));
    }
    if k < addrs.len() {
        assert(p(addrs[k]));
        assert(addrs[k] == preferred(addrs));
    } else {
        assert(addrs[0] == preferred(addrs));
    }
}

/// How a search starts: with the given relays as its candidates, in the DHT exactly if none are
/// given, nothing asked, in flight or granted, a walk due at once, and as many seconds as given.
pub proof fn law_search_starts_with_nothing_asked(
    relays: Seq<Seq<Component>>,
    bootstrap: Set<Seq<u8>>,
    seconds: u64,
    deadline: u128,
    now: u128,
)
    requires
        now <= MAX_ELAPSED,
    ensures
        ({
            let s = discovery_start(relays, bootstrap, seconds, deadline, now);
            &&& s.candidates == named_addrs(relays)
            &&& s.use_dht <==> relays.len() == 0
            &&& forall|p: Seq<u8>| !#[trigger] s.tried.contains(p)
            &&& s.active is None
            &&& s.accepted.len() == 0
            &&& s.bootstrap == bootstrap
            &&& s.seconds == seconds
            &&& s.give_up_at == now + seconds * 1_000_000_000
            &&& s.deadline == deadline
            &&& s.next_walk == now
            &&& s.turn is Walk
        }),
{
}

/// What a waiting search does with a peer that tells what it is. It notes the address at which the
/// peer sees it. In the DHT a peer outside the bootstrap set that was not tried, that speaks the
/// relay protocol, whatever else it speaks, and that listens somewhere, goes to the end of the
/// queue, at its best address with the peer appended. No other does, and nothing else changes.
pub proof fn law_relays_met_become_candidates(
    s: DiscoveryView,
    peer: Seq<u8>,
    observed: Seq<Component>,
    protocols: Seq<Seq<char>>,
    listen_addrs: Seq<Seq<Component>>,
    now: u128,
)
    requires
        s.turn is Waiting,
    ensures
        ({
            let (t, action) = discovery_step(
                s,
                DiscoveryInputView::Event(
                    NetEventView::Identified { peer, observed, protocols, listen_addrs },
                ),
                now,
            );
            let taken = s.use_dht && !s.bootstrap.contains(peer) && !s.tried.contains(peer)
                && protocols.contains("/libp2p/circuit/relay/0.2.0/hop"@) && listen_addrs.len() > 0;
            &&& action == (DiscoveryActionView::AddExternalAddress { addr: observed })
            &&& t == (DiscoveryView { candidates: t.candidates, turn: TurnView::Walk, ..s })
            &&& !taken ==> t.candidates == s.candidates
            &&& taken ==> {
                &&& t.candidates.len() == s.candidates.len() + 1
                &&& t.candidates.drop_last() == s.candidates
                &&& t.candidates.last().0 == peer
                &&& t.candidates.last().1.len() > 0
                &&& t.candidates.last().1.last() == Component::P2p(peer)
                &&& best_of(listen_addrs, t.candidates.last().1.drop_last())
            }
        }),
{
    if listen_addrs.len() > 0 {
        law_first_public_address_is_chosen(listen_addrs);
        let best = preferred(listen_addrs);
        assert(best.push(Component::P2p(peer)).drop_last() =~= best);
        let c = (peer, best.push(Component::P2p(peer)));
        assert(s.candidates.push(c).drop_last() =~= s.candidates);
    }
}

/// Every grant counts, with and without the DHT: when a waiting search hears an address of the
/// listener of the reservation in flight, that address joins those granted, and the search asks
/// to publish, or for a walk that is due and then to publish, whatever it is told next and
/// whenever.
pub proof fn law_every_grant_counts(
    s: DiscoveryView,
    peer: Seq<u8>,
    listener: u64,
    addr: Seq<Component>,
    now: u128,
    next: DiscoveryInputView,
    later: u128,
)
    requires
        s.turn is Waiting,
        s.active == Some((peer, listener)),
    ensures
        ({
            let (t, action) = discovery_step(
                s,
                DiscoveryInputView::Event(NetEventView::NewListenAddr { listener, addr }),
                now,
            );
            &&& t.accepted == s.accepted.push(addr)
            &&& t.active == s.active && t.candidates == s.candidates && t.tried == s.tried
            &&& action is Publish || action is StartWalk
            &&& action is StartWalk <==> s.use_dht && s.next_walk <= now
            &&& action is StartWalk ==> {
                let (u, after) = discovery_step(t, next, later);
                after is Publish && u.accepted == t.accepted
            }
        }),
{
}

/// A waiting search goes on as if nothing had been reported when it hears nothing that concerns
/// it: that the time of its wait is over, an address or the end of a listener of which nothing is
/// in flight, a failed dial of a peer that is not asked, a connection, a hole punch, a ping.
pub proof fn law_search_ignores_the_rest(s: DiscoveryView, input: DiscoveryInputView, now: u128)
    requires
        s.turn is Waiting,
        match input {
            DiscoveryInputView::Event(NetEventView::Identified { .. }) => false,
            DiscoveryInputView::Event(NetEventView::NewListenAddr { listener, .. }) => !(s.active
                matches Some((_, l)) && l == listener),
            DiscoveryInputView::Event(NetEventView::ListenerClosed { listener }) => !(s.active
                matches Some((_, l)) && l == listener),
            DiscoveryInputView::Event(NetEventView::DialFailed { target: Some(peer) }) => !(s.active
                matches Some((p, _)) && p == peer),
            _ => true,
        },
    ensures
        discovery_step(s, input, now) == discovery_step(
            DiscoveryView { turn: TurnView::Walk, ..s },
            DiscoveryInputView::Done,
            now,
        ),
{
}

/// The end of the reservation in flight frees a waiting search. Where its listener is closed the
/// search goes on at once as one with nothing in flight; where its peer cannot be dialed it first
/// closes the listener.
pub proof fn law_ended_reservation_frees_the_search(
    s: DiscoveryView,
    peer: Seq<u8>,
    listener: u64,
    now: u128,
)
    requires
        s.turn is Waiting,
        s.active == Some((peer, listener)),
    ensures
        ({
            let free = DiscoveryView { active: None, turn: TurnView::Walk, ..s };
            &&& discovery_step(
                s,
                DiscoveryInputView::Event(NetEventView::ListenerClosed { listener }),
                now,
            ) == discovery_step(free, DiscoveryInputView::Done, now)
            &&& discovery_step(
                s,
                DiscoveryInputView::Event(NetEventView::DialFailed { target: Some(peer) }),
                now,
            ) == (free, DiscoveryActionView::RemoveListener { listener })
        }),
{
}

/// After a walk was asked for, the search goes on with its candidates, and the next walk is due
/// five seconds later, whatever is reported.
pub proof fn law_next_walk_is_five_seconds_off(
    s: DiscoveryView,
    input: DiscoveryInputView,
    now: u128,
)
    requires
        s.turn is WalkRequested,
        now <= MAX_ELAPSED,
    ensures
        discovery_step(s, input, now) == discovery_step(
            DiscoveryView {
                next_walk: (now + 5_000_000_000) as u128,
                turn: TurnView::Reserve,
                ..s
            },
            DiscoveryInputView::Done,
            now,
        ),
{
}

/// After a reservation was asked for, the listener that waits for it makes it the one in flight;
/// without one, the search goes on with its other candidates.
pub proof fn law_reservation_is_in_flight_with_its_listener(
    s: DiscoveryView,
    peer: Seq<u8>,
    input: DiscoveryInputView,
    now: u128,
)
    requires
        s.turn == TurnView::ReserveRequested(peer),
    ensures
        discovery_step(s, input, now) == match input {
            DiscoveryInputView::Listening { listener } => discovery_step(
                DiscoveryView { active: Some((peer, listener)), turn: TurnView::Check, ..s },
                DiscoveryInputView::Done,
                now,
            ),
            _ => discovery_step(
                DiscoveryView { turn: TurnView::Reserve, ..s },
                DiscoveryInputView::Done,
                now,
            ),
        },
{
}

/// Whether the peer of every candidate was tried.
pub open spec fn all_tried(s: DiscoveryView) -> bool {
    forall|j: int| 0 <= j < s.candidates.len() ==> s.tried.contains((#[trigger] s.candidates[j]).0)
}

/// What a search asks for at each place of its round at which nothing is outstanding, by what
/// there is. While nothing is granted it stops once its time is over: it gives up after its
/// seconds, in the DHT in any case and with given relays once none of them can answer, and else
/// times out at its deadline. If it does not stop, it asks for a walk that is due at the beginning
/// of a round; else, if nothing is in flight, for a reservation from the first candidate not
/// tried; else to publish, if anything is granted; and else to wait, in the DHT until the first of
/// its deadline, its end and the next walk, and with given relays until its deadline.
pub proof fn law_search_asks_for_what_is_next(
    s: DiscoveryView,
    input: DiscoveryInputView,
    now: u128,
)
    requires
        s.turn is Walk || s.turn is Reserve || s.turn is Check,
    ensures
        ({
            let (t, action) = discovery_step(s, input, now);
            let hopeless = s.active is None && all_tried(s);
            let spent = s.accepted.len() == 0 && s.give_up_at <= now && (s.use_dht || hopeless);
            let late = s.accepted.len() == 0 && s.deadline <= now;
            let walk = s.turn is Walk && s.use_dht && s.next_walk <= now;
            let ask = !(s.turn is Check) && s.active is None && !all_tried(s);
            match action {
                DiscoveryActionView::GiveUp { seconds, tried } => {
                    &&& spent
                    &&& t == s
                    &&& seconds == s.seconds
                    &&& tried == s.tried.len()
                },
                DiscoveryActionView::TimedOut => !spent && late && t == s,
                DiscoveryActionView::StartWalk => {
                    &&& !spent && !late && walk
                    &&& t == (DiscoveryView { turn: TurnView::WalkRequested, ..s })
                },
                DiscoveryActionView::Reserve { peer, addr } => {
                    &&& !spent && !late && !walk && ask
                    &&& !s.tried.contains(peer)
                    &&& addr.len() > 0 && addr.last() == Component::P2pCircuit
                    &&& exists|k: int|
                        {
                            &&& 0 <= k < s.candidates.len()
                            &&& #[trigger] s.candidates[k] == (peer, addr.drop_last())
                            &&& forall|j: int|
                                0 <= j < k ==> s.tried.contains((#[trigger] s.candidates[j]).0)
                            &&& t.candidates == s.candidates.skip(k + 1)
                        }
                    &&& t == (DiscoveryView {
                        candidates: t.candidates,
                        tried: s.tried.insert(peer),
                        turn: TurnView::ReserveRequested(peer),
                        ..s
                    })
                },
                DiscoveryActionView::Publish => {
                    &&& !walk && !ask && s.accepted.len() > 0
                    &&& t.accepted == s.accepted
                },
                DiscoveryActionView::Wait { limit } => {
                    &&& !spent && !late && !walk && !ask && s.accepted.len() == 0
                    &&& t == (DiscoveryView {
                        candidates: t.candidates,
                        turn: TurnView::Waiting,
                        ..s
                    })
                    &&& t.candidates == s.candidates || (t.candidates.len() == 0 && hopeless)
                    &&& !s.use_dht ==> now + limit == s.deadline
                    &&& s.use_dht ==> {
                        &&& now + limit <= s.deadline
                        &&& now + limit <= s.give_up_at
                        &&& s.next_walk > now ==> now + limit <= s.next_walk
                        &&& s.next_walk <= now ==> limit == 0
                        &&& limit == 0 || now + limit == s.deadline || now + limit == s.give_up_at
                            || now + limit == s.next_walk
                    }
                },
                _ => false,
            }
        }),
{
    let untried = |c: NamedAddrView| !s.tried.contains(c.0);
    lemma_first_index(s.candidates, untried);
    let k = next_untried(s) as int;
    assert forall|j: int| 0 <= j < k implies s.tried.contains((#[trigger] s.candidates[j]).0) by {
        assert(!untried(s.candidates[j]));
    }
    if k < s.candidates.len() {
        assert(untried(s.candidates[k]));
        assert(!all_tried(s));
        let (peer, addr) = s.candidates[k];
        assert(addr.push(Component::P2pCircuit).drop_last() =~= addr);
        assert(s.candidates[k] == (peer, addr.push(Component::P2pCircuit).drop_last()));
    } else {
        assert(all_tried(s));
    }
}

} // verus!
