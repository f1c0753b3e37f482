use p2p_probe::clock::{time_left, SECOND};
use p2p_probe::discovery::{
    give_up_message, preferred_addr, search_timeout_message, Discovery, DiscoveryAction, DiscoveryInput, WALK_PERIOD,
};
use p2p_probe::event::NetEvent;
use p2p_probe::multiaddr::ConnectedPoint;
use p2p_probe::text::{decimal_text, truth_text};
use p2p_probe::watch::{
    listener_report, listener_report_of, watch_timeout_message, DialerWatch, WatchAction,
    WatchInput,
};
use p2p_probe::{Multiaddr, PeerId, PeerSet};

fn peer(n: u8) -> PeerId {
    PeerId::from_bytes(&[0, 1, n]).unwrap()
}

fn addr(text: &str) -> Multiaddr {
    Multiaddr::parse(text).unwrap()
}

fn hop() -> Vec<String> {
    vec!["/libp2p/circuit/relay/0.2.0/hop".to_string()]
}

fn identified(n: u8, protocols: Vec<String>, addrs: &[&str]) -> DiscoveryInput {
    DiscoveryInput::Event(NetEvent::Identified {
        peer: peer(n),
        observed: addr("/ip4/7.7.7.7/tcp/7"),
        protocols,
        listen_addrs: addrs.iter().map(|a| addr(a)).collect(),
    })
}

fn set(members: &[u8]) -> PeerSet {
    let mut s = PeerSet::new();
    for n in members {
        s.insert(peer(*n));
    }
    s
}

fn wait_limit(a: DiscoveryAction) -> u128 {
    match a {
        DiscoveryAction::Wait { limit } => limit,
        other => panic!("{other:?}"),
    }
}

fn reserve(a: DiscoveryAction) -> (String, String) {
    match a {
        DiscoveryAction::Reserve { peer, addr } => (peer.text(), addr.text()),
        other => panic!("{other:?}"),
    }
}

/// When a run ends.
const END: u128 = 300 * SECOND;

/// A search in the DHT that has walked once and waits, at time 0.
fn waiting(bootstrap: &[u8]) -> Discovery {
    let mut d = Discovery::new(vec![], set(bootstrap), 120, END, 0);
    assert!(matches!(d.step(DiscoveryInput::Done, 0), DiscoveryAction::StartWalk));
    assert_eq!(wait_limit(d.step(DiscoveryInput::Done, 0)), WALK_PERIOD);
    d
}

#[test]
fn first_public_address_is_preferred() {
    let best = preferred_addr(vec![
        addr("/ip4/10.0.0.1/tcp/1"),
        addr("/ip4/8.8.8.8/tcp/2"),
        addr("/ip4/9.9.9.9/tcp/3"),
    ]);
    assert_eq!(best.unwrap().text(), "/ip4/8.8.8.8/tcp/2");
    let best = preferred_addr(vec![addr("/ip4/10.0.0.1/tcp/1"), addr("/ip4/10.0.0.2/tcp/1")]);
    assert_eq!(best.unwrap().text(), "/ip4/10.0.0.1/tcp/1");
    assert!(preferred_addr(vec![]).is_none());
}

#[test]
fn found_relay_is_asked_and_published() {
    let mut d = waiting(&[]);
    let heard = d.step(identified(1, hop(), &["/ip4/10.0.0.1/tcp/1", "/ip4/8.8.8.8/tcp/2"]), 1);
    match heard {
        DiscoveryAction::AddExternalAddress { addr } => {
            assert_eq!(addr.text(), "/ip4/7.7.7.7/tcp/7")
        }
        other => panic!("{other:?}"),
    }
    let (who, at) = reserve(d.step(DiscoveryInput::Done, 2));
    assert_eq!(who, peer(1).text());
    assert_eq!(at, format!("/ip4/8.8.8.8/tcp/2/p2p/{}/p2p-circuit", peer(1).text()));
    assert_eq!(wait_limit(d.step(DiscoveryInput::Listening { listener: 4 }, 3)), WALK_PERIOD - 3);
    let own = format!("{at}/p2p/{}", peer(9).text());
    let other = DiscoveryInput::Event(NetEvent::NewListenAddr { listener: 3, addr: addr("/tcp/1") });
    assert!(matches!(d.step(other, 4), DiscoveryAction::Wait { .. }));
    let granted = DiscoveryInput::Event(NetEvent::NewListenAddr { listener: 4, addr: addr(&own) });
    assert!(matches!(d.step(granted, 5), DiscoveryAction::Publish));
    assert!(matches!(d.step(DiscoveryInput::Done, 6), DiscoveryAction::Publish));
    let rv = d.rendezvous(&peer(9));
    assert_eq!(rv.peer_id, peer(9).text());
    assert_eq!(rv.circuit_addrs, [own]);
}

#[test]
fn granted_address_waits_for_a_due_walk() {
    let mut d = waiting(&[]);
    d.step(identified(1, hop(), &["/ip4/8.8.8.8/tcp/2"]), 1);
    d.step(DiscoveryInput::Done, 2);
    d.step(DiscoveryInput::Listening { listener: 0 }, 3);
    let granted = DiscoveryInput::Event(NetEvent::NewListenAddr { listener: 0, addr: addr("/tcp/1") });
    let late = WALK_PERIOD;
    assert!(matches!(d.step(granted, late), DiscoveryAction::StartWalk));
    assert!(matches!(d.step(DiscoveryInput::Done, late), DiscoveryAction::Publish));
}

#[test]
fn only_relays_outside_the_bootstrap_set_are_candidates() {
    let mut d = waiting(&[2]);
    for input in [
        identified(2, hop(), &["/ip4/8.8.8.8/tcp/2"]),
        identified(3, vec!["/ipfs/id/1.0.0".to_string()], &["/ip4/8.8.8.8/tcp/2"]),
        identified(4, hop(), &[]),
    ] {
        assert!(matches!(d.step(input, 1), DiscoveryAction::AddExternalAddress { .. }));
        assert!(matches!(d.step(DiscoveryInput::Done, 1), DiscoveryAction::Wait { .. }));
    }
}

#[test]
fn no_peer_is_asked_a_second_time() {
    let mut d = waiting(&[]);
    d.step(identified(1, hop(), &["/ip4/8.8.8.8/tcp/2"]), 1);
    reserve(d.step(DiscoveryInput::Done, 1));
    // Refused: the next candidate would follow, but there is none.
    assert!(matches!(d.step(DiscoveryInput::Done, 1), DiscoveryAction::Wait { .. }));
    d.step(identified(1, hop(), &["/ip4/8.8.8.8/tcp/2"]), 2);
    assert!(matches!(d.step(DiscoveryInput::Done, 2), DiscoveryAction::Wait { .. }));
    d.step(identified(5, hop(), &["/ip4/8.8.8.8/tcp/2"]), 3);
    assert_eq!(reserve(d.step(DiscoveryInput::Done, 3)).0, peer(5).text());
}

#[test]
fn found_relays_are_asked_in_turn() {
    let mut d = waiting(&[]);
    d.step(identified(1, hop(), &["/ip4/8.8.8.8/tcp/1"]), 1);
    reserve(d.step(DiscoveryInput::Done, 1));
    d.step(DiscoveryInput::Listening { listener: 0 }, 1);
    for n in [2, 3, 2, 4] {
        d.step(identified(n, hop(), &["/ip4/8.8.8.8/tcp/1"]), 1);
        // The reservation in flight keeps them waiting.
        assert!(matches!(d.step(DiscoveryInput::Done, 1), DiscoveryAction::Wait { .. }));
    }
    let closed = DiscoveryInput::Event(NetEvent::ListenerClosed { listener: 0 });
    assert_eq!(reserve(d.step(closed, 1)).0, peer(2).text());
    assert_eq!(reserve(d.step(DiscoveryInput::Done, 1)).0, peer(3).text());
    assert_eq!(reserve(d.step(DiscoveryInput::Done, 1)).0, peer(4).text());
    assert!(matches!(d.step(DiscoveryInput::Done, 1), DiscoveryAction::Wait { .. }));
}

#[test]
fn search_gives_up_on_a_silent_relay() {
    let mut d = waiting(&[]);
    d.step(identified(1, hop(), &["/ip4/8.8.8.8/tcp/1"]), 1);
    reserve(d.step(DiscoveryInput::Done, 1));
    d.step(DiscoveryInput::Listening { listener: 0 }, 1);
    let late = 120 * SECOND;
    let other = || DiscoveryInput::Event(NetEvent::Other);
    assert!(matches!(d.step(other(), late - 1), DiscoveryAction::StartWalk));
    assert_eq!(wait_limit(d.step(DiscoveryInput::Done, late - 1)), 1);
    let a = d.step(DiscoveryInput::Done, late);
    assert!(matches!(a, DiscoveryAction::GiveUp { seconds: 120, tried: 1 }));
}

#[test]
fn search_gives_up_with_candidates_left() {
    let mut d = waiting(&[]);
    d.step(identified(1, hop(), &["/ip4/8.8.8.8/tcp/1"]), 120 * SECOND);
    let a = d.step(DiscoveryInput::Done, 120 * SECOND);
    assert!(matches!(a, DiscoveryAction::GiveUp { seconds: 120, tried: 0 }));
}

#[test]
fn address_granted_late_is_published() {
    let mut d = waiting(&[]);
    d.step(identified(1, hop(), &["/ip4/8.8.8.8/tcp/1"]), 1);
    reserve(d.step(DiscoveryInput::Done, 1));
    d.step(DiscoveryInput::Listening { listener: 0 }, 1);
    let granted = DiscoveryInput::Event(NetEvent::NewListenAddr { listener: 0, addr: addr("/tcp/1") });
    assert!(matches!(d.step(granted, END), DiscoveryAction::StartWalk));
    assert!(matches!(d.step(DiscoveryInput::Done, END), DiscoveryAction::Publish));
    let mut w = d.into_watch();
    assert!(matches!(w.step(WatchInput::Begin, END), WatchAction::TimedOut));
}

#[test]
fn search_ends_at_the_deadline() {
    let mut d = Discovery::new(vec![], set(&[]), 120, 7, 0);
    assert!(matches!(d.step(DiscoveryInput::Done, 0), DiscoveryAction::StartWalk));
    assert_eq!(wait_limit(d.step(DiscoveryInput::Done, 3)), 4);
    assert!(matches!(d.step(DiscoveryInput::Done, 7), DiscoveryAction::TimedOut));
    assert_eq!(search_timeout_message(), "timed out waiting for a relay reservation");
}

#[test]
fn given_relay_is_waited_for_until_the_deadline() {
    let relay = addr(&format!("/ip4/8.8.8.8/tcp/1/p2p/{}", peer(1).text()));
    let mut d = Discovery::new(vec![relay], set(&[]), 10, END, 0);
    reserve(d.step(DiscoveryInput::Done, 0));
    assert_eq!(wait_limit(d.step(DiscoveryInput::Listening { listener: 0 }, 0)), END);
    // The seconds of a search in the DHT do not count.
    let other = || DiscoveryInput::Event(NetEvent::Other);
    assert_eq!(wait_limit(d.step(other(), 20 * SECOND)), 280 * SECOND);
    // An address that is told at the end is noted, and then the search stops.
    let told = d.step(identified(2, vec![], &[]), END);
    assert!(matches!(told, DiscoveryAction::AddExternalAddress { .. }));
    assert!(matches!(d.step(DiscoveryInput::Done, END), DiscoveryAction::TimedOut));
}

#[test]
fn closed_listener_frees_the_search() {
    let mut d = waiting(&[]);
    d.step(identified(1, hop(), &["/ip4/8.8.8.8/tcp/1"]), 1);
    reserve(d.step(DiscoveryInput::Done, 1));
    d.step(DiscoveryInput::Listening { listener: 0 }, 1);
    d.step(identified(2, hop(), &["/ip4/8.8.8.8/tcp/2"]), 1);
    // One in flight: the second has to wait.
    assert!(matches!(d.step(DiscoveryInput::Done, 1), DiscoveryAction::Wait { .. }));
    let elsewhere = DiscoveryInput::Event(NetEvent::ListenerClosed { listener: 8 });
    assert!(matches!(d.step(elsewhere, 1), DiscoveryAction::Wait { .. }));
    let closed = DiscoveryInput::Event(NetEvent::ListenerClosed { listener: 0 });
    assert_eq!(reserve(d.step(closed, 1)).0, peer(2).text());
}

#[test]
fn failed_dial_removes_the_listener() {
    let mut d = waiting(&[]);
    d.step(identified(1, hop(), &["/ip4/8.8.8.8/tcp/1"]), 1);
    reserve(d.step(DiscoveryInput::Done, 1));
    d.step(DiscoveryInput::Listening { listener: 6 }, 1);
    for target in [None, Some(peer(2))] {
        let failed = DiscoveryInput::Event(NetEvent::DialFailed { target });
        assert!(matches!(d.step(failed, 1), DiscoveryAction::Wait { .. }));
    }
    let failed = DiscoveryInput::Event(NetEvent::DialFailed { target: Some(peer(1)) });
    assert!(matches!(d.step(failed, 1), DiscoveryAction::RemoveListener { listener: 6 }));
    assert!(matches!(d.step(DiscoveryInput::Done, 1), DiscoveryAction::Wait { .. }));
}

#[test]
fn given_relays_are_asked_in_order_without_the_dht() {
    let at = |n: u8| format!("/ip4/8.8.8.8/tcp/{n}/p2p/{}", peer(n).text());
    let relays = vec![addr(&at(1)), addr("/ip4/8.8.8.8/tcp/9"), addr(&at(2)), addr(&at(1))];
    let mut d = Discovery::new(relays, set(&[1]), 10, END, 0);
    assert_eq!(reserve(d.step(DiscoveryInput::Done, 0)).1, format!("{}/p2p-circuit", at(1)));
    assert_eq!(reserve(d.step(DiscoveryInput::Done, 0)).1, format!("{}/p2p-circuit", at(2)));
    assert_eq!(wait_limit(d.step(DiscoveryInput::Done, 0)), END);
    // Other relays do not count any more.
    d.step(identified(3, hop(), &["/ip4/8.8.8.8/tcp/3"]), 1);
    assert_eq!(wait_limit(d.step(DiscoveryInput::Done, 1)), END - 1);
    let a = d.step(DiscoveryInput::Event(NetEvent::Other), 10 * SECOND);
    match a {
        DiscoveryAction::GiveUp { seconds, tried } => assert_eq!((seconds, tried), (10, 2)),
        other => panic!("{other:?}"),
    }
}

#[test]
fn search_gives_up_when_its_time_is_over() {
    let mut d = Discovery::new(vec![], set(&[]), 1, END, 0);
    assert!(matches!(d.step(DiscoveryInput::Done, 0), DiscoveryAction::StartWalk));
    assert_eq!(wait_limit(d.step(DiscoveryInput::Done, 0)), SECOND);
    let early = DiscoveryInput::Event(NetEvent::Other);
    assert_eq!(wait_limit(d.step(early, SECOND - 1)), 1);
    let a = d.step(DiscoveryInput::Event(NetEvent::Other), SECOND);
    assert!(matches!(a, DiscoveryAction::GiveUp { seconds: 1, tried: 0 }));
    assert_eq!(
        give_up_message(120, 37),
        "no relay accepted a reservation within 120s (37 peers tried)"
    );
}

#[test]
fn walks_are_a_period_apart() {
    let mut d = waiting(&[]);
    let early = WALK_PERIOD - 1;
    assert_eq!(wait_limit(d.step(DiscoveryInput::Done, early)), 1);
    assert!(matches!(d.step(DiscoveryInput::Done, WALK_PERIOD), DiscoveryAction::StartWalk));
    // The next one counts from the end of this one.
    assert_eq!(wait_limit(d.step(DiscoveryInput::Done, WALK_PERIOD + 3)), WALK_PERIOD);
}

fn connected(n: u8, at: &str) -> WatchInput {
    WatchInput::Event(NetEvent::Connected {
        connection: n as u64,
        peer: peer(n),
        endpoint: ConnectedPoint::Listener { send_back_addr: addr(at) },
    })
}

fn pinged(n: u8) -> WatchInput {
    WatchInput::Event(NetEvent::Pinged { connection: 0, peer: peer(n), rtt: 95_999_999 })
}

#[test]
fn only_pings_of_relayed_arrivals_end_the_wait() {
    let mut w = DialerWatch::new(set(&[2]), 100);
    assert!(matches!(w.step(WatchInput::Begin, 0), WatchAction::Wait { limit: 100 }));
    assert!(matches!(w.step(pinged(1), 10), WatchAction::Wait { limit: 90 }));
    assert!(matches!(w.step(connected(1, "/ip4/1.2.3.4/tcp/1"), 20), WatchAction::Wait { .. }));
    assert!(matches!(w.step(pinged(1), 30), WatchAction::Wait { .. }));
    assert!(matches!(w.step(connected(2, "/p2p-circuit"), 40), WatchAction::Wait { .. }));
    assert!(matches!(w.step(pinged(2), 50), WatchAction::Wait { .. }));
    assert!(matches!(w.step(connected(1, "/p2p-circuit"), 60), WatchAction::Wait { .. }));
    match w.step(pinged(1), 70) {
        WatchAction::Reached { peer: who, rtt } => {
            assert!(who == peer(1));
            assert_eq!(
                listener_report(&who, rtt),
                format!("LISTENER_OK peer={} rtt_ms=95", peer(1).text())
            );
        }
        other => panic!("{other:?}"),
    }
}

#[test]
fn wait_times_out() {
    let mut w = DialerWatch::new(set(&[]), 100);
    assert!(matches!(w.step(WatchInput::Begin, 100), WatchAction::TimedOut));
    let mut w = DialerWatch::new(set(&[]), 100);
    assert!(matches!(w.step(WatchInput::Begin, 99), WatchAction::Wait { limit: 1 }));
    assert!(matches!(w.step(WatchInput::Elapsed, 99), WatchAction::TimedOut));
    assert_eq!(watch_timeout_message(), "timed out waiting for dialer");
}

#[test]
fn wait_keeps_the_bootstrap_peers_of_the_search() {
    let mut w = Discovery::new(vec![], set(&[2]), 1, 50, 0).into_watch();
    w.step(connected(2, "/p2p-circuit"), 1);
    assert!(matches!(w.step(pinged(2), 2), WatchAction::Wait { limit: 48 }));
}

#[test]
fn lines_hold_decimal_numbers() {
    assert_eq!(decimal_text(0), "0");
    assert_eq!(decimal_text(9), "9");
    assert_eq!(decimal_text(10), "10");
    assert_eq!(decimal_text(1234567890), "1234567890");
    assert_eq!(decimal_text(u128::MAX), u128::MAX.to_string());
    assert_eq!(truth_text(true), "true");
    assert_eq!(truth_text(false), "false");
    assert_eq!(listener_report_of("x", 999_999), "LISTENER_OK peer=x rtt_ms=0");
    assert_eq!(listener_report_of("x", 1_000_000), "LISTENER_OK peer=x rtt_ms=1");
}

#[test]
fn time_left_is_never_negative() {
    assert_eq!(time_left(5, 3), 2);
    assert_eq!(time_left(3, 3), 0);
    assert_eq!(time_left(3, 5), 0);
}
