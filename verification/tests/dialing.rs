use p2p_probe::dial::{DialAction, DialFault, Dialer, GRACE, LEARN_TIME};
use p2p_probe::event::NetEvent;
use p2p_probe::learn::{learn_observed_addr, DialInput, LearnAction};
use p2p_probe::multiaddr::{AddrPart, ConnectedPoint};
use p2p_probe::rendezvous::Rendezvous;
use p2p_probe::{Multiaddr, PeerId};
use std::collections::VecDeque;

fn peer(n: u8) -> PeerId {
    PeerId::from_bytes(&[0, 1, n]).unwrap()
}

fn addr(text: &str) -> Multiaddr {
    Multiaddr::parse(text).unwrap()
}

fn relay() -> Multiaddr {
    addr("/ip4/8.8.8.8/tcp/1").with(AddrPart::P2p(peer(1)))
}

fn circuit() -> Multiaddr {
    relay().with(AddrPart::P2pCircuit).with(AddrPart::P2p(peer(9)))
}

fn identified() -> DialInput {
    DialInput::Event(NetEvent::Identified {
        peer: peer(1),
        observed: addr("/ip4/7.7.7.7/tcp/7"),
        protocols: vec![],
        listen_addrs: vec![],
    })
}

fn connected(connection: u64, n: u8, at: Multiaddr) -> DialInput {
    DialInput::Event(NetEvent::Connected {
        connection,
        peer: peer(n),
        endpoint: ConnectedPoint::Dialer { address: at },
    })
}

fn punched(n: u8, ok: bool) -> DialInput {
    DialInput::Event(NetEvent::HolePunch { peer: peer(n), ok })
}

fn pinged(connection: u64, n: u8) -> DialInput {
    DialInput::Event(NetEvent::Pinged { connection, peer: peer(n), rtt: 1 })
}

fn limit(a: DialAction) -> u128 {
    match a {
        DialAction::Wait { limit } => limit,
        other => panic!("{other:?}"),
    }
}

const END: u128 = 300_000_000_000;

/// A dialer that has dialed everything and watches, from time 0 on.
fn watching() -> Dialer {
    let rv = Rendezvous::new(&peer(9), &vec![circuit()]);
    let mut d = Dialer::open(&rv, END).unwrap();
    assert!(matches!(d.step(DialInput::Done, 0), DialAction::DialRelay { .. }));
    assert_eq!(limit(d.step(DialInput::Done, 0)), LEARN_TIME);
    assert!(matches!(d.step(identified(), 0), DialAction::AddExternalAddress { .. }));
    assert!(matches!(d.step(DialInput::Done, 0), DialAction::DialListener { .. }));
    assert_eq!(limit(d.step(DialInput::Done, 0)), END);
    d
}

#[test]
fn dialer_goes_through_the_relay_of_the_listener() {
    let rv = Rendezvous::new(&peer(9), &vec![circuit()]);
    assert_eq!(rv.peer_id, peer(9).text());
    assert_eq!(rv.circuit_addrs, [circuit().text()]);
    let mut d = Dialer::open(&rv, END).unwrap();
    match d.step(DialInput::Done, 0) {
        DialAction::DialRelay { addr } => assert_eq!(addr.text(), relay().text()),
        other => panic!("{other:?}"),
    }
    // A relay that cannot be dialed does not matter.
    assert_eq!(limit(d.step(DialInput::Refused, 5)), LEARN_TIME);
    assert_eq!(limit(d.step(DialInput::Event(NetEvent::Other), 6)), LEARN_TIME - 1);
    match d.step(DialInput::Elapsed, 6) {
        DialAction::DialListener { addr } => assert_eq!(addr.text(), circuit().text()),
        other => panic!("{other:?}"),
    }
}

#[test]
fn every_relay_comes_before_the_listener() {
    let second = addr("/ip4/9.9.9.9/tcp/2/p2p-circuit");
    let rv = Rendezvous::new(&peer(9), &vec![circuit(), second]);
    let mut d = Dialer::open(&rv, END).unwrap();
    let mut asked = Vec::new();
    for _ in 0..3 {
        asked.push(format!("{:?}", d.step(DialInput::Done, 0)));
    }
    assert!(asked[0].starts_with("DialRelay") && asked[1].starts_with("DialRelay"));
    assert!(asked[2].starts_with("Wait"));
    assert!(matches!(d.step(DialInput::Done, LEARN_TIME), DialAction::DialListener { .. }));
    match d.step(DialInput::Done, LEARN_TIME) {
        DialAction::DialListener { addr } => {
            assert_eq!(addr.text(), "/ip4/9.9.9.9/tcp/2/p2p-circuit")
        }
        other => panic!("{other:?}"),
    }
    assert!(matches!(d.step(DialInput::Done, LEARN_TIME), DialAction::Wait { .. }));
}

#[test]
fn rendezvous_without_a_peer_is_refused() {
    let rv = Rendezvous { peer_id: "nobody".to_string(), circuit_addrs: vec![] };
    assert!(Dialer::open(&rv, END).is_err());
}

#[test]
fn text_that_is_no_address_fails_when_its_turn_comes() {
    let rv = Rendezvous {
        peer_id: peer(9).text(),
        circuit_addrs: vec![circuit().text(), "nowhere".to_string()],
    };
    let mut d = Dialer::open(&rv, END).unwrap();
    assert!(matches!(d.step(DialInput::Done, 0), DialAction::DialRelay { .. }));
    match d.step(DialInput::Done, 0) {
        DialAction::Fail { fault: DialFault::Address(e) } => {
            assert!(matches!(e, libp2p::multiaddr::Error::InvalidMultiaddr))
        }
        other => panic!("{other:?}"),
    }
    assert!(matches!(d.step(DialInput::Done, 0), DialAction::Over));
}

#[test]
fn addresses_read_before_are_dialed() {
    let hops = VecDeque::from([Ok(circuit())]);
    let targets = VecDeque::from([Ok(circuit()), Multiaddr::parse("nowhere")]);
    let mut d = Dialer::new(peer(9), hops, targets, END);
    match d.step(DialInput::Done, 0) {
        DialAction::DialRelay { addr } => assert_eq!(addr.text(), relay().text()),
        other => panic!("{other:?}"),
    }
    assert_eq!(limit(d.step(DialInput::Done, 1)), LEARN_TIME);
    assert!(matches!(
        d.step(DialInput::Done, 1 + LEARN_TIME),
        DialAction::DialListener { .. }
    ));
    assert!(matches!(
        d.step(DialInput::Done, 2 + LEARN_TIME),
        DialAction::Fail { fault: DialFault::Address(_) }
    ));
}

#[test]
fn refused_listener_fails_the_run() {
    let rv = Rendezvous::new(&peer(9), &vec![circuit()]);
    let mut d = Dialer::open(&rv, END).unwrap();
    d.step(DialInput::Done, 0);
    d.step(DialInput::Done, 0);
    assert!(matches!(d.step(DialInput::Elapsed, 0), DialAction::DialListener { .. }));
    assert!(matches!(
        d.step(DialInput::Refused, 0),
        DialAction::Fail { fault: DialFault::Refused }
    ));
    assert!(matches!(d.step(DialInput::Done, 0), DialAction::Over));
}

#[test]
fn relayed_run_without_a_direct_connection() {
    let mut d = watching();
    assert_eq!(limit(d.step(connected(9, 9, circuit()), 1)), END - 1);
    assert_eq!(limit(d.step(punched(9, false), 2)), END - 2);
    assert_eq!(limit(d.step(pinged(9, 9), 3)), GRACE);
    assert!(matches!(d.step(DialInput::Elapsed, 3 + GRACE), DialAction::Report));
    assert_eq!(d.summary(), "DIALER_RESULT relayed=true direct=false hole_punch=false");
    assert!(d.outcome().is_ok());
    assert!(matches!(d.step(DialInput::Done, 3 + GRACE), DialAction::Over));
}

#[test]
fn report_tells_the_path_of_the_ping() {
    let direct = || addr("/ip4/5.5.5.5/tcp/5");
    let mut d = watching();
    d.step(connected(1, 9, circuit()), 1);
    d.step(connected(2, 9, direct()), 2);
    // Connections alone do not count.
    assert_eq!(d.summary(), "DIALER_RESULT relayed=false direct=false hole_punch=none");
    assert!(d.outcome().is_ok());
    // Nor do other peers, nor connections that were never shown.
    d.step(connected(3, 8, circuit()), 3);
    d.step(pinged(3, 8), 3);
    d.step(pinged(3, 9), 3);
    d.step(pinged(1, 8), 3);
    assert_eq!(d.summary(), "DIALER_RESULT relayed=false direct=false hole_punch=none");
    d.step(pinged(2, 9), 4);
    assert_eq!(d.summary(), "DIALER_RESULT relayed=false direct=true hole_punch=none");
    d.step(pinged(1, 9), 5);
    assert_eq!(d.summary(), "DIALER_RESULT relayed=true direct=true hole_punch=none");
}

#[test]
fn connections_made_while_learning_are_known() {
    let mut d = Dialer::open(&Rendezvous::new(&peer(9), &vec![]), END).unwrap();
    assert_eq!(limit(d.step(DialInput::Done, 0)), LEARN_TIME);
    assert_eq!(limit(d.step(connected(4, 9, circuit()), 1)), LEARN_TIME - 1);
    assert_eq!(limit(d.step(DialInput::Elapsed, 2)), END - 2);
    d.step(pinged(4, 9), 3);
    assert_eq!(d.summary(), "DIALER_RESULT relayed=true direct=false hole_punch=none");
}

#[test]
fn connection_made_while_learning_is_not_enough() {
    let mut d = Dialer::open(&Rendezvous::new(&peer(9), &vec![circuit()]), END).unwrap();
    d.step(DialInput::Done, 0);
    d.step(DialInput::Done, 0);
    assert_eq!(limit(d.step(connected(4, 9, circuit()), 1)), LEARN_TIME - 1);
    assert!(matches!(d.step(DialInput::Elapsed, 2), DialAction::DialListener { .. }));
    assert_eq!(limit(d.step(DialInput::Done, 3)), END - 3);
    assert!(matches!(d.step(DialInput::Elapsed, END), DialAction::Report));
    assert_eq!(d.summary(), "DIALER_RESULT relayed=false direct=false hole_punch=none");
    assert_eq!(d.outcome().unwrap_err(), "never connected to listener");
}

#[test]
fn run_whose_line_shows_a_path_ends_well() {
    let mut d = Dialer::open(&Rendezvous::new(&peer(9), &vec![]), END).unwrap();
    d.step(DialInput::Done, 0);
    d.step(connected(4, 9, circuit()), 1);
    d.step(DialInput::Elapsed, 2);
    assert!(d.outcome().is_err());
    d.step(pinged(4, 9), 3);
    assert!(d.outcome().is_ok());
}

#[test]
fn other_peers_leave_the_report_alone() {
    let run = |noisy: bool| {
        let mut d = watching();
        d.step(connected(1, 9, circuit()), 1);
        if noisy {
            d.step(connected(2, 8, addr("/ip4/5.5.5.5/tcp/5")), 1);
            d.step(pinged(2, 8), 1);
            d.step(punched(8, true), 1);
            d.step(identified(), 1);
        }
        d.step(punched(9, false), 2);
        d.step(pinged(1, 9), 3);
        assert!(matches!(d.step(DialInput::Elapsed, 3 + GRACE), DialAction::Report));
        (d.summary(), d.outcome())
    };
    assert_eq!(run(true), run(false));
    assert_eq!(run(true).0, "DIALER_RESULT relayed=true direct=false hole_punch=false");
}

#[test]
fn direct_run_reports_the_last_hole_punch() {
    let mut d = watching();
    d.step(punched(9, false), 1);
    d.step(punched(9, true), 2);
    d.step(punched(8, false), 3);
    d.step(connected(1, 9, addr("/ip4/5.5.5.5/tcp/5")), 4);
    d.step(pinged(1, 9), 5);
    assert_eq!(d.summary(), "DIALER_RESULT relayed=false direct=true hole_punch=true");
    assert!(d.outcome().is_ok());
}

#[test]
fn learning_does_not_outlast_the_run() {
    let rv = Rendezvous::new(&peer(9), &vec![circuit()]);
    let mut d = Dialer::open(&rv, 1_000).unwrap();
    d.step(DialInput::Done, 0);
    assert_eq!(limit(d.step(DialInput::Done, 0)), 1_000);
    assert_eq!(limit(d.step(DialInput::Event(NetEvent::Other), 400)), 600);
    assert!(matches!(d.step(DialInput::Elapsed, 1_000), DialAction::DialListener { .. }));
    assert!(matches!(d.step(DialInput::Done, 1_000), DialAction::Report));
    // With no time left there is nothing to wait for.
    let mut d = Dialer::open(&rv, 0).unwrap();
    assert!(matches!(d.step(DialInput::Done, 0), DialAction::DialRelay { .. }));
    assert!(matches!(d.step(DialInput::Done, 0), DialAction::DialListener { .. }));
    assert!(matches!(d.step(DialInput::Done, 0), DialAction::Report));
}

#[test]
fn circuits_of_any_kind_lead_to_the_listener() {
    for hop in [
        "/dns4/relay.example/tcp/443/tls/ws",
        "/ip4/8.8.8.8/udp/4001/quic-v1/webtransport/certhash/uEiAkH5a4DPGKUuOBjYw0CgwjvcJCJMD2K_1aluKR_tpevQ",
        "/ip4/8.8.8.8/tcp/443/tls/sni/relay.example/ws",
    ] {
        let at = format!("{hop}/p2p/{}", peer(1).text());
        let whole = format!("{at}/p2p-circuit/p2p/{}", peer(9).text());
        let rv = Rendezvous::new(&peer(9), &vec![addr(&whole)]);
        let mut d = Dialer::open(&rv, END).unwrap();
        match d.step(DialInput::Done, 0) {
            DialAction::DialRelay { addr } => assert_eq!(addr.text(), at),
            other => panic!("{other:?}"),
        }
        d.step(DialInput::Done, 0);
        match d.step(DialInput::Elapsed, 0) {
            DialAction::DialListener { addr } => assert_eq!(addr.text(), whole),
            other => panic!("{other:?}"),
        }
    }
}

#[test]
fn run_without_a_connection_fails() {
    let mut d = watching();
    d.step(connected(8, 8, circuit()), 1);
    assert!(matches!(d.step(DialInput::Event(NetEvent::Other), END), DialAction::Report));
    assert_eq!(d.summary(), "DIALER_RESULT relayed=false direct=false hole_punch=none");
    assert_eq!(d.outcome().unwrap_err(), "never connected to listener");
}

#[test]
fn grace_counts_from_the_first_ping_of_the_listener() {
    let mut d = watching();
    assert_eq!(limit(d.step(pinged(8, 8), 1)), END - 1);
    assert_eq!(limit(d.step(pinged(9, 9), 10)), GRACE);
    assert_eq!(limit(d.step(pinged(9, 9), 15)), GRACE - 5);
    assert!(matches!(d.step(DialInput::Event(NetEvent::Other), 10 + GRACE), DialAction::Report));
}

#[test]
fn deadline_ends_the_grace() {
    let mut d = watching();
    assert_eq!(limit(d.step(pinged(9, 9), END - 7)), 7);
}

#[test]
fn observed_addresses_are_noted_while_watching() {
    let mut d = watching();
    match d.step(identified(), 1) {
        DialAction::AddExternalAddress { addr } => assert_eq!(addr.text(), "/ip4/7.7.7.7/tcp/7"),
        other => panic!("{other:?}"),
    }
    assert_eq!(limit(d.step(DialInput::Done, 2)), END - 2);
}

#[test]
fn learning_ends_with_an_address_or_the_time() {
    assert!(matches!(
        learn_observed_addr(10, DialInput::Done, 3),
        LearnAction::Wait { limit: 7 }
    ));
    assert!(matches!(learn_observed_addr(10, DialInput::Done, 10), LearnAction::Stop));
    assert!(matches!(learn_observed_addr(10, DialInput::Elapsed, 3), LearnAction::Stop));
    assert!(matches!(
        learn_observed_addr(10, connected(1, 1, relay()), 4),
        LearnAction::Wait { limit: 6 }
    ));
    match learn_observed_addr(10, identified(), 12) {
        LearnAction::Learned { addr } => assert_eq!(addr.text(), "/ip4/7.7.7.7/tcp/7"),
        other => panic!("{other:?}"),
    }
}
