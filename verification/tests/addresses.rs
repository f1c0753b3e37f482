use p2p_probe::bootstrap::{bootstrap_seeds, listen_addrs, peers_of};
use p2p_probe::event::speaks_hop;
use p2p_probe::ip::{is_public_v4, is_public_v6};
use p2p_probe::multiaddr::{is_public, is_relayed, name_addrs, peer_id_of, AddrPart, ConnectedPoint, RawPart};
use p2p_probe::{Multiaddr, PeerId, PeerSet};

const RELAY: &str = "QmNnooDu7bfjPFoTZYxMNLWUQJyrVwtbZg5gBMjTezGAJN";
const OTHER: &str = "QmQCU2EcMqAqQPR2i9bChDtGNJchTbq5TbXJJ16u19uLTa";

fn addr(text: &str) -> Multiaddr {
    Multiaddr::parse(text).unwrap()
}

fn other(raw: &[u8]) -> AddrPart {
    AddrPart::Other(RawPart::from_bytes(raw).unwrap())
}

fn raw_of(part: &AddrPart) -> &[u8] {
    match part {
        AddrPart::Other(raw) => raw.as_bytes(),
        part => panic!("{part:?}"),
    }
}

fn peer(text: &str) -> PeerId {
    PeerId::parse(text).unwrap()
}

#[test]
fn peer_text_is_base58_of_the_raw_form() {
    let mut bytes = vec![0x12u8, 0x20];
    bytes.extend([7u8; 32]);
    let id = PeerId::from_bytes(&bytes).unwrap();
    assert_eq!(id.as_bytes(), &bytes[..]);
    let text = id.text();
    assert!(text.starts_with("Qm"));
    assert_eq!(text.len(), 46);
    let back = PeerId::parse(&text).unwrap();
    assert!(back == id);
    assert_eq!(back.as_bytes(), id.as_bytes());
}

#[test]
fn identity_peer_ids_read_back() {
    let id = PeerId::from_bytes(&[0, 3, 1, 2, 3]).unwrap();
    assert_eq!(id.as_bytes(), &[0, 3, 1, 2, 3]);
    assert!(id.text().starts_with('1'));
    assert!(PeerId::parse(&id.text()).unwrap() == id);
    assert!(id.clone() == id);
}

#[test]
fn raw_forms_of_no_peer_are_refused() {
    assert!(PeerId::from_bytes(&[]).is_none());
    assert!(PeerId::from_bytes(&[0x12]).is_none());
    assert!(PeerId::from_bytes(&[0x12, 2, 1]).is_none());
    assert!(PeerId::from_bytes(&[0x12, 1, 1, 1]).is_none());
    assert!(PeerId::from_bytes(&[0x13, 1, 1]).is_none());
    let mut long = vec![0u8, 43];
    long.extend([1u8; 43]);
    assert!(PeerId::from_bytes(&long).is_none());
    long[0] = 0x12;
    assert!(PeerId::from_bytes(&long).is_some());
    let mut longest = vec![0x12u8, 65];
    longest.extend([1u8; 65]);
    assert!(PeerId::from_bytes(&longest).is_none());
}

#[test]
fn long_encodings_of_a_peer_become_its_raw_form() {
    let mut bytes = vec![0x80u8; 9];
    bytes.extend([2u8, 1, 9]);
    let id = PeerId::from_bytes(&bytes).unwrap();
    assert_eq!(id.as_bytes(), &[0, 1, 9]);
}

#[test]
fn text_of_no_peer_is_refused() {
    assert!(PeerId::parse("not a peer").is_err());
    assert!(PeerId::parse("").is_err());
    assert_eq!(peer(RELAY).text(), RELAY);
}

#[test]
fn peer_sets_hold_each_peer_once() {
    let mut set = PeerSet::new();
    assert_eq!(set.len(), 0);
    assert!(set.insert(peer(RELAY)));
    assert!(!set.insert(peer(RELAY)));
    assert!(set.contains(&peer(RELAY)));
    assert!(!set.contains(&peer(OTHER)));
    assert!(set.insert(peer(OTHER)));
    assert_eq!(set.len(), 2);
}

#[test]
fn addresses_are_read_by_component() {
    let a = addr("/ip4/1.2.3.4/tcp/4001");
    assert_eq!(a.parts.len(), 2);
    assert!(matches!(a.parts[0], AddrPart::Ip4([1, 2, 3, 4])));
    assert_eq!(raw_of(&a.parts[1]), [6, 0x0f, 0xa1]);
    let a = addr("/ip6/2001:db8::1/udp/9/quic-v1/p2p-circuit");
    assert!(matches!(a.parts[0], AddrPart::Ip6([0x2001, 0xdb8, 0, 0, 0, 0, 0, 1])));
    assert_eq!(raw_of(&a.parts[1]), [0x91, 2, 0, 9]);
    assert_eq!(raw_of(&a.parts[2]), [0xcd, 3]);
    assert!(matches!(a.parts[3], AddrPart::P2pCircuit));
    let a = addr("/dns4/example.org/tcp/1");
    assert_eq!(raw_of(&a.parts[0]), b"\x36\x0bexample.org");
    let a = addr("/memory/7");
    assert_eq!(raw_of(&a.parts[0]), [0x89, 6, 0, 0, 0, 0, 0, 0, 0, 7]);
}

#[test]
fn raw_forms_are_read_by_libp2p() {
    assert!(RawPart::from_bytes(&[]).is_none());
    assert!(RawPart::from_bytes(&[6, 1]).is_none());
    assert!(RawPart::from_bytes(&[0x7f, 0]).is_none());
    // What follows the component is left alone.
    assert_eq!(RawPart::from_bytes(&[6, 0, 1, 9]).unwrap().as_bytes(), [6, 0, 1]);
    // A path of one slash needs no path in its raw form.
    assert_eq!(RawPart::from_bytes(&[0xa2, 0x25, 1, 0x2f]).unwrap().as_bytes(), [0xdd, 3]);
    // Kinds with a variant of their own have no raw form.
    assert!(RawPart::from_bytes(&[4, 8, 8, 8, 8]).is_none());
    assert!(RawPart::from_bytes(&[41, 0, 0, 0, 0, 0, 0, 0, 0, 0, 0, 0, 0, 0, 0, 0, 1]).is_none());
    assert!(RawPart::from_bytes(&[0xa5, 3, 3, 0, 1, 7]).is_none());
    assert!(RawPart::from_bytes(&[0xa2, 2]).is_none());
}

#[test]
fn text_of_every_other_kind_reads_back() {
    let garlic64 = [[0xbe, 3, 0x83, 3].as_slice(), &[0xfb; 387]].concat();
    let garlic32 = [[0xbf, 3, 32].as_slice(), &[0xfb; 32]].concat();
    let onion = [[0xbc, 3].as_slice(), &[7; 10], &[0, 80]].concat();
    let onion3 = [[0xbd, 3].as_slice(), &[7; 35], &[1, 0]].concat();
    let long = [[0x35, 0x80, 1].as_slice(), &[b'a'; 128]].concat();
    let parts: Vec<Vec<u8>> = vec![
        vec![0x21, 0, 1],
        b"\x35\x00".to_vec(),
        b"\x36\x03a.b".to_vec(),
        b"\x37\x03a.b".to_vec(),
        b"\x38\x01x".to_vec(),
        long,
        vec![0xe0, 3],
        vec![0xbb, 3],
        vec![0x94, 2],
        vec![0x93, 2],
        vec![0x98, 2],
        vec![0x99, 2],
        b"\xd2\x03\x04\x12\x02ab".to_vec(),
        vec![0xdf, 3],
        vec![0x89, 6, 255, 255, 255, 255, 255, 255, 255, 255],
        onion,
        onion3,
        vec![0xcc, 3],
        vec![0xcd, 3],
        vec![0x84, 1, 0, 1],
        vec![6, 255, 255],
        vec![0xc0, 3],
        vec![0xc6, 3],
        vec![0x91, 2, 0, 1],
        vec![0xad, 2],
        b"\x90\x03\x01a".to_vec(),
        vec![0xae, 2],
        vec![0xd1, 3],
        vec![0xdd, 3],
        b"\xa2\x25\x06/a %\xc3\xa9".to_vec(),
        vec![0xa2, 0x25, 0],
        vec![0xde, 3],
        b"\xac\x25\x03a/b".to_vec(),
        b"\x2a\x04eth0".to_vec(),
        vec![0x2b, 24],
        garlic64,
        garlic32,
        b"\xc1\x03\x03a.b".to_vec(),
        vec![0x95, 2],
    ];
    let a = Multiaddr { parts: parts.iter().map(|raw| other(raw)).collect() };
    let b = addr(&a.text());
    assert_eq!(b.parts.len(), parts.len());
    for (part, raw) in b.parts.iter().zip(&parts) {
        assert_eq!(raw_of(part), raw);
    }
}

#[test]
fn odd_components_do_not_read_back() {
    let name = Multiaddr { parts: vec![other(b"\x35\x07a/tcp/1")] };
    assert_eq!(addr(&name.text()).parts.len(), 2);
    let onion = [[0xbc, 3].as_slice(), &[7; 10], &[0, 0]].concat();
    let garlic64 = [[0xbe, 3, 1].as_slice(), &[7; 1]].concat();
    let garlic32 = [[0xbf, 3, 33].as_slice(), &[7; 33]].concat();
    for raw in [onion, garlic64, garlic32] {
        let a = Multiaddr { parts: vec![other(&raw)] };
        assert!(Multiaddr::parse(&a.text()).is_err());
    }
}

#[test]
fn text_of_plain_addresses_reads_back() {
    let texts = [
        "".to_string(),
        "/ip4/1.2.3.4/tcp/4001".to_string(),
        "/ip6/::ffff:1.2.3.4/udp/0/quic-v1".to_string(),
        "/dns/a/tcp/1".to_string(),
        "/dns4/a.b/tcp/1".to_string(),
        "/dns6/a.b.c/tcp/65535".to_string(),
        format!("/dnsaddr/x/p2p/{RELAY}"),
        format!("/ip4/9.9.9.9/tcp/1/p2p/{RELAY}/p2p-circuit/p2p/{OTHER}"),
    ];
    for text in &texts {
        assert_eq!(&addr(text).text(), text);
    }
}

#[test]
fn peers_with_an_empty_digest_read_back() {
    for bytes in [[0u8, 0], [0x12, 0]] {
        let id = PeerId::from_bytes(&bytes).unwrap();
        assert_eq!(PeerId::parse(&id.text()).unwrap().as_bytes(), &bytes);
        let a = addr("/ip4/8.8.8.8/tcp/1").with(AddrPart::P2p(id));
        let b = addr(&a.text());
        assert_eq!(peer_id_of(&b).unwrap().as_bytes(), &bytes);
        assert_eq!(b.parts.len(), 3);
    }
}

#[test]
fn other_components_keep_their_text() {
    assert_eq!(addr("/ip4/1.2.3.4/tcp/443/tls/ws").text(), "/ip4/1.2.3.4/tcp/443/tls/ws");
}

#[test]
fn text_of_no_address_is_refused() {
    assert!(Multiaddr::parse("ip4/1.2.3.4").is_err());
    assert!(Multiaddr::parse("/ip4/1.2.3.400").is_err());
    assert!(Multiaddr::parse("/nonsense").is_err());
    assert!(Multiaddr::parse("/tcp").is_err());
}

#[test]
fn first_peer_is_the_one_named() {
    let a = addr(&format!("/ip4/9.9.9.9/tcp/1/p2p/{RELAY}/p2p-circuit/p2p/{OTHER}"));
    assert_eq!(peer_id_of(&a).unwrap().text(), RELAY);
    assert!(peer_id_of(&addr("/ip4/9.9.9.9/tcp/1")).is_none());
    let b = addr("/ip4/9.9.9.9/tcp/1").with(AddrPart::P2p(peer(OTHER)));
    assert_eq!(peer_id_of(&b).unwrap().text(), OTHER);
}

#[test]
fn private_ranges_are_not_public() {
    for octets in [
        [127, 0, 0, 1],
        [127, 255, 255, 255],
        [10, 0, 0, 0],
        [172, 16, 0, 0],
        [172, 31, 255, 255],
        [192, 168, 0, 1],
        [169, 254, 1, 1],
        [100, 64, 0, 0],
        [100, 127, 255, 255],
    ] {
        assert!(!is_public_v4(&octets));
    }
    for octets in [
        [126, 0, 0, 1],
        [11, 0, 0, 0],
        [172, 15, 0, 0],
        [172, 32, 0, 0],
        [192, 167, 0, 1],
        [169, 253, 1, 1],
        [100, 63, 255, 255],
        [100, 128, 0, 0],
        [0, 0, 0, 0],
        [8, 8, 8, 8],
    ] {
        assert!(is_public_v4(&octets));
    }
}

#[test]
fn local_v6_addresses_are_not_public() {
    for segments in [
        [0, 0, 0, 0, 0, 0, 0, 0],
        [0, 0, 0, 0, 0, 0, 0, 1],
        [0xfc00, 0, 0, 0, 0, 0, 0, 1],
        [0xfdff, 1, 1, 1, 1, 1, 1, 1],
        [0xfe80, 0, 0, 0, 0, 0, 0, 1],
        [0xfebf, 0, 0, 0, 0, 0, 0, 1],
    ] {
        assert!(!is_public_v6(&segments));
    }
    for segments in [
        [0, 0, 0, 0, 0, 0, 0, 2],
        [0, 0, 0, 0, 0, 0, 1, 0],
        [0, 0, 0, 0, 0, 0xffff, 0x7f00, 1],
        [0xfbff, 0, 0, 0, 0, 0, 0, 1],
        [0xfe00, 0, 0, 0, 0, 0, 0, 1],
        [0xfec0, 0, 0, 0, 0, 0, 0, 1],
        [0x2001, 0xdb8, 0, 0, 0, 0, 0, 1],
    ] {
        assert!(is_public_v6(&segments));
    }
}

#[test]
fn one_private_component_makes_an_address_private() {
    assert!(is_public(&addr("/ip4/8.8.8.8/tcp/1")));
    assert!(is_public(&addr("/dns4/example.org/tcp/1")));
    assert!(is_public(&addr("")));
    assert!(!is_public(&addr("/ip4/192.168.1.1/tcp/1")));
    assert!(!is_public(&addr("/ip6/::1/tcp/1")));
    assert!(!is_public(&addr("/ip4/8.8.8.8/tcp/1/ip4/10.0.0.1")));
}

#[test]
fn relayed_addresses_are_not_public() {
    let text = format!("/ip4/8.8.8.8/tcp/1/p2p/{RELAY}/p2p-circuit");
    assert!(!is_public(&addr(&text)));
    assert!(is_relayed(&ConnectedPoint::Dialer { address: addr(&text) }));
    assert!(is_relayed(&ConnectedPoint::Listener { send_back_addr: addr(&text) }));
    let direct = "/ip4/8.8.8.8/tcp/1";
    assert!(!is_relayed(&ConnectedPoint::Dialer { address: addr(direct) }));
    assert!(!is_relayed(&ConnectedPoint::Listener { send_back_addr: addr(direct) }));
}

#[test]
fn relay_part_ends_before_the_circuit() {
    let relay = format!("/ip4/8.8.8.8/tcp/1/p2p/{RELAY}");
    let circuit = addr(&relay).with(AddrPart::P2pCircuit).with(AddrPart::P2p(peer(OTHER)));
    assert_eq!(circuit.text(), format!("{relay}/p2p-circuit/p2p/{OTHER}"));
    assert_eq!(circuit.into_relay_part().text(), relay);
    assert_eq!(addr(&relay).into_relay_part().text(), relay);
    assert_eq!(addr("/p2p-circuit").into_relay_part().text(), "");
}

#[test]
fn addresses_without_a_peer_are_passed_over() {
    let named = name_addrs(vec![
        addr("/ip4/8.8.8.8/tcp/1"),
        addr(&format!("/ip4/8.8.8.8/tcp/2/p2p/{RELAY}")),
        addr(&format!("/ip4/8.8.8.8/tcp/3/p2p/{OTHER}")),
    ]);
    assert_eq!(named.len(), 2);
    assert_eq!(named[0].0.text(), RELAY);
    assert_eq!(named[0].1.text(), format!("/ip4/8.8.8.8/tcp/2/p2p/{RELAY}"));
    assert_eq!(named[1].0.text(), OTHER);
}

#[test]
fn bootstrap_nodes_are_four_peers() {
    let seeds = bootstrap_seeds().unwrap();
    assert_eq!(seeds.len(), 4);
    assert_eq!(seeds[0].0.text(), RELAY);
    assert_eq!(seeds[0].1.text(), format!("/dnsaddr/bootstrap.libp2p.io/p2p/{RELAY}"));
    let peers = peers_of(&seeds);
    assert_eq!(peers.len(), 4);
    assert!(peers.contains(&peer(OTHER)));
    assert!(!peers.contains(&PeerId::from_bytes(&[0, 1, 1]).unwrap()));
}

#[test]
fn own_addresses_cover_both_stacks() {
    let texts: Vec<String> = listen_addrs().unwrap().iter().map(|a| a.text()).collect();
    assert_eq!(
        texts,
        [
            "/ip4/0.0.0.0/tcp/0",
            "/ip4/0.0.0.0/udp/0/quic-v1",
            "/ip6/::/tcp/0",
            "/ip6/::/udp/0/quic-v1"
        ]
    );
}

#[test]
fn hop_protocol_marks_a_relay() {
    let hop = "/libp2p/circuit/relay/0.2.0/hop".to_string();
    let stop = "/libp2p/circuit/relay/0.2.0/stop".to_string();
    assert!(speaks_hop(&vec![stop.clone(), hop]));
    assert!(!speaks_hop(&vec![stop]));
    assert!(!speaks_hop(&vec![]));
}
