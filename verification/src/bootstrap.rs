//! The addresses that a run starts from.
use crate::multiaddr::{name_addrs, Multiaddr};
use crate::peer::{PeerId, PeerSet};
use std::collections::VecDeque;
use vstd::prelude::*;

verus! {

use crate::multiaddr::{
    addr_from_text,
    addr_views,
    named_addrs,
    named_views,
    reads_as,
    Component,
};
use crate::seqs::{first_index, lemma_first_index_is};

/// Public nodes through which the DHT is joined. They grant no reservations themselves.
pub open spec fn dht_bootstrap() -> Seq<Seq<char>> {
    seq![
        "/dnsaddr/bootstrap.libp2p.io/p2p/QmNnooDu7bfjPFoTZYxMNLWUQJyrVwtbZg5gBMjTezGAJN"@,
        "/dnsaddr/bootstrap.libp2p.io/p2p/QmQCU2EcMqAqQPR2i9bChDtGNJchTbq5TbXJJ16u19uLTa"@,
        "/dnsaddr/bootstrap.libp2p.io/p2p/QmbLHAnMoJPWSCR5Zhtx6BHJX9KiKNN6tpvbUcqanj75Nb"@,
        "/dnsaddr/bootstrap.libp2p.io/p2p/QmcZf59bWwK5XFi76CZX8cbJ4BhTzzA3gU1ZjYZcYW3dwt"@,
    ]
}

/// Where a run listens on its own: both IP versions, TCP and QUIC, any port.
pub open spec fn own_listen_addrs() -> Seq<Seq<char>> {
    seq![
        "/ip4/0.0.0.0/tcp/0"@,
        "/ip4/0.0.0.0/udp/0/quic-v1"@,
        "/ip6/::/tcp/0"@,
        "/ip6/::/udp/0/quic-v1"@,
    ]
}

/// Views of the given texts.
pub open spec fn str_views(texts: Seq<&str>) -> Seq<Seq<char>> {
    texts.map_values(|t: &str| t@)
}

/// Whether every text is that of an address.
pub open spec fn all_addrs(texts: Seq<Seq<char>>) -> bool {
    forall|i: int| 0 <= i < texts.len() ==> addr_from_text(#[trigger] texts[i]) is Ok
}

/// The addresses that the texts hold.
pub open spec fn addrs_of(texts: Seq<Seq<char>>) -> Seq<Seq<Component>> {
    texts.map_values(|t: Seq<char>| addr_from_text(t)->Ok_0)
}

/// The error of the first text that holds no address.
pub open spec fn first_fault(texts: Seq<Seq<char>>) -> libp2p::multiaddr::Error {
    addr_from_text(
        texts[first_index(texts, |t: Seq<char>| addr_from_text(t) is Err) as int],
    )->Err_0
}

/// Reads an address from each text, and fails at the first that holds none.
fn parse_all(texts: &[&str]) -> (r: Result<Vec<Multiaddr>, libp2p::multiaddr::Error>)
    ensures
        r is Ok == all_addrs(str_views(texts@)),
        r is Ok ==> addr_views(r->Ok_0@) == addrs_of(str_views(texts@)),
        r is Err ==> r->Err_0 == first_fault(str_views(texts@)),
{
    let mut addrs: Vec<Multiaddr> = Vec::new();
    let mut i: usize = 0;
    while i < texts.len()
        invariant
            i <= texts.len(),
            addrs.len() == i,
            forall|j: int|
                0 <= j < i ==> reads_as(#[trigger] str_views(texts@)[j], addrs@[j]@),
        decreases texts.len() - i,
    {
        match Multiaddr::parse(texts[i]) {
            Ok(addr) => addrs.push(addr),
            Err(e) => {
                proof {
                    let views = str_views(texts@);
                    assert(addr_from_text(views[i as int]) is Err);
                    lemma_first_index_is(
                        views,
                        |t: Seq<char>| addr_from_text(t) is Err,
                        i as int,
                    );
                }
                return Err(e);
            },
        }
        i += 1;
    }
    proof {
        let views = str_views(texts@);
        assert forall|j: int| 0 <= j < views.len() implies addrs_of(views)[j] == addr_views(
            addrs@,
        )[j] by {
            assert(reads_as(views[j], addrs@[j]@));
        }
        assert(addr_views(addrs@) =~= addrs_of(views));
    }
    Ok(addrs)
}

/// The nodes through which the DHT is joined, each with its address.
pub fn bootstrap_seeds() -> (r: Result<
    VecDeque<(PeerId, Multiaddr)>,
    libp2p::multiaddr::Error,
>)
    ensures
        r is Ok == all_addrs(dht_bootstrap()),
        r is Ok ==> named_views(r->Ok_0@) == named_addrs(addrs_of(dht_bootstrap())),
        r is Err ==> r->Err_0 == first_fault(dht_bootstrap()),
{
    let texts = [
        "/dnsaddr/bootstrap.libp2p.io/p2p/QmNnooDu7bfjPFoTZYxMNLWUQJyrVwtbZg5gBMjTezGAJN",
        "/dnsaddr/bootstrap.libp2p.io/p2p/QmQCU2EcMqAqQPR2i9bChDtGNJchTbq5TbXJJ16u19uLTa",
        "/dnsaddr/bootstrap.libp2p.io/p2p/QmbLHAnMoJPWSCR5Zhtx6BHJX9KiKNN6tpvbUcqanj75Nb",
        "/dnsaddr/bootstrap.libp2p.io/p2p/QmcZf59bWwK5XFi76CZX8cbJ4BhTzzA3gU1ZjYZcYW3dwt",
    ];
    assert(str_views(texts@) =~= dht_bootstrap());
    match parse_all(&texts) {
        Ok(addrs) => Ok(name_addrs(addrs)),
        Err(e) => Err(e),
    }
}

/// Where a run listens on its own.
pub fn listen_addrs() -> (r: Result<Vec<Multiaddr>, libp2p::multiaddr::Error>)
    ensures
        r is Ok == all_addrs(own_listen_addrs()),
        r is Ok ==> addr_views(r->Ok_0@) == addrs_of(own_listen_addrs()),
        r is Err ==> r->Err_0 == first_fault(own_listen_addrs()),
{
    let texts = [
        "/ip4/0.0.0.0/tcp/0",
        "/ip4/0.0.0.0/udp/0/quic-v1",
        "/ip6/::/tcp/0",
        "/ip6/::/udp/0/quic-v1",
    ];
    assert(str_views(texts@) =~= own_listen_addrs());
    parse_all(&texts)
}

/// The peers among the given pairs.
pub fn peers_of(seeds: &VecDeque<(PeerId, Multiaddr)>) -> (r: PeerSet)
    ensures
        forall|p: Seq<u8>| #[trigger]
            r@.contains(p) <==> exists|i: int|
                0 <= i < seeds@.len() && #[trigger] named_views(seeds@)[i].0 == p,
{
    let mut peers = PeerSet::new();
    let mut i: usize = 0;
    while i < seeds.len()
        invariant
            i <= seeds.len(),
            forall|p: Seq<u8>| #[trigger]
                peers@.contains(p) <==> exists|j: int|
                    0 <= j < i && #[trigger] named_views(seeds@)[j].0 == p,
        decreases seeds.len() - i,
    {
        let ghost before = peers@;
        peers.insert(seeds[i].0.clone());
        proof {
            let views = named_views(seeds@);
            assert(peers@ == before.insert(views[i as int].0));
            assert forall|p: Seq<u8>| #[trigger] peers@.contains(p) <==> exists|j: int|
                0 <= j < i + 1 && #[trigger] views[j].0 == p by {
                if before.contains(p) {
                    let j = choose|j: int| 0 <= j < i && #[trigger] views[j].0 == p;
                    assert(views[j].0 == p);
                }
            }
        }
        i += 1;
    }
    peers
}

/// Every text is read, in order, and all are addresses exactly if each is.
pub proof fn law_texts_are_read_one_by_one(texts: Seq<Seq<char>>, i: int)
    requires
        0 <= i < texts.len(),
    ensures
        addrs_of(texts).len() == texts.len(),
        addr_from_text(texts[i]) matches Ok(a) ==> addrs_of(texts)[i] == a,
        addr_from_text(texts[i]) is Err ==> !all_addrs(texts),
        addr_from_text(texts[i]) is Err && all_addrs(texts.take(i)) ==> first_fault(texts)
            == addr_from_text(texts[i])->Err_0,
{
    let p = |t: Seq<char>| addr_from_text(t) is Err;
    if addr_from_text(texts[i]) is Err && all_addrs(texts.take(i)) {
        assert forall|j: int| 0 <= j < i implies !p(#[trigger] texts[j]) by {
            assert(texts.take(i)[j] == texts[j]);
        }
        lemma_first_index_is(texts, p, i);
    }
}

} // verus!
