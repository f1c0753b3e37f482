//! Address ranges that are not reachable from the public internet.
use vstd::prelude::*;

verus! {

/// 127.0.0.0/8.
pub open spec fn v4_loopback(o: Seq<u8>) -> bool {
    o[0] == 127
}

/// 10.0.0.0/8, 172.16.0.0/12 and 192.168.0.0/16.
pub open spec fn v4_private(o: Seq<u8>) -> bool {
    ||| o[0] == 10
    ||| o[0] == 172 && 16 <= o[1] < 32
    ||| o[0] == 192 && o[1] == 168
}

/// 169.254.0.0/16.
pub open spec fn v4_link_local(o: Seq<u8>) -> bool {
    o[0] == 169 && o[1] == 254
}

/// 100.64.0.0/10, shared by carriers behind their own NAT.
pub open spec fn v4_carrier_nat(o: Seq<u8>) -> bool {
    o[0] == 100 && 64 <= o[1] < 128
}

/// An IPv4 address outside the four ranges above.
pub open spec fn v4_public(o: Seq<u8>) -> bool {
    !v4_loopback(o) && !v4_private(o) && !v4_link_local(o) && !v4_carrier_nat(o)
}

/// The address `::1`.
pub open spec fn v6_loopback(g: Seq<u16>) -> bool {
    (forall|i: int| 0 <= i < 7 ==> g[i] == 0) && g[7] == 1
}

/// The address `::`.
pub open spec fn v6_unspecified(g: Seq<u16>) -> bool {
    forall|i: int| 0 <= i < 8 ==> g[i] == 0
}

/// fc00::/7: the seven leading bits are 1111110.
pub open spec fn v6_unique_local(g: Seq<u16>) -> bool {
    0xfc00 <= g[0] < 0xfe00
}

/// fe80::/10: the ten leading bits are 1111111010.
pub open spec fn v6_link_local(g: Seq<u16>) -> bool {
    0xfe80 <= g[0] < 0xfec0
}

/// An IPv6 address that is neither `::1` nor `::`, and outside the two ranges above.
pub open spec fn v6_public(g: Seq<u16>) -> bool {
    !v6_loopback(g) && !v6_unspecified(g) && !v6_unique_local(g) && !v6_link_local(g)
}

/// Whether the address with these octets is outside the loopback, private, link-local and
/// carrier NAT ranges.
pub fn is_public_v4(octets: &[u8; 4]) -> (r: bool)
    ensures
        r == v4_public(octets@),
{
    let a: u8 = octets[0];
    let b: u8 = octets[1];
    let loopback = a == 127;
    let private = a == 10 || (a == 172 && 16 <= b && b < 32) || (a == 192 && b == 168);
    let link_local = a == 169 && b == 254;
    let carrier_nat = a == 100 && 64 <= b && b < 128;
    !loopback && !private && !link_local && !carrier_nat
}

/// Whether the address with these segments is neither loopback nor unspecified, and outside the
/// unique local and link-local ranges.
pub fn is_public_v6(segments: &[u16; 8]) -> (r: bool)
    ensures
        r == v6_public(segments@),
{
    let mut zeros: usize = 0;
    while zeros < 8 && segments[zeros] == 0
        invariant
            zeros <= 8,
            forall|i: int| 0 <= i < zeros ==> segments@[i] == 0,
        decreases 8 - zeros,
    {
        zeros += 1;
    }
    if zeros == 8 || (zeros == 7 && segments[7] == 1) {
        return false;
    }
    let lead: u16 = segments[0];
    assert((lead & 0xfe00) == 0xfc00 <==> 0xfc00 <= lead < 0xfe00) by (bit_vector);
    assert((lead & 0xffc0) == 0xfe80 <==> 0xfe80 <= lead < 0xfec0) by (bit_vector);
    proof {
        assert(!v6_unspecified(segments@));
        assert(!v6_loopback(segments@));
    }
    (lead & 0xfe00) != 0xfc00 && (lead & 0xffc0) != 0xfe80
}

/// The number that the four octets of an IPv4 address write, the first the highest.
pub open spec fn v4_number(o: Seq<u8>) -> int {
    0x1000000 * o[0] + 0x10000 * o[1] + 0x100 * o[2] + o[3]
}

/// An IPv4 address is public exactly if its number is in none of the blocks 127.0.0.0/8,
/// 10.0.0.0/8, 172.16.0.0/12, 192.168.0.0/16, 169.254.0.0/16 and 100.64.0.0/10.
pub proof fn law_public_v4_is_outside_the_blocks(o: Seq<u8>)
    ensures
        v4_public(o) <==> {
            let n = v4_number(o);
            &&& !(0x7f000000 <= n <= 0x7fffffff)
            &&& !(0x0a000000 <= n <= 0x0affffff)
            &&& !(0xac100000 <= n <= 0xac1fffff)
            &&& !(0xc0a80000 <= n <= 0xc0a8ffff)
            &&& !(0xa9fe0000 <= n <= 0xa9feffff)
            &&& !(0x64400000 <= n <= 0x647fffff)
        },
{
}

/// An IPv6 address is public exactly if it is not 0 or 1 as a number, and its leading bits are
/// neither those of fc00::/7 nor those of fe80::/10.
pub proof fn law_public_v6_is_outside_the_blocks(g: Seq<u16>)
    ensures
        v6_public(g) <==> {
            &&& g[0] != 0 || g[1] != 0 || g[2] != 0 || g[3] != 0 || g[4] != 0 || g[5] != 0 || g[6]
                != 0 || g[7] > 1
            &&& (g[0] & 0xfe00) != 0xfc00
            &&& (g[0] & 0xffc0) != 0xfe80
        },
{
    let lead: u16 = g[0];
    assert((lead & 0xfe00) == 0xfc00 <==> 0xfc00 <= lead < 0xfe00) by (bit_vector);
    assert((lead & 0xffc0) == 0xfe80 <==> 0xfe80 <= lead < 0xfec0) by (bit_vector);
    if g[0] == 0 && g[1] == 0 && g[2] == 0 && g[3] == 0 && g[4] == 0 && g[5] == 0 && g[6] == 0 {
        assert forall|i: int| 0 <= i < 7 implies g[i] == 0 by {
            assert(i == 0 || i == 1 || i == 2 || i == 3 || i == 4 || i == 5 || i == 6);
        }
        if g[7] == 0 {
            assert forall|i: int| 0 <= i < 8 implies g[i] == 0 by {
                assert(i < 7 || i == 7);
            }
        }
    }
}

} // verus!
