//! Peer and node addresses as plain values: the four octets of an IPv4 address
//! or the eight groups of an IPv6 address, their text forms, and the locality
//! classification that frontend selection is based on.

use vstd::prelude::*;

use crate::text::{dec_digits, dec_u32, hex_digits, hex_u16};

verus! {

/// An IP address held as plain numbers. The program around the library
/// converts between this and its socket types.
#[derive(Clone, Copy, PartialEq, Eq, Structural, Debug)]
pub enum IpAddr {
    V4(u8, u8, u8, u8),
    V6(u16, u16, u16, u16, u16, u16, u16, u16),
}

/// Peer locality, judged from the peer's address alone.
#[derive(Clone, Copy, PartialEq, Eq, Structural, Debug)]
pub enum AddrType {
    Loopback,
    Private,
    Public,
}

/// The text form of an address: dotted decimal for IPv4; eight lower-case
/// hexadecimal groups joined by `':'` for IPv6, without zero-run compression.
pub open spec fn ip_text(ip: IpAddr) -> Seq<char> {
    match ip {
        IpAddr::V4(a, b, c, d) => dec_digits(a as nat) + seq!['.'] + dec_digits(b as nat)
            + seq!['.'] + dec_digits(c as nat) + seq!['.'] + dec_digits(d as nat),
        IpAddr::V6(g0, g1, g2, g3, g4, g5, g6, g7) => hex_digits(g0 as nat) + seq![':']
            + hex_digits(g1 as nat) + seq![':'] + hex_digits(g2 as nat) + seq![':'] + hex_digits(
            g3 as nat,
        ) + seq![':'] + hex_digits(g4 as nat) + seq![':'] + hex_digits(g5 as nat) + seq![':']
            + hex_digits(g6 as nat) + seq![':'] + hex_digits(g7 as nat),
    }
}

/// Renders an address in its text form.
pub fn ip_to_text(ip: &IpAddr) -> (r: String)
    ensures
        r@ == ip_text(*ip),
{
    match ip {
        IpAddr::V4(a, b, c, d) => {
            proof {
                reveal_strlit(".");
                assert("."@ =~= seq!['.']);
            }
            let mut s = dec_u32(*a as u32);
            s.append(".");
            let sb = dec_u32(*b as u32);
            s.append(sb.as_str());
            s.append(".");
            let sc = dec_u32(*c as u32);
            s.append(sc.as_str());
            s.append(".");
            let sd = dec_u32(*d as u32);
            s.append(sd.as_str());
            proof {
                assert(s@ =~= ip_text(*ip));
            }
            s
        },
        IpAddr::V6(g0, g1, g2, g3, g4, g5, g6, g7) => {
            proof {
                reveal_strlit(":");
                assert(":"@ =~= seq![':']);
            }
            let mut s = hex_u16(*g0);
            let groups: [u16; 7] = [*g1, *g2, *g3, *g4, *g5, *g6, *g7];
            let mut i: usize = 0;
            while i < 7
                invariant
                    i <= 7,
                    *ip == IpAddr::V6(*g0, *g1, *g2, *g3, *g4, *g5, *g6, *g7),
                    groups@ == seq![*g1, *g2, *g3, *g4, *g5, *g6, *g7],
                    ":"@ == seq![':'],
                    s@ == v6_text_prefix(*ip, i as int + 1),
                decreases 7 - i,
            {
                s.append(":");
                let g = hex_u16(groups[i]);
                s.append(g.as_str());
                proof {
                    assert(s@ =~= v6_text_prefix(*ip, i as int + 2));
                }
                i = i + 1;
            }
            proof {
                assert(v6_text_prefix(*ip, 8) =~= ip_text(*ip)) by {
                    reveal_with_fuel(v6_text_prefix, 9);
                }
            }
            s
        },
    }
}

/// The first `n` groups of an IPv6 address's text form.
pub open spec fn v6_text_prefix(ip: IpAddr, n: int) -> Seq<char>
    decreases n,
{
    match ip {
        IpAddr::V6(g0, g1, g2, g3, g4, g5, g6, g7) => {
            let groups = seq![g0, g1, g2, g3, g4, g5, g6, g7];
            if n <= 1 {
                hex_digits(groups[0] as nat)
            } else if n > 8 {
                Seq::<char>::empty()
            } else {
                v6_text_prefix(ip, n - 1) + seq![':'] + hex_digits(groups[n - 1] as nat)
            }
        },
        _ => Seq::<char>::empty(),
    }
}

/// The address is an IPv4 loopback address (first octet 127).
pub open spec fn is_loopback_v4(ip: IpAddr) -> bool {
    match ip {
        IpAddr::V4(a, _b, _c, _d) => a == 127,
        IpAddr::V6(..) => false,
    }
}

/// The address is in one of the IPv4 private ranges
/// (`10/8`, `172.16/12`, `192.168/16`).
pub open spec fn is_private_v4(ip: IpAddr) -> bool {
    match ip {
        IpAddr::V4(a, b, _c, _d) => a == 10 || (a == 172 && 16 <= b <= 31) || (a == 192 && b
            == 168),
        IpAddr::V6(..) => false,
    }
}

/// Decides whether the address is IPv4 and private.
pub fn ip_is_private_v4(ip: &IpAddr) -> (r: bool)
    ensures
        r == is_private_v4(*ip),
{
    match ip {
        IpAddr::V4(a, b, _c, _d) => *a == 10 || (*a == 172 && 16 <= *b && *b <= 31) || (*a == 192
            && *b == 168),
        IpAddr::V6(..) => false,
    }
}

/// The locality of a peer: `Loopback` and `Private` only for IPv4 addresses in
/// the respective ranges, everything else (IPv6 included) `Public`.
pub open spec fn addr_type_of(ip: IpAddr) -> AddrType {
    if is_loopback_v4(ip) {
        AddrType::Loopback
    } else if is_private_v4(ip) {
        AddrType::Private
    } else {
        AddrType::Public
    }
}

/// Classifies a peer address by locality.
pub fn detect_addr_type(ip: &IpAddr) -> (r: AddrType)
    ensures
        r == addr_type_of(*ip),
{
    match ip {
        IpAddr::V4(a, _b, _c, _d) => {
            if *a == 127 {
                AddrType::Loopback
            } else if ip_is_private_v4(ip) {
                AddrType::Private
            } else {
                AddrType::Public
            }
        },
        IpAddr::V6(..) => AddrType::Public,
    }
}

} // verus!
