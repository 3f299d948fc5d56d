//! Plain-value data model: addresses, probes, replies, flows and links.

use vstd::prelude::*;
use vstd::arithmetic::power2::pow2;
use vstd::bits::{lemma_u128_shr_is_div, lemma_u32_shr_is_div};

verus! {

/// Hop counter of a probe.
#[allow(clippy::upper_case_acronyms)]
pub type TTL = u8;

/// Transport-layer port.
pub type Port = u16;

/// IP protocol number of ICMP.
pub const PROTOCOL_ICMP: u8 = 1;

/// IP protocol number of UDP.
pub const PROTOCOL_UDP: u8 = 17;

/// IP protocol number of ICMPv6.
pub const PROTOCOL_ICMPV6: u8 = 58;

/// ICMP type of a time-exceeded message.
pub const ICMP_TIME_EXCEEDED: u8 = 11;

/// ICMPv6 type of a time-exceeded message.
pub const ICMPV6_TIME_EXCEEDED: u8 = 3;

/// An IPv4 or IPv6 address, as the integer of its bits.
#[derive(Clone, Copy, Debug, PartialEq, Eq, Hash, Structural)]
pub enum IpAddress {
    V4(u32),
    V6(u128),
}

/// The transport protocol of a probe.
#[allow(clippy::upper_case_acronyms)]
#[derive(Clone, Copy, Debug, PartialEq, Eq, Hash, Structural)]
pub enum L4 {
    ICMP,
    ICMPv6,
    UDP,
}

/// A probe to send: destination, ports, protocol and TTL.
#[derive(Clone, Copy, Debug, PartialEq, Eq, Hash, Structural)]
pub struct Probe {
    pub dst_addr: IpAddress,
    pub src_port: Port,
    pub dst_port: Port,
    pub protocol: L4,
    pub ttl: TTL,
}

/// What the engine reads of a captured reply.
#[derive(Clone, Copy, Debug, PartialEq, Eq, Hash, Structural)]
pub struct Reply {
    pub probe_ttl: TTL,
    pub probe_protocol: u8,
    pub probe_dst_addr: IpAddress,
    pub probe_src_port: Port,
    pub probe_dst_port: Port,
    pub reply_src_addr: IpAddress,
    pub reply_dst_addr: IpAddress,
    pub reply_protocol: u8,
    pub reply_icmp_type: u8,
}

/// The fields on which routers balance load: two replies share a flow iff they agree on these.
#[derive(Clone, Copy, Debug, PartialEq, Eq, Hash, Structural)]
pub struct Flow {
    pub protocol: u8,
    pub dst_address: IpAddress,
    pub src_port: Port,
    pub dst_port: Port,
}

/// A (near, far) interface observation at adjacent TTLs of one flow.
#[derive(Clone, Copy, Debug, PartialEq, Eq, Hash)]
pub struct Link {
    pub ttl: TTL,
    pub near_ip: Option<IpAddress>,
    pub far_ip: Option<IpAddress>,
}

/// A (near, far) pair of replies at adjacent TTLs of one flow.
#[derive(Clone, Copy, Debug)]
pub struct ReplyPair {
    pub ttl: TTL,
    pub first_reply: Option<Reply>,
    pub second_reply: Option<Reply>,
}

/// The flow of a reply's probe.
pub open spec fn flow_of(r: Reply) -> Flow {
    Flow {
        protocol: r.probe_protocol,
        dst_address: r.probe_dst_addr,
        src_port: r.probe_src_port,
        dst_port: r.probe_dst_port,
    }
}

/// Whether a reply reports an expired TTL (ICMP or ICMPv6).
pub open spec fn spec_is_time_exceeded(r: Reply) -> bool {
    (r.reply_protocol == PROTOCOL_ICMP && r.reply_icmp_type == ICMP_TIME_EXCEEDED) || (
    r.reply_protocol == PROTOCOL_ICMPV6 && r.reply_icmp_type == ICMPV6_TIME_EXCEEDED)
}

/// The link that a reply pair yields.
pub open spec fn link_of(p: ReplyPair) -> Link {
    Link {
        ttl: p.ttl,
        near_ip: match p.first_reply {
            Some(r) => Some(r.reply_src_addr),
            None => None,
        },
        far_ip: match p.second_reply {
            Some(r) => Some(r.reply_src_addr),
            None => None,
        },
    }
}

impl Flow {
    pub fn of(r: &Reply) -> (f: Flow)
        ensures
            f == flow_of(*r),
    {
        Flow {
            protocol: r.probe_protocol,
            dst_address: r.probe_dst_addr,
            src_port: r.probe_src_port,
            dst_port: r.probe_dst_port,
        }
    }
}

impl Reply {
    pub fn is_time_exceeded(&self) -> (b: bool)
        ensures
            b == spec_is_time_exceeded(*self),
    {
        (self.reply_protocol == PROTOCOL_ICMP && self.reply_icmp_type == ICMP_TIME_EXCEEDED) || (
        self.reply_protocol == PROTOCOL_ICMPV6 && self.reply_icmp_type == ICMPV6_TIME_EXCEEDED)
    }
}

impl Link {
    pub fn of(p: &ReplyPair) -> (l: Link)
        ensures
            l == link_of(*p),
    {
        Link {
            ttl: p.ttl,
            near_ip: match p.first_reply {
                Some(r) => Some(r.reply_src_addr),
                None => None,
            },
            far_ip: match p.second_reply {
                Some(r) => Some(r.reply_src_addr),
                None => None,
            },
        }
    }
}

/// Number of bits of an address of this family.
pub open spec fn addr_bits(a: IpAddress) -> nat {
    match a {
        IpAddress::V4(_) => 32,
        IpAddress::V6(_) => 128,
    }
}

/// Whether two addresses belong to the same family.
pub open spec fn same_family(a: IpAddress, b: IpAddress) -> bool {
    addr_bits(a) == addr_bits(b)
}

/// Whether `a` lies in the prefix of length `len` around `net`.
pub open spec fn spec_in_prefix(net: IpAddress, len: nat, a: IpAddress) -> bool {
    match (net, a) {
        (IpAddress::V4(x), IpAddress::V4(y)) => if len == 0 {
            true
        } else if len >= 32 {
            x == y
        } else {
            x as nat / pow2((32 - len) as nat) == y as nat / pow2((32 - len) as nat)
        },
        (IpAddress::V6(x), IpAddress::V6(y)) => if len == 0 {
            true
        } else if len >= 128 {
            x == y
        } else {
            x as nat / pow2((128 - len) as nat) == y as nat / pow2((128 - len) as nat)
        },
        _ => false,
    }
}

/// Whether `a` lies in the prefix of length `len` around `net`.
pub fn in_prefix(net: IpAddress, len: u8, a: IpAddress) -> (b: bool)
    ensures
        b == spec_in_prefix(net, len as nat, a),
{
    match (net, a) {
        (IpAddress::V4(x), IpAddress::V4(y)) => {
            if len == 0 {
                true
            } else if len >= 32 {
                x == y
            } else {
                let s: u32 = (32 - len) as u32;
                proof {
                    lemma_u32_shr_is_div(x, s);
                    lemma_u32_shr_is_div(y, s);
                }
                (x >> s) == (y >> s)
            }
        },
        (IpAddress::V6(x), IpAddress::V6(y)) => {
            if len == 0 {
                true
            } else if len >= 128 {
                x == y
            } else {
                let s: u128 = (128 - len) as u128;
                proof {
                    lemma_u128_shr_is_div(x, s);
                    lemma_u128_shr_is_div(y, s);
                }
                (x >> s) == (y >> s)
            }
        },
        _ => false,
    }
}

/// An address lies in every prefix around itself.
pub proof fn lemma_in_own_prefix(a: IpAddress, len: nat)
    ensures
        spec_in_prefix(a, len, a),
{
}

} // verus!
