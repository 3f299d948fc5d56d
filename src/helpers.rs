//! Helpers to build and compare replies.

use vstd::prelude::*;
use crate::types::{
    IpAddress, Reply, ReplyPair, ICMP_TIME_EXCEEDED, PROTOCOL_ICMP, TTL,
};

verus! {

/// A time-exceeded reply from `reply_src_addr` to an ICMP probe of TTL
/// `probe_ttl` towards `probe_dst_addr`, with ports 0.
pub fn reply(probe_ttl: TTL, reply_src_addr: IpAddress, probe_dst_addr: IpAddress) -> (r: Reply)
    ensures
        r == (Reply {
            probe_ttl,
            probe_protocol: PROTOCOL_ICMP,
            probe_dst_addr,
            probe_src_port: 0,
            probe_dst_port: 0,
            reply_src_addr,
            reply_dst_addr: IpAddress::V6(0),
            reply_protocol: PROTOCOL_ICMP,
            reply_icmp_type: ICMP_TIME_EXCEEDED,
        }),
{
    Reply {
        probe_ttl,
        probe_protocol: PROTOCOL_ICMP,
        probe_dst_addr,
        probe_src_port: 0,
        probe_dst_port: 0,
        reply_src_addr,
        reply_dst_addr: IpAddress::V6(0),
        reply_protocol: PROTOCOL_ICMP,
        reply_icmp_type: ICMP_TIME_EXCEEDED,
    }
}

/// Two replies agree on TTL, source, destination and protocol.
pub open spec fn spec_reply_eq(r1: Reply, r2: Reply) -> bool {
    r1.probe_ttl == r2.probe_ttl && r1.reply_src_addr == r2.reply_src_addr && r1.reply_dst_addr
        == r2.reply_dst_addr && r1.reply_protocol == r2.reply_protocol
}

/// Two optional replies are both absent, or both present and agree.
pub open spec fn spec_slot_eq(a: Option<Reply>, b: Option<Reply>) -> bool {
    match (a, b) {
        (None, None) => true,
        (Some(r1), Some(r2)) => spec_reply_eq(r1, r2),
        _ => false,
    }
}

pub fn reply_eq(r1: &Reply, r2: &Reply) -> (b: bool)
    ensures
        b == spec_reply_eq(*r1, *r2),
{
    r1.probe_ttl == r2.probe_ttl && r1.reply_src_addr == r2.reply_src_addr && r1.reply_dst_addr
        == r2.reply_dst_addr && r1.reply_protocol == r2.reply_protocol
}

/// Whether some reply of `s` agrees with `r`.
pub open spec fn has_match(r: Reply, s: Seq<Reply>) -> bool {
    exists|j: int| 0 <= j < s.len() && spec_reply_eq(r, #[trigger] s[j])
}

/// Same length, and each reply of the first agrees with some reply of the second.
pub fn replies_eq(replies1: &[Reply], replies2: &[Reply]) -> (b: bool)
    ensures
        b == (replies1@.len() == replies2@.len() && forall|i: int|
            0 <= i < replies1@.len() ==> has_match(#[trigger] replies1@[i], replies2@)),
{
    if replies1.len() != replies2.len() {
        return false;
    }
    let mut i: usize = 0;
    while i < replies1.len()
        invariant
            i <= replies1@.len(),
            replies1@.len() == replies2@.len(),
            forall|k: int| 0 <= k < i ==> has_match(#[trigger] replies1@[k], replies2@),
        decreases replies1@.len() - i,
    {
        let mut found = false;
        let mut j: usize = 0;
        while j < replies2.len()
            invariant
                j <= replies2@.len(),
                i < replies1@.len(),
                found ==> has_match(replies1@[i as int], replies2@),
                !found ==> forall|m: int| 0 <= m < j ==> !spec_reply_eq(replies1@[i as int], #[trigger] replies2@[m]),
            decreases replies2@.len() - j,
        {
            if reply_eq(&replies1[i], &replies2[j]) {
                found = true;
            }
            j = j + 1;
        }
        if !found {
            assert(!has_match(replies1@[i as int], replies2@));
            return false;
        }
        i = i + 1;
    }
    true
}

pub fn reply_pair_eq(pair1: &ReplyPair, pair2: &ReplyPair) -> (b: bool)
    ensures
        b == (pair1.ttl == pair2.ttl && spec_slot_eq(pair1.first_reply, pair2.first_reply)
            && spec_slot_eq(pair1.second_reply, pair2.second_reply)),
{
    let first = match (&pair1.first_reply, &pair2.first_reply) {
        (None, None) => true,
        (Some(r1), Some(r2)) => reply_eq(r1, r2),
        _ => false,
    };
    let second = match (&pair1.second_reply, &pair2.second_reply) {
        (None, None) => true,
        (Some(r1), Some(r2)) => reply_eq(r1, r2),
        _ => false,
    };
    pair1.ttl == pair2.ttl && first && second
}

} // verus!
