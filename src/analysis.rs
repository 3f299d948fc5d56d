//! Per-hop statistics over replies and links: reply counts, node weights,
//! successor sets and transit counts.

use vstd::prelude::*;
use crate::types::{IpAddress, Link, Reply};

verus! {

/// The distinct replying addresses of `rs`, in order of first appearance.
pub open spec fn srcs_distinct(rs: Seq<Reply>) -> Seq<IpAddress>
    decreases rs.len(),
{
    if rs.len() == 0 {
        Seq::empty()
    } else {
        let rest = srcs_distinct(rs.drop_last());
        if rest.contains(rs.last().reply_src_addr) {
            rest
        } else {
            rest.push(rs.last().reply_src_addr)
        }
    }
}

/// Number of replies of `rs` sent by `n`.
pub open spec fn count_from(rs: Seq<Reply>, n: IpAddress) -> nat
    decreases rs.len(),
{
    if rs.len() == 0 {
        0
    } else {
        count_from(rs.drop_last(), n) + if rs.last().reply_src_addr == n {
            1nat
        } else {
            0nat
        }
    }
}

/// Sum over `nodes` of their reply counts in `rs`.
pub open spec fn total_over(rs: Seq<Reply>, nodes: Seq<IpAddress>) -> nat
    decreases nodes.len(),
{
    if nodes.len() == 0 {
        0
    } else {
        total_over(rs, nodes.drop_last()) + count_from(rs, nodes.last())
    }
}

/// The weight of `n` among `nodes` as (numerator, denominator): its share of
/// the replies, or a uniform share where the nodes sent none.
pub open spec fn weight_of(rs: Seq<Reply>, nodes: Seq<IpAddress>, n: IpAddress) -> (int, int) {
    if total_over(rs, nodes) > 0 {
        (count_from(rs, n) as int, total_over(rs, nodes) as int)
    } else {
        (1, nodes.len() as int)
    }
}

/// Number of links of `ls` from `n` to a known far interface.
pub open spec fn transits(ls: Seq<Link>, n: IpAddress) -> nat
    decreases ls.len(),
{
    if ls.len() == 0 {
        0
    } else {
        transits(ls.drop_last(), n) + if ls.last().near_ip == Some(n) && ls.last().far_ip.is_some() {
            1nat
        } else {
            0nat
        }
    }
}

/// The distinct far interfaces of the links of `ls` from `n`, in order of
/// first appearance.
pub open spec fn successors(ls: Seq<Link>, n: IpAddress) -> Seq<IpAddress>
    decreases ls.len(),
{
    if ls.len() == 0 {
        Seq::empty()
    } else {
        let rest = successors(ls.drop_last(), n);
        let l = ls.last();
        if l.near_ip == Some(n) && l.far_ip.is_some() && !rest.contains(l.far_ip.unwrap()) {
            rest.push(l.far_ip.unwrap())
        } else {
            rest
        }
    }
}

/// A node's weight: `count / total` as integers, or `1 / nodes` when the nodes
/// sent no reply.
#[derive(Clone, Copy, Debug, PartialEq, Eq)]
pub struct Weight {
    pub node: IpAddress,
    pub num: u128,
    pub den: u128,
}

pub fn contains_addr(v: &Vec<IpAddress>, a: IpAddress) -> (b: bool)
    ensures
        b == v@.contains(a),
{
    let mut i: usize = 0;
    while i < v.len()
        invariant
            i <= v@.len(),
            forall|j: int| 0 <= j < i ==> v@[j] != a,
        decreases v@.len() - i,
    {
        if v[i] == a {
            return true;
        }
        i = i + 1;
    }
    false
}

/// The distinct replying addresses, in order of first appearance.
pub fn distinct_srcs(rs: &Vec<Reply>) -> (r: Vec<IpAddress>)
    ensures
        r@ == srcs_distinct(rs@),
{
    let mut r: Vec<IpAddress> = Vec::new();
    let mut i: usize = 0;
    while i < rs.len()
        invariant
            i <= rs@.len(),
            r@ == srcs_distinct(rs@.take(i as int)),
        decreases rs@.len() - i,
    {
        assert(rs@.take(i + 1).drop_last() =~= rs@.take(i as int));
        if !contains_addr(&r, rs[i].reply_src_addr) {
            r.push(rs[i].reply_src_addr);
        }
        i = i + 1;
    }
    assert(rs@.take(rs@.len() as int) =~= rs@);
    r
}

/// Number of replies sent by `n`.
pub fn count_replies_from(rs: &Vec<Reply>, n: IpAddress) -> (c: usize)
    ensures
        c == count_from(rs@, n),
{
    let mut c: usize = 0;
    let mut i: usize = 0;
    while i < rs.len()
        invariant
            i <= rs@.len(),
            c == count_from(rs@.take(i as int), n),
            c <= i,
        decreases rs@.len() - i,
    {
        assert(rs@.take(i + 1).drop_last() =~= rs@.take(i as int));
        if rs[i].reply_src_addr == n {
            c = c + 1;
        }
        i = i + 1;
    }
    assert(rs@.take(rs@.len() as int) =~= rs@);
    c
}

proof fn lemma_count_bound(rs: Seq<Reply>, n: IpAddress)
    ensures
        count_from(rs, n) <= rs.len(),
    decreases rs.len(),
{
    if rs.len() > 0 {
        lemma_count_bound(rs.drop_last(), n);
    }
}

/// The weight of each of `nodes` among the replies `rs`, in the order of `nodes`.
pub fn weights(rs: &Vec<Reply>, nodes: &Vec<IpAddress>) -> (r: Vec<Weight>)
    ensures
        r@.len() == nodes@.len(),
        forall|j: int|
            0 <= j < r@.len() ==> (#[trigger] r@[j]).node == nodes@[j] && (r@[j].num as int, r@[j].den as int)
                == weight_of(rs@, nodes@, nodes@[j]) && r@[j].num <= usize::MAX,
{
    let ghost m: int = 0xffff_ffff_ffff_ffff;
    let mut counts: Vec<u128> = Vec::new();
    let mut total: u128 = 0;
    let mut i: usize = 0;
    while i < nodes.len()
        invariant
            i <= nodes@.len(),
            m == 0xffff_ffff_ffff_ffff,
            counts@.len() == i,
            forall|j: int| 0 <= j < i ==> #[trigger] counts@[j] == count_from(rs@, nodes@[j]),
            forall|j: int| 0 <= j < i ==> #[trigger] counts@[j] <= usize::MAX,
            total == total_over(rs@, nodes@.take(i as int)),
            total <= i * m,
        decreases nodes@.len() - i,
    {
        assert(nodes@.take(i + 1).drop_last() =~= nodes@.take(i as int));
        let c = count_replies_from(rs, nodes[i]);
        counts.push(c as u128);
        total = total + c as u128;
        i = i + 1;
    }
    assert(nodes@.take(nodes@.len() as int) =~= nodes@);
    let mut r: Vec<Weight> = Vec::new();
    let mut k: usize = 0;
    while k < nodes.len()
        invariant
            k <= nodes@.len(),
            counts@.len() == nodes@.len(),
            forall|j: int| 0 <= j < nodes@.len() ==> #[trigger] counts@[j] == count_from(rs@, nodes@[j]),
            forall|j: int| 0 <= j < nodes@.len() ==> #[trigger] counts@[j] <= usize::MAX,
            total == total_over(rs@, nodes@),
            r@.len() == k,
            forall|j: int|
                0 <= j < k ==> (#[trigger] r@[j]).node == nodes@[j] && (r@[j].num as int, r@[j].den as int)
                    == weight_of(rs@, nodes@, nodes@[j]) && r@[j].num <= usize::MAX,
        decreases nodes@.len() - k,
    {
        if total > 0 {
            r.push(Weight { node: nodes[k], num: counts[k], den: total });
        } else {
            r.push(Weight { node: nodes[k], num: 1, den: nodes.len() as u128 });
        }
        k = k + 1;
    }
    r
}

/// Number of links from `n` to a known far interface.
pub fn transit_count(ls: &Vec<Link>, n: IpAddress) -> (c: usize)
    ensures
        c == transits(ls@, n),
{
    let mut c: usize = 0;
    let mut i: usize = 0;
    while i < ls.len()
        invariant
            i <= ls@.len(),
            c == transits(ls@.take(i as int), n),
            c <= i,
        decreases ls@.len() - i,
    {
        assert(ls@.take(i + 1).drop_last() =~= ls@.take(i as int));
        let near_matches = match ls[i].near_ip {
            Some(a) => a == n,
            None => false,
        };
        if near_matches && ls[i].far_ip.is_some() {
            c = c + 1;
        }
        i = i + 1;
    }
    assert(ls@.take(ls@.len() as int) =~= ls@);
    c
}

/// The distinct far interfaces of the links from `n`.
pub fn successor_list(ls: &Vec<Link>, n: IpAddress) -> (r: Vec<IpAddress>)
    ensures
        r@ == successors(ls@, n),
{
    let mut r: Vec<IpAddress> = Vec::new();
    let mut i: usize = 0;
    while i < ls.len()
        invariant
            i <= ls@.len(),
            r@ == successors(ls@.take(i as int), n),
        decreases ls@.len() - i,
    {
        assert(ls@.take(i + 1).drop_last() =~= ls@.take(i as int));
        let near_matches = match ls[i].near_ip {
            Some(a) => a == n,
            None => false,
        };
        if near_matches {
            if let Some(far) = ls[i].far_ip {
                if !contains_addr(&r, far) {
                    r.push(far);
                }
            }
        }
        i = i + 1;
    }
    assert(ls@.take(ls@.len() as int) =~= ls@);
    r
}

} // verus!
