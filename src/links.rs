//! Link inference: group replies by flow and TTL, pair replies at adjacent
//! TTLs of one flow, and turn the pairs into link observations.

use vstd::prelude::*;
use crate::types::{flow_of, link_of, Flow, Link, Reply, ReplyPair, TTL};

verus! {

/// The replies of `s` whose probe TTL is `t`, in their order.
pub open spec fn replies_with_ttl(s: Seq<Reply>, t: int) -> Seq<Reply>
    decreases s.len(),
{
    if s.len() == 0 {
        s
    } else {
        let rest = replies_with_ttl(s.drop_last(), t);
        if s.last().probe_ttl == t {
            rest.push(s.last())
        } else {
            rest
        }
    }
}

/// The replies of `s` that belong to flow `f`, in their order.
pub open spec fn replies_of_flow(s: Seq<Reply>, f: Flow) -> Seq<Reply>
    decreases s.len(),
{
    if s.len() == 0 {
        s
    } else {
        let rest = replies_of_flow(s.drop_last(), f);
        if flow_of(s.last()) == f {
            rest.push(s.last())
        } else {
            rest
        }
    }
}

/// The distinct probe TTLs of `s`, in order of first appearance.
pub open spec fn ttls_of(s: Seq<Reply>) -> Seq<TTL>
    decreases s.len(),
{
    if s.len() == 0 {
        Seq::empty()
    } else {
        let rest = ttls_of(s.drop_last());
        if rest.contains(s.last().probe_ttl) {
            rest
        } else {
            rest.push(s.last().probe_ttl)
        }
    }
}

/// The distinct flows of `s`, in order of first appearance.
pub open spec fn flows_of(s: Seq<Reply>) -> Seq<Flow>
    decreases s.len(),
{
    if s.len() == 0 {
        Seq::empty()
    } else {
        let rest = flows_of(s.drop_last());
        if rest.contains(flow_of(s.last())) {
            rest
        } else {
            rest.push(flow_of(s.last()))
        }
    }
}

/// The replies with probe TTL `t`.
pub fn filter_by_ttl(s: &[Reply], t: TTL) -> (r: Vec<Reply>)
    ensures
        r@ == replies_with_ttl(s@, t as int),
{
    let mut r: Vec<Reply> = Vec::new();
    let mut i: usize = 0;
    while i < s.len()
        invariant
            i <= s@.len(),
            r@ == replies_with_ttl(s@.take(i as int), t as int),
        decreases s@.len() - i,
    {
        assert(s@.take(i + 1).drop_last() =~= s@.take(i as int));
        if s[i].probe_ttl == t {
            r.push(s[i]);
        }
        i = i + 1;
    }
    assert(s@.take(s@.len() as int) =~= s@);
    r
}

/// The replies of flow `f`.
pub fn filter_by_flow(s: &[Reply], f: Flow) -> (r: Vec<Reply>)
    ensures
        r@ == replies_of_flow(s@, f),
{
    let mut r: Vec<Reply> = Vec::new();
    let mut i: usize = 0;
    while i < s.len()
        invariant
            i <= s@.len(),
            r@ == replies_of_flow(s@.take(i as int), f),
        decreases s@.len() - i,
    {
        assert(s@.take(i + 1).drop_last() =~= s@.take(i as int));
        if Flow::of(&s[i]) == f {
            r.push(s[i]);
        }
        i = i + 1;
    }
    assert(s@.take(s@.len() as int) =~= s@);
    r
}

fn contains_ttl(v: &Vec<TTL>, t: TTL) -> (b: bool)
    ensures
        b == v@.contains(t),
{
    let mut i: usize = 0;
    while i < v.len()
        invariant
            i <= v@.len(),
            forall|j: int| 0 <= j < i ==> v@[j] != t,
        decreases v@.len() - i,
    {
        if v[i] == t {
            return true;
        }
        i = i + 1;
    }
    false
}

fn contains_flow(v: &Vec<Flow>, f: Flow) -> (b: bool)
    ensures
        b == v@.contains(f),
{
    let mut i: usize = 0;
    while i < v.len()
        invariant
            i <= v@.len(),
            forall|j: int| 0 <= j < i ==> v@[j] != f,
        decreases v@.len() - i,
    {
        if v[i] == f {
            return true;
        }
        i = i + 1;
    }
    false
}

/// The distinct probe TTLs, in order of first appearance.
pub fn distinct_ttls(s: &[Reply]) -> (r: Vec<TTL>)
    ensures
        r@ == ttls_of(s@),
{
    let mut r: Vec<TTL> = Vec::new();
    let mut i: usize = 0;
    while i < s.len()
        invariant
            i <= s@.len(),
            r@ == ttls_of(s@.take(i as int)),
        decreases s@.len() - i,
    {
        assert(s@.take(i + 1).drop_last() =~= s@.take(i as int));
        if !contains_ttl(&r, s[i].probe_ttl) {
            r.push(s[i].probe_ttl);
        }
        i = i + 1;
    }
    assert(s@.take(s@.len() as int) =~= s@);
    r
}

/// The distinct flows, in order of first appearance.
pub fn distinct_flows(s: &[Reply]) -> (r: Vec<Flow>)
    ensures
        r@ == flows_of(s@),
{
    let mut r: Vec<Flow> = Vec::new();
    let mut i: usize = 0;
    while i < s.len()
        invariant
            i <= s@.len(),
            r@ == flows_of(s@.take(i as int)),
        decreases s@.len() - i,
    {
        assert(s@.take(i + 1).drop_last() =~= s@.take(i as int));
        let f = Flow::of(&s[i]);
        if !contains_flow(&r, f) {
            r.push(f);
        }
        i = i + 1;
    }
    assert(s@.take(s@.len() as int) =~= s@);
    r
}

/// The replies grouped by probe TTL: one group per distinct TTL, in order of
/// first appearance, each holding the replies of that TTL in their order.
pub fn get_replies_by_ttl(replies: &[Reply]) -> (r: Vec<(TTL, Vec<Reply>)>)
    ensures
        r@.len() == ttls_of(replies@).len(),
        forall|j: int|
            0 <= j < r@.len() ==> (#[trigger] r@[j]).0 == ttls_of(replies@)[j] && r@[j].1@
                == replies_with_ttl(replies@, ttls_of(replies@)[j] as int),
{
    let keys = distinct_ttls(replies);
    let mut r: Vec<(TTL, Vec<Reply>)> = Vec::new();
    let mut i: usize = 0;
    while i < keys.len()
        invariant
            i <= keys@.len(),
            keys@ == ttls_of(replies@),
            r@.len() == i,
            forall|j: int|
                0 <= j < i ==> (#[trigger] r@[j]).0 == keys@[j] && r@[j].1@ == replies_with_ttl(
                    replies@,
                    keys@[j] as int,
                ),
        decreases keys@.len() - i,
    {
        let group = filter_by_ttl(replies, keys[i]);
        r.push((keys[i], group));
        i = i + 1;
    }
    r
}

/// The replies grouped by flow: one group per distinct flow, in order of
/// first appearance, each holding the replies of that flow in their order.
pub fn get_replies_by_flow(replies: &[Reply]) -> (r: Vec<(Flow, Vec<Reply>)>)
    ensures
        r@.len() == flows_of(replies@).len(),
        forall|j: int|
            0 <= j < r@.len() ==> (#[trigger] r@[j]).0 == flows_of(replies@)[j] && r@[j].1@
                == replies_of_flow(replies@, flows_of(replies@)[j]),
{
    let keys = distinct_flows(replies);
    let mut r: Vec<(Flow, Vec<Reply>)> = Vec::new();
    let mut i: usize = 0;
    while i < keys.len()
        invariant
            i <= keys@.len(),
            keys@ == flows_of(replies@),
            r@.len() == i,
            forall|j: int|
                0 <= j < i ==> (#[trigger] r@[j]).0 == keys@[j] && r@[j].1@ == replies_of_flow(
                    replies@,
                    keys@[j],
                ),
        decreases keys@.len() - i,
    {
        let group = filter_by_flow(replies, keys[i]);
        r.push((keys[i], group));
        i = i + 1;
    }
    r
}

/// Each reply wrapped as a present slot.
pub open spec fn present(s: Seq<Reply>) -> Seq<Option<Reply>>
    decreases s.len(),
{
    if s.len() == 0 {
        Seq::empty()
    } else {
        present(s.drop_last()).push(Some(s.last()))
    }
}

/// The slots of one flow's replies at TTL `t`: its replies, or a single
/// absent slot where it has none.
pub open spec fn slots(g: Seq<Reply>, t: int) -> Seq<Option<Reply>> {
    if replies_with_ttl(g, t).len() == 0 {
        seq![None]
    } else {
        present(replies_with_ttl(g, t))
    }
}

/// The pairs of one near slot with each far slot, leaving out (absent, absent).
pub open spec fn row(t: TTL, a: Option<Reply>, far: Seq<Option<Reply>>) -> Seq<ReplyPair>
    decreases far.len(),
{
    if far.len() == 0 {
        Seq::empty()
    } else {
        let rest = row(t, a, far.drop_last());
        if a.is_some() || far.last().is_some() {
            rest.push(ReplyPair { ttl: t, first_reply: a, second_reply: far.last() })
        } else {
            rest
        }
    }
}

/// The cartesian product of near and far slots, near-major, leaving out
/// (absent, absent).
pub open spec fn cross(t: TTL, near: Seq<Option<Reply>>, far: Seq<Option<Reply>>) -> Seq<ReplyPair>
    decreases near.len(),
{
    if near.len() == 0 {
        Seq::empty()
    } else {
        cross(t, near.drop_last(), far) + row(t, near.last(), far)
    }
}

/// The pairs of one flow's replies for near TTLs `lo` to `hi`.
pub open spec fn pairs_in(g: Seq<Reply>, lo: int, hi: int) -> Seq<ReplyPair>
    decreases hi - lo + 1,
{
    if hi < lo {
        Seq::empty()
    } else {
        pairs_in(g, lo, hi - 1) + cross(hi as TTL, slots(g, hi), slots(g, hi + 1))
    }
}

/// The smallest probe TTL of `g` (0 when empty).
pub open spec fn min_ttl(g: Seq<Reply>) -> int
    decreases g.len(),
{
    if g.len() == 0 {
        0
    } else if g.len() == 1 {
        g[0].probe_ttl as int
    } else {
        let m = min_ttl(g.drop_last());
        if (g.last().probe_ttl as int) < m {
            g.last().probe_ttl as int
        } else {
            m
        }
    }
}

/// The largest probe TTL of `g` (0 when empty).
pub open spec fn max_ttl(g: Seq<Reply>) -> int
    decreases g.len(),
{
    if g.len() == 0 {
        0
    } else if g.len() == 1 {
        g[0].probe_ttl as int
    } else {
        let m = max_ttl(g.drop_last());
        if (g.last().probe_ttl as int) > m {
            g.last().probe_ttl as int
        } else {
            m
        }
    }
}

/// The reply pairs of one flow: for each near TTL from its smallest to its
/// largest TTL, the product of the slots at that TTL and at the next one.
pub open spec fn flow_pairs(g: Seq<Reply>) -> Seq<ReplyPair> {
    pairs_in(g, min_ttl(g), max_ttl(g))
}

proof fn lemma_ttl_bounds(g: Seq<Reply>)
    ensures
        0 <= min_ttl(g) <= max_ttl(g) <= 255,
    decreases g.len(),
{
    if g.len() > 1 {
        lemma_ttl_bounds(g.drop_last());
    }
}

proof fn lemma_no_reply_beyond_255(g: Seq<Reply>, t: int)
    requires
        t > 255,
    ensures
        replies_with_ttl(g, t).len() == 0,
    decreases g.len(),
{
    if g.len() > 0 {
        lemma_no_reply_beyond_255(g.drop_last(), t);
    }
}

fn ttl_range(g: &[Reply]) -> (r: (TTL, TTL))
    ensures
        r.0 == min_ttl(g@),
        r.1 == max_ttl(g@),
{
    if g.len() == 0 {
        return (0, 0);
    }
    let mut lo: TTL = g[0].probe_ttl;
    let mut hi: TTL = g[0].probe_ttl;
    let mut i: usize = 1;
    assert(g@.take(1).drop_last().len() == 0);
    while i < g.len()
        invariant
            1 <= i <= g@.len(),
            lo == min_ttl(g@.take(i as int)),
            hi == max_ttl(g@.take(i as int)),
        decreases g@.len() - i,
    {
        assert(g@.take(i + 1).drop_last() =~= g@.take(i as int));
        if g[i].probe_ttl < lo {
            lo = g[i].probe_ttl;
        }
        if g[i].probe_ttl > hi {
            hi = g[i].probe_ttl;
        }
        i = i + 1;
    }
    assert(g@.take(g@.len() as int) =~= g@);
    (lo, hi)
}

fn slots_at(g: &[Reply], t: u16) -> (r: Vec<Option<Reply>>)
    ensures
        r@ == slots(g@, t as int),
{
    if t > 255 {
        proof {
            lemma_no_reply_beyond_255(g@, t as int);
        }
        let r: Vec<Option<Reply>> = vec![None];
        assert(r@ =~= seq![None]);
        return r;
    }
    let at = filter_by_ttl(g, t as TTL);
    if at.len() == 0 {
        let r: Vec<Option<Reply>> = vec![None];
        assert(r@ =~= seq![None]);
        return r;
    }
    let mut r: Vec<Option<Reply>> = Vec::new();
    let mut i: usize = 0;
    while i < at.len()
        invariant
            i <= at@.len(),
            r@ == present(at@.take(i as int)),
        decreases at@.len() - i,
    {
        assert(at@.take(i + 1).drop_last() =~= at@.take(i as int));
        r.push(Some(at[i]));
        i = i + 1;
    }
    assert(at@.take(at@.len() as int) =~= at@);
    r
}

fn push_cross(t: TTL, near: &Vec<Option<Reply>>, far: &Vec<Option<Reply>>, out: &mut Vec<ReplyPair>)
    ensures
        final(out)@ == old(out)@ + cross(t, near@, far@),
{
    let ghost start = out@;
    let mut i: usize = 0;
    while i < near.len()
        invariant
            i <= near@.len(),
            out@ == start + cross(t, near@.take(i as int), far@),
        decreases near@.len() - i,
    {
        assert(near@.take(i + 1).drop_last() =~= near@.take(i as int));
        let ghost before = out@;
        let a = near[i];
        let mut j: usize = 0;
        while j < far.len()
            invariant
                j <= far@.len(),
                a == near@[i as int],
                out@ == before + row(t, a, far@.take(j as int)),
            decreases far@.len() - j,
        {
            assert(far@.take(j + 1).drop_last() =~= far@.take(j as int));
            let b = far[j];
            if a.is_some() || b.is_some() {
                out.push(ReplyPair { ttl: t, first_reply: a, second_reply: b });
            }
            j = j + 1;
        }
        assert(far@.take(far@.len() as int) =~= far@);
        assert(out@ =~= start + cross(t, near@.take(i + 1), far@));
        i = i + 1;
    }
    assert(near@.take(near@.len() as int) =~= near@);
}

/// The reply pairs of one flow's replies.
pub fn pairs_of_flow(g: &[Reply]) -> (r: Vec<ReplyPair>)
    ensures
        r@ == flow_pairs(g@),
{
    let (lo, hi) = ttl_range(g);
    proof {
        lemma_ttl_bounds(g@);
    }
    let mut out: Vec<ReplyPair> = Vec::new();
    let mut t: u16 = lo as u16;
    while t <= hi as u16
        invariant
            lo <= t <= hi as int + 1,
            lo == min_ttl(g@),
            hi == max_ttl(g@),
            out@ == pairs_in(g@, lo as int, t - 1),
        decreases hi as int + 1 - t,
    {
        let near = slots_at(g, t);
        let far = slots_at(g, t + 1);
        push_cross(t as TTL, &near, &far, &mut out);
        t = t + 1;
    }
    out
}

/// The reply pairs of each flow: one entry per distinct flow, in order of
/// first appearance.
pub fn get_pairs_by_flow(replies: &[Reply]) -> (r: Vec<(Flow, Vec<ReplyPair>)>)
    ensures
        r@.len() == flows_of(replies@).len(),
        forall|j: int|
            0 <= j < r@.len() ==> (#[trigger] r@[j]).0 == flows_of(replies@)[j] && r@[j].1@
                == flow_pairs(replies_of_flow(replies@, flows_of(replies@)[j])),
{
    let groups = get_replies_by_flow(replies);
    let mut r: Vec<(Flow, Vec<ReplyPair>)> = Vec::new();
    let mut i: usize = 0;
    while i < groups.len()
        invariant
            i <= groups@.len(),
            groups@.len() == flows_of(replies@).len(),
            forall|j: int|
                0 <= j < groups@.len() ==> (#[trigger] groups@[j]).0 == flows_of(replies@)[j]
                    && groups@[j].1@ == replies_of_flow(replies@, flows_of(replies@)[j]),
            r@.len() == i,
            forall|j: int|
                0 <= j < i ==> (#[trigger] r@[j]).0 == flows_of(replies@)[j] && r@[j].1@
                    == flow_pairs(replies_of_flow(replies@, flows_of(replies@)[j])),
        decreases groups@.len() - i,
    {
        let pairs = pairs_of_flow(groups[i].1.as_slice());
        r.push((groups[i].0, pairs));
        i = i + 1;
    }
    r
}

/// The links of a sequence of reply pairs, one per pair, in order.
pub open spec fn links_of_pairs(ps: Seq<ReplyPair>) -> Seq<Link>
    decreases ps.len(),
{
    if ps.len() == 0 {
        Seq::empty()
    } else {
        links_of_pairs(ps.drop_last()).push(link_of(ps.last()))
    }
}

/// The links of the flows `fs` of `s`, flow after flow.
pub open spec fn links_over(s: Seq<Reply>, fs: Seq<Flow>) -> Seq<Link>
    decreases fs.len(),
{
    if fs.len() == 0 {
        Seq::empty()
    } else {
        links_over(s, fs.drop_last()) + links_of_pairs(flow_pairs(replies_of_flow(s, fs.last())))
    }
}

/// Every link observation of `s`, duplicates kept.
pub open spec fn all_links(s: Seq<Reply>) -> Seq<Link> {
    links_over(s, flows_of(s))
}

/// The links of `ls` whose near TTL is `t`, in their order.
pub open spec fn links_with_ttl(ls: Seq<Link>, t: int) -> Seq<Link>
    decreases ls.len(),
{
    if ls.len() == 0 {
        ls
    } else {
        let rest = links_with_ttl(ls.drop_last(), t);
        if ls.last().ttl == t {
            rest.push(ls.last())
        } else {
            rest
        }
    }
}

/// The distinct near TTLs of `ls`, in order of first appearance.
pub open spec fn link_ttls(ls: Seq<Link>) -> Seq<TTL>
    decreases ls.len(),
{
    if ls.len() == 0 {
        Seq::empty()
    } else {
        let rest = link_ttls(ls.drop_last());
        if rest.contains(ls.last().ttl) {
            rest
        } else {
            rest.push(ls.last().ttl)
        }
    }
}

/// The links at near TTL `t` of the replies `s`.
pub open spec fn links_at(s: Seq<Reply>, t: int) -> Seq<Link> {
    links_with_ttl(all_links(s), t)
}

/// A TTL that is no key of `ls` has no links.
pub proof fn lemma_links_absent_ttl(ls: Seq<Link>, t: TTL)
    requires
        !link_ttls(ls).contains(t),
    ensures
        links_with_ttl(ls, t as int).len() == 0,
    decreases ls.len(),
{
    if ls.len() > 0 {
        let rest = link_ttls(ls.drop_last());
        if !rest.contains(ls.last().ttl) {
            assert(link_ttls(ls) == rest.push(ls.last().ttl));
            assert(link_ttls(ls)[rest.len() as int] == ls.last().ttl);
            if rest.contains(t) {
                let k = choose|k: int| 0 <= k < rest.len() && rest[k] == t;
                assert(link_ttls(ls)[k] == t);
            }
        }
        lemma_links_absent_ttl(ls.drop_last(), t);
    }
}

/// Every link observation of the replies: for each flow in order of first
/// appearance, the links of its reply pairs.
pub fn get_all_links(replies: &[Reply]) -> (r: Vec<Link>)
    ensures
        r@ == all_links(replies@),
{
    let pairs = get_pairs_by_flow(replies);
    let ghost fs = flows_of(replies@);
    let mut r: Vec<Link> = Vec::new();
    let mut i: usize = 0;
    while i < pairs.len()
        invariant
            i <= pairs@.len(),
            pairs@.len() == fs.len(),
            fs == flows_of(replies@),
            forall|j: int|
                0 <= j < pairs@.len() ==> (#[trigger] pairs@[j]).0 == fs[j] && pairs@[j].1@
                    == flow_pairs(replies_of_flow(replies@, fs[j])),
            r@ == links_over(replies@, fs.take(i as int)),
        decreases pairs@.len() - i,
    {
        assert(fs.take(i + 1).drop_last() =~= fs.take(i as int));
        let ghost before = r@;
        let ps = &pairs[i].1;
        let mut k: usize = 0;
        while k < ps.len()
            invariant
                k <= ps@.len(),
                r@ == before + links_of_pairs(ps@.take(k as int)),
            decreases ps@.len() - k,
        {
            assert(ps@.take(k + 1).drop_last() =~= ps@.take(k as int));
            r.push(Link::of(&ps[k]));
            k = k + 1;
            assert(r@ =~= before + links_of_pairs(ps@.take(k as int)));
        }
        assert(ps@.take(ps@.len() as int) =~= ps@);
        i = i + 1;
    }
    assert(fs.take(fs.len() as int) =~= fs);
    r
}

fn filter_links_by_ttl(ls: &Vec<Link>, t: TTL) -> (r: Vec<Link>)
    ensures
        r@ == links_with_ttl(ls@, t as int),
{
    let mut r: Vec<Link> = Vec::new();
    let mut i: usize = 0;
    while i < ls.len()
        invariant
            i <= ls@.len(),
            r@ == links_with_ttl(ls@.take(i as int), t as int),
        decreases ls@.len() - i,
    {
        assert(ls@.take(i + 1).drop_last() =~= ls@.take(i as int));
        if ls[i].ttl == t {
            r.push(ls[i]);
        }
        i = i + 1;
    }
    assert(ls@.take(ls@.len() as int) =~= ls@);
    r
}

fn distinct_link_ttls(ls: &Vec<Link>) -> (r: Vec<TTL>)
    ensures
        r@ == link_ttls(ls@),
{
    let mut r: Vec<TTL> = Vec::new();
    let mut i: usize = 0;
    while i < ls.len()
        invariant
            i <= ls@.len(),
            r@ == link_ttls(ls@.take(i as int)),
        decreases ls@.len() - i,
    {
        assert(ls@.take(i + 1).drop_last() =~= ls@.take(i as int));
        if !contains_ttl(&r, ls[i].ttl) {
            r.push(ls[i].ttl);
        }
        i = i + 1;
    }
    assert(ls@.take(ls@.len() as int) =~= ls@);
    r
}

/// The link observations grouped by near TTL: one group per distinct TTL, in
/// order of first appearance, each holding that TTL's links in their order.
pub fn get_links_by_ttl(replies: &[Reply]) -> (r: Vec<(TTL, Vec<Link>)>)
    ensures
        r@.len() == link_ttls(all_links(replies@)).len(),
        forall|j: int|
            0 <= j < r@.len() ==> (#[trigger] r@[j]).0 == link_ttls(all_links(replies@))[j]
                && r@[j].1@ == links_at(replies@, r@[j].0 as int),
{
    let all = get_all_links(replies);
    let keys = distinct_link_ttls(&all);
    let mut r: Vec<(TTL, Vec<Link>)> = Vec::new();
    let mut i: usize = 0;
    while i < keys.len()
        invariant
            i <= keys@.len(),
            all@ == all_links(replies@),
            keys@ == link_ttls(all@),
            r@.len() == i,
            forall|j: int|
                0 <= j < i ==> (#[trigger] r@[j]).0 == keys@[j] && r@[j].1@ == links_at(
                    replies@,
                    keys@[j] as int,
                ),
        decreases keys@.len() - i,
    {
        let group = filter_links_by_ttl(&all, keys[i]);
        r.push((keys[i], group));
        i = i + 1;
    }
    r
}

/// The links at near TTL `t` in a grouping made by `get_links_by_ttl`.
pub fn links_at_ttl(by_ttl: &Vec<(TTL, Vec<Link>)>, t: TTL, Ghost(s): Ghost<Seq<Reply>>) -> (r: Vec<Link>)
    requires
        by_ttl@.len() == link_ttls(all_links(s)).len(),
        forall|j: int|
            0 <= j < by_ttl@.len() ==> (#[trigger] by_ttl@[j]).0 == link_ttls(all_links(s))[j]
                && by_ttl@[j].1@ == links_at(s, by_ttl@[j].0 as int),
    ensures
        r@ == links_at(s, t as int),
{
    let mut i: usize = 0;
    while i < by_ttl.len()
        invariant
            i <= by_ttl@.len(),
            forall|j: int| 0 <= j < i ==> (#[trigger] by_ttl@[j]).0 != t,
            forall|j: int|
                0 <= j < by_ttl@.len() ==> (#[trigger] by_ttl@[j]).0 == link_ttls(all_links(s))[j]
                    && by_ttl@[j].1@ == links_at(s, by_ttl@[j].0 as int),
        decreases by_ttl@.len() - i,
    {
        if by_ttl[i].0 == t {
            let c = by_ttl[i].1.clone();
            assert(c@ =~= by_ttl@[i as int].1@);
            assert(by_ttl@[i as int].1@ == links_at(s, t as int));
            return c;
        }
        i = i + 1;
    }
    proof {
        let keys = link_ttls(all_links(s));
        if keys.contains(t) {
            let k = choose|k: int| 0 <= k < keys.len() && keys[k] == t;
            assert(by_ttl@[k].0 == t);
        }
        lemma_links_absent_ttl(all_links(s), t);
    }
    let r: Vec<Link> = Vec::new();
    assert(r@ =~= links_at(s, t as int));
    r
}

} // verus!
