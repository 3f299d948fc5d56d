//! The round-based probing controller.

use vstd::prelude::*;
use crate::analysis::{
    distinct_srcs, successor_list, successors, transit_count, transits, weight_of,
    weights, srcs_distinct, Weight,
};
use crate::laws::{
    count_ttl, lemma_batch_ttls, lemma_probes_sent_accounting, lemma_round_unique_per_ttl,
};
use crate::links::{
    all_links, filter_by_ttl, get_links_by_ttl, link_ttls, links_at, links_at_ttl,
    replies_with_ttl,
};
use crate::sequential_mapper::{
    spec_addr_offset, spec_port_offset, SequentialFlowMapper, DEFAULT_PREFIX_SIZE_V4,
    DEFAULT_PREFIX_SIZE_V6,
};
use crate::stopping_point::{spec_stopping_point, stopping_point, StoppingPoints, MAX_N_PROBES};
use crate::types::{in_prefix, spec_in_prefix, spec_is_time_exceeded, IpAddress, Link, Port, Probe, Reply, L4, TTL};

verus! {

/// The replies of successive rounds, one after the other.
pub open spec fn flatten_rounds(rounds: Seq<Vec<Reply>>) -> Seq<Reply>
    decreases rounds.len(),
{
    if rounds.len() == 0 {
        Seq::empty()
    } else {
        flatten_rounds(rounds.drop_last()) + rounds.last()@
    }
}

/// The distinct interfaces that replied to probes of TTL `t`, in order of
/// first appearance.
pub open spec fn nodes_at(s: Seq<Reply>, t: int) -> Seq<IpAddress> {
    srcs_distinct(replies_with_ttl(s, t))
}

/// `n` absent slots.
pub open spec fn none_seq(n: nat) -> Seq<Option<usize>>
    decreases n,
{
    if n == 0 {
        Seq::empty()
    } else {
        none_seq((n - 1) as nat).push(None)
    }
}

/// `ceil(a / b)`.
pub open spec fn ceil_div(a: int, b: int) -> int {
    (a + b - 1) / b
}

/// The destination's transport protocol: ICMP towards an IPv6 destination is ICMPv6.
pub open spec fn normalized_protocol(protocol: L4, dst: IpAddress) -> L4 {
    match (protocol, dst) {
        (L4::ICMP, IpAddress::V6(_)) => L4::ICMPv6,
        _ => protocol,
    }
}

/// The configuration of a controller.
#[derive(Clone, Copy, Debug, PartialEq, Eq)]
pub struct MinerConfig {
    pub dst_addr: IpAddress,
    pub min_ttl: TTL,
    pub max_ttl: TTL,
    pub src_port: Port,
    pub dst_port: Port,
    pub protocol: L4,
    pub max_round: u32,
    /// Length of the prefix around an IPv4 destination whose interfaces are not resolved.
    pub dst_prefix_len_v4: u8,
    /// Length of the prefix around an IPv6 destination whose interfaces are not resolved.
    pub dst_prefix_len_v6: u8,
}

/// Adaptive multipath probing towards one destination.
pub struct DiamondMiner {
    config: MinerConfig,
    stopping_points: StoppingPoints,
    mapper_v4: SequentialFlowMapper,
    mapper_v6: SequentialFlowMapper,
    current_round: u32,
    probes_sent: Vec<usize>,
    replies_by_round: Vec<Vec<Reply>>,
}

impl DiamondMiner {
    /// The controller's internal invariant.
    pub closed spec fn wf(&self) -> bool {
        &&& self.stopping_points.wf()
        &&& self.mapper_v4.prefix_size == DEFAULT_PREFIX_SIZE_V4
        &&& self.mapper_v6.prefix_size == DEFAULT_PREFIX_SIZE_V6
        &&& self.probes_sent@.len() == 256
    }

    /// The configuration in use.
    pub closed spec fn cfg(&self) -> MinerConfig {
        self.config
    }

    /// The stopping-point table in use.
    pub closed spec fn points(&self) -> Seq<usize> {
        self.stopping_points@
    }

    /// Number of rounds played so far.
    pub closed spec fn round(&self) -> int {
        self.current_round as int
    }

    /// Number of probes sent so far at each TTL (256 entries).
    pub closed spec fn sent(&self) -> Seq<usize> {
        self.probes_sent@
    }

    /// Every reply ingested so far, round after round.
    pub closed spec fn all_replies(&self) -> Seq<Reply> {
        flatten_rounds(self.replies_by_round@)
    }

    /// Number of rounds whose replies are stored.
    pub closed spec fn stored_rounds(&self) -> int {
        self.replies_by_round@.len() as int
    }
}

/// Length of the prefix around the destination that is never resolved.
pub open spec fn skip_len(c: MinerConfig) -> nat {
    match c.dst_addr {
        IpAddress::V4(_) => c.dst_prefix_len_v4 as nat,
        IpAddress::V6(_) => c.dst_prefix_len_v6 as nat,
    }
}

/// Whether `n` lies in the prefix around the destination.
pub open spec fn in_destination_prefix(c: MinerConfig, n: IpAddress) -> bool {
    spec_in_prefix(c.dst_addr, skip_len(c), n)
}

/// The stopping point of `n` at TTL `t`, for its observed successors.
pub open spec fn n_k(p: Seq<usize>, s: Seq<Reply>, t: int, n: IpAddress) -> int {
    spec_stopping_point(p, successors(links_at(s, t), n).len() as int)
}

/// Whether `n` at TTL `t` is neither the destination nor in the prefix around
/// it, and has fewer probes through it than its stopping point.
pub open spec fn lacks_probes(c: MinerConfig, p: Seq<usize>, s: Seq<Reply>, t: int, n: IpAddress) -> bool {
    &&& !in_destination_prefix(c, n)
    &&& n != c.dst_addr
    &&& (transits(links_at(s, t), n) as int) < n_k(p, s, t, n)
}

/// Whether `n` at TTL `t` has successors but too few probes through it.
pub open spec fn is_unresolved(c: MinerConfig, p: Seq<usize>, s: Seq<Reply>, t: int, n: IpAddress) -> bool {
    &&& lacks_probes(c, p, s, t, n)
    &&& successors(links_at(s, t), n).len() > 0
}

/// The unresolved nodes among `nodes`, in their order.
pub open spec fn unresolved_among(
    c: MinerConfig,
    p: Seq<usize>,
    s: Seq<Reply>,
    t: int,
    nodes: Seq<IpAddress>,
) -> Seq<IpAddress>
    decreases nodes.len(),
{
    if nodes.len() == 0 {
        Seq::empty()
    } else {
        let rest = unresolved_among(c, p, s, t, nodes.drop_last());
        if is_unresolved(c, p, s, t, nodes.last()) {
            rest.push(nodes.last())
        } else {
            rest
        }
    }
}

/// The unresolved nodes at TTL `t`.
pub open spec fn unresolved_at(c: MinerConfig, p: Seq<usize>, s: Seq<Reply>, t: int) -> Seq<IpAddress> {
    unresolved_among(c, p, s, t, nodes_at(s, t))
}

/// The number of flows that `n` needs, given an estimate of the total
/// number of its interfaces where one was made.
pub open spec fn needed(p: Seq<usize>, s: Seq<Reply>, t: int, n: IpAddress, e: Option<usize>) -> int {
    match e {
        None => n_k(p, s, t, n),
        Some(x) => {
            let o = spec_stopping_point(p, x as int);
            if o > n_k(p, s, t, n) {
                o
            } else {
                n_k(p, s, t, n)
            }
        },
    }
}

/// The flows needed at TTL `t` on account of `n`: its need divided by its
/// weight, for a node that lacks probes (with or without successors) and
/// has a weight of at least one thousandth.
pub open spec fn weighted_threshold(
    c: MinerConfig,
    p: Seq<usize>,
    s: Seq<Reply>,
    t: int,
    n: IpAddress,
    e: Option<usize>,
) -> int {
    let w = weight_of(replies_with_ttl(s, t), nodes_at(s, t), n);
    if lacks_probes(c, p, s, t, n) && w.0 > 0 && 1000 * w.0 >= w.1 {
        ceil_div(needed(p, s, t, n, e) * w.1, w.0)
    } else {
        0
    }
}

/// The largest weighted threshold over `nodes` (0 for none).
pub open spec fn max_threshold(
    c: MinerConfig,
    p: Seq<usize>,
    s: Seq<Reply>,
    t: int,
    nodes: Seq<IpAddress>,
    es: Seq<Option<usize>>,
) -> int
    decreases nodes.len(),
{
    if nodes.len() == 0 || es.len() == 0 {
        0
    } else {
        let rest = max_threshold(c, p, s, t, nodes.drop_last(), es.drop_last());
        let th = weighted_threshold(c, p, s, t, nodes.last(), es.last());
        if th > rest {
            th
        } else {
            rest
        }
    }
}

/// The flows needed at TTL `t` without estimation.
pub open spec fn required_flows(c: MinerConfig, p: Seq<usize>, s: Seq<Reply>, t: int) -> int {
    max_threshold(c, p, s, t, nodes_at(s, t), none_seq(nodes_at(s, t).len()))
}

/// `es` holds, for each node that lacks probes, what the estimator returned on
/// its stopping point and transit count.
pub open spec fn estimates_from<F: Fn(usize, usize) -> usize>(
    c: MinerConfig,
    p: Seq<usize>,
    f: F,
    s: Seq<Reply>,
    t: int,
    nodes: Seq<IpAddress>,
    es: Seq<Option<usize>>,
) -> bool {
    &&& es.len() == nodes.len()
    &&& forall|j: int|
        0 <= j < nodes.len() ==> match #[trigger] es[j] {
            Some(x) => call_ensures(
                f,
                (n_k(p, s, t, nodes[j]) as usize, transits(links_at(s, t), nodes[j]) as usize),
                x,
            ),
            None => !lacks_probes(c, p, s, t, nodes[j]),
        }
}

/// A well-formed controller counts the probes sent at each of the 256 TTLs.
pub proof fn lemma_sent_len(m: DiamondMiner)
    requires
        m.wf(),
    ensures
        m.sent().len() == 256,
{
}

proof fn lemma_threshold_bound(m: int, num: int, den: int)
    requires
        0 <= m,
        0 < num,
        0 <= den,
        1000 * num >= den,
    ensures
        0 <= ceil_div(m * den, num) <= 1000 * m,
{
    assert(m * den <= m * (1000 * num)) by (nonlinear_arith)
        requires
            0 <= m,
            den <= 1000 * num,
    ;
    assert((m * den + num - 1) / num <= (1000 * m * num + num - 1) / num) by (nonlinear_arith)
        requires
            m * den <= m * (1000 * num),
            0 < num,
    ;
    assert((1000 * m * num + num - 1) / num == 1000 * m) by (nonlinear_arith)
        requires
            0 < num,
            0 <= m,
    ;
    assert(0 <= (m * den + num - 1) / num) by (nonlinear_arith)
        requires
            0 <= m,
            0 <= den,
            0 < num,
    ;
}

/// The replies of `s` that report an expired TTL, in their order.
pub open spec fn time_exceeded_only(s: Seq<Reply>) -> Seq<Reply>
    decreases s.len(),
{
    if s.len() == 0 {
        s
    } else {
        let rest = time_exceeded_only(s.drop_last());
        if spec_is_time_exceeded(s.last()) {
            rest.push(s.last())
        } else {
            rest
        }
    }
}

impl DiamondMiner {
    /// A controller for one destination, before any round. ICMP towards an
    /// IPv6 destination becomes ICMPv6. Only the destination itself is left
    /// out of the analysis until the prefix lengths are changed.
    pub fn new(
        dst_addr: IpAddress,
        min_ttl: TTL,
        max_ttl: TTL,
        src_port: Port,
        dst_port: Port,
        protocol: L4,
        stopping_points: StoppingPoints,
        max_round: u32,
    ) -> (r: Self)
        requires
            stopping_points.wf(),
        ensures
            r.wf(),
            r.cfg() == (MinerConfig {
                dst_addr,
                min_ttl,
                max_ttl,
                src_port,
                dst_port,
                protocol: normalized_protocol(protocol, dst_addr),
                max_round,
                dst_prefix_len_v4: 32,
                dst_prefix_len_v6: 128,
            }),
            r.points() == stopping_points@,
            r.round() == 0,
            r.stored_rounds() == 0,
            r.all_replies() == Seq::<Reply>::empty(),
            r.sent().len() == 256,
            forall|t: int| 0 <= t < 256 ==> #[trigger] r.sent()[t] == 0,
    {
        let protocol = match (protocol, dst_addr) {
            (L4::ICMP, IpAddress::V6(_)) => L4::ICMPv6,
            (proto, _) => proto,
        };
        let mut probes_sent: Vec<usize> = Vec::new();
        let mut i: usize = 0;
        while i < 256
            invariant
                i <= 256,
                probes_sent@.len() == i,
                forall|t: int| 0 <= t < i ==> #[trigger] probes_sent@[t] == 0,
            decreases 256 - i,
        {
            probes_sent.push(0);
            i = i + 1;
        }
        let config = MinerConfig {
            dst_addr,
            min_ttl,
            max_ttl,
            src_port,
            dst_port,
            protocol,
            max_round,
            dst_prefix_len_v4: 32,
            dst_prefix_len_v6: 128,
        };
        let r = DiamondMiner {
            config,
            stopping_points,
            mapper_v4: SequentialFlowMapper::new(DEFAULT_PREFIX_SIZE_V4),
            mapper_v6: SequentialFlowMapper::new(DEFAULT_PREFIX_SIZE_V6),
            current_round: 0,
            probes_sent,
            replies_by_round: Vec::new(),
        };
        assert(r.all_replies() =~= Seq::<Reply>::empty());
        r
    }

    /// The configuration in use.
    pub fn config(&self) -> (r: MinerConfig)
        ensures
            r == self.cfg(),
    {
        self.config
    }

    /// Sets the range of TTLs probed in the coming rounds.
    pub fn set_ttl_range(&mut self, min_ttl: TTL, max_ttl: TTL)
        ensures
            final(self).cfg() == (MinerConfig { min_ttl, max_ttl, ..old(self).cfg() }),
            final(self).wf() == old(self).wf(),
            final(self).points() == old(self).points(),
            final(self).round() == old(self).round(),
            final(self).sent() == old(self).sent(),
            final(self).all_replies() == old(self).all_replies(),
            final(self).stored_rounds() == old(self).stored_rounds(),
    {
        self.config.min_ttl = min_ttl;
        self.config.max_ttl = max_ttl;
    }

    /// Sets the lengths of the prefixes around the destination (IPv4, IPv6)
    /// whose interfaces are left out of the analysis.
    pub fn set_destination_prefix(&mut self, len_v4: u8, len_v6: u8)
        ensures
            final(self).cfg() == (MinerConfig {
                dst_prefix_len_v4: len_v4,
                dst_prefix_len_v6: len_v6,
                ..old(self).cfg()
            }),
            final(self).wf() == old(self).wf(),
            final(self).points() == old(self).points(),
            final(self).round() == old(self).round(),
            final(self).sent() == old(self).sent(),
            final(self).all_replies() == old(self).all_replies(),
            final(self).stored_rounds() == old(self).stored_rounds(),
    {
        self.config.dst_prefix_len_v4 = len_v4;
        self.config.dst_prefix_len_v6 = len_v6;
    }

    /// Number of rounds played so far.
    pub fn current_round(&self) -> (r: u32)
        ensures
            r == self.round(),
    {
        self.current_round
    }

    /// Number of probes sent so far at TTL `ttl`.
    pub fn probes_sent_at(&self, ttl: TTL) -> (r: usize)
        requires
            self.wf(),
        ensures
            r == self.sent()[ttl as int],
    {
        self.probes_sent[ttl as usize]
    }

    /// Every reply ingested so far, round after round.
    pub fn replies(&self) -> (r: Vec<Reply>)
        ensures
            r@ == self.all_replies(),
    {
        let rounds = &self.replies_by_round;
        let mut r: Vec<Reply> = Vec::new();
        let mut i: usize = 0;
        while i < rounds.len()
            invariant
                i <= rounds@.len(),
                r@ == flatten_rounds(rounds@.take(i as int)),
            decreases rounds@.len() - i,
        {
            assert(rounds@.take(i + 1).drop_last() =~= rounds@.take(i as int));
            let ghost before = r@;
            let round = &rounds[i];
            let mut k: usize = 0;
            while k < round.len()
                invariant
                    k <= round@.len(),
                    r@ == before + round@.take(k as int),
                decreases round@.len() - k,
            {
                r.push(round[k]);
                k = k + 1;
                assert(r@ =~= before + round@.take(k as int));
            }
            assert(round@.take(round@.len() as int) =~= round@);
            i = i + 1;
        }
        assert(rounds@.take(rounds@.len() as int) =~= rounds@);
        r
    }

    /// The ingested replies that report an expired TTL.
    pub fn time_exceeded_replies(&self) -> (r: Vec<Reply>)
        ensures
            r@ == time_exceeded_only(self.all_replies()),
    {
        let all = self.replies();
        let mut r: Vec<Reply> = Vec::new();
        let mut i: usize = 0;
        while i < all.len()
            invariant
                i <= all@.len(),
                r@ == time_exceeded_only(all@.take(i as int)),
            decreases all@.len() - i,
        {
            assert(all@.take(i + 1).drop_last() =~= all@.take(i as int));
            if all[i].is_time_exceeded() {
                r.push(all[i]);
            }
            i = i + 1;
        }
        assert(all@.take(all@.len() as int) =~= all@);
        r
    }

    /// The link observations of every ingested reply, grouped by near TTL.
    pub fn links_by_ttl(&self) -> (r: Vec<(TTL, Vec<Link>)>)
        ensures
            r@.len() == link_ttls(all_links(self.all_replies())).len(),
            forall|j: int|
                0 <= j < r@.len() ==> (#[trigger] r@[j]).0 == link_ttls(all_links(self.all_replies()))[j]
                    && r@[j].1@ == links_at(self.all_replies(), r@[j].0 as int),
    {
        let all = self.replies();
        get_links_by_ttl(all.as_slice())
    }

    /// The number of link observations at each near TTL.
    pub fn n_links_by_ttl(&self) -> (r: Vec<(TTL, usize)>)
        ensures
            r@.len() == link_ttls(all_links(self.all_replies())).len(),
            forall|j: int|
                0 <= j < r@.len() ==> (#[trigger] r@[j]).0 == link_ttls(all_links(self.all_replies()))[j]
                    && r@[j].1 == links_at(self.all_replies(), r@[j].0 as int).len(),
    {
        let by_ttl = self.links_by_ttl();
        let mut r: Vec<(TTL, usize)> = Vec::new();
        let mut i: usize = 0;
        while i < by_ttl.len()
            invariant
                i <= by_ttl@.len(),
                by_ttl@.len() == link_ttls(all_links(self.all_replies())).len(),
                forall|j: int|
                    0 <= j < by_ttl@.len() ==> (#[trigger] by_ttl@[j]).0 == link_ttls(
                        all_links(self.all_replies()),
                    )[j] && by_ttl@[j].1@ == links_at(self.all_replies(), by_ttl@[j].0 as int),
                r@.len() == i,
                forall|j: int|
                    0 <= j < i ==> (#[trigger] r@[j]).0 == link_ttls(all_links(self.all_replies()))[j]
                        && r@[j].1 == links_at(self.all_replies(), r@[j].0 as int).len(),
            decreases by_ttl@.len() - i,
        {
            r.push((by_ttl[i].0, by_ttl[i].1.len()));
            i = i + 1;
        }
        r
    }

    /// The weight of each of `nodes` among the replies at TTL `ttl`: its share
    /// of those replies, or a uniform share where the nodes sent none.
    pub fn nodes_distribution_at_ttl(&self, nodes: &Vec<IpAddress>, ttl: TTL) -> (r: Vec<Weight>)
        ensures
            r@.len() == nodes@.len(),
            forall|j: int|
                0 <= j < r@.len() ==> (#[trigger] r@[j]).node == nodes@[j] && (r@[j].num as int, r@[j].den as int)
                    == weight_of(replies_with_ttl(self.all_replies(), ttl as int), nodes@, nodes@[j]),
    {
        let all = self.replies();
        let at = filter_by_ttl(all.as_slice(), ttl);
        weights(&at, nodes)
    }
}

impl DiamondMiner {
    fn analyse<F: Fn(usize, usize) -> usize>(
        &self,
        all: &Vec<Reply>,
        by_ttl: &Vec<(TTL, Vec<Link>)>,
        ttl: TTL,
        estimator: Option<&F>,
    ) -> (r: (Vec<IpAddress>, usize, Ghost<Seq<Option<usize>>>))
        requires
            self.wf(),
            by_ttl@.len() == link_ttls(all_links(all@)).len(),
            forall|j: int|
                0 <= j < by_ttl@.len() ==> (#[trigger] by_ttl@[j]).0 == link_ttls(all_links(all@))[j]
                    && by_ttl@[j].1@ == links_at(all@, by_ttl@[j].0 as int),
            estimator.is_some() ==> forall|a: usize, b: usize|
                call_requires(*estimator.unwrap(), (a, b)),
        ensures
            r.0@ == unresolved_at(self.cfg(), self.points(), all@, ttl as int),
            r.1 == max_threshold(self.cfg(), self.points(), all@, ttl as int, nodes_at(all@, ttl as int), r.2@),
            r.1 <= 1000 * MAX_N_PROBES,
            estimator.is_none() ==> r.2@ == none_seq(nodes_at(all@, ttl as int).len()),
            estimator.is_some() ==> estimates_from(self.cfg(), self.points(), 
                *estimator.unwrap(),
                all@,
                ttl as int,
                nodes_at(all@, ttl as int),
                r.2@,
            ),
    {
        let ghost s = all@;
        let ghost t = ttl as int;
        let at = filter_by_ttl(all.as_slice(), ttl);
        let nodes = distinct_srcs(&at);
        let w = weights(&at, &nodes);
        let ls = links_at_ttl(by_ttl, ttl, Ghost(all@));
        let cfg = self.config;
        let dst_len: u8 = match cfg.dst_addr {
            IpAddress::V4(_) => cfg.dst_prefix_len_v4,
            IpAddress::V6(_) => cfg.dst_prefix_len_v6,
        };
        let mut unresolved: Vec<IpAddress> = Vec::new();
        let mut best: usize = 0;
        let ghost mut es: Seq<Option<usize>> = Seq::empty();
        let mut i: usize = 0;
        while i < nodes.len()
            invariant
                self.wf(),
                cfg == self.cfg(),
                dst_len as nat == skip_len(self.cfg()),
                at@ == replies_with_ttl(s, t),
                nodes@ == nodes_at(s, t),
                w@.len() == nodes@.len(),
                forall|j: int|
                    0 <= j < w@.len() ==> (#[trigger] w@[j]).node == nodes@[j] && (
                    w@[j].num as int, w@[j].den as int) == weight_of(at@, nodes@, nodes@[j])
                        && w@[j].num <= usize::MAX,
                ls@ == links_at(s, t),
                i <= nodes@.len(),
                es.len() == i,
                unresolved@ == unresolved_among(self.cfg(), self.points(), s, t, nodes@.take(i as int)),
                best == max_threshold(self.cfg(), self.points(), s, t, nodes@.take(i as int), es),
                best <= 1000 * MAX_N_PROBES,
                estimator.is_none() ==> es == none_seq(i as nat),
                estimator.is_some() ==> forall|a: usize, b: usize|
                    call_requires(*estimator.unwrap(), (a, b)),
                estimator.is_some() ==> forall|j: int|
                    0 <= j < i ==> match #[trigger] es[j] {
                        Some(x) => call_ensures(
                            *estimator.unwrap(),
                            (n_k(self.points(), s, t, nodes@[j]) as usize, transits(ls@, nodes@[j]) as usize),
                            x,
                        ),
                        None => !lacks_probes(self.cfg(), self.points(), s, t, nodes@[j]),
                    },
            decreases nodes@.len() - i,
        {
            assert(nodes@.take(i + 1).drop_last() =~= nodes@.take(i as int));
            let n = nodes[i];
            let ghost old_best: int = best as int;
            let ghost old_es = es;
            let mut e: Option<usize> = None;
            if !(in_prefix(cfg.dst_addr, dst_len, n) || n == cfg.dst_addr) {
                let succ = successor_list(&ls, n);
                let nk = stopping_point(succ.len(), &self.stopping_points);
                let c = transit_count(&ls, n);
                if c < nk {
                    if succ.len() > 0 {
                        unresolved.push(n);
                    }
                    let mut need: usize = nk;
                    match estimator {
                        Some(f) => {
                            let x = f(nk, c);
                            e = Some(x);
                            let o = stopping_point(x, &self.stopping_points);
                            if o > nk {
                                need = o;
                            }
                        },
                        None => {},
                    }
                    assert(need == needed(self.points(), s, t, n, e));
                    let wi = w[i];
                    if wi.num > 0 && 1000 * wi.num >= wi.den {
                        proof {
                            lemma_threshold_bound(need as int, wi.num as int, wi.den as int);
                            assert(need as int * wi.den as int <= 722 * (1000 * 0xffff_ffff_ffff_ffffnat)) by (nonlinear_arith)
                                requires
                                    need <= 722,
                                    wi.den <= 1000 * wi.num,
                                    wi.num <= 0xffff_ffff_ffff_ffffnat,
                            ;
                        }
                        let th = (need as u128 * wi.den + wi.num - 1) / wi.num;
                        if th > best as u128 {
                            best = th as usize;
                        }
                    }
                }
            }
            proof {
                es = es.push(e);
                assert(es.drop_last() =~= old_es);
                assert(nodes@.take(i + 1).last() == n);
                let th = weighted_threshold(self.cfg(), self.points(), s, t, n, e);
                assert(best == if th > old_best { th } else { old_best });
            }
            i = i + 1;
        }
        assert(nodes@.take(nodes@.len() as int) =~= nodes@);
        (unresolved, best, Ghost(es))
    }

    /// The unresolved interfaces at TTL `ttl` (those with successors but too
    /// few probes through them), and the number of flows that the TTL needs:
    /// the largest weighted threshold over its nodes that lack probes, with or
    /// without successors. With an estimator, each such node's need is the
    /// larger of its stopping point and the stopping point of the estimated
    /// number of interfaces.
    pub fn unresolved_nodes_at_ttl<F: Fn(usize, usize) -> usize>(
        &self,
        ttl: TTL,
        estimator: Option<&F>,
    ) -> (r: (Vec<IpAddress>, usize))
        requires
            self.wf(),
            estimator.is_some() ==> forall|a: usize, b: usize|
                call_requires(*estimator.unwrap(), (a, b)),
        ensures
            r.0@ == unresolved_at(self.cfg(), self.points(), self.all_replies(), ttl as int),
            estimator.is_none() ==> r.1 == required_flows(self.cfg(), self.points(), self.all_replies(), ttl as int),
            estimator.is_some() ==> exists|es: Seq<Option<usize>>|
                estimates_from(self.cfg(), self.points(), 
                    *estimator.unwrap(),
                    self.all_replies(),
                    ttl as int,
                    nodes_at(self.all_replies(), ttl as int),
                    es,
                ) && r.1 == max_threshold(self.cfg(), self.points(), 
                    self.all_replies(),
                    ttl as int,
                    nodes_at(self.all_replies(), ttl as int),
                    es,
                ),
    {
        let all = self.replies();
        let by_ttl = get_links_by_ttl(all.as_slice());
        let (unresolved, best, Ghost(es)) = self.analyse(&all, &by_ttl, ttl, estimator);
        (unresolved, best)
    }
}

/// Number of addresses in the destination prefix that flows spread over.
pub open spec fn prefix_size_of(dst: IpAddress) -> int {
    match dst {
        IpAddress::V4(_) => DEFAULT_PREFIX_SIZE_V4 as int,
        IpAddress::V6(_) => DEFAULT_PREFIX_SIZE_V6 as int,
    }
}

/// The number of flows that can be told apart: the prefix's addresses, then
/// the source ports from the base port up to 65535.
pub open spec fn flow_cap(cfg: MinerConfig) -> int {
    prefix_size_of(cfg.dst_addr) + (65535 - cfg.src_port)
}

/// The probe of flow `f` at TTL `t`: the address offset is added to the
/// destination (twice over for IPv4), the port offset to the source port.
pub open spec fn probe_for(cfg: MinerConfig, t: int, f: int) -> Probe {
    let ps = prefix_size_of(cfg.dst_addr);
    let a_off = spec_addr_offset(ps, f);
    Probe {
        dst_addr: match cfg.dst_addr {
            IpAddress::V4(a) => IpAddress::V4(((a + 2 * a_off) % 0x1_0000_0000) as u32),
            IpAddress::V6(a) => IpAddress::V6(
                ((a + a_off) % (u128::MAX as int + 1)) as u128,
            ),
        },
        src_port: (cfg.src_port + spec_port_offset(ps, f)) as u16,
        dst_port: cfg.dst_port,
        protocol: cfg.protocol,
        ttl: t as u8,
    }
}

/// The flows wanted at TTL `t`: the larger of its own need and the need of
/// the TTL before it (at the first TTL, at least one flow unless it is TTL 0).
pub open spec fn combined_flows(cfg: MinerConfig, mf: Seq<int>, t: int) -> int {
    let prev = if t > cfg.min_ttl {
        mf[t - 1]
    } else if t == 0 {
        0
    } else {
        1
    };
    if mf[t] > prev {
        mf[t]
    } else {
        prev
    }
}

/// The end of the flow range at TTL `t`: the flows wanted, within the cap.
pub open spec fn target_flows(cfg: MinerConfig, mf: Seq<int>, t: int) -> int {
    let c = combined_flows(cfg, mf, t);
    if c < flow_cap(cfg) {
        c
    } else {
        flow_cap(cfg)
    }
}

/// The probes of flows `lo` to `hi - 1` at TTL `t`, in order.
pub open spec fn probes_for_ttl(cfg: MinerConfig, t: int, lo: int, hi: int) -> Seq<Probe>
    decreases hi - lo,
{
    if hi <= lo {
        Seq::empty()
    } else {
        probes_for_ttl(cfg, t, lo, hi - 1).push(probe_for(cfg, t, hi - 1))
    }
}

/// The probes emitted for TTLs `min_ttl` to `k - 1`: at each TTL, the flows
/// from those already sent up to the target.
pub open spec fn batch_upto(cfg: MinerConfig, sent: Seq<usize>, mf: Seq<int>, k: int) -> Seq<Probe>
    decreases k - cfg.min_ttl,
{
    if k <= cfg.min_ttl {
        Seq::empty()
    } else {
        batch_upto(cfg, sent, mf, k - 1) + probes_for_ttl(
            cfg,
            k - 1,
            sent[k - 1] as int,
            target_flows(cfg, mf, k - 1),
        )
    }
}

/// The probes of one round, TTL by TTL.
pub open spec fn batch(cfg: MinerConfig, sent: Seq<usize>, mf: Seq<int>) -> Seq<Probe> {
    batch_upto(cfg, sent, mf, cfg.max_ttl + 1)
}

/// The probes sent at TTL `t` once the round's probes are counted.
pub open spec fn new_sent_at(cfg: MinerConfig, sent: Seq<usize>, mf: Seq<int>, t: int) -> int {
    if cfg.min_ttl <= t <= cfg.max_ttl && sent[t] < target_flows(cfg, mf, t) {
        target_flows(cfg, mf, t)
    } else {
        sent[t] as int
    }
}

/// Whether `mf` gives, for each probed TTL, the flows that round `round`
/// asks for without estimation.
pub open spec fn baseline_flows(m: DiamondMiner, mf: Seq<int>) -> bool {
    &&& mf.len() == 256
    &&& forall|t: int|
        m.cfg().min_ttl <= t <= m.cfg().max_ttl ==> #[trigger] mf[t] == if m.round() == 1 {
            spec_stopping_point(m.points(), 1)
        } else {
            required_flows(m.cfg(), m.points(), m.all_replies(), t)
        }
}

/// Whether `mf` gives, for each probed TTL, the flows that round `round`
/// asks for with the estimates `ess`.
pub open spec fn estimated_flows<F: Fn(usize, usize) -> usize>(
    m: DiamondMiner,
    f: F,
    mf: Seq<int>,
    ess: Seq<Seq<Option<usize>>>,
) -> bool {
    &&& mf.len() == 256
    &&& ess.len() == 256
    &&& forall|t: int|
        m.cfg().min_ttl <= t <= m.cfg().max_ttl ==> if m.round() == 1 {
            #[trigger] mf[t] == spec_stopping_point(m.points(), 1)
        } else {
            &&& estimates_from(m.cfg(), m.points(), f, m.all_replies(), t, nodes_at(m.all_replies(), t), ess[t])
            &&& mf[t] == max_threshold(m.cfg(), m.points(), m.all_replies(), t, nodes_at(m.all_replies(), t), ess[t])
        }
}

/// What a round returned and recorded: the batch and the new sent counts
/// for the flows `mf` wanted at each TTL, and how those flows were found.
pub open spec fn round_result<F: Fn(usize, usize) -> usize>(
    before_cfg: MinerConfig,
    before_sent: Seq<usize>,
    after: DiamondMiner,
    estimator: Option<&F>,
    r: Seq<Probe>,
    mf: Seq<int>,
    ess: Seq<Seq<Option<usize>>>,
) -> bool {
    &&& mf.len() == 256
    &&& forall|t: int| 0 <= t < 256 ==> 0 <= #[trigger] mf[t] <= 1000 * MAX_N_PROBES
    &&& r == batch(before_cfg, before_sent, mf)
    &&& after.sent() == updated_sent(before_cfg, before_sent, mf)
    &&& estimator.is_none() ==> baseline_flows(after, mf)
    &&& estimator.is_some() ==> estimated_flows(after, *estimator.unwrap(), mf, ess)
}

fn add_mod_u32(a: u32, b: u32) -> (r: u32)
    requires
        b < 0x1_0000,
    ensures
        r == (a + b) % 0x1_0000_0000,
{
    let x: u64 = a as u64 + b as u64;
    (x % 0x1_0000_0000) as u32
}

pub(crate) fn add_mod_u128(a: u128, b: u128) -> (r: u128)
    ensures
        r == (a + b) % (u128::MAX as int + 1),
{
    if a > u128::MAX - b {
        b - (u128::MAX - a) - 1
    } else {
        a + b
    }
}

impl DiamondMiner {
    fn make_probe(&self, t: TTL, f: usize) -> (p: Probe)
        requires
            self.wf(),
            f < flow_cap(self.cfg()),
        ensures
            p == probe_for(self.cfg(), t as int, f as int),
    {
        let cfg = self.config;
        match cfg.dst_addr {
            IpAddress::V4(a) => {
                let (ip_offset, port_offset) = self.mapper_v4.offset(f as u128);
                let dst = add_mod_u32(a, (2 * ip_offset) as u32);
                Probe {
                    dst_addr: IpAddress::V4(dst),
                    src_port: cfg.src_port + port_offset as u16,
                    dst_port: cfg.dst_port,
                    protocol: cfg.protocol,
                    ttl: t,
                }
            },
            IpAddress::V6(a) => {
                let (ip_offset, port_offset) = self.mapper_v6.offset(f as u128);
                let dst = add_mod_u128(a, ip_offset);
                Probe {
                    dst_addr: IpAddress::V6(dst),
                    src_port: cfg.src_port + port_offset as u16,
                    dst_port: cfg.dst_port,
                    protocol: cfg.protocol,
                    ttl: t,
                }
            },
        }
    }
}

/// The entries of `s` as integers.
pub open spec fn as_ints(s: Seq<usize>) -> Seq<int> {
    Seq::new(s.len(), |i: int| s[i] as int)
}

/// The probes sent at each TTL once the round's probes are counted.
pub open spec fn updated_sent(cfg: MinerConfig, sent: Seq<usize>, mf: Seq<int>) -> Seq<usize> {
    Seq::new(sent.len(), |t: int| new_sent_at(cfg, sent, mf, t) as usize)
}

impl DiamondMiner {
    /// Plays one round: stores the replies of the round before, then returns
    /// the probes to send next. Round 1 asks for the stopping point of one
    /// successor at every TTL; later rounds ask, at each TTL, for the flows
    /// that its nodes lacking probes need. At each TTL the flows from those
    /// already sent up to the larger of the TTL's need and the previous TTL's
    /// need (within the number of distinct flows available) are probed, and
    /// counted as sent. From the round cap on, nothing is probed.
    pub fn next_round<F: Fn(usize, usize) -> usize>(&mut self, replies: Vec<Reply>, estimator: Option<&F>) -> (r: Vec<Probe>)
        requires
            old(self).wf(),
            estimator.is_some() ==> forall|a: usize, b: usize|
                call_requires(*estimator.unwrap(), (a, b)),
        ensures
            final(self).wf(),
            final(self).cfg() == old(self).cfg(),
            final(self).points() == old(self).points(),
            final(self).round() == if old(self).round() < u32::MAX {
                old(self).round() + 1
            } else {
                old(self).round()
            },
            final(self).stored_rounds() == old(self).stored_rounds() + 1,
            final(self).all_replies() == old(self).all_replies() + replies@,
            final(self).sent().len() == 256,
            forall|t: int|
                0 <= t < 256 ==> #[trigger] final(self).sent()[t] >= old(self).sent()[t]
                    && final(self).sent()[t] - old(self).sent()[t] == count_ttl(r@, t),
            forall|i: int, j: int|
                0 <= i < j < r@.len() && r@[i].ttl == r@[j].ttl ==> r@[i].dst_addr != r@[j].dst_addr
                    || r@[i].src_port != r@[j].src_port,
            forall|i: int|
                0 <= i < r@.len() ==> exists|f: int|
                    old(self).sent()[(#[trigger] r@[i]).ttl as int] <= f < final(self).sent()[r@[i].ttl as int]
                        && f < flow_cap(old(self).cfg()) && r@[i] == probe_for(
                        old(self).cfg(),
                        r@[i].ttl as int,
                        f,
                    ),
            final(self).round() >= old(self).cfg().max_round ==> r@.len() == 0 && final(self).sent()
                == old(self).sent(),
            final(self).round() < old(self).cfg().max_round ==> exists|
                mf: Seq<int>,
                ess: Seq<Seq<Option<usize>>>,
            |
                round_result(old(self).cfg(), old(self).sent(), *final(self), estimator, r@, mf, ess),
    {
        let ghost old_rounds = self.replies_by_round@;
        if self.current_round < u32::MAX {
            self.current_round = self.current_round + 1;
        }
        self.replies_by_round.push(replies);
        assert(self.replies_by_round@.drop_last() =~= old_rounds);
        if self.current_round >= self.config.max_round {
            let none: Vec<Probe> = Vec::new();
            proof {
                assert forall|t: int| 0 <= t < 256 implies #[trigger] self.sent()[t] >= old(self).sent()[t]
                    && self.sent()[t] - old(self).sent()[t] == count_ttl(none@, t) by {
                    assert(none@.len() == 0);
                }
            }
            return none;
        }
        let cfg = self.config;
        let all = self.replies();
        let by_ttl = get_links_by_ttl(all.as_slice());
        let mut mf: Vec<usize> = Vec::new();
        let ghost mut ess: Seq<Seq<Option<usize>>> = Seq::empty();
        let mut t: usize = 0;
        while t < 256
            invariant
                self.wf(),
                cfg == self.cfg(),
                all@ == self.all_replies(),
                by_ttl@.len() == link_ttls(all_links(all@)).len(),
                forall|j: int|
                    0 <= j < by_ttl@.len() ==> (#[trigger] by_ttl@[j]).0 == link_ttls(all_links(all@))[j]
                        && by_ttl@[j].1@ == links_at(all@, by_ttl@[j].0 as int),
                estimator.is_some() ==> forall|a: usize, b: usize|
                    call_requires(*estimator.unwrap(), (a, b)),
                t <= 256,
                mf@.len() == t,
                ess.len() == t,
                forall|u: int| 0 <= u < t ==> #[trigger] mf@[u] <= 1000 * MAX_N_PROBES,
                forall|u: int|
                    0 <= u < t && cfg.min_ttl <= u <= cfg.max_ttl && self.round() == 1 ==> #[trigger] mf@[u]
                        == spec_stopping_point(self.points(), 1),
                forall|u: int|
                    0 <= u < t && cfg.min_ttl <= u <= cfg.max_ttl && self.round() != 1 ==> #[trigger] mf@[u]
                        == max_threshold(self.cfg(), self.points(), all@, u, nodes_at(all@, u), ess[u]),
                forall|u: int|
                    0 <= u < t && cfg.min_ttl <= u <= cfg.max_ttl && self.round() != 1 && estimator.is_none()
                        ==> #[trigger] ess[u] == none_seq(nodes_at(all@, u).len()),
                forall|u: int|
                    0 <= u < t && cfg.min_ttl <= u <= cfg.max_ttl && self.round() != 1 && estimator.is_some()
                        ==> estimates_from(self.cfg(), self.points(), *estimator.unwrap(), all@, u, nodes_at(all@, u), #[trigger] ess[u]),
            decreases 256 - t,
        {
            let ghost mut cur: Seq<Option<usize>> = Seq::empty();
            let ttl = t as TTL;
            let v: usize = if ttl < cfg.min_ttl || ttl > cfg.max_ttl {
                0
            } else if self.current_round == 1 {
                stopping_point(1, &self.stopping_points)
            } else {
                let (_, th, Ghost(es)) = self.analyse(&all, &by_ttl, ttl, estimator);
                proof {
                    cur = es;
                }
                th
            };
            let ghost mf_before = mf@;
            let ghost ess_before = ess;
            mf.push(v);
            proof {
                ess = ess.push(cur);
                assert forall|u: int| 0 <= u < t implies #[trigger] mf@[u] == mf_before[u] && ess[u]
                    == ess_before[u] by {}

                assert(mf@[t as int] == v);
                assert(ess[t as int] == cur);
                let ti = t as int;
                if cfg.min_ttl <= ti <= cfg.max_ttl {
                    if self.round() == 1 {
                        assert(mf@[ti] == spec_stopping_point(self.points(), 1));
                    } else {
                        assert(mf@[ti] == max_threshold(self.cfg(), self.points(), all@, ti, nodes_at(all@, ti), ess[ti]));
                        assert(estimator.is_none() ==> ess[ti] == none_seq(nodes_at(all@, ti).len()));
                        assert(estimator.is_some() ==> estimates_from(self.cfg(), self.points(), 
                            *estimator.unwrap(),
                            all@,
                            ti,
                            nodes_at(all@, ti),
                            ess[ti],
                        ));
                    }
                }
            }
            t = t + 1;
        }
        let ghost old_sent = self.probes_sent@;
        let ghost mfi = as_ints(mf@);
        let cap: u128 = match cfg.dst_addr {
            IpAddress::V4(_) => DEFAULT_PREFIX_SIZE_V4 + (65535 - cfg.src_port) as u128,
            IpAddress::V6(_) => DEFAULT_PREFIX_SIZE_V6 + (65535 - cfg.src_port) as u128,
        };
        let ghost m0 = *self;
        proof {
            let m = *self;
            if estimator.is_none() {
                assert forall|u: int| m.cfg().min_ttl <= u <= m.cfg().max_ttl implies #[trigger] mfi[u]
                    == if m.round() == 1 {
                    spec_stopping_point(m.points(), 1)
                } else {
                    required_flows(m.cfg(), m.points(), m.all_replies(), u)
                } by {
                    assert(mfi[u] == mf@[u] as int);
                }
                assert(baseline_flows(m, mfi));
            } else {
                assert forall|u: int| m.cfg().min_ttl <= u <= m.cfg().max_ttl implies if m.round() == 1 {
                    #[trigger] mfi[u] == spec_stopping_point(m.points(), 1)
                } else {
                    &&& estimates_from(m.cfg(), m.points(), 
                        *estimator.unwrap(),
                        m.all_replies(),
                        u,
                        nodes_at(m.all_replies(), u),
                        ess[u],
                    )
                    &&& mfi[u] == max_threshold(m.cfg(), m.points(), 
                        m.all_replies(),
                        u,
                        nodes_at(m.all_replies(), u),
                        ess[u],
                    )
                } by {
                    assert(mfi[u] == mf@[u] as int);
                }
                assert(estimated_flows(m, *estimator.unwrap(), mfi, ess));
            }
        }
        let ghost points0 = self.points();
        let ghost round0 = self.round();
        let ghost rounds0 = self.replies_by_round@;
        let mut probes: Vec<Probe> = Vec::new();
        let mut k: u16 = cfg.min_ttl as u16;
        while k <= cfg.max_ttl as u16
            invariant
                self.wf(),
                cfg == self.cfg(),
                points0 == self.points(),
                round0 == self.round(),
                rounds0 == self.replies_by_round@,
                cap == flow_cap(cfg),
                mf@.len() == 256,
                mfi == as_ints(mf@),
                forall|u: int| 0 <= u < 256 ==> #[trigger] mf@[u] <= 1000 * MAX_N_PROBES,
                old_sent.len() == 256,
                cfg.min_ttl <= k <= 256,
                k == cfg.min_ttl || k <= cfg.max_ttl + 1,
                probes@ == batch_upto(cfg, old_sent, mfi, k as int),
                forall|u: int|
                    0 <= u < 256 ==> #[trigger] self.probes_sent@[u] == if u < k {
                        new_sent_at(cfg, old_sent, mfi, u) as usize
                    } else {
                        old_sent[u]
                    },
            decreases 256 - k,
        {
            let t = k as usize;
            let prev: usize = if k > cfg.min_ttl as u16 {
                mf[t - 1]
            } else if k == 0 {
                0
            } else {
                1
            };
            let comb: usize = if mf[t] > prev {
                mf[t]
            } else {
                prev
            };
            let target: usize = if (comb as u128) < cap {
                comb
            } else {
                cap as usize
            };
            assert(target == target_flows(cfg, mfi, t as int));
            let lo = self.probes_sent[t];
            let mut f: usize = lo;
            let ghost before = probes@;
            while f < target
                invariant
                    self.wf(),
                    cfg == self.cfg(),
                    t == k as usize,
                    k <= 255,
                    lo <= f,
                    f <= target || f == lo,
                    target <= flow_cap(cfg),
                    probes@ == before + probes_for_ttl(cfg, t as int, lo as int, f as int),
                decreases target - f,
            {
                let p = self.make_probe(k as TTL, f);
                probes.push(p);
                f = f + 1;
                assert(probes@ =~= before + probes_for_ttl(cfg, t as int, lo as int, f as int));
            }
            if lo < target {
                self.probes_sent.set(t, target);
            }
            k = k + 1;
        }
        assert(self.probes_sent@ =~= updated_sent(cfg, old_sent, mfi));
        proof {
            let m = *self;
            assert(probes@ == batch(cfg, old_sent, mfi));
            assert(m.sent() == updated_sent(cfg, old_sent, mfi));
            assert(m.cfg() == m0.cfg() && m.round() == m0.round() && m.points() == m0.points());
            assert(m.all_replies() == m0.all_replies());
            if estimator.is_none() {
                assert(baseline_flows(m, mfi));
            } else {
                assert(estimated_flows(m, *estimator.unwrap(), mfi, ess));
            }
            assert(old_sent == old(self).sent());
            assert(cfg == old(self).cfg());
            assert forall|u: int| 0 <= u < 256 implies 0 <= #[trigger] mfi[u] <= 1000 * MAX_N_PROBES by {
                assert(mfi[u] == mf@[u] as int);
            }
            assert(round_result(cfg, old_sent, m, estimator, probes@, mfi, ess));
            let r = probes@;
            assert forall|t: int| 0 <= t < 256 implies #[trigger] m.sent()[t] >= old_sent[t] && m.sent()[t]
                - old_sent[t] == count_ttl(r, t) by {
                lemma_probes_sent_accounting(cfg, old_sent, m, estimator, r, mfi, ess, t);
            }
            assert forall|i: int, j: int|
                0 <= i < j < r.len() && r[i].ttl == r[j].ttl implies r[i].dst_addr != r[j].dst_addr
                    || r[i].src_port != r[j].src_port by {
                lemma_round_unique_per_ttl(cfg, old_sent, m, estimator, r, mfi, ess, i, j);
            }
            assert forall|i: int| 0 <= i < r.len() implies exists|f: int|
                old_sent[(#[trigger] r[i]).ttl as int] <= f < m.sent()[r[i].ttl as int] && f < flow_cap(cfg)
                    && r[i] == probe_for(cfg, r[i].ttl as int, f) by {
                lemma_batch_ttls(cfg, old_sent, mfi, cfg.max_ttl + 1, i);
                let u = r[i].ttl as int;
                let f = choose|f: int| old_sent[u] <= f < target_flows(cfg, mfi, u) && r[i] == probe_for(cfg, u, f);
                assert(0 <= mfi[u] <= 1000 * MAX_N_PROBES);
                assert(u > cfg.min_ttl ==> 0 <= mfi[u - 1] <= 1000 * MAX_N_PROBES);
                assert(m.sent()[u] == new_sent_at(cfg, old_sent, mfi, u) as usize);
                assert(old_sent[u] <= f < m.sent()[u] && f < flow_cap(cfg) && r[i] == probe_for(cfg, u, f));
            }
        }
        probes
    }
}

} // verus!
