//! Properties of the controller that hold for every input: probe accounting,
//! uniqueness of probes within a round, and what the unresolved set holds.

use vstd::prelude::*;
use crate::analysis::{successors, transits};
use crate::analysis::srcs_distinct;
use crate::diamond_miner::{
    batch, batch_upto, flow_cap, in_destination_prefix, is_unresolved, lacks_probes, max_threshold, new_sent_at,
    nodes_at, probe_for, probes_for_ttl, prefix_size_of, required_flows, round_result,
    target_flows, unresolved_among, unresolved_at, updated_sent, weighted_threshold, DiamondMiner,
    MinerConfig,
};
use crate::links::replies_with_ttl;
use crate::links::links_at;
use crate::sequential_mapper::{lemma_flow_id_of_offset, spec_addr_offset, spec_port_offset};
use crate::stopping_point::{spec_stopping_point, MAX_N_PROBES};
use crate::types::{IpAddress, Probe, Reply};

verus! {

/// Number of probes of `ps` at TTL `t`.
pub open spec fn count_ttl(ps: Seq<Probe>, t: int) -> nat
    decreases ps.len(),
{
    if ps.len() == 0 {
        0
    } else {
        count_ttl(ps.drop_last(), t) + if ps.last().ttl == t {
            1nat
        } else {
            0nat
        }
    }
}

proof fn lemma_count_concat(a: Seq<Probe>, b: Seq<Probe>, t: int)
    ensures
        count_ttl(a + b, t) == count_ttl(a, t) + count_ttl(b, t),
    decreases b.len(),
{
    if b.len() > 0 {
        assert((a + b).drop_last() =~= a + b.drop_last());
        lemma_count_concat(a, b.drop_last(), t);
    } else {
        assert(a + b =~= a);
    }
}

proof fn lemma_probes_for_ttl(cfg: MinerConfig, u: int, lo: int, hi: int)
    requires
        0 <= u < 256,
    ensures
        probes_for_ttl(cfg, u, lo, hi).len() == if hi > lo {
            hi - lo
        } else {
            0
        },
        forall|i: int|
            0 <= i < probes_for_ttl(cfg, u, lo, hi).len() ==> #[trigger] probes_for_ttl(
                cfg,
                u,
                lo,
                hi,
            )[i] == probe_for(cfg, u, lo + i),
        forall|t: int|
            0 <= t < 256 ==> #[trigger] count_ttl(probes_for_ttl(cfg, u, lo, hi), t) == if t == u
                && hi > lo {
                hi - lo
            } else {
                0
            },
    decreases hi - lo,
{
    if hi > lo {
        lemma_probes_for_ttl(cfg, u, lo, hi - 1);
        let ps = probes_for_ttl(cfg, u, lo, hi);
        assert(ps.drop_last() =~= probes_for_ttl(cfg, u, lo, hi - 1));
        assert(ps.last().ttl == u);
        assert forall|t: int| 0 <= t < 256 implies #[trigger] count_ttl(ps, t) == if t == u && hi > lo {
            hi - lo
        } else {
            0
        } by {
            assert(count_ttl(ps, t) == count_ttl(ps.drop_last(), t) + if ps.last().ttl == t {
                1nat
            } else {
                0nat
            });
        }
    }
}

proof fn lemma_batch_count(cfg: MinerConfig, sent: Seq<usize>, mf: Seq<int>, k: int, t: int)
    requires
        sent.len() == 256,
        k <= 256,
        0 <= t < 256,
    ensures
        count_ttl(batch_upto(cfg, sent, mf, k), t) == if cfg.min_ttl <= t < k && sent[t]
            < target_flows(cfg, mf, t) {
            target_flows(cfg, mf, t) - sent[t]
        } else {
            0
        },
    decreases k - cfg.min_ttl,
{
    if k > cfg.min_ttl {
        lemma_batch_count(cfg, sent, mf, k - 1, t);
        lemma_count_concat(
            batch_upto(cfg, sent, mf, k - 1),
            probes_for_ttl(cfg, k - 1, sent[k - 1] as int, target_flows(cfg, mf, k - 1)),
            t,
        );
        lemma_probes_for_ttl(cfg, k - 1, sent[k - 1] as int, target_flows(cfg, mf, k - 1));
    }
}

/// Over one round, at every TTL the count of probes sent never decreases and
/// grows by exactly the number of probes of that TTL that the round returned.
pub proof fn lemma_probes_sent_accounting<F: Fn(usize, usize) -> usize>(
    before_cfg: MinerConfig,
    before_sent: Seq<usize>,
    after: DiamondMiner,
    estimator: Option<&F>,
    r: Seq<Probe>,
    mf: Seq<int>,
    ess: Seq<Seq<Option<usize>>>,
    t: int,
)
    requires
        round_result(before_cfg, before_sent, after, estimator, r, mf, ess),
        before_sent.len() == 256,
        0 <= t < 256,
    ensures
        after.sent()[t] >= before_sent[t],
        after.sent()[t] - before_sent[t] == count_ttl(r, t),
{
    lemma_batch_count(before_cfg, before_sent, mf, before_cfg.max_ttl + 1, t);
    assert(after.sent()[t] == new_sent_at(before_cfg, before_sent, mf, t) as usize);
    let c = if t > before_cfg.min_ttl {
        mf[t - 1]
    } else if t == 0 {
        0
    } else {
        1
    };
    assert(0 <= mf[t] <= 1000 * MAX_N_PROBES);
    assert(t > before_cfg.min_ttl ==> 0 <= mf[t - 1] <= 1000 * MAX_N_PROBES);
}

/// Two distinct flows below the cap give probes of one TTL that differ in
/// destination address or source port.
pub proof fn lemma_probe_keys_differ(cfg: MinerConfig, u: int, f1: int, f2: int)
    requires
        0 <= f1 < flow_cap(cfg),
        0 <= f2 < flow_cap(cfg),
        f1 != f2,
    ensures
        probe_for(cfg, u, f1).dst_addr != probe_for(cfg, u, f2).dst_addr || probe_for(
            cfg,
            u,
            f1,
        ).src_port != probe_for(cfg, u, f2).src_port,
{
    let ps = prefix_size_of(cfg.dst_addr);
    lemma_flow_id_of_offset(ps, f1);
    lemma_flow_id_of_offset(ps, f2);
    let addr1 = spec_addr_offset(ps, f1);
    let addr2 = spec_addr_offset(ps, f2);
    let port1 = spec_port_offset(ps, f1);
    let port2 = spec_port_offset(ps, f2);
    assert(port1 <= 65535 - cfg.src_port);
    assert(port2 <= 65535 - cfg.src_port);
    if addr1 == addr2 {
        assert(port1 != port2);
        assert(probe_for(cfg, u, f1).src_port == cfg.src_port + port1);
        assert(probe_for(cfg, u, f2).src_port == cfg.src_port + port2);
    } else {
        match cfg.dst_addr {
            IpAddress::V4(a) => {
                assert((a + 2 * addr1) % 0x1_0000_0000 != (a + 2 * addr2) % 0x1_0000_0000);
            },
            IpAddress::V6(a) => {
                assert((a + addr1) % (u128::MAX as int + 1) != (a + addr2) % (u128::MAX as int + 1));
            },
        }
    }
}

/// Each probe of a batch is the probe of one of its TTL's new flows.
pub proof fn lemma_batch_ttls(cfg: MinerConfig, sent: Seq<usize>, mf: Seq<int>, k: int, i: int)
    requires
        sent.len() == 256,
        k <= 256,
        0 <= i < batch_upto(cfg, sent, mf, k).len(),
    ensures
        cfg.min_ttl <= batch_upto(cfg, sent, mf, k)[i].ttl < k,
        exists|f: int|
            sent[batch_upto(cfg, sent, mf, k)[i].ttl as int] <= f < target_flows(
                cfg,
                mf,
                batch_upto(cfg, sent, mf, k)[i].ttl as int,
            ) && batch_upto(cfg, sent, mf, k)[i] == probe_for(
                cfg,
                batch_upto(cfg, sent, mf, k)[i].ttl as int,
                f,
            ),
    decreases k - cfg.min_ttl,
{
    let prev = batch_upto(cfg, sent, mf, k - 1);
    let lo = sent[k - 1] as int;
    let hi = target_flows(cfg, mf, k - 1);
    let cur = probes_for_ttl(cfg, k - 1, lo, hi);
    lemma_probes_for_ttl(cfg, k - 1, lo, hi);
    if i < prev.len() {
        lemma_batch_ttls(cfg, sent, mf, k - 1, i);
        assert(batch_upto(cfg, sent, mf, k)[i] == prev[i]);
    } else {
        let x = i - prev.len();
        assert(batch_upto(cfg, sent, mf, k)[i] == cur[x]);
        assert(cur[x] == probe_for(cfg, k - 1, lo + x));
        assert(cur[x].ttl as int == k - 1);
        assert(lo <= lo + x < hi);
        assert(sent[batch_upto(cfg, sent, mf, k)[i].ttl as int] <= lo + x < target_flows(
            cfg,
            mf,
            batch_upto(cfg, sent, mf, k)[i].ttl as int,
        ));
    }
}

/// Within the batch of one round, no two probes of one TTL share both their
/// destination address and their source port.
pub proof fn lemma_batch_unique_per_ttl(
    cfg: MinerConfig,
    sent: Seq<usize>,
    mf: Seq<int>,
    k: int,
    i: int,
    j: int,
)
    requires
        sent.len() == 256,
        k <= 256,
        0 <= i < j < batch_upto(cfg, sent, mf, k).len(),
        batch_upto(cfg, sent, mf, k)[i].ttl == batch_upto(cfg, sent, mf, k)[j].ttl,
    ensures
        batch_upto(cfg, sent, mf, k)[i].dst_addr != batch_upto(cfg, sent, mf, k)[j].dst_addr
            || batch_upto(cfg, sent, mf, k)[i].src_port != batch_upto(cfg, sent, mf, k)[j].src_port,
    decreases k - cfg.min_ttl,
{
    let b = batch_upto(cfg, sent, mf, k);
    let prev = batch_upto(cfg, sent, mf, k - 1);
    let lo = sent[k - 1] as int;
    let hi = target_flows(cfg, mf, k - 1);
    let cur = probes_for_ttl(cfg, k - 1, lo, hi);
    lemma_probes_for_ttl(cfg, k - 1, lo, hi);
    if j < prev.len() {
        lemma_batch_unique_per_ttl(cfg, sent, mf, k - 1, i, j);
        assert(b[i] == prev[i] && b[j] == prev[j]);
    } else if i < prev.len() {
        lemma_batch_ttls(cfg, sent, mf, k - 1, i);
        assert(b[i] == prev[i]);
        assert(b[j] == cur[j - prev.len()]);
        assert(cur[j - prev.len()].ttl == (k - 1) as u8);
    } else {
        let x = i - prev.len();
        let y = j - prev.len();
        assert(b[i] == cur[x] && b[j] == cur[y]);
        assert(hi <= flow_cap(cfg));
        lemma_probe_keys_differ(cfg, k - 1, lo + x, lo + y);
    }
}

/// Within the batch that a round returned, no two probes of one TTL share
/// both their destination address and their source port.
pub proof fn lemma_round_unique_per_ttl<F: Fn(usize, usize) -> usize>(
    before_cfg: MinerConfig,
    before_sent: Seq<usize>,
    after: DiamondMiner,
    estimator: Option<&F>,
    r: Seq<Probe>,
    mf: Seq<int>,
    ess: Seq<Seq<Option<usize>>>,
    i: int,
    j: int,
)
    requires
        round_result(before_cfg, before_sent, after, estimator, r, mf, ess),
        before_sent.len() == 256,
        0 <= i < j < r.len(),
        r[i].ttl == r[j].ttl,
    ensures
        r[i].dst_addr != r[j].dst_addr || r[i].src_port != r[j].src_port,
{
    lemma_batch_unique_per_ttl(before_cfg, before_sent, mf, before_cfg.max_ttl + 1, i, j);
}

proof fn lemma_unresolved_among_members(
    c: MinerConfig,
    p: Seq<usize>,
    s: Seq<Reply>,
    t: int,
    nodes: Seq<IpAddress>,
    n: IpAddress,
)
    requires
        unresolved_among(c, p, s, t, nodes).contains(n),
    ensures
        is_unresolved(c, p, s, t, n),
    decreases nodes.len(),
{
    if nodes.len() > 0 {
        let rest = unresolved_among(c, p, s, t, nodes.drop_last());
        if rest.contains(n) {
            lemma_unresolved_among_members(c, p, s, t, nodes.drop_last(), n);
        } else {
            let k = choose|k: int| 0 <= k < unresolved_among(c, p, s, t, nodes).len() && unresolved_among(c, p, s, t, nodes)[k] == n;
            if is_unresolved(c, p, s, t, nodes.last()) {
                if k < rest.len() {
                    assert(rest[k] == n);
                }
            } else {
                assert(rest[k] == n);
            }
        }
    }
}

/// A node with at least as many probes through it as the stopping point of
/// its observed successors is not unresolved.
pub proof fn lemma_enough_probes_resolved(c: MinerConfig, p: Seq<usize>, s: Seq<Reply>, t: int, n: IpAddress)
    requires
        transits(links_at(s, t), n) >= spec_stopping_point(p, successors(links_at(s, t), n).len() as int),
    ensures
        !unresolved_at(c, p, s, t).contains(n),
{
    if unresolved_at(c, p, s, t).contains(n) {
        lemma_unresolved_among_members(c, p, s, t, nodes_at(s, t), n);
    }
}

/// The destination, and every interface in the prefix around it, is never
/// unresolved.
pub proof fn lemma_destination_never_unresolved(c: MinerConfig, p: Seq<usize>, s: Seq<Reply>, t: int, n: IpAddress)
    requires
        n == c.dst_addr || in_destination_prefix(c, n),
    ensures
        !unresolved_at(c, p, s, t).contains(n),
{
    if unresolved_at(c, p, s, t).contains(n) {
        lemma_unresolved_among_members(c, p, s, t, nodes_at(s, t), n);
    }
}

proof fn lemma_with_ttl_members(s: Seq<Reply>, t: int, i: int)
    requires
        0 <= i < replies_with_ttl(s, t).len(),
    ensures
        exists|j: int| 0 <= j < s.len() && s[j] == replies_with_ttl(s, t)[i],
    decreases s.len(),
{
    let rest = replies_with_ttl(s.drop_last(), t);
    if i < rest.len() {
        lemma_with_ttl_members(s.drop_last(), t, i);
        let j = choose|j: int| 0 <= j < s.drop_last().len() && s.drop_last()[j] == rest[i];
        assert(s[j] == replies_with_ttl(s, t)[i]);
    } else {
        assert(s[s.len() - 1] == replies_with_ttl(s, t)[i]);
    }
}

proof fn lemma_srcs_members(rs: Seq<Reply>, i: int)
    requires
        0 <= i < srcs_distinct(rs).len(),
    ensures
        exists|j: int| 0 <= j < rs.len() && rs[j].reply_src_addr == srcs_distinct(rs)[i],
    decreases rs.len(),
{
    let rest = srcs_distinct(rs.drop_last());
    if i < rest.len() {
        lemma_srcs_members(rs.drop_last(), i);
        let j = choose|j: int| 0 <= j < rs.drop_last().len() && rs.drop_last()[j].reply_src_addr == rest[i];
        assert(rs[j].reply_src_addr == srcs_distinct(rs)[i]);
    } else {
        assert(rs[rs.len() - 1].reply_src_addr == srcs_distinct(rs)[i]);
    }
}

proof fn lemma_max_threshold_zero(
    c: MinerConfig,
    p: Seq<usize>,
    s: Seq<Reply>,
    t: int,
    nodes: Seq<IpAddress>,
    es: Seq<Option<usize>>,
)
    requires
        forall|i: int| 0 <= i < nodes.len() ==> !lacks_probes(c, p, s, t, #[trigger] nodes[i]),
    ensures
        max_threshold(c, p, s, t, nodes, es) == 0,
    decreases nodes.len(),
{
    if nodes.len() > 0 && es.len() > 0 {
        lemma_max_threshold_zero(c, p, s, t, nodes.drop_last(), es.drop_last());
        assert(!lacks_probes(c, p, s, t, nodes[nodes.len() - 1]));
        assert(weighted_threshold(c, p, s, t, nodes.last(), es.last()) == 0);
    }
}

proof fn lemma_batch_empty(cfg: MinerConfig, sent: Seq<usize>, mf: Seq<int>, k: int)
    requires
        sent.len() == 256,
        k <= 256,
        forall|t: int| cfg.min_ttl <= t < k ==> target_flows(cfg, mf, t) <= #[trigger] sent[t],
    ensures
        batch_upto(cfg, sent, mf, k).len() == 0,
    decreases k - cfg.min_ttl,
{
    if k > cfg.min_ttl {
        lemma_batch_empty(cfg, sent, mf, k - 1);
        lemma_probes_for_ttl(cfg, k - 1, sent[k - 1] as int, target_flows(cfg, mf, k - 1));
        assert(target_flows(cfg, mf, k - 1) <= sent[k - 1]);
    }
}

/// Feeding the first round's batch back through a prober that answers each
/// probe from its own destination address asks for no new probe in the
/// second round, when every probed address lies in the prefix around the
/// destination.
pub proof fn lemma_echo_round_trip(
    cfg: MinerConfig,
    p: Seq<usize>,
    sent0: Seq<usize>,
    mf1: Seq<int>,
    echoes: Seq<Reply>,
    mf2: Seq<int>,
)
    requires
        sent0.len() == 256,
        forall|t: int| 0 <= t < 256 ==> #[trigger] sent0[t] == 0,
        mf1.len() == 256,
        mf2.len() == 256,
        forall|t: int| cfg.min_ttl <= t <= cfg.max_ttl ==> #[trigger] mf1[t] == spec_stopping_point(p, 1),
        forall|t: int| 0 <= t < 256 ==> 0 <= #[trigger] mf1[t] <= 1000 * MAX_N_PROBES,
        echoes.len() == batch(cfg, sent0, mf1).len(),
        forall|i: int|
            0 <= i < echoes.len() ==> (#[trigger] echoes[i]).reply_src_addr == batch(cfg, sent0, mf1)[i].dst_addr,
        forall|i: int|
            0 <= i < batch(cfg, sent0, mf1).len() ==> in_destination_prefix(
                cfg,
                (#[trigger] batch(cfg, sent0, mf1)[i]).dst_addr,
            ),
        forall|t: int| cfg.min_ttl <= t <= cfg.max_ttl ==> #[trigger] mf2[t] == required_flows(cfg, p, echoes, t),
    ensures
        batch(cfg, updated_sent(cfg, sent0, mf1), mf2).len() == 0,
{
    let b1 = batch(cfg, sent0, mf1);
    let sent1 = updated_sent(cfg, sent0, mf1);
    assert forall|t: int| cfg.min_ttl <= t <= cfg.max_ttl implies #[trigger] mf2[t] == 0 by {
        let nodes = nodes_at(echoes, t);
        assert forall|i: int| 0 <= i < nodes.len() implies !lacks_probes(cfg, p, echoes, t, #[trigger] nodes[i]) by {
            lemma_srcs_members(replies_with_ttl(echoes, t), i);
            let j = choose|j: int|
                0 <= j < replies_with_ttl(echoes, t).len() && replies_with_ttl(echoes, t)[j].reply_src_addr
                    == nodes[i];
            lemma_with_ttl_members(echoes, t, j);
            let e = choose|e: int| 0 <= e < echoes.len() && echoes[e] == replies_with_ttl(echoes, t)[j];
            assert(echoes[e].reply_src_addr == b1[e].dst_addr);
            assert(in_destination_prefix(cfg, b1[e].dst_addr));
        }
        lemma_max_threshold_zero(cfg, p, echoes, t, nodes, crate::diamond_miner::none_seq(nodes.len()));
    }
    assert forall|t: int| cfg.min_ttl <= t < cfg.max_ttl + 1 implies target_flows(cfg, mf2, t) <= #[trigger] sent1[t] by {
        assert(sent1[t] == new_sent_at(cfg, sent0, mf1, t) as usize);
        assert(0 <= mf1[t] <= 1000 * MAX_N_PROBES);
        assert(t > cfg.min_ttl ==> 0 <= mf1[t - 1] <= 1000 * MAX_N_PROBES);
        assert(t > cfg.min_ttl ==> mf2[t - 1] == 0);
        assert(flow_cap(cfg) >= 1);
    }
    lemma_batch_empty(cfg, sent1, mf2, cfg.max_ttl + 1);
}

/// A probe of a later round never repeats a probe of an earlier round at the
/// same TTL: `next_round` draws each round's flows from the probes sent before
/// it up to the probes sent after it, so an earlier flow `f1` lies below some
/// count that a later flow `f2` lies at or above.
pub proof fn lemma_no_probe_resent(cfg: MinerConfig, t: int, f1: int, f2: int, sent_between: int)
    requires
        0 <= f1 < sent_between <= f2 < flow_cap(cfg),
    ensures
        probe_for(cfg, t, f1).dst_addr != probe_for(cfg, t, f2).dst_addr || probe_for(cfg, t, f1).src_port
            != probe_for(cfg, t, f2).src_port,
{
    lemma_probe_keys_differ(cfg, t, f1, f2);
}

} // verus!
