//! Probes for a list of destination prefixes: every subprefix of the chosen
//! length, at every TTL, for every flow, in a seeded random order.

use vstd::prelude::*;
use rand::rngs::SmallRng;
use rand::seq::SliceRandom;
use rand::SeedableRng;
use crate::sequential_mapper::{
    spec_addr_offset, spec_port_offset, SequentialFlowMapper, DEFAULT_PREFIX_LEN_V4,
    DEFAULT_PREFIX_LEN_V6, DEFAULT_PREFIX_SIZE_V4, DEFAULT_PROBE_DST_PORT, DEFAULT_PROBE_SRC_PORT,
};
use crate::diamond_miner::add_mod_u128;
use crate::types::{IpAddress, Probe, L4};

verus! {

/// The network address and prefix length that a CIDR string denotes, if any.
pub uninterp spec fn parsed_network(s: Seq<char>) -> Option<(IpAddress, u8)>;

/// Relies on ip_network's `FromStr` for `IpNetwork`: CIDR text to a network
/// address and a netmask no longer than the address.
#[verifier::external_body]
fn parse_network(s: &str) -> (r: Option<(IpAddress, u8)>)
    ensures
        r == parsed_network(s@),
        r.is_some() ==> match r.unwrap().0 {
            IpAddress::V4(_) => r.unwrap().1 <= 32,
            IpAddress::V6(_) => r.unwrap().1 <= 128,
        },
{
    match s.parse::<ip_network::IpNetwork>() {
        Ok(ip_network::IpNetwork::V4(n)) => Some((IpAddress::V4(u32::from(n.network_address())), n.netmask())),
        Ok(ip_network::IpNetwork::V6(n)) => Some((IpAddress::V6(u128::from(n.network_address())), n.netmask())),
        Err(_) => None,
    }
}

/// Relies on rand's `SliceRandom::shuffle` driven by `SmallRng::seed_from_u64`:
/// the probes end in some order of the same probes.
#[verifier::external_body]
fn shuffle_probes(probes: &mut Vec<Probe>, seed: u64)
    ensures
        final(probes)@.to_multiset() == old(probes)@.to_multiset(),
{
    let mut rng = SmallRng::seed_from_u64(seed);
    probes.shuffle(&mut rng);
}

/// A destination prefix in CIDR notation and the protocol to probe it with.
pub struct Prefix {
    pub prefix: String,
    pub protocol: L4,
}

/// An IPv4 address as an IPv4-mapped IPv6 address; an IPv6 address as itself.
pub open spec fn mapped(a: IpAddress) -> int {
    match a {
        IpAddress::V4(x) => 0xffff_0000_0000 + x,
        IpAddress::V6(x) => x as int,
    }
}

/// `n` addresses from `cur` on, `step` apart (modulo 2^128).
pub open spec fn stepped(cur: int, step: int, n: nat) -> Seq<u128>
    decreases n,
{
    if n == 0 {
        Seq::empty()
    } else {
        seq![cur as u128] + stepped((cur + step) % (u128::MAX as int + 1), step, (n - 1) as nat)
    }
}

proof fn lemma_stepped_len(cur: int, step: int, n: nat)
    ensures
        stepped(cur, step, n).len() == n,
    decreases n,
{
    if n > 0 {
        lemma_stepped_len((cur + step) % (u128::MAX as int + 1), step, (n - 1) as nat);
    }
}

/// The subprefixes of length `target` of the network `net`/`len`, as
/// (address family, IPv6 or IPv4-mapped address), in address order; `None`
/// when `target` is shorter than `len`, longer than the address, or would
/// give 2^64 subprefixes or more.
pub open spec fn split_spec(net: IpAddress, len: u8, target_v4: u8, target_v6: u8) -> Option<Seq<(u8, u128)>> {
    let (af, bits, target): (u8, u8, u8) = match net {
        IpAddress::V4(_) => (4, 32, target_v4),
        IpAddress::V6(_) => (6, 128, target_v6),
    };
    if target < len || target > bits || target - len >= 64 {
        None
    } else if target == len {
        Some(seq![(af, mapped(net) as u128)])
    } else {
        let step = (1u128 << ((bits - target) as u128)) as int;
        let n = (1u64 << ((target - len) as u64)) as nat;
        Some(stepped(mapped(net), step, n).map_values(|a: u128| (af, a)))
    }
}

pub struct ProbeGenerator {
    pub prefixes: Vec<Prefix>,
    pub flow_ids: Vec<u32>,
    pub ttls: Vec<u8>,
    pub prefix_len_v4: u8,
    pub prefix_len_v6: u8,
    pub probe_src_port: u16,
    pub probe_dst_port: u16,
    pub mapper_v4: SequentialFlowMapper,
    pub mapper_v6: SequentialFlowMapper,
    pub seed: u64,
}

/// The probe of flow `flow` at TTL `ttl` into the subprefix `sub`.
pub open spec fn probe_at(g: ProbeGenerator, af: u8, sub: u128, protocol: L4, ttl: u8, flow: u32) -> Probe {
    let ps = if af == 4 {
        g.mapper_v4.prefix_size
    } else {
        g.mapper_v6.prefix_size
    };
    Probe {
        dst_addr: IpAddress::V6(
            ((sub + spec_addr_offset(ps as int, flow as int)) % (u128::MAX as int + 1)) as u128,
        ),
        src_port: ((g.probe_src_port + spec_port_offset(ps as int, flow as int)) % 0x1_0000) as u16,
        dst_port: g.probe_dst_port,
        protocol,
        ttl,
    }
}

pub open spec fn flows_row(g: ProbeGenerator, af: u8, sub: u128, protocol: L4, ttl: u8, flows: Seq<u32>) -> Seq<Probe>
    decreases flows.len(),
{
    if flows.len() == 0 {
        Seq::empty()
    } else {
        flows_row(g, af, sub, protocol, ttl, flows.drop_last()).push(probe_at(g, af, sub, protocol, ttl, flows.last()))
    }
}

pub open spec fn ttl_rows(g: ProbeGenerator, af: u8, sub: u128, protocol: L4, ttls: Seq<u8>) -> Seq<Probe>
    decreases ttls.len(),
{
    if ttls.len() == 0 {
        Seq::empty()
    } else {
        ttl_rows(g, af, sub, protocol, ttls.drop_last()) + flows_row(g, af, sub, protocol, ttls.last(), g.flow_ids@)
    }
}

pub open spec fn sub_rows(g: ProbeGenerator, subs: Seq<(u8, u128)>, protocol: L4) -> Seq<Probe>
    decreases subs.len(),
{
    if subs.len() == 0 {
        Seq::empty()
    } else {
        sub_rows(g, subs.drop_last(), protocol) + ttl_rows(g, subs.last().0, subs.last().1, protocol, g.ttls@)
    }
}

/// The subprefixes of a prefix string, if it parses and splits.
pub open spec fn split_of(g: ProbeGenerator, p: Prefix) -> Option<Seq<(u8, u128)>> {
    match parsed_network(p.prefix@) {
        None => None,
        Some(n) => split_spec(n.0, n.1, g.prefix_len_v4, g.prefix_len_v6),
    }
}

/// The probes of the prefixes `ps`, prefix after prefix, subprefix after
/// subprefix, TTL after TTL, flow after flow.
pub open spec fn grid(g: ProbeGenerator, ps: Seq<Prefix>) -> Seq<Probe>
    decreases ps.len(),
{
    if ps.len() == 0 {
        Seq::empty()
    } else {
        grid(g, ps.drop_last()) + match split_of(g, ps.last()) {
            Some(subs) => sub_rows(g, subs, ps.last().protocol),
            None => Seq::empty(),
        }
    }
}

/// Whether every prefix string parses and splits.
pub open spec fn all_split(g: ProbeGenerator) -> bool {
    forall|i: int| 0 <= i < g.prefixes@.len() ==> (#[trigger] split_of(g, g.prefixes@[i])).is_some()
}

/// The subprefixes of length `prefix_len_v4` (IPv4) or `prefix_len_v6` (IPv6)
/// of the CIDR prefix `prefix`, as (address family, IPv6 or IPv4-mapped
/// address); `None` when the text does not parse or cannot be split.
pub fn split_prefix(prefix: &str, prefix_len_v4: u8, prefix_len_v6: u8) -> (r: Option<Vec<(u8, u128)>>)
    ensures
        match parsed_network(prefix@) {
            None => r.is_none(),
            Some(n) => match split_spec(n.0, n.1, prefix_len_v4, prefix_len_v6) {
                None => r.is_none(),
                Some(subs) => r.is_some() && r.unwrap()@ == subs,
            },
        },
{
    match parse_network(prefix) {
        None => None,
        Some((net, len)) => split_network(net, len, prefix_len_v4, prefix_len_v6),
    }
}

/// The subprefixes of the network `net`/`len`, as `split_spec` gives them.
pub fn split_network(net: IpAddress, len: u8, target_v4: u8, target_v6: u8) -> (r: Option<Vec<(u8, u128)>>)
    ensures
        match split_spec(net, len, target_v4, target_v6) {
            None => r.is_none(),
            Some(subs) => r.is_some() && r.unwrap()@ == subs,
        },
{
    let (af, bits, target, start): (u8, u8, u8, u128) = match net {
        IpAddress::V4(x) => (4, 32, target_v4, 0xffff_0000_0000 + x as u128),
        IpAddress::V6(x) => (6, 128, target_v6, x),
    };
    if target < len || target > bits || target - len >= 64 {
        return None;
    }
    if target == len {
        let r: Vec<(u8, u128)> = vec![(af, start)];
        assert(r@ =~= seq![(af, start)]);
        return Some(r);
    }
    let step: u128 = 1u128 << ((bits - target) as u128);
    let n: u64 = 1u64 << ((target - len) as u64);
    let ghost all = stepped(start as int, step as int, n as nat);
    proof {
        lemma_stepped_len(start as int, step as int, n as nat);
        assert(all.subrange(0, n as int) =~= all);
    }
    let mut out: Vec<(u8, u128)> = Vec::new();
    let mut cur: u128 = start;
    let mut i: u64 = 0;
    while i < n
        invariant
            i <= n,
            out@.len() == i,
            forall|j: int| 0 <= j < i ==> #[trigger] out@[j] == (af, all[j]),
            all.len() == n,
            all == stepped(start as int, step as int, n as nat),
            all.subrange(i as int, n as int) == stepped(cur as int, step as int, (n - i) as nat),
        decreases n - i,
    {
        let ghost rest = stepped(cur as int, step as int, (n - i) as nat);
        proof {
            lemma_stepped_len(cur as int, step as int, (n - i) as nat);
        }
        assert(rest[0] == cur);
        assert(all[i as int] == rest[0]);
        let next: u128 = if cur > u128::MAX - step {
            step - (u128::MAX - cur) - 1
        } else {
            cur + step
        };
        assert(rest.subrange(1, rest.len() as int) =~= stepped(next as int, step as int, (n - i - 1) as nat));
        assert(all.subrange(i + 1, n as int) =~= rest.subrange(1, rest.len() as int));
        out.push((af, cur));
        cur = next;
        i = i + 1;
    }
    let ghost want = all.map_values(|a: u128| (af, a));
    assert(out@ =~= want);
    Some(out)
}

impl Default for ProbeGenerator {
    fn default() -> (r: Self)
        ensures
            r.prefixes@.len() == 0,
            r.flow_ids@.len() == 0,
            r.ttls@.len() == 0,
            r.prefix_len_v4 == DEFAULT_PREFIX_LEN_V4,
            r.prefix_len_v6 == DEFAULT_PREFIX_LEN_V6,
            r.probe_src_port == DEFAULT_PROBE_SRC_PORT,
            r.probe_dst_port == DEFAULT_PROBE_DST_PORT,
            r.mapper_v4.prefix_size == DEFAULT_PREFIX_SIZE_V4,
            r.mapper_v6.prefix_size == DEFAULT_PREFIX_SIZE_V4,
            r.seed == 0,
    {
        ProbeGenerator {
            prefixes: Vec::new(),
            flow_ids: Vec::new(),
            ttls: Vec::new(),
            prefix_len_v4: DEFAULT_PREFIX_LEN_V4,
            prefix_len_v6: DEFAULT_PREFIX_LEN_V6,
            probe_src_port: DEFAULT_PROBE_SRC_PORT,
            probe_dst_port: DEFAULT_PROBE_DST_PORT,
            mapper_v4: SequentialFlowMapper::default(),
            mapper_v6: SequentialFlowMapper::default(),
            seed: 0,
        }
    }
}

impl ProbeGenerator {
    /// Both mappers have a non-empty prefix.
    pub open spec fn wf(&self) -> bool {
        self.mapper_v4.wf() && self.mapper_v6.wf()
    }

    fn probe_at(&self, af: u8, sub: u128, protocol: L4, ttl: u8, flow: u32) -> (p: Probe)
        requires
            self.wf(),
        ensures
            p == probe_at(*self, af, sub, protocol, ttl, flow),
    {
        let mapper = if af == 4 {
            &self.mapper_v4
        } else {
            &self.mapper_v6
        };
        let (addr_offset, port_offset) = mapper.offset(flow as u128);
        let dst = add_mod_u128(sub, addr_offset);
        let port = ((self.probe_src_port as u64 + port_offset as u64) % 0x1_0000) as u16;
        Probe { dst_addr: IpAddress::V6(dst), src_port: port, dst_port: self.probe_dst_port, protocol, ttl }
    }

    fn push_flows(&self, af: u8, sub: u128, protocol: L4, ttl: u8, out: &mut Vec<Probe>)
        requires
            self.wf(),
        ensures
            final(out)@ == old(out)@ + flows_row(*self, af, sub, protocol, ttl, self.flow_ids@),
    {
        let ghost before = out@;
        let mut f: usize = 0;
        while f < self.flow_ids.len()
            invariant
                self.wf(),
                f <= self.flow_ids@.len(),
                out@ == before + flows_row(*self, af, sub, protocol, ttl, self.flow_ids@.take(f as int)),
            decreases self.flow_ids@.len() - f,
        {
            assert(self.flow_ids@.take(f + 1).drop_last() =~= self.flow_ids@.take(f as int));
            let p = self.probe_at(af, sub, protocol, ttl, self.flow_ids[f]);
            out.push(p);
            f = f + 1;
            assert(out@ =~= before + flows_row(*self, af, sub, protocol, ttl, self.flow_ids@.take(f as int)));
        }
        assert(self.flow_ids@.take(self.flow_ids@.len() as int) =~= self.flow_ids@);
    }

    fn push_ttls(&self, af: u8, sub: u128, protocol: L4, out: &mut Vec<Probe>)
        requires
            self.wf(),
        ensures
            final(out)@ == old(out)@ + ttl_rows(*self, af, sub, protocol, self.ttls@),
    {
        let ghost before = out@;
        let mut t: usize = 0;
        while t < self.ttls.len()
            invariant
                self.wf(),
                t <= self.ttls@.len(),
                out@ == before + ttl_rows(*self, af, sub, protocol, self.ttls@.take(t as int)),
            decreases self.ttls@.len() - t,
        {
            assert(self.ttls@.take(t + 1).drop_last() =~= self.ttls@.take(t as int));
            self.push_flows(af, sub, protocol, self.ttls[t], out);
            t = t + 1;
            assert(out@ =~= before + ttl_rows(*self, af, sub, protocol, self.ttls@.take(t as int)));
        }
        assert(self.ttls@.take(self.ttls@.len() as int) =~= self.ttls@);
    }

    /// The probes of every subprefix, TTL and flow, shuffled with the
    /// generator's seed; `None` when a prefix does not parse or cannot be split.
    pub fn probes(&self) -> (r: Option<Vec<Probe>>)
        requires
            self.wf(),
        ensures
            r.is_some() <==> all_split(*self),
            r.is_some() ==> r.unwrap()@.to_multiset() == grid(*self, self.prefixes@).to_multiset(),
    {
        let mut out: Vec<Probe> = Vec::new();
        let mut i: usize = 0;
        while i < self.prefixes.len()
            invariant
                self.wf(),
                i <= self.prefixes@.len(),
                out@ == grid(*self, self.prefixes@.take(i as int)),
                forall|j: int| 0 <= j < i ==> (#[trigger] split_of(*self, self.prefixes@[j])).is_some(),
            decreases self.prefixes@.len() - i,
        {
            assert(self.prefixes@.take(i + 1).drop_last() =~= self.prefixes@.take(i as int));
            let p = &self.prefixes[i];
            let protocol = p.protocol;
            let subs = match split_prefix(p.prefix.as_str(), self.prefix_len_v4, self.prefix_len_v6) {
                None => {
                    assert(split_of(*self, self.prefixes@[i as int]).is_none());
                    return None;
                },
                Some(subs) => subs,
            };
            assert(split_of(*self, self.prefixes@[i as int]) == Some(subs@));
            let ghost before = out@;
            let mut k: usize = 0;
            while k < subs.len()
                invariant
                    self.wf(),
                    k <= subs@.len(),
                    out@ == before + sub_rows(*self, subs@.take(k as int), protocol),
                decreases subs@.len() - k,
            {
                assert(subs@.take(k + 1).drop_last() =~= subs@.take(k as int));
                let (af, sub) = subs[k];
                self.push_ttls(af, sub, protocol, &mut out);
                k = k + 1;
                assert(out@ =~= before + sub_rows(*self, subs@.take(k as int), protocol));
            }
            assert(subs@.take(subs@.len() as int) =~= subs@);
            i = i + 1;
        }
        assert(self.prefixes@.take(self.prefixes@.len() as int) =~= self.prefixes@);
        shuffle_probes(&mut out, self.seed);
        Some(out)
    }
}

} // verus!
