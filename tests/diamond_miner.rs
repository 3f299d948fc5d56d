use std::collections::{HashMap, HashSet};

use voyage::diamond_miner::DiamondMiner;
use voyage::helpers::reply;
use voyage::stopping_point::StoppingPoints;
use voyage::types::{in_prefix, IpAddress, Probe, Reply, L4, TTL};

const IP: [&str; 10] = [
    "192.168.0.2",
    "192.168.0.3",
    "192.168.0.4",
    "192.168.0.5",
    "192.168.0.6",
    "192.168.0.7",
    "192.168.0.8",
    "192.168.0.9",
    "192.168.0.10",
    "192.168.0.11",
];
const DEST: [&str; 10] = [
    "192.170.0.2",
    "192.170.0.3",
    "192.170.0.4",
    "192.170.0.5",
    "192.170.0.6",
    "192.170.0.7",
    "192.170.0.8",
    "192.170.0.9",
    "192.170.0.10",
    "192.170.0.11",
];

type Estimator = fn(usize, usize) -> usize;
const BASELINE: Option<&Estimator> = None;

fn v4(s: &str) -> IpAddress {
    let mut bits: u32 = 0;
    for part in s.split('.') {
        bits = (bits << 8) | part.parse::<u8>().unwrap() as u32;
    }
    IpAddress::V4(bits)
}

fn r(ttl: u8, src: &str, dst: &str) -> Reply {
    reply(ttl, v4(src), v4(dst))
}

fn diamond_miner() -> DiamondMiner {
    DiamondMiner::new(
        v4(DEST[0]),
        1,
        20,
        24000,
        33434,
        L4::UDP,
        StoppingPoints::failure_5_percent(),
        10,
    )
}

fn probes_to_count(probes: Vec<Probe>) -> HashMap<TTL, usize> {
    let mut counts = HashMap::new();
    for p in probes {
        *counts.entry(p.ttl).or_insert(0) += 1;
    }
    counts
}

fn diamond_replies() -> Vec<Reply> {
    vec![
        r(1, IP[1], DEST[1]),
        r(1, IP[1], DEST[2]),
        r(1, IP[1], DEST[3]),
        r(1, IP[1], DEST[4]),
        r(1, IP[1], DEST[5]),
        r(1, IP[1], DEST[6]),
        //
        r(2, IP[2], DEST[1]),
        r(2, IP[2], DEST[2]),
        r(2, IP[2], DEST[3]),
        r(2, IP[2], DEST[4]),
        r(2, IP[2], DEST[5]),
        r(2, IP[2], DEST[6]),
        //
        r(3, IP[3], DEST[1]),
        r(3, IP[3], DEST[2]),
        //
        r(3, IP[4], DEST[3]),
        r(3, IP[4], DEST[4]),
        r(3, IP[4], DEST[5]),
        r(3, IP[4], DEST[6]),
        //
        r(4, IP[5], DEST[1]),
        r(4, IP[5], DEST[2]),
        r(4, IP[5], DEST[3]),
        r(4, IP[5], DEST[4]),
        r(4, IP[5], DEST[5]),
        r(4, IP[5], DEST[6]),
        //
        r(5, DEST[0], DEST[1]),
        r(5, DEST[0], DEST[2]),
        r(5, DEST[0], DEST[3]),
        r(5, DEST[0], DEST[4]),
        r(5, DEST[0], DEST[5]),
        r(5, DEST[0], DEST[6]),
    ]
}

#[test]
fn test_nodes_distribution_at_ttl() {
    let mut miner = diamond_miner();
    let replies = vec![
        r(1, IP[0], DEST[0]),
        r(1, IP[1], DEST[0]),
        r(2, IP[2], DEST[0]),
        r(2, IP[2], DEST[0]),
        r(2, IP[3], DEST[0]),
    ];
    miner.next_round(replies, BASELINE);

    let nodes = vec![v4(IP[0]), v4(IP[1])];
    let ttl = 1;

    let distribution = miner.nodes_distribution_at_ttl(&nodes, ttl);
    let share = |i: usize| distribution[i].num as f64 / distribution[i].den as f64;
    assert_eq!(distribution.len(), 2);
    assert_eq!(share(0), 0.5);
    assert_eq!(share(1), 0.5);

    let nodes = vec![v4(IP[2]), v4(IP[3])];
    let ttl = 2;

    let distribution = miner.nodes_distribution_at_ttl(&nodes, ttl);
    let share = |i: usize| distribution[i].num as f64 / distribution[i].den as f64;
    assert_eq!(distribution.len(), 2);
    assert!(share(0) > 0.66 && share(0) < 0.67);
    assert!(share(1) > 0.33 && share(1) < 0.34);
}

#[test]
fn silent_nodes_get_uniform_weights() {
    let miner = diamond_miner();
    let nodes = vec![v4(IP[0]), v4(IP[1]), v4(IP[2]), v4(IP[3])];
    let distribution = miner.nodes_distribution_at_ttl(&nodes, 1);
    for w in &distribution {
        assert_eq!((w.num, w.den), (1, 4));
    }
}

// A node is unresolved only when it has at least one successor: IP[2] at TTL 2
// has none (its flow ends there), so it is not in the unresolved set, yet it
// still lacks probes and asks for its stopping point of 1 flow.
#[test]
fn test_unresolved_nodes_at_ttl_basic() {
    let mut miner = diamond_miner();
    // ---- [ IP[1] ] ---- [ IP[2] ] -.-.-.- [ DEST[0] ]
    let replies = vec![r(1, IP[1], DEST[0]), r(2, IP[2], DEST[0])];

    miner.next_round(replies, BASELINE);

    let expected_unresolved = [v4(IP[1]), v4(IP[2])];

    let (unresolved_nodes, max_weighted_threshold) = miner.unresolved_nodes_at_ttl(1, BASELINE);

    assert_eq!(
        unresolved_nodes.len(),
        1,
        "Unresolved nodes number. unresolved_nodes: {:?}, max_weighted_threshold: {}",
        unresolved_nodes,
        max_weighted_threshold
    );
    assert_eq!(max_weighted_threshold, 6, "Max weighted threshold");
    assert_eq!(unresolved_nodes[0], expected_unresolved[0], "Unresolved nodes");

    let (unresolved_nodes, max_weighted_threshold) = miner.unresolved_nodes_at_ttl(2, BASELINE);

    assert_eq!(unresolved_nodes.len(), 0, "Unresolved nodes number. unresolved_nodes: {:?}", unresolved_nodes);
    assert_eq!(max_weighted_threshold, 1, "Max weighted threshold");
    assert!(!unresolved_nodes.contains(&expected_unresolved[1]));
}

#[test]
fn test_unresolved_nodes_at_ttl_complex() {
    let mut miner = diamond_miner();
    let replies = vec![
        r(1, IP[1], DEST[1]),
        r(1, IP[1], DEST[2]),
        r(1, IP[1], DEST[3]),
        r(1, IP[1], DEST[4]),
        r(1, IP[1], DEST[5]),
        r(1, IP[1], DEST[6]),
        r(2, IP[2], DEST[1]),
        r(2, IP[2], DEST[2]),
        r(2, IP[2], DEST[3]),
        r(2, IP[2], DEST[4]),
        r(2, IP[3], DEST[5]),
        r(2, IP[3], DEST[6]),
    ];

    miner.next_round(replies, BASELINE);

    let (unresolved_nodes, max_weighted_threshold) = miner.unresolved_nodes_at_ttl(1, BASELINE);

    assert_eq!(unresolved_nodes.len(), 1, "Unresolved nodes number. unresolved_nodes: {:?}", unresolved_nodes);
    assert_eq!(max_weighted_threshold, 11, "Max weighted threshold");
    assert_eq!(unresolved_nodes[0], v4(IP[1]), "Unresolved nodes");
}

#[test]
fn test_unresolved_nodes_at_ttl_missing_link() {
    let mut miner = diamond_miner();
    let replies = vec![
        r(1, IP[1], DEST[1]),
        r(1, IP[1], DEST[2]),
        r(1, IP[1], DEST[3]),
        r(1, IP[1], DEST[4]),
        r(1, IP[1], DEST[5]),
        r(1, IP[1], DEST[6]),
        //
        r(2, IP[2], DEST[1]),
        r(2, IP[2], DEST[2]),
        r(2, IP[2], DEST[3]),
        r(2, IP[2], DEST[4]),
        r(2, IP[2], DEST[5]),
        r(2, IP[2], DEST[6]),
        //
        r(2, IP[3], DEST[7]),
    ];

    miner.next_round(replies, BASELINE);

    let (unresolved_nodes, max_weighted_threshold) = miner.unresolved_nodes_at_ttl(1, BASELINE);

    assert_eq!(unresolved_nodes.len(), 0, "Unresolved nodes number. unresolved_nodes: {:?}", unresolved_nodes);
    assert_eq!(max_weighted_threshold, 0, "Max weighted threshold");
}

#[test]
fn test_next_round() {
    let mut miner = diamond_miner();
    miner.set_ttl_range(1, 4);

    let replies = vec![];

    let probes = miner.next_round(replies, BASELINE);

    assert_eq!(probes.len(), 6 * 4);
    assert_eq!(probes_to_count(probes), HashMap::from([(1, 6), (2, 6), (3, 6), (4, 6)]));

    // IP[1] is resolved; IP[2] has two successors over six links and needs 11;
    // IP[3] (1/3 of TTL 3) needs 18, IP[4] (2/3) needs 9; IP[5] is resolved.
    let probes = miner.next_round(diamond_replies(), BASELINE);

    assert_eq!(probes.len(), (11 - 6) + (18 - 6) + (18 - 6)); // 29
    assert_eq!(probes_to_count(probes), HashMap::from([(2, 11 - 6), (3, 18 - 6), (4, 18 - 6)]));
}

#[test]
fn bootstrap_probes_are_distinct_flows() {
    let mut miner = diamond_miner();
    miner.set_ttl_range(1, 4);
    let probes = miner.next_round(vec![], BASELINE);
    let base = match v4(DEST[0]) {
        IpAddress::V4(a) => a,
        IpAddress::V6(_) => unreachable!(),
    };
    for p in &probes {
        assert_eq!(p.src_port, 24000);
        assert_eq!(p.dst_port, 33434);
        assert_eq!(p.protocol, L4::UDP);
    }
    let at_1: Vec<IpAddress> = probes.iter().filter(|p| p.ttl == 1).map(|p| p.dst_addr).collect();
    let expected: Vec<IpAddress> = (0..6).map(|i| IpAddress::V4(base + 2 * i)).collect();
    assert_eq!(at_1, expected);
    for ttl in 1..=4u8 {
        assert_eq!(miner.probes_sent_at(ttl), 6);
    }
    assert_eq!(miner.probes_sent_at(5), 0);
    assert_eq!(miner.current_round(), 1);
}

#[test]
fn probes_are_unique_per_ttl_across_rounds() {
    let mut miner = diamond_miner();
    miner.set_ttl_range(1, 4);
    let first = miner.next_round(vec![], BASELINE);
    let second = miner.next_round(diamond_replies(), BASELINE);
    for ttl in 1..=4u8 {
        let keys: Vec<(IpAddress, u16)> = first
            .iter()
            .chain(second.iter())
            .filter(|p| p.ttl == ttl)
            .map(|p| (p.dst_addr, p.src_port))
            .collect();
        let unique: HashSet<(IpAddress, u16)> = keys.iter().cloned().collect();
        assert_eq!(keys.len(), unique.len());
    }
    assert_eq!(miner.probes_sent_at(1), 6);
    assert_eq!(miner.probes_sent_at(2), 11);
    assert_eq!(miner.probes_sent_at(3), 18);
    assert_eq!(miner.probes_sent_at(4), 18);
}

#[test]
fn flows_past_the_prefix_use_source_ports() {
    let mut miner = diamond_miner();
    miner.set_ttl_range(3, 3);
    miner.next_round(vec![], BASELINE);
    // one hop at TTL 3 with two successors over few flows, weight 1/100
    let mut replies = vec![];
    for i in 0..100u32 {
        let dst = IpAddress::V4(0x0a00_0000 + i);
        replies.push(reply(3, if i == 0 { v4(IP[0]) } else { v4(IP[1]) }, dst));
        if i == 0 {
            replies.push(reply(4, v4(IP[2]), dst));
        }
    }
    let probes = miner.next_round(replies, BASELINE);
    // IP[0]: one successor, one transit, weight 1/100: ceil(6 * 100 / 1) = 600 flows
    assert_eq!(probes.len(), 600 - 6);
    let ports: HashSet<u16> = probes.iter().map(|p| p.src_port).collect();
    assert!(ports.contains(&24000));
    assert!(ports.contains(&(24000 + 600 - 256)));
    assert_eq!(miner.probes_sent_at(3), 600);
}

#[test]
fn terminal_destination_stops_probing() {
    let mut miner = diamond_miner();
    miner.set_ttl_range(1, 2);
    miner.next_round(vec![], BASELINE);
    let mut replies = vec![];
    for i in 1..7 {
        replies.push(r(1, IP[1], DEST[i]));
        replies.push(r(2, DEST[0], DEST[i]));
    }
    let probes = miner.next_round(replies, BASELINE);
    assert!(probes.is_empty());
    let (unresolved, needed) = miner.unresolved_nodes_at_ttl(2, BASELINE);
    assert!(unresolved.is_empty());
    assert_eq!(needed, 0);
}

#[test]
fn round_cap_returns_nothing() {
    let mut miner = DiamondMiner::new(
        v4(DEST[0]),
        1,
        4,
        24000,
        33434,
        L4::UDP,
        StoppingPoints::failure_5_percent(),
        2,
    );
    assert_eq!(miner.next_round(vec![], BASELINE).len(), 24);
    let probes = miner.next_round(vec![r(1, IP[1], DEST[1]), r(2, IP[2], DEST[1])], BASELINE);
    assert!(probes.is_empty());
    assert_eq!(miner.current_round(), 2);
    assert_eq!(miner.probes_sent_at(1), 6);
    assert_eq!(miner.replies().len(), 2);
    assert!(miner.next_round(vec![], BASELINE).is_empty());
}

#[test]
fn echoed_batch_needs_no_more_probes() {
    let mut miner = diamond_miner();
    miner.set_ttl_range(1, 4);
    miner.set_destination_prefix(24, 64);
    let probes = miner.next_round(vec![], BASELINE);
    let echoes: Vec<Reply> = probes
        .iter()
        .map(|p| {
            let mut x = reply(p.ttl, p.dst_addr, p.dst_addr);
            x.probe_protocol = 17;
            x.probe_src_port = p.src_port;
            x.probe_dst_port = p.dst_port;
            x
        })
        .collect();
    assert!(miner.next_round(echoes, BASELINE).is_empty());
}

#[test]
fn destination_and_its_prefix_are_never_unresolved() {
    let mut miner = diamond_miner();
    miner.set_destination_prefix(24, 64);
    // DEST[1] shares DEST[0]'s /24 and has a successor with a single transit
    let replies = vec![r(1, DEST[1], DEST[5]), r(2, IP[2], DEST[5]), r(1, DEST[0], DEST[6]), r(2, IP[3], DEST[6])];
    miner.next_round(replies, BASELINE);
    let (unresolved, needed) = miner.unresolved_nodes_at_ttl(1, BASELINE);
    assert!(unresolved.is_empty());
    assert_eq!(needed, 0);
    assert!(in_prefix(v4(DEST[0]), 24, v4(DEST[1])));
    assert!(!in_prefix(v4(DEST[0]), 24, v4(IP[1])));
}

#[test]
fn estimator_raises_the_need() {
    let mut miner = diamond_miner();
    let replies = vec![
        r(1, IP[1], DEST[1]),
        r(1, IP[1], DEST[2]),
        r(2, IP[2], DEST[1]),
        r(2, IP[3], DEST[2]),
    ];
    miner.next_round(replies, BASELINE);
    let (_, baseline) = miner.unresolved_nodes_at_ttl(1, BASELINE);
    assert_eq!(baseline, 11);
    let five = |_n_probes: usize, _observed: usize| 5usize;
    let (unresolved, estimated) = miner.unresolved_nodes_at_ttl(1, Some(&five));
    assert_eq!(unresolved, vec![v4(IP[1])]);
    // stopping point of 5 interfaces at 95% is 27, more than the 11 of 2
    assert_eq!(estimated, 27);
    let small = |_n_probes: usize, observed: usize| observed;
    let (_, kept) = miner.unresolved_nodes_at_ttl(1, Some(&small));
    assert_eq!(kept, 11);
}

#[test]
fn icmp_towards_ipv6_becomes_icmpv6() {
    let dst = IpAddress::V6(0x2001_4860_4860_0000_0000_0000_0000_8888);
    let mut miner = DiamondMiner::new(dst, 1, 1, 24000, 33434, L4::ICMP, StoppingPoints::failure_1_percent(), 10);
    assert_eq!(miner.config().protocol, L4::ICMPv6);
    let probes = miner.next_round(vec![], BASELINE);
    assert_eq!(probes.len(), 8);
    let addrs: Vec<IpAddress> = probes.iter().map(|p| p.dst_addr).collect();
    let expected: Vec<IpAddress> =
        (0..8u128).map(|i| IpAddress::V6(0x2001_4860_4860_0000_0000_0000_0000_8888 + i)).collect();
    assert_eq!(addrs, expected);
    let v4_miner = DiamondMiner::new(v4(DEST[0]), 1, 1, 1, 1, L4::ICMP, StoppingPoints::failure_1_percent(), 10);
    assert_eq!(v4_miner.config().protocol, L4::ICMP);
}

#[test]
fn links_and_replies_of_the_history() {
    let mut miner = diamond_miner();
    miner.next_round(vec![r(1, IP[1], DEST[1])], BASELINE);
    miner.next_round(vec![r(2, IP[2], DEST[1])], BASELINE);
    assert_eq!(miner.replies(), vec![r(1, IP[1], DEST[1]), r(2, IP[2], DEST[1])]);
    assert_eq!(miner.time_exceeded_replies().len(), 2);
    let counts = miner.n_links_by_ttl();
    assert_eq!(counts, vec![(1, 1), (2, 1)]);
    let links = miner.links_by_ttl();
    assert_eq!(links[0].1[0].near_ip, Some(v4(IP[1])));
    assert_eq!(links[0].1[0].far_ip, Some(v4(IP[2])));
}

#[test]
fn hop_without_successor_still_asks_for_flows() {
    let mut miner = diamond_miner();
    miner.next_round(vec![r(1, IP[1], DEST[0]), r(2, IP[2], DEST[0])], BASELINE);
    let five = |_n_probes: usize, _observed: usize| 5usize;
    let (unresolved, needed) = miner.unresolved_nodes_at_ttl(2, Some(&five));
    assert!(unresolved.is_empty());
    // stopping point of no successor is 1; of 5 estimated interfaces, 27
    assert_eq!(needed, 27);
}
