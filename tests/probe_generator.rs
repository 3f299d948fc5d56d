use std::collections::HashSet;

use voyage::probe_generator::{split_network, split_prefix, Prefix, ProbeGenerator};
use voyage::types::{IpAddress, L4};
use voyage::SequentialFlowMapper;

#[test]
fn test_probe_generator_128() {
    let prefixes = vec![Prefix { prefix: "2001:4860:4860::8888/128".to_string(), protocol: L4::ICMP }];
    let generator = ProbeGenerator {
        prefixes,
        flow_ids: vec![10, 11, 12],
        ttls: vec![41, 42],
        prefix_len_v6: 128,
        mapper_v6: SequentialFlowMapper::new(1),
        ..Default::default()
    };
    let probes = generator.probes().unwrap();
    assert_eq!(probes.len(), 6);
    for probe in probes.iter() {
        assert_eq!(probe.dst_addr, IpAddress::V6(0x2001_4860_4860_0000_0000_0000_0000_8888));
        assert!((24_010..24_013).contains(&probe.src_port));
        assert_eq!(probe.dst_port, 33_434);
        assert!((41..43).contains(&probe.ttl));
        assert_eq!(probe.protocol, L4::ICMP);
    }
}

#[test]
fn test_probe_generator_63() {
    let prefixes = vec![Prefix { prefix: "2001:4860:4860:0000::/63".to_string(), protocol: L4::ICMP }];
    let generator = ProbeGenerator {
        prefixes,
        flow_ids: vec![10],
        ttls: vec![41],
        prefix_len_v6: 64,
        mapper_v6: SequentialFlowMapper::new(1 << 64),
        ..Default::default()
    };

    let probes = generator.probes().unwrap();
    assert_eq!(probes.len(), 2);
    assert_eq!(probes.iter().map(|probe| probe.dst_addr).collect::<HashSet<_>>().len(), 2);

    let expected_addr = [
        IpAddress::V6(0x2001_4860_4860_0000_0000_0000_0000_000a),
        IpAddress::V6(0x2001_4860_4860_0001_0000_0000_0000_000a),
    ];
    for probe in probes {
        assert!(expected_addr.contains(&probe.dst_addr), "{:?}", probe.dst_addr);
        assert_eq!(probe.src_port, 24_000);
        assert_eq!(probe.dst_port, 33_434);
        assert_eq!(probe.ttl, 41);
        assert_eq!(probe.protocol, L4::ICMP);
    }
}

#[test]
fn test_probe_generator_32() {
    let prefixes = vec![Prefix { prefix: "8.8.8.8/32".to_string(), protocol: L4::UDP }];
    let generator = ProbeGenerator {
        prefixes,
        flow_ids: vec![10, 11, 12],
        ttls: vec![41, 42],
        prefix_len_v4: 32,
        mapper_v4: SequentialFlowMapper::new(1),
        ..Default::default()
    };

    let probes = generator.probes().unwrap();
    assert_eq!(probes.len(), 6);
    assert_eq!(probes.iter().map(|p| format!("{:?}", p)).collect::<HashSet<_>>().len(), 6);

    for probe in probes {
        // ::ffff:808:808
        assert_eq!(probe.dst_addr, IpAddress::V6(0xffff_0808_0808));
        assert!((24_010..24_013).contains(&probe.src_port));
        assert_eq!(probe.dst_port, 33_434);
        assert!((41..43).contains(&probe.ttl));
        assert_eq!(probe.protocol, L4::UDP);
    }
}

#[test]
fn test_probe_generator_23() {
    let prefixes = vec![Prefix { prefix: "0.0.0.0/23".to_string(), protocol: L4::UDP }];
    let generator = ProbeGenerator {
        prefixes,
        flow_ids: vec![10],
        ttls: vec![41],
        prefix_len_v4: 24,
        mapper_v4: SequentialFlowMapper::new(1 << 8),
        ..Default::default()
    };

    let probes = generator.probes().unwrap();

    assert_eq!(probes.len(), 2);
    assert_eq!(probes.iter().map(|p| format!("{:?}", p)).collect::<HashSet<_>>().len(), 2);

    // ::ffff:0:a and ::ffff:0:10a
    let expected_addr = [IpAddress::V6(0xffff_0000_000a), IpAddress::V6(0xffff_0000_010a)];

    for probe in probes {
        assert!(expected_addr.contains(&probe.dst_addr));
        assert_eq!(probe.src_port, 24_000);
        assert_eq!(probe.dst_port, 33_434);
        assert_eq!(probe.ttl, 41);
        assert_eq!(probe.protocol, L4::UDP);
    }
}

#[test]
fn unparsable_prefix_gives_nothing() {
    let generator = ProbeGenerator {
        prefixes: vec![Prefix { prefix: "not a prefix".to_string(), protocol: L4::UDP }],
        flow_ids: vec![1],
        ttls: vec![1],
        ..Default::default()
    };
    assert!(generator.probes().is_none());
    assert!(split_prefix("10.0.0.1/24", 24, 64).is_none());
}

#[test]
fn split_into_longer_prefixes() {
    assert_eq!(
        split_prefix("10.0.0.0/22", 24, 64).unwrap(),
        vec![
            (4, 0xffff_0a00_0000),
            (4, 0xffff_0a00_0100),
            (4, 0xffff_0a00_0200),
            (4, 0xffff_0a00_0300),
        ]
    );
    // a target shorter than the prefix cannot be split
    assert!(split_prefix("10.0.0.0/25", 24, 64).is_none());
    assert_eq!(split_network(IpAddress::V6(1 << 64), 64, 24, 64).unwrap(), vec![(6, 1 << 64)]);
}

#[test]
fn same_seed_same_order() {
    let make = || ProbeGenerator {
        prefixes: vec![Prefix { prefix: "10.0.0.0/24".to_string(), protocol: L4::UDP }],
        flow_ids: (0..20).collect(),
        ttls: vec![1, 2, 3],
        seed: 7,
        ..Default::default()
    };
    let a = make().probes().unwrap();
    let b = make().probes().unwrap();
    assert_eq!(a, b);
    assert_eq!(a.len(), 60);
    assert_eq!(a.iter().collect::<HashSet<_>>().len(), 60);
    // the grid order is subprefix, TTL, flow; the seeded order is another one
    let grid_order: Vec<(u8, u16)> = (1..=3u8).flat_map(|t| (0..20u16).map(move |f| (t, 24000 + f))).collect();
    let got_order: Vec<(u8, u16)> = a.iter().map(|p| (p.ttl, p.src_port)).collect();
    assert_ne!(got_order, grid_order);
}
