use voyage::sequential_mapper::{DEFAULT_PREFIX_SIZE_V4, DEFAULT_PREFIX_SIZE_V6};
use voyage::SequentialFlowMapper;

#[test]
fn test_sequential_flow_mapper() {
    for &prefix_len in &[23, 24, 28, 32] {
        let mapper = SequentialFlowMapper::new(1 << (32 - prefix_len));
        let prefix_size = 1 << (32 - prefix_len);
        for flow_id in 0..(prefix_size + 1024) {
            let (addr_offset, port_offset) = mapper.offset(flow_id);
            let id = mapper.flow_id(addr_offset, port_offset);

            assert_eq!(id, flow_id);
        }
    }
}

#[test]
fn offset_within_prefix_uses_address_only() {
    let mapper = SequentialFlowMapper::new(DEFAULT_PREFIX_SIZE_V4);
    assert_eq!(mapper.offset(0), (0, 0));
    assert_eq!(mapper.offset(255), (255, 0));
}

#[test]
fn offset_beyond_prefix_moves_to_ports() {
    let mapper = SequentialFlowMapper::new(DEFAULT_PREFIX_SIZE_V4);
    assert_eq!(mapper.offset(256), (255, 1));
    assert_eq!(mapper.offset(300), (255, 45));
    let single = SequentialFlowMapper::new(1);
    assert_eq!(single.offset(0), (0, 0));
    assert_eq!(single.offset(7), (0, 7));
}

#[test]
fn round_trip_on_ipv6_prefix() {
    let mapper = SequentialFlowMapper::new(DEFAULT_PREFIX_SIZE_V6);
    for flow_id in [0u128, 1, 1 << 63, DEFAULT_PREFIX_SIZE_V6 - 1, DEFAULT_PREFIX_SIZE_V6, DEFAULT_PREFIX_SIZE_V6 + 5] {
        let (a, p) = mapper.offset(flow_id);
        assert_eq!(mapper.flow_id(a, p), flow_id);
    }
    assert_eq!(mapper.offset(DEFAULT_PREFIX_SIZE_V6 + 5), (DEFAULT_PREFIX_SIZE_V6 - 1, 6));
}

#[test]
fn default_mapper_has_ipv4_prefix() {
    let mapper = SequentialFlowMapper::default();
    assert_eq!(mapper.prefix_size, 256);
}
