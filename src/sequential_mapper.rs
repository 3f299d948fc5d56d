//! Bijection between flow identifiers and (address offset, port offset) pairs.

use vstd::prelude::*;

verus! {

/// Default IPv4 destination prefix length.
pub const DEFAULT_PREFIX_LEN_V4: u8 = 24;

/// Number of addresses in a default IPv4 destination prefix (2^(32 - 24)).
pub const DEFAULT_PREFIX_SIZE_V4: u128 = 256;

/// Default IPv6 destination prefix length.
pub const DEFAULT_PREFIX_LEN_V6: u8 = 64;

/// Number of addresses in a default IPv6 destination prefix (2^(128 - 64)).
pub const DEFAULT_PREFIX_SIZE_V6: u128 = 0x1_0000_0000_0000_0000;

/// Default base source port of the probes.
pub const DEFAULT_PROBE_SRC_PORT: u16 = 24000;

/// Default destination port of the probes.
pub const DEFAULT_PROBE_DST_PORT: u16 = 33434;

/// The address offset of a flow identifier, for a prefix of `prefix_size` addresses.
pub open spec fn spec_addr_offset(prefix_size: int, flow_id: int) -> int {
    if flow_id < prefix_size {
        flow_id
    } else {
        prefix_size - 1
    }
}

/// The port offset of a flow identifier, for a prefix of `prefix_size` addresses.
pub open spec fn spec_port_offset(prefix_size: int, flow_id: int) -> int {
    if flow_id < prefix_size {
        0
    } else {
        flow_id - prefix_size + 1
    }
}

/// Maps flows first onto the addresses of the destination prefix, then onto
/// source ports once the prefix is exhausted.
pub struct SequentialFlowMapper {
    pub prefix_size: u128,
}

impl SequentialFlowMapper {
    /// A mapper is well formed when its prefix holds at least one address.
    pub open spec fn wf(&self) -> bool {
        self.prefix_size > 0
    }

    pub fn new(prefix_size: u128) -> (r: Self)
        requires
            prefix_size > 0,
        ensures
            r.prefix_size == prefix_size,
            r.wf(),
    {
        SequentialFlowMapper { prefix_size }
    }

    /// The flow identifier of an (address offset, port offset) pair.
    pub fn flow_id(&self, addr_offset: u128, port_offset: u128) -> (r: u128)
        requires
            addr_offset + port_offset <= u128::MAX,
        ensures
            r == addr_offset + port_offset,
    {
        addr_offset + port_offset
    }

    /// The (address offset, port offset) pair of a flow identifier.
    pub fn offset(&self, flow_id: u128) -> (r: (u128, u128))
        requires
            self.wf(),
        ensures
            r.0 == spec_addr_offset(self.prefix_size as int, flow_id as int),
            r.1 == spec_port_offset(self.prefix_size as int, flow_id as int),
    {
        if flow_id < self.prefix_size {
            return (flow_id, 0);
        }
        (self.prefix_size - 1, flow_id - self.prefix_size + 1)
    }
}

impl Default for SequentialFlowMapper {
    fn default() -> (r: Self)
        ensures
            r.prefix_size == DEFAULT_PREFIX_SIZE_V4,
    {
        SequentialFlowMapper::new(DEFAULT_PREFIX_SIZE_V4)
    }
}

/// Mapping a flow identifier to its offsets and back gives the identifier again.
pub proof fn lemma_flow_id_of_offset(prefix_size: int, flow_id: int)
    requires
        prefix_size > 0,
        flow_id >= 0,
    ensures
        spec_addr_offset(prefix_size, flow_id) + spec_port_offset(prefix_size, flow_id) == flow_id,
        0 <= spec_addr_offset(prefix_size, flow_id) < prefix_size,
        0 <= spec_port_offset(prefix_size, flow_id),
{
}

/// Distinct flow identifiers have distinct offset pairs.
pub proof fn lemma_offset_injective(prefix_size: int, f1: int, f2: int)
    requires
        prefix_size > 0,
        f1 >= 0,
        f2 >= 0,
        f1 != f2,
    ensures
        spec_addr_offset(prefix_size, f1) != spec_addr_offset(prefix_size, f2)
            || spec_port_offset(prefix_size, f1) != spec_port_offset(prefix_size, f2),
{
    lemma_flow_id_of_offset(prefix_size, f1);
    lemma_flow_id_of_offset(prefix_size, f2);
}

} // verus!
