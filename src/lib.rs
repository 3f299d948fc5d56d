//! Multipath-aware traceroute engine: flow mapping, link inference,
//! stopping points and the round-based probing controller.

pub mod analysis;
pub mod diamond_miner;
pub mod helpers;
pub mod laws;
pub mod links;
pub mod probe_generator;
pub mod sequential_mapper;
pub mod stopping_point;
pub mod types;

pub use sequential_mapper::SequentialFlowMapper;
