//! Gas profiling for smart-contract execution traces: trace normalisation,
//! call-stack reconstruction with weight aggregation, and hot-path ranking.
pub mod aggregator;
pub mod flamegraph;
pub mod hostio;
pub mod json;
pub mod parser;
pub mod profile;
pub mod ranker;
pub mod rpc;
pub mod text;
