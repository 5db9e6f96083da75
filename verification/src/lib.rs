//! A test-orchestration engine for an on-chain state machine: hex text and
//! raw bytes, hand-rolled call payloads for dynamic-array calls, bytecode
//! linking over symbolic placeholders, topological deployment of a fixed
//! dependency graph, the ephemeral node's lifecycle, and the step-by-step
//! replay of recorded and free-running execution traces.

pub mod calldata;
pub mod errors;
pub mod hexcodec;
pub mod lifecycle;
pub mod linker;
pub mod orchestrator;
pub mod pipeline;
