//! Beat orchestration core: the intent queue, the drain and retry state
//! machines, the directory-backed intent lifecycle and the memory rollup.

pub mod timestamp;
pub mod tasks;
pub mod text;
pub mod usage;
pub mod acceptance;
pub mod agent;
pub mod config;
pub mod dashboard;
pub mod lifecycle;
pub mod lines;
pub mod llm;
pub mod memory;
pub mod orchestrator;
pub mod paths;
pub mod records;
pub mod structured;
