//! A local diagnostic assistant: kernel recommendation (catalog building,
//! context fusion, rule-based scoring and ranking) and the parsing of probe
//! output for hardware, power, boot and package summaries.

pub mod text;
pub mod kernel;
pub mod context;
pub mod detect;
pub mod scoring;
pub mod catalog;
pub mod rank;
pub mod render;
pub mod boot;
pub mod hardware;
pub mod power;
pub mod packages;
