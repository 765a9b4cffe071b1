//! Port scanning and service fingerprinting: the decisions and the analysis,
//! verified, with the network work left to the caller.
pub mod services;
pub mod text;
pub mod analyzer;
pub mod ports;
pub mod schedule;
pub mod probes;
