//! Parser for the line-oriented telemetry stream of a filament-extrusion
//! controller: header detection, 37-field data-row decoding, and the
//! three-phase session state machine that turns raw lines into typed events.

pub mod chars;
pub mod numbers;
pub mod parser;
pub mod ports;
pub mod session;
pub mod tokenize;
