//! Verified encoders for the dump1090-compatible ADS-B output formats (BEAST,
//! AVR, raw, SBS-1/BaseStation, WebSocket), the output-module registry and
//! manager, and the aircraft tracker's register.

pub mod text;
pub mod metadata;
pub mod beast_output;
pub mod avr_output;
pub mod raw_output;
pub mod websocket_output;
pub mod output_module;
pub mod sbs1_output;
pub mod tracker;
