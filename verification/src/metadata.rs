//! What the decoder reports about each received packet, as plain values.

use vstd::prelude::*;

verus! {

/// Reception details that the decoder attaches to an ADS-B packet.
///
/// The reception time is held as the duration since the Unix epoch (a time
/// before the epoch counts as the epoch itself), and the preamble
/// correlation strength in thousandths.
#[derive(Debug, Clone, Copy)]
pub struct DecoderMetaData {
    /// Sample index at which the preamble was detected.
    pub preamble_index: usize,
    /// Preamble correlation strength, in thousandths (15.5 is 15500).
    pub preamble_correlation_milli: i64,
    /// Whether the packet passed its CRC check.
    pub crc_passed: bool,
    /// Whole seconds of the reception time since the Unix epoch.
    pub timestamp_secs: u64,
    /// Microseconds of the reception time within that second.
    pub timestamp_subsec_micros: u32,
}

impl DecoderMetaData {
    /// The reception time in microseconds since the Unix epoch.
    pub open spec fn timestamp_micros(self) -> int {
        self.timestamp_secs * 1_000_000 + self.timestamp_subsec_micros
    }
}

} // verus!
