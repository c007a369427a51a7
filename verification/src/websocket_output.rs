//! WebSocket payloads: each message carries one BEAST binary frame.

use vstd::prelude::*;
use crate::output_module::OutputModuleBuilder;
use crate::beast_output::{beast_frame, beast_signal_strength, beast_type_for_len, BeastMessage};
use crate::metadata::DecoderMetaData;

verus! {

/// WebSocket message containing BEAST mode data.
#[derive(Debug, Clone)]
pub struct WebSocketMessage {
    pub beast_data: Vec<u8>,
}

impl WebSocketMessage {
    /// Creates a WebSocket message from a BEAST message.
    pub fn from_beast_message(beast_msg: &BeastMessage) -> (m: Self)
        ensures
            m.beast_data@ == beast_msg.frame(),
    {
        WebSocketMessage { beast_data: beast_msg.encode() }
    }

    /// Creates a WebSocket message from a raw ADS-B packet.
    pub fn from_adsb_packet(data: &[u8], metadata: &DecoderMetaData) -> (m: Self)
        ensures
            m.beast_data@ == beast_frame(
                beast_type_for_len(data@.len()),
                metadata.timestamp_micros() as u64,
                beast_signal_strength(metadata.preamble_correlation_milli as int),
                data@,
            ),
            m.beast_data@.len() >= 2,
            m.beast_data@[1] == if data@.len() <= 7 {
                0x31u8
            } else {
                0x32u8
            },
    {
        let beast_msg = BeastMessage::from_adsb_packet(data, metadata);
        Self::from_beast_message(&beast_msg)
    }
}


/// Builder for WebSocket output modules.
pub struct WebSocketOutputBuilder;

impl WebSocketOutputBuilder {
    pub fn new() -> (b: Self) {
        WebSocketOutputBuilder
    }
}

impl OutputModuleBuilder for WebSocketOutputBuilder {
    open spec fn spec_module_type(&self) -> Seq<char> {
        "websocket"@
    }

    open spec fn spec_default_port(&self) -> u16 {
        8080
    }

    open spec fn spec_description(&self) -> Seq<char> {
        "WebSocket server for real-time ADS-B data streaming to web applications"@
    }

    fn module_type(&self) -> (r: &str) {
        "websocket"
    }

    fn description(&self) -> (r: &str)
    {
        "WebSocket server for real-time ADS-B data streaming to web applications"
    }

    fn default_port(&self) -> (r: u16) {
        8080
    }
}

} // verus!
