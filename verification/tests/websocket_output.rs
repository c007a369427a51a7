use adsb_demod::beast_output::{BeastMessage, BeastMessageType};
use adsb_demod::metadata::DecoderMetaData;
use adsb_demod::output_module::OutputModuleBuilder;
use adsb_demod::websocket_output::{WebSocketMessage, WebSocketOutputBuilder};
use std::time::{SystemTime, UNIX_EPOCH};

#[test]
fn test_websocket_message_from_beast() {
    let beast_msg = BeastMessage {
        message_type: BeastMessageType::ModeSLong,
        timestamp: 1234567890,
        signal_strength: 200,
        data: vec![0x8D, 0x40, 0x62, 0x1D, 0x58, 0x41, 0x38, 0x80, 0x2C, 0x8F, 0x7E, 0x4D, 0x0C, 0x3C],
    };

    let ws_message = WebSocketMessage::from_beast_message(&beast_msg);
    assert!(!ws_message.beast_data.is_empty());
    assert_eq!(ws_message.beast_data[0], 0x1A);
    assert_eq!(ws_message.beast_data[1], 0x32);
}

#[test]
fn test_websocket_message_from_adsb_packet() {
    let data = vec![0x8D, 0x40, 0x62, 0x1D, 0x58, 0x41, 0x38, 0x80, 0x2C, 0x8F, 0x7E, 0x4D, 0x0C, 0x3C];
    let since = SystemTime::now().duration_since(UNIX_EPOCH).unwrap_or_default();
    let metadata = DecoderMetaData {
        preamble_index: 12345,
        preamble_correlation_milli: 15_500,
        crc_passed: true,
        timestamp_secs: since.as_secs(),
        timestamp_subsec_micros: since.subsec_micros(),
    };

    let ws_message = WebSocketMessage::from_adsb_packet(&data, &metadata);
    assert!(!ws_message.beast_data.is_empty());
    assert_eq!(ws_message.beast_data[0], 0x1A);
}

#[test]
fn websocket_payload_is_the_beast_frame() {
    let md = DecoderMetaData {
        preamble_index: 1,
        preamble_correlation_milli: 42_000,
        crc_passed: true,
        timestamp_secs: 1,
        timestamp_subsec_micros: 2,
    };
    let data = [0x8D, 0x1A];
    let ws = WebSocketMessage::from_adsb_packet(&data, &md);
    let beast = BeastMessage::from_adsb_packet(&data, &md).encode();
    assert_eq!(ws.beast_data, beast);
    assert_eq!(ws.beast_data, vec![0x1A, 0x31, 0x00, 0x00, 0x00, 0x0F, 0x42, 0x42, 42, 0x8D, 0x1A, 0x1A]);
}

#[test]
fn websocket_builder_properties() {
    let b = WebSocketOutputBuilder::new();
    assert_eq!(b.module_type(), "websocket");
    assert_eq!(b.default_port(), 8080);
    assert!(b.supports_format("WebSocket"));
}
