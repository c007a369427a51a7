use adsb_demod::avr_output::{AvrMessage, AvrOutputBuilder};
use adsb_demod::metadata::DecoderMetaData;
use adsb_demod::output_module::OutputModuleBuilder;
use std::time::{SystemTime, UNIX_EPOCH};

fn metadata(preamble_index: usize, correlation: f32) -> DecoderMetaData {
    let since = SystemTime::now().duration_since(UNIX_EPOCH).unwrap_or_default();
    DecoderMetaData {
        preamble_index,
        preamble_correlation_milli: (correlation as f64 * 1000.0).trunc() as i64,
        crc_passed: true,
        timestamp_secs: since.as_secs(),
        timestamp_subsec_micros: since.subsec_micros(),
    }
}

#[test]
fn test_avr_message_encoding() {
    let data = vec![0x8D, 0x40, 0x62, 0x1D, 0x58, 0x41, 0x38, 0x80, 0x2C, 0x8F, 0x7E, 0x4D, 0x0C, 0x3C];
    let metadata = metadata(12345, 15.5);

    let message = AvrMessage::from_adsb_packet(&data, &metadata);
    let encoded = message.encode();

    assert!(encoded.starts_with('@'));
    assert!(encoded.contains("*8D40621D5841382C8F7E4D0C3C;"));
    assert!(encoded.ends_with('\n'));
}

#[test]
fn test_avr_simple_encoding() {
    let data = vec![0x8D, 0x40, 0x62, 0x1D];
    let metadata = metadata(12345, 25.0);

    let message = AvrMessage::from_adsb_packet(&data, &metadata);
    let encoded = message.encode_simple();

    assert_eq!(encoded, "*8D40621D;\n");
}

#[test]
fn test_signal_level_conversion() {
    let data = vec![0x8D];
    let metadata = metadata(0, 25.0);

    let message = AvrMessage::from_adsb_packet(&data, &metadata);
    assert_eq!(message.signal_level, -25);
}

#[test]
fn avr_encode_exact_line() {
    let message = AvrMessage { timestamp: 0x1234, signal_level: -10, data: vec![0x00, 0xAB, 0x1A] };
    assert_eq!(message.encode(), "@0000001234 -10\n*00AB1A;\n");
}

#[test]
fn avr_timestamp_wider_than_ten_digits() {
    let message = AvrMessage { timestamp: 0xFEDC_BA98_7654, signal_level: 0, data: vec![] };
    assert_eq!(message.encode(), "@FEDCBA987654 0\n*;\n");
    assert_eq!(message.encode_simple(), "*;\n");
}

#[test]
fn avr_timestamp_is_seconds() {
    let md = DecoderMetaData {
        preamble_index: 0,
        preamble_correlation_milli: 0,
        crc_passed: true,
        timestamp_secs: 1_700_000_000,
        timestamp_subsec_micros: 999_999,
    };
    let message = AvrMessage::from_adsb_packet(&[0x8D], &md);
    assert_eq!(message.timestamp, 1_700_000_000);
    assert_eq!(message.encode(), "@006553F100 -50\n*8D;\n");
}

#[test]
fn avr_signal_level_clamps_and_drops_fraction() {
    let level = |milli: i64| {
        let md = DecoderMetaData {
            preamble_index: 0,
            preamble_correlation_milli: milli,
            crc_passed: true,
            timestamp_secs: 0,
            timestamp_subsec_micros: 0,
        };
        AvrMessage::from_adsb_packet(&[], &md).signal_level
    };
    assert_eq!(level(-5_000), -50);
    assert_eq!(level(0), -50);
    assert_eq!(level(15_500), -34);
    assert_eq!(level(49_999), 0);
    assert_eq!(level(1_000), -49);
    assert_eq!(level(999), -49);
    assert_eq!(level(50_000), 0);
    assert_eq!(level(1_000_000), 0);
}

#[test]
fn avr_builder_properties() {
    let b = AvrOutputBuilder::new();
    assert_eq!(b.module_type(), "avr");
    assert_eq!(b.default_port(), 30003);
    assert!(b.supports_format("AVR"));
    assert!(b.supports_format("Avr"));
    assert!(!b.supports_format("avr1"));
    assert!(!b.supports_format("beast"));
}

#[test]
fn avr_omits_0x80_bytes_from_hex_text() {
    let message = AvrMessage { timestamp: 0x1234, signal_level: -25, data: vec![0x0A, 0x80, 0xFF, 0x80] };
    assert_eq!(message.encode(), "@0000001234 -25\n*0AFF;\n");
    assert_eq!(message.encode_simple(), "*0AFF;\n");
}

#[test]
fn avr_prefix_line_holds_timestamp_and_signal_level() {
    let message = AvrMessage { timestamp: 0x1234, signal_level: -25, data: vec![0x0A, 0xFF] };
    let encoded = message.encode();
    assert!(encoded.starts_with("@0000001234 -25\n"));
    assert!(encoded.ends_with("*0AFF;\n"));
}
