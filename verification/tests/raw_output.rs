use adsb_demod::avr_output::AvrMessage;
use adsb_demod::metadata::DecoderMetaData;
use adsb_demod::raw_output::RawMessage;
use std::time::{SystemTime, UNIX_EPOCH};

fn metadata(preamble_index: usize, correlation: f32, crc_passed: bool) -> DecoderMetaData {
    let since = SystemTime::now().duration_since(UNIX_EPOCH).unwrap_or_default();
    DecoderMetaData {
        preamble_index,
        preamble_correlation_milli: (correlation as f64 * 1000.0).trunc() as i64,
        crc_passed,
        timestamp_secs: since.as_secs(),
        timestamp_subsec_micros: since.subsec_micros(),
    }
}

#[test]
fn test_raw_message_encoding() {
    let data = vec![0x8D, 0x40, 0x62, 0x1D, 0x58, 0x41, 0x38, 0x80, 0x2C, 0x8F, 0x7E, 0x4D, 0x0C, 0x3C];
    let metadata = metadata(12345, 15.5, true);

    let message = RawMessage::from_adsb_packet(&data, &metadata);
    let encoded = message.encode();

    assert_eq!(encoded, "*8D40621D5841382C8F7E4D0C3C;\n");
}

#[test]
fn test_raw_format_simple() {
    let data = vec![0x8D, 0x45, 0x1E, 0x8B];
    let metadata = metadata(0, 25.0, true);

    let message = RawMessage::from_adsb_packet(&data, &metadata);
    let encoded = message.encode();

    assert_eq!(encoded, "*8D451E8B;\n");
}

#[test]
fn test_raw_message_no_metadata_dependency() {
    let data = vec![0xAB, 0xCD];
    let metadata = metadata(999999, 0.0, false);

    let message = RawMessage::from_adsb_packet(&data, &metadata);
    let encoded = message.encode();

    assert_eq!(encoded, "*ABCD;\n");
}

#[test]
fn raw_matches_avr_simple_format() {
    let data = [0x00, 0x0F, 0xF0, 0xFF];
    let md = metadata(1, 3.0, true);
    let raw = RawMessage::from_adsb_packet(&data, &md).encode();
    let avr = AvrMessage::from_adsb_packet(&data, &md).encode_simple();
    assert_eq!(raw, "*000FF0FF;\n");
    assert_eq!(raw, avr);
}

#[test]
fn raw_empty_packet() {
    let md = metadata(0, 0.0, true);
    assert_eq!(RawMessage::from_adsb_packet(&[], &md).encode(), "*;\n");
}

#[test]
fn raw_text_reads_back_when_no_byte_is_omitted() {
    let data = [0x00u8, 0x7F, 0x81, 0xFF, 0x1A];
    let md = metadata(0, 0.0, true);
    let text = RawMessage::from_adsb_packet(&data, &md).encode();
    assert_eq!(text, "*007F81FF1A;\n");
    let hex = &text[1..text.len() - 2];
    let back: Vec<u8> = (0..hex.len() / 2).map(|i| u8::from_str_radix(&hex[2 * i..2 * i + 2], 16).unwrap()).collect();
    assert_eq!(back, data.to_vec());
}

#[test]
fn raw_omits_0x80_bytes() {
    let md = metadata(0, 0.0, true);
    assert_eq!(RawMessage::from_adsb_packet(&[0x80, 0x80], &md).encode(), "*;\n");
    assert_eq!(RawMessage::from_adsb_packet(&[0x12, 0x80, 0x34], &md).encode(), "*1234;\n");
}
