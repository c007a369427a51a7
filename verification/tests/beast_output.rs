use adsb_demod::beast_output::{BeastMessage, BeastMessageType, BEAST_ESCAPE};
use adsb_demod::metadata::DecoderMetaData;

#[test]
fn test_beast_message_encoding() {
    let data = vec![0x8D, 0x40, 0x62, 0x1D, 0x58, 0x41, 0x38, 0x80, 0x2C, 0x8F, 0x7E, 0x4D, 0x0C, 0x3C];
    let message = BeastMessage {
        message_type: BeastMessageType::ModeSLong,
        timestamp: 0x123456789ABC,
        signal_strength: 42,
        data,
    };

    let encoded = message.encode();

    assert_eq!(encoded[0], BEAST_ESCAPE);
    assert_eq!(encoded[1], BeastMessageType::ModeSLong.code());

    assert!(encoded.len() > 8);
}

#[test]
fn test_escape_character_handling() {
    let message = BeastMessage {
        message_type: BeastMessageType::ModeS,
        timestamp: 0x1A1A1A1A1A1A,
        signal_strength: BEAST_ESCAPE,
        data: vec![BEAST_ESCAPE, 0x42, BEAST_ESCAPE],
    };

    let encoded = message.encode();

    let escape_count = encoded.iter().filter(|&&b| b == BEAST_ESCAPE).count();

    assert!(escape_count > 4);
}

#[test]
fn beast_exact_frame() {
    let message = BeastMessage {
        message_type: BeastMessageType::ModeSLong,
        timestamp: 0x123456789ABC,
        signal_strength: 42,
        data: vec![0x8D, 0x40],
    };
    assert_eq!(
        message.encode(),
        vec![0x1A, 0x32, 0x12, 0x34, 0x56, 0x78, 0x9A, 0xBC, 42, 0x8D, 0x40]
    );
}

#[test]
fn beast_escapes_are_doubled() {
    let message = BeastMessage {
        message_type: BeastMessageType::ModeS,
        timestamp: 0x1A1A1A1A1A1A,
        signal_strength: BEAST_ESCAPE,
        data: vec![BEAST_ESCAPE, 0x42, BEAST_ESCAPE],
    };
    let encoded = message.encode();
    let mut expected = vec![0x1A, 0x31];
    expected.extend(std::iter::repeat(0x1A).take(12));
    expected.extend([0x1A, 0x1A, 0x1A, 0x1A, 0x42, 0x1A, 0x1A]);
    assert_eq!(encoded, expected);
}

#[test]
fn beast_frame_decodes_back() {
    let message = BeastMessage {
        message_type: BeastMessageType::ModeSLong,
        timestamp: 0x00FF_1A00_1A1A,
        signal_strength: 0x1A,
        data: vec![0x1A, 0x00, 0x1A, 0x1A, 0xFF],
    };
    let encoded = message.encode();
    let mut body = Vec::new();
    let mut i = 2;
    while i < encoded.len() {
        if encoded[i] == BEAST_ESCAPE && i + 1 < encoded.len() && encoded[i + 1] == BEAST_ESCAPE {
            body.push(BEAST_ESCAPE);
            i += 2;
        } else {
            body.push(encoded[i]);
            i += 1;
        }
    }
    let mut expected = vec![0x00, 0xFF, 0x1A, 0x00, 0x1A, 0x1A];
    expected.push(0x1A);
    expected.extend([0x1A, 0x00, 0x1A, 0x1A, 0xFF]);
    assert_eq!(body, expected);
}

#[test]
fn beast_type_codes() {
    assert_eq!(BeastMessageType::ModeS.code(), 0x31);
    assert_eq!(BeastMessageType::ModeSLong.code(), 0x32);
    assert_eq!(BeastMessageType::Status.code(), 0x34);
}

#[test]
fn beast_from_packet_fields() {
    let md = DecoderMetaData {
        preamble_index: 7,
        preamble_correlation_milli: 15_500,
        crc_passed: true,
        timestamp_secs: 2,
        timestamp_subsec_micros: 5,
    };
    let short = BeastMessage::from_adsb_packet(&[1, 2, 3, 4, 5, 6, 7], &md);
    assert!(matches!(short.message_type, BeastMessageType::ModeS));
    assert_eq!(short.timestamp, 2_000_005);
    assert_eq!(short.signal_strength, 15);
    assert_eq!(short.data, vec![1, 2, 3, 4, 5, 6, 7]);
    let long = BeastMessage::from_adsb_packet(&[0; 8], &md);
    assert!(matches!(long.message_type, BeastMessageType::ModeSLong));
}

#[test]
fn beast_signal_strength_clamps() {
    let strength = |milli: i64| {
        let md = DecoderMetaData {
            preamble_index: 0,
            preamble_correlation_milli: milli,
            crc_passed: true,
            timestamp_secs: 0,
            timestamp_subsec_micros: 0,
        };
        BeastMessage::from_adsb_packet(&[], &md).signal_strength
    };
    assert_eq!(strength(-1), 0);
    assert_eq!(strength(999), 0);
    assert_eq!(strength(255_999), 255);
    assert_eq!(strength(300_000), 255);
}

#[test]
fn beast_timestamp_wraps_to_u64() {
    let md = DecoderMetaData {
        preamble_index: 0,
        preamble_correlation_milli: 0,
        crc_passed: true,
        timestamp_secs: u64::MAX,
        timestamp_subsec_micros: 0,
    };
    let m = BeastMessage::from_adsb_packet(&[], &md);
    let expected = ((u64::MAX as u128) * 1_000_000) as u64;
    assert_eq!(m.timestamp, expected);
}
