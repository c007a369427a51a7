use adsb_demod::metadata::DecoderMetaData;
use adsb_demod::output_module::OutputModuleBuilder;
use adsb_demod::sbs1_output::{Sbs1Message, Sbs1OutputBuilder};
use std::time::{SystemTime, UNIX_EPOCH};

fn now_metadata() -> DecoderMetaData {
    let since = SystemTime::now().duration_since(UNIX_EPOCH).unwrap_or_default();
    DecoderMetaData {
        preamble_index: 12345,
        preamble_correlation_milli: 15_500,
        crc_passed: true,
        timestamp_secs: since.as_secs(),
        timestamp_subsec_micros: since.subsec_micros(),
    }
}

fn metadata_at(secs: u64) -> DecoderMetaData {
    DecoderMetaData {
        preamble_index: 0,
        preamble_correlation_milli: 0,
        crc_passed: true,
        timestamp_secs: secs,
        timestamp_subsec_micros: 123_456,
    }
}

fn sample() -> Sbs1Message {
    Sbs1Message {
        message_type: 3,
        transmission_type: 3,
        session_id: 1,
        aircraft_id: 1,
        hex_ident: "ABC123".to_string(),
        flight_id: 1,
        date_generated: "2024/01/01".to_string(),
        time_generated: "12:00:00.000".to_string(),
        date_logged: "2024/01/01".to_string(),
        time_logged: "12:00:00.000".to_string(),
        callsign: Some("TEST123".to_string()),
        altitude: Some(35000),
        ground_speed: Some(4505),
        track: Some(2700),
        latitude: Some(40_123_456),
        longitude: Some(-74_654_321),
        vertical_rate: Some(-800),
        squawk: Some(1200),
        alert: false,
        emergency: false,
        spi: false,
        is_on_ground: false,
    }
}

#[test]
fn test_sbs1_message_encoding() {
    let message = sample();

    let encoded = message.encode();
    assert!(encoded.starts_with("MSG,3,1,1,ABC123,1,2024/01/01,12:00:00.000,2024/01/01,12:00:00.000,TEST123,35000,450.5,270.0,40.123456,-74.654321,-800,1200,0,0,0,0"));
    assert!(encoded.ends_with("\r\n"));
}

#[test]
fn test_sbs1_message_from_adsb_packet() {
    let data = vec![0x8D, 0x40, 0x62, 0x1D, 0x58, 0x41, 0x38, 0x80, 0x2C, 0x8F, 0x7E, 0x4D, 0x0C, 0x3C];
    let metadata = now_metadata();

    let message = Sbs1Message::from_adsb_packet(&data, &metadata);
    assert!(message.is_some());

    let msg = message.unwrap();
    assert_eq!(msg.hex_ident, "40621D");
    assert_eq!(msg.transmission_type, 3);
}

#[test]
fn test_sbs1_identification_message() {
    let data = vec![0x8D, 0x40, 0x62, 0x1D, 0x20, 0x41, 0x38, 0x80, 0x2C, 0x8F, 0x7E, 0x4D, 0x0C, 0x3C];
    let metadata = now_metadata();

    let message = Sbs1Message::from_adsb_packet(&data, &metadata);
    assert!(message.is_some());

    let msg = message.unwrap();
    assert_eq!(msg.transmission_type, 1);
}

#[test]
fn sbs1_exact_line() {
    assert_eq!(
        sample().encode(),
        "MSG,3,1,1,ABC123,1,2024/01/01,12:00:00.000,2024/01/01,12:00:00.000,TEST123,35000,450.5,270.0,40.123456,-74.654321,-800,1200,0,0,0,0\r\n"
    );
}

#[test]
fn sbs1_empty_optionals_and_flags() {
    let mut m = sample()
        .with_identification(None)
        .with_position(None, None, None)
        .with_velocity(None, None, None)
        .with_squawk(Some(7));
    m.alert = true;
    m.spi = true;
    assert_eq!(
        m.encode(),
        "MSG,3,1,1,ABC123,1,2024/01/01,12:00:00.000,2024/01/01,12:00:00.000,,,,,,,,0007,1,0,1,0\r\n"
    );
}

#[test]
fn sbs1_fixed_point_rendering() {
    let m = sample()
        .with_velocity(Some(5), Some(-5), Some(i16::MIN))
        .with_position(Some(i32::MIN), Some(-1), Some(180_000_000));
    let line = m.encode();
    assert!(line.contains(",-2147483648,0.5,-0.5,-0.000001,180.000000,-32768,1200,"));
}

#[test]
fn sbs1_short_packet_gives_none() {
    let md = metadata_at(0);
    assert!(Sbs1Message::from_adsb_packet(&[0x8D; 13], &md).is_none());
    assert!(Sbs1Message::from_adsb_packet(&[], &md).is_none());
    assert!(Sbs1Message::from_adsb_packet(&[0x8D; 14], &md).is_some());
}

#[test]
fn sbs1_type_code_classes() {
    let md = metadata_at(0);
    let kind = |byte4: u8| {
        let mut data = [0u8; 14];
        data[4] = byte4;
        let m = Sbs1Message::from_adsb_packet(&data, &md).unwrap();
        assert_eq!(m.message_type, m.transmission_type);
        assert!(!m.is_on_ground);
        m.transmission_type
    };
    assert_eq!(kind(0 << 3), 5);
    assert_eq!(kind(1 << 3), 1);
    assert_eq!(kind(4 << 3), 1);
    assert_eq!(kind(5 << 3), 5);
    assert_eq!(kind(8 << 3), 5);
    assert_eq!(kind(9 << 3), 3);
    assert_eq!(kind(18 << 3), 3);
    assert_eq!(kind(19 << 3), 4);
    assert_eq!(kind(20 << 3), 5);
    assert_eq!(kind((31 << 3) | 7), 5);
}

#[test]
fn sbs1_dates_from_chrono() {
    let m = Sbs1Message::from_adsb_packet(&[0u8; 14], &metadata_at(0)).unwrap();
    assert_eq!(m.date_generated, "1970/01/01");
    assert_eq!(m.time_generated, "00:00:00.000");
    let m = Sbs1Message::from_adsb_packet(&[0u8; 14], &metadata_at(1_704_110_400)).unwrap();
    assert_eq!(m.date_generated, "2024/01/01");
    assert_eq!(m.time_generated, "12:00:00.000");
    assert_eq!(m.date_logged, m.date_generated);
    assert_eq!(m.time_logged, m.time_generated);
    let m = Sbs1Message::from_adsb_packet(&[0u8; 14], &metadata_at(86_399)).unwrap();
    assert_eq!(m.time_generated, "23:59:59.000");
}

#[test]
fn sbs1_out_of_range_time_falls_back_to_epoch() {
    let m = Sbs1Message::from_adsb_packet(&[0u8; 14], &metadata_at(u64::MAX / 2)).unwrap();
    assert_eq!(m.date_generated, "1970/01/01");
    assert_eq!(m.time_generated, "00:00:00.000");
}

#[test]
fn sbs1_dated_constructor() {
    let data = [0x8D, 0xAB, 0x00, 0x0F, 19 << 3, 0, 0, 0, 0, 0, 0, 0, 0, 0];
    let m = Sbs1Message::from_adsb_packet_dated(&data, "D", "T").unwrap();
    assert_eq!(m.hex_ident, "AB000F");
    assert_eq!(m.transmission_type, 4);
    assert_eq!(m.encode(), "MSG,4,1,1,AB000F,1,D,T,D,T,,,,,,,,,0,0,0,0\r\n");
}

#[test]
fn sbs1_builder_properties() {
    let b = Sbs1OutputBuilder::new();
    assert_eq!(b.module_type(), "sbs1");
    assert_eq!(b.default_port(), 30004);
    assert!(b.supports_format("SBS1"));
}

#[test]
fn sbs1_time_of_day_is_the_second_within_the_day() {
    let m = Sbs1Message::from_adsb_packet(&[0u8; 14], &metadata_at(1_700_000_000)).unwrap();
    assert_eq!(m.date_generated, "2023/11/14");
    assert_eq!(m.time_generated, "22:13:20.000");
    let m = Sbs1Message::from_adsb_packet(&[0u8; 14], &metadata_at(86_400 + 3_661)).unwrap();
    assert_eq!(m.date_generated, "1970/01/02");
    assert_eq!(m.time_generated, "01:01:01.000");
}
