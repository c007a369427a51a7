use adsb_demod::tracker::{CprFrame, Tracker};

const SEC: u128 = 1_000_000_000;

fn frame(odd: bool, lat: u32) -> CprFrame {
    CprFrame {
        type_code: 11,
        surveillance_status: 0,
        saf_or_imf: 0,
        altitude: Some(38000),
        utc_sync: false,
        odd,
        lat_cpr: lat,
        lon_cpr: lat + 1,
    }
}

#[test]
fn tracker_registers_on_identification() {
    let mut t: Tracker<(i64, i64), i32> = Tracker::new();
    t.aircraft_identification_received(0x40621D, "EZY123".to_string(), 3, 5 * SEC);
    let rec = &t.register()[&0x40621D];
    assert_eq!(rec.icao, 0x40621D);
    assert_eq!(rec.callsign.as_deref(), Some("EZY123"));
    assert_eq!(rec.emitter_category, Some(3));
    assert_eq!(rec.last_seen, 5 * SEC);
    assert!(rec.positions.is_empty());
}

#[test]
fn tracker_pairs_even_and_odd_frames() {
    let mut t: Tracker<(i64, i64), i32> = Tracker::new();
    assert_eq!(t.airborne_position_received(1, frame(false, 10), 100 * SEC), None);
    let pair = t.airborne_position_received(1, frame(true, 20), 101 * SEC);
    assert_eq!(pair, Some((frame(false, 10), frame(true, 20))));
    let pair = t.airborne_position_received(1, frame(false, 30), 102 * SEC);
    assert_eq!(pair, Some((frame(true, 20), frame(false, 30))));
    t.position_decoded(1, (51_000_000, -1_000_000), 102 * SEC);
    let rec = &t.register()[&1];
    assert_eq!(rec.positions.len(), 1);
    assert_eq!(rec.positions[0].position, (51_000_000, -1_000_000));
    assert_eq!(rec.positions[0].time, 102 * SEC);
    assert_eq!(rec.last_cpr_even.unwrap().cpr_frame, frame(false, 30));
    assert_eq!(rec.last_cpr_odd.unwrap().cpr_frame, frame(true, 20));
}

#[test]
fn tracker_same_time_puts_odd_first() {
    let mut t: Tracker<(), ()> = Tracker::new();
    t.airborne_position_received(7, frame(false, 1), SEC);
    let pair = t.airborne_position_received(7, frame(true, 2), SEC);
    assert_eq!(pair, Some((frame(true, 2), frame(false, 1))));
}

#[test]
fn tracker_stale_frame_is_not_paired() {
    let mut t: Tracker<(), ()> = Tracker::new();
    t.airborne_position_received(7, frame(false, 1), 100 * SEC);
    let pair = t.airborne_position_received(7, frame(true, 2), 111 * SEC);
    assert_eq!(pair, None);
    let pair = t.airborne_position_received(7, frame(false, 3), 115 * SEC);
    assert_eq!(pair, Some((frame(true, 2), frame(false, 3))));
}

#[test]
fn tracker_frame_is_recent_for_less_than_ten_seconds() {
    let mut t: Tracker<(), ()> = Tracker::new();
    t.airborne_position_received(7, frame(false, 1), 100 * SEC);
    let pair = t.airborne_position_received(7, frame(true, 2), 110 * SEC - 1);
    assert_eq!(pair, Some((frame(false, 1), frame(true, 2))));
    let mut t: Tracker<(), ()> = Tracker::new();
    t.airborne_position_received(7, frame(false, 1), 100 * SEC);
    let pair = t.airborne_position_received(7, frame(true, 2), 110 * SEC);
    assert_eq!(pair, None);
}

#[test]
fn tracker_frame_stamped_later_than_now_is_recent() {
    let mut t: Tracker<(), ()> = Tracker::new();
    t.airborne_position_received(7, frame(false, 1), 100 * SEC);
    let pair = t.airborne_position_received(7, frame(true, 2), 80 * SEC);
    assert_eq!(pair, Some((frame(true, 2), frame(false, 1))));
}

#[test]
fn tracker_position_for_unknown_aircraft_is_ignored() {
    let mut t: Tracker<u8, u8> = Tracker::new();
    t.position_decoded(9, 1, SEC);
    assert!(t.register().is_empty());
}

#[test]
fn tracker_velocities() {
    let mut t: Tracker<(), i32> = Tracker::new();
    t.airborne_velocity_received(3, Some(450), 2 * SEC);
    t.airborne_velocity_received(3, None, 3 * SEC);
    let rec = &t.register()[&3];
    assert_eq!(rec.velocities.len(), 1);
    assert_eq!(rec.velocities[0].velocity, 450);
    assert_eq!(rec.last_seen, 3 * SEC);
}

#[test]
fn tracker_prunes_stale_aircraft() {
    let mut t: Tracker<(), ()> = Tracker::with_pruning(60 * SEC);
    t.aircraft_identification_received(1, "OLD".to_string(), 0, 10 * SEC);
    t.aircraft_identification_received(2, "NEW".to_string(), 0, 50 * SEC);
    t.aircraft_identification_received(3, "EDGE".to_string(), 0, 40 * SEC);
    t.prune_records(100 * SEC);
    let mut left: Vec<u32> = t.register().keys().copied().collect();
    left.sort();
    assert_eq!(left, vec![2, 3]);
}

#[test]
fn tracker_without_pruning_keeps_all() {
    let mut t: Tracker<(), ()> = Tracker::new();
    t.aircraft_identification_received(1, "A".to_string(), 0, 0);
    t.prune_records(u128::MAX);
    assert_eq!(t.register().len(), 1);
    assert_eq!(t.prune_after(), None);
}

#[test]
fn tracker_register_aircraft_resets_and_last_seen() {
    let mut t: Tracker<(), ()> = Tracker::new();
    t.aircraft_identification_received(1, "A".to_string(), 2, SEC);
    t.update_last_seen(1, 9 * SEC);
    assert_eq!(t.register()[&1].last_seen, 9 * SEC);
    t.register_aircraft(1, 10 * SEC);
    assert_eq!(t.register()[&1].callsign, None);
    assert_eq!(t.register()[&1].last_seen, 10 * SEC);
    t.update_last_seen(2, 11 * SEC);
    assert!(!t.register().contains_key(&2));
}
