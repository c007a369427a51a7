//! SBS-1/BaseStation CSV lines, as served on port 30004:
//! `MSG,{transmission_type},{session_id},{aircraft_id},{hex_ident},{flight_id},
//! {date_generated},{time_generated},{date_logged},{time_logged},{callsign},
//! {altitude},{ground_speed},{track},{lat},{lon},{vertical_rate},{squawk},
//! {alert},{emergency},{spi},{is_on_ground}` ended by CR LF.

use vstd::prelude::*;
use crate::output_module::OutputModuleBuilder;
use vstd::string::StringExecFns;
use crate::metadata::DecoderMetaData;
use crate::text::{
    dec_digit, dec_fixed, dec_int, dec_len, dec_nat, dec_padded, fixed_point, hex_byte, hex_bytes, push_dec_int, push_dec_nat,
    push_dec_padded, push_fixed_point, push_hex_bytes,
};

verus! {

/// An SBS-1/BaseStation format message containing ADS-B data.
///
/// Ground speed and track are held in tenths (of a knot, of a degree) and
/// latitude and longitude in millionths of a degree: the precision in which
/// the line prints them.
#[derive(Debug, Clone)]
pub struct Sbs1Message {
    pub message_type: u8,
    pub transmission_type: u8,
    pub session_id: u32,
    pub aircraft_id: u32,
    pub hex_ident: String,
    pub flight_id: u32,
    pub date_generated: String,
    pub time_generated: String,
    pub date_logged: String,
    pub time_logged: String,
    pub callsign: Option<String>,
    pub altitude: Option<i32>,
    /// Ground speed in tenths of a knot.
    pub ground_speed: Option<i64>,
    /// Track in tenths of a degree.
    pub track: Option<i64>,
    /// Latitude in millionths of a degree.
    pub latitude: Option<i64>,
    /// Longitude in millionths of a degree.
    pub longitude: Option<i64>,
    pub vertical_rate: Option<i16>,
    pub squawk: Option<u16>,
    pub alert: bool,
    pub emergency: bool,
    pub spi: bool,
    pub is_on_ground: bool,
}

/// The chrono pattern of the date fields.
pub open spec fn date_pattern() -> Seq<char> {
    "%Y/%m/%d"@
}

/// The chrono pattern of the time fields.
pub open spec fn time_pattern() -> Seq<char> {
    "%H:%M:%S.%3f"@
}

/// The time of day, in UTC, `secs` seconds after the Unix epoch, as the
/// pattern `%H:%M:%S.%3f` renders a whole second: two digits each of hour,
/// minute and second, then `.000`.
pub open spec fn time_of_day_text(secs: int) -> Seq<char> {
    let d = secs % 86400;
    dec_fixed((d / 3600) as nat, 2) + seq![':'] + dec_fixed(((d % 3600) / 60) as nat, 2) + seq![':']
        + dec_fixed((d % 60) as nat, 2) + ".000"@
}

/// The date of the Unix epoch as the pattern `%Y/%m/%d` renders it.
pub open spec fn epoch_date_text() -> Seq<char> {
    "1970/01/01"@
}

/// What chrono renders for the UTC time `secs` seconds after the Unix epoch
/// with the strftime `pattern`; `None` where `DateTime::from_timestamp`
/// gives no time for `secs`.
pub uninterp spec fn utc_text(secs: i64, pattern: Seq<char>) -> Option<Seq<char>>;

/// Calls chrono's `DateTime::<Utc>::from_timestamp(secs, 0)` and, when that
/// gives a time, its `format(pattern)`. The text is named by `utc_text`, a
/// function of the two arguments alone. The time of day is stated in full
/// (chrono takes it from `secs` modulo one day, rounding down); the date is
/// stated only for the Unix epoch, which is always in range. Which `secs`
/// chrono has no time for is not stated. The patterns are limited to the two
/// this crate uses, since chrono panics when rendering an invalid pattern.
#[verifier::external_body]
fn format_utc(secs: i64, pattern: &str) -> (r: Option<String>)
    requires
        pattern@ == date_pattern() || pattern@ == time_pattern(),
    ensures
        match r {
            Some(s) => utc_text(secs, pattern@) == Some(s@),
            None => utc_text(secs, pattern@) is None,
        },
        secs == 0 ==> r is Some,
        pattern@ == time_pattern() ==> (r matches Some(t) ==> t@ == time_of_day_text(secs as int)),
        pattern@ == date_pattern() && secs == 0 ==> (r matches Some(t) ==> t@ == epoch_date_text()),
{
    match chrono::DateTime::from_timestamp(secs, 0) {
        Some(dt) => Some(dt.format(pattern).to_string()),
        None => None,
    }
}

/// The UTC rendering of `secs`, or of the Unix epoch where chrono has no
/// time for `secs`.
pub open spec fn utc_text_or_epoch(secs: i64, pattern: Seq<char>) -> Seq<char> {
    match utc_text(secs, pattern) {
        Some(t) => t,
        None => utc_text(0, pattern).unwrap(),
    }
}

fn format_utc_or_epoch(secs: i64, pattern: &str) -> (r: String)
    requires
        pattern@ == date_pattern() || pattern@ == time_pattern(),
    ensures
        r@ == utc_text_or_epoch(secs, pattern@),
        pattern@ == time_pattern() ==> r@ == time_of_day_text(
            if utc_text(secs, pattern@) is Some { secs as int } else { 0 },
        ),
        pattern@ == date_pattern() && utc_text(secs, pattern@) is None ==> r@ == epoch_date_text(),
{
    match format_utc(secs, pattern) {
        Some(s) => s,
        None => match format_utc(0, pattern) {
            Some(s) => s,
            None => String::new(),
        },
    }
}

/// The ADS-B type code: the top five bits of the fifth byte.
pub open spec fn type_code(data: Seq<u8>) -> u8 {
    (data[4] >> 3u8) & 0x1Fu8
}

/// The SBS-1 message type that a type code is reported as: 1 for aircraft
/// identification, 3 for airborne position, 4 for airborne velocity, 5 for
/// anything else.
pub open spec fn sbs1_kind(tc: u8) -> u8 {
    if 1 <= tc <= 4 {
        1
    } else if 9 <= tc <= 18 {
        3
    } else if tc == 19 {
        4
    } else {
        5
    }
}

/// The type code of a packet is its fifth byte divided by eight.
pub proof fn law_type_code_is_fifth_byte_over_eight(data: Seq<u8>)
    requires
        data.len() >= 5,
    ensures
        type_code(data) == data[4] / 8,
{
    let b = data[4];
    assert((b >> 3u8) & 0x1Fu8 == b / 8) by (bit_vector);
}

/// The SBS-1 message type follows the ADS-B type code class: type codes 1
/// to 4 (identification) give MSG,1; 9 to 18 (airborne position with
/// barometric altitude) give MSG,3; 19 (airborne velocity) gives MSG,4;
/// every other code, 0, 5 to 8 and 20 to 31 among them, gives MSG,5.
pub proof fn law_sbs1_type_by_type_code(tc: u8)
    ensures
        1 <= tc <= 4 <==> sbs1_kind(tc) == 1,
        9 <= tc <= 18 <==> sbs1_kind(tc) == 3,
        tc == 19 <==> sbs1_kind(tc) == 4,
        sbs1_kind(tc) == 5 <==> !(1 <= tc <= 4 || 9 <= tc <= 19),
        sbs1_kind(12) == 3 && sbs1_kind(0) == 5 && sbs1_kind(22) == 5,
{
}

/// The fields of a line, in order; absent values are empty.
pub open spec fn sbs1_fields(m: Sbs1Message) -> Seq<Seq<char>> {
    seq![
        "MSG"@,
        dec_nat(m.transmission_type as nat),
        dec_nat(m.session_id as nat),
        dec_nat(m.aircraft_id as nat),
        m.hex_ident@,
        dec_nat(m.flight_id as nat),
        m.date_generated@,
        m.time_generated@,
        m.date_logged@,
        m.time_logged@,
        opt_text(&m.callsign),
        match m.altitude { Some(a) => dec_int(a as int), None => Seq::empty() },
        opt_fixed(m.ground_speed, 1),
        opt_fixed(m.track, 1),
        opt_fixed(m.latitude, 6),
        opt_fixed(m.longitude, 6),
        match m.vertical_rate { Some(v) => dec_int(v as int), None => Seq::empty() },
        match m.squawk { Some(s) => dec_padded(s as nat, 4), None => Seq::empty() },
        flag(m.alert),
        flag(m.emergency),
        flag(m.spi),
        flag(m.is_on_ground),
    ]
}

/// `1` for true, `0` for false.
pub open spec fn flag(b: bool) -> Seq<char> {
    if b {
        seq!['1']
    } else {
        seq!['0']
    }
}

/// The fields separated by commas.
pub open spec fn join_fields(fields: Seq<Seq<char>>) -> Seq<char>
    decreases fields.len(),
{
    if fields.len() == 0 {
        Seq::empty()
    } else if fields.len() == 1 {
        fields[0]
    } else {
        join_fields(fields.drop_last()) + seq![','] + fields.last()
    }
}

/// The complete line: the fields joined by commas, then CR LF.
pub open spec fn sbs1_line(m: Sbs1Message) -> Seq<char> {
    join_fields(sbs1_fields(m)) + seq!['\r', '\n']
}

proof fn lemma_join_push(fields: Seq<Seq<char>>, f: Seq<char>)
    requires
        fields.len() >= 1,
    ensures
        join_fields(fields.push(f)) == join_fields(fields) + seq![','] + f,
{
    assert(fields.push(f).drop_last() =~= fields);
}

/// The pieces of a text between its commas, as a CSV reader splits a line.
pub open spec fn split_commas(s: Seq<char>) -> Seq<Seq<char>>
    decreases s.len(),
{
    if s.len() == 0 {
        seq![Seq::empty()]
    } else if s.last() == ',' {
        split_commas(s.drop_last()).push(Seq::empty())
    } else {
        let parts = split_commas(s.drop_last());
        parts.update(parts.len() - 1, parts.last().push(s.last()))
    }
}

proof fn lemma_split_nonempty(s: Seq<char>)
    ensures
        split_commas(s).len() >= 1,
    decreases s.len(),
{
    if s.len() > 0 {
        lemma_split_nonempty(s.drop_last());
    }
}

/// Appending comma-free text extends the last piece.
proof fn lemma_split_append(s: Seq<char>, t: Seq<char>)
    requires
        !t.contains(','),
    ensures
        split_commas(s + t) == split_commas(s).update(
            split_commas(s).len() - 1,
            split_commas(s).last() + t,
        ),
    decreases t.len(),
{
    lemma_split_nonempty(s);
    if t.len() == 0 {
        assert(s + t =~= s);
        assert(split_commas(s).last() + t =~= split_commas(s).last());
        assert(split_commas(s).update(split_commas(s).len() - 1, split_commas(s).last())
            =~= split_commas(s));
    } else {
        let t0 = t.drop_last();
        let c = t.last();
        assert(!t0.contains(',')) by {
            if t0.contains(',') {
                let i = choose|i: int| 0 <= i < t0.len() && t0[i] == ',';
                assert(t[i] == ',');
            }
        }
        assert(c != ',') by {
            assert(t[t.len() - 1] == c);
        }
        lemma_split_append(s, t0);
        assert((s + t).drop_last() =~= s + t0);
        assert((s + t).last() == c);
        lemma_split_nonempty(s + t0);
        let parts = split_commas(s + t0);
        assert(split_commas(s + t) == parts.update(parts.len() - 1, parts.last().push(c)));
        assert(parts.last() == split_commas(s).last() + t0);
        assert(split_commas(s).last() + t0 + seq![c] =~= split_commas(s).last() + t);
        assert(parts.last().push(c) =~= split_commas(s).last() + t);
        assert(split_commas(s + t) =~= split_commas(s).update(
            split_commas(s).len() - 1,
            split_commas(s).last() + t,
        ));
    }
}

/// Splitting joined comma-free fields at the commas gives the fields back.
pub proof fn lemma_split_join(fs: Seq<Seq<char>>)
    requires
        fs.len() >= 1,
        forall|i: int| 0 <= i < fs.len() ==> !(#[trigger] fs[i]).contains(','),
    ensures
        split_commas(join_fields(fs)) == fs,
    decreases fs.len(),
{
    if fs.len() == 1 {
        lemma_split_append(Seq::empty(), fs[0]);
        assert(Seq::<char>::empty() + fs[0] =~= fs[0]);
        assert(split_commas(Seq::<char>::empty()).update(0, Seq::<char>::empty() + fs[0]) =~= fs);
    } else {
        let init = fs.drop_last();
        assert forall|i: int| 0 <= i < init.len() implies !(#[trigger] init[i]).contains(',') by {
            assert(init[i] == fs[i]);
        }
        lemma_split_join(init);
        let head = join_fields(init) + seq![','];
        assert(head.drop_last() =~= join_fields(init));
        assert(split_commas(head) == split_commas(join_fields(init)).push(Seq::empty()));
        assert(!fs.last().contains(',')) by {
            assert(fs[fs.len() - 1] == fs.last());
        }
        lemma_split_append(head, fs.last());
        assert(Seq::<char>::empty() + fs.last() =~= fs.last());
        assert(split_commas(head).update(split_commas(head).len() - 1, Seq::<char>::empty() + fs.last())
            =~= fs);
    }
}

/// The characters of `dec_fixed` are decimal digits.
proof fn lemma_dec_fixed_digits(n: nat, k: nat)
    ensures
        !dec_fixed(n, k).contains(','),
    decreases k,
{
    if k > 0 {
        lemma_dec_fixed_digits(n / 10, (k - 1) as nat);
        let d = dec_fixed(n, k);
        assert(d == dec_fixed(n / 10, (k - 1) as nat).push(dec_digit((n % 10) as int)));
        if d.contains(',') {
            let i = choose|i: int| 0 <= i < d.len() && d[i] == ',';
            if i < d.len() - 1 {
                assert(dec_fixed(n / 10, (k - 1) as nat)[i] == ',');
            }
        }
    }
}

proof fn lemma_no_comma_concat(a: Seq<char>, b: Seq<char>)
    requires
        !a.contains(','),
        !b.contains(','),
    ensures
        !(a + b).contains(','),
{
    if (a + b).contains(',') {
        let i = choose|i: int| 0 <= i < (a + b).len() && (a + b)[i] == ',';
        if i < a.len() {
            assert(a[i] == ',');
        } else {
            assert(b[i - a.len()] == ',');
        }
    }
}

proof fn lemma_numbers_no_comma(v: int, places: nat, n: nat, width: nat)
    ensures
        !dec_nat(n).contains(','),
        !dec_int(v).contains(','),
        !fixed_point(v, places).contains(','),
        !dec_padded(n, width).contains(','),
{
    lemma_dec_fixed_digits(n, dec_len(n));
    lemma_dec_fixed_digits(n, if dec_len(n) < width { width } else { dec_len(n) });
    let m: nat = if v < 0 { (-v) as nat } else { v as nat };
    lemma_dec_fixed_digits(m, dec_len(m));
    assert(!seq!['-'].contains(',')) by {
        if seq!['-'].contains(',') {
            let i = choose|i: int| 0 <= i < 1 && seq!['-'][i] == ',';
        }
    }
    assert(!seq!['.'].contains(',')) by {
        if seq!['.'].contains(',') {
            let i = choose|i: int| 0 <= i < 1 && seq!['.'][i] == ',';
        }
    }
    assert(!Seq::<char>::empty().contains(','));
    lemma_no_comma_concat(seq!['-'], dec_nat(m));
    let unit = crate::text::pow10(places);
    lemma_dec_fixed_digits(m / unit, dec_len(m / unit));
    lemma_dec_fixed_digits(m % unit, places);
    let sign: Seq<char> = if v < 0 { seq!['-'] } else { Seq::empty() };
    lemma_no_comma_concat(sign, dec_nat(m / unit));
    lemma_no_comma_concat(sign + dec_nat(m / unit), seq!['.']);
    lemma_no_comma_concat(sign + dec_nat(m / unit) + seq!['.'], dec_fixed(m % unit, places));
}

/// An SBS-1 line is its fields joined by commas and ended by CR LF: when no
/// text field (hex ident, dates, times, callsign) holds a comma, splitting
/// the line before its CR LF at the commas gives back exactly the 22 fields.
pub proof fn law_sbs1_line_splits_into_fields(m: Sbs1Message)
    requires
        !m.hex_ident@.contains(','),
        !m.date_generated@.contains(','),
        !m.time_generated@.contains(','),
        !m.date_logged@.contains(','),
        !m.time_logged@.contains(','),
        !opt_text(&m.callsign).contains(','),
    ensures
        sbs1_fields(m).len() == 22,
        sbs1_line(m).len() >= 2,
        sbs1_line(m).subrange(sbs1_line(m).len() - 2, sbs1_line(m).len() as int) == seq!['\r', '\n'],
        split_commas(sbs1_line(m).subrange(0, sbs1_line(m).len() - 2)) == sbs1_fields(m),
{
    let fs = sbs1_fields(m);
    assert(!"MSG"@.contains(',')) by {
        reveal_strlit("MSG");
        if "MSG"@.contains(',') {
            let i = choose|i: int| 0 <= i < 3 && "MSG"@[i] == ',';
        }
    }
    lemma_numbers_no_comma(0, 1, m.transmission_type as nat, 0);
    lemma_numbers_no_comma(0, 1, m.session_id as nat, 0);
    lemma_numbers_no_comma(0, 1, m.aircraft_id as nat, 0);
    lemma_numbers_no_comma(0, 1, m.flight_id as nat, 0);
    match m.altitude {
        Some(a) => lemma_numbers_no_comma(a as int, 1, 0, 0),
        None => {},
    }
    match m.ground_speed {
        Some(g) => lemma_numbers_no_comma(g as int, 1, 0, 0),
        None => {},
    }
    match m.track {
        Some(g) => lemma_numbers_no_comma(g as int, 1, 0, 0),
        None => {},
    }
    match m.latitude {
        Some(g) => lemma_numbers_no_comma(g as int, 6, 0, 0),
        None => {},
    }
    match m.longitude {
        Some(g) => lemma_numbers_no_comma(g as int, 6, 0, 0),
        None => {},
    }
    match m.vertical_rate {
        Some(g) => lemma_numbers_no_comma(g as int, 1, 0, 0),
        None => {},
    }
    match m.squawk {
        Some(q) => lemma_numbers_no_comma(0, 1, q as nat, 4),
        None => {},
    }
    assert forall|b: bool| !(#[trigger] flag(b)).contains(',') by {
        if flag(b).contains(',') {
            let i = choose|i: int| 0 <= i < 1 && flag(b)[i] == ',';
        }
    }
    assert(!Seq::<char>::empty().contains(','));
    assert forall|i: int| 0 <= i < fs.len() implies !(#[trigger] fs[i]).contains(',') by {
        assert(!flag(m.alert).contains(','));
        assert(!flag(m.emergency).contains(','));
        assert(!flag(m.spi).contains(','));
        assert(!flag(m.is_on_ground).contains(','));
    }
    lemma_split_join(fs);
    let line = sbs1_line(m);
    assert(line.subrange(0, line.len() - 2) =~= join_fields(fs));
    assert(line.subrange(line.len() - 2, line.len() as int) =~= seq!['\r', '\n']);
}

impl Sbs1Message {
    /// An SBS-1 message for an ADS-B packet received at the given rendered
    /// date and time, or `None` for a packet shorter than 14 bytes. The
    /// message type follows the type code, the ICAO address of bytes 1 to 3
    /// becomes the hex ident, and no optional field is set.
    pub fn from_adsb_packet_dated(data: &[u8], date: &str, time: &str) -> (r: Option<Self>)
        ensures
            r is Some <==> data@.len() >= 14,
            r matches Some(m) ==> {
                &&& m.message_type == sbs1_kind(type_code(data@))
                &&& m.transmission_type == sbs1_kind(type_code(data@))
                &&& 1 <= type_code(data@) <= 4 ==> m.transmission_type == 1
                &&& 9 <= type_code(data@) <= 18 ==> m.transmission_type == 3
                &&& type_code(data@) == 19 ==> m.transmission_type == 4
                &&& !(1 <= type_code(data@) <= 4 || 9 <= type_code(data@) <= 19) ==> m.transmission_type == 5
                &&& m.session_id == 1
                &&& m.aircraft_id == 1
                &&& m.flight_id == 1
                &&& m.hex_ident@ == hex_byte(data@[1]) + hex_byte(data@[2]) + hex_byte(data@[3])
                &&& m.date_generated@ == date@
                &&& m.time_generated@ == time@
                &&& m.date_logged@ == date@
                &&& m.time_logged@ == time@
                &&& m.callsign is None
                &&& m.altitude is None
                &&& m.ground_speed is None
                &&& m.track is None
                &&& m.latitude is None
                &&& m.longitude is None
                &&& m.vertical_rate is None
                &&& m.squawk is None
                &&& !m.alert
                &&& !m.emergency
                &&& !m.spi
                &&& !m.is_on_ground
            },
    {
        if data.len() < 14 {
            return None;
        }
        let mut icao = String::new();
        push_hex_bytes(&mut icao, &[data[1], data[2], data[3]]);
        proof {
            let s = seq![data@[1], data@[2], data@[3]];
            assert(s.drop_last().drop_last().drop_last() =~= Seq::<u8>::empty());
            assert(hex_bytes(s) =~= hex_byte(data@[1]) + hex_byte(data@[2]) + hex_byte(data@[3])) by {
                assert(s.drop_last() =~= seq![data@[1], data@[2]]);
                assert(s.drop_last().drop_last() =~= seq![data@[1]]);
                reveal_with_fuel(hex_bytes, 4);
            }
        }
        let tc: u8 = (data[4] >> 3u8) & 0x1Fu8;
        let kind: u8 = if 1 <= tc && tc <= 4 {
            1
        } else if 9 <= tc && tc <= 18 {
            3
        } else if tc == 19 {
            4
        } else {
            5
        };
        Some(Sbs1Message {
            message_type: kind,
            transmission_type: kind,
            session_id: 1,
            aircraft_id: 1,
            hex_ident: icao,
            flight_id: 1,
            date_generated: String::from_str(date),
            time_generated: String::from_str(time),
            date_logged: String::from_str(date),
            time_logged: String::from_str(time),
            callsign: None,
            altitude: None,
            ground_speed: None,
            track: None,
            latitude: None,
            longitude: None,
            vertical_rate: None,
            squawk: None,
            alert: false,
            emergency: false,
            spi: false,
            is_on_ground: false,
        })
    }

    /// Creates a new SBS-1 message from ADS-B packet bytes: as
    /// `from_adsb_packet_dated`, with the reception second rendered in UTC by
    /// chrono as `%Y/%m/%d` and `%H:%M:%S.%3f`.
    pub fn from_adsb_packet(data: &[u8], metadata: &DecoderMetaData) -> (r: Option<Self>)
        ensures
            r is Some <==> data@.len() >= 14,
            r matches Some(m) ==> {
                &&& m.date_generated@ == utc_text_or_epoch(metadata.timestamp_secs as i64, date_pattern())
                &&& m.time_generated@ == utc_text_or_epoch(metadata.timestamp_secs as i64, time_pattern())
                &&& m.time_generated@ == time_of_day_text(
                    if utc_text(metadata.timestamp_secs as i64, time_pattern()) is Some {
                        (metadata.timestamp_secs as i64) as int
                    } else {
                        0
                    },
                )
                &&& utc_text(metadata.timestamp_secs as i64, date_pattern()) is None ==> m.date_generated@
                    == epoch_date_text()
                &&& m.date_logged@ == m.date_generated@
                &&& m.time_logged@ == m.time_generated@
                &&& m.transmission_type == sbs1_kind(type_code(data@))
                &&& m.message_type == m.transmission_type
                &&& 1 <= type_code(data@) <= 4 ==> m.transmission_type == 1
                &&& 9 <= type_code(data@) <= 18 ==> m.transmission_type == 3
                &&& type_code(data@) == 19 ==> m.transmission_type == 4
                &&& !(1 <= type_code(data@) <= 4 || 9 <= type_code(data@) <= 19) ==> m.transmission_type == 5
                &&& m.hex_ident@ == hex_byte(data@[1]) + hex_byte(data@[2]) + hex_byte(data@[3])
                &&& m.session_id == 1 && m.aircraft_id == 1 && m.flight_id == 1
                &&& m.callsign is None && m.altitude is None && m.squawk is None
                &&& m.ground_speed is None && m.track is None && m.vertical_rate is None
                &&& m.latitude is None && m.longitude is None
                &&& !m.alert && !m.emergency && !m.spi && !m.is_on_ground
            },
    {
        if data.len() < 14 {
            return None;
        }
        let secs = metadata.timestamp_secs as i64;
        let date = format_utc_or_epoch(secs, "%Y/%m/%d");
        let time = format_utc_or_epoch(secs, "%H:%M:%S.%3f");
        Self::from_adsb_packet_dated(data, date.as_str(), time.as_str())
    }

    /// Set aircraft identification data
    pub fn with_identification(self, callsign: Option<String>) -> (m: Self)
        ensures
            m == (Sbs1Message { callsign, ..self }),
    {
        let mut m = self;
        m.callsign = callsign;
        m
    }

    /// Set position data (latitude and longitude in millionths of a degree)
    pub fn with_position(self, altitude: Option<i32>, latitude: Option<i64>, longitude: Option<i64>) -> (m: Self)
        ensures
            m == (Sbs1Message { altitude, latitude, longitude, ..self }),
    {
        let mut m = self;
        m.altitude = altitude;
        m.latitude = latitude;
        m.longitude = longitude;
        m
    }

    /// Set velocity data (ground speed and track in tenths)
    pub fn with_velocity(self, ground_speed: Option<i64>, track: Option<i64>, vertical_rate: Option<i16>) -> (m: Self)
        ensures
            m == (Sbs1Message { ground_speed, track, vertical_rate, ..self }),
    {
        let mut m = self;
        m.ground_speed = ground_speed;
        m.track = track;
        m.vertical_rate = vertical_rate;
        m
    }

    /// Set squawk data
    pub fn with_squawk(self, squawk: Option<u16>) -> (m: Self)
        ensures
            m == (Sbs1Message { squawk, ..self }),
    {
        let mut m = self;
        m.squawk = squawk;
        m
    }

    /// Encode the message in SBS-1 CSV format.
    #[verifier::rlimit(60)]
    #[verifier::spinoff_prover]
    pub fn encode(&self) -> (s: String)
        ensures
            s@ == sbs1_line(*self),
    {
        let mut s = String::new();
        s.append("MSG");
        let ghost mut fs: Seq<Seq<char>> = seq!["MSG"@];
        assert(s@ =~= join_fields(fs));
        push_nat_field(&mut s, Ghost(fs), self.transmission_type as u64);
        proof { fs = fs.push(dec_nat(self.transmission_type as nat)); }
        push_nat_field(&mut s, Ghost(fs), self.session_id as u64);
        proof { fs = fs.push(dec_nat(self.session_id as nat)); }
        push_nat_field(&mut s, Ghost(fs), self.aircraft_id as u64);
        proof { fs = fs.push(dec_nat(self.aircraft_id as nat)); }
        push_text_field(&mut s, Ghost(fs), self.hex_ident.as_str());
        proof { fs = fs.push(self.hex_ident@); }
        push_nat_field(&mut s, Ghost(fs), self.flight_id as u64);
        proof { fs = fs.push(dec_nat(self.flight_id as nat)); }
        push_text_field(&mut s, Ghost(fs), self.date_generated.as_str());
        proof { fs = fs.push(self.date_generated@); }
        push_text_field(&mut s, Ghost(fs), self.time_generated.as_str());
        proof { fs = fs.push(self.time_generated@); }
        push_text_field(&mut s, Ghost(fs), self.date_logged.as_str());
        proof { fs = fs.push(self.date_logged@); }
        push_text_field(&mut s, Ghost(fs), self.time_logged.as_str());
        proof { fs = fs.push(self.time_logged@); }
        push_opt_text_field(&mut s, Ghost(fs), &self.callsign);
        proof { fs = fs.push(opt_text(&self.callsign)); }
        push_opt_int_field(&mut s, Ghost(fs), match self.altitude { Some(a) => Some(a as i64), None => None });
        proof { fs = fs.push(match self.altitude { Some(a) => dec_int(a as int), None => Seq::empty() }); }
        push_opt_fixed_field(&mut s, Ghost(fs), self.ground_speed, 1);
        proof { fs = fs.push(opt_fixed(self.ground_speed, 1)); }
        push_opt_fixed_field(&mut s, Ghost(fs), self.track, 1);
        proof { fs = fs.push(opt_fixed(self.track, 1)); }
        push_opt_fixed_field(&mut s, Ghost(fs), self.latitude, 6);
        proof { fs = fs.push(opt_fixed(self.latitude, 6)); }
        push_opt_fixed_field(&mut s, Ghost(fs), self.longitude, 6);
        proof { fs = fs.push(opt_fixed(self.longitude, 6)); }
        push_opt_int_field(&mut s, Ghost(fs), match self.vertical_rate { Some(v) => Some(v as i64), None => None });
        proof { fs = fs.push(match self.vertical_rate { Some(v) => dec_int(v as int), None => Seq::empty() }); }
        push_opt_squawk_field(&mut s, Ghost(fs), self.squawk);
        proof { fs = fs.push(match self.squawk { Some(q) => dec_padded(q as nat, 4), None => Seq::empty() }); }
        push_flag_field(&mut s, Ghost(fs), self.alert);
        proof { fs = fs.push(flag(self.alert)); }
        push_flag_field(&mut s, Ghost(fs), self.emergency);
        proof { fs = fs.push(flag(self.emergency)); }
        push_flag_field(&mut s, Ghost(fs), self.spi);
        proof { fs = fs.push(flag(self.spi)); }
        push_flag_field(&mut s, Ghost(fs), self.is_on_ground);
        proof { fs = fs.push(flag(self.is_on_ground)); }
        s.push('\r');
        s.push('\n');
        assert(fs =~= sbs1_fields(*self));
        s
    }
}

/// The text of an optional text field.
pub open spec fn opt_text(t: &Option<String>) -> Seq<char> {
    match t {
        Some(c) => c@,
        None => Seq::empty(),
    }
}

/// The text of an optional fixed-point field.
pub open spec fn opt_fixed(v: Option<i64>, places: nat) -> Seq<char> {
    match v {
        Some(x) => fixed_point(x as int, places),
        None => Seq::empty(),
    }
}

fn push_text_field(s: &mut String, Ghost(fs): Ghost<Seq<Seq<char>>>, t: &str)
    requires
        old(s)@ == join_fields(fs),
        fs.len() >= 1,
    ensures
        final(s)@ == join_fields(fs.push(t@)),
{
    s.push(',');
    s.append(t);
    proof {
        lemma_join_push(fs, t@);
    }
    assert(s@ =~= join_fields(fs.push(t@)));
}

fn push_nat_field(s: &mut String, Ghost(fs): Ghost<Seq<Seq<char>>>, n: u64)
    requires
        old(s)@ == join_fields(fs),
        fs.len() >= 1,
    ensures
        final(s)@ == join_fields(fs.push(dec_nat(n as nat))),
{
    s.push(',');
    push_dec_nat(s, n);
    proof {
        lemma_join_push(fs, dec_nat(n as nat));
    }
    assert(s@ =~= join_fields(fs.push(dec_nat(n as nat))));
}

fn push_opt_text_field(s: &mut String, Ghost(fs): Ghost<Seq<Seq<char>>>, t: &Option<String>)
    requires
        old(s)@ == join_fields(fs),
        fs.len() >= 1,
    ensures
        final(s)@ == join_fields(fs.push(opt_text(t))),
{
    s.push(',');
    match t {
        Some(c) => s.append(c.as_str()),
        None => {},
    }
    proof {
        lemma_join_push(fs, opt_text(t));
    }
    assert(s@ =~= join_fields(fs.push(opt_text(t))));
}

fn push_opt_int_field(s: &mut String, Ghost(fs): Ghost<Seq<Seq<char>>>, v: Option<i64>)
    requires
        old(s)@ == join_fields(fs),
        fs.len() >= 1,
    ensures
        final(s)@ == join_fields(fs.push(match v { Some(x) => dec_int(x as int), None => Seq::empty() })),
{
    let ghost text = match v { Some(x) => dec_int(x as int), None => Seq::<char>::empty() };
    s.push(',');
    match v {
        Some(x) => push_dec_int(s, x),
        None => {},
    }
    proof {
        lemma_join_push(fs, text);
    }
    assert(s@ =~= join_fields(fs.push(text)));
}

fn push_opt_fixed_field(s: &mut String, Ghost(fs): Ghost<Seq<Seq<char>>>, v: Option<i64>, places: u32)
    requires
        old(s)@ == join_fields(fs),
        fs.len() >= 1,
        1 <= places <= 18,
    ensures
        final(s)@ == join_fields(fs.push(opt_fixed(v, places as nat))),
{
    s.push(',');
    match v {
        Some(x) => push_fixed_point(s, x, places),
        None => {},
    }
    proof {
        lemma_join_push(fs, opt_fixed(v, places as nat));
    }
    assert(s@ =~= join_fields(fs.push(opt_fixed(v, places as nat))));
}

fn push_opt_squawk_field(s: &mut String, Ghost(fs): Ghost<Seq<Seq<char>>>, v: Option<u16>)
    requires
        old(s)@ == join_fields(fs),
        fs.len() >= 1,
    ensures
        final(s)@ == join_fields(fs.push(match v { Some(q) => dec_padded(q as nat, 4), None => Seq::empty() })),
{
    let ghost text = match v { Some(q) => dec_padded(q as nat, 4), None => Seq::<char>::empty() };
    s.push(',');
    match v {
        Some(q) => push_dec_padded(s, q as u64, 4),
        None => {},
    }
    proof {
        lemma_join_push(fs, text);
    }
    assert(s@ =~= join_fields(fs.push(text)));
}

fn push_flag_field(s: &mut String, Ghost(fs): Ghost<Seq<Seq<char>>>, b: bool)
    requires
        old(s)@ == join_fields(fs),
        fs.len() >= 1,
    ensures
        final(s)@ == join_fields(fs.push(flag(b))),
{
    s.push(',');
    s.push(if b { '1' } else { '0' });
    proof {
        lemma_join_push(fs, flag(b));
    }
    assert(s@ =~= join_fields(fs.push(flag(b))));
}


/// Builder for SBS-1 output modules.
pub struct Sbs1OutputBuilder;

impl Sbs1OutputBuilder {
    pub fn new() -> (b: Self) {
        Sbs1OutputBuilder
    }
}

impl OutputModuleBuilder for Sbs1OutputBuilder {
    open spec fn spec_module_type(&self) -> Seq<char> {
        "sbs1"@
    }

    open spec fn spec_default_port(&self) -> u16 {
        30004
    }

    open spec fn spec_description(&self) -> Seq<char> {
        "SBS-1/BaseStation CSV format for port 30004 compatibility"@
    }

    fn module_type(&self) -> (r: &str) {
        "sbs1"
    }

    fn description(&self) -> (r: &str)
    {
        "SBS-1/BaseStation CSV format for port 30004 compatibility"
    }

    fn default_port(&self) -> (r: u16) {
        30004
    }
}

} // verus!
