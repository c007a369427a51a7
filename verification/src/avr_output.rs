//! AVR text format: a prefix line `@` with the timestamp in ten or more
//! upper-case hex digits, a space and the signal level, then the message as
//! `*{hex};`. The hex text leaves out every byte 0x80.

use vstd::prelude::*;
use crate::output_module::OutputModuleBuilder;
use crate::metadata::DecoderMetaData;
use crate::text::{
    dec_int, hex_byte, hex_bytes, hex_digit_char, hex_padded, push_dec_int, push_hex_padded,
};

verus! {

/// An AVR format message containing ADS-B data.
#[derive(Debug, Clone)]
pub struct AvrMessage {
    /// Seconds since the Unix epoch.
    pub timestamp: u64,
    /// Signal level in dBFS, from -50 to 0.
    pub signal_level: i32,
    pub data: Vec<u8>,
}

/// The signal level for a correlation given in thousandths: correlation 0 to
/// 50 maps onto -50 to 0 dBFS, the fraction dropped toward zero.
pub open spec fn avr_signal_level(correlation_milli: int) -> i32 {
    let clamped = if correlation_milli < 0 {
        0
    } else if correlation_milli > 50_000 {
        50_000
    } else {
        correlation_milli
    };
    (-((50_000 - clamped) / 1000)) as i32
}

/// The signal level lies between -50 and 0 dBFS; a correlation of 0 or less
/// gives -50 and one of 50 or more gives 0; in between, the level is the
/// correlation less 50, in whole units, the fraction dropped toward zero;
/// and a stronger correlation never gives a lower level.
pub proof fn law_signal_level_scale(c: int, d: int)
    ensures
        -50 <= avr_signal_level(c) <= 0,
        c <= 0 ==> avr_signal_level(c) == -50,
        c >= 50_000 ==> avr_signal_level(c) == 0,
        0 <= c <= 50_000 ==> c - 50_000 <= avr_signal_level(c) * 1000 < c - 50_000 + 1000,
        c <= d ==> avr_signal_level(c) <= avr_signal_level(d),
{
}

/// The byte that the hex text of a message leaves out.
pub const OMITTED_BYTE: u8 = 0x80;

/// The message bytes that the hex text shows: all but the bytes 0x80, in
/// order.
pub open spec fn shown_bytes(data: Seq<u8>) -> Seq<u8>
    decreases data.len(),
{
    if data.len() == 0 {
        Seq::empty()
    } else if data.last() == OMITTED_BYTE {
        shown_bytes(data.drop_last())
    } else {
        shown_bytes(data.drop_last()).push(data.last())
    }
}

/// `*{hex};` and a newline: the message in the simple format, its bytes
/// 0x80 left out.
pub open spec fn avr_simple_text(data: Seq<u8>) -> Seq<char> {
    seq!['*'] + hex_bytes(shown_bytes(data)) + seq![';', '\n']
}

/// The prefix line `@{:010X} {signal_level}` and a newline, then the simple
/// format.
pub open spec fn avr_text(timestamp: u64, signal_level: i32, data: Seq<u8>) -> Seq<char> {
    seq!['@'] + hex_padded(timestamp as nat, 10) + seq![' '] + dec_int(signal_level as int) + seq![
        '\n',
    ] + avr_simple_text(data)
}

impl AvrMessage {
    /// Creates a new AVR message from ADS-B packet bytes.
    pub fn from_adsb_packet(data: &[u8], metadata: &DecoderMetaData) -> (m: Self)
        ensures
            m.timestamp == metadata.timestamp_secs,
            m.signal_level == avr_signal_level(metadata.preamble_correlation_milli as int),
            -50 <= m.signal_level <= 0,
            m.data@ == data@,
    {
        let c = metadata.preamble_correlation_milli;
        let clamped: i64 = if c < 0 {
            0
        } else if c > 50_000 {
            50_000
        } else {
            c
        };
        let signal_level = -(((50_000 - clamped) / 1000) as i32);
        AvrMessage {
            timestamp: metadata.timestamp_secs,
            signal_level,
            data: vstd::slice::slice_to_vec(data),
        }
    }

    /// Encodes the message as `@{timestamp:010X} {signal_level}\n*{hex};\n`.
    pub fn encode(&self) -> (s: String)
        ensures
            s@ == avr_text(self.timestamp, self.signal_level, self.data@),
    {
        let mut s = String::new();
        s.push('@');
        push_hex_padded(&mut s, self.timestamp, 10);
        s.push(' ');
        push_dec_int(&mut s, self.signal_level as i64);
        s.push('\n');
        let ghost head = s@;
        let simple = simple_text(self.data.as_slice());
        s.append(simple.as_str());
        assert(s@ =~= avr_text(self.timestamp, self.signal_level, self.data@));
        s
    }

    /// Encodes the message in the simple format `*{hex};\n`.
    pub fn encode_simple(&self) -> (s: String)
        ensures
            s@ == avr_simple_text(self.data@),
    {
        simple_text(self.data.as_slice())
    }
}

/// `*{hex};\n` for `data`.
pub fn simple_text(data: &[u8]) -> (s: String)
    ensures
        s@ == avr_simple_text(data@),
{
    let mut s = String::new();
    s.push('*');
    let ghost start = s@;
    let mut i: usize = 0;
    while i < data.len()
        invariant
            i <= data.len(),
            s@ == start + hex_bytes(shown_bytes(data@.take(i as int))),
        decreases data.len() - i,
    {
        let b = data[i];
        let ghost before = s@;
        proof {
            assert(data@.take(i + 1).drop_last() =~= data@.take(i as int));
            assert(data@.take(i + 1).last() == b);
        }
        if b != OMITTED_BYTE {
            s.push(hex_digit_char(b / 16));
            s.push(hex_digit_char(b % 16));
            proof {
                lemma_hex_bytes_push(shown_bytes(data@.take(i as int)), b);
                assert(shown_bytes(data@.take(i + 1)) == shown_bytes(data@.take(i as int)).push(b));
            }
        } else {
            assert(shown_bytes(data@.take(i + 1)) == shown_bytes(data@.take(i as int)));
        }
        assert(s@ =~= start + hex_bytes(shown_bytes(data@.take(i + 1))));
        i = i + 1;
    }
    assert(data@.take(data.len() as int) =~= data@);
    s.push(';');
    s.push('\n');
    assert(s@ =~= avr_simple_text(data@));
    s
}

proof fn lemma_hex_bytes_push(s: Seq<u8>, b: u8)
    ensures
        hex_bytes(s.push(b)) == hex_bytes(s) + hex_byte(b),
{
    assert(s.push(b).drop_last() =~= s);
}


/// Builder for AVR output modules.
pub struct AvrOutputBuilder;

impl AvrOutputBuilder {
    pub fn new() -> (b: Self) {
        AvrOutputBuilder
    }
}

impl OutputModuleBuilder for AvrOutputBuilder {
    open spec fn spec_module_type(&self) -> Seq<char> {
        "avr"@
    }

    open spec fn spec_default_port(&self) -> u16 {
        30003
    }

    open spec fn spec_description(&self) -> Seq<char> {
        "AVR text format with timestamps for dump1090 compatibility"@
    }

    fn module_type(&self) -> (r: &str) {
        "avr"
    }

    fn description(&self) -> (r: &str)
    {
        "AVR text format with timestamps for dump1090 compatibility"
    }

    fn default_port(&self) -> (r: u16) {
        30003
    }
}

} // verus!
