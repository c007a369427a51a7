//! BEAST binary frames, as dump1090 streams them on port 30005.
//!
//! A frame is the escape byte, a type byte, then the 48-bit timestamp, the
//! signal strength and the message bytes, where every escape byte among those
//! is sent twice.

use vstd::prelude::*;
use crate::metadata::DecoderMetaData;

verus! {

/// The byte that starts every frame; doubled wherever it occurs in a frame's body.
pub const BEAST_ESCAPE: u8 = 0x1A;

/// BEAST message types.
#[derive(Debug, Clone, Copy, PartialEq, Eq)]
pub enum BeastMessageType {
    /// Mode-S short frame (56 bits)
    ModeS,
    /// Mode-S long frame (112 bits)
    ModeSLong,
    /// Status message
    Status,
}

impl BeastMessageType {
    /// The type byte sent on the wire.
    pub open spec fn spec_code(self) -> u8 {
        match self {
            BeastMessageType::ModeS => 0x31,
            BeastMessageType::ModeSLong => 0x32,
            BeastMessageType::Status => 0x34,
        }
    }

    /// The type byte sent on the wire.
    pub fn code(&self) -> (c: u8)
        ensures
            c == self.spec_code(),
    {
        match self {
            BeastMessageType::ModeS => 0x31,
            BeastMessageType::ModeSLong => 0x32,
            BeastMessageType::Status => 0x34,
        }
    }
}

/// A BEAST mode message containing ADS-B data.
#[derive(Debug, Clone)]
pub struct BeastMessage {
    pub message_type: BeastMessageType,
    /// Microseconds since the Unix epoch; the frame carries the low 48 bits.
    pub timestamp: u64,
    pub signal_strength: u8,
    pub data: Vec<u8>,
}

/// The last `k` bytes of `n`, most significant first.
pub open spec fn be_bytes(n: nat, k: nat) -> Seq<u8>
    decreases k,
{
    if k == 0 {
        Seq::empty()
    } else {
        be_bytes(n / 256, (k - 1) as nat).push((n % 256) as u8)
    }
}

/// One byte as it is sent in a frame's body.
pub open spec fn escape_byte(b: u8) -> Seq<u8> {
    if b == BEAST_ESCAPE {
        seq![BEAST_ESCAPE, BEAST_ESCAPE]
    } else {
        seq![b]
    }
}

/// A frame body with every escape byte doubled.
pub open spec fn beast_escape(s: Seq<u8>) -> Seq<u8>
    decreases s.len(),
{
    if s.len() == 0 {
        Seq::empty()
    } else {
        escape_byte(s[0]) + beast_escape(s.drop_first())
    }
}

/// What a receiver reads back from an escaped frame body: a doubled escape
/// byte stands for one.
pub open spec fn beast_unescape(s: Seq<u8>) -> Seq<u8>
    decreases s.len(),
{
    if s.len() == 0 {
        Seq::empty()
    } else if s.len() >= 2 && s[0] == BEAST_ESCAPE && s[1] == BEAST_ESCAPE {
        seq![BEAST_ESCAPE] + beast_unescape(s.skip(2))
    } else {
        seq![s[0]] + beast_unescape(s.drop_first())
    }
}

/// The signal strength for a correlation given in thousandths: the
/// correlation clamped to 0..=255, with its fraction dropped.
pub open spec fn beast_signal_strength(correlation_milli: int) -> u8 {
    (if correlation_milli < 0 {
        0
    } else if correlation_milli > 255_000 {
        255
    } else {
        correlation_milli / 1000
    }) as u8
}

/// The signal strength is the correlation in whole units, the fraction
/// dropped, held to 0..=255; a stronger correlation never gives a weaker
/// signal.
pub proof fn law_signal_strength_scale(c: int, d: int)
    ensures
        c <= 0 ==> beast_signal_strength(c) == 0,
        c >= 255_000 ==> beast_signal_strength(c) == 255,
        0 <= c <= 255_000 ==> beast_signal_strength(c) * 1000 <= c < beast_signal_strength(c) * 1000 + 1000,
        c <= d ==> beast_signal_strength(c) <= beast_signal_strength(d),
{
}

/// The message type for a packet of `len` bytes.
pub open spec fn beast_type_for_len(len: nat) -> BeastMessageType {
    if len <= 7 {
        BeastMessageType::ModeS
    } else {
        BeastMessageType::ModeSLong
    }
}

/// The unescaped body of a frame: 48-bit timestamp, signal strength, then
/// the data.
pub open spec fn beast_payload(timestamp: u64, signal_strength: u8, data: Seq<u8>) -> Seq<u8> {
    be_bytes(timestamp as nat, 6) + seq![signal_strength] + data
}

/// The complete frame for a message with these fields.
pub open spec fn beast_frame(
    message_type: BeastMessageType,
    timestamp: u64,
    signal_strength: u8,
    data: Seq<u8>,
) -> Seq<u8> {
    seq![BEAST_ESCAPE, message_type.spec_code()] + beast_escape(
        beast_payload(timestamp, signal_strength, data),
    )
}

impl BeastMessage {
    /// The unescaped body: 48-bit timestamp, signal strength, then the data.
    pub open spec fn payload(self) -> Seq<u8> {
        beast_payload(self.timestamp, self.signal_strength, self.data@)
    }

    /// The complete frame.
    pub open spec fn frame(self) -> Seq<u8> {
        beast_frame(self.message_type, self.timestamp, self.signal_strength, self.data@)
    }

    /// Creates a new BEAST message from ADS-B packet bytes.
    pub fn from_adsb_packet(data: &[u8], metadata: &DecoderMetaData) -> (m: Self)
        ensures
            m.timestamp == metadata.timestamp_micros() as u64,
            m.signal_strength == beast_signal_strength(metadata.preamble_correlation_milli as int),
            m.message_type == beast_type_for_len(data@.len()),
            data@.len() <= 7 ==> m.message_type == BeastMessageType::ModeS,
            data@.len() > 7 ==> m.message_type == BeastMessageType::ModeSLong,
            m.data@ == data@,
    {
        let micros: u128 = metadata.timestamp_secs as u128 * 1_000_000
            + metadata.timestamp_subsec_micros as u128;
        let timestamp = micros as u64;
        let c = metadata.preamble_correlation_milli;
        let signal_strength: u8 = if c < 0 {
            0
        } else if c > 255_000 {
            255
        } else {
            (c / 1000) as u8
        };
        let message_type = if data.len() <= 7 {
            BeastMessageType::ModeS
        } else {
            BeastMessageType::ModeSLong
        };
        BeastMessage { message_type, timestamp, signal_strength, data: vstd::slice::slice_to_vec(data) }
    }

    /// Encodes the message as a BEAST binary frame.
    pub fn encode(&self) -> (encoded: Vec<u8>)
        ensures
            encoded@ == self.frame(),
    {
        let mut encoded: Vec<u8> = Vec::new();
        encoded.push(BEAST_ESCAPE);
        encoded.push(self.message_type.code());
        push_escaped_be(&mut encoded, self.timestamp, 6);
        push_escaped(&mut encoded, self.signal_strength);
        let ghost head = encoded@;
        let mut i: usize = 0;
        while i < self.data.len()
            invariant
                i <= self.data.len(),
                encoded@ == head + beast_escape(self.data@.take(i as int)),
            decreases self.data.len() - i,
        {
            let b = self.data[i];
            push_escaped(&mut encoded, b);
            proof {
                lemma_escape_append(self.data@.take(i as int), seq![b]);
                assert(self.data@.take(i + 1) =~= self.data@.take(i as int) + seq![b]);
            }
            i = i + 1;
        }
        proof {
            assert(self.data@.take(self.data.len() as int) =~= self.data@);
            lemma_escape_append(be_bytes(self.timestamp as nat, 6), seq![self.signal_strength]);
            lemma_escape_append(
                be_bytes(self.timestamp as nat, 6) + seq![self.signal_strength],
                self.data@,
            );
            assert(encoded@ =~= self.frame());
        }
        encoded
    }
}

/// The escaped form of a single byte is its `escape_byte`.
proof fn lemma_escape_single(b: u8)
    ensures
        beast_escape(seq![b]) == escape_byte(b),
{
    assert(seq![b].drop_first() =~= Seq::<u8>::empty());
    assert(beast_escape(Seq::<u8>::empty()) =~= Seq::<u8>::empty());
    assert(escape_byte(b) + Seq::<u8>::empty() =~= escape_byte(b));
}

/// Escaping distributes over concatenation.
pub proof fn lemma_escape_append(a: Seq<u8>, b: Seq<u8>)
    ensures
        beast_escape(a + b) == beast_escape(a) + beast_escape(b),
    decreases a.len(),
{
    if a.len() == 0 {
        assert(a + b =~= b);
        assert(Seq::<u8>::empty() + beast_escape(b) =~= beast_escape(b));
    } else {
        assert((a + b).drop_first() =~= a.drop_first() + b);
        lemma_escape_append(a.drop_first(), b);
        assert((a + b)[0] == a[0]);
        assert(escape_byte(a[0]) + (beast_escape(a.drop_first()) + beast_escape(b)) =~= (
        escape_byte(a[0]) + beast_escape(a.drop_first())) + beast_escape(b));
    }
}

/// Appends one byte, doubled if it is the escape byte.
fn push_escaped(out: &mut Vec<u8>, b: u8)
    ensures
        final(out)@ == old(out)@ + beast_escape(seq![b]),
{
    proof {
        lemma_escape_single(b);
    }
    if b == BEAST_ESCAPE {
        out.push(BEAST_ESCAPE);
    }
    out.push(b);
    assert(out@ =~= old(out)@ + escape_byte(b));
}

/// Appends the last `k` bytes of `n`, most significant first, escaped.
fn push_escaped_be(out: &mut Vec<u8>, n: u64, k: usize)
    ensures
        final(out)@ == old(out)@ + beast_escape(be_bytes(n as nat, k as nat)),
    decreases k,
{
    if k == 0 {
        assert(old(out)@ + beast_escape(Seq::empty()) =~= old(out)@);
    } else {
        push_escaped_be(out, n / 256, k - 1);
        push_escaped(out, (n % 256) as u8);
        proof {
            lemma_escape_append(be_bytes((n / 256) as nat, (k - 1) as nat), seq![(n % 256) as u8]);
            assert(be_bytes(n as nat, k as nat) =~= be_bytes((n / 256) as nat, (k - 1) as nat) + seq![
                (n % 256) as u8,
            ]);
        }
        assert(out@ =~= old(out)@ + beast_escape(be_bytes(n as nat, k as nat)));
    }
}

/// Undoing the escaping gives back the bytes that were escaped.
pub proof fn lemma_unescape_escape(s: Seq<u8>)
    ensures
        beast_unescape(beast_escape(s)) == s,
    decreases s.len(),
{
    if s.len() == 0 {
        assert(beast_escape(s) =~= Seq::<u8>::empty());
    } else {
        let rest = s.drop_first();
        lemma_unescape_escape(rest);
        let e = beast_escape(s);
        assert(e == escape_byte(s[0]) + beast_escape(rest));
        if s[0] == BEAST_ESCAPE {
            assert(e.skip(2) =~= beast_escape(rest));
            assert(beast_unescape(e) == seq![BEAST_ESCAPE] + beast_unescape(e.skip(2)));
        } else {
            assert(e.drop_first() =~= beast_escape(rest));
            assert(beast_unescape(e) == seq![s[0]] + beast_unescape(e.drop_first()));
        }
        assert(seq![s[0]] + rest =~= s);
    }
}

/// A receiver recovers a message from its frame: the frame opens with the
/// escape byte and the type byte, and undoing the doubled escape bytes in the
/// rest gives back the 48-bit timestamp, the signal strength and the data.
pub proof fn law_frame_decodes(m: BeastMessage)
    ensures
        m.frame().len() >= 2,
        m.frame()[0] == BEAST_ESCAPE,
        m.frame()[1] == m.message_type.spec_code(),
        beast_unescape(m.frame().skip(2)) == m.payload(),
{
    let f = m.frame();
    assert(f.skip(2) =~= beast_escape(m.payload()));
    lemma_unescape_escape(m.payload());
}

/// A packet of at most 7 bytes (56 bits) is sent as a short Mode-S frame,
/// whose type byte is 0x31; every longer packet, such as a 14-byte extended
/// squitter, as a long one, whose type byte is 0x32.
pub proof fn law_frame_type_follows_packet_length(m: BeastMessage, n: nat)
    ensures
        n <= 7 ==> beast_type_for_len(n) == BeastMessageType::ModeS,
        n > 7 ==> beast_type_for_len(n) == BeastMessageType::ModeSLong,
        beast_type_for_len(14) == BeastMessageType::ModeSLong,
        m.message_type == beast_type_for_len(m.data@.len()) ==> m.frame()[1] == if m.data@.len() <= 7 {
            0x31u8
        } else {
            0x32u8
        },
{
    law_frame_decodes(m);
}

/// Read from the left, every escape byte in `t` comes as a pair.
pub open spec fn escapes_paired(t: Seq<u8>) -> bool
    decreases t.len(),
{
    if t.len() == 0 {
        true
    } else if t[0] == BEAST_ESCAPE {
        t.len() >= 2 && t[1] == BEAST_ESCAPE && escapes_paired(t.skip(2))
    } else {
        escapes_paired(t.drop_first())
    }
}

/// `t[i..j]` is a maximal run of escape bytes.
pub open spec fn is_escape_run(t: Seq<u8>, i: int, j: int) -> bool {
    &&& 0 <= i < j <= t.len()
    &&& (i == 0 || t[i - 1] != BEAST_ESCAPE)
    &&& (j == t.len() || t[j] != BEAST_ESCAPE)
    &&& forall|k: int| i <= k < j ==> #[trigger] t[k] == BEAST_ESCAPE
}

proof fn lemma_escape_paired(s: Seq<u8>)
    ensures
        escapes_paired(beast_escape(s)),
    decreases s.len(),
{
    if s.len() > 0 {
        let rest = s.drop_first();
        lemma_escape_paired(rest);
        let e = beast_escape(s);
        assert(e == escape_byte(s[0]) + beast_escape(rest));
        if s[0] == BEAST_ESCAPE {
            assert(e.skip(2) =~= beast_escape(rest));
        } else {
            assert(e.drop_first() =~= beast_escape(rest));
        }
    } else {
        assert(beast_escape(s) =~= Seq::<u8>::empty());
    }
}

proof fn lemma_paired_runs_even(t: Seq<u8>, i: int, j: int)
    requires
        escapes_paired(t),
        is_escape_run(t, i, j),
    ensures
        (j - i) % 2 == 0,
    decreases t.len(),
{
    if t[0] == BEAST_ESCAPE {
        let u = t.skip(2);
        if i == 0 {
            assert(t[1] == BEAST_ESCAPE);
            if j > 2 {
                assert forall|k: int| 0 <= k < j - 2 implies #[trigger] u[k] == BEAST_ESCAPE by {
                    assert(u[k] == t[k + 2]);
                }
                if j < t.len() {
                    assert(u[j - 2] == t[j]);
                }
                lemma_paired_runs_even(u, 0, j - 2);
            }
        } else {
            assert(i >= 2) by {
                if i == 1 {
                    assert(t[0] == BEAST_ESCAPE);
                }
            }
            assert(i != 2) by {
                if i == 2 {
                    assert(t[1] == BEAST_ESCAPE);
                }
            }
            assert forall|k: int| i - 2 <= k < j - 2 implies #[trigger] u[k] == BEAST_ESCAPE by {
                assert(u[k] == t[k + 2]);
            }
            assert(u[i - 3] == t[i - 1]);
            if j < t.len() {
                assert(u[j - 2] == t[j]);
            }
            lemma_paired_runs_even(u, i - 2, j - 2);
        }
    } else {
        let u = t.drop_first();
        assert(i >= 1) by {
            if i == 0 {
                assert(t[0] == BEAST_ESCAPE);
            }
        }
        assert forall|k: int| i - 1 <= k < j - 1 implies #[trigger] u[k] == BEAST_ESCAPE by {
            assert(u[k] == t[k + 1]);
        }
        if i > 1 {
            assert(u[i - 2] == t[i - 1]);
        }
        if j < t.len() {
            assert(u[j - 1] == t[j]);
        }
        lemma_paired_runs_even(u, i - 1, j - 1);
    }
}

/// After the two header bytes of a frame, every maximal run of escape bytes
/// has even length: a receiver can tell a doubled escape byte from the
/// start of the next frame.
pub proof fn law_escape_runs_even(m: BeastMessage)
    ensures
        forall|i: int, j: int|
            #[trigger] is_escape_run(m.frame().skip(2), i, j) ==> (j - i) % 2 == 0,
{
    let body = m.frame().skip(2);
    assert(body =~= beast_escape(m.payload()));
    lemma_escape_paired(m.payload());
    assert forall|i: int, j: int| #[trigger] is_escape_run(body, i, j) implies (j - i) % 2 == 0 by {
        lemma_paired_runs_even(body, i, j);
    }
}

} // verus!
