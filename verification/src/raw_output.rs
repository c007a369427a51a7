//! Raw text format, as dump1090 streams it on port 30002: `*{hex};` and a
//! newline per message, with no timestamp or signal data.

use vstd::prelude::*;
use crate::avr_output::{avr_simple_text, shown_bytes, simple_text, OMITTED_BYTE};
use crate::text::{hex_bytes, is_hex_digit, lemma_hex_bytes_read_back, unhex};
use crate::metadata::DecoderMetaData;

verus! {

/// A raw format message containing ADS-B data.
#[derive(Debug, Clone)]
pub struct RawMessage {
    pub data: Vec<u8>,
}

impl RawMessage {
    /// Creates a new raw message from ADS-B packet bytes; the metadata plays
    /// no part.
    pub fn from_adsb_packet(data: &[u8], _metadata: &DecoderMetaData) -> (m: Self)
        ensures
            m.data@ == data@,
    {
        RawMessage { data: vstd::slice::slice_to_vec(data) }
    }

    /// Encodes the message as `*{hex};\n`.
    pub fn encode(&self) -> (s: String)
        ensures
            s@ == avr_simple_text(self.data@),
    {
        simple_text(self.data.as_slice())
    }
}

/// The bytes of a packet that holds no byte 0x80 are all shown.
proof fn lemma_all_shown(data: Seq<u8>)
    requires
        !data.contains(OMITTED_BYTE),
    ensures
        shown_bytes(data) == data,
    decreases data.len(),
{
    if data.len() > 0 {
        assert(!data.drop_last().contains(OMITTED_BYTE)) by {
            if data.drop_last().contains(OMITTED_BYTE) {
                let i = choose|i: int| 0 <= i < data.len() - 1 && data.drop_last()[i] == OMITTED_BYTE;
                assert(data[i] == OMITTED_BYTE);
            }
        }
        lemma_all_shown(data.drop_last());
        assert(data[data.len() - 1] == data.last());
        assert(data.drop_last().push(data.last()) =~= data);
    }
}

/// A raw line is `*`, two upper-case hex digits per shown byte, `;` and a
/// newline; reading the digits back two at a time gives the shown bytes,
/// which for a packet without a byte 0x80 are all of its bytes.
pub proof fn law_raw_text_reads_back(data: Seq<u8>)
    ensures
        ({
            let line = avr_simple_text(data);
            let h = hex_bytes(shown_bytes(data));
            &&& line == seq!['*'] + h + seq![';', '\n']
            &&& h.len() == 2 * shown_bytes(data).len()
            &&& forall|i: int| 0 <= i < h.len() ==> is_hex_digit(#[trigger] h[i])
            &&& unhex(h) == shown_bytes(data)
            &&& line.len() == 2 * shown_bytes(data).len() + 3
        }),
        !data.contains(OMITTED_BYTE) ==> shown_bytes(data) == data,
{
    lemma_hex_bytes_read_back(shown_bytes(data));
    if !data.contains(OMITTED_BYTE) {
        lemma_all_shown(data);
    }
}

} // verus!
