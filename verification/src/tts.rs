//! The speech capability of the local echo mode. The host resolves the
//! actual speech call once at startup and keeps it outside the library;
//! what the library owns is the payload that call takes: the text as
//! NUL-terminated UTF-16.

use vstd::prelude::*;

verus! {

use crate::text::{cps_of_chars, str_to_utf16, utf16_of_cps};

/// The model of the resolved speech endpoint: it builds the exact payload
/// the host hands to the speech call.
pub struct TtsAir {
    /// How many payloads this endpoint has built.
    pub spoken: u64,
}

impl TtsAir {
    pub fn new() -> (t: TtsAir)
        ensures
            t.spoken == 0,
    {
        TtsAir { spoken: 0 }
    }

    /// The payload for speaking `text`: its UTF-16 code units with the
    /// terminating zero unit the call requires, and nothing else.
    pub fn say_payload(&mut self, text: &str) -> (out: Vec<u16>)
        ensures
            out@ == utf16_of_cps(cps_of_chars(text@)) + seq![0u16],
            out@.len() >= 1,
            out@.last() == 0,
            final(self).spoken == if old(self).spoken < u64::MAX {
                (old(self).spoken + 1) as u64
            } else {
                old(self).spoken
            },
    {
        let mut out = str_to_utf16(text);
        out.push(0);
        if self.spoken < u64::MAX {
            self.spoken = self.spoken + 1;
        }
        assert(out@ =~= utf16_of_cps(cps_of_chars(text@)) + seq![0u16]);
        out
    }
}

} // verus!
