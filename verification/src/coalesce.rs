//! Merges bursts of records that arrive within a short window into one
//! outbound message, caps the message size without splitting a character,
//! and frames the result with the zero delimiter for transport.

use vstd::prelude::*;

verus! {

use crate::text::{
    is_scalar, utf16_cps, utf8_of_cp, utf8_of_cps, truncated, utf16_to_utf8, truncate_utf8,
    lemma_utf8_cps_split, lemma_truncation_keeps_codepoints, lemma_utf8_no_zero,
};

/// How long after the first record's arrival later records are still merged
/// into the same message, in microseconds of the monotonic clock.
pub const COALESCE_WINDOW_MICROS: u64 = 2000;

/// The longest buffer that is sent: longer ones are cut back to a character
/// boundary at or below this many bytes.
pub const MESSAGE_CAP: usize = 65535;

/// One text record as the producer hands it over: UTF-16 code units and the
/// arrival instant, in microseconds of a monotonic clock.
pub struct Record {
    pub units: Vec<u16>,
    pub arrival_micros: u64,
}

/// The code points of each record in a sequence.
pub open spec fn taken_cps(recs: Seq<Record>) -> Seq<Seq<int>> {
    recs.map_values(|r: Record| utf16_cps(r.units@))
}

/// The code points of a merged window: the first record's text first, each
/// later record appended behind a newline.
pub open spec fn joined_cps(first: Seq<int>, more: Seq<Seq<int>>) -> Seq<int>
    decreases more.len(),
{
    if more.len() == 0 {
        first
    } else {
        joined_cps(first, more.drop_last()) + seq![10int] + more.last()
    }
}

/// What the coalescer sends for a window's code points: their UTF-8 bytes,
/// cut to the cap at a character boundary, then one zero delimiter.
pub open spec fn emitted(cps: Seq<int>) -> Seq<u8> {
    truncated(utf8_of_cps(cps), MESSAGE_CAP as int) + seq![0u8]
}

/// Encoding distributes over concatenation of code point sequences.
pub proof fn lemma_utf8_cps_concat(a: Seq<int>, b: Seq<int>)
    ensures
        utf8_of_cps(a + b) == utf8_of_cps(a) + utf8_of_cps(b),
{
    lemma_utf8_cps_split(a + b, a.len() as int);
    assert((a + b).take(a.len() as int) =~= a);
    assert((a + b).skip(a.len() as int) =~= b);
}

/// A merged window of nonzero scalar values is made of nonzero scalar
/// values: the newline is one, and the records contribute their own.
pub proof fn lemma_joined_cps_wellformed(first: Seq<int>, more: Seq<Seq<int>>)
    requires
        forall|k: int| 0 <= k < first.len() ==> is_scalar(#[trigger] first[k]) && first[k] != 0,
        forall|j: int, k: int|
            0 <= j < more.len() && 0 <= k < more[j].len() ==> is_scalar(#[trigger] more[j][k])
                && more[j][k] != 0,
    ensures
        forall|k: int|
            0 <= k < joined_cps(first, more).len() ==> is_scalar(
                #[trigger] joined_cps(first, more)[k],
            ) && joined_cps(first, more)[k] != 0,
    decreases more.len(),
{
    if more.len() != 0 {
        assert(forall|j: int, k: int|
            0 <= j < more.drop_last().len() && 0 <= k < more.drop_last()[j].len() ==> is_scalar(
                #[trigger] more.drop_last()[j][k],
            ) && more.drop_last()[j][k] != 0);
        lemma_joined_cps_wellformed(first, more.drop_last());
        let prev = joined_cps(first, more.drop_last());
        assert forall|k: int| 0 <= k < joined_cps(first, more).len() implies is_scalar(
            #[trigger] joined_cps(first, more)[k],
        ) && joined_cps(first, more)[k] != 0 by {
            if k < prev.len() {
                assert(joined_cps(first, more)[k] == prev[k]);
            } else if k == prev.len() {
                assert(joined_cps(first, more)[k] == 10);
            } else {
                assert(joined_cps(first, more)[k] == more.last()[k - prev.len() - 1]);
                assert(more.last() == more[more.len() - 1]);
            }
        }
    }
}

/// Law: whatever window the coalescer merges from records whose units hold
/// no zero, the emitted message is within one byte of the cap, ends with the
/// delimiter, holds the delimiter nowhere else, and its body is the whole
/// UTF-8 encoding of a prefix of the window's code points — truncation never
/// leaves a split character behind.
pub proof fn lemma_window_message_wellformed(seed: Seq<u16>, recs: Seq<Record>)
    requires
        forall|i: int| 0 <= i < seed.len() ==> seed[i] != 0,
        forall|j: int, i: int|
            0 <= j < recs.len() && 0 <= i < recs[j].units@.len() ==> #[trigger] recs[j].units@[i]
                != 0,
    ensures
        ({
            let cps = joined_cps(utf16_cps(seed), taken_cps(recs));
            let msg = emitted(cps);
            &&& msg.len() >= 1
            &&& msg.last() == 0
            &&& forall|p: int| 0 <= p < msg.len() - 1 ==> msg[p] != 0
            &&& exists|k: int|
                0 <= k <= cps.len() && msg == utf8_of_cps(#[trigger] cps.take(k)) + seq![0u8]
        }),
{
    let first = utf16_cps(seed);
    let more = taken_cps(recs);
    crate::text::lemma_utf16_cps_scalar(seed);
    crate::text::lemma_utf16_cps_nonzero(seed);
    assert forall|j: int, k: int| 0 <= j < more.len() && 0 <= k < more[j].len() implies is_scalar(
        #[trigger] more[j][k],
    ) && more[j][k] != 0 by {
        assert(more[j] == utf16_cps(recs[j].units@));
        crate::text::lemma_utf16_cps_scalar(recs[j].units@);
        crate::text::lemma_utf16_cps_nonzero(recs[j].units@);
    }
    lemma_joined_cps_wellformed(first, more);
    lemma_emitted_delimiter(joined_cps(first, more));
}

/// What one call emits ends with the delimiter, and with nothing else equal
/// to it when the texts hold no zero code point; the body is the whole
/// encoding of a prefix of the window's code points, within the cap.
pub proof fn lemma_emitted_delimiter(cps: Seq<int>)
    requires
        forall|k: int| 0 <= k < cps.len() ==> is_scalar(#[trigger] cps[k]) && cps[k] != 0,
    ensures
        emitted(cps).len() >= 1,
        emitted(cps).last() == 0,
        emitted(cps).len() <= MESSAGE_CAP + 1,
        forall|j: int| 0 <= j < emitted(cps).len() - 1 ==> #[trigger] emitted(cps)[j] != 0,
        exists|k: int|
            0 <= k <= cps.len() && emitted(cps) == utf8_of_cps(#[trigger] cps.take(k)) + seq![0u8],
{
    assert(forall|k: int| 0 <= k < cps.len() ==> is_scalar(#[trigger] cps[k]));
    lemma_truncation_keeps_codepoints(cps, MESSAGE_CAP as int);
    let k = choose|k: int|
        0 <= k <= cps.len() && truncated(utf8_of_cps(cps), MESSAGE_CAP as int) == utf8_of_cps(
            #[trigger] cps.take(k),
        );
    assert(forall|j: int|
        0 <= j < cps.take(k).len() ==> is_scalar(#[trigger] cps.take(k)[j]) && cps.take(k)[j] != 0);
    lemma_utf8_no_zero(cps.take(k));
    let body = utf8_of_cps(cps.take(k));
    assert forall|j: int| 0 <= j < emitted(cps).len() - 1 implies #[trigger] emitted(cps)[j] != 0 by {
        assert(emitted(cps)[j] == body[j]);
    }
}

/// Builds one coalesced message: the seed record's text, then every
/// immediately pending record that arrived before the seed's deadline,
/// newline-separated, cut to the cap and closed with the delimiter. Returns
/// the message and how many pending records it merged: the record at that
/// index, if any, arrived at or after the deadline and is left untouched to
/// seed the next window.
pub fn coalesce_window(seed: &Record, pending: &Vec<Record>) -> (r: (Vec<u8>, usize))
    requires
        seed.arrival_micros + COALESCE_WINDOW_MICROS <= u64::MAX,
    ensures
        r.1 <= pending@.len(),
        forall|j: int|
            0 <= j < r.1 ==> (#[trigger] pending@[j]).arrival_micros < seed.arrival_micros
                + COALESCE_WINDOW_MICROS,
        r.1 < pending@.len() ==> pending@[r.1 as int].arrival_micros >= seed.arrival_micros
            + COALESCE_WINDOW_MICROS,
        r.0@ == emitted(joined_cps(utf16_cps(seed.units@), taken_cps(pending@.take(r.1 as int)))),
{
    let deadline = seed.arrival_micros + COALESCE_WINDOW_MICROS;
    let mut buf = utf16_to_utf8(&seed.units);
    let ghost first = utf16_cps(seed.units@);
    let mut k: usize = 0;
    proof {
        assert(taken_cps(pending@.take(0)) =~~= Seq::<Seq<int>>::empty());
    }
    while k < pending.len() && pending[k].arrival_micros < deadline
        invariant
            k <= pending@.len(),
            deadline == seed.arrival_micros + COALESCE_WINDOW_MICROS,
            forall|j: int| 0 <= j < k ==> (#[trigger] pending@[j]).arrival_micros < deadline,
            buf@ == utf8_of_cps(joined_cps(first, taken_cps(pending@.take(k as int)))),
        decreases pending@.len() - k,
    {
        let ghost acc = joined_cps(first, taken_cps(pending@.take(k as int)));
        buf.push(10);
        let mut rec = utf16_to_utf8(&pending[k].units);
        let ghost rec_cps = utf16_cps(pending@[k as int].units@);
        buf.append(&mut rec);
        proof {
            let more = taken_cps(pending@.take(k as int + 1));
            assert(more.drop_last() =~~= taken_cps(pending@.take(k as int)));
            assert(more.last() == rec_cps);
            assert(joined_cps(first, more) == acc + seq![10int] + rec_cps);
            lemma_utf8_cps_concat(acc, seq![10int]);
            lemma_utf8_cps_concat(acc + seq![10int], rec_cps);
            assert(seq![10int].skip(1) =~= Seq::<int>::empty());
            assert(utf8_of_cps(Seq::<int>::empty()) =~= Seq::<u8>::empty());
            assert(utf8_of_cp(10int) =~= seq![10u8]);
            assert(utf8_of_cps(seq![10int]) =~= seq![10u8]);
            assert(buf@ =~= utf8_of_cps(joined_cps(first, more)));
        }
        k += 1;
    }
    truncate_utf8(&mut buf, MESSAGE_CAP);
    buf.push(0);
    proof {
        assert(buf@ =~= emitted(joined_cps(first, taken_cps(pending@.take(k as int)))));
    }
    (buf, k)
}

} // verus!
