//! Text transcoding for the relay: the producer hands the core UTF-16 code
//! units, the transport carries UTF-8 bytes, and an emitted message must be
//! cut to a byte cap without splitting a multi-byte character.

use vstd::prelude::*;

verus! {

use vstd::string::StrSliceExecFns;

/// A Unicode scalar value: any code point except the surrogate range.
pub open spec fn is_scalar(cp: int) -> bool {
    (0 <= cp < 0xD800) || (0xE000 <= cp < 0x110000)
}

/// The UTF-8 encoding of one scalar value, one to four bytes.
pub open spec fn utf8_of_cp(cp: int) -> Seq<u8>
    recommends
        is_scalar(cp),
{
    if cp < 0x80 {
        seq![cp as u8]
    } else if cp < 0x800 {
        seq![(0xC0 + cp / 0x40) as u8, (0x80 + cp % 0x40) as u8]
    } else if cp < 0x10000 {
        seq![
            (0xE0 + cp / 0x1000) as u8,
            (0x80 + (cp / 0x40) % 0x40) as u8,
            (0x80 + cp % 0x40) as u8,
        ]
    } else {
        seq![
            (0xF0 + cp / 0x40000) as u8,
            (0x80 + (cp / 0x1000) % 0x40) as u8,
            (0x80 + (cp / 0x40) % 0x40) as u8,
            (0x80 + cp % 0x40) as u8,
        ]
    }
}

/// The UTF-8 encoding of a sequence of scalar values.
pub open spec fn utf8_of_cps(cps: Seq<int>) -> Seq<u8>
    decreases cps.len(),
{
    if cps.len() == 0 {
        seq![]
    } else {
        utf8_of_cp(cps[0]) + utf8_of_cps(cps.skip(1))
    }
}

/// The scalar values read from a UTF-16 unit sequence: a unit outside the
/// surrogate range is a code point of its own; a high surrogate followed by a
/// low surrogate forms one supplementary code point; any unpaired surrogate
/// becomes the replacement character U+FFFD.
pub open spec fn utf16_cps(units: Seq<u16>) -> Seq<int>
    decreases units.len(),
{
    if units.len() == 0 {
        seq![]
    } else {
        let u = units[0] as int;
        if u < 0xD800 || 0xE000 <= u {
            seq![u] + utf16_cps(units.skip(1))
        } else if u < 0xDC00 {
            if units.len() >= 2 && 0xDC00 <= (units[1] as int) < 0xE000 {
                seq![0x10000 + (u - 0xD800) * 0x400 + (units[1] as int - 0xDC00)]
                    + utf16_cps(units.skip(2))
            } else {
                seq![0xFFFD] + utf16_cps(units.skip(1))
            }
        } else {
            seq![0xFFFD] + utf16_cps(units.skip(1))
        }
    }
}

/// Every code point the UTF-16 reading yields is a scalar value.
pub proof fn lemma_utf16_cps_scalar(units: Seq<u16>)
    ensures
        forall|k: int| 0 <= k < utf16_cps(units).len() ==> is_scalar(#[trigger] utf16_cps(units)[k]),
    decreases units.len(),
{
    if units.len() != 0 {
        let u = units[0] as int;
        let pair = 0xD800 <= u < 0xDC00 && units.len() >= 2 && 0xDC00 <= (units[1] as int)
            < 0xE000;
        let head: int = if u < 0xD800 || 0xE000 <= u {
            u
        } else if pair {
            0x10000 + (u - 0xD800) * 0x400 + (units[1] as int - 0xDC00)
        } else {
            0xFFFD
        };
        let tail = if pair {
            utf16_cps(units.skip(2))
        } else {
            utf16_cps(units.skip(1))
        };
        assert(utf16_cps(units) == seq![head] + tail);
        if pair {
            lemma_utf16_cps_scalar(units.skip(2));
        } else {
            lemma_utf16_cps_scalar(units.skip(1));
        }
        assert(is_scalar(head));
        assert forall|k: int| 0 <= k < utf16_cps(units).len() implies is_scalar(
            #[trigger] utf16_cps(units)[k],
        ) by {
            if k == 0 {
                assert(utf16_cps(units)[0] == head);
            } else {
                assert(utf16_cps(units)[k] == tail[k - 1]);
            }
        }
    }
}

/// When no code unit is zero, no decoded code point is zero: only the zero
/// unit decodes to the zero code point.
pub proof fn lemma_utf16_cps_nonzero(units: Seq<u16>)
    requires
        forall|i: int| 0 <= i < units.len() ==> units[i] != 0,
    ensures
        forall|k: int| 0 <= k < utf16_cps(units).len() ==> #[trigger] utf16_cps(units)[k] != 0,
    decreases units.len(),
{
    if units.len() != 0 {
        let u = units[0] as int;
        let pair = 0xD800 <= u < 0xDC00 && units.len() >= 2 && 0xDC00 <= (units[1] as int)
            < 0xE000;
        let head: int = if u < 0xD800 || 0xE000 <= u {
            u
        } else if pair {
            0x10000 + (u - 0xD800) * 0x400 + (units[1] as int - 0xDC00)
        } else {
            0xFFFD
        };
        let tail = if pair {
            utf16_cps(units.skip(2))
        } else {
            utf16_cps(units.skip(1))
        };
        assert(utf16_cps(units) == seq![head] + tail);
        if pair {
            lemma_utf16_cps_nonzero(units.skip(2));
        } else {
            lemma_utf16_cps_nonzero(units.skip(1));
        }
        assert(head != 0);
        assert forall|k: int| 0 <= k < utf16_cps(units).len() implies #[trigger] utf16_cps(
            units,
        )[k] != 0 by {
            if k == 0 {
                assert(utf16_cps(units)[0] == head);
            } else {
                assert(utf16_cps(units)[k] == tail[k - 1]);
            }
        }
    }
}

/// Appends the UTF-8 encoding of one scalar value.
pub fn push_utf8(out: &mut Vec<u8>, cp: u32)
    requires
        is_scalar(cp as int),
    ensures
        final(out)@ == old(out)@ + utf8_of_cp(cp as int),
{
    if cp < 0x80 {
        out.push(cp as u8);
        assert(out@ =~= old(out)@ + utf8_of_cp(cp as int));
    } else if cp < 0x800 {
        out.push((0xC0 + cp / 0x40) as u8);
        out.push((0x80 + cp % 0x40) as u8);
        assert(out@ =~= old(out)@ + utf8_of_cp(cp as int));
    } else if cp < 0x10000 {
        out.push((0xE0 + cp / 0x1000) as u8);
        out.push((0x80 + (cp / 0x40) % 0x40) as u8);
        out.push((0x80 + cp % 0x40) as u8);
        assert(out@ =~= old(out)@ + utf8_of_cp(cp as int));
    } else {
        out.push((0xF0 + cp / 0x40000) as u8);
        out.push((0x80 + (cp / 0x1000) % 0x40) as u8);
        out.push((0x80 + (cp / 0x40) % 0x40) as u8);
        out.push((0x80 + cp % 0x40) as u8);
        assert(out@ =~= old(out)@ + utf8_of_cp(cp as int));
    }
}

/// Decodes UTF-16 units and re-encodes them as UTF-8 bytes, mapping each
/// unpaired surrogate to the replacement character.
pub fn utf16_to_utf8(units: &Vec<u16>) -> (out: Vec<u8>)
    ensures
        out@ == utf8_of_cps(utf16_cps(units@)),
{
    let mut out: Vec<u8> = Vec::new();
    let mut i: usize = 0;
    proof {
        assert(units@.skip(0) =~= units@);
        assert(out@ + utf8_of_cps(utf16_cps(units@)) =~= utf8_of_cps(utf16_cps(units@)));
    }
    while i < units.len()
        invariant
            i <= units@.len(),
            utf8_of_cps(utf16_cps(units@)) == out@ + utf8_of_cps(utf16_cps(units@.skip(i as int))),
        decreases units@.len() - i,
    {
        let ghost rest = units@.skip(i as int);
        let ghost out0 = out@;
        assert(rest[0] == units@[i as int]);
        let u = units[i];
        let step: usize;
        let cp: u32;
        if u < 0xD800 || u >= 0xE000 {
            cp = u as u32;
            step = 1;
            assert(utf16_cps(rest) == seq![cp as int] + utf16_cps(rest.skip(1)));
        } else if u < 0xDC00 && i + 1 < units.len() && units[i + 1] >= 0xDC00 && units[i + 1]
            < 0xE000 {
            let lo = units[i + 1];
            assert(rest[1] == units@[i as int + 1]);
            cp = 0x10000 + (u as u32 - 0xD800) * 0x400 + (lo as u32 - 0xDC00);
            step = 2;
            assert(utf16_cps(rest) == seq![cp as int] + utf16_cps(rest.skip(2)));
        } else {
            cp = 0xFFFD;
            step = 1;
            assert(utf16_cps(rest) == seq![cp as int] + utf16_cps(rest.skip(1)));
        }
        push_utf8(&mut out, cp);
        proof {
            let t = utf16_cps(units@.skip(i as int + step as int));
            assert(rest.skip(step as int) =~= units@.skip(i as int + step as int));
            assert(utf16_cps(rest)[0] == cp as int);
            assert(utf16_cps(rest).skip(1) =~= t);
            lemma_utf8_cps_head(utf16_cps(rest));
            assert((out0 + utf8_of_cp(cp as int)) + utf8_of_cps(t) =~= out0 + (utf8_of_cp(
                cp as int,
            ) + utf8_of_cps(t)));
        }
        i += step;
    }
    proof {
        assert(units@.skip(units@.len() as int) =~= Seq::<u16>::empty());
        assert(out@ + utf8_of_cps(utf16_cps(Seq::<u16>::empty())) =~= out@);
    }
    out
}

/// Encoding a non-empty code point sequence starts with its head's bytes.
proof fn lemma_utf8_cps_head(cps: Seq<int>)
    requires
        cps.len() > 0,
    ensures
        utf8_of_cps(cps) == utf8_of_cp(cps[0]) + utf8_of_cps(cps.skip(1)),
{
}

/// Splitting a code point sequence splits its UTF-8 encoding.
pub proof fn lemma_utf8_cps_split(cps: Seq<int>, k: int)
    requires
        0 <= k <= cps.len(),
    ensures
        utf8_of_cps(cps) == utf8_of_cps(cps.take(k)) + utf8_of_cps(cps.skip(k)),
    decreases k,
{
    if k == 0 {
        assert(cps.take(0) =~= Seq::<int>::empty());
        assert(cps.skip(0) =~= cps);
    } else {
        lemma_utf8_cps_head(cps);
        lemma_utf8_cps_split(cps.skip(1), k - 1);
        assert(cps.skip(1).take(k - 1) =~= cps.take(k).skip(1));
        assert(cps.skip(1).skip(k - 1) =~= cps.skip(k));
        assert(cps.take(k)[0] == cps[0]);
        lemma_utf8_cps_head(cps.take(k));
    }
}

/// The code points of a character sequence.
pub open spec fn cps_of_chars(s: Seq<char>) -> Seq<int> {
    s.map_values(|c: char| (c as u32) as int)
}

/// The UTF-16 encoding of one scalar value: itself below 0x10000, else a
/// surrogate pair.
pub open spec fn utf16_of_cp(cp: int) -> Seq<u16>
    recommends
        is_scalar(cp),
{
    if cp < 0x10000 {
        seq![cp as u16]
    } else {
        seq![
            (0xD800 + (cp - 0x10000) / 0x400) as u16,
            (0xDC00 + (cp - 0x10000) % 0x400) as u16,
        ]
    }
}

/// The UTF-16 encoding of a sequence of scalar values.
pub open spec fn utf16_of_cps(cps: Seq<int>) -> Seq<u16>
    decreases cps.len(),
{
    if cps.len() == 0 {
        seq![]
    } else {
        utf16_of_cp(cps[0]) + utf16_of_cps(cps.skip(1))
    }
}

/// Encodes a string's characters as UTF-16 code units.
pub fn str_to_utf16(s: &str) -> (out: Vec<u16>)
    ensures
        out@ == utf16_of_cps(cps_of_chars(s@)),
{
    let n = s.unicode_len();
    let mut out: Vec<u16> = Vec::new();
    let mut i: usize = 0;
    proof {
        assert(s@.skip(0) =~= s@);
        assert(out@ + utf16_of_cps(cps_of_chars(s@)) =~= utf16_of_cps(cps_of_chars(s@)));
    }
    while i < n
        invariant
            i <= s@.len(),
            n == s@.len(),
            utf16_of_cps(cps_of_chars(s@)) == out@ + utf16_of_cps(
                cps_of_chars(s@.skip(i as int)),
            ),
        decreases s@.len() - i,
    {
        let ghost rest = cps_of_chars(s@.skip(i as int));
        let ghost out0 = out@;
        let c = s.get_char(i);
        let v = c as u32;
        assert(rest[0] == v as int);
        if v < 0x10000 {
            out.push(v as u16);
        } else {
            out.push((0xD800 + (v - 0x10000) / 0x400) as u16);
            out.push((0xDC00 + (v - 0x10000) % 0x400) as u16);
        }
        proof {
            let t = cps_of_chars(s@.skip(i as int + 1));
            assert(rest.skip(1) =~= t);
            assert(utf16_of_cps(rest) == utf16_of_cp(c as int) + utf16_of_cps(t));
            assert(out@ =~= out0 + utf16_of_cp(c as int));
            assert((out0 + utf16_of_cp(c as int)) + utf16_of_cps(t) =~= out0 + (utf16_of_cp(
                c as int,
            ) + utf16_of_cps(t)));
        }
        i += 1;
    }
    proof {
        assert(s@.skip(s@.len() as int) =~= Seq::<char>::empty());
        assert(cps_of_chars(Seq::<char>::empty()) =~= Seq::<int>::empty());
        assert(out@ + utf16_of_cps(Seq::<int>::empty()) =~= out@);
    }
    out
}

/// Law: reading back the UTF-16 encoding of any scalar values gives exactly
/// them — the relay's encode on the producer side and decode on the consumer
/// side lose nothing on text that is scalar to begin with.
pub proof fn lemma_utf16_round_trip(cps: Seq<int>)
    requires
        forall|k: int| 0 <= k < cps.len() ==> is_scalar(#[trigger] cps[k]),
    ensures
        utf16_cps(utf16_of_cps(cps)) == cps,
    decreases cps.len(),
{
    if cps.len() == 0 {
        assert(utf16_cps(utf16_of_cps(cps)) =~= cps);
    } else {
        let cp = cps[0];
        assert(forall|k: int| 0 <= k < cps.skip(1).len() ==> is_scalar(#[trigger] cps.skip(1)[k]));
        lemma_utf16_round_trip(cps.skip(1));
        let head = utf16_of_cp(cp);
        let tail = utf16_of_cps(cps.skip(1));
        let units = utf16_of_cps(cps);
        assert(units == head + tail);
        if cp < 0x10000 {
            assert(units[0] as int == cp);
            assert(units.skip(1) =~= tail);
            assert(utf16_cps(units) == seq![cp] + utf16_cps(utf16_of_cps(cps.skip(1))));
            assert(seq![cp] + cps.skip(1) =~= cps);
        } else {
            let hi = 0xD800 + (cp - 0x10000) / 0x400;
            let lo = 0xDC00 + (cp - 0x10000) % 0x400;
            vstd::arithmetic::div_mod::lemma_div_is_ordered(cp - 0x10000, 0xFFFFF, 0x400);
            assert(0xFFFFFint / 0x400 == 0x3FF) by (nonlinear_arith);
            assert(0xD800 <= hi < 0xDC00);
            assert(0xDC00 <= lo < 0xE000);
            assert(units[0] as int == hi);
            assert(units[1] as int == lo);
            vstd::arithmetic::div_mod::lemma_fundamental_div_mod(cp - 0x10000, 0x400);
            assert(0x10000 + (hi - 0xD800) * 0x400 + (lo - 0xDC00) == cp);
            assert(units.skip(2) =~= tail);
            assert(utf16_cps(units) == seq![cp] + utf16_cps(utf16_of_cps(cps.skip(1))));
            assert(seq![cp] + cps.skip(1) =~= cps);
        }
    }
}

/// Every character's code point is a scalar value.
pub proof fn lemma_chars_scalar(s: Seq<char>)
    ensures
        forall|k: int|
            0 <= k < cps_of_chars(s).len() ==> is_scalar(#[trigger] cps_of_chars(s)[k]),
{
    assert forall|k: int| 0 <= k < cps_of_chars(s).len() implies is_scalar(
        #[trigger] cps_of_chars(s)[k],
    ) by {
        vstd::utf8::char_is_scalar(s[k]);
        assert(cps_of_chars(s)[k] == (s[k] as u32) as int);
    }
}

/// Law: decoding the UTF-16 encoding of any text yields the text's own code
/// points — what the producer hands the channel is exactly what the other
/// end reads back.
pub proof fn lemma_text_round_trip(s: Seq<char>)
    ensures
        utf16_cps(utf16_of_cps(cps_of_chars(s))) == cps_of_chars(s),
{
    lemma_chars_scalar(s);
    lemma_utf16_round_trip(cps_of_chars(s));
}

// --- truncation at a character boundary ---

/// A UTF-8 continuation byte: the second and later bytes of a multi-byte
/// character, and never the first byte of one.
pub open spec fn is_cont_byte(b: u8) -> bool {
    0x80 <= b < 0xC0
}

/// Position `i` in `s` does not fall inside a multi-byte character.
pub open spec fn is_boundary(s: Seq<u8>, i: int) -> bool {
    i == s.len() || !is_cont_byte(s[i])
}

/// The largest boundary position at or below `i`.
pub open spec fn cut_point(s: Seq<u8>, i: int) -> int
    recommends
        0 <= i <= s.len(),
    decreases i,
{
    if i <= 0 {
        0
    } else if is_boundary(s, i) {
        i
    } else {
        cut_point(s, i - 1)
    }
}

/// `s` cut to at most `cap` bytes, backing off to a character boundary.
pub open spec fn truncated(s: Seq<u8>, cap: int) -> Seq<u8> {
    if s.len() <= cap {
        s
    } else {
        s.take(cut_point(s, cap))
    }
}

pub proof fn lemma_cut_point_range(s: Seq<u8>, i: int)
    requires
        0 <= i <= s.len(),
    ensures
        0 <= cut_point(s, i) <= i,
        is_boundary(s, cut_point(s, i)) || cut_point(s, i) == 0,
    decreases i,
{
    if i > 0 && !is_boundary(s, i) {
        lemma_cut_point_range(s, i - 1);
    }
}

/// Reports whether `b` is a UTF-8 continuation byte.
pub fn cont_byte(b: u8) -> (r: bool)
    ensures
        r == is_cont_byte(b),
{
    0x80 <= b && b < 0xC0
}

/// Within one encoded code point, every byte after the first is a
/// continuation byte.
proof fn lemma_utf8_cp_interior(cp: int)
    requires
        is_scalar(cp),
    ensures
        forall|j: int|
            1 <= j < utf8_of_cp(cp).len() ==> is_cont_byte(#[trigger] utf8_of_cp(cp)[j]),
{
}

/// The first byte of an encoded code point is never a continuation byte, and
/// is zero only for the code point zero.
proof fn lemma_utf8_cp_first(cp: int)
    requires
        is_scalar(cp),
    ensures
        utf8_of_cp(cp).len() > 0,
        !is_cont_byte(utf8_of_cp(cp)[0]),
        cp != 0 ==> utf8_of_cp(cp)[0] != 0,
{
}

/// Every character boundary in an encoded buffer is the length of the
/// encoding of some code point prefix.
pub proof fn lemma_boundary_is_cp_prefix(cps: Seq<int>, i: int)
    requires
        forall|k: int| 0 <= k < cps.len() ==> is_scalar(#[trigger] cps[k]),
        0 <= i <= utf8_of_cps(cps).len(),
        is_boundary(utf8_of_cps(cps), i),
    ensures
        exists|k: int| 0 <= k <= cps.len() && i == utf8_of_cps(#[trigger] cps.take(k)).len(),
    decreases cps.len(),
{
    if cps.len() == 0 {
        assert(cps.take(0) =~= cps);
        assert(i == utf8_of_cps(cps.take(0)).len());
    } else {
        let h = utf8_of_cp(cps[0]);
        let t = utf8_of_cps(cps.skip(1));
        lemma_utf8_cps_head(cps);
        if i == 0 {
            assert(cps.take(0) =~= Seq::<int>::empty());
            assert(i == utf8_of_cps(cps.take(0)).len());
        } else if i < h.len() {
            lemma_utf8_cp_interior(cps[0]);
            assert(utf8_of_cps(cps)[i] == h[i]);
            assert(false);
        } else {
            let j = i - h.len();
            assert(forall|k: int|
                0 <= k < cps.skip(1).len() ==> is_scalar(#[trigger] cps.skip(1)[k]));
            assert(j < t.len() ==> utf8_of_cps(cps)[i] == t[j]);
            assert(is_boundary(t, j));
            lemma_boundary_is_cp_prefix(cps.skip(1), j);
            let k0 = choose|k0: int|
                0 <= k0 <= cps.skip(1).len() && j == utf8_of_cps(#[trigger] cps.skip(1).take(k0)).len();
            assert(cps.take(k0 + 1).skip(1) =~= cps.skip(1).take(k0));
            assert(cps.take(k0 + 1)[0] == cps[0]);
            lemma_utf8_cps_head(cps.take(k0 + 1));
            assert(i == utf8_of_cps(cps.take(k0 + 1)).len());
        }
    }
}

/// Cutting an encoded buffer at a byte cap never splits a character: what
/// remains is the whole encoding of a prefix of the code points, within the
/// cap.
pub proof fn lemma_truncation_keeps_codepoints(cps: Seq<int>, cap: int)
    requires
        forall|k: int| 0 <= k < cps.len() ==> is_scalar(#[trigger] cps[k]),
        0 <= cap,
    ensures
        truncated(utf8_of_cps(cps), cap).len() <= cap,
        exists|k: int|
            0 <= k <= cps.len() && truncated(utf8_of_cps(cps), cap) == utf8_of_cps(
                #[trigger] cps.take(k),
            ),
{
    let s = utf8_of_cps(cps);
    if s.len() <= cap {
        assert(cps.take(cps.len() as int) =~= cps);
        assert(truncated(s, cap) == utf8_of_cps(cps.take(cps.len() as int)));
    } else {
        lemma_cut_point_range(s, cap);
        let c = cut_point(s, cap);
        if c == 0 {
            lemma_utf8_cps_head(cps);
            lemma_utf8_cp_first(cps[0]);
            assert(s[0] == utf8_of_cp(cps[0])[0]);
            assert(is_boundary(s, 0));
        }
        lemma_boundary_is_cp_prefix(cps, c);
        let k = choose|k: int| 0 <= k <= cps.len() && c == utf8_of_cps(#[trigger] cps.take(k)).len();
        lemma_utf8_cps_split(cps, k);
        assert(s.take(c) =~= utf8_of_cps(cps.take(k)));
        assert(truncated(s, cap) == utf8_of_cps(cps.take(k)));
    }
}

/// The encoding of code points that are all nonzero holds no zero byte, so a
/// single zero delimiter after it is the only one in the framed message.
pub proof fn lemma_utf8_no_zero(cps: Seq<int>)
    requires
        forall|k: int| 0 <= k < cps.len() ==> is_scalar(#[trigger] cps[k]) && cps[k] != 0,
    ensures
        forall|j: int| 0 <= j < utf8_of_cps(cps).len() ==> #[trigger] utf8_of_cps(cps)[j] != 0,
    decreases cps.len(),
{
    if cps.len() != 0 {
        let h = utf8_of_cp(cps[0]);
        let t = utf8_of_cps(cps.skip(1));
        lemma_utf8_cps_head(cps);
        lemma_utf8_cp_first(cps[0]);
        lemma_utf8_cp_interior(cps[0]);
        assert(forall|k: int|
            0 <= k < cps.skip(1).len() ==> is_scalar(#[trigger] cps.skip(1)[k]) && cps.skip(1)[k]
                != 0);
        lemma_utf8_no_zero(cps.skip(1));
        assert forall|j: int| 0 <= j < utf8_of_cps(cps).len() implies #[trigger] utf8_of_cps(cps)[j]
            != 0 by {
            if j < h.len() {
                assert(utf8_of_cps(cps)[j] == h[j]);
            } else {
                assert(utf8_of_cps(cps)[j] == t[j - h.len()]);
            }
        }
    }
}

/// Cuts `buf` to at most `cap` bytes, never splitting a multi-byte character:
/// if the byte at the cap is in the middle of one, the whole character goes.
pub fn truncate_utf8(buf: &mut Vec<u8>, cap: usize)
    ensures
        final(buf)@ == truncated(old(buf)@, cap as int),
        final(buf)@.len() <= old(buf)@.len(),
{
    if buf.len() > cap {
        let mut i: usize = cap;
        while i > 0 && cont_byte(buf[i])
            invariant
                0 <= i <= cap < buf@.len(),
                cut_point(buf@, cap as int) == cut_point(buf@, i as int),
            decreases i,
        {
            i -= 1;
        }
        proof {
            lemma_cut_point_range(buf@, i as int);
        }
        buf.truncate(i);
        assert(buf@ =~= truncated(old(buf)@, cap as int));
    }
}

} // verus!
