//! The JSON frames of the downstream protocol: the connectivity-state frame,
//! the per-message text frame, and the acknowledgment reply. Frames are built
//! by concatenation around an escaped string or a formatted integer, so each
//! builder's result is pinned down exactly.

use vstd::prelude::*;

verus! {

use vstd::string::{StrSliceExecFns, StringExecFns};

/// Relies on String::push: appends the given character to the end of the
/// string.
pub assume_specification[ String::push ](s: &mut String, ch: char)
    ensures
        final(s)@ == old(s)@.push(ch),
;

/// The lowercase hex digit character for a value below 16.
pub open spec fn hex_char(d: int) -> char {
    if d < 10 {
        (0x30 + d) as char
    } else {
        (0x57 + d) as char
    }
}

/// How one character stands inside a JSON string literal: quote, backslash
/// and the control characters are escaped, the named ones short, the rest as
/// `\u00..`; every other character stands as itself.
pub open spec fn json_escape_char(c: char) -> Seq<char> {
    if c == '"' {
        seq!['\\', '"']
    } else if c == '\\' {
        seq!['\\', '\\']
    } else if c == '\u{8}' {
        seq!['\\', 'b']
    } else if c == '\t' {
        seq!['\\', 't']
    } else if c == '\n' {
        seq!['\\', 'n']
    } else if c == '\u{c}' {
        seq!['\\', 'f']
    } else if c == '\r' {
        seq!['\\', 'r']
    } else if (c as int) < 0x20 {
        seq!['\\', 'u', '0', '0', hex_char((c as int) / 16), hex_char((c as int) % 16)]
    } else {
        seq![c]
    }
}

/// A whole string escaped for a JSON string literal.
pub open spec fn json_escaped(s: Seq<char>) -> Seq<char>
    decreases s.len(),
{
    if s.len() == 0 {
        seq![]
    } else {
        json_escape_char(s[0]) + json_escaped(s.skip(1))
    }
}

/// The lowercase hex digit for a value below 16.
fn hex_digit(d: u8) -> (c: char)
    requires
        d < 16,
    ensures
        c == hex_char(d as int),
{
    if d < 10 {
        (0x30 + d) as char
    } else {
        (0x57 + d) as char
    }
}

/// Escapes a string for use inside a JSON string literal.
pub fn escape_json(s: &str) -> (out: String)
    ensures
        out@ == json_escaped(s@),
{
    let n = s.unicode_len();
    let mut out = String::new();
    let mut i: usize = 0;
    proof {
        assert(s@.skip(0) =~= s@);
        assert(out@ + json_escaped(s@) =~= json_escaped(s@));
    }
    while i < n
        invariant
            i <= s@.len(),
            n == s@.len(),
            json_escaped(s@) == out@ + json_escaped(s@.skip(i as int)),
        decreases s@.len() - i,
    {
        let ghost rest = s@.skip(i as int);
        let ghost out0 = out@;
        let c = s.get_char(i);
        assert(rest[0] == c);
        if c == '"' {
            out.append("\\\"");
            proof {
                reveal_strlit("\\\"");
                assert(out@ =~= out0 + json_escape_char(c));
            }
        } else if c == '\\' {
            out.append("\\\\");
            proof {
                reveal_strlit("\\\\");
                assert(out@ =~= out0 + json_escape_char(c));
            }
        } else if c == '\u{8}' {
            out.append("\\b");
            proof {
                reveal_strlit("\\b");
                assert(out@ =~= out0 + json_escape_char(c));
            }
        } else if c == '\t' {
            out.append("\\t");
            proof {
                reveal_strlit("\\t");
                assert(out@ =~= out0 + json_escape_char(c));
            }
        } else if c == '\n' {
            out.append("\\n");
            proof {
                reveal_strlit("\\n");
                assert(out@ =~= out0 + json_escape_char(c));
            }
        } else if c == '\u{c}' {
            out.append("\\f");
            proof {
                reveal_strlit("\\f");
                assert(out@ =~= out0 + json_escape_char(c));
            }
        } else if c == '\r' {
            out.append("\\r");
            proof {
                reveal_strlit("\\r");
                assert(out@ =~= out0 + json_escape_char(c));
            }
        } else if (c as u32) < 0x20 {
            out.append("\\u00");
            let v = c as u32;
            out.push(hex_digit((v / 16) as u8));
            out.push(hex_digit((v % 16) as u8));
            proof {
                reveal_strlit("\\u00");
                assert(out@ =~= out0 + json_escape_char(c));
            }
        } else {
            out.push(c);
            proof {
                assert(out@ =~= out0 + json_escape_char(c));
            }
        }
        proof {
            assert(rest.skip(1) =~= s@.skip(i as int + 1));
            assert(json_escaped(rest) == json_escape_char(c) + json_escaped(rest.skip(1)));
            assert((out0 + json_escape_char(c)) + json_escaped(s@.skip(i as int + 1)) =~= out0 + (
            json_escape_char(c) + json_escaped(s@.skip(i as int + 1))));
        }
        i += 1;
    }
    proof {
        assert(s@.skip(s@.len() as int) =~= Seq::<char>::empty());
        assert(out@ + json_escaped(Seq::<char>::empty()) =~= out@);
    }
    out
}

/// The decimal digit characters of a nonnegative number, most significant
/// first.
pub open spec fn dec_digits(n: int) -> Seq<char>
    recommends
        n >= 0,
    decreases n,
{
    if n <= 9 {
        seq![(0x30 + n) as char]
    } else {
        dec_digits(n / 10) + seq![(0x30 + n % 10) as char]
    }
}

/// The JSON text of an integer: a minus sign for negatives, then the digits
/// of its magnitude.
pub open spec fn dec_int(n: int) -> Seq<char> {
    if n < 0 {
        seq!['-'] + dec_digits(-n)
    } else {
        dec_digits(n)
    }
}

/// Appends the decimal digits of `n`.
pub fn push_dec_u64(out: &mut String, n: u64)
    ensures
        final(out)@ == old(out)@ + dec_digits(n as int),
    decreases n,
{
    if n <= 9 {
        out.push((0x30 + n as u8) as char);
        assert(out@ =~= old(out)@ + dec_digits(n as int));
    } else {
        push_dec_u64(out, n / 10);
        out.push((0x30 + (n % 10) as u8) as char);
        assert(out@ =~= old(out)@ + dec_digits(n as int));
    }
}

/// Formats a signed integer as its JSON decimal text.
pub fn format_i64(n: i64) -> (out: String)
    ensures
        out@ == dec_int(n as int),
{
    let mut out = String::new();
    if n >= 0 {
        push_dec_u64(&mut out, n as u64);
        assert(out@ =~= dec_int(n as int));
    } else {
        out.append("-");
        let mag: u64 = (-(n as i128)) as u64;
        assert(mag as int == -(n as int));
        push_dec_u64(&mut out, mag);
        proof {
            reveal_strlit("-");
            assert(("-"@).len() == 1);
            assert(out@ =~= dec_int(n as int));
        }
    }
    out
}

/// The connectivity-state frame sent to a downstream connection when it
/// joins and on every upstream-state change.
pub open spec fn info_json(version: Seq<char>, connected: bool) -> Seq<char> {
    "{\"method\":\"info\",\"args\":{\"proxy_version\":\""@ + json_escaped(version)
        + "\",\"is_connected\":"@ + (if connected {
        "true"@
    } else {
        "false"@
    }) + "}}"@
}

/// The frame carrying one coalesced text message.
pub open spec fn tts_message_json(text: Seq<char>) -> Seq<char> {
    "{\"method\":\"tts_message\",\"args\":{\"message\":\""@ + json_escaped(text) + "\"}}"@
}

/// The acknowledgment a downstream request with an integer id is answered
/// with: the same id, and empty data.
pub open spec fn reply_json(id: int) -> Seq<char> {
    "{\"id\":"@ + dec_int(id) + ",\"data\":\"\"}"@
}

/// Builds the connectivity-state frame.
pub fn build_info_json(version: &str, connected: bool) -> (out: String)
    ensures
        out@ == info_json(version@, connected),
{
    let mut out = String::from_str("{\"method\":\"info\",\"args\":{\"proxy_version\":\"");
    let esc = escape_json(version);
    out.append(esc.as_str());
    out.append("\",\"is_connected\":");
    if connected {
        out.append("true");
    } else {
        out.append("false");
    }
    out.append("}}");
    assert(out@ =~= info_json(version@, connected));
    out
}

/// Builds the frame carrying one coalesced text message.
pub fn build_tts_message_json(text: &str) -> (out: String)
    ensures
        out@ == tts_message_json(text@),
{
    let mut out = String::from_str("{\"method\":\"tts_message\",\"args\":{\"message\":\"");
    let esc = escape_json(text);
    out.append(esc.as_str());
    out.append("\"}}");
    assert(out@ =~= tts_message_json(text@));
    out
}

/// The characters std reads from these bytes as UTF-8, with every invalid
/// sequence replaced by the replacement character: a function of the bytes
/// alone, named here so contracts can speak of it exactly.
pub uninterp spec fn utf8_lossy_of(bytes: Seq<u8>) -> Seq<char>;

/// Relies on String::from_utf8_lossy: decodes the bytes as UTF-8, replacing
/// each invalid sequence with the replacement character; empty input gives
/// the empty string.
#[verifier::external_body]
fn lossy_text(bytes: &Vec<u8>) -> (r: String)
    ensures
        r@ == utf8_lossy_of(bytes@),
        bytes@.len() == 0 ==> r@.len() == 0,
{
    String::from_utf8_lossy(bytes).into_owned()
}

/// The frame the broadcaster fans out for one record from the upstream
/// channel: the record's bytes read as UTF-8 (lossily, as the two ends agree
/// only on delimiter-terminated byte records), escaped into the message
/// frame.
pub fn build_record_frame(record: &Vec<u8>) -> (out: String)
    ensures
        out@ == tts_message_json(utf8_lossy_of(record@)),
{
    let text = lossy_text(record);
    build_tts_message_json(text.as_str())
}

/// Builds the acknowledgment frame for a request id.
pub fn build_reply_json(id: i64) -> (out: String)
    ensures
        out@ == reply_json(id as int),
{
    let mut out = String::from_str("{\"id\":");
    let num = format_i64(id);
    out.append(num.as_str());
    out.append(",\"data\":\"\"}");
    assert(out@ =~= reply_json(id as int));
    out
}

} // verus!
