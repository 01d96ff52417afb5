//! The optional request a downstream client may send: a JSON object with an
//! integer `id` member, answered by echoing the id back with empty data.
//! Reading the id leans on serde_json behind one trusted item whose result
//! is named, so the reply decision is pinned down exactly: a frame carrying
//! an integer id is answered, every other frame is not.

use vstd::prelude::*;

verus! {

use crate::json::{build_reply_json, reply_json};

/// The integer `id` member of this text, when the text is well-formed JSON
/// whose `id` member is an integer that fits an i64; None otherwise. A
/// function of the text alone, named here so the reply contracts can say
/// exactly when an acknowledgment is owed.
pub uninterp spec fn json_int_id_of(s: Seq<char>) -> Option<int>;

/// Relies on serde_json::from_str::<Value> (Ok exactly on well-formed JSON
/// text), Value::get (Some of the member under the key when the value is an
/// object that has one) and Value::as_i64 (Some exactly when that member is
/// an integer that fits an i64): together, the request id of the text.
#[verifier::external_body]
fn extract_request_id(text: &str) -> (r: Option<i64>)
    ensures
        r is Some <==> json_int_id_of(text@) is Some,
        r matches Some(id) ==> json_int_id_of(text@) == Some(id as int),
{
    serde_json::from_str::<serde_json::Value>(text).ok().and_then(
        |v| v.get("id").and_then(|m| m.as_i64()),
    )
}

/// The acknowledgment for a request carrying this id.
pub fn reply_for_id(id: i64) -> (out: String)
    ensures
        out@ == reply_json(id as int),
{
    build_reply_json(id)
}

/// Reads one text frame from a downstream client and decides the reply: a
/// frame of well-formed JSON whose `id` member is an integer is answered
/// with the acknowledgment echoing that id; any other frame — malformed
/// JSON, or JSON without an integer `id` — gets no reply and leaves the
/// connection as it was.
pub fn client_reply(text: &str) -> (r: Option<String>)
    ensures
        json_int_id_of(text@) matches Some(id) ==> (r matches Some(out) && out@ == reply_json(
            id,
        )),
        json_int_id_of(text@) is None ==> r is None,
{
    match extract_request_id(text) {
        Some(id) => Some(reply_for_id(id)),
        None => None,
    }
}

} // verus!
