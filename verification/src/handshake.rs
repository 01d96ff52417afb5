//! The one-time authorization check a new downstream connection passes: its
//! declared origin is held against a fixed allow-list before the connection
//! is upgraded and handed to the broadcaster.

use vstd::prelude::*;

verus! {

use vstd::string::StringExecFns;

/// The one origin a remote page may declare and be accepted.
pub open spec fn allowed_origin() -> Seq<char> {
    "https://d4.wartide.net"@
}

/// The origin a local, non-HTTP page declares.
pub open spec fn local_origin() -> Seq<char> {
    "null"@
}

/// Whether a downstream handshake with this declared origin is accepted:
/// only the fixed allowed value and the literal `null` pass; any other
/// origin is answered with a not-found rejection by the caller and never
/// reaches the broadcaster.
pub fn origin_allowed(origin: &String) -> (r: bool)
    ensures
        r == (origin@ == allowed_origin() || origin@ == local_origin()),
{
    let allowed = String::from_str("https://d4.wartide.net");
    let local = String::from_str("null");
    origin.eq(&allowed) || origin.eq(&local)
}

} // verus!
