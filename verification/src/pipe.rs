//! Decisions of the named-channel transport: what addresses bind and
//! connect accept, and how the accept and overlapped-send protocols treat
//! the codes the OS reports. The OS calls themselves live outside the
//! library; these functions pin down every branch they are steered by.

use vstd::prelude::*;

verus! {

use vstd::string::StringSliceAdditionalSpecFns;

/// The code the OS reports when a peer connected before the accept request.
pub const PIPE_CONNECTED_CODE: u32 = 535;

/// The code the OS reports while a connect or write request is still in
/// flight.
pub const IO_PENDING_CODE: u32 = 997;

/// The longest address `bind` accepts, leaving room for the encoded form.
pub const MAX_BIND_ADDRESS: usize = 999;

/// Whether `bind` accepts this address: it must fit the fixed encoding
/// buffer; a longer one is refused before any OS object is created.
pub fn bind_address_valid(path: &str) -> (r: bool)
    ensures
        r == (path.spec_bytes().len() <= MAX_BIND_ADDRESS),
{
    let bytes = path.as_bytes();
    bytes.len() <= MAX_BIND_ADDRESS
}

/// Whether `connect` accepts this address: the OS call takes a raw pointer,
/// so the address must be nonempty and carry its terminating zero byte.
pub fn connect_address_valid(path: &str) -> (r: bool)
    ensures
        r == (path.spec_bytes().len() > 0 && path.spec_bytes().last() == 0),
{
    let bytes = path.as_bytes();
    bytes.len() > 0 && bytes[bytes.len() - 1] == 0
}

/// What an accept request's outcome means for the listener.
pub enum AcceptStep {
    /// A peer is already connected: the accept completes now.
    Connected,
    /// The request is in flight: wait on the completion signal up to the
    /// caller's timeout, then request again to finalize.
    WaitForSignal,
    /// Any other code ends this accept.
    Fail(u32),
}

/// What finalizing the accept after the wait means for the listener.
pub enum AcceptOutcome {
    /// The peer is connected: hand the caller the new connection.
    Connected,
    /// Still in flight when the timeout elapsed: non-fatal, the caller
    /// retries after interleaving other work.
    Pending,
    /// Any other code ends this accept.
    Fatal(u32),
}

/// Reads the first connect request's result: immediate success, or the
/// already-connected code, completes the accept; the pending code means
/// waiting on the completion signal; anything else fails.
pub fn accept_decision(request_ok: bool, last_error: u32) -> (s: AcceptStep)
    ensures
        request_ok ==> s == AcceptStep::Connected,
        !request_ok && last_error == PIPE_CONNECTED_CODE ==> s == AcceptStep::Connected,
        !request_ok && last_error == IO_PENDING_CODE ==> s == AcceptStep::WaitForSignal,
        !request_ok && last_error != PIPE_CONNECTED_CODE && last_error != IO_PENDING_CODE ==> s
            == AcceptStep::Fail(last_error),
{
    if request_ok {
        AcceptStep::Connected
    } else if last_error == PIPE_CONNECTED_CODE {
        AcceptStep::Connected
    } else if last_error == IO_PENDING_CODE {
        AcceptStep::WaitForSignal
    } else {
        AcceptStep::Fail(last_error)
    }
}

/// Reads the re-requested connect's result after the wait: success or the
/// already-connected code completes the accept; the pending code surfaces
/// as non-fatal `Pending` so the listener thread can interleave other work
/// instead of blocking forever; anything else fails.
pub fn accept_finalize(request_ok: bool, last_error: u32) -> (o: AcceptOutcome)
    ensures
        request_ok ==> o == AcceptOutcome::Connected,
        !request_ok && last_error == PIPE_CONNECTED_CODE ==> o == AcceptOutcome::Connected,
        !request_ok && last_error == IO_PENDING_CODE ==> o == AcceptOutcome::Pending,
        !request_ok && last_error != PIPE_CONNECTED_CODE && last_error != IO_PENDING_CODE ==> o
            == AcceptOutcome::Fatal(last_error),
{
    if request_ok {
        AcceptOutcome::Connected
    } else if last_error == PIPE_CONNECTED_CODE {
        AcceptOutcome::Connected
    } else if last_error == IO_PENDING_CODE {
        AcceptOutcome::Pending
    } else {
        AcceptOutcome::Fatal(last_error)
    }
}

/// What an overlapped write's reported result means for the sender.
pub enum SendStep {
    /// The write completed synchronously.
    Done,
    /// The write is in flight: block on the completion signal, then the
    /// send is done.
    AwaitCompletion,
    /// Any other code fails the send.
    Fail(u32),
}

/// Reads an overlapped write request's result: immediate success completes
/// the send; the pending code means the caller blocks until the completion
/// signal fires; anything else fails the send and the connection is torn
/// down by the surrounding loop.
pub fn overlapped_send_step(request_ok: bool, last_error: u32) -> (s: SendStep)
    ensures
        request_ok ==> s == SendStep::Done,
        !request_ok && last_error == IO_PENDING_CODE ==> s == SendStep::AwaitCompletion,
        !request_ok && last_error != IO_PENDING_CODE ==> s == SendStep::Fail(last_error),
{
    if request_ok {
        SendStep::Done
    } else if last_error == IO_PENDING_CODE {
        SendStep::AwaitCompletion
    } else {
        SendStep::Fail(last_error)
    }
}

} // verus!
