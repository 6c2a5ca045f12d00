//! Results of the storage-network operations, and the decisions of the
//! JSON-RPC bridge to the sidecar process: request numbering, how a reply
//! becomes a result, and when a crashed sidecar is restarted.
use vstd::prelude::*;
use crate::text::{push_decimal, push_signed_decimal, push_str, signed_decimal, decimal, string_from_str};

verus! {

/// Outcome of pinning content.
pub struct PinResult {
    pub cid: String,
    pub size_bytes: i64,
}

/// Content retrieved by identifier, in base64.
pub struct RetrieveResult {
    pub content: String,
    pub size_bytes: i64,
}

/// Outcome of unpinning content.
pub struct UnpinResult {
    pub success: bool,
}

/// Identifiers pinned by this account.
pub struct ListResult {
    pub cids: Vec<String>,
    pub count: i64,
}

/// Connection status of the storage network.
pub struct ShelbyStatus {
    pub connected: bool,
    pub network: String,
    pub node_url: Option<String>,
}

/// Restarts attempted before the bridge gives up.
pub const MAX_RESTART_ATTEMPTS: u8 = 3;

/// The error text of a reply that carries an error.
pub open spec fn rpc_error_text(code: i32, message: Seq<char>) -> Seq<char> {
    "Sidecar error ["@ + signed_decimal(code as int) + "]: "@ + message
}

/// The error text of a reply without a result.
pub open spec fn null_result_text() -> Seq<char> {
    "Sidecar returned null result"@
}

/// The result of a JSON-RPC reply: its error when it has one, else its
/// result, else a null-result error.
pub fn rpc_outcome<V>(error: Option<(i32, String)>, result: Option<V>) -> (r: Result<V, String>)
    ensures
        match error {
            Some((code, message)) => r matches Err(e) && e@ == rpc_error_text(code, message@),
            None => match result {
                Some(v) => r == Ok::<V, String>(v),
                None => r matches Err(e) && e@ == null_result_text(),
            },
        },
{
    match error {
        Some((code, message)) => {
            let mut e = string_from_str("Sidecar error [");
            push_signed_decimal(&mut e, code as i64);
            push_str(&mut e, "]: ");
            push_str(&mut e, message.as_str());
            Err(e)
        },
        None => match result {
            Some(v) => Ok(v),
            None => Err(string_from_str("Sidecar returned null result")),
        },
    }
}

/// How an exchange with the sidecar over its pipes failed; the texts are
/// those of the I/O errors.
pub enum PipeFailure {
    /// Writing the request failed.
    Write(String),
    /// Flushing the request failed.
    Flush(String),
    /// The sidecar's output ended before a reply.
    Closed,
    /// Reading the reply failed.
    Read(String),
}

/// The error text of a failed exchange.
pub open spec fn pipe_failure_text(f: PipeFailure) -> Seq<char> {
    match f {
        PipeFailure::Write(e) => "Sidecar pipe broken: "@ + e@,
        PipeFailure::Flush(e) => "Sidecar flush failed: "@ + e@,
        PipeFailure::Closed => "Sidecar closed unexpectedly"@,
        PipeFailure::Read(e) => "Sidecar read failed: "@ + e@,
    }
}

/// The error of a failed exchange with the sidecar. After any such failure
/// the sidecar process is dropped, to be restarted by the next call.
pub fn pipe_failure_error(f: PipeFailure) -> (r: String)
    ensures
        r@ == pipe_failure_text(f),
{
    match f {
        PipeFailure::Write(e) => {
            let mut r = string_from_str("Sidecar pipe broken: ");
            push_str(&mut r, e.as_str());
            r
        },
        PipeFailure::Flush(e) => {
            let mut r = string_from_str("Sidecar flush failed: ");
            push_str(&mut r, e.as_str());
            r
        },
        PipeFailure::Closed => string_from_str("Sidecar closed unexpectedly"),
        PipeFailure::Read(e) => {
            let mut r = string_from_str("Sidecar read failed: ");
            push_str(&mut r, e.as_str());
            r
        },
    }
}

/// Numbers JSON-RPC requests from 1, wrapping around.
pub struct RequestIds {
    next: u64,
}

impl RequestIds {
    /// The next number to hand out.
    pub closed spec fn next_id(&self) -> u64 {
        self.next
    }

    /// Numbering from 1.
    pub fn new() -> (r: Self)
        ensures
            r.next_id() == 1,
    {
        RequestIds { next: 1 }
    }

    /// Hands out the next number.
    pub fn take(&mut self) -> (r: u64)
        ensures
            r == old(self).next_id(),
            final(self).next_id() == vstd::wrapping::u64_specs::wrapping_add(old(self).next_id(), 1),
    {
        let id = self.next;
        self.next = self.next.wrapping_add(1);
        id
    }
}

/// The count of sidecar restarts since the last successful start.
pub struct RestartPolicy {
    count: u8,
}

/// The error text once restarts are exhausted.
pub open spec fn exhausted_text(count: u8) -> Seq<char> {
    "Sidecar crashed "@ + decimal(count as nat) + " times \u{2014} not restarting. Restart the app."@
}

impl RestartPolicy {
    /// The restart count.
    pub closed spec fn count(&self) -> u8 {
        self.count
    }

    /// No restarts yet.
    pub fn new() -> (r: Self)
        ensures
            r.count() == 0,
    {
        RestartPolicy { count: 0 }
    }

    /// A successful start clears the count.
    pub fn reset(&mut self)
        ensures
            final(self).count() == 0,
    {
        self.count = 0;
    }

    /// The sidecar was found dead: the count goes up (wrapping at 256), and a
    /// restart is allowed unless `MAX_RESTART_ATTEMPTS` were already made.
    /// `Ok` carries the attempt's number.
    pub fn on_dead(&mut self) -> (r: Result<u8, String>)
        ensures
            final(self).count() == vstd::wrapping::u8_specs::wrapping_add(old(self).count(), 1),
            old(self).count() >= MAX_RESTART_ATTEMPTS ==> (r matches Err(e) && e@ == exhausted_text(
                old(self).count(),
            )),
            old(self).count() < MAX_RESTART_ATTEMPTS ==> r == Ok::<u8, String>(
                (old(self).count() + 1) as u8,
            ),
    {
        let count = self.count;
        self.count = self.count.wrapping_add(1);
        if count >= MAX_RESTART_ATTEMPTS {
            let mut e = string_from_str("Sidecar crashed ");
            push_decimal(&mut e, count as u64);
            push_str(&mut e, " times \u{2014} not restarting. Restart the app.");
            Err(e)
        } else {
            Ok(count + 1)
        }
    }
}

} // verus!
