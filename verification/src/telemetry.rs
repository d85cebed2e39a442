//! Request telemetry and its log lines.
//!
//! A [`Telemetry`] value accumulates one entry per completed request and
//! is drained periodically by the logging loop; [`Timer`] carries a
//! request's start instant through its lifecycle.  The line formatters
//! here build the exact texts the log file receives; appending them to
//! the file happens outside this crate.

use vstd::prelude::*;
use vstd::string::StringExecFns;
use crate::strutil::dec_rep;
use crate::strutil::u128_to_string;
use crate::strutil::u64_to_string;

verus! {

/// Relies on `std::time::SystemTime::now` followed by
/// `duration_since(UNIX_EPOCH)`: the current time as whole seconds since
/// the Unix epoch.  Nothing is promised of the value; callers state what
/// holds whatever instant comes back; a clock set before the epoch
/// reads as the epoch itself.
#[verifier::external_body]
pub fn unix_now_seconds() -> u64 {
    match std::time::SystemTime::now().duration_since(std::time::UNIX_EPOCH) {
        Ok(d) => d.as_secs(),
        Err(_) => 0,
    }
}

/// One completed request, as recorded for the log.
#[derive(Debug)]
pub struct RequestEntry {
    pub method: String,
    pub uri: String,
    pub status: u16,
    pub body_size: usize,
    pub duration_micros: u64,
    pub started_at_utc: u64,
}

/// The log line of one request entry.
pub open spec fn request_line_spec(e: RequestEntry) -> Seq<char> {
    e.method@ + " "@ + e.uri@ + " "@ + dec_rep(e.status as int) + " "@ + dec_rep(
        e.body_size as int,
    ) + " "@ + dec_rep(e.duration_micros as int) + "µs"@
}

impl RequestEntry {
    /// Render the entry as its log line.
    pub fn render(&self) -> (r: String)
        ensures
            r@ == request_line_spec(*self),
    {
        let r = self.method.clone().concat(" ").concat(self.uri.as_str()).concat(" ").concat(
            u64_to_string(self.status as u64).as_str(),
        ).concat(" ").concat(u64_to_string(self.body_size as u64).as_str()).concat(" ").concat(
            u64_to_string(self.duration_micros).as_str(),
        ).concat("µs");
        proof {
            assert(r@ =~= request_line_spec(*self));
        }
        r
    }
}

/// The request log: entries accumulate per completed request and are
/// drained as a batch by the logging loop.
#[derive(Debug)]
pub struct Telemetry {
    requests: Vec<RequestEntry>,
}

impl Telemetry {
    /// The accumulated entries, oldest first.
    pub closed spec fn entries(self) -> Seq<RequestEntry> {
        self.requests@
    }

    /// An empty log.
    pub fn new() -> (r: Telemetry)
        ensures
            r.entries() == Seq::<RequestEntry>::empty(),
    {
        Telemetry { requests: Vec::new() }
    }

    /// Should a completed request be recorded?  Misses of the routing
    /// table and preflight requests are not.
    pub fn should_record(status: u16, is_preflight: bool) -> (r: bool)
        ensures
            r == !(status == 404 || is_preflight),
    {
        !(status == 404 || is_preflight)
    }

    /// Record one completed request.
    pub fn record(&mut self, entry: RequestEntry)
        ensures
            final(self).entries() == old(self).entries().push(entry),
    {
        self.requests.push(entry);
    }

    /// Reset the telemetry to a fresh state, returning the existing
    /// entries.
    pub fn reset(&mut self) -> (r: Vec<RequestEntry>)
        ensures
            final(self).entries() == Seq::<RequestEntry>::empty(),
            r@ == old(self).entries(),
    {
        let mut drained: Vec<RequestEntry> = Vec::new();
        core::mem::swap(&mut self.requests, &mut drained);
        drained
    }
}

/// A request's start instant: running (with the instant in epoch
/// seconds) or empty.
#[derive(Clone, Copy, Debug)]
pub struct Timer(pub Option<u64>);

impl Timer {
    /// A timer started now.
    pub fn begin() -> (r: Timer)
        ensures
            r.0 is Some,
    {
        Timer(Some(unix_now_seconds()))
    }

    /// An empty timer, used as the default when no start was recorded.
    pub fn end() -> (r: Timer)
        ensures
            r.0 is None,
    {
        Timer(None)
    }
}

/// The log line for one fan-out of a broadcast message.
pub open spec fn ws_message_line_spec(
    message_length: int,
    clients: int,
    microseconds: int,
) -> Seq<char> {
    "Sent WebSocket message ("@ + dec_rep(message_length) + " bytes) to "@ + dec_rep(clients)
        + " clients in "@ + dec_rep(microseconds) + "µs"@
}

/// Render the log line for one fan-out of a broadcast message.
pub fn log(message_length: usize, clients: usize, microseconds: u128) -> (r: String)
    ensures
        r@ == ws_message_line_spec(message_length as int, clients as int, microseconds as int),
{
    let r = "Sent WebSocket message (".to_owned().concat(
        u64_to_string(message_length as u64).as_str(),
    ).concat(" bytes) to ").concat(u64_to_string(clients as u64).as_str()).concat(
        " clients in ",
    ).concat(u128_to_string(microseconds).as_str()).concat("µs");
    proof {
        assert(r@ =~= ws_message_line_spec(
            message_length as int,
            clients as int,
            microseconds as int,
        ));
    }
    r
}

/// The periodic connection-count log line.
pub open spec fn connected_clients_line_spec(n: int) -> Seq<char> {
    "WebSocket connections: "@ + dec_rep(n)
}

/// Render the periodic connection-count log line.
pub fn connected_clients_line(n: usize) -> (r: String)
    ensures
        r@ == connected_clients_line_spec(n as int),
{
    let r = "WebSocket connections: ".to_owned().concat(u64_to_string(n as u64).as_str());
    proof {
        assert(r@ =~= connected_clients_line_spec(n as int));
    }
    r
}

} // verus!
