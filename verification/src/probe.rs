//! One probe tick: latency arithmetic and the exact report lines, plus the
//! decision the loop takes after each attempt.
//!
//! The surrounding binary performs the TCP connect and measures the elapsed
//! wall-clock time; everything it then prints and does is decided and
//! formatted here.

use vstd::prelude::*;

use crate::ip::IpAddress;
use crate::ip::spec_format_ip;
use crate::text::spec_dec;
use crate::text::u64_to_dec;

verus! {

/// Elapsed time in hundredths of a millisecond, rounded half up from
/// microseconds: the value printed as `X.YZms`.
pub open spec fn spec_latency_hundredths(secs: nat, micros: nat) -> nat {
    secs * 100000 + (micros + 5) / 10
}

/// Largest whole-second count the latency arithmetic accepts without
/// overflowing 64 bits.
pub const MAX_LATENCY_SECS: u64 = 184467440737094;

/// Elapsed time in hundredths of a millisecond, from whole seconds and the
/// sub-second microseconds.
pub fn latency_hundredths(secs: u64, micros: u32) -> (r: u64)
    requires
        micros < 1000000,
        secs <= MAX_LATENCY_SECS,
    ensures
        r == spec_latency_hundredths(secs as nat, micros as nat),
{
    secs * 100000 + (micros as u64 + 5) / 10
}

/// The millisecond text of a latency in hundredths of a millisecond: the
/// whole part, a dot, and exactly two fractional digits, then `ms`.
pub open spec fn spec_latency_text(h: nat) -> Seq<char> {
    spec_dec(h / 100) + seq!['.'] + (if h % 100 < 10 {
        seq!['0'] + spec_dec(h % 100)
    } else {
        spec_dec(h % 100)
    }) + seq!['m', 's']
}

/// Formats a latency in hundredths of a millisecond as `X.YZms`.
pub fn format_latency(h: u64) -> (r: String)
    ensures
        r@ == spec_latency_text(h as nat),
{
    proof {
        reveal_strlit(".");
        reveal_strlit("0");
        reveal_strlit("ms");
    }
    let whole = h / 100;
    let frac = h % 100;
    let mut s = u64_to_dec(whole);
    s.append(".");
    if frac < 10 {
        s.append("0");
    }
    s.append(u64_to_dec(frac).as_str());
    s.append("ms");
    proof {
        assert(s@ =~= spec_latency_text(h as nat));
    }
    s
}

/// The success report line for one probe.
pub open spec fn spec_connected_line(target: Seq<char>, port: u16, h: nat) -> Seq<char> {
    "Connected to "@ + target + ": time="@ + spec_latency_text(h) + " port="@ + spec_dec(
        port as nat,
    )
}

/// The failure report line for one probe.
pub open spec fn spec_timeout_line() -> Seq<char> {
    "Connection timed out\r"@
}

/// The line announcing the target before the loop starts.
pub open spec fn spec_banner_line(target: Seq<char>, port: u16) -> Seq<char> {
    "\nConnecting to "@ + target + " on port "@ + spec_dec(port as nat) + ":\r\n"@
}

/// The terminal title for a probe session.
pub open spec fn spec_title_line(target: Seq<char>, port: u16) -> Seq<char> {
    "Pinging "@ + target + ":"@ + spec_dec(port as nat)
}

/// Builds the success report line for one probe.
pub fn connected_line(target: &str, port: u16, h: u64) -> (r: String)
    ensures
        r@ == spec_connected_line(target@, port, h as nat),
{
    let mut s = "Connected to ".to_owned();
    s.append(target);
    s.append(": time=");
    s.append(format_latency(h).as_str());
    s.append(" port=");
    s.append(u64_to_dec(port as u64).as_str());
    proof {
        assert(s@ =~= spec_connected_line(target@, port, h as nat));
    }
    s
}

/// Builds the failure report line for one probe.
pub fn timeout_line() -> (r: String)
    ensures
        r@ == spec_timeout_line(),
{
    "Connection timed out\r".to_owned()
}

/// Builds the line announcing the target before the loop starts.
pub fn banner_line(target: &str, port: u16) -> (r: String)
    ensures
        r@ == spec_banner_line(target@, port),
{
    let mut s = "\nConnecting to ".to_owned();
    s.append(target);
    s.append(" on port ");
    s.append(u64_to_dec(port as u64).as_str());
    s.append(":\r\n");
    proof {
        assert(s@ =~= spec_banner_line(target@, port));
    }
    s
}

/// Builds the terminal title for a probe session.
pub fn title_line(target: &str, port: u16) -> (r: String)
    ensures
        r@ == spec_title_line(target@, port),
{
    let mut s = "Pinging ".to_owned();
    s.append(target);
    s.append(":");
    s.append(u64_to_dec(port as u64).as_str());
    proof {
        assert(s@ =~= spec_title_line(target@, port));
    }
    s
}

/// What one TCP connect attempt came to: a completed handshake and the
/// elapsed wall-clock time, or any failure (refused, unreachable, timed
/// out — all collapse to failure).
#[derive(Clone, Copy, PartialEq, Eq, Structural, Debug)]
pub enum ProbeOutcome {
    /// The handshake completed after the given elapsed time.
    Connected { elapsed_secs: u64, elapsed_micros: u32 },
    /// The attempt failed or timed out.
    Failed,
}

/// What the loop does after one probe: print this line, then sleep this many
/// milliseconds before the next attempt.
pub struct TickAction {
    /// The report line to print for this probe.
    pub line: String,
    /// Milliseconds to sleep before the next probe.
    pub sleep_ms: u64,
}

/// Decides one loop tick from the probe's outcome: the exact report line,
/// and an unconditional one-second pause before the next attempt.
pub fn tick(target: &IpAddress, port: u16, outcome: ProbeOutcome) -> (act: TickAction)
    requires
        outcome matches ProbeOutcome::Connected { elapsed_secs, elapsed_micros } ==> elapsed_micros
            < 1000000 && elapsed_secs <= MAX_LATENCY_SECS,
    ensures
        act.sleep_ms == crate::TICK_INTERVAL_MS,
        match outcome {
            ProbeOutcome::Connected { elapsed_secs, elapsed_micros } => act.line@
                == spec_connected_line(
                spec_format_ip(*target),
                port,
                spec_latency_hundredths(elapsed_secs as nat, elapsed_micros as nat),
            ),
            ProbeOutcome::Failed => act.line@ == spec_timeout_line(),
        },
{
    let line = match outcome {
        ProbeOutcome::Connected { elapsed_secs, elapsed_micros } => {
            let h = latency_hundredths(elapsed_secs, elapsed_micros);
            connected_line(target.format().as_str(), port, h)
        },
        ProbeOutcome::Failed => timeout_line(),
    };
    TickAction { line, sleep_ms: crate::TICK_INTERVAL_MS }
}

} // verus!
