//! The resolver's decisions: recognise an address literal, and turn a
//! lookup's outcome into either a target or a fatal failure.
//!
//! The system lookup itself is I/O and stays with the surrounding binary; it
//! hands its first result back in as a plain value.

use vstd::prelude::*;

use crate::ip::IpAddress;
use crate::ip::lemma_ip_format_injective;
use crate::ip::spec_format_ip;

verus! {

/// Exit code of the process when resolution fails or yields nothing.
pub const RESOLVE_FAILURE_EXIT_CODE: i32 = 1;

/// First resolver step on the raw target text.
#[derive(Clone, Copy, PartialEq, Eq, Structural, Debug)]
pub enum ResolveStep {
    /// The text is an IPv4 address literal: this very address, no lookup.
    Literal(IpAddress),
    /// The text is no such literal: a system lookup must decide.
    NeedLookup,
}

/// Final resolver outcome once any lookup has answered.
#[derive(Clone, Copy, PartialEq, Eq, Structural, Debug)]
pub enum ResolveOutcome {
    /// Probe this address.
    Resolved(IpAddress),
    /// Resolution failed: the process must stop with
    /// [`RESOLVE_FAILURE_EXIT_CODE`].
    Fatal,
}

/// Decides whether the target text is an IPv4 address literal. A literal
/// resolves to the very address it spells, unchanged; anything else is left
/// to the system lookup.
pub fn resolve_step(host: &str) -> (r: ResolveStep)
    ensures
        match r {
            ResolveStep::Literal(ip) => ip is V4 && host@ == spec_format_ip(ip),
            ResolveStep::NeedLookup => forall|ip: IpAddress|
                ip is V4 ==> host@ != spec_format_ip(ip),
        },
        forall|ip: IpAddress|
            ip is V4 && host@ == spec_format_ip(ip) ==> r == ResolveStep::Literal(ip),
{
    let r = match IpAddress::parse_ipv4(host) {
        Some(ip) => ResolveStep::Literal(ip),
        None => ResolveStep::NeedLookup,
    };
    proof {
        match r {
            ResolveStep::Literal(ip0) => {
                assert forall|ip: IpAddress|
                    ip is V4 && host@ == spec_format_ip(ip) implies r == ResolveStep::Literal(
                    ip,
                ) by {
                    lemma_ip_format_injective(ip0, ip);
                }
            },
            ResolveStep::NeedLookup => {},
        }
    }
    r
}

/// Turns the first address a lookup produced into the final outcome: the
/// address itself, unchanged, or the fatal failure when the lookup failed or
/// produced none.
pub fn lookup_outcome(found: Option<IpAddress>) -> (r: ResolveOutcome)
    ensures
        match found {
            Some(a) => r == ResolveOutcome::Resolved(a),
            None => r == ResolveOutcome::Fatal,
        },
{
    match found {
        Some(a) => ResolveOutcome::Resolved(a),
        None => ResolveOutcome::Fatal,
    }
}

} // verus!
