//! Decisions of the command line.

use vstd::prelude::*;

use crate::text::Text;

verus! {

/// What of a trace to show.
#[derive(Clone, Copy, Debug, PartialEq, Eq, Structural)]
pub enum TraceFilter {
    /// Everything, by node and attempt.
    Default,
    /// One line for each event, in order.
    Summary,
    /// The prompts, in full.
    Prompts,
    /// The failures, in full.
    Failures,
}

/// Chooses what of a trace to show. Of several wishes, prompts come before
/// failures and failures before the summary.
pub fn trace_filter(summary: bool, prompts: bool, failures: bool) -> (filter: TraceFilter)
    ensures
        filter == if prompts {
            TraceFilter::Prompts
        } else if failures {
            TraceFilter::Failures
        } else if summary {
            TraceFilter::Summary
        } else {
            TraceFilter::Default
        },
{
    if prompts {
        TraceFilter::Prompts
    } else if failures {
        TraceFilter::Failures
    } else if summary {
        TraceFilter::Summary
    } else {
        TraceFilter::Default
    }
}

/// Where a rented instance can be reached.
pub open spec fn address(host: Option<Text>, port: Option<u16>) -> Text {
    match (host, port) {
        (Some(h), Some(p)) => h + ":"@ + crate::text::decimal(p as nat),
        _ => "not ready"@,
    }
}

/// Where a rented instance can be reached, once it has a host and a port.
pub fn ssh_address(host: &Option<String>, port: Option<u16>) -> (out: String)
    ensures
        out@ == address(crate::text::opt_text(*host), port),
{
    match (host, port) {
        (Some(host), Some(port)) => {
            let mut out = host.clone();
            out.append(":");
            out.append(crate::text::decimal_text(port as u64).as_str());
            out
        },
        _ => "not ready".to_string(),
    }
}

} // verus!
