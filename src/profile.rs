//! The persisted profile: schema version, transaction, total gas, host
//! interaction summary, ranked hot paths and the time it was made.
use vstd::prelude::*;
use vstd::string::*;

use crate::hostio::{kind_at, kind_at_position, kind_label, kind_name, HostIoStats, HOSTIO_KINDS};
use crate::parser::{ParseError, ParsedTrace};
use crate::ranker::HotPath;
use crate::text::same_text;

verus! {

/// The schema version that profiles are written with and read back at.
pub fn schema_version() -> (r: &'static str)
    ensures
        r@ == "1.0.0"@,
{
    "1.0.0"
}

/// Host interactions as the profile records them.
#[derive(Debug, Clone)]
pub struct HostIoSummary {
    pub total_calls: u64,
    /// Count per kind name, for the kinds that occurred, in the fixed order of
    /// kinds.
    pub by_type: Vec<(String, u64)>,
    pub total_hostio_gas: u64,
}

/// The persisted artifact of one run.
#[derive(Debug, Clone)]
pub struct Profile {
    pub version: String,
    pub transaction_hash: String,
    pub total_gas: u64,
    pub hostio_summary: HostIoSummary,
    pub hot_paths: Vec<HotPath>,
    pub generated_at: String,
}

/// The kinds among the first `k` that occurred, with their counts.
pub open spec fn occurred_kinds(stats: HostIoStats, k: int) -> Seq<(Seq<char>, u64)>
    decreases k,
{
    if k <= 0 {
        Seq::empty()
    } else {
        let p = occurred_kinds(stats, k - 1);
        let t = kind_at(k - 1);
        if stats.count_of(t) > 0 {
            p.push((kind_name(t), stats.count_of(t)))
        } else {
            p
        }
    }
}

/// The views of a list of (name, count) pairs.
pub open spec fn named_counts(s: Seq<(String, u64)>) -> Seq<(Seq<char>, u64)> {
    s.map_values(|e: (String, u64)| (e.0@, e.1))
}

/// The counts per kind name of the kinds that occurred.
pub fn counts_by_type(stats: &HostIoStats) -> (r: Vec<(String, u64)>)
    requires
        stats.wf(),
    ensures
        named_counts(r@) == occurred_kinds(*stats, HOSTIO_KINDS as int),
{
    let mut r: Vec<(String, u64)> = Vec::new();
    let mut k: usize = 0;
    while k < HOSTIO_KINDS
        invariant
            0 <= k <= HOSTIO_KINDS,
            stats.wf(),
            named_counts(r@) == occurred_kinds(*stats, k as int),
        decreases HOSTIO_KINDS - k,
    {
        let t = kind_at_position(k);
        let c = stats.count_for_type(t);
        if c > 0 {
            let ghost before = r@;
            r.push((String::from_str(kind_label(t)), c));
            assert(named_counts(r@) =~= named_counts(before).push((kind_name(t), c)));
        }
        k = k + 1;
    }
    r
}

/// The profile of a trace, made at time `generated_at`.
pub fn assemble_profile(parsed_trace: &ParsedTrace, hot_paths: Vec<HotPath>, generated_at: String) -> (r: Profile)
    requires
        parsed_trace.hostio_stats.wf(),
    ensures
        r.version@ == "1.0.0"@,
        r.transaction_hash@ == parsed_trace.transaction_hash@,
        r.total_gas == parsed_trace.total_gas_used,
        r.hostio_summary.total_calls == parsed_trace.hostio_stats.calls(),
        named_counts(r.hostio_summary.by_type@) == occurred_kinds(
            parsed_trace.hostio_stats,
            HOSTIO_KINDS as int,
        ),
        r.hostio_summary.total_hostio_gas == parsed_trace.hostio_stats.gas(),
        r.hot_paths@ == hot_paths@,
        r.generated_at@ == generated_at@,
{
    Profile {
        version: String::from_str(schema_version()),
        transaction_hash: parsed_trace.transaction_hash.clone(),
        total_gas: parsed_trace.total_gas_used,
        hostio_summary: HostIoSummary {
            total_calls: parsed_trace.hostio_stats.total_calls(),
            by_type: counts_by_type(&parsed_trace.hostio_stats),
            total_hostio_gas: parsed_trace.hostio_stats.total_gas(),
        },
        hot_paths,
        generated_at,
    }
}

/// Relies on `chrono::Utc::now` and `DateTime::to_rfc3339`: the current time
/// as RFC 3339 text. Nothing is promised of the value.
#[verifier::external_body]
fn now_rfc3339() -> (r: String) {
    chrono::Utc::now().to_rfc3339()
}

/// The profile of a trace, stamped with the current time.
pub fn to_profile(parsed_trace: &ParsedTrace, hot_paths: Vec<HotPath>) -> (r: Profile)
    requires
        parsed_trace.hostio_stats.wf(),
    ensures
        r.version@ == "1.0.0"@,
        r.transaction_hash@ == parsed_trace.transaction_hash@,
        r.total_gas == parsed_trace.total_gas_used,
        r.hostio_summary.total_calls == parsed_trace.hostio_stats.calls(),
        named_counts(r.hostio_summary.by_type@) == occurred_kinds(
            parsed_trace.hostio_stats,
            HOSTIO_KINDS as int,
        ),
        r.hostio_summary.total_hostio_gas == parsed_trace.hostio_stats.gas(),
        r.hot_paths@ == hot_paths@,
{
    let generated_at = now_rfc3339();
    assemble_profile(parsed_trace, hot_paths, generated_at)
}

/// Accepts a profile's schema version only if it is the one this library
/// writes; any other is reported, not coerced.
pub fn check_profile_version(version: &str) -> (r: Result<(), ParseError>)
    ensures
        match r {
            Ok(_) => version@ == "1.0.0"@,
            Err(e) => version@ != "1.0.0"@ && e is UnsupportedVersion,
        },
{
    if same_text(version, schema_version()) {
        Ok(())
    } else {
        let mut msg = String::from_str("unsupported profile version ");
        msg.append(version);
        Err(ParseError::UnsupportedVersion(msg))
    }
}

} // verus!
