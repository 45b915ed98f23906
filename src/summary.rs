//! The run's metadata: elapsed time, throughput and acceptance figures.
//!
//! Ratios are kept in hundredths and rounded half up; a ratio whose
//! denominator is zero (no lines read, or no time elapsed) is reported as zero.
use vstd::prelude::*;
use crate::run::RunStats;

verus! {

/// The character of a decimal digit.
pub open spec fn digit_char(d: nat) -> char {
    seq!['0', '1', '2', '3', '4', '5', '6', '7', '8', '9'][d as int]
}

/// The decimal text of a number, without leading zeros.
pub open spec fn decimal_text(n: nat) -> Seq<char>
    decreases n,
{
    if n < 10 {
        seq![digit_char(n)]
    } else {
        decimal_text(n / 10).push(digit_char(n % 10))
    }
}

/// Relies on `u128`'s `Display` (through `to_string`): a number is written in
/// decimal digits, without sign or leading zeros.
#[verifier::external_body]
fn decimal_string(n: u128) -> (r: String)
    ensures
        r@ == decimal_text(n as nat),
{
    n.to_string()
}

/// `num / den` rounded to the nearest whole number, halves up.
pub open spec fn rounded_ratio(num: int, den: int) -> int {
    (2 * num + den) / (2 * den)
}

/// The share of accepted lines among all lines, in hundredths of a percent.
pub open spec fn percent_hundredths_spec(accepted: nat, total: nat) -> nat {
    if total == 0 {
        0
    } else {
        rounded_ratio(accepted * 10000int, total as int) as nat
    }
}

/// Lines per second, in hundredths, over a span given in milliseconds.
pub open spec fn rate_hundredths_spec(lines: nat, elapsed_ms: nat) -> nat {
    if elapsed_ms == 0 {
        0
    } else {
        rounded_ratio(lines * 100000int, elapsed_ms as int) as nat
    }
}

/// A number of hundredths written with two decimals (`1234` is `12.34`).
pub open spec fn fixed2_text(h: nat) -> Seq<char> {
    decimal_text(h / 100) + seq!['.'] + decimal_text((h % 100) / 10) + decimal_text(h % 10)
}

/// The acceptance summary: `<accepted> (<percent>% of total connections)`.
pub open spec fn session_close_text(accepted: nat, total: nat) -> Seq<char> {
    decimal_text(accepted) + " ("@ + fixed2_text(percent_hundredths_spec(accepted, total))
        + "% of total connections)"@
}

/// The throughput: `<lines per second> connections/second`.
pub open spec fn throughput_text(lines: nat, elapsed_ms: nat) -> Seq<char> {
    fixed2_text(rate_hundredths_spec(lines, elapsed_ms)) + " connections/second"@
}

/// The time between two clock readings in milliseconds; zero where the clock
/// went backwards.
pub open spec fn elapsed_spec(start_ms: u64, end_ms: u64) -> u64 {
    if end_ms >= start_ms {
        (end_ms - start_ms) as u64
    } else {
        0
    }
}

/// The share of accepted lines among all lines, in hundredths of a percent.
pub fn percent_hundredths(accepted: u64, total: u64) -> (r: u128)
    ensures
        r == percent_hundredths_spec(accepted as nat, total as nat),
{
    if total == 0 {
        0
    } else {
        let num: u128 = accepted as u128 * 10000;
        let den: u128 = total as u128;
        (2 * num + den) / (2 * den)
    }
}

/// Lines per second, in hundredths, over a span given in milliseconds.
pub fn rate_hundredths(lines: u64, elapsed_ms: u64) -> (r: u128)
    ensures
        r == rate_hundredths_spec(lines as nat, elapsed_ms as nat),
{
    if elapsed_ms == 0 {
        0
    } else {
        let num: u128 = lines as u128 * 100000;
        let den: u128 = elapsed_ms as u128;
        (2 * num + den) / (2 * den)
    }
}

/// Writes a number of hundredths with two decimals.
pub fn fixed2_string(h: u128) -> (r: String)
    ensures
        r@ == fixed2_text(h as nat),
{
    proof {
        reveal_strlit(".");
    }
    let mut s = decimal_string(h / 100);
    s.append(".");
    let tenths = decimal_string((h % 100) / 10);
    s.append(tenths.as_str());
    let hundredths = decimal_string(h % 10);
    s.append(hundredths.as_str());
    assert(s@ =~= fixed2_text(h as nat));
    s
}

/// The acceptance summary of a run.
pub fn session_close_string(accepted: u64, total: u64) -> (r: String)
    ensures
        r@ == session_close_text(accepted as nat, total as nat),
{
    proof {
        reveal_strlit(" (");
        reveal_strlit("% of total connections)");
    }
    let mut s = decimal_string(accepted as u128);
    s.append(" (");
    let pct = fixed2_string(percent_hundredths(accepted, total));
    s.append(pct.as_str());
    s.append("% of total connections)");
    assert(s@ =~= session_close_text(accepted as nat, total as nat));
    s
}

/// The throughput of a run.
pub fn throughput_string(lines: u64, elapsed_ms: u64) -> (r: String)
    ensures
        r@ == throughput_text(lines as nat, elapsed_ms as nat),
{
    proof {
        reveal_strlit(" connections/second");
    }
    let mut s = fixed2_string(rate_hundredths(lines, elapsed_ms));
    s.append(" connections/second");
    s
}

/// The time between two clock readings in milliseconds.
pub fn elapsed_ms(start_ms: u64, end_ms: u64) -> (r: u64)
    ensures
        r == elapsed_spec(start_ms, end_ms),
{
    if end_ms >= start_ms {
        end_ms - start_ms
    } else {
        0
    }
}

/// The figures reported for one run.
pub struct RunMetadata {
    /// Clock reading at the start, in milliseconds since the epoch.
    pub start_ms: u64,
    /// Clock reading at the end, in milliseconds since the epoch.
    pub end_ms: u64,
    /// Milliseconds between the two readings.
    pub elapsed_ms: u64,
    /// Every line read.
    pub total_connections: u64,
    /// The lines accepted into the table.
    pub accepted_lines: u64,
    /// `<accepted> (<percent>% of total connections)`.
    pub session_close: String,
    /// The number of flows in the table.
    pub flows: usize,
    /// The files read, in order.
    pub files_processed: Vec<String>,
    /// `<lines per second> connections/second`.
    pub connections_per_second: String,
}

/// Computes the metadata of a run from its clock readings, its counters and
/// the number of flows it found.
pub fn summarize(start_ms: u64, end_ms: u64, stats: RunStats, flows: usize) -> (r: RunMetadata)
    ensures
        r.start_ms == start_ms,
        r.end_ms == end_ms,
        r.elapsed_ms == elapsed_spec(start_ms, end_ms),
        r.total_connections == stats.total_lines,
        r.accepted_lines == stats.accepted_lines,
        r.session_close@ == session_close_text(
            stats.accepted_lines as nat,
            stats.total_lines as nat,
        ),
        r.flows == flows,
        r.files_processed@ == stats.files_processed@,
        r.connections_per_second@ == throughput_text(
            stats.total_lines as nat,
            elapsed_spec(start_ms, end_ms) as nat,
        ),
{
    let elapsed = elapsed_ms(start_ms, end_ms);
    RunMetadata {
        start_ms,
        end_ms,
        elapsed_ms: elapsed,
        total_connections: stats.total_lines,
        accepted_lines: stats.accepted_lines,
        session_close: session_close_string(stats.accepted_lines, stats.total_lines),
        flows,
        files_processed: stats.files_processed,
        connections_per_second: throughput_string(stats.total_lines, elapsed),
    }
}

/// The text of the output file's path: `<dir>/FDB_DP_v11_<stamp>.json`.
pub open spec fn output_path_text(dir: Seq<char>, stamp: Seq<char>) -> Seq<char> {
    dir + "/FDB_DP_v11_"@ + stamp + ".json"@
}

/// Builds the output file's path from its directory and a time stamp.
pub fn output_path(dir: &str, stamp: &str) -> (r: String)
    ensures
        r@ == output_path_text(dir@, stamp@),
{
    proof {
        reveal_strlit("/FDB_DP_v11_");
        reveal_strlit(".json");
    }
    let mut s = dir.to_owned();
    s.append("/FDB_DP_v11_");
    s.append(stamp);
    s.append(".json");
    assert(s@ =~= output_path_text(dir@, stamp@));
    s
}

} // verus!
