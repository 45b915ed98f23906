//! One run: the per-line driver over the aggregation table and the run counters.
use vstd::prelude::*;
use crate::flow::{flow_key, flow_key_spec, merge_entry, AggregationTable, FlowView};
use crate::line::{parse_line, parse_line_spec, LineError, LineView};

verus! {

/// The run-wide counters.
pub struct RunStats {
    /// Every line read, accepted or not.
    pub total_lines: u64,
    /// The lines that were accepted and merged into the table.
    pub accepted_lines: u64,
    /// The paths of the files read, in the order they were read.
    pub files_processed: Vec<String>,
}

impl RunStats {
    /// No more lines are accepted than were read.
    pub open spec fn wf(&self) -> bool {
        self.accepted_lines <= self.total_lines
    }

    /// Counters of a run that has read nothing.
    pub fn new() -> (r: RunStats)
        ensures
            r.wf(),
            r.total_lines == 0,
            r.accepted_lines == 0,
            r.files_processed@.len() == 0,
    {
        RunStats { total_lines: 0, accepted_lines: 0, files_processed: Vec::new() }
    }

    /// Counts one line read; `accepted` tells whether it was merged.
    pub fn record_line(&mut self, accepted: bool)
        requires
            old(self).wf(),
            old(self).total_lines < u64::MAX,
        ensures
            final(self).wf(),
            final(self).total_lines == old(self).total_lines + 1,
            final(self).accepted_lines == old(self).accepted_lines + if accepted {
                1int
            } else {
                0int
            },
            final(self).files_processed@ == old(self).files_processed@,
    {
        self.total_lines = self.total_lines + 1;
        if accepted {
            self.accepted_lines = self.accepted_lines + 1;
        }
    }

    /// Notes that the file at `path` was read.
    pub fn record_file(&mut self, path: String)
        ensures
            final(self).total_lines == old(self).total_lines,
            final(self).accepted_lines == old(self).accepted_lines,
            final(self).files_processed@ == old(self).files_processed@.push(path),
    {
        self.files_processed.push(path);
    }

    /// The lines that were read and not accepted.
    pub fn rejected_lines(&self) -> (r: u64)
        requires
            self.wf(),
        ensures
            r == self.total_lines - self.accepted_lines,
            self.total_lines == self.accepted_lines + r,
    {
        self.total_lines - self.accepted_lines
    }
}

/// The table after one line: a line that parses is merged under its key with
/// its addresses and counters; a rejected line leaves the table as it was.
pub open spec fn step(t: Map<Seq<char>, FlowView>, line: Seq<char>) -> Map<Seq<char>, FlowView> {
    match parse_line_spec(line) {
        Ok(l) => merge_line(t, l),
        Err(_) => t,
    }
}

/// The table after the values of a parsed line are merged under its key.
pub open spec fn merge_line(t: Map<Seq<char>, FlowView>, l: LineView) -> Map<Seq<char>, FlowView> {
    merge_entry(
        t,
        flow_key_spec(l),
        l.source_ip,
        l.destination_ip,
        l.packets_in,
        l.bytes_in,
        l.packets_out,
        l.bytes_out,
    )
}

/// The table after the lines are taken in order, starting from `t`.
pub open spec fn run_lines(t: Map<Seq<char>, FlowView>, lines: Seq<Seq<char>>) -> Map<
    Seq<char>,
    FlowView,
>
    decreases lines.len(),
{
    if lines.len() == 0 {
        t
    } else {
        step(run_lines(t, lines.drop_last()), lines.last())
    }
}

/// What `str::trim` leaves of a text.
pub uninterp spec fn trimmed_text(s: Seq<char>) -> Seq<char>;

/// Relies on `str::trim`: the text without its leading and trailing white
/// space, which depends on the text alone.
#[verifier::external_body]
fn trim_line(s: &str) -> (r: &str)
    ensures
        r@ == trimmed_text(s@),
{
    s.trim()
}

/// The state of one run: its table of flows and its counters.
pub struct FlowAggregator {
    pub table: AggregationTable,
    pub stats: RunStats,
}

impl FlowAggregator {
    pub open spec fn wf(&self) -> bool {
        self.table.wf() && self.stats.wf()
    }

    /// A run that has read nothing.
    pub fn new() -> (r: FlowAggregator)
        ensures
            r.wf(),
            r.table@ == Map::<Seq<char>, FlowView>::empty(),
            r.stats.total_lines == 0,
            r.stats.accepted_lines == 0,
            r.stats.files_processed@.len() == 0,
    {
        FlowAggregator { table: AggregationTable::new(), stats: RunStats::new() }
    }

    /// Notes that the file at `path` was read.
    pub fn record_file(&mut self, path: String)
        requires
            old(self).wf(),
        ensures
            final(self).wf(),
            final(self).table@ == old(self).table@,
            final(self).stats.total_lines == old(self).stats.total_lines,
            final(self).stats.accepted_lines == old(self).stats.accepted_lines,
            final(self).stats.files_processed@ == old(self).stats.files_processed@.push(path),
    {
        self.stats.record_file(path);
    }

    /// Takes one line whose surrounding white space is already removed: it is
    /// counted, and merged into the table when it parses. The result is the
    /// reason for a rejection.
    pub fn process_trimmed(&mut self, line: &str) -> (r: Result<(), LineError>)
        requires
            old(self).wf(),
            old(self).stats.total_lines < u64::MAX,
        ensures
            final(self).wf(),
            final(self).table@ == step(old(self).table@, line@),
            r is Ok <==> parse_line_spec(line@) is Ok,
            r matches Err(e) ==> parse_line_spec(line@) == Err::<LineView, LineError>(e),
            final(self).stats.total_lines == old(self).stats.total_lines + 1,
            final(self).stats.accepted_lines == old(self).stats.accepted_lines + if r is Ok {
                1int
            } else {
                0int
            },
            final(self).stats.files_processed@ == old(self).stats.files_processed@,
    {
        match parse_line(line) {
            Ok(p) => {
                let key = flow_key(&p);
                self.table.merge_or_insert(
                    key,
                    p.source_ip,
                    p.destination_ip,
                    p.packets_in,
                    p.bytes_in,
                    p.packets_out,
                    p.bytes_out,
                );
                self.stats.record_line(true);
                Ok(())
            },
            Err(e) => {
                self.stats.record_line(false);
                Err(e)
            },
        }
    }

    /// Takes one raw line as read from a file: its surrounding white space is
    /// removed, then it is handled as [`FlowAggregator::process_trimmed`] does.
    pub fn process_line(&mut self, raw: &str) -> (r: Result<(), LineError>)
        requires
            old(self).wf(),
            old(self).stats.total_lines < u64::MAX,
        ensures
            final(self).wf(),
            final(self).table@ == step(old(self).table@, trimmed_text(raw@)),
            r is Ok <==> parse_line_spec(trimmed_text(raw@)) is Ok,
            r matches Err(e) ==> parse_line_spec(trimmed_text(raw@)) == Err::<LineView, LineError>(
                e,
            ),
            final(self).stats.total_lines == old(self).stats.total_lines + 1,
            final(self).stats.accepted_lines == old(self).stats.accepted_lines + if r is Ok {
                1int
            } else {
                0int
            },
            final(self).stats.files_processed@ == old(self).stats.files_processed@,
    {
        let line = trim_line(raw);
        self.process_trimmed(line)
    }
}

} // verus!
