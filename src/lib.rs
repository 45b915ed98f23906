//! Aggregation of firewall connection logs into per-flow traffic totals.
//!
//! Each log line is split at commas and validated ([`parse_line`]); an
//! accepted line is merged into the [`AggregationTable`] under its composite
//! key ([`flow_key`]); a [`FlowAggregator`] counts every line in its
//! [`RunStats`]; and [`summarize`] derives the run's [`RunMetadata`].

mod flow;
mod laws;
mod line;
mod number;
mod run;
mod summary;

pub use flow::{
    flow_key, flow_key_spec, joined, key_separator, merge_entry, sat_add, AggregationTable,
    FlowRecord, FlowView,
};
pub use laws::{
    capped, closed_form, concat_files, counted, counter_value, first_line_for, flow_counter,
    key_sum, law_file_order_irrelevant, law_first_writer_wins, law_key_partition,
    law_merge_sums, law_only_accepted_keys, law_rejected_line_not_merged, law_run_totals,
    parsed_sum, separator_free, Counter,
};
pub use line::{
    char_vec, parse_line, parse_line_spec, split_commas, split_fields, string_views, LineError,
    LineView, ParsedLine, MIN_FIELDS,
};
pub use number::{
    all_digits, digit_value, digits_value, is_digit, parse_u64, parse_u64_spec, unsigned_body,
};
pub use run::{merge_line, run_lines, step, trimmed_text, FlowAggregator, RunStats};
pub use summary::{
    decimal_text, digit_char, elapsed_ms, elapsed_spec, fixed2_string, fixed2_text, output_path,
    output_path_text, percent_hundredths, percent_hundredths_spec, rate_hundredths,
    rate_hundredths_spec, rounded_ratio, session_close_string, session_close_text, summarize,
    throughput_string, throughput_text, RunMetadata,
};
