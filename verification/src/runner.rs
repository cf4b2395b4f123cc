//! The measurement-and-aggregation engine: executes strategies under
//! controlled conditions, captures per-trial statistics, folds them into one
//! record per strategy, and renders the sorted comparison table.

use crate::measure::measure_strategy;
use crate::sorting::{sort_stats, sorted_records};
use crate::stats::{is_aggregate_of, Stats, Trial, TRIAL_COUNT};
use crate::table::{
    table_add_row, table_align_right, table_header, table_new, table_rows, table_set_header,
};
use crate::text::{
    dec_str, i64_string, int_str, ratio_percent_str, ratio_percent_string, u64_string,
    usize_string,
};
use vstd::prelude::*;
use vstd::string::StringExecFns;

verus! {

/// The UTF-8 byte length of a text.
pub open spec fn byte_len(s: Seq<char>) -> int {
    vstd::utf8::encode_utf8(s).len() as int
}

/// What a single trial measurement can be trusted to mean: its output size
/// is the byte length of an output that the strategy can return for the
/// runner's document. The timing and memory figures are whatever the clock
/// and the allocator reported.
pub open spec fn trial_of<F: Fn(&str) -> String>(html: Seq<char>, extractor: F, t: Trial) -> bool {
    exists|s: &str, out: String|
        #[trigger] call_ensures(extractor, (s,), out) && s@ == html && t.output_size == byte_len(
            out@,
        ) as usize
}

/// Owns the document, the output directory path, and the per-strategy
/// records. The runner has two logical states: accepting, in which `run`
/// may be called, and finalized — entered by `into_table`, which consumes
/// the runner, so the transition is one-way by ownership.
pub struct Runner {
    /// Path of the directory where each strategy's output text is written.
    pub out_dir: String,
    /// The immutable source document shared read-only by all strategies.
    pub html: String,
    /// One record per completed `run` call, in registration order.
    pub stats: Vec<Stats>,
}

/// The header cells of the comparison table.
pub open spec fn report_header() -> Seq<Seq<char>> {
    seq![
        "Name"@,
        "Time (microseconds)"@,
        "Peak Memory (bytes)"@,
        "Peak Memory as % of HTML Size"@,
        "Leaked Memory (bytes)"@,
        "Avg Leaked Memory (bytes)"@,
        "Output Size (bytes)"@,
        "% Reduction"@,
        "Output File"@,
    ]
}

/// The path of the output file for one strategy name.
pub open spec fn output_path_of(out_dir: Seq<char>, name: Seq<char>) -> Seq<char> {
    out_dir + "/"@ + name + ".txt"@
}

/// The table row derived from one record: the raw figures rendered in
/// decimal, and the two percentage columns derived against the original
/// document size.
pub open spec fn row_of(s: Stats, doc_size: int, out_dir: Seq<char>) -> Seq<Seq<char>> {
    seq![
        s.name@,
        dec_str(s.time_micros as nat),
        dec_str(s.peak_memory as nat),
        ratio_percent_str(s.peak_memory as int, doc_size),
        int_str(s.leaked_last as int),
        int_str(s.leaked_avg as int),
        dec_str(s.output_size as nat),
        ratio_percent_str(doc_size - s.output_size, doc_size),
        output_path_of(out_dir, s.name@),
    ]
}

/// The full report: the records in name order, one row each.
pub open spec fn report_rows_spec(r: Runner) -> Seq<Seq<Seq<char>>> {
    sorted_records(r.stats@).map_values(|s: Stats| row_of(s, byte_len(r.html@), r.out_dir@))
}

/// Law: the report is a pure function of the finalized state — two runners
/// holding the same document, directory and records have identical reports,
/// so rendering a finalized runner twice would give identical output.
pub proof fn lemma_report_deterministic(a: Runner, b: Runner)
    requires
        a.html@ == b.html@,
        a.out_dir@ == b.out_dir@,
        a.stats@ == b.stats@,
    ensures
        report_rows_spec(a) == report_rows_spec(b),
{
    assert(report_rows_spec(a) =~= report_rows_spec(b));
}

/// Law: a strategy that fails on every call gives `run` nothing to record
/// or return. No trial can satisfy [`trial_of`] and no output the final
/// clause of `run`'s contract, so `run` cannot return normally for such a
/// strategy: the failure propagates to the caller, and the record
/// collection the caller sees again is the one from before the call.
pub proof fn lemma_failing_strategy_admits_no_run<F: Fn(&str) -> String>(
    extractor: F,
    html: Seq<char>,
)
    requires
        forall|s: &str, out: String| !(#[trigger] call_ensures(extractor, (s,), out)),
    ensures
        forall|t: Trial| !(#[trigger] trial_of(html, extractor, t)),
        forall|s: &str, output: String|
            s@ == html ==> !(#[trigger] call_ensures(extractor, (s,), output)),
{
    assert forall|t: Trial| !(#[trigger] trial_of(html, extractor, t)) by {
        if trial_of(html, extractor, t) {
            let (s0, out0) = choose|s: &str, out: String|
                #[trigger] call_ensures(extractor, (s,), out) && s@ == html && t.output_size
                    == byte_len(out@) as usize;
            assert(!call_ensures(extractor, (s0,), out0));
        }
    }
}

impl Runner {
    /// Creates a runner that owns `html` and will address output files
    /// inside `out_dir`. Performs no I/O.
    pub fn new(out_dir: String, html: String) -> (r: Runner)
        ensures
            r.out_dir == out_dir,
            r.html == html,
            r.stats@ == Seq::<Stats>::empty(),
    {
        Runner { out_dir, html, stats: Vec::new() }
    }

    /// Measures one trial of a strategy: brackets one invocation with the
    /// allocation-accounting scope, then times a second invocation and takes
    /// its output's byte length.
    pub fn calculate_statistics<F: Fn(&str) -> String>(&self, extractor: &F) -> (t: Trial)
        requires
            forall|s: &str| s@ == self.html@ ==> #[trigger] call_requires(*extractor, (s,)),
        ensures
            trial_of(self.html@, *extractor, t),
    {
        let input: &str = self.html.as_str();
        let (peak_memory, leaked) = measure_strategy(extractor, input);
        let start = std::time::Instant::now();
        let output = extractor(input);
        let micros: u128 = start.elapsed().as_micros();
        let time_micros: u64 = #[verifier::truncate] (micros as u64);
        let output_size: usize = output.as_str().len();
        Trial { time_micros, output_size, peak_memory, leaked }
    }

    /// Runs one strategy for [`TRIAL_COUNT`] trials, appends exactly one
    /// aggregated record under `name`, and returns the strategy's output for
    /// the caller to persist, produced by one further invocation outside any
    /// measured scope. A failure raised by the strategy propagates uncaught,
    /// and the record is appended only after every trial has returned, so a
    /// strategy that never returns leaves the record collection as it was;
    /// see [`lemma_failing_strategy_admits_no_run`].
    pub fn run<F: Fn(&str) -> String>(&mut self, name: &'static str, extractor: F) -> (output:
        String)
        requires
            forall|s: &str|
                s@ == old(self).html@ ==> #[trigger] call_requires(extractor, (s,)),
        ensures
            final(self).out_dir == old(self).out_dir,
            final(self).html == old(self).html,
            final(self).stats@ == old(self).stats@.push(final(self).stats@.last()),
            final(self).stats@.len() == old(self).stats@.len() + 1,
            exists|trials: Seq<Trial>|
                trials.len() == TRIAL_COUNT && #[trigger] is_aggregate_of(
                    final(self).stats@.last(),
                    name@,
                    trials,
                ) && (forall|k: int|
                    0 <= k < trials.len() ==> trial_of(
                        old(self).html@,
                        extractor,
                        #[trigger] trials[k],
                    )),
            exists|s: &str|
                s@ == old(self).html@ && #[trigger] call_ensures(extractor, (s,), output),
    {
        let mut trials: Vec<Trial> = Vec::new();
        let mut i: usize = 0;
        while i < TRIAL_COUNT
            invariant
                i <= TRIAL_COUNT,
                trials@.len() == i,
                self == old(self),
                forall|s: &str|
                    s@ == self.html@ ==> #[trigger] call_requires(extractor, (s,)),
                forall|k: int|
                    0 <= k < trials@.len() ==> trial_of(
                        self.html@,
                        extractor,
                        #[trigger] trials@[k],
                    ),
            decreases TRIAL_COUNT - i,
        {
            let t = self.calculate_statistics(&extractor);
            trials.push(t);
            i = i + 1;
        }
        let rec = Stats::aggregate(name, &trials);
        self.stats.push(rec);
        let input: &str = self.html.as_str();
        let output = extractor(input);
        proof {
            assert(self.stats@.last() == rec);
            assert(trials@.len() == TRIAL_COUNT && is_aggregate_of(
                self.stats@.last(),
                name@,
                trials@,
            ));
        }
        output
    }

    /// The path of the output file for one strategy name, inside this
    /// runner's output directory.
    pub fn output_path(&self, name: &str) -> (p: String)
        ensures
            p@ == output_path_of(self.out_dir@, name@),
    {
        let mut p = self.out_dir.clone();
        p.append("/");
        p.append(name);
        p.append(".txt");
        p
    }

    /// Renders the table row for one record.
    fn make_row(&self, s: Stats) -> (row: Vec<String>)
        requires
            0 < byte_len(self.html@) <= usize::MAX,
        ensures
            row.deep_view() == row_of(s, byte_len(self.html@), self.out_dir@),
    {
        let doc_size: usize = self.html.as_str().len();
        proof {
            assert(doc_size == byte_len(self.html@));
        }
        let mut row: Vec<String> = Vec::new();
        row.push(String::from_str(s.name));
        row.push(u64_string(s.time_micros));
        row.push(u64_string(s.peak_memory));
        row.push(ratio_percent_string(s.peak_memory as i128, doc_size));
        row.push(i64_string(s.leaked_last));
        row.push(i64_string(s.leaked_avg));
        row.push(usize_string(s.output_size));
        let num: i128 = (doc_size as i128) - (s.output_size as i128);
        row.push(ratio_percent_string(num, doc_size));
        row.push(self.output_path(s.name));
        proof {
            assert(row.deep_view() =~~= row_of(s, byte_len(self.html@), self.out_dir@));
        }
        row
    }

    /// The report's content rows: the records in name order, one row per
    /// record, percentages derived against the original document size.
    pub fn report_rows(&self) -> (rows: Vec<Vec<String>>)
        requires
            0 < byte_len(self.html@) <= usize::MAX,
        ensures
            rows.deep_view() == report_rows_spec(*self),
    {
        let sorted = sort_stats(&self.stats);
        let mut rows: Vec<Vec<String>> = Vec::new();
        let mut i: usize = 0;
        while i < sorted.len()
            invariant
                0 < byte_len(self.html@) <= usize::MAX,
                sorted@ == sorted_records(self.stats@),
                i <= sorted@.len(),
                rows@.len() == i,
                rows.deep_view() =~~= sorted@.subrange(0, i as int).map_values(
                    |s: Stats| row_of(s, byte_len(self.html@), self.out_dir@),
                ),
            decreases sorted@.len() - i,
        {
            let ghost prev = rows.deep_view();
            let row = self.make_row(sorted[i]);
            rows.push(row);
            proof {
                let f = |s: Stats| row_of(s, byte_len(self.html@), self.out_dir@);
                let lhs = rows.deep_view();
                let rhs = sorted@.subrange(0, i as int + 1).map_values(f);
                assert(lhs.len() == rhs.len());
                assert forall|k: int| 0 <= k < lhs.len() implies lhs[k] == rhs[k] by {
                    if k < i as int {
                        assert(lhs[k] == prev[k]);
                        assert(prev[k] == sorted@.subrange(0, i as int).map_values(f)[k]);
                    } else {
                        assert(lhs[k] == row.deep_view());
                    }
                }
                assert(lhs =~= rhs);
            }
            i = i + 1;
        }
        proof {
            assert(sorted@.subrange(0, sorted@.len() as int) =~= sorted@);
            assert(rows.deep_view() =~~= report_rows_spec(*self));
        }
        rows
    }

    /// Finalizes the runner: consumes it and renders the sorted comparison
    /// table, with the numeric columns right-aligned.
    pub fn into_table(self) -> (t: comfy_table::Table)
        requires
            0 < byte_len(self.html@) <= usize::MAX,
        ensures
            table_header(t) == report_header(),
            table_rows(t) == report_rows_spec(self),
    {
        let mut t = table_new();
        let mut header: Vec<String> = Vec::new();
        header.push(String::from_str("Name"));
        header.push(String::from_str("Time (microseconds)"));
        header.push(String::from_str("Peak Memory (bytes)"));
        header.push(String::from_str("Peak Memory as % of HTML Size"));
        header.push(String::from_str("Leaked Memory (bytes)"));
        header.push(String::from_str("Avg Leaked Memory (bytes)"));
        header.push(String::from_str("Output Size (bytes)"));
        header.push(String::from_str("% Reduction"));
        header.push(String::from_str("Output File"));
        proof {
            assert(header.deep_view() =~~= report_header());
        }
        table_set_header(&mut t, header);
        let mut c: usize = 1;
        while c <= 6
            invariant
                1 <= c <= 7,
                table_header(t) == report_header(),
                table_rows(t) == Seq::<Seq<Seq<char>>>::empty(),
            decreases 7 - c,
        {
            table_align_right(&mut t, c);
            c = c + 1;
        }
        let rows = self.report_rows();
        let mut rest = rows;
        let mut i: usize = 0;
        let ghost total: Seq<Seq<Seq<char>>> = report_rows_spec(self);
        let n_rows: usize = rest.len();
        proof {
            assert(total.subrange(0, 0) =~= Seq::<Seq<Seq<char>>>::empty());
            assert(total.len() == n_rows);
            assert(rest.deep_view() =~~= total.subrange(0, total.len() as int));
        }
        while rest.len() > 0
            invariant
                table_header(t) == report_header(),
                total.len() <= usize::MAX,
                i + rest@.len() == total.len(),
                table_rows(t) =~= total.subrange(0, i as int),
                rest.deep_view() =~~= total.subrange(i as int, total.len() as int),
            decreases rest@.len(),
        {
            let ghost prev = rest.deep_view();
            let row = rest.remove(0);
            proof {
                assert(prev =~= total.subrange(i as int, total.len() as int));
                assert(prev[0] == total[i as int]);
                assert(row.deep_view() == prev[0]);
                let lhs = rest.deep_view();
                let rhs = total.subrange(i as int + 1, total.len() as int);
                assert(lhs.len() == rhs.len());
                assert forall|k: int| 0 <= k < lhs.len() implies lhs[k] == rhs[k] by {
                    assert(lhs[k] == prev[k + 1]);
                    assert(prev[k + 1] == total[i as int + 1 + k]);
                }
                assert(lhs =~= rhs);
                assert(total.subrange(0, i as int).push(total[i as int]) =~= total.subrange(
                    0,
                    i as int + 1,
                ));
            }
            table_add_row(&mut t, row);
            i = i + 1;
        }
        proof {
            assert(total.subrange(0, total.len() as int) =~= total);
        }
        t
    }
}

} // verus!
