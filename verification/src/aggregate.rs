//! The aggregator: rebuilds, from scratch, the per-label mean durations
//! of every archived run of one run type, and renders the summary
//! artifact with its grand total.
//!
//! Rows are `label,duration`.  A malformed row — wrong field count or a
//! duration that is not a plain decimal number — is skipped, never
//! fatal.  Labels are accumulated in first-seen order, so the same
//! archive contents always render to byte-identical summary output.

use vstd::prelude::*;
use crate::csv_writer::{spec_row, CsvWriter};
use crate::text::{
    dec_str, parse_u64, spec_parse_u64, spec_split, spec_trim, split_str, str_eq, trim_str,
    u128_to_string, u64_to_string, views_of,
};

verus! {

/// Parse of one data row: exactly two comma-separated fields, both
/// trimmed, the second a decimal duration.
pub open spec fn spec_parse_line(line: Seq<char>) -> Option<(Seq<char>, u64)> {
    let segs = spec_split(line, ',');
    if segs.len() == 2 {
        match spec_parse_u64(spec_trim(segs[1])) {
            Some(d) => Some((spec_trim(segs[0]), d)),
            None => None,
        }
    } else {
        None
    }
}

/// Parses one `label,duration` row; `None` marks a malformed row.
pub fn parse_line(line: &str) -> (r: Option<(String, u64)>)
    ensures
        r is Some <==> spec_parse_line(line@) is Some,
        r matches Some(p) ==> spec_parse_line(line@) matches Some(q) && p.0@ == q.0 && p.1 == q.1,
{
    let segs = split_str(line, ',');
    if segs.len() == 2 {
        let value_text = trim_str(segs[1].as_str());
        match parse_u64(value_text.as_str()) {
            Some(v) => Some((trim_str(segs[0].as_str()), v)),
            None => None,
        }
    } else {
        None
    }
}

/// The well-formed rows among a sequence of lines, in order.
pub open spec fn spec_rows_from_lines(lines: Seq<Seq<char>>) -> Seq<(Seq<char>, u64)>
    decreases lines.len(),
{
    if lines.len() == 0 {
        Seq::empty()
    } else {
        spec_rows_from_lines(lines.drop_last()) + (match spec_parse_line(lines.last()) {
            Some(p) => seq![p],
            None => Seq::empty(),
        })
    }
}

/// The rows of one artifact: every line after the header, malformed
/// lines skipped.
pub open spec fn spec_artifact_rows(content: Seq<char>) -> Seq<(Seq<char>, u64)> {
    let lines = spec_split(content, '\n');
    spec_rows_from_lines(lines.subrange(1, lines.len() as int))
}

/// The label-and-duration views of parsed rows.
pub open spec fn row_views(v: Seq<(String, u64)>) -> Seq<(Seq<char>, u64)> {
    v.map_values(|p: (String, u64)| (p.0@, p.1))
}

/// Extracts the well-formed rows of one artifact's text.
pub fn parse_artifact(content: &str) -> (r: Vec<(String, u64)>)
    ensures
        row_views(r@) == spec_artifact_rows(content@),
{
    let lines = split_str(content, '\n');
    let mut rows: Vec<(String, u64)> = Vec::new();
    let n = lines.len();
    let mut i: usize = 1;
    proof {
        assert(views_of(lines@).subrange(1, 1) =~= Seq::<Seq<char>>::empty());
        assert(row_views(rows@) =~= Seq::<(Seq<char>, u64)>::empty());
        assert(views_of(lines@).len() >= 1);
    }
    while i < n
        invariant
            n == lines@.len(),
            1 <= i <= n || (n == 0 && i == 1),
            views_of(lines@) == spec_split(content@, '\n'),
            row_views(rows@) =~= spec_rows_from_lines(views_of(lines@).subrange(1, i as int)),
        decreases n - i,
    {
        proof {
            assert(views_of(lines@).subrange(1, i + 1).drop_last() =~= views_of(lines@).subrange(
                1,
                i as int,
            ));
        }
        match parse_line(lines[i].as_str()) {
            Some(p) => {
                rows.push(p);
                proof {
                    assert(row_views(rows@) =~= row_views(rows@.drop_last()).push(
                        (rows@.last().0@, rows@.last().1),
                    ));
                }
            },
            None => {},
        }
        i = i + 1;
    }
    proof {
        let lv = views_of(lines@);
        assert(lv.len() >= 1);
        assert(lv.subrange(1, i as int) =~= lv.subrange(1, lv.len() as int));
    }
    rows
}

/// Accumulated samples for one label: the sum of the durations seen
/// and how many artifact rows carried the label.
pub struct LabelStat {
    pub label: String,
    pub sum: u128,
    pub count: u64,
}

/// Model of one accumulator entry: label, sum, count.
pub open spec fn stat_view(s: LabelStat) -> (Seq<char>, int, int) {
    (s.label@, s.sum as int, s.count as int)
}

pub open spec fn stats_view(v: Seq<LabelStat>) -> Seq<(Seq<char>, int, int)> {
    v.map_values(|s: LabelStat| stat_view(s))
}

/// First index holding `l`, or the length when `l` is absent.
pub open spec fn spec_stat_index(stats: Seq<(Seq<char>, int, int)>, l: Seq<char>) -> nat
    decreases stats.len(),
{
    if stats.len() == 0 {
        0
    } else if stats[0].0 == l {
        0
    } else {
        1 + spec_stat_index(stats.drop_first(), l)
    }
}

pub proof fn lemma_stat_index(stats: Seq<(Seq<char>, int, int)>, l: Seq<char>)
    ensures
        spec_stat_index(stats, l) <= stats.len(),
        spec_stat_index(stats, l) < stats.len() ==> stats[spec_stat_index(stats, l) as int].0 == l,
        forall|k: int| 0 <= k < spec_stat_index(stats, l) ==> stats[k].0 != l,
    decreases stats.len(),
{
    if stats.len() > 0 && stats[0].0 != l {
        lemma_stat_index(stats.drop_first(), l);
        assert forall|k: int| 0 <= k < spec_stat_index(stats, l) implies stats[k].0 != l by {
            if k > 0 {
                assert(stats[k] == stats.drop_first()[k - 1]);
            }
        }
    }
}

/// One more sample for `l`: bump an existing entry or append a new
/// one.  An entry whose count has reached the 64-bit ceiling absorbs
/// no further samples; with realistic archives the ceiling is
/// unreachable.
pub open spec fn spec_add_sample(
    stats: Seq<(Seq<char>, int, int)>,
    l: Seq<char>,
    d: u64,
) -> Seq<(Seq<char>, int, int)> {
    let i = spec_stat_index(stats, l) as int;
    if i >= stats.len() {
        stats.push((l, d as int, 1))
    } else if stats[i].2 == u64::MAX as int {
        stats
    } else {
        stats.update(i, (l, stats[i].1 + d, stats[i].2 + 1))
    }
}

/// Accumulation of a row sequence, in order.
pub open spec fn spec_agg_rows(rows: Seq<(Seq<char>, u64)>) -> Seq<(Seq<char>, int, int)>
    decreases rows.len(),
{
    if rows.len() == 0 {
        Seq::empty()
    } else {
        spec_add_sample(spec_agg_rows(rows.drop_last()), rows.last().0, rows.last().1)
    }
}

/// All rows of all artifacts, artifact order then row order.
pub open spec fn spec_all_rows(contents: Seq<Seq<char>>) -> Seq<(Seq<char>, u64)>
    decreases contents.len(),
{
    if contents.len() == 0 {
        Seq::empty()
    } else {
        spec_all_rows(contents.drop_last()) + spec_artifact_rows(contents.last())
    }
}

/// The aggregation of a set of artifact texts.
pub open spec fn spec_aggregate(contents: Seq<Seq<char>>) -> Seq<(Seq<char>, int, int)> {
    spec_agg_rows(spec_all_rows(contents))
}

/// Every accumulated entry has at least one sample, at most the
/// count ceiling, and a sum bounded by count times the largest single
/// duration.
pub open spec fn stats_wf(stats: Seq<(Seq<char>, int, int)>) -> bool {
    forall|i: int|
        0 <= i < stats.len() ==> {
            &&& 1 <= (#[trigger] stats[i]).2 <= u64::MAX as int
            &&& 0 <= stats[i].1 <= stats[i].2 * (u64::MAX as int)
        }
}

pub proof fn lemma_add_sample_wf(stats: Seq<(Seq<char>, int, int)>, l: Seq<char>, d: u64)
    requires
        stats_wf(stats),
    ensures
        stats_wf(spec_add_sample(stats, l, d)),
{
    let i = spec_stat_index(stats, l) as int;
    lemma_stat_index(stats, l);
    if i < stats.len() && stats[i].2 < u64::MAX as int {
        assert(stats[i].1 + d <= stats[i].2 * (u64::MAX as int) + (u64::MAX as int));
        assert(stats[i].2 * (u64::MAX as int) + (u64::MAX as int) == (stats[i].2 + 1) * (
        u64::MAX as int)) by (nonlinear_arith);
    }
}

/// Adds one sample to the accumulator.
fn add_sample(stats: &mut Vec<LabelStat>, label: String, d: u64)
    requires
        stats_wf(stats_view(old(stats)@)),
    ensures
        stats_wf(stats_view(final(stats)@)),
        stats_view(final(stats)@) == spec_add_sample(stats_view(old(stats)@), label@, d),
{
    let ghost model = stats_view(stats@);
    proof {
        lemma_stat_index(model, label@);
        lemma_add_sample_wf(model, label@, d);
    }
    let n = stats.len();
    let mut j: usize = 0;
    while j < n
        invariant
            n == stats@.len(),
            0 <= j <= n,
            stats@ == old(stats)@,
            model == stats_view(stats@),
            stats_wf(model),
            forall|k: int| 0 <= k < j ==> model[k].0 != label@,
        decreases n - j,
    {
        if str_eq(stats[j].label.as_str(), label.as_str()) {
            proof {
                lemma_stat_index(model, label@);
                assert(model[j as int] == stat_view(stats@[j as int]));
                assert(model[j as int].0 == label@);
                if spec_stat_index(model, label@) < j {
                    assert(model[spec_stat_index(model, label@) as int].0 == label@);
                    assert(false);
                }
                if spec_stat_index(model, label@) > j {
                    assert(model[j as int].0 != label@);
                    assert(false);
                }
                assert(spec_stat_index(model, label@) == j);
            }
            if stats[j].count < u64::MAX {
                let old_sum = stats[j].sum;
                let old_count = stats[j].count;
                proof {
                    assert(1 <= model[j as int].2 && model[j as int].1 <= model[j as int].2 * (
                    u64::MAX as int));
                    assert(old_sum == model[j as int].1 && old_count == model[j as int].2);
                    assert(old_sum + d <= (old_count + 1) * (u64::MAX as int)) by (nonlinear_arith)
                        requires
                            old_sum <= old_count * (u64::MAX as int),
                            d <= u64::MAX,
                            old_count >= 0,
                    ;
                    assert((old_count + 1) * (u64::MAX as int) <= (u64::MAX as int) * (
                    u64::MAX as int)) by (nonlinear_arith)
                        requires
                            old_count + 1 <= u64::MAX as int,
                    ;
                }
                let updated = LabelStat { label, sum: old_sum + d as u128, count: old_count + 1 };
                stats.set(j, updated);
                proof {
                    assert(stats_view(stats@) =~= model.update(
                        j as int,
                        (label@, model[j as int].1 + d, model[j as int].2 + 1),
                    ));
                    lemma_add_sample_wf(model, label@, d);
                }
            } else {
                proof {
                    assert(model[j as int].2 == u64::MAX as int);
                    assert(stats_view(stats@) =~= model);
                }
            }
            return ;
        }
        j = j + 1;
    }
    proof {
        assert(spec_stat_index(model, label@) == model.len());
    }
    stats.push(LabelStat { label, sum: d as u128, count: 1 });
    proof {
        assert(stats_view(stats@) =~= model.push((label@, d as int, 1)));
    }
}

/// The aggregate summary of one run type: per-label accumulated
/// samples in first-seen order.  Rebuilt whole on every aggregation;
/// never merged with prior output.
pub struct AggregateSummary {
    pub stats: Vec<LabelStat>,
}

impl AggregateSummary {
    pub open spec fn wf(self) -> bool {
        stats_wf(stats_view(self.stats@))
    }

    /// Aggregates the given artifact texts: every well-formed row of
    /// every artifact, including each artifact's own `Average` row,
    /// accumulated per label.  An empty archive yields an empty
    /// summary; no error is possible.
    pub fn aggregate_contents(artifacts: &Vec<String>) -> (s: AggregateSummary)
        ensures
            s.wf(),
            stats_view(s.stats@) == spec_aggregate(views_of(artifacts@)),
    {
        let mut stats: Vec<LabelStat> = Vec::new();
        let n = artifacts.len();
        let mut i: usize = 0;
        proof {
            assert(views_of(artifacts@).subrange(0, 0) =~= Seq::<Seq<char>>::empty());
            assert(stats_view(stats@) =~= Seq::<(Seq<char>, int, int)>::empty());
        }
        while i < n
            invariant
                n == artifacts@.len(),
                0 <= i <= n,
                stats_wf(stats_view(stats@)),
                stats_view(stats@) == spec_agg_rows(
                    spec_all_rows(views_of(artifacts@).subrange(0, i as int)),
                ),
            decreases n - i,
        {
            let rows = parse_artifact(artifacts[i].as_str());
            let ghost before = spec_all_rows(views_of(artifacts@).subrange(0, i as int));
            let m = rows.len();
            let mut j: usize = 0;
            proof {
                assert(row_views(rows@).subrange(0, 0) =~= Seq::<(Seq<char>, u64)>::empty());
                assert(before + row_views(rows@).subrange(0, 0) =~= before);
            }
            while j < m
                invariant
                    m == rows@.len(),
                    0 <= j <= m,
                    stats_wf(stats_view(stats@)),
                    stats_view(stats@) == spec_agg_rows(
                        before + row_views(rows@).subrange(0, j as int),
                    ),
                decreases m - j,
            {
                proof {
                    let rv = row_views(rows@);
                    assert((before + rv.subrange(0, j + 1)).drop_last() =~= before + rv.subrange(
                        0,
                        j as int,
                    ));
                    assert((before + rv.subrange(0, j + 1)).last() == rv[j as int]);
                }
                let label = rows[j].0.clone();
                let d = rows[j].1;
                add_sample(&mut stats, label, d);
                j = j + 1;
            }
            proof {
                let av = views_of(artifacts@);
                assert(av.subrange(0, i + 1).drop_last() =~= av.subrange(0, i as int));
                assert(av.subrange(0, i + 1).last() == av[i as int]);
                assert(row_views(rows@).subrange(0, m as int) =~= row_views(rows@));
                assert(spec_all_rows(av.subrange(0, i + 1)) == before + row_views(rows@));
            }
            i = i + 1;
        }
        proof {
            assert(views_of(artifacts@).subrange(0, n as int) =~= views_of(artifacts@));
        }
        AggregateSummary { stats }
    }

    /// The mean for one label: floor of sum over count, or `None` when
    /// the label was never seen.
    pub fn mean_of(&self, label: &str) -> (r: Option<u64>)
        requires
            self.wf(),
        ensures
            ({
                let model = stats_view(self.stats@);
                let i = spec_stat_index(model, label@) as int;
                if i < model.len() {
                    r == Some((model[i].1 / model[i].2) as u64)
                } else {
                    r is None
                }
            }),
    {
        let ghost model = stats_view(self.stats@);
        proof {
            lemma_stat_index(model, label@);
        }
        let n = self.stats.len();
        let mut j: usize = 0;
        while j < n
            invariant
                n == self.stats@.len(),
                0 <= j <= n,
                self.wf(),
                model == stats_view(self.stats@),
                forall|k: int| 0 <= k < j ==> model[k].0 != label@,
            decreases n - j,
        {
            if str_eq(self.stats[j].label.as_str(), label) {
                proof {
                    lemma_stat_index(model, label@);
                    assert(model[j as int] == stat_view(self.stats@[j as int]));
                    assert(model[j as int].0 == label@);
                    if spec_stat_index(model, label@) < j {
                        assert(model[spec_stat_index(model, label@) as int].0 == label@);
                        assert(false);
                    }
                    if spec_stat_index(model, label@) > j {
                        assert(model[j as int].0 != label@);
                        assert(false);
                    }
                    assert(spec_stat_index(model, label@) == j);
                    assert(1 <= model[j as int].2 && model[j as int].1 <= model[j as int].2 * (
                    u64::MAX as int));
                }
                return Some(mean_value(self.stats[j].sum, self.stats[j].count));
            }
            j = j + 1;
        }
        proof {
            assert(spec_stat_index(model, label@) == model.len());
        }
        None
    }
}

/// Floor of `sum / count` for an entry within the accumulator bounds.
fn mean_value(sum: u128, count: u64) -> (r: u64)
    requires
        1 <= count,
        sum <= count * (u64::MAX as int),
    ensures
        r == sum as int / count as int,
{
    proof {
        assert(sum as int / count as int <= u64::MAX as int) by (nonlinear_arith)
            requires
                1 <= count as int,
                0 <= sum as int <= count as int * (u64::MAX as int),
        ;
        assert(sum as int / count as int >= 0) by (nonlinear_arith)
            requires
                1 <= count as int,
                0 <= sum as int,
        ;
    }
    (sum / count as u128) as u64
}

/// Grand total of a summary: the sum of its per-label means — not a
/// global mean over all samples.
pub open spec fn spec_total(stats: Seq<(Seq<char>, int, int)>) -> int
    decreases stats.len(),
{
    if stats.len() == 0 {
        0
    } else {
        spec_total(stats.drop_last()) + stats.last().1 / stats.last().2
    }
}

pub proof fn lemma_total_bounds(stats: Seq<(Seq<char>, int, int)>)
    requires
        stats_wf(stats),
    ensures
        0 <= spec_total(stats) <= stats.len() * (u64::MAX as int),
    decreases stats.len(),
{
    if stats.len() > 0 {
        assert(stats_wf(stats.drop_last()));
        lemma_total_bounds(stats.drop_last());
        let last = stats.last();
        assert(0 <= last.1 / last.2 <= u64::MAX as int) by (nonlinear_arith)
            requires
                1 <= last.2 <= u64::MAX as int,
                0 <= last.1 <= last.2 * (u64::MAX as int),
        ;
        assert((stats.len() - 1) * (u64::MAX as int) + (u64::MAX as int) == stats.len() * (
        u64::MAX as int)) by (nonlinear_arith);
    }
}

/// Rendered data rows of a summary: one `label,mean` row per entry.
pub open spec fn spec_summary_rows_csv(stats: Seq<(Seq<char>, int, int)>) -> Seq<char>
    decreases stats.len(),
{
    if stats.len() == 0 {
        Seq::empty()
    } else {
        spec_summary_rows_csv(stats.drop_last()) + spec_row(
            seq![stats.last().0, dec_str((stats.last().1 / stats.last().2) as nat)],
        )
    }
}

/// The whole summary artifact: header, one row per label, and the
/// final `TOTAL` row holding the grand total.
pub open spec fn spec_render_summary(stats: Seq<(Seq<char>, int, int)>) -> Seq<char> {
    spec_row(seq!["Operation"@, "Average Time (ms)"@]) + spec_summary_rows_csv(stats) + spec_row(
        seq!["TOTAL"@, dec_str(spec_total(stats) as nat)],
    )
}

impl AggregateSummary {
    /// Renders the summary artifact.  The same summary always renders
    /// to the same bytes; re-running an aggregation with no new
    /// artifacts overwrites the file with identical content.
    pub fn render(&self) -> (r: String)
        requires
            self.wf(),
        ensures
            r@ == spec_render_summary(stats_view(self.stats@)),
    {
        let ghost model = stats_view(self.stats@);
        let mut w = CsvWriter::new();
        let mut header: Vec<String> = Vec::new();
        header.push("Operation".to_owned());
        header.push("Average Time (ms)".to_owned());
        w.write_row(&header);
        proof {
            assert(views_of(header@) =~= seq!["Operation"@, "Average Time (ms)"@]);
            assert(model.subrange(0, 0) =~= Seq::<(Seq<char>, int, int)>::empty());
        }
        let n = self.stats.len();
        let mut total: u128 = 0;
        let mut i: usize = 0;
        while i < n
            invariant
                n == self.stats@.len(),
                0 <= i <= n,
                self.wf(),
                model == stats_view(self.stats@),
                w.durable@ == Seq::<char>::empty(),
                w.buffered@ == spec_row(seq!["Operation"@, "Average Time (ms)"@])
                    + spec_summary_rows_csv(model.subrange(0, i as int)),
                total == spec_total(model.subrange(0, i as int)),
                total <= i * (u64::MAX as int),
            decreases n - i,
        {
            proof {
                assert(model.subrange(0, i + 1).drop_last() =~= model.subrange(0, i as int));
                assert(model.subrange(0, i + 1).last() == model[i as int]);
            }
            let mean = mean_value(self.stats[i].sum, self.stats[i].count);
            let mut fields: Vec<String> = Vec::new();
            fields.push(self.stats[i].label.clone());
            fields.push(u64_to_string(mean));
            w.write_row(&fields);
            proof {
                assert(views_of(fields@) =~= seq![
                    model[i as int].0,
                    dec_str((model[i as int].1 / model[i as int].2) as nat),
                ]);
                assert(i * (u64::MAX as int) + (u64::MAX as int) == (i + 1) * (u64::MAX as int))
                    by (nonlinear_arith);
                assert((i + 1) * (u64::MAX as int) <= (usize::MAX as int) * (u64::MAX as int))
                    by (nonlinear_arith)
                    requires
                        0 <= i + 1 <= usize::MAX as int,
                ;
            }
            total = total + mean as u128;
            i = i + 1;
        }
        proof {
            assert(model.subrange(0, n as int) =~= model);
        }
        let mut total_fields: Vec<String> = Vec::new();
        total_fields.push("TOTAL".to_owned());
        total_fields.push(u128_to_string(total));
        w.write_row(&total_fields);
        w.flush();
        proof {
            assert(views_of(total_fields@) =~= seq![
                "TOTAL"@,
                dec_str(spec_total(model) as nat),
            ]);
            assert(w.durable@ =~= spec_render_summary(model));
        }
        let r = w.durable_contents().clone();
        r
    }
}

/// The rows that carry one label, in order.
pub open spec fn rows_with_label(rows: Seq<(Seq<char>, u64)>, l: Seq<char>) -> Seq<(Seq<char>, u64)>
    decreases rows.len(),
{
    if rows.len() == 0 {
        Seq::empty()
    } else {
        let p = rows_with_label(rows.drop_last(), l);
        if rows.last().0 == l {
            p.push(rows.last())
        } else {
            p
        }
    }
}

pub proof fn lemma_rows_with_label_len(rows: Seq<(Seq<char>, u64)>, l: Seq<char>)
    ensures
        rows_with_label(rows, l).len() <= rows.len(),
    decreases rows.len(),
{
    if rows.len() > 0 {
        lemma_rows_with_label_len(rows.drop_last(), l);
    }
}

proof fn lemma_stat_index_is(stats: Seq<(Seq<char>, int, int)>, l: Seq<char>, j: int)
    requires
        0 <= j < stats.len(),
        stats[j].0 == l,
        forall|k: int| 0 <= k < j ==> stats[k].0 != l,
    ensures
        spec_stat_index(stats, l) == j,
{
    lemma_stat_index(stats, l);
    if spec_stat_index(stats, l) < j {
        assert(stats[spec_stat_index(stats, l) as int].0 == l);
        assert(false);
    }
    if spec_stat_index(stats, l) > j {
        assert(stats[j].0 != l);
        assert(false);
    }
}

proof fn lemma_stat_index_absent(stats: Seq<(Seq<char>, int, int)>, l: Seq<char>)
    requires
        forall|k: int| 0 <= k < stats.len() ==> stats[k].0 != l,
    ensures
        spec_stat_index(stats, l) == stats.len(),
{
    lemma_stat_index(stats, l);
    if spec_stat_index(stats, l) < stats.len() {
        assert(stats[spec_stat_index(stats, l) as int].0 == l);
    }
}

/// What the accumulator holds for one label is exactly the sum and
/// the number of the rows that carry that label: a label absent from
/// an artifact contributes nothing to its mean — no implicit
/// zero-fill — and the sample count is the number of rows seen with
/// it.  (The bound keeps the count below its ceiling.)
pub proof fn lemma_aggregate_per_label(rows: Seq<(Seq<char>, u64)>, l: Seq<char>)
    requires
        rows.len() < u64::MAX,
    ensures
        ({
            let stats = spec_agg_rows(rows);
            let i = spec_stat_index(stats, l) as int;
            let matching = rows_with_label(rows, l);
            &&& (matching.len() == 0 ==> i >= stats.len())
            &&& (matching.len() > 0 ==> i < stats.len() && stats[i].1 == sum_values(matching)
                && stats[i].2 == matching.len())
        }),
    decreases rows.len(),
{
    let stats = spec_agg_rows(rows);
    let matching = rows_with_label(rows, l);
    if rows.len() == 0 {
        lemma_stat_index_absent(stats, l);
    } else {
        let prev = spec_agg_rows(rows.drop_last());
        let l0 = rows.last().0;
        let d = rows.last().1;
        lemma_aggregate_per_label(rows.drop_last(), l);
        lemma_aggregate_per_label(rows.drop_last(), l0);
        lemma_rows_with_label_len(rows.drop_last(), l0);
        lemma_rows_with_label_len(rows.drop_last(), l);
        lemma_stat_index(prev, l);
        lemma_stat_index(prev, l0);
        let i0 = spec_stat_index(prev, l0) as int;
        let matching0 = rows_with_label(rows.drop_last(), l0);
        if l0 == l {
            if matching0.len() == 0 {
                // a first sample appends a fresh entry at the end
                assert(i0 >= prev.len());
                assert(stats == prev.push((l, d as int, 1)));
                assert forall|k: int| 0 <= k < prev.len() implies stats[k].0 != l by {
                    assert(stats[k] == prev[k]);
                }
                lemma_stat_index_is(stats, l, prev.len() as int);
                assert(matching =~= matching0.push(rows.last()));
                assert(matching.drop_last() =~= matching0);
                assert(sum_values(matching) == sum_values(matching0) + d);
                assert(stats[spec_stat_index(stats, l) as int] == (l, d as int, 1int));
                assert(matching.len() == 1);
            } else {
                // a further sample bumps the entry in place
                assert(i0 < prev.len() && prev[i0].2 == matching0.len());
                assert(prev[i0].2 < u64::MAX as int);
                assert(stats == prev.update(i0, (l, prev[i0].1 + d, prev[i0].2 + 1)));
                assert(stats[i0].0 == l);
                assert forall|k: int| 0 <= k < i0 implies stats[k].0 != l by {
                    assert(stats[k] == prev[k]);
                }
                lemma_stat_index_is(stats, l, i0);
                assert(matching =~= matching0.push(rows.last()));
                assert(matching.drop_last() =~= matching0);
                assert(sum_values(matching) == sum_values(matching0) + d);
                assert(stats[i0].1 == prev[i0].1 + d);
                assert(stats[i0].2 == prev[i0].2 + 1);
                assert(matching.len() == matching0.len() + 1);
            }
        } else {
            // the last row carries another label: the entry for `l`,
            // present or absent, is untouched
            assert(matching =~= rows_with_label(rows.drop_last(), l));
            let ip = spec_stat_index(prev, l) as int;
            if i0 >= prev.len() {
                assert(stats == prev.push((l0, d as int, 1)));
                if matching.len() == 0 {
                    assert(ip >= prev.len());
                    assert forall|k: int| 0 <= k < stats.len() implies stats[k].0 != l by {
                        if k < prev.len() {
                            assert(stats[k] == prev[k]);
                        }
                    }
                    lemma_stat_index_absent(stats, l);
                } else {
                    assert(stats[ip] == prev[ip]);
                    assert forall|k: int| 0 <= k < ip implies stats[k].0 != l by {
                        assert(stats[k] == prev[k]);
                    }
                    lemma_stat_index_is(stats, l, ip);
                }
            } else if prev[i0].2 == u64::MAX as int {
                // unreachable under the bound, but the accumulator
                // would leave everything unchanged
                assert(stats == prev);
            } else {
                assert(stats == prev.update(i0, (l0, prev[i0].1 + d, prev[i0].2 + 1)));
                assert(stats[i0].0 == l0);
                if matching.len() == 0 {
                    assert forall|k: int| 0 <= k < stats.len() implies stats[k].0 != l by {
                        if k != i0 {
                            assert(stats[k] == prev[k]);
                        }
                    }
                    lemma_stat_index_absent(stats, l);
                } else {
                    assert(prev[ip].0 == l);
                    assert(ip != i0);
                    assert(stats[ip] == prev[ip]);
                    assert forall|k: int| 0 <= k < ip implies stats[k].0 != l by {
                        if k != i0 {
                            assert(stats[k] == prev[k]);
                        }
                    }
                    lemma_stat_index_is(stats, l, ip);
                }
            }
        }
    }
}

/// The mean a summary reports for a label is the average over exactly
/// the rows that carry that label, across all scanned artifacts.
pub proof fn lemma_mean_is_per_label_average(contents: Seq<Seq<char>>, l: Seq<char>)
    requires
        spec_all_rows(contents).len() < u64::MAX,
    ensures
        ({
            let stats = spec_aggregate(contents);
            let i = spec_stat_index(stats, l) as int;
            let matching = rows_with_label(spec_all_rows(contents), l);
            &&& (matching.len() == 0 ==> i >= stats.len())
            &&& (matching.len() > 0 ==> i < stats.len() && stats[i].1 / stats[i].2 == sum_values(
                matching,
            ) / matching.len() as int)
        }),
{
    lemma_aggregate_per_label(spec_all_rows(contents), l);
}

/// A label that renders and re-parses unchanged: free of the
/// delimiter and the line terminator, with no surrounding whitespace
/// for trimming to strip.
pub open spec fn clean_label(l: Seq<char>) -> bool {
    &&& forall|k: int| 0 <= k < l.len() ==> #[trigger] l[k] != ',' && l[k] != '\n'
    &&& (l.len() == 0 || (!crate::text::is_space_char(l[0]) && !crate::text::is_space_char(
        l.last(),
    )))
}

/// A rendered `label,value` row parses back to exactly that label and
/// value.
pub proof fn lemma_parse_line_roundtrip(label: Seq<char>, v: u64)
    requires
        clean_label(label),
    ensures
        spec_parse_line(label + seq![','] + dec_str(v as nat)) == Some((label, v)),
{
    let digits = dec_str(v as nat);
    crate::text::lemma_dec_str_value(v as nat);
    let line = label + seq![','] + digits;
    assert(line[label.len() as int] == ',');
    assert forall|k: int| 0 <= k < label.len() implies line[k] != ',' by {
        assert(line[k] == label[k]);
    }
    crate::text::lemma_first_sep_at(line, ',', label.len() as int);
    assert(line.subrange(0, label.len() as int) =~= label);
    assert(line.subrange(label.len() as int + 1, line.len() as int) =~= digits);
    assert forall|k: int| 0 <= k < digits.len() implies digits[k] != ',' by {
        assert(crate::text::is_dec_digit(digits[k]));
    }
    crate::text::lemma_first_sep_absent(digits, ',');
    let segs = spec_split(line, ',');
    assert(segs == seq![label] + spec_split(digits, ','));
    assert(spec_split(digits, ',') == seq![digits]);
    assert(segs =~= seq![label, digits]);
    crate::text::lemma_trim_identity(label);
    assert(crate::text::is_dec_digit(digits[0]) && crate::text::is_dec_digit(digits.last()));
    crate::text::lemma_trim_identity(digits);
    assert(spec_trim(segs[1]) == digits);
    assert(spec_parse_u64(digits) == Some(v));
}

/// Rows of a concatenation of line sequences.
pub proof fn lemma_rows_from_lines_concat(a: Seq<Seq<char>>, b: Seq<Seq<char>>)
    ensures
        spec_rows_from_lines(a + b) == spec_rows_from_lines(a) + spec_rows_from_lines(b),
    decreases b.len(),
{
    if b.len() == 0 {
        assert(a + b =~= a);
        assert(spec_rows_from_lines(a + b) =~= spec_rows_from_lines(a) + spec_rows_from_lines(b));
    } else {
        assert((a + b).drop_last() =~= a + b.drop_last());
        assert((a + b).last() == b.last());
        lemma_rows_from_lines_concat(a, b.drop_last());
        assert(spec_rows_from_lines(a + b) =~= spec_rows_from_lines(a) + spec_rows_from_lines(b));
    }
}

/// The header line of a summary artifact, without its newline.
pub open spec fn summary_header_line() -> Seq<char> {
    "Operation"@ + seq![','] + "Average Time (ms)"@
}

/// The rendered data line of one accumulator entry.
pub open spec fn mean_line(t: (Seq<char>, int, int)) -> Seq<char> {
    t.0 + seq![','] + dec_str((t.1 / t.2) as nat)
}

pub open spec fn mean_lines(stats: Seq<(Seq<char>, int, int)>) -> Seq<Seq<char>> {
    stats.map_values(|t: (Seq<char>, int, int)| mean_line(t))
}

/// The grand-total line of a summary, without its newline.
pub open spec fn total_line(stats: Seq<(Seq<char>, int, int)>) -> Seq<char> {
    "TOTAL"@ + seq![','] + dec_str(spec_total(stats) as nat)
}

/// A two-field row renders as the fields around one comma.
pub proof fn lemma_row_two_fields(a: Seq<char>, b: Seq<char>)
    ensures
        spec_row(seq![a, b]) == a + seq![','] + b + seq!['\n'],
{
    let fields = seq![a, b];
    assert(fields.drop_last() =~= seq![a]);
    assert(crate::csv_writer::spec_join_fields(seq![a]) == a);
    assert(spec_row(fields) =~= a + seq![','] + b + seq!['\n']);
}

pub proof fn lemma_rows_csv_as_join(stats: Seq<(Seq<char>, int, int)>)
    ensures
        spec_summary_rows_csv(stats) == crate::text::join_lines(mean_lines(stats)),
    decreases stats.len(),
{
    if stats.len() == 0 {
        assert(mean_lines(stats).len() == 0);
    } else {
        lemma_rows_csv_as_join(stats.drop_last());
        assert(mean_lines(stats) =~= mean_lines(stats.drop_last()).push(mean_line(stats.last())));
        crate::text::lemma_join_lines_push(mean_lines(stats.drop_last()), mean_line(stats.last()));
        lemma_row_two_fields(stats.last().0, dec_str((stats.last().1 / stats.last().2) as nat));
        assert(spec_summary_rows_csv(stats) =~= crate::text::join_lines(mean_lines(stats)));
    }
}

/// The lines of a rendered summary: header, one line per entry, the
/// total line.
pub open spec fn summary_lines(stats: Seq<(Seq<char>, int, int)>) -> Seq<Seq<char>> {
    seq![summary_header_line()] + mean_lines(stats) + seq![total_line(stats)]
}

pub proof fn lemma_render_as_join(stats: Seq<(Seq<char>, int, int)>)
    ensures
        spec_render_summary(stats) == crate::text::join_lines(summary_lines(stats)),
{
    let all = summary_lines(stats);
    let inner = mean_lines(stats) + seq![total_line(stats)];
    assert(all.first() == summary_header_line());
    assert(all.drop_first() =~= inner);
    assert(inner =~= mean_lines(stats).push(total_line(stats)));
    crate::text::lemma_join_lines_push(mean_lines(stats), total_line(stats));
    lemma_rows_csv_as_join(stats);
    lemma_row_two_fields("Operation"@, "Average Time (ms)"@);
    lemma_row_two_fields("TOTAL"@, dec_str(spec_total(stats) as nat));
    assert(spec_render_summary(stats) =~= crate::text::join_lines(all));
}

/// Rows of the label lines of a well-formed summary: each parses back
/// to its label and its mean.
pub proof fn lemma_mean_lines_parse(stats: Seq<(Seq<char>, int, int)>)
    requires
        stats_wf(stats),
        forall|i: int| 0 <= i < stats.len() ==> clean_label((#[trigger] stats[i]).0),
    ensures
        spec_rows_from_lines(mean_lines(stats)) == spec_means_rows(stats),
    decreases stats.len(),
{
    if stats.len() > 0 {
        assert(stats_wf(stats.drop_last()));
        lemma_mean_lines_parse(stats.drop_last());
        let last = stats.last();
        assert(0 <= last.1 / last.2 <= u64::MAX as int) by (nonlinear_arith)
            requires
                1 <= last.2 <= u64::MAX as int,
                0 <= last.1 <= last.2 * (u64::MAX as int),
        ;
        let v = (last.1 / last.2) as u64;
        lemma_parse_line_roundtrip(last.0, v);
        assert(mean_lines(stats).drop_last() =~= mean_lines(stats.drop_last()));
        assert(mean_lines(stats).last() == mean_line(last));
        assert(spec_parse_line(mean_line(last)) == Some((last.0, v)));
        assert(spec_means_rows(stats) =~= spec_means_rows(stats.drop_last()).push((last.0, v)));
        assert(spec_rows_from_lines(mean_lines(stats)) =~= spec_means_rows(stats));
    } else {
        assert(mean_lines(stats).len() == 0);
        assert(spec_means_rows(stats) =~= Seq::<(Seq<char>, u64)>::empty());
    }
}

/// The label rows a summary reports: each label with its mean.
pub open spec fn spec_means_rows(stats: Seq<(Seq<char>, int, int)>) -> Seq<(Seq<char>, u64)> {
    stats.map_values(|t: (Seq<char>, int, int)| (t.0, (t.1 / t.2) as u64))
}

/// Sum of the values of parsed rows.
pub open spec fn sum_values(rows: Seq<(Seq<char>, u64)>) -> int
    decreases rows.len(),
{
    if rows.len() == 0 {
        0
    } else {
        sum_values(rows.drop_last()) + rows.last().1
    }
}

pub proof fn lemma_sum_of_means(stats: Seq<(Seq<char>, int, int)>)
    requires
        stats_wf(stats),
    ensures
        sum_values(spec_means_rows(stats)) == spec_total(stats),
    decreases stats.len(),
{
    if stats.len() > 0 {
        assert(stats_wf(stats.drop_last()));
        lemma_sum_of_means(stats.drop_last());
        let last = stats.last();
        assert(0 <= last.1 / last.2 <= u64::MAX as int) by (nonlinear_arith)
            requires
                1 <= last.2 <= u64::MAX as int,
                0 <= last.1 <= last.2 * (u64::MAX as int),
        ;
        assert(spec_means_rows(stats).drop_last() =~= spec_means_rows(stats.drop_last()));
        assert(spec_means_rows(stats).last() == (last.0, (last.1 / last.2) as u64));
    } else {
        assert(spec_means_rows(stats).len() == 0);
    }
}

/// No rendered summary line holds a newline of its own.
pub proof fn lemma_summary_lines_clean(stats: Seq<(Seq<char>, int, int)>)
    requires
        forall|i: int| 0 <= i < stats.len() ==> clean_label((#[trigger] stats[i]).0),
    ensures
        crate::text::lines_clean(summary_lines(stats)),
{
    reveal_strlit("Operation");
    reveal_strlit("Average Time (ms)");
    reveal_strlit("TOTAL");
    let all = summary_lines(stats);
    assert forall|i: int, k: int|
        0 <= i < all.len() && 0 <= k < all[i].len() implies #[trigger] all[i][k] != '\n' by {
        if i == 0 {
            assert(all[0] == summary_header_line());
        } else if i <= stats.len() {
            assert(all[i] == mean_line(stats[i - 1]));
            let t = stats[i - 1];
            crate::text::lemma_dec_str_value(((t.1 / t.2) as nat));
            if k < t.0.len() {
                assert(all[i][k] == t.0[k]);
            } else if k > t.0.len() {
                assert(all[i][k] == dec_str((t.1 / t.2) as nat)[k - t.0.len() - 1]);
                assert(crate::text::is_dec_digit(all[i][k]));
            }
        } else {
            assert(all[i] == total_line(stats));
            let d = dec_str(spec_total(stats) as nat);
            crate::text::lemma_dec_str_value((spec_total(stats) as nat));
            if k > "TOTAL"@.len() {
                assert(all[i][k] == d[k - "TOTAL"@.len() - 1]);
                assert(crate::text::is_dec_digit(all[i][k]));
            }
        }
    }
}

/// Re-parsing a rendered summary recovers exactly what it reports:
/// one row per label with its mean, then the `TOTAL` row.
pub proof fn lemma_summary_reparse(stats: Seq<(Seq<char>, int, int)>)
    requires
        stats_wf(stats),
        forall|i: int| 0 <= i < stats.len() ==> clean_label((#[trigger] stats[i]).0),
        spec_total(stats) <= u64::MAX,
    ensures
        spec_artifact_rows(spec_render_summary(stats)) == spec_means_rows(stats).push(
            ("TOTAL"@, spec_total(stats) as u64),
        ),
{
    let all = summary_lines(stats);
    lemma_render_as_join(stats);
    lemma_summary_lines_clean(stats);
    crate::text::lemma_split_join_lines(all);
    let lines = spec_split(spec_render_summary(stats), '\n');
    assert(lines == all.push(Seq::<char>::empty()));
    assert(lines.subrange(1, lines.len() as int) =~= mean_lines(stats) + seq![total_line(stats)]
        + seq![Seq::<char>::empty()]);
    lemma_rows_from_lines_concat(mean_lines(stats) + seq![total_line(stats)], seq![Seq::<char>::empty()]);
    lemma_rows_from_lines_concat(mean_lines(stats), seq![total_line(stats)]);
    // the empty segment after the final newline is malformed and skipped
    assert(crate::text::first_sep(Seq::<char>::empty(), ',') == 0);
    assert(spec_split(Seq::<char>::empty(), ',') =~= seq![Seq::<char>::empty()]);
    assert(spec_parse_line(Seq::<char>::empty()) is None);
    assert(seq![Seq::<char>::empty()].drop_last() =~= Seq::<Seq<char>>::empty());
    assert(spec_rows_from_lines(Seq::<Seq<char>>::empty()) == Seq::<(Seq<char>, u64)>::empty());
    assert(seq![Seq::<char>::empty()].last() =~= Seq::<char>::empty());
    assert(spec_parse_line(seq![Seq::<char>::empty()].last()) is None);
    assert(spec_rows_from_lines(seq![Seq::<char>::empty()]) =~= Seq::<(Seq<char>, u64)>::empty());
    // the total line parses back to the grand total
    lemma_total_bounds(stats);
    reveal_strlit("TOTAL");
    assert(clean_label("TOTAL"@));
    lemma_parse_line_roundtrip("TOTAL"@, spec_total(stats) as u64);
    assert(total_line(stats) == "TOTAL"@ + seq![','] + dec_str((spec_total(stats) as u64) as nat));
    assert(seq![total_line(stats)].drop_last() =~= Seq::<Seq<char>>::empty());
    assert(spec_rows_from_lines(seq![total_line(stats)]) =~= seq![
        ("TOTAL"@, spec_total(stats) as u64),
    ]);
    lemma_mean_lines_parse(stats);
    assert(spec_artifact_rows(spec_render_summary(stats)) =~= spec_means_rows(stats).push(
        ("TOTAL"@, spec_total(stats) as u64),
    ));
}

/// The grand total a summary reports equals the sum of the per-label
/// means it reports, verifiable by re-parsing its own output: in the
/// re-parsed rows, the final `TOTAL` row holds the sum of the values
/// of the rows before it.
pub proof fn lemma_total_row_is_sum_of_means(stats: Seq<(Seq<char>, int, int)>)
    requires
        stats_wf(stats),
        forall|i: int| 0 <= i < stats.len() ==> clean_label((#[trigger] stats[i]).0),
        spec_total(stats) <= u64::MAX,
    ensures
        ({
            let rows = spec_artifact_rows(spec_render_summary(stats));
            &&& rows.len() == stats.len() + 1
            &&& rows.last().0 == "TOTAL"@
            &&& rows.last().1 == sum_values(rows.drop_last())
        }),
{
    lemma_summary_reparse(stats);
    lemma_sum_of_means(stats);
    lemma_total_bounds(stats);
    let rows = spec_artifact_rows(spec_render_summary(stats));
    assert(rows.drop_last() =~= spec_means_rows(stats));
    assert(rows.last().1 == spec_total(stats) as u64);
    assert((spec_total(stats) as u64) as int == spec_total(stats));
}

/// Aggregation is a pure function of the archive contents: the same
/// artifacts, aggregated again, render to byte-identical summary
/// output.
pub proof fn lemma_aggregate_idempotent(first: Seq<Seq<char>>, second: Seq<Seq<char>>)
    requires
        first == second,
    ensures
        spec_render_summary(spec_aggregate(first)) == spec_render_summary(spec_aggregate(second)),
{
}

} // verus!
