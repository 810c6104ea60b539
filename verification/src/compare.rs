//! The comparator: aligns two aggregate summaries by operation label
//! and derives the dataset behind the grouped bar chart.
//!
//! Labels are collected in first-seen order across the two summaries,
//! the `TOTAL` row is skipped, and a label absent from either summary
//! is excluded entirely — no zero-height placeholder bar.  The chart
//! itself is drawn by the surrounding application from this dataset.

use vstd::prelude::*;
use crate::aggregate::{
    lemma_stat_index, parse_artifact, row_views, spec_agg_rows, spec_artifact_rows,
    spec_stat_index,
};
use crate::record::RunError;
use crate::text::{str_eq, views_of};

verus! {

/// Rows of a summary with the grand-total row removed.
pub open spec fn spec_drop_total(rows: Seq<(Seq<char>, u64)>) -> Seq<(Seq<char>, u64)>
    decreases rows.len(),
{
    if rows.len() == 0 {
        Seq::empty()
    } else {
        spec_drop_total(rows.drop_last()) + (if rows.last().0 == "TOTAL"@ {
            Seq::empty()
        } else {
            seq![rows.last()]
        })
    }
}

/// The per-label series of one summary artifact's text.
pub open spec fn spec_series(content: Seq<char>) -> Seq<(Seq<char>, u64)> {
    spec_drop_total(spec_artifact_rows(content))
}

/// Parses a summary artifact into its series, skipping the header and
/// the `TOTAL` row.
pub fn parse_series(content: &str) -> (r: Vec<(String, u64)>)
    ensures
        row_views(r@) == spec_series(content@),
{
    let rows = parse_artifact(content);
    let mut series: Vec<(String, u64)> = Vec::new();
    let n = rows.len();
    let mut i: usize = 0;
    proof {
        assert(row_views(rows@).subrange(0, 0) =~= Seq::<(Seq<char>, u64)>::empty());
        assert(row_views(series@) =~= Seq::<(Seq<char>, u64)>::empty());
    }
    while i < n
        invariant
            n == rows@.len(),
            0 <= i <= n,
            row_views(rows@) == spec_artifact_rows(content@),
            row_views(series@) =~= spec_drop_total(row_views(rows@).subrange(0, i as int)),
        decreases n - i,
    {
        proof {
            assert(row_views(rows@).subrange(0, i + 1).drop_last() =~= row_views(rows@).subrange(
                0,
                i as int,
            ));
        }
        if !str_eq(rows[i].0.as_str(), "TOTAL") {
            proof {
                reveal_strlit("TOTAL");
            }
            series.push((rows[i].0.clone(), rows[i].1));
            proof {
                assert(row_views(series@) =~= row_views(series@.drop_last()).push(
                    (series@.last().0@, series@.last().1),
                ));
            }
        } else {
            proof {
                reveal_strlit("TOTAL");
            }
        }
        i = i + 1;
    }
    proof {
        assert(row_views(rows@).subrange(0, n as int) =~= row_views(rows@));
    }
    series
}

/// Distinct labels in first-seen order.
pub open spec fn spec_first_seen(rows: Seq<(Seq<char>, u64)>) -> Seq<Seq<char>>
    decreases rows.len(),
{
    if rows.len() == 0 {
        Seq::empty()
    } else {
        let p = spec_first_seen(rows.drop_last());
        if p.contains(rows.last().0) {
            p
        } else {
            p.push(rows.last().0)
        }
    }
}

/// The labels of an aggregation accumulator, in accumulator order.
pub open spec fn summary_labels(stats: Seq<(Seq<char>, int, int)>) -> Seq<Seq<char>> {
    stats.map_values(|t: (Seq<char>, int, int)| t.0)
}

/// The aggregator reports its labels in first-seen row order — the
/// same order the comparator collects — which is why aggregating the
/// same archive twice renders byte-identical output.
pub proof fn lemma_summary_label_order(rows: Seq<(Seq<char>, u64)>)
    ensures
        summary_labels(spec_agg_rows(rows)) == spec_first_seen(rows),
    decreases rows.len(),
{
    if rows.len() == 0 {
        assert(summary_labels(spec_agg_rows(rows)) =~= spec_first_seen(rows));
    } else {
        lemma_summary_label_order(rows.drop_last());
        let prev = spec_agg_rows(rows.drop_last());
        let labels_prev = summary_labels(prev);
        let p = spec_first_seen(rows.drop_last());
        let l0 = rows.last().0;
        let d = rows.last().1;
        lemma_stat_index(prev, l0);
        let i0 = spec_stat_index(prev, l0) as int;
        if i0 >= prev.len() {
            // a fresh label: both append it at the end
            if p.contains(l0) {
                let k = choose|k: int| 0 <= k < p.len() && p[k] == l0;
                assert(labels_prev[k] == prev[k].0);
                assert(false);
            }
            assert(spec_agg_rows(rows) == prev.push((l0, d as int, 1)));
            assert(summary_labels(spec_agg_rows(rows)) =~= labels_prev.push(l0));
        } else {
            // a known label: both keep their order unchanged
            assert(prev[i0].0 == l0);
            assert(labels_prev[i0] == l0);
            assert(p.contains(l0));
            assert(spec_first_seen(rows) == p);
            if prev[i0].2 == u64::MAX as int {
                assert(spec_agg_rows(rows) == prev);
            } else {
                assert(spec_agg_rows(rows) == prev.update(
                    i0,
                    (l0, prev[i0].1 + d, prev[i0].2 + 1),
                ));
                assert(summary_labels(spec_agg_rows(rows)) =~= labels_prev);
            }
        }
    }
}

/// First value recorded for a label, by label text.
pub open spec fn spec_lookup(rows: Seq<(Seq<char>, u64)>, l: Seq<char>) -> Option<u64>
    decreases rows.len(),
{
    if rows.len() == 0 {
        None
    } else if rows[0].0 == l {
        Some(rows[0].1)
    } else {
        spec_lookup(rows.drop_first(), l)
    }
}

/// Whether a label is already among the collected ones.
fn contains_label(labels: &Vec<String>, l: &str) -> (r: bool)
    ensures
        r == views_of(labels@).contains(l@),
{
    let n = labels.len();
    let mut i: usize = 0;
    while i < n
        invariant
            n == labels@.len(),
            0 <= i <= n,
            forall|k: int| 0 <= k < i ==> views_of(labels@)[k] != l@,
        decreases n - i,
    {
        if str_eq(labels[i].as_str(), l) {
            assert(views_of(labels@)[i as int] == l@);
            return true;
        }
        i = i + 1;
    }
    proof {
        if views_of(labels@).contains(l@) {
            let k = choose|k: int| 0 <= k < views_of(labels@).len() && views_of(labels@)[k] == l@;
            assert(views_of(labels@)[k] != l@);
        }
    }
    false
}

/// Looks a label up in a parsed series.
fn lookup_value(rows: &Vec<(String, u64)>, l: &str) -> (r: Option<u64>)
    ensures
        r == spec_lookup(row_views(rows@), l@),
{
    let n = rows.len();
    let mut i: usize = 0;
    proof {
        assert(row_views(rows@).skip(0) =~= row_views(rows@));
    }
    while i < n
        invariant
            n == rows@.len(),
            0 <= i <= n,
            spec_lookup(row_views(rows@), l@) == spec_lookup(
                row_views(rows@).skip(i as int),
                l@,
            ),
        decreases n - i,
    {
        let rv = Ghost(row_views(rows@));
        proof {
            assert(rv@.skip(i as int)[0] == rv@[i as int]);
            assert(rv@.skip(i as int).drop_first() =~= rv@.skip(i + 1));
        }
        if str_eq(rows[i].0.as_str(), l) {
            return Some(rows[i].1);
        }
        i = i + 1;
    }
    proof {
        assert(row_views(rows@).skip(n as int) =~= Seq::<(Seq<char>, u64)>::empty());
    }
    None
}

/// One aligned row of the comparison: a label and the mean under each
/// of the two run types, first-named run type first.
pub struct ComparisonRow {
    pub label: String,
    pub first: u64,
    pub second: u64,
}

pub open spec fn comparison_views(v: Seq<ComparisonRow>) -> Seq<(Seq<char>, u64, u64)> {
    v.map_values(|r: ComparisonRow| (r.label@, r.first, r.second))
}

/// Labels aligned against both series; a label missing from either is
/// left out.
pub open spec fn spec_align(
    labels: Seq<Seq<char>>,
    a: Seq<(Seq<char>, u64)>,
    b: Seq<(Seq<char>, u64)>,
) -> Seq<(Seq<char>, u64, u64)>
    decreases labels.len(),
{
    if labels.len() == 0 {
        Seq::empty()
    } else {
        let p = spec_align(labels.drop_last(), a, b);
        match (spec_lookup(a, labels.last()), spec_lookup(b, labels.last())) {
            (Some(x), Some(y)) => p.push((labels.last(), x, y)),
            _ => p,
        }
    }
}

/// The comparison dataset of two summary artifacts.
pub open spec fn spec_dataset(ac: Seq<char>, bc: Seq<char>) -> Seq<(Seq<char>, u64, u64)> {
    spec_align(
        spec_first_seen(spec_series(ac) + spec_series(bc)),
        spec_series(ac),
        spec_series(bc),
    )
}

/// Largest mean in either series of the aligned dataset: the top of
/// the chart's linear vertical scale.
pub open spec fn spec_max_mean(rows: Seq<(Seq<char>, u64, u64)>) -> u64
    decreases rows.len(),
{
    if rows.len() == 0 {
        0
    } else {
        let p = spec_max_mean(rows.drop_last());
        let x = if rows.last().1 >= rows.last().2 {
            rows.last().1
        } else {
            rows.last().2
        };
        if x >= p {
            x
        } else {
            p
        }
    }
}

/// Aligned comparison data for rendering; derived and ephemeral.
pub struct ComparisonDataset {
    pub rows: Vec<ComparisonRow>,
}

impl ComparisonDataset {
    /// The top of the vertical scale for the grouped bar chart.
    pub fn max_mean(&self) -> (r: u64)
        ensures
            r == spec_max_mean(comparison_views(self.rows@)),
    {
        let n = self.rows.len();
        let mut best: u64 = 0;
        let mut i: usize = 0;
        proof {
            assert(comparison_views(self.rows@).subrange(0, 0) =~= Seq::<
                (Seq<char>, u64, u64),
            >::empty());
        }
        while i < n
            invariant
                n == self.rows@.len(),
                0 <= i <= n,
                best == spec_max_mean(comparison_views(self.rows@).subrange(0, i as int)),
            decreases n - i,
        {
            proof {
                let cv = comparison_views(self.rows@);
                assert(cv.subrange(0, i + 1).drop_last() =~= cv.subrange(0, i as int));
                assert(cv.subrange(0, i + 1).last() == cv[i as int]);
            }
            if self.rows[i].first > best {
                best = self.rows[i].first;
            }
            if self.rows[i].second > best {
                best = self.rows[i].second;
            }
            i = i + 1;
        }
        proof {
            let cv = comparison_views(self.rows@);
            assert(cv.subrange(0, n as int) =~= cv);
        }
        best
    }
}

/// Builds the comparison dataset from the two summary artifacts'
/// texts.  A missing summary aborts the comparison entirely — no
/// partial chart — with an `IoError` naming the gap; with both texts
/// present the aligned dataset is returned.
pub fn build_comparison(first: &Option<String>, second: &Option<String>) -> (r: Result<
    ComparisonDataset,
    RunError,
>)
    ensures
        r is Ok <==> (first is Some && second is Some),
        r matches Err(e) ==> e is IoError,
        r matches Ok(d) ==> comparison_views(d.rows@) == spec_dataset(
            first->0@,
            second->0@,
        ),
{
    let (a_text, b_text) = match (first, second) {
        (Some(a), Some(b)) => (a, b),
        _ => {
            return Err(RunError::IoError("missing summary artifact for a run type".to_owned()));
        },
    };
    let series_a = parse_series(a_text.as_str());
    let series_b = parse_series(b_text.as_str());
    let ghost av = row_views(series_a@);
    let ghost bv = row_views(series_b@);
    let mut labels: Vec<String> = Vec::new();
    let na = series_a.len();
    let mut i: usize = 0;
    proof {
        assert(av.subrange(0, 0) =~= Seq::<(Seq<char>, u64)>::empty());
        assert(views_of(labels@) =~= Seq::<Seq<char>>::empty());
        assert(views_of(labels@) =~= spec_first_seen(av.subrange(0, 0)));
    }
    while i < na
        invariant
            na == series_a@.len(),
            0 <= i <= na,
            av == row_views(series_a@),
            views_of(labels@) =~= spec_first_seen(av.subrange(0, i as int)),
        decreases na - i,
    {
        proof {
            assert(av.subrange(0, i + 1).drop_last() =~= av.subrange(0, i as int));
            assert(av.subrange(0, i + 1).last() == av[i as int]);
        }
        if !contains_label(&labels, series_a[i].0.as_str()) {
            labels.push(series_a[i].0.clone());
            proof {
                assert(views_of(labels@) =~= views_of(labels@.drop_last()).push(av[i as int].0));
            }
        }
        i = i + 1;
    }
    let nb = series_b.len();
    let mut j: usize = 0;
    proof {
        assert(av.subrange(0, na as int) =~= av);
        assert(bv.subrange(0, 0) =~= Seq::<(Seq<char>, u64)>::empty());
        assert(av + bv.subrange(0, 0) =~= av);
    }
    while j < nb
        invariant
            nb == series_b@.len(),
            0 <= j <= nb,
            av == row_views(series_a@),
            bv == row_views(series_b@),
            views_of(labels@) =~= spec_first_seen(av + bv.subrange(0, j as int)),
        decreases nb - j,
    {
        proof {
            assert((av + bv.subrange(0, j + 1)).drop_last() =~= av + bv.subrange(0, j as int));
            assert((av + bv.subrange(0, j + 1)).last() == bv[j as int]);
        }
        if !contains_label(&labels, series_b[j].0.as_str()) {
            labels.push(series_b[j].0.clone());
            proof {
                assert(views_of(labels@) =~= views_of(labels@.drop_last()).push(bv[j as int].0));
            }
        }
        j = j + 1;
    }
    proof {
        assert(av + bv.subrange(0, nb as int) =~= av + bv);
    }
    let mut rows: Vec<ComparisonRow> = Vec::new();
    let nl = labels.len();
    let mut k: usize = 0;
    proof {
        assert(views_of(labels@).subrange(0, 0) =~= Seq::<Seq<char>>::empty());
        assert(comparison_views(rows@) =~= Seq::<(Seq<char>, u64, u64)>::empty());
    }
    while k < nl
        invariant
            nl == labels@.len(),
            0 <= k <= nl,
            av == row_views(series_a@),
            bv == row_views(series_b@),
            comparison_views(rows@) =~= spec_align(
                views_of(labels@).subrange(0, k as int),
                av,
                bv,
            ),
        decreases nl - k,
    {
        proof {
            let lv = views_of(labels@);
            assert(lv.subrange(0, k + 1).drop_last() =~= lv.subrange(0, k as int));
            assert(lv.subrange(0, k + 1).last() == lv[k as int]);
        }
        let va = lookup_value(&series_a, labels[k].as_str());
        let vb = lookup_value(&series_b, labels[k].as_str());
        match (va, vb) {
            (Some(x), Some(y)) => {
                rows.push(ComparisonRow { label: labels[k].clone(), first: x, second: y });
                proof {
                    assert(comparison_views(rows@) =~= comparison_views(rows@.drop_last()).push(
                        (rows@.last().label@, rows@.last().first, rows@.last().second),
                    ));
                }
            },
            _ => {},
        }
        k = k + 1;
    }
    proof {
        assert(views_of(labels@).subrange(0, nl as int) =~= views_of(labels@));
    }
    Ok(ComparisonDataset { rows })
}

/// A label that either summary lacks never appears in the aligned
/// dataset: the comparator drops it rather than charting a zero bar.
pub proof fn lemma_align_excludes_missing(
    labels: Seq<Seq<char>>,
    a: Seq<(Seq<char>, u64)>,
    b: Seq<(Seq<char>, u64)>,
    l: Seq<char>,
)
    requires
        spec_lookup(a, l) is None || spec_lookup(b, l) is None,
    ensures
        forall|i: int|
            0 <= i < spec_align(labels, a, b).len() ==> (#[trigger] spec_align(labels, a, b)[i]).0
                != l,
    decreases labels.len(),
{
    if labels.len() > 0 {
        lemma_align_excludes_missing(labels.drop_last(), a, b, l);
        let p = spec_align(labels.drop_last(), a, b);
        let full = spec_align(labels, a, b);
        if spec_lookup(a, labels.last()) is Some && spec_lookup(b, labels.last()) is Some {
            assert(labels.last() != l);
            assert(full.drop_last() == p && full.last().0 == labels.last());
            assert forall|i: int| 0 <= i < full.len() implies (#[trigger] full[i]).0 != l by {
                if i < p.len() {
                    assert(full[i] == p[i]);
                }
            }
        } else {
            assert(full == p);
        }
    }
}

/// The comparator's dataset for two summaries excludes every label
/// that either summary lacks.
pub proof fn lemma_comparison_excludes_missing(ac: Seq<char>, bc: Seq<char>, l: Seq<char>)
    requires
        spec_lookup(spec_series(ac), l) is None || spec_lookup(spec_series(bc), l) is None,
    ensures
        forall|i: int|
            0 <= i < spec_dataset(ac, bc).len() ==> (#[trigger] spec_dataset(ac, bc)[i]).0 != l,
{
    lemma_align_excludes_missing(
        spec_first_seen(spec_series(ac) + spec_series(bc)),
        spec_series(ac),
        spec_series(bc),
        l,
    );
}

} // verus!
