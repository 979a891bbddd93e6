//! Planning of the line comparison plot: means per curve, grouping into one
//! series per function, ordering by input parameter, and speedup ratios
//! against a baseline function.

use crate::grouping::{group_runs, is_run_ranges, key_of, keys_of};
use crate::id::{id_number, BenchmarkId};
use crate::ratio::Ratio;
use crate::style::{color_for, group_color};
use vstd::prelude::*;

verus! {

broadcast use vstd::seq_lib::group_to_multiset_ensures;

/// One measured variant with its sample of raw measured values, each a
/// whole number of the measurement's smallest unit.
#[derive(Clone, Debug)]
pub struct Curve {
    pub id: BenchmarkId,
    pub sample: Vec<u64>,
}

/// The numeric parameter and the sample's mean of one curve, the mean kept
/// exactly as `sum / count`.
#[derive(Clone, Copy, Debug, PartialEq, Eq, Structural)]
pub struct Entry {
    pub x: u64,
    pub sum: u64,
    pub count: u64,
}

/// Why a plot cannot be planned from the given curves.
#[derive(Clone, Copy, Debug, PartialEq, Eq, Structural)]
pub enum PlotError {
    /// The curve at `index` has no numeric input parameter.
    NotNumeric { index: usize },
    /// The values of the curve at `index` sum past 64 bits.
    SumOverflow { index: usize },
    /// There are no curves to plot.
    EmptyCurves,
    /// In speedup mode, the curve at `index` belongs to no function.
    MissingFunction { index: usize },
    /// More than two curves were measured at input `x` in speedup mode.
    AmbiguousSpeedup { x: u64 },
    /// In speedup mode, the curves measured at input `x` are not one curve
    /// of the baseline function and one other.
    Unpaired { x: u64 },
}

/// Sum of a sample.
pub open spec fn total(s: Seq<u64>) -> nat
    decreases s.len(),
{
    if s.len() == 0 {
        0
    } else {
        (total(s.drop_last()) + s.last()) as nat
    }
}

impl Entry {
    /// The mean as a ratio.
    pub open spec fn mean(self) -> Ratio {
        Ratio { num: self.sum as u128, den: self.count as u128 }
    }

    /// The plotted point: input parameter and mean.
    pub open spec fn point(self) -> (u64, Ratio) {
        (self.x, self.mean())
    }
}

/// What a curve contributes to a comparison plot, or why it cannot.
pub open spec fn entry_of(c: Curve, index: usize) -> Result<Entry, PlotError> {
    match id_number(c.id) {
        None => Err(PlotError::NotNumeric { index }),
        Some(x) => if total(c.sample@) > u64::MAX {
            Err(PlotError::SumOverflow { index })
        } else {
            Ok(Entry { x, sum: total(c.sample@) as u64, count: c.sample@.len() as u64 })
        },
    }
}

proof fn lemma_total_prefix(s: Seq<u64>, i: int)
    requires
        0 <= i <= s.len(),
    ensures
        total(s.take(i)) <= total(s),
    decreases s.len() - i,
{
    if i < s.len() {
        lemma_total_prefix(s, i + 1);
        assert(s.take(i + 1).drop_last() =~= s.take(i));
    } else {
        assert(s.take(i) =~= s);
    }
}

/// The sum of a sample, or `None` where it does not fit in 64 bits.
pub fn sample_sum(s: &Vec<u64>) -> (r: Option<u64>)
    ensures
        r is Some <==> total(s@) <= u64::MAX,
        r is Some ==> r->0 == total(s@),
{
    let mut acc: u64 = 0;
    let mut i: usize = 0;
    while i < s.len()
        invariant
            0 <= i <= s.len(),
            acc as nat == total(s@.take(i as int)),
        decreases s.len() - i,
    {
        assert(s@.take(i + 1).drop_last() =~= s@.take(i as int));
        match acc.checked_add(s[i]) {
            Some(t) => {
                acc = t;
            },
            None => {
                proof {
                    lemma_total_prefix(s@, i + 1);
                }
                return None;
            },
        }
        i = i + 1;
    }
    assert(s@.take(s.len() as int) =~= s@);
    Some(acc)
}

/// Whether every curve has an entry, and there is at least one curve.
pub open spec fn entries_ok(cs: Seq<Curve>) -> bool {
    cs.len() > 0 && forall|i: int| 0 <= i < cs.len() ==> #[trigger] entry_of(cs[i], i as usize) is Ok
}

/// `e` is why the curves give no entries: there are none, or it is the error
/// of the first curve without an entry.
pub open spec fn entries_error(cs: Seq<Curve>, e: PlotError) -> bool {
    if cs.len() == 0 {
        e == PlotError::EmptyCurves
    } else {
        exists|i: int|
            0 <= i < cs.len() && Err::<Entry, PlotError>(e) == #[trigger] entry_of(cs[i], i as usize)
                && forall|k: int| 0 <= k < i ==> #[trigger] entry_of(cs[k], k as usize) is Ok
    }
}

/// The parameter and mean of each curve, in order; an empty set of curves,
/// or the first curve without an entry, is an error.
pub fn curve_entries(curves: &Vec<Curve>) -> (r: Result<Vec<Entry>, PlotError>)
    ensures
        r is Ok <==> entries_ok(curves@),
        r is Ok ==> r->Ok_0.len() == curves.len() && forall|i: int|
            0 <= i < curves.len() ==> Ok::<Entry, PlotError>(#[trigger] r->Ok_0[i]) == entry_of(curves@[i], i as usize),
        r is Err ==> entries_error(curves@, r->Err_0),
{
    if curves.len() == 0 {
        return Err(PlotError::EmptyCurves);
    }
    let mut out: Vec<Entry> = Vec::new();
    let mut i: usize = 0;
    while i < curves.len()
        invariant
            0 <= i <= curves.len(),
            out.len() == i,
            forall|k: int| 0 <= k < i ==> Ok::<Entry, PlotError>(#[trigger] out@[k]) == entry_of(curves@[k], k as usize),
        decreases curves.len() - i,
    {
        proof {
            assert forall|k: int| 0 <= k < i implies #[trigger] entry_of(curves@[k], k as usize) is Ok by {
                assert(Ok::<Entry, PlotError>(out@[k]) == entry_of(curves@[k], k as usize));
            }
        }
        let c = &curves[i];
        let x = match c.id.as_number() {
            Some(x) => x,
            None => {
                assert(entry_of(curves@[i as int], (i as int) as usize) is Err);
                return Err(PlotError::NotNumeric { index: i });
            },
        };
        let sum = match sample_sum(&c.sample) {
            Some(t) => t,
            None => {
                assert(entry_of(curves@[i as int], (i as int) as usize) is Err);
                return Err(PlotError::SumOverflow { index: i });
            },
        };
        out.push(Entry { x, sum, count: c.sample.len() as u64 });
        i = i + 1;
    }
    proof {
        assert forall|i: int| 0 <= i < curves.len() implies #[trigger] entry_of(curves@[i], i as usize) is Ok by {
            assert(Ok::<Entry, PlotError>(out@[i]) == entry_of(curves@[i], i as usize));
        }
    }
    Ok(out)
}

/// Points in non-decreasing order of their input parameter.
pub open spec fn sorted_by_x(s: Seq<(u64, Ratio)>) -> bool {
    forall|i: int, j: int| 0 <= i < j < s.len() ==> s[i].0 <= s[j].0
}

/// Whether a point has input parameter `x`.
pub open spec fn at_x(x: u64) -> spec_fn((u64, Ratio)) -> bool {
    |p: (u64, Ratio)| p.0 == x
}

proof fn lemma_filter_push(s: Seq<(u64, Ratio)>, a: (u64, Ratio), x: u64)
    ensures
        s.push(a).filter(at_x(x)) == if a.0 == x { s.filter(at_x(x)).push(a) } else { s.filter(at_x(x)) },
{
    reveal(Seq::filter);
    assert(s.push(a).drop_last() =~= s);
}

proof fn lemma_filter_none(s: Seq<(u64, Ratio)>, x: u64)
    requires
        forall|i: int| 0 <= i < s.len() ==> (#[trigger] s[i]).0 != x,
    ensures
        s.filter(at_x(x)) == Seq::<(u64, Ratio)>::empty(),
    decreases s.len(),
{
    reveal(Seq::filter);
    if s.len() > 0 {
        lemma_filter_none(s.drop_last(), x);
    }
}

/// The same points, ordered by input parameter; points with equal
/// parameters keep their input order.
pub fn sort_points(pts: Vec<(u64, Ratio)>) -> (r: Vec<(u64, Ratio)>)
    ensures
        sorted_by_x(r@),
        r@.to_multiset() == pts@.to_multiset(),
        forall|x: u64| #[trigger] r@.filter(at_x(x)) == pts@.filter(at_x(x)),
{
    let mut out: Vec<(u64, Ratio)> = Vec::new();
    let mut i: usize = 0;
    while i < pts.len()
        invariant
            0 <= i <= pts.len(),
            sorted_by_x(out@),
            out@.to_multiset() == pts@.take(i as int).to_multiset(),
            forall|x: u64| #[trigger] out@.filter(at_x(x)) == pts@.take(i as int).filter(at_x(x)),
        decreases pts.len() - i,
    {
        let p = pts[i];
        let mut k: usize = out.len();
        while k > 0 && out[k - 1].0 > p.0
            invariant
                0 <= k <= out.len(),
                forall|j: int| k <= j < out.len() ==> out@[j].0 > p.0,
            decreases k,
        {
            k = k - 1;
        }
        proof {
            assert(pts@.take(i + 1) =~= pts@.take(i as int).push(p));
        }
        let ghost o = out@;
        out.insert(k, p);
        proof {
            let lo = o.subrange(0, k as int);
            let hi = o.subrange(k as int, o.len() as int);
            assert(o =~= lo + hi);
            assert(out@ =~= lo.push(p) + hi);
            assert forall|x: u64| #[trigger] out@.filter(at_x(x)) == pts@.take(i + 1).filter(at_x(x)) by {
                Seq::filter_distributes_over_add(lo, hi, at_x(x));
                Seq::filter_distributes_over_add(lo.push(p), hi, at_x(x));
                lemma_filter_push(lo, p, x);
                lemma_filter_push(pts@.take(i as int), p, x);
                if p.0 == x {
                    assert forall|j: int| 0 <= j < hi.len() implies (#[trigger] hi[j]).0 != x by {
                        assert(hi[j] == o[k + j]);
                    }
                    lemma_filter_none(hi, x);
                    assert(lo.filter(at_x(x)) + hi.filter(at_x(x)) =~= lo.filter(at_x(x)));
                    assert(lo.filter(at_x(x)).push(p) + hi.filter(at_x(x)) =~= lo.filter(at_x(x)).push(p));
                }
            }
        }
        i = i + 1;
    }
    assert(pts@.take(pts.len() as int) =~= pts@);
    out
}

/// The function identity of each curve.
pub open spec fn ids_of(cs: Seq<Curve>) -> Seq<Option<String>> {
    cs.map_values(|c: Curve| c.id.function_id)
}

/// One line of a comparison plot: the function it shows, the curves it
/// gathers (positions `start` to `end`, end excluded), its colour and its
/// points ordered by input parameter.
pub struct Series {
    pub label: Option<String>,
    pub start: usize,
    pub end: usize,
    pub color: criterion_plot::Color,
    pub points: Vec<(u64, Ratio)>,
}

pub open spec fn ranges_of(ss: Seq<Series>) -> Seq<(usize, usize)> {
    ss.map_values(|s: Series| (s.start, s.end))
}

/// The points of the entries from `start` to `end`, in input order.
pub open spec fn run_points(es: Seq<Entry>, start: int, end: int) -> Seq<(u64, Ratio)> {
    es.subrange(start, end).map_values(|e: Entry| e.point())
}

/// `ss` is the comparison plan of curves with function identities `ids`
/// and entries `es`: one series per maximal run of equal identity, labelled
/// with it, coloured by position, holding the run's points ordered by input
/// parameter, points with equal parameters in input order.
pub open spec fn is_line_plan(ids: Seq<Option<String>>, es: Seq<Entry>, ss: Seq<Series>) -> bool {
    &&& is_run_ranges(keys_of(ids), ranges_of(ss))
    &&& forall|j: int| 0 <= j < ss.len() ==> {
        let s = #[trigger] ss[j];
        &&& key_of(s.label) == keys_of(ids)[s.start as int]
        &&& s.color == group_color(j as nat)
        &&& sorted_by_x(s.points@)
        &&& s.points@.to_multiset() == run_points(es, s.start as int, s.end as int).to_multiset()
        &&& forall|x: u64| #[trigger] s.points@.filter(at_x(x)) == run_points(es, s.start as int, s.end as int).filter(at_x(x))
    }
}

/// The function identity of each curve.
pub fn function_ids(curves: &Vec<Curve>) -> (r: Vec<Option<String>>)
    ensures
        r@ == ids_of(curves@),
{
    let mut r: Vec<Option<String>> = Vec::new();
    let mut i: usize = 0;
    while i < curves.len()
        invariant
            0 <= i <= curves.len(),
            r@ == ids_of(curves@).take(i as int),
        decreases curves.len() - i,
    {
        let k = match &curves[i].id.function_id {
            Some(s) => Some(s.clone()),
            None => None,
        };
        r.push(k);
        i = i + 1;
        assert(r@ =~= ids_of(curves@).take(i as int));
    }
    assert(r@ =~= ids_of(curves@));
    r
}

/// The series of a comparison plot, one per run of curves of the same
/// function, from the curves' identities and entries.
pub fn group_series(ids: &Vec<Option<String>>, entries: &Vec<Entry>) -> (ss: Vec<Series>)
    requires
        ids.len() == entries.len(),
    ensures
        is_line_plan(ids@, entries@, ss@),
{
    let runs = group_runs(ids);
    let ghost ks = keys_of(ids@);
    let mut ss: Vec<Series> = Vec::new();
    let mut j: usize = 0;
    while j < runs.len()
        invariant
            is_run_ranges(ks, runs@),
            ks == keys_of(ids@),
            ids.len() == entries.len(),
            0 <= j <= runs.len(),
            ss.len() == j,
            forall|k: int| 0 <= k < j ==> (#[trigger] ss@[k]).start == runs@[k].0 && ss@[k].end == runs@[k].1,
            forall|k: int| 0 <= k < j ==> {
                let s = #[trigger] ss@[k];
                &&& key_of(s.label) == ks[s.start as int]
                &&& s.color == group_color(k as nat)
                &&& sorted_by_x(s.points@)
                &&& s.points@.to_multiset() == run_points(entries@, s.start as int, s.end as int).to_multiset()
                &&& forall|x: u64| #[trigger] s.points@.filter(at_x(x)) == run_points(entries@, s.start as int, s.end as int).filter(at_x(x))
            },
        decreases runs.len() - j,
    {
        let (start, end) = runs[j];
        proof {
            if j > 0 {
                assert(runs@[j - 1].1 == start);
            }
            assert(end <= ids.len()) by {
                if j + 1 < runs.len() {
                    assert(runs@[j as int].1 == runs@[j + 1].0);
                }
                lemma_run_ends_bounded(ks, runs@, j as int);
            }
        }
        let mut pts: Vec<(u64, Ratio)> = Vec::new();
        let mut i: usize = start;
        while i < end
            invariant
                start <= i <= end,
                end <= entries.len(),
                pts@ =~= run_points(entries@, start as int, i as int),
            decreases end - i,
        {
            let e = entries[i];
            pts.push((e.x, Ratio { num: e.sum as u128, den: e.count as u128 }));
            i = i + 1;
        }
        let points = sort_points(pts);
        let label = match &ids[start] {
            Some(s) => Some(s.clone()),
            None => None,
        };
        let color = color_for(j);
        ss.push(Series { label, start, end, color, points });
        j = j + 1;
    }
    assert(ranges_of(ss@) =~= runs@);
    ss
}

proof fn lemma_run_ends_bounded(ks: Seq<Option<Seq<char>>>, runs: Seq<(usize, usize)>, j: int)
    requires
        is_run_ranges(ks, runs),
        0 <= j < runs.len(),
    ensures
        runs[j].1 <= ks.len(),
    decreases runs.len() - j,
{
    if j + 1 < runs.len() {
        lemma_run_ends_bounded(ks, runs, j + 1);
        assert(runs[j].1 == runs[j + 1].0);
    }
}

/// The comparison plan of the curves: their entries grouped into one series
/// per run of the same function. An empty set of curves, or the first curve
/// without an entry, is an error.
pub fn line_series(curves: &Vec<Curve>) -> (r: Result<Vec<Series>, PlotError>)
    ensures
        r is Ok <==> entries_ok(curves@),
        r is Ok ==> exists|es: Seq<Entry>| {
            &&& es.len() == curves.len()
            &&& forall|i: int| 0 <= i < curves.len() ==> Ok::<Entry, PlotError>(#[trigger] es[i]) == entry_of(curves@[i], i as usize)
            &&& is_line_plan(ids_of(curves@), es, r->Ok_0@)
        },
        r is Err ==> entries_error(curves@, r->Err_0),
{
    let entries = curve_entries(curves)?;
    let ids = function_ids(curves);
    let ss = group_series(&ids, &entries);
    Ok(ss)
}

} // verus!
