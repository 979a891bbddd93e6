//! Speedup ratios against a baseline function, per input parameter.

use crate::comparison::{curve_entries, entries_error, entries_ok, entry_of, Curve, Entry, PlotError};
use crate::ratio::Ratio;
use vstd::prelude::*;

verus! {

/// What is known at one input parameter: how many curves were measured
/// there, how many of them belong to the baseline function, and the mean of
/// the last baseline curve and of the last other curve seen there.
#[derive(Clone, Copy, Debug, PartialEq, Eq, Structural)]
pub struct Slot {
    pub x: u64,
    pub count: usize,
    pub bases: usize,
    pub base: Ratio,
    pub other: Ratio,
}

/// A tally at one parameter: count, baseline count, baseline mean, other mean.
pub type Tally = (nat, nat, Ratio, Ratio);

/// The tally of a parameter where nothing was measured yet.
pub open spec fn empty_tally() -> Tally {
    (0, 0, Ratio { num: 0, den: 0 }, Ratio { num: 0, den: 0 })
}

/// The tally after one more curve with the given mean.
pub open spec fn tally_add(t: Tally, mean: Ratio, is_baseline: bool) -> Tally {
    if is_baseline {
        (t.0 + 1, t.1 + 1, mean, t.3)
    } else {
        (t.0 + 1, t.1, t.2, mean)
    }
}

/// The tallies per parameter after the entries in order; `base[i]` tells
/// whether entry `i` belongs to the baseline function.
pub open spec fn speedup_acc(es: Seq<Entry>, base: Seq<bool>) -> Map<u64, Tally>
    decreases es.len(),
{
    if es.len() == 0 || base.len() != es.len() {
        Map::empty()
    } else {
        let m = speedup_acc(es.drop_last(), base.drop_last());
        let e = es.last();
        let t = if m.contains_key(e.x) { m[e.x] } else { empty_tally() };
        m.insert(e.x, tally_add(t, e.mean(), base.last()))
    }
}

/// A ratio holding the parts of a pair that fit.
pub open spec fn ratio_of(p: (int, int)) -> Ratio {
    Ratio { num: p.0 as u128, den: p.1 as u128 }
}

/// What is wrong at parameter `x`, if anything: more than two curves, or
/// not one baseline curve and one other.
pub open spec fn tally_error(x: u64, t: Tally) -> Option<PlotError> {
    if t.0 > 2 {
        Some(PlotError::AmbiguousSpeedup { x })
    } else if t.0 != 2 || t.1 != 1 {
        Some(PlotError::Unpaired { x })
    } else {
        None
    }
}

/// The speedup at a parameter: the baseline's mean over the other mean.
pub open spec fn speedup_value(t: Tally) -> Ratio {
    ratio_of(t.2.over(t.3))
}

/// Points in strictly increasing order of their input parameter.
pub open spec fn strictly_by_x(s: Seq<(u64, Ratio)>) -> bool {
    forall|i: int, j: int| 0 <= i < j < s.len() ==> s[i].0 < s[j].0
}

/// `pts` lists the speedups of `m` by increasing parameter, each once.
pub open spec fn lists_map(pts: Seq<(u64, Ratio)>, m: Map<u64, Tally>) -> bool {
    &&& strictly_by_x(pts)
    &&& forall|k: int|
        0 <= k < pts.len() ==> m.contains_key(#[trigger] pts[k].0) && speedup_value(m[pts[k].0]) == pts[k].1
    &&& forall|x: u64| m.contains_key(x) ==> exists|k: int| 0 <= k < pts.len() && #[trigger] pts[k].0 == x
}

/// Whether every parameter holds one baseline curve and one other.
pub open spec fn all_paired(m: Map<u64, Tally>) -> bool {
    forall|x: u64| m.contains_key(x) ==> #[trigger] tally_error(x, m[x]) is None
}

/// The speedup series: one point per parameter, ordered by parameter, whose
/// value is the baseline curve's mean over the other curve's mean there.
/// `is_baseline[i]` tells whether entry `i` belongs to the baseline
/// function. Every parameter must hold exactly one baseline curve and one
/// other; where one does not, that is the error.
pub fn speedup_points(entries: &Vec<Entry>, is_baseline: &Vec<bool>) -> (r: Result<
    Vec<(u64, Ratio)>,
    PlotError,
>)
    requires
        is_baseline.len() == entries.len(),
    ensures
        r is Ok <==> all_paired(speedup_acc(entries@, is_baseline@)),
        r is Err ==> exists|x: u64|
            speedup_acc(entries@, is_baseline@).contains_key(x) && #[trigger] tally_error(
                x,
                speedup_acc(entries@, is_baseline@)[x],
            ) == Some(r->Err_0),
        r is Ok ==> lists_map(r->Ok_0@, speedup_acc(entries@, is_baseline@)),
{
    let ghost es = entries@;
    let ghost bs = is_baseline@;
    let zero = Ratio { num: 0, den: 0 };
    let mut out: Vec<Slot> = Vec::new();
    let mut i: usize = 0;
    while i < entries.len()
        invariant
            es == entries@,
            bs == is_baseline@,
            bs.len() == es.len(),
            zero == empty_tally().2,
            0 <= i <= es.len(),
            forall|a: int, b: int| 0 <= a < b < out.len() ==> out@[a].x < out@[b].x,
            forall|k: int|
                0 <= k < out.len() ==> speedup_acc(es.take(i as int), bs.take(i as int)).contains_key(
                    #[trigger] out@[k].x,
                ) && speedup_acc(es.take(i as int), bs.take(i as int))[out@[k].x] == (
                    out@[k].count as nat,
                    out@[k].bases as nat,
                    out@[k].base,
                    out@[k].other,
                ),
            forall|x: u64|
                speedup_acc(es.take(i as int), bs.take(i as int)).contains_key(x) ==> exists|k: int|
                    0 <= k < out.len() && #[trigger] out@[k].x == x,
            forall|k: int|
                0 <= k < out.len() ==> (#[trigger] out@[k]).count <= i && out@[k].bases <= i
                    && out@[k].base.num <= u64::MAX && out@[k].base.den <= u64::MAX
                    && out@[k].other.num <= u64::MAX && out@[k].other.den <= u64::MAX,
        decreases es.len() - i,
    {
        let e = entries[i];
        let b = is_baseline[i];
        let ghost m = speedup_acc(es.take(i as int), bs.take(i as int));
        proof {
            assert(es.take(i + 1).drop_last() =~= es.take(i as int));
            assert(bs.take(i + 1).drop_last() =~= bs.take(i as int));
        }
        let ghost m2 = speedup_acc(es.take(i + 1), bs.take(i + 1));
        let mean = Ratio { num: e.sum as u128, den: e.count as u128 };
        let mut k: usize = 0;
        while k < out.len() && out[k].x < e.x
            invariant
                0 <= k <= out.len(),
                forall|j: int| 0 <= j < k ==> out@[j].x < e.x,
            decreases out.len() - k,
        {
            k = k + 1;
        }
        let found = k < out.len() && out[k].x == e.x;
        let s = if found {
            out[k]
        } else {
            Slot { x: e.x, count: 0, bases: 0, base: zero, other: zero }
        };
        proof {
            if !found && m.contains_key(e.x) {
                let j = choose|j: int| 0 <= j < out.len() && #[trigger] out@[j].x == e.x;
                if j >= k {
                    assert(out@[k as int].x <= out@[j].x);
                }
            }
            if found {
                assert(s.count <= i && s.bases <= i);
            }
        }
        let t = if b {
            Slot { x: e.x, count: s.count + 1, bases: s.bases + 1, base: mean, other: s.other }
        } else {
            Slot { x: e.x, count: s.count + 1, bases: s.bases, base: s.base, other: mean }
        };
        proof {
            assert(m2 == m.insert(e.x, (t.count as nat, t.bases as nat, t.base, t.other)));
        }
        let ghost old_out = out@;
        if found {
            out.set(k, t);
            proof {
                assert forall|x: u64| m2.contains_key(x) implies exists|j: int|
                    0 <= j < out.len() && #[trigger] out@[j].x == x by {
                    if x != e.x {
                        let j = choose|j: int| 0 <= j < old_out.len() && #[trigger] old_out[j].x == x;
                        assert(out@[j].x == x);
                    } else {
                        assert(out@[k as int].x == x);
                    }
                }
                assert forall|j: int| 0 <= j < out.len() implies (#[trigger] out@[j]).count <= i + 1
                    && out@[j].bases <= i + 1 && out@[j].base.num <= u64::MAX && out@[j].base.den
                    <= u64::MAX && out@[j].other.num <= u64::MAX && out@[j].other.den <= u64::MAX by {
                    if j != k {
                        assert(out@[j] == old_out[j]);
                    }
                }
            }
        } else {
            out.insert(k, t);
            proof {
                old_out.insert_ensures(k as int, t);
                assert forall|a: int, c: int| 0 <= a < c < out.len() implies out@[a].x < out@[c].x by {
                    if a < k && c > k {
                        assert(out@[c] == old_out[c - 1]);
                    } else if a > k {
                        assert(out@[c] == old_out[c - 1]);
                        assert(out@[a] == old_out[a - 1]);
                    } else if c > k {
                        assert(out@[c] == old_out[c - 1]);
                    }
                }
                assert forall|j: int| 0 <= j < out.len() implies m2.contains_key(#[trigger] out@[j].x)
                    && m2[out@[j].x] == (out@[j].count as nat, out@[j].bases as nat, out@[j].base, out@[j].other) by {
                    if j > k {
                        assert(out@[j] == old_out[j - 1]);
                    }
                }
                assert forall|x: u64| m2.contains_key(x) implies exists|j: int|
                    0 <= j < out.len() && #[trigger] out@[j].x == x by {
                    if x != e.x {
                        let j = choose|j: int| 0 <= j < old_out.len() && #[trigger] old_out[j].x == x;
                        if j < k {
                            assert(out@[j].x == x);
                        } else {
                            assert(out@[j + 1].x == x);
                        }
                    } else {
                        assert(out@[k as int].x == x);
                    }
                }
                assert forall|j: int| 0 <= j < out.len() implies (#[trigger] out@[j]).count <= i + 1
                    && out@[j].bases <= i + 1 && out@[j].base.num <= u64::MAX && out@[j].base.den
                    <= u64::MAX && out@[j].other.num <= u64::MAX && out@[j].other.den <= u64::MAX by {
                    if j > k {
                        assert(out@[j] == old_out[j - 1]);
                    }
                }
            }
        }
        i = i + 1;
    }
    proof {
        assert(es.take(es.len() as int) =~= es);
        assert(bs.take(bs.len() as int) =~= bs);
    }
    let ghost m = speedup_acc(es, bs);
    let mut pts: Vec<(u64, Ratio)> = Vec::new();
    let mut k: usize = 0;
    while k < out.len()
        invariant
            0 <= k <= out.len(),
            pts.len() == k,
            es == entries@,
            bs == is_baseline@,
            m == speedup_acc(entries@, is_baseline@),
            forall|j: int|
                0 <= j < k ==> #[trigger] pts@[j] == (out@[j].x, speedup_value(m[out@[j].x])),
            forall|j: int| 0 <= j < k ==> #[trigger] tally_error(out@[j].x, m[out@[j].x]) is None,
            forall|j: int|
                0 <= j < out.len() ==> m.contains_key(#[trigger] out@[j].x) && m[out@[j].x] == (
                    out@[j].count as nat,
                    out@[j].bases as nat,
                    out@[j].base,
                    out@[j].other,
                ),
            forall|x: u64| m.contains_key(x) ==> exists|j: int| 0 <= j < out.len() && #[trigger] out@[j].x == x,
            forall|a: int, b: int| 0 <= a < b < out.len() ==> out@[a].x < out@[b].x,
            forall|j: int|
                0 <= j < out.len() ==> (#[trigger] out@[j]).base.num <= u64::MAX && out@[j].base.den <= u64::MAX
                    && out@[j].other.num <= u64::MAX && out@[j].other.den <= u64::MAX,
        decreases out.len() - k,
    {
        let s = out[k];
        assert(m.contains_key(s.x) && m[s.x].0 == s.count as nat && m[s.x].1 == s.bases as nat);
        if s.count > 2 {
            assert(tally_error(s.x, m[s.x]) == Some(PlotError::AmbiguousSpeedup { x: s.x }));
            assert(!all_paired(m));
            return Err(PlotError::AmbiguousSpeedup { x: s.x });
        }
        if s.count != 2 || s.bases != 1 {
            assert(tally_error(s.x, m[s.x]) == Some(PlotError::Unpaired { x: s.x }));
            assert(!all_paired(m));
            return Err(PlotError::Unpaired { x: s.x });
        }
        let v = s.base.div_small(s.other);
        pts.push((s.x, v));
        k = k + 1;
    }
    proof {
        assert forall|x: u64| m.contains_key(x) implies #[trigger] tally_error(x, m[x]) is None by {
            let j = choose|j: int| 0 <= j < out.len() && #[trigger] out@[j].x == x;
        }
        assert forall|x: u64| m.contains_key(x) implies exists|j: int|
            0 <= j < pts.len() && #[trigger] pts@[j].0 == x by {
            let j = choose|j: int| 0 <= j < out.len() && #[trigger] out@[j].x == x;
            assert(pts@[j].0 == x);
        }
    }
    Ok(pts)
}

/// Whether each curve belongs to the baseline function `base`.
pub open spec fn baseline_flags(cs: Seq<Curve>, base: Seq<char>) -> Seq<bool> {
    cs.map_values(|c: Curve| c.id.function_id is Some && c.id.function_id->0@ == base)
}

/// Whether every curve belongs to some function.
pub open spec fn all_named(cs: Seq<Curve>) -> bool {
    forall|i: int| 0 <= i < cs.len() ==> (#[trigger] cs[i]).id.function_id is Some
}

/// Whether each curve belongs to the baseline function `base`; a curve that
/// belongs to no function is an error, the first such one is named.
pub fn baseline_of(curves: &Vec<Curve>, base: &String) -> (r: Result<Vec<bool>, PlotError>)
    ensures
        r is Ok <==> all_named(curves@),
        r is Ok ==> r->Ok_0@ == baseline_flags(curves@, base@),
        r is Err ==> exists|i: int|
            0 <= i < curves.len() && r->Err_0 == (PlotError::MissingFunction { index: i as usize })
                && (#[trigger] curves@[i]).id.function_id is None
                && forall|k: int| 0 <= k < i ==> (#[trigger] curves@[k]).id.function_id is Some,
{
    let mut r: Vec<bool> = Vec::new();
    let mut i: usize = 0;
    while i < curves.len()
        invariant
            0 <= i <= curves.len(),
            r@ == baseline_flags(curves@, base@).take(i as int),
            forall|k: int| 0 <= k < i ==> (#[trigger] curves@[k]).id.function_id is Some,
        decreases curves.len() - i,
    {
        let b = match &curves[i].id.function_id {
            Some(s) => *s == *base,
            None => {
                return Err(PlotError::MissingFunction { index: i });
            },
        };
        r.push(b);
        i = i + 1;
        assert(r@ =~= baseline_flags(curves@, base@).take(i as int));
    }
    assert(r@ =~= baseline_flags(curves@, base@));
    Ok(r)
}

/// The entries of curves that all have one.
pub open spec fn entries_of(cs: Seq<Curve>) -> Seq<Entry> {
    Seq::new(cs.len(), |i: int| entry_of(cs[i], i as usize)->Ok_0)
}

/// The speedup series of the curves against the baseline function `base`.
/// An empty set of curves, the first curve without an entry, and then the
/// first curve of no function are errors; else the result is that of
/// `speedup_points` on the curves' entries.
pub fn speedup_series(curves: &Vec<Curve>, base: &String) -> (r: Result<Vec<(u64, Ratio)>, PlotError>)
    ensures
        !entries_ok(curves@) ==> r is Err && entries_error(curves@, r->Err_0),
        curves.len() == 0 ==> r == Err::<Vec<(u64, Ratio)>, PlotError>(PlotError::EmptyCurves),
        entries_ok(curves@) && !all_named(curves@) ==> r is Err && exists|i: int|
            0 <= i < curves.len() && r->Err_0 == (PlotError::MissingFunction { index: i as usize })
                && (#[trigger] curves@[i]).id.function_id is None
                && forall|k: int| 0 <= k < i ==> (#[trigger] curves@[k]).id.function_id is Some,
        entries_ok(curves@) && all_named(curves@) ==> {
            let m = speedup_acc(entries_of(curves@), baseline_flags(curves@, base@));
            &&& (r is Ok <==> all_paired(m))
            &&& (r is Err ==> exists|x: u64| m.contains_key(x) && #[trigger] tally_error(x, m[x]) == Some(r->Err_0))
            &&& (r is Ok ==> lists_map(r->Ok_0@, m))
        },
{
    let entries = curve_entries(curves)?;
    let flags = baseline_of(curves, base)?;
    proof {
        let es = entries_of(curves@);
        assert forall|i: int| 0 <= i < es.len() implies es[i] == entries@[i] by {
            assert(Ok::<Entry, PlotError>(entries@[i]) == entry_of(curves@[i], i as usize));
        }
        assert(es =~= entries@);
    }
    speedup_points(&entries, &flags)
}

proof fn lemma_acc_absent(es: Seq<Entry>, bs: Seq<bool>, x: u64)
    requires
        bs.len() == es.len(),
        !speedup_acc(es, bs).contains_key(x),
    ensures
        forall|k: int| 0 <= k < es.len() ==> (#[trigger] es[k]).x != x,
    decreases es.len(),
{
    if es.len() > 0 {
        let pe = es.drop_last();
        let pb = bs.drop_last();
        lemma_acc_absent(pe, pb, x);
        assert forall|k: int| 0 <= k < es.len() implies (#[trigger] es[k]).x != x by {
            if k < pe.len() {
                assert(es[k] == pe[k]);
            }
        }
    }
}

/// Where the tally at `x` comes from: each count counts the entries at `x`
/// of its kind, as far as the speedup needs it, and the stored means are
/// those of such entries.
proof fn lemma_tally_sources(es: Seq<Entry>, bs: Seq<bool>, x: u64)
    requires
        bs.len() == es.len(),
        speedup_acc(es, bs).contains_key(x),
    ensures
        speedup_acc(es, bs)[x].1 <= speedup_acc(es, bs)[x].0,
        speedup_acc(es, bs)[x].1 > 0 ==> exists|i: int|
            0 <= i < es.len() && (#[trigger] es[i]).x == x && bs[i] && es[i].mean() == speedup_acc(es, bs)[x].2,
        speedup_acc(es, bs)[x].0 > speedup_acc(es, bs)[x].1 ==> exists|j: int|
            0 <= j < es.len() && (#[trigger] es[j]).x == x && !bs[j] && es[j].mean() == speedup_acc(es, bs)[x].3,
        speedup_acc(es, bs)[x].1 <= 1 ==> forall|k: int|
            0 <= k < es.len() && (#[trigger] es[k]).x == x && bs[k] ==> speedup_acc(es, bs)[x].1 == 1
                && es[k].mean() == speedup_acc(es, bs)[x].2,
        speedup_acc(es, bs)[x].0 <= speedup_acc(es, bs)[x].1 + 1 ==> forall|k: int|
            0 <= k < es.len() && (#[trigger] es[k]).x == x && !bs[k] ==> speedup_acc(es, bs)[x].0
                == speedup_acc(es, bs)[x].1 + 1 && es[k].mean() == speedup_acc(es, bs)[x].3,
    decreases es.len(),
{
    let n = es.len() - 1;
    let pe = es.drop_last();
    let pb = bs.drop_last();
    let m = speedup_acc(pe, pb);
    let t = speedup_acc(es, bs)[x];
    if m.contains_key(x) {
        lemma_tally_sources(pe, pb, x);
    } else {
        lemma_acc_absent(pe, pb, x);
    }
    assert forall|k: int| 0 <= k < pe.len() implies es[k] == pe[k] && bs[k] == pb[k] by {}
    if es[n].x != x {
        assert(m.contains_key(x));
        assert(t == m[x]);
        if t.1 > 0 {
            let i = choose|i: int| 0 <= i < pe.len() && (#[trigger] pe[i]).x == x && pb[i] && pe[i].mean() == m[x].2;
            assert(es[i] == pe[i] && bs[i] == pb[i]);
        }
        if t.0 > t.1 {
            let j = choose|j: int| 0 <= j < pe.len() && (#[trigger] pe[j]).x == x && !pb[j] && pe[j].mean() == m[x].3;
            assert(es[j] == pe[j] && bs[j] == pb[j]);
        }
        assert forall|k: int| 0 <= k < es.len() && (#[trigger] es[k]).x == x && bs[k] && t.1 <= 1 implies t.1 == 1
            && es[k].mean() == t.2 by {
            assert(pe[k].x == x);
        }
        assert forall|k: int| 0 <= k < es.len() && (#[trigger] es[k]).x == x && !bs[k] && t.0 <= t.1 + 1 implies t.0
            == t.1 + 1 && es[k].mean() == t.3 by {
            assert(pe[k].x == x);
        }
    } else {
        let old_t = if m.contains_key(x) { m[x] } else { empty_tally() };
        assert(t == tally_add(old_t, es[n].mean(), bs[n]));
        if bs[n] {
            if t.0 > t.1 {
                let j = choose|j: int| 0 <= j < pe.len() && (#[trigger] pe[j]).x == x && !pb[j] && pe[j].mean() == m[x].3;
                assert(es[j] == pe[j] && bs[j] == pb[j]);
            }
            assert forall|k: int| 0 <= k < es.len() && (#[trigger] es[k]).x == x && bs[k] && t.1 <= 1 implies t.1 == 1
                && es[k].mean() == t.2 by {
                if k < n {
                    assert(pe[k].x == x && pb[k]);
                }
            }
            assert forall|k: int| 0 <= k < es.len() && (#[trigger] es[k]).x == x && !bs[k] && t.0 <= t.1 + 1 implies t.0
                == t.1 + 1 && es[k].mean() == t.3 by {
                assert(pe[k].x == x && !pb[k]);
            }
        } else {
            if t.1 > 0 {
                let i = choose|i: int| 0 <= i < pe.len() && (#[trigger] pe[i]).x == x && pb[i] && pe[i].mean() == m[x].2;
                assert(es[i] == pe[i] && bs[i] == pb[i]);
            }
            assert forall|k: int| 0 <= k < es.len() && (#[trigger] es[k]).x == x && bs[k] && t.1 <= 1 implies t.1 == 1
                && es[k].mean() == t.2 by {
                assert(pe[k].x == x && pb[k]);
            }
            assert forall|k: int| 0 <= k < es.len() && (#[trigger] es[k]).x == x && !bs[k] && t.0 <= t.1 + 1 implies t.0
                == t.1 + 1 && es[k].mean() == t.3 by {
                if k < n {
                    assert(pe[k].x == x && !pb[k]);
                }
            }
        }
    }
}

/// Speedup is always stated relative to the baseline: wherever a parameter
/// holds one baseline curve and one other, whatever their order and whatever
/// stands at other parameters, the speedup there is the baseline curve's
/// mean over the other curve's mean.
pub proof fn lemma_speedup_relative_to_baseline(es: Seq<Entry>, bs: Seq<bool>, x: u64)
    requires
        bs.len() == es.len(),
        speedup_acc(es, bs).contains_key(x),
        tally_error(x, speedup_acc(es, bs)[x]) is None,
    ensures
        exists|i: int, j: int|
            0 <= i < es.len() && 0 <= j < es.len() && (#[trigger] es[i]).x == x && (#[trigger] es[j]).x == x
                && bs[i] && !bs[j],
        forall|i: int, j: int|
            0 <= i < es.len() && 0 <= j < es.len() && (#[trigger] es[i]).x == x && (#[trigger] es[j]).x == x
                && bs[i] && !bs[j] ==> speedup_value(speedup_acc(es, bs)[x]) == ratio_of(
                es[i].mean().over(es[j].mean()),
            ),
{
    lemma_tally_sources(es, bs, x);
    let t = speedup_acc(es, bs)[x];
    let i = choose|i: int| 0 <= i < es.len() && (#[trigger] es[i]).x == x && bs[i] && es[i].mean() == t.2;
    let j = choose|j: int| 0 <= j < es.len() && (#[trigger] es[j]).x == x && !bs[j] && es[j].mean() == t.3;
    assert(es[i].x == x && es[j].x == x);
}

} // verus!
