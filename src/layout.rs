//! Axis labels, titles, units and the lanes of a violin plot.

use crate::bytes::{bytes_label, format_bytes};
use crate::comparison::Entry;
use crate::ratio::Ratio;
use crate::speedup::ratio_of;
use vstd::prelude::*;
use vstd::string::{StrSliceExecFns, StringExecFns};

verus! {

/// What the input parameter of the compared benchmarks counts.
#[derive(Clone, Copy, Debug, PartialEq, Eq, Structural)]
pub enum ValueType {
    Bytes,
    Elements,
    Value,
}

pub open spec fn input_label_text(x_label: Seq<char>, vt: ValueType) -> Seq<char> {
    if x_label.len() > 0 {
        x_label
    } else {
        match vt {
            ValueType::Bytes => "Input size (Bytes)"@,
            ValueType::Elements => "Input size (Elements)"@,
            ValueType::Value => "Input"@,
        }
    }
}

/// How one character is written in the backend's text syntax: an
/// underscore gets a backslash before it and a quote is doubled.
pub open spec fn escape_char(c: char) -> Seq<char> {
    if c == '_' {
        seq!['\\', '_']
    } else if c == '\'' {
        seq!['\'', '\'']
    } else {
        seq![c]
    }
}

/// Free text as written in the backend's text syntax.
pub open spec fn escaped(s: Seq<char>) -> Seq<char>
    decreases s.len(),
{
    if s.len() == 0 {
        Seq::empty()
    } else {
        escaped(s.drop_last()) + escape_char(s.last())
    }
}

/// Escapes free text (titles, function names) for the backend's text syntax.
pub fn gnuplot_escape(s: &str) -> (r: String)
    ensures
        r@ == escaped(s@),
{
    let n = s.unicode_len();
    let mut r = String::new();
    let mut i: usize = 0;
    while i < n
        invariant
            n == s@.len(),
            0 <= i <= n,
            r@ == escaped(s@.take(i as int)),
        decreases n - i,
    {
        let c = s.get_char(i);
        proof {
            assert(s@.take(i + 1).drop_last() =~= s@.take(i as int));
            reveal_strlit("\\_");
            reveal_strlit("''");
        }
        if c == '_' {
            r.append("\\_");
        } else if c == '\'' {
            r.append("''");
        } else {
            r.append(s.substring_char(i, i + 1));
            assert(s@.subrange(i as int, i + 1) =~= seq![c]);
        }
        i = i + 1;
    }
    assert(s@.take(n as int) =~= s@);
    r
}

/// Label of the X axis of a comparison plot: the configured one, else one
/// that names what the input parameter counts.
pub fn input_label(x_label: &String, vt: ValueType) -> (r: String)
    ensures
        r@ == input_label_text(x_label@, vt),
{
    if x_label.as_str().is_empty() {
        match vt {
            ValueType::Bytes => String::from_str("Input size (Bytes)"),
            ValueType::Elements => String::from_str("Input size (Elements)"),
            ValueType::Value => String::from_str("Input"),
        }
    } else {
        x_label.clone()
    }
}

/// Title of a comparison plot: the configured label, else the (escaped)
/// benchmark title followed by ": Comparison".
pub fn comparison_title(title: &String, label: &String) -> (r: String)
    ensures
        label@.len() > 0 ==> r@ == label@,
        label@.len() == 0 ==> r@ == title@ + ": Comparison"@,
{
    if label.as_str().is_empty() {
        title.clone().concat(": Comparison")
    } else {
        label.clone()
    }
}

/// Title of a violin plot: the (escaped) benchmark title followed by
/// ": Violin plot".
pub fn violin_title(title: &String) -> (r: String)
    ensures
        r@ == title@ + ": Violin plot"@,
{
    title.clone().concat(": Violin plot")
}

/// Label of a time axis in the given unit.
pub fn time_label(unit: &String) -> (r: String)
    ensures
        r@ == "Average time ("@ + unit@ + ")"@,
{
    String::from_str("Average time (").concat(unit.as_str()).concat(")")
}

/// Label of the Y axis of a comparison plot.
pub fn value_label(speedup: bool, unit: &String) -> (r: String)
    ensures
        speedup ==> r@ == "Speedup"@,
        !speedup ==> r@ == "Average time ("@ + unit@ + ")"@,
{
    if speedup {
        String::from_str("Speedup")
    } else {
        time_label(unit)
    }
}

/// Tick labels for byte-count tick positions, one per position.
pub fn tic_labels(tics: &Vec<i64>) -> (r: Vec<String>)
    ensures
        r.len() == tics.len(),
        forall|i: int| 0 <= i < tics.len() ==> (#[trigger] r@[i])@ == bytes_label(tics@[i] as int),
{
    let mut r: Vec<String> = Vec::new();
    let mut i: usize = 0;
    while i < tics.len()
        invariant
            0 <= i <= tics.len(),
            r.len() == i,
            forall|k: int| 0 <= k < i ==> (#[trigger] r@[k])@ == bytes_label(tics@[k] as int),
        decreases tics.len() - i,
    {
        r.push(format_bytes(tics[i]));
        i = i + 1;
    }
    r
}

/// The largest defined mean among the entries (`None` where no entry has a
/// defined mean): the magnitude from which a time unit is chosen.
pub fn max_mean(entries: &Vec<Entry>) -> (r: Option<Ratio>)
    ensures
        r is None <==> forall|i: int| 0 <= i < entries.len() ==> (#[trigger] entries@[i]).count == 0,
        r is Some ==> exists|i: int|
            0 <= i < entries.len() && (#[trigger] entries@[i]).count > 0 && r->0 == entries@[i].mean(),
        r is Some ==> forall|i: int|
            0 <= i < entries.len() && (#[trigger] entries@[i]).count > 0 ==> entries@[i].mean().le(r->0),
{
    let mut best: Option<Ratio> = None;
    let ghost mut at: int = 0;
    let mut i: usize = 0;
    while i < entries.len()
        invariant
            0 <= i <= entries.len(),
            best is None <==> forall|k: int| 0 <= k < i ==> (#[trigger] entries@[k]).count == 0,
            best is Some ==> 0 <= at < i && entries@[at].count > 0 && best->0 == entries@[at].mean(),
            best is Some ==> forall|k: int|
                0 <= k < i && (#[trigger] entries@[k]).count > 0 ==> entries@[k].mean().le(best->0),
        decreases entries.len() - i,
    {
        let e = entries[i];
        if e.count > 0 {
            let m = Ratio { num: e.sum as u128, den: e.count as u128 };
            match best {
                None => {
                    best = Some(m);
                    proof { at = i as int; }
                },
                Some(b) => {
                    if !m.le_small(b) {
                        proof {
                            assert forall|k: int|
                                0 <= k < i && (#[trigger] entries@[k]).count > 0 implies entries@[k].mean().le(m) by {
                                lemma_le_trans(entries@[k].mean(), b, m);
                            }
                        }
                        best = Some(m);
                        proof { at = i as int; }
                    }
                },
            }
        }
        i = i + 1;
    }
    best
}

proof fn lemma_le_trans(a: Ratio, b: Ratio, c: Ratio)
    requires
        a.den > 0,
        b.den > 0,
        c.den > 0,
        a.le(b),
        !c.le(b),
    ensures
        a.le(c),
{
    assert(a.num * c.den <= c.num * a.den) by (nonlinear_arith)
        requires
            a.num * b.den <= b.num * a.den,
            c.num * b.den > b.num * c.den,
            a.den > 0,
            b.den > 0,
            c.den > 0,
    ;
}

/// The points with every value multiplied by `factor` (the scale of the
/// chosen display unit), or `None` where a product does not fit.
pub fn scale_points(pts: &Vec<(u64, Ratio)>, factor: Ratio) -> (r: Option<Vec<(u64, Ratio)>>)
    ensures
        r is None <==> exists|k: int|
            0 <= k < pts.len() && !((#[trigger] pts@[k]).1.times(factor).0 <= u128::MAX
                && pts@[k].1.times(factor).1 <= u128::MAX),
        r is Some ==> r->0.len() == pts.len() && forall|k: int|
            0 <= k < pts.len() ==> #[trigger] r->0@[k] == (pts@[k].0, ratio_of(pts@[k].1.times(factor))),
{
    let mut out: Vec<(u64, Ratio)> = Vec::new();
    let mut k: usize = 0;
    while k < pts.len()
        invariant
            0 <= k <= pts.len(),
            out.len() == k,
            forall|j: int| 0 <= j < k ==> (#[trigger] pts@[j]).1.times(factor).0 <= u128::MAX
                && pts@[j].1.times(factor).1 <= u128::MAX,
            forall|j: int| 0 <= j < k ==> #[trigger] out@[j] == (pts@[j].0, ratio_of(pts@[j].1.times(factor))),
        decreases pts.len() - k,
    {
        let (x, v) = pts[k];
        match v.checked_times(factor) {
            Some(s) => out.push((x, s)),
            None => {
                assert(!(pts@[k as int].1.times(factor).0 <= u128::MAX
                    && pts@[k as int].1.times(factor).1 <= u128::MAX));
                return None;
            },
        }
        k = k + 1;
    }
    Some(out)
}

/// Height in pixels of a violin plot of `n` curves: 200 and 25 per curve.
pub fn violin_height(n: usize) -> (r: usize)
    requires
        n <= (usize::MAX - 200) / 25,
    ensures
        r == 200 + 25 * n,
{
    200 + 25 * n
}

/// The curve shown in each lane of a violin plot, lanes counted from the
/// bottom: the last curve is at the bottom, so the first appears at the top.
pub fn lane_order(n: usize) -> (r: Vec<usize>)
    ensures
        r.len() == n,
        forall|k: int| 0 <= k < n ==> #[trigger] r@[k] == n - 1 - k,
{
    let mut r: Vec<usize> = Vec::new();
    let mut k: usize = 0;
    while k < n
        invariant
            0 <= k <= n,
            r.len() == k,
            forall|j: int| 0 <= j < k ==> #[trigger] r@[j] == n - 1 - j,
        decreases n - k,
    {
        r.push(n - 1 - k);
        k = k + 1;
    }
    r
}

/// The vertical centre of lane `k`: `k + 1/2`.
pub fn lane_center(k: u64) -> (r: Ratio)
    ensures
        r.num == 2 * k + 1 && r.den == 2,
{
    Ratio { num: 2 * (k as u128) + 1, den: 2 }
}

/// The largest half-width of a lane's band, in lanes: 0.45, so that
/// neighbouring bands never touch.
pub fn band_half_width() -> (r: Ratio)
    ensures
        r == (Ratio { num: 9, den: 20 }),
{
    Ratio { num: 9, den: 20 }
}

} // verus!
