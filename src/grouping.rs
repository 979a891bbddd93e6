//! Splitting a sequence of curves into runs of equal function identity.

use itertools::Itertools;
use vstd::prelude::*;

verus! {

/// The grouping key of a curve: its function identity, compared by text.
pub open spec fn key_of(k: Option<String>) -> Option<Seq<char>> {
    match k {
        Some(s) => Some(s@),
        None => None,
    }
}

pub open spec fn keys_of(ks: Seq<Option<String>>) -> Seq<Option<Seq<char>>> {
    ks.map_values(|k: Option<String>| key_of(k))
}

/// Where run `j` starts, given the lengths of the runs before it.
pub open spec fn run_start(lens: Seq<usize>, j: int) -> int
    decreases j,
{
    if j <= 0 {
        0
    } else {
        run_start(lens, j - 1) + lens[j - 1]
    }
}

/// `lens` cuts `keys` into maximal runs of equal keys, in order.
pub open spec fn is_run_split(keys: Seq<Option<Seq<char>>>, lens: Seq<usize>) -> bool {
    &&& run_start(lens, lens.len() as int) == keys.len()
    &&& forall|j: int| 0 <= j < lens.len() ==> lens[j] > 0
    &&& forall|j: int, i: int|
        #![trigger keys[i], run_start(lens, j)]
        0 <= j < lens.len() && run_start(lens, j) <= i < run_start(lens, j + 1)
            ==> keys[i] == keys[run_start(lens, j)]
    &&& forall|j: int|
        0 < j < lens.len() ==> keys[run_start(lens, j)] != keys[run_start(lens, j) - 1]
}

/// `runs` holds the half-open ranges of the maximal runs of equal keys of
/// `keys`, in order: together they cover every position once, each is
/// non-empty, its keys are all equal, and two neighbouring runs differ in key.
pub open spec fn is_run_ranges(keys: Seq<Option<Seq<char>>>, runs: Seq<(usize, usize)>) -> bool {
    &&& (runs.len() == 0 <==> keys.len() == 0)
    &&& runs.len() > 0 ==> runs[0].0 == 0 && runs.last().1 == keys.len()
    &&& forall|j: int| 0 <= j < runs.len() ==> runs[j].0 < runs[j].1
    &&& forall|j: int| 0 <= j < runs.len() - 1 ==> runs[j].1 == runs[j + 1].0
    &&& forall|j: int, i: int|
        #![trigger keys[i], runs[j]]
        0 <= j < runs.len() && runs[j].0 <= i < runs[j].1 ==> keys[i] == keys[runs[j].0 as int]
    &&& forall|j: int| 0 < j < runs.len() ==> keys[runs[j].0 as int] != keys[runs[j].0 - 1]
}

proof fn lemma_run_start_mono(lens: Seq<usize>, a: int, b: int)
    requires
        0 <= a <= b <= lens.len(),
    ensures
        run_start(lens, a) <= run_start(lens, b),
    decreases b - a,
{
    if a < b {
        lemma_run_start_mono(lens, a, b - 1);
    }
}

/// Relies on itertools' `group_by`: consecutive elements whose keys are
/// equal form one group, the groups come in order, and each is non-empty.
#[verifier::external_body]
fn run_lengths(keys: &Vec<Option<String>>) -> (r: Vec<usize>)
    ensures
        is_run_split(keys_of(keys@), r@),
{
    keys.iter().group_by(|k| *k).into_iter().map(|(_, g)| g.count()).collect()
}

/// The runs of equal function identity in `keys`, as half-open ranges of
/// positions. Curves of one function that are not adjacent fall into
/// separate runs: callers that want one group per function sort first.
pub fn group_runs(keys: &Vec<Option<String>>) -> (runs: Vec<(usize, usize)>)
    ensures
        is_run_ranges(keys_of(keys@), runs@),
{
    let lens = run_lengths(keys);
    let n = keys.len();
    let ghost ks = keys_of(keys@);
    let mut runs: Vec<(usize, usize)> = Vec::new();
    let mut start: usize = 0;
    let mut j: usize = 0;
    while j < lens.len()
        invariant
            run_start(lens@, lens@.len() as int) == n,
            0 <= j <= lens.len(),
            start == run_start(lens@, j as int),
            runs.len() == j,
            forall|k: int|
                0 <= k < j ==> #[trigger] runs[k] == (
                run_start(lens@, k) as usize,
                run_start(lens@, k + 1) as usize,
                ),
        decreases lens.len() - j,
    {
        proof {
            lemma_run_start_mono(lens@, j + 1, lens@.len() as int);
            assert(run_start(lens@, j + 1) == start + lens@[j as int]);
        }
        let end = start + lens[j];
        runs.push((start, end));
        start = end;
        j = j + 1;
    }
    proof {
        lemma_ranges_of_split(ks, lens@, runs@);
    }
    runs
}

proof fn lemma_ranges_of_split(ks: Seq<Option<Seq<char>>>, l: Seq<usize>, r: Seq<(usize, usize)>)
    requires
        is_run_split(ks, l),
        ks.len() <= usize::MAX,
        r.len() == l.len(),
        forall|k: int|
            0 <= k < l.len() ==> #[trigger] r[k] == (
            run_start(l, k) as usize,
            run_start(l, k + 1) as usize,
            ),
    ensures
        is_run_ranges(ks, r),
{
    assert forall|j: int| 0 <= j < r.len() implies #[trigger] r[j].0 == run_start(l, j) && r[j].1 == run_start(l, j + 1) by {
        lemma_run_start_mono(l, j + 1, l.len() as int);
        lemma_run_start_mono(l, j, j + 1);
        lemma_run_start_mono(l, 0, j);
    }
    assert forall|j: int, i: int|
        #![trigger ks[i], r[j]]
        0 <= j < r.len() && r[j].0 <= i < r[j].1 implies ks[i] == ks[r[j].0 as int] by {
        assert(run_start(l, j) <= i < run_start(l, j + 1));
    }
    if r.len() > 0 {
        assert(r[0].0 == run_start(l, 0));
        assert(r[r.len() - 1].1 == run_start(l, l.len() as int));
    }
    if ks.len() > 0 && r.len() == 0 {
        assert(run_start(l, 0) == 0);
    }
    if ks.len() == 0 && r.len() > 0 {
        assert(l[0] > 0);
        lemma_run_start_mono(l, 1, l.len() as int);
    }
}

} // verus!
