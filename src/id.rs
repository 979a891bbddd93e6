//! Benchmark identities and their numeric input parameter.

use vstd::prelude::*;
use vstd::string::StrSliceExecFns;

verus! {

/// One measured variant: the function it belongs to, the input parameter it
/// ran with (as text, or as a byte or element count), and a display title.
///
/// Input parameters are whole numbers here: a parameter text is numeric only
/// when it is an unsigned decimal integer, so "1.5" or "1e3" is not.
#[derive(Clone, Debug)]
pub struct BenchmarkId {
    pub function_id: Option<String>,
    pub value_str: Option<String>,
    pub throughput: Option<u64>,
    pub title: String,
}

pub open spec fn is_digit(c: char) -> bool {
    '0' <= c && c <= '9'
}

/// The number written by a string of decimal digits.
pub open spec fn decimal_value(s: Seq<char>) -> nat
    decreases s.len(),
{
    if s.len() == 0 {
        0
    } else {
        decimal_value(s.drop_last()) * 10 + ((s.last() as u32) - ('0' as u32)) as nat
    }
}

/// A parameter text read as a count: one or more decimal digits whose value
/// fits in 64 bits.
pub open spec fn count_of(s: Seq<char>) -> Option<u64> {
    if s.len() > 0 && (forall|i: int| 0 <= i < s.len() ==> is_digit(#[trigger] s[i]))
        && decimal_value(s) <= u64::MAX {
        Some(decimal_value(s) as u64)
    } else {
        None
    }
}

/// The numeric parameter of an id: its throughput where it has one, else its
/// parameter text read as a count.
pub open spec fn id_number(id: BenchmarkId) -> Option<u64> {
    match id.throughput {
        Some(n) => Some(n),
        None => match id.value_str {
            Some(s) => count_of(s@),
            None => None,
        },
    }
}

proof fn lemma_decimal_prefix(s: Seq<char>, i: int)
    requires
        0 <= i <= s.len(),
        forall|k: int| 0 <= k < s.len() ==> is_digit(#[trigger] s[k]),
    ensures
        decimal_value(s.take(i)) <= decimal_value(s),
    decreases s.len() - i,
{
    if i < s.len() {
        lemma_decimal_prefix(s, i + 1);
        assert(s.take(i + 1).drop_last() =~= s.take(i));
    } else {
        assert(s.take(i) =~= s);
    }
}

/// Reads a string of decimal digits as a count.
pub fn parse_count(s: &str) -> (r: Option<u64>)
    ensures
        r == count_of(s@),
{
    let n = s.unicode_len();
    if n == 0 {
        return None;
    }
    let mut v: u64 = 0;
    let mut i: usize = 0;
    while i < n
        invariant
            n == s@.len(),
            0 <= i <= n,
            forall|k: int| 0 <= k < i ==> is_digit(#[trigger] s@[k]),
            v as nat == decimal_value(s@.take(i as int)),
        decreases n - i,
    {
        let c = s.get_char(i);
        if !('0' <= c && c <= '9') {
            assert(!is_digit(s@[i as int]));
            return None;
        }
        let d: u64 = ((c as u32) - ('0' as u32)) as u64;
        assert(s@.take(i + 1).drop_last() =~= s@.take(i as int));
        let next = match v.checked_mul(10) {
            Some(t) => t.checked_add(d),
            None => None,
        };
        match next {
            Some(t) => {
                v = t;
            },
            None => {
                proof {
                    let rest = s@;
                    if forall|k: int| 0 <= k < rest.len() ==> is_digit(#[trigger] rest[k]) {
                        lemma_decimal_prefix(rest, i + 1);
                    }
                }
                return None;
            },
        }
        i = i + 1;
    }
    assert(s@.take(n as int) =~= s@);
    Some(v)
}

impl BenchmarkId {
    /// The numeric input parameter, where there is one.
    pub fn as_number(&self) -> (r: Option<u64>)
        ensures
            r == id_number(*self),
    {
        match self.throughput {
            Some(n) => Some(n),
            None => match &self.value_str {
                Some(s) => parse_count(s.as_str()),
                None => None,
            },
        }
    }
}

} // verus!
