//! Text for integer values and byte sizes, as shown on axis tick labels.

use vstd::prelude::*;

verus! {

/// The character for a decimal digit.
pub open spec fn digit_char(d: nat) -> char {
    if d == 0 { '0' }
    else if d == 1 { '1' }
    else if d == 2 { '2' }
    else if d == 3 { '3' }
    else if d == 4 { '4' }
    else if d == 5 { '5' }
    else if d == 6 { '6' }
    else if d == 7 { '7' }
    else if d == 8 { '8' }
    else { '9' }
}

/// Decimal digits of a natural number, most significant first, no leading zeros.
pub open spec fn digits_of(n: nat) -> Seq<char>
    decreases n,
{
    if n < 10 {
        seq![digit_char(n)]
    } else {
        digits_of(n / 10).push(digit_char(n % 10))
    }
}

/// Decimal text of an integer, with a leading '-' when it is negative.
pub open spec fn int_text(v: int) -> Seq<char> {
    if v < 0 {
        seq!['-'] + digits_of((-v) as nat)
    } else {
        digits_of(v as nat)
    }
}

/// `n / d` rounded to the nearest integer, ties to the even neighbour.
pub open spec fn round_div(n: nat, d: nat) -> nat
    recommends
        d > 0,
{
    let q = n / d;
    let r = n % d;
    if 2 * r > d || (2 * r == d && q % 2 == 1) {
        q + 1
    } else {
        q
    }
}

pub const KIB: i64 = 1024;

pub const MIB: i64 = 1048576;

pub const GIB: i64 = 1073741824;

/// The tick label of a byte count: the largest of b, Kb, Mb and Gb in which
/// the count is at least one unit, rounded to a whole number of that unit.
pub open spec fn bytes_label(b: int) -> Seq<char> {
    if b < KIB {
        int_text(b) + seq!['b']
    } else if b < MIB {
        digits_of(round_div(b as nat, KIB as nat)) + seq!['K', 'b']
    } else if b < GIB {
        digits_of(round_div(b as nat, MIB as nat)) + seq!['M', 'b']
    } else {
        digits_of(round_div(b as nat, GIB as nat)) + seq!['G', 'b']
    }
}

fn digit_str(d: u64) -> (r: &'static str)
    requires
        d < 10,
    ensures
        r@ == seq![digit_char(d as nat)],
{
    proof {
        reveal_strlit("0");
        reveal_strlit("1");
        reveal_strlit("2");
        reveal_strlit("3");
        reveal_strlit("4");
        reveal_strlit("5");
        reveal_strlit("6");
        reveal_strlit("7");
        reveal_strlit("8");
        reveal_strlit("9");
    }
    if d == 0 { "0" }
    else if d == 1 { "1" }
    else if d == 2 { "2" }
    else if d == 3 { "3" }
    else if d == 4 { "4" }
    else if d == 5 { "5" }
    else if d == 6 { "6" }
    else if d == 7 { "7" }
    else if d == 8 { "8" }
    else { "9" }
}

/// Appends the decimal digits of `n` to `s`.
pub fn push_digits(s: &mut String, n: u64)
    ensures
        final(s)@ == old(s)@ + digits_of(n as nat),
    decreases n,
{
    if n >= 10 {
        push_digits(s, n / 10);
    }
    s.append(digit_str(n % 10));
    proof {
        assert(old(s)@ + digits_of(n as nat) =~= final(s)@) by {
            if n < 10 {
            }
        }
    }
}

/// Decimal text of a signed integer.
pub fn int_to_text(v: i64) -> (r: String)
    ensures
        r@ == int_text(v as int),
{
    let mut s = String::new();
    if v < 0 {
        proof { reveal_strlit("-"); }
        s.append("-");
        let m: u64 = (0i128 - v as i128) as u64;
        push_digits(&mut s, m);
        assert(s@ =~= int_text(v as int));
    } else {
        push_digits(&mut s, v as u64);
        assert(s@ =~= int_text(v as int));
    }
    s
}

fn rounded_quotient(n: u64, d: u64) -> (r: u64)
    requires
        d >= 2,
    ensures
        r as nat == round_div(n as nat, d as nat),
{
    let q = n / d;
    let rem = n % d;
    assert(q < u64::MAX) by (nonlinear_arith)
        requires q == n / d, d >= 2;
    if rem > d - rem || (rem == d - rem && q % 2 == 1) {
        q + 1
    } else {
        q
    }
}

/// Tick label for a byte count, e.g. `512b`, `2Kb`, `5Mb`, `3Gb`.
pub fn format_bytes(bytes: i64) -> (r: String)
    ensures
        r@ == bytes_label(bytes as int),
{
    if bytes < KIB {
        let mut s = int_to_text(bytes);
        proof { reveal_strlit("b"); }
        s.append("b");
        s
    } else {
        let (d, unit): (u64, &str) = if bytes < MIB {
            proof { reveal_strlit("Kb"); }
            (KIB as u64, "Kb")
        } else if bytes < GIB {
            proof { reveal_strlit("Mb"); }
            (MIB as u64, "Mb")
        } else {
            proof { reveal_strlit("Gb"); }
            (GIB as u64, "Gb")
        };
        let mut s = String::new();
        push_digits(&mut s, rounded_quotient(bytes as u64, d));
        s.append(unit);
        assert(s@ =~= bytes_label(bytes as int));
        s
    }
}

} // verus!
