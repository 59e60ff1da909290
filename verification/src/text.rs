//! Numbers as decimal text.

use vstd::prelude::*;

verus! {

/// The character of one decimal digit.
pub open spec fn digit_char(d: int) -> char {
    if d == 0 {
        '0'
    } else if d == 1 {
        '1'
    } else if d == 2 {
        '2'
    } else if d == 3 {
        '3'
    } else if d == 4 {
        '4'
    } else if d == 5 {
        '5'
    } else if d == 6 {
        '6'
    } else if d == 7 {
        '7'
    } else if d == 8 {
        '8'
    } else {
        '9'
    }
}

/// The decimal digits of a natural number, the most significant first, with
/// no leading zero.
pub open spec fn digits(n: nat) -> Seq<char>
    decreases n,
{
    if n < 10 {
        seq![digit_char(n as int)]
    } else {
        digits(n / 10).push(digit_char((n % 10) as int))
    }
}

/// An integer in decimal, with a minus sign before a negative one.
pub open spec fn decimal(n: int) -> Seq<char> {
    if n < 0 {
        seq!['-'] + digits((-n) as nat)
    } else {
        digits(n as nat)
    }
}

/// One decimal digit as text.
fn digit_str(d: u8) -> (s: &'static str)
    requires
        d < 10,
    ensures
        s@ == seq![digit_char(d as int)],
{
    proof {
        reveal_strlit("0");
        reveal_strlit("1");
        reveal_strlit("2");
        reveal_strlit("3");
        reveal_strlit("4");
        reveal_strlit("5");
        reveal_strlit("6");
        reveal_strlit("7");
        reveal_strlit("8");
        reveal_strlit("9");
    }
    if d == 0 {
        "0"
    } else if d == 1 {
        "1"
    } else if d == 2 {
        "2"
    } else if d == 3 {
        "3"
    } else if d == 4 {
        "4"
    } else if d == 5 {
        "5"
    } else if d == 6 {
        "6"
    } else if d == 7 {
        "7"
    } else if d == 8 {
        "8"
    } else {
        "9"
    }
}

/// The digits of `ds`, which come the least significant first, as
/// characters in the order of writing.
spec fn written(ds: Seq<u8>) -> Seq<char>
    decreases ds.len(),
{
    if ds.len() == 0 {
        Seq::empty()
    } else {
        seq![digit_char(ds.last() as int)] + written(ds.drop_last())
    }
}

/// Appends `n` in decimal to `out`.
pub fn push_decimal(out: &mut String, n: isize)
    ensures
        final(out)@ == old(out)@ + decimal(n as int),
{
    let wide: i128 = n as i128;
    let mut rest: u128 = if wide < 0 {
        out.append("-");
        (-wide) as u128
    } else {
        wide as u128
    };
    proof {
        reveal_strlit("-");
    }
    let ghost sign: Seq<char> = if n < 0 { seq!['-'] } else { Seq::empty() };
    let ghost size = rest as nat;
    let mut low: Vec<u8> = Vec::new();
    while rest >= 10
        invariant
            digits(size) == digits(rest as nat) + written(low@),
            forall|j: int| 0 <= j < low.len() ==> low[j] < 10,
        decreases rest,
    {
        let d: u8 = (rest % 10) as u8;
        assert(low@.push(d).drop_last() =~= low@);
        low.push(d);
        rest = rest / 10;
    }
    out.append(digit_str(rest as u8));
    let ghost head = old(out)@ + sign + digits(rest as nat);
    assert(low@.subrange(0, low.len() as int) =~= low@);
    let mut k: usize = low.len();
    while k > 0
        invariant
            k <= low.len(),
            forall|j: int| 0 <= j < low.len() ==> low[j] < 10,
            out@ + written(low@.subrange(0, k as int)) == head + written(low@),
        decreases k,
    {
        k -= 1;
        assert(low@.subrange(0, k + 1).drop_last() =~= low@.subrange(0, k as int));
        out.append(digit_str(low[k]));
    }
}

/// `n` in decimal.
pub fn decimal_string(n: isize) -> (s: String)
    ensures
        s@ == decimal(n as int),
{
    let mut s = String::new();
    push_decimal(&mut s, n);
    s
}

} // verus!
