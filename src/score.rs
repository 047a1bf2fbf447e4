//! The end-of-session figures as text: whole numbers, accuracy to two
//! decimals and words per minute, computed in integers.

use vstd::prelude::*;
use crate::words::push_char_to;

verus! {

pub open spec fn digits() -> Seq<char> {
    seq!['0', '1', '2', '3', '4', '5', '6', '7', '8', '9']
}

/// Decimal text of `n`, without leading zeros.
pub open spec fn dec(n: nat) -> Seq<char>
    decreases n,
{
    if n < 10 {
        seq![digits()[n as int]]
    } else {
        dec(n / 10) + seq![digits()[(n % 10) as int]]
    }
}

/// `n / d` rounded to the nearest whole number, ties to the even one.
pub open spec fn round_div(n: nat, d: nat) -> nat
    recommends
        d > 0,
{
    let q = n / d;
    let r = n % d;
    if 2 * r > d || (2 * r == d && q % 2 == 1) {
        q + 1
    } else {
        q
    }
}

/// Accuracy in hundredths of a percent, rounded.
pub open spec fn accuracy_hundredths(correct: nat, incorrect: nat) -> nat {
    if correct + incorrect == 0 {
        0
    } else {
        round_div(correct * 10000, correct + incorrect)
    }
}

/// Accuracy as a percentage with two decimals.
pub open spec fn accuracy_spec(correct: nat, incorrect: nat) -> Seq<char> {
    let h = accuracy_hundredths(correct, incorrect);
    dec(h / 100) + seq!['.', digits()[((h % 100) / 10) as int], digits()[(h % 10) as int]]
}

/// Words per minute, five characters to a word, rounded; 0 before a second has passed.
pub open spec fn wpm_value(strokes: nat, elapsed: nat) -> nat {
    if elapsed == 0 {
        0
    } else {
        round_div(strokes * 12, elapsed)
    }
}

fn digit(d: u64) -> (c: char)
    requires
        d < 10,
    ensures
        c == digits()[d as int],
{
    let ds: [char; 10] = ['0', '1', '2', '3', '4', '5', '6', '7', '8', '9'];
    proof {
        assert(ds@ =~= digits());
    }
    ds[d as usize]
}

/// Decimal text of `n`.
pub fn decimal(n: u64) -> (r: String)
    ensures
        r@ == dec(n as nat),
    decreases n,
{
    if n < 10 {
        let mut s = String::new();
        push_char_to(&mut s, digit(n));
        proof {
            assert(s@ =~= dec(n as nat));
        }
        s
    } else {
        let mut s = decimal(n / 10);
        push_char_to(&mut s, digit(n % 10));
        s
    }
}

fn round_div_exec(n: u64, d: u64) -> (r: u64)
    requires
        0 < d <= u32::MAX,
        n <= u32::MAX as u64 * 12,
    ensures
        r == round_div(n as nat, d as nat),
{
    let q = n / d;
    let m = n % d;
    if 2 * m > d || (2 * m == d && q % 2 == 1) {
        q + 1
    } else {
        q
    }
}

/// Share of correct words as a percentage with two decimals (`"90.00"`).
pub fn accuracy_text(correct: u16, incorrect: u16) -> (r: String)
    ensures
        r@ == accuracy_spec(correct as nat, incorrect as nat),
{
    let total = correct as u64 + incorrect as u64;
    let h: u64 = if total == 0 {
        0
    } else {
        round_div_exec(correct as u64 * 10000, total)
    };
    proof {
        assert(h == accuracy_hundredths(correct as nat, incorrect as nat));
    }
    let mut s = decimal(h / 100);
    push_char_to(&mut s, '.');
    push_char_to(&mut s, digit((h % 100) / 10));
    push_char_to(&mut s, digit(h % 10));
    proof {
        assert(s@ =~= accuracy_spec(correct as nat, incorrect as nat));
    }
    s
}

/// Typing speed in words per minute, as a whole number.
pub fn wpm_text(strokes: u16, elapsed: u32) -> (r: String)
    ensures
        r@ == dec(wpm_value(strokes as nat, elapsed as nat)),
{
    let w: u64 = if elapsed == 0 {
        0
    } else {
        round_div_exec(strokes as u64 * 12, elapsed as u64)
    };
    decimal(w)
}

} // verus!
