//! The text of the coverage report.

use vstd::prelude::*;
use vstd::string::*;

verus! {

/// The character of a decimal digit.
pub open spec fn digit_char(d: int) -> char {
    if d == 0 {
        '0'
    } else if d == 1 {
        '1'
    } else if d == 2 {
        '2'
    } else if d == 3 {
        '3'
    } else if d == 4 {
        '4'
    } else if d == 5 {
        '5'
    } else if d == 6 {
        '6'
    } else if d == 7 {
        '7'
    } else if d == 8 {
        '8'
    } else {
        '9'
    }
}

/// A natural number written in decimal, without leading zeros.
pub open spec fn decimal(n: nat) -> Seq<char>
    decreases n,
{
    if n < 10 {
        seq![digit_char(n as int)]
    } else {
        decimal(n / 10).push(digit_char((n % 10) as int))
    }
}

/// The report on how much of a reference frame was used.
pub open spec fn report_text(mapped: nat, total: nat) -> Seq<char> {
    "mapped points: "@ + decimal(mapped) + "; total points: "@ + decimal(total)
}

/// The text of one decimal digit.
fn digit_text(d: usize) -> (text: &'static str)
    requires
        d < 10,
    ensures
        text@ == seq![digit_char(d as int)],
{
    proof {
        reveal_strlit("0");
        reveal_strlit("1");
        reveal_strlit("2");
        reveal_strlit("3");
        reveal_strlit("4");
        reveal_strlit("5");
        reveal_strlit("6");
        reveal_strlit("7");
        reveal_strlit("8");
        reveal_strlit("9");
    }
    let text = if d == 0 {
        "0"
    } else if d == 1 {
        "1"
    } else if d == 2 {
        "2"
    } else if d == 3 {
        "3"
    } else if d == 4 {
        "4"
    } else if d == 5 {
        "5"
    } else if d == 6 {
        "6"
    } else if d == 7 {
        "7"
    } else if d == 8 {
        "8"
    } else {
        "9"
    };
    assert(text@ =~= seq![digit_char(d as int)]);
    text
}

/// Appends the decimal form of `n` to the text.
pub fn append_decimal(text: &mut String, n: usize)
    ensures
        final(text)@ == old(text)@ + decimal(n as nat),
    decreases n,
{
    if n >= 10 {
        append_decimal(text, n / 10);
    }
    text.append(digit_text(n % 10));
    proof {
        if n >= 10 {
            assert(old(text)@ + decimal((n / 10) as nat) + seq![digit_char((n % 10) as int)] =~= old(text)@
                + decimal(n as nat));
        }
    }
}

/// Writes the coverage report: how many points of the reference were used
/// at least once, and how many points it has.
pub fn coverage_report(mapped: usize, total: usize) -> (text: String)
    ensures
        text@ == report_text(mapped as nat, total as nat),
{
    let mut text = String::from_str("mapped points: ");
    append_decimal(&mut text, mapped);
    text.append("; total points: ");
    append_decimal(&mut text, total);
    text
}

} // verus!
