//! The score as text.

use vstd::prelude::*;

verus! {

/// The power of ten with `exponent` zeros.
pub open spec fn pow10(exponent: nat) -> nat
    decreases exponent,
{
    if exponent == 0 {
        1
    } else {
        10 * pow10((exponent - 1) as nat)
    }
}

/// The character of a decimal digit.
pub open spec fn digit_mark(digit: nat) -> char {
    if digit == 0 {
        '0'
    } else if digit == 1 {
        '1'
    } else if digit == 2 {
        '2'
    } else if digit == 3 {
        '3'
    } else if digit == 4 {
        '4'
    } else if digit == 5 {
        '5'
    } else if digit == 6 {
        '6'
    } else if digit == 7 {
        '7'
    } else if digit == 8 {
        '8'
    } else {
        '9'
    }
}

/// How many digits a score is shown with: five, or more if it needs more.
pub open spec fn score_width(score: nat) -> nat {
    if score < 100_000 {
        5
    } else if score < 1_000_000 {
        6
    } else if score < 10_000_000 {
        7
    } else if score < 100_000_000 {
        8
    } else if score < 1_000_000_000 {
        9
    } else {
        10
    }
}

/// A score as it is shown: in decimal, with zeros in front up to five digits.
pub open spec fn score_marks(score: nat) -> Seq<char> {
    Seq::new(
        score_width(score),
        |i: int| digit_mark((score / pow10((score_width(score) - 1 - i) as nat)) % 10),
    )
}

/// The power of ten with `exponent` zeros.
fn power_of_ten(exponent: u32) -> (power: u32)
    requires
        exponent <= 9,
    ensures
        power == pow10(exponent as nat),
        power >= 1,
{
    reveal_with_fuel(pow10, 10);
    if exponent == 0 {
        1
    } else if exponent == 1 {
        10
    } else if exponent == 2 {
        100
    } else if exponent == 3 {
        1_000
    } else if exponent == 4 {
        10_000
    } else if exponent == 5 {
        100_000
    } else if exponent == 6 {
        1_000_000
    } else if exponent == 7 {
        10_000_000
    } else if exponent == 8 {
        100_000_000
    } else {
        1_000_000_000
    }
}

/// The text of a decimal digit.
fn digit_text(digit: u32) -> (text: &'static str)
    requires
        digit <= 9,
    ensures
        text@ == seq![digit_mark(digit as nat)],
{
    proof {
        reveal_strlit("0");
        reveal_strlit("1");
        reveal_strlit("2");
        reveal_strlit("3");
        reveal_strlit("4");
        reveal_strlit("5");
        reveal_strlit("6");
        reveal_strlit("7");
        reveal_strlit("8");
        reveal_strlit("9");
    }
    if digit == 0 {
        "0"
    } else if digit == 1 {
        "1"
    } else if digit == 2 {
        "2"
    } else if digit == 3 {
        "3"
    } else if digit == 4 {
        "4"
    } else if digit == 5 {
        "5"
    } else if digit == 6 {
        "6"
    } else if digit == 7 {
        "7"
    } else if digit == 8 {
        "8"
    } else {
        "9"
    }
}

/// A score as it is shown: in decimal, with zeros in front up to five digits.
pub fn score_text(score: u32) -> (text: String)
    ensures
        text@ == score_marks(score as nat),
{
    let width: u32 = if score < 100_000 {
        5
    } else if score < 1_000_000 {
        6
    } else if score < 10_000_000 {
        7
    } else if score < 100_000_000 {
        8
    } else if score < 1_000_000_000 {
        9
    } else {
        10
    };
    let mut text = String::new();
    let mut i: u32 = 0;
    while i < width
        invariant
            i <= width,
            width == score_width(score as nat),
            text@ == score_marks(score as nat).subrange(0, i as int),
        decreases width - i,
    {
        let power = power_of_ten(width - 1 - i);
        let digit = (score / power) % 10;
        text = text.concat(digit_text(digit));
        proof {
            assert(text@ =~= score_marks(score as nat).subrange(0, i + 1));
        }
        i += 1;
    }
    proof {
        assert(text@ =~= score_marks(score as nat));
    }
    text
}

} // verus!
