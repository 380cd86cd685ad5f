//! The name under which a category is reported.

use vstd::prelude::*;
use crate::types::GameResult;

verus! {

/// The character of a decimal digit.
pub open spec fn digit_char(d: int) -> char {
    if d == 0 {
        '0'
    } else if d == 1 {
        '1'
    } else if d == 2 {
        '2'
    } else if d == 3 {
        '3'
    } else if d == 4 {
        '4'
    } else if d == 5 {
        '5'
    } else if d == 6 {
        '6'
    } else if d == 7 {
        '7'
    } else if d == 8 {
        '8'
    } else {
        '9'
    }
}

/// A number written in decimal, without leading zeros.
pub open spec fn decimal(n: nat) -> Seq<char>
    decreases n,
{
    if n < 10 {
        seq![digit_char(n as int)]
    } else {
        decimal(n / 10).push(digit_char((n % 10) as int))
    }
}

/// The name of a category: a single number is written in decimal, a line as
/// `double-` and its two numbers with a hyphen between, a corner as `quad-`
/// and its four numbers with commas between, each in the order in which the
/// category holds them; the others have fixed names.
pub open spec fn label_of(g: GameResult) -> Seq<char> {
    match g {
        GameResult::Exact { num } => decimal(num as nat),
        GameResult::Red => "red"@,
        GameResult::Black => "black"@,
        GameResult::Range1to12 => "1-12"@,
        GameResult::Range13to24 => "13-24"@,
        GameResult::Range25to36 => "25-36"@,
        GameResult::Odd => "odd"@,
        GameResult::Even => "even"@,
        GameResult::Range2to1First => "2to11st"@,
        GameResult::Range2to1Second => "2to12nd"@,
        GameResult::Range2to1Third => "2to13rd"@,
        GameResult::Line { nums } => "double-"@ + decimal(nums.0 as nat) + "-"@ + decimal(
            nums.1 as nat,
        ),
        GameResult::Corner { nums } => "quad-"@ + decimal(nums.0 as nat) + ","@ + decimal(
            nums.1 as nat,
        ) + ","@ + decimal(nums.2 as nat) + ","@ + decimal(nums.3 as nat),
        GameResult::Range1to18 => "1-18"@,
        GameResult::Range19to36 => "19-36"@,
    }
}

/// `u32::to_string`, which writes the number in decimal.
#[verifier::external_body]
fn decimal_string(n: u32) -> (s: String)
    ensures
        s@ == decimal(n as nat),
{
    n.to_string()
}

impl GameResult {
    /// The name under which the category is reported.
    pub fn label(&self) -> (s: String)
        ensures
            s@ == label_of(*self),
    {
        match *self {
            GameResult::Exact { num } => decimal_string(num),
            GameResult::Red => String::from_str("red"),
            GameResult::Black => String::from_str("black"),
            GameResult::Range1to12 => String::from_str("1-12"),
            GameResult::Range13to24 => String::from_str("13-24"),
            GameResult::Range25to36 => String::from_str("25-36"),
            GameResult::Odd => String::from_str("odd"),
            GameResult::Even => String::from_str("even"),
            GameResult::Range2to1First => String::from_str("2to11st"),
            GameResult::Range2to1Second => String::from_str("2to12nd"),
            GameResult::Range2to1Third => String::from_str("2to13rd"),
            GameResult::Line { nums } => {
                let mut s = String::from_str("double-");
                s.append(decimal_string(nums.0).as_str());
                s.append("-");
                s.append(decimal_string(nums.1).as_str());
                s
            },
            GameResult::Corner { nums } => {
                let mut s = String::from_str("quad-");
                s.append(decimal_string(nums.0).as_str());
                s.append(",");
                s.append(decimal_string(nums.1).as_str());
                s.append(",");
                s.append(decimal_string(nums.2).as_str());
                s.append(",");
                s.append(decimal_string(nums.3).as_str());
                s
            },
            GameResult::Range1to18 => String::from_str("1-18"),
            GameResult::Range19to36 => String::from_str("19-36"),
        }
    }
}

} // verus!
