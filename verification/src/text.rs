//! Decimal rendering of integers, used in error messages.
use vstd::prelude::*;

verus! {

/// The decimal digit character for `d` (`d < 10`).
pub open spec fn digit_char(d: nat) -> char {
    (48 + d) as char
}

/// The decimal representation of `n`, most significant digit first.
pub open spec fn spec_decimal(n: nat) -> Seq<char>
    decreases n,
{
    if n < 10 {
        seq![digit_char(n)]
    } else {
        spec_decimal(n / 10).push(digit_char(n % 10))
    }
}

/// The text of the decimal digit `d` (`d < 10`).
fn digit_text(d: u128) -> (s: &'static str)
    requires
        d < 10,
    ensures
        s@ == seq![digit_char(d as nat)],
{
    if d == 0 {
        proof {
            reveal_strlit("0");
        }
        "0"
    } else if d == 1 {
        proof {
            reveal_strlit("1");
        }
        "1"
    } else if d == 2 {
        proof {
            reveal_strlit("2");
        }
        "2"
    } else if d == 3 {
        proof {
            reveal_strlit("3");
        }
        "3"
    } else if d == 4 {
        proof {
            reveal_strlit("4");
        }
        "4"
    } else if d == 5 {
        proof {
            reveal_strlit("5");
        }
        "5"
    } else if d == 6 {
        proof {
            reveal_strlit("6");
        }
        "6"
    } else if d == 7 {
        proof {
            reveal_strlit("7");
        }
        "7"
    } else if d == 8 {
        proof {
            reveal_strlit("8");
        }
        "8"
    } else {
        proof {
            reveal_strlit("9");
        }
        "9"
    }
}

/// Renders `n` in decimal, most significant digit first.
pub(crate) fn decimal_string(n: u128) -> (s: String)
    ensures
        s@ == spec_decimal(n as nat),
    decreases n,
{
    let mut s = if n < 10 {
        String::new()
    } else {
        decimal_string(n / 10)
    };
    s.append(digit_text(n % 10));
    s
}

/// Renders a signed integer in decimal, with a leading `-` for negative values.
pub fn signed_decimal_string(n: i128) -> (s: String)
    ensures
        n >= 0 ==> s@ == spec_decimal(n as nat),
        n < 0 ==> s@ == seq!['-'] + spec_decimal((-n) as nat),
{
    if n >= 0 {
        decimal_string(n as u128)
    } else {
        let magnitude: u128 = if n == i128::MIN {
            0x8000_0000_0000_0000_0000_0000_0000_0000
        } else {
            (-n) as u128
        };
        let mut s = String::new();
        s.append("-");
        proof {
            reveal_strlit("-");
        }
        let digits = decimal_string(magnitude);
        s.append(digits.as_str());
        s
    }
}

} // verus!
