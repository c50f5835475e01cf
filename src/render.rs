use crate::fraction::Fraction;
use crate::model::{category_of, Category};
use vstd::prelude::*;
use vstd::string::StringExecFns;

verus! {

/// The character of a decimal digit.
pub open spec fn digit_char(d: nat) -> char {
    if d == 0 {
        '0'
    } else if d == 1 {
        '1'
    } else if d == 2 {
        '2'
    } else if d == 3 {
        '3'
    } else if d == 4 {
        '4'
    } else if d == 5 {
        '5'
    } else if d == 6 {
        '6'
    } else if d == 7 {
        '7'
    } else if d == 8 {
        '8'
    } else {
        '9'
    }
}

/// The decimal digits of `n`, most significant first.
pub open spec fn decimal(n: nat) -> Seq<char>
    decreases n,
{
    if n < 10 {
        seq![digit_char(n)]
    } else {
        decimal(n / 10).push(digit_char(n % 10))
    }
}

/// An integer in decimal, with a leading `-` where it is negative.
pub open spec fn signed_decimal(i: int) -> Seq<char> {
    if i < 0 {
        seq!['-'] + decimal((-i) as nat)
    } else {
        decimal(i as nat)
    }
}

/// The text of a fraction: `inf`, `-inf`, `nan`, `0`, `n` for a whole number, else `n/d`.
pub open spec fn render_view(v: (int, int)) -> Seq<char> {
    match category_of(v) {
        Category::Infinity => seq!['i', 'n', 'f'],
        Category::NegInfinity => seq!['-', 'i', 'n', 'f'],
        Category::NaN => seq!['n', 'a', 'n'],
        Category::Zero => seq!['0'],
        Category::Normal => if v.1 == 1 {
            signed_decimal(v.0)
        } else {
            signed_decimal(v.0) + seq!['/'] + decimal(v.1 as nat)
        },
    }
}

fn digit_text(d: u32) -> (r: &'static str)
    requires
        d < 10,
    ensures
        r@ == seq![digit_char(d as nat)],
{
    proof {
            reveal_strlit("0");
            reveal_strlit("1");
            reveal_strlit("2");
            reveal_strlit("3");
            reveal_strlit("4");
            reveal_strlit("5");
            reveal_strlit("6");
            reveal_strlit("7");
            reveal_strlit("8");
            reveal_strlit("9");
    }
    match d {
            0 => "0",
            1 => "1",
            2 => "2",
            3 => "3",
            4 => "4",
            5 => "5",
            6 => "6",
            7 => "7",
            8 => "8",
            9 => "9",
            _ => "9",
    }
}

fn push_decimal(out: &mut String, n: u32)
    ensures
        final(out)@ == old(out)@ + decimal(n as nat),
    decreases n,
{
    if n >= 10 {
        push_decimal(out, n / 10);
    }
    out.append(digit_text(n % 10));
    proof {
        assert(final(out)@ =~= old(out)@ + decimal(n as nat));
    }
}

fn push_signed(out: &mut String, i: i32)
    requires
        i > i32::MIN,
    ensures
        final(out)@ == old(out)@ + signed_decimal(i as int),
{
    if i < 0 {
        proof {
            reveal_strlit("-");
        }
        out.append("-");
        push_decimal(out, (-i) as u32);
        assert(final(out)@ =~= old(out)@ + signed_decimal(i as int));
    } else {
        push_decimal(out, i as u32);
    }
}

impl Fraction {
    /// The fraction as text: `inf`, `-inf`, `nan`, `0`, `n` for a whole number, else `n/d`.
    pub fn to_string(&self) -> (r: String)
        ensures
            r@ == render_view(self@),
    {
        let mut out = String::new();
        match self.kind() {
            Category::Infinity => {
                proof {
                    reveal_strlit("inf");
                }
                out.append("inf");
            },
            Category::NegInfinity => {
                proof {
                    reveal_strlit("-inf");
                }
                out.append("-inf");
            },
            Category::NaN => {
                proof {
                    reveal_strlit("nan");
                }
                out.append("nan");
            },
            Category::Zero => {
                proof {
                    reveal_strlit("0");
                }
                out.append("0");
            },
            Category::Normal => {
                push_signed(&mut out, self.numerator());
                let deno = self.denominator();
                if deno != 1 {
                    proof {
                        reveal_strlit("/");
                    }
                    out.append("/");
                    push_decimal(&mut out, deno as u32);
                }
            },
        }
        proof {
            assert(out@ =~= render_view(self@));
        }
        out
    }
}

} // verus!
