//! Decimal text for the attribute values and labels of the rendered image.
//!
//! Every number that reaches the image is written by these functions, so the
//! document text can be pinned down exactly in specifications.

use vstd::prelude::*;
use vstd::string::StringExecFns;

verus! {

/// The decimal digit character for `d` in `0 ..= 9`.
pub open spec fn digit_char(d: int) -> char {
    if d == 0 {
        '0'
    } else if d == 1 {
        '1'
    } else if d == 2 {
        '2'
    } else if d == 3 {
        '3'
    } else if d == 4 {
        '4'
    } else if d == 5 {
        '5'
    } else if d == 6 {
        '6'
    } else if d == 7 {
        '7'
    } else if d == 8 {
        '8'
    } else {
        '9'
    }
}

/// Decimal text of a non-negative integer: no sign, no leading zeros
/// (except the single digit of zero itself).
pub open spec fn spec_fmt_nat(n: int) -> Seq<char>
    decreases n,
{
    if n < 10 {
        seq![digit_char(n)]
    } else {
        spec_fmt_nat(n / 10).push(digit_char(n % 10))
    }
}

/// Decimal text of an integer, with a leading minus sign when negative.
pub open spec fn spec_fmt_int(v: int) -> Seq<char> {
    if v >= 0 {
        spec_fmt_nat(v)
    } else {
        seq!['-'] + spec_fmt_nat(-v)
    }
}

/// Text free of the characters that the image format marks up or quotes,
/// so that it passes into an attribute value or a text node unchanged.
pub open spec fn markup_safe(s: Seq<char>) -> bool {
    forall|i: int|
        0 <= i < s.len() ==> s[i] != '&' && s[i] != '<' && s[i] != '>' && s[i] != '"' && s[i]
            != '\''
}

/// Every character of a formatted non-negative integer is a decimal digit.
pub proof fn lemma_fmt_nat_digits(n: int)
    ensures
        forall|i: int|
            0 <= i < spec_fmt_nat(n).len() ==> '0' <= #[trigger] spec_fmt_nat(n)[i] && spec_fmt_nat(
                n,
            )[i] <= '9',
    decreases n,
{
    if n < 10 {
        assert(spec_fmt_nat(n) =~= seq![digit_char(n)]);
        assert('0' <= digit_char(n) && digit_char(n) <= '9');
    } else {
        lemma_fmt_nat_digits(n / 10);
        assert('0' <= digit_char(n % 10) && digit_char(n % 10) <= '9');
        assert(forall|i: int|
            0 <= i < spec_fmt_nat(n).len() ==> #[trigger] spec_fmt_nat(n)[i] == if i
                < spec_fmt_nat(n / 10).len() {
                spec_fmt_nat(n / 10)[i]
            } else {
                digit_char(n % 10)
            });
    }
}

/// Formatted non-negative integers never hold markup characters.
pub proof fn lemma_fmt_nat_safe(n: int)
    ensures
        markup_safe(spec_fmt_nat(n)),
{
    lemma_fmt_nat_digits(n);
}

/// Formatted integers never hold markup characters.
pub proof fn lemma_fmt_int_safe(v: int)
    ensures
        markup_safe(spec_fmt_int(v)),
{
    lemma_fmt_nat_safe(v);
    lemma_fmt_nat_safe(-v);
}

fn digit_str(d: u64) -> (r: &'static str)
    requires
        d < 10,
    ensures
        r@ == seq![digit_char(d as int)],
{
    if d == 0 {
        proof {
            reveal_strlit("0");
            assert("0"@ =~= seq![digit_char(0int)]);
        }
        "0"
    } else if d == 1 {
        proof {
            reveal_strlit("1");
            assert("1"@ =~= seq![digit_char(1int)]);
        }
        "1"
    } else if d == 2 {
        proof {
            reveal_strlit("2");
            assert("2"@ =~= seq![digit_char(2int)]);
        }
        "2"
    } else if d == 3 {
        proof {
            reveal_strlit("3");
            assert("3"@ =~= seq![digit_char(3int)]);
        }
        "3"
    } else if d == 4 {
        proof {
            reveal_strlit("4");
            assert("4"@ =~= seq![digit_char(4int)]);
        }
        "4"
    } else if d == 5 {
        proof {
            reveal_strlit("5");
            assert("5"@ =~= seq![digit_char(5int)]);
        }
        "5"
    } else if d == 6 {
        proof {
            reveal_strlit("6");
            assert("6"@ =~= seq![digit_char(6int)]);
        }
        "6"
    } else if d == 7 {
        proof {
            reveal_strlit("7");
            assert("7"@ =~= seq![digit_char(7int)]);
        }
        "7"
    } else if d == 8 {
        proof {
            reveal_strlit("8");
            assert("8"@ =~= seq![digit_char(8int)]);
        }
        "8"
    } else {
        proof {
            reveal_strlit("9");
            assert("9"@ =~= seq![digit_char(9int)]);
        }
        "9"
    }
}

/// Writes a non-negative integer in decimal.
pub fn fmt_u64(n: u64) -> (r: String)
    ensures
        r@ == spec_fmt_nat(n as int),
    decreases n,
{
    if n < 10 {
        let mut s = String::new();
        s.append(digit_str(n));
        proof {
            assert(s@ =~= spec_fmt_nat(n as int));
        }
        s
    } else {
        let mut s = fmt_u64(n / 10);
        s.append(digit_str(n % 10));
        s
    }
}

/// Writes an integer in decimal, with a minus sign when negative.
pub fn fmt_i64(v: i64) -> (r: String)
    ensures
        r@ == spec_fmt_int(v as int),
{
    if v >= 0 {
        fmt_u64(v as u64)
    } else {
        let mag: u64 = (-(v as i128)) as u64;
        let mut s = String::from_str("-");
        let tail = fmt_u64(mag);
        s.append(tail.as_str());
        proof {
            reveal_strlit("-");
            assert("-"@ =~= seq!['-']);
        }
        s
    }
}

/// Decimal text of `f` padded on the left with zeros to three digits.
pub open spec fn spec_pad3(f: int) -> Seq<char> {
    if f < 10 {
        seq!['0', '0'] + spec_fmt_nat(f)
    } else if f < 100 {
        seq!['0'] + spec_fmt_nat(f)
    } else {
        spec_fmt_nat(f)
    }
}

/// Writes a value below one thousand as exactly three digits.
pub fn pad3(f: u64) -> (r: String)
    requires
        f < 1000,
    ensures
        r@ == spec_pad3(f as int),
{
    if f < 10 {
        let mut s = String::from_str("00");
        let tail = fmt_u64(f);
        s.append(tail.as_str());
        proof {
            reveal_strlit("00");
            assert("00"@ =~= seq!['0', '0']);
        }
        s
    } else if f < 100 {
        let mut s = String::from_str("0");
        let tail = fmt_u64(f);
        s.append(tail.as_str());
        proof {
            reveal_strlit("0");
            assert("0"@ =~= seq!['0']);
        }
        s
    } else {
        fmt_u64(f)
    }
}

/// Three-digit padded text never holds markup characters.
pub proof fn lemma_pad3_safe(f: int)
    ensures
        markup_safe(spec_pad3(f)),
{
    lemma_fmt_nat_digits(f);
}

} // verus!
