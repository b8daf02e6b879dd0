//! Fixed-point decimal values.
//!
//! Prices and sizes arrive on the wire as decimal numerals in text.  The
//! engine carries them as unsigned integers counting millionths, which gives
//! the price keys a total order and keeps every later computation exact.
//! A numeral is `digits`, `digits '.' digits`, `digits '.'` or `'.' digits`;
//! anything else — a sign, an exponent, a non-numeric string — is rejected,
//! as are values too large for the carrier.  Fraction digits beyond the
//! sixth are dropped.

use vstd::prelude::*;

verus! {

/// Whether `c` is a decimal digit.
pub open spec fn is_digit(c: char) -> bool {
    '0' <= c && c <= '9'
}

/// Numeric value of a digit character.
pub open spec fn digit_val(c: char) -> int {
    c as int - '0' as int
}

/// Whether every character of `s` is a decimal digit.
pub open spec fn all_digits(s: Seq<char>) -> bool {
    forall|i: int| 0 <= i < s.len() ==> is_digit(#[trigger] s[i])
}

/// Value of a digit string read in base ten.
pub open spec fn digits_val(s: Seq<char>) -> int
    decreases s.len(),
{
    if s.len() == 0 {
        0
    } else {
        digits_val(s.drop_last()) * 10 + digit_val(s.last())
    }
}

/// Ten to the power `k`.
pub open spec fn pow10(k: int) -> int
    decreases k,
{
    if k <= 0 {
        1
    } else {
        10 * pow10(k - 1)
    }
}

/// Index of the first dot of `s`, or `s.len()` when there is none.
pub open spec fn dot_idx(s: Seq<char>) -> int
    decreases s.len(),
{
    if s.len() == 0 {
        0
    } else if s[0] == '.' {
        0
    } else {
        1 + dot_idx(s.drop_first())
    }
}

/// The integer-part digits of `s`: everything before the first dot.
pub open spec fn int_part(s: Seq<char>) -> Seq<char> {
    s.take(dot_idx(s))
}

/// The fraction digits of `s`: everything after the first dot.
pub open spec fn frac_part(s: Seq<char>) -> Seq<char> {
    if dot_idx(s) < s.len() {
        s.skip(dot_idx(s) + 1)
    } else {
        Seq::empty()
    }
}

/// Whether `s` is a plain decimal numeral: digits around at most one dot,
/// with at least one digit in all.
pub open spec fn is_decimal(s: Seq<char>) -> bool {
    &&& all_digits(int_part(s))
    &&& all_digits(frac_part(s))
    &&& int_part(s).len() + frac_part(s).len() > 0
}

/// Value of the fraction digits in millionths; digits beyond the sixth are
/// dropped.
pub open spec fn frac_micro(s: Seq<char>) -> int {
    if s.len() >= 6 {
        digits_val(s.take(6))
    } else {
        digits_val(s) * pow10(6 - s.len())
    }
}

/// Value of the numeral `s` in millionths.
pub open spec fn decimal_micro(s: Seq<char>) -> int {
    digits_val(int_part(s)) * 1_000_000 + frac_micro(frac_part(s))
}

/// What parsing a numeral yields: its value in millionths where `s` is a
/// decimal numeral whose value fits the carrier, nothing otherwise.
pub open spec fn spec_parse_fixed(s: Seq<char>) -> Option<u64> {
    if is_decimal(s) && decimal_micro(s) <= u64::MAX {
        Some(decimal_micro(s) as u64)
    } else {
        None
    }
}

proof fn lemma_dot_idx_range(s: Seq<char>)
    ensures
        0 <= dot_idx(s) <= s.len(),
        dot_idx(s) < s.len() ==> s[dot_idx(s)] == '.',
        forall|j: int| 0 <= j < dot_idx(s) ==> s[j] != '.',
    decreases s.len(),
{
    if s.len() > 0 && s[0] != '.' {
        lemma_dot_idx_range(s.drop_first());
        assert(forall|j: int| 1 <= j < dot_idx(s) ==> s[j] == s.drop_first()[j - 1]);
    }
}

proof fn lemma_dot_idx_at(s: Seq<char>, i: int)
    requires
        0 <= i <= s.len(),
        forall|j: int| 0 <= j < i ==> s[j] != '.',
        i < s.len() ==> s[i] == '.',
    ensures
        dot_idx(s) == i,
    decreases i,
{
    if s.len() == 0 {
    } else if i == 0 {
    } else {
        assert(s[0] != '.');
        assert(forall|j: int| 0 <= j < i - 1 ==> s.drop_first()[j] != '.');
        lemma_dot_idx_at(s.drop_first(), i - 1);
    }
}

/// The value of a digit string never shrinks as digits are appended.
proof fn lemma_digits_val_prefix(s: Seq<char>, j: int)
    requires
        all_digits(s),
        0 <= j <= s.len(),
    ensures
        0 <= digits_val(s.take(j)) <= digits_val(s),
    decreases s.len() - j,
{
    if j == s.len() {
        assert(s.take(j) =~= s);
        lemma_digits_val_nonneg(s);
    } else {
        assert(s.take(j + 1).drop_last() =~= s.take(j));
        assert(digits_val(s.take(j + 1)) == digits_val(s.take(j)) * 10 + digit_val(s[j]));
        lemma_digits_val_prefix(s, j + 1);
        lemma_digits_val_nonneg(s.take(j));
    }
}

pub(crate) proof fn lemma_digits_val_nonneg(s: Seq<char>)
    requires
        all_digits(s),
    ensures
        digits_val(s) >= 0,
    decreases s.len(),
{
    if s.len() > 0 {
        assert(all_digits(s.drop_last()));
        lemma_digits_val_nonneg(s.drop_last());
    }
}

/// A string of `k` digits is worth less than ten to the `k`.
pub(crate) proof fn lemma_digits_val_bound(s: Seq<char>)
    requires
        all_digits(s),
    ensures
        digits_val(s) < pow10(s.len() as int),
    decreases s.len(),
{
    if s.len() > 0 {
        assert(all_digits(s.drop_last()));
        lemma_digits_val_bound(s.drop_last());
        lemma_digits_val_nonneg(s.drop_last());
    }
}

pub(crate) proof fn lemma_pow10_mono(a: int, b: int)
    requires
        a <= b,
    ensures
        pow10(a) <= pow10(b),
    decreases b - a,
{
    if a < b {
        lemma_pow10_mono(a, b - 1);
        lemma_pow10_pos(b - 1);
    }
}

proof fn lemma_pow10_add(a: int, b: int)
    requires
        a >= 0,
        b >= 0,
    ensures
        pow10(a) * pow10(b) == pow10(a + b),
    decreases a,
{
    if a > 0 {
        lemma_pow10_add(a - 1, b);
        assert((10 * pow10(a - 1)) * pow10(b) == 10 * (pow10(a - 1) * pow10(b)))
            by (nonlinear_arith);
    }
}

fn char_digit(c: char) -> (r: Option<u64>)
    ensures
        r is Some <==> is_digit(c),
        r is Some ==> r->0 == digit_val(c) && r->0 < 10,
{
    if c >= '0' && c <= '9' {
        Some((c as u32 - 48) as u64)
    } else {
        None
    }
}

/// Reads a decimal numeral into millionths.
///
/// Returns the exact scaled value where the text is a plain decimal numeral
/// that fits the carrier, and nothing otherwise.
pub fn parse_fixed(s: &str) -> (r: Option<u64>)
    ensures
        r == spec_parse_fixed(s@),
{
    let n = s.unicode_len();
    // Find the dot, if any.
    let mut k: usize = 0;
    while k < n && s.get_char(k) != '.'
        invariant
            0 <= k <= n,
            n == s@.len(),
            forall|j: int| 0 <= j < k ==> s@[j] != '.',
        decreases n - k,
    {
        k = k + 1;
    }
    proof {
        lemma_dot_idx_at(s@, k as int);
        assert(int_part(s@) == s@.take(k as int));
    }
    if n == 0 || (k == 0 && k + 1 >= n) {
        // No digits at all: empty text or a bare dot.
        proof {
            if k as int == s@.len() {
                assert(frac_part(s@).len() == 0);
            } else {
                assert(frac_part(s@) =~= s@.skip(k as int + 1));
            }
        }
        return None;
    }
    // Integer part.
    let mut ip: u64 = 0;
    let mut j: usize = 0;
    while j < k
        invariant
            0 <= j <= k <= n,
            n == s@.len(),
            dot_idx(s@) == k as int,
            all_digits(s@.take(j as int)),
            ip == digits_val(s@.take(j as int)),
        decreases k - j,
    {
        let c = s.get_char(j);
        proof {
            assert(s@.take(j as int + 1).drop_last() =~= s@.take(j as int));
        }
        match char_digit(c) {
            None => {
                // A non-digit before the dot: not a numeral.
                assert(!is_digit(int_part(s@)[j as int]));
                return None;
            },
            Some(d) => {
                if ip > (u64::MAX - d) / 10 {
                    // The integer part alone exceeds the carrier.
                    proof {
                        lemma_int_overflow(s@, j as int, ip as int, d as int);
                    }
                    return None;
                }
                ip = ip * 10 + d;
            },
        }
        j = j + 1;
    }
    proof {
        assert(s@.take(k as int) =~= int_part(s@));
        assert(ip == digits_val(int_part(s@)));
    }
    // Fraction part: the first six digits count, the rest only have to be
    // digits.
    let mut fp: u64 = 0;
    let mut cnt: usize = 0;
    if k < n {
        let mut j2: usize = k + 1;
        while j2 < n
            invariant
                k < n,
                n == s@.len(),
                dot_idx(s@) == k as int,
                k + 1 <= j2 <= n,
                cnt == if j2 - (k + 1) <= 6 {
                    j2 - (k + 1)
                } else {
                    6int
                },
                all_digits(s@.skip(k as int + 1).take(j2 - (k + 1))),
                fp == digits_val(s@.skip(k as int + 1).take(cnt as int)),
                fp < pow10(cnt as int),
                cnt <= 6,
            decreases n - j2,
        {
            let c = s.get_char(j2);
            proof {
                let fr = s@.skip(k as int + 1);
                assert(fr[j2 - (k + 1)] == s@[j2 as int]);
                assert(fr.take((j2 - (k + 1)) + 1).drop_last() =~= fr.take(j2 - (k + 1)));
            }
            match char_digit(c) {
                None => {
                    assert(frac_part(s@) =~= s@.skip(k as int + 1));
                    assert(!is_digit(frac_part(s@)[j2 - (k + 1)]));
                    return None;
                },
                Some(d) => {
                    if cnt < 6 {
                        proof {
                            lemma_pow10_mono(cnt as int + 1, 6);
                            assert(pow10(6) == 1_000_000) by {
                                reveal_with_fuel(pow10, 8);
                            }
                        }
                        fp = fp * 10 + d;
                        cnt = cnt + 1;
                    }
                },
            }
            j2 = j2 + 1;
        }
        proof {
            assert(s@.skip(k as int + 1).take(n - (k + 1)) =~= s@.skip(k as int + 1));
            assert(frac_part(s@) =~= s@.skip(k as int + 1));
        }
    }
    proof {
        assert(pow10(6) == 1_000_000) by {
            reveal_with_fuel(pow10, 8);
        }
        assert(all_digits(int_part(s@)));
        let fr = frac_part(s@);
        if k < n {
            if n - (k + 1) >= 6 {
                assert(cnt == 6);
                assert(fr.take(6) =~= s@.skip(k as int + 1).take(6));
                assert(fp == digits_val(fr.take(6)));
                assert(frac_micro(fr) == digits_val(fr.take(6)));
                assert(pow10(0) == 1);
                assert(fp * pow10(6 - cnt) == fp);
            } else {
                assert(fr.take(cnt as int) =~= fr);
                lemma_pow10_mono(6 - fr.len() as int, 6);
                lemma_digits_val_nonneg(fr);
                lemma_pow10_add(fr.len() as int, 6 - fr.len() as int);
                lemma_pow10_pos(6 - fr.len() as int);
                assert(digits_val(fr) * pow10(6 - fr.len()) < pow10(fr.len() as int) * pow10(
                    6 - fr.len() as int,
                )) by (nonlinear_arith)
                    requires
                        digits_val(fr) < pow10(fr.len() as int),
                        pow10(6 - fr.len() as int) >= 1,
                ;
                assert(cnt == fr.len());
                assert(fp == digits_val(fr));
                assert(frac_micro(fr) == digits_val(fr) * pow10(6 - fr.len()));
                assert(fp * pow10(6 - cnt) == frac_micro(fr));
            }
        } else {
            assert(fr =~= Seq::<char>::empty());
            assert(cnt == 0);
            assert(fp == 0);
            assert(digits_val(fr) == 0);
            assert(frac_micro(fr) == 0);
        }
        assert(is_decimal(s@));
        assert(fp * pow10(6 - cnt) == frac_micro(fr));
        assert(fp * pow10(6 - cnt) < 1_000_000);
    }
    // Pad the fraction out to six digits.
    while cnt < 6
        invariant
            cnt <= 6,
            is_decimal(s@),
            fp * pow10(6 - cnt) == frac_micro(frac_part(s@)),
            fp * pow10(6 - cnt) < 1_000_000,
            ip == digits_val(int_part(s@)),
        decreases 6 - cnt,
    {
        proof {
            assert(pow10(6 - cnt) == 10 * pow10(6 - (cnt + 1)));
            lemma_pow10_pos(6 - (cnt as int + 1));
            assert((fp * 10) * pow10(6 - (cnt as int + 1)) == fp * (10 * pow10(
                6 - (cnt as int + 1),
            ))) by (nonlinear_arith);
            assert(fp * 10 <= (fp * 10) * pow10(6 - (cnt as int + 1))) by (nonlinear_arith)
                requires
                    fp >= 0,
                    pow10(6 - (cnt as int + 1)) >= 1,
            ;
        }
        fp = fp * 10;
        cnt = cnt + 1;
    }
    proof {
        assert(fp as int * pow10(0) == fp as int);
        assert(fp == frac_micro(frac_part(s@)));
        lemma_frac_micro_nonneg(frac_part(s@));
    }
    // Combine the parts.
    if ip > (u64::MAX - fp) / 1_000_000 {
        proof {
            lemma_combine_overflow(s@, ip as int, fp as int);
        }
        return None;
    }
    proof {
        lemma_combine_fits(ip as int, fp as int);
    }
    Some(ip * 1_000_000 + fp)
}

pub(crate) proof fn lemma_pow10_pos(k: int)
    ensures
        pow10(k) >= 1,
    decreases k,
{
    if k > 0 {
        lemma_pow10_pos(k - 1);
    }
}

/// When a prefix of the integer digits already exceeds the carrier, the
/// numeral's value does too.
proof fn lemma_int_overflow(s: Seq<char>, j: int, ip: int, d: int)
    requires
        0 <= j < dot_idx(s) <= s.len(),
        ip == digits_val(s.take(j)),
        0 <= d < 10,
        d == digit_val(s[j]),
        ip > (u64::MAX - d) / 10,
        0 <= ip,
    ensures
        is_decimal(s) ==> decimal_micro(s) > u64::MAX,
{
    if is_decimal(s) {
        lemma_dot_idx_range(s);
        assert(s.take(j + 1).drop_last() =~= s.take(j));
        assert(digits_val(s.take(j + 1)) == ip * 10 + d);
        assert(ip * 10 + d > u64::MAX) by (nonlinear_arith)
            requires
                ip > (u64::MAX - d) / 10,
                0 <= d < 10,
                0 <= ip,
        ;
        assert(s.take(j + 1) =~= int_part(s).take(j + 1));
        lemma_digits_val_prefix(int_part(s), j + 1);
        lemma_frac_micro_nonneg(frac_part(s));
        assert(digits_val(int_part(s)) * 1_000_000 >= digits_val(int_part(s)))
            by (nonlinear_arith)
            requires
                digits_val(int_part(s)) > u64::MAX,
        ;
    }
}

proof fn lemma_frac_micro_nonneg(s: Seq<char>)
    requires
        all_digits(s),
    ensures
        frac_micro(s) >= 0,
{
    if s.len() >= 6 {
        assert(all_digits(s.take(6)));
        lemma_digits_val_nonneg(s.take(6));
    } else {
        lemma_digits_val_nonneg(s);
        lemma_pow10_pos(6 - s.len());
        assert(digits_val(s) * pow10(6 - s.len()) >= 0) by (nonlinear_arith)
            requires
                digits_val(s) >= 0,
                pow10(6 - s.len()) >= 1,
        ;
    }
}

proof fn lemma_combine_overflow(s: Seq<char>, ip: int, fp: int)
    requires
        is_decimal(s),
        ip == digits_val(int_part(s)),
        fp == frac_micro(frac_part(s)),
        0 <= fp < 1_000_000,
        ip > (u64::MAX - fp) / 1_000_000,
    ensures
        decimal_micro(s) > u64::MAX,
{
    assert(ip * 1_000_000 + fp > u64::MAX) by (nonlinear_arith)
        requires
            ip > (u64::MAX - fp) / 1_000_000,
            0 <= fp < 1_000_000,
    ;
}

proof fn lemma_combine_fits(ip: int, fp: int)
    requires
        0 <= fp < 1_000_000,
        0 <= ip <= (u64::MAX - fp) / 1_000_000,
    ensures
        ip * 1_000_000 + fp <= u64::MAX,
{
    assert(ip * 1_000_000 + fp <= u64::MAX) by (nonlinear_arith)
        requires
            0 <= ip <= (u64::MAX - fp) / 1_000_000,
            0 <= fp < 1_000_000,
    ;
}

} // verus!
