//! Verified decimal reading and writing.
//!
//! Magnitudes in log lines are signed decimal numbers with an optional
//! fractional part; they are read into milli-units so that every quantity
//! stays an exact integer.

use vstd::prelude::*;

use crate::text::find_sub_from;
use crate::text::subrange_copy;

verus! {

/// True for an ASCII decimal digit.
pub open spec fn is_digit(c: char) -> bool {
    48 <= c as u32 <= 57
}

/// Numeric value of an ASCII digit.
pub open spec fn digit_val(c: char) -> int {
    c as u32 - 48
}

/// The character for one decimal digit.
pub open spec fn digit_char(d: int) -> char {
    ((48 + d) as u8) as char
}

/// True when every character of `s` is a decimal digit.
pub open spec fn all_digits(s: Seq<char>) -> bool {
    forall|i: int| 0 <= i < s.len() ==> is_digit(#[trigger] s[i])
}

/// Value of a digit string, most significant first.
pub open spec fn digits_val(s: Seq<char>) -> int
    decreases s.len(),
{
    if s.len() == 0 {
        0
    } else {
        digits_val(s.drop_last()) * 10 + digit_val(s.last())
    }
}

/// Ten to the `n`th power.
pub open spec fn pow10(n: int) -> int
    decreases n,
{
    if n <= 0 {
        1
    } else {
        10 * pow10(n - 1)
    }
}

/// Milli-value of the fractional digits `s`: the first three digits,
/// zero-padded on the right to three places.
pub open spec fn frac_milli(s: Seq<char>) -> int {
    if s.len() >= 3 {
        digits_val(s.subrange(0, 3))
    } else {
        digits_val(s) * pow10(3 - s.len())
    }
}

/// The meaning of a magnitude token: an optional sign, an integer part and
/// an optional fractional part, read into milli-units with the sign
/// discarded. `None` when the token has any other shape.
pub open spec fn parse_milli_spec(s: Seq<char>) -> Option<int> {
    let body = if s.len() > 0 && (s[0] == '+' || s[0] == '-') {
        s.drop_first()
    } else {
        s
    };
    match find_sub_from(body, seq!['.'], 0) {
        None => if body.len() > 0 && all_digits(body) {
            Some(digits_val(body) * 1000)
        } else {
            None
        },
        Some(d) => {
            let ip = body.subrange(0, d);
            let fp = body.subrange(d + 1, body.len() as int);
            if ip.len() > 0 && fp.len() > 0 && all_digits(ip) && all_digits(fp) {
                Some(digits_val(ip) * 1000 + frac_milli(fp))
            } else {
                None
            }
        },
    }
}

/// A digit string is worth no less than any of its prefixes.
pub(crate) proof fn lemma_digits_val_bounds(s: Seq<char>)
    requires
        all_digits(s),
    ensures
        digits_val(s) >= 0,
        s.len() > 0 ==> digits_val(s) >= digit_val(s[0]),
    decreases s.len(),
{
    if s.len() > 0 {
        lemma_digits_val_bounds(s.drop_last());
        if s.len() > 1 {
            assert(s.drop_last()[0] == s[0]);
        }
    }
}

/// Extending a digit string by one digit multiplies its value by ten.
proof fn lemma_digits_val_prefix(s: Seq<char>, i: int)
    requires
        all_digits(s),
        0 <= i <= s.len(),
    ensures
        digits_val(s) >= digits_val(s.subrange(0, i)),
        digits_val(s.subrange(0, i)) >= 0,
    decreases s.len() - i,
{
    assert forall|j: int| 0 <= j <= s.len() implies all_digits(s.subrange(0, j)) by {
        assert(forall|k: int| 0 <= k < j ==> s.subrange(0, j)[k] == s[k]);
    }
    lemma_digits_val_bounds(s.subrange(0, i));
    if i == s.len() {
        assert(s.subrange(0, i) =~= s);
    } else {
        assert(s.subrange(0, i + 1).drop_last() =~= s.subrange(0, i));
        assert(digits_val(s.subrange(0, i + 1)) == digits_val(s.subrange(0, i)) * 10 + digit_val(
            s[i],
        ));
        lemma_digits_val_bounds(s.subrange(0, i));
        lemma_digits_val_prefix(s, i + 1);
    }
}

/// Read an unsigned digit string. `Some` exactly when the string is
/// non-empty, all digits, and its value fits in a `u64`.
pub fn parse_u64_digits(v: &Vec<char>) -> (r: Option<u64>)
    ensures
        match r {
            Some(x) => v@.len() > 0 && all_digits(v@) && digits_val(v@) == x as int,
            None => v@.len() == 0 || !all_digits(v@) || digits_val(v@) > u64::MAX,
        },
{
    if v.len() == 0 {
        return None;
    }
    let mut acc: u64 = 0;
    let mut i: usize = 0;
    while i < v.len()
        invariant
            i <= v.len(),
            all_digits(v@.subrange(0, i as int)),
            acc as int == digits_val(v@.subrange(0, i as int)),
        decreases v.len() - i,
    {
        let c = v[i];
        let u = c as u32;
        if u < 48 || u > 57 {
            assert(!is_digit(v@[i as int]));
            return None;
        }
        let d: u64 = (u - 48) as u64;
        proof {
            assert(v@.subrange(0, i + 1 as int).drop_last() =~= v@.subrange(0, i as int));
            assert(all_digits(v@.subrange(0, i + 1 as int)));
        }
        let limit = (u64::MAX - d) / 10;
        if acc > limit {
            proof {
                assert(acc * 10 + d > u64::MAX) by (nonlinear_arith)
                    requires
                        acc > (u64::MAX - d) / 10,
                        d <= 9,
                ;
                assert(digits_val(v@.subrange(0, i + 1 as int)) > u64::MAX);
                if all_digits(v@) {
                    lemma_digits_val_prefix(v@, i + 1);
                }
            }
            return None;
        }
        proof {
            assert(acc * 10 + d <= u64::MAX) by (nonlinear_arith)
                requires
                    acc <= (u64::MAX - d) / 10,
                    d <= 9,
            ;
        }
        acc = acc * 10 + d;
        i += 1;
    }
    proof {
        assert(v@.subrange(0, v@.len() as int) =~= v@);
    }
    Some(acc)
}

/// Read a magnitude token into milli-units, per [`parse_milli_spec`].
/// `None` also when the (well-formed) value does not fit in a `u64`.
pub fn parse_milli(v: &Vec<char>) -> (r: Option<u64>)
    ensures
        match r {
            Some(x) => parse_milli_spec(v@) == Some(x as int),
            None => parse_milli_spec(v@) is None || parse_milli_spec(v@).unwrap() > u64::MAX,
        },
{
    let start: usize = if v.len() > 0 && (v[0] == '+' || v[0] == '-') {
        1
    } else {
        0
    };
    let body = subrange_copy(v, start, v.len());
    proof {
        if start == 1 {
            assert(v@.drop_first() =~= v@.subrange(1, v@.len() as int));
        } else {
            assert(v@.subrange(0, v@.len() as int) =~= v@);
        }
    }
    let dot_pat: Vec<char> = vec!['.'];
    proof {
        assert(dot_pat@ =~= seq!['.']);
    }
    match crate::text::find_sub(&body, &dot_pat) {
        None => {
            match parse_u64_digits(&body) {
                None => {
                    proof {
                        if body@.len() > 0 && all_digits(body@) {
                            assert(digits_val(body@) > u64::MAX);
                            assert(digits_val(body@) * 1000 >= digits_val(body@))
                                by (nonlinear_arith)
                                requires
                                    digits_val(body@) >= 0,
                            ;
                        }
                    }
                    None
                },
                Some(x) => {
                    if x > u64::MAX / 1000 {
                        proof {
                            assert(x * 1000 > u64::MAX) by (nonlinear_arith)
                                requires
                                    x > u64::MAX / 1000,
                            ;
                        }
                        None
                    } else {
                        proof {
                            assert(x * 1000 <= u64::MAX) by (nonlinear_arith)
                                requires
                                    x <= u64::MAX / 1000,
                            ;
                        }
                        Some(x * 1000)
                    }
                },
            }
        },
        Some(d) => {
            proof {
                crate::text::lemma_find_sub_some(body@, dot_pat@, 0, d as int);
            }
            let ip = subrange_copy(&body, 0, d);
            let fp = subrange_copy(&body, d + 1, body.len());
            if fp.len() == 0 {
                return None;
            }
            // Fractional digits must all be digits; the value keeps the
            // first three, zero-padded to three places.
            let mut j: usize = 0;
            while j < fp.len()
                invariant
                    j <= fp.len(),
                    forall|k: int| 0 <= k < j ==> is_digit(#[trigger] fp@[k]),
                    find_sub_from(body@, seq!['.'], 0) == Some(d as int),
                    d + 1 <= body@.len(),
                    ip@ == body@.subrange(0, d as int),
                    fp@ == body@.subrange(d + 1, body@.len() as int),
                    body@ == (if v@.len() > 0 && (v@[0] == '+' || v@[0] == '-') {
                        v@.drop_first()
                    } else {
                        v@
                    }),
                decreases fp.len() - j,
            {
                let u = fp[j] as u32;
                if u < 48 || u > 57 {
                    assert(!is_digit(fp@[j as int]));
                    return None;
                }
                j += 1;
            }
            assert(all_digits(fp@));
            let f3: usize = if fp.len() >= 3 {
                3
            } else {
                fp.len()
            };
            let ft = subrange_copy(&fp, 0, f3);
            proof {
                lemma_pow10_small();
                assert forall|k: int| 0 <= k < ft@.len() implies is_digit(#[trigger] ft@[k]) by {
                    assert(ft@[k] == fp@[k]);
                }
                lemma_digits_val_bounds(ft@);
                lemma_digits_val_upper(ft@);
                if fp@.len() >= 3 {
                    assert(ft@ =~= fp@.subrange(0, 3));
                } else {
                    assert(ft@ =~= fp@);
                }
            }
            let fval = match parse_u64_digits(&ft) {
                Some(x) => x,
                None => {
                    proof {
                        assert(digits_val(ft@) < pow10(3)) by {
                            assert(ft@.len() <= 3);
                            lemma_pow10_mono(ft@.len() as int, 3);
                        }
                        assert(false);
                    }
                    0
                },
            };
            let pad: u64 = if f3 == 3 {
                1
            } else if f3 == 2 {
                10
            } else {
                100
            };
            proof {
                assert(pad as int == pow10(3 - ft@.len()));
                assert(fval * pad <= 999) by (nonlinear_arith)
                    requires
                        0 <= fval as int == digits_val(ft@),
                        digits_val(ft@) < pow10(ft@.len() as int),
                        1 <= ft@.len() <= 3,
                        pad as int == pow10(3 - ft@.len()),
                        pow10(0) == 1 && pow10(1) == 10 && pow10(2) == 100 && pow10(3) == 1000,
                ;
            }
            let fmilli: u64 = fval * pad;
            assert(fmilli as int == frac_milli(fp@));
            match parse_u64_digits(&ip) {
                None => {
                    proof {
                        if ip@.len() > 0 && all_digits(ip@) {
                            assert(digits_val(ip@) > u64::MAX);
                            assert(digits_val(ip@) * 1000 + frac_milli(fp@) > u64::MAX)
                                by (nonlinear_arith)
                                requires
                                    digits_val(ip@) > u64::MAX,
                                    frac_milli(fp@) >= 0,
                            ;
                        }
                    }
                    None
                },
                Some(x) => {
                    let limit = (u64::MAX - fmilli) / 1000;
                    if x > limit {
                        proof {
                            assert(x * 1000 + fmilli > u64::MAX) by (nonlinear_arith)
                                requires
                                    x > (u64::MAX - fmilli) / 1000,
                                    fmilli <= 999,
                            ;
                        }
                        None
                    } else {
                        proof {
                            assert(x * 1000 + fmilli <= u64::MAX) by (nonlinear_arith)
                                requires
                                    x <= (u64::MAX - fmilli) / 1000,
                                    fmilli <= 999,
                            ;
                        }
                        Some(x * 1000 + fmilli)
                    }
                },
            }
        },
    }
}

/// Small powers of ten, written out.
pub(crate) proof fn lemma_pow10_small()
    ensures
        pow10(0) == 1,
        pow10(1) == 10,
        pow10(2) == 100,
        pow10(3) == 1000,
{
    assert(pow10(0) == 1);
    assert(pow10(1) == 10);
    assert(pow10(2) == 100);
    assert(pow10(3) == 1000);
}

/// Powers of ten are positive.
proof fn lemma_pow10_pos(n: int)
    ensures
        pow10(n) >= 1,
    decreases n,
{
    if n > 0 {
        lemma_pow10_pos(n - 1);
    }
}

/// Powers of ten grow with the exponent.
pub(crate) proof fn lemma_pow10_mono(a: int, b: int)
    requires
        a <= b,
    ensures
        pow10(a) <= pow10(b),
        pow10(a) >= 1,
    decreases b - a,
{
    lemma_pow10_pos(a);
    if a < b {
        lemma_pow10_mono(a, b - 1);
        if b > 0 {
            lemma_pow10_pos(b - 1);
            assert(pow10(b) == 10 * pow10(b - 1));
        }
    }
}

/// A digit string's value is below ten to its length.
pub(crate) proof fn lemma_digits_val_upper(s: Seq<char>)
    requires
        all_digits(s),
    ensures
        digits_val(s) < pow10(s.len() as int),
    decreases s.len(),
{
    if s.len() == 0 {
    } else {
        lemma_digits_val_upper(s.drop_last());
        assert(digits_val(s.drop_last()) <= pow10(s.len() - 1) - 1);
        assert(pow10(s.len() as int) == 10 * pow10(s.len() - 1));
        assert(digits_val(s) <= (pow10(s.len() - 1) - 1) * 10 + 9) by (nonlinear_arith)
            requires
                digits_val(s) == digits_val(s.drop_last()) * 10 + digit_val(s.last()),
                digits_val(s.drop_last()) <= pow10(s.len() - 1) - 1,
                digit_val(s.last()) <= 9,
        ;
    }
}

/// Decimal text of a non-negative number, most significant digit first.
pub open spec fn dec_str(n: int) -> Seq<char>
    decreases n,
{
    if n < 10 {
        seq![digit_char(if n < 0 { 0 } else { n })]
    } else {
        dec_str(n / 10) + seq![digit_char(n % 10)]
    }
}

/// Write `n` in decimal, per [`dec_str`].
pub fn u64_to_chars(n: u64) -> (r: Vec<char>)
    ensures
        r@ == dec_str(n as int),
    decreases n,
{
    if n < 10 {
        let mut v: Vec<char> = Vec::new();
        v.push(((48 + n as u8)) as char);
        assert(v@ =~= dec_str(n as int));
        v
    } else {
        let mut v = u64_to_chars(n / 10);
        v.push((48 + (n % 10) as u8) as char);
        assert(v@ =~= dec_str(n as int));
        v
    }
}

} // verus!
