//! Parsing of compact duration tokens such as `30d`, `2w`, `6m`, `1y`
//! into a number of days.

use vstd::prelude::*;

verus! {

/// Why a duration token was rejected.
#[derive(Debug, Clone, Copy, PartialEq, Eq, Structural)]
pub enum TimeRangeError {
    /// The token is too short, its numeric prefix is not a plain decimal
    /// number, or the resulting number of days does not fit in `i64`.
    InvalidFormat,
    /// The trailing character is not one of `d`, `w`, `m`, `y`.
    InvalidUnit,
}

/// Is `c` a decimal digit?
pub open spec fn is_digit(c: char) -> bool {
    48 <= c as u32 <= 57
}

/// Numeric value of the digit `c`.
pub open spec fn digit_val(c: char) -> int {
    c as u32 - 48
}

/// Does `s` consist of decimal digits only?
pub open spec fn all_digits(s: Seq<char>) -> bool {
    forall|i: int| 0 <= i < s.len() ==> is_digit(#[trigger] s[i])
}

/// The value of a sequence of decimal digits, most significant first.
pub open spec fn digits_val(s: Seq<char>) -> int
    decreases s.len(),
{
    if s.len() == 0 {
        0
    } else {
        digits_val(s.drop_last()) * 10 + digit_val(s.last())
    }
}

/// Days per unit character; 0 marks an unknown unit.
pub open spec fn unit_days(c: char) -> int {
    if c == 'd' {
        1
    } else if c == 'w' {
        7
    } else if c == 'm' {
        30
    } else if c == 'y' {
        365
    } else {
        0
    }
}

/// What `parse_time_range` returns on the token `s`: the token is one or
/// more decimal digits followed by one unit character; the numeric prefix
/// is checked before the unit, as a number that cannot be read at all is a
/// format error whatever follows it.
pub open spec fn spec_parse_time_range(s: Seq<char>) -> Result<int, TimeRangeError> {
    if s.len() < 2 {
        Err(TimeRangeError::InvalidFormat)
    } else {
        let digits = s.take(s.len() - 1);
        let unit = s.last();
        if !all_digits(digits) {
            Err(TimeRangeError::InvalidFormat)
        } else if digits_val(digits) > i64::MAX {
            Err(TimeRangeError::InvalidFormat)
        } else if unit_days(unit) == 0 {
            Err(TimeRangeError::InvalidUnit)
        } else if digits_val(digits) * unit_days(unit) > i64::MAX {
            Err(TimeRangeError::InvalidFormat)
        } else {
            Ok(digits_val(digits) * unit_days(unit))
        }
    }
}

/// The value of a digit string only grows as more digits are appended.
proof fn lemma_digits_val_nonneg(s: Seq<char>)
    requires
        all_digits(s),
    ensures
        digits_val(s) >= 0,
    decreases s.len(),
{
    if s.len() > 0 {
        assert(all_digits(s.drop_last()));
        lemma_digits_val_nonneg(s.drop_last());
    }
}

/// Extending a digit prefix never shrinks its value.
proof fn lemma_digits_val_prefix(s: Seq<char>, i: int)
    requires
        all_digits(s),
        0 <= i <= s.len(),
    ensures
        digits_val(s.take(i)) <= digits_val(s),
    decreases s.len() - i,
{
    if i < s.len() {
        lemma_digits_val_prefix(s, i + 1);
        let t = s.take(i + 1);
        assert(t.drop_last() =~= s.take(i));
        assert(all_digits(t.drop_last()));
        lemma_digits_val_nonneg(s.take(i));
        assert(digits_val(t) == digits_val(s.take(i)) * 10 + digit_val(t.last()));
        assert(digits_val(s.take(i)) * 10 >= digits_val(s.take(i))) by {
            lemma_digits_val_nonneg(s.take(i));
        }
    } else {
        assert(s.take(i) =~= s);
    }
}

/// Convert a duration token into a whole number of days: `d` counts days,
/// `w` weeks, `m` thirty-day months, `y` 365-day years.
pub fn parse_time_range(time_str: &str) -> (r: Result<i64, TimeRangeError>)
    ensures
        (match r {
            Ok(days) => spec_parse_time_range(time_str@) == Ok::<int, TimeRangeError>(days as int),
            Err(e) => spec_parse_time_range(time_str@) == Err::<int, TimeRangeError>(e),
        }),
{
    let n = time_str.unicode_len();
    if n < 2 {
        return Err(TimeRangeError::InvalidFormat);
    }
    let mut i: usize = 0;
    let mut val: i64 = 0;
    while i < n - 1
        invariant
            0 <= i <= n - 1,
            2 <= n == time_str@.len(),
            all_digits(time_str@.take(i as int)),
            val == digits_val(time_str@.take(i as int)),
        decreases n - 1 - i,
    {
        let c = time_str.get_char(i);
        let cu = c as u32;
        if !(48 <= cu && cu <= 57) {
            proof {
                assert(time_str@.take(n - 1)[i as int] == time_str@[i as int]);
                assert(!all_digits(time_str@.take(n - 1)));
            }
            return Err(TimeRangeError::InvalidFormat);
        }
        let d = (cu - 48) as i64;
        proof {
            assert(time_str@.take(i + 1).drop_last() =~= time_str@.take(i as int));
            assert(all_digits(time_str@.take(i + 1)));
        }
        if val > (i64::MAX - d) / 10 {
            proof {
                vstd::arithmetic::div_mod::lemma_fundamental_div_mod(i64::MAX - d, 10);
                vstd::arithmetic::div_mod::lemma_mod_division_less_than_divisor(i64::MAX - d, 10);
                assert(val * 10 + d > i64::MAX) by (nonlinear_arith)
                    requires
                        0 <= d <= 9,
                        val > (i64::MAX - d) / 10,
                        i64::MAX - d == 10 * ((i64::MAX - d) / 10) + (i64::MAX - d) % 10,
                        0 <= (i64::MAX - d) % 10 < 10,
                ;
                assert(digits_val(time_str@.take(i + 1)) == val * 10 + d);
                if all_digits(time_str@.take(n - 1)) {
                    lemma_digits_val_prefix(time_str@.take(n - 1), i + 1);
                    assert(time_str@.take(n - 1).take(i + 1) =~= time_str@.take(i + 1));
                    assert(digits_val(time_str@.take(n - 1)) > i64::MAX);
                }
                assert(spec_parse_time_range(time_str@) == Err::<int, TimeRangeError>(
                    TimeRangeError::InvalidFormat,
                ));
            }
            return Err(TimeRangeError::InvalidFormat);
        }
        proof {
            vstd::arithmetic::div_mod::lemma_fundamental_div_mod(i64::MAX - d, 10);
            vstd::arithmetic::div_mod::lemma_mod_division_less_than_divisor(i64::MAX - d, 10);
            lemma_digits_val_nonneg(time_str@.take(i as int));
            assert(0 <= val * 10 + d <= i64::MAX) by (nonlinear_arith)
                requires
                    0 <= d <= 9,
                    0 <= val <= (i64::MAX - d) / 10,
                    i64::MAX - d == 10 * ((i64::MAX - d) / 10) + (i64::MAX - d) % 10,
                    0 <= (i64::MAX - d) % 10 < 10,
            ;
        }
        val = val * 10 + d;
        i += 1;
    }
    proof {
        assert(time_str@.take(i as int) =~= time_str@.take(n - 1));
    }
    let unit = time_str.get_char(n - 1);
    let mult: i64 = if unit == 'd' {
        1
    } else if unit == 'w' {
        7
    } else if unit == 'm' {
        30
    } else if unit == 'y' {
        365
    } else {
        return Err(TimeRangeError::InvalidUnit);
    };
    proof {
        assert(time_str@.last() == unit);
        assert(mult == unit_days(unit));
        lemma_digits_val_nonneg(time_str@.take(n - 1));
    }
    if val > i64::MAX / mult {
        proof {
            vstd::arithmetic::div_mod::lemma_fundamental_div_mod(i64::MAX as int, mult as int);
            vstd::arithmetic::div_mod::lemma_mod_division_less_than_divisor(
                i64::MAX as int,
                mult as int,
            );
            assert(val * mult > i64::MAX) by (nonlinear_arith)
                requires
                    val > i64::MAX / mult,
                    1 <= mult,
                    i64::MAX == mult * (i64::MAX / mult) + i64::MAX % mult,
                    0 <= i64::MAX % mult < mult,
            ;
        }
        return Err(TimeRangeError::InvalidFormat);
    }
    proof {
        vstd::arithmetic::div_mod::lemma_fundamental_div_mod(i64::MAX as int, mult as int);
        vstd::arithmetic::div_mod::lemma_mod_division_less_than_divisor(
            i64::MAX as int,
            mult as int,
        );
        assert(val * mult <= i64::MAX && val * mult >= 0) by (nonlinear_arith)
            requires
                0 <= val <= i64::MAX / mult,
                1 <= mult,
                i64::MAX == mult * (i64::MAX / mult) + i64::MAX % mult,
                0 <= i64::MAX % mult < mult,
        ;
    }
    Ok(val * mult)
}

} // verus!
