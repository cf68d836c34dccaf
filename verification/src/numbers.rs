//! Integer parsing with the semantics of `str::parse::<i64>`,
//! `str::parse::<u32>` and `uN::from_str_radix`.

use vstd::prelude::*;
use crate::text::is_ascii_digit;

verus! {

/// The value of `c` as a digit in `radix` (10 or 16), or `-1`.
pub open spec fn digit_value(c: char, radix: int) -> int {
    let v = if is_ascii_digit(c) {
        c as int - '0' as int
    } else if 'a' <= c && c <= 'z' {
        c as int - 'a' as int + 10
    } else if 'A' <= c && c <= 'Z' {
        c as int - 'A' as int + 10
    } else {
        -1
    };
    if v < radix {
        v
    } else {
        -1
    }
}

pub open spec fn all_digits(s: Seq<char>, radix: int) -> bool {
    forall|i: int| 0 <= i < s.len() ==> digit_value(#[trigger] s[i], radix) >= 0
}

/// The number that the digit string `s` spells in `radix`.
pub open spec fn digits_value(s: Seq<char>, radix: int) -> int
    decreases s.len(),
{
    if s.len() == 0 {
        0
    } else {
        digits_value(s.drop_last(), radix) * radix + digit_value(s.last(), radix)
    }
}

/// The digits of an unsigned number: a leading `+` is dropped.
pub open spec fn unsigned_digits(s: Seq<char>) -> Seq<char> {
    if s.len() > 0 && s[0] == '+' {
        s.drop_first()
    } else {
        s
    }
}

/// `uN::from_str_radix(s, radix)` for an unsigned type whose maximum is
/// `max`: an optional `+`, then at least one digit, and a value that fits.
pub open spec fn parse_unsigned(s: Seq<char>, radix: int, max: int) -> Option<int> {
    let d = unsigned_digits(s);
    if d.len() > 0 && all_digits(d, radix) && digits_value(d, radix) <= max {
        Some(digits_value(d, radix))
    } else {
        None
    }
}

/// `str::parse::<i64>`: an optional sign, then at least one decimal digit,
/// and a value in the `i64` range.
pub open spec fn parse_i64(s: Seq<char>) -> Option<int> {
    if s.len() > 0 && s[0] == '-' {
        let d = s.drop_first();
        if d.len() > 0 && all_digits(d, 10) && digits_value(d, 10) <= 0x8000_0000_0000_0000 {
            Some(-digits_value(d, 10))
        } else {
            None
        }
    } else {
        parse_unsigned(s, 10, 0x7fff_ffff_ffff_ffff)
    }
}

pub proof fn lemma_digits_value_prefix(s: Seq<char>, radix: int, k: int)
    requires
        radix >= 1,
        all_digits(s, radix),
        0 <= k <= s.len(),
    ensures
        0 <= digits_value(s.take(k), radix) <= digits_value(s, radix),
    decreases s.len(),
{
    if s.len() > 0 {
        assert(all_digits(s.drop_last(), radix)) by {
            assert forall|i: int| 0 <= i < s.drop_last().len() implies digit_value(
                #[trigger] s.drop_last()[i],
                radix,
            ) >= 0 by {
                assert(s.drop_last()[i] == s[i]);
            }
        }
        assert(digit_value(s.last(), radix) >= 0) by {
            assert(s.last() == s[s.len() - 1]);
        }
        if k == s.len() {
            assert(s.take(k) == s);
            lemma_digits_value_prefix(s.drop_last(), radix, s.len() - 1);
            assert(s.drop_last().take(s.len() - 1) == s.drop_last());
            assert(digits_value(s.drop_last(), radix) * radix >= digits_value(s.drop_last(), radix))
                by (nonlinear_arith)
                requires
                    radix >= 1,
                    digits_value(s.drop_last(), radix) >= 0,
            ;
        } else {
            lemma_digits_value_prefix(s.drop_last(), radix, k);
            assert(s.drop_last().take(k) == s.take(k));
            lemma_digits_value_prefix(s.drop_last(), radix, s.len() - 1);
            assert(s.drop_last().take(s.len() - 1) == s.drop_last());
            assert(digits_value(s.drop_last(), radix) * radix >= digits_value(s.drop_last(), radix))
                by (nonlinear_arith)
                requires
                    radix >= 1,
                    digits_value(s.drop_last(), radix) >= 0,
            ;
        }
    }
}

pub fn char_digit(c: char, radix: u64) -> (r: Option<u64>)
    requires
        radix == 10 || radix == 16,
    ensures
        match r {
            Some(v) => digit_value(c, radix as int) == v as int && v < radix,
            None => digit_value(c, radix as int) < 0,
        },
{
    let v: u64 = if '0' <= c && c <= '9' {
        (c as u32 - '0' as u32) as u64
    } else if 'a' <= c && c <= 'z' {
        (c as u32 - 'a' as u32 + 10) as u64
    } else if 'A' <= c && c <= 'Z' {
        (c as u32 - 'A' as u32 + 10) as u64
    } else {
        return None;
    };
    if v < radix {
        Some(v)
    } else {
        None
    }
}

/// The value of the digit string `d` in `radix`, when every character is a
/// digit, `d` is not empty, and the value is at most `max`.
pub fn parse_digits(d: &[char], radix: u64, max: u64) -> (r: Option<u64>)
    requires
        radix == 10 || radix == 16,
        max <= 0x8000_0000_0000_0000,
    ensures
        match r {
            Some(v) => d@.len() > 0 && all_digits(d@, radix as int) && digits_value(
                d@,
                radix as int,
            ) == v as int && v <= max,
            None => !(d@.len() > 0 && all_digits(d@, radix as int) && digits_value(
                d@,
                radix as int,
            ) <= max),
        },
{
    if d.len() == 0 {
        return None;
    }
    let mut acc: u64 = 0;
    let mut i: usize = 0;
    while i < d.len()
        invariant
            radix == 10 || radix == 16,
            max <= 0x8000_0000_0000_0000,
            i <= d@.len(),
            d@.len() > 0,
            all_digits(d@.take(i as int), radix as int),
            acc as int == digits_value(d@.take(i as int), radix as int),
            acc <= max,
        decreases d@.len() - i,
    {
        let ghost prefix = d@.take(i as int);
        let ghost next = d@.take(i + 1);
        assert(next.drop_last() == prefix);
        assert(next.last() == d@[i as int]);
        match char_digit(d[i], radix) {
            None => {
                assert(!all_digits(d@, radix as int)) by {
                    assert(digit_value(d@[i as int], radix as int) < 0);
                }
                return None;
            },
            Some(dv) => {
                let wide: u128 = (acc as u128) * (radix as u128) + (dv as u128);
                assert(wide as int == digits_value(next, radix as int));
                assert(all_digits(next, radix as int)) by {
                    assert forall|t: int| 0 <= t < next.len() implies digit_value(
                        #[trigger] next[t],
                        radix as int,
                    ) >= 0 by {
                        if t < i {
                            assert(next[t] == prefix[t]);
                        }
                    }
                }
                if wide > max as u128 {
                    proof {
                        if all_digits(d@, radix as int) {
                            lemma_digits_value_prefix(d@, radix as int, i + 1);
                        }
                    }
                    return None;
                }
                acc = wide as u64;
                i = i + 1;
            },
        }
    }
    assert(d@.take(d@.len() as int) == d@);
    Some(acc)
}

/// `uN::from_str_radix(s, radix)` for an unsigned type whose maximum is `max`.
pub fn parse_unsigned_exec(s: &[char], radix: u64, max: u64) -> (r: Option<u64>)
    requires
        radix == 10 || radix == 16,
        max <= 0x8000_0000_0000_0000,
    ensures
        match r {
            Some(v) => parse_unsigned(s@, radix as int, max as int) == Some(v as int),
            None => parse_unsigned(s@, radix as int, max as int) is None,
        },
{
    if s.len() > 0 && s[0] == '+' {
        let d = &s[1..s.len()];
        assert(d@ == s@.drop_first());
        parse_digits(d, radix, max)
    } else {
        parse_digits(s, radix, max)
    }
}

/// `str::parse::<i64>`.
pub fn parse_i64_exec(s: &[char]) -> (r: Option<i64>)
    ensures
        match r {
            Some(v) => parse_i64(s@) == Some(v as int),
            None => parse_i64(s@) is None,
        },
{
    if s.len() > 0 && s[0] == '-' {
        let d = &s[1..s.len()];
        assert(d@ == s@.drop_first());
        match parse_digits(d, 10, 0x8000_0000_0000_0000) {
            Some(v) => {
                if v == 0x8000_0000_0000_0000 {
                    Some(i64::MIN)
                } else {
                    Some(-(v as i64))
                }
            },
            None => None,
        }
    } else {
        match parse_unsigned_exec(s, 10, 0x7fff_ffff_ffff_ffff) {
            Some(v) => Some(v as i64),
            None => None,
        }
    }
}

} // verus!
