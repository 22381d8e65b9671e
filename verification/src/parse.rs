//! Verified numeral parsers for the fields of an OCR record.
//!
//! The OCR engine prints its table as text; the record parser needs exact
//! integer parsing for positions and sizes, and a decimal parser for the
//! confidence column.  Confidence is held in hundredths of a percent, with
//! any nonzero tail beyond two decimals rounded up, so that a strict
//! comparison against a whole-percent threshold (the run filter's `> 80`)
//! decides exactly as a comparison of the printed decimal would.

use vstd::prelude::*;

verus! {

pub open spec fn spec_is_digit(c: char) -> bool {
    48 <= c as u32 <= 57
}

pub open spec fn digit_val(c: char) -> int {
    c as u32 - 48
}

pub open spec fn all_digits(s: Seq<char>) -> bool {
    forall|i: int| 0 <= i < s.len() ==> spec_is_digit(#[trigger] s[i])
}

/// The number denoted by a digit string, most significant digit first.
pub open spec fn digits_val(s: Seq<char>) -> int
    decreases s.len(),
{
    if s.len() == 0 {
        0
    } else {
        digits_val(s.drop_last()) * 10 + digit_val(s.last())
    }
}

proof fn lemma_digits_val_nonneg(s: Seq<char>)
    requires
        all_digits(s),
    ensures
        digits_val(s) >= 0,
    decreases s.len(),
{
    if s.len() > 0 {
        lemma_digits_val_nonneg(s.drop_last());
    }
}

/// Reading more digits never shrinks the value: the value of a prefix is a
/// lower bound for the value of the whole digit string.
proof fn lemma_digits_val_prefix(s: Seq<char>, i: int)
    requires
        all_digits(s),
        0 <= i <= s.len(),
    ensures
        digits_val(s.take(i)) <= digits_val(s),
    decreases s.len(),
{
    if i == s.len() {
        assert(s.take(i) =~= s);
    } else {
        assert(s.drop_last().take(i) =~= s.take(i));
        lemma_digits_val_prefix(s.drop_last(), i);
        lemma_digits_val_nonneg(s.drop_last());
    }
}

/// Extending a digit prefix by one digit multiplies its value by ten and
/// adds the new digit.
proof fn lemma_digits_val_step(s: Seq<char>, i: int)
    requires
        0 <= i < s.len(),
    ensures
        digits_val(s.take(i + 1)) == digits_val(s.take(i)) * 10 + digit_val(s[i]),
{
    assert(s.take(i + 1).drop_last() =~= s.take(i));
    assert(s.take(i + 1).last() == s[i]);
}

/// What `parse_u32` accepts: an optional leading `+`, then one or more
/// digits whose value fits in a `u32`.
pub open spec fn spec_parse_u32(s: Seq<char>) -> Option<u32> {
    let body = if s.len() > 0 && s[0] == '+' {
        s.skip(1)
    } else {
        s
    };
    if body.len() > 0 && all_digits(body) && digits_val(body) <= u32::MAX {
        Some(digits_val(body) as u32)
    } else {
        None
    }
}

/// What `parse_i32` accepts: an optional leading `+` or `-`, then one or
/// more digits whose signed value fits in an `i32`.
pub open spec fn spec_parse_i32(s: Seq<char>) -> Option<i32> {
    let neg = s.len() > 0 && s[0] == '-';
    let body = if s.len() > 0 && (s[0] == '-' || s[0] == '+') {
        s.skip(1)
    } else {
        s
    };
    if body.len() > 0 && all_digits(body) {
        if neg && -digits_val(body) >= i32::MIN {
            Some((-digits_val(body)) as i32)
        } else if !neg && digits_val(body) <= i32::MAX {
            Some(digits_val(body) as i32)
        } else {
            None
        }
    } else {
        None
    }
}

/// Parses the digit body shared by the integer parsers: the value of
/// `s.skip(start)`, or `None` when that tail is empty, holds a non-digit,
/// or exceeds `bound`.
fn parse_digits_bounded(s: &str, start: usize, bound: u64) -> (r: Option<u64>)
    requires
        start <= s@.len(),
        s@.len() <= usize::MAX,
        bound <= u32::MAX as u64 * 2,
    ensures
        match r {
            Some(v) => {
                &&& s@.skip(start as int).len() > 0
                &&& all_digits(s@.skip(start as int))
                &&& v == digits_val(s@.skip(start as int))
                &&& v <= bound
            },
            None => {
                ||| s@.skip(start as int).len() == 0
                ||| !all_digits(s@.skip(start as int))
                ||| digits_val(s@.skip(start as int)) > bound
            },
        },
{
    let ghost body = s@.skip(start as int);
    let n = s.unicode_len();
    if start >= n {
        return None;
    }
    let mut acc: u64 = 0;
    let mut i: usize = start;
    while i < n
        invariant
            n == s@.len(),
            start <= i <= n,
            start < n,
            body == s@.skip(start as int),
            all_digits(body.take(i - start)),
            acc == digits_val(body.take(i - start)),
            acc <= bound,
            bound <= u32::MAX as u64 * 2,
        decreases n - i,
    {
        let c = s.get_char(i);
        let u = c as u32;
        if u < 48 || u > 57 {
            assert(body[i - start] == s@[i as int]);
            assert(!spec_is_digit(body[i - start]));
            return None;
        }
        let d = (u - 48) as u64;
        proof {
            lemma_digits_val_step(body, i - start);
        }
        if acc * 10 + d > bound {
            proof {
                assert(digits_val(body.take(i - start + 1)) == acc * 10 + d);
                assert(forall|k: int| 0 <= k < body.len() && !spec_is_digit(#[trigger] body[k])
                    ==> !all_digits(body));
                if all_digits(body) {
                    lemma_digits_val_prefix(body, i - start + 1);
                }
            }
            return None;
        }
        acc = acc * 10 + d;
        i += 1;
    }
    proof {
        assert(body.take(n - start) =~= body);
    }
    Some(acc)
}

/// Parses an unsigned decimal numeral as `str::parse::<u32>` would accept
/// it: an optional `+`, then digits, rejecting overflow.
pub fn parse_u32(s: &str) -> (r: Option<u32>)
    ensures
        r == spec_parse_u32(s@),
{
    let n = s.unicode_len();
    let start: usize = if n > 0 && s.get_char(0) == '+' {
        1
    } else {
        0
    };
    assert(n > 0 && s@[0] == '+' ==> s@.skip(1) == s@.skip(start as int));
    assert(!(n > 0 && s@[0] == '+') ==> s@.skip(0) =~= s@);
    match parse_digits_bounded(s, start, u32::MAX as u64) {
        Some(v) => Some(v as u32),
        None => None,
    }
}

/// Parses a signed decimal numeral as `str::parse::<i32>` would accept it:
/// an optional sign, then digits, rejecting overflow.
pub fn parse_i32(s: &str) -> (r: Option<i32>)
    ensures
        r == spec_parse_i32(s@),
{
    let n = s.unicode_len();
    let mut neg = false;
    let mut start: usize = 0;
    if n > 0 {
        let c = s.get_char(0);
        if c == '-' {
            neg = true;
            start = 1;
        } else if c == '+' {
            start = 1;
        }
    }
    assert(start == 0 ==> s@.skip(0) =~= s@);
    let bound: u64 = if neg {
        0x8000_0000
    } else {
        0x7fff_ffff
    };
    match parse_digits_bounded(s, start, bound) {
        Some(v) => {
            if neg {
                if v == 0x8000_0000 {
                    Some(i32::MIN)
                } else {
                    Some(-(v as i32))
                }
            } else {
                Some(v as i32)
            }
        },
        None => None,
    }
}

/// Index of the first `.` in `s`, if any.
pub open spec fn find_dot(s: Seq<char>) -> Option<int>
    decreases s.len(),
{
    if s.len() == 0 {
        None
    } else if s[0] == '.' {
        Some(0)
    } else {
        match find_dot(s.drop_first()) {
            Some(i) => Some(i + 1),
            None => None,
        }
    }
}

proof fn lemma_find_dot(s: Seq<char>)
    ensures
        match find_dot(s) {
            Some(i) => 0 <= i < s.len() && s[i] == '.' && forall|k: int|
                0 <= k < i ==> s[k] != '.',
            None => forall|k: int| 0 <= k < s.len() ==> s[k] != '.',
        },
    decreases s.len(),
{
    if s.len() > 0 && s[0] != '.' {
        lemma_find_dot(s.drop_first());
        match find_dot(s.drop_first()) {
            Some(i) => {
                assert(s[i + 1] == s.drop_first()[i]);
                assert forall|k: int| 0 <= k < i + 1 implies s[k] != '.' by {
                    if k > 0 {
                        assert(s.drop_first()[k - 1] == s[k]);
                    }
                }
            },
            None => {
                assert forall|k: int| 0 <= k < s.len() implies s[k] != '.' by {
                    if k > 0 {
                        assert(s.drop_first()[k - 1] == s[k]);
                    }
                }
            },
        }
    }
}

/// The fractional digits of a confidence value, in hundredths: the first
/// two digits are taken at face value and any nonzero tail rounds up by
/// one, so the `> threshold` comparison of the run filter is exact.
pub open spec fn frac_hundredths(frac: Seq<char>) -> int {
    (if frac.len() >= 1 {
        digit_val(frac[0]) * 10
    } else {
        0
    }) + (if frac.len() >= 2 {
        digit_val(frac[1])
    } else {
        0
    }) + (if exists|k: int| 2 <= k < frac.len() && frac[k] != '0' {
        1int
    } else {
        0int
    })
}

/// Confidence is clamped into the documented 0–100 percent range.
pub open spec fn clamp_conf(v: int) -> u32 {
    if v > 10000 {
        10000
    } else if v < 0 {
        0
    } else {
        v as u32
    }
}

/// What the confidence parser accepts: an optional sign, then a plain
/// decimal numeral (`80`, `80.`, `.5`, `96.063843`); the value in clamped
/// hundredths of a percent, negative values clamping to zero.
pub open spec fn spec_parse_conf(s: Seq<char>) -> Option<u32> {
    let neg = s.len() > 0 && s[0] == '-';
    let body = if s.len() > 0 && (s[0] == '-' || s[0] == '+') {
        s.skip(1)
    } else {
        s
    };
    match find_dot(body) {
        None => if body.len() > 0 && all_digits(body) {
            Some(
                if neg {
                    0
                } else {
                    clamp_conf(digits_val(body) * 100)
                },
            )
        } else {
            None
        },
        Some(d) => {
            let ip = body.take(d);
            let fp = body.skip(d + 1);
            if ip.len() + fp.len() >= 1 && all_digits(ip) && all_digits(fp) {
                Some(
                    if neg {
                        0
                    } else {
                        clamp_conf(digits_val(ip) * 100 + frac_hundredths(fp))
                    },
                )
            } else {
                None
            }
        },
    }
}

/// Parses the OCR confidence column into clamped hundredths of a percent.
#[verifier::rlimit(40)]
pub fn parse_conf(s: &str) -> (r: Option<u32>)
    ensures
        r == spec_parse_conf(s@),
{
    let n = s.unicode_len();
    let mut neg = false;
    let mut start: usize = 0;
    if n > 0 {
        let c = s.get_char(0);
        if c == '-' {
            neg = true;
            start = 1;
        } else if c == '+' {
            start = 1;
        }
    }
    let ghost body = if s@.len() > 0 && (s@[0] == '-' || s@[0] == '+') {
        s@.skip(1)
    } else {
        s@
    };
    assert(start == 0 ==> s@.skip(0) =~= s@);
    assert(body == s@.skip(start as int));
    proof {
        lemma_find_dot(body);
    }

    // Integer part: scan digits, saturating the accumulator just above the
    // 100-percent clamp so huge numerals need no wide arithmetic.
    let mut acc: u64 = 0;
    let mut i: usize = start;
    while i < n
        invariant
            n == s@.len(),
            start <= i <= n,
            body == s@.skip(start as int),
            all_digits(body.take(i - start)),
            acc <= 101,
            acc <= 100 ==> acc == digits_val(body.take(i - start)),
            acc == 101 ==> digits_val(body.take(i - start)) >= 101,
        ensures
            start <= i <= n,
            all_digits(body.take(i - start)),
            acc <= 101,
            acc <= 100 ==> acc == digits_val(body.take(i - start)),
            acc == 101 ==> digits_val(body.take(i - start)) >= 101,
            i < n ==> !spec_is_digit(body[i - start]),
        decreases n - i,
    {
        let u = s.get_char(i) as u32;
        assert(body[i - start] == s@[i as int]);
        if u < 48 || u > 57 {
            break;
        }
        let d = (u - 48) as u64;
        proof {
            lemma_digits_val_step(body, i - start);
            if acc == 101 {
                lemma_digits_val_nonneg(body.take(i - start));
            }
        }
        acc = if acc * 10 + d > 101 {
            101
        } else {
            acc * 10 + d
        };
        i += 1;
    }
    let ghost ilen = i - start;
    assert forall|k: int| 0 <= k < ilen implies spec_is_digit(#[trigger] body[k]) by {
        assert(body.take(ilen)[k] == body[k]);
        assert(spec_is_digit(body.take(ilen)[k]));
    }

    if i == n {
        // No dot: the whole body must have been digits.
        assert(body.take(i - start) =~= body);
        if i == start {
            return None;
        }
        if neg {
            return Some(0);
        }
        if acc > 100 {
            return Some(10000);
        }
        return Some((acc * 100) as u32);
    }

    let c = s.get_char(i);
    assert(body[i - start] == s@[i as int]);
    if c != '.' {
        // A non-digit other than the dot: whichever part it falls in, the
        // numeral is malformed.
        proof {
            assert(!spec_is_digit(body[ilen]));
            match find_dot(body) {
                Some(d) => {
                    if d < ilen {
                        assert(spec_is_digit(body[d]));
                    } else {
                        assert(d != ilen);
                        assert(body.take(d)[ilen] == body[ilen]);
                        assert(!all_digits(body.take(d)));
                    }
                },
                None => {
                    assert(!all_digits(body));
                },
            }
        }
        return None;
    }

    // `i` holds the first dot: everything before it was a digit.
    assert(find_dot(body) == Some(ilen)) by {
        match find_dot(body) {
            Some(d) => {
                if d < ilen {
                    assert(spec_is_digit(body[d]));
                } else if d > ilen {
                    assert(body[ilen] != '.');
                }
            },
            None => {
                assert(body[ilen] != '.');
            },
        }
    }
    let ghost ip = body.take(ilen);
    let ghost fp = body.skip(ilen + 1);

    // Fraction: every remaining character must be a digit; keep the first
    // two and round up on any nonzero tail.
    let mut j: usize = i + 1;
    let mut d0: u32 = 0;
    let mut d1: u32 = 0;
    let mut extra: bool = false;
    while j < n
        invariant
            n == s@.len(),
            start <= i < n,
            i + 1 <= j <= n,
            body == s@.skip(start as int),
            ilen == i - start,
            neg == (s@.len() > 0 && s@[0] == '-'),
            body == if s@.len() > 0 && (s@[0] == '-' || s@[0] == '+') {
                s@.skip(1)
            } else {
                s@
            },
            find_dot(body) == Some(ilen),
            ip == body.take(ilen),
            fp == body.skip(ilen + 1),
            fp.len() == n - i - 1,
            forall|k: int| 0 <= k < j - i - 1 ==> spec_is_digit(#[trigger] fp[k]),
            d0 == if j - i - 1 >= 1 {
                digit_val(fp[0])
            } else {
                0
            },
            d1 == if j - i - 1 >= 2 {
                digit_val(fp[1])
            } else {
                0
            },
            extra == exists|k: int| 2 <= k < j - i - 1 && fp[k] != '0',
        decreases n - j,
    {
        let c = s.get_char(j);
        let u = c as u32;
        assert(fp[j - i - 1] == s@[j as int]);
        if u < 48 || u > 57 {
            assert(!spec_is_digit(fp[j - i - 1]));
            return None;
        }
        if j == i + 1 {
            d0 = u - 48;
        } else if j == i + 2 {
            d1 = u - 48;
        } else if u != 48 {
            assert(fp[j - i - 1] != '0');
            extra = true;
        }
        j += 1;
    }
    assert(all_digits(fp));

    if i == start && n == i + 1 {
        // A bare dot denotes nothing.
        return None;
    }
    if neg {
        return Some(0);
    }
    let f: u32 = d0 * 10 + d1 + if extra {
        1
    } else {
        0
    };
    assert(f == frac_hundredths(fp)) by {
        if fp.len() >= 1 {
            assert(spec_is_digit(fp[0]));
        }
        if fp.len() >= 2 {
            assert(spec_is_digit(fp[1]));
        }
    }
    if acc > 100 {
        proof {
            lemma_digits_val_nonneg(fp);
        }
        return Some(10000);
    }
    let v: u64 = acc * 100 + f as u64;
    if v > 10000 {
        Some(10000)
    } else {
        Some(v as u32)
    }
}

} // verus!
