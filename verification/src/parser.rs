//! The sort-key grammar: where a line's numeric prefix begins and ends, and
//! which unit suffix, if any, follows it.
//!
//! A key is extracted from a line by skipping leading spaces and tabs and
//! reading a floating-point literal: an optional sign, then either a digit
//! run with an optional fraction (`12`, `12.`, `12.5`) or a fraction alone
//! (`.5`), then an optional exponent (`e`/`E`, optional sign, mandatory
//! digits; a bare `e` with no digits makes the whole literal invalid).
//! These functions return the span of that literal; turning the span's text
//! into a number is left to the caller, so that everything about where the
//! number sits in the line is decided, and proved, here.

use vstd::prelude::*;

verus! {

/// A byte skipped before the number: space or tab.
pub open spec fn is_space(b: u8) -> bool {
    b == 32 || b == 9
}

/// An ASCII decimal digit.
pub open spec fn is_digit(b: u8) -> bool {
    48 <= b && b <= 57
}

/// An ASCII `+` or `-`.
pub open spec fn is_sign(b: u8) -> bool {
    b == 43 || b == 45
}

/// First index at or after `i` holding no space or tab.
pub open spec fn ws_end(s: Seq<u8>, i: int) -> int
    decreases s.len() - i,
{
    if 0 <= i && i < s.len() && is_space(s[i]) {
        ws_end(s, i + 1)
    } else {
        i
    }
}

/// First index at or after `i` holding no digit.
pub open spec fn digits_end(s: Seq<u8>, i: int) -> int
    decreases s.len() - i,
{
    if 0 <= i && i < s.len() && is_digit(s[i]) {
        digits_end(s, i + 1)
    } else {
        i
    }
}

/// End of the mantissa (sign, digits, optional fraction) starting at `i`,
/// or -1 if no mantissa starts there.
pub open spec fn mantissa_end(s: Seq<u8>, i: int) -> int {
    let j = if i < s.len() && is_sign(s[i]) {
        i + 1
    } else {
        i
    };
    let d = digits_end(s, j);
    if d > j {
        if d < s.len() && s[d] == 46 {
            digits_end(s, d + 1)
        } else {
            d
        }
    } else if j < s.len() && s[j] == 46 && digits_end(s, j + 1) > j + 1 {
        digits_end(s, j + 1)
    } else {
        -1
    }
}

/// End of the full floating-point literal starting at `i`, or -1 if none
/// starts there.  An `e`/`E` directly after the mantissa must be followed
/// by digits (after an optional sign); otherwise the literal is invalid.
pub open spec fn float_end(s: Seq<u8>, i: int) -> int {
    let m = mantissa_end(s, i);
    if m < 0 {
        -1
    } else if m < s.len() && (s[m] == 101 || s[m] == 69) {
        let k = if m + 1 < s.len() && is_sign(s[m + 1]) {
            m + 2
        } else {
            m + 1
        };
        let d = digits_end(s, k);
        if d > k {
            d
        } else {
            -1
        }
    } else {
        m
    }
}

/// The power of 1000 that a unit-suffix byte stands for: `K`/`k` is 1,
/// `M`/`m` is 2, `G`/`g` is 3, `T`/`t` is 4, anything else 0.
pub open spec fn unit_exp(b: u8) -> u32 {
    if b == 75 || b == 107 {
        1
    } else if b == 77 || b == 109 {
        2
    } else if b == 71 || b == 103 {
        3
    } else if b == 84 || b == 116 {
        4
    } else {
        0
    }
}

fn skip_spaces(s: &[u8], from: usize) -> (r: usize)
    requires
        from <= s@.len(),
    ensures
        from <= r <= s@.len(),
        r == ws_end(s@, from as int),
{
    let mut i: usize = from;
    while i < s.len() && (s[i] == 32 || s[i] == 9)
        invariant
            from <= i <= s@.len(),
            ws_end(s@, from as int) == ws_end(s@, i as int),
        decreases s@.len() - i,
    {
        i = i + 1;
    }
    i
}

fn skip_digits(s: &[u8], from: usize) -> (r: usize)
    requires
        from <= s@.len(),
    ensures
        from <= r <= s@.len(),
        r == digits_end(s@, from as int),
{
    let mut i: usize = from;
    while i < s.len() && 48 <= s[i] && s[i] <= 57
        invariant
            from <= i <= s@.len(),
            digits_end(s@, from as int) == digits_end(s@, i as int),
        decreases s@.len() - i,
    {
        i = i + 1;
    }
    i
}

/// The span of the numeric key in `s`: leading spaces and tabs are skipped,
/// then a floating-point literal is read.  `Some((start, end))` means the
/// literal occupies `s[start..end]`; `None` means no literal starts after
/// the spaces, in which case the key falls back to zero.
pub fn parse_numeric(s: &[u8]) -> (r: Option<(usize, usize)>)
    ensures
        r == parse_numeric_spec(s@),
        r matches Some(span) ==> span.0 <= span.1 <= s@.len(),
{
    let w = skip_spaces(s, 0);
    let j = if w < s.len() && (s[w] == 43 || s[w] == 45) {
        w + 1
    } else {
        w
    };
    let d = skip_digits(s, j);
    let m: usize;
    if d > j {
        if d < s.len() && s[d] == 46 {
            m = skip_digits(s, d + 1);
        } else {
            m = d;
        }
    } else if j < s.len() && s[j] == 46 {
        let d2 = skip_digits(s, j + 1);
        if d2 > j + 1 {
            m = d2;
        } else {
            return None;
        }
    } else {
        return None;
    }
    if m < s.len() && (s[m] == 101 || s[m] == 69) {
        let k = if m + 1 < s.len() && (s[m + 1] == 43 || s[m + 1] == 45) {
            m + 2
        } else {
            m + 1
        };
        let d3 = skip_digits(s, k);
        if d3 > k {
            Some((w, d3))
        } else {
            None
        }
    } else {
        Some((w, m))
    }
}

/// The unit suffix at index `i` of `s`: the power of 1000 its byte stands
/// for, or 0 when the index is past the end or the byte is no unit.
pub fn unit(s: &[u8], i: usize) -> (e: u32)
    ensures
        e == if (i as int) < s@.len() {
            unit_exp(s@[i as int])
        } else {
            0u32
        },
{
    if i < s.len() {
        let b = s[i];
        if b == 75 || b == 107 {
            1
        } else if b == 77 || b == 109 {
            2
        } else if b == 71 || b == 103 {
            3
        } else if b == 84 || b == 116 {
            4
        } else {
            0
        }
    } else {
        0
    }
}

/// The span of the numeric key plus its unit suffix: like `parse_numeric`,
/// with additionally the power of 1000 named by the byte directly after the
/// literal (0 when that byte is absent or no unit).
pub fn parse_human_numeric(s: &[u8]) -> (r: Option<(usize, usize, u32)>)
    ensures
        r == parse_human_numeric_spec(s@),
        r matches Some(span) ==> span.0 <= span.1 <= s@.len(),
{
    match parse_numeric(s) {
        Some((a, b)) => {
            let e = unit(s, b);
            Some((a, b, e))
        },
        None => None,
    }
}

/// Where a line's sort key comes from, given the two comparator flags.
#[derive(Debug, PartialEq, Eq, Structural)]
pub enum KeySpan {
    /// The key is zero: either no numeric comparator is active, or the line
    /// holds no numeric prefix.
    Zero,
    /// The key is the value of the literal at `s[start..end]`.
    Plain { start: usize, end: usize },
    /// The key is the value of the literal at `s[start..end]` times
    /// 1000^`exp`.
    Scaled { start: usize, end: usize, exp: u32 },
}

/// Decides how the sort key of line `s` is obtained.  The plain numeric
/// comparator is preferred when both flags are set; with neither flag every
/// key is zero, so arrival order alone decides ties.
pub fn key_span(numeric: bool, human_numeric: bool, s: &[u8]) -> (r: KeySpan)
    ensures
        numeric ==> r == match parse_numeric_spec(s@) {
            Some(span) => KeySpan::Plain { start: span.0, end: span.1 },
            None => KeySpan::Zero,
        },
        !numeric && human_numeric ==> r == match parse_human_numeric_spec(s@) {
            Some(span) => KeySpan::Scaled { start: span.0, end: span.1, exp: span.2 },
            None => KeySpan::Zero,
        },
        !numeric && !human_numeric ==> r == KeySpan::Zero,
{
    if numeric {
        match parse_numeric(s) {
            Some((a, b)) => KeySpan::Plain { start: a, end: b },
            None => KeySpan::Zero,
        }
    } else if human_numeric {
        match parse_human_numeric(s) {
            Some((a, b, e)) => KeySpan::Scaled { start: a, end: b, exp: e },
            None => KeySpan::Zero,
        }
    } else {
        KeySpan::Zero
    }
}

/// What `parse_numeric` returns, at the specification level.
pub open spec fn parse_numeric_spec(s: Seq<u8>) -> Option<(usize, usize)> {
    let w = ws_end(s, 0);
    let e = float_end(s, w);
    if e >= 0 {
        Some((w as usize, e as usize))
    } else {
        None
    }
}

/// What `parse_human_numeric` returns, at the specification level.
pub open spec fn parse_human_numeric_spec(s: Seq<u8>) -> Option<(usize, usize, u32)> {
    match parse_numeric_spec(s) {
        Some(span) => Some(
            (
                span.0,
                span.1,
                if (span.1 as int) < s.len() {
                    unit_exp(s[span.1 as int])
                } else {
                    0u32
                },
            ),
        ),
        None => None,
    }
}

} // verus!
