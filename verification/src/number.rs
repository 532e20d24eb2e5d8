//! Where a number token of path and transform data ends.
use vstd::prelude::*;
use crate::bytes::{is_digit, DOT, DASH, PLUS};

verus! {

/// `e` or `E`, the exponent marker.
pub open spec fn is_exp(c: u8) -> bool {
    c == 0x65u8 || c == 0x45u8
}

/// The end of the number token that starts at `start`, scanning from `i`
/// (`has_dot` tells whether a `.` was seen). Digits and exponent markers
/// continue it; a sign continues it only as its first byte or right after an
/// exponent marker; a second `.` ends it, as does any other byte.
pub open spec fn number_end(d: Seq<u8>, start: int, i: int, has_dot: bool) -> int
    decreases d.len() - i,
{
    if 0 <= start <= i < d.len() {
        let c = d[i];
        if c == DASH || c == PLUS {
            if i != start && !is_exp(d[i - 1]) {
                i
            } else {
                number_end(d, start, i + 1, has_dot)
            }
        } else if c == DOT {
            if has_dot {
                i
            } else {
                number_end(d, start, i + 1, true)
            }
        } else if is_digit(c) || is_exp(c) {
            number_end(d, start, i + 1, has_dot)
        } else {
            i
        }
    } else {
        i
    }
}

pub proof fn lemma_number_end(d: Seq<u8>, start: int, i: int, has_dot: bool)
    requires
        0 <= start <= i <= d.len(),
    ensures
        i <= number_end(d, start, i, has_dot) <= d.len(),
    decreases d.len() - i,
{
    if i < d.len() {
        let c = d[i];
        if c == DASH || c == PLUS {
            if !(i != start && !is_exp(d[i - 1])) {
                lemma_number_end(d, start, i + 1, has_dot);
            }
        } else if c == DOT {
            if !has_dot {
                lemma_number_end(d, start, i + 1, true);
            }
        } else if is_digit(c) || is_exp(c) {
            lemma_number_end(d, start, i + 1, has_dot);
        }
    }
}

/// The end of the number token that starts at `start`.
pub fn scan_number(data: &[u8], start: usize) -> (end: usize)
    requires
        start <= data@.len(),
    ensures
        end == number_end(data@, start as int, start as int, false),
        start <= end <= data@.len(),
{
    proof {
        lemma_number_end(data@, start as int, start as int, false);
    }
    let mut i = start;
    let mut has_dot = false;
    while i < data.len()
        invariant_except_break
            start <= i <= data@.len(),
            number_end(data@, start as int, i as int, has_dot) == number_end(
                data@,
                start as int,
                start as int,
                false,
            ),
        ensures
            start <= i <= data@.len(),
            i == number_end(data@, start as int, start as int, false),
        decreases data@.len() - i,
    {
        let c = data[i];
        if c == DASH || c == PLUS {
            if i != start {
                let prev = data[i - 1];
                if prev != 0x65u8 && prev != 0x45u8 {
                    break;
                }
            }
        } else if c == DOT {
            if has_dot {
                break;
            }
            has_dot = true;
        } else if (0x30u8 <= c && c <= 0x39u8) || c == 0x65u8 || c == 0x45u8 {
        } else {
            break;
        }
        i = i + 1;
    }
    i
}

} // verus!
