//! Byte classes and the scanning primitives that the lexers share, each given
//! as a spec function over the input bytes and an executable counterpart.
use vstd::prelude::*;

verus! {

pub const LT: u8 = 0x3c;

pub const GT: u8 = 0x3e;

pub const SLASH: u8 = 0x2f;

pub const EQ: u8 = 0x3d;

pub const QUOTE: u8 = 0x22;

pub const QMARK: u8 = 0x3f;

pub const BANG: u8 = 0x21;

pub const DASH: u8 = 0x2d;

pub const COLON: u8 = 0x3a;

pub const SEMICOLON: u8 = 0x3b;

pub const COMMA: u8 = 0x2c;

pub const LPAREN: u8 = 0x28;

pub const RPAREN: u8 = 0x29;

pub const PLUS: u8 = 0x2b;

pub const DOT: u8 = 0x2e;

/// ASCII whitespace as std's `u8::is_ascii_whitespace` classifies it:
/// space, tab, line feed, form feed and carriage return.
pub open spec fn is_ws(c: u8) -> bool {
    c == 0x20u8 || c == 0x09u8 || c == 0x0au8 || c == 0x0cu8 || c == 0x0du8
}

/// ASCII letters, `A`-`Z` and `a`-`z`.
pub open spec fn is_alpha(c: u8) -> bool {
    (0x41u8 <= c <= 0x5au8) || (0x61u8 <= c <= 0x7au8)
}

/// ASCII lower-case letters.
pub open spec fn is_lower(c: u8) -> bool {
    0x61u8 <= c <= 0x7au8
}

/// ASCII digits.
pub open spec fn is_digit(c: u8) -> bool {
    0x30u8 <= c <= 0x39u8
}

/// Whitespace or a comma: what separates numbers in path and transform data.
pub open spec fn is_sep(c: u8) -> bool {
    is_ws(c) || c == COMMA
}

pub fn is_ascii_whitespace(c: u8) -> (r: bool)
    ensures
        r == is_ws(c),
{
    c == 0x20u8 || c == 0x09u8 || c == 0x0au8 || c == 0x0cu8 || c == 0x0du8
}

pub fn is_ascii_alphabetic(c: u8) -> (r: bool)
    ensures
        r == is_alpha(c),
{
    (0x41u8 <= c && c <= 0x5au8) || (0x61u8 <= c && c <= 0x7au8)
}

pub fn is_ascii_lowercase(c: u8) -> (r: bool)
    ensures
        r == is_lower(c),
{
    0x61u8 <= c && c <= 0x7au8
}

/// The upper-case form of an ASCII letter; other bytes are unchanged.
pub open spec fn upper(c: u8) -> u8 {
    if is_lower(c) {
        (c - 0x20) as u8
    } else {
        c
    }
}

pub fn to_ascii_uppercase(c: u8) -> (r: u8)
    ensures
        r == upper(c),
{
    if 0x61u8 <= c && c <= 0x7au8 {
        c - 0x20
    } else {
        c
    }
}

/// The first position at or after `p` that is not whitespace (or `p` itself
/// once the end of `d` is reached).
pub open spec fn skip_ws(d: Seq<u8>, p: int) -> int
    decreases d.len() - p,
{
    if 0 <= p < d.len() && is_ws(d[p]) {
        skip_ws(d, p + 1)
    } else {
        p
    }
}

/// The first position at or after `p` that holds neither whitespace nor a comma.
pub open spec fn skip_seps(d: Seq<u8>, p: int) -> int
    decreases d.len() - p,
{
    if 0 <= p < d.len() && is_sep(d[p]) {
        skip_seps(d, p + 1)
    } else {
        p
    }
}

/// The first position at or after `p` that holds `b`, or the end of `d`.
pub open spec fn find_byte(d: Seq<u8>, p: int, b: u8) -> int
    decreases d.len() - p,
{
    if 0 <= p < d.len() && d[p] != b {
        find_byte(d, p + 1, b)
    } else {
        p
    }
}

/// The position just past the first `b` at or after `p`, or the end of `d`.
pub open spec fn skip_past_byte(d: Seq<u8>, p: int, b: u8) -> int {
    let q = find_byte(d, p, b);
    if 0 <= q < d.len() {
        q + 1
    } else {
        q
    }
}

/// The position just past the first occurrence of the nonempty `s` at or
/// after `p`, or the end of `d` when there is none.
pub open spec fn skip_past_seq(d: Seq<u8>, p: int, s: Seq<u8>) -> int
    decreases d.len() - p,
{
    if p + s.len() <= d.len() {
        if d.subrange(p, p + s.len()) =~= s {
            p + s.len()
        } else {
            skip_past_seq(d, p + 1, s)
        }
    } else {
        d.len() as int
    }
}

/// The end of `d[start..end]` once trailing whitespace is dropped.
pub open spec fn trim_end(d: Seq<u8>, start: int, end: int) -> int
    decreases end - start,
{
    if start < end && is_ws(d[end - 1]) {
        trim_end(d, start, end - 1)
    } else {
        end
    }
}

/// Trimming stays within the range and leaves no whitespace at its end.
pub proof fn lemma_trim_end(d: Seq<u8>, start: int, end: int)
    requires
        start <= end,
    ensures
        start <= trim_end(d, start, end) <= end,
        start < trim_end(d, start, end) ==> !is_ws(d[trim_end(d, start, end) - 1]),
    decreases end - start,
{
    if start < end && is_ws(d[end - 1]) {
        lemma_trim_end(d, start, end - 1);
    }
}

pub proof fn lemma_skip_ws(d: Seq<u8>, p: int)
    requires
        0 <= p,
    ensures
        p <= skip_ws(d, p),
        p <= d.len() ==> skip_ws(d, p) <= d.len(),
        skip_ws(d, p) < d.len() ==> !is_ws(d[skip_ws(d, p)]),
        forall|i: int| p <= i < skip_ws(d, p) ==> is_ws(#[trigger] d[i]),
    decreases d.len() - p,
{
    if 0 <= p < d.len() && is_ws(d[p]) {
        lemma_skip_ws(d, p + 1);
    }
}

pub proof fn lemma_skip_seps(d: Seq<u8>, p: int)
    requires
        0 <= p,
    ensures
        p <= skip_seps(d, p),
        p <= d.len() ==> skip_seps(d, p) <= d.len(),
        skip_seps(d, p) < d.len() ==> !is_sep(d[skip_seps(d, p)]),
        forall|i: int| p <= i < skip_seps(d, p) ==> is_sep(#[trigger] d[i]),
    decreases d.len() - p,
{
    if 0 <= p < d.len() && is_sep(d[p]) {
        lemma_skip_seps(d, p + 1);
    }
}

pub proof fn lemma_find_byte(d: Seq<u8>, p: int, b: u8)
    requires
        0 <= p,
    ensures
        p <= find_byte(d, p, b),
        p <= d.len() ==> find_byte(d, p, b) <= d.len(),
        find_byte(d, p, b) < d.len() ==> d[find_byte(d, p, b)] == b,
        forall|i: int| p <= i < find_byte(d, p, b) ==> #[trigger] d[i] != b,
    decreases d.len() - p,
{
    if 0 <= p < d.len() && d[p] != b {
        lemma_find_byte(d, p + 1, b);
    }
}

pub proof fn lemma_skip_past_byte(d: Seq<u8>, p: int, b: u8)
    requires
        0 <= p <= d.len(),
    ensures
        p <= skip_past_byte(d, p, b) <= d.len(),
        p < d.len() ==> p < skip_past_byte(d, p, b),
{
    lemma_find_byte(d, p, b);
}

/// The position just past the first `b` at or after `pos`, or `data.len()`.
pub fn skip_past_byte_from(data: &[u8], pos: usize, b: u8) -> (r: usize)
    requires
        pos <= data@.len(),
    ensures
        r == skip_past_byte(data@, pos as int, b),
        pos <= r <= data@.len(),
{
    proof {
        lemma_skip_past_byte(data@, pos as int, b);
    }
    let q = find_byte_from(data, pos, b);
    if q < data.len() {
        q + 1
    } else {
        q
    }
}

pub proof fn lemma_skip_past_seq(d: Seq<u8>, p: int, s: Seq<u8>)
    requires
        0 <= p <= d.len(),
    ensures
        p <= skip_past_seq(d, p, s) <= d.len(),
    decreases d.len() - p,
{
    if p + s.len() <= d.len() {
        if !(d.subrange(p, p + s.len()) =~= s) {
            lemma_skip_past_seq(d, p + 1, s);
        }
    }
}

/// Whether `pat` occurs in `data` at `pos`.
pub fn matches_at(data: &[u8], pos: usize, pat: &[u8]) -> (r: bool)
    requires
        pos + pat@.len() <= data@.len(),
    ensures
        r == (data@.subrange(pos as int, pos + pat@.len()) =~= pat@),
{
    let n = data.len();
    let mut i: usize = 0;
    while i < pat.len()
        invariant
            n == data@.len(),
            i <= pat@.len(),
            pos + pat@.len() <= data@.len(),
            forall|j: int| 0 <= j < i ==> data@[pos + j] == pat@[j],
        decreases pat@.len() - i,
    {
        if data[pos + i] != pat[i] {
            assert(data@.subrange(pos as int, pos + pat@.len())[i as int] != pat@[i as int]);
            return false;
        }
        i = i + 1;
    }
    assert(data@.subrange(pos as int, pos + pat@.len()) =~= pat@);
    true
}

/// The position of the first `b` at or after `pos`, or `data.len()`.
pub fn find_byte_from(data: &[u8], pos: usize, b: u8) -> (r: usize)
    requires
        pos <= data@.len(),
    ensures
        r == find_byte(data@, pos as int, b),
        pos <= r <= data@.len(),
{
    let mut i = pos;
    while i < data.len() && data[i] != b
        invariant
            pos <= i <= data@.len(),
            find_byte(data@, i as int, b) == find_byte(data@, pos as int, b),
        decreases data@.len() - i,
    {
        i = i + 1;
    }
    i
}

/// End of `data[start..end]` without its trailing whitespace.
pub fn trim_end_from(data: &[u8], start: usize, end: usize) -> (r: usize)
    requires
        start <= end <= data@.len(),
    ensures
        r == trim_end(data@, start as int, end as int),
        start <= r <= end,
{
    let mut e = end;
    while e > start && is_ascii_whitespace(data[e - 1])
        invariant
            start <= e <= end <= data@.len(),
            trim_end(data@, start as int, e as int) == trim_end(data@, start as int, end as int),
        decreases e - start,
    {
        e = e - 1;
    }
    e
}

} // verus!
