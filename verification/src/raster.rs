//! Filling scanlines of an RGBA pixel buffer: clamped spans, and the spans
//! that a fill rule makes of a row's sorted edge crossings.
use vstd::prelude::*;
use crate::state::FillRule;

verus! {

/// `x` clamped to `0..=width` as the rasterizer does it, with the width taken
/// as an `i32`.
pub open spec fn clamp_to_row(x: i32, width: usize) -> int {
    let w = width as i32;
    let m = if x > 0 {
        x
    } else {
        0i32
    };
    if m < w {
        m as int
    } else {
        w as int
    }
}

/// Whether index `i` of the buffer lies in the span from `x0` to `x1` of row `y`.
pub open spec fn in_span(width: usize, y: usize, x0: i32, x1: i32, i: int) -> bool {
    let s = clamp_to_row(x0, width);
    let e = clamp_to_row(x1, width);
    s < e && y * width + s <= i < y * width + e
}

/// The span lies inside the buffer (or is empty once clamped).
pub open spec fn span_fits(len: int, width: usize, y: usize, x0: i32, x1: i32) -> bool {
    clamp_to_row(x0, width) < clamp_to_row(x1, width) ==> y * width + clamp_to_row(x1, width)
        <= len
}

/// `pix` with the span from `x0` to `x1` of row `y` set to `color`.
pub open spec fn paint_span(pix: Seq<u32>, width: usize, y: usize, x0: i32, x1: i32, color: u32) -> Seq<u32> {
    Seq::new(pix.len(), |i: int| if in_span(width, y, x0, x1, i) { color } else { pix[i] })
}

/// Sets the pixels of row `y` from `x0` up to `x1` (both clamped to the row)
/// to `color`, when the span lies inside the buffer; returns whether it does
/// (a span that does not leaves the buffer as it was).
pub fn fill_span(pixels: &mut [u32], width: usize, y: usize, x0: i32, x1: i32, color: u32) -> (r: bool)
    ensures
        r == span_fits(old(pixels)@.len() as int, width, y, x0, x1),
        r ==> final(pixels)@ == paint_span(old(pixels)@, width, y, x0, x1, color),
        !r ==> final(pixels)@ == old(pixels)@,
{
    let n = pixels.len();
    let w = #[verifier::truncate] (width as i32);
    let m0 = if x0 > 0 {
        x0
    } else {
        0
    };
    let start = if m0 < w {
        m0
    } else {
        w
    };
    let m1 = if x1 > 0 {
        x1
    } else {
        0
    };
    let end = if m1 < w {
        m1
    } else {
        w
    };
    if start >= end {
        assert(final(pixels)@ =~= paint_span(old(pixels)@, width, y, x0, x1, color));
        return true;
    }
    let start_idx = start as usize;
    let end_idx = end as usize;
    let offset = match y.checked_mul(width) {
        Some(o) => o,
        None => {
            return false;
        },
    };
    let stop = match offset.checked_add(end_idx) {
        Some(e) => e,
        None => {
            return false;
        },
    };
    if stop > n {
        return false;
    }
    let mut i = offset + start_idx;
    while i < stop
        invariant
            offset == y * width,
            stop == offset + end_idx,
            offset + start_idx <= i <= stop,
            stop <= pixels@.len(),
            start_idx == clamp_to_row(x0, width),
            end_idx == clamp_to_row(x1, width),
            start_idx < end_idx,
            pixels@.len() == old(pixels)@.len(),
            forall|j: int|
                0 <= j < pixels@.len() ==> #[trigger] pixels@[j] == if offset + start_idx <= j
                    < i {
                    color
                } else {
                    old(pixels)@[j]
                },
        decreases stop - i,
    {
        pixels[i] = color;
        i = i + 1;
    }
    assert(pixels@ =~= paint_span(old(pixels)@, width, y, x0, x1, color));
    true
}

/// Under the non-zero rule a point is inside wherever the winding number is
/// not 0; under the even-odd rule wherever it is odd. So the rules agree on
/// windings 0 and ±1, and a winding of ±2 is inside under non-zero only.
pub proof fn lemma_fill_rules(w: int)
    ensures
        spec_is_inside(w, FillRule::NonZero) <==> w != 0,
        spec_is_inside(w, FillRule::EvenOdd) <==> w % 2 != 0,
        spec_is_inside(2, FillRule::NonZero) && !spec_is_inside(2, FillRule::EvenOdd),
        spec_is_inside(-2, FillRule::NonZero) && !spec_is_inside(-2, FillRule::EvenOdd),
{
    if w < 0 {
        assert((-w) % 2 != 0 <==> w % 2 != 0) by (nonlinear_arith)
            requires
                w < 0,
        ;
    }
}

/// Whether a winding number puts a point inside under `rule`: non-zero, or odd.
pub open spec fn spec_is_inside(winding: int, rule: FillRule) -> bool {
    match rule {
        FillRule::NonZero => winding != 0,
        FillRule::EvenOdd => (if winding < 0 {
            -winding
        } else {
            winding
        }) % 2 == 1,
    }
}

pub fn is_inside(winding: i32, rule: FillRule) -> (r: bool)
    ensures
        r == spec_is_inside(winding as int, rule),
{
    match rule {
        FillRule::NonZero => winding != 0,
        FillRule::EvenOdd => {
            let magnitude: i64 = if winding < 0 {
                -(winding as i64)
            } else {
                winding as i64
            };
            magnitude % 2 == 1
        },
    }
}

/// The state of a scan over a row's crossings after the first `n`: the
/// winding number, where the current inside run started, and the spans found.
pub open spec fn scan_crossings(cs: Seq<(i32, i32)>, rule: FillRule, n: nat) -> (int, i32, Seq<(i32, i32)>)
    decreases n,
{
    if n == 0 || n > cs.len() {
        (0, 0i32, Seq::empty())
    } else {
        let (w, start, spans) = scan_crossings(cs, rule, (n - 1) as nat);
        let (x, dir) = cs[n - 1];
        let was_inside = spec_is_inside(w, rule);
        let w2 = w + dir;
        let is_inside = spec_is_inside(w2, rule);
        let start2 = if !was_inside && is_inside {
            x
        } else {
            start
        };
        let spans2 = if was_inside && !is_inside {
            spans.push((start, x))
        } else {
            spans
        };
        (w2, start2, spans2)
    }
}

/// The spans that a row's crossings `(x, direction)`, sorted by `x`, make
/// under `rule`: a span runs from the crossing where the point goes inside to
/// the crossing where it goes outside again.
pub open spec fn scanline_spans(cs: Seq<(i32, i32)>, rule: FillRule) -> Seq<(i32, i32)> {
    scan_crossings(cs, rule, cs.len()).2
}

/// `pix` with the given spans of row `y` painted in order.
pub open spec fn paint_spans(pix: Seq<u32>, width: usize, y: usize, spans: Seq<(i32, i32)>, color: u32) -> Seq<u32>
    decreases spans.len(),
{
    if spans.len() == 0 {
        pix
    } else {
        let last = spans.last();
        paint_span(paint_spans(pix, width, y, spans.drop_last(), color), width, y, last.0, last.1, color)
    }
}

pub proof fn lemma_scan_winding_bound(cs: Seq<(i32, i32)>, rule: FillRule, n: nat)
    requires
        n <= cs.len(),
        forall|i: int| 0 <= i < cs.len() ==> -1 <= #[trigger] cs[i].1 <= 1,
    ensures
        -n <= scan_crossings(cs, rule, n).0 <= n,
        scan_crossings(cs, rule, n).2.len() <= n,
    decreases n,
{
    if n > 0 {
        lemma_scan_winding_bound(cs, rule, (n - 1) as nat);
    }
}

/// The spans of a scan prefix are among the spans of the whole row.
pub proof fn lemma_scan_prefix(cs: Seq<(i32, i32)>, rule: FillRule, n: nat, m: nat)
    requires
        n <= m <= cs.len(),
    ensures
        scan_crossings(cs, rule, m).2.subrange(0, scan_crossings(cs, rule, n).2.len() as int)
            == scan_crossings(cs, rule, n).2,
        scan_crossings(cs, rule, n).2.len() <= scan_crossings(cs, rule, m).2.len(),
    decreases m - n,
{
    if n < m {
        lemma_scan_prefix(cs, rule, n, (m - 1) as nat);
        let a = scan_crossings(cs, rule, n).2;
        let b = scan_crossings(cs, rule, (m - 1) as nat).2;
        let c = scan_crossings(cs, rule, m).2;
        assert(c.subrange(0, a.len() as int) =~= b.subrange(0, a.len() as int));
    } else {
        assert(scan_crossings(cs, rule, m).2.subrange(0, scan_crossings(cs, rule, n).2.len() as int)
            =~= scan_crossings(cs, rule, n).2);
    }
}

/// The winding number after the first `n` crossings: the sum of their
/// directions.
pub open spec fn winding(cs: Seq<(i32, i32)>, n: int) -> int
    decreases n,
{
    if n <= 0 {
        0
    } else {
        winding(cs, n - 1) + cs[n - 1].1
    }
}

/// The crossings from `i + 1` to `j` all leave the row inside, and the one
/// before does not: `i` is where an inside run starts.
pub open spec fn inside_from(cs: Seq<(i32, i32)>, rule: FillRule, i: int, j: int) -> bool {
    &&& !spec_is_inside(winding(cs, i), rule)
    &&& forall|l: int| i < l <= j ==> spec_is_inside(#[trigger] winding(cs, l), rule)
}

/// The crossing pair `i`, `j` bounds a whole inside run: outside before
/// crossing `i`, inside from it up to crossing `j`, outside after it.
pub open spec fn inside_run(cs: Seq<(i32, i32)>, rule: FillRule, i: int, j: int) -> bool {
    &&& 0 <= i < j < cs.len()
    &&& inside_from(cs, rule, i, j)
    &&& !spec_is_inside(winding(cs, j + 1), rule)
}

/// The span from `x0` to `x1` is an inside run that ends before crossing
/// `n`: it runs from the x of a crossing where the winding turns inside to the
/// x of a later one where it turns outside, staying inside in between.
pub open spec fn run_span(cs: Seq<(i32, i32)>, rule: FillRule, span: (i32, i32), n: int) -> bool {
    exists|i: int, j: int|
        #[trigger] inside_run(cs, rule, i, j) && j < n && cs[i].0 == span.0 && cs[j].0 == span.1
}

/// Each span of a row runs from the x of a crossing where the winding number
/// turns inside under the fill rule to the x of the crossing where it turns
/// outside again, and the winding stays inside in between: the spans are the
/// runs the rule puts inside.
pub proof fn lemma_spans_are_inside_runs(cs: Seq<(i32, i32)>, rule: FillRule)
    ensures
        forall|k: int|
            0 <= k < scanline_spans(cs, rule).len() ==> run_span(
                cs,
                rule,
                #[trigger] scanline_spans(cs, rule)[k],
                cs.len() as int,
            ),
{
    lemma_scan_runs(cs, rule, cs.len());
}

proof fn lemma_scan_runs(cs: Seq<(i32, i32)>, rule: FillRule, n: nat)
    requires
        n <= cs.len(),
    ensures
        scan_crossings(cs, rule, n).0 == winding(cs, n as int),
        forall|k: int|
            0 <= k < scan_crossings(cs, rule, n).2.len() ==> run_span(
                cs,
                rule,
                #[trigger] scan_crossings(cs, rule, n).2[k],
                n as int,
            ),
        spec_is_inside(winding(cs, n as int), rule) ==> exists|i: int|
            0 <= i < n && cs[i].0 == scan_crossings(cs, rule, n).1 && #[trigger] inside_from(
                cs,
                rule,
                i,
                n as int,
            ),
    decreases n,
{
    if n > 0 {
        let m = (n - 1) as nat;
        lemma_scan_runs(cs, rule, m);
        let (w, start, spans) = scan_crossings(cs, rule, m);
        let (x, dir) = cs[n - 1];
        let was = spec_is_inside(w, rule);
        let now = spec_is_inside(w + dir, rule);
        assert(winding(cs, n as int) == w + dir);
        let spans2 = scan_crossings(cs, rule, n).2;
        if now {
            if !was {
                assert(inside_from(cs, rule, m as int, n as int));
            } else {
                let i = choose|i: int|
                    0 <= i < m && cs[i].0 == start && #[trigger] inside_from(cs, rule, i, m as int);
                assert(inside_from(cs, rule, i, n as int));
            }
        }
        assert forall|k: int| 0 <= k < spans.len() implies run_span(cs, rule, #[trigger] spans[k], n as int) by {
            assert(scan_crossings(cs, rule, m).2[k] == spans[k]);
            let (a, b) = choose|a: int, b: int|
                #[trigger] inside_run(cs, rule, a, b) && b < m && cs[a].0 == spans[k].0 && cs[b].0
                    == spans[k].1;
            assert(inside_run(cs, rule, a, b) && b < n);
        }
        if was && !now {
            let i = choose|i: int|
                0 <= i < m && cs[i].0 == start && #[trigger] inside_from(cs, rule, i, m as int);
            assert(inside_run(cs, rule, i, m as int));
            assert(run_span(cs, rule, (start, x), n as int));
            assert(spans2 == spans.push((start, x)));
            assert forall|k: int| 0 <= k < spans2.len() implies run_span(cs, rule, #[trigger] spans2[k], n as int) by {
                if k < spans.len() {
                    assert(spans2[k] == spans[k]);
                }
            }
        } else {
            assert(spans2 == spans);
        }
    }
}

/// Every span lies inside the buffer (or is empty once clamped).
pub open spec fn spans_fit(len: int, width: usize, y: usize, spans: Seq<(i32, i32)>) -> bool {
    forall|k: int| 0 <= k < spans.len() ==> span_fits(len, width, y, #[trigger] spans[k].0, spans[k].1)
}

/// Fills row `y` from its crossings `(x, direction)`, sorted by `x`, under
/// `rule`: each span of `scanline_spans` is painted with `color`, in order,
/// until one does not lie inside the buffer. Returns whether all of them do.
pub fn fill_scanline(
    pixels: &mut [u32],
    width: usize,
    y: usize,
    crossings: &[(i32, i32)],
    rule: FillRule,
    color: u32,
) -> (r: bool)
    requires
        crossings@.len() <= i32::MAX,
        forall|i: int| 0 <= i < crossings@.len() ==> -1 <= #[trigger] crossings@[i].1 <= 1,
    ensures
        r == spans_fit(old(pixels)@.len() as int, width, y, scanline_spans(crossings@, rule)),
        r ==> final(pixels)@ == paint_spans(old(pixels)@, width, y, scanline_spans(crossings@, rule), color),
        final(pixels)@.len() == old(pixels)@.len(),
        only_painted_with(old(pixels)@, final(pixels)@, color),
        unchanged_from(old(pixels)@, final(pixels)@, y * width + width),
{
    let ghost cs = crossings@;
    let ghost all = scanline_spans(cs, rule);
    let mut winding: i32 = 0;
    let mut fill_start_x: i32 = 0;
    let mut i: usize = 0;
    proof {
        lemma_scan_winding_bound(cs, rule, cs.len());
    }
    while i < crossings.len()
        invariant
            cs == crossings@,
            all == scanline_spans(cs, rule),
            i <= cs.len() <= i32::MAX,
            forall|j: int| 0 <= j < cs.len() ==> -1 <= #[trigger] cs[j].1 <= 1,
            winding as int == scan_crossings(cs, rule, i as nat).0,
            fill_start_x == scan_crossings(cs, rule, i as nat).1,
            pixels@ == paint_spans(old(pixels)@, width, y, scan_crossings(cs, rule, i as nat).2, color),
            pixels@.len() == old(pixels)@.len(),
            spans_fit(old(pixels)@.len() as int, width, y, scan_crossings(cs, rule, i as nat).2),
        decreases cs.len() - i,
    {
        proof {
            lemma_scan_winding_bound(cs, rule, i as nat);
            lemma_scan_prefix(cs, rule, (i + 1) as nat, cs.len());
        }
        let (x, dir) = crossings[i];
        let ghost old_start = fill_start_x;
        let was_inside = is_inside(winding, rule);
        winding = winding + dir;
        let now_inside = is_inside(winding, rule);
        if !was_inside && now_inside {
            fill_start_x = x;
        }
        if was_inside && !now_inside {
            let ghost sp = scan_crossings(cs, rule, (i + 1) as nat).2;
            proof {
                assert(sp == scan_crossings(cs, rule, i as nat).2.push((old_start, x)));
                assert(sp.last() == all[sp.len() - 1]);
            }
            let ghost before = pixels@;
            if !fill_span(pixels, width, y, fill_start_x, x, color) {
                proof {
                    assert(!span_fits(old(pixels)@.len() as int, width, y, all[sp.len() - 1].0, all[sp.len() - 1].1));
                    lemma_paint_spans_only_color(old(pixels)@, width, y, scan_crossings(cs, rule, i as nat).2, color);
                    lemma_paint_spans_in_row(old(pixels)@, width, y, scan_crossings(cs, rule, i as nat).2, color);
                }
                return false;
            }
            proof {
                assert(sp.drop_last() =~= scan_crossings(cs, rule, i as nat).2);
                assert forall|k: int| 0 <= k < sp.len() implies span_fits(
                    old(pixels)@.len() as int,
                    width,
                    y,
                    #[trigger] sp[k].0,
                    sp[k].1,
                ) by {
                    if k < sp.len() - 1 {
                        assert(sp[k] == scan_crossings(cs, rule, i as nat).2[k]);
                    }
                }
            }
        }
        i = i + 1;
    }
    proof {
        lemma_paint_spans_only_color(old(pixels)@, width, y, all, color);
        lemma_paint_spans_in_row(old(pixels)@, width, y, all, color);
    }
    true
}

proof fn lemma_trunc_i32(n: usize)
    ensures
        (n as i32) >= 0 ==> (n as i32) as int <= n as int,
{
    assert((n as i32) >= 0 ==> ((n as i32) as u64) <= (n as u64)) by (bit_vector);
}

/// A clamped coordinate never passes the row's end.
pub proof fn lemma_clamp_within_row(x: i32, width: usize)
    ensures
        clamp_to_row(x, width) <= width,
{
    lemma_trunc_i32(width);
}

/// The index of row `y` fits in the buffer, so `y as usize` names a row.
pub proof fn lemma_row_below_height(height: usize, y: i32)
    requires
        0 <= y < (height as i32),
    ensures
        (y as int) < height as int,
{
    lemma_trunc_i32(height);
}

/// `after` differs from `before` only where it holds `color`.
pub open spec fn only_painted_with(before: Seq<u32>, after: Seq<u32>, color: u32) -> bool {
    &&& after.len() == before.len()
    &&& forall|i: int| 0 <= i < after.len() ==> #[trigger] after[i] == before[i] || after[i] == color
}

/// Painting spans writes nothing but their colour.
pub proof fn lemma_paint_spans_only_color(pix: Seq<u32>, width: usize, y: usize, spans: Seq<(i32, i32)>, color: u32)
    ensures
        only_painted_with(pix, paint_spans(pix, width, y, spans, color), color),
    decreases spans.len(),
{
    if spans.len() > 0 {
        lemma_paint_spans_only_color(pix, width, y, spans.drop_last(), color);
        let inner = paint_spans(pix, width, y, spans.drop_last(), color);
        let last = spans.last();
        let outer = paint_span(inner, width, y, last.0, last.1, color);
        assert forall|i: int| 0 <= i < outer.len() implies #[trigger] outer[i] == pix[i] || outer[i]
            == color by {
            assert(inner[i] == pix[i] || inner[i] == color);
        }
    }
}

/// `after` differs from `before` only in pixels that hold an opaque colour
/// (alpha byte `0xFF`).
pub open spec fn only_opaque_writes(before: Seq<u32>, after: Seq<u32>) -> bool {
    &&& after.len() == before.len()
    &&& forall|i: int| 0 <= i < after.len() ==> #[trigger] after[i] == before[i] || after[i] % 256 == 255
}

/// `after` keeps every pixel of `before` from index `limit` on.
pub open spec fn unchanged_from(before: Seq<u32>, after: Seq<u32>, limit: int) -> bool {
    forall|i: int| limit <= i < after.len() ==> #[trigger] after[i] == before[i]
}

/// A span of row `y` lies inside that row.
pub proof fn lemma_span_in_row(width: usize, y: usize, x0: i32, x1: i32, i: int)
    requires
        in_span(width, y, x0, x1, i),
    ensures
        y * width <= i < y * width + width,
{
    lemma_clamp_within_row(x1, width);
    lemma_trunc_i32(width);
}

/// Painting spans of row `y` leaves every later row as it was.
pub proof fn lemma_paint_spans_in_row(pix: Seq<u32>, width: usize, y: usize, spans: Seq<(i32, i32)>, color: u32)
    ensures
        unchanged_from(pix, paint_spans(pix, width, y, spans, color), y * width + width),
    decreases spans.len(),
{
    if spans.len() > 0 {
        lemma_paint_spans_in_row(pix, width, y, spans.drop_last(), color);
        let inner = paint_spans(pix, width, y, spans.drop_last(), color);
        let last = spans.last();
        let outer = paint_span(inner, width, y, last.0, last.1, color);
        assert forall|i: int| y * width + width <= i < outer.len() implies #[trigger] outer[i]
            == pix[i] by {
            if in_span(width, y, last.0, last.1, i) {
                lemma_span_in_row(width, y, last.0, last.1, i);
            }
        }
    }
}

/// Row `y` of a `width` by `height` image ends inside the image.
pub proof fn lemma_row_end_within(width: usize, height: usize, y: usize)
    requires
        y < height,
    ensures
        y * width + width <= width * height,
{
    assert((y + 1) * width <= height * width) by (nonlinear_arith)
        requires
            y + 1 <= height,
    ;
    assert((y + 1) * width == y * width + width) by (nonlinear_arith);
    assert(width * height == height * width) by (nonlinear_arith);
}

} // verus!
