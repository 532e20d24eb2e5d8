//! The scanline sweep of `Rasterizer::rasterize`, step by step: which edges
//! are active on each scanline and in which order, where they cross it, and
//! what the scanline is painted with.
use vstd::prelude::*;
use crate::raster::{paint_spans, scanline_spans, spans_fit};
use crate::rasteriser::{Edge, RenderError, MAX_AET};
use crate::scalar::Scalar;
use crate::state::FillRule;

verus! {

/// One pass of insertion: the edge at `j` moves down past every edge before
/// it with a larger first scanline.
pub open spec fn spec_sink_by_y<S>(es: Seq<Edge<S>>, j: int) -> Seq<Edge<S>>
    decreases j,
{
    if 0 < j < es.len() && es[j].y_min < es[j - 1].y_min {
        spec_sink_by_y(es.update(j, es[j - 1]).update(j - 1, es[j]), j - 1)
    } else {
        es
    }
}

/// The edges from `i` to `n` inserted, one after the other, into the sorted
/// prefix before them: a stable sort by first scanline.
pub open spec fn spec_sort_by_y<S>(es: Seq<Edge<S>>, i: int, n: int) -> Seq<Edge<S>>
    decreases n - i,
{
    if 0 <= i < n {
        spec_sort_by_y(spec_sink_by_y(es, i), i + 1, n)
    } else {
        es
    }
}

/// The largest last scanline among the edges from `k` on and `acc`.
pub open spec fn spec_last_row<S>(es: Seq<Edge<S>>, k: int, acc: i32) -> i32
    decreases es.len() - k,
{
    if 0 <= k < es.len() {
        spec_last_row(es, k + 1, if es[k].y_max > acc { es[k].y_max } else { acc })
    } else {
        acc
    }
}

/// The edges from `next` on that start on scanline `y` join the active table
/// (the entries before `count`), in edge order, as long as it has room; gives
/// the table, its size, and the first edge not looked at.
pub open spec fn spec_activate<S>(es: Seq<Edge<S>>, aet: Seq<usize>, count: int, next: int, y: i32) -> (Seq<usize>, int, int)
    decreases es.len() - next,
{
    if 0 <= next < es.len() && es[next].y_min == y {
        if count < MAX_AET {
            spec_activate(es, aet.update(count, next as usize), count + 1, next + 1, y)
        } else {
            spec_activate(es, aet, count, next + 1, y)
        }
    } else {
        (aet, count, next)
    }
}

/// The active entries from `i` on whose edge ends by scanline `y` leave the
/// table: each is swapped with the last entry, and the table shrinks by one.
pub open spec fn spec_retire<S>(es: Seq<Edge<S>>, aet: Seq<usize>, count: int, i: int, y: i32) -> (Seq<usize>, int)
    decreases count - i,
{
    if 0 <= i < count <= aet.len() {
        let e = aet[i];
        if es[e as int].y_max <= y {
            spec_retire(es, aet.update(count - 1, e).update(i, aet[count - 1]), count - 1, i, y)
        } else {
            spec_retire(es, aet, count, i + 1, y)
        }
    } else {
        (aet, count)
    }
}

/// Whether an active edge's x is not a number.
pub open spec fn spec_has_nan<S: Scalar>(es: Seq<Edge<S>>, aet: Seq<usize>, count: int) -> bool {
    exists|q: int| 0 <= q < count && (#[trigger] es[aet[q] as int]).x.spec_is_nan()
}

/// One pass of insertion: the active entry at `j` moves down past every entry
/// before it whose edge's x its own x is less than.
pub open spec fn spec_sink_by_x<S: Scalar>(es: Seq<Edge<S>>, aet: Seq<usize>, j: int) -> Seq<usize>
    decreases j,
{
    if 0 < j < aet.len() && es[aet[j] as int].x.spec_less_than(es[aet[j - 1] as int].x) {
        spec_sink_by_x(es, aet.update(j, aet[j - 1]).update(j - 1, aet[j]), j - 1)
    } else {
        aet
    }
}

/// The active entries from `i` to `n` inserted, one after the other, into the
/// sorted prefix before them: an insertion sort by x.
pub open spec fn spec_sort_by_x<S: Scalar>(es: Seq<Edge<S>>, aet: Seq<usize>, i: int, n: int) -> Seq<usize>
    decreases n - i,
{
    if 0 <= i < n {
        spec_sort_by_x(es, spec_sink_by_x(es, aet, i), i + 1, n)
    } else {
        aet
    }
}

/// Where the first `count` active edges cross the scanline: the x truncated
/// to a pixel column, with the edge's direction.
pub open spec fn spec_crossings<S: Scalar>(es: Seq<Edge<S>>, aet: Seq<usize>, count: int) -> Seq<(i32, i32)> {
    Seq::new(count as nat, |c: int| (es[aet[c] as int].x.spec_trunc_to_i32(), es[aet[c] as int].dir))
}

/// The active edges from `s` on step to the next scanline: x grows by the
/// edge's slope.
pub open spec fn spec_advance<S: Scalar>(es: Seq<Edge<S>>, aet: Seq<usize>, count: int, s: int) -> Seq<Edge<S>>
    decreases count - s,
{
    if 0 <= s < count {
        let k = aet[s] as int;
        spec_advance(es.update(k, Edge { x: es[k].x.spec_plus(es[k].dx_per_dy), ..es[k] }), aet, count, s + 1)
    } else {
        es
    }
}

/// The sweep's state between scanlines: the edges (with their current x),
/// the active table and its size, the first edge not yet activated, and the
/// pixels.
pub ghost struct SweepState<S> {
    pub edges: Seq<Edge<S>>,
    pub aet: Seq<usize>,
    pub count: int,
    pub next: int,
    pub pixels: Seq<u32>,
}

/// The sweep from scanline `y` to `max_y`: on each scanline the starting
/// edges join the active table and the ended ones leave; with two or more
/// active edges of which one has an x that is not a number, the sweep fails
/// with `UnorderedCrossing`; otherwise the table is sorted by x, the scanline
/// (when it is one of the image's `h` rows) is painted with `color` over the
/// spans that `fill_rule` makes of the crossings (failing with
/// `SpanOutsideBuffer` where one of them reaches past the end of the pixels),
/// and the active edges step on. Gives the state at the end.
pub open spec fn spec_sweep<S: Scalar>(
    st: SweepState<S>,
    y: i32,
    max_y: i32,
    width: usize,
    h: i32,
    fill_rule: FillRule,
    color: u32,
) -> Result<SweepState<S>, RenderError>
    decreases max_y - y,
{
    if y < max_y {
        let (aet1, count1, next1) = spec_activate(st.edges, st.aet, st.count, st.next, y);
        let (aet2, count2) = spec_retire(st.edges, aet1, count1, 0, y);
        if count2 >= 2 && spec_has_nan(st.edges, aet2, count2) {
            Err(RenderError::UnorderedCrossing)
        } else {
            let aet3 = spec_sort_by_x(st.edges, aet2, 1, count2);
            let spans = scanline_spans(spec_crossings(st.edges, aet3, count2), fill_rule);
            if 0 <= y < h && !spans_fit(st.pixels.len() as int, width, y as usize, spans) {
                Err(RenderError::SpanOutsideBuffer)
            } else {
                let pixels = if 0 <= y < h {
                    paint_spans(st.pixels, width, y as usize, spans, color)
                } else {
                    st.pixels
                };
                let next_state = SweepState {
                    edges: spec_advance(st.edges, aet3, count2, 0),
                    aet: aet3,
                    count: count2,
                    next: next1,
                    pixels,
                };
                spec_sweep(next_state, (y + 1) as i32, max_y, width, h, fill_rule, color)
            }
        }
    } else {
        Ok(st)
    }
}

/// The sweep's end state when rasterizing the edges `es` into the `width` by
/// `height` image `pixels`, or why it fails: no edges change nothing; otherwise the
/// edges are sorted by first scanline and swept, with an empty active table
/// (`aet` its backing store), from the first edge's first scanline to the
/// largest last scanline, cut at the image's height.
pub open spec fn spec_rasterize<S: Scalar>(
    es: Seq<Edge<S>>,
    aet: Seq<usize>,
    pixels: Seq<u32>,
    width: usize,
    height: usize,
    fill_rule: FillRule,
    color: u32,
) -> Result<SweepState<S>, RenderError> {
    if es.len() == 0 {
        Ok(SweepState { edges: es, aet, count: 0, next: 0, pixels })
    } else {
        let sorted = spec_sort_by_y(es, 1, es.len() as int);
        let h = height as i32;
        let last = spec_last_row(sorted, 1, sorted[0].y_max);
        let max_y = if h < last {
            h
        } else {
            last
        };
        let start = SweepState { edges: sorted, aet, count: 0, next: 0, pixels };
        spec_sweep(start, sorted[0].y_min, max_y, width, h, fill_rule, color)
    }
}

/// The first `count` entries of the table index edges that start at or above
/// scanline `y`.
pub open spec fn entries_started<S>(es: Seq<Edge<S>>, aet: Seq<usize>, count: int, y: i32) -> bool {
    forall|c: int| 0 <= c < count ==> (#[trigger] aet[c]) < es.len() && es[aet[c] as int].y_min <= y
}

/// Activation keeps the table's entries started edges, within its size.
pub proof fn lemma_activate_started<S>(es: Seq<Edge<S>>, aet: Seq<usize>, count: int, next: int, y: i32)
    requires
        0 <= count <= MAX_AET,
        aet.len() == MAX_AET,
        0 <= next,
        es.len() <= usize::MAX,
        entries_started(es, aet, count, y),
    ensures
        ({
            let (a1, c1, n1) = spec_activate(es, aet, count, next, y);
            &&& count <= c1 <= MAX_AET
            &&& a1.len() == MAX_AET
            &&& entries_started(es, a1, c1, y)
        }),
    decreases es.len() - next,
{
    if 0 <= next < es.len() && es[next].y_min == y {
        if count < MAX_AET {
            let a = aet.update(count, next as usize);
            assert(entries_started(es, a, count + 1, y)) by {
                assert forall|c: int| 0 <= c < count + 1 implies (#[trigger] a[c]) < es.len()
                    && es[a[c] as int].y_min <= y by {
                    if c < count {
                        assert(a[c] == aet[c]);
                    } else {
                        assert(a[c] as int == next);
                    }
                }
            }
            lemma_activate_started(es, a, count + 1, next + 1, y);
        } else {
            lemma_activate_started(es, aet, count, next + 1, y);
        }
    }
}

/// Retiring leaves only entries whose edge ends below scanline `y`, given
/// that the entries before `i` already do.
pub proof fn lemma_retire_live<S>(es: Seq<Edge<S>>, aet: Seq<usize>, count: int, i: int, y: i32)
    requires
        0 <= i <= count <= aet.len(),
        entries_started(es, aet, count, y),
        forall|c: int| 0 <= c < i ==> es[(#[trigger] aet[c]) as int].y_max > y,
    ensures
        ({
            let (a2, c2) = spec_retire(es, aet, count, i, y);
            &&& 0 <= c2 <= count
            &&& a2.len() == aet.len()
            &&& entries_started(es, a2, c2, y)
            &&& forall|c: int| 0 <= c < c2 ==> es[(#[trigger] a2[c]) as int].y_max > y
        }),
    decreases count - i,
{
    if i < count {
        let e = aet[i];
        if es[e as int].y_max <= y {
            let a = aet.update(count - 1, e).update(i, aet[count - 1]);
            assert(entries_started(es, a, count - 1, y)) by {
                assert forall|c: int| 0 <= c < count - 1 implies (#[trigger] a[c]) < es.len()
                    && es[a[c] as int].y_min <= y by {
                    if c != i {
                        assert(a[c] == aet[c]);
                    } else {
                        assert(a[c] == aet[count - 1]);
                    }
                }
            }
            assert forall|c: int| 0 <= c < i implies es[(#[trigger] a[c]) as int].y_max > y by {
                assert(a[c] == aet[c]);
            }
            lemma_retire_live(es, a, count - 1, i, y);
        } else {
            lemma_retire_live(es, aet, count, i + 1, y);
        }
    }
}

/// The crossings a scanline is painted from are those of edges that span it:
/// after the starting edges join the table and the ended ones leave, every
/// active edge starts at or above scanline `y` and ends below it, given that
/// the entries before were edges started by then.
pub proof fn lemma_active_edges_span_row<S>(es: Seq<Edge<S>>, aet: Seq<usize>, count: int, next: int, y: i32)
    requires
        0 <= count <= MAX_AET,
        aet.len() == MAX_AET,
        0 <= next,
        es.len() <= usize::MAX,
        entries_started(es, aet, count, y),
    ensures
        ({
            let (a1, c1, n1) = spec_activate(es, aet, count, next, y);
            let (a2, c2) = spec_retire(es, a1, c1, 0, y);
            forall|c: int|
                0 <= c < c2 ==> (#[trigger] a2[c]) < es.len() && es[a2[c] as int].y_min <= y
                    < es[a2[c] as int].y_max
        }),
{
    lemma_activate_started(es, aet, count, next, y);
    let (a1, c1, n1) = spec_activate(es, aet, count, next, y);
    lemma_retire_live(es, a1, c1, 0, y);
}

/// A scanline's crossings are its active edges in table order, each at the
/// column its x truncates to, with the edge's direction.
pub proof fn lemma_crossing_columns<S: Scalar>(es: Seq<Edge<S>>, aet: Seq<usize>, count: int, c: int)
    requires
        0 <= c < count,
    ensures
        spec_crossings(es, aet, count).len() == count,
        spec_crossings(es, aet, count)[c] == (es[aet[c] as int].x.spec_trunc_to_i32(), es[aet[c] as int].dir),
{
}

/// Stepping to the next scanline moves each active edge's x by its slope,
/// once, and leaves every other edge (and every other field) as it was.
pub proof fn lemma_advance_steps_active<S: Scalar>(es: Seq<Edge<S>>, aet: Seq<usize>, count: int, s: int)
    requires
        0 <= s <= count <= aet.len(),
        forall|a: int, b: int| 0 <= a < b < count ==> aet[a] != aet[b],
        forall|a: int| 0 <= a < count ==> (#[trigger] aet[a]) < es.len(),
    ensures
        spec_advance(es, aet, count, s).len() == es.len(),
        forall|k: int|
            0 <= k < es.len() ==> #[trigger] spec_advance(es, aet, count, s)[k] == if exists|c: int|
                s <= c < count && aet[c] == k {
                Edge { x: es[k].x.spec_plus(es[k].dx_per_dy), ..es[k] }
            } else {
                es[k]
            },
    decreases count - s,
{
    if s < count {
        let k0 = aet[s] as int;
        let es2 = es.update(k0, Edge { x: es[k0].x.spec_plus(es[k0].dx_per_dy), ..es[k0] });
        lemma_advance_steps_active(es2, aet, count, s + 1);
        assert forall|k: int| 0 <= k < es.len() implies #[trigger] spec_advance(es, aet, count, s)[k]
            == if exists|c: int| s <= c < count && aet[c] == k {
            Edge { x: es[k].x.spec_plus(es[k].dx_per_dy), ..es[k] }
        } else {
            es[k]
        } by {
            if k == k0 {
                assert(aet[s] == k);
                assert(!exists|c: int| s + 1 <= c < count && aet[c] == k);
            } else {
                assert(es2[k] == es[k]);
                if exists|c: int| s <= c < count && aet[c] == k {
                    let c = choose|c: int| s <= c < count && aet[c] == k;
                    assert(c != s);
                    assert(exists|c2: int| s + 1 <= c2 < count && aet[c2] == k);
                } else {
                    assert(!exists|c2: int| s + 1 <= c2 < count && aet[c2] == k);
                }
            }
        }
    }
}

} // verus!
