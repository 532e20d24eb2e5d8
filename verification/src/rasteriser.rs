//! Scanline rasterization of paths: path data becomes edges (filled outlines
//! or stroke quads), and edges become filled spans of the pixel buffer.
use vstd::prelude::*;
use crate::cubic::{spec_cubic_point, CubicFlattenIter, Point};
use crate::path::{
    is_close, lemma_next_lexeme_advances, lemma_next_number_bounds, spec_next_lexeme,
    spec_next_number, spec_next_token, spec_on_number, PathCommandState, PathParser, PathStep,
    PathToken, CMD_M, CMD_Z,
};
use crate::raster::{
    fill_scanline, lemma_row_below_height, lemma_row_end_within, only_painted_with, paint_spans,
    scanline_spans, spans_fit, unchanged_from,
};
use crate::scalar::{number_or_default, number_or_zero, parsed_number, Scalar};
use crate::state::FillRule;
use crate::sweep::{
    spec_activate, spec_advance, spec_crossings, spec_has_nan, spec_last_row, spec_rasterize,
    spec_retire, spec_sink_by_x, spec_sink_by_y, spec_sort_by_x, spec_sort_by_y, spec_sweep,
    SweepState,
};

verus! {

/// Whether a path is filled, or stroked with the given width in pixels.
#[derive(Clone, Copy, Debug)]
pub enum PathMode<S> {
    Fill,
    Stroke(S),
}

/// The most edges one shape may have; further edges are dropped.
pub const MAX_EDGES: usize = 8192;

/// The most edges that can cross one scanline; further ones are dropped.
pub const MAX_AET: usize = 256;

/// Why rendering stopped early.
#[derive(Clone, Copy, Debug, PartialEq, Eq, Structural)]
pub enum RenderError {
    /// An attribute key is not followed by room for `="` (see `XmlParser::try_next`).
    MalformedAttribute,
    /// Two edges crossing a scanline could not be ordered, as one of them has
    /// a coordinate that is not a number.
    UnorderedCrossing,
    /// A span to fill reaches past the end of the pixel buffer.
    SpanOutsideBuffer,
}

/// A non-horizontal line segment, ready for scan conversion.
#[derive(Debug, Clone, Copy)]
pub struct Edge<S> {
    pub y_min: i32,
    pub y_max: i32,
    /// The x position on the current scanline.
    pub x: S,
    /// How much x changes per scanline.
    pub dx_per_dy: S,
    /// +1 for a downward segment, -1 for an upward one.
    pub dir: i32,
}

impl<S> Edge<S> {
    pub open spec fn wf(&self) -> bool {
        self.y_min < self.y_max && (self.dir == 1 || self.dir == -1)
    }
}

/// The edge of the segment from `p0` to `p1`: its ends' y rounded to
/// scanlines, it runs from the upper end (where x starts) to the lower one,
/// with x changing by the x distance over the scanline count per scanline;
/// `dir` is 1 when the segment runs downward, -1 when upward. `None` when both
/// ends round to the same scanline.
pub open spec fn spec_edge<S: Scalar>(p0: Point<S>, p1: Point<S>) -> Option<Edge<S>> {
    let y0 = p0.y.spec_round_to_i32();
    let y1 = p1.y.spec_round_to_i32();
    if y0 == y1 {
        None
    } else if y0 < y1 {
        Some(
            Edge {
                y_min: y0,
                y_max: y1,
                x: p0.x,
                dx_per_dy: p1.x.spec_minus(p0.x).spec_over(S::spec_from_i64((y1 - y0) as i64)),
                dir: 1i32,
            },
        )
    } else {
        Some(
            Edge {
                y_min: y1,
                y_max: y0,
                x: p1.x,
                dx_per_dy: p0.x.spec_minus(p1.x).spec_over(S::spec_from_i64((y0 - y1) as i64)),
                dir: -1i32,
            },
        )
    }
}

/// The edge list after adding the edge of the segment `p0`-`p1`: unchanged
/// when the segment stays on one scanline or `MAX_EDGES` edges are held.
pub open spec fn spec_add_edge<S: Scalar>(es: Seq<Edge<S>>, p0: Point<S>, p1: Point<S>) -> Seq<Edge<S>> {
    if es.len() >= MAX_EDGES {
        es
    } else {
        match spec_edge(p0, p1) {
            Some(e) => es.push(e),
            None => es,
        }
    }
}

/// The corners `a, b, c, d` of the stroke of the segment `p0`-`p1` with the
/// given width: the segment moved by half the width to either side (along
/// the unit normal `(-dy, dx) / len`), `a`-`b` on one side and `c`-`d` back
/// on the other; `None` when the segment is no longer than the epsilon.
pub open spec fn spec_stroke_quad<S: Scalar>(p0: Point<S>, p1: Point<S>, width: S) -> Option<
    (Point<S>, Point<S>, Point<S>, Point<S>),
> {
    let dx = p1.x.spec_minus(p0.x);
    let dy = p1.y.spec_minus(p0.y);
    let len = dx.spec_times(dx).spec_plus(dy.spec_times(dy)).spec_sqrt();
    if len.spec_less_or_equal(S::spec_epsilon()) {
        None
    } else {
        let half_w = width.spec_over(S::spec_from_i64(2));
        let ox = dy.spec_negate().spec_over(len).spec_times(half_w);
        let oy = dx.spec_over(len).spec_times(half_w);
        Some(
            (
                Point { x: p0.x.spec_plus(ox), y: p0.y.spec_plus(oy) },
                Point { x: p1.x.spec_plus(ox), y: p1.y.spec_plus(oy) },
                Point { x: p1.x.spec_minus(ox), y: p1.y.spec_minus(oy) },
                Point { x: p0.x.spec_minus(ox), y: p0.y.spec_minus(oy) },
            ),
        )
    }
}

/// The edge list after adding the outline of the segment `p0`-`p1`: the
/// segment itself when filling; when stroking, the sides `a-b`, `b-c`, `c-d`,
/// `d-a` of its stroke quad, in that order (none for a too short segment).
pub open spec fn spec_add_segment<S: Scalar>(
    es: Seq<Edge<S>>,
    p0: Point<S>,
    p1: Point<S>,
    mode: PathMode<S>,
) -> Seq<Edge<S>> {
    match mode {
        PathMode::Fill => spec_add_edge(es, p0, p1),
        PathMode::Stroke(width) => match spec_stroke_quad(p0, p1, width) {
            None => es,
            Some((a, b, c, d)) => spec_add_edge(
                spec_add_edge(spec_add_edge(spec_add_edge(es, a, b), b, c), c, d),
                d,
                a,
            ),
        },
    }
}

/// An edge runs from its upper end to its lower one: its scanlines are those
/// of the two rounded ends' y, the smaller first; its x starts at the upper
/// end's x and changes by the x distance over the scanline count on each
/// scanline; its direction is 1 when the segment runs down and -1 when it runs
/// up. A segment whose ends round to one scanline has no edge, and reversing a
/// segment gives the same edge in the other direction.
pub proof fn lemma_edge_orientation<S: Scalar>(p0: Point<S>, p1: Point<S>)
    ensures
        ({
            let y0 = p0.y.spec_round_to_i32();
            let y1 = p1.y.spec_round_to_i32();
            &&& spec_edge(p0, p1) is None <==> y0 == y1
            &&& y0 < y1 ==> spec_edge(p0, p1) == Some(
                Edge {
                    y_min: y0,
                    y_max: y1,
                    x: p0.x,
                    dx_per_dy: p1.x.spec_minus(p0.x).spec_over(S::spec_from_i64((y1 - y0) as i64)),
                    dir: 1i32,
                },
            )
            &&& spec_edge(p0, p1) matches Some(e) ==> e.y_min < e.y_max && spec_edge(p1, p0)
                == Some(Edge { dir: (-e.dir) as i32, ..e })
        }),
{
}

/// A stroked segment's outline is the rectangle around it: its corners are
/// the two ends moved by half the stroke width to either side along the unit
/// normal `(-dy, dx) / len` of the segment, `a` and `b` on one side, `c` and
/// `d` on the other.
pub proof fn lemma_stroke_quad_corners<S: Scalar>(p0: Point<S>, p1: Point<S>, width: S)
    ensures
        ({
            let dx = p1.x.spec_minus(p0.x);
            let dy = p1.y.spec_minus(p0.y);
            let len = dx.spec_times(dx).spec_plus(dy.spec_times(dy)).spec_sqrt();
            let half = width.spec_over(S::spec_from_i64(2));
            let ox = dy.spec_negate().spec_over(len).spec_times(half);
            let oy = dx.spec_over(len).spec_times(half);
            &&& spec_stroke_quad(p0, p1, width) is None <==> len.spec_less_or_equal(S::spec_epsilon())
            &&& spec_stroke_quad(p0, p1, width) matches Some((a, b, c, d)) ==> {
                &&& a == Point { x: p0.x.spec_plus(ox), y: p0.y.spec_plus(oy) }
                &&& b == Point { x: p1.x.spec_plus(ox), y: p1.y.spec_plus(oy) }
                &&& c == Point { x: p1.x.spec_minus(ox), y: p1.y.spec_minus(oy) }
                &&& d == Point { x: p0.x.spec_minus(ox), y: p0.y.spec_minus(oy) }
            }
        }),
{
}

impl<S: Scalar> Edge<S> {
    /// The edge of the segment from `p0` to `p1`, with its ends rounded to
    /// scanlines; `None` for a segment that stays on one scanline.
    pub fn new(p0: Point<S>, p1: Point<S>) -> (r: Option<Self>)
        ensures
            r == spec_edge(p0, p1),
            r matches Some(e) ==> e.wf(),
    {
        let y0 = p0.y.round_to_i32();
        let y1 = p1.y.round_to_i32();
        if y0 == y1 {
            return None;
        }
        let (dir, y_min, y_max, start_x, end_x) = if y0 < y1 {
            (1i32, y0, y1, p0.x, p1.x)
        } else {
            (-1i32, y1, y0, p1.x, p0.x)
        };
        let span = S::from_i64(y_max as i64 - y_min as i64);
        let dx_per_dy = end_x.minus(start_x).over(span);
        Some(Edge { y_min, y_max, x: start_x, dx_per_dy, dir })
    }
}

/// Scan-converts edges into an RGBA pixel buffer of `width` by `height` pixels.
pub struct Rasterizer<'a, S> {
    pub width: usize,
    pub height: usize,
    pub pixels: &'a mut [u32],
    /// The edges of the current shape, at most `MAX_EDGES`.
    pub edges: Vec<Edge<S>>,
    /// The active edge table: indices into `edges`, the first `aet_count` in use.
    pub aet: Vec<usize>,
    pub aet_count: usize,
}

impl<'a, S: Scalar> Rasterizer<'a, S> {
    /// The buffer holds the whole image, the edge list is within its bound
    /// and holds proper edges, and the active edge table is within its bound.
    pub open spec fn wf(&self) -> bool {
        &&& self.edges@.len() <= MAX_EDGES
        &&& forall|i: int| 0 <= i < self.edges@.len() ==> (#[trigger] self.edges@[i]).wf()
        &&& self.aet@.len() == MAX_AET
        &&& self.aet_count <= MAX_AET
    }

    pub fn new(pixels: &'a mut [u32], width: usize, height: usize) -> (r: Self)
        ensures
            r.wf(),
            r.pixels@ == old(pixels)@,
            r.width == width,
            r.height == height,
            r.edges@.len() == 0,
            r.aet_count == 0,
            r.aet@ == Seq::new(MAX_AET as nat, |i: int| 0usize),
            final(r.pixels)@ == final(pixels)@,
    {
        let mut aet: Vec<usize> = Vec::new();
        let mut i: usize = 0;
        while i < MAX_AET
            invariant
                i <= MAX_AET,
                aet@ == Seq::new(i as nat, |k: int| 0usize),
            decreases MAX_AET - i,
        {
            aet.push(0);
            i = i + 1;
            assert(aet@ =~= Seq::new(i as nat, |k: int| 0usize));
        }
        Rasterizer { width, height, pixels, edges: Vec::new(), aet, aet_count: 0 }
    }

    /// Gives back the pixel buffer.
    pub fn into_pixels(self) -> (p: &'a mut [u32])
        ensures
            p@ == old(self.pixels)@,
            final(p)@ == final(self.pixels)@,
    {
        self.pixels
    }

    pub fn edge_count(&self) -> (n: usize)
        ensures
            n == self.edges@.len(),
    {
        self.edges.len()
    }

    pub fn aet_count(&self) -> (n: usize)
        ensures
            n == self.aet_count,
    {
        self.aet_count
    }

    /// Adds the edge of a segment (already in pixel space); a segment on one
    /// scanline adds nothing, nor does any segment once `MAX_EDGES` are held.
    pub fn push_edge(&mut self, p0: Point<S>, p1: Point<S>)
        requires
            old(self).wf(),
        ensures
            final(self).wf(),
            final(self).pixels@ == old(self).pixels@,
            final(self).width == old(self).width,
            final(self).height == old(self).height,
            final(self).aet_count == old(self).aet_count,
            final(self).edges@ == spec_add_edge(old(self).edges@, p0, p1),
            final(self).aet@ == old(self).aet@,
            final(final(self).pixels)@ == final(old(self).pixels)@,
    {
        if self.edges.len() >= MAX_EDGES {
            return;
        }
        if let Some(edge) = Edge::new(p0, p1) {
            self.edges.push(edge);
        }
    }

    /// Sorts the edges by their first scanline.
    fn sort_edges_by_y_min(&mut self)
        requires
            old(self).wf(),
        ensures
            final(final(self).pixels)@ == final(old(self).pixels)@,
            final(self).wf(),
            final(self).pixels@ == old(self).pixels@,
            final(self).width == old(self).width,
            final(self).height == old(self).height,
            final(self).edges@.len() == old(self).edges@.len(),
            final(self).aet_count == old(self).aet_count,
            final(self).aet@ == old(self).aet@,
            forall|i: int, j: int|
                0 <= i <= j < final(self).edges@.len() ==> final(self).edges@[i].y_min <= final(self).edges@[j].y_min,
            final(self).edges@ == spec_sort_by_y(old(self).edges@, 1, old(self).edges@.len() as int),
    {
        let n = self.edges.len();
        let mut i: usize = 1;
        while i < n
            invariant
                self.wf(),
                final(self.pixels)@ == final(old(self).pixels)@,
                self.pixels@ == old(self).pixels@,
                self.width == old(self).width,
                self.height == old(self).height,
                self.aet_count == old(self).aet_count,
                self.aet@ == old(self).aet@,
                n == self.edges@.len(),
                n == old(self).edges@.len(),
                1 <= i || n == 0,
                i <= n || n == 0,
                forall|a: int, b: int|
                    0 <= a <= b < i && b < n ==> self.edges@[a].y_min <= self.edges@[b].y_min,
                spec_sort_by_y(old(self).edges@, 1, n as int) == spec_sort_by_y(self.edges@, i as int, n as int),
            decreases n - i,
        {
            let ghost at_i = self.edges@;
            let mut j = i;
            while j > 0 && self.edges[j].y_min < self.edges[j - 1].y_min
                invariant
                    self.wf(),
                    final(self.pixels)@ == final(old(self).pixels)@,
                    self.pixels@ == old(self).pixels@,
                    self.width == old(self).width,
                    self.height == old(self).height,
                    self.aet_count == old(self).aet_count,
                    self.aet@ == old(self).aet@,
                    n == self.edges@.len(),
                    0 <= j <= i < n,
                    forall|a: int, b: int|
                        0 <= a <= b <= i && a != j && b != j ==> self.edges@[a].y_min
                            <= self.edges@[b].y_min,
                    forall|b: int| j < b <= i ==> self.edges@[j as int].y_min <= self.edges@[b].y_min,
                    spec_sink_by_y(at_i, i as int) == spec_sink_by_y(self.edges@, j as int),
                decreases j,
            {
                let a = self.edges[j];
                let b = self.edges[j - 1];
                self.edges.set(j, b);
                self.edges.set(j - 1, a);
                j = j - 1;
            }
            i = i + 1;
        }
    }

    /// While sweeping: the rasterizer is well formed and keeps its size, its
    /// buffer differs from `pix0` only in pixels inside the image that hold
    /// `color`, and the active edge table indexes the `edge_count` edges.
    spec fn sweeping(&self, width: usize, height: usize, pix0: Seq<u32>, color: u32, edge_count: usize) -> bool {
        &&& self.wf()
        &&& self.width == width
        &&& self.height == height
        &&& self.pixels@.len() == pix0.len()
        &&& only_painted_with(pix0, self.pixels@, color)
        &&& unchanged_from(pix0, self.pixels@, width * height)
        &&& edge_count == self.edges@.len()
        &&& forall|a: int| 0 <= a < self.aet_count ==> #[trigger] self.aet@[a] < edge_count
    }

    /// Fills the shape that the held edges outline with `color` under
    /// `fill_rule`, then forgets the edges. Scanlines run from the smallest
    /// first scanline to the largest last one, cut at the buffer's height;
    /// each one's crossings, sorted by x, are filled by `fill_scanline`.
    /// Stops with `UnorderedCrossing` where two crossings cannot be ordered.
    /// The pixels and the result are those of the sweep `spec_rasterize`.
    pub fn rasterize(&mut self, color: u32, fill_rule: FillRule) -> (r: Result<(), RenderError>)
        requires
            old(self).wf(),
        ensures
            final(final(self).pixels)@ == final(old(self).pixels)@,
            final(self).wf(),
            final(self).pixels@.len() == old(self).pixels@.len(),
            final(self).width == old(self).width,
            final(self).height == old(self).height,
            final(self).edges@.len() == 0,
            final(self).aet_count == 0,
            only_painted_with(old(self).pixels@, final(self).pixels@, color),
            unchanged_from(old(self).pixels@, final(self).pixels@, old(self).width * old(self).height),
            r is Err ==> r == Err::<(), RenderError>(RenderError::UnorderedCrossing) || r == Err::<
                (),
                RenderError,
            >(RenderError::SpanOutsideBuffer),
            match spec_rasterize(
                old(self).edges@,
                old(self).aet@,
                old(self).pixels@,
                old(self).width,
                old(self).height,
                fill_rule,
                color,
            ) {
                Ok(end) => r is Ok && final(self).pixels@ == end.pixels && final(self).aet@ == end.aet,
                Err(e) => r == Err::<(), RenderError>(e),
            },
            old(self).edges@.len() == 0 ==> r is Ok && final(self).pixels@ == old(self).pixels@,
    {
        self.aet_count = 0;
        if self.edges.len() == 0 {
            return Ok(());
        }
        self.sort_edges_by_y_min();
        let edge_count = self.edges.len();
        let min_y = self.edges[0].y_min;
        let mut max_y = self.edges[0].y_max;
        let mut k: usize = 1;
        while k < edge_count
            invariant
                edge_count == self.edges@.len(),
                1 <= k <= edge_count,
                spec_last_row(self.edges@, 1, self.edges@[0].y_max) == spec_last_row(
                    self.edges@,
                    k as int,
                    max_y,
                ),
            decreases edge_count - k,
        {
            if self.edges[k].y_max > max_y {
                max_y = self.edges[k].y_max;
            }
            k = k + 1;
        }
        let h = #[verifier::truncate] (self.height as i32);
        if h < max_y {
            max_y = h;
        }
        let width = self.width;
        let ghost pix0 = self.pixels@;
        let ghost result = spec_rasterize(
            old(self).edges@,
            old(self).aet@,
            old(self).pixels@,
            old(self).width,
            old(self).height,
            fill_rule,
            color,
        );
        let mut current_edge_idx: usize = 0;
        let mut y = min_y;
        while y < max_y
            invariant
                self.sweeping(old(self).width, old(self).height, pix0, color, edge_count),
                final(self.pixels)@ == final(old(self).pixels)@,
                self.width == width,
                pix0 == old(self).pixels@,
                0 < old(self).edges@.len(),
                h == #[verifier::truncate] (self.height as i32),
                current_edge_idx <= edge_count,
                result == spec_rasterize(
                    old(self).edges@,
                    old(self).aet@,
                    old(self).pixels@,
                    old(self).width,
                    old(self).height,
                    fill_rule,
                    color,
                ),
                result == spec_sweep(
                    (SweepState {
                        edges: self.edges@,
                        aet: self.aet@,
                        count: self.aet_count as int,
                        next: current_edge_idx as int,
                        pixels: self.pixels@,
                    }),
                    y,
                    max_y,
                    width,
                    h,
                    fill_rule,
                    color,
                ),
            decreases max_y - y,
        {
            let ghost e0 = self.edges@;
            let ghost a0 = self.aet@;
            let ghost c0 = self.aet_count as int;
            let ghost n0 = current_edge_idx as int;
            let ghost p0 = self.pixels@;
            // Edges that start on this scanline become active.
            while current_edge_idx < edge_count && self.edges[current_edge_idx].y_min == y
                invariant
                    self.sweeping(old(self).width, old(self).height, pix0, color, edge_count),
                    final(self.pixels)@ == final(old(self).pixels)@,
                    current_edge_idx <= edge_count,
                    self.edges@ == e0,
                    self.pixels@ == p0,
                    spec_activate(e0, a0, c0, n0, y) == spec_activate(
                        e0,
                        self.aet@,
                        self.aet_count as int,
                        current_edge_idx as int,
                        y,
                    ),
                decreases edge_count - current_edge_idx,
            {
                if self.aet_count < MAX_AET {
                    let c = self.aet_count;
                    self.aet.set(c, current_edge_idx);
                    self.aet_count = c + 1;
                }
                current_edge_idx = current_edge_idx + 1;
            }
            let ghost a1 = self.aet@;
            let ghost c1 = self.aet_count as int;
            let ghost n1 = current_edge_idx as int;
            assert(spec_activate(e0, a0, c0, n0, y) == (a1, c1, n1));
            // Edges that end here leave.
            let mut i: usize = 0;
            while i < self.aet_count
                invariant
                    self.sweeping(old(self).width, old(self).height, pix0, color, edge_count),
                    final(self.pixels)@ == final(old(self).pixels)@,
                    i <= self.aet_count,
                    self.edges@ == e0,
                    self.pixels@ == p0,
                    spec_retire(e0, a1, c1, 0, y) == spec_retire(
                        e0,
                        self.aet@,
                        self.aet_count as int,
                        i as int,
                        y,
                    ),
                decreases self.aet_count - i,
            {
                let e = self.aet[i];
                if self.edges[e].y_max <= y {
                    let last = self.aet_count - 1;
                    let moved = self.aet[last];
                    self.aet.set(last, e);
                    self.aet.set(i, moved);
                    self.aet_count = last;
                } else {
                    i = i + 1;
                }
            }
            let ghost a2 = self.aet@;
            let ghost c2 = self.aet_count as int;
            assert(spec_retire(e0, a1, c1, 0, y) == (a2, c2));
            assert(c2 >= 2 && spec_has_nan(e0, a2, c2) ==> result == Err::<SweepState<S>, RenderError>(RenderError::UnorderedCrossing));
            // Crossings are ordered by x; a coordinate that is not a number
            // cannot be ordered.
            if self.aet_count >= 2 {
                let mut q: usize = 0;
                while q < self.aet_count
                    invariant
                        self.sweeping(old(self).width, old(self).height, pix0, color, edge_count),
                        final(self.pixels)@ == final(old(self).pixels)@,
                        pix0 == old(self).pixels@,
                        0 < old(self).edges@.len(),
                        q <= self.aet_count,
                        self.edges@ == e0,
                        self.aet@ == a2,
                        self.aet_count == c2,
                        self.pixels@ == p0,
                        c2 >= 2,
                        c2 >= 2 && spec_has_nan(e0, a2, c2) ==> result == Err::<SweepState<S>, RenderError>(RenderError::UnorderedCrossing),
                        result == spec_rasterize(
                            old(self).edges@,
                            old(self).aet@,
                            old(self).pixels@,
                            old(self).width,
                            old(self).height,
                            fill_rule,
                            color,
                        ),
                        forall|q2: int|
                            0 <= q2 < q ==> !(#[trigger] e0[a2[q2] as int]).x.spec_is_nan(),
                    decreases self.aet_count - q,
                {
                    if self.edges[self.aet[q]].x.is_nan() {
                        assert(spec_has_nan(e0, a2, c2));
                        self.edges.clear();
                        self.aet_count = 0;
                        return Err(RenderError::UnorderedCrossing);
                    }
                    q = q + 1;
                }
                assert(!spec_has_nan(e0, a2, c2));
            }
            self.sort_active_by_x();
            let ghost a3 = self.aet@;
            // Fill this scanline if it is on the screen.
            if y >= 0 && y < h {
                let mut crossings: Vec<(i32, i32)> = Vec::new();
                let mut c: usize = 0;
                while c < self.aet_count
                    invariant
                        self.sweeping(old(self).width, old(self).height, pix0, color, edge_count),
                        final(self.pixels)@ == final(old(self).pixels)@,
                        c <= self.aet_count,
                        crossings@.len() == c,
                        forall|a: int|
                            0 <= a < crossings@.len() ==> -1 <= #[trigger] crossings@[a].1 <= 1,
                        crossings@ == spec_crossings(self.edges@, self.aet@, c as int),
                    decreases self.aet_count - c,
                {
                    let edge = self.edges[self.aet[c]];
                    assert(self.edges@[self.aet@[c as int] as int].wf());
                    crossings.push((edge.x.trunc_to_i32(), edge.dir));
                    c = c + 1;
                    assert(crossings@ =~= spec_crossings(self.edges@, self.aet@, c as int));
                }
                let row = y as usize;
                proof {
                    lemma_row_below_height(self.height, y);
                }
                let ghost before_fill = self.pixels@;
                let fits = fill_scanline(self.pixels, width, row, crossings.as_slice(), fill_rule, color);
                proof {
                    assert forall|j: int| 0 <= j < self.pixels@.len() implies #[trigger] self.pixels@[j]
                        == pix0[j] || self.pixels@[j] == color by {
                        assert(before_fill[j] == pix0[j] || before_fill[j] == color);
                    }
                    lemma_row_end_within(width, self.height, row);
                    assert forall|j: int| self.width * self.height <= j < self.pixels@.len() implies #[trigger] self.pixels@[j]
                        == pix0[j] by {
                        assert(before_fill[j] == pix0[j]);
                    }
                }
                if !fits {
                    self.edges.clear();
                    self.aet_count = 0;
                    return Err(RenderError::SpanOutsideBuffer);
                }
            }
            let ghost p4 = self.pixels@;
            assert(a3 == spec_sort_by_x(e0, a2, 1, c2));
            assert(self.edges@ == e0);
            assert(p4 == (if 0 <= y < h {
                paint_spans(
                    p0,
                    width,
                    y as usize,
                    scanline_spans(spec_crossings(e0, a3, c2), fill_rule),
                    color,
                )
            } else {
                p0
            }));
            // Step the active edges to the next scanline.
            let mut s: usize = 0;
            while s < self.aet_count
                invariant
                    self.sweeping(old(self).width, old(self).height, pix0, color, edge_count),
                    final(self.pixels)@ == final(old(self).pixels)@,
                    s <= self.aet_count,
                    self.aet@ == a3,
                    self.aet_count == c2,
                    self.pixels@ == p4,
                    spec_advance(e0, a3, c2, 0) == spec_advance(self.edges@, a3, c2, s as int),
                decreases self.aet_count - s,
            {
                let idx = self.aet[s];
                let mut edge = self.edges[idx];
                edge.x = edge.x.plus(edge.dx_per_dy);
                self.edges.set(idx, edge);
                s = s + 1;
            }
            assert(self.edges@ == spec_advance(e0, a3, c2, 0));
            y = y + 1;
        }
        self.edges.clear();
        self.aet_count = 0;
        Ok(())
    }

    /// Orders the active edge table by the edges' current x (insertion sort).
    fn sort_active_by_x(&mut self)
        requires
            old(self).wf(),
            forall|a: int|
                0 <= a < old(self).aet_count ==> #[trigger] old(self).aet@[a] < old(self).edges@.len(),
        ensures
            final(final(self).pixels)@ == final(old(self).pixels)@,
            final(self).wf(),
            final(self).pixels@ == old(self).pixels@,
            final(self).edges == old(self).edges,
            final(self).width == old(self).width,
            final(self).height == old(self).height,
            final(self).aet_count == old(self).aet_count,
            forall|a: int|
                0 <= a < final(self).aet_count ==> #[trigger] final(self).aet@[a] < final(self).edges@.len(),
            final(self).aet@ == spec_sort_by_x(old(self).edges@, old(self).aet@, 1, old(self).aet_count as int),
    {
        let n = self.aet_count;
        let mut i: usize = 1;
        while i < n
            invariant
                self.wf(),
                final(self.pixels)@ == final(old(self).pixels)@,
                self.pixels@ == old(self).pixels@,
                self.edges == old(self).edges,
                self.width == old(self).width,
                self.height == old(self).height,
                self.aet_count == n,
                forall|a: int| 0 <= a < n ==> #[trigger] self.aet@[a] < self.edges@.len(),
                spec_sort_by_x(self.edges@, old(self).aet@, 1, n as int) == spec_sort_by_x(
                    self.edges@,
                    self.aet@,
                    i as int,
                    n as int,
                ),
            decreases n - i,
        {
            let ghost at_i = self.aet@;
            let mut j = i;
            while j > 0 && self.edges[self.aet[j]].x.less_than(self.edges[self.aet[j - 1]].x)
                invariant
                    self.wf(),
                    final(self.pixels)@ == final(old(self).pixels)@,
                    self.pixels@ == old(self).pixels@,
                    self.edges == old(self).edges,
                    self.width == old(self).width,
                    self.height == old(self).height,
                    self.aet_count == n,
                    j <= i < n,
                    forall|a: int| 0 <= a < n ==> #[trigger] self.aet@[a] < self.edges@.len(),
                    spec_sink_by_x(self.edges@, at_i, i as int) == spec_sink_by_x(
                        self.edges@,
                        self.aet@,
                        j as int,
                    ),
                decreases j,
            {
                let a = self.aet[j];
                let b = self.aet[j - 1];
                self.aet.set(j, b);
                self.aet.set(j - 1, a);
                j = j - 1;
            }
            i = i + 1;
        }
    }
}

/// What adding outline segments may do to a rasterizer: the buffer, its
/// size and the active edge table stay, and edges are only added.
pub open spec fn only_adds_edges<'a, S: Scalar>(before: &Rasterizer<'a, S>, after: &Rasterizer<'a, S>) -> bool {
    &&& after.wf()
    &&& after.pixels@ == before.pixels@
    &&& after.width == before.width
    &&& after.height == before.height
    &&& after.aet_count == before.aet_count
    &&& after.aet@ == before.aet@
    &&& before.edges@.len() <= after.edges@.len()
}

/// Adds the outline of a segment: the segment itself when filling; when
/// stroking, the four sides of the rectangle of the stroke width centred on
/// it (nothing for a segment no longer than the scalar epsilon).
pub fn push_segment<S: Scalar>(p0: Point<S>, p1: Point<S>, rasterizer: &mut Rasterizer<S>, mode: PathMode<S>)
    requires
        old(rasterizer).wf(),
    ensures
        final(final(rasterizer).pixels)@ == final(old(rasterizer).pixels)@,
        only_adds_edges(old(rasterizer), final(rasterizer)),
        final(rasterizer).edges@ == spec_add_segment(old(rasterizer).edges@, p0, p1, mode),
{
    match mode {
        PathMode::Fill => {
            rasterizer.push_edge(p0, p1);
        },
        PathMode::Stroke(width) => {
            let dx = p1.x.minus(p0.x);
            let dy = p1.y.minus(p0.y);
            let len = dx.times(dx).plus(dy.times(dy)).sqrt();
            if len.less_or_equal(S::epsilon()) {
                return;
            }
            let half_w = width.over(S::from_i64(2));
            let ox = dy.negate().over(len).times(half_w);
            let oy = dx.over(len).times(half_w);
            let a = Point { x: p0.x.plus(ox), y: p0.y.plus(oy) };
            let b = Point { x: p1.x.plus(ox), y: p1.y.plus(oy) };
            let c = Point { x: p1.x.minus(ox), y: p1.y.minus(oy) };
            let d = Point { x: p0.x.minus(ox), y: p0.y.minus(oy) };
            rasterizer.push_edge(a, b);
            rasterizer.push_edge(b, c);
            rasterizer.push_edge(c, d);
            rasterizer.push_edge(d, a);
        },
    }
}

/// How many segments a quadratic curve is flattened into.
pub const QUADRATIC_STEPS: usize = 20;

/// How many segments a cubic curve is flattened into.
pub const CUBIC_STEPS: usize = 20;

/// The point of the quadratic Bézier curve `p0`, `p1`, `p2` at
/// `t = step / QUADRATIC_STEPS`: `(1-t)^2 P0 + 2 (1-t) t P1 + t^2 P2`.
pub open spec fn spec_quad_point<S: Scalar>(p0: Point<S>, p1: Point<S>, p2: Point<S>, step: int) -> Point<S> {
    let t = S::spec_from_usize(step as usize).spec_over(S::spec_from_usize(QUADRATIC_STEPS));
    let mt = S::spec_one().spec_minus(t);
    let two = S::spec_from_i64(2);
    Point {
        x: mt.spec_times(mt).spec_times(p0.x).spec_plus(two.spec_times(mt).spec_times(t).spec_times(p1.x)).spec_plus(
            t.spec_times(t).spec_times(p2.x),
        ),
        y: mt.spec_times(mt).spec_times(p0.y).spec_plus(two.spec_times(mt).spec_times(t).spec_times(p1.y)).spec_plus(
            t.spec_times(t).spec_times(p2.y),
        ),
    }
}

/// The flattened points of a quadratic curve lie on the quadratic Bézier
/// curve: the point at `t = step / QUADRATIC_STEPS` weighs `P0` by
/// `(1-t)^2`, the control point `P1` by `2 (1-t) t` and `P2` by `t^2`.
pub proof fn lemma_quad_point_weights<S: Scalar>(p0: Point<S>, p1: Point<S>, p2: Point<S>, step: int)
    ensures
        ({
            let t = S::spec_from_usize(step as usize).spec_over(S::spec_from_usize(20));
            let u = S::spec_one().spec_minus(t);
            let two = S::spec_from_i64(2);
            let w0 = u.spec_times(u);
            let w1 = two.spec_times(u).spec_times(t);
            let w2 = t.spec_times(t);
            let q = spec_quad_point(p0, p1, p2, step);
            &&& q.x == w0.spec_times(p0.x).spec_plus(w1.spec_times(p1.x)).spec_plus(
                w2.spec_times(p2.x),
            )
            &&& q.y == w0.spec_times(p0.y).spec_plus(w1.spec_times(p1.y)).spec_plus(
                w2.spec_times(p2.y),
            )
        }),
{
}

/// The edge list after adding, from `step` on, the segments of the flattened
/// quadratic curve: from `prev` to the point at `step`, then from there to
/// the point at `step + 1`, up to the point at `QUADRATIC_STEPS`.
pub open spec fn spec_add_quadratic_from<S: Scalar>(
    es: Seq<Edge<S>>,
    prev: Point<S>,
    p0: Point<S>,
    p1: Point<S>,
    p2: Point<S>,
    mode: PathMode<S>,
    step: int,
) -> Seq<Edge<S>>
    decreases QUADRATIC_STEPS + 1 - step,
{
    if 1 <= step <= QUADRATIC_STEPS {
        let pt = spec_quad_point(p0, p1, p2, step);
        spec_add_quadratic_from(spec_add_segment(es, prev, pt, mode), pt, p0, p1, p2, mode, step + 1)
    } else {
        es
    }
}

/// The edge list after adding the outline of the quadratic curve `p0`, `p1`,
/// `p2` flattened into `QUADRATIC_STEPS` segments, starting at `p0`.
pub open spec fn spec_add_quadratic<S: Scalar>(
    es: Seq<Edge<S>>,
    p0: Point<S>,
    p1: Point<S>,
    p2: Point<S>,
    mode: PathMode<S>,
) -> Seq<Edge<S>> {
    spec_add_quadratic_from(es, p0, p0, p1, p2, mode, 1)
}

/// The edge list after adding, from `k` on, the segments of the flattened
/// cubic curve: from `prev` to the point at `k`, then on to the point at
/// `k + 1`, up to the point at `CUBIC_STEPS`.
pub open spec fn spec_add_cubic_from<S: Scalar>(
    es: Seq<Edge<S>>,
    prev: Point<S>,
    p0: Point<S>,
    p1: Point<S>,
    p2: Point<S>,
    p3: Point<S>,
    mode: PathMode<S>,
    k: int,
) -> Seq<Edge<S>>
    decreases CUBIC_STEPS + 1 - k,
{
    if 0 <= k <= CUBIC_STEPS {
        let pt = spec_cubic_point(p0, p1, p2, p3, CUBIC_STEPS, k as usize);
        spec_add_cubic_from(spec_add_segment(es, prev, pt, mode), pt, p0, p1, p2, p3, mode, k + 1)
    } else {
        es
    }
}

/// The edge list after adding the outline of the cubic curve `p0` .. `p3`:
/// from `p0` to the curve's point at `t = 0`, then through the points at
/// `t = 1 / CUBIC_STEPS, ..., 1`.
pub open spec fn spec_add_cubic<S: Scalar>(
    es: Seq<Edge<S>>,
    p0: Point<S>,
    p1: Point<S>,
    p2: Point<S>,
    p3: Point<S>,
    mode: PathMode<S>,
) -> Seq<Edge<S>> {
    spec_add_cubic_from(es, p0, p0, p1, p2, p3, mode, 0)
}

/// Adds the outline of the quadratic Bézier curve `p0`, `p1`, `p2`, flattened
/// into `QUADRATIC_STEPS` segments.
pub fn push_quadratic<S: Scalar>(p0: Point<S>, p1: Point<S>, p2: Point<S>, rasterizer: &mut Rasterizer<S>, mode: PathMode<S>)
    requires
        old(rasterizer).wf(),
    ensures
        final(final(rasterizer).pixels)@ == final(old(rasterizer).pixels)@,
        only_adds_edges(old(rasterizer), final(rasterizer)),
        final(rasterizer).edges@ == spec_add_quadratic(old(rasterizer).edges@, p0, p1, p2, mode),
{
    let mut prev_point = p0;
    let mut step: usize = 1;
    let steps = S::from_usize(QUADRATIC_STEPS);
    let two = S::from_i64(2);
    while step <= QUADRATIC_STEPS
        invariant
            1 <= step <= QUADRATIC_STEPS + 1,
            steps == S::spec_from_usize(QUADRATIC_STEPS),
            two == S::spec_from_i64(2),
            only_adds_edges(old(rasterizer), rasterizer),
            final(rasterizer.pixels)@ == final(old(rasterizer).pixels)@,
            spec_add_quadratic(old(rasterizer).edges@, p0, p1, p2, mode) == spec_add_quadratic_from(
                rasterizer.edges@,
                prev_point,
                p0,
                p1,
                p2,
                mode,
                step as int,
            ),
        decreases QUADRATIC_STEPS + 1 - step,
    {
        let t = S::from_usize(step).over(steps);
        let mt = S::one().minus(t);
        let x = mt.times(mt).times(p0.x).plus(two.times(mt).times(t).times(p1.x)).plus(
            t.times(t).times(p2.x),
        );
        let y = mt.times(mt).times(p0.y).plus(two.times(mt).times(t).times(p1.y)).plus(
            t.times(t).times(p2.y),
        );
        let point = Point { x, y };
        assert(point == spec_quad_point(p0, p1, p2, step as int));
        push_segment(prev_point, point, rasterizer, mode);
        prev_point = point;
        step = step + 1;
    }
}

/// Adds the outline of the cubic Bézier curve `p0` .. `p3`, flattened into
/// `CUBIC_STEPS` segments.
fn push_cubic<S: Scalar>(p0: Point<S>, p1: Point<S>, p2: Point<S>, p3: Point<S>, rasterizer: &mut Rasterizer<S>, mode: PathMode<S>)
    requires
        old(rasterizer).wf(),
    ensures
        final(final(rasterizer).pixels)@ == final(old(rasterizer).pixels)@,
        only_adds_edges(old(rasterizer), final(rasterizer)),
        final(rasterizer).edges@ == spec_add_cubic(old(rasterizer).edges@, p0, p1, p2, p3, mode),
{
    let mut flattener = CubicFlattenIter::new(p0, p1, p2, p3, CUBIC_STEPS);
    let mut prev_point = p0;
    loop
        invariant
            flattener.wf(),
            flattener.p0 == p0 && flattener.p1 == p1 && flattener.p2 == p2 && flattener.p3 == p3,
            flattener.steps == CUBIC_STEPS,
            only_adds_edges(old(rasterizer), rasterizer),
            final(rasterizer.pixels)@ == final(old(rasterizer).pixels)@,
            spec_add_cubic(old(rasterizer).edges@, p0, p1, p2, p3, mode) == spec_add_cubic_from(
                rasterizer.edges@,
                prev_point,
                p0,
                p1,
                p2,
                p3,
                mode,
                flattener.current_step as int,
            ),
        decreases flattener.remaining(),
    {
        match flattener.next() {
            Some(point) => {
                push_segment(prev_point, point, rasterizer, mode);
                prev_point = point;
            },
            None => {
                return;
            },
        }
    }
}

/// `p`, moved by `offset` when `relative`.
pub open spec fn spec_offset<S: Scalar>(p: Point<S>, offset: Point<S>, relative: bool) -> Point<S> {
    if relative {
        Point { x: p.x.spec_plus(offset.x), y: p.y.spec_plus(offset.y) }
    } else {
        p
    }
}

/// The reflection of `control` about `current`: `current + (current - control)`.
pub open spec fn spec_reflect<S: Scalar>(current: Point<S>, control: Point<S>) -> Point<S> {
    Point {
        x: current.x.spec_plus(current.x.spec_minus(control.x)),
        y: current.y.spec_plus(current.y.spec_minus(control.y)),
    }
}

fn offset_if<S: Scalar>(p: Point<S>, offset: Point<S>, relative: bool) -> (r: Point<S>)
    ensures
        r == spec_offset(p, offset, relative),
{
    if relative {
        Point { x: p.x.plus(offset.x), y: p.y.plus(offset.y) }
    } else {
        p
    }
}

fn reflect<S: Scalar>(current: Point<S>, control: Point<S>) -> (r: Point<S>)
    ensures
        r == spec_reflect(current, control),
{
    Point {
        x: current.x.plus(current.x.minus(control.x)),
        y: current.y.plus(current.y.minus(control.y)),
    }
}

/// The coordinate read at `pos` (the next number token's number, 0 where no
/// number is read), with where the lexer stands afterwards.
pub open spec fn spec_coordinate<S: Scalar>(d: Seq<u8>, pos: int) -> (S, int) {
    (number_or_default(spec_next_number(d, pos).0, S::spec_zero()), spec_next_number(d, pos).1)
}

/// One drawing step of path data: the step `step` starting with the number
/// `v`, whose further coordinates are read from `pos` on, taken from the
/// current point, subpath start and last control point, adding to the edge
/// list `es` the outline of what it draws, mapped through `m`. Gives the new
/// current point, subpath start, last control point, edge list, and where the
/// lexer stands afterwards.
pub open spec fn spec_path_step<S: Scalar>(
    d: Seq<u8>,
    pos: int,
    step: PathStep,
    v: S,
    current: Point<S>,
    start: Point<S>,
    control: Point<S>,
    es: Seq<Edge<S>>,
    m: Seq<S>,
    mode: PathMode<S>,
) -> (Point<S>, Point<S>, Point<S>, Seq<Edge<S>>, int) {
    let from = current.spec_transform(m);
    match step {
        PathStep::MoveTo { relative } => {
            let (y, q) = spec_coordinate::<S>(d, pos);
            let target = spec_offset(Point { x: v, y }, current, relative);
            (target, target, target, es, q)
        },
        PathStep::LineTo { relative } => {
            let (y, q) = spec_coordinate::<S>(d, pos);
            let target = spec_offset(Point { x: v, y }, current, relative);
            (target, start, target, spec_add_segment(es, from, target.spec_transform(m), mode), q)
        },
        PathStep::HorizontalTo { relative } => {
            let x = if relative {
                current.x.spec_plus(v)
            } else {
                v
            };
            let target = Point { x, y: current.y };
            (target, start, target, spec_add_segment(es, from, target.spec_transform(m), mode), pos)
        },
        PathStep::VerticalTo { relative } => {
            let y = if relative {
                current.y.spec_plus(v)
            } else {
                v
            };
            let target = Point { x: current.x, y };
            (target, start, target, spec_add_segment(es, from, target.spec_transform(m), mode), pos)
        },
        PathStep::CubicTo { relative } => {
            let (c1y, q1) = spec_coordinate::<S>(d, pos);
            let (c2x, q2) = spec_coordinate::<S>(d, q1);
            let (c2y, q3) = spec_coordinate::<S>(d, q2);
            let (ex, q4) = spec_coordinate::<S>(d, q3);
            let (ey, q5) = spec_coordinate::<S>(d, q4);
            let c1 = spec_offset(Point { x: v, y: c1y }, current, relative);
            let c2 = spec_offset(Point { x: c2x, y: c2y }, current, relative);
            let end = spec_offset(Point { x: ex, y: ey }, current, relative);
            (
                end,
                start,
                c2,
                spec_add_cubic(es, from, c1.spec_transform(m), c2.spec_transform(m), end.spec_transform(m), mode),
                q5,
            )
        },
        PathStep::SmoothCubicTo { relative, reflect } => {
            let (c2y, q1) = spec_coordinate::<S>(d, pos);
            let (ex, q2) = spec_coordinate::<S>(d, q1);
            let (ey, q3) = spec_coordinate::<S>(d, q2);
            let c2 = spec_offset(Point { x: v, y: c2y }, current, relative);
            let end = spec_offset(Point { x: ex, y: ey }, current, relative);
            let c1 = if reflect {
                spec_reflect(current, control)
            } else {
                current
            };
            (
                end,
                start,
                c2,
                spec_add_cubic(es, from, c1.spec_transform(m), c2.spec_transform(m), end.spec_transform(m), mode),
                q3,
            )
        },
        PathStep::QuadTo { relative } => {
            let (c1y, q1) = spec_coordinate::<S>(d, pos);
            let (ex, q2) = spec_coordinate::<S>(d, q1);
            let (ey, q3) = spec_coordinate::<S>(d, q2);
            let c1 = spec_offset(Point { x: v, y: c1y }, current, relative);
            let end = spec_offset(Point { x: ex, y: ey }, current, relative);
            (end, start, c1, spec_add_quadratic(es, from, c1.spec_transform(m), end.spec_transform(m), mode), q3)
        },
        PathStep::SmoothQuadTo { relative, reflect } => {
            let (ey, q1) = spec_coordinate::<S>(d, pos);
            let end = spec_offset(Point { x: v, y: ey }, current, relative);
            let c1 = if reflect {
                spec_reflect(current, control)
            } else {
                current
            };
            (end, start, c1, spec_add_quadratic(es, from, c1.spec_transform(m), end.spec_transform(m), mode), q1)
        },
        PathStep::Skip => (current, start, control, es, pos),
    }
}

/// `p` moved by the point `by`.
pub open spec fn shifted<S: Scalar>(p: Point<S>, by: Point<S>) -> Point<S> {
    Point { x: p.x.spec_plus(by.x), y: p.y.spec_plus(by.y) }
}

/// A relative cubic `c x1 y1 x2 y2 x y` draws what the absolute `C` with the
/// same numbers draws once every one of its three points (both control
/// points and the end point) is moved by the current point: the curve is
/// flattened from the current point through the moved points, the moved end
/// becomes the current point and the moved second control point the one a
/// smooth curve reflects.
pub proof fn lemma_relative_cubic<S: Scalar>(
    d: Seq<u8>,
    pos: int,
    v: S,
    cur: Point<S>,
    start: Point<S>,
    control: Point<S>,
    es: Seq<Edge<S>>,
    m: Seq<S>,
    mode: PathMode<S>,
)
    ensures
        ({
            let abs = spec_path_step(d, pos, PathStep::CubicTo { relative: false }, v, cur, start, control, es, m, mode);
            let rel = spec_path_step(d, pos, PathStep::CubicTo { relative: true }, v, cur, start, control, es, m, mode);
            let c1 = Point { x: v, y: spec_coordinate::<S>(d, pos).0 };
            &&& abs.3 == spec_add_cubic(
                es,
                cur.spec_transform(m),
                c1.spec_transform(m),
                abs.2.spec_transform(m),
                abs.0.spec_transform(m),
                mode,
            )
            &&& rel.0 == shifted(abs.0, cur)
            &&& rel.1 == start && abs.1 == start
            &&& rel.2 == shifted(abs.2, cur)
            &&& rel.3 == spec_add_cubic(
                es,
                cur.spec_transform(m),
                shifted(c1, cur).spec_transform(m),
                shifted(abs.2, cur).spec_transform(m),
                shifted(abs.0, cur).spec_transform(m),
                mode,
            )
            &&& rel.4 == abs.4
        }),
{
}

/// An absolute curve's numbers are its points in order: `C x1 y1 x2 y2 x y`
/// takes the first control point, the second, then the end point;
/// `Q x1 y1 x y` and `S x2 y2 x y` a control point, then the end point; and
/// `T x y` the end point. Whatever numbers are read, the lexer goes on after
/// the last of them.
pub proof fn lemma_curve_numbers_in_order<S: Scalar>(
    d: Seq<u8>,
    pos: int,
    v: S,
    reflect: bool,
    cur: Point<S>,
    start: Point<S>,
    control: Point<S>,
    es: Seq<Edge<S>>,
    m: Seq<S>,
    mode: PathMode<S>,
)
    ensures
        ({
            let (n1, q1) = spec_coordinate::<S>(d, pos);
            let (n2, q2) = spec_coordinate::<S>(d, q1);
            let (n3, q3) = spec_coordinate::<S>(d, q2);
            let (n4, q4) = spec_coordinate::<S>(d, q3);
            let (n5, q5) = spec_coordinate::<S>(d, q4);
            let c = spec_path_step(d, pos, PathStep::CubicTo { relative: false }, v, cur, start, control, es, m, mode);
            let q = spec_path_step(d, pos, PathStep::QuadTo { relative: false }, v, cur, start, control, es, m, mode);
            let s = spec_path_step(d, pos, PathStep::SmoothCubicTo { relative: false, reflect }, v, cur, start, control, es, m, mode);
            let t = spec_path_step(d, pos, PathStep::SmoothQuadTo { relative: false, reflect }, v, cur, start, control, es, m, mode);
            &&& c.2 == Point { x: n2, y: n3 } && c.0 == Point { x: n4, y: n5 } && c.4 == q5
            &&& q.2 == Point { x: v, y: n1 } && q.0 == Point { x: n2, y: n3 } && q.4 == q3
            &&& s.2 == Point { x: v, y: n1 } && s.0 == Point { x: n2, y: n3 } && s.4 == q3
            &&& t.0 == Point { x: v, y: n1 } && t.4 == q1
        }),
{
}

/// Relative smooth curves move their written points by the current point,
/// as the absolute ones with the same numbers would be moved.
pub proof fn lemma_relative_smooth_curves<S: Scalar>(
    d: Seq<u8>,
    pos: int,
    v: S,
    reflect: bool,
    cur: Point<S>,
    start: Point<S>,
    control: Point<S>,
    es: Seq<Edge<S>>,
    m: Seq<S>,
    mode: PathMode<S>,
)
    ensures
        ({
            let s_abs = spec_path_step(d, pos, PathStep::SmoothCubicTo { relative: false, reflect }, v, cur, start, control, es, m, mode);
            let s_rel = spec_path_step(d, pos, PathStep::SmoothCubicTo { relative: true, reflect }, v, cur, start, control, es, m, mode);
            let t_abs = spec_path_step(d, pos, PathStep::SmoothQuadTo { relative: false, reflect }, v, cur, start, control, es, m, mode);
            let t_rel = spec_path_step(d, pos, PathStep::SmoothQuadTo { relative: true, reflect }, v, cur, start, control, es, m, mode);
            &&& s_rel.0 == shifted(s_abs.0, cur) && s_rel.2 == shifted(s_abs.2, cur)
            &&& s_rel.4 == s_abs.4
            &&& t_rel.0 == shifted(t_abs.0, cur) && t_rel.2 == t_abs.2 && t_rel.4 == t_abs.4
        }),
{
}

/// A relative quadratic `q x1 y1 x y` draws what the absolute `Q` with the
/// same numbers draws once its control point and end point are moved by the
/// current point.
pub proof fn lemma_relative_quadratic<S: Scalar>(
    d: Seq<u8>,
    pos: int,
    v: S,
    cur: Point<S>,
    start: Point<S>,
    control: Point<S>,
    es: Seq<Edge<S>>,
    m: Seq<S>,
    mode: PathMode<S>,
)
    ensures
        ({
            let abs = spec_path_step(d, pos, PathStep::QuadTo { relative: false }, v, cur, start, control, es, m, mode);
            let rel = spec_path_step(d, pos, PathStep::QuadTo { relative: true }, v, cur, start, control, es, m, mode);
            &&& abs.2 == Point { x: v, y: spec_coordinate::<S>(d, pos).0 }
            &&& abs.3 == spec_add_quadratic(es, cur.spec_transform(m), abs.2.spec_transform(m), abs.0.spec_transform(m), mode)
            &&& rel.0 == shifted(abs.0, cur)
            &&& rel.2 == shifted(abs.2, cur)
            &&& rel.3 == spec_add_quadratic(
                es,
                cur.spec_transform(m),
                shifted(abs.2, cur).spec_transform(m),
                shifted(abs.0, cur).spec_transform(m),
                mode,
            )
            &&& rel.4 == abs.4
        }),
{
}

/// A relative lineto `l x y` draws the segment from the current point to the
/// absolute `L` target moved by the current point, and ends there.
pub proof fn lemma_relative_lineto<S: Scalar>(
    d: Seq<u8>,
    pos: int,
    v: S,
    cur: Point<S>,
    start: Point<S>,
    control: Point<S>,
    es: Seq<Edge<S>>,
    m: Seq<S>,
    mode: PathMode<S>,
)
    ensures
        ({
            let abs = spec_path_step(d, pos, PathStep::LineTo { relative: false }, v, cur, start, control, es, m, mode);
            let rel = spec_path_step(d, pos, PathStep::LineTo { relative: true }, v, cur, start, control, es, m, mode);
            &&& abs.0 == Point { x: v, y: spec_coordinate::<S>(d, pos).0 }
            &&& abs.3 == spec_add_segment(es, cur.spec_transform(m), abs.0.spec_transform(m), mode)
            &&& rel.0 == shifted(abs.0, cur)
            &&& rel.3 == spec_add_segment(es, cur.spec_transform(m), shifted(abs.0, cur).spec_transform(m), mode)
            &&& rel.4 == abs.4
        }),
{
}

/// A relative horizontal or vertical line adds its number to the current
/// point's x or y; an absolute one sets that coordinate to it; the other
/// coordinate stays, and the segment runs from the current point.
pub proof fn lemma_horizontal_vertical<S: Scalar>(
    d: Seq<u8>,
    pos: int,
    v: S,
    cur: Point<S>,
    start: Point<S>,
    control: Point<S>,
    es: Seq<Edge<S>>,
    m: Seq<S>,
    mode: PathMode<S>,
)
    ensures
        spec_path_step(d, pos, PathStep::HorizontalTo { relative: true }, v, cur, start, control, es, m, mode).0
            == (Point { x: cur.x.spec_plus(v), y: cur.y }),
        spec_path_step(d, pos, PathStep::HorizontalTo { relative: false }, v, cur, start, control, es, m, mode).0
            == (Point { x: v, y: cur.y }),
        spec_path_step(d, pos, PathStep::VerticalTo { relative: true }, v, cur, start, control, es, m, mode).0
            == (Point { x: cur.x, y: cur.y.spec_plus(v) }),
        spec_path_step(d, pos, PathStep::VerticalTo { relative: false }, v, cur, start, control, es, m, mode).0
            == (Point { x: cur.x, y: v }),
        forall|step: PathStep|
            (step is HorizontalTo || step is VerticalTo) ==> #[trigger] spec_path_step(
                d,
                pos,
                step,
                v,
                cur,
                start,
                control,
                es,
                m,
                mode,
            ).3 == spec_add_segment(
                es,
                cur.spec_transform(m),
                spec_path_step(d, pos, step, v, cur, start, control, es, m, mode).0.spec_transform(m),
                mode,
            ),
{
}

/// A smooth curve's first control point is the reflection
/// `current + (current - control)` of the last control point about the
/// current point when it reflects, and the current point otherwise; the
/// curve is then drawn from the current point.
pub proof fn lemma_smooth_curves_reflect<S: Scalar>(
    d: Seq<u8>,
    pos: int,
    v: S,
    relative: bool,
    cur: Point<S>,
    start: Point<S>,
    control: Point<S>,
    es: Seq<Edge<S>>,
    m: Seq<S>,
    mode: PathMode<S>,
)
    ensures
        ({
            let mirrored = Point {
                x: cur.x.spec_plus(cur.x.spec_minus(control.x)),
                y: cur.y.spec_plus(cur.y.spec_minus(control.y)),
            };
            let s = spec_path_step(d, pos, PathStep::SmoothCubicTo { relative, reflect: true }, v, cur, start, control, es, m, mode);
            let s0 = spec_path_step(d, pos, PathStep::SmoothCubicTo { relative, reflect: false }, v, cur, start, control, es, m, mode);
            let t = spec_path_step(d, pos, PathStep::SmoothQuadTo { relative, reflect: true }, v, cur, start, control, es, m, mode);
            let t0 = spec_path_step(d, pos, PathStep::SmoothQuadTo { relative, reflect: false }, v, cur, start, control, es, m, mode);
            &&& s.3 == spec_add_cubic(
                es,
                cur.spec_transform(m),
                mirrored.spec_transform(m),
                s.2.spec_transform(m),
                s.0.spec_transform(m),
                mode,
            )
            &&& s0.3 == spec_add_cubic(
                es,
                cur.spec_transform(m),
                cur.spec_transform(m),
                s0.2.spec_transform(m),
                s0.0.spec_transform(m),
                mode,
            )
            &&& t.2 == mirrored && t0.2 == cur
            &&& t.3 == spec_add_quadratic(es, cur.spec_transform(m), mirrored.spec_transform(m), t.0.spec_transform(m), mode)
            &&& t0.3 == spec_add_quadratic(es, cur.spec_transform(m), cur.spec_transform(m), t0.0.spec_transform(m), mode)
        }),
{
}

/// A coordinate that is missing counts as 0.
pub proof fn lemma_missing_coordinate_is_zero<S: Scalar>(d: Seq<u8>, pos: int)
    ensures
        spec_next_number(d, pos).0 is None ==> spec_coordinate::<S>(d, pos).0 == S::spec_zero(),
        parsed_number::<S>(spec_next_number(d, pos).0) matches Some(v) ==> spec_coordinate::<S>(d, pos).0 == v,
{
}

/// A moveto draws nothing: its point (moved by the current point when
/// relative) becomes the current point, the subpath start and the control
/// point.
pub proof fn lemma_moveto<S: Scalar>(
    d: Seq<u8>,
    pos: int,
    v: S,
    relative: bool,
    cur: Point<S>,
    start: Point<S>,
    control: Point<S>,
    es: Seq<Edge<S>>,
    m: Seq<S>,
    mode: PathMode<S>,
)
    ensures
        ({
            let r = spec_path_step(d, pos, PathStep::MoveTo { relative }, v, cur, start, control, es, m, mode);
            let p = Point { x: v, y: spec_coordinate::<S>(d, pos).0 };
            let target = if relative {
                shifted(p, cur)
            } else {
                p
            };
            &&& r.0 == target && r.1 == target && r.2 == target
            &&& r.3 == es
        }),
{
}

/// Reading coordinates never moves the lexer back, nor past the end.
pub proof fn lemma_path_step_bounds<S: Scalar>(
    d: Seq<u8>,
    pos: int,
    step: PathStep,
    v: S,
    current: Point<S>,
    start: Point<S>,
    control: Point<S>,
    es: Seq<Edge<S>>,
    m: Seq<S>,
    mode: PathMode<S>,
)
    requires
        0 <= pos <= d.len(),
    ensures
        pos <= spec_path_step(d, pos, step, v, current, start, control, es, m, mode).4 <= d.len(),
{
    lemma_next_number_bounds(d, pos);
    let q1 = spec_next_number(d, pos).1;
    lemma_next_number_bounds(d, q1);
    let q2 = spec_next_number(d, q1).1;
    lemma_next_number_bounds(d, q2);
    let q3 = spec_next_number(d, q2).1;
    lemma_next_number_bounds(d, q3);
    let q4 = spec_next_number(d, q3).1;
    lemma_next_number_bounds(d, q4);
}

/// The edge list after adding the outline of the path data from `pos` on,
/// with the given current point, subpath start, last control point and
/// command state: each command letter becomes the active command (a
/// close-path draws back to the subpath start, which becomes the current
/// point); each number starts the step that `spec_on_number` decides; reading
/// ends where no token is read (the end of the data, or a number that does not
/// parse).
pub open spec fn spec_path_edges<S: Scalar>(
    d: Seq<u8>,
    pos: int,
    current: Point<S>,
    start: Point<S>,
    control: Point<S>,
    active: u8,
    last: u8,
    es: Seq<Edge<S>>,
    m: Seq<S>,
    mode: PathMode<S>,
) -> Seq<Edge<S>>
    decreases d.len() - pos,
{
    if pos < 0 || pos > d.len() {
        es
    } else {
        let p1 = spec_next_lexeme(d, pos).1;
        proof {
            lemma_next_lexeme_advances(d, pos);
        }
        match spec_next_token::<S>(d, pos) {
            None => es,
            Some(PathToken::Command(c)) => {
                if is_close(c) {
                    spec_path_edges(
                        d,
                        p1,
                        start,
                        start,
                        start,
                        c,
                        CMD_Z,
                        spec_add_segment(es, current.spec_transform(m), start.spec_transform(m), mode),
                        m,
                        mode,
                    )
                } else {
                    spec_path_edges(d, p1, current, start, control, c, last, es, m, mode)
                }
            },
            Some(PathToken::Number(v)) => {
                let (step, active2, last2) = spec_on_number(active, last);
                let (cur2, start2, ctrl2, es2, q) = spec_path_step(
                    d,
                    p1,
                    step,
                    v,
                    current,
                    start,
                    control,
                    es,
                    m,
                    mode,
                );
                proof {
                    lemma_path_step_bounds(d, p1, step, v, current, start, control, es, m, mode);
                }
                spec_path_edges(d, q, cur2, start2, ctrl2, active2, last2, es2, m, mode)
            },
        }
    }
}

/// A close-path command draws the segment from the current point back to
/// the subpath start, which becomes the current point and the control point;
/// any other command letter only becomes the active command.
pub proof fn lemma_close_path<S: Scalar>(
    d: Seq<u8>,
    pos: int,
    current: Point<S>,
    start: Point<S>,
    control: Point<S>,
    active: u8,
    last: u8,
    es: Seq<Edge<S>>,
    m: Seq<S>,
    mode: PathMode<S>,
)
    requires
        0 <= pos <= d.len(),
        spec_next_token::<S>(d, pos) matches Some(PathToken::Command(c)),
    ensures
        ({
            let c = spec_next_token::<S>(d, pos)->Some_0->Command_0;
            let p1 = spec_next_lexeme(d, pos).1;
            &&& is_close(c) ==> spec_path_edges(d, pos, current, start, control, active, last, es, m, mode)
                == spec_path_edges(
                d,
                p1,
                start,
                start,
                start,
                c,
                CMD_Z,
                spec_add_segment(es, current.spec_transform(m), start.spec_transform(m), mode),
                m,
                mode,
            )
            &&& !is_close(c) ==> spec_path_edges(d, pos, current, start, control, active, last, es, m, mode)
                == spec_path_edges(d, p1, current, start, control, c, last, es, m, mode)
        }),
{
}

/// The edge list after adding the outline of the path data `d`, mapped through
/// `m`: read from the start, at the origin, with numbers first read as a moveto.
pub open spec fn spec_path_outline<S: Scalar>(
    d: Seq<u8>,
    m: Seq<S>,
    mode: PathMode<S>,
    es: Seq<Edge<S>>,
) -> Seq<Edge<S>> {
    let origin = Point { x: S::spec_zero(), y: S::spec_zero() };
    spec_path_edges(d, 0, origin, origin, origin, CMD_M, CMD_M, es, m, mode)
}

/// Adds the outline of the path data `d_bytes`, mapped through
/// `active_matrix`, for filling or stroking. The path commands `M L H V C S
/// Q T Z` (and their relative lower-case forms) are understood as the
/// command state in `PathCommandState` decides; curves are flattened, and a
/// number missing where a command expects one counts as 0. Reading stops at
/// the end of the data or at a number that does not parse.
pub fn process_path<S: Scalar>(d_bytes: &[u8], active_matrix: &[S; 6], rasterizer: &mut Rasterizer<S>, mode: PathMode<S>)
    requires
        old(rasterizer).wf(),
    ensures
        final(final(rasterizer).pixels)@ == final(old(rasterizer).pixels)@,
        only_adds_edges(old(rasterizer), final(rasterizer)),
        final(rasterizer).edges@ == spec_path_outline(d_bytes@, active_matrix@, mode, old(rasterizer).edges@),
{
    let mut parser = PathParser::new(d_bytes);
    let origin = Point { x: S::zero(), y: S::zero() };
    let mut current_pos = origin;
    let mut subpath_start = origin;
    let mut last_control_point = origin;
    let mut commands = PathCommandState::new();
    let ghost d = d_bytes@;
    let ghost m = active_matrix@;

    loop
        invariant
            parser.wf(),
            parser.data@ == d,
            d == d_bytes@,
            m == active_matrix@,
            only_adds_edges(old(rasterizer), rasterizer),
            final(rasterizer.pixels)@ == final(old(rasterizer).pixels)@,
            spec_path_edges(
                d,
                parser.pos as int,
                current_pos,
                subpath_start,
                last_control_point,
                commands.active_cmd,
                commands.last_curve_cmd,
                rasterizer.edges@,
                m,
                mode,
            ) == spec_path_outline(d, m, mode, old(rasterizer).edges@),
        decreases d.len() - parser.pos,
    {
        let ghost pos_before = parser.pos as int;
        let ghost edges_before = rasterizer.edges@;
        let ghost cur_before = current_pos;
        let ghost start_before = subpath_start;
        let ghost ctrl_before = last_control_point;
        let ghost active_before = commands.active_cmd;
        let ghost last_before = commands.last_curve_cmd;
        let token = parser.next_token::<S>();
        match token {
            None => {
                return;
            },
            Some(PathToken::Command(c)) => {
                if commands.on_command(c) {
                    let t_start = current_pos.transform(active_matrix);
                    let t_end = subpath_start.transform(active_matrix);
                    push_segment(t_start, t_end, rasterizer, mode);
                    current_pos = subpath_start;
                    last_control_point = current_pos;
                }
            },
            Some(PathToken::Number(first_num)) => {
                let step = commands.on_number();
                let ghost p1 = parser.pos as int;
                match step {
                    PathStep::MoveTo { relative } => {
                        let n2 = number_or_zero(parser.next_number::<S>());
                        let target = offset_if(Point { x: first_num, y: n2 }, current_pos, relative);
                        subpath_start = target;
                        current_pos = target;
                        last_control_point = current_pos;
                    },
                    PathStep::LineTo { relative } => {
                        let n2 = number_or_zero(parser.next_number::<S>());
                        let target = offset_if(Point { x: first_num, y: n2 }, current_pos, relative);
                        let t_start = current_pos.transform(active_matrix);
                        let t_end = target.transform(active_matrix);
                        push_segment(t_start, t_end, rasterizer, mode);
                        current_pos = target;
                        last_control_point = current_pos;
                    },
                    PathStep::HorizontalTo { relative } => {
                        let x = if relative {
                            current_pos.x.plus(first_num)
                        } else {
                            first_num
                        };
                        let target = Point { x, y: current_pos.y };
                        let t_start = current_pos.transform(active_matrix);
                        let t_end = target.transform(active_matrix);
                        push_segment(t_start, t_end, rasterizer, mode);
                        current_pos = target;
                        last_control_point = current_pos;
                    },
                    PathStep::VerticalTo { relative } => {
                        let y = if relative {
                            current_pos.y.plus(first_num)
                        } else {
                            first_num
                        };
                        let target = Point { x: current_pos.x, y };
                        let t_start = current_pos.transform(active_matrix);
                        let t_end = target.transform(active_matrix);
                        push_segment(t_start, t_end, rasterizer, mode);
                        current_pos = target;
                        last_control_point = current_pos;
                    },
                    PathStep::CubicTo { relative } => {
                        let c1y = number_or_zero(parser.next_number::<S>());
                        let c2x = number_or_zero(parser.next_number::<S>());
                        let c2y = number_or_zero(parser.next_number::<S>());
                        let ex = number_or_zero(parser.next_number::<S>());
                        let ey = number_or_zero(parser.next_number::<S>());
                        let c1 = offset_if(Point { x: first_num, y: c1y }, current_pos, relative);
                        let c2 = offset_if(Point { x: c2x, y: c2y }, current_pos, relative);
                        let end = offset_if(Point { x: ex, y: ey }, current_pos, relative);
                        push_cubic(
                            current_pos.transform(active_matrix),
                            c1.transform(active_matrix),
                            c2.transform(active_matrix),
                            end.transform(active_matrix),
                            rasterizer,
                            mode,
                        );
                        current_pos = end;
                        last_control_point = c2;
                    },
                    PathStep::SmoothCubicTo { relative, reflect: mirrored } => {
                        let c2y = number_or_zero(parser.next_number::<S>());
                        let ex = number_or_zero(parser.next_number::<S>());
                        let ey = number_or_zero(parser.next_number::<S>());
                        let c2 = offset_if(Point { x: first_num, y: c2y }, current_pos, relative);
                        let end = offset_if(Point { x: ex, y: ey }, current_pos, relative);
                        let c1 = if mirrored {
                            reflect(current_pos, last_control_point)
                        } else {
                            current_pos
                        };
                        push_cubic(
                            current_pos.transform(active_matrix),
                            c1.transform(active_matrix),
                            c2.transform(active_matrix),
                            end.transform(active_matrix),
                            rasterizer,
                            mode,
                        );
                        current_pos = end;
                        last_control_point = c2;
                    },
                    PathStep::QuadTo { relative } => {
                        let c1y = number_or_zero(parser.next_number::<S>());
                        let ex = number_or_zero(parser.next_number::<S>());
                        let ey = number_or_zero(parser.next_number::<S>());
                        let c1 = offset_if(Point { x: first_num, y: c1y }, current_pos, relative);
                        let end = offset_if(Point { x: ex, y: ey }, current_pos, relative);
                        push_quadratic(
                            current_pos.transform(active_matrix),
                            c1.transform(active_matrix),
                            end.transform(active_matrix),
                            rasterizer,
                            mode,
                        );
                        current_pos = end;
                        last_control_point = c1;
                    },
                    PathStep::SmoothQuadTo { relative, reflect: mirrored } => {
                        let ey = number_or_zero(parser.next_number::<S>());
                        let end = offset_if(Point { x: first_num, y: ey }, current_pos, relative);
                        let c1 = if mirrored {
                            reflect(current_pos, last_control_point)
                        } else {
                            current_pos
                        };
                        push_quadratic(
                            current_pos.transform(active_matrix),
                            c1.transform(active_matrix),
                            end.transform(active_matrix),
                            rasterizer,
                            mode,
                        );
                        current_pos = end;
                        last_control_point = c1;
                    },
                    PathStep::Skip => {},
                }
                proof {
                    let r = spec_path_step(
                        d,
                        p1,
                        step,
                        first_num,
                        cur_before,
                        start_before,
                        ctrl_before,
                        edges_before,
                        m,
                        mode,
                    );
                    assert(r.0 == current_pos && r.1 == subpath_start && r.2 == last_control_point);
                    assert(r.3 == rasterizer.edges@);
                    assert(r.4 == parser.pos);
                }
            },
        }
        assert(pos_before < parser.pos);
    }
}

} // verus!
