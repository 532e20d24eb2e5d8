//! Rendering a whole SVG document: the tokenizer's events drive the state
//! stack, the style properties, the view box and the drawing of paths.
use vstd::prelude::*;
use crate::color::{lemma_parsed_colors_are_opaque, parse_color, spec_parse_color, OPAQUE_BLACK};
use crate::keywords::{
    is_evenodd, is_fill, is_fill_rule, is_opacity, is_stroke, is_stroke_width, is_transform,
    kw_evenodd, kw_fill, kw_fill_rule, kw_opacity, kw_stroke, kw_stroke_width, kw_transform,
};
use crate::path::PathParser;
use crate::rasteriser::{
    process_path, spec_coordinate, spec_path_outline, PathMode, Rasterizer, RenderError, MAX_AET,
};
use crate::sweep::spec_rasterize;
use crate::scalar::{number_or_zero, Scalar};
use crate::raster::{only_opaque_writes, only_painted_with, unchanged_from};
use crate::state::{
    paints_opaque, spec_initial_state, spec_pop, spec_push, FillRule, State, StateStack, MAX_DEPTH,
};
use crate::svg::{actions_view, spec_on_event, RenderAction, SpecRenderAction, SvgWalker, WalkerState};
use crate::transform::{
    lemma_matrix_of, matrix_of, multiply_transforms, parse_transform, spec_multiply,
    spec_parse_transform,
};
use crate::xml::{
    document_tokenizes, lemma_next_advances, spec_next, SpecXmlEvent, XmlEvent, XmlParser,
};

verus! {

/// The state after the style property `key: val`: `fill` and `stroke` set a
/// colour (see `spec_parse_color`), `fill-rule` chooses even-odd for
/// `evenodd` and non-zero for anything else; `stroke-width` and `opacity` take
/// the value's number (and stay as they were where it is not one);
/// `transform` becomes the state's transform times the value's matrix (see
/// `spec_parse_transform`); anything else changes nothing.
pub open spec fn spec_style_apply<S: Scalar>(before: State<S>, key: Seq<u8>, val: Seq<u8>) -> State<S> {
    if key == kw_fill() {
        State { fill: spec_parse_color(val), ..before }
    } else if key == kw_fill_rule() {
        State {
            fill_rule: if val == kw_evenodd() {
                FillRule::EvenOdd
            } else {
                FillRule::NonZero
            },
            ..before
        }
    } else if key == kw_stroke() {
        State { stroke: spec_parse_color(val), ..before }
    } else if key == kw_stroke_width() {
        State {
            stroke_width: match S::spec_parse(val) {
                Some(w) => w,
                None => before.stroke_width,
            },
            ..before
        }
    } else if key == kw_opacity() {
        State {
            opacity: match S::spec_parse(val) {
                Some(o) => o,
                None => before.opacity,
            },
            ..before
        }
    } else if key == kw_transform() {
        State {
            transform: matrix_of(spec_multiply(before.transform@, spec_parse_transform::<S>(val))),
            ..before
        }
    } else {
        before
    }
}

/// Each style property changes its own field only: `fill` and `stroke` take
/// the value's colour, `fill-rule` is even-odd exactly for `evenodd`,
/// `stroke-width` and `opacity` take the value's number when it is one, and
/// `transform` applies the value's matrix first and the state's transform
/// after it.
pub proof fn lemma_style_fields<S: Scalar>(st: State<S>, key: Seq<u8>, val: Seq<u8>)
    ensures
        ({
            let after = spec_style_apply(st, key, val);
            &&& key == kw_fill() ==> after == State { fill: spec_parse_color(val), ..st }
            &&& key == kw_stroke() ==> after == State { stroke: spec_parse_color(val), ..st }
            &&& key == kw_fill_rule() ==> (after.fill_rule == FillRule::EvenOdd <==> val
                == kw_evenodd()) && after == State { fill_rule: after.fill_rule, ..st }
            &&& key == kw_stroke_width() && S::spec_parse(val) is Some ==> after == State {
                stroke_width: S::spec_parse(val)->Some_0,
                ..st
            }
            &&& key == kw_opacity() && S::spec_parse(val) is Some ==> after == State {
                opacity: S::spec_parse(val)->Some_0,
                ..st
            }
            &&& (key == kw_stroke_width() || key == kw_opacity()) && S::spec_parse(val) is None
                ==> after == st
            &&& key == kw_transform() ==> after.transform@ == spec_multiply(
                st.transform@,
                spec_parse_transform::<S>(val),
            )
        }),
{
    assert(kw_fill().len() == 4 && kw_fill_rule().len() == 9 && kw_stroke().len() == 6);
    assert(kw_stroke_width().len() == 12 && kw_opacity().len() == 7 && kw_transform().len() == 9);
    assert(kw_fill_rule()[0] != kw_transform()[0]);
    if key == kw_transform() {
        let t = spec_multiply(st.transform@, spec_parse_transform::<S>(val));
        let arr = [t[0], t[1], t[2], t[3], t[4], t[5]];
        assert(arr@ =~= t);
        lemma_matrix_of(arr);
    }
}

/// The stack after a change of its current state only.
pub open spec fn top_replaced<S>(before: Seq<State<S>>, after: Seq<State<S>>) -> bool {
    &&& after.len() == before.len()
    &&& before.len() >= 1
    &&& after.drop_last() == before.drop_last()
}

/// The number that a style value such as `stroke-width` or `opacity` gives,
/// or `None` when it is not a number.
pub fn parse_f32<S: Scalar>(val: &[u8]) -> (r: Option<S>)
    ensures
        r == S::spec_parse(val@),
{
    S::parse(val)
}

/// Applies the style property `key: val` to the current state (see `spec_style_apply`).
pub fn apply_style_attribute<S: Scalar>(key: &[u8], val: &[u8], state_stack: &mut StateStack<State<S>>)
    requires
        old(state_stack).wf(),
    ensures
        final(state_stack).wf(),
        final(state_stack)@ == old(state_stack)@.drop_last().push(
            spec_style_apply(old(state_stack)@.last(), key@, val@),
        ),
{
    proof {
        state_stack.lemma_depth();
    }
    if is_fill(key) {
        state_stack.current_mut().fill = parse_color(val);
    } else if is_fill_rule(key) {
        state_stack.current_mut().fill_rule = if is_evenodd(val) {
            FillRule::EvenOdd
        } else {
            FillRule::NonZero
        };
    } else if is_stroke(key) {
        state_stack.current_mut().stroke = parse_color(val);
    } else if is_stroke_width(key) {
        if let Some(w) = parse_f32::<S>(val) {
            state_stack.current_mut().stroke_width = w;
        }
    } else if is_opacity(key) {
        if let Some(o) = parse_f32::<S>(val) {
            state_stack.current_mut().opacity = o;
        }
    } else if is_transform(key) {
        let local_transform: [S; 6] = parse_transform(val);
        let parent_transform = state_stack.current().transform;
        let t = multiply_transforms(&parent_transform, &local_transform);
        proof {
            lemma_matrix_of(t);
        }
        state_stack.current_mut().transform = t;
    }
    proof {
        assert(final(state_stack)@ =~= old(state_stack)@.drop_last().push(
            spec_style_apply(old(state_stack)@.last(), key@, val@),
        ));
    }
}

/// The matrix of an `svg` element's `viewBox="min-x min-y width height"`
/// (four coordinates, 0 where one is missing) for a `width` by `height`
/// image: the box scaled onto the image, `[sx, 0, 0, sy, -min_x sx, -min_y sy]`
/// with `sx = width / box width`, `sy = height / box height`; `None` for a box
/// whose width or height is not above the scalar epsilon.
pub open spec fn spec_view_box<S: Scalar>(val: Seq<u8>, width: usize, height: usize) -> Option<Seq<S>> {
    let (min_x, q1) = spec_coordinate::<S>(val, 0);
    let (min_y, q2) = spec_coordinate::<S>(val, q1);
    let (view_width, q3) = spec_coordinate::<S>(val, q2);
    let (view_height, q4) = spec_coordinate::<S>(val, q3);
    if view_width.spec_less_or_equal(S::spec_epsilon()) || view_height.spec_less_or_equal(
        S::spec_epsilon(),
    ) {
        None
    } else {
        let sx = S::spec_from_usize(width).spec_over(view_width);
        let sy = S::spec_from_usize(height).spec_over(view_height);
        Some(
            seq![
                sx,
                S::spec_zero(),
                S::spec_zero(),
                sy,
                min_x.spec_negate().spec_times(sx),
                min_y.spec_negate().spec_times(sy),
            ],
        )
    }
}

/// A view box `min-x min-y w h` is scaled onto the `width` by `height`
/// image: x by the image width over the box width, y by the image height over
/// the box height, and moved so that `(min-x, min-y)` goes to the origin; it
/// is rejected exactly when its width or height is not above the epsilon.
pub proof fn lemma_view_box_fits_image<S: Scalar>(val: Seq<u8>, width: usize, height: usize)
    ensures
        ({
            let (min_x, q1) = spec_coordinate::<S>(val, 0);
            let (min_y, q2) = spec_coordinate::<S>(val, q1);
            let (w, q3) = spec_coordinate::<S>(val, q2);
            let h = spec_coordinate::<S>(val, q3).0;
            let eps = S::spec_epsilon();
            &&& spec_view_box::<S>(val, width, height) is None <==> (w.spec_less_or_equal(eps)
                || h.spec_less_or_equal(eps))
            &&& spec_view_box::<S>(val, width, height) matches Some(vb) ==> {
                &&& vb.len() == 6
                &&& vb[0] == S::spec_from_usize(width).spec_over(w)
                &&& vb[3] == S::spec_from_usize(height).spec_over(h)
                &&& vb[1] == S::spec_zero() && vb[2] == S::spec_zero()
                &&& vb[4] == min_x.spec_negate().spec_times(vb[0])
                &&& vb[5] == min_y.spec_negate().spec_times(vb[3])
            }
        }),
{
}

/// The state after an `svg` element's `viewBox` (see `spec_view_box`): its
/// transform times the view box's matrix, or unchanged for a rejected box.
pub open spec fn spec_view_box_apply<S: Scalar>(st: State<S>, val: Seq<u8>, width: usize, height: usize) -> State<S> {
    match spec_view_box::<S>(val, width, height) {
        Some(vb) => State { transform: matrix_of(spec_multiply(st.transform@, vb)), ..st },
        None => st,
    }
}

/// An accepted view box is applied first to a point and the state's
/// transform after it; only the transform changes; a rejected box changes
/// nothing.
pub proof fn lemma_view_box_applies_first<S: Scalar>(st: State<S>, val: Seq<u8>, width: usize, height: usize)
    ensures
        ({
            let after = spec_view_box_apply(st, val, width, height);
            &&& spec_view_box::<S>(val, width, height) is None ==> after == st
            &&& spec_view_box::<S>(val, width, height) matches Some(vb) ==> after == State {
                transform: after.transform,
                ..st
            } && after.transform@ == spec_multiply(st.transform@, vb)
        }),
{
    if let Some(vb) = spec_view_box::<S>(val, width, height) {
        let t = spec_multiply(st.transform@, vb);
        let arr = [t[0], t[1], t[2], t[3], t[4], t[5]];
        assert(arr@ =~= t);
        lemma_matrix_of(arr);
    }
}

/// Applies an `svg` element's `viewBox="min-x min-y width height"` to the
/// current state: the box is scaled onto the `width` by `height` image. A box
/// whose width or height is not above the scalar epsilon is ignored. Only the
/// current state's transform changes.
pub fn apply_view_box_attribute<S: Scalar>(val: &[u8], width: usize, height: usize, state_stack: &mut StateStack<State<S>>)
    requires
        old(state_stack).wf(),
    ensures
        final(state_stack).wf(),
        final(state_stack)@ == old(state_stack)@.drop_last().push(
            spec_view_box_apply(old(state_stack)@.last(), val@, width, height),
        ),
{
    proof {
        state_stack.lemma_depth();
    }
    let mut parser = PathParser::new(val);
    let min_x = number_or_zero(parser.next_number::<S>());
    let min_y = number_or_zero(parser.next_number::<S>());
    let view_width = number_or_zero(parser.next_number::<S>());
    let view_height = number_or_zero(parser.next_number::<S>());

    if view_width.less_or_equal(S::epsilon()) || view_height.less_or_equal(S::epsilon()) {
        assert(final(state_stack)@ =~= old(state_stack)@.drop_last().push(
            spec_view_box_apply(old(state_stack)@.last(), val@, width, height),
        ));
        return;
    }
    let sx = S::from_usize(width).over(view_width);
    let sy = S::from_usize(height).over(view_height);
    let view_box_transform = [
        sx,
        S::zero(),
        S::zero(),
        sy,
        min_x.negate().times(sx),
        min_y.negate().times(sy),
    ];
    assert(spec_view_box::<S>(val@, width, height) == Some(view_box_transform@));
    let parent_transform = state_stack.current().transform;
    let t = multiply_transforms(&parent_transform, &view_box_transform);
    proof {
        lemma_matrix_of(t);
    }
    state_stack.current_mut().transform = t;
    proof {
        assert(final(state_stack)@ =~= old(state_stack)@.drop_last().push(
            spec_view_box_apply(old(state_stack)@.last(), val@, width, height),
        ));
    }
}

/// The active table and pixels after drawing the path data `d` with the
/// state `st` into a `width` by `height` image, or why drawing fails (see
/// `spec_rasterize`): filled with the fill colour and rule when there is a
/// fill; then, when there is a stroke and the stroke width is above 0,
/// stroked under the non-zero rule with the stroke colour, the width scaled by
/// the transform's x scale factor `sqrt(a a + b b)`.
#[verifier::opaque]
pub open spec fn spec_draw_path<S: Scalar>(
    d: Seq<u8>,
    st: State<S>,
    aet: Seq<usize>,
    pixels: Seq<u32>,
    width: usize,
    height: usize,
) -> Result<(Seq<usize>, Seq<u32>), RenderError> {
    let m = st.transform@;
    let filled = match st.fill {
        Some(c) => match spec_rasterize(
            spec_path_outline(d, m, PathMode::Fill, Seq::empty()),
            aet,
            pixels,
            width,
            height,
            st.fill_rule,
            c,
        ) {
            Ok(end) => Ok((end.aet, end.pixels)),
            Err(e) => Err(e),
        },
        None => Ok((aet, pixels)),
    };
    match filled {
        Err(e) => Err(e),
        Ok((aet1, pixels1)) => match st.stroke {
            Some(c) => if S::spec_zero().spec_less_than(st.stroke_width) {
                let scale = m[0].spec_times(m[0]).spec_plus(m[1].spec_times(m[1])).spec_sqrt();
                match spec_rasterize(
                    spec_path_outline(d, m, PathMode::Stroke(st.stroke_width.spec_times(scale)), Seq::empty()),
                    aet1,
                    pixels1,
                    width,
                    height,
                    FillRule::NonZero,
                    c,
                ) {
                    Ok(end) => Ok((end.aet, end.pixels)),
                    Err(e) => Err(e),
                }
            } else {
                Ok((aet1, pixels1))
            },
            None => Ok((aet1, pixels1)),
        },
    }
}

/// The length of the vector `(x, y)`: `sqrt(x x + y y)`.
pub open spec fn vector_length<S: Scalar>(x: S, y: S) -> S {
    x.spec_times(x).spec_plus(y.spec_times(y)).spec_sqrt()
}

/// A stroke is drawn on screen with its width scaled by how much the
/// transform stretches the x axis: the length of the image `(a, b)` of the
/// unit vector `(1, 0)`, which grows linearly with the transform's scale.
/// The outline stroked is the path's, under the non-zero rule, in the stroke
/// colour.
pub proof fn lemma_stroke_width_on_screen<S: Scalar>(
    d: Seq<u8>,
    st: State<S>,
    aet: Seq<usize>,
    pixels: Seq<u32>,
    width: usize,
    height: usize,
)
    requires
        st.fill is None,
        st.stroke is Some,
        S::spec_zero().spec_less_than(st.stroke_width),
    ensures
        ({
            let m = st.transform@;
            let screen_width = st.stroke_width.spec_times(vector_length(m[0], m[1]));
            spec_draw_path(d, st, aet, pixels, width, height) == match spec_rasterize(
                spec_path_outline(d, m, PathMode::Stroke(screen_width), Seq::empty()),
                aet,
                pixels,
                width,
                height,
                FillRule::NonZero,
                st.stroke->0,
            ) {
                Ok(end) => Ok((end.aet, end.pixels)),
                Err(e) => Err(e),
            }
        }),
{
    reveal(spec_draw_path);
}

/// A filled path is rasterized from its fill outline (under the state's
/// transform) with the state's fill rule and fill colour; a stroke, if any,
/// is drawn after it on the filled pixels; without fill and stroke nothing is
/// drawn.
pub proof fn lemma_fill_then_stroke<S: Scalar>(
    d: Seq<u8>,
    st: State<S>,
    aet: Seq<usize>,
    pixels: Seq<u32>,
    width: usize,
    height: usize,
)
    ensures
        ({
            let m = st.transform@;
            let filled = spec_rasterize(
                spec_path_outline(d, m, PathMode::Fill, Seq::empty()),
                aet,
                pixels,
                width,
                height,
                st.fill_rule,
                st.fill->0,
            );
            &&& st.fill is Some && st.stroke is None ==> spec_draw_path(d, st, aet, pixels, width, height)
                == match filled {
                Ok(end) => Ok((end.aet, end.pixels)),
                Err(e) => Err(e),
            }
            &&& st.fill is Some && filled is Err ==> spec_draw_path(d, st, aet, pixels, width, height)
                == Err::<(Seq<usize>, Seq<u32>), RenderError>(filled->Err_0)
            &&& st.fill is Some && st.stroke is Some && filled is Ok ==> spec_draw_path(
                d,
                st,
                aet,
                pixels,
                width,
                height,
            ) == spec_draw_path(d, State { fill: None, ..st }, filled->Ok_0.aet, filled->Ok_0.pixels, width, height)
            &&& st.fill is None && st.stroke is None ==> spec_draw_path(d, st, aet, pixels, width, height)
                == Ok::<(Seq<usize>, Seq<u32>), RenderError>((aet, pixels))
        }),
{
    reveal(spec_draw_path);
}

/// Fills and strokes the path `d` with the current state, as
/// `spec_draw_path` describes.
fn draw_path<S: Scalar>(d: &[u8], current_state: State<S>, rasterizer: &mut Rasterizer<S>) -> (r: Result<(), RenderError>)
    requires
        old(rasterizer).wf(),
        old(rasterizer).edges@.len() == 0,
        old(rasterizer).aet_count == 0,
        paints_opaque(current_state),
    ensures
        match spec_draw_path(
            d@,
            current_state,
            old(rasterizer).aet@,
            old(rasterizer).pixels@,
            old(rasterizer).width,
            old(rasterizer).height,
        ) {
            Ok((a, p)) => r is Ok && final(rasterizer).pixels@ == p && final(rasterizer).aet@ == a,
            Err(e) => r == Err::<(), RenderError>(e),
        },
        final(rasterizer).edges@.len() == 0,
        final(rasterizer).aet_count == 0,
        final(rasterizer).wf(),
        final(final(rasterizer).pixels)@ == final(old(rasterizer).pixels)@,
        only_opaque_writes(old(rasterizer).pixels@, final(rasterizer).pixels@),
        unchanged_from(old(rasterizer).pixels@, final(rasterizer).pixels@, old(rasterizer).width * old(rasterizer).height),
        final(rasterizer).pixels@.len() == old(rasterizer).pixels@.len(),
        final(rasterizer).width == old(rasterizer).width,
        final(rasterizer).height == old(rasterizer).height,
        r != Err::<(), RenderError>(RenderError::MalformedAttribute),
        painted_with_state(old(rasterizer).pixels@, final(rasterizer).pixels@, current_state),
{
    reveal(spec_draw_path);
    let ghost pix0 = rasterizer.pixels@;
    let ghost m = current_state.transform@;
    let ghost w = rasterizer.width;
    let ghost ht = rasterizer.height;
    let ghost filled: Result<(Seq<usize>, Seq<u32>), RenderError> = Ok((rasterizer.aet@, rasterizer.pixels@));
    assert(rasterizer.edges@ =~= Seq::empty());
    if let Some(fill_color) = current_state.fill {
        process_path(d, &current_state.transform, rasterizer, PathMode::Fill);
        let ghost before = rasterizer.pixels@;
        let r = rasterizer.rasterize(fill_color, current_state.fill_rule);
        proof {
            lemma_opaque_writes_step(pix0, before, rasterizer.pixels@, fill_color);
            lemma_state_colors_step(pix0, before, rasterizer.pixels@, fill_color, current_state);
            filled = match spec_rasterize(
                spec_path_outline(d@, m, PathMode::Fill, Seq::empty()),
                old(rasterizer).aet@,
                pix0,
                w,
                ht,
                current_state.fill_rule,
                fill_color,
            ) {
                Ok(end) => Ok((end.aet, end.pixels)),
                Err(e) => Err(e),
            };
        }
        if r.is_err() {
            return r;
        }
    }
    assert(filled == Ok::<(Seq<usize>, Seq<u32>), RenderError>((rasterizer.aet@, rasterizer.pixels@)));
    assert(rasterizer.edges@ =~= Seq::empty());
    if let Some(stroke_color) = current_state.stroke {
        if S::zero().less_than(current_state.stroke_width) {
            let t = current_state.transform;
            let scale = t[0].times(t[0]).plus(t[1].times(t[1])).sqrt();
            let screen_width = current_state.stroke_width.times(scale);
            assert(scale == m[0].spec_times(m[0]).spec_plus(m[1].spec_times(m[1])).spec_sqrt());
            process_path(d, &current_state.transform, rasterizer, PathMode::Stroke(screen_width));
            let ghost before = rasterizer.pixels@;
            let r = rasterizer.rasterize(stroke_color, FillRule::NonZero);
            proof {
                lemma_opaque_writes_step(pix0, before, rasterizer.pixels@, stroke_color);
                lemma_state_colors_step(pix0, before, rasterizer.pixels@, stroke_color, current_state);
            }
            if r.is_err() {
                return r;
            }
        }
    }
    Ok(())
}

/// Every state of the stack paints with opaque colours.
pub open spec fn stack_paints_opaque<S>(s: Seq<State<S>>) -> bool {
    forall|i: int| 0 <= i < s.len() ==> paints_opaque(#[trigger] s[i])
}

/// Style properties only set opaque colours.
proof fn lemma_style_keeps_opaque<S: Scalar>(before: State<S>, key: Seq<u8>, val: Seq<u8>)
    requires
        paints_opaque(before),
    ensures
        paints_opaque(spec_style_apply(before, key, val)),
{
    lemma_parsed_colors_are_opaque(val);
}

/// Changing only the top state, to one that paints opaquely, keeps the stack opaque.
proof fn lemma_top_replaced_opaque<S>(before: Seq<State<S>>, after: Seq<State<S>>)
    requires
        stack_paints_opaque(before),
        top_replaced(before, after),
        paints_opaque(after.last()),
    ensures
        stack_paints_opaque(after),
{
    assert forall|i: int| 0 <= i < after.len() implies paints_opaque(#[trigger] after[i]) by {
        if i < after.len() - 1 {
            assert(after[i] == after.drop_last()[i]);
            assert(before[i] == before.drop_last()[i]);
        }
    }
}

/// `after` differs from `before` only in pixels painted with the fill or the
/// stroke colour of `st`.
pub open spec fn painted_with_state<S>(before: Seq<u32>, after: Seq<u32>, st: State<S>) -> bool {
    &&& after.len() == before.len()
    &&& forall|i: int|
        0 <= i < after.len() ==> #[trigger] after[i] == before[i] || st.fill == Some(after[i])
            || st.stroke == Some(after[i])
}

/// Painting with one of a state's colours keeps a buffer's changes to its colours.
proof fn lemma_state_colors_step<S>(start: Seq<u32>, mid: Seq<u32>, end: Seq<u32>, color: u32, st: State<S>)
    requires
        painted_with_state(start, mid, st),
        only_painted_with(mid, end, color),
        st.fill == Some(color) || st.stroke == Some(color),
    ensures
        painted_with_state(start, end, st),
{
    assert forall|i: int| 0 <= i < end.len() implies #[trigger] end[i] == start[i] || st.fill
        == Some(end[i]) || st.stroke == Some(end[i]) by {
        assert(mid[i] == start[i] || st.fill == Some(mid[i]) || st.stroke == Some(mid[i]));
    }
}

/// Painting with an opaque colour keeps a buffer's changes opaque.
proof fn lemma_opaque_writes_step(start: Seq<u32>, mid: Seq<u32>, end: Seq<u32>, color: u32)
    requires
        only_opaque_writes(start, mid),
        only_painted_with(mid, end, color),
        color % 256 == 255,
    ensures
        only_opaque_writes(start, end),
{
    assert forall|i: int| 0 <= i < end.len() implies #[trigger] end[i] == start[i] || end[i] % 256
        == 255 by {
        assert(mid[i] == start[i] || mid[i] % 256 == 255);
    }
}

/// What rendering keeps between actions: the state stack, the rasterizer's
/// active table store, and the pixels.
pub ghost struct Canvas<S> {
    pub stack: Seq<State<S>>,
    pub aet: Seq<usize>,
    pub pixels: Seq<u32>,
}

/// The canvas after one render action, or why drawing a path fails: a
/// push copies the current state onto the stack (see `spec_push`), a pop
/// drops it (see `spec_pop`), a view box or a style property changes the
/// current state, and a path is drawn with it.
pub open spec fn spec_action<S: Scalar>(act: SpecRenderAction, cv: Canvas<S>, width: usize, height: usize) -> Result<Canvas<S>, RenderError> {
    let top = cv.stack.last();
    let rest = cv.stack.drop_last();
    match act {
        SpecRenderAction::PushState => Ok(Canvas { stack: spec_push(cv.stack), ..cv }),
        SpecRenderAction::PopState => Ok(Canvas { stack: spec_pop(cv.stack), ..cv }),
        SpecRenderAction::ViewBox(v) => Ok(
            Canvas { stack: rest.push(spec_view_box_apply(top, v, width, height)), ..cv },
        ),
        SpecRenderAction::Style(k, v) => Ok(
            Canvas { stack: rest.push(spec_style_apply(top, k, v)), ..cv },
        ),
        SpecRenderAction::DrawPath(d) => match spec_draw_path(d, top, cv.aet, cv.pixels, width, height) {
            Ok((aet, pixels)) => Ok(Canvas { aet, pixels, ..cv }),
            Err(e) => Err(e),
        },
    }
}

/// The canvas after the render actions from `i` on, one after the other, or
/// why the first that fails does.
pub open spec fn spec_run_actions<S: Scalar>(
    acts: Seq<SpecRenderAction>,
    i: int,
    cv: Canvas<S>,
    width: usize,
    height: usize,
) -> Result<Canvas<S>, RenderError>
    decreases acts.len() - i,
{
    if 0 <= i < acts.len() {
        match spec_action(acts[i], cv, width, height) {
            Ok(cv2) => spec_run_actions(acts, i + 1, cv2, width, height),
            Err(e) => Err(e),
        }
    } else {
        Ok(cv)
    }
}

/// A style property set on an element ends with it: entering an element,
/// applying the property and leaving the element gives back the canvas as it
/// was (when the stack is not full).
pub proof fn lemma_element_style_is_scoped<S: Scalar>(
    cv: Canvas<S>,
    k: Seq<u8>,
    v: Seq<u8>,
    width: usize,
    height: usize,
)
    requires
        1 <= cv.stack.len() < MAX_DEPTH,
    ensures
        spec_run_actions(
            seq![SpecRenderAction::PushState, SpecRenderAction::Style(k, v), SpecRenderAction::PopState],
            0,
            cv,
            width,
            height,
        ) == Ok::<Canvas<S>, RenderError>(cv),
{
    let acts = seq![SpecRenderAction::PushState, SpecRenderAction::Style(k, v), SpecRenderAction::PopState];
    let pushed = spec_push(cv.stack);
    let styled = pushed.drop_last().push(spec_style_apply(pushed.last(), k, v));
    assert(styled.drop_last() =~= cv.stack);
    assert(spec_run_actions(acts, 3, Canvas { stack: spec_pop(styled), ..cv }, width, height) == Ok::<Canvas<S>, RenderError>(cv));
    assert(spec_run_actions(acts, 2, Canvas { stack: styled, ..cv }, width, height) == Ok::<Canvas<S>, RenderError>(cv));
    assert(spec_run_actions(acts, 1, Canvas { stack: pushed, ..cv }, width, height) == Ok::<Canvas<S>, RenderError>(cv));
}

/// Rendering from the tokenizer position `pos` (inside a tag or not, in the
/// tag `cur`) with the walker state and canvas: each event's actions (see
/// `spec_on_event`) are run in turn; gives the pixels when the end of the
/// document is reached, `MalformedAttribute` where the tokenizer cannot go
/// on, and why drawing a path fails where one does.
pub open spec fn spec_render_from<S: Scalar>(
    d: Seq<u8>,
    pos: int,
    in_tag: bool,
    cur: Seq<u8>,
    walker: WalkerState,
    cv: Canvas<S>,
    width: usize,
    height: usize,
) -> Result<Seq<u32>, RenderError>
    decreases d.len() + 1 - pos,
{
    match spec_next(d, pos, in_tag, cur) {
        None => Err(RenderError::MalformedAttribute),
        Some((SpecXmlEvent::Eof, _)) => Ok(cv.pixels),
        Some((e, c)) => {
            let (acts, walker2) = spec_on_event(walker, e);
            match spec_run_actions(acts, 0, cv, width, height) {
                Err(e) => Err(e),
                Ok(cv2) => if pos < c.pos <= d.len() + 1 {
                    spec_render_from(d, c.pos, c.in_tag, c.current_tag, walker2, cv2, width, height)
                } else {
                    Err(RenderError::MalformedAttribute)
                },
            }
        },
    }
}

/// Rendering the document `d` into the `width` by `height` image `pixels`:
/// from the start of the document, with the initial state alone on the stack.
pub open spec fn spec_render<S: Scalar>(d: Seq<u8>, pixels: Seq<u32>, width: usize, height: usize) -> Result<
    Seq<u32>,
    RenderError,
> {
    let cv = Canvas {
        stack: seq![spec_initial_state::<S>()],
        aet: Seq::new(MAX_AET as nat, |i: int| 0usize),
        pixels,
    };
    spec_render_from(d, 0, false, Seq::empty(), WalkerState { tag: Seq::empty(), path_data: None }, cv, width, height)
}

/// The style declarations among render actions, in order: the key and value
/// of each `Style` action.
pub open spec fn action_styles(acts: Seq<SpecRenderAction>) -> Seq<(Seq<u8>, Seq<u8>)>
    decreases acts.len(),
{
    if acts.len() == 0 {
        Seq::empty()
    } else {
        action_styles(acts.drop_last()) + match acts.last() {
            SpecRenderAction::Style(k, v) => seq![(k, v)],
            _ => Seq::empty(),
        }
    }
}

/// Each `Style` action is among the style declarations of its actions.
pub proof fn lemma_action_styles_contains(acts: Seq<SpecRenderAction>, i: int)
    requires
        0 <= i < acts.len(),
        acts[i] is Style,
    ensures
        action_styles(acts).contains((acts[i]->Style_0, acts[i]->Style_1)),
    decreases acts.len(),
{
    let kv = (acts[i]->Style_0, acts[i]->Style_1);
    let front = action_styles(acts.drop_last());
    if i == acts.len() - 1 {
        let all = action_styles(acts);
        assert(all[all.len() - 1] == kv);
    } else {
        lemma_action_styles_contains(acts.drop_last(), i);
        let j = choose|j: int| 0 <= j < front.len() && front[j] == kv;
        assert(action_styles(acts)[j] == kv);
    }
}

/// The style declarations that rendering applies from the tokenizer position
/// (`pos`, `in_tag`, `cur`) with the walker state on: those of each event's
/// actions (see `spec_on_event`), in order, up to the end of the document or
/// to where the tokenizer cannot go on.
pub open spec fn document_styles(d: Seq<u8>, pos: int, in_tag: bool, cur: Seq<u8>, walker: WalkerState) -> Seq<
    (Seq<u8>, Seq<u8>),
>
    decreases d.len() + 1 - pos,
{
    match spec_next(d, pos, in_tag, cur) {
        None => Seq::empty(),
        Some((SpecXmlEvent::Eof, _)) => Seq::empty(),
        Some((e, c)) => {
            let (acts, walker2) = spec_on_event(walker, e);
            action_styles(acts) + if pos < c.pos <= d.len() + 1 {
                document_styles(d, c.pos, c.in_tag, c.current_tag, walker2)
            } else {
                Seq::empty()
            }
        },
    }
}

/// A `fill` or `stroke` declaration whose value is the colour `c`.
pub open spec fn paints_color(kv: (Seq<u8>, Seq<u8>), c: u32) -> bool {
    (kv.0 == kw_fill() || kv.0 == kw_stroke()) && spec_parse_color(kv.1) == Some(c)
}

/// A colour that rendering the document `d` can paint with: the initial
/// state's opaque black, or the colour of one of its `fill` or `stroke`
/// declarations (an attribute, or inside a `style` attribute).
#[verifier::opaque]
pub open spec fn document_paint(d: Seq<u8>, c: u32) -> bool {
    ||| c == OPAQUE_BLACK
    ||| exists|kv: (Seq<u8>, Seq<u8>)|
        document_styles(d, 0, false, Seq::empty(), WalkerState { tag: Seq::empty(), path_data: None }).contains(kv)
            && #[trigger] paints_color(kv, c)
}

/// The state fills and strokes with colours of the document `d`.
pub open spec fn state_paints_from<S>(st: State<S>, d: Seq<u8>) -> bool {
    &&& (st.fill matches Some(c) ==> document_paint(d, c))
    &&& (st.stroke matches Some(c) ==> document_paint(d, c))
}

/// Every state of the stack paints with colours of the document `d`.
pub open spec fn stack_paints_from<S>(s: Seq<State<S>>, d: Seq<u8>) -> bool {
    forall|i: int| 0 <= i < s.len() ==> state_paints_from(#[trigger] s[i], d)
}

/// `after` differs from `before` only in pixels of colours of the document `d`.
pub open spec fn painted_from_document(before: Seq<u32>, after: Seq<u32>, d: Seq<u8>) -> bool {
    &&& after.len() == before.len()
    &&& forall|i: int| 0 <= i < after.len() ==> #[trigger] after[i] == before[i] || document_paint(d, after[i])
}

/// Both parts of a concatenation are within it.
proof fn lemma_concat_contains<T>(a: Seq<T>, b: Seq<T>, x: T)
    ensures
        a.contains(x) ==> (a + b).contains(x),
        b.contains(x) ==> (a + b).contains(x),
{
    if a.contains(x) {
        let j = choose|j: int| 0 <= j < a.len() && a[j] == x;
        assert((a + b)[j] == x);
    }
    if b.contains(x) {
        let j = choose|j: int| 0 <= j < b.len() && b[j] == x;
        assert((a + b)[a.len() + j] == x);
    }
}

/// A `fill` or `stroke` declaration of the document paints with a colour of
/// the document.
proof fn lemma_declared_paint(d: Seq<u8>, kv: (Seq<u8>, Seq<u8>))
    requires
        document_styles(d, 0, false, Seq::empty(), WalkerState { tag: Seq::empty(), path_data: None }).contains(kv),
    ensures
        forall|c: u32| #[trigger] paints_color(kv, c) ==> document_paint(d, c),
{
    reveal(document_paint);
}

/// Painting with a state's colours, when they are the document's, keeps a
/// buffer's changes to the document's colours.
proof fn lemma_paint_with_state<S>(start: Seq<u32>, mid: Seq<u32>, end: Seq<u32>, st: State<S>, d: Seq<u8>)
    requires
        painted_from_document(start, mid, d),
        painted_with_state(mid, end, st),
        state_paints_from(st, d),
    ensures
        painted_from_document(start, end, d),
{
    assert forall|i: int| 0 <= i < end.len() implies #[trigger] end[i] == start[i] || document_paint(d, end[i]) by {
        assert(mid[i] == start[i] || document_paint(d, mid[i]));
    }
}

/// A render action keeps the stack's colours those of the document, given
/// that a style declaration it applies is one of the document's.
proof fn lemma_action_keeps_colors<S: Scalar>(
    act: SpecRenderAction,
    cv: Canvas<S>,
    width: usize,
    height: usize,
    d: Seq<u8>,
)
    requires
        1 <= cv.stack.len(),
        stack_paints_from(cv.stack, d),
        act matches SpecRenderAction::Style(k, v) ==> forall|c: u32| #[trigger] paints_color((k, v), c) ==> document_paint(d, c),
        spec_action(act, cv, width, height) is Ok,
    ensures
        stack_paints_from(spec_action(act, cv, width, height)->Ok_0.stack, d),
{
    let s = cv.stack;
    let top = s.last();
    assert(top == s[s.len() - 1]);
    let rest = s.drop_last();
    assert(stack_paints_from(rest, d)) by {
        assert forall|i: int| 0 <= i < rest.len() implies state_paints_from(#[trigger] rest[i], d) by {
            assert(rest[i] == s[i]);
        }
    }
    match act {
        SpecRenderAction::PushState => {
            if s.len() < MAX_DEPTH {
                let out = s.push(top);
                assert forall|i: int| 0 <= i < out.len() implies state_paints_from(#[trigger] out[i], d) by {
                    if i < s.len() {
                        assert(out[i] == s[i]);
                    }
                }
            }
        },
        SpecRenderAction::PopState => {},
        SpecRenderAction::ViewBox(v) => {
            let new_top = spec_view_box_apply(top, v, width, height);
            assert(new_top.fill == top.fill && new_top.stroke == top.stroke);
            lemma_push_paints_from(rest, new_top, d);
        },
        SpecRenderAction::Style(k, v) => {
            let new_top = spec_style_apply(top, k, v);
            if let Some(c) = new_top.fill {
                if k == kw_fill() {
                    assert(paints_color((k, v), c));
                }
            }
            if let Some(c) = new_top.stroke {
                if k == kw_stroke() {
                    assert(paints_color((k, v), c));
                }
            }
            assert(state_paints_from(new_top, d));
            lemma_push_paints_from(rest, new_top, d);
        },
        SpecRenderAction::DrawPath(_) => {},
    }
}

/// A stack whose states paint with the document's colours, with one more
/// such state on top.
proof fn lemma_push_paints_from<S>(s: Seq<State<S>>, st: State<S>, d: Seq<u8>)
    requires
        stack_paints_from(s, d),
        state_paints_from(st, d),
    ensures
        stack_paints_from(s.push(st), d),
{
    assert forall|i: int| 0 <= i < s.push(st).len() implies state_paints_from(#[trigger] s.push(st)[i], d) by {
        if i < s.len() {
            assert(s.push(st)[i] == s[i]);
        }
    }
}

/// Performs one render action on the state stack and the rasterizer, as
/// `spec_action` describes.
fn run_action<S: Scalar>(
    action: RenderAction,
    state_stack: &mut StateStack<State<S>>,
    rasterizer: &mut Rasterizer<S>,
    width: usize,
    height: usize,
) -> (r: Result<(), RenderError>)
    requires
        old(state_stack).wf(),
        old(rasterizer).wf(),
        old(rasterizer).edges@.len() == 0,
        old(rasterizer).aet_count == 0,
        old(rasterizer).width == width,
        old(rasterizer).height == height,
        stack_paints_opaque(old(state_stack)@),
    ensures
        final(state_stack).wf(),
        final(rasterizer).wf(),
        final(rasterizer).edges@.len() == 0,
        final(rasterizer).aet_count == 0,
        final(rasterizer).width == width,
        final(rasterizer).height == height,
        final(final(rasterizer).pixels)@ == final(old(rasterizer).pixels)@,
        stack_paints_opaque(final(state_stack)@),
        only_opaque_writes(old(rasterizer).pixels@, final(rasterizer).pixels@),
        unchanged_from(old(rasterizer).pixels@, final(rasterizer).pixels@, width * height),
        final(rasterizer).pixels@.len() == old(rasterizer).pixels@.len(),
        r != Err::<(), RenderError>(RenderError::MalformedAttribute),
        painted_with_state(old(rasterizer).pixels@, final(rasterizer).pixels@, old(state_stack)@.last()),
        match spec_action(
            action@,
            (Canvas { stack: old(state_stack)@, aet: old(rasterizer).aet@, pixels: old(rasterizer).pixels@ }),
            width,
            height,
        ) {
            Ok(cv) => r is Ok && cv == (Canvas {
                stack: final(state_stack)@,
                aet: final(rasterizer).aet@,
                pixels: final(rasterizer).pixels@,
            }),
            Err(e) => r == Err::<(), RenderError>(e),
        },
{
    let ghost stack_before = state_stack@;
    proof {
        state_stack.lemma_depth();
    }
    match action {
        RenderAction::PushState => {
            state_stack.push();
            proof {
                assert(paints_opaque(stack_before[stack_before.len() - 1]));
            }
            Ok(())
        },
        RenderAction::PopState => {
            state_stack.pop();
            Ok(())
        },
        RenderAction::ViewBox(v) => {
            apply_view_box_attribute(v, width, height, state_stack);
            proof {
                assert(state_stack@.drop_last() =~= stack_before.drop_last());
                assert(paints_opaque(stack_before[stack_before.len() - 1]));
                lemma_top_replaced_opaque(stack_before, state_stack@);
            }
            Ok(())
        },
        RenderAction::Style(k, v) => {
            apply_style_attribute(k, v, state_stack);
            proof {
                assert(paints_opaque(stack_before[stack_before.len() - 1]));
                lemma_style_keeps_opaque(stack_before.last(), k@, v@);
                assert(state_stack@.drop_last() =~= stack_before.drop_last());
                lemma_top_replaced_opaque(stack_before, state_stack@);
            }
            Ok(())
        },
        RenderAction::DrawPath(path_data) => {
            let current_state = *state_stack.current();
            proof {
                assert(paints_opaque(stack_before[stack_before.len() - 1]));
            }
            draw_path(path_data, current_state, rasterizer)
        },
    }
}

/// Renders the SVG document `svg_data` into `pixels`, a `width` by `height`
/// RGBA buffer. Each element gets a copy of its parent's state; the `svg`
/// element's `viewBox` maps the document onto the image; style attributes
/// and `style` declarations set paint and transforms; each `path` is filled
/// and stroked when its end tag is reached. Rendering stops with an error
/// where the tokenizer cannot go on (`MalformedAttribute`), a scanline's
/// crossings cannot be ordered (`UnorderedCrossing`) or a span to fill
/// reaches past the end of `pixels` (`SpanOutsideBuffer`); what was drawn
/// stays. The pixels and the result are those of `spec_render`.
#[verifier::loop_isolation(false)]
pub fn parse_svg<S: Scalar>(svg_data: &[u8], pixels: &mut [u32], width: usize, height: usize) -> (r: Result<(), RenderError>)
    requires
        svg_data@.len() + 8 <= usize::MAX,
    ensures
        only_opaque_writes(old(pixels)@, final(pixels)@),
        painted_from_document(old(pixels)@, final(pixels)@, svg_data@),
        unchanged_from(old(pixels)@, final(pixels)@, width * height),
        r is Ok ==> document_tokenizes(svg_data@),
        r == Err::<(), RenderError>(RenderError::MalformedAttribute) ==> !document_tokenizes(
            svg_data@,
        ),
        match spec_render::<S>(svg_data@, old(pixels)@, width, height) {
            Ok(p) => r is Ok && final(pixels)@ == p,
            Err(e) => r == Err::<(), RenderError>(e),
        },
{
    let ghost pix0 = pixels@;
    let ghost fin = final(pixels)@;
    let mut xml_parser = XmlParser::new(svg_data);
    let mut state_stack: StateStack<State<S>> = StateStack::new();
    let mut rasterizer: Rasterizer<S> = Rasterizer::new(pixels, width, height);
    let mut walker = SvgWalker::new(svg_data);
    let ghost d = svg_data@;
    assert(xml_parser.reaches_eof() == document_tokenizes(d));
    assert(stack_paints_opaque(state_stack@)) by {
        assert(state_stack@[0].fill == Some(0x000000FFu32));
    }
    let ghost all = document_styles(d, 0, false, Seq::empty(), WalkerState { tag: Seq::empty(), path_data: None });
    assert(stack_paints_from(state_stack@, d)) by {
        reveal(document_paint);
        assert(state_paints_from(state_stack@[0], d));
    }

    loop
        invariant
            xml_parser.wf(),
            xml_parser.data@ == d,
            d == svg_data@,
            xml_parser.reaches_eof() == document_tokenizes(d),
            state_stack.wf(),
            rasterizer.wf(),
            stack_paints_opaque(state_stack@),
            only_opaque_writes(pix0, rasterizer.pixels@),
            unchanged_from(pix0, rasterizer.pixels@, width * height),
            rasterizer.width == width && rasterizer.height == height,
            final(rasterizer.pixels)@ == fin,
            pix0 == old(pixels)@,
            rasterizer.edges@.len() == 0,
            rasterizer.aet_count == 0,
            stack_paints_from(state_stack@, d),
            painted_from_document(pix0, rasterizer.pixels@, d),
            all == document_styles(d, 0, false, Seq::empty(), WalkerState { tag: Seq::empty(), path_data: None }),
            forall|kv: (Seq<u8>, Seq<u8>)|
                #[trigger] document_styles(
                    d,
                    xml_parser.pos as int,
                    xml_parser.in_tag,
                    xml_parser.current_tag@,
                    walker.state(),
                ).contains(kv) ==> all.contains(kv),
            spec_render::<S>(d, pix0, width, height) == spec_render_from(
                d,
                xml_parser.pos as int,
                xml_parser.in_tag,
                xml_parser.current_tag@,
                walker.state(),
                (Canvas { stack: state_stack@, aet: rasterizer.aet@, pixels: rasterizer.pixels@ }),
                width,
                height,
            ),
        decreases d.len() + 1 - xml_parser.pos,
    {
        let ghost before = xml_parser.cursor();
        let ghost walker_before = walker.state();
        let ghost cv0 = Canvas { stack: state_stack@, aet: rasterizer.aet@, pixels: rasterizer.pixels@ };
        let event = match xml_parser.try_next() {
            Some(e) => e,
            None => {
                rasterizer.into_pixels();
                return Err(RenderError::MalformedAttribute);
            },
        };
        proof {
            lemma_next_advances(d, before.pos, before.in_tag, before.current_tag);
        }
        if let XmlEvent::Eof = event {
            rasterizer.into_pixels();
            return Ok(());
        }
        let actions = walker.on_event(event);
        let ghost acts = actions_view(actions@);
        proof {
            let rest = document_styles(d, xml_parser.pos as int, xml_parser.in_tag, xml_parser.current_tag@, walker.state());
            assert(document_styles(d, before.pos, before.in_tag, before.current_tag, walker_before)
                == action_styles(acts) + rest);
            assert forall|kv: (Seq<u8>, Seq<u8>)| #[trigger] rest.contains(kv) implies all.contains(kv) by {
                lemma_concat_contains(action_styles(acts), rest, kv);
            }
            assert forall|kv: (Seq<u8>, Seq<u8>)| #[trigger] action_styles(acts).contains(kv) implies all.contains(kv) by {
                lemma_concat_contains(action_styles(acts), rest, kv);
            }
        }
        assert(spec_render::<S>(d, pix0, width, height) == match spec_run_actions(acts, 0, cv0, width, height) {
            Err(e) => Err(e),
            Ok(cv2) => spec_render_from(
                d,
                xml_parser.pos as int,
                xml_parser.in_tag,
                xml_parser.current_tag@,
                walker.state(),
                cv2,
                width,
                height,
            ),
        });
        let mut i: usize = 0;
        while i < actions.len()
            invariant
                state_stack.wf(),
                rasterizer.wf(),
                i <= actions@.len(),
                stack_paints_opaque(state_stack@),
                only_opaque_writes(pix0, rasterizer.pixels@),
                unchanged_from(pix0, rasterizer.pixels@, width * height),
                rasterizer.width == width && rasterizer.height == height,
                final(rasterizer.pixels)@ == fin,
                pix0 == old(pixels)@,
                rasterizer.edges@.len() == 0,
                rasterizer.aet_count == 0,
                acts == actions_view(actions@),
                stack_paints_from(state_stack@, d),
                painted_from_document(pix0, rasterizer.pixels@, d),
                forall|kv: (Seq<u8>, Seq<u8>)| #[trigger] action_styles(acts).contains(kv) ==> all.contains(kv),
                spec_run_actions(acts, 0, cv0, width, height) == spec_run_actions(
                    acts,
                    i as int,
                    (Canvas { stack: state_stack@, aet: rasterizer.aet@, pixels: rasterizer.pixels@ }),
                    width,
                    height,
                ),
                decreases actions@.len() - i,
        {
            let ghost stack_before = state_stack@;
            proof {
                state_stack.lemma_depth();
                assert(acts[i as int] == actions@[i as int]@);
            }
            let ghost before_action = rasterizer.pixels@;
            let ghost cv_i = Canvas { stack: state_stack@, aet: rasterizer.aet@, pixels: rasterizer.pixels@ };
            let r = run_action(actions[i], &mut state_stack, &mut rasterizer, width, height);
            proof {
                assert(state_paints_from(stack_before[stack_before.len() - 1], d));
                assert(stack_before.last() == stack_before[stack_before.len() - 1]);
                lemma_paint_with_state(pix0, before_action, rasterizer.pixels@, stack_before.last(), d);
                if r.is_ok() {
                    if acts[i as int] is Style {
                        lemma_action_styles_contains(acts, i as int);
                        lemma_declared_paint(d, (acts[i as int]->Style_0, acts[i as int]->Style_1));
                    }
                    lemma_action_keeps_colors(acts[i as int], cv_i, width, height, d);
                }
                assert forall|j: int| 0 <= j < rasterizer.pixels@.len() implies #[trigger] rasterizer.pixels@[j] == pix0[j]
                    || rasterizer.pixels@[j] % 256 == 255 by {
                    assert(before_action[j] == pix0[j] || before_action[j] % 256 == 255);
                }
                assert forall|j: int| width * height <= j < rasterizer.pixels@.len() implies #[trigger] rasterizer.pixels@[j] == pix0[j] by {
                    assert(before_action[j] == pix0[j]);
                }
            }
            if r.is_err() {
                rasterizer.into_pixels();
                return r;
            }
            i = i + 1;
        }
    }
}

} // verus!
