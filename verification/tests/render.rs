use minisvg::cubic::{CubicFlattenIter, Point};
use minisvg::document::{apply_style_attribute, apply_view_box_attribute, parse_svg};
use minisvg::rasteriser::{
    process_path, push_segment, Edge, PathMode, Rasterizer, RenderError, MAX_EDGES,
};
use minisvg::scalar::{ByteSeq, Scalar};
use minisvg::state::{FillRule, State, StateStack, MAX_DEPTH};
use minisvg::transform::{identity_transform, multiply_transforms, parse_transform};

/// `f32` arithmetic for the renderer.
#[derive(Clone, Copy, Debug, PartialEq)]
struct F32(f32);

impl Scalar for F32 {
    // The spec functions are this type's arithmetic: the same operations as
    // the methods below.
    fn spec_zero() -> Self {
        Self::zero()
    }
    fn spec_one() -> Self {
        Self::one()
    }
    fn spec_epsilon() -> Self {
        Self::epsilon()
    }
    fn spec_from_i64(v: i64) -> Self {
        Self::from_i64(v)
    }
    fn spec_from_usize(v: usize) -> Self {
        Self::from_usize(v)
    }
    fn spec_plus(self, other: Self) -> Self {
        self.plus(other)
    }
    fn spec_minus(self, other: Self) -> Self {
        self.minus(other)
    }
    fn spec_times(self, other: Self) -> Self {
        self.times(other)
    }
    fn spec_over(self, other: Self) -> Self {
        self.over(other)
    }
    fn spec_negate(self) -> Self {
        self.negate()
    }
    fn spec_sqrt(self) -> Self {
        self.sqrt()
    }
    fn spec_sin(self) -> Self {
        self.sin()
    }
    fn spec_cos(self) -> Self {
        self.cos()
    }
    fn spec_tan(self) -> Self {
        self.tan()
    }
    fn spec_to_radians(self) -> Self {
        self.to_radians()
    }
    fn spec_round_to_i32(self) -> i32 {
        self.round_to_i32()
    }
    fn spec_trunc_to_i32(self) -> i32 {
        self.trunc_to_i32()
    }
    fn spec_less_than(self, other: Self) -> bool {
        self.less_than(other)
    }
    fn spec_less_or_equal(self, other: Self) -> bool {
        self.less_or_equal(other)
    }
    fn spec_is_nan(self) -> bool {
        self.is_nan()
    }
    fn spec_parse(_bytes: ByteSeq) -> Option<Self> {
        // A sequence of the verifier has no contents at run time: the
        // number a byte sequence reads as is what `parse` gives for it.
        unreachable!("spec functions are not run")
    }
    fn zero() -> Self {
        F32(0.0)
    }
    fn one() -> Self {
        F32(1.0)
    }
    fn epsilon() -> Self {
        F32(f32::EPSILON)
    }
    fn from_i64(v: i64) -> Self {
        F32(v as f32)
    }
    fn from_usize(v: usize) -> Self {
        F32(v as f32)
    }
    fn plus(self, other: Self) -> Self {
        F32(self.0 + other.0)
    }
    fn minus(self, other: Self) -> Self {
        F32(self.0 - other.0)
    }
    fn times(self, other: Self) -> Self {
        F32(self.0 * other.0)
    }
    fn over(self, other: Self) -> Self {
        F32(self.0 / other.0)
    }
    fn negate(self) -> Self {
        F32(-self.0)
    }
    fn sqrt(self) -> Self {
        F32(self.0.sqrt())
    }
    fn sin(self) -> Self {
        F32(self.0.sin())
    }
    fn cos(self) -> Self {
        F32(self.0.cos())
    }
    fn tan(self) -> Self {
        F32(self.0.tan())
    }
    fn to_radians(self) -> Self {
        F32(self.0.to_radians())
    }
    fn round_to_i32(self) -> i32 {
        self.0.round() as i32
    }
    fn trunc_to_i32(self) -> i32 {
        self.0 as i32
    }
    fn less_than(self, other: Self) -> bool {
        self.0 < other.0
    }
    fn less_or_equal(self, other: Self) -> bool {
        self.0 <= other.0
    }
    fn is_nan(self) -> bool {
        self.0.is_nan()
    }
    fn parse(bytes: &[u8]) -> Option<Self> {
        std::str::from_utf8(bytes).ok()?.parse::<f32>().ok().map(F32)
    }
}

/// The Material Symbols "search" icon (24 dp, fill #E3E3E3, weight 400).
const SEARCH_ICON: &[u8] = br##"<svg xmlns="http://www.w3.org/2000/svg" height="24px" viewBox="0 -960 960 960" width="24px" fill="#e3e3e3"><path d="M784-120 532-372q-30 24-69 38t-83 14q-109 0-184.5-75.5T120-580q0-109 75.5-184.5T380-840q109 0 184.5 75.5T640-580q0 44-14 83t-38 69l252 252-56 56ZM380-400q75 0 127.5-52.5T560-580q0-75-52.5-127.5T380-760q-75 0-127.5 52.5T200-580q0 75 52.5 127.5T380-400Z"/></svg>"##;

#[test]
fn search_icon_renders_from_view_box_and_quadratic_path() {
    let width = 24;
    let height = 24;
    let mut pixels = vec![0xFFFFFFFF; width * height];

    parse_svg::<F32>(SEARCH_ICON, &mut pixels, width, height).unwrap();

    let icon_pixels = pixels.iter().filter(|&&pixel| pixel == 0xE3E3E3FF).count();

    assert!(
        icon_pixels > 40,
        "search icon should render visible inherited fill pixels"
    );
}

#[test]
fn cubic_stroke_expands_flattened_segments() {
    let mut pixels = [0xFFFFFFFF; 64 * 64];
    let mut rasterizer = Rasterizer::<F32>::new(&mut pixels, 64, 64);

    process_path(
        b"M 5 5 C 10 40 50 40 55 5",
        &identity_transform::<F32>(),
        &mut rasterizer,
        PathMode::Stroke(F32(4.0)),
    );

    assert!(
        rasterizer.edge_count() > 40,
        "stroked cubic should emit stroke polygons, not only fill edges"
    );
}

#[test]
fn rasterize_clears_active_edge_table_between_shapes() {
    let mut pixels = [0xFFFFFFFF; 32 * 32];
    let mut rasterizer = Rasterizer::<F32>::new(&mut pixels, 32, 32);

    process_path(
        b"M -10 -10 L 20 -10 L 20 20 L -10 20 z",
        &identity_transform::<F32>(),
        &mut rasterizer,
        PathMode::Fill,
    );
    rasterizer.rasterize(0xFF0000FF, FillRule::NonZero).unwrap();
    assert_eq!(rasterizer.aet_count(), 0);

    process_path(
        b"M 22 22 L 28 22 L 28 28 L 22 28 z",
        &identity_transform::<F32>(),
        &mut rasterizer,
        PathMode::Fill,
    );
    rasterizer.rasterize(0x0000FFFF, FillRule::NonZero).unwrap();
    assert_eq!(rasterizer.aet_count(), 0);
    assert_eq!(pixels[24 * 32 + 24], 0x0000FFFF);
}

fn pt(x: f32, y: f32) -> Point<F32> {
    Point { x: F32(x), y: F32(y) }
}

fn matrix(t: [F32; 6]) -> [f32; 6] {
    t.map(|v| v.0)
}

#[test]
fn transform_values() {
    assert_eq!(matrix(parse_transform::<F32>(b"translate(10, 20)")), [1.0, 0.0, 0.0, 1.0, 10.0, 20.0]);
    assert_eq!(matrix(parse_transform::<F32>(b"translate(10)")), [1.0, 0.0, 0.0, 1.0, 10.0, 0.0]);
    assert_eq!(matrix(parse_transform::<F32>(b"scale(2)")), [2.0, 0.0, 0.0, 2.0, 0.0, 0.0]);
    assert_eq!(matrix(parse_transform::<F32>(b"scale(2 3)")), [2.0, 0.0, 0.0, 3.0, 0.0, 0.0]);
    assert_eq!(matrix(parse_transform::<F32>(b"matrix(1 2 3 4 5 6)")), [1.0, 2.0, 3.0, 4.0, 5.0, 6.0]);
    assert_eq!(matrix(parse_transform::<F32>(b"bogus(7)")), [1.0, 0.0, 0.0, 1.0, 0.0, 0.0]);
    // translate then scale: points are scaled first, then moved
    assert_eq!(
        matrix(parse_transform::<F32>(b"translate(5 6) scale(2)")),
        [2.0, 0.0, 0.0, 2.0, 5.0, 6.0]
    );
    let r = matrix(parse_transform::<F32>(b"rotate(90)"));
    assert!(r[0].abs() < 1e-6 && (r[1] - 1.0).abs() < 1e-6 && (r[2] + 1.0).abs() < 1e-6);
    // rotating about a centre keeps the centre in place
    let t = parse_transform::<F32>(b"rotate(90 10 10)");
    let p = pt(10.0, 10.0).transform(&t);
    assert!((p.x.0 - 10.0).abs() < 1e-4 && (p.y.0 - 10.0).abs() < 1e-4);
}

#[test]
fn identity_is_neutral() {
    let t = [F32(1.0), F32(2.0), F32(3.0), F32(4.0), F32(5.0), F32(6.0)];
    assert_eq!(matrix(multiply_transforms(&identity_transform(), &t)), matrix(t));
    assert_eq!(matrix(multiply_transforms(&t, &identity_transform())), matrix(t));
}

#[test]
fn state_stack_inherits_and_restores() {
    let mut stack: StateStack<State<F32>> = StateStack::new();
    assert_eq!(stack.depth(), 1);
    assert_eq!(stack.current().fill, Some(0x000000FF));
    assert_eq!(stack.current().stroke, None);
    apply_style_attribute(b"fill", b"#00f", &mut stack);
    stack.push();
    assert_eq!(stack.depth(), 2);
    assert_eq!(stack.current().fill, Some(0x0000FFFF));
    apply_style_attribute(b"fill", b"none", &mut stack);
    apply_style_attribute(b"fill-rule", b"evenodd", &mut stack);
    assert_eq!(stack.current().fill, None);
    assert_eq!(stack.current().fill_rule, FillRule::EvenOdd);
    stack.pop();
    assert_eq!(stack.depth(), 1);
    assert_eq!(stack.current().fill, Some(0x0000FFFF));
    assert_eq!(stack.current().fill_rule, FillRule::NonZero);
    stack.pop();
    assert_eq!(stack.depth(), 1);
}

#[test]
fn state_stack_is_bounded() {
    let mut stack: StateStack<State<F32>> = StateStack::new();
    for _ in 0..MAX_DEPTH + 10 {
        stack.push();
    }
    assert_eq!(stack.depth(), MAX_DEPTH);
    stack.current_mut().stroke = Some(1);
    stack.pop();
    assert_eq!(stack.current().stroke, None);
}

#[test]
fn numeric_style_properties() {
    let mut stack: StateStack<State<F32>> = StateStack::new();
    apply_style_attribute(b"stroke-width", b"2.5", &mut stack);
    apply_style_attribute(b"opacity", b"0.5", &mut stack);
    apply_style_attribute(b"stroke-width", b"oops", &mut stack);
    apply_style_attribute(b"fill-rule", b"nonzero", &mut stack);
    apply_style_attribute(b"id", b"x", &mut stack);
    assert_eq!(stack.current().stroke_width, F32(2.5));
    assert_eq!(stack.current().opacity, F32(0.5));
    assert_eq!(stack.current().fill_rule, FillRule::NonZero);
    apply_style_attribute(b"transform", b"scale(2)", &mut stack);
    apply_style_attribute(b"transform", b"translate(1 1)", &mut stack);
    assert_eq!(matrix(stack.current().transform), [2.0, 0.0, 0.0, 2.0, 2.0, 2.0]);
}

#[test]
fn view_box_maps_onto_the_image() {
    let mut stack: StateStack<State<F32>> = StateStack::new();
    apply_view_box_attribute(b"0 -960 960 960", 24, 24, &mut stack);
    assert_eq!(matrix(stack.current().transform), [0.025, 0.0, 0.0, 0.025, 0.0, 24.0]);
    let mut stack: StateStack<State<F32>> = StateStack::new();
    apply_view_box_attribute(b"0 0 0 10", 24, 24, &mut stack);
    assert_eq!(matrix(stack.current().transform), [1.0, 0.0, 0.0, 1.0, 0.0, 0.0]);
}

#[test]
fn edges_of_segments() {
    assert!(Edge::new(pt(0.0, 1.2), pt(5.0, 0.8)).is_none());
    let e = Edge::new(pt(0.0, 10.0), pt(5.0, 0.0)).unwrap();
    assert_eq!((e.y_min, e.y_max, e.dir), (0, 10, -1));
    assert_eq!(e.x, F32(5.0));
    assert_eq!(e.dx_per_dy, F32(-0.5));
}

#[test]
fn cubic_flattening_yields_every_step() {
    let mut it = CubicFlattenIter::new(pt(0.0, 0.0), pt(0.0, 1.0), pt(1.0, 1.0), pt(1.0, 0.0), 4);
    let mut points = Vec::new();
    while let Some(p) = it.next() {
        points.push(p);
    }
    assert_eq!(points.len(), 5);
    assert_eq!((points[0].x, points[0].y), (F32(0.0), F32(0.0)));
    assert_eq!((points[4].x, points[4].y), (F32(1.0), F32(0.0)));
    assert_eq!((points[2].x, points[2].y), (F32(0.5), F32(0.75)));
    assert!(it.next().is_none());
}

#[test]
fn stroking_a_segment_outlines_a_rectangle() {
    let mut pixels = [0u32; 16 * 16];
    let mut r = Rasterizer::<F32>::new(&mut pixels, 16, 16);
    push_segment(pt(2.0, 2.0), pt(2.0, 12.0), &mut r, PathMode::Stroke(F32(2.0)));
    // two of the four sides run along the segment; the ends are horizontal
    assert_eq!(r.edge_count(), 2);
    push_segment(pt(2.0, 2.0), pt(2.0, 2.0), &mut r, PathMode::Stroke(F32(2.0)));
    assert_eq!(r.edge_count(), 2);
    r.rasterize(0xFF, FillRule::NonZero).unwrap();
    drop(r);
    assert_eq!(pixels[5 * 16 + 1], 0xFF);
    assert_eq!(pixels[5 * 16 + 2], 0xFF);
    assert_eq!(pixels[5 * 16 + 3], 0);
}

#[test]
fn edge_list_is_bounded() {
    let mut pixels = [0u32; 4];
    let mut r = Rasterizer::<F32>::new(&mut pixels, 2, 2);
    for _ in 0..MAX_EDGES + 5 {
        r.push_edge(pt(0.0, 0.0), pt(1.0, 1.0));
    }
    assert_eq!(r.edge_count(), MAX_EDGES);
    r.rasterize(1, FillRule::NonZero).unwrap();
    assert_eq!(r.edge_count(), 0);
}

#[test]
fn unordered_crossings_stop_rasterizing() {
    let mut pixels = [0u32; 8 * 8];
    let mut r = Rasterizer::<F32>::new(&mut pixels, 8, 8);
    r.push_edge(pt(f32::NAN, 0.0), pt(f32::NAN, 6.0));
    r.push_edge(pt(4.0, 0.0), pt(4.0, 6.0));
    assert_eq!(r.rasterize(1, FillRule::NonZero), Err(RenderError::UnorderedCrossing));
    assert_eq!(r.edge_count(), 0);
    assert_eq!(r.aet_count(), 0);
}

#[test]
fn malformed_attribute_stops_rendering() {
    let mut pixels = vec![0u32; 4];
    assert_eq!(
        parse_svg::<F32>(b"<svg width", &mut pixels, 2, 2),
        Err(RenderError::MalformedAttribute)
    );
    assert_eq!(parse_svg::<F32>(b"", &mut pixels, 2, 2), Ok(()));
}

#[test]
fn fill_rule_decides_the_hole() {
    let doc = br##"<svg><path fill="#fff" fill-rule="evenodd" d="M0 0H10V10H0Z M3 3H7V7H3Z"/></svg>"##;
    let mut pixels = vec![0u32; 10 * 10];
    parse_svg::<F32>(doc, &mut pixels, 10, 10).unwrap();
    assert_eq!(pixels[5 * 10 + 5], 0);
    assert_eq!(pixels[5 * 10 + 1], 0xFFFFFFFF);

    let doc = br##"<svg><path fill="#fff" d="M0 0H10V10H0Z M3 3H7V7H3Z"/></svg>"##;
    let mut pixels = vec![0u32; 10 * 10];
    parse_svg::<F32>(doc, &mut pixels, 10, 10).unwrap();
    assert_eq!(pixels[5 * 10 + 5], 0xFFFFFFFF);
}

#[test]
fn group_styles_are_inherited_and_restored() {
    let doc = br##"<svg><g fill="#f00"><path d="M0 0h4v4h-4z"/></g><path d="M5 0h4v4h-4z"/></svg>"##;
    let mut pixels = vec![0u32; 10 * 4];
    parse_svg::<F32>(doc, &mut pixels, 10, 4).unwrap();
    assert_eq!(pixels[2 * 10 + 2], 0xFF0000FF);
    assert_eq!(pixels[2 * 10 + 7], 0x000000FF);
}

#[test]
fn rendering_stays_inside_the_image_and_writes_opaque_colours() {
    let doc = br##"<svg><path fill="#123456" d="M-5 -5H50V50H-5Z"/><path d="M0 0L9 9" stroke="#abc" stroke-width="3" fill="none"/></svg>"##;
    let mut pixels = vec![7u32; 10 * 10 + 5];
    parse_svg::<F32>(doc, &mut pixels, 10, 10).unwrap();
    assert!(pixels[100..].iter().all(|&p| p == 7));
    assert!(pixels[..100].iter().all(|&p| p == 7 || p & 0xFF == 0xFF));
    assert!(pixels[..100].iter().any(|&p| p == 0x123456FF));
    assert!(pixels[..100].iter().any(|&p| p == 0xAABBCCFF));
}

#[test]
fn smooth_quadratic_after_quadratic_reflects_its_control_point() {
    // A symmetric arch: Q up to the apex, T back down mirrors the control point.
    let doc = br##"<svg><path fill="#fff" d="M0 10 Q5 0 10 10 T20 10 Z"/></svg>"##;
    let mut pixels = vec![0u32; 20 * 12];
    parse_svg::<F32>(doc, &mut pixels, 20, 12).unwrap();
    // inside the first arch
    assert_eq!(pixels[8 * 20 + 5], 0xFFFFFFFF);
    // the reflected control point bends the second arch downwards
    assert_eq!(pixels[11 * 20 + 15], 0xFFFFFFFF);
    assert_eq!(pixels[8 * 20 + 15], 0);
}

fn edge_tuples(rasterizer: &Rasterizer<F32>) -> Vec<(i32, i32, f32, f32, i32)> {
    rasterizer.edges.iter().map(|e| (e.y_min, e.y_max, e.x.0, e.dx_per_dy.0, e.dir)).collect()
}

fn outline(d: &[u8], m: &[F32; 6], mode: PathMode<F32>) -> Vec<(i32, i32, f32, f32, i32)> {
    let mut pixels = [0u32; 64];
    let mut rasterizer = Rasterizer::<F32>::new(&mut pixels, 8, 8);
    process_path(d, m, &mut rasterizer, mode);
    edge_tuples(&rasterizer)
}

#[test]
fn relative_moveto_continues_as_relative_lineto() {
    let edges = outline(b"m 1 2 3 0 0 4", &identity_transform::<F32>(), PathMode::Fill);
    assert_eq!(edges, vec![(2, 6, 4.0, 0.0, 1)]);
}

#[test]
fn closepath_returns_to_the_subpath_start() {
    let edges = outline(b"M 1 1 L 3 1 L 3 3 z l 1 0", &identity_transform::<F32>(), PathMode::Fill);
    assert_eq!(edges, vec![(1, 3, 3.0, 0.0, 1), (1, 3, 1.0, 1.0, -1)]);
    // the relative lineto after `z` starts at the subpath start (1, 1): a
    // vertical one shows it
    let edges = outline(b"M 1 1 L 3 1 L 3 3 z l 0 2", &identity_transform::<F32>(), PathMode::Fill);
    assert_eq!(edges[2], (1, 3, 1.0, 0.0, 1));
}

#[test]
fn horizontal_and_vertical_lines_keep_the_other_coordinate() {
    let edges = outline(b"M 1 1 h 3 v 2 H 0 V 0", &identity_transform::<F32>(), PathMode::Fill);
    assert_eq!(edges, vec![(1, 3, 4.0, 0.0, 1), (0, 3, 0.0, 0.0, -1)]);
}

#[test]
fn matrix_maps_the_segment_ends() {
    let m = [F32(2.0), F32(0.0), F32(0.0), F32(3.0), F32(1.0), F32(-1.0)];
    let mapped = outline(b"M 0 0 L 2 4 L 1 2 z", &m, PathMode::Fill);
    let by_hand = outline(b"M 1 -1 L 5 11 L 3 5 z", &identity_transform::<F32>(), PathMode::Fill);
    assert_eq!(mapped, by_hand);
}

#[test]
fn smooth_cubic_reflects_the_last_control_point() {
    let m = [F32(3.0), F32(0.0), F32(0.0), F32(3.0), F32(1.0), F32(4.0)];
    for mode in [PathMode::Fill, PathMode::Stroke(F32(1.0))] {
        assert_eq!(
            outline(b"M 0 0 C 0 1 1 1 1 0 S 2 -1 2 0", &m, mode),
            outline(b"M 0 0 C 0 1 1 1 1 0 C 1 -1 2 -1 2 0", &m, mode)
        );
        assert_eq!(
            outline(b"M 0 0 L 1 0 S 2 1 3 0", &m, mode),
            outline(b"M 0 0 L 1 0 C 1 0 2 1 3 0", &m, mode)
        );
    }
}

#[test]
fn smooth_quadratic_reflects_the_last_control_point() {
    let m = [F32(3.0), F32(0.0), F32(0.0), F32(3.0), F32(1.0), F32(4.0)];
    for mode in [PathMode::Fill, PathMode::Stroke(F32(1.0))] {
        assert_eq!(
            outline(b"M 0 0 Q 1 2 2 0 T 4 0", &m, mode),
            outline(b"M 0 0 Q 1 2 2 0 Q 3 -2 4 0", &m, mode)
        );
        assert_eq!(
            outline(b"M 0 0 L 2 0 T 4 0", &m, mode),
            outline(b"M 0 0 L 2 0 Q 2 0 4 0", &m, mode)
        );
    }
}

#[test]
fn unparsable_number_ends_the_path() {
    let edges = outline(b"M 0 0 L 0 4 L 1ee5 5 L 0 0", &identity_transform::<F32>(), PathMode::Fill);
    assert_eq!(edges, vec![(0, 4, 0.0, 0.0, 1)]);
}

fn four_crossings(rule: FillRule) -> [u32; 4] {
    let mut pixels = [0u32; 4];
    let mut rasterizer = Rasterizer::<F32>::new(&mut pixels, 4, 1);
    rasterizer.push_edge(pt(0.0, 1.0), pt(0.0, 0.0));
    rasterizer.push_edge(pt(4.0, 0.0), pt(4.0, 1.0));
    rasterizer.push_edge(pt(1.0, 1.0), pt(1.0, 0.0));
    rasterizer.push_edge(pt(3.0, 0.0), pt(3.0, 1.0));
    rasterizer.rasterize(7, rule).unwrap();
    pixels
}

#[test]
fn nested_spans_wound_alike_fill_under_non_zero() {
    assert_eq!(four_crossings(FillRule::NonZero), [7, 7, 7, 7]);
}

#[test]
fn nested_spans_wound_alike_leave_a_hole_under_even_odd() {
    assert_eq!(four_crossings(FillRule::EvenOdd), [7, 0, 0, 7]);
}

#[test]
fn rasterizing_no_edges_changes_nothing() {
    let mut pixels = [5u32; 16];
    let mut rasterizer = Rasterizer::<F32>::new(&mut pixels, 4, 4);
    assert_eq!(rasterizer.rasterize(7, FillRule::NonZero), Ok(()));
    assert_eq!(rasterizer.rasterize(9, FillRule::EvenOdd), Ok(()));
    assert_eq!(pixels, [5u32; 16]);
}

#[test]
fn style_numbers_keep_the_old_value_when_unparsable() {
    let mut stack = StateStack::<State<F32>>::new();
    apply_style_attribute(b"stroke-width", b"3.5", &mut stack);
    apply_style_attribute(b"stroke-width", b"wide", &mut stack);
    apply_style_attribute(b"opacity", b"0.25", &mut stack);
    apply_style_attribute(b"opacity", b"-", &mut stack);
    assert_eq!(stack.current().stroke_width, F32(3.5));
    assert_eq!(stack.current().opacity, F32(0.25));
}

#[test]
fn style_transform_composes_after_the_current_one() {
    let mut stack = StateStack::<State<F32>>::new();
    apply_style_attribute(b"transform", b"translate(10 0)", &mut stack);
    apply_style_attribute(b"transform", b"scale(2)", &mut stack);
    // parent * child: scale first, then translate
    assert_eq!(matrix(stack.current().transform), [2.0, 0.0, 0.0, 2.0, 10.0, 0.0]);
}

#[test]
fn transform_list_is_the_left_to_right_product() {
    let t: [F32; 6] = parse_transform(b"translate(10 0) scale(2)");
    assert_eq!(matrix(t), [2.0, 0.0, 0.0, 2.0, 10.0, 0.0]);
    let t: [F32; 6] = parse_transform(b"scale(2) translate(10 0)");
    assert_eq!(matrix(t), [2.0, 0.0, 0.0, 2.0, 20.0, 0.0]);
}

#[test]
fn rejected_view_box_leaves_the_transform() {
    let mut stack = StateStack::<State<F32>>::new();
    apply_view_box_attribute(b"0 0 0 10", 20, 20, &mut stack);
    assert_eq!(matrix(stack.current().transform), [1.0, 0.0, 0.0, 1.0, 0.0, 0.0]);
    apply_view_box_attribute(b"5 5 10 40", 20, 20, &mut stack);
    assert_eq!(matrix(stack.current().transform), [2.0, 0.0, 0.0, 0.5, -10.0, -2.5]);
}

#[test]
fn span_past_the_buffer_stops_rasterizing() {
    let mut pixels = [0u32; 6];
    let mut rasterizer = Rasterizer::<F32>::new(&mut pixels, 4, 4);
    process_path(b"M 0 0 L 4 0 L 4 4 L 0 4 z", &identity_transform::<F32>(), &mut rasterizer, PathMode::Fill);
    assert_eq!(rasterizer.rasterize(9, FillRule::NonZero), Err(RenderError::SpanOutsideBuffer));
    assert_eq!(rasterizer.edge_count(), 0);
    // the first row fits and was painted before the second one failed
    assert_eq!(pixels, [9, 9, 9, 9, 0, 0]);
}

#[test]
fn short_buffer_is_fine_while_spans_stay_inside() {
    let mut pixels = [0u32; 6];
    let mut rasterizer = Rasterizer::<F32>::new(&mut pixels, 4, 4);
    process_path(b"M 1 0 L 3 0 L 3 1 L 1 1 z", &identity_transform::<F32>(), &mut rasterizer, PathMode::Fill);
    assert_eq!(rasterizer.rasterize(9, FillRule::NonZero), Ok(()));
    assert_eq!(pixels, [0, 9, 9, 0, 0, 0]);
}

#[test]
fn painted_colours_come_from_the_document() {
    let doc = br##"<svg><path d="M0 0 L8 0 L8 4 L0 4 Z"/><path style="fill: #f00" stroke="#0f0" stroke-width="1" d="M1 5 L7 5 L7 7 L1 7 Z"/></svg>"##;
    let mut pixels = vec![0x11223300u32; 8 * 8];
    parse_svg::<F32>(doc, &mut pixels, 8, 8).unwrap();
    for &p in &pixels {
        assert!(
            p == 0x11223300 || p == 0x000000FF || p == 0xFF0000FF || p == 0x00FF00FF,
            "unexpected colour {:08x}",
            p
        );
    }
    assert!(pixels.contains(&0x000000FF));
    assert!(pixels.contains(&0xFF0000FF));
    assert!(pixels.contains(&0x00FF00FF));
}
