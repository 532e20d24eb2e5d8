use minisvg::raster::{fill_scanline, fill_span, is_inside};
use minisvg::state::FillRule;

#[test]
fn spans_are_clamped_to_the_row() {
    let mut pixels = vec![0u32; 3 * 4];
    fill_span(&mut pixels, 4, 1, -5, 2, 7);
    assert_eq!(pixels, vec![0, 0, 0, 0, 7, 7, 0, 0, 0, 0, 0, 0]);
    fill_span(&mut pixels, 4, 2, 3, 100, 9);
    assert_eq!(pixels, vec![0, 0, 0, 0, 7, 7, 0, 0, 0, 0, 0, 9]);
    fill_span(&mut pixels, 4, 0, 3, 1, 5);
    assert_eq!(pixels, vec![0, 0, 0, 0, 7, 7, 0, 0, 0, 0, 0, 9]);
}

#[test]
fn winding_rules() {
    assert!(!is_inside(0, FillRule::NonZero));
    assert!(is_inside(2, FillRule::NonZero));
    assert!(is_inside(-1, FillRule::NonZero));
    assert!(!is_inside(2, FillRule::EvenOdd));
    assert!(is_inside(-3, FillRule::EvenOdd));
    assert!(!is_inside(0, FillRule::EvenOdd));
}

#[test]
fn nested_outlines_leave_a_hole_only_under_even_odd() {
    // Two nested outlines wound the same way: crossings at 1, 3 (in) and 6, 8 (out).
    let crossings = [(1, 1), (3, 1), (6, -1), (8, -1)];
    let mut nonzero = vec![0u32; 10];
    fill_scanline(&mut nonzero, 10, 0, &crossings, FillRule::NonZero, 1);
    assert_eq!(nonzero, vec![0, 1, 1, 1, 1, 1, 1, 1, 0, 0]);
    let mut evenodd = vec![0u32; 10];
    fill_scanline(&mut evenodd, 10, 0, &crossings, FillRule::EvenOdd, 1);
    assert_eq!(evenodd, vec![0, 1, 1, 0, 0, 0, 1, 1, 0, 0]);
}
