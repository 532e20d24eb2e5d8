//! The names that the reader recognises, as byte sequences, with a test for each.
use vstd::prelude::*;

verus! {

/// The name of the `svg` element.
pub open spec fn kw_svg() -> Seq<u8> {
    seq![0x73u8, 0x76u8, 0x67u8]
}

/// Whether `s` is the name of the `svg` element.
pub fn is_svg(s: &[u8]) -> (r: bool)
    ensures
        r == (s@ == kw_svg()),
{
    if s.len() == 3 && s[0] == 0x73u8 && s[1] == 0x76u8 && s[2] == 0x67u8 {
        assert(s@ =~= kw_svg());
        true
    } else {
        false
    }
}

/// The name of the `viewBox` attribute.
pub open spec fn kw_view_box() -> Seq<u8> {
    seq![0x76u8, 0x69u8, 0x65u8, 0x77u8, 0x42u8, 0x6fu8, 0x78u8]
}

/// Whether `s` is the name of the `viewBox` attribute.
pub fn is_view_box(s: &[u8]) -> (r: bool)
    ensures
        r == (s@ == kw_view_box()),
{
    if s.len() == 7 && s[0] == 0x76u8 && s[1] == 0x69u8 && s[2] == 0x65u8 && s[3] == 0x77u8 && s[4] == 0x42u8 && s[5] == 0x6fu8 && s[6] == 0x78u8 {
        assert(s@ =~= kw_view_box());
        true
    } else {
        false
    }
}

/// The name of the `style` attribute.
pub open spec fn kw_style() -> Seq<u8> {
    seq![0x73u8, 0x74u8, 0x79u8, 0x6cu8, 0x65u8]
}

/// Whether `s` is the name of the `style` attribute.
pub fn is_style(s: &[u8]) -> (r: bool)
    ensures
        r == (s@ == kw_style()),
{
    if s.len() == 5 && s[0] == 0x73u8 && s[1] == 0x74u8 && s[2] == 0x79u8 && s[3] == 0x6cu8 && s[4] == 0x65u8 {
        assert(s@ =~= kw_style());
        true
    } else {
        false
    }
}

/// The name of the `path` element.
pub open spec fn kw_path() -> Seq<u8> {
    seq![0x70u8, 0x61u8, 0x74u8, 0x68u8]
}

/// Whether `s` is the name of the `path` element.
pub fn is_path(s: &[u8]) -> (r: bool)
    ensures
        r == (s@ == kw_path()),
{
    if s.len() == 4 && s[0] == 0x70u8 && s[1] == 0x61u8 && s[2] == 0x74u8 && s[3] == 0x68u8 {
        assert(s@ =~= kw_path());
        true
    } else {
        false
    }
}

/// The name of the `d` attribute of a path.
pub open spec fn kw_d() -> Seq<u8> {
    seq![0x64u8]
}

/// Whether `s` is the name of the `d` attribute of a path.
pub fn is_d(s: &[u8]) -> (r: bool)
    ensures
        r == (s@ == kw_d()),
{
    if s.len() == 1 && s[0] == 0x64u8 {
        assert(s@ =~= kw_d());
        true
    } else {
        false
    }
}

/// The name of the `fill` property.
pub open spec fn kw_fill() -> Seq<u8> {
    seq![0x66u8, 0x69u8, 0x6cu8, 0x6cu8]
}

/// Whether `s` is the name of the `fill` property.
pub fn is_fill(s: &[u8]) -> (r: bool)
    ensures
        r == (s@ == kw_fill()),
{
    if s.len() == 4 && s[0] == 0x66u8 && s[1] == 0x69u8 && s[2] == 0x6cu8 && s[3] == 0x6cu8 {
        assert(s@ =~= kw_fill());
        true
    } else {
        false
    }
}

/// The name of the `fill-rule` property.
pub open spec fn kw_fill_rule() -> Seq<u8> {
    seq![0x66u8, 0x69u8, 0x6cu8, 0x6cu8, 0x2du8, 0x72u8, 0x75u8, 0x6cu8, 0x65u8]
}

/// Whether `s` is the name of the `fill-rule` property.
pub fn is_fill_rule(s: &[u8]) -> (r: bool)
    ensures
        r == (s@ == kw_fill_rule()),
{
    if s.len() == 9 && s[0] == 0x66u8 && s[1] == 0x69u8 && s[2] == 0x6cu8 && s[3] == 0x6cu8 && s[4] == 0x2du8 && s[5] == 0x72u8 && s[6] == 0x75u8 && s[7] == 0x6cu8 && s[8] == 0x65u8 {
        assert(s@ =~= kw_fill_rule());
        true
    } else {
        false
    }
}

/// The name of the `evenodd` fill rule.
pub open spec fn kw_evenodd() -> Seq<u8> {
    seq![0x65u8, 0x76u8, 0x65u8, 0x6eu8, 0x6fu8, 0x64u8, 0x64u8]
}

/// Whether `s` is the name of the `evenodd` fill rule.
pub fn is_evenodd(s: &[u8]) -> (r: bool)
    ensures
        r == (s@ == kw_evenodd()),
{
    if s.len() == 7 && s[0] == 0x65u8 && s[1] == 0x76u8 && s[2] == 0x65u8 && s[3] == 0x6eu8 && s[4] == 0x6fu8 && s[5] == 0x64u8 && s[6] == 0x64u8 {
        assert(s@ =~= kw_evenodd());
        true
    } else {
        false
    }
}

/// The name of the `stroke` property.
pub open spec fn kw_stroke() -> Seq<u8> {
    seq![0x73u8, 0x74u8, 0x72u8, 0x6fu8, 0x6bu8, 0x65u8]
}

/// Whether `s` is the name of the `stroke` property.
pub fn is_stroke(s: &[u8]) -> (r: bool)
    ensures
        r == (s@ == kw_stroke()),
{
    if s.len() == 6 && s[0] == 0x73u8 && s[1] == 0x74u8 && s[2] == 0x72u8 && s[3] == 0x6fu8 && s[4] == 0x6bu8 && s[5] == 0x65u8 {
        assert(s@ =~= kw_stroke());
        true
    } else {
        false
    }
}

/// The name of the `stroke-width` property.
pub open spec fn kw_stroke_width() -> Seq<u8> {
    seq![0x73u8, 0x74u8, 0x72u8, 0x6fu8, 0x6bu8, 0x65u8, 0x2du8, 0x77u8, 0x69u8, 0x64u8, 0x74u8, 0x68u8]
}

/// Whether `s` is the name of the `stroke-width` property.
pub fn is_stroke_width(s: &[u8]) -> (r: bool)
    ensures
        r == (s@ == kw_stroke_width()),
{
    if s.len() == 12 && s[0] == 0x73u8 && s[1] == 0x74u8 && s[2] == 0x72u8 && s[3] == 0x6fu8 && s[4] == 0x6bu8 && s[5] == 0x65u8 && s[6] == 0x2du8 && s[7] == 0x77u8 && s[8] == 0x69u8 && s[9] == 0x64u8 && s[10] == 0x74u8 && s[11] == 0x68u8 {
        assert(s@ =~= kw_stroke_width());
        true
    } else {
        false
    }
}

/// The name of the `opacity` property.
pub open spec fn kw_opacity() -> Seq<u8> {
    seq![0x6fu8, 0x70u8, 0x61u8, 0x63u8, 0x69u8, 0x74u8, 0x79u8]
}

/// Whether `s` is the name of the `opacity` property.
pub fn is_opacity(s: &[u8]) -> (r: bool)
    ensures
        r == (s@ == kw_opacity()),
{
    if s.len() == 7 && s[0] == 0x6fu8 && s[1] == 0x70u8 && s[2] == 0x61u8 && s[3] == 0x63u8 && s[4] == 0x69u8 && s[5] == 0x74u8 && s[6] == 0x79u8 {
        assert(s@ =~= kw_opacity());
        true
    } else {
        false
    }
}

/// The name of the `transform` attribute.
pub open spec fn kw_transform() -> Seq<u8> {
    seq![0x74u8, 0x72u8, 0x61u8, 0x6eu8, 0x73u8, 0x66u8, 0x6fu8, 0x72u8, 0x6du8]
}

/// Whether `s` is the name of the `transform` attribute.
pub fn is_transform(s: &[u8]) -> (r: bool)
    ensures
        r == (s@ == kw_transform()),
{
    if s.len() == 9 && s[0] == 0x74u8 && s[1] == 0x72u8 && s[2] == 0x61u8 && s[3] == 0x6eu8 && s[4] == 0x73u8 && s[5] == 0x66u8 && s[6] == 0x6fu8 && s[7] == 0x72u8 && s[8] == 0x6du8 {
        assert(s@ =~= kw_transform());
        true
    } else {
        false
    }
}

/// The name of the `matrix` transform.
pub open spec fn kw_matrix() -> Seq<u8> {
    seq![0x6du8, 0x61u8, 0x74u8, 0x72u8, 0x69u8, 0x78u8]
}

/// Whether `s` is the name of the `matrix` transform.
pub fn is_matrix(s: &[u8]) -> (r: bool)
    ensures
        r == (s@ == kw_matrix()),
{
    if s.len() == 6 && s[0] == 0x6du8 && s[1] == 0x61u8 && s[2] == 0x74u8 && s[3] == 0x72u8 && s[4] == 0x69u8 && s[5] == 0x78u8 {
        assert(s@ =~= kw_matrix());
        true
    } else {
        false
    }
}

/// The name of the `translate` transform.
pub open spec fn kw_translate() -> Seq<u8> {
    seq![0x74u8, 0x72u8, 0x61u8, 0x6eu8, 0x73u8, 0x6cu8, 0x61u8, 0x74u8, 0x65u8]
}

/// Whether `s` is the name of the `translate` transform.
pub fn is_translate(s: &[u8]) -> (r: bool)
    ensures
        r == (s@ == kw_translate()),
{
    if s.len() == 9 && s[0] == 0x74u8 && s[1] == 0x72u8 && s[2] == 0x61u8 && s[3] == 0x6eu8 && s[4] == 0x73u8 && s[5] == 0x6cu8 && s[6] == 0x61u8 && s[7] == 0x74u8 && s[8] == 0x65u8 {
        assert(s@ =~= kw_translate());
        true
    } else {
        false
    }
}

/// The name of the `scale` transform.
pub open spec fn kw_scale() -> Seq<u8> {
    seq![0x73u8, 0x63u8, 0x61u8, 0x6cu8, 0x65u8]
}

/// Whether `s` is the name of the `scale` transform.
pub fn is_scale(s: &[u8]) -> (r: bool)
    ensures
        r == (s@ == kw_scale()),
{
    if s.len() == 5 && s[0] == 0x73u8 && s[1] == 0x63u8 && s[2] == 0x61u8 && s[3] == 0x6cu8 && s[4] == 0x65u8 {
        assert(s@ =~= kw_scale());
        true
    } else {
        false
    }
}

/// The name of the `rotate` transform.
pub open spec fn kw_rotate() -> Seq<u8> {
    seq![0x72u8, 0x6fu8, 0x74u8, 0x61u8, 0x74u8, 0x65u8]
}

/// Whether `s` is the name of the `rotate` transform.
pub fn is_rotate(s: &[u8]) -> (r: bool)
    ensures
        r == (s@ == kw_rotate()),
{
    if s.len() == 6 && s[0] == 0x72u8 && s[1] == 0x6fu8 && s[2] == 0x74u8 && s[3] == 0x61u8 && s[4] == 0x74u8 && s[5] == 0x65u8 {
        assert(s@ =~= kw_rotate());
        true
    } else {
        false
    }
}

/// The name of the `skewX` transform.
pub open spec fn kw_skew_x() -> Seq<u8> {
    seq![0x73u8, 0x6bu8, 0x65u8, 0x77u8, 0x58u8]
}

/// Whether `s` is the name of the `skewX` transform.
pub fn is_skew_x(s: &[u8]) -> (r: bool)
    ensures
        r == (s@ == kw_skew_x()),
{
    if s.len() == 5 && s[0] == 0x73u8 && s[1] == 0x6bu8 && s[2] == 0x65u8 && s[3] == 0x77u8 && s[4] == 0x58u8 {
        assert(s@ =~= kw_skew_x());
        true
    } else {
        false
    }
}

/// The name of the `skewY` transform.
pub open spec fn kw_skew_y() -> Seq<u8> {
    seq![0x73u8, 0x6bu8, 0x65u8, 0x77u8, 0x59u8]
}

/// Whether `s` is the name of the `skewY` transform.
pub fn is_skew_y(s: &[u8]) -> (r: bool)
    ensures
        r == (s@ == kw_skew_y()),
{
    if s.len() == 5 && s[0] == 0x73u8 && s[1] == 0x6bu8 && s[2] == 0x65u8 && s[3] == 0x77u8 && s[4] == 0x59u8 {
        assert(s@ =~= kw_skew_y());
        true
    } else {
        false
    }
}

} // verus!
