//! Paint values: `none`, `#rgb` and `#rrggbb`, packed as `0xRRGGBBAA`.
use vstd::prelude::*;

verus! {

/// Opaque black, `0x000000FF`: what a paint value that is not a hex colour stands for.
pub const OPAQUE_BLACK: u32 = 0x000000FF;

/// Value of one hexadecimal digit; any other byte counts as 0.
pub open spec fn hex_digit_value(c: u8) -> nat {
    if 0x30 <= c <= 0x39 {
        (c - 0x30) as nat
    } else if 0x61 <= c <= 0x66 {
        (c - 0x61 + 10) as nat
    } else if 0x41 <= c <= 0x46 {
        (c - 0x41 + 10) as nat
    } else {
        0
    }
}

/// The packed colour with the given channels and a full alpha channel.
pub open spec fn rgba_opaque(r: nat, g: nat, b: nat) -> nat {
    r * 0x1000000 + g * 0x10000 + b * 0x100 + 0xFF
}

/// The bytes of the word `none`.
pub open spec fn is_none_keyword(val: Seq<u8>) -> bool {
    val =~= seq![0x6eu8, 0x6fu8, 0x6eu8, 0x65u8]
}

/// What a paint attribute value means: `None` for `none`, the colour of a
/// `#rrggbb` or `#rgb` value (each short digit doubled), and opaque black for
/// anything else.
pub open spec fn spec_parse_color(val: Seq<u8>) -> Option<u32> {
    if is_none_keyword(val) {
        None
    } else if val.len() == 0 || val[0] != 0x23u8 {
        Some(OPAQUE_BLACK)
    } else if val.len() == 7 {
        Some(
            rgba_opaque(
                hex_digit_value(val[1]) * 16 + hex_digit_value(val[2]),
                hex_digit_value(val[3]) * 16 + hex_digit_value(val[4]),
                hex_digit_value(val[5]) * 16 + hex_digit_value(val[6]),
            ) as u32,
        )
    } else if val.len() == 4 {
        Some(
            rgba_opaque(
                hex_digit_value(val[1]) * 17,
                hex_digit_value(val[2]) * 17,
                hex_digit_value(val[3]) * 17,
            ) as u32,
        )
    } else {
        Some(OPAQUE_BLACK)
    }
}

/// Value of one hexadecimal digit (0 for any other byte).
pub fn hex_digit(c: u8) -> (v: u32)
    ensures
        v == hex_digit_value(c),
        v < 16,
{
    if 0x30u8 <= c && c <= 0x39u8 {
        (c - 0x30u8) as u32
    } else if 0x61u8 <= c && c <= 0x66u8 {
        (c - 0x61u8 + 10) as u32
    } else if 0x41u8 <= c && c <= 0x46u8 {
        (c - 0x41u8 + 10) as u32
    } else {
        0
    }
}

fn pack_rgb(r: u32, g: u32, b: u32) -> (c: u32)
    requires
        r < 256,
        g < 256,
        b < 256,
    ensures
        c == rgba_opaque(r as nat, g as nat, b as nat),
{
    let c = (r << 24) | (g << 16) | (b << 8) | 0xFF;
    assert(c == r * 0x1000000 + g * 0x10000 + b * 0x100 + 0xFF) by (bit_vector)
        requires
            r < 256,
            g < 256,
            b < 256,
            c == (r << 24) | (g << 16) | (b << 8) | 0xFF,
    ;
    c
}

/// Parses a paint attribute value (`fill`, `stroke`).
pub fn parse_color(val: &[u8]) -> (res: Option<u32>)
    ensures
        res == spec_parse_color(val@),
{
    if val.len() == 4 && val[0] == 0x6eu8 && val[1] == 0x6fu8 && val[2] == 0x6eu8 && val[3] == 0x65u8 {
        assert(is_none_keyword(val@));
        return None;
    }
    assert(!is_none_keyword(val@)) by {
        if is_none_keyword(val@) {
            assert(val@.len() == 4 && val@[0] == 0x6eu8 && val@[1] == 0x6fu8 && val@[2] == 0x6eu8
                && val@[3] == 0x65u8);
        }
    }
    if val.len() == 0 || val[0] != 0x23u8 {
        return Some(OPAQUE_BLACK);
    }
    if val.len() == 7 {
        let r = (hex_digit(val[1]) << 4) | hex_digit(val[2]);
        let g = (hex_digit(val[3]) << 4) | hex_digit(val[4]);
        let b = (hex_digit(val[5]) << 4) | hex_digit(val[6]);
        proof {
            lemma_high_low_nibbles(hex_digit_value(val[1]) as u32, hex_digit_value(val[2]) as u32);
            lemma_high_low_nibbles(hex_digit_value(val[3]) as u32, hex_digit_value(val[4]) as u32);
            lemma_high_low_nibbles(hex_digit_value(val[5]) as u32, hex_digit_value(val[6]) as u32);
        }
        return Some(pack_rgb(r, g, b));
    } else if val.len() == 4 {
        let r = hex_digit(val[1]);
        let g = hex_digit(val[2]);
        let b = hex_digit(val[3]);
        proof {
            lemma_high_low_nibbles(r, r);
            lemma_high_low_nibbles(g, g);
            lemma_high_low_nibbles(b, b);
        }
        return Some(pack_rgb((r << 4) | r, (g << 4) | g, (b << 4) | b));
    }
    Some(OPAQUE_BLACK)
}

proof fn lemma_high_low_nibbles(hi: u32, lo: u32)
    requires
        hi < 16,
        lo < 16,
    ensures
        (hi << 4) | lo == hi * 16 + lo,
        (hi << 4) | lo < 256,
{
    assert((hi << 4) | lo == hi * 16 + lo) by (bit_vector)
        requires
            hi < 16,
            lo < 16,
    ;
}

/// The shorthand `#rgb` is the colour `#rrggbb`: each digit is doubled.
pub proof fn lemma_short_hex_expands(r: u8, g: u8, b: u8)
    ensures
        spec_parse_color(seq![0x23u8, r, g, b]) == spec_parse_color(seq![0x23u8, r, r, g, g, b, b]),
{
    let short = seq![0x23u8, r, g, b];
    let long = seq![0x23u8, r, r, g, g, b, b];
    assert(!is_none_keyword(short)) by {
        if is_none_keyword(short) {
            assert(short[0] == seq![0x6eu8, 0x6fu8, 0x6eu8, 0x65u8][0]);
        }
    }
    assert(!is_none_keyword(long)) by {
        if is_none_keyword(long) {
            assert(long.len() == 4);
        }
    }
    assert(short.len() == 4 && short[0] == 0x23u8 && short[1] == r && short[2] == g && short[3] == b);
    assert(long.len() == 7 && long[1] == r && long[2] == r && long[3] == g && long[4] == g && long[5] == b
        && long[6] == b);
}

/// Opaque black, the colour of a value that is not a hex colour, has a full
/// alpha channel like every parsed colour.
pub proof fn lemma_parsed_colors_are_opaque(val: Seq<u8>)
    ensures
        spec_parse_color(val) matches Some(c) ==> c % 256 == 255,
{
    if !is_none_keyword(val) && val.len() > 0 && val[0] == 0x23u8 {
        if val.len() == 7 {
            lemma_rgba_low_byte(
                hex_digit_value(val[1]) * 16 + hex_digit_value(val[2]),
                hex_digit_value(val[3]) * 16 + hex_digit_value(val[4]),
                hex_digit_value(val[5]) * 16 + hex_digit_value(val[6]),
            );
        } else if val.len() == 4 {
            lemma_rgba_low_byte(
                hex_digit_value(val[1]) * 17,
                hex_digit_value(val[2]) * 17,
                hex_digit_value(val[3]) * 17,
            );
        }
    }
}

proof fn lemma_rgba_low_byte(r: nat, g: nat, b: nat)
    requires
        r < 256,
        g < 256,
        b < 256,
    ensures
        rgba_opaque(r, g, b) < 0x1_0000_0000,
        (rgba_opaque(r, g, b) as u32) % 256 == 255,
{
    assert(rgba_opaque(r, g, b) == (r * 0x10000 + g * 0x100 + b) * 0x100 + 0xFF);
    assert(r * 0x10000 + g * 0x100 + b < 0x1000000) by (nonlinear_arith)
        requires
            r < 256,
            g < 256,
            b < 256,
    ;
    let q = r * 0x10000 + g * 0x100 + b;
    assert((q * 0x100 + 0xFF) % 256 == 255) by (nonlinear_arith);
}

/// A `#rrggbb` colour packs its channels as `0xRRGGBBAA`: red in the top
/// byte, then green, then blue, and a full alpha channel in the low byte.
pub proof fn lemma_hex_channels(val: Seq<u8>)
    requires
        val.len() == 7,
        val[0] == 0x23u8,
    ensures
        ({
            let r = hex_digit_value(val[1]) * 16 + hex_digit_value(val[2]);
            let g = hex_digit_value(val[3]) * 16 + hex_digit_value(val[4]);
            let b = hex_digit_value(val[5]) * 16 + hex_digit_value(val[6]);
            spec_parse_color(val) matches Some(c) && c / 0x1000000 == r && (c / 0x10000) % 0x100 == g
                && (c / 0x100) % 0x100 == b && c % 0x100 == 0xFF
        }),
{
    assert(!is_none_keyword(val)) by {
        if is_none_keyword(val) {
            assert(val.len() == 4);
        }
    }
    let r = hex_digit_value(val[1]) * 16 + hex_digit_value(val[2]);
    let g = hex_digit_value(val[3]) * 16 + hex_digit_value(val[4]);
    let b = hex_digit_value(val[5]) * 16 + hex_digit_value(val[6]);
    assert(r < 256 && g < 256 && b < 256);
    lemma_rgba_low_byte(r, g, b);
    let n = rgba_opaque(r, g, b);
    assert(n / 0x1000000 == r && (n / 0x10000) % 0x100 == g && (n / 0x100) % 0x100 == b && n % 0x100 == 0xFF)
        by (nonlinear_arith)
        requires
            r < 256,
            g < 256,
            b < 256,
            n == r * 0x1000000 + g * 0x10000 + b * 0x100 + 0xFF,
    ;
}

} // verus!
