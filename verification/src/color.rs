use vstd::prelude::*;
use vstd::arithmetic::div_mod::lemma_div_is_ordered;

use colored::Colorize;

use crate::config::ColorScheme;
use crate::pixel::{Pixel, Rgb};

verus! {

/// One channel of the pastel blend: 0.7 of the original mixed with 0.3 of
/// white, truncated to an integer byte; in tenths, (7 c + 765) / 10.
pub open spec fn pastel_channel(c: int) -> int {
    (7 * c + 765) / 10
}

/// The pastel blend of a pixel, channel by channel.
pub open spec fn pastel_rgb(p: Pixel) -> Rgb {
    Rgb {
        r: pastel_channel(p.r as int) as u8,
        g: pastel_channel(p.g as int) as u8,
        b: pastel_channel(p.b as int) as u8,
    }
}

/// The display color a scheme assigns to a pixel: the pixel's own color,
/// plain black, or the pastel blend.
pub open spec fn map_color(p: Pixel, scheme: ColorScheme) -> Rgb {
    match scheme {
        ColorScheme::Original => Rgb { r: p.r, g: p.g, b: p.b },
        ColorScheme::BlackAndWhite => Rgb { r: 0u8, g: 0u8, b: 0u8 },
        ColorScheme::Pastel => pastel_rgb(p),
    }
}

/// A pastel channel is itself a byte, and never darker than 76.
pub proof fn lemma_pastel_channel_bounds(c: int)
    requires
        0 <= c <= 255,
    ensures
        76 <= pastel_channel(c) <= 255,
{
    lemma_div_is_ordered(765, 7 * c + 765, 10);
    lemma_div_is_ordered(7 * c + 765, 2550, 10);
}

/// Blends a pixel's color with white to its pastel version.
pub fn pastellize_pixel(pixel: Pixel) -> (c: Rgb)
    ensures
        c == pastel_rgb(pixel),
{
    proof {
        lemma_pastel_channel_bounds(pixel.r as int);
        lemma_pastel_channel_bounds(pixel.g as int);
        lemma_pastel_channel_bounds(pixel.b as int);
    }
    Rgb {
        r: ((7 * (pixel.r as u32) + 765) / 10) as u8,
        g: ((7 * (pixel.g as u32) + 765) / 10) as u8,
        b: ((7 * (pixel.b as u32) + 765) / 10) as u8,
    }
}

/// Maps a pixel to the color its glyph is displayed in, under a scheme:
/// Original passes the pixel's channels through unchanged, BlackAndWhite
/// always yields black, and Pastel blends the pixel with white.
pub fn pixel_to_color(pixel: Pixel, scheme: &ColorScheme) -> (c: Rgb)
    ensures
        c == map_color(pixel, *scheme),
        scheme is Original ==> c == (Rgb { r: pixel.r, g: pixel.g, b: pixel.b }),
        scheme is BlackAndWhite ==> c == (Rgb { r: 0u8, g: 0u8, b: 0u8 }),
{
    match scheme {
        ColorScheme::Original => Rgb { r: pixel.r, g: pixel.g, b: pixel.b },
        ColorScheme::BlackAndWhite => Rgb { r: 0, g: 0, b: 0 },
        ColorScheme::Pastel => pastellize_pixel(pixel),
    }
}

/// The decimal digits of a non-negative number, most significant first.
pub open spec fn decimal_of(n: int) -> Seq<char>
    decreases n,
{
    if n < 10 {
        seq![digit_char(n)]
    } else {
        decimal_of(n / 10) + seq![digit_char(n % 10)]
    }
}

/// The character of one decimal digit.
pub open spec fn digit_char(d: int) -> char {
    if d == 0 {
        '0'
    } else if d == 1 {
        '1'
    } else if d == 2 {
        '2'
    } else if d == 3 {
        '3'
    } else if d == 4 {
        '4'
    } else if d == 5 {
        '5'
    } else if d == 6 {
        '6'
    } else if d == 7 {
        '7'
    } else if d == 8 {
        '8'
    } else {
        '9'
    }
}

/// The code of the truecolor foreground escape for a color:
/// `38;2;` followed by the three channels in decimal.
pub open spec fn truecolor_fg_code(col: Rgb) -> Seq<char> {
    seq!['3', '8', ';', '2', ';'] + decimal_of(col.r as int) + seq![';'] + decimal_of(
        col.g as int,
    ) + seq![';'] + decimal_of(col.b as int)
}

/// The code of one of the sixteen basic foreground colors, `30` to `37`
/// and `90` to `97`.
pub open spec fn basic_fg_code(code: Seq<char>) -> bool {
    &&& code.len() == 2
    &&& (code[0] == '3' || code[0] == '9')
    &&& ('0' <= code[1] && code[1] <= '7')
}

/// How a terminal cell for glyph `c` in color `col` may read: the glyph
/// alone when colors are disabled, or the glyph between a foreground
/// escape and the reset escape. The foreground code is the truecolor one
/// where the terminal supports it, and the nearest basic color otherwise.
pub open spec fn colorized_cell(s: Seq<char>, c: char, col: Rgb) -> bool {
    ||| s == seq![c]
    ||| exists|code: Seq<char>|
        {
            &&& (code == truecolor_fg_code(col) || basic_fg_code(code))
            &&& s == seq!['\x1b', '['] + code + seq!['m', c] + seq!['\x1b', '[', '0', 'm']
        }
}

/// Relies on colored's `Colorize::truecolor` and the `Display` of its
/// `ColoredString`: the glyph comes back plain when colors are disabled,
/// wrapped in the truecolor foreground escape and the reset escape when
/// the terminal supports truecolor, and wrapped in the escape of the
/// nearest basic color otherwise.
#[verifier::external_body]
fn colorize_glyph(c: char, color: Rgb) -> (s: String)
    ensures
        colorized_cell(s@, c, color),
{
    c.to_string().truecolor(color.r, color.g, color.b).to_string()
}

/// Renders one glyph in one display color as the text written to the
/// terminal for its cell.
pub fn colorize_ascii(c: char, color: Rgb) -> (s: String)
    ensures
        colorized_cell(s@, c, color),
{
    colorize_glyph(c, color)
}

} // verus!
