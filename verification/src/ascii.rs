use vstd::prelude::*;
use vstd::arithmetic::div_mod::{
    lemma_div_is_ordered, lemma_div_is_ordered_by_denominator, lemma_div_multiples_vanish,
    lemma_fundamental_div_mod,
};
use vstd::arithmetic::mul::lemma_mul_inequality;
use vstd::string::StrSliceExecFns;
use vstd::string::StringExecFns;

use crate::config::Granularity;
use crate::pixel::Pixel;

verus! {

/// The master glyph ramp, ordered darkest to lightest.
pub const MASTER_GLYPHS: &'static str = "@&%QWNM0gB$#DR8mHXKAUbGOpV4d9h6PkqwSE2]ayjxY5Zoenult13If}C{iF|()7Jv)TLs?z*/cr!+<>;=^,_:'.-` ";

/// How many glyphs the master ramp holds.
pub const MASTER_GLYPH_COUNT: usize = 92;

/// The master ramp, as the character sequence the contracts speak of.
pub open spec fn master_ramp() -> Seq<char> {
    MASTER_GLYPHS@
}

/// The master ramp holds exactly `MASTER_GLYPH_COUNT` glyphs.
pub proof fn lemma_master_ramp_len()
    ensures
        master_ramp().len() == MASTER_GLYPH_COUNT,
{
    reveal_strlit("@&%QWNM0gB$#DR8mHXKAUbGOpV4d9h6PkqwSE2]ayjxY5Zoenult13If}C{iF|()7Jv)TLs?z*/cr!+<>;=^,_:'.-` ");
}

/// How many glyphs a granularity (in thousandths) retains: the rounded
/// value of 1 + (master length - 1) * granularity.
pub open spec fn glyph_count(thousandths: int) -> int {
    (1500 + (MASTER_GLYPH_COUNT - 1) * thousandths) / 1000
}

/// The glyph ramp a granularity derives from the master ramp: the full
/// ramp when the count reaches the master's length, otherwise every
/// (length / count)-th glyph, count glyphs in all.
pub open spec fn ramp_of(thousandths: int) -> Seq<char> {
    let count = glyph_count(thousandths);
    if count >= MASTER_GLYPH_COUNT {
        master_ramp()
    } else {
        Seq::new(count as nat, |i: int| master_ramp()[i * (MASTER_GLYPH_COUNT as int / count)])
    }
}

/// Every valid granularity asks for between 1 and 92 glyphs.
pub proof fn lemma_glyph_count_bounds(m: int)
    requires
        0 <= m <= 1000,
    ensures
        1 <= glyph_count(m) <= 92,
{
    lemma_mul_inequality(0, m, 91);
    lemma_mul_inequality(m, 1000, 91);
    lemma_div_is_ordered(1500, 1500 + 91 * m, 1000);
    lemma_div_is_ordered(1500 + 91 * m, 92500, 1000);
}

/// More granularity never asks for fewer glyphs.
pub proof fn lemma_glyph_count_monotone(m1: int, m2: int)
    requires
        0 <= m1 <= m2,
    ensures
        glyph_count(m1) <= glyph_count(m2),
{
    lemma_mul_inequality(m1, m2, 91);
    lemma_div_is_ordered(1500 + 91 * m1, 1500 + 91 * m2, 1000);
}

/// The derived ramp has exactly `glyph_count` glyphs.
pub proof fn lemma_ramp_len(m: int)
    requires
        0 <= m <= 1000,
    ensures
        ramp_of(m).len() == glyph_count(m),
{
    lemma_master_ramp_len();
    lemma_glyph_count_bounds(m);
}

/// The glyph ramp never shrinks as granularity grows: its length is
/// monotonically non-decreasing in the granularity.
pub proof fn lemma_ramp_len_monotone(g1: Granularity, g2: Granularity)
    requires
        g1.valid(),
        g2.valid(),
        g1.thousandths <= g2.thousandths,
    ensures
        ramp_of(g1.thousandths as int).len() <= ramp_of(g2.thousandths as int).len(),
{
    lemma_ramp_len(g1.thousandths as int);
    lemma_ramp_len(g2.thousandths as int);
    lemma_glyph_count_monotone(g1.thousandths as int, g2.thousandths as int);
}

/// Perceived brightness of a pixel, by the ITU-R luma weighting
/// 0.3 R + 0.59 G + 0.11 B, truncated to a byte: in hundredths,
/// (30 R + 59 G + 11 B) / 100.
pub open spec fn luma(p: Pixel) -> int {
    (30 * p.r + 59 * p.g + 11 * p.b) / 100
}

/// Which entry of a ramp of `len` glyphs stands for a brightness byte:
/// the darkest entry at 0, the lightest at 255, truncated in between.
pub open spec fn glyph_index(brightness: int, len: int) -> int {
    brightness * (len - 1) / 255
}

/// The luma of every pixel is itself a byte.
pub proof fn lemma_luma_bounds(p: Pixel)
    ensures
        0 <= luma(p) <= 255,
{
    assert(0 <= 30 * p.r + 59 * p.g + 11 * p.b <= 25500);
    lemma_div_is_ordered(0, 30 * p.r + 59 * p.g + 11 * p.b, 100);
    lemma_div_is_ordered(30 * p.r + 59 * p.g + 11 * p.b, 25500, 100);
}

/// A glyph index never leaves the ramp: brightness bytes land in
/// [0, len - 1].
pub proof fn lemma_glyph_index_in_range(brightness: int, len: int)
    requires
        0 <= brightness <= 255,
        1 <= len,
    ensures
        0 <= glyph_index(brightness, len) <= len - 1,
{
    lemma_mul_inequality(brightness, 255, len - 1);
    lemma_div_is_ordered(0, brightness * (len - 1), 255);
    lemma_div_is_ordered(brightness * (len - 1), 255 * (len - 1), 255);
    lemma_div_multiples_vanish(len - 1, 255);
}

/// A brighter pixel never selects an earlier glyph: the glyph index is
/// monotonically non-decreasing in brightness for any fixed ramp length.
pub proof fn lemma_glyph_index_monotone(b1: int, b2: int, len: int)
    requires
        0 <= b1 <= b2,
        1 <= len,
    ensures
        glyph_index(b1, len) <= glyph_index(b2, len),
{
    lemma_mul_inequality(b1, b2, len - 1);
    lemma_div_is_ordered(b1 * (len - 1), b2 * (len - 1), 255);
}

/// Derives the ordered glyph ramp a granularity retains: the whole master
/// ramp at 1.0, a single glyph at 0.0, and in between the rounded share of
/// the master ramp, sampled at an integer stride.
pub fn get_ascii_set(granularity: Granularity) -> (r: String)
    requires
        granularity.valid(),
    ensures
        r@ == ramp_of(granularity.thousandths as int),
        r@.len() == glyph_count(granularity.thousandths as int),
        granularity.thousandths == 1000 ==> r@ == master_ramp(),
        granularity.thousandths == 0 ==> r@.len() == 1,
{
    let ghost m = granularity.thousandths as int;
    proof {
        lemma_master_ramp_len();
        lemma_glyph_count_bounds(m);
        lemma_ramp_len(m);
    }
    let count: usize = (1500 + (MASTER_GLYPH_COUNT - 1) * (granularity.thousandths as usize))
        / 1000;
    assert(count == glyph_count(m));
    if count >= MASTER_GLYPH_COUNT {
        MASTER_GLYPHS.to_owned()
    } else {
        let step: usize = MASTER_GLYPH_COUNT / count;
        proof {
            lemma_div_is_ordered_by_denominator(92, count as int, 92);
            lemma_fundamental_div_mod(92, count as int);
        }
        assert(1 <= step);
        assert(count * step <= 92);
        let mut out = String::new();
        let mut k: usize = 0;
        while k < count
            invariant
                k <= count,
                1 <= count < 92,
                count == glyph_count(m),
                step == MASTER_GLYPH_COUNT as int / count as int,
                1 <= step,
                count * step <= 92,
                master_ramp().len() == 92,
                out@ == Seq::new(k as nat, |i: int| master_ramp()[i * step]),
            decreases count - k,
        {
            proof {
                lemma_mul_inequality(k as int, count - 1, step as int);
            }
            assert(k * step <= (count - 1) * step);
            assert((count - 1) * step == count * step - step) by (nonlinear_arith);
            let idx = k * step;
            let piece = MASTER_GLYPHS.substring_char(idx, idx + 1);
            out.append(piece);
            proof {
                assert(piece@ =~= seq![master_ramp()[k as int * step as int]]);
                assert(out@ =~= Seq::new(
                    (k + 1) as nat,
                    |i: int| master_ramp()[i * step],
                ));
            }
            k = k + 1;
        }
        proof {
            assert(out@ =~= ramp_of(m));
        }
        out
    }
}

/// Converts one pixel's color channels into a single brightness byte.
pub fn pixel_to_brightness(pixel: Pixel) -> (b: u8)
    ensures
        b as int == luma(pixel),
{
    proof {
        lemma_luma_bounds(pixel);
    }
    let weighted: u32 = 30 * pixel.r as u32 + 59 * pixel.g as u32 + 11 * pixel.b as u32;
    (weighted / 100) as u8
}

/// Picks the glyph of a ramp that stands for a pixel's brightness: the
/// darkest glyph for luma 0, the lightest for luma 255.
pub fn pixel_to_ascii(pixel: Pixel, ascii_set: &String) -> (c: char)
    requires
        1 <= ascii_set@.len(),
        255 * (ascii_set@.len() - 1) <= usize::MAX,
    ensures
        c == ascii_set@[glyph_index(luma(pixel), ascii_set@.len() as int)],
{
    let brightness = pixel_to_brightness(pixel);
    let len = ascii_set.as_str().unicode_len();
    proof {
        lemma_luma_bounds(pixel);
        lemma_mul_inequality(brightness as int, 255, len - 1);
        lemma_glyph_index_in_range(brightness as int, len as int);
    }
    let char_idx: usize = (brightness as usize) * (len - 1) / 255;
    ascii_set.as_str().get_char(char_idx)
}

} // verus!
