use vstd::prelude::*;
use vstd::arithmetic::div_mod::lemma_fundamental_div_mod_converse;
use vstd::arithmetic::mul::lemma_mul_inequality;

use crate::ascii::{glyph_index, luma, ramp_of};
use crate::config::{ColorScheme, Granularity};
use crate::color::{colorized_cell, map_color};
use crate::pixel::{Pixel, Rgb};

verus! {

/// One cell of a rendered frame: a glyph and the color it is shown in.
#[derive(Clone, Copy, PartialEq, Eq, Structural, Debug)]
pub struct RenderedCell {
    pub glyph: char,
    pub color: Rgb,
}

/// What can go wrong while rasterizing a frame.
#[derive(Clone, Copy, PartialEq, Eq, Structural, Debug)]
pub enum RenderError {
    /// The source raster has no pixels to resample from.
    EmptySource,
    /// A pixel buffer does not match the dimensions it was declared with.
    BufferMismatch,
}

impl RenderError {
    /// The message shown for the error.
    pub fn message(&self) -> (s: &'static str)
        ensures
            *self is EmptySource ==> s@ == "cannot resize an empty image"@,
            *self is BufferMismatch ==> s@ == "pixel buffer does not match its dimensions"@,
    {
        match self {
            RenderError::EmptySource => "cannot resize an empty image",
            RenderError::BufferMismatch => "pixel buffer does not match its dimensions",
        }
    }
}

/// The pixel at cell `i` of row-major RGBA bytes.
pub open spec fn pixel_in(data: Seq<u8>, i: int) -> Pixel {
    Pixel { r: data[4 * i], g: data[4 * i + 1], b: data[4 * i + 2], a: data[4 * i + 3] }
}

/// A raster image: row-major RGBA bytes with its dimensions.
pub struct Raster {
    pub width: u32,
    pub height: u32,
    pub data: Vec<u8>,
}

impl Raster {
    /// The byte buffer holds exactly four bytes per pixel.
    pub open spec fn wf(self) -> bool {
        self.data@.len() == 4 * self.width * self.height
    }

    /// The pixel at cell `i`, row-major.
    pub open spec fn pixel_at(self, i: int) -> Pixel {
        pixel_in(self.data@, i)
    }

    /// Builds a raster from RGBA bytes, refusing a buffer whose size does
    /// not match the dimensions.
    pub fn from_rgba(width: u32, height: u32, data: Vec<u8>) -> (r: Result<Raster, RenderError>)
        ensures
            r is Ok <==> data@.len() == 4 * width * height,
            r is Ok ==> r->Ok_0 == (Raster { width, height, data }) && r->Ok_0.wf(),
            r is Err ==> r->Err_0 == RenderError::BufferMismatch,
    {
        proof {
            assert((width as int) * (height as int) < 0x10000000000000000) by (nonlinear_arith)
                requires
                    width <= 0xffff_ffffu32,
                    height <= 0xffff_ffffu32,
            ;
        }
        let px: u64 = (width as u64) * (height as u64);
        let need: u128 = 4 * (px as u128);
        proof {
            assert(4 * (width as int) * (height as int) == 4 * ((width as int) * (
            height as int))) by (nonlinear_arith);
        }
        let dl: usize = data.len();
        if (dl as u128) == need {
            Ok(Raster { width, height, data })
        } else {
            Err(RenderError::BufferMismatch)
        }
    }

    /// The pixel of one cell, addressed by column and row.
    pub fn get_pixel(&self, x: u32, y: u32) -> (p: Pixel)
        requires
            self.wf(),
            x < self.width,
            y < self.height,
        ensures
            p == self.pixel_at(y as int * self.width as int + x as int),
    {
        let dlen: usize = self.data.len();
        proof {
            let w = self.width as int;
            let h = self.height as int;
            lemma_mul_inequality(y as int, h - 1, w);
            assert((h - 1) * w + w == h * w) by (nonlinear_arith);
            assert(h * w == w * h) by (nonlinear_arith);
            assert(y as int * w + x < w * h);
            assert(4 * w * h == 4 * (w * h)) by (nonlinear_arith);
            assert(0 <= w * h) by (nonlinear_arith)
                requires
                    0 <= w && 0 <= h,
            ;
            assert(w * h <= dlen);
        }
        let i: usize = (y as usize) * (self.width as usize) + (x as usize);
        let base: usize = 4 * i;
        Pixel {
            r: self.data[base],
            g: self.data[base + 1],
            b: self.data[base + 2],
            a: self.data[base + 3],
        }
    }
}

/// Whether a strided RGB byte buffer holds enough bytes for a grid:
/// every row of three-byte pixels must lie inside the buffer.
pub open spec fn rgb_rows_fit(len: int, w: int, h: int, stride: int) -> bool {
    w == 0 || h == 0 || (h - 1) * stride + 3 * w <= len
}

/// The pixel that cell `i` of a packed grid takes from a strided RGB
/// buffer: three bytes at its row's start plus three per column, with an
/// opaque alpha.
pub open spec fn rgb_source_pixel(data: Seq<u8>, w: int, stride: int, i: int) -> Pixel {
    Pixel {
        r: data[(i / w) * stride + 3 * (i % w)],
        g: data[(i / w) * stride + 3 * (i % w) + 1],
        b: data[(i / w) * stride + 3 * (i % w) + 2],
        a: 255u8,
    }
}

impl Raster {
    /// Packs a decoded frame's strided rows of RGB bytes into a raster,
    /// row-major with an opaque alpha, refusing a buffer too short for
    /// its declared grid.
    pub fn from_rgb_rows(width: u32, height: u32, stride: usize, data: &Vec<u8>) -> (r: Result<
        Raster,
        RenderError,
    >)
        ensures
            r is Ok <==> rgb_rows_fit(
                data@.len() as int,
                width as int,
                height as int,
                stride as int,
            ),
            r is Err ==> r->Err_0 == RenderError::BufferMismatch,
            r is Ok ==> r->Ok_0.wf() && r->Ok_0.width == width && r->Ok_0.height == height,
            r is Ok ==> forall|i: int|
                0 <= i < width * height ==> r->Ok_0.pixel_at(i) == rgb_source_pixel(
                    data@,
                    width as int,
                    stride as int,
                    i,
                ),
    {
        if width == 0 || height == 0 {
            proof {
                assert(width as int * height as int == 0) by (nonlinear_arith)
                    requires
                        width == 0 || height == 0,
                ;
            }
            return Ok(Raster { width, height, data: Vec::new() });
        }
        let dlen: usize = data.len();
        proof {
            assert(0 <= (height as int - 1) * stride) by (nonlinear_arith)
                requires
                    height >= 1,
                    stride >= 0,
            ;
        }
        let w3: usize = match (width as usize).checked_mul(3) {
            Some(v) => v,
            None => {
                return Err(RenderError::BufferMismatch);
            },
        };
        let rows: usize = match ((height - 1) as usize).checked_mul(stride) {
            Some(v) => v,
            None => {
                return Err(RenderError::BufferMismatch);
            },
        };
        let needed: usize = match rows.checked_add(w3) {
            Some(v) => v,
            None => {
                return Err(RenderError::BufferMismatch);
            },
        };
        if needed > dlen {
            return Err(RenderError::BufferMismatch);
        }
        let mut out: Vec<u8> = Vec::new();
        let mut y: u32 = 0;
        while y < height
            invariant
                y <= height,
                width > 0,
                height > 0,
                rows == (height as int - 1) * stride,
                w3 == 3 * width,
                needed == rows + w3,
                needed <= data@.len(),
                out@.len() == 4 * (y as int * width as int),
                forall|i: int|
                    0 <= i < y * width ==> pixel_in(out@, i) == rgb_source_pixel(
                        data@,
                        width as int,
                        stride as int,
                        i,
                    ),
            decreases height - y,
        {
            let mut x: u32 = 0;
            while x < width
                invariant
                    y < height,
                    x <= width,
                    width > 0,
                    height > 0,
                    rows == (height as int - 1) * stride,
                    w3 == 3 * width,
                    needed == rows + w3,
                    needed <= data@.len(),
                    out@.len() == 4 * (y as int * width as int + x as int),
                    forall|i: int|
                        0 <= i < y * width + x ==> pixel_in(out@, i) == rgb_source_pixel(
                            data@,
                            width as int,
                            stride as int,
                            i,
                        ),
                decreases width - x,
            {
                proof {
                    lemma_mul_inequality(y as int, height as int - 1, stride as int);
                }
                let base: usize = (y as usize) * stride + 3 * (x as usize);
                let ghost o0 = out@;
                let ghost n = y as int * width as int + x as int;
                let rb = data[base];
                let gb = data[base + 1];
                let bb = data[base + 2];
                out.push(rb);
                out.push(gb);
                out.push(bb);
                out.push(255);
                proof {
                    lemma_fundamental_div_mod_converse(n, width as int, y as int, x as int);
                    assert(out@ =~= o0 + seq![rb, gb, bb, 255u8]);
                    assert(pixel_in(out@, n) == rgb_source_pixel(
                        data@,
                        width as int,
                        stride as int,
                        n,
                    ));
                    assert forall|i: int|
                        0 <= i < y * width + x + 1 implies pixel_in(out@, i) == rgb_source_pixel(
                        data@,
                        width as int,
                        stride as int,
                        i,
                    ) by {
                        if i < n {
                            assert(pixel_in(o0, i) == rgb_source_pixel(
                                data@,
                                width as int,
                                stride as int,
                                i,
                            ));
                            assert(out@[4 * i] == o0[4 * i]);
                            assert(out@[4 * i + 1] == o0[4 * i + 1]);
                            assert(out@[4 * i + 2] == o0[4 * i + 2]);
                            assert(out@[4 * i + 3] == o0[4 * i + 3]);
                        }
                    }
                }
                x = x + 1;
            }
            proof {
                assert(y as int * width + width == (y + 1) as int * width) by (nonlinear_arith);
            }
            y = y + 1;
        }
        proof {
            assert(height as int * width == width as int * height) by (nonlinear_arith);
            assert(4 * (width as int * height as int) == 4 * width as int * height as int)
                by (nonlinear_arith);
        }
        Ok(Raster { width, height, data: out })
    }
}

/// What the image crate's exact Lanczos3 resample returns for row-major
/// RGBA bytes of the given source dimensions, at the given target
/// dimensions. The result depends on the arguments alone.
pub uninterp spec fn resized_rgba(data: Seq<u8>, src_w: u32, src_h: u32, w: u32, h: u32) -> Seq<
    u8,
>;

/// Relies on the image crate: `ImageBuffer::from_raw` accepts a buffer of
/// exactly width * height * 4 bytes, and `DynamicImage::resize_exact` with
/// the Lanczos3 filter returns an image of exactly the requested
/// dimensions, a pure function of the source pixels.
#[verifier::external_body]
fn resize_rgba(img: &Raster, width: u32, height: u32) -> (r: Raster)
    requires
        img.wf(),
        img.width > 0,
        img.height > 0,
        width > 0,
        height > 0,
    ensures
        r.wf(),
        r.width == width,
        r.height == height,
        r.data@ == resized_rgba(img.data@, img.width, img.height, width, height),
{
    let buf: image::ImageBuffer<image::Rgba<u8>, Vec<u8>> = image::ImageBuffer::from_raw(
        img.width,
        img.height,
        img.data.clone(),
    ).unwrap();
    let resized = image::DynamicImage::ImageRgba8(buf).resize_exact(
        width,
        height,
        image::imageops::FilterType::Lanczos3,
    );
    Raster { width, height, data: resized.into_rgba8().into_raw() }
}

/// The cell a pixel renders to: the ramp glyph for its luma, and the color
/// its scheme assigns.
pub open spec fn cell_for(p: Pixel, scheme: ColorScheme, ramp: Seq<char>) -> RenderedCell {
    RenderedCell {
        glyph: ramp[glyph_index(luma(p), ramp.len() as int)],
        color: map_color(p, scheme),
    }
}

/// Rasterizes a frame that is already at its target size: one cell per
/// pixel, row-major.
pub fn rasterize_cells(src: &Raster, scheme: &ColorScheme, ascii_set: &String) -> (cells: Vec<
    RenderedCell,
>)
    requires
        src.wf(),
        1 <= ascii_set@.len(),
        255 * (ascii_set@.len() - 1) <= usize::MAX,
    ensures
        cells@.len() == src.width * src.height,
        forall|i: int|
            0 <= i < cells@.len() ==> cells@[i] == cell_for(src.pixel_at(i), *scheme, ascii_set@),
{
    let w = src.width;
    let h = src.height;
    let mut cells: Vec<RenderedCell> = Vec::new();
    let mut y: u32 = 0;
    while y < h
        invariant
            y <= h,
            w == src.width,
            h == src.height,
            src.wf(),
            1 <= ascii_set@.len(),
            255 * (ascii_set@.len() - 1) <= usize::MAX,
            cells@.len() == y * w,
            forall|i: int|
                0 <= i < cells@.len() ==> cells@[i] == cell_for(
                    src.pixel_at(i),
                    *scheme,
                    ascii_set@,
                ),
        decreases h - y,
    {
        let mut x: u32 = 0;
        while x < w
            invariant
                y < h,
                x <= w,
                w == src.width,
                h == src.height,
                src.wf(),
                1 <= ascii_set@.len(),
                255 * (ascii_set@.len() - 1) <= usize::MAX,
                cells@.len() == y * w + x,
                forall|i: int|
                    0 <= i < cells@.len() ==> cells@[i] == cell_for(
                        src.pixel_at(i),
                        *scheme,
                        ascii_set@,
                    ),
            decreases w - x,
        {
            let p = src.get_pixel(x, y);
            let glyph = crate::ascii::pixel_to_ascii(p, ascii_set);
            let color = crate::color::pixel_to_color(p, scheme);
            cells.push(RenderedCell { glyph, color });
            x = x + 1;
        }
        proof {
            assert(y as int * w + w == (y + 1) as int * w) by (nonlinear_arith);
        }
        y = y + 1;
    }
    proof {
        assert(h as int * w == w as int * h) by (nonlinear_arith);
    }
    cells
}

/// A terminal string for one cell: some colorized reading of its glyph.
pub open spec fn cell_rendered(s: Seq<char>, cell: RenderedCell) -> bool {
    colorized_cell(s, cell.glyph, cell.color)
}

/// The concatenation of cell strings.
pub open spec fn cat_cells(css: Seq<Seq<char>>) -> Seq<char>
    decreases css.len(),
{
    if css.len() == 0 {
        Seq::empty()
    } else {
        cat_cells(css.drop_last()) + css.last()
    }
}

/// The text blob of `h` rows of `w` cell strings each, a line terminator
/// after every row.
pub open spec fn blob_of(css: Seq<Seq<char>>, w: int, h: int) -> Seq<char>
    decreases h,
{
    if h <= 0 {
        Seq::empty()
    } else {
        blob_of(css, w, h - 1) + cat_cells(css.subrange((h - 1) * w, h * w)) + seq!['\n']
    }
}

/// The text blob renders the given frame: it decomposes into one
/// colorized cell string per pixel, row-major, with a line terminator
/// after each row.
pub open spec fn rendered_blob(
    out: Seq<char>,
    data: Seq<u8>,
    w: int,
    h: int,
    scheme: ColorScheme,
    ramp: Seq<char>,
) -> bool {
    exists|css: Seq<Seq<char>>|
        {
            &&& css.len() == w * h
            &&& (forall|i: int|
                0 <= i < css.len() ==> cell_rendered(css[i], cell_for(pixel_in(data, i), scheme, ramp)))
            &&& out == blob_of(css, w, h)
        }
}

/// One more cell string extends the concatenation at its end.
pub proof fn lemma_cat_cells_push(css: Seq<Seq<char>>, s: Seq<char>)
    ensures
        cat_cells(css.push(s)) == cat_cells(css) + s,
{
    assert(css.push(s).drop_last() =~= css);
    assert(css.push(s).last() == s);
}

/// The first `h` rows of the blob read only the first `h * w` cell
/// strings.
pub proof fn lemma_blob_agrees(c1: Seq<Seq<char>>, c2: Seq<Seq<char>>, w: int, h: int)
    requires
        0 <= w,
        0 <= h,
        h * w <= c1.len(),
        h * w <= c2.len(),
        forall|i: int| 0 <= i < h * w ==> c1[i] == c2[i],
    ensures
        blob_of(c1, w, h) == blob_of(c2, w, h),
    decreases h,
{
    if h > 0 {
        assert((h - 1) * w + w == h * w) by (nonlinear_arith);
        assert(0 <= (h - 1) * w) by (nonlinear_arith)
            requires
                0 <= w && 0 <= h - 1,
        ;
        lemma_blob_agrees(c1, c2, w, h - 1);
        assert(c1.subrange((h - 1) * w, h * w) =~= c2.subrange((h - 1) * w, h * w));
    }
}

/// Renders a source raster as one text blob: the source is resampled to
/// exactly the target grid, and every resampled pixel becomes one
/// colorized glyph, row-major, a line terminator after each row. Only a
/// source without pixels, asked for a non-empty target, fails.
pub fn generate_ascii_art(
    img: &Raster,
    width: u32,
    height: u32,
    scheme: &ColorScheme,
    granularity: Granularity,
) -> (r: Result<String, RenderError>)
    requires
        img.wf(),
        granularity.valid(),
    ensures
        r is Ok <==> (width == 0 || height == 0 || (img.width > 0 && img.height > 0)),
        r is Err ==> r->Err_0 == RenderError::EmptySource,
        r is Ok ==> rendered_blob(
            r->Ok_0@,
            resized_rgba(img.data@, img.width, img.height, width, height),
            width as int,
            height as int,
            *scheme,
            ramp_of(granularity.thousandths as int),
        ),
{
    proof {
        reveal_strlit("\n");
    }
    if width == 0 || height == 0 {
        let mut out = String::new();
        let mut k: u32 = 0;
        while k < height
            invariant
                width == 0 || height == 0,
                k <= height,
                out@ == blob_of(Seq::<Seq<char>>::empty(), width as int, k as int),
            decreases height - k,
        {
            out.append("\n");
            proof {
                reveal_strlit("\n");
                assert("\n"@ =~= seq!['\n']);
                let e = Seq::<Seq<char>>::empty();
                assert(k as int * width == 0) by (nonlinear_arith)
                    requires
                        width == 0,
                ;
                assert((k + 1) as int * width == 0) by (nonlinear_arith)
                    requires
                        width == 0,
                ;
                assert(e.subrange(k as int * width as int, (k + 1) as int * width as int) =~= Seq::<
                    Seq<char>,
                >::empty());
                assert(cat_cells(Seq::<Seq<char>>::empty()) =~= Seq::<char>::empty());
                assert(blob_of(e, width as int, k as int + 1) =~= out@);
            }
            k = k + 1;
        }
        proof {
            let e = Seq::<Seq<char>>::empty();
            assert(width as int * height as int == 0) by (nonlinear_arith)
                requires
                    width == 0 || height == 0,
            ;
            assert(rendered_blob(
                out@,
                resized_rgba(img.data@, img.width, img.height, width, height),
                width as int,
                height as int,
                *scheme,
                ramp_of(granularity.thousandths as int),
            )) by {
                assert(e.len() == width as int * height as int);
                assert(out@ == blob_of(e, width as int, height as int));
            }
        }
        Ok(out)
    } else if img.width == 0 || img.height == 0 {
        Err(RenderError::EmptySource)
    } else {
        let resized = resize_rgba(img, width, height);
        let ascii_set = crate::ascii::get_ascii_set(granularity);
        proof {
            crate::ascii::lemma_ramp_len(granularity.thousandths as int);
            crate::ascii::lemma_glyph_count_bounds(granularity.thousandths as int);
        }
        let cells = rasterize_cells(&resized, scheme, &ascii_set);
        let ghost rd = resized.data@;
        let ghost ramp = ascii_set@;
        let mut out = String::new();
        let ghost mut css = Seq::<Seq<char>>::empty();
        let mut y: u32 = 0;
        while y < height
            invariant
                y <= height,
                cells@.len() == width * height,
                forall|i: int|
                    0 <= i < cells@.len() ==> cells@[i] == cell_for(pixel_in(rd, i), *scheme, ramp),
                css.len() == y * width,
                forall|i: int|
                    0 <= i < css.len() ==> cell_rendered(
                        css[i],
                        cell_for(pixel_in(rd, i), *scheme, ramp),
                    ),
                out@ == blob_of(css, width as int, y as int),
            decreases height - y,
        {
            let mut x: u32 = 0;
            while x < width
                invariant
                    y < height,
                    x <= width,
                    cells@.len() == width * height,
                    forall|i: int|
                        0 <= i < cells@.len() ==> cells@[i] == cell_for(
                            pixel_in(rd, i),
                            *scheme,
                            ramp,
                        ),
                    css.len() == y * width + x,
                    forall|i: int|
                        0 <= i < css.len() ==> cell_rendered(
                            css[i],
                            cell_for(pixel_in(rd, i), *scheme, ramp),
                        ),
                    out@ == blob_of(css, width as int, y as int) + cat_cells(
                        css.subrange(y as int * width as int, y as int * width as int + x),
                    ),
                decreases width - x,
            {
                let clen: usize = cells.len();
                proof {
                    lemma_mul_inequality(y as int, height as int - 1, width as int);
                    assert((height as int - 1) * width + width == height as int * width)
                        by (nonlinear_arith);
                    assert(width as int * height == height as int * width) by (nonlinear_arith);
                    assert(y as int * width + x < clen);
                }
                let idx: usize = (y as usize) * (width as usize) + (x as usize);
                let cell = cells[idx];
                let cs = crate::color::colorize_ascii(cell.glyph, cell.color);
                out.append(cs.as_str());
                proof {
                    let ghost old_css = css;
                    css = css.push(cs@);
                    lemma_blob_agrees(old_css, css, width as int, y as int);
                    assert(css.subrange(y as int * width as int, y as int * width as int + x + 1)
                        =~= old_css.subrange(
                        y as int * width as int,
                        y as int * width as int + x,
                    ).push(cs@));
                    lemma_cat_cells_push(
                        old_css.subrange(y as int * width as int, y as int * width as int + x),
                        cs@,
                    );
                }
                x = x + 1;
            }
            out.append("\n");
            proof {
                reveal_strlit("\n");
                assert("\n"@ =~= seq!['\n']);
                assert((y + 1) as int * width == y as int * width + width) by (nonlinear_arith);
                assert(css.subrange(y as int * width as int, (y + 1) as int * width as int)
                    =~= css.subrange(
                    y as int * width as int,
                    y as int * width as int + width as int,
                ));
                assert(out@ =~= blob_of(css, width as int, y as int + 1));
            }
            y = y + 1;
        }
        proof {
            assert(height as int * width == width as int * height) by (nonlinear_arith);
            assert(rendered_blob(
                out@,
                rd,
                width as int,
                height as int,
                *scheme,
                ramp_of(granularity.thousandths as int),
            )) by {
                assert(css.len() == width as int * height as int);
                assert(out@ == blob_of(css, width as int, height as int));
            }
        }
        Ok(out)
    }
}

} // verus!
