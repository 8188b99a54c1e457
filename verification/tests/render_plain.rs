use asciiview::ascii::{get_ascii_set, pixel_to_ascii};
use asciiview::config::{ColorScheme, Granularity};
use asciiview::pixel::Pixel;
use asciiview::raster::{generate_ascii_art, rasterize_cells, Raster, RenderError};
use asciiview::pixel::Rgb;

fn solid_raster(width: u32, height: u32, r: u8, g: u8, b: u8) -> Raster {
    let mut data = Vec::new();
    for _ in 0..width * height {
        data.extend_from_slice(&[r, g, b, 255]);
    }
    Raster::from_rgba(width, height, data).unwrap()
}

#[test]
fn solid_image_rasterizes_to_identical_cells() {
    let img = solid_raster(5, 3, 40, 90, 160);
    let ramp = get_ascii_set(Granularity::full());
    let cells = rasterize_cells(&img, &ColorScheme::Original, &ramp);
    assert_eq!(cells.len(), 15);
    let expected = pixel_to_ascii(Pixel::opaque(40, 90, 160), &ramp);
    for cell in &cells {
        assert_eq!(cell.glyph, expected);
        assert_eq!(cell.color.r, 40);
        assert_eq!(cell.color.g, 90);
        assert_eq!(cell.color.b, 160);
    }
}

#[test]
fn solid_image_renders_three_lines_of_five_glyphs() {
    // With colors switched off each cell is its bare glyph.
    colored::control::set_override(false);
    let img = solid_raster(5, 3, 40, 90, 160);
    let out = generate_ascii_art(&img, 5, 3, &ColorScheme::Original, Granularity::full())
        .unwrap();
    let ramp = get_ascii_set(Granularity::full());
    let expected = pixel_to_ascii(Pixel::opaque(40, 90, 160), &ramp);
    let lines: Vec<&str> = out.split_terminator('\n').collect();
    assert_eq!(lines.len(), 3);
    for line in lines {
        assert_eq!(line.chars().count(), 5);
        assert!(line.chars().all(|c| c == expected));
    }
    assert_eq!(out.chars().filter(|&c| c == '\n').count(), 3);
}

#[test]
fn resizing_reaches_the_exact_target_grid() {
    colored::control::set_override(false);
    // A 1x1 source stretched to 2x2: two lines of two glyphs each. This
    // only holds if the resample really produced the target grid.
    let img = solid_raster(1, 1, 200, 200, 200);
    let out = generate_ascii_art(&img, 2, 2, &ColorScheme::BlackAndWhite, Granularity::full())
        .unwrap();
    let lines: Vec<&str> = out.split_terminator('\n').collect();
    assert_eq!(lines.len(), 2);
    for line in lines {
        assert_eq!(line.chars().count(), 2);
    }
}

#[test]
fn empty_targets_render_without_the_source() {
    let img = solid_raster(2, 2, 0, 0, 0);
    assert_eq!(
        generate_ascii_art(&img, 0, 3, &ColorScheme::Original, Granularity::full()),
        Ok("\n\n\n".to_string())
    );
    assert_eq!(
        generate_ascii_art(&img, 7, 0, &ColorScheme::Original, Granularity::full()),
        Ok(String::new())
    );
}

#[test]
fn an_empty_source_cannot_be_resized() {
    let img = Raster::from_rgba(0, 4, Vec::new()).unwrap();
    assert_eq!(
        generate_ascii_art(&img, 5, 3, &ColorScheme::Original, Granularity::full()),
        Err(RenderError::EmptySource)
    );
    assert_eq!(
        RenderError::EmptySource.message(),
        "cannot resize an empty image"
    );
}

#[test]
fn rgba_buffers_must_match_their_dimensions() {
    assert!(matches!(
        Raster::from_rgba(2, 2, vec![0u8; 15]),
        Err(RenderError::BufferMismatch)
    ));
    assert!(Raster::from_rgba(2, 2, vec![0u8; 16]).is_ok());
    assert_eq!(
        RenderError::BufferMismatch.message(),
        "pixel buffer does not match its dimensions"
    );
}

#[test]
fn strided_rgb_rows_pack_into_a_raster() {
    // Two rows of two RGB pixels, each row padded to a stride of 8 bytes.
    let data = vec![
        1, 2, 3, 4, 5, 6, 0, 0, // row 0: (1,2,3) (4,5,6), padding
        7, 8, 9, 10, 11, 12, 0, 0, // row 1: (7,8,9) (10,11,12), padding
    ];
    let raster = Raster::from_rgb_rows(2, 2, 8, &data).unwrap();
    assert_eq!(raster.width, 2);
    assert_eq!(raster.height, 2);
    assert_eq!(
        raster.data,
        vec![1, 2, 3, 255, 4, 5, 6, 255, 7, 8, 9, 255, 10, 11, 12, 255]
    );
}

#[test]
fn short_rgb_buffers_are_refused() {
    let data = vec![0u8; 13]; // needs (2 - 1) * 8 + 3 * 2 = 14 bytes
    assert!(matches!(
        Raster::from_rgb_rows(2, 2, 8, &data),
        Err(RenderError::BufferMismatch)
    ));
}

#[test]
fn colorize_is_plain_when_colors_are_disabled() {
    colored::control::set_override(false);
    let out = asciiview::color::colorize_ascii('Q', Rgb { r: 1, g: 2, b: 3 });
    assert_eq!(out, "Q");
}
