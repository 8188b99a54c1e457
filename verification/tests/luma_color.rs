use asciiview::ascii::{get_ascii_set, pixel_to_ascii, pixel_to_brightness};
use asciiview::color::pixel_to_color;
use asciiview::config::{ColorScheme, Granularity};
use asciiview::pixel::{Pixel, Rgb};

#[test]
fn luma_of_black_is_zero_and_white_is_full() {
    assert_eq!(pixel_to_brightness(Pixel::opaque(0, 0, 0)), 0);
    assert_eq!(pixel_to_brightness(Pixel::opaque(255, 255, 255)), 255);
}

#[test]
fn luma_uses_itu_weights_truncated() {
    // floor((30 * 10 + 59 * 20 + 11 * 30) / 100) = floor(18.1) = 18
    assert_eq!(pixel_to_brightness(Pixel::opaque(10, 20, 30)), 18);
    // floor((30 * 200 + 59 * 100 + 11 * 50) / 100) = floor(124.5) = 124
    assert_eq!(pixel_to_brightness(Pixel::opaque(200, 100, 50)), 124);
}

#[test]
fn glyph_index_is_monotone_in_brightness() {
    let ramp = get_ascii_set(Granularity::from_thousandths(200).unwrap());
    let glyphs: Vec<char> = ramp.chars().collect();
    let position = |c: char| glyphs.iter().position(|&g| g == c).unwrap();
    let mut last: usize = 0;
    for v in 0..=255u8 {
        let c = pixel_to_ascii(Pixel::opaque(v, v, v), &ramp);
        let at = position(c);
        assert!(at >= last, "glyph moved backwards at brightness {v}");
        last = at;
    }
    // The darkest pixel selects the first glyph, the lightest the last.
    assert_eq!(pixel_to_ascii(Pixel::opaque(0, 0, 0), &ramp), glyphs[0]);
    assert_eq!(
        pixel_to_ascii(Pixel::opaque(255, 255, 255), &ramp),
        glyphs[glyphs.len() - 1]
    );
}

#[test]
fn original_scheme_passes_rgb_through() {
    for (r, g, b) in [(0, 0, 0), (255, 255, 255), (12, 200, 99), (1, 2, 3)] {
        let c = pixel_to_color(Pixel::opaque(r, g, b), &ColorScheme::Original);
        assert_eq!(c, Rgb { r, g, b });
    }
}

#[test]
fn black_and_white_scheme_is_always_black() {
    for (r, g, b) in [(0, 0, 0), (255, 255, 255), (12, 200, 99)] {
        let c = pixel_to_color(Pixel::opaque(r, g, b), &ColorScheme::BlackAndWhite);
        assert_eq!(c, Rgb { r: 0, g: 0, b: 0 });
    }
}

#[test]
fn pastel_scheme_blends_toward_white() {
    let white = pixel_to_color(Pixel::opaque(255, 255, 255), &ColorScheme::Pastel);
    assert_eq!(white, Rgb { r: 255, g: 255, b: 255 });
    let black = pixel_to_color(Pixel::opaque(0, 0, 0), &ColorScheme::Pastel);
    assert_eq!(black, Rgb { r: 76, g: 76, b: 76 });
    // floor(100 * 0.7 + 76.5) = 146
    let gray = pixel_to_color(Pixel::opaque(100, 100, 100), &ColorScheme::Pastel);
    assert_eq!(gray, Rgb { r: 146, g: 146, b: 146 });
}

#[test]
fn scheme_and_source_names() {
    assert_eq!(ColorScheme::Original.name(), "original");
    assert_eq!(ColorScheme::BlackAndWhite.name(), "black-and-white");
    assert_eq!(ColorScheme::Pastel.name(), "pastel");
    assert_eq!(asciiview::config::MediaSource::File.name(), "file");
    assert_eq!(asciiview::config::MediaSource::WebCam.name(), "web-cam");
}
