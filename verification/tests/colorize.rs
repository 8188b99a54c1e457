use asciiview::color::colorize_ascii;
use asciiview::pixel::Rgb;

#[test]
fn colorize_wraps_the_glyph_in_escapes_when_forced() {
    colored::control::set_override(true);
    let out = colorize_ascii('x', Rgb { r: 255, g: 0, b: 0 });
    // One glyph between a foreground escape and the reset escape.
    assert_ne!(out, "x");
    assert!(out.starts_with("\x1b["));
    assert!(out.ends_with("\x1b[0m"));
    let body = &out[..out.len() - 4];
    assert_eq!(body.chars().last(), Some('x'));
    assert_eq!(out.chars().filter(|&c| c == 'x').count(), 1);
    // The escape code before the glyph is digits and semicolons.
    let open = body.find('[').unwrap();
    let code_and_glyph = &body[open + 1..];
    let m = code_and_glyph.find('m').unwrap();
    assert!(code_and_glyph[..m]
        .chars()
        .all(|c| c.is_ascii_digit() || c == ';'));
}
