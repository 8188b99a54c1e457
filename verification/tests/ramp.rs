use asciiview::ascii::{get_ascii_set, MASTER_GLYPHS};
use asciiview::config::Granularity;

#[test]
fn full_granularity_returns_master_ramp() {
    let ramp = get_ascii_set(Granularity::full());
    assert_eq!(ramp, MASTER_GLYPHS);
    assert_eq!(ramp.chars().count(), 92);
}

#[test]
fn zero_granularity_returns_single_glyph() {
    let g = Granularity::from_thousandths(0).unwrap();
    let ramp = get_ascii_set(g);
    assert_eq!(ramp.chars().count(), 1);
    assert_eq!(ramp, "@");
}

#[test]
fn ramp_length_is_monotone_in_granularity() {
    let mut last: usize = 0;
    for milli in [0u16, 100, 250, 333, 500, 667, 750, 900, 999, 1000] {
        let g = Granularity::from_thousandths(milli).unwrap();
        let len = get_ascii_set(g).chars().count();
        assert!(len >= last, "ramp shrank at granularity {milli}");
        last = len;
    }
}

#[test]
fn half_granularity_takes_every_second_glyph() {
    // count = round(1 + 91 * 0.5) = 47, stride = 92 / 47 = 1.
    let g = Granularity::from_thousandths(500).unwrap();
    let ramp = get_ascii_set(g);
    assert_eq!(ramp.chars().count(), 47);
    let master: Vec<char> = MASTER_GLYPHS.chars().collect();
    for (k, c) in ramp.chars().enumerate() {
        assert_eq!(c, master[k * (92 / 47)]);
    }
}

#[test]
fn granularity_constructor_rejects_values_above_one() {
    assert!(Granularity::from_thousandths(1001).is_none());
    assert!(Granularity::from_thousandths(1000).is_some());
}
