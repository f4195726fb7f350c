use wmkit::color::Color;
use wmkit::style::{units_of, Padding, Style, StyleError, UNITS_PER_PIXEL};

fn white() -> Color {
    Color::from_packed(0xebdbb2ff)
}

fn black() -> Color {
    Color::from_packed(0x282828ff)
}

fn two_pixels() -> Padding {
    Padding { horizontal: 2 * UNITS_PER_PIXEL, vertical: 2 * UNITS_PER_PIXEL }
}

#[test]
fn size_zero_is_invalid() {
    let style = Style::new("ProFont For Powerline", 0, white(), Some(black()), two_pixels());
    assert_eq!(style, Err(StyleError::InvalidSize));
}

#[test]
fn negative_size_is_invalid() {
    assert_eq!(Style::new("Serif", -1, white(), None, two_pixels()), Err(StyleError::InvalidSize));
    assert_eq!(
        Style::new("Serif", i32::MIN, white(), None, two_pixels()),
        Err(StyleError::InvalidSize)
    );
}

#[test]
fn positive_size_succeeds_whatever_the_font() {
    for font in ["ProFont For Powerline", "", "no such font anywhere", "Fira Code"] {
        for size in [1, 11, i32::MAX] {
            let style = Style::new(font, size, white(), Some(black()), two_pixels());
            let style = style.expect("a positive size is a valid size");
            assert_eq!(style.font(), font);
            assert_eq!(style.size(), size);
        }
    }
}

#[test]
fn a_style_holds_what_was_given() {
    let padding = Padding { horizontal: 2560, vertical: 0 };
    let style = Style::new("Fira Code", 11, white(), None, padding).unwrap();
    assert_eq!(style.fg(), white());
    assert_eq!(style.bg(), None);
    assert_eq!(style.padding(), padding);
    let style = Style::new("Fira Code", 11, black(), Some(white()), padding).unwrap();
    assert_eq!(style.fg(), black());
    assert_eq!(style.bg(), Some(white()));
}

#[test]
fn a_copy_of_a_style_equals_it() {
    let style = Style::new("Serif", 10, white(), Some(black()), two_pixels()).unwrap();
    assert_eq!(style.clone(), style);
}

#[test]
fn a_pixel_is_1024_units() {
    assert_eq!(UNITS_PER_PIXEL, 1024);
    assert_eq!(units_of(0), 0);
    assert_eq!(units_of(18), 18 * 1024);
    assert_eq!(units_of(u32::MAX), u32::MAX as u64 * 1024);
}
