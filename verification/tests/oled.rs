use embedded_graphics::mono_font::ascii::FONT_6X10;
use embedded_graphics::mono_font::MonoTextStyleBuilder;
use embedded_graphics::pixelcolor::BinaryColor;
use picomate::oled::{make_style, print, DisplayOp, Font};

/// The texts and rows of a screen; it has to begin with a clear and end with a flush.
fn rows<'a>(lines: &[&'a str]) -> Vec<(&'a str, i32)> {
    let ops = print(make_style(), lines);
    assert!(matches!(ops.first(), Some(DisplayOp::Clear)));
    assert!(matches!(ops.last(), Some(DisplayOp::Flush)));
    let mut rows = Vec::new();
    for op in &ops[1..ops.len() - 1] {
        match op {
            DisplayOp::Text { text, x, y, style } => {
                assert_eq!(*x, 0);
                assert_eq!(*style, make_style());
                rows.push((*text, *y));
            }
            _ => panic!("only text stands between the clear and the flush"),
        }
    }
    rows
}

#[test]
fn style_is_six_by_ten_and_lit() {
    let style = make_style();
    assert_eq!((style.glyph_width, style.glyph_height), (6, 10));
    assert!(style.lit);
    assert_eq!(style.background, None);
    assert_eq!(style.font, Font::Ascii6x10);
    assert_eq!(style, make_style());
}

#[test]
fn style_is_what_the_builder_gives() {
    let built = MonoTextStyleBuilder::new()
        .font(&FONT_6X10)
        .text_color(BinaryColor::On)
        .build();
    let style = make_style();
    assert_eq!(built.font.character_size.width as i32, style.glyph_width);
    assert_eq!(built.font.character_size.height as i32, style.glyph_height);
    assert_eq!(built.text_color, Some(BinaryColor::from(style.lit)));
    assert_eq!(built.background_color.map(|c| c.is_on()), style.background);
}

#[test]
fn four_lines_sixteen_apart() {
    assert_eq!(
        rows(&["a", "b", "c", "d"]),
        vec![("a", 0), ("b", 16), ("c", 32), ("d", 48)]
    );
}

#[test]
fn empty_lines_keep_their_row() {
    assert_eq!(rows(&["a", "", "c", ""]), vec![("a", 0), ("c", 32)]);
}

#[test]
fn lines_behind_the_fourth_are_left_out() {
    assert_eq!(rows(&["", "", "", "d", "e"]), vec![("d", 48)]);
}

#[test]
fn no_lines_clear_the_display() {
    assert_eq!(rows(&[]), vec![]);
}
