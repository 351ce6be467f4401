use endbasic_storage::fonts::{all_fonts, Font, LcdSize};

fn font_5x8() -> Font {
    let data: Vec<u8> = (0..95 * 8).map(|i| (i % 251) as u8).collect();
    Font { name: "5x8".to_owned(), glyph_size: LcdSize { width: 5, height: 8 }, stride: 1, data }
}

#[test]
fn test_font_glyph_printable() {
    let font = &font_5x8();

    let offset = (usize::from(b'a') - usize::from(b' ')) * 8;
    let expected = &font.data[offset..offset + 8];

    let data = font.glyph('a');
    assert_eq!(expected, data);
}

#[test]
fn test_font_glyph_non_printable() {
    let font = &font_5x8();

    let offset = (usize::from(b'?') - usize::from(b' ')) * 8;
    let expected = &font.data[offset..offset + 8];

    let data = font.glyph(char::from(30));
    assert_eq!(expected, data);
}

#[test]
fn glyph_with_wide_rows() {
    let data: Vec<u8> = (0..95 * 16 * 2).map(|i| (i % 256) as u8).collect();
    let font = Font { name: "16x16".to_owned(), glyph_size: LcdSize { width: 16, height: 16 }, stride: 2, data };
    let offset = (usize::from(b'~') - usize::from(b' ')) * 32;
    assert_eq!(&font.data[offset..offset + 32], font.glyph('~'));
    assert_eq!(font.glyph('?'), font.glyph('\u{e9}'));
}

#[test]
fn registry_by_name() {
    let mut other = font_5x8();
    other.name = "16x16".to_owned();
    let mut again = font_5x8();
    again.data[0] = 200;
    let fonts = all_fonts(vec![font_5x8(), other, again]);
    assert_eq!(2, fonts.len());
    assert_eq!(200, fonts.get("5x8").unwrap().data[0]);
    assert!(fonts.get("16x16").is_some());
    assert!(fonts.get("none").is_none());
}
