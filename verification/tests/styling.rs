use timepie::style::{glyph, palette_color, Color, GlyphCycle, GLYPH_COUNT, PALETTE_SIZE};

#[test]
fn palette_has_six_colours_in_order() {
    assert_eq!(PALETTE_SIZE, 6);
    assert_eq!(palette_color(0), Some(Color::Red));
    assert_eq!(palette_color(1), Some(Color::Green));
    assert_eq!(palette_color(2), Some(Color::Purple));
    assert_eq!(palette_color(3), Some(Color::Yellow));
    assert_eq!(palette_color(4), Some(Color::Blue));
    assert_eq!(palette_color(5), Some(Color::Cyan));
}

#[test]
fn palette_does_not_wrap() {
    assert_eq!(palette_color(6), None);
    assert_eq!(palette_color(7), None);
    assert_eq!(palette_color(usize::MAX), None);
}

#[test]
fn palette_never_hands_out_white() {
    for index in 0..PALETTE_SIZE {
        assert_ne!(palette_color(index), Some(Color::White));
    }
}

#[test]
fn glyphs_come_in_order() {
    assert_eq!(GLYPH_COUNT, 5);
    assert_eq!(glyph(0), '*');
    assert_eq!(glyph(1), '.');
    assert_eq!(glyph(2), ',');
    assert_eq!(glyph(3), '\u{2022}');
    assert_eq!(glyph(4), '\u{25aa}');
}

#[test]
fn glyphs_wrap_after_five() {
    assert_eq!(glyph(5), '*');
    assert_eq!(glyph(6), '.');
    assert_eq!(glyph(13), '\u{2022}');
    for index in 0..100usize {
        assert_eq!(glyph(index + GLYPH_COUNT), glyph(index));
    }
    assert_eq!(glyph(usize::MAX), glyph(usize::MAX % 5));
}

#[test]
fn glyph_cycle_starts_over_after_the_last_glyph() {
    let mut cycle = GlyphCycle::new();
    let mut seen: Vec<char> = Vec::new();
    for _ in 0..12 {
        seen.push(cycle.next_glyph());
    }
    assert_eq!(
        seen,
        vec!['*', '.', ',', '\u{2022}', '\u{25aa}', '*', '.', ',', '\u{2022}', '\u{25aa}', '*', '.']
    );
}

#[test]
fn glyph_cycle_agrees_with_glyph() {
    let mut cycle = GlyphCycle::new();
    for step in 0..23usize {
        assert_eq!(cycle.next_glyph(), glyph(step));
    }
}
