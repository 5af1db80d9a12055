use numtoa::NumToA;
use tft_progress::geometry::{Point, Size};
use tft_progress::render::centered_origin;
use tft_progress::text::{format_decimal, TextBuffer, TextError, TEXT_CAPACITY};

#[test]
fn percentages_are_rendered_without_leading_zeros() {
    assert_eq!(format_decimal(0).as_str(), "0");
    assert_eq!(format_decimal(9).as_str(), "9");
    assert_eq!(format_decimal(10).as_str(), "10");
    assert_eq!(format_decimal(50).as_str(), "50");
    assert_eq!(format_decimal(99).as_str(), "99");
    assert_eq!(format_decimal(100).as_str(), "100");
}

#[test]
fn percentages_have_one_to_three_digits() {
    for p in 0..=100u32 {
        let t = format_decimal(p);
        let expected = if p < 10 { 1 } else if p < 100 { 2 } else { 3 };
        assert_eq!(t.char_count(), expected);
        assert_eq!(t.as_str(), format!("{}", p));
    }
}

#[test]
fn the_largest_number_fills_the_buffer() {
    let t = format_decimal(u32::MAX);
    assert_eq!(t.as_str(), "4294967295");
    assert_eq!(t.char_count(), TEXT_CAPACITY);
}

#[test]
fn formatting_agrees_with_numtoa() {
    for &n in &[0u32, 7, 42, 100, 101, 9999, 10000, 65535, 1_000_000, u32::MAX] {
        let mut scratch = [0u8; 20];
        assert_eq!(format_decimal(n).as_str(), n.numtoa_str(10, &mut scratch));
    }
}

#[test]
fn a_new_buffer_is_empty() {
    let t = TextBuffer::new();
    assert_eq!(t.as_str(), "");
    assert_eq!(t.char_count(), 0);
}

#[test]
fn pushing_appends() {
    let mut t = TextBuffer::new();
    assert_eq!(t.try_push_str("12"), Ok(()));
    assert_eq!(t.try_push_str(""), Ok(()));
    assert_eq!(t.try_push_str("345"), Ok(()));
    assert_eq!(t.as_str(), "12345");
    assert_eq!(t.char_count(), 5);
}

#[test]
fn pushing_beyond_capacity_is_refused_and_changes_nothing() {
    let mut t = TextBuffer::new();
    assert_eq!(t.try_push_str("0123456789"), Ok(()));
    assert_eq!(t.try_push_str("x"), Err(TextError::InsufficientCapacity));
    assert_eq!(t.as_str(), "0123456789");
    let mut t = TextBuffer::new();
    assert_eq!(t.try_push_str("abc"), Ok(()));
    assert_eq!(t.try_push_str("12345678"), Err(TextError::InsufficientCapacity));
    assert_eq!(t.as_str(), "abc");
    assert_eq!(t.try_push_str("1234567"), Ok(()));
    assert_eq!(t.as_str(), "abc1234567");
}

#[test]
fn capacity_counts_bytes_not_characters() {
    let mut t = TextBuffer::new();
    assert_eq!(t.try_push_str("ééééé"), Ok(()));
    assert_eq!(t.char_count(), 5);
    assert_eq!(t.try_push_str("a"), Err(TextError::InsufficientCapacity));
    assert_eq!(t.as_str(), "ééééé");
}

#[test]
fn text_centering_for_the_named_percentages() {
    let center = Point { x: 32, y: 32 };
    let glyph = Size { width: 12, height: 16 };
    for &(p, len) in &[(0u32, 1i32), (9, 1), (10, 2), (99, 2), (100, 3)] {
        let text = format_decimal(p);
        assert_eq!(text.char_count() as i32, len);
        let origin = centered_origin(center, text.char_count() as u32, glyph).unwrap();
        assert_eq!(origin.x, 32 - (len * 12) / 2);
        assert_eq!(origin.y, 32 - 16 / 2);
    }
    assert_eq!(centered_origin(center, 1, glyph), Some(Point { x: 26, y: 24 }));
    assert_eq!(centered_origin(center, 2, glyph), Some(Point { x: 20, y: 24 }));
    assert_eq!(centered_origin(center, 3, glyph), Some(Point { x: 14, y: 24 }));
}

#[test]
fn centering_rounds_half_widths_down() {
    let glyph = Size { width: 5, height: 7 };
    assert_eq!(
        centered_origin(Point { x: 10, y: 10 }, 3, glyph),
        Some(Point { x: 10 - 7, y: 10 - 3 })
    );
    assert_eq!(
        centered_origin(Point { x: -10, y: -10 }, 1, glyph),
        Some(Point { x: -12, y: -13 })
    );
    assert_eq!(
        centered_origin(Point { x: 0, y: 0 }, 0, glyph),
        Some(Point { x: 0, y: -3 })
    );
}

#[test]
fn centering_fails_where_the_corner_cannot_be_named() {
    let glyph = Size { width: 12, height: 16 };
    assert_eq!(centered_origin(Point { x: i32::MIN, y: 0 }, 1, glyph), None);
    assert_eq!(centered_origin(Point { x: 0, y: i32::MIN }, 0, glyph), None);
    assert_eq!(
        centered_origin(Point { x: 0, y: 0 }, u32::MAX, Size { width: u32::MAX, height: 0 }),
        None
    );
    assert_eq!(
        centered_origin(Point { x: i32::MIN, y: i32::MIN }, 0, Size { width: 9, height: 1 }),
        Some(Point { x: i32::MIN, y: i32::MIN })
    );
}
