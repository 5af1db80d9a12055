use embedded_graphics::pixelcolor::{IntoStorage, Rgb565 as PanelColor, RgbColor};
use tft_progress::color::{split_word, Rgb565};
use tft_progress::geometry::{Point, Rect, Size};

#[test]
fn black_and_white_are_the_extremes() {
    assert_eq!(Rgb565::black().raw, 0x0000);
    assert_eq!(Rgb565::white().raw, 0xffff);
    assert_eq!(Rgb565::black().raw, PanelColor::BLACK.into_storage());
    assert_eq!(Rgb565::white().raw, PanelColor::WHITE.into_storage());
}

#[test]
fn channels_are_packed_red_uppermost() {
    assert_eq!(Rgb565::new(31, 0, 0).raw, 0xf800);
    assert_eq!(Rgb565::new(0, 63, 0).raw, 0x07e0);
    assert_eq!(Rgb565::new(0, 0, 31).raw, 0x001f);
    assert_eq!(Rgb565::new(1, 2, 3).raw, (1 << 11) | (2 << 5) | 3);
}

#[test]
fn packing_agrees_with_the_graphics_crate() {
    for &(r, g, b) in &[(0u8, 0u8, 0u8), (31, 63, 31), (7, 40, 19), (255, 255, 255), (32, 64, 33)] {
        assert_eq!(Rgb565::new(r, g, b).raw, PanelColor::new(r, g, b).into_storage());
    }
}

#[test]
fn channels_read_back_cut_to_their_width() {
    let c = Rgb565::new(0xff, 0xff, 0xff);
    assert_eq!((c.r(), c.g(), c.b()), (31, 63, 31));
    let c = Rgb565::new(33, 65, 34);
    assert_eq!((c.r(), c.g(), c.b()), (1, 1, 2));
    let c = Rgb565::from_raw(0x1234);
    assert_eq!((c.r(), c.g(), c.b()), (0x02, 0x11, 0x14));
}

#[test]
fn colours_are_equal_when_their_bits_are() {
    assert_eq!(Rgb565::new(31, 63, 31), Rgb565::white());
    assert_ne!(Rgb565::from_raw(1), Rgb565::from_raw(2));
}

#[test]
fn bytes_travel_upper_byte_first() {
    assert_eq!(Rgb565::from_raw(0x1234).to_be_bytes(), (0x12, 0x34));
    assert_eq!(split_word(0xff00), (0xff, 0x00));
    assert_eq!(split_word(0x00ff), (0x00, 0xff));
    assert_eq!(split_word(0x1234), 0x1234u16.to_be_bytes().into());
}

#[test]
fn contains_is_half_open() {
    let r = Rect::new(2, 3, 4, 5);
    assert!(r.contains(Point { x: 2, y: 3 }));
    assert!(r.contains(Point { x: 5, y: 7 }));
    assert!(!r.contains(Point { x: 6, y: 7 }));
    assert!(!r.contains(Point { x: 5, y: 8 }));
    assert!(!r.contains(Point { x: 1, y: 3 }));
    assert!(!Rect::zero().contains(Point { x: 0, y: 0 }));
}

#[test]
fn contains_does_not_overflow_at_the_limits() {
    let r = Rect::new(i32::MAX, i32::MAX, u32::MAX, u32::MAX);
    assert!(r.contains(Point { x: i32::MAX, y: i32::MAX }));
    let r = Rect::new(i32::MIN, i32::MIN, u32::MAX, u32::MAX);
    assert!(r.contains(Point { x: i32::MAX - 1, y: 0 }));
    assert!(!r.contains(Point { x: i32::MAX, y: 0 }));
}

#[test]
fn intersection_is_the_common_part() {
    let a = Rect::new(0, 0, 10, 10);
    let b = Rect::new(5, 6, 10, 10);
    assert_eq!(a.intersection(&b), Rect::new(5, 6, 5, 4));
    assert_eq!(b.intersection(&a), Rect::new(5, 6, 5, 4));
    let inner = Rect::new(2, 2, 3, 3);
    assert_eq!(a.intersection(&inner), inner);
}

#[test]
fn intersection_of_strangers_is_the_zero_rectangle() {
    let a = Rect::new(0, 0, 10, 10);
    assert_eq!(a.intersection(&Rect::new(10, 0, 5, 5)), Rect::zero());
    assert_eq!(a.intersection(&Rect::new(-5, -5, 5, 5)), Rect::zero());
    assert_eq!(a.intersection(&Rect::new(3, 3, 0, 4)), Rect::zero());
    assert_eq!(
        Rect::zero(),
        Rect { top_left: Point { x: 0, y: 0 }, size: Size { width: 0, height: 0 } }
    );
}

#[test]
fn intersection_clips_negative_corners() {
    let surface = Rect::new(0, 0, 128, 128);
    assert_eq!(Rect::new(-3, -4, 10, 10).intersection(&surface), Rect::new(0, 0, 7, 6));
    assert_eq!(Rect::new(120, 125, 20, 20).intersection(&surface), Rect::new(120, 125, 8, 3));
}
