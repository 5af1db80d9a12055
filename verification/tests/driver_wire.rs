use std::cell::RefCell;
use std::rc::Rc;

use embedded_graphics::draw_target::DrawTarget;
use embedded_graphics::pixelcolor::raw::RawU16;
use embedded_graphics::pixelcolor::Rgb565 as PanelColor;
use embedded_graphics::prelude::Point as PanelPoint;
use embedded_graphics::prelude::Size as PanelSize;
use embedded_graphics::primitives::Rectangle;
use embedded_hal::blocking::delay::DelayMs;
use embedded_hal::blocking::spi::Write;
use embedded_hal::digital::v2::OutputPin;
use st7735_lcd::{Orientation as PanelOrientation, ST7735};
use tft_progress::bus::BusOp;
use tft_progress::color::Rgb565;
use tft_progress::draw::{DrawCall, Patch, Pixel};
use tft_progress::driver::{Driver, DriverError, Orientation};
use tft_progress::geometry::{Point, Rect};

struct Link {
    data: bool,
    ops: Vec<BusOp>,
}

type Shared = Rc<RefCell<Link>>;

struct Spi(Shared);
struct DataCommand(Shared);
struct Reset(Shared);
struct Pause(Shared);

impl Write<u8> for Spi {
    type Error = ();

    fn write(&mut self, words: &[u8]) -> Result<(), ()> {
        let mut link = self.0.borrow_mut();
        for &b in words {
            let op = if link.data { BusOp::Data(b) } else { BusOp::Command(b) };
            link.ops.push(op);
        }
        Ok(())
    }
}

impl OutputPin for DataCommand {
    type Error = ();

    fn set_low(&mut self) -> Result<(), ()> {
        self.0.borrow_mut().data = false;
        Ok(())
    }

    fn set_high(&mut self) -> Result<(), ()> {
        self.0.borrow_mut().data = true;
        Ok(())
    }
}

impl OutputPin for Reset {
    type Error = ();

    fn set_low(&mut self) -> Result<(), ()> {
        self.0.borrow_mut().ops.push(BusOp::ResetLow);
        Ok(())
    }

    fn set_high(&mut self) -> Result<(), ()> {
        self.0.borrow_mut().ops.push(BusOp::ResetHigh);
        Ok(())
    }
}

impl DelayMs<u8> for Pause {
    fn delay_ms(&mut self, ms: u8) {
        self.0.borrow_mut().ops.push(BusOp::DelayMs(ms));
    }
}

fn panel(rgb: bool, inverted: bool, width: u32, height: u32) -> (ST7735<Spi, DataCommand, Reset>, Pause, Shared) {
    let link: Shared = Rc::new(RefCell::new(Link { data: false, ops: Vec::new() }));
    let display = ST7735::new(
        Spi(link.clone()),
        DataCommand(link.clone()),
        Reset(link.clone()),
        rgb,
        inverted,
        width,
        height,
    );
    (display, Pause(link.clone()), link)
}

fn taken(link: &Shared) -> Vec<BusOp> {
    std::mem::take(&mut link.borrow_mut().ops)
}

fn ready(rgb: bool, inverted: bool, width: u16, height: u16) -> (Driver, ST7735<Spi, DataCommand, Reset>, Shared) {
    let (mut display, mut pause, link) = panel(rgb, inverted, width as u32, height as u32);
    display.init(&mut pause).unwrap();
    taken(&link);
    let mut driver = Driver::new(rgb, inverted, width, height);
    driver.initialize();
    (driver, display, link)
}

fn ramp(count: usize) -> Vec<Rgb565> {
    (0..count).map(|i| Rgb565::from_raw((i as u16).wrapping_mul(257).wrapping_add(3))).collect()
}

fn panel_colors(pixels: &[Rgb565]) -> Vec<PanelColor> {
    pixels.iter().map(|c| PanelColor::from(RawU16::new(c.raw))).collect()
}

#[test]
fn initialize_sends_the_power_on_sequence() {
    let mut driver = Driver::new(false, false, 128, 128);
    assert!(!driver.is_initialized());
    let ops = driver.initialize();
    assert!(driver.is_initialized());
    assert_eq!(
        &ops[..9],
        &[
            BusOp::ResetHigh,
            BusOp::DelayMs(10),
            BusOp::ResetLow,
            BusOp::DelayMs(10),
            BusOp::ResetHigh,
            BusOp::Command(0x01),
            BusOp::DelayMs(200),
            BusOp::Command(0x11),
            BusOp::DelayMs(200),
        ]
    );
    assert_eq!(
        &ops[ops.len() - 7..],
        &[
            BusOp::Command(0x20),
            BusOp::Command(0x36),
            BusOp::Data(0x08),
            BusOp::Command(0x3A),
            BusOp::Data(0x05),
            BusOp::Command(0x29),
            BusOp::DelayMs(200),
        ]
    );
    assert_eq!(ops.len(), 50);
}

#[test]
fn initialize_agrees_with_the_panel_crate() {
    for &(rgb, inverted) in &[(false, false), (true, false), (false, true), (true, true)] {
        let (mut display, mut pause, link) = panel(rgb, inverted, 128, 128);
        display.init(&mut pause).unwrap();
        let mut driver = Driver::new(rgb, inverted, 128, 128);
        assert_eq!(driver.initialize(), taken(&link));
    }
}

#[test]
fn drawing_before_initialize_is_refused() {
    let mut driver = Driver::new(true, false, 128, 128);
    assert_eq!(driver.clear(Rgb565::black()), Err(DriverError::NotInitialized));
    assert_eq!(
        driver.draw_window(&Rect::new(0, 0, 1, 1), &vec![Rgb565::black()]),
        Err(DriverError::NotInitialized)
    );
    assert_eq!(driver.draw_pixels(&Vec::new()), Err(DriverError::NotInitialized));
    assert_eq!(driver.draw_all(&Vec::new()), Err(DriverError::NotInitialized));
    assert_eq!(
        driver.set_orientation(Orientation::Landscape),
        Err(DriverError::NotInitialized)
    );
    assert_eq!(driver.orientation(), Orientation::Portrait);
}

#[test]
fn orientation_bytes() {
    assert_eq!(Orientation::Portrait.madctl(), 0x00);
    assert_eq!(Orientation::Landscape.madctl(), 0x60);
    assert_eq!(Orientation::PortraitSwapped.madctl(), 0xC0);
    assert_eq!(Orientation::LandscapeSwapped.madctl(), 0xA0);
}

#[test]
fn set_orientation_agrees_with_the_panel_crate() {
    for &rgb in &[false, true] {
        let (mut driver, mut display, link) = ready(rgb, false, 128, 128);
        let cases = [
            (Orientation::Portrait, PanelOrientation::Portrait),
            (Orientation::Landscape, PanelOrientation::Landscape),
            (Orientation::PortraitSwapped, PanelOrientation::PortraitSwapped),
            (Orientation::LandscapeSwapped, PanelOrientation::LandscapeSwapped),
        ];
        for (ours, theirs) in cases.iter() {
            display.set_orientation(theirs).unwrap();
            assert_eq!(driver.set_orientation(*ours), Ok(taken(&link)));
            assert_eq!(driver.orientation(), *ours);
        }
    }
    let (mut driver, _display, _link) = ready(false, false, 128, 128);
    assert_eq!(
        driver.set_orientation(Orientation::Landscape),
        Ok(vec![BusOp::Command(0x36), BusOp::Data(0x68)])
    );
}

#[test]
fn set_offset_records_the_bias() {
    let (mut driver, _display, _link) = ready(false, false, 128, 160);
    assert_eq!(driver.offset(), (0, 0));
    assert_eq!(driver.set_offset(2, 3), Ok(()));
    assert_eq!(driver.offset(), (2, 3));
    assert_eq!(driver.set_offset(65408, 65376), Ok(()));
    assert_eq!(driver.offset(), (65408, 65376));
    assert_eq!(driver.width(), 128);
    assert_eq!(driver.height(), 160);
}

#[test]
fn set_offset_refuses_what_sixteen_bits_cannot_address() {
    let (mut driver, _display, _link) = ready(false, false, 128, 160);
    assert_eq!(driver.set_offset(2, 1), Ok(()));
    assert_eq!(driver.set_offset(65409, 0), Err(DriverError::OffsetOutOfRange));
    assert_eq!(driver.set_offset(0, 65377), Err(DriverError::OffsetOutOfRange));
    assert_eq!(driver.offset(), (2, 1));
}

#[test]
fn a_window_is_addressed_then_streamed() {
    let (mut driver, _display, _link) = ready(false, false, 128, 128);
    driver.set_offset(2, 1).unwrap();
    let pixels = vec![Rgb565::from_raw(0x1234), Rgb565::from_raw(0xabcd)];
    assert_eq!(
        driver.draw_window(&Rect::new(10, 20, 2, 1), &pixels),
        Ok(vec![
            BusOp::Command(0x2A),
            BusOp::Data(0),
            BusOp::Data(12),
            BusOp::Data(0),
            BusOp::Data(13),
            BusOp::Command(0x2B),
            BusOp::Data(0),
            BusOp::Data(21),
            BusOp::Data(0),
            BusOp::Data(21),
            BusOp::Command(0x2C),
            BusOp::Data(0x12),
            BusOp::Data(0x34),
            BusOp::Data(0xab),
            BusOp::Data(0xcd),
        ])
    );
}

#[test]
fn draw_window_agrees_with_the_panel_crate() {
    let rects = [
        (0, 0, 128u32, 128u32),
        (0, 0, 64, 64),
        (14, 24, 36, 16),
        (-3, -4, 10, 9),
        (120, 125, 20, 20),
        (-5, 60, 140, 3),
        (127, 127, 1, 1),
        (128, 0, 4, 4),
        (-10, -10, 5, 5),
        (5, 5, 0, 0),
    ];
    for &(dx, dy) in &[(0u16, 0u16), (2, 1), (300, 7)] {
        let (mut driver, mut display, link) = ready(true, false, 128, 128);
        driver.set_offset(dx, dy).unwrap();
        display.set_offset(dx, dy);
        for &(x, y, w, h) in rects.iter() {
            let pixels = ramp((w * h) as usize);
            display
                .fill_contiguous(
                    &Rectangle::new(PanelPoint::new(x, y), PanelSize::new(w, h)),
                    panel_colors(&pixels),
                )
                .unwrap();
            assert_eq!(driver.draw_window(&Rect::new(x, y, w, h), &pixels), Ok(taken(&link)));
        }
    }
}

#[test]
fn a_window_off_the_surface_sends_nothing() {
    let (driver, _display, _link) = ready(false, false, 128, 128);
    assert_eq!(driver.draw_window(&Rect::new(128, 0, 2, 2), &ramp(4)), Ok(Vec::new()));
    assert_eq!(driver.draw_window(&Rect::new(0, -2, 2, 2), &ramp(4)), Ok(Vec::new()));
    assert_eq!(driver.draw_window(&Rect::new(5, 5, 0, 0), &Vec::new()), Ok(Vec::new()));
}

#[test]
fn a_stream_of_the_wrong_length_is_refused() {
    let (driver, _display, _link) = ready(false, false, 128, 128);
    assert_eq!(
        driver.draw_window(&Rect::new(0, 0, 2, 2), &ramp(3)),
        Err(DriverError::StreamLength)
    );
    assert_eq!(
        driver.draw_window(&Rect::new(0, 0, 2, 2), &ramp(5)),
        Err(DriverError::StreamLength)
    );
    assert_eq!(
        driver.draw_window(&Rect::new(500, 500, 1, 1), &Vec::new()),
        Err(DriverError::StreamLength)
    );
    let call = DrawCall::Window(Patch { rect: Rect::new(0, 0, 3, 1), pixels: ramp(2) });
    assert_eq!(driver.draw(&call), Err(DriverError::StreamLength));
    assert_eq!(driver.draw_all(&vec![call]), Err(DriverError::StreamLength));
}

#[test]
fn clear_agrees_with_the_panel_crate() {
    for &(w, h, dx, dy) in &[(128u16, 128u16, 0u16, 0u16), (16, 8, 2, 3), (1, 1, 0, 0)] {
        let (mut driver, mut display, link) = ready(false, true, w, h);
        driver.set_offset(dx, dy).unwrap();
        display.set_offset(dx, dy);
        display.clear(PanelColor::from(RawU16::new(0x1357))).unwrap();
        let ops = driver.clear(Rgb565::from_raw(0x1357)).unwrap();
        assert_eq!(ops.len(), 11 + 2 * (w as usize) * (h as usize));
        assert_eq!(ops, taken(&link));
    }
}

#[test]
fn clear_is_one_window_over_the_surface() {
    let (driver, _display, _link) = ready(false, false, 2, 2);
    let ops = driver.clear(Rgb565::from_raw(0x00ff)).unwrap();
    let mut expected = vec![
        BusOp::Command(0x2A),
        BusOp::Data(0),
        BusOp::Data(0),
        BusOp::Data(0),
        BusOp::Data(1),
        BusOp::Command(0x2B),
        BusOp::Data(0),
        BusOp::Data(0),
        BusOp::Data(0),
        BusOp::Data(1),
        BusOp::Command(0x2C),
    ];
    for _ in 0..4 {
        expected.push(BusOp::Data(0x00));
        expected.push(BusOp::Data(0xff));
    }
    assert_eq!(ops, expected);
    assert_eq!(
        driver.draw_window(&Rect::new(0, 0, 2, 2), &vec![Rgb565::from_raw(0x00ff); 4]),
        Ok(expected)
    );
}

#[test]
fn clear_of_an_empty_surface_sends_nothing() {
    let (driver, _display, _link) = ready(false, false, 0, 16);
    assert_eq!(driver.clear(Rgb565::white()), Ok(Vec::new()));
}

#[test]
fn draw_pixels_agrees_with_the_panel_crate() {
    let (mut driver, mut display, link) = ready(true, false, 128, 128);
    driver.set_offset(2, 1).unwrap();
    display.set_offset(2, 1);
    let points = [(0, 0), (5, 9), (127, 127), (128, 5), (-1, 3), (3, -1), (4, 128), (5, 9), (64, 1)];
    let pixels: Vec<Pixel> = points
        .iter()
        .enumerate()
        .map(|(i, &(x, y))| Pixel { point: Point { x, y }, color: Rgb565::from_raw(0x0101 * i as u16 + 5) })
        .collect();
    display
        .draw_iter(pixels.iter().map(|p| {
            embedded_graphics::Pixel(
                PanelPoint::new(p.point.x, p.point.y),
                PanelColor::from(RawU16::new(p.color.raw)),
            )
        }))
        .unwrap();
    let ops = driver.draw_pixels(&pixels).unwrap();
    assert_eq!(ops.len(), 5 * 13);
    assert_eq!(ops, taken(&link));
    assert_eq!(driver.draw(&DrawCall::Pixels(pixels)), Ok(ops));
}

#[test]
fn draw_all_performs_the_calls_in_order() {
    let (driver, _display, _link) = ready(false, false, 128, 128);
    let first = DrawCall::Window(Patch { rect: Rect::new(1, 1, 2, 2), pixels: ramp(4) });
    let second = DrawCall::Pixels(vec![Pixel { point: Point { x: 3, y: 3 }, color: Rgb565::white() }]);
    let mut expected = driver.draw(&first).unwrap();
    expected.extend(driver.draw(&second).unwrap());
    assert_eq!(driver.draw_all(&vec![first, second]), Ok(expected));
    assert_eq!(driver.draw_all(&Vec::new()), Ok(Vec::new()));
}
