use std::collections::HashMap;

use tft_progress::animation::Animation;
use tft_progress::bus::BusOp;
use tft_progress::color::Rgb565;
use tft_progress::draw::DrawCall;
use tft_progress::driver::{Driver, DriverError};
use tft_progress::geometry::{Point, Rect};
use tft_progress::indicator::{compose, render_frame, tick, TICK_DELAY_MS};
use tft_progress::render::{arc_pixels, render_text, Primitive, StrokeAlignment, StrokedArc};

/// The controller's side of the link, as far as drawing goes.
struct Panel {
    command: u8,
    args: Vec<u8>,
    window: (u16, u16, u16, u16),
    ram: HashMap<(u16, u16), u16>,
    writes: usize,
}

impl Panel {
    fn new() -> Panel {
        Panel { command: 0, args: Vec::new(), window: (0, 0, 0, 0), ram: HashMap::new(), writes: 0 }
    }

    fn filled(width: u16, height: u16) -> Panel {
        let mut p = Panel::new();
        for y in 0..height {
            for x in 0..width {
                p.ram.insert((x, y), x.wrapping_mul(31) ^ y.wrapping_mul(977) ^ 0x5a5a);
            }
        }
        p
    }

    fn run(&mut self, ops: &[BusOp]) {
        for op in ops {
            match *op {
                BusOp::Command(c) => {
                    self.command = c;
                    self.args.clear();
                }
                BusOp::Data(b) => {
                    self.args.push(b);
                    let n = self.args.len();
                    let word = |i: usize, a: &Vec<u8>| (a[i] as u16) << 8 | a[i + 1] as u16;
                    if self.command == 0x2A && n == 4 {
                        self.window.0 = word(0, &self.args);
                        self.window.1 = word(2, &self.args);
                    } else if self.command == 0x2B && n == 4 {
                        self.window.2 = word(0, &self.args);
                        self.window.3 = word(2, &self.args);
                    } else if self.command == 0x2C && n % 2 == 0 {
                        let (xs, xe, ys, ye) = self.window;
                        let w = (xe - xs + 1) as usize;
                        let h = (ye - ys + 1) as usize;
                        let k = n / 2 - 1;
                        let x = xs + (k % w) as u16;
                        let y = ys + ((k / w) % h) as u16;
                        self.ram.insert((x, y), word(n - 2, &self.args));
                        self.writes += 1;
                    }
                }
                _ => {}
            }
        }
    }
}

fn ready_at(dx: u16, dy: u16) -> Driver {
    let mut driver = Driver::new(false, false, 128, 128);
    driver.initialize();
    driver.set_offset(dx, dy).unwrap();
    driver
}

fn label_of(primitives: &[Primitive]) -> (String, Point) {
    match &primitives[2] {
        Primitive::Text { text, origin, foreground, background } => {
            assert_eq!(*foreground, Rgb565::white());
            assert_eq!(*background, Rgb565::black());
            (text.as_str().to_string(), *origin)
        }
        _ => panic!("the third primitive is the label"),
    }
}

fn arc_of(primitives: &[Primitive]) -> StrokedArc {
    match &primitives[1] {
        Primitive::StrokedArc(arc) => *arc,
        _ => panic!("the second primitive is the arc"),
    }
}

fn picture(progress: u8) -> HashMap<(i32, i32), u16> {
    let mut expected = HashMap::new();
    for y in 0..64 {
        for x in 0..64 {
            expected.insert((x, y), 0x0000u16);
        }
    }
    let primitives = compose(progress);
    for p in arc_pixels(&arc_of(&primitives)) {
        expected.insert((p.point.x, p.point.y), p.color.raw);
    }
    let (text, origin) = label_of(&primitives);
    let patch = render_text(&text, origin, Rgb565::white(), Rgb565::black());
    let w = patch.rect.size.width as i32;
    for (k, c) in patch.pixels.iter().enumerate() {
        expected.insert((origin.x + k as i32 % w, origin.y + k as i32 / w), c.raw);
    }
    expected
}

#[test]
fn a_scene_clears_strokes_and_labels() {
    for progress in 0..=100u8 {
        let primitives = compose(progress);
        assert_eq!(primitives.len(), 3);
        match &primitives[0] {
            Primitive::FilledRectangle { rect, fill } => {
                assert_eq!(*rect, Rect::new(0, 0, 64, 64));
                assert_eq!(*fill, Rgb565::black());
            }
            _ => panic!("the first primitive clears the region"),
        }
        assert_eq!(
            arc_of(&primitives),
            StrokedArc {
                top_left: Point { x: 2, y: 2 },
                diameter: 60,
                start: 25,
                sweep: progress,
                stroke_width: 5,
                alignment: StrokeAlignment::Inside,
                color: Rgb565::white(),
            }
        );
        let (text, origin) = label_of(&primitives);
        assert_eq!(text, format!("{}", progress));
        assert_eq!(origin, Point { x: 32 - (text.len() as i32 * 12) / 2, y: 32 - 16 / 2 });
    }
}

#[test]
fn scene_at_zero_percent() {
    let primitives = compose(0);
    assert_eq!(arc_of(&primitives).sweep, 0);
    assert!(arc_pixels(&arc_of(&primitives)).is_empty());
    assert_eq!(label_of(&primitives), ("0".to_string(), Point { x: 26, y: 24 }));
    match &render_frame(0)[1] {
        DrawCall::Pixels(pixels) => assert!(pixels.is_empty()),
        DrawCall::Window(_) => panic!("an arc is a list of pixels"),
    }
}

#[test]
fn scene_at_fifty_percent() {
    let primitives = compose(50);
    assert_eq!(arc_of(&primitives).sweep, 50);
    let pixels = arc_pixels(&arc_of(&primitives));
    assert!(!pixels.is_empty());
    assert!(pixels.iter().all(|p| p.point.x >= 32));
    assert_eq!(label_of(&primitives), ("50".to_string(), Point { x: 20, y: 24 }));
}

#[test]
fn scene_at_ninety_nine_percent() {
    let primitives = compose(99);
    assert_eq!(arc_of(&primitives).sweep, 99);
    let mut a = Animation::starting_at(99).unwrap();
    assert_eq!(a.sweep_tenths(), 3564);
    assert_eq!(label_of(&primitives), ("99".to_string(), Point { x: 20, y: 24 }));
    let almost = arc_pixels(&arc_of(&primitives)).len();
    let full = arc_pixels(&arc_of(&compose(100))).len();
    assert!(almost < full && almost * 100 >= full * 97);
    a.advance();
    assert_eq!(a.progress(), 100);
}

#[test]
fn scene_at_one_hundred_percent_and_wrap() {
    let primitives = compose(100);
    assert_eq!(arc_of(&primitives).sweep, 100);
    assert_eq!(label_of(&primitives), ("100".to_string(), Point { x: 14, y: 24 }));
    let driver = ready_at(0, 0);
    let mut a = Animation::starting_at(100).unwrap();
    assert_eq!(a.sweep_tenths(), 3600);
    assert!(tick(&driver, &mut a).is_ok());
    assert_eq!(a.progress(), 0);
}

#[test]
fn a_frame_is_a_window_some_pixels_and_a_window() {
    for &progress in &[0u8, 7, 50, 100] {
        let calls = render_frame(progress);
        assert_eq!(calls.len(), 3);
        match &calls[0] {
            DrawCall::Window(patch) => {
                assert_eq!(patch.rect, Rect::new(0, 0, 64, 64));
                assert_eq!(patch.pixels, vec![Rgb565::black(); 64 * 64]);
            }
            _ => panic!("the region is cleared through a window"),
        }
        match &calls[1] {
            DrawCall::Pixels(pixels) => {
                assert_eq!(*pixels, arc_pixels(&arc_of(&compose(progress))))
            }
            _ => panic!("an arc is a list of pixels"),
        }
        match &calls[2] {
            DrawCall::Window(patch) => {
                let digits = format!("{}", progress);
                assert_eq!(patch.rect.size.width as usize, 12 * digits.len());
                assert_eq!(patch.rect.size.height, 16);
                assert_eq!(patch.pixels.len(), 12 * digits.len() * 16);
            }
            _ => panic!("the label is drawn through a window"),
        }
    }
}

#[test]
fn tick_before_initialize_draws_nothing_and_keeps_the_counter() {
    let driver = Driver::new(false, false, 128, 128);
    let mut a = Animation::starting_at(41).unwrap();
    assert_eq!(tick(&driver, &mut a), Err(DriverError::NotInitialized));
    assert_eq!(a.progress(), 41);
}

#[test]
fn tick_draws_the_frame_pauses_and_advances() {
    let driver = ready_at(2, 1);
    let mut a = Animation::starting_at(41).unwrap();
    let ops = tick(&driver, &mut a).unwrap();
    assert_eq!(a.progress(), 42);
    assert_eq!(TICK_DELAY_MS, 10);
    assert_eq!(ops.last(), Some(&BusOp::DelayMs(10)));
    let mut expected = driver.draw_all(&render_frame(41)).unwrap();
    expected.push(BusOp::DelayMs(10));
    assert_eq!(ops, expected);
    assert_eq!(ops.iter().filter(|op| matches!(op, BusOp::DelayMs(_))).count(), 1);
}

#[test]
fn ticks_cycle_through_all_percentages() {
    let driver = ready_at(0, 0);
    let mut a = Animation::new();
    for expected in 0..=201u32 {
        assert_eq!(a.progress() as u32, expected % 101);
        tick(&driver, &mut a).unwrap();
    }
}

#[test]
fn the_panel_shows_the_scene() {
    for &(dx, dy) in &[(0u16, 0u16), (2, 3)] {
        let driver = ready_at(dx, dy);
        for &progress in &[0u8, 9, 10, 50, 99, 100] {
            let mut panel = Panel::filled(140, 140);
            let mut a = Animation::starting_at(progress).unwrap();
            panel.run(&tick(&driver, &mut a).unwrap());
            let expected = picture(progress);
            for y in 0..64 {
                for x in 0..64 {
                    assert_eq!(
                        panel.ram[&(x as u16 + dx, y as u16 + dy)],
                        expected[&(x, y)]
                    );
                }
            }
        }
    }
}

#[test]
fn pixels_outside_the_region_keep_their_value() {
    for &(dx, dy) in &[(0u16, 0u16), (2, 3)] {
        let driver = ready_at(dx, dy);
        let before = Panel::filled(140, 140);
        for progress in (0..=100u8).step_by(7) {
            let mut panel = Panel::filled(140, 140);
            let mut a = Animation::starting_at(progress).unwrap();
            panel.run(&tick(&driver, &mut a).unwrap());
            assert_eq!(panel.ram.len(), before.ram.len());
            for (&(x, y), value) in before.ram.iter() {
                let inside = x >= dx && x < dx + 64 && y >= dy && y < dy + 64;
                if !inside {
                    assert_eq!(panel.ram[&(x, y)], *value);
                }
            }
        }
    }
}

#[test]
fn rendering_the_same_percentage_twice_changes_nothing() {
    let driver = ready_at(2, 1);
    for &progress in &[0u8, 33, 50, 100] {
        let first = driver.draw_all(&render_frame(progress)).unwrap();
        let second = driver.draw_all(&render_frame(progress)).unwrap();
        assert_eq!(first, second);
        let mut panel = Panel::filled(140, 140);
        panel.run(&first);
        let once = panel.ram.clone();
        let writes = panel.writes;
        panel.run(&second);
        assert_eq!(panel.ram, once);
        assert_eq!(panel.writes, 2 * writes);
    }
}

#[test]
fn a_tick_streams_far_less_than_the_whole_surface() {
    let driver = ready_at(0, 0);
    for progress in 0..=100u8 {
        let mut panel = Panel::new();
        panel.run(&driver.draw_all(&render_frame(progress)).unwrap());
        assert!(panel.writes <= 64 * 64 + 60 * 60 + 36 * 16);
        assert!(panel.writes < 128 * 128 / 2);
    }
}

#[test]
fn the_region_is_clipped_by_a_small_surface() {
    let mut driver = Driver::new(false, false, 40, 30);
    driver.initialize();
    let mut panel = Panel::filled(80, 80);
    let before = Panel::filled(80, 80);
    let mut a = Animation::starting_at(100).unwrap();
    panel.run(&tick(&driver, &mut a).unwrap());
    let expected = picture(100);
    for (&(x, y), value) in before.ram.iter() {
        if x < 40 && y < 30 {
            assert_eq!(panel.ram[&(x, y)], expected[&(x as i32, y as i32)]);
        } else {
            assert_eq!(panel.ram[&(x, y)], *value);
        }
    }
}
