//! The display driver: it turns window-addressed pixel operations into the
//! controller's command protocol. The driver owns the addressing state (the
//! surface's size, its offset inside the controller's memory, the scan
//! direction) and answers each operation with the steps to perform on the
//! link, in order.

use vstd::prelude::*;
use crate::bus::{be_bytes, command_ops, emit_command, words_to_bytes, BusOp};
use crate::color::Rgb565;
use crate::draw::{solid, DrawCall, DrawCallView, Pixel};
use crate::geometry::{Point, Rect, Size};

verus! {

/// Software reset.
pub const SWRESET: u8 = 0x01;
/// Leave sleep mode.
pub const SLPOUT: u8 = 0x11;
/// Display inversion off.
pub const INVOFF: u8 = 0x20;
/// Display inversion on.
pub const INVON: u8 = 0x21;
/// Display on.
pub const DISPON: u8 = 0x29;
/// Set the column address window.
pub const CASET: u8 = 0x2A;
/// Set the row address window.
pub const RASET: u8 = 0x2B;
/// Write pixels into the addressed window.
pub const RAMWR: u8 = 0x2C;
/// Memory access control: scan direction and colour order.
pub const MADCTL: u8 = 0x36;
/// Pixel format.
pub const COLMOD: u8 = 0x3A;
/// Frame rate, normal mode.
pub const FRMCTR1: u8 = 0xB1;
/// Frame rate, idle mode.
pub const FRMCTR2: u8 = 0xB2;
/// Frame rate, partial mode.
pub const FRMCTR3: u8 = 0xB3;
/// Inversion control.
pub const INVCTR: u8 = 0xB4;
/// Power control 1.
pub const PWCTR1: u8 = 0xC0;
/// Power control 2.
pub const PWCTR2: u8 = 0xC1;
/// Power control 3.
pub const PWCTR3: u8 = 0xC2;
/// Power control 4.
pub const PWCTR4: u8 = 0xC3;
/// Power control 5.
pub const PWCTR5: u8 = 0xC4;
/// VCOM control.
pub const VMCTR1: u8 = 0xC5;

/// The bit of the memory access control byte that selects BGR colour order.
pub const MADCTL_BGR: u8 = 0x08;

/// How the controller scans its memory onto the glass.
#[derive(Clone, Copy, Debug, PartialEq, Eq, Structural)]
pub enum Orientation {
    Portrait,
    Landscape,
    PortraitSwapped,
    LandscapeSwapped,
}

/// The scan direction bits for an orientation.
pub open spec fn madctl_of(orientation: Orientation) -> u8 {
    match orientation {
        Orientation::Portrait => 0x00,
        Orientation::Landscape => 0x60,
        Orientation::PortraitSwapped => 0xC0,
        Orientation::LandscapeSwapped => 0xA0,
    }
}

/// The memory access control byte for an orientation on a panel with the
/// given colour order.
pub open spec fn madctl_byte(orientation: Orientation, rgb: bool) -> u8 {
    if rgb {
        madctl_of(orientation)
    } else {
        madctl_of(orientation) | 0x08
    }
}

impl Orientation {
    /// The scan direction bits for this orientation.
    pub fn madctl(&self) -> (bits: u8)
        ensures
            bits == madctl_of(*self),
    {
        match self {
            Orientation::Portrait => 0x00,
            Orientation::Landscape => 0x60,
            Orientation::PortraitSwapped => 0xC0,
            Orientation::LandscapeSwapped => 0xA0,
        }
    }
}

/// Why the driver declined an operation.
#[derive(Clone, Copy, Debug, PartialEq, Eq, Structural)]
pub enum DriverError {
    /// A drawing or orientation call came before `initialize`.
    NotInitialized,
    /// The offset would move the surface past the last address that a
    /// 16-bit window coordinate can name.
    OffsetOutOfRange,
    /// The pixel stream does not hold one value for each pixel of the
    /// window.
    StreamLength,
}

/// The driver's state as contracts see it.
pub struct DriverState {
    /// Red is sent first (`true`) or blue is (`false`).
    pub rgb: bool,
    /// The panel shows inverted colours.
    pub inverted: bool,
    /// Columns between the controller's first column and the surface's.
    pub dx: int,
    /// Rows between the controller's first row and the surface's.
    pub dy: int,
    /// Width of the surface in pixels.
    pub width: int,
    /// Height of the surface in pixels.
    pub height: int,
    /// The scan direction last selected.
    pub orientation: Orientation,
    /// Whether the power-on sequence was issued.
    pub initialized: bool,
}

impl DriverState {
    /// Sizes and offsets are 16-bit values, and every pixel of the surface
    /// has an address that fits in 16 bits.
    pub open spec fn wf(&self) -> bool {
        &&& 0 <= self.dx <= 0xffff
        &&& 0 <= self.dy <= 0xffff
        &&& 0 <= self.width <= 0xffff
        &&& 0 <= self.height <= 0xffff
        &&& self.dx + self.width <= 0x10000
        &&& self.dy + self.height <= 0x10000
    }

    /// The surface as a rectangle at the origin.
    pub open spec fn surface(&self) -> Rect {
        Rect {
            top_left: Point { x: 0, y: 0 },
            size: Size { width: self.width as u32, height: self.height as u32 },
        }
    }
}

/// The display driver.
#[derive(Clone, Copy, Debug)]
pub struct Driver {
    rgb: bool,
    inverted: bool,
    dx: u16,
    dy: u16,
    width: u16,
    height: u16,
    orientation: Orientation,
    initialized: bool,
}

/// The steps that bring the controller up: a pulse on the reset line, a
/// software reset, wake-up, the vendor's timing and power settings, colour
/// inversion and colour order as the panel needs them, 16-bit pixels, and
/// display on.
pub open spec fn init_ops(rgb: bool, inverted: bool) -> Seq<BusOp> {
    (((Seq::<BusOp>::empty().push(BusOp::ResetHigh).push(BusOp::DelayMs(10)).push(
        BusOp::ResetLow,
    ).push(BusOp::DelayMs(10)).push(BusOp::ResetHigh) + command_ops(0x01, seq![])).push(
        BusOp::DelayMs(200),
    ) + command_ops(0x11, seq![])).push(BusOp::DelayMs(200)) + command_ops(
        0xB1,
        seq![0x01u8, 0x2C, 0x2D],
    ) + command_ops(0xB2, seq![0x01u8, 0x2C, 0x2D]) + command_ops(
        0xB3,
        seq![0x01u8, 0x2C, 0x2D, 0x01, 0x2C, 0x2D],
    ) + command_ops(0xB4, seq![0x07u8]) + command_ops(0xC0, seq![0xA2u8, 0x02, 0x84])
        + command_ops(0xC1, seq![0xC5u8]) + command_ops(0xC2, seq![0x0Au8, 0x00]) + command_ops(
        0xC3,
        seq![0x8Au8, 0x2A],
    ) + command_ops(0xC4, seq![0x8Au8, 0xEE]) + command_ops(0xC5, seq![0x0Eu8]) + command_ops(
        if inverted {
            0x21u8
        } else {
            0x20u8
        },
        seq![],
    ) + command_ops(
        0x36,
        seq![
            if rgb {
                0x00u8
            } else {
                0x08u8
            },
        ],
    ) + command_ops(0x3A, seq![0x05u8]) + command_ops(0x29, seq![])).push(BusOp::DelayMs(200))
}

/// The steps that address the window from column `sx` to `ex` and from row
/// `sy` to `ey`, both ends included.
pub open spec fn window_ops(sx: u16, sy: u16, ex: u16, ey: u16) -> Seq<BusOp> {
    command_ops(0x2A, be_bytes(seq![sx, ex])) + command_ops(0x2B, be_bytes(seq![sy, ey]))
}

/// The steps that stream `words` into the addressed window.
pub open spec fn write_ops(words: Seq<u16>) -> Seq<BusOp> {
    command_ops(0x2C, be_bytes(words))
}

/// Of a stream that holds one colour for each pixel of `rect`, row by row,
/// the colours of the pixels of `vis`, row by row.
pub open spec fn clip_stream(rect: Rect, vis: Rect, pixels: Seq<Rgb565>) -> Seq<u16> {
    Seq::new(
        vis.area() as nat,
        |k: int|
            pixels[rect.index_of(
                vis.left() + k % (vis.size.width as int),
                vis.top() + k / (vis.size.width as int),
            )].raw,
    )
}

/// The steps that write `pixels`, one colour for each pixel of `rect`, to
/// the part of `rect` that lies on the surface: nothing where no part does;
/// else the address of that part, moved by the offset, and then its
/// colours.
pub open spec fn window_write_ops(state: DriverState, rect: Rect, pixels: Seq<Rgb565>) -> Seq<
    BusOp,
> {
    let vis = rect.meet(state.surface());
    if vis.is_empty() {
        Seq::empty()
    } else {
        window_ops(
            (vis.left() + state.dx) as u16,
            (vis.top() + state.dy) as u16,
            (vis.right() - 1 + state.dx) as u16,
            (vis.bottom() - 1 + state.dy) as u16,
        ) + write_ops(clip_stream(rect, vis, pixels))
    }
}

/// The steps that write one pixel: nothing where it lies off the surface;
/// else a window of that one pixel and its colour.
pub open spec fn pixel_ops(state: DriverState, pixel: Pixel) -> Seq<BusOp> {
    if state.surface().covers(pixel.point.x as int, pixel.point.y as int) {
        window_ops(
            (pixel.point.x + state.dx) as u16,
            (pixel.point.y + state.dy) as u16,
            (pixel.point.x + state.dx) as u16,
            (pixel.point.y + state.dy) as u16,
        ) + write_ops(seq![pixel.color.raw])
    } else {
        Seq::empty()
    }
}

/// The steps that write a list of pixels one after the other.
pub open spec fn pixels_ops(state: DriverState, pixels: Seq<Pixel>) -> Seq<BusOp>
    decreases pixels.len(),
{
    if pixels.len() == 0 {
        Seq::empty()
    } else {
        pixels_ops(state, pixels.drop_last()) + pixel_ops(state, pixels.last())
    }
}

/// The steps that perform one drawing call.
pub open spec fn call_ops(state: DriverState, call: DrawCallView) -> Seq<BusOp> {
    match call {
        DrawCallView::Window(patch) => window_write_ops(state, patch.rect, patch.pixels),
        DrawCallView::Pixels(pixels) => pixels_ops(state, pixels),
    }
}

/// The steps that perform a list of drawing calls in order.
pub open spec fn calls_ops(state: DriverState, calls: Seq<DrawCallView>) -> Seq<BusOp>
    decreases calls.len(),
{
    if calls.len() == 0 {
        Seq::empty()
    } else {
        calls_ops(state, calls.drop_last()) + call_ops(state, calls.last())
    }
}

/// The `k`-th pixel of `vis`, counted row by row, has its place in the
/// stream of any rectangle that `vis` lies in.
pub proof fn lemma_clip_index(rect: Rect, vis: Rect, k: int)
    requires
        !vis.is_empty(),
        vis.within(rect),
        0 <= k < vis.area(),
    ensures
        0 <= k % (vis.size.width as int) < vis.size.width,
        0 <= k / (vis.size.width as int) < vis.size.height,
        0 <= rect.index_of(
            vis.left() + k % (vis.size.width as int),
            vis.top() + k / (vis.size.width as int),
        ) < rect.area(),
        rect.covers(
            vis.left() + k % (vis.size.width as int),
            vis.top() + k / (vis.size.width as int),
        ),
{
    let vw = vis.size.width as int;
    let vh = vis.size.height as int;
    let rw = rect.size.width as int;
    let rh = rect.size.height as int;
    let col = k % vw;
    let row = k / vw;
    assert(0 <= row < vh && 0 <= col < vw) by (nonlinear_arith)
        requires
            0 <= k < vw * vh,
            vw > 0,
            col == k % vw,
            row == k / vw,
    ;
    let r = vis.top() + row - rect.top();
    let c = vis.left() + col - rect.left();
    assert(0 <= r * rw + c < rw * rh) by (nonlinear_arith)
        requires
            0 <= r < rh,
            0 <= c < rw,
    ;
}

impl View for Driver {
    type V = DriverState;

    closed spec fn view(&self) -> DriverState {
        DriverState {
            rgb: self.rgb,
            inverted: self.inverted,
            dx: self.dx as int,
            dy: self.dy as int,
            width: self.width as int,
            height: self.height as int,
            orientation: self.orientation,
            initialized: self.initialized,
        }
    }
}

impl Driver {
    /// Every pixel of the surface has an address that fits in 16 bits.
    pub closed spec fn wf(&self) -> bool {
        self.dx + self.width <= 0x10000 && self.dy + self.height <= 0x10000
    }

    /// What `wf` means for the state that contracts see.
    pub proof fn lemma_wf(&self)
        ensures
            0 <= self@.dx <= 0xffff,
            0 <= self@.dy <= 0xffff,
            0 <= self@.width <= 0xffff,
            0 <= self@.height <= 0xffff,
            self.wf() <==> self@.wf(),
    {
    }

    /// A driver for a surface of `width` by `height` pixels, not yet
    /// initialized, with no offset, in portrait orientation.
    pub fn new(rgb: bool, inverted: bool, width: u16, height: u16) -> (d: Driver)
        ensures
            d.wf(),
            d@ == (DriverState {
                rgb,
                inverted,
                dx: 0,
                dy: 0,
                width: width as int,
                height: height as int,
                orientation: Orientation::Portrait,
                initialized: false,
            }),
    {
        Driver {
            rgb,
            inverted,
            dx: 0,
            dy: 0,
            width,
            height,
            orientation: Orientation::Portrait,
            initialized: false,
        }
    }

    /// The surface's width in pixels.
    pub fn width(&self) -> (w: u16)
        ensures
            w == self@.width,
    {
        self.width
    }

    /// The surface's height in pixels.
    pub fn height(&self) -> (h: u16)
        ensures
            h == self@.height,
    {
        self.height
    }

    /// The offset recorded by `set_offset`.
    pub fn offset(&self) -> (o: (u16, u16))
        ensures
            o.0 == self@.dx,
            o.1 == self@.dy,
    {
        (self.dx, self.dy)
    }

    /// The orientation last selected.
    pub fn orientation(&self) -> (o: Orientation)
        ensures
            o == self@.orientation,
    {
        self.orientation
    }

    /// Whether `initialize` was called.
    pub fn is_initialized(&self) -> (b: bool)
        ensures
            b == self@.initialized,
    {
        self.initialized
    }

    /// The power-on sequence. After it the driver accepts drawing calls.
    pub fn initialize(&mut self) -> (ops: Vec<BusOp>)
        requires
            old(self).wf(),
        ensures
            final(self).wf(),
            final(self)@ == (DriverState { initialized: true, ..old(self)@ }),
            ops@ == init_ops(old(self)@.rgb, old(self)@.inverted),
    {
        let mut ops: Vec<BusOp> = Vec::new();
        let none: Vec<u8> = Vec::new();
        assert(none@ =~= seq![]);
        ops.push(BusOp::ResetHigh);
        ops.push(BusOp::DelayMs(10));
        ops.push(BusOp::ResetLow);
        ops.push(BusOp::DelayMs(10));
        ops.push(BusOp::ResetHigh);
        emit_command(&mut ops, SWRESET, &none);
        ops.push(BusOp::DelayMs(200));
        emit_command(&mut ops, SLPOUT, &none);
        ops.push(BusOp::DelayMs(200));
        emit_command(&mut ops, FRMCTR1, &bytes3(0x01, 0x2C, 0x2D));
        emit_command(&mut ops, FRMCTR2, &bytes3(0x01, 0x2C, 0x2D));
        let mut six: Vec<u8> = bytes3(0x01, 0x2C, 0x2D);
        six.push(0x01);
        six.push(0x2C);
        six.push(0x2D);
        emit_command(&mut ops, FRMCTR3, &six);
        emit_command(&mut ops, INVCTR, &bytes1(0x07));
        emit_command(&mut ops, PWCTR1, &bytes3(0xA2, 0x02, 0x84));
        emit_command(&mut ops, PWCTR2, &bytes1(0xC5));
        emit_command(&mut ops, PWCTR3, &bytes2(0x0A, 0x00));
        emit_command(&mut ops, PWCTR4, &bytes2(0x8A, 0x2A));
        emit_command(&mut ops, PWCTR5, &bytes2(0x8A, 0xEE));
        emit_command(&mut ops, VMCTR1, &bytes1(0x0E));
        emit_command(&mut ops, if self.inverted { INVON } else { INVOFF }, &none);
        emit_command(&mut ops, MADCTL, &bytes1(if self.rgb { 0x00 } else { MADCTL_BGR }));
        emit_command(&mut ops, COLMOD, &bytes1(0x05));
        emit_command(&mut ops, DISPON, &none);
        ops.push(BusOp::DelayMs(200));
        self.initialized = true;
        ops
    }

    /// Selects the scan direction.
    pub fn set_orientation(&mut self, orientation: Orientation) -> (res: Result<
        Vec<BusOp>,
        DriverError,
    >)
        requires
            old(self).wf(),
        ensures
            final(self).wf(),
            res.is_ok() <==> old(self)@.initialized,
            res.is_ok() ==> final(self)@ == (DriverState { orientation, ..old(self)@ })
                && res.unwrap()@ == command_ops(
                0x36,
                seq![madctl_byte(orientation, old(self)@.rgb)],
            ),
            res.is_err() ==> final(self)@ == old(self)@ && res.unwrap_err()
                == DriverError::NotInitialized,
    {
        if !self.initialized {
            return Err(DriverError::NotInitialized);
        }
        let bits: u8 = orientation.madctl();
        let byte: u8 = if self.rgb { bits } else { bits | MADCTL_BGR };
        let mut ops: Vec<BusOp> = Vec::new();
        emit_command(&mut ops, MADCTL, &bytes1(byte));
        assert(ops@ =~= command_ops(0x36, seq![madctl_byte(orientation, self@.rgb)]));
        self.orientation = orientation;
        Ok(ops)
    }

    /// Records the bias added to every window addressed from now on. It is
    /// refused, and nothing changes, where it would move part of the surface
    /// beyond the addresses that 16 bits can name.
    pub fn set_offset(&mut self, dx: u16, dy: u16) -> (res: Result<(), DriverError>)
        requires
            old(self).wf(),
        ensures
            final(self).wf(),
            res.is_ok() <==> dx + old(self)@.width <= 0x10000 && dy + old(self)@.height
                <= 0x10000,
            res.is_ok() ==> final(self)@ == (DriverState {
                dx: dx as int,
                dy: dy as int,
                ..old(self)@
            }),
            res.is_err() ==> final(self)@ == old(self)@ && res.unwrap_err()
                == DriverError::OffsetOutOfRange,
    {
        if dx as u32 + self.width as u32 > 0x10000 || dy as u32 + self.height as u32 > 0x10000 {
            return Err(DriverError::OffsetOutOfRange);
        }
        self.dx = dx;
        self.dy = dy;
        Ok(())
    }
    /// Streams `pixels`, one colour for each pixel of `rect` in row-major
    /// order, to the part of `rect` that lies on the surface. Only that part
    /// is addressed, and only its colours are sent.
    pub fn draw_window(&self, rect: &Rect, pixels: &Vec<Rgb565>) -> (res: Result<
        Vec<BusOp>,
        DriverError,
    >)
        requires
            self.wf(),
        ensures
            res.is_ok() <==> self@.initialized && pixels@.len() == rect.area(),
            res.is_ok() ==> res.unwrap()@ == window_write_ops(self@, *rect, pixels@),
            res.is_err() ==> res.unwrap_err() == if !self@.initialized {
                DriverError::NotInitialized
            } else {
                DriverError::StreamLength
            },
    {
        if !self.initialized {
            return Err(DriverError::NotInitialized);
        }
        assert(rect.size.width * rect.size.height <= 0xffff_ffff * 0xffff_ffff)
            by (nonlinear_arith)
            requires
                0 <= rect.size.width <= 0xffff_ffff,
                0 <= rect.size.height <= 0xffff_ffff,
        ;
        let area: u64 = rect.size.width as u64 * rect.size.height as u64;
        if pixels.len() as u64 != area {
            return Err(DriverError::StreamLength);
        }
        let surface = Rect::new(0, 0, self.width as u32, self.height as u32);
        let vis = rect.intersection(&surface);
        if vis.size.width == 0 || vis.size.height == 0 {
            return Ok(Vec::new());
        }
        assert(vis.size.width * vis.size.height <= 0xffff * 0xffff) by (nonlinear_arith)
            requires
                0 <= vis.size.width <= 0xffff,
                0 <= vis.size.height <= 0xffff,
        ;
        let words = clip_words(rect, &vis, pixels);
        let mut ops: Vec<BusOp> = Vec::new();
        let sx: u16 = (vis.top_left.x as u32 + self.dx as u32) as u16;
        let sy: u16 = (vis.top_left.y as u32 + self.dy as u32) as u16;
        let ex: u16 = (vis.top_left.x as u32 + (vis.size.width - 1) + self.dx as u32) as u16;
        let ey: u16 = (vis.top_left.y as u32 + (vis.size.height - 1) + self.dy as u32) as u16;
        address_window(&mut ops, sx, sy, ex, ey);
        emit_command(&mut ops, RAMWR, &words_to_bytes(&words));
        Ok(ops)
    }

    /// Fills the whole surface with one colour: one window over the surface,
    /// then the colour once for each of its pixels.
    pub fn clear(&self, color: Rgb565) -> (res: Result<Vec<BusOp>, DriverError>)
        requires
            self.wf(),
        ensures
            res.is_ok() <==> self@.initialized,
            res.is_ok() ==> res.unwrap()@ == window_write_ops(
                self@,
                self@.surface(),
                solid(self@.surface().area() as nat, color),
            ),
            res.is_err() ==> res.unwrap_err() == DriverError::NotInitialized,
    {
        if !self.initialized {
            return Err(DriverError::NotInitialized);
        }
        if self.width == 0 || self.height == 0 {
            return Ok(Vec::new());
        }
        let ghost surface = self@.surface();
        let ghost stream = solid(surface.area() as nat, color);
        assert(self.width * self.height <= 0xffff * 0xffff) by (nonlinear_arith)
            requires
                0 <= self.width <= 0xffff,
                0 <= self.height <= 0xffff,
        ;
        let count: u32 = self.width as u32 * self.height as u32;
        let mut words: Vec<u16> = Vec::new();
        let mut k: u32 = 0;
        while k < count
            invariant
                k <= count,
                words@.len() == k,
                forall|j: int| 0 <= j < k ==> words@[j] == color.raw,
            decreases count - k,
        {
            words.push(color.raw);
            k += 1;
        }
        proof {
            assert(surface.meet(surface) == surface);
            assert forall|j: int| 0 <= j < surface.area() implies #[trigger] clip_stream(
                surface,
                surface,
                stream,
            )[j] == color.raw by {
                lemma_clip_index(surface, surface, j);
            }
            assert(words@ =~= clip_stream(surface, surface, stream));
        }
        let mut ops: Vec<BusOp> = Vec::new();
        let ex: u16 = ((self.width - 1) as u32 + self.dx as u32) as u16;
        let ey: u16 = ((self.height - 1) as u32 + self.dy as u32) as u16;
        address_window(&mut ops, self.dx, self.dy, ex, ey);
        emit_command(&mut ops, RAMWR, &words_to_bytes(&words));
        Ok(ops)
    }

    /// Writes single pixels, each through a window of its own; those off the
    /// surface are passed over.
    pub fn draw_pixels(&self, pixels: &Vec<Pixel>) -> (res: Result<Vec<BusOp>, DriverError>)
        requires
            self.wf(),
        ensures
            res.is_ok() <==> self@.initialized,
            res.is_ok() ==> res.unwrap()@ == pixels_ops(self@, pixels@),
            res.is_err() ==> res.unwrap_err() == DriverError::NotInitialized,
    {
        if !self.initialized {
            return Err(DriverError::NotInitialized);
        }
        let mut ops: Vec<BusOp> = Vec::new();
        let mut i: usize = 0;
        while i < pixels.len()
            invariant
                self.wf(),
                i <= pixels.len(),
                ops@ == pixels_ops(self@, pixels@.take(i as int)),
            decreases pixels.len() - i,
        {
            let p = pixels[i];
            let ghost before = ops@;
            if p.point.x >= 0 && p.point.y >= 0 && p.point.x < self.width as i32 && p.point.y
                < self.height as i32 {
                let x: u16 = (p.point.x as u32 + self.dx as u32) as u16;
                let y: u16 = (p.point.y as u32 + self.dy as u32) as u16;
                address_window(&mut ops, x, y, x, y);
                let mut word: Vec<u16> = Vec::new();
                word.push(p.color.raw);
                emit_command(&mut ops, RAMWR, &words_to_bytes(&word));
                assert(ops@ =~= before + pixel_ops(self@, p));
            }
            i += 1;
            proof {
                assert(pixels@.take(i as int).drop_last() =~= pixels@.take(i - 1));
                assert(ops@ =~= before + pixel_ops(self@, p));
            }
        }
        assert(pixels@.take(i as int) =~= pixels@);
        Ok(ops)
    }

    /// Performs one drawing call.
    pub fn draw(&self, call: &DrawCall) -> (res: Result<Vec<BusOp>, DriverError>)
        requires
            self.wf(),
        ensures
            res.is_ok() <==> self@.initialized && call@.wf(),
            res.is_ok() ==> res.unwrap()@ == call_ops(self@, call@),
            res.is_err() ==> res.unwrap_err() == if !self@.initialized {
                DriverError::NotInitialized
            } else {
                DriverError::StreamLength
            },
    {
        match call {
            DrawCall::Window(patch) => self.draw_window(&patch.rect, &patch.pixels),
            DrawCall::Pixels(pixels) => self.draw_pixels(pixels),
        }
    }

    /// Performs a list of drawing calls in order. Nothing is handed out
    /// unless every call can be performed.
    pub fn draw_all(&self, calls: &Vec<DrawCall>) -> (res: Result<Vec<BusOp>, DriverError>)
        requires
            self.wf(),
        ensures
            res.is_ok() <==> self@.initialized && forall|i: int|
                0 <= i < calls@.len() ==> (#[trigger] calls@[i])@.wf(),
            res.is_ok() ==> res.unwrap()@ == calls_ops(
                self@,
                Seq::new(calls@.len(), |i: int| calls@[i]@),
            ),
            res.is_err() ==> res.unwrap_err() == if !self@.initialized {
                DriverError::NotInitialized
            } else {
                DriverError::StreamLength
            },
    {
        if !self.initialized {
            return Err(DriverError::NotInitialized);
        }
        let ghost views = Seq::new(calls@.len(), |i: int| calls@[i]@);
        let mut ops: Vec<BusOp> = Vec::new();
        let mut i: usize = 0;
        while i < calls.len()
            invariant
                self.wf(),
                self@.initialized,
                views == Seq::new(calls@.len(), |j: int| calls@[j]@),
                i <= calls.len(),
                forall|j: int| 0 <= j < i ==> (#[trigger] calls@[j])@.wf(),
                ops@ == calls_ops(self@, views.take(i as int)),
            decreases calls.len() - i,
        {
            match self.draw(&calls[i]) {
                Ok(mut more) => {
                    ops.append(&mut more);
                },
                Err(e) => {
                    assert(!calls@[i as int]@.wf());
                    return Err(e);
                },
            }
            i += 1;
            proof {
                assert(views.take(i as int).drop_last() =~= views.take(i - 1));
                assert(views.take(i as int).last() == calls@[i - 1]@);
            }
        }
        assert(views.take(i as int) =~= views);
        Ok(ops)
    }
}

/// Appends the steps that address a window.
fn address_window(ops: &mut Vec<BusOp>, sx: u16, sy: u16, ex: u16, ey: u16)
    ensures
        final(ops)@ == old(ops)@ + window_ops(sx, sy, ex, ey),
{
    let ghost before = ops@;
    let mut columns: Vec<u16> = Vec::new();
    columns.push(sx);
    columns.push(ex);
    let mut rows: Vec<u16> = Vec::new();
    rows.push(sy);
    rows.push(ey);
    emit_command(ops, CASET, &words_to_bytes(&columns));
    emit_command(ops, RASET, &words_to_bytes(&rows));
    assert(ops@ =~= before + window_ops(sx, sy, ex, ey));
}

/// Of a stream that holds one colour for each pixel of `rect`, the packed
/// colours of the pixels of `vis`, row by row.
fn clip_words(rect: &Rect, vis: &Rect, pixels: &Vec<Rgb565>) -> (words: Vec<u16>)
    requires
        !vis.is_empty(),
        vis.within(*rect),
        pixels@.len() == rect.area(),
        vis.area() <= 0xffff_ffff,
    ensures
        words@ == clip_stream(*rect, *vis, pixels@),
{
    let vw: u64 = vis.size.width as u64;
    let vh: u64 = vis.size.height as u64;
    let rw: u64 = rect.size.width as u64;
    let col0: u64 = (vis.top_left.x as i64 - rect.top_left.x as i64) as u64;
    let row0: u64 = (vis.top_left.y as i64 - rect.top_left.y as i64) as u64;
    let count: u64 = vw * vh;
    let total: usize = pixels.len();
    let mut words: Vec<u16> = Vec::new();
    let mut k: u64 = 0;
    while k < count
        invariant
            total == pixels@.len(),
            !vis.is_empty(),
            vis.within(*rect),
            pixels@.len() == rect.area(),
            vw == vis.size.width,
            vh == vis.size.height,
            rw == rect.size.width,
            col0 == vis.left() - rect.left(),
            row0 == vis.top() - rect.top(),
            count == vis.area(),
            k <= count,
            words@.len() == k,
            forall|j: int| 0 <= j < k ==> words@[j] == clip_stream(*rect, *vis, pixels@)[j],
        decreases count - k,
    {
        proof {
            lemma_clip_index(*rect, *vis, k as int);
        }
        let row: u64 = row0 + k / vw;
        let col: u64 = col0 + k % vw;
        assert(row * rw + col == rect.index_of(
            vis.left() + (k as int) % (vis.size.width as int),
            vis.top() + (k as int) / (vis.size.width as int),
        )) by (nonlinear_arith)
            requires
                row == row0 + k / vw,
                col == col0 + k % vw,
                vw == vis.size.width,
                rw == rect.size.width,
                col0 == vis.left() - rect.left(),
                row0 == vis.top() - rect.top(),
                rect.index_of(
                    vis.left() + (k as int) % (vis.size.width as int),
                    vis.top() + (k as int) / (vis.size.width as int),
                ) == (vis.top() + (k as int) / (vis.size.width as int) - rect.top())
                    * rect.size.width + (vis.left() + (k as int) % (vis.size.width as int)
                    - rect.left()),
        ;
        assert(0 <= row * rw + col < pixels@.len());
        assert(0 <= row * rw) by (nonlinear_arith)
            requires
                0 <= row,
                0 <= rw,
        ;
        let index: u64 = row * rw + col;
        words.push(pixels[index as usize].raw);
        k += 1;
    }
    assert(words@ =~= clip_stream(*rect, *vis, pixels@));
    words
}

fn bytes1(a: u8) -> (v: Vec<u8>)
    ensures
        v@ == seq![a],
{
    let mut v: Vec<u8> = Vec::new();
    v.push(a);
    v
}

fn bytes2(a: u8, b: u8) -> (v: Vec<u8>)
    ensures
        v@ == seq![a, b],
{
    let mut v: Vec<u8> = Vec::new();
    v.push(a);
    v.push(b);
    v
}

fn bytes3(a: u8, b: u8, c: u8) -> (v: Vec<u8>)
    ensures
        v@ == seq![a, b, c],
{
    let mut v: Vec<u8> = Vec::new();
    v.push(a);
    v.push(b);
    v.push(c);
    v
}

} // verus!
