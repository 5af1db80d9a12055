//! A model of the panel's controller, as far as drawing goes: how it reads
//! the steps on the link, which window it holds addressed, and what it
//! stores for each pixel. Against this model the driver's steps are shown
//! to put the right colours in the right places.

use vstd::prelude::*;
use crate::bus::{be_bytes, command_ops, BusOp};
use vstd::arithmetic::div_mod::{lemma_fundamental_div_mod, lemma_fundamental_div_mod_converse};
use crate::color::{high_byte, low_byte, Rgb565};
use crate::draw::{solid, DrawCallView, Pixel};
use crate::driver::{
    call_ops, calls_ops, clip_stream, lemma_clip_index, pixel_ops, pixels_ops, window_ops,
    window_write_ops, write_ops, DriverState,
};
use crate::panel::{after_call, after_calls, after_pixels};
use crate::geometry::{lemma_meet_covers, Point, Rect, Size};

verus! {

/// The controller's state.
pub struct Controller {
    /// The command that the data bytes now arriving belong to.
    pub command: u8,
    /// The data bytes that arrived since that command.
    pub args: Seq<u8>,
    /// First column of the addressed window.
    pub xs: int,
    /// Last column of the addressed window.
    pub xe: int,
    /// First row of the addressed window.
    pub ys: int,
    /// Last row of the addressed window.
    pub ye: int,
    /// The colour stored for each pixel, by column and row. For an address
    /// that the map does not hold, what is stored is not known, but it is
    /// one fixed value.
    pub ram: Map<(int, int), u16>,
}

/// The 16-bit value of two bytes, upper byte first.
pub open spec fn word_of(high: u8, low: u8) -> int {
    high * 256 + low
}

impl Controller {
    /// Width of the addressed window.
    pub open spec fn window_width(&self) -> int {
        self.xe - self.xs + 1
    }

    /// Height of the addressed window.
    pub open spec fn window_height(&self) -> int {
        self.ye - self.ys + 1
    }

    /// The state after one data byte. The fourth byte after a column or row
    /// command sets that side of the window. After the write command each
    /// pair of bytes is the colour of the next pixel of the window, row by
    /// row from its top left corner, and again from there once the window
    /// is full.
    pub open spec fn data(self, byte: u8) -> Controller {
        let args = self.args.push(byte);
        let n = args.len() as int;
        if self.command == 0x2A && n == 4 {
            Controller { args, xs: word_of(args[0], args[1]), xe: word_of(args[2], args[3]), ..self }
        } else if self.command == 0x2B && n == 4 {
            Controller { args, ys: word_of(args[0], args[1]), ye: word_of(args[2], args[3]), ..self }
        } else if self.command == 0x2C && n % 2 == 0 && self.window_width() > 0
            && self.window_height() > 0 {
            let k = n / 2 - 1;
            let x = self.xs + k % self.window_width();
            let y = self.ys + (k / self.window_width()) % self.window_height();
            Controller {
                args,
                ram: self.ram.insert((x, y), word_of(args[n - 2], args[n - 1]) as u16),
                ..self
            }
        } else {
            Controller { args, ..self }
        }
    }

    /// The state after one step on the link. The reset line and pauses do
    /// not change what is addressed or stored.
    pub open spec fn step(self, op: BusOp) -> Controller {
        match op {
            BusOp::Command(c) => Controller { command: c, args: Seq::empty(), ..self },
            BusOp::Data(b) => self.data(b),
            _ => self,
        }
    }

    /// The state after a run of steps.
    pub open spec fn run(self, ops: Seq<BusOp>) -> Controller
        decreases ops.len(),
    {
        if ops.len() == 0 {
            self
        } else {
            self.run(ops.drop_last()).step(ops.last())
        }
    }
}

/// Running one more step is stepping after the run.
pub proof fn lemma_run_push(c: Controller, ops: Seq<BusOp>, op: BusOp)
    ensures
        c.run(ops.push(op)) == c.run(ops).step(op),
{
    assert(ops.push(op).drop_last() =~= ops);
}

/// Running two runs one after the other is running the second from where
/// the first ended.
pub proof fn lemma_run_concat(c: Controller, first: Seq<BusOp>, second: Seq<BusOp>)
    ensures
        c.run(first + second) == c.run(first).run(second),
    decreases second.len(),
{
    if second.len() == 0 {
        assert(first + second =~= first);
    } else {
        lemma_run_concat(c, first, second.drop_last());
        assert((first + second).drop_last() =~= first + second.drop_last());
        assert((first + second).last() == second.last());
    }
}

/// A command with one more parameter is that command, then the parameter.
pub proof fn lemma_command_push(command: u8, params: Seq<u8>, byte: u8)
    ensures
        command_ops(command, params.push(byte)) == command_ops(command, params).push(
            BusOp::Data(byte),
        ),
{
    assert(command_ops(command, params.push(byte)) =~= command_ops(command, params).push(
        BusOp::Data(byte),
    ));
}

/// The bytes of one more word are the bytes before, then its two bytes.
pub proof fn lemma_be_bytes_push(words: Seq<u16>, word: u16)
    ensures
        be_bytes(words.push(word)) == be_bytes(words).push(high_byte(word)).push(low_byte(word)),
{
    assert(be_bytes(words.push(word)) =~= be_bytes(words).push(high_byte(word)).push(
        low_byte(word),
    ));
}

/// Two bytes of a word put together give the word again.
pub proof fn lemma_word_of_bytes(word: u16)
    ensures
        word_of(high_byte(word), low_byte(word)) == word,
{
    assert(((word >> 8) as u8) as int * 256 + ((word & 0xff) as u8) as int == word as int)
        by (bit_vector);
}

/// What addressing a window does: the controller then holds that window,
/// and stores what it stored.
pub proof fn lemma_window_addressed(c: Controller, sx: u16, sy: u16, ex: u16, ey: u16)
    ensures
        ({
            let after = c.run(window_ops(sx, sy, ex, ey));
            &&& after.xs == sx
            &&& after.xe == ex
            &&& after.ys == sy
            &&& after.ye == ey
            &&& after.ram == c.ram
        }),
{
    let columns = command_ops(0x2A, be_bytes(seq![sx, ex]));
    let rows = command_ops(0x2B, be_bytes(seq![sy, ey]));
    lemma_run_concat(c, columns, rows);
    lemma_four_params(c, 0x2A, sx, ex);
    lemma_four_params(c.run(columns), 0x2B, sy, ey);
}

/// A command with two words as its parameters, step by step.
proof fn lemma_four_params(c: Controller, command: u8, a: u16, b: u16)
    ensures
        ({
            let after = c.run(command_ops(command, be_bytes(seq![a, b])));
            &&& after.command == command
            &&& after.ram == c.ram || command == 0x2C
            &&& command == 0x2A ==> after.xs == a && after.xe == b && after.ys == c.ys && after.ye
                == c.ye && after.ram == c.ram
            &&& command == 0x2B ==> after.ys == a && after.ye == b && after.xs == c.xs && after.xe
                == c.xe && after.ram == c.ram
        }),
{
    let none = Seq::<u8>::empty();
    let ops0 = command_ops(command, none);
    assert(ops0 =~= Seq::<BusOp>::empty().push(BusOp::Command(command)));
    lemma_run_push(c, Seq::<BusOp>::empty(), BusOp::Command(command));
    assert(c.run(Seq::<BusOp>::empty()) == c);
    let c0 = c.run(ops0);
    assert(c0.args =~= none);
    let b1 = none.push(high_byte(a));
    let b2 = b1.push(low_byte(a));
    let b3 = b2.push(high_byte(b));
    let b4 = b3.push(low_byte(b));
    lemma_be_bytes_push(Seq::<u16>::empty(), a);
    lemma_be_bytes_push(Seq::<u16>::empty().push(a), b);
    assert(be_bytes(Seq::<u16>::empty()) =~= none);
    assert(seq![a, b] =~= Seq::<u16>::empty().push(a).push(b));
    assert(be_bytes(seq![a, b]) == b4);
    lemma_command_push(command, none, high_byte(a));
    lemma_command_push(command, b1, low_byte(a));
    lemma_command_push(command, b2, high_byte(b));
    lemma_command_push(command, b3, low_byte(b));
    lemma_run_push(c, command_ops(command, none), BusOp::Data(high_byte(a)));
    lemma_run_push(c, command_ops(command, b1), BusOp::Data(low_byte(a)));
    lemma_run_push(c, command_ops(command, b2), BusOp::Data(high_byte(b)));
    lemma_run_push(c, command_ops(command, b3), BusOp::Data(low_byte(b)));
    let c1 = c.run(command_ops(command, b1));
    let c2 = c.run(command_ops(command, b2));
    let c3 = c.run(command_ops(command, b3));
    let c4 = c.run(command_ops(command, b4));
    assert(c1.args =~= b1);
    assert(c2.args =~= b2);
    assert(c3.args =~= b3);
    assert(c4.args =~= b4);
    lemma_word_of_bytes(a);
    lemma_word_of_bytes(b);
}

impl Controller {
    /// Whether the pixel at (`x`, `y`) lies in the addressed window.
    pub open spec fn in_window(&self, x: int, y: int) -> bool {
        self.xs <= x <= self.xe && self.ys <= y <= self.ye
    }

    /// Place of the pixel at (`x`, `y`) in the addressed window, counted row
    /// by row.
    pub open spec fn window_index(&self, x: int, y: int) -> int {
        (y - self.ys) * self.window_width() + (x - self.xs)
    }

    /// What is stored for the pixel at (`x`, `y`) once `words` were streamed
    /// into the addressed window.
    pub open spec fn stored_after(&self, words: Seq<u16>, x: int, y: int) -> u16 {
        if self.in_window(x, y) && self.window_index(x, y) < words.len() {
            words[self.window_index(x, y)]
        } else {
            self.ram[(x, y)]
        }
    }
}

/// What streaming does: the words land in the addressed window row by row
/// from its top left corner, and nothing else changes. This holds as long
/// as the window has room for them.
pub proof fn lemma_stream(c: Controller, words: Seq<u16>)
    requires
        c.window_width() > 0,
        c.window_height() > 0,
        words.len() <= c.window_width() * c.window_height(),
    ensures
        ({
            let after = c.run(write_ops(words));
            &&& after.command == 0x2C
            &&& after.args == be_bytes(words)
            &&& after.xs == c.xs && after.xe == c.xe && after.ys == c.ys && after.ye == c.ye
            &&& forall|x: int, y: int| #[trigger] after.ram[(x, y)] == c.stored_after(words, x, y)
        }),
    decreases words.len(),
{
    let none = Seq::<u8>::empty();
    if words.len() == 0 {
        assert(be_bytes(words) =~= none);
        assert(command_ops(0x2C, none) =~= Seq::<BusOp>::empty().push(BusOp::Command(0x2C)));
        lemma_run_push(c, Seq::<BusOp>::empty(), BusOp::Command(0x2C));
        assert(c.run(Seq::<BusOp>::empty()) == c);
        assert(c.run(write_ops(words)).args =~= be_bytes(words));
    } else {
        let prev = words.drop_last();
        let word = words.last();
        let w = c.window_width();
        let h = c.window_height();
        let n = words.len() as int;
        let k = n - 1;
        assert(words =~= prev.push(word));
        lemma_stream(c, prev);
        lemma_be_bytes_push(prev, word);
        let b0 = be_bytes(prev);
        let b1 = b0.push(high_byte(word));
        let b2 = b1.push(low_byte(word));
        lemma_command_push(0x2C, b0, high_byte(word));
        lemma_command_push(0x2C, b1, low_byte(word));
        lemma_run_push(c, command_ops(0x2C, b0), BusOp::Data(high_byte(word)));
        lemma_run_push(c, command_ops(0x2C, b1), BusOp::Data(low_byte(word)));
        let m0 = c.run(command_ops(0x2C, b0));
        let m1 = c.run(command_ops(0x2C, b1));
        let m2 = c.run(command_ops(0x2C, b2));
        assert(b0.len() == 2 * k);
        assert(m1 == m0.data(high_byte(word)));
        assert(m1.args =~= b1);
        assert(m1.ram == m0.ram);
        assert(m2 == m1.data(low_byte(word)));
        assert(m2.args =~= b2);
        lemma_word_of_bytes(word);
        lemma_fundamental_div_mod(k, w);
        assert(0 <= k / w < h && 0 <= k % w < w) by (nonlinear_arith)
            requires
                0 <= k < w * h,
                w > 0,
        ;
        let kx = c.xs + k % w;
        let ky = c.ys + k / w;
        assert((k / w) % h == k / w) by (nonlinear_arith)
            requires
                0 <= k / w < h,
        ;
        assert(b2.len() == 2 * n);
        assert(b2[2 * n - 2] == high_byte(word) && b2[2 * n - 1] == low_byte(word));
        assert(m2.ram == m1.ram.insert((kx, ky), word));
        assert forall|x: int, y: int| #[trigger] m2.ram[(x, y)] == c.stored_after(words, x, y) by {
            assert(m0.ram[(x, y)] == c.stored_after(prev, x, y));
            if x == kx && y == ky {
                assert(c.window_index(x, y) == k) by (nonlinear_arith)
                    requires
                        c.window_index(x, y) == (y - c.ys) * w + (x - c.xs),
                        x - c.xs == k % w,
                        y - c.ys == k / w,
                        k == w * (k / w) + k % w,
                ;
            } else {
                if c.in_window(x, y) && c.window_index(x, y) == k {
                    lemma_fundamental_div_mod_converse(k, w, y - c.ys, x - c.xs);
                    assert(false);
                }
            }
        }
    }
}

/// What the driver's steps for a window do to the controller's memory: each
/// pixel of the window that lies on the surface gets its colour from the
/// stream, at its address moved by the offset; everything else stays.
pub proof fn lemma_window_write(c: Controller, state: DriverState, rect: Rect, pixels: Seq<Rgb565>)
    requires
        state.wf(),
        pixels.len() == rect.area(),
    ensures
        forall|x: int, y: int| #[trigger]
            c.run(window_write_ops(state, rect, pixels)).ram[(x, y)] == if rect.covers(
                x - state.dx,
                y - state.dy,
            ) && state.surface().covers(x - state.dx, y - state.dy) {
                pixels[rect.index_of(x - state.dx, y - state.dy)].raw
            } else {
                c.ram[(x, y)]
            },
{
    let surface = state.surface();
    let vis = rect.meet(surface);
    lemma_meet_covers(rect, surface);
    let ops = window_write_ops(state, rect, pixels);
    if vis.is_empty() {
        assert(c.run(ops) == c);
    } else {
        let sx = (vis.left() + state.dx) as u16;
        let sy = (vis.top() + state.dy) as u16;
        let ex = (vis.right() - 1 + state.dx) as u16;
        let ey = (vis.bottom() - 1 + state.dy) as u16;
        let words = clip_stream(rect, vis, pixels);
        lemma_run_concat(c, window_ops(sx, sy, ex, ey), write_ops(words));
        lemma_window_addressed(c, sx, sy, ex, ey);
        let addressed = c.run(window_ops(sx, sy, ex, ey));
        let vw = vis.size.width as int;
        let vh = vis.size.height as int;
        assert(addressed.window_width() == vw);
        assert(addressed.window_height() == vh);
        lemma_stream(addressed, words);
        let after = c.run(ops);
        assert forall|x: int, y: int| #[trigger]
            after.ram[(x, y)] == if rect.covers(x - state.dx, y - state.dy) && surface.covers(
                x - state.dx,
                y - state.dy,
            ) {
                pixels[rect.index_of(x - state.dx, y - state.dy)].raw
            } else {
                c.ram[(x, y)]
            } by {
            assert(after.ram[(x, y)] == addressed.stored_after(words, x, y));
            let px = x - state.dx;
            let py = y - state.dy;
            assert(addressed.in_window(x, y) <==> vis.covers(px, py));
            if vis.covers(px, py) {
                let k = addressed.window_index(x, y);
                assert(0 <= k < vw * vh) by (nonlinear_arith)
                    requires
                        k == (py - vis.top()) * vw + (px - vis.left()),
                        0 <= py - vis.top() < vh,
                        0 <= px - vis.left() < vw,
                ;
                lemma_fundamental_div_mod_converse(k, vw, py - vis.top(), px - vis.left());
                lemma_clip_index(rect, vis, k);
            }
        }
    }
}

/// The window of one pixel.
pub open spec fn pixel_rect(point: Point) -> Rect {
    Rect { top_left: point, size: Size { width: 1, height: 1 } }
}

/// Writing one pixel is writing a window of one pixel.
pub proof fn lemma_pixel_is_window(state: DriverState, pixel: Pixel)
    requires
        state.wf(),
    ensures
        pixel_ops(state, pixel) == window_write_ops(
            state,
            pixel_rect(pixel.point),
            seq![pixel.color],
        ),
{
    let rect = pixel_rect(pixel.point);
    let vis = rect.meet(state.surface());
    lemma_meet_covers(rect, state.surface());
    if state.surface().covers(pixel.point.x as int, pixel.point.y as int) {
        assert(rect.covers(pixel.point.x as int, pixel.point.y as int));
        assert(vis.covers(pixel.point.x as int, pixel.point.y as int));
        assert(vis == rect);
        assert(clip_stream(rect, vis, seq![pixel.color]) =~= seq![pixel.color.raw]);
    } else {
        if !vis.is_empty() {
            assert(vis.covers(vis.left(), vis.top()));
        }
    }
}

/// What the pixel at controller address (`x`, `y`) stores after a list of
/// drawing calls, given what it stored before: if the address belongs to
/// the surface, what the calls make of the surface's pixel there; else
/// what it stored.
pub open spec fn drawn(state: DriverState, calls: Seq<DrawCallView>, x: int, y: int, before: u16)
    -> u16 {
    if state.surface().covers(x - state.dx, y - state.dy) {
        after_calls(calls, x - state.dx, y - state.dy, Rgb565 { raw: before }).raw
    } else {
        before
    }
}

/// The driver's steps for a list of single pixels store each pixel on the
/// surface at its address, later ones over earlier ones, and nothing else.
pub proof fn lemma_pixels_written(c: Controller, state: DriverState, pixels: Seq<Pixel>)
    requires
        state.wf(),
    ensures
        forall|x: int, y: int| #[trigger]
            c.run(pixels_ops(state, pixels)).ram[(x, y)] == if state.surface().covers(
                x - state.dx,
                y - state.dy,
            ) {
                after_pixels(pixels, x - state.dx, y - state.dy, Rgb565 { raw: c.ram[(x, y)] }).raw
            } else {
                c.ram[(x, y)]
            },
    decreases pixels.len(),
{
    if pixels.len() == 0 {
        assert(c.run(pixels_ops(state, pixels)) == c);
    } else {
        let rest = pixels.drop_last();
        let last = pixels.last();
        lemma_pixels_written(c, state, rest);
        lemma_run_concat(c, pixels_ops(state, rest), pixel_ops(state, last));
        let mid = c.run(pixels_ops(state, rest));
        lemma_pixel_is_window(state, last);
        lemma_window_write(mid, state, pixel_rect(last.point), seq![last.color]);
        let after = c.run(pixels_ops(state, pixels));
        assert forall|x: int, y: int| #[trigger]
            after.ram[(x, y)] == if state.surface().covers(x - state.dx, y - state.dy) {
                after_pixels(pixels, x - state.dx, y - state.dy, Rgb565 { raw: c.ram[(x, y)] }).raw
            } else {
                c.ram[(x, y)]
            } by {
            let px = x - state.dx;
            let py = y - state.dy;
            assert(mid.ram[(x, y)] == if state.surface().covers(px, py) {
                after_pixels(rest, px, py, Rgb565 { raw: c.ram[(x, y)] }).raw
            } else {
                c.ram[(x, y)]
            });
            assert(pixel_rect(last.point).covers(px, py) <==> last.point.x == px && last.point.y
                == py);
            if pixel_rect(last.point).covers(px, py) {
                assert(pixel_rect(last.point).index_of(px, py) == 0);
            }
        }
    }
}

/// The driver's steps for one drawing call put on the panel what the call
/// says, and touch nothing off the surface.
pub proof fn lemma_call_written(c: Controller, state: DriverState, call: DrawCallView)
    requires
        state.wf(),
        call.wf(),
    ensures
        forall|x: int, y: int| #[trigger]
            c.run(call_ops(state, call)).ram[(x, y)] == if state.surface().covers(
                x - state.dx,
                y - state.dy,
            ) {
                after_call(call, x - state.dx, y - state.dy, Rgb565 { raw: c.ram[(x, y)] }).raw
            } else {
                c.ram[(x, y)]
            },
{
    match call {
        DrawCallView::Window(patch) => {
            lemma_window_write(c, state, patch.rect, patch.pixels);
        },
        DrawCallView::Pixels(pixels) => {
            lemma_pixels_written(c, state, pixels);
        },
    }
}

/// The driver is faithful: whatever the controller stored before, after the
/// driver's steps for a list of drawing calls it stores, for each pixel of
/// the surface, what the calls make of that pixel, at the pixel's address
/// moved by the offset; and what it stored outside the surface it stores
/// still.
pub proof fn lemma_calls_written(c: Controller, state: DriverState, calls: Seq<DrawCallView>)
    requires
        state.wf(),
        forall|i: int| 0 <= i < calls.len() ==> (#[trigger] calls[i]).wf(),
    ensures
        forall|x: int, y: int| #[trigger]
            c.run(calls_ops(state, calls)).ram[(x, y)] == drawn(state, calls, x, y, c.ram[(x, y)]),
    decreases calls.len(),
{
    if calls.len() == 0 {
        assert(c.run(calls_ops(state, calls)) == c);
    } else {
        let rest = calls.drop_last();
        let last = calls.last();
        lemma_calls_written(c, state, rest);
        lemma_run_concat(c, calls_ops(state, rest), call_ops(state, last));
        let mid = c.run(calls_ops(state, rest));
        lemma_call_written(mid, state, last);
        let after = c.run(calls_ops(state, calls));
        assert forall|x: int, y: int| #[trigger]
            after.ram[(x, y)] == drawn(state, calls, x, y, c.ram[(x, y)]) by {
            assert(mid.ram[(x, y)] == drawn(state, rest, x, y, c.ram[(x, y)]));
        }
    }
}

/// Clearing fills the surface: after the driver's steps for `clear`, every
/// pixel of the surface stores the colour, and every other address what it
/// stored before.
pub proof fn lemma_clear_fills(c: Controller, state: DriverState, color: Rgb565)
    requires
        state.wf(),
    ensures
        forall|x: int, y: int| #[trigger]
            c.run(
                window_write_ops(
                    state,
                    state.surface(),
                    solid(state.surface().area() as nat, color),
                ),
            ).ram[(x, y)] == if state.surface().covers(x - state.dx, y - state.dy) {
                color.raw
            } else {
                c.ram[(x, y)]
            },
{
    let surface = state.surface();
    let stream = solid(surface.area() as nat, color);
    lemma_window_write(c, state, surface, stream);
    let after = c.run(window_write_ops(state, surface, stream));
    assert forall|x: int, y: int| #[trigger]
        after.ram[(x, y)] == if surface.covers(x - state.dx, y - state.dy) {
            color.raw
        } else {
            c.ram[(x, y)]
        } by {
        let px = x - state.dx;
        let py = y - state.dy;
        if surface.covers(px, py) {
            assert(0 <= surface.index_of(px, py) < surface.area()) by (nonlinear_arith)
                requires
                    surface.index_of(px, py) == py * surface.size.width + px,
                    surface.area() == surface.size.width * surface.size.height,
                    0 <= px < surface.size.width,
                    0 <= py < surface.size.height,
            ;
        }
    }
}

} // verus!
