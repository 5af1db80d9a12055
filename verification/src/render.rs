//! The primitive renderer: for each primitive, the pixel window it occupies
//! and the colour of each pixel it touches. Nothing is buffered between
//! calls; what a primitive renders is handed to the driver as it is.

use vstd::prelude::*;
use vstd::string::StrSliceExecFns;
use crate::angle::{cosine, cosine_q10, sine, sine_q10};
use crate::color::Rgb565;
use crate::draw::{solid, DrawCall, DrawCallView, Patch, PatchView, Pixel};
use crate::font::{glyph_bit, glyph_pixel, GLYPH_HEIGHT, GLYPH_WIDTH};
use crate::geometry::{Point, Rect, Size};
use crate::text::TextBuffer;

verus! {

/// The patch that covers `rect` with one colour.
pub open spec fn solid_patch(rect: Rect, fill: Rgb565) -> PatchView {
    PatchView { rect, pixels: solid(rect.area() as nat, fill) }
}

/// Where a text of `len` glyphs, each `glyph.width` by `glyph.height`, has
/// its top left corner when it is centred on `center`: half the text's
/// width to the left and half a glyph's height above, both halves rounded
/// down.
pub open spec fn centered_at(center: Point, len: int, glyph: Size) -> (int, int) {
    (center.x - (len * glyph.width) / 2, center.y - glyph.height / 2)
}

/// The patch of a text in the 12 by 16 font: one cell for each character,
/// side by side; a pixel has the foreground colour where the character's
/// glyph has a stroke and the background colour elsewhere.
pub open spec fn text_patch(chars: Seq<char>, origin: Point, fg: Rgb565, bg: Rgb565)
    -> PatchView {
    let width = 12 * (chars.len() as int);
    PatchView {
        rect: Rect { top_left: origin, size: Size { width: width as u32, height: 16 } },
        pixels: Seq::new(
            (width * 16) as nat,
            |k: int|
                if glyph_bit(chars[(k % width) / 12], ((k % width) % 12) as u32, (k / width) as u32) {
                    fg
                } else {
                    bg
                },
        ),
    }
}

/// Fills `rect` with one colour.
pub fn fill_rectangle(rect: Rect, fill: Rgb565) -> (patch: Patch)
    requires
        rect.area() <= usize::MAX,
    ensures
        patch@ == solid_patch(rect, fill),
        patch@.wf(),
{
    assert(rect.size.width * rect.size.height <= 0xffff_ffff * 0xffff_ffff) by (nonlinear_arith)
        requires
            0 <= rect.size.width <= 0xffff_ffff,
            0 <= rect.size.height <= 0xffff_ffff,
    ;
    let count: u64 = rect.size.width as u64 * rect.size.height as u64;
    let mut pixels: Vec<Rgb565> = Vec::new();
    let mut k: u64 = 0;
    while k < count
        invariant
            k <= count,
            pixels@.len() == k,
            forall|j: int| 0 <= j < k ==> pixels@[j] == fill,
        decreases count - k,
    {
        pixels.push(fill);
        k += 1;
    }
    assert(pixels@ =~= solid_patch(rect, fill).pixels);
    Patch { rect, pixels }
}

/// The top left corner of a text of `len` glyphs centred on `center`, where
/// that corner is a point that 32 bits can name.
pub fn centered_origin(center: Point, len: u32, glyph: Size) -> (origin: Option<Point>)
    ensures
        origin.is_some() <==> {
            let (x, y) = centered_at(center, len as int, glyph);
            i32::MIN <= x <= i32::MAX && i32::MIN <= y <= i32::MAX
        },
        origin.is_some() ==> (origin.unwrap().x as int, origin.unwrap().y as int) == centered_at(
            center,
            len as int,
            glyph,
        ),
{
    assert(len * glyph.width <= 0xffff_ffff * 0xffff_ffff) by (nonlinear_arith)
        requires
            0 <= len <= 0xffff_ffff,
            0 <= glyph.width <= 0xffff_ffff,
    ;
    let text_width: u64 = len as u64 * glyph.width as u64;
    let x: i64 = center.x as i64 - (text_width / 2) as i64;
    let y: i64 = center.y as i64 - (glyph.height / 2) as i64;
    if x < i32::MIN as i64 || x > i32::MAX as i64 || y < i32::MIN as i64 || y > i32::MAX as i64 {
        None
    } else {
        Some(Point { x: x as i32, y: y as i32 })
    }
}

/// Renders `text` in the 12 by 16 font with its top left corner at
/// `origin`.
pub fn render_text(text: &str, origin: Point, fg: Rgb565, bg: Rgb565) -> (patch: Patch)
    requires
        12 * text@.len() <= u32::MAX,
        12 * text@.len() * 16 <= usize::MAX,
    ensures
        patch@ == text_patch(text@, origin, fg, bg),
        patch@.wf(),
{
    let len: usize = text.unicode_len();
    let mut chars: Vec<char> = Vec::new();
    let mut i: usize = 0;
    while i < len
        invariant
            len == text@.len(),
            i <= len,
            chars@ == text@.take(i as int),
        decreases len - i,
    {
        chars.push(text.get_char(i));
        i += 1;
        assert(chars@ =~= text@.take(i as int));
    }
    assert(text@.take(len as int) =~= text@);
    let width: u64 = 12 * (len as u64);
    let count: u64 = width * 16;
    let ghost want = text_patch(text@, origin, fg, bg);
    let mut pixels: Vec<Rgb565> = Vec::new();
    let mut k: u64 = 0;
    while k < count
        invariant
            chars@ == text@,
            len == text@.len(),
            width == 12 * len,
            count == width * 16,
            want == text_patch(text@, origin, fg, bg),
            k <= count,
            pixels@.len() == k,
            forall|j: int| 0 <= j < k ==> pixels@[j] == want.pixels[j],
        decreases count - k,
    {
        let col: u64 = k % width;
        let row: u64 = k / width;
        assert(row < 16) by (nonlinear_arith)
            requires
                k < width * 16,
                row == k / width,
                width > 0,
        ;
        let c: char = chars[(col / 12) as usize];
        let on: bool = glyph_pixel(c, (col % 12) as u32, row as u32);
        pixels.push(if on { fg } else { bg });
        k += 1;
    }
    assert(pixels@ =~= want.pixels);
    assert(GLYPH_WIDTH == 12 && GLYPH_HEIGHT == 16);
    let rect = Rect::new(origin.x, origin.y, width as u32, GLYPH_HEIGHT);
    assert(rect.area() == width * 16) by (nonlinear_arith)
        requires
            rect.area() == rect.size.width * rect.size.height,
            rect.size.width == width,
            rect.size.height == 16,
    ;
    Patch { rect, pixels }
}

/// On which side of a shape's outline its stroke is drawn.
#[derive(Clone, Copy, Debug, PartialEq, Eq, Structural)]
pub enum StrokeAlignment {
    /// Wholly within the outline.
    Inside,
    /// Half within, half without; an odd pixel goes within.
    Center,
    /// Wholly without the outline.
    Outside,
}

/// A stroked arc of a circle. Angles are in hundredths of a turn. `start`
/// is measured counter-clockwise from the positive x axis, so that 25 is
/// the top of the circle, and 125 is the top again; `sweep` runs clockwise
/// from there, and a sweep of 100 or more is the whole circle.
#[derive(Clone, Copy, Debug, PartialEq, Eq, Structural)]
pub struct StrokedArc {
    /// Top left corner of the square that encloses the circle.
    pub top_left: Point,
    /// Diameter of the circle in pixels.
    pub diameter: u32,
    /// Where the arc begins.
    pub start: u8,
    /// How far it runs.
    pub sweep: u8,
    /// Width of the stroke in pixels.
    pub stroke_width: u32,
    /// Side of the circle on which the stroke lies.
    pub alignment: StrokeAlignment,
    /// Colour of the stroke.
    pub color: Rgb565,
}

impl StrokedArc {
    /// Part of the stroke that lies outside the circle.
    pub open spec fn outside_width(&self) -> int {
        match self.alignment {
            StrokeAlignment::Inside => 0,
            StrokeAlignment::Center => self.stroke_width as int / 2,
            StrokeAlignment::Outside => self.stroke_width as int,
        }
    }

    /// Part of the stroke that lies inside the circle.
    pub open spec fn inside_width(&self) -> int {
        self.stroke_width - self.outside_width()
    }

    /// Diameter of the stroke's outer edge.
    pub open spec fn outer_diameter(&self) -> int {
        self.diameter + 2 * self.outside_width()
    }

    /// Diameter of the stroke's inner edge; zero where the stroke reaches
    /// the centre.
    pub open spec fn inner_diameter(&self) -> int {
        if self.diameter >= 2 * self.inside_width() {
            self.diameter - 2 * self.inside_width()
        } else {
            0
        }
    }

    /// The square that encloses the arc's stroke is at most 65535 pixels
    /// wide and has corners that 32 bits can name.
    pub open spec fn wf(&self) -> bool {
        &&& self.outer_diameter() <= 0xffff
        &&& i32::MIN <= self.top_left.x - self.outside_width()
        &&& i32::MIN <= self.top_left.y - self.outside_width()
        &&& self.top_left.x - self.outside_width() + self.outer_diameter() <= i32::MAX
        &&& self.top_left.y - self.outside_width() + self.outer_diameter() <= i32::MAX
    }

    /// The square that encloses the stroke: the arc's bounding window.
    pub open spec fn bounds(&self) -> Rect {
        Rect {
            top_left: Point {
                x: (self.top_left.x - self.outside_width()) as i32,
                y: (self.top_left.y - self.outside_width()) as i32,
            },
            size: Size {
                width: self.outer_diameter() as u32,
                height: self.outer_diameter() as u32,
            },
        }
    }

    /// Twice the horizontal distance of column `x` from the centre.
    pub open spec fn dx2(&self, x: int) -> int {
        2 * x - (2 * self.top_left.x + self.diameter - 1)
    }

    /// Twice the vertical distance of row `y` from the centre.
    pub open spec fn dy2(&self, y: int) -> int {
        2 * y - (2 * self.top_left.y + self.diameter - 1)
    }

    /// Whether the pixel's distance from the centre lies between the radius
    /// of the stroke's inner edge and that of its outer edge.
    pub open spec fn in_ring(&self, x: int, y: int) -> bool {
        let d2 = self.dx2(x) * self.dx2(x) + self.dy2(y) * self.dy2(y);
        self.inner_diameter() * self.inner_diameter() <= d2 <= self.outer_diameter()
            * self.outer_diameter()
    }

    /// The angle at which the arc ends, counter-clockwise from the positive
    /// x axis.
    pub open spec fn end(&self) -> int {
        if self.sweep >= 100 {
            self.start as int % 100
        } else {
            (self.start + 100 - self.sweep) % 100
        }
    }

    /// Whether the pixel's direction from the centre lies within the sweep:
    /// clockwise of the ray at which the arc starts and counter-clockwise of
    /// the ray at which it ends, where the sweep is less than half a turn;
    /// one of the two, where it is half a turn or more; always, for a full
    /// turn.
    pub open spec fn in_sweep(&self, x: int, y: int) -> bool {
        let dx = self.dx2(x);
        let dy = self.dy2(y);
        let past_start = cosine(self.start as int) * dy + sine(self.start as int) * dx >= 0;
        let before_end = -(sine(self.end()) * dx) - cosine(self.end()) * dy >= 0;
        if self.sweep >= 100 {
            true
        } else if self.sweep >= 50 {
            past_start || before_end
        } else {
            past_start && before_end
        }
    }

    /// Whether the arc colours the pixel at (`x`, `y`).
    pub open spec fn strokes(&self, x: int, y: int) -> bool {
        self.bounds().covers(x, y) && self.in_ring(x, y) && self.in_sweep(x, y)
    }

    /// The `k`-th pixel of the bounding window, counted row by row.
    pub open spec fn point_at(&self, k: int) -> Point {
        Point {
            x: (self.bounds().left() + k % self.outer_diameter()) as i32,
            y: (self.bounds().top() + k / self.outer_diameter()) as i32,
        }
    }

    /// The stroke's pixels among the first `k` of the bounding window.
    pub open spec fn pixels_upto(&self, k: nat) -> Seq<Pixel>
        decreases k,
    {
        if k == 0 {
            Seq::empty()
        } else {
            let before = self.pixels_upto((k - 1) as nat);
            let p = self.point_at(k - 1);
            if self.strokes(p.x as int, p.y as int) {
                before.push(Pixel { point: p, color: self.color })
            } else {
                before
            }
        }
    }

    /// The stroke's pixels, row by row. All other pixels of the bounding
    /// window are left as they are.
    pub open spec fn pixels(&self) -> Seq<Pixel> {
        self.pixels_upto(self.bounds().area() as nat)
    }

    /// Whether the arc can be rendered.
    pub fn is_valid(&self) -> (ok: bool)
        ensures
            ok == self.wf(),
    {
        let out: i64 = match self.alignment {
            StrokeAlignment::Inside => 0,
            StrokeAlignment::Center => (self.stroke_width / 2) as i64,
            StrokeAlignment::Outside => self.stroke_width as i64,
        };
        let outer: i64 = self.diameter as i64 + 2 * out;
        let left: i64 = self.top_left.x as i64 - out;
        let top: i64 = self.top_left.y as i64 - out;
        outer <= 0xffff && left >= i32::MIN as i64 && top >= i32::MIN as i64 && left + outer
            <= i32::MAX as i64 && top + outer <= i32::MAX as i64
    }
}

/// The pixels that a stroked arc colours.
pub fn arc_pixels(arc: &StrokedArc) -> (pixels: Vec<Pixel>)
    requires
        arc.wf(),
    ensures
        pixels@ == arc.pixels(),
{
    let out: i64 = match arc.alignment {
        StrokeAlignment::Inside => 0,
        StrokeAlignment::Center => (arc.stroke_width / 2) as i64,
        StrokeAlignment::Outside => arc.stroke_width as i64,
    };
    let ins: i64 = arc.stroke_width as i64 - out;
    let outer: i64 = arc.diameter as i64 + 2 * out;
    let inner: i64 = if arc.diameter as i64 >= 2 * ins {
        arc.diameter as i64 - 2 * ins
    } else {
        0
    };
    let left: i64 = arc.top_left.x as i64 - out;
    let top: i64 = arc.top_left.y as i64 - out;
    let cx2: i64 = 2 * (arc.top_left.x as i64) + arc.diameter as i64 - 1;
    let cy2: i64 = 2 * (arc.top_left.y as i64) + arc.diameter as i64 - 1;
    let end: u8 = if arc.sweep >= 100 {
        arc.start % 100
    } else {
        ((arc.start as u16 + 100 - arc.sweep as u16) % 100) as u8
    };
    let sin_start: i64 = sine_q10(arc.start) as i64;
    let cos_start: i64 = cosine_q10(arc.start) as i64;
    let sin_end: i64 = sine_q10(end) as i64;
    let cos_end: i64 = cosine_q10(end) as i64;
    assert(outer * outer <= 0xffff * 0xffff && inner * inner <= 0xffff * 0xffff) by (nonlinear_arith)
        requires
            0 <= inner <= outer <= 0xffff,
    ;
    let outer_sq: i64 = outer * outer;
    let inner_sq: i64 = inner * inner;
    let count: i64 = outer_sq;
    assert(arc.bounds().area() == count) by (nonlinear_arith)
        requires
            arc.bounds().area() == arc.bounds().size.width * arc.bounds().size.height,
            arc.bounds().size.width == outer,
            arc.bounds().size.height == outer,
            count == outer * outer,
    ;
    let mut pixels: Vec<Pixel> = Vec::new();
    let mut k: i64 = 0;
    while k < count
        invariant
            arc.wf(),
            out == arc.outside_width(),
            outer == arc.outer_diameter(),
            inner == arc.inner_diameter(),
            0 <= inner <= outer <= 0xffff,
            outer_sq == outer * outer,
            inner_sq == inner * inner,
            count == outer * outer,
            left == arc.bounds().left(),
            top == arc.bounds().top(),
            cx2 == 2 * arc.top_left.x + arc.diameter - 1,
            cy2 == 2 * arc.top_left.y + arc.diameter - 1,
            end == arc.end(),
            sin_start == sine(arc.start as int),
            cos_start == cosine(arc.start as int),
            sin_end == sine(arc.end()),
            cos_end == cosine(arc.end()),
            -1024 <= sin_start <= 1024,
            -1024 <= cos_start <= 1024,
            -1024 <= sin_end <= 1024,
            -1024 <= cos_end <= 1024,
            0 <= k <= count,
            pixels@ == arc.pixels_upto(k as nat),
        decreases count - k,
    {
        let col: i64 = k % outer;
        let row: i64 = k / outer;
        assert(0 <= row < outer && 0 <= col < outer) by (nonlinear_arith)
            requires
                0 <= k < outer * outer,
                outer > 0,
                col == k % outer,
                row == k / outer,
        ;
        let x: i64 = left + col;
        let y: i64 = top + row;
        let dx: i64 = 2 * x - cx2;
        let dy: i64 = 2 * y - cy2;
        assert(-0xffff <= dx <= 0xffff && -0xffff <= dy <= 0xffff);
        assert(dx * dx <= 0xffff * 0xffff && dy * dy <= 0xffff * 0xffff && 0 <= dx * dx && 0 <= dy
            * dy) by (nonlinear_arith)
            requires
                -0xffff <= dx <= 0xffff,
                -0xffff <= dy <= 0xffff,
        ;
        let d2: i64 = dx * dx + dy * dy;
        assert(-1024 * 0xffff <= cos_start * dy <= 1024 * 0xffff && -1024 * 0xffff <= sin_start
            * dx <= 1024 * 0xffff && -1024 * 0xffff <= sin_end * dx <= 1024 * 0xffff && -1024
            * 0xffff <= cos_end * dy <= 1024 * 0xffff) by (nonlinear_arith)
            requires
                -0xffff <= dx <= 0xffff,
                -0xffff <= dy <= 0xffff,
                -1024 <= sin_start <= 1024,
                -1024 <= cos_start <= 1024,
                -1024 <= sin_end <= 1024,
                -1024 <= cos_end <= 1024,
        ;
        let past_start: bool = cos_start * dy + sin_start * dx >= 0;
        let before_end: bool = -(sin_end * dx) - cos_end * dy >= 0;
        let in_sweep: bool = if arc.sweep >= 100 {
            true
        } else if arc.sweep >= 50 {
            past_start || before_end
        } else {
            past_start && before_end
        };
        let in_ring: bool = inner_sq <= d2 && d2 <= outer_sq;
        let p = Point { x: x as i32, y: y as i32 };
        proof {
            assert(p == arc.point_at(k as int));
            assert(arc.bounds().covers(x as int, y as int));
            assert(dx == arc.dx2(x as int) && dy == arc.dy2(y as int));
            assert(in_ring == arc.in_ring(x as int, y as int));
            assert(in_sweep == arc.in_sweep(x as int, y as int));
        }
        if in_ring && in_sweep {
            pixels.push(Pixel { point: p, color: arc.color });
        }
        k += 1;
    }
    pixels
}

/// What can be drawn.
pub enum Primitive {
    /// A rectangle filled with one colour.
    FilledRectangle { rect: Rect, fill: Rgb565 },
    /// A stroked arc of a circle.
    StrokedArc(StrokedArc),
    /// A line of text in the 12 by 16 font, each cell filled with the
    /// background colour behind its glyph.
    Text { text: TextBuffer, origin: Point, foreground: Rgb565, background: Rgb565 },
}

/// A primitive as contracts see it.
pub enum PrimitiveView {
    FilledRectangle { rect: Rect, fill: Rgb565 },
    StrokedArc(StrokedArc),
    Text { chars: Seq<char>, origin: Point, foreground: Rgb565, background: Rgb565 },
}

impl View for Primitive {
    type V = PrimitiveView;

    open spec fn view(&self) -> PrimitiveView {
        match self {
            Primitive::FilledRectangle { rect, fill } => PrimitiveView::FilledRectangle {
                rect: *rect,
                fill: *fill,
            },
            Primitive::StrokedArc(arc) => PrimitiveView::StrokedArc(*arc),
            Primitive::Text { text, origin, foreground, background } => PrimitiveView::Text {
                chars: text@,
                origin: *origin,
                foreground: *foreground,
                background: *background,
            },
        }
    }
}

impl PrimitiveView {
    /// The primitive can be rendered: the colours of a rectangle can be
    /// counted in a `usize`, and an arc is valid. A text always can.
    pub open spec fn wf(&self) -> bool {
        match self {
            PrimitiveView::FilledRectangle { rect, .. } => rect.area() <= usize::MAX,
            PrimitiveView::StrokedArc(arc) => arc.wf(),
            PrimitiveView::Text { .. } => true,
        }
    }

    /// The smallest window that holds every pixel that the primitive may
    /// touch.
    pub open spec fn bounds(&self) -> Rect {
        match self {
            PrimitiveView::FilledRectangle { rect, .. } => *rect,
            PrimitiveView::StrokedArc(arc) => arc.bounds(),
            PrimitiveView::Text { chars, origin, .. } => Rect {
                top_left: *origin,
                size: Size { width: (12 * chars.len()) as u32, height: 16 },
            },
        }
    }

    /// What the primitive hands to the drawing target.
    pub open spec fn rendered(&self) -> DrawCallView {
        match self {
            PrimitiveView::FilledRectangle { rect, fill } => DrawCallView::Window(
                solid_patch(*rect, *fill),
            ),
            PrimitiveView::StrokedArc(arc) => DrawCallView::Pixels(arc.pixels()),
            PrimitiveView::Text { chars, origin, foreground, background } => DrawCallView::Window(
                text_patch(*chars, *origin, *foreground, *background),
            ),
        }
    }
}

/// Renders one primitive.
pub fn render(primitive: &Primitive) -> (call: DrawCall)
    requires
        primitive@.wf(),
    ensures
        call@ == primitive@.rendered(),
        call@.wf(),
{
    match primitive {
        Primitive::FilledRectangle { rect, fill } => DrawCall::Window(fill_rectangle(*rect, *fill)),
        Primitive::StrokedArc(arc) => DrawCall::Pixels(arc_pixels(arc)),
        Primitive::Text { text, origin, foreground, background } => DrawCall::Window(
            render_text(text.as_str(), *origin, *foreground, *background),
        ),
    }
}

/// Every pixel that an arc colours lies in its bounding window, is coloured
/// with the stroke's colour, and is one that the arc strokes.
pub proof fn lemma_arc_pixels_in_bounds(arc: StrokedArc, k: nat)
    ensures
        forall|i: int|
            0 <= i < arc.pixels_upto(k).len() ==> {
                let p = #[trigger] arc.pixels_upto(k)[i];
                &&& arc.strokes(p.point.x as int, p.point.y as int)
                &&& arc.bounds().covers(p.point.x as int, p.point.y as int)
                &&& p.color == arc.color
            },
    decreases k,
{
    if k > 0 {
        lemma_arc_pixels_in_bounds(arc, (k - 1) as nat);
        let before = arc.pixels_upto((k - 1) as nat);
        let now = arc.pixels_upto(k);
        assert forall|i: int| 0 <= i < now.len() implies {
            let p = #[trigger] now[i];
            &&& arc.strokes(p.point.x as int, p.point.y as int)
            &&& arc.bounds().covers(p.point.x as int, p.point.y as int)
            &&& p.color == arc.color
        } by {
            if i < before.len() {
                assert(now[i] == before[i]);
            }
        }
    }
}

} // verus!
