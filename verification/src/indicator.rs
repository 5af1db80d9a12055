//! The progress indicator: what is drawn for each value of the counter, and
//! the tick that draws it and moves the counter on.
//!
//! The indicator owns a square region in the surface's top left corner. Each
//! tick clears that region, strokes the arc for the current percentage from
//! the top of the circle clockwise, and writes the percentage in the middle.

use vstd::prelude::*;
use crate::animation::{next_progress, Animation};
use crate::bus::BusOp;
use crate::color::Rgb565;
use crate::draw::{DrawCall, DrawCallView};
use crate::driver::{calls_ops, Driver, DriverError};
use crate::font::{GLYPH_HEIGHT, GLYPH_WIDTH};
use crate::geometry::{Point, Rect, Size};
use crate::render::{
    centered_at, centered_origin, render, Primitive, PrimitiveView, StrokeAlignment, StrokedArc,
};
use crate::text::{decimal, format_decimal, lemma_percent_digits};

verus! {

/// Side of the square region that the indicator owns.
pub const REGION_SIDE: u32 = 64;

/// Distance of the arc's enclosing square from the region's edge.
pub const ARC_INSET: i32 = 2;

/// Diameter of the arc's circle.
pub const ARC_DIAMETER: u32 = 60;

/// Where the arc starts: the top of the circle, a quarter turn from the
/// positive x axis.
pub const ARC_START: u8 = 25;

/// Width of the arc's stroke.
pub const ARC_STROKE: u32 = 5;

/// Column and row of the point on which the label is centred.
pub const LABEL_CENTER: i32 = 32;

/// Pause after each frame, in milliseconds.
pub const TICK_DELAY_MS: u8 = 10;

/// The region that the indicator owns.
pub open spec fn region() -> Rect {
    Rect { top_left: Point { x: 0, y: 0 }, size: Size { width: 64, height: 64 } }
}

/// The arc for a percentage: `progress` hundredths of a turn, clockwise
/// from the top.
pub open spec fn arc_for(progress: int) -> StrokedArc {
    StrokedArc {
        top_left: Point { x: 2, y: 2 },
        diameter: 60,
        start: 25,
        sweep: progress as u8,
        stroke_width: 5,
        alignment: StrokeAlignment::Inside,
        color: Rgb565 { raw: 0xffff },
    }
}

/// Top left corner of the label for a percentage.
pub open spec fn label_origin(progress: int) -> Point {
    let (x, y) = centered_at(
        Point { x: 32, y: 32 },
        decimal(progress as nat).len() as int,
        Size { width: 12, height: 16 },
    );
    Point { x: x as i32, y: y as i32 }
}

/// What is drawn for a percentage, in order: the cleared region, the arc,
/// the label.
pub open spec fn scene(progress: int) -> Seq<PrimitiveView> {
    seq![
        PrimitiveView::FilledRectangle { rect: region(), fill: Rgb565 { raw: 0 } },
        PrimitiveView::StrokedArc(arc_for(progress)),
        PrimitiveView::Text {
            chars: decimal(progress as nat),
            origin: label_origin(progress),
            foreground: Rgb565 { raw: 0xffff },
            background: Rgb565 { raw: 0 },
        },
    ]
}

/// The drawing calls of one frame.
pub open spec fn frame(progress: int) -> Seq<DrawCallView> {
    seq![scene(progress)[0].rendered(), scene(progress)[1].rendered(), scene(progress)[2].rendered()]
}

/// The views of a list of primitives.
pub open spec fn primitive_views(primitives: Seq<Primitive>) -> Seq<PrimitiveView> {
    Seq::new(primitives.len(), |i: int| primitives[i]@)
}

/// The views of a list of drawing calls.
pub open spec fn call_views(calls: Seq<DrawCall>) -> Seq<DrawCallView> {
    Seq::new(calls.len(), |i: int| calls[i]@)
}

/// The label of a percentage is centred on the middle of the region: its
/// left edge lies half its width, six pixels for each digit, left of column
/// 32, and its top edge half a glyph above row 32.
pub proof fn lemma_label_origin(progress: int)
    requires
        0 <= progress <= 100,
    ensures
        label_origin(progress).x == 32 - (decimal(progress as nat).len() * 12) / 2,
        label_origin(progress).x == 32 - 6 * decimal(progress as nat).len(),
        label_origin(progress).y == 32 - 16int / 2,
        progress < 10 ==> label_origin(progress) == (Point { x: 26, y: 24 }),
        10 <= progress < 100 ==> label_origin(progress) == (Point { x: 20, y: 24 }),
        progress == 100 ==> label_origin(progress) == (Point { x: 14, y: 24 }),
{
    lemma_percent_digits(progress as nat);
}

/// Every primitive of a scene can be rendered, and none reaches beyond the
/// indicator's region.
pub proof fn lemma_scene_fits(progress: int)
    requires
        0 <= progress <= 100,
    ensures
        forall|i: int|
            0 <= i < 3 ==> (#[trigger] scene(progress)[i]).wf() && scene(progress)[i].bounds().within(
                region(),
            ),
{
    lemma_percent_digits(progress as nat);
    lemma_label_origin(progress);
}

/// Every drawing call of a frame holds one colour for each pixel of its
/// window.
pub proof fn lemma_frame_wf(progress: int)
    requires
        0 <= progress <= 100,
    ensures
        frame(progress).len() == 3,
        forall|i: int| 0 <= i < 3 ==> (#[trigger] frame(progress)[i]).wf(),
{
    lemma_percent_digits(progress as nat);
}

/// The primitives of the frame for a percentage.
pub fn compose(progress: u8) -> (primitives: Vec<Primitive>)
    requires
        progress <= 100,
    ensures
        primitive_views(primitives@) == scene(progress as int),
{
    let black = Rgb565::black();
    let white = Rgb565::white();
    let text = format_decimal(progress as u32);
    let len: usize = text.char_count();
    proof {
        lemma_percent_digits(progress as nat);
        lemma_label_origin(progress as int);
    }
    let origin = centered_origin(
        Point { x: LABEL_CENTER, y: LABEL_CENTER },
        len as u32,
        Size { width: GLYPH_WIDTH, height: GLYPH_HEIGHT },
    ).unwrap();
    let mut primitives: Vec<Primitive> = Vec::new();
    primitives.push(
        Primitive::FilledRectangle { rect: Rect::new(0, 0, REGION_SIDE, REGION_SIDE), fill: black },
    );
    primitives.push(
        Primitive::StrokedArc(
            StrokedArc {
                top_left: Point { x: ARC_INSET, y: ARC_INSET },
                diameter: ARC_DIAMETER,
                start: ARC_START,
                sweep: progress,
                stroke_width: ARC_STROKE,
                alignment: StrokeAlignment::Inside,
                color: white,
            },
        ),
    );
    primitives.push(Primitive::Text { text, origin, foreground: white, background: black });
    assert(primitive_views(primitives@) =~= scene(progress as int));
    primitives
}

/// The drawing calls of the frame for a percentage.
pub fn render_frame(progress: u8) -> (calls: Vec<DrawCall>)
    requires
        progress <= 100,
    ensures
        call_views(calls@) == frame(progress as int),
        forall|i: int| 0 <= i < calls@.len() ==> (#[trigger] calls@[i])@.wf(),
{
    let primitives = compose(progress);
    proof {
        lemma_scene_fits(progress as int);
        assert(primitive_views(primitives@).len() == primitives@.len());
        assert(scene(progress as int).len() == 3);
        assert forall|i: int| 0 <= i < 3 implies (#[trigger] primitives@[i])@.wf() by {
            assert(primitive_views(primitives@)[i] == scene(progress as int)[i]);
        }
    }
    let mut calls: Vec<DrawCall> = Vec::new();
    let mut i: usize = 0;
    while i < primitives.len()
        invariant
            i <= primitives.len(),
            forall|j: int| 0 <= j < primitives@.len() ==> (#[trigger] primitives@[j])@.wf(),
            calls@.len() == i,
            forall|j: int|
                0 <= j < i ==> (#[trigger] calls@[j])@ == primitives@[j]@.rendered() && calls@[j]@.wf(),
        decreases primitives.len() - i,
    {
        calls.push(render(&primitives[i]));
        i += 1;
    }
    proof {
        assert forall|j: int| 0 <= j < 3 implies #[trigger] call_views(calls@)[j] == frame(
            progress as int,
        )[j] by {
            assert(primitive_views(primitives@)[j] == scene(progress as int)[j]);
        }
        assert(call_views(calls@) =~= frame(progress as int));
    }
    calls
}

/// One tick: the steps that draw the frame for the current percentage and
/// then pause, and the counter moved on. Before `initialize` nothing is
/// drawn and the counter stays.
pub fn tick(driver: &Driver, animation: &mut Animation) -> (res: Result<Vec<BusOp>, DriverError>)
    requires
        driver.wf(),
        old(animation).wf(),
    ensures
        final(animation).wf(),
        res.is_ok() <==> driver@.initialized,
        res.is_ok() ==> res.unwrap()@ == calls_ops(driver@, frame(old(animation).value())).push(
            BusOp::DelayMs(10),
        ) && final(animation).value() == next_progress(old(animation).value()),
        res.is_err() ==> res.unwrap_err() == DriverError::NotInitialized && final(animation).value()
            == old(animation).value(),
{
    let calls = render_frame(animation.progress());
    match driver.draw_all(&calls) {
        Ok(mut ops) => {
            ops.push(BusOp::DelayMs(TICK_DELAY_MS));
            animation.advance();
            Ok(ops)
        },
        Err(e) => Err(e),
    }
}

} // verus!
