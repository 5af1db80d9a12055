//! What the drawing calls do to the picture on the panel. A call gives
//! certain pixels a colour that does not depend on what they showed before,
//! and leaves every other pixel alone; so the colour of a pixel after a list
//! of calls is a function of its colour before them.

use vstd::prelude::*;
use crate::bus::BusOp;
use crate::color::Rgb565;
use crate::controller::{drawn, lemma_calls_written, lemma_run_push, Controller};
use crate::draw::{DrawCall, DrawCallView, Pixel};
use crate::driver::{calls_ops, DriverState};
use crate::indicator::{
    arc_for, call_views, frame, lemma_frame_wf, lemma_scene_fits, region, scene,
};
use vstd::arithmetic::div_mod::lemma_fundamental_div_mod_converse;
use crate::font::glyph_bit;
use crate::indicator::label_origin;
use crate::render::{lemma_arc_pixels_in_bounds, StrokedArc};
use crate::text::{decimal, lemma_percent_digits};

verus! {

/// Whether a list of pixels names the pixel at (`x`, `y`).
pub open spec fn pixels_touch(pixels: Seq<Pixel>, x: int, y: int) -> bool {
    exists|i: int| 0 <= i < pixels.len() && (#[trigger] pixels[i]).point.x == x && pixels[i].point.y == y
}

/// The colour of the pixel at (`x`, `y`) after a list of single pixels was
/// written, the last of them first in rank.
pub open spec fn after_pixels(pixels: Seq<Pixel>, x: int, y: int, before: Rgb565) -> Rgb565
    decreases pixels.len(),
{
    if pixels.len() == 0 {
        before
    } else if pixels.last().point.x == x && pixels.last().point.y == y {
        pixels.last().color
    } else {
        after_pixels(pixels.drop_last(), x, y, before)
    }
}

/// Whether a call gives the pixel at (`x`, `y`) a colour.
pub open spec fn touches(call: DrawCallView, x: int, y: int) -> bool {
    match call {
        DrawCallView::Window(patch) => patch.rect.covers(x, y),
        DrawCallView::Pixels(pixels) => pixels_touch(pixels, x, y),
    }
}

/// The colour of the pixel at (`x`, `y`) after a call.
pub open spec fn after_call(call: DrawCallView, x: int, y: int, before: Rgb565) -> Rgb565 {
    match call {
        DrawCallView::Window(patch) => if patch.rect.covers(x, y) {
            patch.pixels[patch.rect.index_of(x, y)]
        } else {
            before
        },
        DrawCallView::Pixels(pixels) => after_pixels(pixels, x, y, before),
    }
}

/// Whether one of the calls gives the pixel at (`x`, `y`) a colour.
pub open spec fn any_touches(calls: Seq<DrawCallView>, x: int, y: int) -> bool {
    exists|i: int| 0 <= i < calls.len() && touches(#[trigger] calls[i], x, y)
}

/// The colour of the pixel at (`x`, `y`) after a list of calls, performed
/// in order.
pub open spec fn after_calls(calls: Seq<DrawCallView>, x: int, y: int, before: Rgb565) -> Rgb565
    decreases calls.len(),
{
    if calls.len() == 0 {
        before
    } else {
        after_call(calls.last(), x, y, after_calls(calls.drop_last(), x, y, before))
    }
}

/// A list of pixels leaves a pixel that it does not name as it was, and
/// gives one that it names a colour that does not depend on the colour
/// before.
pub proof fn lemma_after_pixels(pixels: Seq<Pixel>, x: int, y: int, a: Rgb565, b: Rgb565)
    ensures
        !pixels_touch(pixels, x, y) ==> after_pixels(pixels, x, y, a) == a,
        pixels_touch(pixels, x, y) ==> after_pixels(pixels, x, y, a) == after_pixels(
            pixels,
            x,
            y,
            b,
        ),
    decreases pixels.len(),
{
    if pixels.len() > 0 {
        let rest = pixels.drop_last();
        lemma_after_pixels(rest, x, y, a, b);
        let last = pixels.last();
        if last.point.x == x && last.point.y == y {
            assert(pixels[pixels.len() - 1] == last);
        } else {
            if pixels_touch(pixels, x, y) {
                let i = choose|i: int|
                    0 <= i < pixels.len() && (#[trigger] pixels[i]).point.x == x
                        && pixels[i].point.y == y;
                assert(rest[i] == pixels[i]);
            }
            if pixels_touch(rest, x, y) {
                let i = choose|i: int|
                    0 <= i < rest.len() && (#[trigger] rest[i]).point.x == x && rest[i].point.y
                        == y;
                assert(pixels[i] == rest[i]);
            }
        }
    }
}

/// A call leaves a pixel that it does not touch as it was, and gives one
/// that it touches a colour that does not depend on the colour before.
pub proof fn lemma_after_call(call: DrawCallView, x: int, y: int, a: Rgb565, b: Rgb565)
    ensures
        !touches(call, x, y) ==> after_call(call, x, y, a) == a,
        touches(call, x, y) ==> after_call(call, x, y, a) == after_call(call, x, y, b),
{
    match call {
        DrawCallView::Window(_) => {},
        DrawCallView::Pixels(pixels) => {
            lemma_after_pixels(pixels, x, y, a, b);
        },
    }
}

/// Isolation: a pixel that none of the calls touches keeps its colour. And a
/// pixel that one of them touches ends with a colour that does not depend
/// on the colour before.
pub proof fn lemma_after_calls(calls: Seq<DrawCallView>, x: int, y: int, a: Rgb565, b: Rgb565)
    ensures
        !any_touches(calls, x, y) ==> after_calls(calls, x, y, a) == a,
        any_touches(calls, x, y) ==> after_calls(calls, x, y, a) == after_calls(calls, x, y, b),
    decreases calls.len(),
{
    if calls.len() > 0 {
        let rest = calls.drop_last();
        let last = calls.last();
        lemma_after_calls(rest, x, y, a, b);
        lemma_after_call(last, x, y, after_calls(rest, x, y, a), after_calls(rest, x, y, b));
        if touches(last, x, y) {
            assert(calls[calls.len() - 1] == last);
        } else {
            if any_touches(calls, x, y) {
                let i = choose|i: int| 0 <= i < calls.len() && touches(#[trigger] calls[i], x, y);
                assert(rest[i] == calls[i]);
            }
            if any_touches(rest, x, y) {
                let i = choose|i: int| 0 <= i < rest.len() && touches(#[trigger] rest[i], x, y);
                assert(calls[i] == rest[i]);
            }
        }
    }
}

/// Idempotence: performing a list of calls a second time changes no pixel.
pub proof fn lemma_redraw_changes_nothing(
    calls: Seq<DrawCallView>,
    x: int,
    y: int,
    before: Rgb565,
)
    ensures
        after_calls(calls, x, y, after_calls(calls, x, y, before)) == after_calls(
            calls,
            x,
            y,
            before,
        ),
{
    lemma_after_calls(calls, x, y, after_calls(calls, x, y, before), before);
}

/// No call of a frame touches a pixel outside the indicator's region.
pub proof fn lemma_frame_touches_region_only(progress: int, x: int, y: int)
    requires
        0 <= progress <= 100,
        !region().covers(x, y),
    ensures
        !any_touches(frame(progress), x, y),
{
    lemma_scene_fits(progress);
    let arc = arc_for(progress);
    lemma_arc_pixels_in_bounds(arc, arc.bounds().area() as nat);
    let calls = frame(progress);
    assert(scene(progress)[1].bounds() == arc.bounds());
    assert forall|i: int| 0 <= i < calls.len() implies !touches(#[trigger] calls[i], x, y) by {
        assert(scene(progress)[i].bounds().within(region()));
        if i == 1 {
            let pixels = arc.pixels();
            if pixels_touch(pixels, x, y) {
                let j = choose|j: int|
                    0 <= j < pixels.len() && (#[trigger] pixels[j]).point.x == x
                        && pixels[j].point.y == y;
                assert(arc.bounds().covers(pixels[j].point.x as int, pixels[j].point.y as int));
            }
        }
    }
}

/// Region isolation: drawing a frame leaves every pixel outside the
/// indicator's region as it was.
pub proof fn lemma_frame_keeps_outside(progress: int, x: int, y: int, before: Rgb565)
    requires
        0 <= progress <= 100,
        !region().covers(x, y),
    ensures
        after_calls(frame(progress), x, y, before) == before,
{
    lemma_frame_touches_region_only(progress, x, y);
    lemma_after_calls(frame(progress), x, y, before, before);
}

/// Inside the region a frame depends on nothing but the percentage: what a
/// pixel shows after the frame is the same whatever it showed before.
pub proof fn lemma_frame_covers_region(progress: int, x: int, y: int, a: Rgb565, b: Rgb565)
    requires
        0 <= progress <= 100,
        region().covers(x, y),
    ensures
        after_calls(frame(progress), x, y, a) == after_calls(frame(progress), x, y, b),
{
    assert(touches(frame(progress)[0], x, y));
    lemma_after_calls(frame(progress), x, y, a, b);
}

/// Rendering is repeatable: two renderings of the same percentage hold the
/// same windows and colours, take the same steps on the link, and the
/// second leaves the picture as the first made it.
pub proof fn lemma_same_progress_same_frame(
    first: Seq<DrawCall>,
    second: Seq<DrawCall>,
    progress: int,
    state: DriverState,
    x: int,
    y: int,
    before: Rgb565,
)
    requires
        0 <= progress <= 100,
        call_views(first) == frame(progress),
        call_views(second) == frame(progress),
    ensures
        call_views(first) == call_views(second),
        calls_ops(state, call_views(first)) == calls_ops(state, call_views(second)),
        after_calls(call_views(second), x, y, after_calls(call_views(first), x, y, before))
            == after_calls(call_views(first), x, y, before),
{
    lemma_redraw_changes_nothing(frame(progress), x, y, before);
}

/// Where a list of pixels names a pixel, that pixel ends with the colour
/// that one of its entries gives it.
pub proof fn lemma_after_pixels_color(pixels: Seq<Pixel>, x: int, y: int, before: Rgb565)
    requires
        pixels_touch(pixels, x, y),
    ensures
        exists|i: int|
            0 <= i < pixels.len() && (#[trigger] pixels[i]).point.x == x && pixels[i].point.y == y
                && after_pixels(pixels, x, y, before) == pixels[i].color,
    decreases pixels.len(),
{
    let last = pixels.last();
    let n = pixels.len() as int;
    if last.point.x == x && last.point.y == y {
        assert(pixels[n - 1] == last);
    } else {
        let rest = pixels.drop_last();
        let j = choose|j: int|
            0 <= j < pixels.len() && (#[trigger] pixels[j]).point.x == x && pixels[j].point.y == y;
        assert(rest[j] == pixels[j]);
        lemma_after_pixels_color(rest, x, y, before);
        let i = choose|i: int|
            0 <= i < rest.len() && (#[trigger] rest[i]).point.x == x && rest[i].point.y == y
                && after_pixels(rest, x, y, before) == rest[i].color;
        assert(pixels[i] == rest[i]);
    }
}

/// Every pixel of the bounding window that the arc strokes is among the
/// pixels that it colours.
pub proof fn lemma_arc_pixels_complete(arc: StrokedArc, k: nat, j: int)
    requires
        0 <= j < k,
        arc.strokes(arc.point_at(j).x as int, arc.point_at(j).y as int),
    ensures
        pixels_touch(arc.pixels_upto(k), arc.point_at(j).x as int, arc.point_at(j).y as int),
    decreases k,
{
    let p = arc.point_at(j);
    let now = arc.pixels_upto(k);
    let before = arc.pixels_upto((k - 1) as nat);
    let last = arc.point_at(k - 1);
    if j == k - 1 {
        assert(now == before.push(Pixel { point: p, color: arc.color }));
        assert(now[now.len() - 1].point == p);
    } else {
        lemma_arc_pixels_complete(arc, (k - 1) as nat, j);
        let i = choose|i: int|
            0 <= i < before.len() && (#[trigger] before[i]).point.x == p.x && before[i].point.y
                == p.y;
        if arc.strokes(last.x as int, last.y as int) {
            assert(now == before.push(Pixel { point: last, color: arc.color }));
            assert(now[i] == before[i]);
        } else {
            assert(now[i] == before[i]);
        }
    }
}

/// What an arc does to the picture: a pixel that it strokes gets the
/// stroke's colour, and every other pixel keeps its own.
pub proof fn lemma_arc_painted(arc: StrokedArc, x: int, y: int, before: Rgb565)
    requires
        arc.wf(),
    ensures
        after_pixels(arc.pixels(), x, y, before) == if arc.strokes(x, y) {
            arc.color
        } else {
            before
        },
{
    let pixels = arc.pixels();
    let count = arc.bounds().area() as nat;
    lemma_arc_pixels_in_bounds(arc, count);
    if arc.strokes(x, y) {
        let d = arc.outer_diameter();
        let col = x - arc.bounds().left();
        let row = y - arc.bounds().top();
        let j = row * d + col;
        assert(0 <= j < d * d) by (nonlinear_arith)
            requires
                0 <= col < d,
                0 <= row < d,
                j == row * d + col,
        ;
        assert(count == d * d) by (nonlinear_arith)
            requires
                count == arc.bounds().size.width * arc.bounds().size.height,
                arc.bounds().size.width == d,
                arc.bounds().size.height == d,
        ;
        lemma_fundamental_div_mod_converse(j, d, row, col);
        assert(arc.point_at(j).x == x && arc.point_at(j).y == y);
        lemma_arc_pixels_complete(arc, count, j);
        lemma_after_pixels_color(pixels, x, y, before);
    } else {
        if pixels_touch(pixels, x, y) {
            let i = choose|i: int|
                0 <= i < pixels.len() && (#[trigger] pixels[i]).point.x == x && pixels[i].point.y
                    == y;
            assert(arc.strokes(pixels[i].point.x as int, pixels[i].point.y as int));
        }
        lemma_after_pixels(pixels, x, y, before, before);
    }
}

/// What the panel shows at (`x`, `y`) once the frame for a percentage is
/// drawn. In the label's window: white where the glyph of the digit in
/// that cell has a stroke, black elsewhere. Outside it, white where the arc
/// strokes; black in the rest of the region; and beyond the region, what
/// was there before.
pub open spec fn picture(progress: int, x: int, y: int, before: Rgb565) -> Rgb565 {
    let digits = decimal(progress as nat);
    let origin = label_origin(progress);
    let col = x - origin.x;
    let row = y - origin.y;
    if 0 <= col < 12 * digits.len() && 0 <= row < 16 {
        if glyph_bit(digits[col / 12], (col % 12) as u32, row as u32) {
            Rgb565 { raw: 0xffff }
        } else {
            Rgb565 { raw: 0 }
        }
    } else if arc_for(progress).strokes(x, y) {
        Rgb565 { raw: 0xffff }
    } else if region().covers(x, y) {
        Rgb565 { raw: 0 }
    } else {
        before
    }
}

/// A frame shows its picture: whatever the panel showed before, after the
/// calls of the frame for a percentage each pixel has the colour that the
/// picture gives it.
pub proof fn lemma_frame_shows_picture(progress: int, x: int, y: int, before: Rgb565)
    requires
        0 <= progress <= 100,
    ensures
        after_calls(frame(progress), x, y, before) == picture(progress, x, y, before),
{
    let calls = frame(progress);
    let two = calls.drop_last();
    let one = two.drop_last();
    let none = one.drop_last();
    assert(none.len() == 0);
    assert(one.last() == calls[0] && two.last() == calls[1] && calls.last() == calls[2]);
    let cleared = after_call(calls[0], x, y, before);
    assert(after_calls(none, x, y, before) == before);
    assert(after_calls(one, x, y, before) == cleared);
    let stroked = after_call(calls[1], x, y, cleared);
    assert(after_calls(two, x, y, before) == stroked);
    assert(after_calls(calls, x, y, before) == after_call(calls[2], x, y, stroked));
    lemma_scene_fits(progress);
    lemma_percent_digits(progress as nat);
    let arc = arc_for(progress);
    assert(scene(progress)[1].wf());
    lemma_arc_painted(arc, x, y, cleared);
    if region().covers(x, y) {
        let k = region().index_of(x, y);
        assert(0 <= k < 64 * 64);
        assert(cleared == Rgb565 { raw: 0 });
    } else {
        assert(scene(progress)[1].bounds().within(region()));
        assert(!arc.strokes(x, y));
    }
    let digits = decimal(progress as nat);
    let origin = label_origin(progress);
    let width = 12 * (digits.len() as int);
    let col = x - origin.x;
    let row = y - origin.y;
    if 0 <= col < width && 0 <= row < 16 {
        let k = row * width + col;
        lemma_fundamental_div_mod_converse(k, width, row, col);
        assert(0 <= k < width * 16) by (nonlinear_arith)
            requires
                k == row * width + col,
                0 <= col < width,
                0 <= row < 16,
        ;
    }
}

/// At zero percent the arc has no pixel.
pub proof fn lemma_no_arc_at_zero()
    ensures
        arc_for(0).pixels() == Seq::<Pixel>::empty(),
{
    let arc = arc_for(0);
    lemma_no_stroke_upto(arc, arc.bounds().area() as nat);
}

proof fn lemma_no_stroke_upto(arc: StrokedArc, k: nat)
    requires
        arc == arc_for(0),
    ensures
        arc.pixels_upto(k) == Seq::<Pixel>::empty(),
    decreases k,
{
    if k > 0 {
        lemma_no_stroke_upto(arc, (k - 1) as nat);
        let p = arc.point_at(k - 1);
        let dx = arc.dx2(p.x as int);
        assert(dx != 0);
        assert(1024 * dx >= 0 && -(1024 * dx) >= 0 ==> dx == 0);
        assert(!arc.in_sweep(p.x as int, p.y as int));
    }
}

/// At a hundred percent the arc is the whole ring.
pub proof fn lemma_full_ring_at_hundred(x: int, y: int)
    ensures
        arc_for(100).strokes(x, y) <==> arc_for(100).bounds().covers(x, y) && arc_for(100).in_ring(
            x,
            y,
        ),
{
}

/// At fifty percent the arc is the right half of the ring.
pub proof fn lemma_half_ring_at_fifty(x: int, y: int)
    ensures
        arc_for(50).strokes(x, y) <==> arc_for(50).bounds().covers(x, y) && arc_for(50).in_ring(x, y)
            && 2 * x >= 63,
{
    let arc = arc_for(50);
    let dx = arc.dx2(x);
    let dy = arc.dy2(y);
    assert(arc.end() == 75);
    assert(1024 * dx >= 0 <==> dx >= 0);
    assert(-((-1024) * dx) - 0 * dy >= 0 <==> dx >= 0);
}

/// Region isolation on the link: the steps of a tick change nothing that
/// the controller stores outside the indicator's region, whatever it
/// stored before and wherever the offset puts the surface.
pub proof fn lemma_tick_keeps_outside(
    c: Controller,
    state: DriverState,
    progress: int,
    x: int,
    y: int,
)
    requires
        state.wf(),
        0 <= progress <= 100,
        !region().covers(x - state.dx, y - state.dy),
    ensures
        c.run(calls_ops(state, frame(progress)).push(BusOp::DelayMs(10))).ram[(x, y)] == c.ram[(
            x,
            y,
        )],
{
    lemma_frame_wf(progress);
    lemma_calls_written(c, state, frame(progress));
    lemma_run_push(c, calls_ops(state, frame(progress)), BusOp::DelayMs(10));
    lemma_frame_keeps_outside(progress, x - state.dx, y - state.dy, Rgb565 { raw: c.ram[(x, y)] });
    assert(c.run(calls_ops(state, frame(progress))).ram[(x, y)] == drawn(
        state,
        frame(progress),
        x,
        y,
        c.ram[(x, y)],
    ));
}

/// A tick on the link: whatever the controller stored before, after the
/// steps of a tick it stores for each pixel of the surface the colour that
/// the picture for the percentage gives that pixel, at the pixel's address
/// moved by the offset.
pub proof fn lemma_tick_shows_picture(
    c: Controller,
    state: DriverState,
    progress: int,
    x: int,
    y: int,
)
    requires
        state.wf(),
        0 <= progress <= 100,
        state.surface().covers(x - state.dx, y - state.dy),
    ensures
        c.run(calls_ops(state, frame(progress)).push(BusOp::DelayMs(10))).ram[(x, y)] == picture(
            progress,
            x - state.dx,
            y - state.dy,
            Rgb565 { raw: c.ram[(x, y)] },
        ).raw,
{
    lemma_frame_wf(progress);
    lemma_calls_written(c, state, frame(progress));
    lemma_run_push(c, calls_ops(state, frame(progress)), BusOp::DelayMs(10));
    lemma_frame_shows_picture(progress, x - state.dx, y - state.dy, Rgb565 { raw: c.ram[(x, y)] });
    assert(c.run(calls_ops(state, frame(progress))).ram[(x, y)] == drawn(
        state,
        frame(progress),
        x,
        y,
        c.ram[(x, y)],
    ));
}

} // verus!
