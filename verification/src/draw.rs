//! What the renderer hands to the driver: a window with its colours, or a
//! list of single pixels.

use vstd::prelude::*;
use crate::color::Rgb565;
use crate::geometry::{Point, Rect};

verus! {

/// One coloured pixel.
#[derive(Clone, Copy, Debug, PartialEq, Eq, Structural)]
pub struct Pixel {
    pub point: Point,
    pub color: Rgb565,
}

/// A window together with one colour for each of its pixels, row by row.
#[derive(Debug)]
pub struct Patch {
    pub rect: Rect,
    pub pixels: Vec<Rgb565>,
}

/// A patch as contracts see it.
pub struct PatchView {
    pub rect: Rect,
    pub pixels: Seq<Rgb565>,
}

impl View for Patch {
    type V = PatchView;

    open spec fn view(&self) -> PatchView {
        PatchView { rect: self.rect, pixels: self.pixels@ }
    }
}

impl PatchView {
    /// A patch holds exactly one colour for each pixel of its window.
    pub open spec fn wf(&self) -> bool {
        self.pixels.len() == self.rect.area()
    }
}

/// A stream of `count` pixels of one colour.
pub open spec fn solid(count: nat, color: Rgb565) -> Seq<Rgb565> {
    Seq::new(count, |i: int| color)
}

/// One call on the drawing target.
#[derive(Debug)]
pub enum DrawCall {
    /// Every pixel of a window gets a colour.
    Window(Patch),
    /// The listed pixels get their colours; all others keep theirs.
    Pixels(Vec<Pixel>),
}

/// A drawing call as contracts see it.
pub enum DrawCallView {
    Window(PatchView),
    Pixels(Seq<Pixel>),
}

impl View for DrawCall {
    type V = DrawCallView;

    open spec fn view(&self) -> DrawCallView {
        match self {
            DrawCall::Window(patch) => DrawCallView::Window(patch@),
            DrawCall::Pixels(pixels) => DrawCallView::Pixels(pixels@),
        }
    }
}

impl DrawCallView {
    /// A window call holds one colour for each pixel of its window.
    pub open spec fn wf(&self) -> bool {
        match self {
            DrawCallView::Window(patch) => patch.wf(),
            DrawCallView::Pixels(_) => true,
        }
    }
}

} // verus!
