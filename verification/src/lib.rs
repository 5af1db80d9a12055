//! Progress indicator for a small SPI colour panel: a sweeping arc with a
//! centred percentage label, rendered as minimal pixel windows and framed
//! into the controller's command protocol.
//!
//! The layers, from the glass upwards: `color` and `geometry` name pixels;
//! `bus` names the steps on the serial link; `driver` turns windows of
//! pixels into such steps, and `controller` says what those steps mean to
//! the panel; `draw` is what a renderer hands to the driver; `angle`,
//! `font`, `text` and `render` turn primitives into drawing calls;
//! `animation` counts, `indicator` composes each frame, and `panel` states
//! what a frame does to the picture.

pub mod angle;
pub mod animation;
pub mod bus;
pub mod color;
pub mod controller;
pub mod draw;
pub mod driver;
pub mod font;
pub mod geometry;
pub mod indicator;
pub mod panel;
pub mod render;
pub mod text;
