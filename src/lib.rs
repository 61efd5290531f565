//! A bridge between a serial button-matrix device and its consumers: frame
//! decoding, change detection, event encoding, frame resynchronisation on a
//! lossy byte stream, render layout and cooperative shutdown.
pub mod matrix;
pub mod events;
pub mod osc;
pub mod framing;
pub mod render;
pub mod control;
