//! Verified core of a real-time audio spectrum analyser: how audio chunks are
//! assembled from a sample stream, when a display refreshes, and how the
//! terminal and OLED displays lay out their bars.

pub mod bars;
pub mod chunk;
pub mod display;
pub mod oled;
pub mod refresh;
