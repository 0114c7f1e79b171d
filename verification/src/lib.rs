//! Monochrome sixel rendering of decoded video frames.
//!
//! The pipeline takes one decoded luma plane per frame, thresholds it into a
//! binary image with a fixed ordered-dither pattern, packs six rows at a time
//! into printable sixel characters, run-length encodes each band, and wraps
//! the result in the sixel protocol's header and footer. A small pacing
//! component decides how long a driver must sleep before presenting a frame
//! so that playback follows the stream's presentation timestamps.

pub mod dither;
pub mod frame;
pub mod pacing;
pub mod present;
pub mod rle;
pub mod sixel;
