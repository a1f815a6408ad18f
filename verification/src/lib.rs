//! Rendering and text-interaction core of a small virtual console: an
//! indexed-colour framebuffer with a nearest-colour palette quantizer, a
//! bounded word-wrapping text console, a keyboard decoder with edge detection,
//! an editable command line with history, and the session state machine that
//! ties them together.

use vstd::prelude::*;

pub mod cli;
pub mod console;
pub mod display;
pub mod input;
pub mod palette;
pub mod queue;
pub mod session;
pub mod text;

verus! {

/// Width of the framebuffer, in pixels.
pub const BUFFER_WIDTH: usize = 336;

/// Height of the framebuffer, in pixels.
pub const BUFFER_HEIGHT: usize = 144;

/// Number of pixels in the framebuffer, and of bytes in the shared surface.
pub const BUFFER_LEN: usize = BUFFER_WIDTH * BUFFER_HEIGHT;

} // verus!
