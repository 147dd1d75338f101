//! A text console that draws 8×8 glyphs straight into a linear pixel framebuffer.
//!
//! [`Logger`] owns the framebuffer and a cursor; each character is drawn as an 8×8
//! glyph of the basic font, a newline moves twelve pixels down, and when no glyph
//! row is left the screen is wiped and writing starts again at the top.
pub mod font;
pub mod framebuffer;
pub mod logger;

pub use font::{is_renderable, is_renderable_str};
pub use framebuffer::{FrameBufferInfo, PixelFormat};
pub use logger::Logger;
