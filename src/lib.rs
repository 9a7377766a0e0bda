//! Driver for an 88x88 RGB LED panel built from chained shift-register ICs.
//!
//! The frame buffer, the 5x7 font and the text renderer fill the pixel grid;
//! the protocol encoder and the refresh scheduler turn it into the panel's
//! waveform, a list of line changes and waits that the caller plays on the
//! hardware lines.

pub mod font;
pub mod framebuffer;
pub mod led_matrix;
pub mod link;
pub mod protocol;
pub mod scheduler;
pub mod text;
pub mod url;

pub use framebuffer::{FrameBuffer, Pixel, MATRIX_HEIGHT, MATRIX_WIDTH};
pub use led_matrix::LedMatrix;
pub use protocol::{Command, Pin, Step, Timing};
pub use url::url_decode;
