//! The panel driver: frame buffer, font and the line protocol behind one type.
//!
//! Every operation that touches the lines appends its waveform to a step
//! buffer; the caller plays the steps on the real lines, in order.
use vstd::prelude::*;

use crate::font::{Font, GLYPH_ROWS};
use crate::framebuffer::{blank, paint, with_pixel, FrameBuffer, Pixel, PIXEL_COUNT};
use crate::protocol::{
    command_steps, config_steps, send_command, send_config, Command, Pin, Step, Timing, SCANLINES,
};
use crate::scheduler::{frame_steps, send_frame};
use crate::text::{rendered, render_text};

verus! {

/// Configuration register value: output enabled, 16-bit PWM, full current gain.
pub const PANEL_CONFIG: u16 = 0x001F;

/// Wait after driving every line low, for the supply to settle.
pub const POWER_SETTLE_US: u32 = 100_000;

/// Wait after the reset command.
pub const RESET_SETTLE_US: u32 = 10_000;

/// Wait after the pre-active command.
pub const PRE_ACTIVE_SETTLE_US: u32 = 1_000;

/// Every line driven low.
pub open spec fn all_low_steps() -> Seq<Step> {
    seq![
        Step::Drive(Pin::Gclk, false),
        Step::Drive(Pin::Dclk, false),
        Step::Drive(Pin::Le, false),
        Step::Drive(Pin::A0, false),
        Step::Drive(Pin::A1, false),
        Step::Drive(Pin::A2, false),
        Step::Drive(Pin::A3, false),
        Step::Drive(Pin::Dr1, false),
        Step::Drive(Pin::Dg1, false),
        Step::Drive(Pin::Db1, false),
        Step::Drive(Pin::Dr2, false),
        Step::Drive(Pin::Dg2, false),
        Step::Drive(Pin::Db2, false),
    ]
}

/// The start-up sequence: lines low, reset, pre-active, then the configuration.
pub open spec fn init_steps(t: Timing) -> Seq<Step> {
    all_low_steps() + seq![Step::Wait(POWER_SETTLE_US)] + command_steps(Command::Reset, t) + seq![
        Step::Wait(RESET_SETTLE_US),
    ] + command_steps(Command::PreActive, t) + seq![Step::Wait(PRE_ACTIVE_SETTLE_US)]
        + config_steps(PANEL_CONFIG, t)
}

/// Driver for the 88x88 panel.
pub struct LedMatrix {
    frame_buffer: FrameBuffer,
    font: Font,
    timing: Timing,
    current_scanline: usize,
    initialized: bool,
}

impl LedMatrix {
    /// The cells of the frame buffer, row-major.
    pub closed spec fn pixels(&self) -> Seq<Pixel> {
        self.frame_buffer@
    }

    pub closed spec fn glyphs(&self) -> Font {
        self.font
    }

    pub closed spec fn timing(&self) -> Timing {
        self.timing
    }

    /// Whether the start-up sequence has been emitted.
    pub closed spec fn is_initialized(&self) -> bool {
        self.initialized
    }

    /// Counts frames modulo the number of scanlines.
    pub closed spec fn scanline(&self) -> nat {
        self.current_scanline as nat
    }

    pub open spec fn wf(&self) -> bool {
        &&& self.pixels().len() == PIXEL_COUNT
        &&& self.glyphs().wf()
        &&& self.scanline() < SCANLINES
    }

    /// A driver whose panel has not been started: dark buffer, no steps emitted.
    pub fn unconfigured(timing: Timing) -> (r: LedMatrix)
        ensures
            r.wf(),
            r.pixels() == blank(),
            r.timing() == timing,
            !r.is_initialized(),
            r.scanline() == 0,
            r.glyphs()@ == GLYPH_ROWS@,
    {
        LedMatrix {
            frame_buffer: FrameBuffer::new(),
            font: Font::new(),
            timing,
            current_scanline: 0,
            initialized: false,
        }
    }

    /// Emits the start-up sequence and marks the driver initialized.
    pub fn init(&mut self, out: &mut Vec<Step>)
        requires
            old(self).wf(),
        ensures
            final(self).wf(),
            final(out)@ == old(out)@ + init_steps(old(self).timing()),
            final(self).is_initialized(),
            final(self).pixels() == old(self).pixels(),
            final(self).glyphs() == old(self).glyphs(),
            final(self).timing() == old(self).timing(),
            final(self).scanline() == old(self).scanline(),
    {
        self.set_all_pins_low(out);
        out.push(Step::Wait(POWER_SETTLE_US));
        send_command(Command::Reset, &self.timing, out);
        out.push(Step::Wait(RESET_SETTLE_US));
        send_command(Command::PreActive, &self.timing, out);
        out.push(Step::Wait(PRE_ACTIVE_SETTLE_US));
        send_config(PANEL_CONFIG, &self.timing, out);
        self.initialized = true;
        assert(out@ =~= old(out)@ + init_steps(self.timing));
    }

    /// A started driver: a dark buffer, with the start-up sequence appended to
    /// `out`.
    pub fn new(timing: Timing, out: &mut Vec<Step>) -> (r: LedMatrix)
        ensures
            r.wf(),
            r.pixels() == blank(),
            r.timing() == timing,
            r.is_initialized(),
            r.scanline() == 0,
            r.glyphs()@ == GLYPH_ROWS@,
            final(out)@ == old(out)@ + init_steps(timing),
    {
        let mut matrix = LedMatrix::unconfigured(timing);
        matrix.init(out);
        matrix
    }

    /// Appends every line driven low.
    fn set_all_pins_low(&self, out: &mut Vec<Step>)
        ensures
            final(out)@ == old(out)@ + all_low_steps(),
    {
        out.push(Step::Drive(Pin::Gclk, false));
        out.push(Step::Drive(Pin::Dclk, false));
        out.push(Step::Drive(Pin::Le, false));
        out.push(Step::Drive(Pin::A0, false));
        out.push(Step::Drive(Pin::A1, false));
        out.push(Step::Drive(Pin::A2, false));
        out.push(Step::Drive(Pin::A3, false));
        out.push(Step::Drive(Pin::Dr1, false));
        out.push(Step::Drive(Pin::Dg1, false));
        out.push(Step::Drive(Pin::Db1, false));
        out.push(Step::Drive(Pin::Dr2, false));
        out.push(Step::Drive(Pin::Dg2, false));
        out.push(Step::Drive(Pin::Db2, false));
        assert(out@ =~= old(out)@ + all_low_steps());
    }

    /// Zeroes every cell of the frame buffer.
    pub fn clear(&mut self)
        requires
            old(self).wf(),
        ensures
            final(self).wf(),
            final(self).pixels() == blank(),
            final(self).glyphs() == old(self).glyphs(),
            final(self).timing() == old(self).timing(),
            final(self).is_initialized() == old(self).is_initialized(),
            final(self).scanline() == old(self).scanline(),
    {
        self.frame_buffer.clear();
    }

    /// The cell at (x, y), or `None` off the panel.
    pub fn get_pixel(&self, x: usize, y: usize) -> (r: Option<Pixel>)
        requires
            self.wf(),
        ensures
            r == (if crate::framebuffer::in_bounds(x as int, y as int) {
                Some(self.pixels()[crate::framebuffer::index_of(x as int, y as int)])
            } else {
                None
            }),
    {
        self.frame_buffer.get_pixel(x, y)
    }

    /// Sets the cell at (x, y) to (r, g, b); off the panel nothing changes.
    pub fn set_pixel(&mut self, x: usize, y: usize, r: u16, g: u16, b: u16)
        requires
            old(self).wf(),
        ensures
            final(self).wf(),
            final(self).pixels() == with_pixel(old(self).pixels(), x as int, y as int, Pixel { r, g, b }),
            final(self).glyphs() == old(self).glyphs(),
            final(self).timing() == old(self).timing(),
            final(self).is_initialized() == old(self).is_initialized(),
            final(self).scanline() == old(self).scanline(),
    {
        self.frame_buffer.set_pixel(x, y, Pixel { r, g, b });
    }

    /// Fills the rectangle from (x1, y1) to (x2, y2), both corners included,
    /// clipped to the panel.
    pub fn fill_rect(&mut self, x1: usize, y1: usize, x2: usize, y2: usize, r: u16, g: u16, b: u16)
        requires
            old(self).wf(),
        ensures
            final(self).wf(),
            final(self).pixels() == paint(
                old(self).pixels(),
                |a: int, c: int| x1 <= a <= x2 && y1 <= c <= y2,
                Pixel { r, g, b },
            ),
            final(self).glyphs() == old(self).glyphs(),
            final(self).timing() == old(self).timing(),
            final(self).is_initialized() == old(self).is_initialized(),
            final(self).scanline() == old(self).scanline(),
    {
        self.frame_buffer.fill_rect(x1, y1, x2, y2, Pixel { r, g, b });
    }

    /// Replaces the buffer with `text` in white, left-aligned and vertically
    /// centred; characters past the line's capacity are cut off.
    pub fn display_text(&mut self, text: &str)
        requires
            old(self).wf(),
        ensures
            final(self).wf(),
            final(self).pixels() == rendered(old(self).glyphs(), text@),
            text@.len() == 0 ==> final(self).pixels() == blank(),
            final(self).glyphs() == old(self).glyphs(),
            final(self).timing() == old(self).timing(),
            final(self).is_initialized() == old(self).is_initialized(),
            final(self).scanline() == old(self).scanline(),
    {
        render_text(&mut self.frame_buffer, &self.font, text);
        proof {
            if text@.len() == 0 {
                assert(rendered(self.font, text@) =~= blank());
            }
        }
    }

    /// Emits one frame of the buffer; does nothing before initialization.
    pub fn refresh(&mut self, out: &mut Vec<Step>)
        requires
            old(self).wf(),
        ensures
            final(self).wf(),
            old(self).is_initialized() ==> final(out)@ == old(out)@ + frame_steps(
                old(self).pixels(),
                old(self).timing(),
            ),
            old(self).is_initialized() ==> final(self).scanline() == (old(self).scanline() + 1)
                % SCANLINES as nat,
            !old(self).is_initialized() ==> final(out)@ == old(out)@ && final(self).scanline()
                == old(self).scanline(),
            final(self).pixels() == old(self).pixels(),
            final(self).glyphs() == old(self).glyphs(),
            final(self).timing() == old(self).timing(),
            final(self).is_initialized() == old(self).is_initialized(),
    {
        if !self.initialized {
            return;
        }
        send_frame(&self.frame_buffer, &self.timing, out);
        self.current_scanline = (self.current_scanline + 1) % SCANLINES;
    }

    /// Shuts the panel down: clears the buffer and drives every line low.
    pub fn shutdown(&mut self, out: &mut Vec<Step>)
        requires
            old(self).wf(),
        ensures
            final(self).wf(),
            final(self).pixels() == blank(),
            final(out)@ == old(out)@ + all_low_steps(),
            final(self).glyphs() == old(self).glyphs(),
            final(self).timing() == old(self).timing(),
            final(self).is_initialized() == old(self).is_initialized(),
            final(self).scanline() == old(self).scanline(),
    {
        self.clear();
        self.set_all_pins_low(out);
    }
}

} // verus!
