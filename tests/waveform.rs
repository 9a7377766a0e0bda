use led_matrix::framebuffer::{FrameBuffer, Pixel};
use led_matrix::protocol::{send_command, send_config, send_scanline_data, set_scanline};
use led_matrix::{Command, LedMatrix, Pin, Step, Timing};

const LINES: usize = 13;

fn rises(steps: &[Step], pin: Pin) -> usize {
    steps.iter().filter(|s| **s == Step::Drive(pin, true)).count()
}

/// The levels of every line at each rising edge of `clock`.
fn edges(steps: &[Step], clock: Pin) -> Vec<[bool; LINES]> {
    let mut levels = [false; LINES];
    let mut seen = Vec::new();
    for s in steps {
        if let Step::Drive(pin, high) = *s {
            let rising = pin == clock && high && !levels[pin as usize];
            levels[pin as usize] = high;
            if rising {
                seen.push(levels);
            }
        }
    }
    seen
}

/// Number of data clock pulses in each period while the latch is high.
fn latch_windows(steps: &[Step]) -> Vec<usize> {
    let mut windows = Vec::new();
    let mut open: Option<usize> = None;
    for s in steps {
        match *s {
            Step::Drive(Pin::Le, true) => open = Some(0),
            Step::Drive(Pin::Le, false) => {
                if let Some(n) = open.take() {
                    windows.push(n);
                }
            }
            Step::Drive(Pin::Dclk, true) => {
                if let Some(n) = open.as_mut() {
                    *n += 1;
                }
            }
            _ => {}
        }
    }
    windows
}

/// Channel values shifted in by one scanline's data edges: `[chain][channel][column]`.
fn decode_scanline(edges: &[[bool; LINES]]) -> [[[u16; 352]; 3]; 2] {
    assert_eq!(edges.len(), 5632);
    let data = [[Pin::Dr1, Pin::Dg1, Pin::Db1], [Pin::Dr2, Pin::Dg2, Pin::Db2]];
    let mut values = [[[0u16; 352]; 3]; 2];
    for (k, e) in edges.iter().enumerate() {
        let col = (k / 256) * 16 + k % 16;
        let bit = 15 - (k / 16) % 16;
        for chain in 0..2 {
            for c in 0..3 {
                if e[data[chain][c] as usize] {
                    values[chain][c][col] |= 1 << bit;
                }
            }
        }
    }
    values
}

#[test]
fn commands_pulse_their_code_with_latch_high() {
    let t = Timing::standard();
    for (cmd, n) in [
        (Command::Reset, 10),
        (Command::Vsync, 2),
        (Command::DataLatch, 1),
        (Command::WriteConfig, 4),
        (Command::PreActive, 14),
    ] {
        let mut out = Vec::new();
        send_command(cmd, &t, &mut out);
        assert_eq!(rises(&out, Pin::Dclk), n);
        assert_eq!(out[0], Step::Drive(Pin::Le, true));
        assert_eq!(*out.last().unwrap(), Step::Drive(Pin::Le, false));
        assert!(edges(&out, Pin::Dclk).iter().all(|e| e[Pin::Le as usize]));
        assert_eq!(latch_windows(&out), vec![n]);
    }
}

#[test]
fn dclk_pulse_has_its_hold_times() {
    let t = Timing { dclk_hold_us: 3, gclk_hold_us: 0, dead_time_us: 1 };
    let mut out = Vec::new();
    send_command(Command::DataLatch, &t, &mut out);
    assert_eq!(
        out,
        vec![
            Step::Drive(Pin::Le, true),
            Step::Drive(Pin::Dclk, true),
            Step::Wait(3),
            Step::Drive(Pin::Dclk, false),
            Step::Wait(3),
            Step::Drive(Pin::Le, false),
        ]
    );
}

#[test]
fn config_shifts_sixteen_bits_msb_first() {
    let t = Timing::standard();
    let v: u16 = 0b1010_0000_0001_1111;
    let mut out = Vec::new();
    send_config(v, &t, &mut out);
    let e = edges(&out, Pin::Dclk);
    assert_eq!(e.len(), 4 + 16 + 1);
    assert!(e[..4].iter().all(|x| x[Pin::Le as usize]));
    assert!(e[20][Pin::Le as usize]);
    let mut shifted: u16 = 0;
    for x in &e[4..20] {
        assert!(!x[Pin::Le as usize]);
        shifted = (shifted << 1) | x[Pin::Dr1 as usize] as u16;
    }
    assert_eq!(shifted, v);
    assert_eq!(latch_windows(&out), vec![4, 1]);
}

#[test]
fn scanline_address_is_binary() {
    let mut out = Vec::new();
    set_scanline(10, &mut out);
    assert_eq!(
        out,
        vec![
            Step::Drive(Pin::A0, false),
            Step::Drive(Pin::A1, true),
            Step::Drive(Pin::A2, false),
            Step::Drive(Pin::A3, true),
        ]
    );
}

#[test]
fn scanline_data_is_5632_pulses_latched_on_the_last() {
    let t = Timing::standard();
    let mut fb = FrameBuffer::new();
    fb.set_pixel(0, 16, Pixel { r: 0x8001, g: 0x0002, b: 0xFFFF });
    fb.set_pixel(87, 60, Pixel { r: 0x1234, g: 0, b: 0 });
    let mut out = Vec::new();
    send_scanline_data(&fb, 2, &t, &mut out);
    assert_eq!(rises(&out, Pin::Dclk), 5632);
    assert_eq!(rises(&out, Pin::Gclk), 0);
    let e = edges(&out, Pin::Dclk);
    assert!(e[..5631].iter().all(|x| !x[Pin::Le as usize]));
    assert!(e[5631][Pin::Le as usize]);
    assert_eq!(*out.last().unwrap(), Step::Drive(Pin::Le, false));
    let values = decode_scanline(&e);
    assert_eq!(values[0][0][0], 0x8001);
    assert_eq!(values[0][1][0], 0x0002);
    assert_eq!(values[0][2][0], 0xFFFF);
    assert_eq!(values[1][0][87], 0x1234);
    assert!(values[0][0][1..].iter().all(|v| *v == 0));
    assert!(values[1][0][88..].iter().all(|v| *v == 0));
}

#[test]
fn second_chain_past_the_panel_shifts_zeros() {
    let t = Timing::standard();
    let mut fb = FrameBuffer::new();
    for x in 0..88 {
        fb.set_pixel(x, 80, Pixel { r: 0xFFFF, g: 0xFFFF, b: 0xFFFF });
    }
    let mut out = Vec::new();
    send_scanline_data(&fb, 10, &t, &mut out);
    let values = decode_scanline(&edges(&out, Pin::Dclk));
    assert!(values[0][0][..88].iter().all(|v| *v == 0xFFFF));
    assert!(values[1].iter().all(|c| c.iter().all(|v| *v == 0)));
}

#[test]
fn refresh_pulses_gclk_2827_times_with_one_vsync() {
    let mut out = Vec::new();
    let mut m = LedMatrix::new(Timing::standard(), &mut out);
    for fill in [false, true] {
        if fill {
            m.fill_rect(0, 0, 87, 87, 0xFFFF, 0x00FF, 0x0F0F);
        }
        let mut frame = Vec::new();
        m.refresh(&mut frame);
        assert_eq!(rises(&frame, Pin::Gclk), 2827);
        assert_eq!(rises(&frame, Pin::Dclk), 11 * 5632 + 2);
        let windows = latch_windows(&frame);
        assert_eq!(windows.len(), 12);
        assert_eq!(windows.iter().filter(|n| **n == 2).count(), 1);
        assert_eq!(windows.iter().filter(|n| **n == 1).count(), 11);
        assert_eq!(*windows.last().unwrap(), 2);
    }
}

#[test]
fn refresh_before_init_emits_nothing() {
    let mut m = LedMatrix::unconfigured(Timing::standard());
    let mut out = Vec::new();
    m.refresh(&mut out);
    assert!(out.is_empty());
    m.init(&mut out);
    assert!(!out.is_empty());
    let mut frame = Vec::new();
    m.refresh(&mut frame);
    assert_eq!(rises(&frame, Pin::Gclk), 2827);
}

#[test]
fn init_sequence_resets_then_configures() {
    let mut out = Vec::new();
    let _m = LedMatrix::new(Timing::standard(), &mut out);
    assert!(out[..13].iter().all(|s| matches!(s, Step::Drive(_, false))));
    assert_eq!(out[13], Step::Wait(100_000));
    assert_eq!(latch_windows(&out), vec![10, 14, 4, 1]);
    let e = edges(&out, Pin::Dclk);
    let mut shifted: u16 = 0;
    for x in &e[28..44] {
        shifted = (shifted << 1) | x[Pin::Dr1 as usize] as u16;
    }
    assert_eq!(shifted, 0x001F);
}

#[test]
fn shutdown_clears_and_drives_lines_low() {
    let mut out = Vec::new();
    let mut m = LedMatrix::new(Timing::standard(), &mut out);
    m.display_text("X");
    let mut tail = Vec::new();
    m.shutdown(&mut tail);
    assert_eq!(tail.len(), 13);
    assert!(tail.iter().all(|s| matches!(s, Step::Drive(_, false))));
    assert_eq!(m.get_pixel(4, 40), Some(Pixel { r: 0, g: 0, b: 0 }));
}

#[test]
fn hi_appears_in_the_frame_waveform() {
    let mut out = Vec::new();
    let mut m = LedMatrix::new(Timing::standard(), &mut out);
    m.display_text("HI");
    let mut frame = Vec::new();
    m.refresh(&mut frame);
    let e = edges(&frame, Pin::Dclk);
    // Row 40 (top glyph row) is chain 1 of scanline 5; row 44 (glyph row 4) is
    // chain 2 of scanline 0.
    let s5 = decode_scanline(&e[5 * 5632..6 * 5632]);
    let s0 = decode_scanline(&e[0..5632]);
    let lit_40: Vec<usize> = (0..88).filter(|x| s5[0][0][*x] == 0xFFFF).collect();
    let lit_44: Vec<usize> = (0..88).filter(|x| s0[1][0][*x] == 0xFFFF).collect();
    // 'H' at x = 4: top row 10001, row 4 10001; 'I' at x = 4 + 5 + 1: top row 01110, row 4 00100.
    assert_eq!(lit_40, vec![4, 8, 11, 12, 13]);
    assert_eq!(lit_44, vec![4, 8, 12]);
    for chain in 0..2 {
        for c in 0..3 {
            assert!(s5[chain][c].iter().chain(s0[chain][c].iter()).all(|v| *v == 0 || *v == 0xFFFF));
        }
    }
}
