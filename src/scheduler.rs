//! One display frame: load every scanline, then scan them out with the
//! multiplex clock, swapping the panel's buffers on the last one.
use vstd::prelude::*;

use crate::framebuffer::{FrameBuffer, Pixel};
use crate::protocol::{
    address_steps, command_steps, count, lemma_command_waveform, lemma_count_absent,
    lemma_count_concat, lemma_count_one, lemma_count_repeat, lemma_pulse_count,
    lemma_scanline_waveform, pulse, push_pulses, repeat, scanline_steps, send_command,
    send_scanline_data, set_scanline, Command, Pin, Step, Timing, SCANLINES,
};

verus! {

/// Multiplex clock pulses that light one scanline.
pub const GCLK_PER_SCANLINE: u32 = 256;

/// The 257th multiplex clock pulse that ends a scanline, held for the dead time.
pub open spec fn dead_time_steps(t: Timing) -> Seq<Step> {
    seq![
        Step::Wait(t.dead_time_us),
        Step::Drive(Pin::Gclk, true),
        Step::Wait(t.dead_time_us),
        Step::Drive(Pin::Gclk, false),
    ]
}

/// Lighting scanline `s`: address it, clock it 256 times, swap buffers after
/// the last scanline, then the dead-time pulse.
pub open spec fn scan_steps(s: nat, t: Timing) -> Seq<Step> {
    address_steps(s) + repeat(pulse(Pin::Gclk, t.gclk_hold_us), GCLK_PER_SCANLINE as nat) + (if s
        == SCANLINES - 1 {
        command_steps(Command::Vsync, t)
    } else {
        Seq::empty()
    }) + dead_time_steps(t)
}

/// Loading scanlines `0 .. n` of `v`.
pub open spec fn load_prefix(v: Seq<Pixel>, n: nat, t: Timing) -> Seq<Step>
    decreases n,
{
    if n == 0 {
        Seq::empty()
    } else {
        load_prefix(v, (n - 1) as nat, t) + scanline_steps(v, n - 1, t)
    }
}

/// Lighting scanlines `0 .. n`.
pub open spec fn scan_prefix(n: nat, t: Timing) -> Seq<Step>
    decreases n,
{
    if n == 0 {
        Seq::empty()
    } else {
        scan_prefix((n - 1) as nat, t) + scan_steps((n - 1) as nat, t)
    }
}

/// The waveform of one frame of `v`.
pub open spec fn frame_steps(v: Seq<Pixel>, t: Timing) -> Seq<Step> {
    load_prefix(v, SCANLINES as nat, t) + scan_prefix(SCANLINES as nat, t)
}

proof fn lemma_scan_counts(s: nat, t: Timing)
    ensures
        count(scan_steps(s, t), Step::Drive(Pin::Gclk, true)) == 257,
        count(scan_steps(s, t), Step::Drive(Pin::Le, true)) == if s == SCANLINES - 1 {
            1nat
        } else {
            0nat
        },
        count(scan_steps(s, t), Step::Drive(Pin::Dclk, true)) == if s == SCANLINES - 1 {
            2nat
        } else {
            0nat
        },
{
    let a = address_steps(s);
    let g = repeat(pulse(Pin::Gclk, t.gclk_hold_us), GCLK_PER_SCANLINE as nat);
    let c = if s == SCANLINES - 1 {
        command_steps(Command::Vsync, t)
    } else {
        Seq::empty()
    };
    let d = dead_time_steps(t);
    let xs = seq![
        Step::Drive(Pin::Gclk, true),
        Step::Drive(Pin::Le, true),
        Step::Drive(Pin::Dclk, true),
    ];
    lemma_command_waveform(Command::Vsync, t);
    assert forall|j: int| 0 <= j < 3 implies count(scan_steps(s, t), #[trigger] xs[j]) == (if j
        == 0 {
        257nat
    } else if s != SCANLINES - 1 {
        0nat
    } else if j == 1 {
        1nat
    } else {
        2nat
    }) by {
        let x = xs[j];
        assert(forall|i: int| 0 <= i < a.len() ==> a[i] != x);
        lemma_count_absent(a, x);
        lemma_pulse_count(Pin::Gclk, t.gclk_hold_us, x);
        lemma_count_repeat(pulse(Pin::Gclk, t.gclk_hold_us), GCLK_PER_SCANLINE as nat, x);
        let p = pulse(Pin::Dclk, t.dclk_hold_us);
        let body = repeat(p, 2);
        lemma_pulse_count(Pin::Dclk, t.dclk_hold_us, x);
        lemma_count_repeat(p, 2, x);
        lemma_count_one(Step::Drive(Pin::Le, true), x);
        lemma_count_one(Step::Drive(Pin::Le, false), x);
        lemma_count_concat(seq![Step::Drive(Pin::Le, true)], body, x);
        lemma_count_concat(
            seq![Step::Drive(Pin::Le, true)] + body,
            seq![Step::Drive(Pin::Le, false)],
            x,
        );
        assert(count(Seq::<Step>::empty(), x) == 0);
        let d1 = seq![Step::Wait(t.dead_time_us)];
        let d2 = seq![Step::Drive(Pin::Gclk, true)];
        let d3 = seq![Step::Drive(Pin::Gclk, false)];
        assert(d =~= d1 + d2 + d1 + d3);
        lemma_count_one(Step::Wait(t.dead_time_us), x);
        lemma_count_one(Step::Drive(Pin::Gclk, true), x);
        lemma_count_one(Step::Drive(Pin::Gclk, false), x);
        lemma_count_concat(d1, d2, x);
        lemma_count_concat(d1 + d2, d1, x);
        lemma_count_concat(d1 + d2 + d1, d3, x);
        lemma_count_concat(a, g, x);
        lemma_count_concat(a + g, c, x);
        lemma_count_concat(a + g + c, d, x);
    }
    assert(xs[0] == Step::Drive(Pin::Gclk, true));
    assert(xs[1] == Step::Drive(Pin::Le, true));
    assert(xs[2] == Step::Drive(Pin::Dclk, true));
}

proof fn lemma_scan_prefix_counts(n: nat, t: Timing)
    requires
        n <= SCANLINES,
    ensures
        count(scan_prefix(n, t), Step::Drive(Pin::Gclk, true)) == 257 * n,
        count(scan_prefix(n, t), Step::Drive(Pin::Le, true)) == if n == SCANLINES {
            1nat
        } else {
            0nat
        },
        count(scan_prefix(n, t), Step::Drive(Pin::Dclk, true)) == if n == SCANLINES {
            2nat
        } else {
            0nat
        },
    decreases n,
{
    if n == 0 {
        assert(count(Seq::<Step>::empty(), Step::Drive(Pin::Gclk, true)) == 0);
        assert(count(Seq::<Step>::empty(), Step::Drive(Pin::Le, true)) == 0);
        assert(count(Seq::<Step>::empty(), Step::Drive(Pin::Dclk, true)) == 0);
    } else {
        let m = (n - 1) as nat;
        lemma_scan_prefix_counts(m, t);
        lemma_scan_counts(m, t);
        lemma_count_concat(scan_prefix(m, t), scan_steps(m, t), Step::Drive(Pin::Gclk, true));
        lemma_count_concat(scan_prefix(m, t), scan_steps(m, t), Step::Drive(Pin::Le, true));
        lemma_count_concat(scan_prefix(m, t), scan_steps(m, t), Step::Drive(Pin::Dclk, true));
    }
}

proof fn lemma_load_prefix_counts(v: Seq<Pixel>, n: nat, t: Timing)
    ensures
        count(load_prefix(v, n, t), Step::Drive(Pin::Gclk, true)) == 0,
        count(load_prefix(v, n, t), Step::Drive(Pin::Le, true)) == n,
    decreases n,
{
    if n == 0 {
        assert(count(Seq::<Step>::empty(), Step::Drive(Pin::Gclk, true)) == 0);
        assert(count(Seq::<Step>::empty(), Step::Drive(Pin::Le, true)) == 0);
    } else {
        let m = (n - 1) as nat;
        lemma_load_prefix_counts(v, m, t);
        lemma_scanline_waveform(v, m as int, t);
        lemma_count_concat(load_prefix(v, m, t), scanline_steps(v, m as int, t), Step::Drive(Pin::Gclk, true));
        lemma_count_concat(load_prefix(v, m, t), scanline_steps(v, m as int, t), Step::Drive(Pin::Le, true));
    }
}

/// Whatever the buffer holds, a frame clocks the multiplex clock exactly
/// 11 x (256 + 1) = 2827 times, all of them after the last scanline is loaded;
/// the loading raises the latch once per scanline (its data latch), and the scan
/// sends exactly one command, the buffer swap, on the last scanline.
pub proof fn lemma_frame_waveform(v: Seq<Pixel>, t: Timing)
    ensures
        count(frame_steps(v, t), Step::Drive(Pin::Gclk, true)) == 2827,
        count(load_prefix(v, SCANLINES as nat, t), Step::Drive(Pin::Gclk, true)) == 0,
        count(load_prefix(v, SCANLINES as nat, t), Step::Drive(Pin::Le, true)) == SCANLINES,
        count(scan_prefix(SCANLINES as nat, t), Step::Drive(Pin::Le, true)) == 1,
        count(scan_prefix(SCANLINES as nat, t), Step::Drive(Pin::Dclk, true)) == 2,
        scan_prefix(SCANLINES as nat, t) == scan_prefix((SCANLINES - 1) as nat, t) + address_steps(
            (SCANLINES - 1) as nat,
        ) + repeat(pulse(Pin::Gclk, t.gclk_hold_us), GCLK_PER_SCANLINE as nat) + command_steps(
            Command::Vsync,
            t,
        ) + dead_time_steps(t),
{
    lemma_load_prefix_counts(v, SCANLINES as nat, t);
    lemma_scan_prefix_counts(SCANLINES as nat, t);
    lemma_count_concat(
        load_prefix(v, SCANLINES as nat, t),
        scan_prefix(SCANLINES as nat, t),
        Step::Drive(Pin::Gclk, true),
    );
}

/// Emits `count` multiplex clock pulses.
pub fn pulse_gclk_n(count: u32, t: &Timing, out: &mut Vec<Step>)
    ensures
        final(out)@ == old(out)@ + repeat(pulse(Pin::Gclk, t.gclk_hold_us), count as nat),
{
    push_pulses(out, Pin::Gclk, t.gclk_hold_us, count);
}

/// Lights scanline `scanline`.
fn scan_scanline(scanline: usize, t: &Timing, out: &mut Vec<Step>)
    requires
        scanline < SCANLINES,
    ensures
        final(out)@ == old(out)@ + scan_steps(scanline as nat, *t),
{
    set_scanline(scanline, out);
    pulse_gclk_n(GCLK_PER_SCANLINE, t, out);
    let ghost before_sync = out@;
    if scanline == SCANLINES - 1 {
        send_command(Command::Vsync, t, out);
    } else {
        assert(out@ =~= before_sync + Seq::<Step>::empty());
    }
    out.push(Step::Wait(t.dead_time_us));
    out.push(Step::Drive(Pin::Gclk, true));
    out.push(Step::Wait(t.dead_time_us));
    out.push(Step::Drive(Pin::Gclk, false));
    assert(out@ =~= old(out)@ + scan_steps(scanline as nat, *t));
}

/// Emits one frame of `fb`: first the data of all scanlines, so the whole frame
/// is loaded before any row is lit, then the multiplexed scan of each.
pub fn send_frame(fb: &FrameBuffer, t: &Timing, out: &mut Vec<Step>)
    requires
        fb.wf(),
    ensures
        final(out)@ == old(out)@ + frame_steps(fb@, *t),
{
    let ghost start = out@;
    let mut s: usize = 0;
    assert(start =~= start + load_prefix(fb@, 0, *t));
    while s < SCANLINES
        invariant
            fb.wf(),
            s <= SCANLINES,
            out@ == start + load_prefix(fb@, s as nat, *t),
        decreases SCANLINES - s,
    {
        send_scanline_data(fb, s, t, out);
        assert(out@ =~= start + load_prefix(fb@, (s + 1) as nat, *t));
        s += 1;
    }
    let ghost loaded = out@;
    let mut s: usize = 0;
    assert(loaded =~= loaded + scan_prefix(0, *t));
    while s < SCANLINES
        invariant
            s <= SCANLINES,
            out@ == loaded + scan_prefix(s as nat, *t),
        decreases SCANLINES - s,
    {
        scan_scanline(s, t, out);
        assert(out@ =~= loaded + scan_prefix((s + 1) as nat, *t));
        s += 1;
    }
    assert(out@ =~= start + frame_steps(fb@, *t));
}

} // verus!
