//! The panel's wire protocol: every operation is a sequence of line changes and
//! waits, emitted into a step buffer that the caller plays on the real lines.
use vstd::prelude::*;

use crate::framebuffer::{in_bounds, index_of, FrameBuffer, Pixel};

verus! {

/// Scanlines the panel multiplexes.
pub const SCANLINES: usize = 11;

/// Driver ICs in each of the two colour chains.
pub const ICS_PER_CHAIN: usize = 22;

/// LEDs driven by one IC.
pub const LEDS_PER_IC: usize = 16;

/// PWM bit-planes per channel value.
pub const PWM_BITS: usize = 16;

/// Data clock pulses that load one scanline.
pub const SLOTS_PER_SCANLINE: usize = ICS_PER_CHAIN * PWM_BITS * LEDS_PER_IC;

/// Physical rows between consecutive scanline indices.
pub const ROWS_PER_SCANLINE: usize = 8;

/// First row of the panel half that the second chain drives.
pub const SECOND_CHAIN_ROW: usize = 44;

/// The panel's output lines.
#[derive(Clone, Copy, PartialEq, Eq, Structural, Debug)]
pub enum Pin {
    Gclk,
    Dclk,
    Le,
    A0,
    A1,
    A2,
    A3,
    Dr1,
    Dg1,
    Db1,
    Dr2,
    Dg2,
    Db2,
}

/// One action on the lines: drive a line high (`true`) or low, or hold for a
/// number of microseconds.
#[derive(Clone, Copy, PartialEq, Eq, Structural, Debug)]
pub enum Step {
    Drive(Pin, bool),
    Wait(u32),
}

/// Commands, sent as a number of data clock pulses while the latch line is high.
#[derive(Clone, Copy, PartialEq, Eq, Structural, Debug)]
pub enum Command {
    DataLatch,
    Vsync,
    WriteConfig,
    Reset,
    PreActive,
}

impl Command {
    /// The number of pulses that encodes the command.
    pub open spec fn spec_pulses(self) -> nat {
        match self {
            Command::DataLatch => 1,
            Command::Vsync => 2,
            Command::WriteConfig => 4,
            Command::Reset => 10,
            Command::PreActive => 14,
        }
    }

    pub fn pulses(&self) -> (r: u8)
        ensures
            r == self.spec_pulses(),
    {
        match self {
            Command::DataLatch => 1,
            Command::Vsync => 2,
            Command::WriteConfig => 4,
            Command::Reset => 10,
            Command::PreActive => 14,
        }
    }
}

/// Hold times of the waveform, in microseconds.
#[derive(Clone, Copy, PartialEq, Eq, Structural, Debug)]
pub struct Timing {
    /// Each half of a data clock pulse.
    pub dclk_hold_us: u32,
    /// Each half of a multiplex clock pulse.
    pub gclk_hold_us: u32,
    /// Each half of the dead-time pulse that ends a scanline.
    pub dead_time_us: u32,
}

impl Timing {
    /// Conservative hold times for the panel.
    pub fn standard() -> (r: Timing)
        ensures
            r.dclk_hold_us == 1,
            r.gclk_hold_us == 0,
            r.dead_time_us == 1000,
    {
        Timing { dclk_hold_us: 1, gclk_hold_us: 0, dead_time_us: 1000 }
    }
}

/// How many times `x` occurs in `s`.
pub open spec fn count(s: Seq<Step>, x: Step) -> nat
    decreases s.len(),
{
    if s.len() == 0 {
        0
    } else {
        count(s.drop_last(), x) + if s.last() == x {
            1nat
        } else {
            0nat
        }
    }
}

/// Whether step `x` drives line `pin`.
pub open spec fn drives(x: Step, pin: Pin) -> bool {
    match x {
        Step::Drive(p, _) => p == pin,
        Step::Wait(_) => false,
    }
}

/// `n` copies of `s`, one after another.
pub open spec fn repeat(s: Seq<Step>, n: nat) -> Seq<Step>
    decreases n,
{
    if n == 0 {
        Seq::empty()
    } else {
        repeat(s, (n - 1) as nat) + s
    }
}

/// One clock pulse on `pin`: high, hold, low, hold.
pub open spec fn pulse(pin: Pin, hold: u32) -> Seq<Step> {
    seq![Step::Drive(pin, true), Step::Wait(hold), Step::Drive(pin, false), Step::Wait(hold)]
}

/// The waveform of command `c`: latch high, its pulses on the data clock, latch low.
pub open spec fn command_steps(c: Command, t: Timing) -> Seq<Step> {
    seq![Step::Drive(Pin::Le, true)] + repeat(pulse(Pin::Dclk, t.dclk_hold_us), c.spec_pulses())
        + seq![Step::Drive(Pin::Le, false)]
}

/// Bit `i` of `v`.
pub open spec fn config_bit(v: u16, i: nat) -> bool {
    (v >> (i as u16)) & 1u16 == 1u16
}

/// The first `n` bits of `v`, most significant first, each put on the red line
/// of the first chain and clocked in.
pub open spec fn config_bits(v: u16, n: nat, t: Timing) -> Seq<Step>
    decreases n,
{
    if n == 0 {
        Seq::empty()
    } else {
        config_bits(v, (n - 1) as nat, t) + seq![
            Step::Drive(Pin::Dr1, config_bit(v, (16 - n) as nat)),
        ] + pulse(Pin::Dclk, t.dclk_hold_us)
    }
}

/// The waveform that writes `v` to the configuration register.
pub open spec fn config_steps(v: u16, t: Timing) -> Seq<Step> {
    command_steps(Command::WriteConfig, t) + config_bits(v, 16, t) + command_steps(
        Command::DataLatch,
        t,
    )
}

/// The four address lines set to the binary encoding of scanline `s`.
pub open spec fn address_steps(s: nat) -> Seq<Step> {
    seq![
        Step::Drive(Pin::A0, s % 2 == 1),
        Step::Drive(Pin::A1, (s / 2) % 2 == 1),
        Step::Drive(Pin::A2, (s / 4) % 2 == 1),
        Step::Drive(Pin::A3, (s / 8) % 2 == 1),
    ]
}

/// Bit `bit` of channel `c` of cell (x, y); cells off the panel shift zeros.
pub open spec fn data_bit(v: Seq<Pixel>, x: int, y: int, c: int, bit: int) -> bool {
    in_bounds(x, y) && (v[index_of(x, y)].channel(c) >> (bit as u16)) & 1u16 == 1u16
}

/// Panel column loaded by data slot `k` of a scanline.
pub open spec fn slot_column(k: int) -> int {
    (k / 256) * LEDS_PER_IC as int + k % 16
}

/// Bit-plane loaded by data slot `k`: IC by IC, most significant plane first,
/// LED by LED within a plane.
pub open spec fn slot_bit(k: int) -> int {
    15 - (k / 16) % 16
}

/// The six data lines for slot `k` of scanline `s`.
pub open spec fn slot_data(v: Seq<Pixel>, s: int, k: int) -> Seq<Step> {
    let x = slot_column(k);
    let bit = slot_bit(k);
    let y1 = s * ROWS_PER_SCANLINE as int;
    let y2 = y1 + SECOND_CHAIN_ROW as int;
    seq![
        Step::Drive(Pin::Dr1, data_bit(v, x, y1, 0, bit)),
        Step::Drive(Pin::Dg1, data_bit(v, x, y1, 1, bit)),
        Step::Drive(Pin::Db1, data_bit(v, x, y1, 2, bit)),
        Step::Drive(Pin::Dr2, data_bit(v, x, y2, 0, bit)),
        Step::Drive(Pin::Dg2, data_bit(v, x, y2, 1, bit)),
        Step::Drive(Pin::Db2, data_bit(v, x, y2, 2, bit)),
    ]
}

/// Slot `k`: its data, then one data clock pulse; the last slot of the scanline
/// raises the latch around its pulse.
pub open spec fn slot_steps(v: Seq<Pixel>, s: int, k: int, t: Timing) -> Seq<Step> {
    if k == SLOTS_PER_SCANLINE - 1 {
        slot_data(v, s, k) + seq![Step::Drive(Pin::Le, true)] + pulse(Pin::Dclk, t.dclk_hold_us)
            + seq![Step::Drive(Pin::Le, false)]
    } else {
        slot_data(v, s, k) + pulse(Pin::Dclk, t.dclk_hold_us)
    }
}

/// The first `n` slots of scanline `s`.
pub open spec fn scanline_prefix(v: Seq<Pixel>, s: int, n: nat, t: Timing) -> Seq<Step>
    decreases n,
{
    if n == 0 {
        Seq::empty()
    } else {
        scanline_prefix(v, s, (n - 1) as nat, t) + slot_steps(v, s, n - 1, t)
    }
}

/// The waveform that loads scanline `s` of `v` into the shift registers.
pub open spec fn scanline_steps(v: Seq<Pixel>, s: int, t: Timing) -> Seq<Step> {
    scanline_prefix(v, s, SLOTS_PER_SCANLINE as nat, t)
}

// ----- counting lemmas -----

pub proof fn lemma_count_concat(a: Seq<Step>, b: Seq<Step>, x: Step)
    ensures
        count(a + b, x) == count(a, x) + count(b, x),
    decreases b.len(),
{
    if b.len() == 0 {
        assert(a + b =~= a);
    } else {
        lemma_count_concat(a, b.drop_last(), x);
        assert((a + b).drop_last() =~= a + b.drop_last());
    }
}

pub proof fn lemma_count_one(a: Step, x: Step)
    ensures
        count(seq![a], x) == if a == x {
            1nat
        } else {
            0nat
        },
{
    assert(seq![a].drop_last() =~= Seq::<Step>::empty());
    assert(count(Seq::<Step>::empty(), x) == 0);
}

/// A sequence in which `x` does not occur counts zero.
pub proof fn lemma_count_absent(s: Seq<Step>, x: Step)
    requires
        forall|i: int| 0 <= i < s.len() ==> s[i] != x,
    ensures
        count(s, x) == 0,
    decreases s.len(),
{
    if s.len() > 0 {
        lemma_count_absent(s.drop_last(), x);
    }
}

pub proof fn lemma_count_repeat(s: Seq<Step>, n: nat, x: Step)
    ensures
        count(repeat(s, n), x) == n * count(s, x),
    decreases n,
{
    if n == 0 {
        assert(repeat(s, n) =~= Seq::<Step>::empty());
        assert(count(Seq::<Step>::empty(), x) == 0);
    } else {
        let m = (n - 1) as nat;
        let c = count(s, x);
        lemma_count_repeat(s, m, x);
        lemma_count_concat(repeat(s, m), s, x);
        assert(repeat(s, n) == repeat(s, m) + s);
        assert(n * c == m * c + c) by (nonlinear_arith)
            requires
                m == n - 1,
        ;
    }
}

/// No step of `repeat(s, n)` drives a line that no step of `s` drives.
pub proof fn lemma_repeat_avoids(s: Seq<Step>, n: nat, pin: Pin)
    requires
        forall|i: int| 0 <= i < s.len() ==> !drives(s[i], pin),
    ensures
        forall|i: int| 0 <= i < repeat(s, n).len() ==> !drives(#[trigger] repeat(s, n)[i], pin),
        repeat(s, n).len() == n * s.len(),
    decreases n,
{
    if n > 0 {
        lemma_repeat_avoids(s, (n - 1) as nat, pin);
        assert(n * s.len() == (n - 1) * s.len() + s.len()) by (nonlinear_arith);
    }
}

pub proof fn lemma_pulse_count(pin: Pin, hold: u32, x: Step)
    ensures
        count(pulse(pin, hold), x) == if x == Step::Drive(pin, true) {
            1nat
        } else if x == Step::Drive(pin, false) {
            1nat
        } else if x == Step::Wait(hold) {
            2nat
        } else {
            0nat
        },
{
    let p = pulse(pin, hold);
    assert(p =~= seq![Step::Drive(pin, true)] + seq![Step::Wait(hold)] + seq![Step::Drive(pin, false)]
        + seq![Step::Wait(hold)]);
    lemma_count_one(Step::Drive(pin, true), x);
    lemma_count_one(Step::Wait(hold), x);
    lemma_count_one(Step::Drive(pin, false), x);
    lemma_count_concat(seq![Step::Drive(pin, true)], seq![Step::Wait(hold)], x);
    lemma_count_concat(
        seq![Step::Drive(pin, true)] + seq![Step::Wait(hold)],
        seq![Step::Drive(pin, false)],
        x,
    );
    lemma_count_concat(
        seq![Step::Drive(pin, true)] + seq![Step::Wait(hold)] + seq![Step::Drive(pin, false)],
        seq![Step::Wait(hold)],
        x,
    );
}

/// A command is framed by the latch: the latch goes high first and low last,
/// nothing in between touches it, and in between the data clock pulses exactly
/// as many times as the command's code (10 for a reset, 2 for a buffer swap, 1
/// for a data latch).
pub proof fn lemma_command_waveform(c: Command, t: Timing)
    ensures
        count(command_steps(c, t), Step::Drive(Pin::Dclk, true)) == c.spec_pulses(),
        command_steps(c, t)[0] == Step::Drive(Pin::Le, true),
        command_steps(c, t).last() == Step::Drive(Pin::Le, false),
        forall|i: int|
            0 < i < command_steps(c, t).len() - 1 ==> !drives(#[trigger] command_steps(c, t)[i], Pin::Le),
        c == Command::Reset ==> count(command_steps(c, t), Step::Drive(Pin::Dclk, true)) == 10,
        c == Command::Vsync ==> count(command_steps(c, t), Step::Drive(Pin::Dclk, true)) == 2,
        c == Command::DataLatch ==> count(command_steps(c, t), Step::Drive(Pin::Dclk, true)) == 1,
{
    let x = Step::Drive(Pin::Dclk, true);
    let p = pulse(Pin::Dclk, t.dclk_hold_us);
    let body = repeat(p, c.spec_pulses());
    lemma_count_one(Step::Drive(Pin::Le, true), x);
    lemma_count_one(Step::Drive(Pin::Le, false), x);
    lemma_pulse_count(Pin::Dclk, t.dclk_hold_us, x);
    lemma_count_repeat(p, c.spec_pulses(), x);
    lemma_count_concat(seq![Step::Drive(Pin::Le, true)], body, x);
    lemma_count_concat(seq![Step::Drive(Pin::Le, true)] + body, seq![Step::Drive(Pin::Le, false)], x);
    assert(forall|i: int| 0 <= i < p.len() ==> !drives(p[i], Pin::Le));
    lemma_repeat_avoids(p, c.spec_pulses(), Pin::Le);
    let s = command_steps(c, t);
    assert forall|i: int| 0 < i < s.len() - 1 implies !drives(#[trigger] s[i], Pin::Le) by {
        assert(s[i] == body[i - 1]);
    }
}

/// The configuration bits are the register value in binary: the `k`-th bit
/// clocked in is bit `15 - k` of `v`, i.e. they go most significant first.
pub proof fn lemma_config_bit_is_binary(v: u16, j: nat)
    requires
        j < 16,
    ensures
        config_bit(v, j) <==> (v as nat / vstd::arithmetic::power2::pow2(j)) % 2 == 1,
{
    vstd::bits::lemma_u16_shr_is_div(v, j as u16);
    let y: u16 = v >> (j as u16);
    assert((y & 1u16 == 1u16) <==> (y % 2 == 1)) by (bit_vector);
}

/// The bits of `v` clocked in by `config_bits(v, n, t)`: one data-line step and
/// one pulse per bit.
proof fn lemma_config_bits_shape(v: u16, n: nat, t: Timing)
    requires
        n <= 16,
    ensures
        config_bits(v, n, t).len() == 5 * n,
        count(config_bits(v, n, t), Step::Drive(Pin::Dclk, true)) == n,
        forall|k: int|
            0 <= k < n ==> #[trigger] config_bits(v, n, t).subrange(5 * k, 5 * k + 5) == seq![
                Step::Drive(Pin::Dr1, config_bit(v, (15 - k) as nat)),
            ] + pulse(Pin::Dclk, t.dclk_hold_us),
    decreases n,
{
    let x = Step::Drive(Pin::Dclk, true);
    if n == 0 {
        assert(count(Seq::<Step>::empty(), x) == 0);
    } else {
        let m = (n - 1) as nat;
        lemma_config_bits_shape(v, m, t);
        let prev = config_bits(v, m, t);
        let chunk = seq![Step::Drive(Pin::Dr1, config_bit(v, (16 - n) as nat))] + pulse(
            Pin::Dclk,
            t.dclk_hold_us,
        );
        assert(config_bits(v, n, t) =~= prev + chunk);
        lemma_count_one(Step::Drive(Pin::Dr1, config_bit(v, (16 - n) as nat)), x);
        lemma_pulse_count(Pin::Dclk, t.dclk_hold_us, x);
        lemma_count_concat(
            seq![Step::Drive(Pin::Dr1, config_bit(v, (16 - n) as nat))],
            pulse(Pin::Dclk, t.dclk_hold_us),
            x,
        );
        lemma_count_concat(prev, chunk, x);
        assert forall|k: int| 0 <= k < n implies #[trigger] config_bits(v, n, t).subrange(
            5 * k,
            5 * k + 5,
        ) == seq![Step::Drive(Pin::Dr1, config_bit(v, (15 - k) as nat))] + pulse(
            Pin::Dclk,
            t.dclk_hold_us,
        ) by {
            if k < m {
                assert(config_bits(v, n, t).subrange(5 * k, 5 * k + 5) =~= prev.subrange(
                    5 * k,
                    5 * k + 5,
                ));
            } else {
                assert(config_bits(v, n, t).subrange(5 * k, 5 * k + 5) =~= chunk);
            }
        }
    }
}

/// Writing the configuration register: the write command, then exactly 16
/// bits, the `k`-th of them bit `15 - k` of `v`, each followed by one data
/// clock pulse, then a data latch.
pub proof fn lemma_config_waveform(v: u16, t: Timing)
    ensures
        config_steps(v, t) == command_steps(Command::WriteConfig, t) + config_bits(v, 16, t)
            + command_steps(Command::DataLatch, t),
        count(config_bits(v, 16, t), Step::Drive(Pin::Dclk, true)) == 16,
        config_bits(v, 16, t).len() == 80,
        forall|k: int|
            0 <= k < 16 ==> #[trigger] config_bits(v, 16, t).subrange(5 * k, 5 * k + 5) == seq![
                Step::Drive(Pin::Dr1, (v as nat / vstd::arithmetic::power2::pow2((15 - k) as nat)) % 2 == 1),
            ] + pulse(Pin::Dclk, t.dclk_hold_us),
{
    lemma_config_bits_shape(v, 16, t);
    assert forall|k: int| 0 <= k < 16 implies #[trigger] config_bits(v, 16, t).subrange(
        5 * k,
        5 * k + 5,
    ) == seq![
        Step::Drive(Pin::Dr1, (v as nat / vstd::arithmetic::power2::pow2((15 - k) as nat)) % 2 == 1),
    ] + pulse(Pin::Dclk, t.dclk_hold_us) by {
        lemma_config_bit_is_binary(v, (15 - k) as nat);
    }
}

proof fn lemma_slot_counts(v: Seq<Pixel>, s: int, k: int, t: Timing)
    ensures
        count(slot_steps(v, s, k, t), Step::Drive(Pin::Dclk, true)) == 1,
        count(slot_steps(v, s, k, t), Step::Drive(Pin::Gclk, true)) == 0,
        count(slot_steps(v, s, k, t), Step::Drive(Pin::Le, true)) == if k == SLOTS_PER_SCANLINE
            - 1 {
            1nat
        } else {
            0nat
        },
{
    let d = slot_data(v, s, k);
    let p = pulse(Pin::Dclk, t.dclk_hold_us);
    let hi = seq![Step::Drive(Pin::Le, true)];
    let lo = seq![Step::Drive(Pin::Le, false)];
    let xs = seq![
        Step::Drive(Pin::Dclk, true),
        Step::Drive(Pin::Gclk, true),
        Step::Drive(Pin::Le, true),
    ];
    assert forall|j: int| 0 <= j < 3 implies count(slot_steps(v, s, k, t), #[trigger] xs[j]) == (
    if j == 0 {
        1nat
    } else if j == 2 && k == SLOTS_PER_SCANLINE - 1 {
        1nat
    } else {
        0nat
    }) by {
        let x = xs[j];
        assert(forall|i: int| 0 <= i < d.len() ==> d[i] != x);
        lemma_count_absent(d, x);
        lemma_pulse_count(Pin::Dclk, t.dclk_hold_us, x);
        lemma_count_one(Step::Drive(Pin::Le, true), x);
        lemma_count_one(Step::Drive(Pin::Le, false), x);
        if k == SLOTS_PER_SCANLINE - 1 {
            lemma_count_concat(d, hi, x);
            lemma_count_concat(d + hi, p, x);
            lemma_count_concat(d + hi + p, lo, x);
        } else {
            lemma_count_concat(d, p, x);
        }
    }
    assert(xs[0] == Step::Drive(Pin::Dclk, true));
    assert(xs[1] == Step::Drive(Pin::Gclk, true));
    assert(xs[2] == Step::Drive(Pin::Le, true));
}

proof fn lemma_scanline_prefix_counts(v: Seq<Pixel>, s: int, n: nat, t: Timing)
    requires
        n <= SLOTS_PER_SCANLINE,
    ensures
        count(scanline_prefix(v, s, n, t), Step::Drive(Pin::Dclk, true)) == n,
        count(scanline_prefix(v, s, n, t), Step::Drive(Pin::Gclk, true)) == 0,
        count(scanline_prefix(v, s, n, t), Step::Drive(Pin::Le, true)) == if n
            == SLOTS_PER_SCANLINE {
            1nat
        } else {
            0nat
        },
    decreases n,
{
    if n == 0 {
        assert(count(Seq::<Step>::empty(), Step::Drive(Pin::Dclk, true)) == 0);
        assert(count(Seq::<Step>::empty(), Step::Drive(Pin::Gclk, true)) == 0);
        assert(count(Seq::<Step>::empty(), Step::Drive(Pin::Le, true)) == 0);
    } else {
        let m = (n - 1) as nat;
        lemma_scanline_prefix_counts(v, s, m, t);
        lemma_slot_counts(v, s, m as int, t);
        let a = scanline_prefix(v, s, m, t);
        let b = slot_steps(v, s, m as int, t);
        lemma_count_concat(a, b, Step::Drive(Pin::Dclk, true));
        lemma_count_concat(a, b, Step::Drive(Pin::Gclk, true));
        lemma_count_concat(a, b, Step::Drive(Pin::Le, true));
    }
}

/// Loading a scanline clocks exactly 5632 bits (22 ICs x 16 bit-planes x 16
/// LEDs), never touches the multiplex clock, and raises the latch exactly once:
/// around the final data clock pulse, which ends the waveform.
pub proof fn lemma_scanline_waveform(v: Seq<Pixel>, s: int, t: Timing)
    ensures
        count(scanline_steps(v, s, t), Step::Drive(Pin::Dclk, true)) == 5632,
        count(scanline_steps(v, s, t), Step::Drive(Pin::Gclk, true)) == 0,
        count(scanline_steps(v, s, t), Step::Drive(Pin::Le, true)) == 1,
        scanline_steps(v, s, t).len() >= 6,
        scanline_steps(v, s, t).subrange(
            scanline_steps(v, s, t).len() - 6,
            scanline_steps(v, s, t).len() as int,
        ) == seq![Step::Drive(Pin::Le, true)] + pulse(Pin::Dclk, t.dclk_hold_us) + seq![
            Step::Drive(Pin::Le, false),
        ],
{
    lemma_scanline_prefix_counts(v, s, SLOTS_PER_SCANLINE as nat, t);
    let last = (SLOTS_PER_SCANLINE - 1) as int;
    let a = scanline_prefix(v, s, last as nat, t);
    let b = slot_steps(v, s, last, t);
    let tail = seq![Step::Drive(Pin::Le, true)] + pulse(Pin::Dclk, t.dclk_hold_us) + seq![
        Step::Drive(Pin::Le, false),
    ];
    assert(b =~= slot_data(v, s, last) + tail);
    let full = scanline_steps(v, s, t);
    assert(full == a + b);
    assert(full.subrange(full.len() - 6, full.len() as int) =~= tail);
}

// ----- emitters -----

/// Appends one pulse on `pin`.
pub fn push_pulse(out: &mut Vec<Step>, pin: Pin, hold: u32)
    ensures
        final(out)@ == old(out)@ + pulse(pin, hold),
{
    out.push(Step::Drive(pin, true));
    out.push(Step::Wait(hold));
    out.push(Step::Drive(pin, false));
    out.push(Step::Wait(hold));
    assert(out@ =~= old(out)@ + pulse(pin, hold));
}

/// Appends `n` pulses on `pin`.
pub fn push_pulses(out: &mut Vec<Step>, pin: Pin, hold: u32, n: u32)
    ensures
        final(out)@ == old(out)@ + repeat(pulse(pin, hold), n as nat),
{
    let ghost start = out@;
    let mut i: u32 = 0;
    assert(start =~= start + repeat(pulse(pin, hold), 0));
    while i < n
        invariant
            i <= n,
            out@ == start + repeat(pulse(pin, hold), i as nat),
        decreases n - i,
    {
        push_pulse(out, pin, hold);
        assert(repeat(pulse(pin, hold), (i + 1) as nat) == repeat(pulse(pin, hold), i as nat)
            + pulse(pin, hold));
        assert(out@ =~= start + repeat(pulse(pin, hold), (i + 1) as nat));
        i += 1;
    }
}

/// Sends command `c`: latch high, its pulse count on the data clock, latch low.
pub fn send_command(c: Command, t: &Timing, out: &mut Vec<Step>)
    ensures
        final(out)@ == old(out)@ + command_steps(c, *t),
{
    out.push(Step::Drive(Pin::Le, true));
    push_pulses(out, Pin::Dclk, t.dclk_hold_us, c.pulses() as u32);
    out.push(Step::Drive(Pin::Le, false));
    assert(out@ =~= old(out)@ + command_steps(c, *t));
}

/// Writes `config` to the configuration register: the write command, the 16
/// bits most significant first on the red line of the first chain, then a
/// data latch.
pub fn send_config(config: u16, t: &Timing, out: &mut Vec<Step>)
    ensures
        final(out)@ == old(out)@ + config_steps(config, *t),
{
    send_command(Command::WriteConfig, t, out);
    let ghost mid = out@;
    let mut n: u16 = 0;
    assert(mid =~= mid + config_bits(config, 0, *t));
    while n < 16
        invariant
            n <= 16,
            out@ == mid + config_bits(config, n as nat, *t),
        decreases 16 - n,
    {
        let bit: u16 = 15 - n;
        out.push(Step::Drive(Pin::Dr1, (config >> bit) & 1 == 1));
        push_pulse(out, Pin::Dclk, t.dclk_hold_us);
        assert(out@ =~= mid + config_bits(config, (n + 1) as nat, *t));
        n += 1;
    }
    send_command(Command::DataLatch, t, out);
    assert(out@ =~= old(out)@ + config_steps(config, *t));
}

/// Drives the four address lines with the binary encoding of `scanline`,
/// least significant bit on A0.
pub fn set_scanline(scanline: usize, out: &mut Vec<Step>)
    ensures
        final(out)@ == old(out)@ + address_steps(scanline as nat),
{
    out.push(Step::Drive(Pin::A0, scanline % 2 == 1));
    out.push(Step::Drive(Pin::A1, (scanline / 2) % 2 == 1));
    out.push(Step::Drive(Pin::A2, (scanline / 4) % 2 == 1));
    out.push(Step::Drive(Pin::A3, (scanline / 8) % 2 == 1));
    assert(out@ =~= old(out)@ + address_steps(scanline as nat));
}

/// Bit `bit` of channel `c` of cell (x, y), zero off the panel.
fn channel_bit(fb: &FrameBuffer, x: usize, y: usize, c: usize, bit: usize) -> (r: bool)
    requires
        fb.wf(),
        bit < 16,
    ensures
        r == data_bit(fb@, x as int, y as int, c as int, bit as int),
{
    match fb.get_pixel(x, y) {
        Some(p) => {
            let v: u16 = if c == 0 {
                p.r
            } else if c == 1 {
                p.g
            } else {
                p.b
            };
            (v >> (bit as u16)) & 1 == 1
        },
        None => false,
    }
}

/// Appends slot `k` of scanline `scanline`.
fn push_slot(fb: &FrameBuffer, scanline: usize, k: usize, t: &Timing, out: &mut Vec<Step>)
    requires
        fb.wf(),
        scanline < SCANLINES,
        k < SLOTS_PER_SCANLINE,
    ensures
        final(out)@ == old(out)@ + slot_steps(fb@, scanline as int, k as int, *t),
{
    let row1: usize = scanline * ROWS_PER_SCANLINE;
    let row2: usize = row1 + SECOND_CHAIN_ROW;
    let col: usize = (k / 256) * LEDS_PER_IC + k % 16;
    let bit: usize = 15 - (k / 16) % 16;
    let r1 = channel_bit(fb, col, row1, 0, bit);
    let g1 = channel_bit(fb, col, row1, 1, bit);
    let b1 = channel_bit(fb, col, row1, 2, bit);
    let r2 = channel_bit(fb, col, row2, 0, bit);
    let g2 = channel_bit(fb, col, row2, 1, bit);
    let b2 = channel_bit(fb, col, row2, 2, bit);
    out.push(Step::Drive(Pin::Dr1, r1));
    out.push(Step::Drive(Pin::Dg1, g1));
    out.push(Step::Drive(Pin::Db1, b1));
    out.push(Step::Drive(Pin::Dr2, r2));
    out.push(Step::Drive(Pin::Dg2, g2));
    out.push(Step::Drive(Pin::Db2, b2));
    assert(out@ =~= old(out)@ + slot_data(fb@, scanline as int, k as int));
    if k == SLOTS_PER_SCANLINE - 1 {
        out.push(Step::Drive(Pin::Le, true));
        push_pulse(out, Pin::Dclk, t.dclk_hold_us);
        out.push(Step::Drive(Pin::Le, false));
    } else {
        push_pulse(out, Pin::Dclk, t.dclk_hold_us);
    }
    assert(out@ =~= old(out)@ + slot_steps(fb@, scanline as int, k as int, *t));
}

/// Loads scanline `scanline` of `fb` into the shift registers: for every IC,
/// every bit-plane from the most significant, every LED, the six data lines
/// and one data clock pulse; the latch is high around the very last pulse only.
pub fn send_scanline_data(fb: &FrameBuffer, scanline: usize, t: &Timing, out: &mut Vec<Step>)
    requires
        fb.wf(),
        scanline < SCANLINES,
    ensures
        final(out)@ == old(out)@ + scanline_steps(fb@, scanline as int, *t),
{
    let ghost start = out@;
    let mut k: usize = 0;
    assert(start =~= start + scanline_prefix(fb@, scanline as int, 0, *t));
    while k < SLOTS_PER_SCANLINE
        invariant
            fb.wf(),
            scanline < SCANLINES,
            k <= SLOTS_PER_SCANLINE,
            out@ == start + scanline_prefix(fb@, scanline as int, k as nat, *t),
        decreases SLOTS_PER_SCANLINE - k,
    {
        push_slot(fb, scanline, k, t, out);
        assert(out@ =~= start + scanline_prefix(fb@, scanline as int, (k + 1) as nat, *t));
        k += 1;
    }
}

} // verus!
