//! The raw noise source: a capacitor on a GPIO pin.
//!
//! Each sample drives the pin low for an exact number of cycles, then lets
//! the pull-up recharge the capacitor while the input is read in bursts of
//! six reads. The burst in which the pin first reads high gives the sample.
//!
//! The embedding program performs the register accesses and the timed
//! instruction sequences; this module decides what they are and turns what
//! they read into samples.
use vstd::prelude::*;

use crate::error::RngError;

verus! {

/// Bit `i` of `v`.
pub open spec fn bit_of(v: u8, i: u8) -> bool {
    (v >> i) & 1 == 1
}

/// Index of the lowest set bit of `v` at or above `i`, or 8 if there is none.
pub open spec fn lowest_set_from(v: u8, i: int) -> int
    decreases 8 - i,
{
    if i >= 8 {
        8
    } else if bit_of(v, i as u8) {
        i
    } else {
        lowest_set_from(v, i + 1)
    }
}

/// Index of the lowest set bit of `v`, or 8 if `v` is 0.
pub open spec fn lowest_set(v: u8) -> int {
    lowest_set_from(v, 0)
}

/// Returns the least significant bit set, or 8 if 0.
///
/// Neither constant time nor efficient: for display and timing purposes only.
pub fn lsb(v: u8) -> (r: u8)
    ensures
        r <= 8,
        r == lowest_set(v),
        r < 8 ==> bit_of(v, r),
        forall|j: u8| j < r ==> !bit_of(v, j),
        r == 8 <==> v == 0,
{
    let mut i: u8 = 0;
    while i < 8
        invariant
            i <= 8,
            forall|j: u8| j < i ==> !bit_of(v, j),
            lowest_set_from(v, i as int) == lowest_set(v),
        decreases 8 - i,
    {
        if v & (1u8 << i) != 0 {
            assert(bit_of(v, i)) by (bit_vector)
                requires
                    i < 8,
                    v & (1u8 << i) != 0,
            ;
            assert(v != 0) by (bit_vector)
                requires
                    v & (1u8 << i) != 0,
            ;
            return i;
        }
        assert(!bit_of(v, i)) by (bit_vector)
            requires
                i < 8,
                v & (1u8 << i) == 0,
        ;
        i = i + 1;
    }
    assert(v == 0) by (bit_vector)
        requires
            !bit_of(v, 0), !bit_of(v, 1), !bit_of(v, 2), !bit_of(v, 3),
            !bit_of(v, 4), !bit_of(v, 5), !bit_of(v, 6), !bit_of(v, 7),
    ;
    8
}

/// Whether the pin read high in `reads`, a word of input levels for the
/// whole bank, where the pin is bit `pin`.
pub open spec fn pin_high(reads: u32, pin: u32) -> bool {
    (reads >> pin) & 1 == 1
}

/// Level of the pin as a number: 1 for high.
pub open spec fn level(reads: u32, pin: u32) -> int {
    if pin_high(reads, pin) {
        1
    } else {
        0
    }
}

/// The sample a burst gives: bit `i` is the pin's level in read `i`, and bit 5
/// stands for the closing read, which saw the pin high.
pub open spec fn burst_spec(reads: [u32; 5], pin: u32) -> int {
    level(reads[0], pin) + 2 * level(reads[1], pin) + 4 * level(reads[2], pin) + 8 * level(
        reads[3],
        pin,
    ) + 16 * level(reads[4], pin) + 32
}

/// The pin's level in one read, as 0 or 1, without a branch.
fn level_of(x: u32, pin: u32) -> (r: u8)
    requires
        pin < 32,
    ensures
        r == level(x, pin),
{
    let b = (x >> pin) & 1;
    assert(b <= 1) by (bit_vector)
        requires
            b == (x >> pin) & 1,
    ;
    b as u8
}

/// Combines the reads of the last burst into a sample, in constant time:
/// whichever read first saw the pin high, the same operations run.
pub fn burst_value(reads: [u32; 5], pin: u32) -> (r: u8)
    requires
        pin < 32,
    ensures
        r as int == burst_spec(reads, pin),
        forall|i: int| 0 <= i < 5 ==> (bit_of(r, i as u8) <==> pin_high(#[trigger] reads[i], pin)),
        bit_of(r, 5),
        r < 0x40,
{
    let b0 = level_of(reads[0], pin);
    let b1 = level_of(reads[1], pin);
    let b2 = level_of(reads[2], pin);
    let b3 = level_of(reads[3], pin);
    let b4 = level_of(reads[4], pin);
    let r = b0 + 2 * b1 + 4 * b2 + 8 * b3 + 16 * b4 + 32;
    assert(((r >> 0u8) & 1 == 1 <==> b0 == 1) && ((r >> 1u8) & 1 == 1 <==> b1 == 1) && ((r >> 2u8) & 1
        == 1 <==> b2 == 1) && ((r >> 3u8) & 1 == 1 <==> b3 == 1) && ((r >> 4u8) & 1 == 1 <==> b4 == 1)
        && (r >> 5u8) & 1 == 1) by (bit_vector)
        requires
            b0 <= 1,
            b1 <= 1,
            b2 <= 1,
            b3 <= 1,
            b4 <= 1,
            r == b0 + 2 * b1 + 4 * b2 + 8 * b3 + 16 * b4 + 32,
    ;
    r
}

/// How the pin is held low for a given number of core cycles.
///
/// The output-enable store that starts the low phase takes one cycle; what
/// runs between it and the store that ends the phase sets its length.
#[derive(Debug, Clone, Copy, PartialEq, Eq, Structural)]
pub enum DelayPlan {
    /// The pin is not driven low at all.
    Skip,
    /// The two stores back to back: one cycle.
    Single,
    /// One `nop` between the stores: two cycles.
    SingleNop,
    /// `lead` single-cycle `subs #1` fillers, then a `subs #3` / `bne` loop
    /// that starts from `count`, a multiple of 3 no smaller than 3.
    Loop { lead: u32, count: u32 },
}

/// Cycles of the `subs #3` / `bne` loop from counter `d`: `subs` takes one
/// cycle, a taken `bne` two, the final untaken one a single cycle.
pub open spec fn loop_cycles(d: int) -> int
    decreases d,
{
    if d <= 3 {
        2
    } else {
        3 + loop_cycles(d - 3)
    }
}

/// Cycles the pin is held low under `plan`, counting the store that starts
/// the low phase and every instruction before the store that ends it.
pub open spec fn forced_low_cycles(plan: DelayPlan) -> int {
    match plan {
        DelayPlan::Skip => 0,
        DelayPlan::Single => 1,
        DelayPlan::SingleNop => 2,
        DelayPlan::Loop { lead, count } => 1 + lead + loop_cycles(count as int),
    }
}

/// A plan the loop form can run: its counter reaches exactly zero.
pub open spec fn plan_runs(plan: DelayPlan) -> bool {
    match plan {
        DelayPlan::Loop { lead, count } => lead <= 2 && count >= 3 && count % 3 == 0,
        _ => true,
    }
}

proof fn lemma_loop_cycles(d: int)
    requires
        d >= 3,
        d % 3 == 0,
    ensures
        loop_cycles(d) == d - 1,
    decreases d,
{
    if d > 3 {
        lemma_loop_cycles(d - 3);
    }
}

/// Chooses the instruction sequence that holds the pin low for exactly
/// `low_cycles` cycles. The `subs`/`bne` loop takes 3 cycles a turn, so the
/// remainder modulo 3 is made up with single-cycle fillers.
pub fn delay_plan(low_cycles: u32) -> (r: DelayPlan)
    ensures
        plan_runs(r),
        forced_low_cycles(r) == low_cycles,
{
    if low_cycles == 0 {
        DelayPlan::Skip
    } else if low_cycles == 1 {
        DelayPlan::Single
    } else if low_cycles == 2 {
        DelayPlan::SingleNop
    } else {
        let lead = low_cycles % 3;
        let count = low_cycles - lead;
        proof {
            lemma_loop_cycles(count as int);
        }
        DelayPlan::Loop { lead, count }
    }
}

/// Steps through `plan` one instruction at a time, as the core runs it, and
/// counts the cycles the pin is held low.
pub fn simulate_low_cycles(plan: DelayPlan) -> (r: u64)
    requires
        plan_runs(plan),
    ensures
        r == forced_low_cycles(plan),
{
    match plan {
        DelayPlan::Skip => 0,
        DelayPlan::Single => 1,
        DelayPlan::SingleNop => 2,
        DelayPlan::Loop { lead, count } => {
            // the store that enables the output, then the fillers
            let mut cycles: u64 = 1 + lead as u64;
            let mut d: u32 = count;
            proof {
                lemma_loop_cycles(count as int);
            }
            loop
                invariant
                    d >= 3,
                    d % 3 == 0,
                    d <= count,
                    cycles + loop_cycles(d as int) == forced_low_cycles(plan),
                    forced_low_cycles(plan) == 1 + lead + count - 1,
                decreases d,
            {
                proof {
                    lemma_loop_cycles(d as int);
                }
                // subs
                d = d - 3;
                cycles = cycles + 1;
                if d == 0 {
                    // bne not taken
                    cycles = cycles + 1;
                    return cycles;
                }
                // bne taken
                cycles = cycles + 2;
            }
        },
    }
}

/// Schmitt trigger enable in a pad control word.
pub const PAD_SCHMITT: u32 = 0x02;
/// Pull-down enable in a pad control word.
pub const PAD_PDE: u32 = 0x04;
/// Pull-up enable in a pad control word.
pub const PAD_PUE: u32 = 0x08;
/// Input enable in a pad control word.
pub const PAD_IE: u32 = 0x40;
/// The pad bits that sampling changes and that are put back afterwards.
pub const PAD_GUARDED: u32 = 0x4e;
/// Function select field of a GPIO control word.
pub const CTRL_FUNCSEL: u32 = 0x1f;
/// Function select value of single-cycle software I/O.
pub const FUNCSEL_SIO: u32 = 5;

/// Pad word while sampling: no Schmitt trigger, for a sharper threshold
/// crossing; input buffer on; no pull-down. The pull-up is left as it was.
pub open spec fn acquired_pad(pad: u32) -> u32 {
    (pad & !(PAD_SCHMITT | PAD_PDE)) | PAD_IE
}

/// Control word while sampling: the pin is handed to single-cycle I/O.
pub open spec fn acquired_ctrl(ctrl: u32) -> u32 {
    (ctrl & !CTRL_FUNCSEL) | FUNCSEL_SIO
}

/// Pad word `pad` with the pull-up on or off.
pub open spec fn pullup_pad(pad: u32, on: bool) -> u32 {
    if on {
        pad | PAD_PUE
    } else {
        pad & !PAD_PUE
    }
}

/// The word `now`, with the bits of `mask` taken from `saved`.
pub open spec fn merged(now: u32, saved: u32, mask: u32) -> u32 {
    (now & !mask) | (saved & mask)
}

/// Pad word while sampling.
pub fn acquire_pad(pad: u32) -> (r: u32)
    ensures
        r == acquired_pad(pad),
{
    (pad & !(PAD_SCHMITT | PAD_PDE)) | PAD_IE
}

/// Control word while sampling.
pub fn acquire_ctrl(ctrl: u32) -> (r: u32)
    ensures
        r == acquired_ctrl(ctrl),
{
    (ctrl & !CTRL_FUNCSEL) | FUNCSEL_SIO
}

/// Pad word with the pull-up switched on or off.
pub fn set_pullup(pad: u32, on: bool) -> (r: u32)
    ensures
        r == pullup_pad(pad, on),
{
    if on {
        pad | PAD_PUE
    } else {
        pad & !PAD_PUE
    }
}

/// Remembers a pin's pad and function settings, so that they can be put back
/// once sampling ends.
pub struct PinSetup {
    pin: u8,
    // previous values to restore
    schmitt: bool,
    ie: bool,
    pde: bool,
    pue: bool,
    func: u8,
}

/// The word with the guarded pad bits as `setup` saved them, all others 0.
pub open spec fn saved_pad_bits(schmitt: bool, ie: bool, pde: bool, pue: bool) -> u32 {
    (if schmitt { PAD_SCHMITT } else { 0u32 }) | (if ie { PAD_IE } else { 0u32 }) | (if pde {
        PAD_PDE
    } else {
        0u32
    }) | (if pue { PAD_PUE } else { 0u32 })
}

impl PinSetup {
    /// The pin this guard belongs to.
    pub closed spec fn pin_spec(&self) -> u8 {
        self.pin
    }

    /// The guarded pad bits as they were before sampling.
    pub closed spec fn saved_pad(&self) -> u32 {
        saved_pad_bits(self.schmitt, self.ie, self.pde, self.pue)
    }

    /// The function select as it was before sampling.
    pub closed spec fn saved_func(&self) -> u32 {
        self.func as u32
    }

    /// Records the settings of pin `pin_num` from its pad word `pad` and its
    /// control word `ctrl`, as read before sampling.
    pub fn new(pin_num: u8, pad: u32, ctrl: u32) -> (r: PinSetup)
        ensures
            r.pin_spec() == pin_num,
            r.saved_pad() == pad & PAD_GUARDED,
            r.saved_func() == ctrl & CTRL_FUNCSEL,
    {
        let schmitt = pad & PAD_SCHMITT != 0;
        let ie = pad & PAD_IE != 0;
        let pde = pad & PAD_PDE != 0;
        let pue = pad & PAD_PUE != 0;
        let func = (ctrl & CTRL_FUNCSEL) as u8;
        assert(saved_pad_bits(schmitt, ie, pde, pue) == pad & PAD_GUARDED) by (bit_vector)
            requires
                schmitt == (pad & 0x02 != 0),
                ie == (pad & 0x40 != 0),
                pde == (pad & 0x04 != 0),
                pue == (pad & 0x08 != 0),
        ;
        assert(ctrl & 0x1f < 0x20) by (bit_vector);
        PinSetup { pin: pin_num, schmitt, ie, pde, pue, func }
    }

    pub fn pin(&self) -> (r: u8)
        ensures
            r == self.pin_spec(),
    {
        self.pin
    }

    /// The pad word to write back: `pad`, the word as it stands now, with
    /// the guarded bits as they were before sampling.
    pub fn restore_pad(&self, pad: u32) -> (r: u32)
        ensures
            r == merged(pad, self.saved_pad(), PAD_GUARDED),
    {
        let (s, i, d, u) = (self.schmitt, self.ie, self.pde, self.pue);
        let bs = if s { PAD_SCHMITT } else { 0u32 };
        let bi = if i { PAD_IE } else { 0u32 };
        let bd = if d { PAD_PDE } else { 0u32 };
        let bu = if u { PAD_PUE } else { 0u32 };
        let r = (pad & !PAD_GUARDED) | bs | bi | bd | bu;
        assert(r == (pad & !0x4eu32) | (bs | bi | bd | bu)) by (bit_vector)
            requires
                r == (pad & !0x4eu32) | bs | bi | bd | bu,
        ;
        assert(saved_pad_bits(s, i, d, u) & 0x4e == saved_pad_bits(s, i, d, u)) by (bit_vector);
        r
    }

    /// The control word to write back: `ctrl` with the function select as
    /// it was before sampling.
    pub fn restore_ctrl(&self, ctrl: u32) -> (r: u32)
        ensures
            r == merged(ctrl, self.saved_func(), CTRL_FUNCSEL),
    {
        (ctrl & !CTRL_FUNCSEL) | (self.func as u32 & CTRL_FUNCSEL)
    }
}

/// Pad word `pad` after the pull-up was switched as `pullups` says, in order,
/// as each sample does.
pub open spec fn after_pullups(pad: u32, pullups: Seq<bool>) -> u32
    decreases pullups.len(),
{
    if pullups.len() == 0 {
        pad
    } else {
        pullup_pad(after_pullups(pad, pullups.drop_last()), pullups.last())
    }
}

proof fn lemma_pullups_keep_other_bits(pad: u32, pullups: Seq<bool>)
    ensures
        after_pullups(pad, pullups) & !PAD_PUE == pad & !PAD_PUE,
    decreases pullups.len(),
{
    if pullups.len() > 0 {
        lemma_pullups_keep_other_bits(pad, pullups.drop_last());
        let w = after_pullups(pad, pullups.drop_last());
        let on = pullups.last();
        assert(pullup_pad(w, on) & !8u32 == w & !8u32) by (bit_vector)
            requires
                pullup_pad(w, on) == if on { w | 8u32 } else { w & !8u32 },
        ;
    }
}

/// Taking a pin for sampling and giving it back restores its pad and
/// function settings bit for bit, however the pull-up was switched in
/// between: the words written back on release, from the settings that
/// [`PinSetup::new`] saved, equal the words read before.
pub proof fn lemma_release_restores(pad: u32, ctrl: u32, pullups: Seq<bool>)
    ensures
        merged(after_pullups(acquired_pad(pad), pullups), pad & PAD_GUARDED, PAD_GUARDED) == pad,
        merged(acquired_ctrl(ctrl), ctrl & CTRL_FUNCSEL, CTRL_FUNCSEL) == ctrl,
{
    let a = acquired_pad(pad);
    let x = after_pullups(a, pullups);
    lemma_pullups_keep_other_bits(a, pullups);
    assert((x & !PAD_GUARDED) | ((pad & PAD_GUARDED) & PAD_GUARDED) == pad) by (bit_vector)
        requires
            x & !PAD_PUE == ((pad & !(PAD_SCHMITT | PAD_PDE)) | PAD_IE) & !PAD_PUE,
    ;
    assert((acquired_ctrl(ctrl) & !CTRL_FUNCSEL) | ((ctrl & CTRL_FUNCSEL) & CTRL_FUNCSEL) == ctrl) by (bit_vector)
        requires
            acquired_ctrl(ctrl) == (ctrl & !CTRL_FUNCSEL) | FUNCSEL_SIO,
    ;
}

/// SysTick's current value register is 24 bits wide.
pub const SYST_MAX_RELOAD: u32 = 0x00ff_ffff;

/// Times one sample with SysTick, which counts down from its reload value.
///
/// The embedding program clears and starts the counter, builds this from the
/// reload value, and reads the counter and its wrap flag when the sample is
/// done.
pub struct SyTi {
    t1: u32,
}

impl SyTi {
    pub closed spec fn start(&self) -> u32 {
        self.t1
    }

    pub fn new(reload: u32) -> (r: SyTi)
        requires
            reload <= SYST_MAX_RELOAD,
        ensures
            r.start() == reload,
    {
        SyTi { t1: reload }
    }

    /// Ticks elapsed since the start, or `HardwareTimingOverflow` if the
    /// counter wrapped meanwhile.
    pub fn done(self, current: u32, wrapped: bool) -> (r: Result<u32, RngError>)
        requires
            current <= self.start(),
        ensures
            wrapped ==> r == Err::<u32, RngError>(RngError::HardwareTimingOverflow),
            !wrapped ==> r == Ok::<u32, RngError>((self.start() - current) as u32),
    {
        if wrapped {
            return Err(RngError::HardwareTimingOverflow);
        }
        Ok(self.t1 - current)
    }
}

/// One sampling session on a pin: the pin's saved settings, the low time,
/// and whether a sample has been taken yet.
///
/// Samples are correlated and biased, so must be processed before further
/// use, with a cryptographic extractor such as [`crate::rng::Extractor`].
/// The first sample of a session is marked invalid: its timing varies with
/// cache loads and with the capacitor's first charge.
pub struct RawNoise {
    setup: PinSetup,
    low_cycles: u32,
    started: bool,
}

impl RawNoise {
    pub closed spec fn pin_spec(&self) -> u8 {
        self.setup.pin_spec()
    }

    pub closed spec fn low_cycles_spec(&self) -> u32 {
        self.low_cycles
    }

    /// Whether a sample has been taken in this session.
    pub closed spec fn started(&self) -> bool {
        self.started
    }

    pub closed spec fn setup_spec(&self) -> PinSetup {
        self.setup
    }

    /// Starts a session on pin `pin_num`, whose pad and control words read
    /// `pad` and `ctrl`; they are to be written as [`acquire_pad`] and
    /// [`acquire_ctrl`] give them, and restored from [`RawNoise::setup`].
    pub fn new(pin_num: u8, low_cycles: u32, pad: u32, ctrl: u32) -> (r: RawNoise)
        requires
            pin_num < 32,
        ensures
            r.pin_spec() == pin_num,
            r.low_cycles_spec() == low_cycles,
            !r.started(),
            r.setup_spec().saved_pad() == pad & PAD_GUARDED,
            r.setup_spec().saved_func() == ctrl & CTRL_FUNCSEL,
    {
        RawNoise { setup: PinSetup::new(pin_num, pad, ctrl), low_cycles, started: false }
    }

    /// The saved settings, to restore the pin when the session ends.
    pub fn setup(&self) -> (r: &PinSetup)
        ensures
            *r == self.setup_spec(),
    {
        &self.setup
    }

    pub fn pin(&self) -> (r: u8)
        ensures
            r == self.pin_spec(),
    {
        self.setup.pin()
    }

    /// How to hold the pin low before each sample.
    pub fn plan(&self) -> (r: DelayPlan)
        ensures
            plan_runs(r),
            forced_low_cycles(r) == self.low_cycles_spec(),
    {
        delay_plan(self.low_cycles)
    }

    /// The sample that the last burst of reads gives, and whether it is
    /// valid.
    pub fn next(&mut self, reads: [u32; 5]) -> (r: (u8, bool))
        requires
            old(self).pin_spec() < 32,
        ensures
            r.0 as int == burst_spec(reads, old(self).pin_spec() as u32),
            r.1 == old(self).started(),
            final(self).started(),
            final(self).pin_spec() == old(self).pin_spec(),
            final(self).low_cycles_spec() == old(self).low_cycles_spec(),
            final(self).setup_spec() == old(self).setup_spec(),
    {
        let v = burst_value(reads, self.setup.pin() as u32);
        let valid = self.started;
        self.started = true;
        (v, valid)
    }

    /// A sample as a total tick count: the SysTick ticks of the whole
    /// sample, plus the position in the last burst of the first high read.
    ///
    /// This cycle count is only relative, for comparison between samples.
    pub fn next_with_systick(&mut self, reads: [u32; 5], t: SyTi, current: u32, wrapped: bool) -> (r: Result<u32, RngError>)
        requires
            old(self).pin_spec() < 32,
            t.start() <= SYST_MAX_RELOAD,
            current <= t.start(),
        ensures
            wrapped ==> r == Err::<u32, RngError>(RngError::HardwareTimingOverflow),
            !wrapped ==> r == Ok::<u32, RngError>((t.start() - current + lowest_set(burst_spec(reads, old(self).pin_spec() as u32) as u8)) as u32),
            final(self).started(),
            final(self).pin_spec() == old(self).pin_spec(),
            final(self).low_cycles_spec() == old(self).low_cycles_spec(),
            final(self).setup_spec() == old(self).setup_spec(),
    {
        let (v, _valid) = self.next(reads);
        let elapsed = t.done(current, wrapped)?;
        Ok(elapsed + lsb(v) as u32)
    }
}

} // verus!
