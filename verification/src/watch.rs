//! The watch: the authoritative clock value, display mode and brightness.
//! Mutated by three independent event sources (periodic tick, GPS sync,
//! remote command) and read by the animation pass, which decomposes the
//! displayed value into decimal digits on the display canvas.

use vstd::prelude::*;

use crate::calendar;
use crate::display::DisplayController;
use crate::display::spec_print_luma;
use crate::remote;
use crate::remote::RemoteAction;

verus! {

/// Brightness the watch boots with.
pub const BOOT_BRIGHTNESS: u8 = 4;

/// Brightness a reset command restores.
pub const RESET_BRIGHTNESS: u8 = 16;

/// Step a single dim or brighten command moves brightness by.
pub const BRIGHTNESS_STEP: u8 = 8;

/// Floor a dim command never goes below.
pub const BRIGHTNESS_FLOOR: u8 = 8;

/// Fixed instant the countdown mode counts down to, as seconds since the
/// Unix epoch.
pub const COUNTDOWN_BASE: u64 = 0x7fff_ffff;

/// Seconds the clock advances per tick.
pub const TICK_SECONDS: u64 = 1;

/// The two display modes.
#[derive(PartialEq, Eq, Structural, Clone, Copy, Debug)]
pub enum Mode {
    /// Show elapsed seconds since the epoch, counting up.
    UnixClock,
    /// Show seconds remaining until the countdown instant, counting down.
    DoomsdayClock,
}

#[derive(PartialEq, Eq, Structural, Clone, Copy, Debug)]
pub struct Watch {
    pub mode: Mode,
    pub brightness: u8,
    pub ts: u64,
}

/// Brightness after a dim command: one step down, saturating, but never
/// below the floor.
pub open spec fn spec_dim(b: u8) -> u8 {
    if b.saturating_sub(BRIGHTNESS_STEP) > BRIGHTNESS_FLOOR {
        b.saturating_sub(BRIGHTNESS_STEP)
    } else {
        BRIGHTNESS_FLOOR
    }
}

/// Watch state after applying one remote action.
pub open spec fn spec_apply_action(w: Watch, a: RemoteAction) -> Watch {
    match a {
        RemoteAction::CountdownMode => Watch { mode: Mode::DoomsdayClock, ..w },
        RemoteAction::ForwardMode => Watch { mode: Mode::UnixClock, ..w },
        RemoteAction::ResetBrightness => Watch { brightness: RESET_BRIGHTNESS, ..w },
        RemoteAction::DimStep => Watch { brightness: spec_dim(w.brightness), ..w },
        RemoteAction::BrightenStep => Watch {
            brightness: w.brightness.saturating_add(BRIGHTNESS_STEP),
            ..w
        },
    }
}

/// Watch state after a decoded infrared code: the table's action where the
/// code is recognized, unchanged otherwise.
pub open spec fn spec_ir_command(w: Watch, code: u8) -> Watch {
    match remote::spec_lookup(code) {
        Some(a) => spec_apply_action(w, a),
        None => w,
    }
}

/// Watch state after one tick.
pub open spec fn spec_tick(w: Watch) -> Watch {
    Watch { ts: (w.ts + TICK_SECONDS) as u64, ..w }
}

/// Watch state after `n` ticks.
pub open spec fn spec_tick_n(w: Watch, n: nat) -> Watch
    decreases n,
{
    if n == 0 {
        w
    } else {
        spec_tick(spec_tick_n(w, (n - 1) as nat))
    }
}

/// Watch state after a whole sequence of decoded infrared codes, applied
/// in order.
pub open spec fn spec_ir_commands(w: Watch, codes: Seq<u8>) -> Watch
    decreases codes.len(),
{
    if codes.len() == 0 {
        w
    } else {
        spec_ir_command(spec_ir_commands(w, codes.drop_last()), codes.last())
    }
}

/// Ticking `n` times advances the timestamp by exactly `n` tick units and
/// leaves mode and brightness untouched.
pub proof fn lemma_tick_n(w: Watch, n: nat)
    requires
        w.ts + n * TICK_SECONDS <= u64::MAX,
    ensures
        spec_tick_n(w, n) == (Watch { ts: (w.ts + n * TICK_SECONDS) as u64, ..w }),
    decreases n,
{
    if n > 0 {
        assert((n - 1) * TICK_SECONDS == n * TICK_SECONDS - TICK_SECONDS) by (nonlinear_arith);
        lemma_tick_n(w, (n - 1) as nat);
    }
}

/// After any sequence of remote commands, brightness never leaves its
/// bounds: it stays a `u8`, and it never drops below the dim floor or the
/// starting brightness, whichever is smaller.
pub proof fn lemma_brightness_bounded(w: Watch, codes: Seq<u8>)
    ensures
        spec_ir_commands(w, codes).brightness >= if w.brightness < BRIGHTNESS_FLOOR {
            w.brightness
        } else {
            BRIGHTNESS_FLOOR
        },
    decreases codes.len(),
{
    if codes.len() > 0 {
        lemma_brightness_bounded(w, codes.drop_last());
    }
}

/// A remote command never moves the clock: the timestamp changes only by
/// whole tick increments and whole-sentence GPS overwrites.
pub proof fn lemma_ir_commands_keep_time(w: Watch, codes: Seq<u8>)
    ensures
        spec_ir_commands(w, codes).ts == w.ts,
    decreases codes.len(),
{
    if codes.len() > 0 {
        lemma_ir_commands_keep_time(w, codes.drop_last());
    }
}

/// The value the display shows: the timestamp itself in forward mode, the
/// distance to the countdown instant in countdown mode.
pub open spec fn spec_display_value(w: Watch) -> int {
    match w.mode {
        Mode::UnixClock => w.ts as int,
        Mode::DoomsdayClock => COUNTDOWN_BASE - w.ts,
    }
}

/// Ten to the power `p`.
pub open spec fn pow10(p: nat) -> int
    decreases p,
{
    if p == 0 {
        1
    } else {
        10 * pow10((p - 1) as nat)
    }
}

/// Decimal digit of `v` at position `p`, least significant digit first.
pub open spec fn nth_digit(v: int, p: nat) -> int {
    (v / pow10(p)) % 10
}

/// Seven-segment bitmask of a decimal digit.
pub open spec fn spec_seven_seg(d: int) -> u8 {
    if d == 0 {
        0b0111111
    } else if d == 1 {
        0b0000110
    } else if d == 2 {
        0b1011011
    } else if d == 3 {
        0b1001111
    } else if d == 4 {
        0b1100110
    } else if d == 5 {
        0b1101101
    } else if d == 6 {
        0b1111101
    } else if d == 7 {
        0b0000111
    } else if d == 8 {
        0b1111111
    } else {
        0b1101111
    }
}

/// Brightness that an animation pass leaves in canvas cell `i`: digit
/// position `i / 8` shows decimal digit `9 - i / 8` of the displayed value
/// (most significant digit leftmost), and within the position, cell `i`
/// carries bit `7 - i % 8` of that digit's segment bitmask.
pub open spec fn spec_animated_segment(value: int, brightness: u8, i: int) -> u8 {
    spec_print_luma(spec_seven_seg(nth_digit(value, (9 - i / 8) as nat)), 7 - i % 8, brightness)
}

pub proof fn lemma_pow10_pos(p: nat)
    ensures
        pow10(p) >= 1,
    decreases p,
{
    if p > 0 {
        lemma_pow10_pos((p - 1) as nat);
    }
}

/// Seven-segment bitmask of a decimal digit.
pub fn seven_seg(d: u64) -> (r: u8)
    requires
        d < 10,
    ensures
        r == spec_seven_seg(d as int),
{
    if d == 0 {
        0b0111111
    } else if d == 1 {
        0b0000110
    } else if d == 2 {
        0b1011011
    } else if d == 3 {
        0b1001111
    } else if d == 4 {
        0b1100110
    } else if d == 5 {
        0b1101101
    } else if d == 6 {
        0b1111101
    } else if d == 7 {
        0b0000111
    } else if d == 8 {
        0b1111111
    } else {
        0b1101111
    }
}

impl Default for Watch {
    /// The boot state, same as `Watch::new`.
    fn default() -> (w: Watch)
        ensures
            w == (Watch { mode: Mode::UnixClock, brightness: BOOT_BRIGHTNESS, ts: 0 }),
    {
        Watch::new()
    }
}

impl Watch {
    /// The boot state: forward mode, boot brightness, clock at the epoch.
    pub fn new() -> (w: Watch)
        ensures
            w == (Watch { mode: Mode::UnixClock, brightness: BOOT_BRIGHTNESS, ts: 0 }),
    {
        Watch { brightness: BOOT_BRIGHTNESS, mode: Mode::UnixClock, ts: 0 }
    }

    /// Advance the clock by one tick unit. Mode and brightness are
    /// untouched.
    pub fn tick(&mut self)
        requires
            old(self).ts + TICK_SECONDS <= u64::MAX,
        ensures
            *final(self) == spec_tick(*old(self)),
            final(self).ts == old(self).ts + TICK_SECONDS,
    {
        self.ts = self.ts + TICK_SECONDS;
    }

    /// Overwrite the clock with the calendar conversion of the supplied
    /// civil timestamp. No validation happens here: the caller suppresses
    /// bogus fields (an all-zero fix) before calling.
    pub fn set_utc_time(&mut self, year: u64, month: u64, day: u64, hour: u64, minutes: u64, seconds: u64)
        requires
            calendar::convertible(
                year as int,
                month as int,
                day as int,
                hour as int,
                minutes as int,
                seconds as int,
            ),
        ensures
            final(self).ts == calendar::spec_epoch_seconds(
                year as int,
                month as int,
                day as int,
                hour as int,
                minutes as int,
                seconds as int,
            ),
            final(self).mode == old(self).mode,
            final(self).brightness == old(self).brightness,
    {
        self.ts = calendar::epoch_seconds(year, month, day, hour, minutes, seconds);
    }

    /// Apply a decoded infrared command code: recognized codes switch the
    /// mode or nudge brightness, unrecognized codes are silently ignored.
    pub fn ir_command(&mut self, code: u8)
        ensures
            *final(self) == spec_ir_command(*old(self), code),
    {
        match remote::lookup(code) {
            Some(RemoteAction::CountdownMode) => self.mode = Mode::DoomsdayClock,
            Some(RemoteAction::ForwardMode) => self.mode = Mode::UnixClock,
            Some(RemoteAction::ResetBrightness) => self.brightness = RESET_BRIGHTNESS,
            Some(RemoteAction::DimStep) => {
                let lowered = self.brightness.saturating_sub(BRIGHTNESS_STEP);
                self.brightness = if lowered > BRIGHTNESS_FLOOR {
                    lowered
                } else {
                    BRIGHTNESS_FLOOR
                };
            },
            Some(RemoteAction::BrightenStep) => {
                self.brightness = self.brightness.saturating_add(BRIGHTNESS_STEP);
            },
            None => {},
        }
    }

    /// Write the displayed value onto the canvas as ten decimal digits,
    /// most significant digit at position 0: every canvas cell ends up as
    /// `spec_animated_segment` dictates. Digits beyond the ten positions
    /// are truncated by construction. The watch itself is unchanged.
    pub fn animate(&mut self, display: &mut DisplayController)
        requires
            old(display).wf(),
            old(self).mode == Mode::DoomsdayClock ==> old(self).ts <= COUNTDOWN_BASE,
        ensures
            *final(self) == *old(self),
            final(display).wf(),
            final(display).luma == old(display).luma,
            forall|i: int|
                0 <= i < 80 ==> final(display).canvas@[i] == spec_animated_segment(
                    spec_display_value(*old(self)),
                    old(self).brightness,
                    i,
                ),
    {
        let ghost value = spec_display_value(*old(self));
        let mut val: u64 = match self.mode {
            Mode::UnixClock => self.ts,
            Mode::DoomsdayClock => COUNTDOWN_BASE - self.ts,
        };
        let mut pos: usize = 0;
        while pos < 10
            invariant
                *self == *old(self),
                display.wf(),
                display.luma == old(display).luma,
                pos <= 10,
                val == value / pow10(pos as nat),
                value == spec_display_value(*old(self)),
                value >= 0,
                forall|i: int|
                    (10 - pos) * 8 <= i < 80 ==> display.canvas@[i] == spec_animated_segment(
                        value,
                        old(self).brightness,
                        i,
                    ),
            decreases 10 - pos,
        {
            let digit = val % 10;
            let sym = seven_seg(digit);
            display.print(9 - pos, sym, self.brightness);
            proof {
                lemma_pow10_pos(pos as nat);
                assert(value >= 0);
                assert(digit == nth_digit(value, pos as nat));
                vstd::arithmetic::div_mod::lemma_div_denominator(value, pow10(pos as nat), 10);
                assert(value / pow10(pos as nat) / 10 == value / pow10((pos + 1) as nat));
            }
            val = val / 10;
            pos += 1;
        }
    }
}

} // verus!
