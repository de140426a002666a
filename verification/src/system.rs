//! The scheduling core's shared state and its event handlers. The firmware
//! runs a fixed set of interrupt-driven tasks — wall-clock tick, infrared
//! poll, serial receive, animation refresh, shift-out refresh — at static
//! priorities, each serialized on the shared state and run to completion.
//! Each handler here is one such task's whole effect on that state, so an
//! interrupt's work is exactly one call: no partial update is ever
//! observable between calls, whatever order the events arrive in.

use vstd::prelude::*;

use crate::assembler::LineAssembler;
use crate::assembler::ZdaFields;
use crate::assembler;
use crate::calendar;
use crate::display::DisplayController;
use crate::watch::Mode;
use crate::watch::Watch;
use crate::watch;

verus! {

/// Fields a sentence must carry before the clock is overwritten: within
/// the calendar converter's domain, so the conversion is exact and free of
/// overflow. The time-of-day fields are below 100 by construction (they
/// are extracted modulo 100), so the date fields decide.
pub open spec fn spec_sync_fields_ok(f: ZdaFields) -> bool {
    calendar::convertible(
        f.year as int,
        f.month as int,
        f.day as int,
        f.hour as int,
        f.minute as int,
        f.second as int,
    )
}

/// Watch state after one received serial byte: synced to the sentence the
/// byte completes, where it completes an accepted one, else unchanged.
pub open spec fn spec_watch_after_byte(w: Watch, buf: Seq<u8>, b: u8) -> Watch {
    if b == assembler::LINE_TERMINATOR {
        match assembler::spec_parse_zda(buf) {
            Some(f) => if spec_sync_fields_ok(f) {
                Watch {
                    ts: calendar::spec_epoch_seconds(
                        f.year as int,
                        f.month as int,
                        f.day as int,
                        f.hour as int,
                        f.minute as int,
                        f.second as int,
                    ) as u64,
                    ..w
                }
            } else {
                w
            },
            None => w,
        }
    } else {
        w
    }
}

/// The state the interrupt tasks share: the watch, the serial line
/// assembler, and the display controller.
pub struct ClockSystem {
    pub watch: Watch,
    pub assembler: LineAssembler,
    pub display: DisplayController,
}

impl ClockSystem {
    pub open spec fn wf(self) -> bool {
        self.assembler.wf() && self.display.wf()
    }

    /// The boot state: default watch, empty line buffer, blank display.
    pub fn new() -> (s: ClockSystem)
        ensures
            s.wf(),
            s.watch == (Watch {
                mode: Mode::UnixClock,
                brightness: watch::BOOT_BRIGHTNESS,
                ts: 0,
            }),
            s.assembler.buf@.len() == 0,
            s.display.luma == 0,
            forall|i: int| 0 <= i < 80 ==> s.display.canvas@[i] == 0,
    {
        ClockSystem { watch: Watch::new(), assembler: LineAssembler::new(), display: DisplayController::new() }
    }

    /// The periodic wall-clock task: advance the watch by one tick.
    pub fn tick(&mut self)
        requires
            old(self).wf(),
            old(self).watch.ts + watch::TICK_SECONDS <= u64::MAX,
        ensures
            final(self).wf(),
            final(self).watch == (Watch {
                ts: (old(self).watch.ts + watch::TICK_SECONDS) as u64,
                ..old(self).watch
            }),
            final(self).assembler == old(self).assembler,
            final(self).display == old(self).display,
    {
        self.watch.tick();
    }

    /// The infrared poll task, handed one decoded command code.
    pub fn ir_poll(&mut self, code: u8)
        requires
            old(self).wf(),
        ensures
            final(self).wf(),
            final(self).watch == watch::spec_ir_command(old(self).watch, code),
            final(self).assembler == old(self).assembler,
            final(self).display == old(self).display,
    {
        self.watch.ir_command(code);
    }

    /// The serial receive task, handed one received byte: feed the line
    /// assembler and, where the byte completes an accepted sentence whose
    /// fields the calendar converter can take, overwrite the clock.
    pub fn uart_rx(&mut self, b: u8)
        requires
            old(self).wf(),
        ensures
            final(self).wf(),
            final(self).watch == spec_watch_after_byte(old(self).watch, old(self).assembler.buf@, b),
            b == assembler::LINE_TERMINATOR ==> final(self).assembler.buf@.len() == 0,
            b != assembler::LINE_TERMINATOR && old(self).assembler.buf@.len()
                < assembler::LINE_CAPACITY ==> final(self).assembler.buf@ == old(
                self,
            ).assembler.buf@.push(b),
            b != assembler::LINE_TERMINATOR && old(self).assembler.buf@.len()
                >= assembler::LINE_CAPACITY ==> final(self).assembler.buf@ == old(
                self,
            ).assembler.buf@,
            final(self).display == old(self).display,
    {
        let parsed = self.assembler.push_byte(b);
        if let Some(f) = parsed {
            if f.year >= 1970 && f.year <= 9999 && f.month >= 1 && f.month <= 12 && f.day >= 1
                && f.day <= 31 && f.hour <= 99 && f.minute <= 99 && f.second <= 99 {
                self.watch.set_utc_time(f.year, f.month, f.day, f.hour, f.minute, f.second);
            }
        }
    }

    /// The animation task: repaint the canvas from the watch state.
    pub fn animate(&mut self)
        requires
            old(self).wf(),
            old(self).watch.mode == Mode::DoomsdayClock ==> old(self).watch.ts
                <= watch::COUNTDOWN_BASE,
        ensures
            final(self).wf(),
            final(self).watch == old(self).watch,
            final(self).assembler == old(self).assembler,
            final(self).display.luma == old(self).display.luma,
            forall|i: int|
                0 <= i < 80 ==> final(self).display.canvas@[i] == watch::spec_animated_segment(
                    watch::spec_display_value(old(self).watch),
                    old(self).watch.brightness,
                    i,
                ),
    {
        self.watch.animate(&mut self.display);
    }

    /// The shift-out task: fold the canvas into one binary frame at the
    /// current dither threshold and advance the threshold. The caller owns
    /// the bus and drives the frame out.
    pub fn render(&mut self) -> (frame: Vec<u8>)
        requires
            old(self).wf(),
        ensures
            final(self).wf(),
            final(self).watch == old(self).watch,
            final(self).assembler == old(self).assembler,
            final(self).display.canvas@ == old(self).display.canvas@,
            final(self).display.luma == old(self).display.luma.wrapping_add(
                crate::display::DITHER_STEP,
            ),
            frame@.len() == crate::display::FRAME_BYTES,
            forall|g: int|
                0 <= g < crate::display::FRAME_BYTES ==> frame@[g]
                    == crate::display::spec_group_byte(
                    old(self).display.canvas@,
                    old(self).display.luma,
                    g,
                ),
    {
        self.display.render()
    }
}

} // verus!
