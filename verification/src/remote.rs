//! Static table from decoded NEC-style infrared command codes to semantic
//! actions on the clock. Pure lookup, no state; unknown codes map to no
//! action at all.

use vstd::prelude::*;

verus! {

pub const A: u8 = 0x45;

pub const B: u8 = 0x46;

pub const C: u8 = 0x47;

pub const D: u8 = 0x44;

pub const PLUS: u8 = 0x43;

pub const MINUS: u8 = 0x0d;

pub const OK: u8 = 0x15;

pub const UP: u8 = 0x40;

pub const DOWN: u8 = 0x19;

pub const LEFT: u8 = 0x07;

pub const RIGTH: u8 = 0x09;

pub const ZERO: u8 = 0x16;

pub const ONE: u8 = 0x0c;

pub const TWO: u8 = 0x18;

pub const THREE: u8 = 0x5e;

pub const FOUR: u8 = 0x08;

pub const FIVE: u8 = 0x1c;

pub const SIX: u8 = 0x5a;

pub const SEVEN: u8 = 0x42;

pub const EIGHT: u8 = 0x52;

pub const NINE: u8 = 0x4a;

/// The semantic actions a remote button can trigger.
#[derive(PartialEq, Eq, Structural, Clone, Copy, Debug)]
pub enum RemoteAction {
    /// Switch the watch to the descending countdown display.
    CountdownMode,
    /// Switch the watch to the forward (elapsed-seconds) display.
    ForwardMode,
    /// Reset brightness to its default working level.
    ResetBrightness,
    /// Lower brightness by one step, never below the floor.
    DimStep,
    /// Raise brightness by one step, saturating at the ceiling.
    BrightenStep,
}

/// The fixed command table: which action, if any, a decoded code triggers.
pub open spec fn spec_lookup(code: u8) -> Option<RemoteAction> {
    if code == LEFT || code == B {
        Some(RemoteAction::CountdownMode)
    } else if code == C || code == A {
        Some(RemoteAction::ForwardMode)
    } else if code == D || code == OK {
        Some(RemoteAction::ResetBrightness)
    } else if code == UP || code == MINUS {
        Some(RemoteAction::DimStep)
    } else if code == PLUS {
        Some(RemoteAction::BrightenStep)
    } else {
        None
    }
}

/// Look a decoded infrared command code up in the fixed table.
pub fn lookup(code: u8) -> (r: Option<RemoteAction>)
    ensures
        r == spec_lookup(code),
{
    if code == LEFT || code == B {
        Some(RemoteAction::CountdownMode)
    } else if code == C || code == A {
        Some(RemoteAction::ForwardMode)
    } else if code == D || code == OK {
        Some(RemoteAction::ResetBrightness)
    } else if code == UP || code == MINUS {
        Some(RemoteAction::DimStep)
    } else if code == PLUS {
        Some(RemoteAction::BrightenStep)
    } else {
        None
    }
}

} // verus!
