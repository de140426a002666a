//! Firmware core for an LED segment-matrix clock: exact calendar arithmetic,
//! a tickable watch state machine driven by remote-control commands and GPS
//! time sentences, a dithered binary display renderer, and the event
//! dispatch that ties them together.

pub mod assembler;
pub mod calendar;
pub mod display;
pub mod remote;
pub mod system;
pub mod watch;
