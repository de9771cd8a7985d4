//! A verified CHIP-8 virtual machine core.
//!
//! The machine owns 4096 bytes of memory, sixteen 8-bit registers, a
//! sixteen-entry call stack, two countdown timers, a 64 by 32 monochrome
//! framebuffer and a sixteen-key input panel. A host loads a program
//! image, calls [`Emu::tick`] once per instruction and
//! [`Emu::tick_timers`] at its own cadence, forwards key events through
//! [`Emu::keypress`] and renders [`Emu::get_display`].
//!
//! Every state transition is stated as mathematics over [`EmuView`] (see
//! [`step::step`]) and the executable machine is proved to follow it.

pub mod draw;
mod emu;
pub mod fault;
pub mod font;
mod rng;
pub mod state;
pub mod step;

pub use emu::Emu;
pub use fault::Fault;
pub use font::{FONTSET, FONTSET_SIZE};
pub use state::{EmuView, SCREEN_HEIGHT, SCREEN_WIDTH, START_ADDR};
