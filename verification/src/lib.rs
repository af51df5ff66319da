//! RozeOS kernel logic: the parts of the kernel that decide and compute,
//! with their contracts. Port I/O, the boot protocol and the interrupt
//! plumbing stay outside this crate.

pub mod console;
pub mod doom;
pub mod draw;
pub mod font;
pub mod framebuffer;
pub mod image;
pub mod keyboard;
pub mod menu;
pub mod physical;
pub mod screens;
pub mod serial;
pub mod timer;
