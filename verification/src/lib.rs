//! Hardware bring-up core of a minimal kernel: enumeration of a peripheral
//! bus through its two-port configuration protocol, and a raw-pixel display
//! stack (pixel writer and scrolling text console).
//!
//! Hardware resources are modelled as plain data: the configuration space as
//! a register map, the framebuffer and the glyph blob as byte vectors. The
//! process entry point owns the actual port accesses and memory blits and
//! hands this library the values they produce.

pub mod console;
pub mod err;
pub mod frame_buffer;
pub mod pci;
