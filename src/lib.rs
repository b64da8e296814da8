//! Signature scanning and crash-safe patching of x86-64 code.
//!
//! A signature such as `"48 8B ?? ?? 89"` is compiled to bytes and searched
//! for with a wildcard-aware KMP scan in a snapshot of an image's code
//! section. Code is patched through protected writes on a model of an
//! address range: the flags of the range are switched to read/write/execute
//! for each access and put back after it, and every patch returns the bytes
//! it replaced so that it can be undone.

pub mod encode;
pub mod error;
pub mod image;
pub mod instruction;
pub mod memory;
pub mod patch;
pub mod pattern;

pub use error::{AobScanError, ReadMemoryError, WriteMemoryError};
pub use instruction::{Instruction, InstructionVecExt};
