//! Host side of a provable memory-erasure protocol.
//!
//! The host fills the memory of a device with ciphertext and then asks the device to recover the
//! encryption key from a block that depends on every byte that was written. A device that has kept
//! all of the data can do so.
//!
//! This crate holds what the host decides and computes. Talking to the serial port is left to the
//! program around it.

pub mod binary;
pub mod cipher;
pub mod elf_file;
pub mod listing;
pub mod progress;
mod random;
pub mod recovery;
pub mod serial;
pub mod shiftxor;
pub mod text;
pub mod transfer;
pub mod writer;
