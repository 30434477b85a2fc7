//! The typed error conditions that the interpreter core can report.
//!
//! Every core-mutating operation returns either success or one of these
//! conditions; none of them terminates the process, so a host may report the
//! fault and decide whether to halt, reset, or continue stepping.
use vstd::prelude::*;

verus! {

/// A recoverable fault reported by the interpreter core.
#[derive(Clone, Copy, Debug, PartialEq, Eq, Structural)]
pub enum EmuError {
    /// A memory access would fall outside the 4096-byte address space: a ROM
    /// too large for the load region, or an instruction whose computed
    /// addresses (from the index register or the program counter) would read
    /// or write past the end of memory.
    OutOfMemory,
    /// The fetched instruction word matches no defined pattern. Carries the
    /// word and its four decoded nibbles, most significant first.
    UnknownOpcode { op: u16, d1: u16, d2: u16, d3: u16, d4: u16 },
    /// A return instruction was executed with an empty call stack.
    StackUnderflow,
    /// A key index outside 0..16 was supplied, either by the host or by a
    /// key-test instruction whose register holds a value above 15.
    InvalidKey,
    /// A register index outside 0..16 was supplied. Decoding yields 4-bit
    /// register indices, so the core itself never produces this condition;
    /// it is reserved for hosts that construct register accesses directly.
    RegisterIndexOutOfRange,
}

} // verus!
