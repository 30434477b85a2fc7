//! A verified CHIP-8 interpreter core: machine state, the fetch-decode-execute
//! cycle, and the full opcode semantics table. Rendering, input polling and
//! ROM acquisition are host concerns and live outside this crate.
use vstd::prelude::*;

pub mod emu;
pub mod error;
pub mod laws;
mod rng;
pub mod state;

pub use emu::Emu;
pub use error::EmuError;

verus! {

pub const SCREEN_WIDTH: usize = 64;

pub const SCREEN_HEIGHT: usize = 32;

/// Combines screen coordinates into a row-major framebuffer index.
pub fn encode(x: usize, y: usize, width: usize) -> (idx: usize)
    requires
        y * width + x <= usize::MAX,
    ensures
        idx == y * width + x,
{
    y * width + x
}

/// Splits a row-major framebuffer index back into screen coordinates.
pub fn decode(index: usize, width: usize) -> (xy: (usize, usize))
    requires
        width > 0,
    ensures
        xy.0 == index % width,
        xy.1 == index / width,
{
    let x = index % width;
    let y = index / width;
    (x, y)
}

/// Reassembles an instruction word from its four decoded nibbles, most
/// significant first.
pub fn reconstruct_op(d1: u8, d2: u8, d3: u8, d4: u8) -> (op: u16)
    requires
        d1 < 16,
        d2 < 16,
        d3 < 16,
        d4 < 16,
    ensures
        op as int == d1 * 0x1000 + d2 * 0x100 + d3 * 0x10 + d4,
{
    let d1 = d1 as u16;
    let d2 = d2 as u16;
    let d3 = d3 as u16;
    let d4 = d4 as u16;
    d1 * 0x1000 + d2 * 0x100 + d3 * 0x10 + d4
}

} // verus!
