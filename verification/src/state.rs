//! The mathematical model of the machine and the full instruction semantics.
//!
//! `State` mirrors the interpreter's aggregate as plain sequences and
//! integers, and `step` is the specification of one decoded instruction:
//! every executable operation of the core is verified against these
//! definitions.
use vstd::prelude::*;

use crate::error::EmuError;

verus! {

/// Bytes of addressable memory.
pub const RAM_SIZE: usize = 4096;

/// Number of general-purpose 8-bit registers.
pub const V_REGISTER_COUNT: usize = 16;

/// Number of keys on the input pad.
pub const NUM_KEYS: usize = 16;

/// Address at which a loaded program begins.
pub const START_ADDR: u16 = 0x200;

/// Bytes occupied by the built-in font: 16 glyphs of 5 bytes each.
pub const FONTSET_SIZE: usize = 80;

/// The built-in glyph font, one 5-byte glyph per hexadecimal digit 0-F,
/// preloaded at the bottom of memory.
pub const FONTSET: [u8; 80] = [
    0xF0, 0x90, 0x90, 0x90, 0xF0, // 0
    0x20, 0x60, 0x20, 0x20, 0x70, // 1
    0xF0, 0x10, 0xF0, 0x80, 0xF0, // 2
    0xF0, 0x10, 0xF0, 0x10, 0xF0, // 3
    0x90, 0x90, 0xF0, 0x10, 0x10, // 4
    0xF0, 0x80, 0xF0, 0x10, 0xF0, // 5
    0xF0, 0x80, 0xF0, 0x90, 0xF0, // 6
    0xF0, 0x10, 0x20, 0x40, 0x40, // 7
    0xF0, 0x90, 0xF0, 0x90, 0xF0, // 8
    0xF0, 0x90, 0xF0, 0x10, 0xF0, // 9
    0xF0, 0x90, 0xF0, 0x90, 0x90, // A
    0xF0, 0x90, 0xE0, 0x90, 0xE0, // B
    0xF0, 0x80, 0x80, 0x80, 0xF0, // C
    0xF0, 0x90, 0x90, 0x90, 0xE0, // D
    0xF0, 0x80, 0xF0, 0x80, 0xF0, // E
    0xF0, 0x80, 0xF0, 0x80, 0x80, // F
];

/// The abstract machine state: the value of every component of the
/// interpreter, with memory, registers, framebuffer, stack and keypad as
/// plain sequences.
#[verifier::ext_equal]
pub struct State {
    /// Address of the next instruction to fetch.
    pub pc: u16,
    /// The 4096 bytes of memory.
    pub ram: Seq<u8>,
    /// The framebuffer, row-major, `y * 64 + x`.
    pub screen: Seq<bool>,
    /// The 16 general-purpose registers V0-VF.
    pub vregs: Seq<u8>,
    /// The 16-bit index register.
    pub ireg: u16,
    /// Return addresses; the last element is the top of the stack.
    pub stack: Seq<u16>,
    /// Press state of the 16 keys.
    pub keys: Seq<bool>,
    /// The delay timer.
    pub dt: u8,
    /// The sound timer.
    pub st: u8,
}

/// Well-formedness: every fixed-size component has its size.
pub open spec fn wf_state(s: State) -> bool {
    &&& s.ram.len() == RAM_SIZE
    &&& s.screen.len() == crate::SCREEN_WIDTH * crate::SCREEN_HEIGHT
    &&& s.vregs.len() == V_REGISTER_COUNT
    &&& s.keys.len() == NUM_KEYS
}

/// Highest nibble of an instruction word.
pub open spec fn nib1(op: u16) -> u16 {
    op / 0x1000
}

/// Second nibble; selects register x.
pub open spec fn nib2(op: u16) -> u16 {
    (op / 0x100) % 0x10
}

/// Third nibble; selects register y.
pub open spec fn nib3(op: u16) -> u16 {
    (op / 0x10) % 0x10
}

/// Lowest nibble.
pub open spec fn nib4(op: u16) -> u16 {
    op % 0x10
}

/// The 8-bit immediate: the low byte of the word.
pub open spec fn imm_nn(op: u16) -> u8 {
    (op % 0x100) as u8
}

/// The 12-bit address: the low three nibbles of the word.
pub open spec fn addr_nnn(op: u16) -> u16 {
    op % 0x1000
}

/// 16-bit wraparound of an arbitrary integer.
pub open spec fn wrap16(v: int) -> u16 {
    (v % 0x10000) as u16
}

/// 8-bit wraparound of an arbitrary integer.
pub open spec fn wrap8(v: int) -> u8 {
    (v % 0x100) as u8
}

/// The machine as constructed: font preloaded, everything else zeroed.
pub open spec fn initial_state() -> State {
    State {
        pc: START_ADDR,
        ram: Seq::new(RAM_SIZE as nat, |i: int| if i < FONTSET_SIZE { FONTSET[i] } else { 0u8 }),
        screen: Seq::new((crate::SCREEN_WIDTH * crate::SCREEN_HEIGHT) as nat, |i: int| false),
        vregs: Seq::new(V_REGISTER_COUNT as nat, |i: int| 0u8),
        ireg: 0,
        stack: Seq::empty(),
        keys: Seq::new(NUM_KEYS as nat, |i: int| false),
        dt: 0,
        st: 0,
    }
}

/// One timer tick: each nonzero counter goes down by one and stops at zero.
pub open spec fn timers_step(s: State) -> State {
    State {
        dt: if s.dt > 0 { (s.dt - 1) as u8 } else { 0u8 },
        st: if s.st > 0 { (s.st - 1) as u8 } else { 0u8 },
        ..s
    }
}

/// Memory after a program image is copied in at the load address.
pub open spec fn load_into(ram: Seq<u8>, bytes: Seq<u8>) -> Seq<u8> {
    Seq::new(
        ram.len(),
        |i: int|
            if START_ADDR <= i < START_ADDR + bytes.len() {
                bytes[i - START_ADDR]
            } else {
                ram[i]
            },
    )
}

/// The program counter after an optional skip of one instruction.
pub open spec fn skip_pc(s: State, cond: bool) -> State {
    if cond {
        State { pc: wrap16(s.pc + 2), ..s }
    } else {
        s
    }
}

/// Whether the sprite byte `b` has the pixel for column `col` set
/// (most significant bit first).
pub open spec fn sprite_pixel(b: u8, col: int) -> bool {
    b & (0x80u8 >> (col as u8)) != 0
}

/// Framebuffer index that sprite cell (`row`, `col`) lands on when the
/// sprite is drawn at (`x0`, `y0`); coordinates wrap, not clip.
pub open spec fn target_idx(x0: int, y0: int, row: int, col: int) -> int {
    ((y0 + row) % (crate::SCREEN_HEIGHT as int)) * (crate::SCREEN_WIDTH as int) + (x0 + col)
        % (crate::SCREEN_WIDTH as int)
}

/// Whether sprite cell (`r`, `c`) comes strictly before (`row`, `col`) in
/// row-major drawing order.
pub open spec fn pair_before(row: int, col: int, r: int, c: int) -> bool {
    r < row || (r == row && c < col)
}

/// Whether some set sprite pixel drawn before position (`row`, `col`) lands
/// on framebuffer index `idx`.
pub open spec fn flips_upto(
    ram: Seq<u8>,
    base: int,
    x0: int,
    y0: int,
    row: int,
    col: int,
    idx: int,
) -> bool {
    exists|r: int, c: int|
        0 <= r && 0 <= c < 8 && pair_before(row, col, r, c) && sprite_pixel(ram[base + r], c)
            && #[trigger] target_idx(x0, y0, r, c) == idx
}

/// The framebuffer after the sprite cells before position (`row`, `col`)
/// have been XORed in.
pub open spec fn screen_upto(
    screen: Seq<bool>,
    ram: Seq<u8>,
    base: int,
    x0: int,
    y0: int,
    row: int,
    col: int,
) -> Seq<bool> {
    Seq::new(
        screen.len(),
        |idx: int|
            if flips_upto(ram, base, x0, y0, row, col, idx) {
                !screen[idx]
            } else {
                screen[idx]
            },
    )
}

/// Whether some set sprite pixel before position (`row`, `col`) lands on a
/// framebuffer cell that was set before the draw began.
pub open spec fn collision_upto(
    screen: Seq<bool>,
    ram: Seq<u8>,
    base: int,
    x0: int,
    y0: int,
    row: int,
    col: int,
) -> bool {
    exists|r: int, c: int|
        0 <= r && 0 <= c < 8 && pair_before(row, col, r, c) && sprite_pixel(ram[base + r], c)
            && screen[#[trigger] target_idx(x0, y0, r, c)]
}

/// The framebuffer after an `n`-row sprite at memory `base` is drawn at
/// (`x0`, `y0`): every cell hit by a set sprite pixel is toggled.
pub open spec fn draw_screen(
    screen: Seq<bool>,
    ram: Seq<u8>,
    base: int,
    x0: int,
    y0: int,
    n: int,
) -> Seq<bool> {
    screen_upto(screen, ram, base, x0, y0, n, 0)
}

/// Whether drawing that sprite turns any previously set cell off.
pub open spec fn draw_collision(
    screen: Seq<bool>,
    ram: Seq<u8>,
    base: int,
    x0: int,
    y0: int,
    n: int,
) -> bool {
    collision_upto(screen, ram, base, x0, y0, n, 0)
}

/// Index of the lowest-numbered pressed key at or above `i`, or `keys.len()`
/// if none is pressed there.
pub open spec fn lowest_pressed_from(keys: Seq<bool>, i: int) -> int
    decreases keys.len() - i,
{
    if i < 0 || i >= keys.len() {
        keys.len() as int
    } else if keys[i] {
        i
    } else {
        lowest_pressed_from(keys, i + 1)
    }
}

/// Index of the lowest-numbered pressed key, or `keys.len()` if none.
pub open spec fn lowest_pressed(keys: Seq<bool>) -> int {
    lowest_pressed_from(keys, 0)
}

/// The `UnknownOpcode` condition for a word, with its decoded fields.
pub open spec fn unknown(op: u16) -> EmuError {
    EmuError::UnknownOpcode { op, d1: nib1(op), d2: nib2(op), d3: nib3(op), d4: nib4(op) }
}

/// Semantics of the arithmetic-logic group `0x8xy?`.
///
/// Flag writes happen before the result write, so when x selects VF the
/// result wins; the two shift forms read the register again after the flag
/// write, exactly in the order the handlers perform the writes.
pub open spec fn step_alu(s: State, op: u16) -> Result<State, EmuError> {
    let x = nib2(op) as int;
    let y = nib3(op) as int;
    let d4 = nib4(op);
    let vx = s.vregs[x];
    let vy = s.vregs[y];
    if d4 == 0 {
        Ok(State { vregs: s.vregs.update(x, vy), ..s })
    } else if d4 == 1 {
        Ok(State { vregs: s.vregs.update(x, vx | vy), ..s })
    } else if d4 == 2 {
        Ok(State { vregs: s.vregs.update(x, vx & vy), ..s })
    } else if d4 == 3 {
        Ok(State { vregs: s.vregs.update(x, vx ^ vy), ..s })
    } else if d4 == 4 {
        let flag: u8 = if vx as int + vy as int > 255 { 1 } else { 0 };
        Ok(State { vregs: s.vregs.update(15, flag).update(x, wrap8(vx as int + vy as int)), ..s })
    } else if d4 == 5 {
        let flag: u8 = if vx >= vy { 1 } else { 0 };
        Ok(State { vregs: s.vregs.update(15, flag).update(x, wrap8(vx as int - vy as int)), ..s })
    } else if d4 == 6 {
        let v1 = s.vregs.update(15, (vx as int % 2) as u8);
        Ok(State { vregs: v1.update(x, (v1[x] as int / 2) as u8), ..s })
    } else if d4 == 7 {
        let flag: u8 = if vy >= vx { 1 } else { 0 };
        Ok(State { vregs: s.vregs.update(15, flag).update(x, wrap8(vy as int - vx as int)), ..s })
    } else if d4 == 0xE {
        let v1 = s.vregs.update(15, (vx as int / 128) as u8);
        Ok(State { vregs: v1.update(x, wrap8(v1[x] as int * 2)), ..s })
    } else {
        Err(unknown(op))
    }
}

/// Semantics of the draw-sprite instruction `0xDxyn`: rejected before any
/// mutation if the sprite rows would be read past the end of memory.
pub open spec fn step_draw(s: State, op: u16) -> Result<State, EmuError> {
    let n = nib4(op) as int;
    if s.ireg as int + n > RAM_SIZE {
        Err(EmuError::OutOfMemory)
    } else {
        let x0 = s.vregs[nib2(op) as int] as int;
        let y0 = s.vregs[nib3(op) as int] as int;
        let base = s.ireg as int;
        let flag: u8 = if draw_collision(s.screen, s.ram, base, x0, y0, n) { 1 } else { 0 };
        Ok(
            State {
                screen: draw_screen(s.screen, s.ram, base, x0, y0, n),
                vregs: s.vregs.update(15, flag),
                ..s
            },
        )
    }
}

/// Semantics of the `0xFx??` group.
pub open spec fn step_misc(s: State, op: u16) -> Result<State, EmuError> {
    let x = nib2(op) as int;
    let d3 = nib3(op);
    let d4 = nib4(op);
    let vx = s.vregs[x];
    if d3 == 0 && d4 == 7 {
        Ok(State { vregs: s.vregs.update(x, s.dt), ..s })
    } else if d3 == 0 && d4 == 0xA {
        let k = lowest_pressed(s.keys);
        if k < NUM_KEYS {
            Ok(State { vregs: s.vregs.update(x, k as u8), ..s })
        } else {
            Ok(State { pc: wrap16(s.pc - 2), ..s })
        }
    } else if d3 == 1 && d4 == 5 {
        Ok(State { dt: vx, ..s })
    } else if d3 == 1 && d4 == 8 {
        Ok(State { st: vx, ..s })
    } else if d3 == 1 && d4 == 0xE {
        Ok(State { ireg: wrap16(s.ireg + vx), ..s })
    } else if d3 == 2 && d4 == 9 {
        Ok(State { ireg: (vx * 5) as u16, ..s })
    } else if d3 == 3 && d4 == 3 {
        if s.ireg as int + 2 >= RAM_SIZE {
            Err(EmuError::OutOfMemory)
        } else {
            let i = s.ireg as int;
            Ok(
                State {
                    ram: s.ram.update(i, ((vx as int / 100) % 10) as u8).update(
                        i + 1,
                        ((vx as int / 10) % 10) as u8,
                    ).update(i + 2, (vx as int % 10) as u8),
                    ..s
                },
            )
        }
    } else if d3 == 5 && d4 == 5 {
        if s.ireg as int + x >= RAM_SIZE {
            Err(EmuError::OutOfMemory)
        } else {
            let i = s.ireg as int;
            Ok(
                State {
                    ram: Seq::new(
                        s.ram.len(),
                        |j: int| if i <= j <= i + x { s.vregs[j - i] } else { s.ram[j] },
                    ),
                    ..s
                },
            )
        }
    } else if d3 == 6 && d4 == 5 {
        if s.ireg as int + x >= RAM_SIZE {
            Err(EmuError::OutOfMemory)
        } else {
            let i = s.ireg as int;
            Ok(
                State {
                    vregs: Seq::new(
                        s.vregs.len(),
                        |j: int| if j <= x { s.ram[i + j] } else { s.vregs[j] },
                    ),
                    ..s
                },
            )
        }
    } else {
        Err(unknown(op))
    }
}

/// Semantics of one decoded instruction: the state after executing word
/// `op` in state `s`, or the typed condition it reports. `rnd` is the byte
/// the random-number source supplies; only `0xCxnn` reads it.
pub open spec fn step(s: State, op: u16, rnd: u8) -> Result<State, EmuError> {
    let d1 = nib1(op);
    let d4 = nib4(op);
    let x = nib2(op) as int;
    let y = nib3(op) as int;
    if op == 0x0000 {
        Ok(s)
    } else if op == 0x00E0 {
        Ok(State { screen: Seq::new(s.screen.len(), |i: int| false), ..s })
    } else if op == 0x00EE {
        if s.stack.len() == 0 {
            Err(EmuError::StackUnderflow)
        } else {
            Ok(State { pc: s.stack.last(), stack: s.stack.drop_last(), ..s })
        }
    } else if d1 == 1 {
        Ok(State { pc: addr_nnn(op), ..s })
    } else if d1 == 2 {
        Ok(State { stack: s.stack.push(s.pc), pc: addr_nnn(op), ..s })
    } else if d1 == 3 {
        Ok(skip_pc(s, s.vregs[x] == imm_nn(op)))
    } else if d1 == 4 {
        Ok(skip_pc(s, s.vregs[x] != imm_nn(op)))
    } else if d1 == 5 && d4 == 0 {
        Ok(skip_pc(s, s.vregs[x] == s.vregs[y]))
    } else if d1 == 6 {
        Ok(State { vregs: s.vregs.update(x, imm_nn(op)), ..s })
    } else if d1 == 7 {
        Ok(State { vregs: s.vregs.update(x, wrap8(s.vregs[x] + imm_nn(op))), ..s })
    } else if d1 == 8 {
        step_alu(s, op)
    } else if d1 == 9 && d4 == 0 {
        Ok(skip_pc(s, s.vregs[x] != s.vregs[y]))
    } else if d1 == 0xA {
        Ok(State { ireg: addr_nnn(op), ..s })
    } else if d1 == 0xB {
        Ok(State { pc: wrap16(s.vregs[0] + addr_nnn(op)), ..s })
    } else if d1 == 0xC {
        Ok(State { vregs: s.vregs.update(x, rnd & imm_nn(op)), ..s })
    } else if d1 == 0xD {
        step_draw(s, op)
    } else if d1 == 0xE && nib3(op) == 9 && d4 == 0xE {
        if s.vregs[x] as int >= NUM_KEYS {
            Err(EmuError::InvalidKey)
        } else {
            Ok(skip_pc(s, s.keys[s.vregs[x] as int]))
        }
    } else if d1 == 0xE && nib3(op) == 0xA && d4 == 1 {
        if s.vregs[x] as int >= NUM_KEYS {
            Err(EmuError::InvalidKey)
        } else {
            Ok(skip_pc(s, !s.keys[s.vregs[x] as int]))
        }
    } else if d1 == 0xF {
        step_misc(s, op)
    } else {
        Err(unknown(op))
    }
}

/// Whether the outcome of `execute` - the final state `post` and the result
/// `r` - is the one `step` prescribes for `pre`, `op` and random byte `rnd`:
/// the prescribed state on success, the prescribed condition and an
/// unchanged machine on failure.
pub open spec fn step_obeys(
    pre: State,
    post: State,
    r: Result<(), EmuError>,
    op: u16,
    rnd: u8,
) -> bool {
    match step(pre, op, rnd) {
        Ok(s2) => r == Ok::<(), EmuError>(()) && post == s2,
        Err(e) => r == Err::<(), EmuError>(e) && post == pre,
    }
}

/// The instruction word fetched at the program counter: two consecutive
/// bytes combined big-endian.
pub open spec fn fetch_word(s: State) -> u16 {
    (s.ram[s.pc as int] as int * 256 + s.ram[s.pc as int + 1] as int) as u16
}

/// Semantics of one full fetch-decode-execute cycle: the fetch is rejected
/// if the program counter has run past the end of memory; otherwise the
/// counter is advanced past the word before the instruction acts.
pub open spec fn tick_step(s: State, rnd: u8) -> Result<State, EmuError> {
    if s.pc as int + 1 >= RAM_SIZE {
        Err(EmuError::OutOfMemory)
    } else {
        step(State { pc: (s.pc + 2) as u16, ..s }, fetch_word(s), rnd)
    }
}

/// Whether the outcome of `tick` is the one `tick_step` prescribes.
pub open spec fn tick_obeys(pre: State, post: State, r: Result<(), EmuError>, rnd: u8) -> bool {
    match tick_step(pre, rnd) {
        Ok(s2) => r == Ok::<(), EmuError>(()) && post == s2,
        Err(e) => r == Err::<(), EmuError>(e) && post == pre,
    }
}

/// Decoding inverts composing: a word assembled from four nibbles decodes
/// back into exactly those nibbles, with the expected immediate and
/// address fields.
pub proof fn lemma_nibs_compose(d1: u16, d2: u16, d3: u16, d4: u16)
    requires
        d1 < 16,
        d2 < 16,
        d3 < 16,
        d4 < 16,
    ensures
        ({
            let op = (d1 * 0x1000 + d2 * 0x100 + d3 * 0x10 + d4) as u16;
            nib1(op) == d1 && nib2(op) == d2 && nib3(op) == d3 && nib4(op) == d4 && imm_nn(op)
                as int == d3 * 0x10 + d4 && addr_nnn(op) as int == d2 * 0x100 + d3 * 0x10 + d4
        }),
{
    let op = (d1 * 0x1000 + d2 * 0x100 + d3 * 0x10 + d4) as int;
    vstd::arithmetic::div_mod::lemma_fundamental_div_mod_converse(
        op,
        0x1000,
        d1 as int,
        d2 as int * 0x100 + d3 as int * 0x10 + d4 as int,
    );
    vstd::arithmetic::div_mod::lemma_fundamental_div_mod_converse(
        op,
        0x100,
        d1 as int * 0x10 + d2 as int,
        d3 as int * 0x10 + d4 as int,
    );
    vstd::arithmetic::div_mod::lemma_fundamental_div_mod_converse(
        d1 as int * 0x10 + d2 as int,
        0x10,
        d1 as int,
        d2 as int,
    );
    vstd::arithmetic::div_mod::lemma_fundamental_div_mod_converse(
        op,
        0x10,
        d1 as int * 0x100 + d2 as int * 0x10 + d3 as int,
        d4 as int,
    );
    vstd::arithmetic::div_mod::lemma_fundamental_div_mod_converse(
        d1 as int * 0x100 + d2 as int * 0x10 + d3 as int,
        0x10,
        d1 as int * 0x10 + d2 as int,
        d3 as int,
    );
}

/// A key found pressed at `i` is the lowest pressed key at or above `i`.
pub proof fn lemma_lowest_hit(keys: Seq<bool>, i: int)
    requires
        0 <= i < keys.len(),
        keys[i],
    ensures
        lowest_pressed_from(keys, i) == i,
{
}

/// Scanning past an unpressed key does not change what is found.
pub proof fn lemma_lowest_skip(keys: Seq<bool>, i: int)
    requires
        0 <= i < keys.len(),
        !keys[i],
    ensures
        lowest_pressed_from(keys, i) == lowest_pressed_from(keys, i + 1),
{
}

/// A scan that starts past the end finds nothing.
pub proof fn lemma_lowest_end(keys: Seq<bool>)
    ensures
        lowest_pressed_from(keys, keys.len() as int) == keys.len(),
{
}

/// The lowest pressed key really is pressed, and none below it is.
pub proof fn lemma_lowest_pressed_from(keys: Seq<bool>, i: int)
    requires
        0 <= i <= keys.len(),
    ensures
        i <= lowest_pressed_from(keys, i) <= keys.len(),
        lowest_pressed_from(keys, i) < keys.len() ==> keys[lowest_pressed_from(keys, i)],
        forall|j: int| i <= j < lowest_pressed_from(keys, i) ==> !keys[j],
    decreases keys.len() - i,
{
    if i < keys.len() && !keys[i] {
        lemma_lowest_pressed_from(keys, i + 1);
    }
}

/// Distinct cells of one sprite land on distinct framebuffer cells: the
/// sprite is at most 15 rows by 8 columns, smaller than the 32 x 64 grid it
/// wraps over, so the draw loop touches no cell twice.
pub proof fn lemma_target_injective(x0: int, y0: int, r1: int, c1: int, r2: int, c2: int)
    requires
        0 <= x0,
        0 <= y0,
        0 <= r1 < 32,
        0 <= r2 < 32,
        0 <= c1 < 8,
        0 <= c2 < 8,
        !(r1 == r2 && c1 == c2),
    ensures
        target_idx(x0, y0, r1, c1) != target_idx(x0, y0, r2, c2),
{
    vstd::arithmetic::div_mod::lemma_mod_bound(y0 + r1, 32);
    vstd::arithmetic::div_mod::lemma_mod_bound(y0 + r2, 32);
    vstd::arithmetic::div_mod::lemma_mod_bound(x0 + c1, 64);
    vstd::arithmetic::div_mod::lemma_mod_bound(x0 + c2, 64);
    if target_idx(x0, y0, r1, c1) == target_idx(x0, y0, r2, c2) {
        assert((y0 + r1) % 32 == (y0 + r2) % 32 && (x0 + c1) % 64 == (x0 + c2) % 64);
        vstd::arithmetic::div_mod::lemma_fundamental_div_mod(y0 + r1, 32);
        vstd::arithmetic::div_mod::lemma_fundamental_div_mod(y0 + r2, 32);
        vstd::arithmetic::div_mod::lemma_fundamental_div_mod(x0 + c1, 64);
        vstd::arithmetic::div_mod::lemma_fundamental_div_mod(x0 + c2, 64);
        let qr1 = (y0 + r1) / 32;
        let qr2 = (y0 + r2) / 32;
        let qc1 = (x0 + c1) / 64;
        let qc2 = (x0 + c2) / 64;
        assert(r1 - r2 == 32 * (qr1 - qr2));
        assert(c1 - c2 == 64 * (qc1 - qc2));
        assert(-32 < r1 - r2 < 32);
        assert(-8 < c1 - c2 < 8);
        assert(r1 == r2 && c1 == c2);
    }
}

/// No sprite cell drawn before (`row`, `col`) lands on the framebuffer cell
/// that (`row`, `col`) itself lands on.
pub proof fn lemma_no_earlier_hit(
    ram: Seq<u8>,
    base: int,
    x0: int,
    y0: int,
    row: int,
    col: int,
)
    requires
        0 <= x0,
        0 <= y0,
        0 <= row < 16,
        0 <= col < 8,
    ensures
        !flips_upto(ram, base, x0, y0, row, col, target_idx(x0, y0, row, col)),
{
    let t = target_idx(x0, y0, row, col);
    if flips_upto(ram, base, x0, y0, row, col, t) {
        let (r, c) = choose|r: int, c: int|
            0 <= r && 0 <= c < 8 && pair_before(row, col, r, c) && sprite_pixel(
                ram[base + r],
                c,
            ) && #[trigger] target_idx(x0, y0, r, c) == t;
        lemma_target_injective(x0, y0, r, c, row, col);
    }
}

/// Passing over an unset sprite pixel adds nothing to what is flipped or
/// collided with.
pub proof fn lemma_upto_skip(
    screen: Seq<bool>,
    ram: Seq<u8>,
    base: int,
    x0: int,
    y0: int,
    row: int,
    col: int,
)
    requires
        !sprite_pixel(ram[base + row], col),
    ensures
        forall|idx: int|
            flips_upto(ram, base, x0, y0, row, col + 1, idx) == flips_upto(
                ram,
                base,
                x0,
                y0,
                row,
                col,
                idx,
            ),
        collision_upto(screen, ram, base, x0, y0, row, col + 1) == collision_upto(
            screen,
            ram,
            base,
            x0,
            y0,
            row,
            col,
        ),
{
    assert forall|idx: int|
        flips_upto(ram, base, x0, y0, row, col + 1, idx) == flips_upto(
            ram,
            base,
            x0,
            y0,
            row,
            col,
            idx,
        ) by {
        if flips_upto(ram, base, x0, y0, row, col + 1, idx) {
            let (r, c) = choose|r: int, c: int|
                0 <= r && 0 <= c < 8 && pair_before(row, col + 1, r, c) && sprite_pixel(
                    ram[base + r],
                    c,
                ) && #[trigger] target_idx(x0, y0, r, c) == idx;
            assert(pair_before(row, col, r, c));
        }
        if flips_upto(ram, base, x0, y0, row, col, idx) {
            let (r, c) = choose|r: int, c: int|
                0 <= r && 0 <= c < 8 && pair_before(row, col, r, c) && sprite_pixel(
                    ram[base + r],
                    c,
                ) && #[trigger] target_idx(x0, y0, r, c) == idx;
            assert(pair_before(row, col + 1, r, c));
        }
    }
    if collision_upto(screen, ram, base, x0, y0, row, col + 1) {
        let (r, c) = choose|r: int, c: int|
            0 <= r && 0 <= c < 8 && pair_before(row, col + 1, r, c) && sprite_pixel(
                ram[base + r],
                c,
            ) && screen[#[trigger] target_idx(x0, y0, r, c)];
        assert(pair_before(row, col, r, c));
        assert(collision_upto(screen, ram, base, x0, y0, row, col));
    }
    if collision_upto(screen, ram, base, x0, y0, row, col) {
        let (r, c) = choose|r: int, c: int|
            0 <= r && 0 <= c < 8 && pair_before(row, col, r, c) && sprite_pixel(
                ram[base + r],
                c,
            ) && screen[#[trigger] target_idx(x0, y0, r, c)];
        assert(pair_before(row, col + 1, r, c));
        assert(collision_upto(screen, ram, base, x0, y0, row, col + 1));
    }
}

/// Finishing a sprite row is the same as standing at the start of the next.
pub proof fn lemma_upto_next_row(
    screen: Seq<bool>,
    ram: Seq<u8>,
    base: int,
    x0: int,
    y0: int,
    row: int,
)
    ensures
        forall|idx: int|
            flips_upto(ram, base, x0, y0, row, 8, idx) == flips_upto(
                ram,
                base,
                x0,
                y0,
                row + 1,
                0,
                idx,
            ),
        collision_upto(screen, ram, base, x0, y0, row, 8) == collision_upto(
            screen,
            ram,
            base,
            x0,
            y0,
            row + 1,
            0,
        ),
{
    assert forall|idx: int|
        flips_upto(ram, base, x0, y0, row, 8, idx) == flips_upto(
            ram,
            base,
            x0,
            y0,
            row + 1,
            0,
            idx,
        ) by {
        if flips_upto(ram, base, x0, y0, row, 8, idx) {
            let (r, c) = choose|r: int, c: int|
                0 <= r && 0 <= c < 8 && pair_before(row, 8, r, c) && sprite_pixel(
                    ram[base + r],
                    c,
                ) && #[trigger] target_idx(x0, y0, r, c) == idx;
            assert(pair_before(row + 1, 0, r, c));
        }
        if flips_upto(ram, base, x0, y0, row + 1, 0, idx) {
            let (r, c) = choose|r: int, c: int|
                0 <= r && 0 <= c < 8 && pair_before(row + 1, 0, r, c) && sprite_pixel(
                    ram[base + r],
                    c,
                ) && #[trigger] target_idx(x0, y0, r, c) == idx;
            assert(pair_before(row, 8, r, c));
        }
    }
    if collision_upto(screen, ram, base, x0, y0, row, 8) {
        let (r, c) = choose|r: int, c: int|
            0 <= r && 0 <= c < 8 && pair_before(row, 8, r, c) && sprite_pixel(ram[base + r], c)
                && screen[#[trigger] target_idx(x0, y0, r, c)];
        assert(pair_before(row + 1, 0, r, c));
        assert(collision_upto(screen, ram, base, x0, y0, row + 1, 0));
    }
    if collision_upto(screen, ram, base, x0, y0, row + 1, 0) {
        let (r, c) = choose|r: int, c: int|
            0 <= r && 0 <= c < 8 && pair_before(row + 1, 0, r, c) && sprite_pixel(
                ram[base + r],
                c,
            ) && screen[#[trigger] target_idx(x0, y0, r, c)];
        assert(pair_before(row, 8, r, c));
        assert(collision_upto(screen, ram, base, x0, y0, row, 8));
    }
}

/// Drawing one set sprite pixel: its own cell is newly flipped - and was
/// not flipped by any earlier cell - while every other framebuffer cell is
/// exactly as the earlier cells left it, and a collision is recorded iff one
/// was already recorded or that cell was set at the start.
pub proof fn lemma_upto_set(
    screen: Seq<bool>,
    ram: Seq<u8>,
    base: int,
    x0: int,
    y0: int,
    row: int,
    col: int,
)
    requires
        0 <= x0,
        0 <= y0,
        0 <= row < 16,
        0 <= col < 8,
        sprite_pixel(ram[base + row], col),
    ensures
        !flips_upto(ram, base, x0, y0, row, col, target_idx(x0, y0, row, col)),
        flips_upto(ram, base, x0, y0, row, col + 1, target_idx(x0, y0, row, col)),
        forall|idx: int|
            idx != target_idx(x0, y0, row, col) ==> flips_upto(ram, base, x0, y0, row, col + 1, idx)
                == flips_upto(ram, base, x0, y0, row, col, idx),
        collision_upto(screen, ram, base, x0, y0, row, col + 1) == (collision_upto(
            screen,
            ram,
            base,
            x0,
            y0,
            row,
            col,
        ) || screen[target_idx(x0, y0, row, col)]),
{
    let t = target_idx(x0, y0, row, col);
    lemma_no_earlier_hit(ram, base, x0, y0, row, col);
    assert(pair_before(row, col + 1, row, col));
    assert(flips_upto(ram, base, x0, y0, row, col + 1, t));
    assert forall|idx: int|
        idx != t implies flips_upto(ram, base, x0, y0, row, col + 1, idx) == flips_upto(
        ram,
        base,
        x0,
        y0,
        row,
        col,
        idx,
    ) by {
        if flips_upto(ram, base, x0, y0, row, col + 1, idx) {
            let (r, c) = choose|r: int, c: int|
                0 <= r && 0 <= c < 8 && pair_before(row, col + 1, r, c) && sprite_pixel(
                    ram[base + r],
                    c,
                ) && #[trigger] target_idx(x0, y0, r, c) == idx;
            assert(!(r == row && c == col));
            assert(pair_before(row, col, r, c));
        }
        if flips_upto(ram, base, x0, y0, row, col, idx) {
            let (r, c) = choose|r: int, c: int|
                0 <= r && 0 <= c < 8 && pair_before(row, col, r, c) && sprite_pixel(
                    ram[base + r],
                    c,
                ) && #[trigger] target_idx(x0, y0, r, c) == idx;
            assert(pair_before(row, col + 1, r, c));
        }
    }
    if collision_upto(screen, ram, base, x0, y0, row, col) {
        let (r, c) = choose|r: int, c: int|
            0 <= r && 0 <= c < 8 && pair_before(row, col, r, c) && sprite_pixel(ram[base + r], c)
                && screen[#[trigger] target_idx(x0, y0, r, c)];
        assert(pair_before(row, col + 1, r, c));
        assert(collision_upto(screen, ram, base, x0, y0, row, col + 1));
    }
    if screen[t] {
        assert(collision_upto(screen, ram, base, x0, y0, row, col + 1));
    }
    if collision_upto(screen, ram, base, x0, y0, row, col + 1) && !screen[t] {
        let (r, c) = choose|r: int, c: int|
            0 <= r && 0 <= c < 8 && pair_before(row, col + 1, r, c) && sprite_pixel(
                ram[base + r],
                c,
            ) && screen[#[trigger] target_idx(x0, y0, r, c)];
        assert(!(r == row && c == col));
        assert(pair_before(row, col, r, c));
        assert(collision_upto(screen, ram, base, x0, y0, row, col));
    }
}

} // verus!

