//! The executable interpreter: machine state and the fetch-decode-execute
//! cycle, verified against the model in [`crate::state`].
use vstd::prelude::*;

use crate::error::EmuError;
use crate::state::{
    State, initial_state, wf_state, timers_step, load_into, fetch_word, skip_pc, wrap8, wrap16,
    nib2, imm_nn, addr_nnn, lowest_pressed, lowest_pressed_from, lemma_lowest_hit,
    lemma_lowest_skip, lemma_lowest_end, draw_screen, draw_collision, screen_upto,
    collision_upto, target_idx, lemma_upto_set, lemma_upto_skip, lemma_upto_next_row, step_obeys,
    tick_obeys, RAM_SIZE, V_REGISTER_COUNT, NUM_KEYS, START_ADDR, FONTSET, FONTSET_SIZE,
};
use crate::{SCREEN_WIDTH, SCREEN_HEIGHT};

verus! {

/// The CHIP-8 machine: 4096 bytes of memory with the font preloaded, 16
/// 8-bit registers, an index register, a call stack, two countdown timers,
/// a 64 x 32 monochrome framebuffer and a 16-key pad.
///
/// The host drives it by calling [`Emu::tick`] for each instruction and
/// [`Emu::inc_timers`] at the timer rate; the machine does no timing of its
/// own.
pub struct Emu {
    pc: u16,
    /// Addressable memory; the font occupies the bottom 80 bytes.
    pub ram: Vec<u8>,
    /// The framebuffer, row-major, indexed by `y * SCREEN_WIDTH + x`.
    pub screen: Vec<bool>,
    vregs: Vec<u8>,
    /// The 16-bit index register.
    pub ireg: u16,
    stack: Vec<u16>,
    keys: Vec<bool>,
    dt: u8,
    st: u8,
}

impl View for Emu {
    type V = State;

    closed spec fn view(&self) -> State {
        State {
            pc: self.pc,
            ram: self.ram@,
            screen: self.screen@,
            vregs: self.vregs@,
            ireg: self.ireg,
            stack: self.stack@,
            keys: self.keys@,
            dt: self.dt,
            st: self.st,
        }
    }
}

/// Memory as the machine starts: the font glyphs followed by zeroes.
fn initial_ram() -> (ram: Vec<u8>)
    ensures
        ram@ == initial_state().ram,
{
    let mut ram: Vec<u8> = vec![0u8; RAM_SIZE];
    let mut i: usize = 0;
    while i < FONTSET_SIZE
        invariant
            ram@.len() == RAM_SIZE,
            i <= FONTSET_SIZE,
            forall|j: int| 0 <= j < i ==> ram@[j] == FONTSET[j],
            forall|j: int| i <= j < RAM_SIZE ==> ram@[j] == 0u8,
        decreases FONTSET_SIZE - i,
    {
        ram[i] = FONTSET[i];
        i += 1;
    }
    proof {
        assert(ram@ =~= initial_state().ram);
    }
    ram
}

impl Emu {
    /// Every fixed-size component has its size; established by [`Emu::new`]
    /// and preserved by every operation of the core.
    pub open spec fn wf(&self) -> bool {
        wf_state(self@)
    }

    /// Runtime check of [`Emu::wf`], for hosts that hold the public fields
    /// directly and need to re-establish the sizes before stepping.
    pub fn is_wf(&self) -> (b: bool)
        ensures
            b == self.wf(),
    {
        self.ram.len() == RAM_SIZE && self.screen.len() == SCREEN_WIDTH * SCREEN_HEIGHT
            && self.vregs.len() == V_REGISTER_COUNT && self.keys.len() == NUM_KEYS
    }

    /// Constructs the machine with the font preloaded and everything else
    /// zeroed; the program counter starts at the load address.
    pub fn new() -> (emu: Emu)
        ensures
            emu.wf(),
            emu@ == initial_state(),
    {
        let emu = Emu {
            pc: START_ADDR,
            ram: initial_ram(),
            screen: vec![false; SCREEN_WIDTH * SCREEN_HEIGHT],
            vregs: vec![0u8; V_REGISTER_COUNT],
            ireg: 0,
            stack: Vec::new(),
            keys: vec![false; NUM_KEYS],
            dt: 0,
            st: 0,
        };
        proof {
            assert(emu@.screen =~= initial_state().screen);
            assert(emu@.vregs =~= initial_state().vregs);
            assert(emu@.keys =~= initial_state().keys);
            assert(emu@ =~= initial_state());
        }
        emu
    }

    /// Restores the just-constructed state: font intact, program, registers,
    /// stack, timers, framebuffer and keypad cleared.
    pub fn reset(&mut self)
        ensures
            final(self).wf(),
            final(self)@ == initial_state(),
    {
        self.pc = START_ADDR;
        self.ram = initial_ram();
        self.screen = vec![false; SCREEN_WIDTH * SCREEN_HEIGHT];
        self.vregs = vec![0u8; V_REGISTER_COUNT];
        self.ireg = 0;
        self.stack = Vec::new();
        self.keys = vec![false; NUM_KEYS];
        self.dt = 0;
        self.st = 0;
        proof {
            assert(self@.screen =~= initial_state().screen);
            assert(self@.vregs =~= initial_state().vregs);
            assert(self@.keys =~= initial_state().keys);
            assert(self@ =~= initial_state());
        }
    }

    /// Copies a program image into memory starting at the load address.
    /// Rejected, with memory untouched, if the image would run past the end
    /// of memory; no partial copy is ever made.
    pub fn load_rom(&mut self, bytes: &Vec<u8>) -> (r: Result<(), EmuError>)
        requires
            old(self).wf(),
        ensures
            final(self).wf(),
            START_ADDR + bytes@.len() > RAM_SIZE ==> r == Err::<(), EmuError>(
                EmuError::OutOfMemory,
            ) && final(self)@ == old(self)@,
            START_ADDR + bytes@.len() <= RAM_SIZE ==> r == Ok::<(), EmuError>(()) && final(self)@
                == (State { ram: load_into(old(self)@.ram, bytes@), ..old(self)@ }),
    {
        if bytes.len() > RAM_SIZE - START_ADDR as usize {
            return Err(EmuError::OutOfMemory);
        }
        let mut i: usize = 0;
        while i < bytes.len()
            invariant
                old(self).wf(),
                self@ == (State { ram: self@.ram, ..old(self)@ }),
                self@.ram.len() == RAM_SIZE,
                i <= bytes@.len(),
                START_ADDR + bytes@.len() <= RAM_SIZE,
                forall|j: int|
                    START_ADDR <= j < START_ADDR + i ==> self@.ram[j] == bytes@[j - START_ADDR],
                forall|j: int|
                    0 <= j < RAM_SIZE && !(START_ADDR <= j < START_ADDR + i) ==> self@.ram[j]
                        == old(self)@.ram[j],
            decreases bytes@.len() - i,
        {
            self.ram[START_ADDR as usize + i] = bytes[i];
            i += 1;
        }
        proof {
            assert(self@.ram =~= load_into(old(self)@.ram, bytes@));
            assert(self@ =~= (State { ram: load_into(old(self)@.ram, bytes@), ..old(self)@ }));
        }
        Ok(())
    }

    /// Sets the press state of one key; this is the host's half of the
    /// keypad, read by the key-test and wait-for-key instructions. A key
    /// index outside 0..16 is rejected with `InvalidKey`, the pad untouched.
    pub fn set_key(&mut self, index: usize, pressed: bool) -> (r: Result<(), EmuError>)
        requires
            old(self).wf(),
        ensures
            final(self).wf(),
            index < NUM_KEYS ==> r == Ok::<(), EmuError>(()) && final(self)@ == (State {
                keys: old(self)@.keys.update(index as int, pressed),
                ..old(self)@
            }),
            index >= NUM_KEYS ==> r == Err::<(), EmuError>(EmuError::InvalidKey) && final(self)@
                == old(self)@,
    {
        if index >= NUM_KEYS {
            return Err(EmuError::InvalidKey);
        }
        self.keys[index] = pressed;
        Ok(())
    }

    /// Advances the two countdown timers by one tick: each nonzero counter
    /// goes down by one and stops at zero. Returns true exactly when the
    /// sound timer reaches zero on this tick, the host's cue to sound the
    /// audible tone.
    pub fn inc_timers(&mut self) -> (beep: bool)
        ensures
            final(self)@ == timers_step(old(self)@),
            beep == (old(self)@.st == 1),
    {
        if self.dt > 0 {
            self.dt = self.dt - 1;
        }
        let beep = self.st == 1;
        if self.st > 0 {
            self.st = self.st - 1;
        }
        beep
    }

    /// Reads the instruction word at the program counter, big-endian, and
    /// advances the counter past it. The counter must leave both bytes of
    /// the word inside memory.
    pub fn fetch_op(&mut self) -> (op: u16)
        requires
            old(self).wf(),
            old(self)@.pc as int + 1 < RAM_SIZE,
        ensures
            final(self).wf(),
            op == fetch_word(old(self)@),
            final(self)@ == (State { pc: (old(self)@.pc + 2) as u16, ..old(self)@ }),
    {
        let first_b = self.ram[self.pc as usize] as u16;
        let second_b = self.ram[self.pc as usize + 1] as u16;
        self.pc = self.pc + 2;
        first_b * 256 + second_b
    }

    /// The program counter: the address of the next instruction to fetch.
    pub fn pc(&self) -> (v: u16)
        ensures
            v == self@.pc,
    {
        self.pc
    }

    /// The value of general-purpose register `i`.
    pub fn vreg(&self, i: usize) -> (v: u8)
        requires
            self.wf(),
            i < V_REGISTER_COUNT,
        ensures
            v == self@.vregs[i as int],
    {
        self.vregs[i]
    }

    /// The delay timer.
    pub fn delay_timer(&self) -> (v: u8)
        ensures
            v == self@.dt,
    {
        self.dt
    }

    /// The sound timer.
    pub fn sound_timer(&self) -> (v: u8)
        ensures
            v == self@.st,
    {
        self.st
    }

    /// How many return addresses the call stack holds.
    pub fn stack_depth(&self) -> (n: usize)
        ensures
            n == self@.stack.len(),
    {
        self.stack.len()
    }

    /// Pushes a return address; the stack grows without bound, as the
    /// historical 16-level limit is not enforced here.
    fn push(&mut self, val: u16)
        ensures
            final(self)@ == (State { stack: old(self)@.stack.push(val), ..old(self)@ }),
    {
        self.stack.push(val);
    }

    /// Pops the most recently pushed return address, if any.
    fn pop(&mut self) -> (r: Option<u16>)
        ensures
            old(self)@.stack.len() == 0 ==> r == None::<u16> && final(self)@ == old(self)@,
            old(self)@.stack.len() > 0 ==> r == Some(old(self)@.stack.last()) && final(self)@
                == (State { stack: old(self)@.stack.drop_last(), ..old(self)@ }),
    {
        self.stack.pop()
    }

    /// `0x00E0`: clear the framebuffer to all-false.
    fn clear_screen(&mut self)
        requires
            old(self).wf(),
        ensures
            final(self).wf(),
            final(self)@ == (State {
                screen: Seq::new(old(self)@.screen.len(), |i: int| false),
                ..old(self)@
            }),
    {
        self.screen = vec![false; SCREEN_WIDTH * SCREEN_HEIGHT];
        proof {
            assert(self@.screen =~= Seq::new(old(self)@.screen.len(), |i: int| false));
            assert(self@ =~= (State {
                screen: Seq::new(old(self)@.screen.len(), |i: int| false),
                ..old(self)@
            }));
        }
    }

    /// `0x00EE`: pop the stack into the program counter; reports
    /// `StackUnderflow`, with the machine untouched, if the stack is empty.
    fn return_from_subroutine(&mut self) -> (r: Result<(), EmuError>)
        ensures
            old(self)@.stack.len() == 0 ==> r == Err::<(), EmuError>(EmuError::StackUnderflow)
                && final(self)@ == old(self)@,
            old(self)@.stack.len() > 0 ==> r == Ok::<(), EmuError>(()) && final(self)@ == (State {
                pc: old(self)@.stack.last(),
                stack: old(self)@.stack.drop_last(),
                ..old(self)@
            }),
    {
        match self.pop() {
            Some(addr) => {
                self.pc = addr;
                proof {
                    assert(self@ =~= (State {
                        pc: old(self)@.stack.last(),
                        stack: old(self)@.stack.drop_last(),
                        ..old(self)@
                    }));
                }
                Ok(())
            },
            None => Err(EmuError::StackUnderflow),
        }
    }

    /// `0x1nnn`: jump to the 12-bit address in the word.
    fn jump_to(&mut self, op: u16)
        ensures
            final(self)@ == (State { pc: addr_nnn(op), ..old(self)@ }),
    {
        self.pc = op % 0x1000;
    }

    /// `0x2nnn`: push the (already advanced) program counter and jump; a
    /// call is a returnable jump.
    fn call_subroutine(&mut self, op: u16)
        ensures
            final(self)@ == (State {
                stack: old(self)@.stack.push(old(self)@.pc),
                pc: addr_nnn(op),
                ..old(self)@
            }),
    {
        let pc = self.pc;
        self.push(pc);
        self.pc = op % 0x1000;
    }

    /// Advance the program counter over the next instruction when the
    /// condition holds; the counter wraps at 16 bits.
    fn skip_if(&mut self, condition: bool)
        ensures
            final(self)@ == skip_pc(old(self)@, condition),
    {
        if condition {
            self.pc = self.pc.wrapping_add(2);
        }
    }

    /// `0x3xnn`: skip if Vx equals the immediate.
    fn skip_next_if_vx_eq_nn(&mut self, op: u16, d2: u16)
        requires
            old(self).wf(),
            d2 == nib2(op),
        ensures
            final(self).wf(),
            final(self)@ == skip_pc(old(self)@, old(self)@.vregs[nib2(op) as int] == imm_nn(op)),
    {
        let (nn, x) = op_d_as_nn_x(op, d2);
        let cond = self.vregs[x] == nn;
        self.skip_if(cond);
    }

    /// `0x4xnn`: skip if Vx differs from the immediate.
    fn skip_next_if_vx_neq_nn(&mut self, op: u16, d2: u16)
        requires
            old(self).wf(),
            d2 == nib2(op),
        ensures
            final(self).wf(),
            final(self)@ == skip_pc(old(self)@, old(self)@.vregs[nib2(op) as int] != imm_nn(op)),
    {
        let (nn, x) = op_d_as_nn_x(op, d2);
        let cond = self.vregs[x] != nn;
        self.skip_if(cond);
    }

    /// `0x5xy0`: skip if Vx equals Vy.
    fn skip_next_if_vx_eq_vy(&mut self, d2: u16, d3: u16)
        requires
            old(self).wf(),
            d2 < 16,
            d3 < 16,
        ensures
            final(self).wf(),
            final(self)@ == skip_pc(
                old(self)@,
                old(self)@.vregs[d2 as int] == old(self)@.vregs[d3 as int],
            ),
    {
        let (x, y) = dd_as_xy(d2, d3);
        let cond = self.vregs[x] == self.vregs[y];
        self.skip_if(cond);
    }

    /// `0x9xy0`: skip if Vx differs from Vy.
    fn skip_next_if_vx_neq_vy(&mut self, d2: u16, d3: u16)
        requires
            old(self).wf(),
            d2 < 16,
            d3 < 16,
        ensures
            final(self).wf(),
            final(self)@ == skip_pc(
                old(self)@,
                old(self)@.vregs[d2 as int] != old(self)@.vregs[d3 as int],
            ),
    {
        let (x, y) = dd_as_xy(d2, d3);
        let cond = self.vregs[x] != self.vregs[y];
        self.skip_if(cond);
    }

    /// `0x6xnn`: load the immediate into Vx.
    fn set_vx_as_nn(&mut self, op: u16, d2: u16)
        requires
            old(self).wf(),
            d2 == nib2(op),
        ensures
            final(self).wf(),
            final(self)@ == (State {
                vregs: old(self)@.vregs.update(nib2(op) as int, imm_nn(op)),
                ..old(self)@
            }),
    {
        let (nn, x) = op_d_as_nn_x(op, d2);
        self.vregs[x] = nn;
    }

    /// `0x7xnn`: add the immediate to Vx with 8-bit wraparound; no flag is
    /// set.
    fn inc_vx_with_nn(&mut self, op: u16, d2: u16)
        requires
            old(self).wf(),
            d2 == nib2(op),
        ensures
            final(self).wf(),
            final(self)@ == (State {
                vregs: old(self)@.vregs.update(
                    nib2(op) as int,
                    wrap8(old(self)@.vregs[nib2(op) as int] + imm_nn(op)),
                ),
                ..old(self)@
            }),
    {
        let (nn, x) = op_d_as_nn_x(op, d2);
        let val = self.vregs[x].wrapping_add(nn);
        self.vregs[x] = val;
    }

    /// `0x8xy0`: copy Vy into Vx.
    fn set_vx_as_vy(&mut self, d2: u16, d3: u16)
        requires
            old(self).wf(),
            d2 < 16,
            d3 < 16,
        ensures
            final(self).wf(),
            final(self)@ == (State {
                vregs: old(self)@.vregs.update(d2 as int, old(self)@.vregs[d3 as int]),
                ..old(self)@
            }),
    {
        let (x, y) = dd_as_xy(d2, d3);
        let vy = self.vregs[y];
        self.vregs[x] = vy;
    }

    /// `0x8xy1`: Vx gets Vx OR Vy.
    fn vx_binor_vy(&mut self, d2: u16, d3: u16)
        requires
            old(self).wf(),
            d2 < 16,
            d3 < 16,
        ensures
            final(self).wf(),
            final(self)@ == (State {
                vregs: old(self)@.vregs.update(
                    d2 as int,
                    old(self)@.vregs[d2 as int] | old(self)@.vregs[d3 as int],
                ),
                ..old(self)@
            }),
    {
        let (x, y) = dd_as_xy(d2, d3);
        let val = self.vregs[x] | self.vregs[y];
        self.vregs[x] = val;
    }

    /// `0x8xy2`: Vx gets Vx AND Vy.
    fn vx_binand_vy(&mut self, d2: u16, d3: u16)
        requires
            old(self).wf(),
            d2 < 16,
            d3 < 16,
        ensures
            final(self).wf(),
            final(self)@ == (State {
                vregs: old(self)@.vregs.update(
                    d2 as int,
                    old(self)@.vregs[d2 as int] & old(self)@.vregs[d3 as int],
                ),
                ..old(self)@
            }),
    {
        let (x, y) = dd_as_xy(d2, d3);
        let val = self.vregs[x] & self.vregs[y];
        self.vregs[x] = val;
    }

    /// `0x8xy3`: Vx gets Vx XOR Vy.
    fn vx_binxor_vy(&mut self, d2: u16, d3: u16)
        requires
            old(self).wf(),
            d2 < 16,
            d3 < 16,
        ensures
            final(self).wf(),
            final(self)@ == (State {
                vregs: old(self)@.vregs.update(
                    d2 as int,
                    old(self)@.vregs[d2 as int] ^ old(self)@.vregs[d3 as int],
                ),
                ..old(self)@
            }),
    {
        let (x, y) = dd_as_xy(d2, d3);
        let val = self.vregs[x] ^ self.vregs[y];
        self.vregs[x] = val;
    }

    /// Write the overflow flag into VF, then the value into Vx; when x
    /// selects VF itself the value wins.
    fn handle_overflow(&mut self, x: usize, val: u8, overflow: bool)
        requires
            old(self).wf(),
            x < V_REGISTER_COUNT,
        ensures
            final(self).wf(),
            final(self)@ == (State {
                vregs: old(self)@.vregs.update(15, if overflow { 1u8 } else { 0u8 }).update(
                    x as int,
                    val,
                ),
                ..old(self)@
            }),
    {
        self.map_vreg_0xf(overflow);
        self.vregs[x] = val;
    }

    /// Set VF to 1 or 0 according to the condition.
    fn map_vreg_0xf(&mut self, condition: bool)
        requires
            old(self).wf(),
        ensures
            final(self).wf(),
            final(self)@ == (State {
                vregs: old(self)@.vregs.update(15, if condition { 1u8 } else { 0u8 }),
                ..old(self)@
            }),
    {
        if condition {
            self.vregs[0xF] = 1;
        } else {
            self.vregs[0xF] = 0;
        }
    }

    /// `0x8xy4`: Vx gets Vx + Vy with 8-bit wraparound; VF reports the
    /// carry.
    fn inc_vx_with_vy(&mut self, d2: u16, d3: u16)
        requires
            old(self).wf(),
            d2 < 16,
            d3 < 16,
        ensures
            final(self).wf(),
            final(self)@ == (State {
                vregs: old(self)@.vregs.update(
                    15,
                    if old(self)@.vregs[d2 as int] + old(self)@.vregs[d3 as int] > 255 {
                        1u8
                    } else {
                        0u8
                    },
                ).update(
                    d2 as int,
                    wrap8(old(self)@.vregs[d2 as int] + old(self)@.vregs[d3 as int]),
                ),
                ..old(self)@
            }),
    {
        let (x, y) = dd_as_xy(d2, d3);
        let sum = self.vregs[x] as u16 + self.vregs[y] as u16;
        let val = (sum % 256) as u8;
        self.handle_overflow(x, val, sum > 255);
    }

    /// `0x8xy5`: Vx gets Vx - Vy with 8-bit wraparound; VF is 1 exactly
    /// when no borrow occurred.
    fn dec_vx_with_vy(&mut self, d2: u16, d3: u16)
        requires
            old(self).wf(),
            d2 < 16,
            d3 < 16,
        ensures
            final(self).wf(),
            final(self)@ == (State {
                vregs: old(self)@.vregs.update(
                    15,
                    if old(self)@.vregs[d2 as int] >= old(self)@.vregs[d3 as int] {
                        1u8
                    } else {
                        0u8
                    },
                ).update(
                    d2 as int,
                    wrap8(old(self)@.vregs[d2 as int] - old(self)@.vregs[d3 as int]),
                ),
                ..old(self)@
            }),
    {
        let (x, y) = dd_as_xy(d2, d3);
        let vx = self.vregs[x];
        let vy = self.vregs[y];
        let val = vx.wrapping_sub(vy);
        self.handle_overflow(x, val, vx >= vy);
    }

    /// `0x8xy7`: Vx gets Vy - Vx with 8-bit wraparound; VF is 1 exactly
    /// when no borrow occurred.
    fn set_vx_to_vy_sub_vx(&mut self, d2: u16, d3: u16)
        requires
            old(self).wf(),
            d2 < 16,
            d3 < 16,
        ensures
            final(self).wf(),
            final(self)@ == (State {
                vregs: old(self)@.vregs.update(
                    15,
                    if old(self)@.vregs[d3 as int] >= old(self)@.vregs[d2 as int] {
                        1u8
                    } else {
                        0u8
                    },
                ).update(
                    d2 as int,
                    wrap8(old(self)@.vregs[d3 as int] - old(self)@.vregs[d2 as int]),
                ),
                ..old(self)@
            }),
    {
        let (x, y) = dd_as_xy(d2, d3);
        let vx = self.vregs[x];
        let vy = self.vregs[y];
        let val = vy.wrapping_sub(vx);
        self.handle_overflow(x, val, vy >= vx);
    }

    /// `0x8xy6`: VF gets the dropped low bit of Vx, then Vx shifts right
    /// one; when x selects VF, the shift reads the freshly written flag.
    fn r_bitshift_vx(&mut self, d2: u16)
        requires
            old(self).wf(),
            d2 < 16,
        ensures
            final(self).wf(),
            final(self)@ == (State {
                vregs: ({
                    let v1 = old(self)@.vregs.update(
                        15,
                        (old(self)@.vregs[d2 as int] as int % 2) as u8,
                    );
                    v1.update(d2 as int, (v1[d2 as int] as int / 2) as u8)
                }),
                ..old(self)@
            }),
    {
        let x = d2 as usize;
        self.vregs[0xF] = self.vregs[x] % 2;
        self.vregs[x] = self.vregs[x] / 2;
    }

    /// `0x8xyE`: VF gets the dropped high bit of Vx, then Vx shifts left
    /// one with 8-bit wraparound; when x selects VF, the shift reads the
    /// freshly written flag.
    fn l_bitshift_vx(&mut self, d2: u16)
        requires
            old(self).wf(),
            d2 < 16,
        ensures
            final(self).wf(),
            final(self)@ == (State {
                vregs: ({
                    let v1 = old(self)@.vregs.update(
                        15,
                        (old(self)@.vregs[d2 as int] as int / 128) as u8,
                    );
                    v1.update(d2 as int, wrap8(v1[d2 as int] * 2))
                }),
                ..old(self)@
            }),
    {
        let x = d2 as usize;
        self.vregs[0xF] = self.vregs[x] / 128;
        self.vregs[x] = self.vregs[x].wrapping_mul(2);
    }

    /// `0xAnnn`: load the 12-bit address into the index register.
    fn set_ireg_as_nnn(&mut self, op: u16)
        ensures
            final(self)@ == (State { ireg: addr_nnn(op), ..old(self)@ }),
    {
        self.ireg = op % 0x1000;
    }

    /// `0xBnnn`: jump to V0 plus the 12-bit address, wrapping at 16 bits.
    fn jump_to_v0_plus_nnn(&mut self, op: u16)
        requires
            old(self).wf(),
        ensures
            final(self).wf(),
            final(self)@ == (State {
                pc: wrap16(old(self)@.vregs[0] + addr_nnn(op)),
                ..old(self)@
            }),
    {
        self.pc = (self.vregs[0] as u16).wrapping_add(op % 0x1000);
    }

    /// `0xCxnn`: Vx gets a random byte ANDed with the immediate. Nothing
    /// is known of the byte, so the contract says only that some byte was
    /// used.
    fn set_vx_as_rand_and_nn(&mut self, op: u16, d2: u16)
        requires
            old(self).wf(),
            d2 == nib2(op),
        ensures
            final(self).wf(),
            exists|rnd: u8|
                final(self)@ == (State {
                    vregs: old(self)@.vregs.update(nib2(op) as int, #[trigger] (rnd & imm_nn(op))),
                    ..old(self)@
                }),
    {
        let (nn, x) = op_d_as_nn_x(op, d2);
        let rnd = crate::rng::random_byte();
        self.vregs[x] = rnd & nn;
        proof {
            assert(self@ == (State {
                vregs: old(self)@.vregs.update(nib2(op) as int, rnd & imm_nn(op)),
                ..old(self)@
            }));
        }
    }

    /// `0xEx9E`: skip if the key numbered Vx is pressed; a Vx above 15
    /// names no key and is rejected with `InvalidKey`.
    fn skip_next_if_key_pressed(&mut self, d2: u16) -> (r: Result<(), EmuError>)
        requires
            old(self).wf(),
            d2 < 16,
        ensures
            final(self).wf(),
            old(self)@.vregs[d2 as int] as int >= NUM_KEYS ==> r == Err::<(), EmuError>(
                EmuError::InvalidKey,
            ) && final(self)@ == old(self)@,
            (old(self)@.vregs[d2 as int] as int) < NUM_KEYS ==> r == Ok::<(), EmuError>(())
                && final(self)@ == skip_pc(
                old(self)@,
                old(self)@.keys[old(self)@.vregs[d2 as int] as int],
            ),
    {
        let vx = self.vregs[d2 as usize] as usize;
        if vx >= NUM_KEYS {
            return Err(EmuError::InvalidKey);
        }
        let cond = self.keys[vx];
        self.skip_if(cond);
        Ok(())
    }

    /// `0xExA1`: skip if the key numbered Vx is not pressed; a Vx above 15
    /// names no key and is rejected with `InvalidKey`.
    fn skip_next_if_not_key_pressed(&mut self, d2: u16) -> (r: Result<(), EmuError>)
        requires
            old(self).wf(),
            d2 < 16,
        ensures
            final(self).wf(),
            old(self)@.vregs[d2 as int] as int >= NUM_KEYS ==> r == Err::<(), EmuError>(
                EmuError::InvalidKey,
            ) && final(self)@ == old(self)@,
            (old(self)@.vregs[d2 as int] as int) < NUM_KEYS ==> r == Ok::<(), EmuError>(())
                && final(self)@ == skip_pc(
                old(self)@,
                !old(self)@.keys[old(self)@.vregs[d2 as int] as int],
            ),
    {
        let vx = self.vregs[d2 as usize] as usize;
        if vx >= NUM_KEYS {
            return Err(EmuError::InvalidKey);
        }
        let cond = !self.keys[vx];
        self.skip_if(cond);
        Ok(())
    }

    /// `0xFx07`: Vx gets the delay timer.
    fn set_vx_as_dt(&mut self, d2: u16)
        requires
            old(self).wf(),
            d2 < 16,
        ensures
            final(self).wf(),
            final(self)@ == (State {
                vregs: old(self)@.vregs.update(d2 as int, old(self)@.dt),
                ..old(self)@
            }),
    {
        let dt = self.dt;
        self.vregs[d2 as usize] = dt;
    }

    /// `0xFx15`: the delay timer gets Vx.
    fn set_dt_as_vx(&mut self, d2: u16)
        requires
            old(self).wf(),
            d2 < 16,
        ensures
            final(self).wf(),
            final(self)@ == (State { dt: old(self)@.vregs[d2 as int], ..old(self)@ }),
    {
        self.dt = self.vregs[d2 as usize];
    }

    /// `0xFx18`: the sound timer gets Vx.
    fn set_st_as_vx(&mut self, d2: u16)
        requires
            old(self).wf(),
            d2 < 16,
        ensures
            final(self).wf(),
            final(self)@ == (State { st: old(self)@.vregs[d2 as int], ..old(self)@ }),
    {
        self.st = self.vregs[d2 as usize];
    }

    /// `0xFx1E`: add Vx to the index register with 16-bit wraparound.
    fn inc_ireg_by_vx(&mut self, d2: u16)
        requires
            old(self).wf(),
            d2 < 16,
        ensures
            final(self).wf(),
            final(self)@ == (State {
                ireg: wrap16(old(self)@.ireg + old(self)@.vregs[d2 as int]),
                ..old(self)@
            }),
    {
        self.ireg = self.ireg.wrapping_add(self.vregs[d2 as usize] as u16);
    }

    /// `0xDxyn`: draw the `n`-row sprite at the index register to the
    /// coordinates in Vx and Vy. Each sprite byte is eight horizontal
    /// pixels, most significant bit leftmost; coordinates wrap around the
    /// screen edges; every set sprite pixel toggles its framebuffer cell.
    /// VF reports, only after the whole sprite is drawn, whether any
    /// previously set cell was turned off. Rejected with `OutOfMemory`,
    /// nothing drawn, if the sprite rows would be read past the end of
    /// memory.
    #[verifier::rlimit(30)]
    fn draw_sprite(&mut self, d2: u16, d3: u16, d4: u16) -> (r: Result<(), EmuError>)
        requires
            old(self).wf(),
            d2 < 16,
            d3 < 16,
            d4 < 16,
        ensures
            final(self).wf(),
            ({
                let n = d4 as int;
                let base = old(self)@.ireg as int;
                let x0 = old(self)@.vregs[d2 as int] as int;
                let y0 = old(self)@.vregs[d3 as int] as int;
                if base + n > RAM_SIZE {
                    r == Err::<(), EmuError>(EmuError::OutOfMemory) && final(self)@ == old(self)@
                } else {
                    r == Ok::<(), EmuError>(()) && final(self)@ == (State {
                        screen: draw_screen(old(self)@.screen, old(self)@.ram, base, x0, y0, n),
                        vregs: old(self)@.vregs.update(
                            15,
                            if draw_collision(
                                old(self)@.screen,
                                old(self)@.ram,
                                base,
                                x0,
                                y0,
                                n,
                            ) {
                                1u8
                            } else {
                                0u8
                            },
                        ),
                        ..old(self)@
                    })
                }
            }),
    {
        if self.ireg as usize + d4 as usize > RAM_SIZE {
            return Err(EmuError::OutOfMemory);
        }
        let x0 = self.vregs[d2 as usize] as usize;
        let y0 = self.vregs[d3 as usize] as usize;
        let n = d4 as usize;
        let base = self.ireg as usize;
        let mut flipped = false;
        let mut row: usize = 0;
        while row < n
            invariant
                old(self).wf(),
                self@ == (State { screen: self@.screen, ..old(self)@ }),
                self@.screen.len() == old(self)@.screen.len(),
                row <= n,
                n < 16,
                base == old(self)@.ireg as int,
                base + n <= RAM_SIZE,
                x0 == old(self)@.vregs[d2 as int] as int,
                y0 == old(self)@.vregs[d3 as int] as int,
                self@.screen == screen_upto(
                    old(self)@.screen,
                    old(self)@.ram,
                    base as int,
                    x0 as int,
                    y0 as int,
                    row as int,
                    0,
                ),
                flipped == collision_upto(
                    old(self)@.screen,
                    old(self)@.ram,
                    base as int,
                    x0 as int,
                    y0 as int,
                    row as int,
                    0,
                ),
            decreases n - row,
        {
            let pixels = self.ram[base + row];
            let mut col: usize = 0;
            while col < 8
                invariant
                    old(self).wf(),
                    self@ == (State { screen: self@.screen, ..old(self)@ }),
                    self@.screen.len() == old(self)@.screen.len(),
                    col <= 8,
                    row < n,
                    n < 16,
                    base == old(self)@.ireg as int,
                    base + n <= RAM_SIZE,
                    x0 == old(self)@.vregs[d2 as int] as int,
                    y0 == old(self)@.vregs[d3 as int] as int,
                    pixels == old(self)@.ram[base + row],
                    self@.screen == screen_upto(
                        old(self)@.screen,
                        old(self)@.ram,
                        base as int,
                        x0 as int,
                        y0 as int,
                        row as int,
                        col as int,
                    ),
                    flipped == collision_upto(
                        old(self)@.screen,
                        old(self)@.ram,
                        base as int,
                        x0 as int,
                        y0 as int,
                        row as int,
                        col as int,
                    ),
                decreases 8 - col,
            {
                if pixels & (0x80u8 >> (col as u8)) != 0 {
                    let xi = (x0 + col) % SCREEN_WIDTH;
                    let yi = (y0 + row) % SCREEN_HEIGHT;
                    let idx = yi * SCREEN_WIDTH + xi;
                    proof {
                        assert(idx as int == target_idx(
                            x0 as int,
                            y0 as int,
                            row as int,
                            col as int,
                        ));
                        lemma_upto_set(
                            old(self)@.screen,
                            old(self)@.ram,
                            base as int,
                            x0 as int,
                            y0 as int,
                            row as int,
                            col as int,
                        );
                    }
                    let prev = self.screen[idx];
                    flipped = flipped || prev;
                    self.screen[idx] = !prev;
                    proof {
                        assert(self@.screen =~= screen_upto(
                            old(self)@.screen,
                            old(self)@.ram,
                            base as int,
                            x0 as int,
                            y0 as int,
                            row as int,
                            col as int + 1,
                        ));
                    }
                } else {
                    proof {
                        lemma_upto_skip(
                            old(self)@.screen,
                            old(self)@.ram,
                            base as int,
                            x0 as int,
                            y0 as int,
                            row as int,
                            col as int,
                        );
                        assert(self@.screen =~= screen_upto(
                            old(self)@.screen,
                            old(self)@.ram,
                            base as int,
                            x0 as int,
                            y0 as int,
                            row as int,
                            col as int + 1,
                        ));
                    }
                }
                col += 1;
            }
            proof {
                lemma_upto_next_row(
                    old(self)@.screen,
                    old(self)@.ram,
                    base as int,
                    x0 as int,
                    y0 as int,
                    row as int,
                );
                assert(self@.screen =~= screen_upto(
                    old(self)@.screen,
                    old(self)@.ram,
                    base as int,
                    x0 as int,
                    y0 as int,
                    row as int + 1,
                    0,
                ));
            }
            row += 1;
        }
        self.map_vreg_0xf(flipped);
        Ok(())
    }

    /// `0xFx0A`: block until a key is pressed, by polling re-execution.
    /// With no key pressed the program counter is rewound over this
    /// instruction so the next cycle fetches it again; otherwise Vx gets
    /// the index of the lowest-numbered pressed key.
    fn wait_for_key_press(&mut self, d2: u16)
        requires
            old(self).wf(),
            d2 < 16,
        ensures
            final(self).wf(),
            final(self)@ == (if lowest_pressed(old(self)@.keys) < NUM_KEYS {
                State {
                    vregs: old(self)@.vregs.update(
                        d2 as int,
                        lowest_pressed(old(self)@.keys) as u8,
                    ),
                    ..old(self)@
                }
            } else {
                State { pc: wrap16(old(self)@.pc - 2), ..old(self)@ }
            }),
    {
        let x = d2 as usize;
        let mut i: usize = 0;
        while i < NUM_KEYS
            invariant
                old(self).wf(),
                self@ == old(self)@,
                i <= NUM_KEYS,
                d2 < 16,
                x == d2 as usize,
                lowest_pressed(self@.keys) == lowest_pressed_from(self@.keys, i as int),
            decreases NUM_KEYS - i,
        {
            if self.keys[i] {
                proof {
                    lemma_lowest_hit(self@.keys, i as int);
                }
                self.vregs[x] = i as u8;
                return ;
            }
            proof {
                lemma_lowest_skip(self@.keys, i as int);
            }
            i += 1;
        }
        proof {
            lemma_lowest_end(self@.keys);
        }
        self.pc = self.pc.wrapping_sub(2);
    }

    /// `0xFx33`: store the decimal digits of Vx at the index register,
    /// hundreds first. Rejected with `OutOfMemory`, nothing written, if the
    /// three bytes would not fit below the end of memory.
    fn set_ireg_to_bcd_of_vx(&mut self, d2: u16) -> (r: Result<(), EmuError>)
        requires
            old(self).wf(),
            d2 < 16,
        ensures
            final(self).wf(),
            ({
                let i = old(self)@.ireg as int;
                let vx = old(self)@.vregs[d2 as int] as int;
                if i + 2 >= RAM_SIZE {
                    r == Err::<(), EmuError>(EmuError::OutOfMemory) && final(self)@ == old(self)@
                } else {
                    r == Ok::<(), EmuError>(()) && final(self)@ == (State {
                        ram: old(self)@.ram.update(i, ((vx / 100) % 10) as u8).update(
                            i + 1,
                            ((vx / 10) % 10) as u8,
                        ).update(i + 2, (vx % 10) as u8),
                        ..old(self)@
                    })
                }
            }),
    {
        if self.ireg as usize + 2 >= RAM_SIZE {
            return Err(EmuError::OutOfMemory);
        }
        let vx = self.vregs[d2 as usize];
        let i = self.ireg as usize;
        self.ram[i] = grab_base_10_digit(vx, 2);
        self.ram[i + 1] = grab_base_10_digit(vx, 1);
        self.ram[i + 2] = grab_base_10_digit(vx, 0);
        Ok(())
    }

    /// `0xFx55`: store V0 through Vx inclusive into memory starting at the
    /// index register. Rejected with `OutOfMemory`, nothing written, if the
    /// run would end past the end of memory.
    fn load_v0_to_vx_into_ram(&mut self, d2: u16) -> (r: Result<(), EmuError>)
        requires
            old(self).wf(),
            d2 < 16,
        ensures
            final(self).wf(),
            ({
                let x = d2 as int;
                let i = old(self)@.ireg as int;
                if i + x >= RAM_SIZE {
                    r == Err::<(), EmuError>(EmuError::OutOfMemory) && final(self)@ == old(self)@
                } else {
                    r == Ok::<(), EmuError>(()) && final(self)@ == (State {
                        ram: Seq::new(
                            old(self)@.ram.len(),
                            |j: int|
                                if i <= j <= i + x {
                                    old(self)@.vregs[j - i]
                                } else {
                                    old(self)@.ram[j]
                                },
                        ),
                        ..old(self)@
                    })
                }
            }),
    {
        let x = d2 as usize;
        let i = self.ireg as usize;
        if i + x >= RAM_SIZE {
            return Err(EmuError::OutOfMemory);
        }
        let mut idx: usize = 0;
        while idx <= x
            invariant
                old(self).wf(),
                self@ == (State { ram: self@.ram, ..old(self)@ }),
                self@.ram.len() == RAM_SIZE,
                idx <= x + 1,
                x < V_REGISTER_COUNT,
                i == old(self)@.ireg as int,
                i + x < RAM_SIZE,
                forall|j: int| i <= j < i + idx ==> self@.ram[j] == old(self)@.vregs[j - i],
                forall|j: int|
                    0 <= j < RAM_SIZE && !(i <= j < i + idx) ==> self@.ram[j] == old(
                        self,
                    )@.ram[j],
            decreases x + 1 - idx,
        {
            self.ram[i + idx] = self.vregs[idx];
            idx += 1;
        }
        proof {
            assert(self@.ram =~= Seq::new(
                old(self)@.ram.len(),
                |j: int|
                    if i as int <= j <= i as int + x as int {
                        old(self)@.vregs[j - i as int]
                    } else {
                        old(self)@.ram[j]
                    },
            ));
            assert(self@ =~= (State {
                ram: Seq::new(
                    old(self)@.ram.len(),
                    |j: int|
                        if i as int <= j <= i as int + x as int {
                            old(self)@.vregs[j - i as int]
                        } else {
                            old(self)@.ram[j]
                        },
                ),
                ..old(self)@
            }));
        }
        Ok(())
    }

    /// `0xFx65`: load V0 through Vx inclusive from memory starting at the
    /// index register, the inverse of the store. Rejected with
    /// `OutOfMemory`, no register written, if the run would end past the
    /// end of memory.
    fn load_ram_into_v0_to_vx(&mut self, d2: u16) -> (r: Result<(), EmuError>)
        requires
            old(self).wf(),
            d2 < 16,
        ensures
            final(self).wf(),
            ({
                let x = d2 as int;
                let i = old(self)@.ireg as int;
                if i + x >= RAM_SIZE {
                    r == Err::<(), EmuError>(EmuError::OutOfMemory) && final(self)@ == old(self)@
                } else {
                    r == Ok::<(), EmuError>(()) && final(self)@ == (State {
                        vregs: Seq::new(
                            old(self)@.vregs.len(),
                            |j: int|
                                if j <= x {
                                    old(self)@.ram[i + j]
                                } else {
                                    old(self)@.vregs[j]
                                },
                        ),
                        ..old(self)@
                    })
                }
            }),
    {
        let x = d2 as usize;
        let i = self.ireg as usize;
        if i + x >= RAM_SIZE {
            return Err(EmuError::OutOfMemory);
        }
        let mut idx: usize = 0;
        while idx <= x
            invariant
                old(self).wf(),
                self@ == (State { vregs: self@.vregs, ..old(self)@ }),
                self@.vregs.len() == V_REGISTER_COUNT,
                idx <= x + 1,
                x < V_REGISTER_COUNT,
                i == old(self)@.ireg as int,
                i + x < RAM_SIZE,
                forall|j: int| 0 <= j < idx ==> self@.vregs[j] == old(self)@.ram[i + j],
                forall|j: int| idx <= j < V_REGISTER_COUNT ==> self@.vregs[j] == old(self)@.vregs[j],
            decreases x + 1 - idx,
        {
            self.vregs[idx] = self.ram[i + idx];
            idx += 1;
        }
        proof {
            assert(self@.vregs =~= Seq::new(
                old(self)@.vregs.len(),
                |j: int|
                    if j <= x as int {
                        old(self)@.ram[i as int + j]
                    } else {
                        old(self)@.vregs[j]
                    },
            ));
            assert(self@ =~= (State {
                vregs: Seq::new(
                    old(self)@.vregs.len(),
                    |j: int|
                        if j <= x as int {
                            old(self)@.ram[i as int + j]
                        } else {
                            old(self)@.vregs[j]
                        },
                ),
                ..old(self)@
            }));
        }
        Ok(())
    }

    /// `0xFx29`: point the index register at the built-in glyph for the
    /// digit in Vx; each glyph is five bytes.
    fn set_ireg_to_font_addr(&mut self, d2: u16)
        requires
            old(self).wf(),
            d2 < 16,
        ensures
            final(self).wf(),
            final(self)@ == (State {
                ireg: (old(self)@.vregs[d2 as int] * 5) as u16,
                ..old(self)@
            }),
    {
        self.ireg = self.vregs[d2 as usize] as u16 * 5;
    }
    /// Decodes and executes one instruction word against the semantics
    /// table: on success the machine is in exactly the state `step`
    /// prescribes; on failure the prescribed condition is reported and the
    /// machine is left untouched. The random byte the `0xCxnn` instruction
    /// draws is the one unknown, so the contract quantifies over it.
    #[verifier::rlimit(50)]
    pub fn execute(&mut self, op: u16) -> (r: Result<(), EmuError>)
        requires
            old(self).wf(),
        ensures
            final(self).wf(),
            exists|rnd: u8| #[trigger] step_obeys(old(self)@, final(self)@, r, op, rnd),
    {
        let d1 = op / 0x1000;
        let d2 = (op / 0x100) % 0x10;
        let d3 = (op / 0x10) % 0x10;
        let d4 = op % 0x10;
        match (d1, d2, d3, d4) {
            (0, 0, 0, 0) => {
                proof {
                    assert(step_obeys(old(self)@, self@, Ok::<(), EmuError>(()), op, 0u8));
                }
                Ok(())
            },
            (0, 0, 0xE, 0) => {
                self.clear_screen();
                proof {
                    assert(step_obeys(old(self)@, self@, Ok::<(), EmuError>(()), op, 0u8));
                }
                Ok(())
            },
            (0, 0, 0xE, 0xE) => {
                let r = self.return_from_subroutine();
                proof {
                    assert(step_obeys(old(self)@, self@, r, op, 0u8));
                }
                r
            },
            (1, _, _, _) => {
                self.jump_to(op);
                proof {
                    assert(step_obeys(old(self)@, self@, Ok::<(), EmuError>(()), op, 0u8));
                }
                Ok(())
            },
            (2, _, _, _) => {
                self.call_subroutine(op);
                proof {
                    assert(step_obeys(old(self)@, self@, Ok::<(), EmuError>(()), op, 0u8));
                }
                Ok(())
            },
            (3, _, _, _) => {
                self.skip_next_if_vx_eq_nn(op, d2);
                proof {
                    assert(step_obeys(old(self)@, self@, Ok::<(), EmuError>(()), op, 0u8));
                }
                Ok(())
            },
            (4, _, _, _) => {
                self.skip_next_if_vx_neq_nn(op, d2);
                proof {
                    assert(step_obeys(old(self)@, self@, Ok::<(), EmuError>(()), op, 0u8));
                }
                Ok(())
            },
            (5, _, _, 0) => {
                self.skip_next_if_vx_eq_vy(d2, d3);
                proof {
                    assert(step_obeys(old(self)@, self@, Ok::<(), EmuError>(()), op, 0u8));
                }
                Ok(())
            },
            (6, _, _, _) => {
                self.set_vx_as_nn(op, d2);
                proof {
                    assert(step_obeys(old(self)@, self@, Ok::<(), EmuError>(()), op, 0u8));
                }
                Ok(())
            },
            (7, _, _, _) => {
                self.inc_vx_with_nn(op, d2);
                proof {
                    assert(step_obeys(old(self)@, self@, Ok::<(), EmuError>(()), op, 0u8));
                }
                Ok(())
            },
            (8, _, _, 0) => {
                self.set_vx_as_vy(d2, d3);
                proof {
                    assert(step_obeys(old(self)@, self@, Ok::<(), EmuError>(()), op, 0u8));
                }
                Ok(())
            },
            (8, _, _, 1) => {
                self.vx_binor_vy(d2, d3);
                proof {
                    assert(step_obeys(old(self)@, self@, Ok::<(), EmuError>(()), op, 0u8));
                }
                Ok(())
            },
            (8, _, _, 2) => {
                self.vx_binand_vy(d2, d3);
                proof {
                    assert(step_obeys(old(self)@, self@, Ok::<(), EmuError>(()), op, 0u8));
                }
                Ok(())
            },
            (8, _, _, 3) => {
                self.vx_binxor_vy(d2, d3);
                proof {
                    assert(step_obeys(old(self)@, self@, Ok::<(), EmuError>(()), op, 0u8));
                }
                Ok(())
            },
            (8, _, _, 4) => {
                self.inc_vx_with_vy(d2, d3);
                proof {
                    assert(step_obeys(old(self)@, self@, Ok::<(), EmuError>(()), op, 0u8));
                }
                Ok(())
            },
            (8, _, _, 5) => {
                self.dec_vx_with_vy(d2, d3);
                proof {
                    assert(step_obeys(old(self)@, self@, Ok::<(), EmuError>(()), op, 0u8));
                }
                Ok(())
            },
            (8, _, _, 6) => {
                self.r_bitshift_vx(d2);
                proof {
                    assert(step_obeys(old(self)@, self@, Ok::<(), EmuError>(()), op, 0u8));
                }
                Ok(())
            },
            (8, _, _, 7) => {
                self.set_vx_to_vy_sub_vx(d2, d3);
                proof {
                    assert(step_obeys(old(self)@, self@, Ok::<(), EmuError>(()), op, 0u8));
                }
                Ok(())
            },
            (8, _, _, 0xE) => {
                self.l_bitshift_vx(d2);
                proof {
                    assert(step_obeys(old(self)@, self@, Ok::<(), EmuError>(()), op, 0u8));
                }
                Ok(())
            },
            (9, _, _, 0) => {
                self.skip_next_if_vx_neq_vy(d2, d3);
                proof {
                    assert(step_obeys(old(self)@, self@, Ok::<(), EmuError>(()), op, 0u8));
                }
                Ok(())
            },
            (0xA, _, _, _) => {
                self.set_ireg_as_nnn(op);
                proof {
                    assert(step_obeys(old(self)@, self@, Ok::<(), EmuError>(()), op, 0u8));
                }
                Ok(())
            },
            (0xB, _, _, _) => {
                self.jump_to_v0_plus_nnn(op);
                proof {
                    assert(step_obeys(old(self)@, self@, Ok::<(), EmuError>(()), op, 0u8));
                }
                Ok(())
            },
            (0xC, _, _, _) => {
                self.set_vx_as_rand_and_nn(op, d2);
                proof {
                    let rnd = choose|rnd: u8|
                        self@ == (State {
                            vregs: old(self)@.vregs.update(
                                nib2(op) as int,
                                #[trigger] (rnd & imm_nn(op)),
                            ),
                            ..old(self)@
                        });
                    assert(step_obeys(old(self)@, self@, Ok::<(), EmuError>(()), op, rnd));
                }
                Ok(())
            },
            (0xD, _, _, _) => {
                let r = self.draw_sprite(d2, d3, d4);
                proof {
                    assert(step_obeys(old(self)@, self@, r, op, 0u8));
                }
                r
            },
            (0xE, _, 9, 0xE) => {
                let r = self.skip_next_if_key_pressed(d2);
                proof {
                    assert(step_obeys(old(self)@, self@, r, op, 0u8));
                }
                r
            },
            (0xE, _, 0xA, 1) => {
                let r = self.skip_next_if_not_key_pressed(d2);
                proof {
                    assert(step_obeys(old(self)@, self@, r, op, 0u8));
                }
                r
            },
            (0xF, _, 0, 7) => {
                self.set_vx_as_dt(d2);
                proof {
                    assert(step_obeys(old(self)@, self@, Ok::<(), EmuError>(()), op, 0u8));
                }
                Ok(())
            },
            (0xF, _, 0, 0xA) => {
                self.wait_for_key_press(d2);
                proof {
                    assert(step_obeys(old(self)@, self@, Ok::<(), EmuError>(()), op, 0u8));
                }
                Ok(())
            },
            (0xF, _, 1, 5) => {
                self.set_dt_as_vx(d2);
                proof {
                    assert(step_obeys(old(self)@, self@, Ok::<(), EmuError>(()), op, 0u8));
                }
                Ok(())
            },
            (0xF, _, 1, 8) => {
                self.set_st_as_vx(d2);
                proof {
                    assert(step_obeys(old(self)@, self@, Ok::<(), EmuError>(()), op, 0u8));
                }
                Ok(())
            },
            (0xF, _, 1, 0xE) => {
                self.inc_ireg_by_vx(d2);
                proof {
                    assert(step_obeys(old(self)@, self@, Ok::<(), EmuError>(()), op, 0u8));
                }
                Ok(())
            },
            (0xF, _, 2, 9) => {
                self.set_ireg_to_font_addr(d2);
                proof {
                    assert(step_obeys(old(self)@, self@, Ok::<(), EmuError>(()), op, 0u8));
                }
                Ok(())
            },
            (0xF, _, 3, 3) => {
                let r = self.set_ireg_to_bcd_of_vx(d2);
                proof {
                    assert(step_obeys(old(self)@, self@, r, op, 0u8));
                }
                r
            },
            (0xF, _, 5, 5) => {
                let r = self.load_v0_to_vx_into_ram(d2);
                proof {
                    assert(step_obeys(old(self)@, self@, r, op, 0u8));
                }
                r
            },
            (0xF, _, 6, 5) => {
                let r = self.load_ram_into_v0_to_vx(d2);
                proof {
                    assert(step_obeys(old(self)@, self@, r, op, 0u8));
                }
                r
            },
            (_, _, _, _) => {
                let r = Err(EmuError::UnknownOpcode { op, d1, d2, d3, d4 });
                proof {
                    assert(step_obeys(old(self)@, self@, r, op, 0u8));
                }
                r
            },
        }
    }

    /// One full cycle: fetch the word at the program counter, advance the
    /// counter past it, then decode and execute. On any reported condition
    /// - a program counter past the end of memory included - the machine
    /// is left exactly as it was before the cycle, so a host may report
    /// the fault and decide how to go on.
    #[verifier::rlimit(30)]
    pub fn tick(&mut self) -> (r: Result<(), EmuError>)
        requires
            old(self).wf(),
        ensures
            final(self).wf(),
            exists|rnd: u8| #[trigger] tick_obeys(old(self)@, final(self)@, r, rnd),
    {
        if self.pc as usize + 1 >= RAM_SIZE {
            proof {
                assert(tick_obeys(old(self)@, self@, Err::<(), EmuError>(EmuError::OutOfMemory), 0u8));
            }
            return Err(EmuError::OutOfMemory);
        }
        let saved_pc = self.pc;
        let op = self.fetch_op();
        let r = self.execute(op);
        match r {
            Ok(_) => {
                proof {
                    let s1 = State { pc: (old(self)@.pc + 2) as u16, ..old(self)@ };
                    let rnd = choose|rnd: u8| #[trigger] step_obeys(s1, self@, r, op, rnd);
                    assert(tick_obeys(old(self)@, self@, r, rnd));
                }
                Ok(())
            },
            Err(e) => {
                self.pc = saved_pc;
                proof {
                    let s1 = State { pc: (old(self)@.pc + 2) as u16, ..old(self)@ };
                    let rnd = choose|rnd: u8| #[trigger] step_obeys(s1, s1, r, op, rnd);
                    assert(self@ =~= old(self)@);
                    assert(tick_obeys(old(self)@, self@, r, rnd));
                }
                Err(e)
            },
        }
    }
}

/// Splits an instruction word into its 8-bit immediate and the register
/// index already decoded from it.
fn op_d_as_nn_x(op: u16, d: u16) -> (r: (u8, usize))
    ensures
        r.0 == imm_nn(op),
        r.1 == d as usize,
{
    ((op % 0x100) as u8, d as usize)
}

/// Turns two decoded nibbles into register indices.
fn dd_as_xy(d2: u16, d3: u16) -> (r: (usize, usize))
    ensures
        r.0 == d2 as usize,
        r.1 == d3 as usize,
{
    (d2 as usize, d3 as usize)
}

/// The decimal digit of `n` with weight `10^i`: ones, tens or hundreds.
fn grab_base_10_digit(n: u8, i: u8) -> (d: u8)
    requires
        i <= 2,
    ensures
        i == 0 ==> d as int == n as int % 10,
        i == 1 ==> d as int == (n as int / 10) % 10,
        i == 2 ==> d as int == (n as int / 100) % 10,
{
    let p: u8 = if i == 0 {
        1
    } else if i == 1 {
        10
    } else {
        100
    };
    (n / p) % 10
}

} // verus!
