//! General properties of the instruction semantics, proved once and for
//! all over the model in [`crate::state`]. [`crate::emu::Emu::execute`] and
//! [`crate::emu::Emu::tick`] are verified to follow that model exactly, so
//! each property carries over to the running machine.
use vstd::prelude::*;

use crate::error::EmuError;
use crate::state::{
    State, wf_state, step, timers_step, tick_step, unknown, fetch_word, draw_screen,
    draw_collision, sprite_pixel, target_idx, pair_before, lowest_pressed, wrap16, nib1, nib2,
    nib3, nib4, addr_nnn, lemma_lowest_pressed_from, lemma_nibs_compose, RAM_SIZE, NUM_KEYS,
};

verus! {

/// Add with carry: for all 8-bit `a`, `b` held in Vx and Vy, the `0x8xy4`
/// instruction leaves `(a + b) mod 256` in Vx and sets VF to 1 exactly when
/// `a + b` exceeds 255. Stated for x other than 15, since when x selects VF
/// itself the sum overwrites the flag.
#[verifier::rlimit(30)]
pub proof fn lemma_add_with_carry(s: State, x: u16, y: u16, rnd: u8)
    requires
        wf_state(s),
        x < 16,
        y < 16,
        x != 15,
    ensures
        ({
            let op = (0x8004 + x * 0x100 + y * 0x10) as u16;
            let a = s.vregs[x as int] as int;
            let b = s.vregs[y as int] as int;
            step(s, op, rnd) matches Ok(s2) && s2.vregs[x as int] as int == (a + b) % 256
                && s2.vregs[15] == (if a + b > 255 {
                1u8
            } else {
                0u8
            })
        }),
{
    lemma_nibs_compose(8, x, y, 4);
    let op = (0x8004 + x * 0x100 + y * 0x10) as u16;
    assert(op == (8 * 0x1000 + x * 0x100 + y * 0x10 + 4) as u16);
    assert(nib1(op) == 8 && nib2(op) == x && nib3(op) == y && nib4(op) == 4);
}

/// Subtract with borrow flag: for all 8-bit `a`, `b` held in Vx and Vy, the
/// `0x8xy5` instruction leaves `(a - b) mod 256` in Vx and sets VF to 1
/// exactly when `a >= b`, that is when no borrow occurred. Stated for x
/// other than 15, since when x selects VF itself the difference overwrites
/// the flag.
#[verifier::rlimit(30)]
pub proof fn lemma_sub_with_borrow(s: State, x: u16, y: u16, rnd: u8)
    requires
        wf_state(s),
        x < 16,
        y < 16,
        x != 15,
    ensures
        ({
            let op = (0x8005 + x * 0x100 + y * 0x10) as u16;
            let a = s.vregs[x as int] as int;
            let b = s.vregs[y as int] as int;
            step(s, op, rnd) matches Ok(s2) && s2.vregs[x as int] as int == (a - b) % 256
                && s2.vregs[15] == (if a >= b {
                1u8
            } else {
                0u8
            })
        }),
{
    lemma_nibs_compose(8, x, y, 5);
    let op = (0x8005 + x * 0x100 + y * 0x10) as u16;
    assert(op == (8 * 0x1000 + x * 0x100 + y * 0x10 + 5) as u16);
    assert(nib1(op) == 8 && nib2(op) == x && nib3(op) == y && nib4(op) == 5);
}

/// Drawing the same sprite twice at the same location on a cleared screen
/// clears every touched pixel again and reports a collision on the second
/// draw, since every touched pixel was set before the second XOR. The
/// sprite must have at least one set pixel for a collision to exist.
#[verifier::rlimit(30)]
pub proof fn lemma_draw_twice(
    screen: Seq<bool>,
    ram: Seq<u8>,
    base: int,
    x0: int,
    y0: int,
    n: int,
)
    requires
        0 <= x0,
        0 <= y0,
        0 <= n <= 15,
        screen.len() == 2048,
        forall|i: int| 0 <= i < screen.len() ==> !screen[i],
        exists|r: int, c: int|
            0 <= r < n && 0 <= c < 8 && #[trigger] sprite_pixel(ram[base + r], c),
    ensures
        !draw_collision(screen, ram, base, x0, y0, n),
        draw_collision(draw_screen(screen, ram, base, x0, y0, n), ram, base, x0, y0, n),
        draw_screen(draw_screen(screen, ram, base, x0, y0, n), ram, base, x0, y0, n) == screen,
{
    let s1 = draw_screen(screen, ram, base, x0, y0, n);
    if draw_collision(screen, ram, base, x0, y0, n) {
        let (r, c) = choose|r: int, c: int|
            0 <= r && 0 <= c < 8 && pair_before(n, 0, r, c) && sprite_pixel(ram[base + r], c)
                && screen[#[trigger] target_idx(x0, y0, r, c)];
        vstd::arithmetic::div_mod::lemma_mod_bound(y0 + r, 32);
        vstd::arithmetic::div_mod::lemma_mod_bound(x0 + c, 64);
        assert(!screen[target_idx(x0, y0, r, c)]);
    }
    let (rw, cw) = choose|r: int, c: int|
        0 <= r < n && 0 <= c < 8 && #[trigger] sprite_pixel(ram[base + r], c);
    let t = target_idx(x0, y0, rw, cw);
    vstd::arithmetic::div_mod::lemma_mod_bound(y0 + rw, 32);
    vstd::arithmetic::div_mod::lemma_mod_bound(x0 + cw, 64);
    assert(pair_before(n, 0, rw, cw));
    assert(s1[t]);
    assert(draw_collision(s1, ram, base, x0, y0, n));
    assert(draw_screen(s1, ram, base, x0, y0, n) =~= screen);
}

/// Drawing any sprite twice in a row at the same location restores the
/// framebuffer exactly, whatever it held: which cells a draw toggles
/// depends only on the sprite and the location, and toggling twice is the
/// identity.
pub proof fn lemma_draw_involution(
    screen: Seq<bool>,
    ram: Seq<u8>,
    base: int,
    x0: int,
    y0: int,
    n: int,
)
    ensures
        draw_screen(draw_screen(screen, ram, base, x0, y0, n), ram, base, x0, y0, n) == screen,
{
    let s1 = draw_screen(screen, ram, base, x0, y0, n);
    assert(draw_screen(s1, ram, base, x0, y0, n) =~= screen);
}

/// Wraparound: a sprite drawn with `x0 = 63`, the last column of the
/// screen, lands its second sprite column (column 1) at `x = 0`: the cell
/// in framebuffer column 0 of the sprite row's screen row is toggled
/// whenever that sprite pixel is set.
pub proof fn lemma_draw_wraps(screen: Seq<bool>, ram: Seq<u8>, base: int, y0: int, n: int, row: int)
    requires
        0 <= y0,
        0 <= row < n <= 15,
        screen.len() == 2048,
        sprite_pixel(ram[base + row], 1),
    ensures
        ({
            let idx = ((y0 + row) % 32) * 64;
            draw_screen(screen, ram, base, 63, y0, n)[idx] == !screen[idx]
        }),
{
    let idx = ((y0 + row) % 32) * 64;
    vstd::arithmetic::div_mod::lemma_mod_bound(y0 + row, 32);
    assert(target_idx(63, y0, row, 1) == idx);
    assert(pair_before(n, 0, row, 1));
}

/// Stack round trip: a subroutine call followed by a return restores the
/// machine exactly - in particular the program counter, which at call time
/// already pointed at the instruction after the call, and the stack.
#[verifier::rlimit(30)]
pub proof fn lemma_call_return_round_trip(s: State, op: u16, rnd: u8)
    requires
        wf_state(s),
        nib1(op) == 2,
    ensures
        step(s, op, rnd) matches Ok(s1) && step(s1, 0x00EE, rnd) == Ok::<State, EmuError>(s),
{
    let s1 = State { stack: s.stack.push(s.pc), pc: addr_nnn(op), ..s };
    assert(step(s, op, rnd) == Ok::<State, EmuError>(s1));
    assert(op != 0x00EE && op != 0x00E0 && op != 0x0000);
    assert(s1.stack.last() == s.pc);
    assert(s1.stack.drop_last() =~= s.stack);
    let s2 = State { pc: s1.stack.last(), stack: s1.stack.drop_last(), ..s1 };
    assert(step(s1, 0x00EE, rnd) == Ok::<State, EmuError>(s2));
    assert(s2 =~= s);
}

/// Wait-for-key, no key pressed: a cycle whose fetched instruction is
/// `0xFx0A` rewinds the program counter over itself, so the whole cycle
/// changes nothing and the same instruction is fetched again on every
/// following cycle until a key is pressed.
#[verifier::rlimit(30)]
pub proof fn lemma_wait_for_key_blocks(s: State, x: u16, rnd: u8)
    requires
        wf_state(s),
        s.pc as int + 1 < RAM_SIZE,
        x < 16,
        s.ram[s.pc as int] == (0xF0 + x) as u8,
        s.ram[s.pc as int + 1] == 0x0A,
        forall|k: int| 0 <= k < NUM_KEYS ==> !s.keys[k],
    ensures
        tick_step(s, rnd) == Ok::<State, EmuError>(s),
{
    let op = fetch_word(s);
    lemma_nibs_compose(0xF, x, 0, 0xA);
    assert(op == (0xF * 0x1000 + x * 0x100 + 0 * 0x10 + 0xA) as u16);
    assert(nib1(op) == 0xF && nib2(op) == x && nib3(op) == 0 && nib4(op) == 0xA);
    lemma_lowest_pressed_from(s.keys, 0);
    assert(lowest_pressed(s.keys) == NUM_KEYS);
    let s1 = State { pc: (s.pc + 2) as u16, ..s };
    assert(step(s1, op, rnd) == Ok::<State, EmuError>(
        State { pc: wrap16(s1.pc - 2), ..s1 },
    ));
    assert(wrap16(s1.pc - 2) == s.pc);
    assert((State { pc: wrap16(s1.pc - 2), ..s1 }) =~= s);
}

/// Wait-for-key, some key pressed: the cycle advances the program counter
/// normally and loads the index of the lowest-numbered pressed key into Vx.
#[verifier::rlimit(30)]
pub proof fn lemma_wait_for_key_presses(s: State, x: u16, rnd: u8)
    requires
        wf_state(s),
        s.pc as int + 1 < RAM_SIZE,
        x < 16,
        s.ram[s.pc as int] == (0xF0 + x) as u8,
        s.ram[s.pc as int + 1] == 0x0A,
        exists|k: int| 0 <= k < NUM_KEYS && s.keys[k],
    ensures
        ({
            let k = lowest_pressed(s.keys);
            0 <= k < NUM_KEYS && s.keys[k] && (forall|j: int| 0 <= j < k ==> !s.keys[j])
                && tick_step(s, rnd) == Ok::<State, EmuError>(
                (State {
                    pc: (s.pc + 2) as u16,
                    vregs: s.vregs.update(x as int, k as u8),
                    ..s
                }),
            )
        }),
{
    let op = fetch_word(s);
    lemma_nibs_compose(0xF, x, 0, 0xA);
    assert(op == (0xF * 0x1000 + x * 0x100 + 0 * 0x10 + 0xA) as u16);
    assert(nib1(op) == 0xF && nib2(op) == x && nib3(op) == 0 && nib4(op) == 0xA);
    lemma_lowest_pressed_from(s.keys, 0);
    let k = lowest_pressed(s.keys);
    if k == NUM_KEYS {
        let kw = choose|kk: int| 0 <= kk < NUM_KEYS && s.keys[kk];
        assert(false);
    }
}

/// The timer unit applied `n` times.
pub open spec fn iter_timers(s: State, n: nat) -> State
    decreases n,
{
    if n == 0 {
        s
    } else {
        timers_step(iter_timers(s, (n - 1) as nat))
    }
}

/// Timer monotonicity: `n` timer ticks bring a counter that started at `t`
/// to `max(0, t - n)` - it counts down by one per tick and never passes
/// zero - and touch nothing else in the machine.
pub proof fn lemma_timer_monotonic(s: State, n: nat)
    ensures
        iter_timers(s, n).dt as int == (if s.dt as int - n >= 0 {
            s.dt as int - n
        } else {
            0
        }),
        iter_timers(s, n).st as int == (if s.st as int - n >= 0 {
            s.st as int - n
        } else {
            0
        }),
        iter_timers(s, n) == (State { dt: iter_timers(s, n).dt, st: iter_timers(s, n).st, ..s }),
    decreases n,
{
    if n > 0 {
        lemma_timer_monotonic(s, (n - 1) as nat);
    }
}

/// An undefined instruction word - `0xFFFF` among them - is reported as
/// `UnknownOpcode` carrying the word and its decoded fields. The contract
/// of `execute` then guarantees the machine is left untouched.
pub proof fn lemma_unknown_opcode(s: State, rnd: u8)
    ensures
        step(s, 0xFFFF, rnd) == Err::<State, EmuError>(unknown(0xFFFF)),
        unknown(0xFFFF) == (EmuError::UnknownOpcode {
            op: 0xFFFF,
            d1: 0xF,
            d2: 0xF,
            d3: 0xF,
            d4: 0xF,
        }),
{
}

} // verus!
