//! The execution engine: fetch, decode, dispatch, and the handlers of every
//! opcode family, driving the address space, register file, call frame store,
//! timer units and display buffer.
//!
//! The engine's one deliberate hardening over a bare machine: conditions that
//! are fatal on real hardware (a fetch past the end of memory, an opcode
//! family whose required sub-opcode matches nothing) halt the machine instead
//! of tearing the process down; halting and a fatal decode are the same
//! observable event.

pub mod ascii;
pub mod instruction;
pub mod ram;
pub mod stack;
pub mod timer;

use vstd::prelude::*;

use atomic_counter::RelaxedCounter;
use std::sync::Arc;

use crate::emulator::ascii::{bit_at, covers, Display, HEIGHT, WIDTH};
use crate::emulator::instruction::{
    lemma_decode_bounds, op_family, op_n, op_nn, op_nnn, op_x, op_y, Instruction,
};
use crate::emulator::ram::{fetch_word, Ram, FONT_POS, N_BYTES, PROG_MEM_START};
use crate::emulator::stack::Stack;
use crate::emulator::timer::{
    arm_amount, counter_add, counter_get, counter_reset, countdown_of, create_counter,
    timer_value, TERMINAL_COUNT,
};

verus! {

/// The whole machine: display buffer, register file, address space with its
/// cursor, call frame store, the level state of the 16-key keypad as last
/// handed in by the host, the two shared timer counters, and a flag telling
/// the host that a draw instruction finished a frame.
pub struct Emulator {
    pub display: Display,
    pub stack: Stack,
    pub ram: Ram,
    pub frames: Vec<usize>,
    pub keys: Vec<bool>,
    pub sound_timer: Arc<RelaxedCounter>,
    pub delay_timer: Arc<RelaxedCounter>,
    pub present: bool,
}

impl Emulator {
    /// Well-formedness: every component invariant, 16 key states, and every
    /// saved return address a valid cursor position.
    pub open spec fn wf(self) -> bool {
        &&& self.ram.wf()
        &&& self.stack.wf()
        &&& self.display.wf()
        &&& self.keys.len() == 16
        &&& forall|k: int| 0 <= k < self.frames.len() ==> self.frames@[k] <= N_BYTES
    }

    /// The sixteen general-purpose registers.
    pub open spec fn regs(self) -> Seq<u8> {
        self.stack.v@
    }

    /// The program cursor.
    pub open spec fn pc(self) -> int {
        self.ram.iterator as int
    }

    /// The whole address space.
    pub open spec fn mem(self) -> Seq<u8> {
        self.ram.mem@
    }
}

/// The keypad and timer handles are untouched.
pub open spec fn same_periphery(a: Emulator, b: Emulator) -> bool {
    &&& a.keys == b.keys
    &&& a.sound_timer == b.sound_timer
    &&& a.delay_timer == b.delay_timer
    &&& a.present == b.present
}

/// The display grids agree on every cell.
pub open spec fn same_grid(a: Emulator, b: Emulator) -> bool {
    forall|r: int, c: int|
        0 <= r < HEIGHT && 0 <= c < WIDTH ==> a.display.pixel(r, c) == b.display.pixel(r, c)
}

/// The lowest held key of the 16-key level state, or -1 when none is held,
/// scanning upward from position `k`.
pub open spec fn first_held_from(keys: Seq<bool>, k: int) -> int
    decreases 16 - k,
{
    if k < 0 || k >= 16 {
        -1
    } else if keys[k] {
        k
    } else {
        first_held_from(keys, k + 1)
    }
}

/// The lowest held key, or -1 when none is held.
pub open spec fn first_held(keys: Seq<bool>) -> int {
    first_held_from(keys, 0)
}

/// Whether any of the 16 keys is held.
pub open spec fn any_held(keys: Seq<bool>) -> bool {
    exists|k: int| 0 <= k < 16 && keys[k]
}

pub proof fn lemma_first_held_from(keys: Seq<bool>, k: int)
    requires
        keys.len() == 16,
        0 <= k <= 16,
    ensures
        ({
            let r = first_held_from(keys, k);
            ||| (r == -1 && forall|j: int| k <= j < 16 ==> !keys[j])
            ||| (k <= r < 16 && keys[r] && forall|j: int| k <= j < r ==> !keys[j])
        }),
    decreases 16 - k,
{
    if k < 16 {
        lemma_first_held_from(keys, k + 1);
    }
}

/// A key is found exactly when one is held.
pub proof fn lemma_first_held_iff_any(keys: Seq<bool>)
    requires
        keys.len() == 16,
    ensures
        first_held(keys) == -1 <==> !any_held(keys),
        first_held(keys) == -1 || 0 <= first_held(keys) < 16,
        first_held(keys) >= 0 ==> keys[first_held(keys)],
{
    lemma_first_held_from(keys, 0);
}

/// Relies on rand::random: a value drawn from the thread-local generator.
/// Nothing can be promised of it.
pub assume_specification<T>[ rand::random::<T> ]() -> (r: T)
    where
        rand::distributions::Standard: rand::distributions::Distribution<T>,
;

/// The register file after one ALU-family operation, keyed by the low nibble,
/// reproducing the handler's exact order of flag write and value write (so a
/// flag register chosen as destination behaves as the hardware convention
/// does). Nibbles outside the family are a no-op.
pub open spec fn alu(v: Seq<u8>, x: int, y: int, op: u16) -> Seq<u8> {
    if op == 0 {
        v.update(x, v[y])
    } else if op == 1 {
        v.update(x, v[x] | v[y])
    } else if op == 2 {
        v.update(x, v[x] & v[y])
    } else if op == 3 {
        v.update(x, v[x] ^ v[y])
    } else if op == 4 {
        let s = v[x] + v[y];
        v.update(15, if s > 255 { 1u8 } else { 0u8 }).update(x, (s % 256) as u8)
    } else if op == 5 {
        let d = v[x] - v[y];
        v.update(15, if d > 0 { 1u8 } else { 0u8 }).update(x, (d % 256) as u8)
    } else if op == 7 {
        let d = v[y] - v[x];
        v.update(15, if d > 0 { 1u8 } else { 0u8 }).update(x, (d % 256) as u8)
    } else if op == 6 {
        let v1 = v.update(15, v[x] & 1);
        v1.update(x, v1[x] >> 1)
    } else if op == 14 {
        let v1 = v.update(15, v[x] >> 7);
        v1.update(x, v1[x] << 1)
    } else {
        v
    }
}

/// Whether a skip-family instruction's condition holds of the register file.
pub open spec fn skip_cond(v: Seq<u8>, inst: u16) -> bool {
    let f = op_family(inst);
    if f == 3 {
        v[op_x(inst) as int] == op_nn(inst)
    } else if f == 4 {
        v[op_x(inst) as int] != op_nn(inst)
    } else if f == 5 {
        v[op_x(inst) as int] == v[op_y(inst) as int]
    } else {
        v[op_x(inst) as int] != v[op_y(inst) as int]
    }
}

/// Whether the logical key named by VX is currently held.
pub open spec fn key_held(keys: Seq<bool>, code: u8) -> bool {
    code < 16 && keys[code as int]
}

/// The column origin of a draw instruction: VX wrapped to the grid width.
pub open spec fn draw_vx(pre: Emulator, inst: u16) -> int {
    (pre.regs()[op_x(inst) as int] as int) % (WIDTH as int)
}

/// The row origin of a draw instruction: VY wrapped to the grid height.
pub open spec fn draw_vy(pre: Emulator, inst: u16) -> int {
    (pre.regs()[op_y(inst) as int] as int) % (HEIGHT as int)
}

/// The number of sprite rows actually drawn: N, clipped at the bottom edge.
pub open spec fn draw_rows(pre: Emulator, inst: u16) -> int {
    let n0 = op_n(inst) as int;
    let vy = draw_vy(pre, inst);
    if n0 <= (HEIGHT as int) - vy {
        n0
    } else {
        (HEIGHT as int) - vy
    }
}

/// Whether the sprite named by a draw instruction covers cell (r, c) with a
/// set bit, in the pre-state of the instruction.
pub open spec fn draw_covers(pre: Emulator, inst: u16, r: int, c: int) -> bool {
    covers(
        pre.mem(),
        pre.stack.i as int,
        draw_vx(pre, inst),
        draw_vy(pre, inst),
        draw_rows(pre, inst),
        r,
        c,
    )
}

/// Whether the draw collides: some plotted bit lands on an already set pixel.
pub open spec fn draw_hit(pre: Emulator, inst: u16) -> bool {
    exists|r: int, c: int|
        0 <= r < HEIGHT && 0 <= c < WIDTH && draw_covers(pre, inst, r, c) && pre.display.pixel(
            r,
            c,
        )
}

impl Emulator {
    /// Reads the word at the cursor and advances the cursor by one
    /// instruction width.
    pub fn fetch(&mut self) -> (r: u16)
        requires
            old(self).wf(),
            old(self).pc() + 1 < N_BYTES,
        ensures
            final(self).wf(),
            r == fetch_word(old(self).mem(), old(self).pc()),
            final(self).pc() == old(self).pc() + 2,
            final(self).ram.mem == old(self).ram.mem,
            final(self).stack == old(self).stack,
            final(self).display == old(self).display,
            final(self).frames == old(self).frames,
            same_periphery(*old(self), *final(self)),
    {
        let instr = self.ram.fetch();
        self.ram.increment();
        return instr;
    }

    /// The 0x0NNN family: 0x0E0 clears the display; 0x0EE pops the call frame
    /// store into the cursor, and with no frame left reports that there is no
    /// more program to run (the halt signal, returned as `false`); any other
    /// address is a no-op.
    pub fn clear_cmd(&mut self, inst: u16) -> (cont: bool)
        requires
            old(self).wf(),
        ensures
            final(self).wf(),
            (op_nnn(inst) == 0x0E0 ==> {
                &&& final(self).display.wf()
                &&& forall|r: int, c: int|
                    0 <= r < HEIGHT && 0 <= c < WIDTH ==> !final(self).display.pixel(r, c)
                &&& final(self).ram == old(self).ram
                &&& final(self).stack == old(self).stack
                &&& final(self).frames == old(self).frames
                &&& same_periphery(*old(self), *final(self))
                &&& cont
            }),
            (op_nnn(inst) == 0x0EE && old(self).frames.len() > 0 ==> {
                &&& final(self).frames@ == old(self).frames@.drop_last()
                &&& final(self).pc() == old(self).frames@.last()
                &&& final(self).mem() == old(self).mem()
                &&& final(self).stack == old(self).stack
                &&& final(self).display == old(self).display
                &&& same_periphery(*old(self), *final(self))
                &&& cont
            }),
            (op_nnn(inst) == 0x0EE && old(self).frames.len() == 0 ==> {
                &&& final(self).frames@ == old(self).frames@
                &&& final(self).ram == old(self).ram
                &&& final(self).stack == old(self).stack
                &&& final(self).display == old(self).display
                &&& same_periphery(*old(self), *final(self))
                &&& !cont
            }),
            (op_nnn(inst) != 0x0E0 && op_nnn(inst) != 0x0EE ==> *final(self) == *old(self)
                && cont),
    {
        if inst.jump_addr() == 0x0E0 {
            self.display.clear();
        }
        if inst.jump_addr() == 0x0EE {
            match self.frames.pop() {
                Some(addr) => {
                    self.ram.jump_to(addr);
                },
                None => {
                    return false;
                },
            }
        }
        return true;
    }

    /// 0x1NNN: unconditional jump.
    pub fn jump_cmd(&mut self, inst: u16)
        requires
            old(self).wf(),
        ensures
            final(self).wf(),
            final(self).pc() == op_nnn(inst),
            final(self).mem() == old(self).mem(),
            final(self).stack == old(self).stack,
            final(self).display == old(self).display,
            final(self).frames == old(self).frames,
            same_periphery(*old(self), *final(self)),
    {
        proof {
            lemma_decode_bounds(inst);
        }
        self.ram.jump_to(inst.jump_addr() as usize);
    }

    /// 0x6XNN: set VX to NN.
    pub fn register_set(&mut self, inst: u16)
        requires
            old(self).wf(),
        ensures
            final(self).wf(),
            final(self).regs() == old(self).regs().update(op_x(inst) as int, op_nn(inst)),
            final(self).stack.i == old(self).stack.i,
            final(self).ram == old(self).ram,
            final(self).display == old(self).display,
            final(self).frames == old(self).frames,
            same_periphery(*old(self), *final(self)),
    {
        proof {
            lemma_decode_bounds(inst);
        }
        let x = inst.x_register_of() as usize;
        self.stack.v[x] = inst.second_byte_of();
    }

    /// 0x7XNN: add NN to VX modulo 256, flags untouched.
    pub fn register_add(&mut self, inst: u16)
        requires
            old(self).wf(),
        ensures
            final(self).wf(),
            final(self).regs() == old(self).regs().update(
                op_x(inst) as int,
                ((old(self).regs()[op_x(inst) as int] + op_nn(inst)) % 256) as u8,
            ),
            final(self).stack.i == old(self).stack.i,
            final(self).ram == old(self).ram,
            final(self).display == old(self).display,
            final(self).frames == old(self).frames,
            same_periphery(*old(self), *final(self)),
    {
        proof {
            lemma_decode_bounds(inst);
        }
        let x = inst.x_register_of() as usize;
        let sum: u16 = (self.stack.v[x] as u16) + (inst.second_byte_of() as u16);
        self.stack.v[x] = (sum % 256) as u8;
    }

    /// 0xANNN: set the index register.
    pub fn index_set(&mut self, inst: u16)
        requires
            old(self).wf(),
        ensures
            final(self).wf(),
            final(self).stack.i == op_nnn(inst),
            final(self).regs() == old(self).regs(),
            final(self).ram == old(self).ram,
            final(self).display == old(self).display,
            final(self).frames == old(self).frames,
            same_periphery(*old(self), *final(self)),
    {
        proof {
            lemma_decode_bounds(inst);
        }
        self.stack.i = inst.jump_addr();
    }

    /// 0x2NNN: push the current cursor onto the call frame store and jump to
    /// the subroutine. The saved cursor already points at the instruction
    /// after the call, so the matching return resumes exactly there; running
    /// the body to completion before the caller's next tick is realized by
    /// the frame store rather than by re-entering the engine loop.
    pub fn subroutine(&mut self, inst: u16)
        requires
            old(self).wf(),
            old(self).pc() <= N_BYTES,
        ensures
            final(self).wf(),
            final(self).frames@ == old(self).frames@.push(old(self).ram.iterator),
            final(self).pc() == op_nnn(inst),
            final(self).mem() == old(self).mem(),
            final(self).stack == old(self).stack,
            final(self).display == old(self).display,
            same_periphery(*old(self), *final(self)),
    {
        proof {
            lemma_decode_bounds(inst);
        }
        let pos = self.ram.address();
        self.frames.push(pos);
        self.ram.jump_to(inst.jump_addr() as usize);
    }

    /// 0x8XYN: the ALU family, exactly as `alu` states it.
    pub fn logic_cmd(&mut self, inst: u16)
        requires
            old(self).wf(),
        ensures
            final(self).wf(),
            final(self).regs() == alu(
                old(self).regs(),
                op_x(inst) as int,
                op_y(inst) as int,
                op_n(inst),
            ),
            final(self).stack.i == old(self).stack.i,
            final(self).ram == old(self).ram,
            final(self).display == old(self).display,
            final(self).frames == old(self).frames,
            same_periphery(*old(self), *final(self)),
    {
        proof {
            lemma_decode_bounds(inst);
        }
        let x = inst.x_register_of() as usize;
        let y = inst.y_register_of() as usize;
        match inst.fourth_nibble_of() {
            0 => {
                self.stack.v[x] = self.stack.v[y];
            },
            1 => {
                self.stack.v[x] = self.stack.v[x] | self.stack.v[y];
            },
            2 => {
                self.stack.v[x] = self.stack.v[x] & self.stack.v[y];
            },
            3 => {
                self.stack.v[x] = self.stack.v[x] ^ self.stack.v[y];
            },
            4 => {
                let sum: u16 = (self.stack.v[x] as u16) + (self.stack.v[y] as u16);
                self.stack.v[15] = if sum > 255 {
                    1
                } else {
                    0
                };
                self.stack.v[x] = (sum % 256) as u8;
            },
            5 => {
                let a = self.stack.v[x];
                let b = self.stack.v[y];
                self.stack.v[15] = if a > b {
                    1
                } else {
                    0
                };
                self.stack.v[x] = (((a as u16) + 256 - (b as u16)) % 256) as u8;
                proof {
                    vstd::arithmetic::div_mod::lemma_mod_add_multiples_vanish(
                        a as int - b as int,
                        256,
                    );
                }
            },
            7 => {
                let a = self.stack.v[x];
                let b = self.stack.v[y];
                self.stack.v[15] = if b > a {
                    1
                } else {
                    0
                };
                self.stack.v[x] = (((b as u16) + 256 - (a as u16)) % 256) as u8;
                proof {
                    vstd::arithmetic::div_mod::lemma_mod_add_multiples_vanish(
                        b as int - a as int,
                        256,
                    );
                }
            },
            6 => {
                self.stack.v[15] = self.stack.v[x] & 1;
                self.stack.v[x] = self.stack.v[x] >> 1;
            },
            14 => {
                self.stack.v[15] = self.stack.v[x] >> 7;
                self.stack.v[x] = self.stack.v[x] << 1;
            },
            _ => {},
        }
    }

    /// 0xBNNN: jump to NNN plus V0 (only V0 is ever the offset, one fixed
    /// resolution of a historically ambiguous instruction).
    pub fn jump_offset_cmd(&mut self, inst: u16)
        requires
            old(self).wf(),
        ensures
            final(self).wf(),
            final(self).pc() == op_nnn(inst) + old(self).regs()[0],
            final(self).mem() == old(self).mem(),
            final(self).stack == old(self).stack,
            final(self).display == old(self).display,
            final(self).frames == old(self).frames,
            same_periphery(*old(self), *final(self)),
    {
        proof {
            lemma_decode_bounds(inst);
        }
        self.ram.jump_to(inst.jump_addr() as usize + self.stack.v[0] as usize);
    }

    /// 0xCXNN: set VX to a random byte masked by NN. Only the mask and the
    /// frame of untouched state can be promised of the outcome.
    pub fn random(&mut self, inst: u16)
        requires
            old(self).wf(),
        ensures
            final(self).wf(),
            exists|t: u8|
                final(self).regs() == old(self).regs().update(op_x(inst) as int, t & op_nn(inst)),
            final(self).stack.i == old(self).stack.i,
            final(self).ram == old(self).ram,
            final(self).display == old(self).display,
            final(self).frames == old(self).frames,
            same_periphery(*old(self), *final(self)),
    {
        proof {
            lemma_decode_bounds(inst);
        }
        let x = inst.x_register_of() as usize;
        let b: u8 = rand::random::<u8>();
        self.stack.v[x] = b & inst.second_byte_of();
        proof {
            assert(self.stack.v@ == old(self).regs().update(op_x(inst) as int, b & op_nn(inst)));
        }
    }

    /// 0x3XNN / 0x4XNN / 0x5XY0 / 0x9XY0: skip the next instruction when the
    /// family's condition holds.
    pub fn skip_cmd(&mut self, inst: u16)
        requires
            old(self).wf(),
            old(self).pc() <= N_BYTES,
            op_family(inst) == 3 || op_family(inst) == 4 || op_family(inst) == 5 || op_family(
                inst,
            ) == 9,
        ensures
            final(self).wf(),
            final(self).pc() == old(self).pc() + (if skip_cond(old(self).regs(), inst) {
                2int
            } else {
                0int
            }),
            final(self).mem() == old(self).mem(),
            final(self).stack == old(self).stack,
            final(self).display == old(self).display,
            final(self).frames == old(self).frames,
            same_periphery(*old(self), *final(self)),
    {
        proof {
            lemma_decode_bounds(inst);
        }
        let x = inst.x_register_of() as usize;
        let y = inst.y_register_of() as usize;
        match inst.instruction_of() {
            3 => {
                if self.stack.v[x] == inst.second_byte_of() {
                    self.ram.increment();
                }
            },
            4 => {
                if self.stack.v[x] != inst.second_byte_of() {
                    self.ram.increment();
                }
            },
            5 => {
                if self.stack.v[x] == self.stack.v[y] {
                    self.ram.increment();
                }
            },
            _ => {
                if self.stack.v[x] != self.stack.v[y] {
                    self.ram.increment();
                }
            },
        }
    }

    /// 0xEX9E / 0xEXA1: skip the next instruction when the logical key named
    /// by VX is held / not held.
    pub fn skip_if_cmd(&mut self, inst: u16)
        requires
            old(self).wf(),
            old(self).pc() <= N_BYTES,
            op_nn(inst) == 0x9E || op_nn(inst) == 0xA1,
        ensures
            final(self).wf(),
            final(self).pc() == old(self).pc() + (if (op_nn(inst) == 0x9E) == key_held(
                old(self).keys@,
                old(self).regs()[op_x(inst) as int],
            ) {
                2int
            } else {
                0int
            }),
            final(self).mem() == old(self).mem(),
            final(self).stack == old(self).stack,
            final(self).display == old(self).display,
            final(self).frames == old(self).frames,
            same_periphery(*old(self), *final(self)),
    {
        proof {
            lemma_decode_bounds(inst);
        }
        let x = inst.x_register_of() as usize;
        let code = self.stack.v[x];
        let held = code < 16 && self.keys[code as usize];
        if inst.second_byte_of() == 0x9E {
            if held {
                self.ram.increment();
            }
        } else {
            if !held {
                self.ram.increment();
            }
        }
    }

    /// The lowest held key of the keypad, or -1 when none is held.
    fn first_pressed(&self) -> (r: i32)
        requires
            self.wf(),
        ensures
            r == first_held(self.keys@),
    {
        let mut k: usize = 0;
        while k < 16
            invariant
                self.wf(),
                k <= 16,
                first_held(self.keys@) == first_held_from(self.keys@, k as int),
            decreases 16 - k,
        {
            if self.keys[k] {
                return k as i32;
            }
            k += 1;
        }
        return -1;
    }

    /// 0xFX0A: block until a key is held. With no key held the cursor is
    /// rewound by one instruction width so the same opcode re-fetches next
    /// tick; once a key is held, VX receives its logical code and the cursor
    /// proceeds normally.
    pub fn wait_keypress(&mut self, inst: u16)
        requires
            old(self).wf(),
            old(self).pc() >= 2,
        ensures
            final(self).wf(),
            (first_held(old(self).keys@) == -1 ==> {
                &&& final(self).pc() == old(self).pc() - 2
                &&& final(self).mem() == old(self).mem()
                &&& final(self).stack == old(self).stack
                &&& final(self).display == old(self).display
                &&& final(self).frames == old(self).frames
                &&& same_periphery(*old(self), *final(self))
            }),
            (first_held(old(self).keys@) >= 0 ==> {
                &&& final(self).regs() == old(self).regs().update(
                    op_x(inst) as int,
                    first_held(old(self).keys@) as u8,
                )
                &&& final(self).stack.i == old(self).stack.i
                &&& final(self).ram == old(self).ram
                &&& final(self).display == old(self).display
                &&& final(self).frames == old(self).frames
                &&& same_periphery(*old(self), *final(self))
            }),
    {
        let val = self.first_pressed();
        if val == -1 {
            self.ram.decrement();
            return;
        }
        proof {
            lemma_first_held_iff_any(self.keys@);
            lemma_decode_bounds(inst);
        }
        let x = inst.x_register_of() as usize;
        self.stack.v[x] = val as u8;
    }

    /// The 0xFXNN family: timer reads and re-arms, index arithmetic, the
    /// key wait, font glyph addressing, digit decomposition, and the
    /// register block store and load (which restore the cursor and leave the
    /// index register untouched, one fixed resolution of a historically
    /// ambiguous convention).
    pub fn bloated_cmd(&mut self, inst: u16)
        requires
            old(self).wf(),
            2 <= old(self).pc() <= N_BYTES,
            op_nn(inst) == 0x07 || op_nn(inst) == 0x15 || op_nn(inst) == 0x18 || op_nn(inst)
                == 0x1E || op_nn(inst) == 0x0A || op_nn(inst) == 0x29 || op_nn(inst) == 0x33
                || op_nn(inst) == 0x55 || op_nn(inst) == 0x65,
        ensures
            final(self).wf(),
            (op_nn(inst) == 0x07 ==> {
                &&& exists|g: usize|
                    final(self).regs() == old(self).regs().update(
                        op_x(inst) as int,
                        countdown_of(g),
                    )
                &&& final(self).stack.i == old(self).stack.i
                &&& final(self).ram == old(self).ram
                &&& final(self).display == old(self).display
                &&& final(self).frames == old(self).frames
                &&& same_periphery(*old(self), *final(self))
            }),
            (op_nn(inst) == 0x15 || op_nn(inst) == 0x18 ==> {
                &&& final(self).stack == old(self).stack
                &&& final(self).ram == old(self).ram
                &&& final(self).display == old(self).display
                &&& final(self).frames == old(self).frames
                &&& same_periphery(*old(self), *final(self))
            }),
            (op_nn(inst) == 0x1E ==> {
                let s = old(self).stack.i + old(self).regs()[op_x(inst) as int];
                &&& final(self).regs() == old(self).regs().update(15, if s > 0xFFF {
                    1u8
                } else {
                    0u8
                })
                &&& final(self).stack.i == s % 4096
                &&& final(self).ram == old(self).ram
                &&& final(self).display == old(self).display
                &&& final(self).frames == old(self).frames
                &&& same_periphery(*old(self), *final(self))
            }),
            (op_nn(inst) == 0x0A && first_held(old(self).keys@) == -1 ==> {
                &&& final(self).pc() == old(self).pc() - 2
                &&& final(self).mem() == old(self).mem()
                &&& final(self).stack == old(self).stack
                &&& final(self).display == old(self).display
                &&& final(self).frames == old(self).frames
                &&& same_periphery(*old(self), *final(self))
            }),
            (op_nn(inst) == 0x0A && first_held(old(self).keys@) >= 0 ==> {
                &&& final(self).regs() == old(self).regs().update(
                    op_x(inst) as int,
                    first_held(old(self).keys@) as u8,
                )
                &&& final(self).stack.i == old(self).stack.i
                &&& final(self).ram == old(self).ram
                &&& final(self).display == old(self).display
                &&& final(self).frames == old(self).frames
                &&& same_periphery(*old(self), *final(self))
            }),
            (op_nn(inst) == 0x29 ==> {
                &&& final(self).stack.i == FONT_POS + 5 * old(self).regs()[op_x(inst) as int]
                &&& final(self).regs() == old(self).regs()
                &&& final(self).ram == old(self).ram
                &&& final(self).display == old(self).display
                &&& final(self).frames == old(self).frames
                &&& same_periphery(*old(self), *final(self))
            }),
            (op_nn(inst) == 0x33 ==> {
                let i0 = old(self).stack.i as int;
                let vx = old(self).regs()[op_x(inst) as int];
                &&& final(self).mem() == old(self).mem().update(i0, bcd_hundreds(vx)).update(
                    i0 + 1,
                    bcd_tens(vx),
                ).update(i0 + 2, bcd_ones(vx))
                &&& final(self).pc() == old(self).pc()
                &&& final(self).stack == old(self).stack
                &&& final(self).display == old(self).display
                &&& final(self).frames == old(self).frames
                &&& same_periphery(*old(self), *final(self))
            }),
            (op_nn(inst) == 0x55 ==> {
                let i0 = old(self).stack.i as int;
                let x = op_x(inst) as int;
                &&& forall|j: int| 0 <= j <= x ==> final(self).mem()[i0 + j] == old(self).regs()[j]
                &&& forall|k: int|
                    0 <= k < N_BYTES && !(i0 <= k <= i0 + x) ==> final(self).mem()[k] == old(
                        self,
                    ).mem()[k]
                &&& final(self).mem().len() == old(self).mem().len()
                &&& final(self).pc() == old(self).pc()
                &&& final(self).stack == old(self).stack
                &&& final(self).display == old(self).display
                &&& final(self).frames == old(self).frames
                &&& same_periphery(*old(self), *final(self))
            }),
            (op_nn(inst) == 0x65 ==> {
                let i0 = old(self).stack.i as int;
                let x = op_x(inst) as int;
                &&& forall|j: int| 0 <= j <= x ==> final(self).regs()[j] == old(self).mem()[i0 + j]
                &&& forall|j: int| x < j < 16 ==> final(self).regs()[j] == old(self).regs()[j]
                &&& final(self).regs().len() == 16
                &&& final(self).stack.i == old(self).stack.i
                &&& final(self).ram == old(self).ram
                &&& final(self).display == old(self).display
                &&& final(self).frames == old(self).frames
                &&& same_periphery(*old(self), *final(self))
            }),
    {
        proof {
            lemma_decode_bounds(inst);
        }
        let x = inst.x_register_of() as usize;
        match inst.second_byte_of() {
            0x07 => {
                let g = counter_get(&self.delay_timer);
                let val = timer_value(g);
                self.stack.v[x] = val;
                proof {
                    assert(self.stack.v@ == old(self).regs().update(
                        op_x(inst) as int,
                        countdown_of(g),
                    ));
                }
            },
            0x15 => {
                let val = arm_amount(self.stack.v[x]);
                counter_reset(&self.delay_timer);
                counter_add(&self.delay_timer, val);
            },
            0x18 => {
                let val = arm_amount(self.stack.v[x]);
                counter_reset(&self.sound_timer);
                counter_add(&self.sound_timer, val);
            },
            0x1E => {
                let sum: u16 = self.stack.i + self.stack.v[x] as u16;
                self.stack.v[15] = if sum > 0xFFF {
                    1
                } else {
                    0
                };
                self.stack.i = sum & 0xFFF;
                proof {
                    assert(sum & 0xFFF == sum % 4096) by (bit_vector);
                }
            },
            0x0A => {
                self.wait_keypress(inst);
            },
            0x29 => {
                self.stack.i = (FONT_POS as u16) + (self.stack.v[x] as u16) * 5;
            },
            0x33 => {
                let addr = self.ram.address();
                let vx = self.stack.v[x];
                let base = self.stack.i as usize;
                self.ram.jump_to(base);
                self.ram.set_byte(vx / 100);
                self.ram.jump_to(base + 1);
                self.ram.set_byte((vx / 10) % 10);
                self.ram.jump_to(base + 2);
                self.ram.set_byte(vx % 10);
                self.ram.jump_to(addr);
            },
            0x55 => {
                let addr = self.ram.address();
                let mut k: usize = 0;
                while k < x + 1
                    invariant
                        old(self).wf(),
                        self.ram.wf(),
                        x == op_x(inst),
                        x < 16,
                        k <= x + 1,
                        old(self).stack.i <= 0xFFF,
                        self.stack == old(self).stack,
                        self.display == old(self).display,
                        self.frames == old(self).frames,
                        same_periphery(*old(self), *self),
                        self.mem().len() == old(self).mem().len(),
                        forall|j: int|
                            0 <= j < k ==> self.mem()[old(self).stack.i + j] == old(self).regs()[j],
                        forall|m: int|
                            0 <= m < N_BYTES && !(old(self).stack.i <= m < old(self).stack.i + k)
                                ==> self.mem()[m] == old(self).mem()[m],
                    decreases x + 1 - k,
                {
                    self.ram.jump_to(self.stack.i as usize + k);
                    self.ram.set_byte(self.stack.v[k]);
                    k += 1;
                }
                self.ram.jump_to(addr);
            },
            0x65 => {
                let mut k: usize = 0;
                proof {
                    assert(self.stack.v@ =~= Seq::new(
                        16,
                        |j: int|
                            if 0 <= j < k {
                                old(self).mem()[old(self).stack.i + j]
                            } else {
                                old(self).regs()[j]
                            },
                    ));
                }
                while k < x + 1
                    invariant
                        old(self).wf(),
                        self.wf(),
                        x == op_x(inst),
                        x < 16,
                        k <= x + 1,
                        self.stack.i == old(self).stack.i,
                        self.stack.v.len() == 16,
                        self.ram == old(self).ram,
                        self.display == old(self).display,
                        self.frames == old(self).frames,
                        same_periphery(*old(self), *self),
                        self.stack.v@ == Seq::new(
                            16,
                            |j: int|
                                if 0 <= j < k {
                                    old(self).mem()[old(self).stack.i + j]
                                } else {
                                    old(self).regs()[j]
                                },
                        ),
                    decreases x + 1 - k,
                {
                    let b = self.ram.get(self.stack.i as usize + k);
                    self.stack.v[k] = b;
                    proof {
                        assert(self.stack.v@ =~= Seq::new(
                            16,
                            |j: int|
                                if 0 <= j < k + 1 {
                                    old(self).mem()[old(self).stack.i + j]
                                } else {
                                    old(self).regs()[j]
                                },
                        ));
                    }
                    k += 1;
                }
            },
            _ => {
                proof {
                    assert(false);
                }
            },
        }
    }
}

impl Emulator {
    /// 0xDXYN: draw an 8-bit-wide, N-row sprite sourced from memory at the
    /// index register, with origin (VX mod 64, VY mod 32). Every sprite bit
    /// is XOR-plotted; rows and columns that would fall outside the grid are
    /// clipped, not wrapped. VF becomes 1 exactly when some plotted pixel
    /// went from set to unset, and the finished frame is flagged for the
    /// host to present.
    #[verifier::rlimit(60)]
    pub fn display_cmd(&mut self, inst: u16)
        requires
            old(self).wf(),
        ensures
            final(self).wf(),
            forall|r: int, c: int|
                0 <= r < HEIGHT && 0 <= c < WIDTH ==> final(self).display.pixel(r, c) == (old(
                    self,
                ).display.pixel(r, c) != draw_covers(*old(self), inst, r, c)),
            final(self).regs() == old(self).regs().update(
                15,
                if draw_hit(*old(self), inst) {
                    1u8
                } else {
                    0u8
                },
            ),
            final(self).stack.i == old(self).stack.i,
            final(self).ram == old(self).ram,
            final(self).frames == old(self).frames,
            final(self).keys == old(self).keys,
            final(self).sound_timer == old(self).sound_timer,
            final(self).delay_timer == old(self).delay_timer,
            final(self).present == true,
    {
        proof {
            lemma_decode_bounds(inst);
        }
        let ghost pre = *old(self);
        let x = inst.x_register_of() as usize;
        let y = inst.y_register_of() as usize;
        let vx = (self.stack.v[x] % (WIDTH as u8)) as usize;
        let vy = (self.stack.v[y] % (HEIGHT as u8)) as usize;
        let n0 = inst.fourth_nibble_of() as usize;
        let n = if n0 <= HEIGHT - vy {
            n0
        } else {
            HEIGHT - vy
        };
        proof {
            assert(vx == draw_vx(pre, inst));
            assert(vy == draw_vy(pre, inst));
            assert(n == draw_rows(pre, inst));
        }
        let mut zeroed = false;
        let mut i_pos = self.stack.i as usize;
        let mut i: usize = 0;
        while i < n
            invariant
                pre.wf(),
                pre == *old(self),
                self.ram == pre.ram,
                self.stack == pre.stack,
                self.frames == pre.frames,
                same_periphery(pre, *self),
                self.display.wf(),
                vx == draw_vx(pre, inst),
                vy == draw_vy(pre, inst),
                n == draw_rows(pre, inst),
                vx < WIDTH,
                vy < HEIGHT,
                n <= HEIGHT - vy,
                i <= n,
                i_pos == pre.stack.i + i,
                forall|r: int, c: int|
                    0 <= r < HEIGHT && 0 <= c < WIDTH ==> self.display.pixel(r, c) == (
                    #[trigger] pre.display.pixel(r, c) != (draw_covers(pre, inst, r, c) && r < vy
                        + i)),
                zeroed == exists|r: int, c: int|
                    0 <= r < HEIGHT && 0 <= c < WIDTH && draw_covers(pre, inst, r, c) && r < vy + i
                        && #[trigger] pre.display.pixel(r, c),
            decreases n - i,
        {
            let row = self.ram.get(i_pos);
            let wl = if 8 <= WIDTH - vx {
                8
            } else {
                WIDTH - vx
            };
            let mut j: usize = 0;
            while j < wl
                invariant
                    pre.wf(),
                    pre == *old(self),
                    self.ram == pre.ram,
                    self.stack == pre.stack,
                    self.frames == pre.frames,
                    same_periphery(pre, *self),
                    self.display.wf(),
                    vx == draw_vx(pre, inst),
                    vy == draw_vy(pre, inst),
                    n == draw_rows(pre, inst),
                    vx < WIDTH,
                    vy < HEIGHT,
                    n <= HEIGHT - vy,
                    i < n,
                    i_pos == pre.stack.i + i,
                    row == pre.mem()[pre.stack.i + i],
                    wl == (if 8 <= WIDTH - vx {
                        8int
                    } else {
                        (WIDTH - vx) as int
                    }),
                    j <= wl,
                    forall|r: int, c: int|
                        0 <= r < HEIGHT && 0 <= c < WIDTH ==> self.display.pixel(r, c) == (
                        #[trigger] pre.display.pixel(r, c) != (draw_covers(pre, inst, r, c) && (r
                            < vy + i || (r == vy + i && c < vx + j)))),
                    zeroed == exists|r: int, c: int|
                        0 <= r < HEIGHT && 0 <= c < WIDTH && draw_covers(pre, inst, r, c) && (r
                            < vy + i || (r == vy + i && c < vx + j)) && #[trigger] pre.display.pixel(
                            r,
                            c,
                        ),
                decreases wl - j,
            {
                let sh: u8 = (7 - j) as u8;
                let toggle = ((row >> sh) & 1) != 0;
                proof {
                    assert((row >> sh) & 1 < 2) by (bit_vector);
                    assert(toggle == bit_at(row, j as int));
                    assert(draw_covers(pre, inst, (vy + i) as int, (vx + j) as int) == toggle);
                    assert(self.display.pixel((vy + i) as int, (vx + j) as int)
                        == pre.display.pixel((vy + i) as int, (vx + j) as int));
                }
                let ghost zeroed_before = zeroed;
                let hit = self.display.xor(toggle, vy + i, vx + j);
                zeroed = zeroed || hit;
                proof {
                    assert(hit == (draw_covers(pre, inst, (vy + i) as int, (vx + j) as int)
                        && pre.display.pixel((vy + i) as int, (vx + j) as int)));
                    assert forall|r: int, c: int|
                        0 <= r < HEIGHT && 0 <= c < WIDTH implies self.display.pixel(r, c) == (
                    #[trigger] pre.display.pixel(r, c) != (draw_covers(pre, inst, r, c) && (r < vy
                        + i || (r == vy + i && c < vx + j + 1)))) by {
                        if r == vy + i && c == vx + j {
                        } else {
                            assert(r * (WIDTH as int) + c != (vy + i) * (WIDTH as int) + (vx + j));
                            assert(self.display.pixel(r, c) == (pre.display.pixel(r, c) != (
                            draw_covers(pre, inst, r, c) && (r < vy + i || (r == vy + i && c < vx
                                + j)))));
                        }
                    }
                    if zeroed {
                        if zeroed_before {
                            let (r0, c0) = choose|r: int, c: int|
                                0 <= r < HEIGHT && 0 <= c < WIDTH && draw_covers(pre, inst, r, c)
                                    && (r < vy + i || (r == vy + i && c < vx + j))
                                    && #[trigger] pre.display.pixel(r, c);
                            assert(draw_covers(pre, inst, r0, c0) && (r0 < vy + i || (r0 == vy + i
                                && c0 < vx + j + 1)) && pre.display.pixel(r0, c0));
                        } else {
                            assert(draw_covers(pre, inst, (vy + i) as int, (vx + j) as int)
                                && pre.display.pixel((vy + i) as int, (vx + j) as int));
                        }
                    } else {
                        assert forall|r: int, c: int|
                            0 <= r < HEIGHT && 0 <= c < WIDTH && draw_covers(pre, inst, r, c) && (r
                                < vy + i || (r == vy + i && c < vx + j + 1)) implies !(
                        #[trigger] pre.display.pixel(r, c)) by {
                            if r == vy + i && c == vx + j {
                                assert(!hit);
                            }
                        }
                    }
                }
                j += 1;
            }
            proof {
                assert forall|r: int, c: int|
                    0 <= r < HEIGHT && 0 <= c < WIDTH implies self.display.pixel(r, c) == (
                #[trigger] pre.display.pixel(r, c) != (draw_covers(pre, inst, r, c) && r < vy + i
                    + 1)) by {
                    if r == vy + i && draw_covers(pre, inst, r, c) {
                        assert(vx <= c < vx + 8 && c < WIDTH);
                        assert(c < vx + wl);
                    }
                }
                assert forall|r: int, c: int|
                    0 <= r < HEIGHT && 0 <= c < WIDTH && draw_covers(pre, inst, r, c) && (r < vy
                        + i || (r == vy + i && c < vx + wl)) && #[trigger] pre.display.pixel(r, c)
                        implies (draw_covers(pre, inst, r, c) && r < vy + i + 1
                        && pre.display.pixel(r, c)) by {}
                assert forall|r: int, c: int|
                    0 <= r < HEIGHT && 0 <= c < WIDTH && draw_covers(pre, inst, r, c) && r < vy + i
                        + 1 && #[trigger] pre.display.pixel(r, c) implies (draw_covers(
                    pre,
                    inst,
                    r,
                    c,
                ) && (r < vy + i || (r == vy + i && c < vx + wl)) && pre.display.pixel(r, c)) by {
                    if r == vy + i {
                        assert(vx <= c < vx + 8 && c < WIDTH);
                        assert(c < vx + wl);
                    }
                }
            }
            i_pos += 1;
            i += 1;
        }
        self.stack.v[15] = if zeroed {
            1
        } else {
            0
        };
        self.present = true;
        proof {
            assert forall|r: int, c: int|
                0 <= r < HEIGHT && 0 <= c < WIDTH implies self.display.pixel(r, c) == (
            #[trigger] pre.display.pixel(r, c) != draw_covers(pre, inst, r, c)) by {
                if draw_covers(pre, inst, r, c) {
                    assert(vy <= r < vy + n);
                }
            }
            assert(zeroed == draw_hit(pre, inst));
        }
    }
}

/// The hundreds digit of a byte's decimal decomposition.
pub open spec fn bcd_hundreds(v: u8) -> u8 {
    ((v as int) / 100) as u8
}

/// The tens digit of a byte's decimal decomposition.
pub open spec fn bcd_tens(v: u8) -> u8 {
    (((v as int) / 10) % 10) as u8
}

/// The ones digit of a byte's decimal decomposition.
pub open spec fn bcd_ones(v: u8) -> u8 {
    ((v as int) % 10) as u8
}

/// One tick of the engine relates the machine after to the machine before:
/// a cursor with no room left for a fetch leaves the machine untouched (the
/// out-of-bounds halt), and otherwise the fetched word's step relation holds
/// from the advanced machine.
pub open spec fn tick_rel(pre: Emulator, post: Emulator) -> bool {
    if pre.pc() + 1 >= N_BYTES {
        post == pre
    } else {
        step_post(advance(pre), post, fetch_word(pre.mem(), pre.pc()))
    }
}

/// Whether the engine keeps running after one tick from `pre`.
pub open spec fn tick_cont(pre: Emulator) -> bool {
    pre.pc() + 1 < N_BYTES && step_cont(advance(pre), fetch_word(pre.mem(), pre.pc()))
}

/// A completed run of the engine from `from` to `to`: a chain of states
/// joined tick by tick by `tick_rel`, every tick but the last continuing,
/// and the last one halting — unless the driver's tick budget ran out first.
pub open spec fn halted_run(from: Emulator, to: Emulator, ts: Seq<Emulator>) -> bool {
    &&& ts.len() >= 2
    &&& ts[0] == from
    &&& ts.last() == to
    &&& forall|i: int| 0 <= i < ts.len() - 1 ==> #[trigger] tick_rel(ts[i], ts[i + 1])
    &&& forall|i: int| 0 <= i < ts.len() - 2 ==> tick_cont(#[trigger] ts[i])
    &&& (!tick_cont(ts[ts.len() - 2]) || ts.len() - 1 >= 0xFFFF_FFFF_FFFF_FFFF)
}

/// The machine with its cursor moved past the instruction word just fetched.
pub open spec fn advance(e: Emulator) -> Emulator {
    Emulator { ram: (Ram { mem: e.ram.mem, iterator: (e.ram.iterator + 2) as usize }), ..e }
}

/// Whether the engine keeps running after executing `inst` in state `pre`:
/// everything continues except a return with no matching call (the normal
/// halt) and an opcode whose required sub-opcode matches nothing (a fatal
/// decode, surfaced as the same halt).
pub open spec fn step_cont(pre: Emulator, inst: u16) -> bool {
    let f = op_family(inst);
    if f == 0 {
        !(op_nnn(inst) == 0x0EE && pre.frames.len() == 0)
    } else if f == 0xE {
        op_nn(inst) == 0x9E || op_nn(inst) == 0xA1
    } else if f == 0xF {
        op_nn(inst) == 0x07 || op_nn(inst) == 0x15 || op_nn(inst) == 0x18 || op_nn(inst) == 0x1E
            || op_nn(inst) == 0x0A || op_nn(inst) == 0x29 || op_nn(inst) == 0x33 || op_nn(inst)
            == 0x55 || op_nn(inst) == 0x65
    } else {
        true
    }
}

/// How executing one decoded instruction relates the machine after (`post`)
/// to the machine before (`pre`), for every opcode family.
pub open spec fn step_post(pre: Emulator, post: Emulator, inst: u16) -> bool {
    let f = op_family(inst);
    let x = op_x(inst) as int;
    let nn = op_nn(inst);
    &&& post.wf()
    &&& (f == 0 && op_nnn(inst) == 0x0E0 ==> {
        &&& forall|r: int, c: int|
            0 <= r < HEIGHT && 0 <= c < WIDTH ==> !post.display.pixel(r, c)
        &&& post.ram == pre.ram
        &&& post.stack == pre.stack
        &&& post.frames == pre.frames
        &&& same_periphery(pre, post)
    })
    &&& (f == 0 && op_nnn(inst) == 0x0EE && pre.frames.len() > 0 ==> {
        &&& post.frames@ == pre.frames@.drop_last()
        &&& post.pc() == pre.frames@.last()
        &&& post.mem() == pre.mem()
        &&& post.stack == pre.stack
        &&& post.display == pre.display
        &&& same_periphery(pre, post)
    })
    &&& (f == 0 && op_nnn(inst) == 0x0EE && pre.frames.len() == 0 ==> {
        &&& post.frames@ == pre.frames@
        &&& post.ram == pre.ram
        &&& post.stack == pre.stack
        &&& post.display == pre.display
        &&& same_periphery(pre, post)
    })
    &&& (f == 0 && op_nnn(inst) != 0x0E0 && op_nnn(inst) != 0x0EE ==> post == pre)
    &&& (f == 1 ==> {
        &&& post.pc() == op_nnn(inst)
        &&& post.mem() == pre.mem()
        &&& post.stack == pre.stack
        &&& post.display == pre.display
        &&& post.frames == pre.frames
        &&& same_periphery(pre, post)
    })
    &&& (f == 2 ==> {
        &&& post.frames@ == pre.frames@.push(pre.ram.iterator)
        &&& post.pc() == op_nnn(inst)
        &&& post.mem() == pre.mem()
        &&& post.stack == pre.stack
        &&& post.display == pre.display
        &&& same_periphery(pre, post)
    })
    &&& (f == 3 || f == 4 || f == 5 || f == 9 ==> {
        &&& post.pc() == pre.pc() + (if skip_cond(pre.regs(), inst) {
            2int
        } else {
            0int
        })
        &&& post.mem() == pre.mem()
        &&& post.stack == pre.stack
        &&& post.display == pre.display
        &&& post.frames == pre.frames
        &&& same_periphery(pre, post)
    })
    &&& (f == 6 ==> {
        &&& post.regs() == pre.regs().update(x, nn)
        &&& post.stack.i == pre.stack.i
        &&& post.ram == pre.ram
        &&& post.display == pre.display
        &&& post.frames == pre.frames
        &&& same_periphery(pre, post)
    })
    &&& (f == 7 ==> {
        &&& post.regs() == pre.regs().update(x, ((pre.regs()[x] + nn) % 256) as u8)
        &&& post.stack.i == pre.stack.i
        &&& post.ram == pre.ram
        &&& post.display == pre.display
        &&& post.frames == pre.frames
        &&& same_periphery(pre, post)
    })
    &&& (f == 8 ==> {
        &&& post.regs() == alu(pre.regs(), x, op_y(inst) as int, op_n(inst))
        &&& post.stack.i == pre.stack.i
        &&& post.ram == pre.ram
        &&& post.display == pre.display
        &&& post.frames == pre.frames
        &&& same_periphery(pre, post)
    })
    &&& (f == 0xA ==> {
        &&& post.stack.i == op_nnn(inst)
        &&& post.regs() == pre.regs()
        &&& post.ram == pre.ram
        &&& post.display == pre.display
        &&& post.frames == pre.frames
        &&& same_periphery(pre, post)
    })
    &&& (f == 0xB ==> {
        &&& post.pc() == op_nnn(inst) + pre.regs()[0]
        &&& post.mem() == pre.mem()
        &&& post.stack == pre.stack
        &&& post.display == pre.display
        &&& post.frames == pre.frames
        &&& same_periphery(pre, post)
    })
    &&& (f == 0xC ==> {
        &&& exists|t: u8| post.regs() == pre.regs().update(x, t & nn)
        &&& post.stack.i == pre.stack.i
        &&& post.ram == pre.ram
        &&& post.display == pre.display
        &&& post.frames == pre.frames
        &&& same_periphery(pre, post)
    })
    &&& (f == 0xD ==> {
        &&& forall|r: int, c: int|
            0 <= r < HEIGHT && 0 <= c < WIDTH ==> post.display.pixel(r, c) == (pre.display.pixel(
                r,
                c,
            ) != draw_covers(pre, inst, r, c))
        &&& post.regs() == pre.regs().update(15, if draw_hit(pre, inst) {
            1u8
        } else {
            0u8
        })
        &&& post.stack.i == pre.stack.i
        &&& post.ram == pre.ram
        &&& post.frames == pre.frames
        &&& post.keys == pre.keys
        &&& post.sound_timer == pre.sound_timer
        &&& post.delay_timer == pre.delay_timer
        &&& post.present == true
    })
    &&& (f == 0xE && (nn == 0x9E || nn == 0xA1) ==> {
        &&& post.pc() == pre.pc() + (if (nn == 0x9E) == key_held(pre.keys@, pre.regs()[x]) {
            2int
        } else {
            0int
        })
        &&& post.mem() == pre.mem()
        &&& post.stack == pre.stack
        &&& post.display == pre.display
        &&& post.frames == pre.frames
        &&& same_periphery(pre, post)
    })
    &&& (f == 0xE && !(nn == 0x9E || nn == 0xA1) ==> post == pre)
    &&& (f == 0xF && nn == 0x07 ==> {
        &&& exists|g: usize| post.regs() == pre.regs().update(x, countdown_of(g))
        &&& post.stack.i == pre.stack.i
        &&& post.ram == pre.ram
        &&& post.display == pre.display
        &&& post.frames == pre.frames
        &&& same_periphery(pre, post)
    })
    &&& (f == 0xF && (nn == 0x15 || nn == 0x18) ==> {
        &&& post.stack == pre.stack
        &&& post.ram == pre.ram
        &&& post.display == pre.display
        &&& post.frames == pre.frames
        &&& same_periphery(pre, post)
    })
    &&& (f == 0xF && nn == 0x1E ==> {
        let s = pre.stack.i + pre.regs()[x];
        &&& post.regs() == pre.regs().update(15, if s > 0xFFF {
            1u8
        } else {
            0u8
        })
        &&& post.stack.i == s % 4096
        &&& post.ram == pre.ram
        &&& post.display == pre.display
        &&& post.frames == pre.frames
        &&& same_periphery(pre, post)
    })
    &&& (f == 0xF && nn == 0x0A && first_held(pre.keys@) == -1 ==> {
        &&& post.pc() == pre.pc() - 2
        &&& post.mem() == pre.mem()
        &&& post.stack == pre.stack
        &&& post.display == pre.display
        &&& post.frames == pre.frames
        &&& same_periphery(pre, post)
    })
    &&& (f == 0xF && nn == 0x0A && first_held(pre.keys@) >= 0 ==> {
        &&& post.regs() == pre.regs().update(x, first_held(pre.keys@) as u8)
        &&& post.stack.i == pre.stack.i
        &&& post.ram == pre.ram
        &&& post.display == pre.display
        &&& post.frames == pre.frames
        &&& same_periphery(pre, post)
    })
    &&& (f == 0xF && nn == 0x29 ==> {
        &&& post.stack.i == FONT_POS + 5 * pre.regs()[x]
        &&& post.regs() == pre.regs()
        &&& post.ram == pre.ram
        &&& post.display == pre.display
        &&& post.frames == pre.frames
        &&& same_periphery(pre, post)
    })
    &&& (f == 0xF && nn == 0x33 ==> {
        let i0 = pre.stack.i as int;
        let vx = pre.regs()[x];
        &&& post.mem() == pre.mem().update(i0, bcd_hundreds(vx)).update(i0 + 1, bcd_tens(vx)).update(
            i0 + 2,
            bcd_ones(vx),
        )
        &&& post.pc() == pre.pc()
        &&& post.stack == pre.stack
        &&& post.display == pre.display
        &&& post.frames == pre.frames
        &&& same_periphery(pre, post)
    })
    &&& (f == 0xF && nn == 0x55 ==> {
        let i0 = pre.stack.i as int;
        &&& forall|j: int| 0 <= j <= x ==> post.mem()[i0 + j] == pre.regs()[j]
        &&& forall|k: int|
            0 <= k < N_BYTES && !(i0 <= k <= i0 + x) ==> post.mem()[k] == pre.mem()[k]
        &&& post.mem().len() == pre.mem().len()
        &&& post.pc() == pre.pc()
        &&& post.stack == pre.stack
        &&& post.display == pre.display
        &&& post.frames == pre.frames
        &&& same_periphery(pre, post)
    })
    &&& (f == 0xF && nn == 0x65 ==> {
        let i0 = pre.stack.i as int;
        &&& forall|j: int| 0 <= j <= x ==> post.regs()[j] == pre.mem()[i0 + j]
        &&& forall|j: int| x < j < 16 ==> post.regs()[j] == pre.regs()[j]
        &&& post.regs().len() == 16
        &&& post.stack.i == pre.stack.i
        &&& post.ram == pre.ram
        &&& post.display == pre.display
        &&& post.frames == pre.frames
        &&& same_periphery(pre, post)
    })
    &&& (f == 0xF && !step_cont(pre, inst) ==> post == pre)
}

impl Emulator {
    /// Decode the family nibble and dispatch one fetched instruction word.
    /// Returns whether the engine keeps running, exactly as `step_cont` says;
    /// the state change is exactly what `step_post` says of the family.
    pub fn execute(&mut self, inst: u16) -> (cont: bool)
        requires
            old(self).wf(),
            2 <= old(self).pc() <= N_BYTES,
        ensures
            final(self).wf(),
            step_post(*old(self), *final(self), inst),
            cont == step_cont(*old(self), inst),
    {
        proof {
            lemma_decode_bounds(inst);
        }
        match inst.instruction_of() {
            0 => {
                return self.clear_cmd(inst);
            },
            1 => {
                self.jump_cmd(inst);
            },
            2 => {
                self.subroutine(inst);
            },
            3 | 4 | 5 | 9 => {
                self.skip_cmd(inst);
            },
            6 => {
                self.register_set(inst);
            },
            7 => {
                self.register_add(inst);
            },
            8 => {
                self.logic_cmd(inst);
            },
            0xA => {
                self.index_set(inst);
            },
            0xB => {
                self.jump_offset_cmd(inst);
            },
            0xC => {
                self.random(inst);
            },
            0xD => {
                self.display_cmd(inst);
            },
            0xE => {
                let nn = inst.second_byte_of();
                if nn == 0x9E || nn == 0xA1 {
                    self.skip_if_cmd(inst);
                } else {
                    return false;
                }
            },
            0xF => {
                let nn = inst.second_byte_of();
                if nn == 0x07 || nn == 0x15 || nn == 0x18 || nn == 0x1E || nn == 0x0A || nn == 0x29
                    || nn == 0x33 || nn == 0x55 || nn == 0x65 {
                    self.bloated_cmd(inst);
                } else {
                    return false;
                }
            },
            _ => {
                proof {
                    assert(false);
                }
            },
        }
        return true;
    }

    /// One tick: fetch the word at the cursor, advance the cursor by one
    /// instruction width, and execute. A cursor with no room left for a
    /// fetch halts the machine (the out-of-bounds fatal condition, surfaced
    /// as a halt). The returned flag is false exactly when the machine
    /// halted this tick. In particular, a key-wait tick with no key held
    /// leaves the cursor where it was, and with a key held advances it
    /// exactly once, setting VX to that key's code.
    pub fn loop_run(&mut self) -> (cont: bool)
        requires
            old(self).wf(),
        ensures
            final(self).wf(),
            tick_rel(*old(self), *final(self)),
            cont == tick_cont(*old(self)),
            (old(self).pc() + 1 < N_BYTES && ({
                let inst = fetch_word(old(self).mem(), old(self).pc());
                op_family(inst) == 0xF && op_nn(inst) == 0x0A
            }) && !any_held(old(self).keys@) ==> final(self).pc() == old(self).pc()
                && final(self).regs() == old(self).regs()),
            (old(self).pc() + 1 < N_BYTES && ({
                let inst = fetch_word(old(self).mem(), old(self).pc());
                op_family(inst) == 0xF && op_nn(inst) == 0x0A
            }) && any_held(old(self).keys@) ==> final(self).pc() == old(self).pc() + 2
                && final(self).regs() == old(self).regs().update(
                op_x(fetch_word(old(self).mem(), old(self).pc())) as int,
                first_held(old(self).keys@) as u8,
            )),
    {
        if self.ram.address() + 1 >= N_BYTES {
            return false;
        }
        let val = self.fetch();
        proof {
            assert(*self == advance(*old(self)));
            lemma_first_held_iff_any(old(self).keys@);
        }
        return self.execute(val);
    }

    /// Drives ticks back to back until the machine halts: the final state is
    /// reached from the initial one by a chain of engine ticks, every tick
    /// but the last continuing and the last one halting. Pacing the ticks
    /// against a wall clock is the host's concern; a host that wants a fixed
    /// tick rate calls `loop_run` itself and sleeps between ticks. The tick
    /// budget satisfies the termination lint; at any real tick rate it
    /// outlives every host, and a run that exhausts it is reported as such
    /// by the trace.
    pub fn start_loop(&mut self)
        requires
            old(self).wf(),
        ensures
            final(self).wf(),
            exists|ts: Seq<Emulator>| halted_run(*old(self), *final(self), ts),
    {
        let ghost mut trace: Seq<Emulator> = seq![*self];
        let mut fuel: u64 = 0xFFFF_FFFF_FFFF_FFFF;
        while fuel > 0
            invariant
                self.wf(),
                trace.len() >= 1,
                trace[0] == *old(self),
                trace.last() == *self,
                forall|i: int|
                    0 <= i < trace.len() - 1 ==> #[trigger] tick_rel(trace[i], trace[i + 1]),
                forall|i: int| 0 <= i < trace.len() - 1 ==> tick_cont(#[trigger] trace[i]),
                trace.len() - 1 == 0xFFFF_FFFF_FFFF_FFFFu64 - fuel,
            decreases fuel,
        {
            let cont = self.loop_run();
            proof {
                trace = trace.push(*self);
            }
            if !cont {
                proof {
                    assert(halted_run(*old(self), *self, trace));
                }
                return ;
            }
            fuel -= 1;
        }
        proof {
            assert(halted_run(*old(self), *self, trace));
        }
    }

    /// Signals both timer tasks to stop by driving their counters to the
    /// terminal value; `tick_decision` says a task observing that value
    /// never ticks again.
    pub fn shutdown(&self) {
        counter_add(&self.sound_timer, TERMINAL_COUNT);
        counter_add(&self.delay_timer, TERMINAL_COUNT);
    }

    /// Flags the initial frame for the host to present, runs the machine
    /// tick by tick until it halts — the final state is joined to the
    /// flagged initial one by a halting chain of engine ticks — then signals
    /// both timer tasks to stop.
    pub fn run(&mut self)
        requires
            old(self).wf(),
        ensures
            final(self).wf(),
            ({
                let started = (Emulator { present: true, ..*old(self) });
                exists|ts: Seq<Emulator>| halted_run(started, *final(self), ts)
            }),
    {
        self.present = true;
        proof {
            assert(*self == (Emulator { present: true, ..*old(self) }));
        }
        self.start_loop();
        self.shutdown();
    }

    /// A copy of the program region.
    pub fn get_pgrm_mem(&mut self) -> (r: Vec<u8>)
        requires
            old(self).wf(),
        ensures
            *final(self) == *old(self),
            r@ == old(self).mem().subrange(
                PROG_MEM_START as int,
                crate::emulator::ram::N_INSTRUCTIONS as int,
            ),
    {
        return self.ram.get_pgrm_mem();
    }

    /// Copies a program image into the program region; everything else,
    /// the cursor included, stays as it was.
    pub fn load_program(&mut self, prog: &Vec<u8>)
        requires
            old(self).wf(),
            prog.len() <= crate::emulator::ram::N_INSTRUCTIONS - PROG_MEM_START,
        ensures
            final(self).wf(),
            final(self).pc() == old(self).pc(),
            forall|k: int|
                0 <= k < prog.len() ==> final(self).mem()[PROG_MEM_START + k] == prog@[k],
            forall|k: int|
                0 <= k < N_BYTES && !(PROG_MEM_START <= k < PROG_MEM_START + prog.len())
                    ==> final(self).mem()[k] == old(self).mem()[k],
            final(self).stack == old(self).stack,
            final(self).display == old(self).display,
            final(self).frames == old(self).frames,
            same_periphery(*old(self), *final(self)),
    {
        self.ram.load_program(prog);
    }

    /// Replaces the keypad level state with what the host's adapter reports.
    pub fn set_keys(&mut self, keys: Vec<bool>)
        requires
            old(self).wf(),
            keys.len() == 16,
        ensures
            final(self).wf(),
            final(self).keys@ == keys@,
            final(self).stack == old(self).stack,
            final(self).ram == old(self).ram,
            final(self).display == old(self).display,
            final(self).frames == old(self).frames,
            final(self).sound_timer == old(self).sound_timer,
            final(self).delay_timer == old(self).delay_timer,
            final(self).present == old(self).present,
    {
        self.keys = keys;
    }

    /// Reads one general-purpose register.
    pub fn register(&self, x: u8) -> (r: u8)
        requires
            self.wf(),
            x < 16,
        ensures
            r == self.regs()[x as int],
    {
        return self.stack.v[x as usize];
    }

    /// Reads the index register.
    pub fn index(&self) -> (r: u16)
        ensures
            r == self.stack.i,
    {
        return self.stack.i;
    }

    /// Reads the cursor.
    pub fn cursor(&self) -> (r: usize)
        ensures
            r == self.ram.iterator,
    {
        return self.ram.address();
    }

    /// Reads one byte of the address space.
    pub fn read_byte(&self, address: usize) -> (r: u8)
        requires
            self.wf(),
            address < N_BYTES,
        ensures
            r == self.mem()[address as int],
    {
        return self.ram.mem[address];
    }

    /// Reads one pixel of the display buffer.
    pub fn pixel(&self, r: usize, c: usize) -> (b: bool)
        requires
            self.wf(),
            r < HEIGHT,
            c < WIDTH,
        ensures
            b == self.display.pixel(r as int, c as int),
    {
        return self.display.get(r, c);
    }

    /// The current depth of the call frame store.
    pub fn call_depth(&self) -> (r: usize)
        ensures
            r == self.frames.len(),
    {
        return self.frames.len();
    }

    /// Whether a draw instruction finished a frame since the host last asked;
    /// asking clears the flag.
    pub fn take_frame(&mut self) -> (r: bool)
        ensures
            r == old(self).present,
            final(self).present == false,
            final(self).stack == old(self).stack,
            final(self).ram == old(self).ram,
            final(self).display == old(self).display,
            final(self).frames == old(self).frames,
            final(self).keys == old(self).keys,
            final(self).sound_timer == old(self).sound_timer,
            final(self).delay_timer == old(self).delay_timer,
    {
        let r = self.present;
        self.present = false;
        return r;
    }
}

/// A machine at power-on: registers zeroed, font glyphs installed, cursor
/// preset to the program region's base, display cleared, call frame store
/// empty, no key held, both timers armed at their idle value.
pub fn create_emulator() -> (r: Emulator)
    ensures
        r.wf(),
        r.regs() == Seq::new(16, |k: int| 0u8),
        r.stack.i == 0,
        r.pc() == PROG_MEM_START,
        r.frames@ == Seq::<usize>::empty(),
        forall|rr: int, cc: int| 0 <= rr < HEIGHT && 0 <= cc < WIDTH ==> !r.display.pixel(rr, cc),
        r.keys@ == Seq::new(16, |k: int| false),
        r.mem() == crate::emulator::ram::boot_mem(),
        r.present == false,
{
    let keys: Vec<bool> = vec![false; 16];
    let r = Emulator {
        display: crate::emulator::ascii::create_display(),
        stack: crate::emulator::stack::create_stack(),
        ram: crate::emulator::ram::create_ram(),
        frames: Vec::new(),
        keys,
        sound_timer: create_counter(),
        delay_timer: create_counter(),
        present: false,
    };
    proof {
        assert(r.keys@ =~= Seq::new(16, |k: int| false));
    }
    return r;
}

/// Setting a register and immediately reading it back yields exactly the
/// byte that was set, whichever register was named.
pub proof fn lemma_register_set_then_read(pre: Emulator, post: Emulator, inst: u16)
    requires
        pre.wf(),
        op_family(inst) == 6,
        step_post(pre, post, inst),
    ensures
        post.regs()[op_x(inst) as int] == op_nn(inst),
{
    lemma_decode_bounds(inst);
}

/// The clear-display instruction leaves an all-unset 64 by 32 grid, whatever
/// the grid held before.
pub proof fn lemma_clear_display(pre: Emulator, post: Emulator, inst: u16)
    requires
        op_family(inst) == 0,
        op_nnn(inst) == 0x0E0,
        step_post(pre, post, inst),
    ensures
        forall|r: int, c: int| 0 <= r < HEIGHT && 0 <= c < WIDTH ==> !post.display.pixel(r, c),
{
}

/// ALU add with carry: with VX = 250 and VY = 10 the sum overflows a byte,
/// so VF is set and VX becomes (250 + 10) mod 256 = 4. (With X = 15 the sum
/// itself lands in the flag register and overwrites the carry, so the flag
/// register is left out.)
pub proof fn lemma_alu_add_carry(v: Seq<u8>, x: int, y: int)
    requires
        v.len() == 16,
        0 <= x < 16,
        0 <= y < 16,
        x != 15,
        v[x] == 250,
        v[y] == 10,
    ensures
        alu(v, x, y, 4)[x] == 4,
        alu(v, x, y, 4)[15] == 1,
{
}

/// ALU subtract X-Y: with VX = 5 and VY = 10 the difference is not positive,
/// so VF stays 0 (the chosen convention sets VF = 1 only when the difference
/// is greater than zero) and VX wraps to (5 - 10) mod 256 = 251. (With X = 15
/// the wrapped value overwrites the flag, so the flag register is left out.)
pub proof fn lemma_alu_subtract_borrow(v: Seq<u8>, x: int, y: int)
    requires
        v.len() == 16,
        0 <= x < 16,
        0 <= y < 16,
        x != 15,
        v[x] == 5,
        v[y] == 10,
    ensures
        alu(v, x, y, 5)[x] == 251,
        alu(v, x, y, 5)[15] == 0,
{
    vstd::arithmetic::div_mod::lemma_mod_add_multiples_vanish(-5, 256);
}

/// Shift right: with VX = 0b00000011 the bit shifted out lands in VF and VX
/// becomes 0b00000001. (With X = 15 the shifted value overwrites the flag, so
/// the flag register is left out.)
pub proof fn lemma_alu_shift_right(v: Seq<u8>, x: int, y: int)
    requires
        v.len() == 16,
        0 <= x < 16,
        0 <= y < 16,
        x != 15,
        v[x] == 3,
    ensures
        alu(v, x, y, 6)[x] == 1,
        alu(v, x, y, 6)[15] == 1,
{
    assert(3u8 & 1 == 1) by (bit_vector);
    assert(3u8 >> 1 == 1) by (bit_vector);
}

/// Drawing the same sprite twice at the same origin restores every touched
/// pixel: the two XOR plots cancel cell by cell. On a cleared buffer the
/// first draw reports no collision, and, as long as the sprite plots at
/// least one bit inside the grid, the second draw reports one (every bit it
/// sets the first time it unsets the second). The register selectors must
/// not name the flag register, or the first draw's flag write would change
/// the sprite's own origin.
pub proof fn lemma_draw_twice_restores(pre: Emulator, mid: Emulator, post: Emulator, inst: u16)
    requires
        pre.wf(),
        op_family(inst) == 0xD,
        op_x(inst) != 15,
        op_y(inst) != 15,
        step_post(pre, mid, inst),
        step_post(mid, post, inst),
    ensures
        same_grid(pre, post),
        (forall|r: int, c: int| 0 <= r < HEIGHT && 0 <= c < WIDTH ==> !pre.display.pixel(r, c))
            ==> mid.regs()[15] == 0,
        ((forall|r: int, c: int| 0 <= r < HEIGHT && 0 <= c < WIDTH ==> !pre.display.pixel(r, c))
            && (exists|r: int, c: int|
            0 <= r < HEIGHT && 0 <= c < WIDTH && draw_covers(pre, inst, r, c))) ==> post.regs()[15]
            == 1,
{
    lemma_decode_bounds(inst);
    assert(mid.regs()[op_x(inst) as int] == pre.regs()[op_x(inst) as int]);
    assert(mid.regs()[op_y(inst) as int] == pre.regs()[op_y(inst) as int]);
    assert(mid.mem() == pre.mem());
    assert(forall|r: int, c: int|
        draw_covers(mid, inst, r, c) == draw_covers(pre, inst, r, c));
    assert forall|r: int, c: int| 0 <= r < HEIGHT && 0 <= c < WIDTH implies post.display.pixel(
        r,
        c,
    ) == pre.display.pixel(r, c) by {
        assert(mid.display.pixel(r, c) == (pre.display.pixel(r, c) != draw_covers(
            pre,
            inst,
            r,
            c,
        )));
    }
    if forall|r: int, c: int| 0 <= r < HEIGHT && 0 <= c < WIDTH ==> !pre.display.pixel(r, c) {
        assert(!draw_hit(pre, inst));
        if exists|r: int, c: int|
            0 <= r < HEIGHT && 0 <= c < WIDTH && draw_covers(pre, inst, r, c) {
            let (r0, c0) = choose|r: int, c: int|
                0 <= r < HEIGHT && 0 <= c < WIDTH && draw_covers(pre, inst, r, c);
            assert(mid.display.pixel(r0, c0));
            assert(draw_covers(mid, inst, r0, c0) && mid.display.pixel(r0, c0));
            assert(draw_hit(mid, inst));
        }
    }
}

/// A subroutine call followed by its return restores the cursor to exactly
/// the instruction after the call and the call frame store to its former
/// frames, so nested calls unwind in strict last-in-first-out order. (The
/// call states here are the states right after each instruction word was
/// fetched.)
pub proof fn lemma_call_then_return(
    a: Emulator,
    b: Emulator,
    c: Emulator,
    call_inst: u16,
    ret_inst: u16,
)
    requires
        op_family(call_inst) == 2,
        step_post(a, b, call_inst),
        op_family(ret_inst) == 0,
        op_nnn(ret_inst) == 0x0EE,
        step_post(b, c, ret_inst),
    ensures
        b.frames@.len() == a.frames@.len() + 1,
        c.pc() == a.ram.iterator,
        c.frames@ == a.frames@,
{
    assert(b.frames@ == a.frames@.push(a.ram.iterator));
    assert(c.frames@ == b.frames@.drop_last());
    assert(c.frames@ =~= a.frames@);
}

/// A return with no matching call halts the machine.
pub proof fn lemma_return_unmatched_halts(a: Emulator, ret_inst: u16)
    requires
        op_family(ret_inst) == 0,
        op_nnn(ret_inst) == 0x0EE,
        a.frames.len() == 0,
    ensures
        !step_cont(a, ret_inst),
{
}

/// Digit decomposition of VX = 205 writes the bytes 2, 0 and 5 to memory at
/// the index register, its successor and the byte after that, and leaves the
/// cursor where it was.
pub proof fn lemma_digit_decomposition(pre: Emulator, post: Emulator, inst: u16)
    requires
        op_family(inst) == 0xF,
        op_nn(inst) == 0x33,
        pre.regs()[op_x(inst) as int] == 205,
        pre.stack.i + 2 < N_BYTES,
        pre.mem().len() == N_BYTES,
        step_post(pre, post, inst),
    ensures
        post.mem()[pre.stack.i as int] == 2,
        post.mem()[pre.stack.i + 1] == 0,
        post.mem()[pre.stack.i + 2] == 5,
        post.pc() == pre.pc(),
{
    assert(bcd_hundreds(205) == 2);
    assert(bcd_tens(205) == 0);
    assert(bcd_ones(205) == 5);
}

/// Storing V0..VX to memory at the index register writes exactly those
/// bytes, leaves every other byte and all the registers unchanged, does not
/// advance the index register, and restores the cursor afterward.
pub proof fn lemma_store_registers(pre: Emulator, post: Emulator, inst: u16)
    requires
        op_family(inst) == 0xF,
        op_nn(inst) == 0x55,
        step_post(pre, post, inst),
    ensures
        forall|j: int| 0 <= j <= op_x(inst) as int ==> post.mem()[pre.stack.i + j] == pre.regs()[j],
        forall|k: int|
            0 <= k < N_BYTES && !(pre.stack.i <= k <= pre.stack.i + op_x(inst) as int)
                ==> post.mem()[k] == pre.mem()[k],
        post.pc() == pre.pc(),
        post.regs() == pre.regs(),
        post.stack.i == pre.stack.i,
{
}

/// Loading V0..VX from memory at the index register fills exactly those
/// registers from the bytes there, leaves the higher registers, the whole
/// memory and the cursor unchanged, and leaves the index register itself
/// unchanged.
pub proof fn lemma_load_registers(pre: Emulator, post: Emulator, inst: u16)
    requires
        op_family(inst) == 0xF,
        op_nn(inst) == 0x65,
        step_post(pre, post, inst),
    ensures
        forall|j: int| 0 <= j <= op_x(inst) as int ==> post.regs()[j] == pre.mem()[pre.stack.i + j],
        forall|j: int| (op_x(inst) as int) < j < 16 ==> post.regs()[j] == pre.regs()[j],
        post.stack.i == pre.stack.i,
        post.pc() == pre.pc(),
        post.mem() == pre.mem(),
{
}

} // verus!
