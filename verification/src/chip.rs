//! The machine itself: state, construction, program loading, the timer
//! tick, and the fetch-decode-execute cycle.

use vstd::prelude::*;
use vstd::pervasive::VecAdditionalExecFns;
use crate::model::{
    MachineView, wf, fetch_op, after_fetch, op_class, op_x, op_y, op_kk, op_nnn, bit_of,
    sprite_row, hit_before, hit, draw_fb, draw_collision, collision_before, blank_fb, store_regs,
    load_regs, tick1, step_rel, with_reg, with_skip, StepEvent, Fault, LoadError, font_data,
    lemma_op_fields, lemma_hit_col_step, lemma_hit_row_step, lemma_target_fresh,
    lemma_collision_col_step, lemma_collision_row_step,
};

verus! {

/// How many bytes of memory the machine has.
pub const MEM_SIZE: usize = 4096;

/// Where a program image is placed and where execution starts.
pub const PROGRAM_BASE: usize = 512;

/// The interpreter state: the latched opcode, the 12-bit address
/// register, the program counter, the call stack with its pointer, the
/// sixteen general registers, memory, the two timers, and the 64x32
/// framebuffer.
pub struct Chip8 {
    opcode: u16,
    ar: u16,
    pc: u16,
    sp: u8,
    stack: Vec<u16>,
    registers: Vec<u8>,
    mem: Vec<u8>,
    delay: u8,
    sound: u8,
    graphics: Vec<bool>,
}

impl View for Chip8 {
    type V = MachineView;

    closed spec fn view(&self) -> MachineView {
        MachineView {
            mem: self.mem@,
            regs: self.registers@,
            i: self.ar,
            pc: self.pc,
            sp: self.sp,
            stack: self.stack@,
            delay: self.delay,
            sound: self.sound,
            fb: self.graphics@,
            op: self.opcode,
        }
    }
}

/// A vector of `n` zero bytes.
fn zero_bytes(n: usize) -> (v: Vec<u8>)
    ensures
        v@.len() == n,
        forall|k: int| 0 <= k < n ==> v@[k] == 0u8,
{
    let mut v: Vec<u8> = Vec::new();
    while v.len() < n
        invariant
            v@.len() <= n,
            forall|k: int| 0 <= k < v@.len() ==> v@[k] == 0u8,
        decreases n - v@.len(),
    {
        v.push(0);
    }
    v
}

/// A vector of `n` zero words.
fn zero_words(n: usize) -> (v: Vec<u16>)
    ensures
        v@.len() == n,
        forall|k: int| 0 <= k < n ==> v@[k] == 0u16,
{
    let mut v: Vec<u16> = Vec::new();
    while v.len() < n
        invariant
            v@.len() <= n,
            forall|k: int| 0 <= k < v@.len() ==> v@[k] == 0u16,
        decreases n - v@.len(),
    {
        v.push(0);
    }
    v
}

/// A vector of `n` dark pixels.
fn blank_pixels(n: usize) -> (v: Vec<bool>)
    ensures
        v@.len() == n,
        forall|k: int| 0 <= k < n ==> !v@[k],
{
    let mut v: Vec<bool> = Vec::new();
    while v.len() < n
        invariant
            v@.len() <= n,
            forall|k: int| 0 <= k < v@.len() ==> !v@[k],
        decreases n - v@.len(),
    {
        v.push(false);
    }
    v
}

/// The eighty font bytes, as executable data.
fn make_font() -> (f: Vec<u8>)
    ensures
        f@ == font_data(),
{
    let mut f: Vec<u8> = Vec::new();
    f.push(0xF0); f.push(0x90); f.push(0x90); f.push(0x90); f.push(0xF0);
    f.push(0x20); f.push(0x60); f.push(0x20); f.push(0x20); f.push(0x70);
    f.push(0xF0); f.push(0x10); f.push(0xF0); f.push(0x80); f.push(0xF0);
    f.push(0xF0); f.push(0x10); f.push(0xF0); f.push(0x10); f.push(0xF0);
    f.push(0x90); f.push(0x90); f.push(0xF0); f.push(0x10); f.push(0x10);
    f.push(0xF0); f.push(0x80); f.push(0xF0); f.push(0x10); f.push(0xF0);
    f.push(0xF0); f.push(0x80); f.push(0xF0); f.push(0x90); f.push(0xF0);
    f.push(0xF0); f.push(0x10); f.push(0x20); f.push(0x40); f.push(0x40);
    f.push(0xF0); f.push(0x90); f.push(0xF0); f.push(0x90); f.push(0xF0);
    f.push(0xF0); f.push(0x90); f.push(0xF0); f.push(0x10); f.push(0xF0);
    f.push(0xF0); f.push(0x90); f.push(0xF0); f.push(0x90); f.push(0x90);
    f.push(0xE0); f.push(0x90); f.push(0xE0); f.push(0x90); f.push(0xE0);
    f.push(0xF0); f.push(0x80); f.push(0x80); f.push(0x80); f.push(0xF0);
    f.push(0xE0); f.push(0x90); f.push(0x90); f.push(0x90); f.push(0xE0);
    f.push(0xF0); f.push(0x80); f.push(0xF0); f.push(0x80); f.push(0xF0);
    f.push(0xF0); f.push(0x80); f.push(0xF0); f.push(0x80); f.push(0x80);
    proof {
        assert(f@ =~= font_data());
    }
    f
}

impl Chip8 {
    /// A freshly initialized machine: the font preloaded at the bottom of
    /// memory, every register, stack slot, timer and pixel zeroed, and
    /// the program counter at the base of the program region.
    pub fn new() -> (c: Chip8)
        ensures
            wf(c@),
            c@.pc == 0x200,
            c@.i == 0,
            c@.sp == 0,
            c@.delay == 0,
            c@.sound == 0,
            c@.op == 0,
            forall|k: int| 0 <= k < 16 ==> c@.regs[k] == 0u8,
            forall|k: int| 0 <= k < 16 ==> c@.stack[k] == 0u16,
            forall|p: int| 0 <= p < 2048 ==> !c@.fb[p],
            forall|a: int| 0 <= a < 80 ==> c@.mem[a] == font_data()[a],
            forall|a: int| 80 <= a < 4096 ==> c@.mem[a] == 0u8,
    {
        let mut mem = make_font();
        while mem.len() < MEM_SIZE
            invariant
                80 <= mem@.len() <= 4096,
                forall|a: int| 0 <= a < 80 ==> mem@[a] == font_data()[a],
                forall|a: int| 80 <= a < mem@.len() ==> mem@[a] == 0u8,
            decreases MEM_SIZE - mem@.len(),
        {
            mem.push(0);
        }
        Chip8 {
            opcode: 0,
            ar: 0,
            pc: 0x200,
            sp: 0,
            stack: zero_words(16),
            registers: zero_bytes(16),
            mem,
            delay: 0,
            sound: 0,
            graphics: blank_pixels(2048),
        }
    }

    /// Copies a program image into memory starting at the program base.
    /// Rejects an image that does not fit above the base address and then
    /// leaves the machine untouched.
    pub fn load_rom(&mut self, rom: &Vec<u8>) -> (r: Result<(), LoadError>)
        requires
            wf(old(self)@),
        ensures
            wf(final(self)@),
            rom@.len() > 3584 ==> r == Err::<(), LoadError>(LoadError::RomTooLarge) && final(self)@
                == old(self)@,
            rom@.len() <= 3584 ==> r == Ok::<(), LoadError>(()) && final(self)@ == (MachineView {
                mem: old(self)@.mem.subrange(0, 512) + rom@ + old(self)@.mem.subrange(
                    512 + rom@.len() as int,
                    4096,
                ),
                ..old(self)@
            }),
    {
        let ghost s0 = *self;
        if rom.len() > MEM_SIZE - PROGRAM_BASE {
            return Err(LoadError::RomTooLarge);
        }
        let mut k: usize = 0;
        while k < rom.len()
            invariant
                wf(s0@),
                rom@.len() <= 3584,
                k <= rom@.len(),
                self.mem@.len() == 4096,
                forall|a: int| 0 <= a < 512 ==> self.mem@[a] == s0@.mem[a],
                forall|a: int| 512 <= a < 512 + k ==> self.mem@[a] == rom@[a - 512],
                forall|a: int| 512 + k <= a < 4096 ==> self.mem@[a] == s0@.mem[a],
                self.registers@ == s0@.regs,
                self.stack@ == s0@.stack,
                self.ar == s0@.i,
                self.pc == s0@.pc,
                self.sp == s0@.sp,
                self.delay == s0@.delay,
                self.sound == s0@.sound,
                self.graphics@ == s0@.fb,
                self.opcode == s0@.op,
            decreases rom@.len() - k,
        {
            self.mem.set(PROGRAM_BASE + k, rom[k]);
            k = k + 1;
        }
        proof {
            assert(self.mem@ =~= s0@.mem.subrange(0, 512) + rom@ + s0@.mem.subrange(
                512 + rom@.len() as int,
                4096,
            ));
            assert(self@ =~= (MachineView {
                mem: s0@.mem.subrange(0, 512) + rom@ + s0@.mem.subrange(
                    512 + rom@.len() as int,
                    4096,
                ),
                ..s0@
            }));
        }
        Ok(())
    }

    /// Fetch: latch the big-endian word at `pc` and advance `pc` by two,
    /// masked to 12 bits, before any dispatch.
    pub fn get_next_instruction(&mut self)
        requires
            wf(old(self)@),
        ensures
            wf(final(self)@),
            final(self)@ == after_fetch(old(self)@),
    {
        let ghost s0 = *self;
        let i = self.pc as usize;
        let hi = self.mem[i];
        let lo = self.mem[(i + 1) % MEM_SIZE];
        self.opcode = (hi as u16) * 256 + (lo as u16);
        self.pc = (self.pc + 2) % 4096;
        proof {
            assert(self@ =~= after_fetch(s0@));
        }
    }

    /// Clear the framebuffer: every pixel dark.
    pub fn clear_display(&mut self)
        requires
            wf(old(self)@),
        ensures
            wf(final(self)@),
            final(self)@ == (MachineView { fb: blank_fb(), ..old(self)@ }),
    {
        let ghost s0 = *self;
        self.graphics = blank_pixels(2048);
        proof {
            assert(self.graphics@ =~= blank_fb());
            assert(self@ =~= (MachineView { fb: blank_fb(), ..s0@ }));
        }
    }

    /// One 60 Hz clock tick: each nonzero timer decrements by exactly
    /// one; nothing else changes. This is the only operation that
    /// decrements the timers.
    pub fn tick_timers(&mut self)
        requires
            wf(old(self)@),
        ensures
            wf(final(self)@),
            final(self)@ == (MachineView {
                delay: tick1(old(self)@.delay),
                sound: tick1(old(self)@.sound),
                ..old(self)@
            }),
    {
        let ghost s0 = *self;
        if self.delay > 0 {
            self.delay = self.delay - 1;
        }
        if self.sound > 0 {
            self.sound = self.sound - 1;
        }
        proof {
            assert(self@ =~= (MachineView {
                delay: tick1(s0@.delay),
                sound: tick1(s0@.sound),
                ..s0@
            }));
        }
    }

    /// Store registers `V0..Vx` (inclusive) into memory starting at the
    /// address register, each address masked to 12 bits.
    fn op_store_regs(&mut self, x: usize)
        requires
            wf(old(self)@),
            x < 16,
        ensures
            wf(final(self)@),
            final(self)@ == (MachineView {
                mem: store_regs(old(self)@.mem, old(self)@.regs, old(self)@.i, x as int),
                ..old(self)@
            }),
    {
        let ghost s0 = *self;
        let mut k: usize = 0;
        while k <= x
            invariant
                wf(s0@),
                x < 16,
                k <= x + 1,
                self.mem@.len() == 4096,
                self.mem@ == store_regs(s0@.mem, s0@.regs, s0@.i, k as int - 1),
                self.registers@ == s0@.regs,
                self.stack@ == s0@.stack,
                self.ar == s0@.i,
                self.pc == s0@.pc,
                self.sp == s0@.sp,
                self.delay == s0@.delay,
                self.sound == s0@.sound,
                self.graphics@ == s0@.fb,
                self.opcode == s0@.op,
            decreases x + 1 - k,
        {
            let addr = ((self.ar + k as u16) % 4096) as usize;
            let v = self.registers[k];
            self.mem.set(addr, v);
            k = k + 1;
        }
        proof {
            assert(self@ =~= (MachineView {
                mem: store_regs(s0@.mem, s0@.regs, s0@.i, x as int),
                ..s0@
            }));
        }
    }

    /// Load registers `V0..Vx` (inclusive) from memory starting at the
    /// address register, each address masked to 12 bits.
    fn op_load_regs(&mut self, x: usize)
        requires
            wf(old(self)@),
            x < 16,
        ensures
            wf(final(self)@),
            final(self)@ == (MachineView {
                regs: load_regs(old(self)@.regs, old(self)@.mem, old(self)@.i, x as int),
                ..old(self)@
            }),
    {
        let ghost s0 = *self;
        let mut k: usize = 0;
        while k <= x
            invariant
                wf(s0@),
                x < 16,
                k <= x + 1,
                self.registers@.len() == 16,
                self.registers@ == load_regs(s0@.regs, s0@.mem, s0@.i, k as int - 1),
                self.mem@ == s0@.mem,
                self.stack@ == s0@.stack,
                self.ar == s0@.i,
                self.pc == s0@.pc,
                self.sp == s0@.sp,
                self.delay == s0@.delay,
                self.sound == s0@.sound,
                self.graphics@ == s0@.fb,
                self.opcode == s0@.op,
            decreases x + 1 - k,
        {
            let addr = ((self.ar + k as u16) % 4096) as usize;
            let v = self.mem[addr];
            self.registers.set(k, v);
            k = k + 1;
        }
        proof {
            assert(self@ =~= (MachineView {
                regs: load_regs(s0@.regs, s0@.mem, s0@.i, x as int),
                ..s0@
            }));
        }
    }

    /// Decompose register `x` into its three decimal digits and store
    /// them at `i`, `i + 1`, `i + 2` (hundreds first), addresses masked
    /// to 12 bits.
    fn op_bcd(&mut self, x: usize)
        requires
            wf(old(self)@),
            x < 16,
        ensures
            wf(final(self)@),
            final(self)@ == (MachineView {
                mem: old(self)@.mem.update(
                    old(self)@.i as int,
                    (old(self)@.regs[x as int] / 100) as u8,
                ).update(
                    (old(self)@.i + 1) % 4096,
                    ((old(self)@.regs[x as int] / 10) % 10) as u8,
                ).update((old(self)@.i + 2) % 4096, (old(self)@.regs[x as int] % 10) as u8),
                ..old(self)@
            }),
    {
        let ghost s0 = *self;
        let vx = self.registers[x];
        let i0 = self.ar as usize;
        let i1 = ((self.ar + 1) % 4096) as usize;
        let i2 = ((self.ar + 2) % 4096) as usize;
        self.mem.set(i0, vx / 100);
        self.mem.set(i1, (vx / 10) % 10);
        self.mem.set(i2, vx % 10);
        proof {
            assert(self@ =~= (MachineView {
                mem: s0@.mem.update(s0@.i as int, (s0@.regs[x as int] / 100) as u8).update(
                    (s0@.i + 1) % 4096,
                    ((s0@.regs[x as int] / 10) % 10) as u8,
                ).update((s0@.i + 2) % 4096, (s0@.regs[x as int] % 10) as u8),
                ..s0@
            }));
        }
    }

    /// One full instruction cycle: fetch the word at `pc`, advance `pc`,
    /// decode, and execute. `keys` is the bitmask of keys currently held
    /// (bit `k` for key `k`); `key_event` is the key press the host
    /// observed since the last cycle, if any, consumed only by the
    /// blocking key-read instruction. The relation between the machine
    /// before and after the cycle, and the returned outcome, is stated by
    /// `step_rel` for some byte drawn from the random source.
    #[verifier::rlimit(100)]
    pub fn execute(&mut self, keys: u16, key_event: Option<u8>) -> (r: Result<StepEvent, Fault>)
        requires
            wf(old(self)@),
        ensures
            wf(final(self)@),
            exists|rnd: u8|
                step_rel(old(self)@, final(self)@, r, rnd, keys, key_event),
    {
        let ghost pre = *self;
        let saved_pc = self.pc;
        self.get_next_instruction();
        let ghost s = self@;
        let op = self.opcode;
        proof {
            lemma_op_fields(op);
            assert(op == fetch_op(pre@));
        }
        let x = ((op >> 8) & 0xF) as usize;
        let y = ((op >> 4) & 0xF) as usize;
        let kk = (op & 0xFF) as u8;
        let nnn = op & 0xFFF;
        let vx = self.registers[x];
        let vy = self.registers[y];
        proof {
            assert(x as int == op_x(op) && y as int == op_y(op));
            assert(vx == s.regs[op_x(op)] && vy == s.regs[op_y(op)]);
        }
        let cls = op >> 12;
        let mut res: Result<StepEvent, Fault> = Ok(StepEvent::Executed);
        if cls == 0x0 {
            if op == 0x00E0 {
                self.clear_display();
                proof {
                    assert(self@ =~= (MachineView { fb: blank_fb(), ..s }));
                }
            } else if op == 0x00EE {
                if self.sp == 0 {
                    res = Err(Fault::StackUnderflow { opcode: op, pc: saved_pc });
                } else {
                    self.sp = self.sp - 1;
                    self.pc = self.stack[self.sp as usize];
                    proof {
                        assert(self@ =~= (MachineView {
                            sp: (s.sp - 1) as u8,
                            pc: s.stack[s.sp - 1],
                            ..s
                        }));
                    }
                }
            } else {
                res = Ok(StepEvent::UnknownOpcode(op));
            }
        } else if cls == 0x1 {
            self.pc = nnn;
            proof {
                assert(self@ =~= (MachineView { pc: op_nnn(op), ..s }));
            }
        } else if cls == 0x2 {
            if self.sp == 16 {
                res = Err(Fault::StackOverflow { opcode: op, pc: saved_pc });
            } else {
                self.stack.set(self.sp as usize, self.pc);
                self.sp = self.sp + 1;
                self.pc = nnn;
                proof {
                    assert(self@ =~= (MachineView {
                        stack: s.stack.update(s.sp as int, s.pc),
                        sp: (s.sp + 1) as u8,
                        pc: op_nnn(op),
                        ..s
                    }));
                }
            }
        } else if cls == 0x3 {
            if vx == kk {
                self.pc = (self.pc + 2) % 4096;
                proof {
                    assert(self@ =~= with_skip(s));
                }
            }
        } else if cls == 0x4 {
            if vx != kk {
                self.pc = (self.pc + 2) % 4096;
                proof {
                    assert(self@ =~= with_skip(s));
                }
            }
        } else if cls == 0x5 {
            if op & 0xF == 0 {
                if vx == vy {
                    self.pc = (self.pc + 2) % 4096;
                    proof {
                        assert(self@ =~= with_skip(s));
                    }
                }
            } else {
                res = Ok(StepEvent::UnknownOpcode(op));
            }
        } else if cls == 0x6 {
            self.registers.set(x, kk);
            proof {
                assert(self@ =~= with_reg(s, op_x(op), op_kk(op)));
            }
        } else if cls == 0x7 {
            self.registers.set(x, ((vx as u16 + kk as u16) % 256) as u8);
            proof {
                assert(self@ =~= with_reg(s, op_x(op), ((vx + kk) % 256) as u8));
            }
        } else if cls == 0x8 {
            let sub = op & 0xF;
            if sub == 0x0 {
                self.registers.set(x, vy);
                proof {
                    assert(self@ =~= with_reg(s, op_x(op), vy));
                }
            } else if sub == 0x1 {
                self.registers.set(x, vx | vy);
                proof {
                    assert(self@ =~= with_reg(s, op_x(op), vx | vy));
                }
            } else if sub == 0x2 {
                self.registers.set(x, vx & vy);
                proof {
                    assert(self@ =~= with_reg(s, op_x(op), vx & vy));
                }
            } else if sub == 0x3 {
                self.registers.set(x, vx ^ vy);
                proof {
                    assert(self@ =~= with_reg(s, op_x(op), vx ^ vy));
                }
            } else if sub == 0x4 {
                let sum = vx as u16 + vy as u16;
                let flag: u8 = if sum > 255 {
                    1
                } else {
                    0
                };
                self.registers.set(15, flag);
                self.registers.set(x, (sum % 256) as u8);
                proof {
                    assert(self@ =~= (MachineView {
                        regs: s.regs.update(15, flag).update(op_x(op), ((vx + vy) % 256) as u8),
                        ..s
                    }));
                }
            } else if sub == 0x5 {
                let flag: u8 = if vx > vy {
                    1
                } else {
                    0
                };
                self.registers.set(15, flag);
                self.registers.set(x, ((vx as u16 + 256 - vy as u16) % 256) as u8);
                proof {
                    assert(self@ =~= (MachineView {
                        regs: s.regs.update(15, flag).update(
                            op_x(op),
                            ((vx + 256 - vy) % 256) as u8,
                        ),
                        ..s
                    }));
                }
            } else if sub == 0x6 {
                self.registers.set(15, vx & 1);
                self.registers.set(x, vx >> 1);
                proof {
                    assert(self@ =~= (MachineView {
                        regs: s.regs.update(15, vx & 1).update(op_x(op), vx >> 1),
                        ..s
                    }));
                }
            } else if sub == 0x7 {
                let flag: u8 = if vy > vx {
                    1
                } else {
                    0
                };
                self.registers.set(15, flag);
                self.registers.set(x, ((vy as u16 + 256 - vx as u16) % 256) as u8);
                proof {
                    assert(self@ =~= (MachineView {
                        regs: s.regs.update(15, flag).update(
                            op_x(op),
                            ((vy + 256 - vx) % 256) as u8,
                        ),
                        ..s
                    }));
                }
            } else if sub == 0xE {
                self.registers.set(15, (vx >> 7) & 1);
                self.registers.set(x, ((2 * (vx as u16)) % 256) as u8);
                proof {
                    assert(self@ =~= (MachineView {
                        regs: s.regs.update(15, (vx >> 7) & 1).update(
                            op_x(op),
                            ((2 * vx) % 256) as u8,
                        ),
                        ..s
                    }));
                }
            } else {
                res = Ok(StepEvent::UnknownOpcode(op));
            }
        } else if cls == 0x9 {
            if op & 0xF == 0 {
                if vx != vy {
                    self.pc = (self.pc + 2) % 4096;
                    proof {
                        assert(self@ =~= with_skip(s));
                    }
                }
            } else {
                res = Ok(StepEvent::UnknownOpcode(op));
            }
        } else if cls == 0xA {
            self.ar = nnn;
            proof {
                assert(self@ =~= (MachineView { i: op_nnn(op), ..s }));
            }
        } else if cls == 0xB {
            let v0 = self.registers[0];
            self.pc = (nnn + v0 as u16) % 4096;
            proof {
                assert(self@ =~= (MachineView {
                    pc: ((op_nnn(op) + s.regs[0]) % 4096) as u16,
                    ..s
                }));
            }
        } else if cls == 0xC {
            let b = crate::rng::random_byte();
            self.registers.set(x, b & kk);
            proof {
                assert(self@ =~= with_reg(s, op_x(op), b & op_kk(op)));
                assert(step_rel(pre@, self@, res, b, keys, key_event));
                assert(exists|rnd: u8| step_rel(pre@, self@, res, rnd, keys, key_event));
            }
        } else if cls == 0xD {
            self.draw_sprite(x, y, (op & 0xF) as u8);
        } else if cls == 0xE {
            let sub = kk;
            proof {
                assert((vx & 0xF) < 16) by (bit_vector);
            }
            let held = (keys >> ((vx & 0xF) as u16)) & 1 == 1;
            if sub == 0x9E {
                if held {
                    self.pc = (self.pc + 2) % 4096;
                    proof {
                        assert(self@ =~= with_skip(s));
                    }
                }
            } else if sub == 0xA1 {
                if !held {
                    self.pc = (self.pc + 2) % 4096;
                    proof {
                        assert(self@ =~= with_skip(s));
                    }
                }
            } else {
                res = Ok(StepEvent::UnknownOpcode(op));
            }
        } else {
            let sub = kk;
            if sub == 0x07 {
                let d = self.delay;
                self.registers.set(x, d);
                proof {
                    assert(self@ =~= with_reg(s, op_x(op), s.delay));
                }
            } else if sub == 0x0A {
                match key_event {
                    Some(k) => {
                        self.registers.set(x, k & 0xF);
                        proof {
                            assert(self@ =~= with_reg(s, op_x(op), k & 0xF));
                        }
                    },
                    None => {
                        self.pc = saved_pc;
                        proof {
                            assert(self@ =~= (MachineView { pc: pre@.pc, ..s }));
                        }
                        res = Ok(StepEvent::WaitingForKey);
                    },
                }
            } else if sub == 0x15 {
                self.delay = vx;
                proof {
                    assert(self@ =~= (MachineView { delay: vx, ..s }));
                }
            } else if sub == 0x18 {
                self.sound = vx;
                proof {
                    assert(self@ =~= (MachineView { sound: vx, ..s }));
                }
            } else if sub == 0x1E {
                self.ar = (self.ar + vx as u16) % 4096;
                proof {
                    assert(self@ =~= (MachineView { i: ((s.i + vx) % 4096) as u16, ..s }));
                }
            } else if sub == 0x29 {
                self.ar = 5 * (vx as u16);
                proof {
                    assert(self@ =~= (MachineView { i: (5 * vx) as u16, ..s }));
                }
            } else if sub == 0x33 {
                self.op_bcd(x);
            } else if sub == 0x55 {
                self.op_store_regs(x);
            } else if sub == 0x65 {
                self.op_load_regs(x);
            } else {
                res = Ok(StepEvent::UnknownOpcode(op));
            }
        }
        proof {
            if op_class(op) != 0xC {
                assert(step_rel(pre@, self@, res, 0u8, keys, key_event));
                assert(exists|rnd: u8| step_rel(pre@, self@, res, rnd, keys, key_event));
            }
        }
        res
    }

    /// Draw the `n`-row sprite at memory address `i`, at the origin given
    /// by registers `x` and `y` (taken modulo the screen size). Every set
    /// sprite bit is XOR-ed into the framebuffer at wrapped coordinates;
    /// VF reports, once for the whole sprite, whether any pixel was
    /// turned off.
    fn draw_sprite(&mut self, x: usize, y: usize, n: u8)
        requires
            wf(old(self)@),
            x < 16,
            y < 16,
            n < 16,
        ensures
            wf(final(self)@),
            final(self)@ == (MachineView {
                fb: draw_fb(
                    old(self)@.fb,
                    old(self)@.mem,
                    old(self)@.i,
                    (old(self)@.regs[x as int] as int) % 64,
                    (old(self)@.regs[y as int] as int) % 32,
                    n as int,
                ),
                regs: old(self)@.regs.update(
                    15,
                    if draw_collision(
                        old(self)@.fb,
                        old(self)@.mem,
                        old(self)@.i,
                        (old(self)@.regs[x as int] as int) % 64,
                        (old(self)@.regs[y as int] as int) % 32,
                        n as int,
                    ) {
                        1u8
                    } else {
                        0u8
                    },
                ),
                ..old(self)@
            }),
    {
        let ghost s0 = *self;
        let x0 = self.registers[x] % 64;
        let y0 = self.registers[y] % 32;
        let ghost gx = x0 as int;
        let ghost gy = y0 as int;
        let mut collided = false;
        let mut row: u8 = 0;
        while row < n
            invariant
                wf(s0@),
                x0 == (s0@.regs[x as int] as int) % 64,
                y0 == (s0@.regs[y as int] as int) % 32,
                gx == x0 as int,
                gy == y0 as int,
                x0 < 64,
                y0 < 32,
                n < 16,
                row <= n,
                self.mem@ == s0@.mem,
                self.registers@ == s0@.regs,
                self.stack@ == s0@.stack,
                self.ar == s0@.i,
                self.pc == s0@.pc,
                self.sp == s0@.sp,
                self.delay == s0@.delay,
                self.sound == s0@.sound,
                self.opcode == s0@.op,
                self.graphics@.len() == 2048,
                forall|px: int, py: int|
                    0 <= px < 64 && 0 <= py < 32 ==> self.graphics@[py * 64 + px] == (s0@.fb[py * 64
                        + px] ^ hit_before(s0@.mem, s0@.i, gx, gy, row as int, 0, px, py)),
                collided == collision_before(s0@.fb, s0@.mem, s0@.i, gx, gy, row as int, 0),
            decreases n - row,
        {
            let sprite = self.mem[((self.ar + row as u16) % 4096) as usize];
            assert(sprite == sprite_row(s0@.mem, s0@.i, row as int));
            let mut col: u8 = 0;
            while col < 8
                invariant
                    wf(s0@),
                    x0 < 64,
                    y0 < 32,
                    gx == x0 as int,
                    gy == y0 as int,
                    n < 16,
                    row < n,
                    col <= 8,
                    sprite == sprite_row(s0@.mem, s0@.i, row as int),
                    self.mem@ == s0@.mem,
                    self.registers@ == s0@.regs,
                    self.stack@ == s0@.stack,
                    self.ar == s0@.i,
                    self.pc == s0@.pc,
                    self.sp == s0@.sp,
                    self.delay == s0@.delay,
                    self.sound == s0@.sound,
                    self.opcode == s0@.op,
                    self.graphics@.len() == 2048,
                    forall|px: int, py: int|
                        0 <= px < 64 && 0 <= py < 32 ==> self.graphics@[py * 64 + px] == (s0@.fb[py
                            * 64 + px] ^ hit_before(
                            s0@.mem,
                            s0@.i,
                            gx,
                            gy,
                            row as int,
                            col as int,
                            px,
                            py,
                        )),
                    collided == collision_before(
                        s0@.fb,
                        s0@.mem,
                        s0@.i,
                        gx,
                        gy,
                        row as int,
                        col as int,
                    ),
                decreases 8 - col,
            {
                let ghost old_fb = self.graphics@;
                let ghost old_coll = collided;
                let on = (sprite >> (7 - col)) & 1 == 1;
                proof {
                    assert(((7 - col as int) as u8) == 7 - col);
                    assert(on == bit_of(sprite, col as int));
                }
                if on {
                    let tx = (x0 + col) % 64;
                    let ty = (y0 + row) % 32;
                    let idx = (ty as usize) * 64 + (tx as usize);
                    let prev = self.graphics[idx];
                    proof {
                        lemma_target_fresh(s0@.mem, s0@.i, gx, gy, row as int, col as int);
                        assert(prev == s0@.fb[ty as int * 64 + tx as int]);
                    }
                    if prev {
                        collided = true;
                    }
                    self.graphics.set(idx, !prev);
                }
                col = col + 1;
                proof {
                    let r = row as int;
                    let c = (col - 1) as int;
                    let tx = (gx + c) % 64;
                    let ty = (gy + r) % 32;
                    vstd::arithmetic::div_mod::lemma_mod_bound(gx + c, 64);
                    vstd::arithmetic::div_mod::lemma_mod_bound(gy + r, 32);
                    assert forall|px: int, py: int| 0 <= px < 64 && 0 <= py < 32 implies
                        self.graphics@[py * 64 + px] == (s0@.fb[py * 64 + px] ^ hit_before(
                            s0@.mem,
                            s0@.i,
                            gx,
                            gy,
                            r,
                            col as int,
                            px,
                            py,
                        )) by {
                        lemma_hit_col_step(s0@.mem, s0@.i, gx, gy, r, c, px, py);
                        if px != tx || py != ty {
                            assert(py * 64 + px != ty * 64 + tx);
                            assert(self.graphics@[py * 64 + px] == old_fb[py * 64 + px]);
                        } else {
                            lemma_target_fresh(s0@.mem, s0@.i, gx, gy, r, c);
                        }
                    }
                    lemma_collision_col_step(s0@.fb, s0@.mem, s0@.i, gx, gy, r, c);
                    assert(collided == collision_before(
                        s0@.fb,
                        s0@.mem,
                        s0@.i,
                        gx,
                        gy,
                        r,
                        col as int,
                    ));
                }
            }
            row = row + 1;
            proof {
                let r = (row - 1) as int;
                assert forall|px: int, py: int| 0 <= px < 64 && 0 <= py < 32 implies
                    self.graphics@[py * 64 + px] == (s0@.fb[py * 64 + px] ^ hit_before(
                        s0@.mem,
                        s0@.i,
                        gx,
                        gy,
                        row as int,
                        0,
                        px,
                        py,
                    )) by {
                    lemma_hit_row_step(s0@.mem, s0@.i, gx, gy, r, px, py);
                }
                lemma_collision_row_step(s0@.fb, s0@.mem, s0@.i, gx, gy, r);
            }
        }
        let flag: u8 = if collided {
            1
        } else {
            0
        };
        self.registers.set(15, flag);
        proof {
            assert(self.graphics@ =~= draw_fb(s0@.fb, s0@.mem, s0@.i, gx, gy, n as int)) by {
                assert forall|p: int| 0 <= p < 2048 implies self.graphics@[p] == (s0@.fb[p] ^ hit(
                    s0@.mem,
                    s0@.i,
                    gx,
                    gy,
                    n as int,
                    p % 64,
                    p / 64,
                )) by {
                    let px = p % 64;
                    let py = p / 64;
                    vstd::arithmetic::div_mod::lemma_mod_bound(p, 64);
                    vstd::arithmetic::div_mod::lemma_fundamental_div_mod(p, 64);
                    assert(0 <= py < 32);
                    assert(p == py * 64 + px);
                }
            }
            assert(self@ =~= (MachineView {
                fb: draw_fb(s0@.fb, s0@.mem, s0@.i, gx, gy, n as int),
                regs: s0@.regs.update(
                    15,
                    if draw_collision(s0@.fb, s0@.mem, s0@.i, gx, gy, n as int) {
                        1u8
                    } else {
                        0u8
                    },
                ),
                ..s0@
            }));
        }
    }

    /// Read general register `x`.
    pub fn reg(&self, x: u8) -> (v: u8)
        requires
            wf(self@),
            x < 16,
        ensures
            v == self@.regs[x as int],
    {
        self.registers[x as usize]
    }

    /// Read the program counter.
    pub fn pc(&self) -> (v: u16)
        ensures
            v == self@.pc,
    {
        self.pc
    }

    /// Read the address register.
    pub fn addr_reg(&self) -> (v: u16)
        ensures
            v == self@.i,
    {
        self.ar
    }

    /// Read the stack pointer.
    pub fn sp(&self) -> (v: u8)
        ensures
            v == self@.sp,
    {
        self.sp
    }

    /// Read the delay timer.
    pub fn delay_timer(&self) -> (v: u8)
        ensures
            v == self@.delay,
    {
        self.delay
    }

    /// Read the sound timer.
    pub fn sound_timer(&self) -> (v: u8)
        ensures
            v == self@.sound,
    {
        self.sound
    }

    /// Read the memory byte at `a`.
    pub fn mem_byte(&self, a: u16) -> (v: u8)
        requires
            wf(self@),
            a < 4096,
        ensures
            v == self@.mem[a as int],
    {
        self.mem[a as usize]
    }

    /// Read the pixel at column `x`, row `y`.
    pub fn pixel(&self, x: u8, y: u8) -> (v: bool)
        requires
            wf(self@),
            x < 64,
            y < 32,
        ensures
            v == self@.fb[y as int * 64 + x as int],
    {
        self.graphics[(y as usize) * 64 + (x as usize)]
    }
}

} // verus!
