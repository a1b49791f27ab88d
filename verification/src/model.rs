//! The mathematical model of the machine: a ghost view of the whole
//! state, decoders for the 16-bit instruction word, and the step
//! relation that states what one fetch-decode-execute cycle does.

use vstd::prelude::*;

verus! {

/// Outcome of one instruction cycle that is not a fault: the opcode ran,
/// it matched no known instruction (reported, execution continues), or the
/// cycle is blocked waiting for a key press.
#[derive(Clone, Copy, Debug, PartialEq, Eq)]
pub enum StepEvent {
    Executed,
    UnknownOpcode(u16),
    WaitingForKey,
}

/// A fatal fault of the call stack, carrying the failing opcode and the
/// address it was fetched from.
#[derive(Clone, Copy, Debug, PartialEq, Eq)]
pub enum Fault {
    StackOverflow { opcode: u16, pc: u16 },
    StackUnderflow { opcode: u16, pc: u16 },
}

/// Error of loading a program image into memory.
#[derive(Clone, Copy, Debug, PartialEq, Eq)]
pub enum LoadError {
    RomTooLarge,
}

/// The whole machine state as mathematical values: 4096 memory bytes,
/// 16 registers, the 12-bit address register `i`, the program counter,
/// the 16-slot call stack with its pointer, the two timers, the 64x32
/// framebuffer (row-major: pixel (x, y) at index `y * 64 + x`), and the
/// most recently fetched opcode.
#[verifier::ext_equal]
pub ghost struct MachineView {
    pub mem: Seq<u8>,
    pub regs: Seq<u8>,
    pub i: u16,
    pub pc: u16,
    pub sp: u8,
    pub stack: Seq<u16>,
    pub delay: u8,
    pub sound: u8,
    pub fb: Seq<bool>,
    pub op: u16,
}

/// Well-formedness: the sizes are fixed and every address-like field is
/// a 12-bit value.
pub open spec fn wf(s: MachineView) -> bool {
    &&& s.mem.len() == 4096
    &&& s.regs.len() == 16
    &&& s.stack.len() == 16
    &&& s.fb.len() == 2048
    &&& s.pc < 4096
    &&& s.i < 4096
    &&& s.sp <= 16
    &&& forall|k: int| 0 <= k < 16 ==> s.stack[k] < 4096
}

// ---------------------------------------------------------------------
// Instruction word decoding
// ---------------------------------------------------------------------

/// High nibble: the instruction class.
pub open spec fn op_class(op: u16) -> u16 {
    op >> 12
}

/// Register index `x` (bits 8..12).
pub open spec fn op_x(op: u16) -> int {
    ((op >> 8) & 0xF) as int
}

/// Register index `y` (bits 4..8).
pub open spec fn op_y(op: u16) -> int {
    ((op >> 4) & 0xF) as int
}

/// 4-bit immediate `n` (low nibble).
pub open spec fn op_n(op: u16) -> u16 {
    op & 0xF
}

/// 8-bit immediate `kk` (low byte).
pub open spec fn op_kk(op: u16) -> u8 {
    (op & 0xFF) as u8
}

/// 12-bit address immediate `nnn`.
pub open spec fn op_nnn(op: u16) -> u16 {
    op & 0xFFF
}

/// The 16-bit word at `s.pc`, big-endian, the second byte read at the
/// 12-bit-masked successor address.
pub open spec fn fetch_op(s: MachineView) -> u16 {
    ((s.mem[s.pc as int] as int) * 256 + (s.mem[(s.pc + 1) % 4096] as int)) as u16
}

/// A program-counter value advanced by two, masked to 12 bits.
pub open spec fn pc_plus2(pc: u16) -> u16 {
    ((pc + 2) % 4096) as u16
}

/// The state right after the fetch phase: the opcode latched and the
/// program counter advanced past the instruction, before dispatch.
pub open spec fn after_fetch(s: MachineView) -> MachineView {
    MachineView { op: fetch_op(s), pc: pc_plus2(s.pc), ..s }
}

// ---------------------------------------------------------------------
// Sprite drawing
// ---------------------------------------------------------------------

/// Bit `c` of a sprite byte, most significant bit first.
pub open spec fn bit_of(b: u8, c: int) -> bool {
    (b >> ((7 - c) as u8)) & 1 == 1
}

/// The sprite byte of row `r`, read at the 12-bit-masked address `i + r`.
pub open spec fn sprite_row(mem: Seq<u8>, i: u16, r: int) -> u8 {
    mem[(i + r) % 4096]
}

/// Whether the pixel (px, py) is touched by one of the sprite bits among
/// the rows before `r_lim`, or in row `r_lim` before column `c_lim`.
/// Coordinates wrap: bit `c` of row `r` lands on
/// `((x0 + c) % 64, (y0 + r) % 32)`.
pub open spec fn hit_before(
    mem: Seq<u8>,
    i: u16,
    x0: int,
    y0: int,
    r_lim: int,
    c_lim: int,
    px: int,
    py: int,
) -> bool {
    exists|r: int, c: int|
        0 <= r && 0 <= c < 8 && (r < r_lim || (r == r_lim && c < c_lim))
            && px == (x0 + c) % 64 && py == (y0 + r) % 32
            && #[trigger] bit_of(sprite_row(mem, i, r), c)
}

/// Whether the pixel (px, py) is touched by an `n`-row sprite drawn at
/// origin (x0, y0).
pub open spec fn hit(mem: Seq<u8>, i: u16, x0: int, y0: int, n: int, px: int, py: int) -> bool {
    hit_before(mem, i, x0, y0, n, 0, px, py)
}

/// The framebuffer after the draw: every touched pixel is XOR-flipped,
/// every other pixel is unchanged.
pub open spec fn draw_fb(fb: Seq<bool>, mem: Seq<u8>, i: u16, x0: int, y0: int, n: int) -> Seq<
    bool,
> {
    Seq::new(2048, |p: int| fb[p] ^ hit(mem, i, x0, y0, n, p % 64, p / 64))
}

/// Whether some pixel touched within the given row/column bounds was set
/// in `fb`.
pub open spec fn collision_before(
    fb: Seq<bool>,
    mem: Seq<u8>,
    i: u16,
    x0: int,
    y0: int,
    r_lim: int,
    c_lim: int,
) -> bool {
    exists|px: int, py: int|
        0 <= px < 64 && 0 <= py < 32 && #[trigger] hit_before(mem, i, x0, y0, r_lim, c_lim, px, py)
            && fb[py * 64 + px]
}

/// Whether the draw turns at least one previously-set pixel off: some
/// touched pixel was set before the draw.
pub open spec fn draw_collision(
    fb: Seq<bool>,
    mem: Seq<u8>,
    i: u16,
    x0: int,
    y0: int,
    n: int,
) -> bool {
    collision_before(fb, mem, i, x0, y0, n, 0)
}

/// An all-dark framebuffer.
pub open spec fn blank_fb() -> Seq<bool> {
    Seq::new(2048, |p: int| false)
}

// ---------------------------------------------------------------------
// Bulk register transfers
// ---------------------------------------------------------------------

/// Memory after storing registers `V0..Vk` (inclusive) at the
/// 12-bit-masked addresses `i + 0 .. i + k`.
pub open spec fn store_regs(mem: Seq<u8>, regs: Seq<u8>, i: u16, k: int) -> Seq<u8>
    decreases k + 1,
{
    if k < 0 {
        mem
    } else {
        store_regs(mem, regs, i, k - 1).update((i + k) % 4096, regs[k])
    }
}

/// Registers after loading `V0..Vk` (inclusive) from the 12-bit-masked
/// addresses `i + 0 .. i + k`.
pub open spec fn load_regs(regs: Seq<u8>, mem: Seq<u8>, i: u16, k: int) -> Seq<u8>
    decreases k + 1,
{
    if k < 0 {
        regs
    } else {
        load_regs(regs, mem, i, k - 1).update(k, mem[(i + k) % 4096])
    }
}

// ---------------------------------------------------------------------
// Timers
// ---------------------------------------------------------------------

/// One 60 Hz tick of a timer: a nonzero timer decrements by exactly one,
/// a zero timer stays at zero.
pub open spec fn tick1(t: u8) -> u8 {
    if t > 0 {
        (t - 1) as u8
    } else {
        0
    }
}

/// A timer after `n` ticks.
pub open spec fn ticks(t: u8, n: nat) -> u8
    decreases n,
{
    if n == 0 {
        t
    } else {
        tick1(ticks(t, (n - 1) as nat))
    }
}

// ---------------------------------------------------------------------
// The step relation
// ---------------------------------------------------------------------

/// The state `s` with register `x` overwritten by `v`.
pub open spec fn with_reg(s: MachineView, x: int, v: u8) -> MachineView {
    MachineView { regs: s.regs.update(x, v), ..s }
}

/// The state `s` with the program counter advanced over one more
/// instruction (a skip).
pub open spec fn with_skip(s: MachineView) -> MachineView {
    MachineView { pc: pc_plus2(s.pc), ..s }
}

/// What one fetch-decode-execute cycle does: `pre` is the state before the
/// fetch, `post` the state after the cycle, `r` its reported outcome,
/// `rnd` the byte the random source produced, `keys` the bitmask of keys
/// currently held (bit `k` for key `k`), and `key_event` the key press
/// the host observed, if any. This is the authoritative opcode table.
pub open spec fn step_rel(
    pre: MachineView,
    post: MachineView,
    r: Result<StepEvent, Fault>,
    rnd: u8,
    keys: u16,
    key_event: Option<u8>,
) -> bool {
    let op = fetch_op(pre);
    let s = after_fetch(pre);
    let x = op_x(op);
    let y = op_y(op);
    let vx = s.regs[x];
    let vy = s.regs[y];
    let kk = op_kk(op);
    let nnn = op_nnn(op);
    let cls = op_class(op);
    let unknown = post == s && r == Ok::<StepEvent, Fault>(StepEvent::UnknownOpcode(op));
    let ok = Ok::<StepEvent, Fault>(StepEvent::Executed);
    if cls == 0x0 {
        if op == 0x00E0 {
            post == MachineView { fb: blank_fb(), ..s } && r == ok
        } else if op == 0x00EE {
            if s.sp == 0 {
                post == s && r == Err::<StepEvent, Fault>(
                    Fault::StackUnderflow { opcode: op, pc: pre.pc },
                )
            } else {
                post == MachineView { sp: (s.sp - 1) as u8, pc: s.stack[s.sp - 1], ..s } && r == ok
            }
        } else {
            unknown
        }
    } else if cls == 0x1 {
        post == MachineView { pc: nnn, ..s } && r == ok
    } else if cls == 0x2 {
        if s.sp == 16 {
            post == s && r == Err::<StepEvent, Fault>(
                Fault::StackOverflow { opcode: op, pc: pre.pc },
            )
        } else {
            post == MachineView {
                stack: s.stack.update(s.sp as int, s.pc),
                sp: (s.sp + 1) as u8,
                pc: nnn,
                ..s
            } && r == ok
        }
    } else if cls == 0x3 {
        post == (if vx == kk { with_skip(s) } else { s }) && r == ok
    } else if cls == 0x4 {
        post == (if vx != kk { with_skip(s) } else { s }) && r == ok
    } else if cls == 0x5 {
        if op_n(op) == 0 {
            post == (if vx == vy { with_skip(s) } else { s }) && r == ok
        } else {
            unknown
        }
    } else if cls == 0x6 {
        post == with_reg(s, x, kk) && r == ok
    } else if cls == 0x7 {
        post == with_reg(s, x, ((vx + kk) % 256) as u8) && r == ok
    } else if cls == 0x8 {
        let sub = op_n(op);
        if sub == 0x0 {
            post == with_reg(s, x, vy) && r == ok
        } else if sub == 0x1 {
            post == with_reg(s, x, vx | vy) && r == ok
        } else if sub == 0x2 {
            post == with_reg(s, x, vx & vy) && r == ok
        } else if sub == 0x3 {
            post == with_reg(s, x, vx ^ vy) && r == ok
        } else if sub == 0x4 {
            let flag: u8 = if vx + vy > 255 { 1 } else { 0 };
            post == MachineView {
                regs: s.regs.update(15, flag).update(x, ((vx + vy) % 256) as u8),
                ..s
            } && r == ok
        } else if sub == 0x5 {
            let flag: u8 = if vx > vy { 1 } else { 0 };
            post == MachineView {
                regs: s.regs.update(15, flag).update(x, ((vx + 256 - vy) % 256) as u8),
                ..s
            } && r == ok
        } else if sub == 0x6 {
            post == MachineView { regs: s.regs.update(15, vx & 1).update(x, vx >> 1), ..s } && r
                == ok
        } else if sub == 0x7 {
            let flag: u8 = if vy > vx { 1 } else { 0 };
            post == MachineView {
                regs: s.regs.update(15, flag).update(x, ((vy + 256 - vx) % 256) as u8),
                ..s
            } && r == ok
        } else if sub == 0xE {
            post == MachineView {
                regs: s.regs.update(15, (vx >> 7) & 1).update(x, ((2 * vx) % 256) as u8),
                ..s
            } && r == ok
        } else {
            unknown
        }
    } else if cls == 0x9 {
        if op_n(op) == 0 {
            post == (if vx != vy { with_skip(s) } else { s }) && r == ok
        } else {
            unknown
        }
    } else if cls == 0xA {
        post == MachineView { i: nnn, ..s } && r == ok
    } else if cls == 0xB {
        post == MachineView { pc: (((nnn + s.regs[0]) % 4096)) as u16, ..s } && r == ok
    } else if cls == 0xC {
        post == with_reg(s, x, rnd & kk) && r == ok
    } else if cls == 0xD {
        let x0 = (vx as int) % 64;
        let y0 = (vy as int) % 32;
        let n = op_n(op) as int;
        let flag: u8 = if draw_collision(s.fb, s.mem, s.i, x0, y0, n) { 1 } else { 0 };
        post == MachineView {
            fb: draw_fb(s.fb, s.mem, s.i, x0, y0, n),
            regs: s.regs.update(15, flag),
            ..s
        } && r == ok
    } else if cls == 0xE {
        let sub = op_kk(op);
        let held = (keys >> ((vx & 0xF) as u16)) & 1 == 1;
        if sub == 0x9E {
            post == (if held { with_skip(s) } else { s }) && r == ok
        } else if sub == 0xA1 {
            post == (if !held { with_skip(s) } else { s }) && r == ok
        } else {
            unknown
        }
    } else {
        let sub = op_kk(op);
        if sub == 0x07 {
            post == with_reg(s, x, s.delay) && r == ok
        } else if sub == 0x0A {
            match key_event {
                Some(k) => post == with_reg(s, x, k & 0xF) && r == ok,
                None => post == MachineView { pc: pre.pc, ..s } && r == Ok::<StepEvent, Fault>(
                    StepEvent::WaitingForKey,
                ),
            }
        } else if sub == 0x15 {
            post == MachineView { delay: vx, ..s } && r == ok
        } else if sub == 0x18 {
            post == MachineView { sound: vx, ..s } && r == ok
        } else if sub == 0x1E {
            post == MachineView { i: ((s.i + vx) % 4096) as u16, ..s } && r == ok
        } else if sub == 0x29 {
            post == MachineView { i: (5 * vx) as u16, ..s } && r == ok
        } else if sub == 0x33 {
            post == MachineView {
                mem: s.mem.update(s.i as int, (vx / 100) as u8).update(
                    (s.i + 1) % 4096,
                    ((vx / 10) % 10) as u8,
                ).update((s.i + 2) % 4096, (vx % 10) as u8),
                ..s
            } && r == ok
        } else if sub == 0x55 {
            post == MachineView { mem: store_regs(s.mem, s.regs, s.i, x), ..s } && r == ok
        } else if sub == 0x65 {
            post == MachineView { regs: load_regs(s.regs, s.mem, s.i, x), ..s } && r == ok
        } else {
            unknown
        }
    }
}

/// Bounds of the decoded instruction fields.
pub proof fn lemma_op_fields(op: u16)
    by (bit_vector)
    ensures
        op_class(op) < 16,
        0 <= op_x(op) < 16,
        0 <= op_y(op) < 16,
        op_n(op) < 16,
        op_kk(op) < 256,
        op_nnn(op) < 4096,
{
}

/// Distinct columns of one sprite row land on distinct wrapped x
/// coordinates.
pub proof fn lemma_wrap64_inj(x0: u8, a: u8, b: u8)
    by (bit_vector)
    requires
        x0 < 64,
        a < 8,
        b < 8,
        (x0 + a) % 64 == (x0 + b) % 64,
    ensures
        a == b,
{
}

/// Distinct sprite rows land on distinct wrapped y coordinates.
pub proof fn lemma_wrap32_inj(y0: u8, a: u8, b: u8)
    by (bit_vector)
    requires
        y0 < 32,
        a < 16,
        b < 16,
        (y0 + a) % 32 == (y0 + b) % 32,
    ensures
        a == b,
{
}

/// A pixel index decomposes uniquely into its column and row.
pub proof fn lemma_pix_decomp(px: int, py: int)
    requires
        0 <= px < 64,
        0 <= py < 32,
    ensures
        (py * 64 + px) % 64 == px,
        (py * 64 + px) / 64 == py,
{
    vstd::arithmetic::div_mod::lemma_fundamental_div_mod_converse(py * 64 + px, 64, py, px);
}

/// Taking one more column into account touches exactly one more
/// candidate pixel: bit `c` of row `r`, at its wrapped coordinates.
pub proof fn lemma_hit_col_step(
    mem: Seq<u8>,
    i: u16,
    x0: int,
    y0: int,
    r: int,
    c: int,
    px: int,
    py: int,
)
    requires
        0 <= r,
        0 <= c < 8,
    ensures
        hit_before(mem, i, x0, y0, r, c + 1, px, py) == (hit_before(mem, i, x0, y0, r, c, px, py)
            || (px == (x0 + c) % 64 && py == (y0 + r) % 32 && bit_of(sprite_row(mem, i, r), c))),
{
    if hit_before(mem, i, x0, y0, r, c + 1, px, py) {
        let (r2, c2) = choose|r2: int, c2: int|
            0 <= r2 && 0 <= c2 < 8 && (r2 < r || (r2 == r && c2 < c + 1)) && px == (x0 + c2) % 64
                && py == (y0 + r2) % 32 && #[trigger] bit_of(sprite_row(mem, i, r2), c2);
        if r2 < r || (r2 == r && c2 < c) {
            assert(hit_before(mem, i, x0, y0, r, c, px, py));
        } else {
            assert(r2 == r && c2 == c);
        }
    }
    if hit_before(mem, i, x0, y0, r, c, px, py) {
        let (r2, c2) = choose|r2: int, c2: int|
            0 <= r2 && 0 <= c2 < 8 && (r2 < r || (r2 == r && c2 < c)) && px == (x0 + c2) % 64 && py
                == (y0 + r2) % 32 && #[trigger] bit_of(sprite_row(mem, i, r2), c2);
        assert(hit_before(mem, i, x0, y0, r, c + 1, px, py));
    }
    if px == (x0 + c) % 64 && py == (y0 + r) % 32 && bit_of(sprite_row(mem, i, r), c) {
        assert(hit_before(mem, i, x0, y0, r, c + 1, px, py));
    }
}

/// Finishing a row is the same as starting the next one.
pub proof fn lemma_hit_row_step(
    mem: Seq<u8>,
    i: u16,
    x0: int,
    y0: int,
    r: int,
    px: int,
    py: int,
)
    ensures
        hit_before(mem, i, x0, y0, r + 1, 0, px, py) == hit_before(mem, i, x0, y0, r, 8, px, py),
{
    if hit_before(mem, i, x0, y0, r + 1, 0, px, py) {
        let (r2, c2) = choose|r2: int, c2: int|
            0 <= r2 && 0 <= c2 < 8 && (r2 < r + 1 || (r2 == r + 1 && c2 < 0)) && px == (x0 + c2)
                % 64 && py == (y0 + r2) % 32 && #[trigger] bit_of(sprite_row(mem, i, r2), c2);
        assert(hit_before(mem, i, x0, y0, r, 8, px, py));
    }
    if hit_before(mem, i, x0, y0, r, 8, px, py) {
        let (r2, c2) = choose|r2: int, c2: int|
            0 <= r2 && 0 <= c2 < 8 && (r2 < r || (r2 == r && c2 < 8)) && px == (x0 + c2) % 64 && py
                == (y0 + r2) % 32 && #[trigger] bit_of(sprite_row(mem, i, r2), c2);
        assert(hit_before(mem, i, x0, y0, r + 1, 0, px, py));
    }
}

/// Within one draw no two sprite bits land on the same pixel, so the
/// pixel of bit `c` of row `r` is untouched by the bits before it.
pub proof fn lemma_target_fresh(mem: Seq<u8>, i: u16, x0: int, y0: int, r: int, c: int)
    requires
        0 <= x0 < 64,
        0 <= y0 < 32,
        0 <= r < 16,
        0 <= c < 8,
    ensures
        !hit_before(mem, i, x0, y0, r, c, (x0 + c) % 64, (y0 + r) % 32),
{
    if hit_before(mem, i, x0, y0, r, c, (x0 + c) % 64, (y0 + r) % 32) {
        let (r2, c2) = choose|r2: int, c2: int|
            0 <= r2 && 0 <= c2 < 8 && (r2 < r || (r2 == r && c2 < c)) && (x0 + c) % 64 == (x0 + c2)
                % 64 && (y0 + r) % 32 == (y0 + r2) % 32 && #[trigger] bit_of(
                sprite_row(mem, i, r2),
                c2,
            );
        lemma_wrap32_inj(y0 as u8, r2 as u8, r as u8);
        lemma_wrap64_inj(x0 as u8, c2 as u8, c as u8);
        assert(false);
    }
}

/// Taking one more column into account adds at most one collision
/// candidate: bit `c` of row `r` over an already-set pixel.
pub proof fn lemma_collision_col_step(
    fb: Seq<bool>,
    mem: Seq<u8>,
    i: u16,
    x0: int,
    y0: int,
    r: int,
    c: int,
)
    requires
        0 <= x0 < 64,
        0 <= y0 < 32,
        0 <= r < 16,
        0 <= c < 8,
    ensures
        collision_before(fb, mem, i, x0, y0, r, c + 1) == (collision_before(fb, mem, i, x0, y0, r, c)
            || (bit_of(sprite_row(mem, i, r), c) && fb[((y0 + r) % 32) * 64 + (x0 + c) % 64])),
{
    let tx = (x0 + c) % 64;
    let ty = (y0 + r) % 32;
    vstd::arithmetic::div_mod::lemma_mod_bound(x0 + c, 64);
    vstd::arithmetic::div_mod::lemma_mod_bound(y0 + r, 32);
    if collision_before(fb, mem, i, x0, y0, r, c + 1) {
        let (px, py) = choose|px: int, py: int|
            0 <= px < 64 && 0 <= py < 32 && #[trigger] hit_before(mem, i, x0, y0, r, c + 1, px, py)
                && fb[py * 64 + px];
        lemma_hit_col_step(mem, i, x0, y0, r, c, px, py);
        if hit_before(mem, i, x0, y0, r, c, px, py) {
            assert(collision_before(fb, mem, i, x0, y0, r, c));
        } else {
            assert(px == tx && py == ty);
        }
    }
    if collision_before(fb, mem, i, x0, y0, r, c) {
        let (px, py) = choose|px: int, py: int|
            0 <= px < 64 && 0 <= py < 32 && #[trigger] hit_before(mem, i, x0, y0, r, c, px, py)
                && fb[py * 64 + px];
        lemma_hit_col_step(mem, i, x0, y0, r, c, px, py);
        assert(hit_before(mem, i, x0, y0, r, c + 1, px, py));
        assert(collision_before(fb, mem, i, x0, y0, r, c + 1));
    }
    if bit_of(sprite_row(mem, i, r), c) && fb[ty * 64 + tx] {
        lemma_hit_col_step(mem, i, x0, y0, r, c, tx, ty);
        assert(hit_before(mem, i, x0, y0, r, c + 1, tx, ty));
        assert(collision_before(fb, mem, i, x0, y0, r, c + 1));
    }
}

/// Finishing a row leaves the collision account where starting the next
/// row finds it.
pub proof fn lemma_collision_row_step(fb: Seq<bool>, mem: Seq<u8>, i: u16, x0: int, y0: int, r: int)
    ensures
        collision_before(fb, mem, i, x0, y0, r + 1, 0) == collision_before(
            fb,
            mem,
            i,
            x0,
            y0,
            r,
            8,
        ),
{
    if collision_before(fb, mem, i, x0, y0, r + 1, 0) {
        let (px, py) = choose|px: int, py: int|
            0 <= px < 64 && 0 <= py < 32 && #[trigger] hit_before(mem, i, x0, y0, r + 1, 0, px, py)
                && fb[py * 64 + px];
        lemma_hit_row_step(mem, i, x0, y0, r, px, py);
        assert(collision_before(fb, mem, i, x0, y0, r, 8));
    }
    if collision_before(fb, mem, i, x0, y0, r, 8) {
        let (px, py) = choose|px: int, py: int|
            0 <= px < 64 && 0 <= py < 32 && #[trigger] hit_before(mem, i, x0, y0, r, 8, px, py)
                && fb[py * 64 + px];
        lemma_hit_row_step(mem, i, x0, y0, r, px, py);
        assert(collision_before(fb, mem, i, x0, y0, r + 1, 0));
    }
}

/// The font glyph bitmaps for the hexadecimal digits, five bytes each,
/// preloaded at the bottom of memory.
pub open spec fn font_data() -> Seq<u8> {
    seq![
        0xF0u8, 0x90, 0x90, 0x90, 0xF0, 0x20, 0x60, 0x20, 0x20, 0x70, 0xF0, 0x10, 0xF0, 0x80, 0xF0,
        0xF0, 0x10, 0xF0, 0x10, 0xF0, 0x90, 0x90, 0xF0, 0x10, 0x10, 0xF0, 0x80, 0xF0, 0x10, 0xF0,
        0xF0, 0x80, 0xF0, 0x90, 0xF0, 0xF0, 0x10, 0x20, 0x40, 0x40, 0xF0, 0x90, 0xF0, 0x90, 0xF0,
        0xF0, 0x90, 0xF0, 0x10, 0xF0, 0xF0, 0x90, 0xF0, 0x90, 0x90, 0xE0, 0x90, 0xE0, 0x90, 0xE0,
        0xF0, 0x80, 0x80, 0x80, 0xF0, 0xE0, 0x90, 0x90, 0x90, 0xE0, 0xF0, 0x80, 0xF0, 0x80, 0xF0,
        0xF0, 0x80, 0xF0, 0x80, 0x80,
    ]
}

} // verus!
