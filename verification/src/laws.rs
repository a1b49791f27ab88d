//! Machine-wide laws, each proved from the step relation and the draw
//! specification alone.

use vstd::prelude::*;
use crate::model::{
    MachineView, wf, fetch_op, pc_plus2, after_fetch, op_class, op_x, op_y, op_n, op_kk, op_nnn,
    bit_of, sprite_row, hit, hit_before, draw_fb, draw_collision, collision_before, tick1, ticks,
    step_rel, StepEvent, Fault, lemma_op_fields, lemma_wrap64_inj, lemma_wrap32_inj,
    lemma_pix_decomp,
};

verus! {

/// Loading an immediate works: after a `6xkk` cycle, register `x` holds
/// `kk`.
pub proof fn lemma_load_immediate(
    pre: MachineView,
    post: MachineView,
    r: Result<StepEvent, Fault>,
    rnd: u8,
    keys: u16,
    key_event: Option<u8>,
)
    requires
        wf(pre),
        step_rel(pre, post, r, rnd, keys, key_event),
        op_class(fetch_op(pre)) == 0x6,
    ensures
        post.regs[op_x(fetch_op(pre))] == op_kk(fetch_op(pre)),
        r == Ok::<StepEvent, Fault>(StepEvent::Executed),
{
    lemma_op_fields(fetch_op(pre));
}

/// Add with carry: an `8xy4` cycle leaves `(Vx + Vy) mod 256` in `Vx`,
/// and, when `x` is not the flag register itself, VF reports whether the
/// true sum exceeded 255.
pub proof fn lemma_add_with_carry(
    pre: MachineView,
    post: MachineView,
    r: Result<StepEvent, Fault>,
    rnd: u8,
    keys: u16,
    key_event: Option<u8>,
)
    requires
        wf(pre),
        step_rel(pre, post, r, rnd, keys, key_event),
        op_class(fetch_op(pre)) == 0x8,
        op_n(fetch_op(pre)) == 0x4,
    ensures
        ({
            let s = after_fetch(pre);
            let vx = s.regs[op_x(fetch_op(pre))];
            let vy = s.regs[op_y(fetch_op(pre))];
            &&& post.regs[op_x(fetch_op(pre))] == ((vx + vy) % 256) as u8
            &&& op_x(fetch_op(pre)) != 15 ==> post.regs[15] == (if vx + vy > 255 {
                1u8
            } else {
                0u8
            })
        }),
{
    lemma_op_fields(fetch_op(pre));
}

/// Subtract with borrow: an `8xy5` cycle leaves `(Vx - Vy) mod 256` in
/// `Vx`; when `Vx > Vy` the difference is exact and VF is 1, when
/// `Vx < Vy` the result wraps and VF is 0 (VF as reported when `x` is
/// not the flag register itself).
pub proof fn lemma_sub_with_borrow(
    pre: MachineView,
    post: MachineView,
    r: Result<StepEvent, Fault>,
    rnd: u8,
    keys: u16,
    key_event: Option<u8>,
)
    requires
        wf(pre),
        step_rel(pre, post, r, rnd, keys, key_event),
        op_class(fetch_op(pre)) == 0x8,
        op_n(fetch_op(pre)) == 0x5,
    ensures
        ({
            let s = after_fetch(pre);
            let vx = s.regs[op_x(fetch_op(pre))];
            let vy = s.regs[op_y(fetch_op(pre))];
            &&& vx > vy ==> post.regs[op_x(fetch_op(pre))] == vx - vy
            &&& vx < vy ==> post.regs[op_x(fetch_op(pre))] == vx + 256 - vy
            &&& op_x(fetch_op(pre)) != 15 ==> post.regs[15] == (if vx > vy {
                1u8
            } else {
                0u8
            })
        }),
{
    let op = fetch_op(pre);
    lemma_op_fields(op);
    let s = after_fetch(pre);
    let vx = s.regs[op_x(op)];
    let vy = s.regs[op_y(op)];
    assert(vx >= vy ==> (vx + 256 - vy) % 256 == vx - vy) by (bit_vector);
    assert(vx < vy ==> (vx + 256 - vy) % 256 == vx + 256 - vy) by (bit_vector);
}

/// A call followed by a return restores the program counter to the
/// instruction after the call: `2nnn` pushes the advanced counter, and a
/// `00EE` fetched at `nnn` pops it back.
pub proof fn lemma_call_ret_round_trip(
    pre: MachineView,
    mid: MachineView,
    post: MachineView,
    r1: Result<StepEvent, Fault>,
    r2: Result<StepEvent, Fault>,
    rnd1: u8,
    rnd2: u8,
    keys: u16,
    key_event: Option<u8>,
)
    requires
        wf(pre),
        pre.sp < 16,
        step_rel(pre, mid, r1, rnd1, keys, key_event),
        op_class(fetch_op(pre)) == 0x2,
        step_rel(mid, post, r2, rnd2, keys, key_event),
        fetch_op(mid) == 0x00EE,
    ensures
        r1 == Ok::<StepEvent, Fault>(StepEvent::Executed),
        r2 == Ok::<StepEvent, Fault>(StepEvent::Executed),
        post.pc == pc_plus2(pre.pc),
{
    lemma_op_fields(fetch_op(pre));
    assert(op_class(0x00EEu16) == 0x0) by (bit_vector);
}

/// A call with room on the stack succeeds and deepens the stack by one.
pub proof fn lemma_call_succeeds(
    pre: MachineView,
    post: MachineView,
    r: Result<StepEvent, Fault>,
    rnd: u8,
    keys: u16,
    key_event: Option<u8>,
)
    requires
        wf(pre),
        pre.sp < 16,
        step_rel(pre, post, r, rnd, keys, key_event),
        op_class(fetch_op(pre)) == 0x2,
    ensures
        r == Ok::<StepEvent, Fault>(StepEvent::Executed),
        post.sp == pre.sp + 1,
        post.pc == op_nnn(fetch_op(pre)),
        post.stack[pre.sp as int] == pc_plus2(pre.pc),
{
    lemma_op_fields(fetch_op(pre));
}

/// A call with the stack at its 16-slot capacity fails with a stack
/// overflow and changes nothing beyond the fetch.
pub proof fn lemma_call_overflows(
    pre: MachineView,
    post: MachineView,
    r: Result<StepEvent, Fault>,
    rnd: u8,
    keys: u16,
    key_event: Option<u8>,
)
    requires
        wf(pre),
        pre.sp == 16,
        step_rel(pre, post, r, rnd, keys, key_event),
        op_class(fetch_op(pre)) == 0x2,
    ensures
        r == Err::<StepEvent, Fault>(
            Fault::StackOverflow { opcode: fetch_op(pre), pc: pre.pc },
        ),
        post == after_fetch(pre),
{
    lemma_op_fields(fetch_op(pre));
}

/// A return with an empty stack fails with a stack underflow and changes
/// nothing beyond the fetch.
pub proof fn lemma_ret_underflows(
    pre: MachineView,
    post: MachineView,
    r: Result<StepEvent, Fault>,
    rnd: u8,
    keys: u16,
    key_event: Option<u8>,
)
    requires
        wf(pre),
        pre.sp == 0,
        step_rel(pre, post, r, rnd, keys, key_event),
        fetch_op(pre) == 0x00EE,
    ensures
        r == Err::<StepEvent, Fault>(
            Fault::StackUnderflow { opcode: 0x00EE, pc: pre.pc },
        ),
        post == after_fetch(pre),
{
    assert(op_class(0x00EEu16) == 0x0) by (bit_vector);
}

/// Every sprite bit lands exactly where the wraparound rule says: bit
/// `c` of row `r` XOR-flips the pixel at `((x0 + c) % 64, (y0 + r) % 32)`
/// and nothing else flips it.
pub proof fn lemma_draw_writes(
    fb: Seq<bool>,
    mem: Seq<u8>,
    i: u16,
    x0: int,
    y0: int,
    n: int,
    r: int,
    c: int,
)
    requires
        fb.len() == 2048,
        0 <= x0 < 64,
        0 <= y0 < 32,
        0 <= n < 16,
        0 <= r < n,
        0 <= c < 8,
    ensures
        draw_fb(fb, mem, i, x0, y0, n)[((y0 + r) % 32) * 64 + (x0 + c) % 64] == (fb[((y0 + r) % 32)
            * 64 + (x0 + c) % 64] ^ bit_of(sprite_row(mem, i, r), c)),
{
    let tx = (x0 + c) % 64;
    let ty = (y0 + r) % 32;
    vstd::arithmetic::div_mod::lemma_mod_bound(x0 + c, 64);
    vstd::arithmetic::div_mod::lemma_mod_bound(y0 + r, 32);
    lemma_pix_decomp(tx, ty);
    if hit(mem, i, x0, y0, n, tx, ty) {
        let (r2, c2) = choose|r2: int, c2: int|
            0 <= r2 && 0 <= c2 < 8 && (r2 < n || (r2 == n && c2 < 0)) && tx == (x0 + c2) % 64 && ty
                == (y0 + r2) % 32 && #[trigger] bit_of(sprite_row(mem, i, r2), c2);
        lemma_wrap32_inj(y0 as u8, r2 as u8, r as u8);
        lemma_wrap64_inj(x0 as u8, c2 as u8, c as u8);
        assert(bit_of(sprite_row(mem, i, r), c));
    }
    if bit_of(sprite_row(mem, i, r), c) {
        assert(hit(mem, i, x0, y0, n, tx, ty));
    }
}

/// Drawing at column 60 wraps: bit `c` of a row lands on column `60 + c`
/// for the first four bits and on column `c - 4` for the last four.
pub proof fn lemma_sprite_wraparound(
    fb: Seq<bool>,
    mem: Seq<u8>,
    i: u16,
    y0: int,
    n: int,
    r: int,
    c: int,
)
    requires
        fb.len() == 2048,
        0 <= y0 < 32,
        0 <= n < 16,
        0 <= r < n,
        0 <= c < 8,
    ensures
        c < 4 ==> draw_fb(fb, mem, i, 60, y0, n)[((y0 + r) % 32) * 64 + 60 + c] == (fb[((y0 + r)
            % 32) * 64 + 60 + c] ^ bit_of(sprite_row(mem, i, r), c)),
        c >= 4 ==> draw_fb(fb, mem, i, 60, y0, n)[((y0 + r) % 32) * 64 + (c - 4)] == (fb[((y0 + r)
            % 32) * 64 + (c - 4)] ^ bit_of(sprite_row(mem, i, r), c)),
{
    lemma_draw_writes(fb, mem, i, 60, y0, n, r, c);
    if c < 4 {
        vstd::arithmetic::div_mod::lemma_small_mod((60 + c) as nat, 64);
    } else {
        vstd::arithmetic::div_mod::lemma_mod_sub_multiples_vanish(64 + c - 4, 64);
        vstd::arithmetic::div_mod::lemma_small_mod((c - 4) as nat, 64);
    }
}

/// Drawing the same sprite twice at the same origin restores the
/// framebuffer exactly, and the second draw reports a collision exactly
/// when the first draw turned some pixel on.
pub proof fn lemma_draw_twice(fb: Seq<bool>, mem: Seq<u8>, i: u16, x0: int, y0: int, n: int)
    requires
        fb.len() == 2048,
    ensures
        draw_fb(draw_fb(fb, mem, i, x0, y0, n), mem, i, x0, y0, n) == fb,
        draw_collision(draw_fb(fb, mem, i, x0, y0, n), mem, i, x0, y0, n) == (exists|
            px: int,
            py: int,
        |
            0 <= px < 64 && 0 <= py < 32 && #[trigger] hit(mem, i, x0, y0, n, px, py) && !fb[py * 64
                + px]),
{
    let fb1 = draw_fb(fb, mem, i, x0, y0, n);
    assert(draw_fb(fb1, mem, i, x0, y0, n) =~= fb);
    if draw_collision(fb1, mem, i, x0, y0, n) {
        let (px, py) = choose|px: int, py: int|
            0 <= px < 64 && 0 <= py < 32 && #[trigger] hit_before(mem, i, x0, y0, n, 0, px, py)
                && fb1[py * 64 + px];
        lemma_pix_decomp(px, py);
        assert(!fb[py * 64 + px]);
        assert(hit(mem, i, x0, y0, n, px, py));
    }
    if exists|px: int, py: int|
        0 <= px < 64 && 0 <= py < 32 && #[trigger] hit(mem, i, x0, y0, n, px, py) && !fb[py * 64
            + px] {
        let (px, py) = choose|px: int, py: int|
            0 <= px < 64 && 0 <= py < 32 && #[trigger] hit(mem, i, x0, y0, n, px, py) && !fb[py * 64
                + px];
        lemma_pix_decomp(px, py);
        assert(fb1[py * 64 + px]);
        assert(collision_before(fb1, mem, i, x0, y0, n, 0));
    }
}

/// Executing the same draw instruction twice restores the framebuffer:
/// the second draw clears every pixel the first one set, and, provided
/// the first draw turned at least one pixel on, the second reports a
/// collision in VF. The coordinate registers must not be VF itself,
/// which the draw overwrites.
pub proof fn lemma_draw_twice_restores(
    pre: MachineView,
    mid: MachineView,
    post: MachineView,
    r1: Result<StepEvent, Fault>,
    r2: Result<StepEvent, Fault>,
    rnd1: u8,
    rnd2: u8,
    keys: u16,
    key_event: Option<u8>,
)
    requires
        wf(pre),
        step_rel(pre, mid, r1, rnd1, keys, key_event),
        op_class(fetch_op(pre)) == 0xD,
        step_rel(mid, post, r2, rnd2, keys, key_event),
        fetch_op(mid) == fetch_op(pre),
        op_x(fetch_op(pre)) != 15,
        op_y(fetch_op(pre)) != 15,
        ({
            let s = after_fetch(pre);
            let x0 = (s.regs[op_x(fetch_op(pre))] as int) % 64;
            let y0 = (s.regs[op_y(fetch_op(pre))] as int) % 32;
            let n = op_n(fetch_op(pre)) as int;
            exists|px: int, py: int|
                0 <= px < 64 && 0 <= py < 32 && #[trigger] hit(s.mem, s.i, x0, y0, n, px, py)
                    && !s.fb[py * 64 + px]
        }),
    ensures
        post.fb == pre.fb,
        post.regs[15] == 1,
{
    let op = fetch_op(pre);
    lemma_op_fields(op);
    let s = after_fetch(pre);
    let x0 = (s.regs[op_x(op)] as int) % 64;
    let y0 = (s.regs[op_y(op)] as int) % 32;
    let n = op_n(op) as int;
    lemma_draw_twice(s.fb, s.mem, s.i, x0, y0, n);
    assert(draw_collision(draw_fb(s.fb, s.mem, s.i, x0, y0, n), s.mem, s.i, x0, y0, n));
}

/// The binary-coded-decimal digits written by an `Fx33` cycle
/// reconstruct the register: the bytes at `i`, `i + 1`, `i + 2` weighted
/// by 100, 10 and 1 sum to `Vx`.
pub proof fn lemma_bcd_round_trip(
    pre: MachineView,
    post: MachineView,
    r: Result<StepEvent, Fault>,
    rnd: u8,
    keys: u16,
    key_event: Option<u8>,
)
    requires
        wf(pre),
        step_rel(pre, post, r, rnd, keys, key_event),
        op_class(fetch_op(pre)) == 0xF,
        op_kk(fetch_op(pre)) == 0x33,
    ensures
        ({
            let s = after_fetch(pre);
            let vx = s.regs[op_x(fetch_op(pre))];
            100 * post.mem[s.i as int] + 10 * post.mem[(s.i + 1) % 4096] + post.mem[(s.i + 2)
                % 4096] == vx
        }),
{
    let op = fetch_op(pre);
    lemma_op_fields(op);
    let s = after_fetch(pre);
    let vx = s.regs[op_x(op)];
    let si = s.i;
    assert((si + 1) % 4096 != si as int && (si + 2) % 4096 != si as int && (si + 1) % 4096 != (si
        + 2) % 4096) by (bit_vector)
        requires
            si < 4096,
    ;
    assert(100 * (vx / 100) + 10 * ((vx / 10) % 10) + vx % 10 == vx) by (bit_vector);
}

/// A timer set to `t` reaches exactly zero after `t` ticks, and one more
/// tick leaves it at zero: it never decrements below zero.
pub proof fn lemma_timer_runs_out(t: u8)
    ensures
        ticks(t, t as nat) == 0,
        tick1(ticks(t, t as nat)) == 0,
{
    lemma_ticks_linear(t, t as nat);
}

/// A ticking timer counts down one per tick until it parks at zero.
pub proof fn lemma_ticks_linear(t: u8, n: nat)
    ensures
        ticks(t, n) == (if n >= t {
            0u8
        } else {
            (t - n) as u8
        }),
    decreases n,
{
    if n > 0 {
        lemma_ticks_linear(t, (n - 1) as nat);
    }
}

} // verus!
