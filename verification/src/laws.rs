//! Laws of the machine, stated over the model and proved once for every
//! state: flag discipline of the ALU, involution and wraparound of pixel
//! toggling, the meaning of the sprite collision flag, XOR self-inverse of
//! drawing, and call/return balance.

use vstd::prelude::*;
use vstd::arithmetic::div_mod::lemma_mod_twice;
use crate::display::draw_collision;
use crate::display::draw_fb;
use crate::display::pix_index;
use crate::display::sprite_covers;
use crate::display::toggle_collision;
use crate::display::toggle_spec;
use crate::model::Machine;
use crate::model::exec_spec;
use crate::model::op_fam;
use crate::model::op_n;
use crate::model::op_x;
use crate::model::op_y;
use crate::model::wf_machine;
use crate::model::wrap8;
use crate::model::wrap16;

verus! {

/// For every ALU operation with carry, borrow or shifted-bit semantics
/// (8xy4, 8xy5, 8xy6, 8xy7, 8xyE), in every state: the operation succeeds,
/// VF afterwards is 0 or 1, and when the destination is not VF itself it
/// holds the specified operation reduced modulo 256 (for the shift right,
/// the halved value). When the destination is VF, the flag overwrites it.
pub proof fn lemma_alu_flag_and_result(pre: Machine, opcode: u32, rand: u8, keys: u16)
    requires
        wf_machine(pre),
        op_fam(opcode) == 0x8,
        op_n(opcode) == 0x4 || op_n(opcode) == 0x5 || op_n(opcode) == 0x6
            || op_n(opcode) == 0x7 || op_n(opcode) == 0xE,
    ensures
        ({
            let so = exec_spec(pre, opcode, rand, keys);
            let x = op_x(opcode);
            let vx = pre.regs[x];
            let vy = pre.regs[op_y(opcode)];
            &&& so.err is None
            &&& so.unknown is None
            &&& (so.m.regs[15] == 0 || so.m.regs[15] == 1)
            &&& x != 15 ==> so.m.regs[x] == (
                if op_n(opcode) == 0x4 { wrap8(vx + vy) }
                else if op_n(opcode) == 0x5 { wrap8(vx - vy) }
                else if op_n(opcode) == 0x6 { vx / 2 }
                else if op_n(opcode) == 0x7 { wrap8(vy - vx) }
                else { wrap8(2 * vx) }
            )
        }),
{
    reveal(exec_spec);
}

/// Only `Cxkk` consumes the random byte: every other instruction has the
/// same effect whatever byte the random source supplied.
pub proof fn lemma_exec_rand_irrelevant(pre: Machine, opcode: u32, b1: u8, b2: u8, keys: u16)
    requires
        op_fam(opcode) != 0xC,
    ensures
        exec_spec(pre, opcode, b1, keys) == exec_spec(pre, opcode, b2, keys),
{
    reveal(exec_spec);
}

/// Toggling the same coordinate twice restores the framebuffer: an ON pixel
/// goes OFF and back ON, an OFF pixel goes ON and back OFF; the second
/// toggle reports the opposite collision verdict of the first.
pub proof fn lemma_toggle_pixel_involution(fb: Seq<bool>, x: int, y: int)
    requires
        fb.len() == 2048,
        0 <= x,
        0 <= y,
    ensures
        toggle_spec(toggle_spec(fb, x, y), x, y) == fb,
        toggle_collision(toggle_spec(fb, x, y), x, y) == !toggle_collision(fb, x, y),
{
    assert(0 <= pix_index(x, y) < 2048);
    assert(toggle_spec(toggle_spec(fb, x, y), x, y) =~= fb);
}

/// Coordinates wrap by modulus: toggling (x, y) is toggling
/// (x % 64, y % 32); in particular (64, 0) behaves exactly as (0, 0).
pub proof fn lemma_toggle_pixel_wraparound(fb: Seq<bool>, x: int, y: int)
    requires
        0 <= x,
        0 <= y,
    ensures
        toggle_spec(fb, x, y) == toggle_spec(fb, x % 64, y % 32),
        toggle_collision(fb, x, y) == toggle_collision(fb, x % 64, y % 32),
{
    lemma_mod_twice(x, 64);
    lemma_mod_twice(y, 32);
}

/// A draw's collision verdict is true exactly when at least one sprite bit
/// turns an ON pixel OFF.
pub proof fn lemma_draw_collision_iff(
    fb: Seq<bool>, mem: Seq<u8>, base: int, n: int, x0: int, y0: int,
)
    requires
        fb.len() == 2048,
    ensures
        draw_collision(fb, mem, base, n, x0, y0) <==> exists|p: int|
            0 <= p < 2048 && fb[p] && !(#[trigger] draw_fb(fb, mem, base, n, x0, y0)[p]),
{
    if draw_collision(fb, mem, base, n, x0, y0) {
        let pw = choose|p: int|
            0 <= p < 2048 && fb[p] && #[trigger] sprite_covers(mem, base, n, x0, y0, p);
        assert(!draw_fb(fb, mem, base, n, x0, y0)[pw]);
    }
    if exists|p: int| 0 <= p < 2048 && fb[p] && !(#[trigger] draw_fb(fb, mem, base, n, x0, y0)[p]) {
        let pw = choose|p: int|
            0 <= p < 2048 && fb[p] && !(#[trigger] draw_fb(fb, mem, base, n, x0, y0)[p]);
        assert(sprite_covers(mem, base, n, x0, y0, pw));
    }
}

/// Drawing the same sprite at the same location twice restores the prior
/// framebuffer content: XOR compositing is self-inverse.
pub proof fn lemma_draw_twice_restores(
    fb: Seq<bool>, mem: Seq<u8>, base: int, n: int, x0: int, y0: int,
)
    requires
        fb.len() == 2048,
    ensures
        draw_fb(draw_fb(fb, mem, base, n, x0, y0), mem, base, n, x0, y0) == fb,
{
    assert(draw_fb(draw_fb(fb, mem, base, n, x0, y0), mem, base, n, x0, y0) =~= fb);
}

/// At the instruction level: a `Dxyn` that stays in memory bounds succeeds,
/// and sets VF to 1 exactly when some pixel went from ON to OFF.
#[verifier::rlimit(100)]
pub proof fn lemma_dxyn_collision_flag(pre: Machine, opcode: u32, rand: u8, keys: u16)
    requires
        wf_machine(pre),
        op_fam(opcode) == 0xD,
        op_n(opcode) > 0 ==> pre.addr + op_n(opcode) <= 4096,
    ensures
        ({
            let so = exec_spec(pre, opcode, rand, keys);
            &&& so.err is None
            &&& (so.m.regs[15] == 1 <==> exists|p: int| 0 <= p < 2048 && pre.fb[p]
                && !(#[trigger] so.m.fb[p]))
        }),
{
    reveal(exec_spec);
    let x0 = pre.regs[op_x(opcode)] as int;
    let y0 = pre.regs[op_y(opcode)] as int;
    let bi = pre.addr as int;
    let n = op_n(opcode);
    let so = exec_spec(pre, opcode, rand, keys);
    let coll = draw_collision(pre.fb, pre.mem, bi, n, x0, y0);
    assert(so.m.fb == draw_fb(pre.fb, pre.mem, bi, n, x0, y0));
    assert(so.m.regs[15] == (if coll { 1u8 } else { 0u8 }));
    lemma_draw_collision_iff(pre.fb, pre.mem, bi, n, x0, y0);
    if coll {
        let pw = choose|p: int|
            0 <= p < 2048 && pre.fb[p] && !(#[trigger] draw_fb(pre.fb, pre.mem, bi, n, x0, y0)[p]);
        assert(0 <= pw < 2048 && pre.fb[pw] && !so.m.fb[pw]);
    }
    if exists|p: int| 0 <= p < 2048 && pre.fb[p] && !(#[trigger] so.m.fb[p]) {
        let pw = choose|p: int| 0 <= p < 2048 && pre.fb[p] && !(#[trigger] so.m.fb[p]);
        assert(!draw_fb(pre.fb, pre.mem, bi, n, x0, y0)[pw]);
        assert(sprite_covers(pre.mem, bi, n, x0, y0, pw));
    }
}

/// A subroutine call followed immediately by a return succeeds, restores
/// the stack, and leaves PC at the instruction just after the call.
pub proof fn lemma_call_then_return(pre: Machine, opcode: u32, rand: u8, keys: u16)
    requires
        wf_machine(pre),
        op_fam(opcode) == 0x2,
    ensures
        ({
            let after_call = exec_spec(pre, opcode, rand, keys);
            let after_ret = exec_spec(after_call.m, 0x00EE, rand, keys);
            &&& after_call.err is None
            &&& after_ret.err is None
            &&& after_ret.m.pc == wrap16(pre.pc + 2)
            &&& after_ret.m.stack == pre.stack
        }),
{
    reveal(exec_spec);
    let ret = wrap16(pre.pc + 2);
    assert(pre.stack.push(ret).last() == ret);
    assert(pre.stack.push(ret).drop_last() =~= pre.stack);
}

} // verus!
