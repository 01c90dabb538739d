//! The mathematical model of the CHIP-8 machine: an abstract state, the
//! effect of every instruction on it, and the composition of whole frames,
//! all as specification functions that the executable engine is proved
//! against.

use vstd::prelude::*;
use crate::display::blank_fb;
use crate::display::draw_collision;
use crate::display::draw_fb;

verus! {

/// Size of the byte-addressable memory.
pub const MEM_SIZE: usize = 4096;

/// Address the program image is loaded at and PC starts from.
pub const PROGRAM_START: u16 = 0x200;

/// Largest program image that fits between `PROGRAM_START` and the end of
/// memory.
pub const MAX_PROGRAM_LEN: usize = 3584;

/// A fatal fault during instruction execution.
#[derive(Clone, Copy, Debug, PartialEq, Eq, Structural)]
pub enum ExecError {
    /// A return instruction found the call stack empty.
    StackUnderflow,
    /// An instruction computed a memory address outside the 4096 cells.
    AddressOutOfRange,
}

/// A fault while loading a program image.
#[derive(Clone, Copy, Debug, PartialEq, Eq, Structural)]
pub enum LoadError {
    /// The image does not fit between `PROGRAM_START` and the end of memory.
    ProgramTooLarge,
}

/// The abstract machine state.
#[verifier::ext_equal]
pub struct Machine {
    /// The 4096 memory cells.
    pub mem: Seq<u8>,
    /// The sixteen general-purpose registers V0..VF.
    pub regs: Seq<u8>,
    /// The 16-bit address register I.
    pub addr: u16,
    /// The delay timer.
    pub delay: u8,
    /// The sound timer.
    pub sound: u8,
    /// The program counter.
    pub pc: u16,
    /// The call stack of return addresses, most recent last.
    pub stack: Seq<u16>,
    /// Whether the machine is waiting for a key press.
    pub paused: bool,
    /// The register that receives the awaited key.
    pub wait_reg: u8,
    /// The 64x32 framebuffer, row-major, ON is `true`.
    pub fb: Seq<bool>,
}

/// Structural well-formedness of a machine state.
pub open spec fn wf_machine(m: Machine) -> bool {
    &&& m.mem.len() == 4096
    &&& m.regs.len() == 16
    &&& m.fb.len() == 2048
    &&& m.wait_reg < 16
}

/// The machine as constructed, before anything is loaded.
pub open spec fn init_machine() -> Machine {
    Machine {
        mem: Seq::new(4096, |i: int| 0u8),
        regs: Seq::new(16, |i: int| 0u8),
        addr: 0,
        delay: 0,
        sound: 0,
        pc: 0x200,
        stack: Seq::empty(),
        paused: false,
        wait_reg: 0,
        fb: blank_fb(),
    }
}

/// The outcome of executing one instruction.
#[verifier::ext_equal]
pub struct StepOut {
    /// The machine afterwards.
    pub m: Machine,
    /// A fatal fault, if one occurred.
    pub err: Option<ExecError>,
    /// An unrecognized opcode, reported rather than swallowed.
    pub unknown: Option<u32>,
}

/// `n` reduced modulo 256.
pub open spec fn wrap8(n: int) -> u8 {
    (n % 256) as u8
}

/// `n` reduced modulo 65536.
pub open spec fn wrap16(n: int) -> u16 {
    (n % 0x10000) as u16
}

/// High nibble of an opcode: the instruction family.
pub open spec fn op_fam(op: u32) -> int {
    ((op / 0x1000) % 0x10) as int
}

/// Second nibble: the index of register Vx.
pub open spec fn op_x(op: u32) -> int {
    ((op / 0x100) % 0x10) as int
}

/// Third nibble: the index of register Vy.
pub open spec fn op_y(op: u32) -> int {
    ((op / 0x10) % 0x10) as int
}

/// Low nibble: the short immediate.
pub open spec fn op_n(op: u32) -> int {
    (op % 0x10) as int
}

/// Low byte: the byte immediate.
pub open spec fn op_kk(op: u32) -> u8 {
    (op % 0x100) as u8
}

/// Low 12 bits: the address immediate.
pub open spec fn op_nnn(op: u32) -> u16 {
    (op % 0x1000) as u16
}

/// Whether key `k` is held in the key bitmask (bit `k` set, keys 0..15).
pub open spec fn key_down(keys: u16, k: u8) -> bool {
    k < 16 && ((keys >> (k as u16)) & 1) == 1
}

/// A step that completed normally.
pub open spec fn step_ok(m: Machine) -> StepOut {
    StepOut { m, err: None, unknown: None }
}

/// A step that hit a fatal fault.
pub open spec fn step_fail(m: Machine, e: ExecError) -> StepOut {
    StepOut { m, err: Some(e), unknown: None }
}

/// A step that met an unrecognized opcode: reported, execution continues.
pub open spec fn step_unknown(m: Machine, op: u32) -> StepOut {
    StepOut { m, err: None, unknown: Some(op) }
}

/// The machine with the next instruction skipped.
pub open spec fn skip(m: Machine) -> Machine {
    Machine { pc: wrap16(m.pc + 2), ..m }
}

/// The machine with register `i` set to `v`.
pub open spec fn set_reg(m: Machine, i: int, v: u8) -> Machine {
    Machine { regs: m.regs.update(i, v), ..m }
}

/// The machine with the VF flag set to `f`; written after the destination
/// register, so on a conflict the flag wins.
pub open spec fn set_flag(m: Machine, f: u8) -> Machine {
    Machine { regs: m.regs.update(15, f), ..m }
}

/// Memory with registers V0..Vx stored at `a..a + x`, inclusive.
pub open spec fn store_regs(mem: Seq<u8>, regs: Seq<u8>, a: int, x: int) -> Seq<u8> {
    Seq::new(mem.len(), |j: int| if a <= j <= a + x { regs[j - a] } else { mem[j] })
}

/// Registers with V0..Vx loaded from memory at `a..a + x`, inclusive.
pub open spec fn load_regs(mem: Seq<u8>, regs: Seq<u8>, a: int, x: int) -> Seq<u8> {
    Seq::new(regs.len(), |j: int| if j <= x { mem[a + j] } else { regs[j] })
}

/// The effect of one already-fetched instruction: the program counter has
/// advanced by 2 before any side effect, so jumps and skips are relative to
/// the next instruction. `rand` is the byte a random source supplied for
/// `Cxkk`; `keys` is the held-key bitmask the input source reported.
/// Opaque: proofs that case-split on the opcode reveal it.
#[verifier::opaque]
pub open spec fn exec_spec(pre: Machine, opcode: u32, rand: u8, keys: u16) -> StepOut {
    let s = Machine { pc: wrap16(pre.pc + 2), ..pre };
    let x = op_x(opcode);
    let y = op_y(opcode);
    let kk = op_kk(opcode);
    let nnn = op_nnn(opcode);
    let vx = s.regs[x];
    let vy = s.regs[y];
    let fam = op_fam(opcode);
    if fam == 0x0 {
        if opcode == 0x00E0 {
            step_ok(Machine { fb: blank_fb(), ..s })
        } else if opcode == 0x00EE {
            if s.stack.len() == 0 {
                step_fail(s, ExecError::StackUnderflow)
            } else {
                step_ok(Machine { pc: s.stack.last(), stack: s.stack.drop_last(), ..s })
            }
        } else {
            step_unknown(s, opcode)
        }
    } else if fam == 0x1 {
        step_ok(Machine { pc: nnn, ..s })
    } else if fam == 0x2 {
        step_ok(Machine { stack: s.stack.push(s.pc), pc: nnn, ..s })
    } else if fam == 0x3 {
        step_ok(if vx == kk { skip(s) } else { s })
    } else if fam == 0x4 {
        step_ok(if vx != kk { skip(s) } else { s })
    } else if fam == 0x5 {
        if op_n(opcode) == 0 {
            step_ok(if vx == vy { skip(s) } else { s })
        } else {
            step_unknown(s, opcode)
        }
    } else if fam == 0x6 {
        step_ok(set_reg(s, x, kk))
    } else if fam == 0x7 {
        step_ok(set_reg(s, x, wrap8(vx + kk)))
    } else if fam == 0x8 {
        let sub = op_n(opcode);
        if sub == 0x0 {
            step_ok(set_reg(s, x, vy))
        } else if sub == 0x1 {
            step_ok(set_reg(s, x, vx | vy))
        } else if sub == 0x2 {
            step_ok(set_reg(s, x, vx & vy))
        } else if sub == 0x3 {
            step_ok(set_reg(s, x, vx ^ vy))
        } else if sub == 0x4 {
            step_ok(set_flag(set_reg(s, x, wrap8(vx + vy)), if vx + vy > 255 { 1 } else { 0 }))
        } else if sub == 0x5 {
            step_ok(set_flag(set_reg(s, x, wrap8(vx - vy)), if vx > vy { 1 } else { 0 }))
        } else if sub == 0x6 {
            step_ok(set_flag(set_reg(s, x, vx / 2), vx % 2))
        } else if sub == 0x7 {
            step_ok(set_flag(set_reg(s, x, wrap8(vy - vx)), if vy > vx { 1 } else { 0 }))
        } else if sub == 0xE {
            step_ok(set_flag(set_reg(s, x, wrap8(2 * vx)), vx / 128))
        } else {
            step_unknown(s, opcode)
        }
    } else if fam == 0x9 {
        if op_n(opcode) == 0 {
            step_ok(if vx != vy { skip(s) } else { s })
        } else {
            step_unknown(s, opcode)
        }
    } else if fam == 0xA {
        step_ok(Machine { addr: nnn, ..s })
    } else if fam == 0xB {
        step_ok(Machine { pc: wrap16(nnn + s.regs[0]), ..s })
    } else if fam == 0xC {
        step_ok(set_reg(s, x, rand & kk))
    } else if fam == 0xD {
        let n = op_n(opcode);
        if n > 0 && s.addr + n > 4096 {
            step_fail(s, ExecError::AddressOutOfRange)
        } else {
            let coll = draw_collision(s.fb, s.mem, s.addr as int, n, vx as int, vy as int);
            step_ok(set_flag(
                Machine { fb: draw_fb(s.fb, s.mem, s.addr as int, n, vx as int, vy as int), ..s },
                if coll { 1 } else { 0 },
            ))
        }
    } else if fam == 0xE {
        let lb = opcode % 0x100;
        if lb == 0x9E {
            step_ok(if key_down(keys, vx) { skip(s) } else { s })
        } else if lb == 0xA1 {
            step_ok(if !key_down(keys, vx) { skip(s) } else { s })
        } else {
            step_unknown(s, opcode)
        }
    } else {
        let lb = opcode % 0x100;
        if lb == 0x07 {
            step_ok(set_reg(s, x, s.delay))
        } else if lb == 0x0A {
            step_ok(Machine { paused: true, wait_reg: x as u8, ..s })
        } else if lb == 0x15 {
            step_ok(Machine { delay: vx, ..s })
        } else if lb == 0x18 {
            step_ok(Machine { sound: vx, ..s })
        } else if lb == 0x1E {
            step_ok(Machine { addr: wrap16(s.addr + vx), ..s })
        } else if lb == 0x29 {
            step_ok(Machine { addr: (5 * vx) as u16, ..s })
        } else if lb == 0x33 {
            if s.addr + 2 >= 4096 {
                step_fail(s, ExecError::AddressOutOfRange)
            } else {
                step_ok(Machine {
                    mem: s.mem
                        .update(s.addr as int, (vx / 100) as u8)
                        .update(s.addr + 1, ((vx % 100) / 10) as u8)
                        .update(s.addr + 2, (vx % 10) as u8),
                    ..s
                })
            }
        } else if lb == 0x55 {
            if s.addr + x >= 4096 {
                step_fail(s, ExecError::AddressOutOfRange)
            } else {
                step_ok(Machine { mem: store_regs(s.mem, s.regs, s.addr as int, x), ..s })
            }
        } else if lb == 0x65 {
            if s.addr + x >= 4096 {
                step_fail(s, ExecError::AddressOutOfRange)
            } else {
                step_ok(Machine { regs: load_regs(s.mem, s.regs, s.addr as int, x), ..s })
            }
        } else {
            step_unknown(s, opcode)
        }
    }
}

/// What executing one already-fetched instruction guarantees: the machine
/// moved exactly as `exec_spec` says, and the result reports the fault or
/// the unrecognized opcode it produced.
pub open spec fn step_post(
    pre: Machine, post: Machine, opcode: u32, rand: u8, keys: u16,
    r: Result<Option<u32>, ExecError>,
) -> bool {
    let so = exec_spec(pre, opcode, rand, keys);
    &&& post == so.m
    &&& match r {
        Ok(u) => so.err is None && u == so.unknown,
        Err(e) => so.err == Some(e),
    }
}

/// What one whole step (fetch included) guarantees, for the random byte
/// `rand` it consumed.
pub open spec fn step_results(
    pre: Machine, post: Machine, rand: u8, keys: u16, r: Result<Option<u32>, ExecError>,
) -> bool {
    let so = step_spec(pre, rand, keys);
    &&& post == so.m
    &&& match r {
        Ok(u) => so.err is None && u == so.unknown,
        Err(e) => so.err == Some(e),
    }
}

/// The 2-byte big-endian instruction word at the program counter.
pub open spec fn fetch_opcode(m: Machine) -> u32 {
    (m.mem[m.pc as int] * 256 + m.mem[m.pc as int + 1]) as u32
}

/// One step of the engine: a no-op while paused, a fault if the program
/// counter runs off memory, otherwise fetch and execute.
pub open spec fn step_spec(pre: Machine, rand: u8, keys: u16) -> StepOut {
    if pre.paused {
        step_ok(pre)
    } else if pre.pc + 1 >= 4096 {
        step_fail(pre, ExecError::AddressOutOfRange)
    } else {
        exec_spec(pre, fetch_opcode(pre), rand, keys)
    }
}

/// A timer value decremented by one, floored at zero.
pub open spec fn timer_dec(t: u8) -> u8 {
    if t > 0 { (t - 1) as u8 } else { 0 }
}

/// Both timers decremented once, floored at zero.
pub open spec fn tick_spec(m: Machine) -> Machine {
    Machine { delay: timer_dec(m.delay), sound: timer_dec(m.sound), ..m }
}

/// A paused machine captures a newly pressed key (0..15) into the register
/// chosen by the wait instruction and resumes; anything else changes nothing.
pub open spec fn unpause_spec(m: Machine, newly_pressed: Option<u8>) -> Machine {
    match newly_pressed {
        Some(k) => if m.paused && k < 16 {
            Machine { paused: false, regs: m.regs.update(m.wait_reg as int, k), ..m }
        } else {
            m
        },
        None => m,
    }
}

/// The outcome of a batch of steps.
#[verifier::ext_equal]
pub struct RunOut {
    /// The machine afterwards.
    pub m: Machine,
    /// The fault that stopped the batch, if any.
    pub err: Option<ExecError>,
    /// Every unrecognized opcode met, in order.
    pub unknown: Seq<u32>,
}

/// The unknown-opcode report of one step as a sequence.
pub open spec fn unknown_seq(u: Option<u32>) -> Seq<u32> {
    match u {
        Some(op) => seq![op],
        None => Seq::empty(),
    }
}

/// A batch of steps, one per entry of `rands` (the random bytes the steps
/// consumed), stopping at the first fault.
pub open spec fn run_spec(s: Machine, rands: Seq<u8>, keys: u16) -> RunOut
    decreases rands.len(),
{
    if rands.len() == 0 {
        RunOut { m: s, err: None, unknown: Seq::empty() }
    } else {
        let st = step_spec(s, rands[0], keys);
        if st.err is Some {
            RunOut { m: st.m, err: st.err, unknown: unknown_seq(st.unknown) }
        } else {
            let rest = run_spec(st.m, rands.drop_first(), keys);
            RunOut { m: rest.m, err: rest.err, unknown: unknown_seq(st.unknown) + rest.unknown }
        }
    }
}

/// Extending a fault-free batch by one step runs that step on the batch's
/// final machine.
pub proof fn lemma_run_snoc(s: Machine, rands: Seq<u8>, b: u8, keys: u16)
    requires
        run_spec(s, rands, keys).err is None,
    ensures
        ({
            let r1 = run_spec(s, rands, keys);
            let st = step_spec(r1.m, b, keys);
            run_spec(s, rands.push(b), keys) =~= RunOut {
                m: st.m,
                err: st.err,
                unknown: r1.unknown + unknown_seq(st.unknown),
            }
        }),
    decreases rands.len(),
{
    reveal_with_fuel(run_spec, 3);
    if rands.len() == 0 {
        let st = step_spec(s, b, keys);
        assert(rands.push(b)[0] == b);
        assert(rands.push(b).drop_first() =~= Seq::<u8>::empty());
        assert(Seq::<u32>::empty() + unknown_seq(st.unknown) =~= unknown_seq(st.unknown));
        assert(unknown_seq(st.unknown) + Seq::<u32>::empty() =~= unknown_seq(st.unknown));
    } else {
        let st0 = step_spec(s, rands[0], keys);
        assert(rands.push(b)[0] == rands[0]);
        assert(rands.push(b).drop_first() =~= rands.drop_first().push(b));
        lemma_run_snoc(st0.m, rands.drop_first(), b, keys);
        let r1 = run_spec(st0.m, rands.drop_first(), keys);
        let st = step_spec(r1.m, b, keys);
        assert(unknown_seq(st0.unknown) + (r1.unknown + unknown_seq(st.unknown))
            =~= (unknown_seq(st0.unknown) + r1.unknown) + unknown_seq(st.unknown));
    }
}

/// While the machine is paused, a batch of steps changes nothing.
pub proof fn lemma_run_paused(s: Machine, rands: Seq<u8>, keys: u16)
    requires
        s.paused,
    ensures
        run_spec(s, rands, keys) =~= (RunOut { m: s, err: None, unknown: Seq::empty() }),
    decreases rands.len(),
{
    if rands.len() > 0 {
        lemma_run_paused(s, rands.drop_first(), keys);
        assert(Seq::<u32>::empty() + Seq::<u32>::empty() =~= Seq::<u32>::empty());
    }
}

} // verus!
