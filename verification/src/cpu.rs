//! The CPU engine: memory, registers, timers, stack and program counter,
//! the fetch-decode-execute cycle, and its coupling to the framebuffer.
//! Every instruction's effect is proved equal to the machine model in
//! `crate::model`.

use vstd::prelude::*;
use crate::display::Display;
use crate::display::draw_collision;
use crate::display::draw_fb;
use crate::model::ExecError;
use crate::model::LoadError;
use crate::model::MAX_PROGRAM_LEN;
use crate::model::MEM_SIZE;
use crate::model::Machine;
use crate::model::PROGRAM_START;
use crate::model::exec_spec;
use crate::model::fetch_opcode;
use crate::model::init_machine;
use crate::model::run_spec;
use crate::model::tick_spec;
use crate::model::unpause_spec;
use crate::model::wf_machine;
use crate::model::wrap8;
use crate::model::wrap16;
use crate::model::step_post;
use crate::model::step_results;
use crate::model::store_regs;
use crate::model::load_regs;
use crate::model::op_fam;
use crate::model::lemma_run_snoc;
use crate::model::lemma_run_paused;

verus! {

/// The 16 five-byte hexadecimal glyphs, digit 0 through F.
pub open spec fn font_data() -> Seq<u8> {
    seq![
        0xF0u8, 0x90, 0x90, 0x90, 0xF0, // 0
        0x20, 0x60, 0x20, 0x20, 0x70, // 1
        0xF0, 0x10, 0xF0, 0x80, 0xF0, // 2
        0xF0, 0x10, 0xF0, 0x10, 0xF0, // 3
        0x90, 0x90, 0xF0, 0x10, 0x10, // 4
        0xF0, 0x80, 0xF0, 0x10, 0xF0, // 5
        0xF0, 0x80, 0xF0, 0x90, 0xF0, // 6
        0xF0, 0x10, 0x20, 0x40, 0x40, // 7
        0xF0, 0x90, 0xF0, 0x90, 0xF0, // 8
        0xF0, 0x90, 0xF0, 0x10, 0xF0, // 9
        0xF0, 0x90, 0xF0, 0x90, 0x90, // A
        0xE0, 0x90, 0xE0, 0x90, 0xE0, // B
        0xF0, 0x80, 0x80, 0x80, 0xF0, // C
        0xE0, 0x90, 0x90, 0x90, 0xE0, // D
        0xF0, 0x80, 0xF0, 0x80, 0xF0, // E
        0xF0, 0x80, 0xF0, 0x80, 0x80, // F
    ]
}

/// Memory with the font table written over its first 80 bytes.
pub open spec fn font_loaded(mem: Seq<u8>) -> Seq<u8> {
    Seq::new(mem.len(), |j: int| if 0 <= j < 80 { font_data()[j] } else { mem[j] })
}

/// Memory with a program image overlaid starting at 0x200.
pub open spec fn program_loaded(mem: Seq<u8>, program: Seq<u8>) -> Seq<u8> {
    Seq::new(
        mem.len(),
        |j: int| if 0x200 <= j < 0x200 + program.len() { program[j - 0x200] } else { mem[j] },
    )
}

/// Relies on `rand::random::<u8>`: a byte from the thread-local random
/// number generator. Nothing is promised of its value.
#[verifier::external_body]
fn random_byte() -> u8 {
    rand::random::<u8>()
}

/// What a completed frame guarantees: some sequence of random bytes, one
/// consumed per step, explains the final state, the unknown-opcode report
/// and the tone decision exactly.
pub open spec fn cycle_ok_post(
    pre: Machine, post: Machine, ipf: u32, keys: u16, newly_pressed: Option<u8>,
    out_tone: bool, out_unknown: Seq<u32>,
) -> bool {
    exists|rands: Seq<u8>| {
        let ro = #[trigger] run_spec(unpause_spec(pre, newly_pressed), rands, keys);
        &&& rands.len() == ipf
        &&& ro.err is None
        &&& post == tick_spec(ro.m)
        &&& out_unknown == ro.unknown
        &&& out_tone == (post.sound > 0)
    }
}

/// What a faulted frame guarantees: some shorter batch of steps ran, its
/// last step faulted, and the machine halted there with the timers untouched.
pub open spec fn cycle_err_post(
    pre: Machine, post: Machine, ipf: u32, keys: u16, newly_pressed: Option<u8>, e: ExecError,
) -> bool {
    exists|rands: Seq<u8>| {
        let ro = #[trigger] run_spec(unpause_spec(pre, newly_pressed), rands, keys);
        &&& rands.len() <= ipf
        &&& ro.err == Some(e)
        &&& post == ro.m
    }
}

/// What the CPU reports once per frame.
pub struct FrameOutput {
    /// Whether the tone source should be sounding (sound timer nonzero).
    pub tone_on: bool,
    /// Every unrecognized opcode met during the frame, in order.
    pub unknown_opcodes: Vec<u32>,
}

/// The CHIP-8 CPU with its owned framebuffer.
pub struct CPU {
    /// The framebuffer the draw instructions composite onto.
    pub display: Display,
    /// The 4096 memory cells.
    pub memory: Vec<u8>,
    /// The sixteen general-purpose registers V0..VF.
    pub registers: Vec<u8>,
    /// The 16-bit address register I.
    pub address: u16,
    /// The delay timer.
    pub delay_timer: u8,
    /// The sound timer.
    pub sound_timer: u8,
    /// The program counter.
    pub pc: u16,
    /// The call stack of return addresses, most recent last.
    pub stack: Vec<u16>,
    /// Whether execution is paused awaiting a key press.
    pub paused: bool,
    /// The register that receives the awaited key.
    pub wait_register: u8,
}

impl View for CPU {
    type V = Machine;

    open spec fn view(&self) -> Machine {
        Machine {
            mem: self.memory@,
            regs: self.registers@,
            addr: self.address,
            delay: self.delay_timer,
            sound: self.sound_timer,
            pc: self.pc,
            stack: self.stack@,
            paused: self.paused,
            wait_reg: self.wait_register,
            fb: self.display@,
        }
    }
}

impl CPU {
    /// The concrete machine always models a well-formed abstract one.
    pub open spec fn wf(&self) -> bool {
        wf_machine(self@) && self.display.wf()
    }

    /// A machine with zeroed memory and registers, an empty stack, both
    /// timers at zero, a blank framebuffer, and the program counter at 0x200.
    pub fn new() -> (cpu: CPU)
        ensures
            cpu.wf(),
            cpu@ == init_machine(),
    {
        let cpu = CPU {
            display: Display::new(),
            memory: zero_bytes(MEM_SIZE),
            registers: zero_bytes(16),
            address: 0,
            delay_timer: 0,
            sound_timer: 0,
            pc: PROGRAM_START,
            stack: Vec::new(),
            paused: false,
            wait_register: 0,
        };
        proof {
            assert(cpu@.mem =~= init_machine().mem);
            assert(cpu@.regs =~= init_machine().regs);
            assert(cpu@ =~= init_machine());
        }
        cpu
    }

    /// Writes the 80-byte glyph table for digits 0..F to addresses
    /// 0x000..0x050; nothing else changes.
    pub fn load_sprites_into_memory(&mut self)
        requires
            old(self).wf(),
        ensures
            final(self).wf(),
            final(self)@ == (Machine { mem: font_loaded(old(self)@.mem), ..old(self)@ }),
    {
        let sprites: Vec<u8> = vec![
            0xF0u8, 0x90, 0x90, 0x90, 0xF0, // 0
            0x20, 0x60, 0x20, 0x20, 0x70, // 1
            0xF0, 0x10, 0xF0, 0x80, 0xF0, // 2
            0xF0, 0x10, 0xF0, 0x10, 0xF0, // 3
            0x90, 0x90, 0xF0, 0x10, 0x10, // 4
            0xF0, 0x80, 0xF0, 0x10, 0xF0, // 5
            0xF0, 0x80, 0xF0, 0x90, 0xF0, // 6
            0xF0, 0x10, 0x20, 0x40, 0x40, // 7
            0xF0, 0x90, 0xF0, 0x90, 0xF0, // 8
            0xF0, 0x90, 0xF0, 0x10, 0xF0, // 9
            0xF0, 0x90, 0xF0, 0x90, 0x90, // A
            0xE0, 0x90, 0xE0, 0x90, 0xE0, // B
            0xF0, 0x80, 0x80, 0x80, 0xF0, // C
            0xE0, 0x90, 0x90, 0x90, 0xE0, // D
            0xF0, 0x80, 0xF0, 0x80, 0xF0, // E
            0xF0, 0x80, 0xF0, 0x80, 0x80, // F
        ];
        proof {
            assert(sprites@ =~= font_data());
        }
        let ghost pre = self@;
        let ghost mem0 = self.memory@;
        let mut i: usize = 0;
        while i < 80
            invariant
                i <= 80,
                sprites@ == font_data(),
                self.memory@.len() == 4096,
                mem0.len() == 4096,
                self.display.wf(),
                self@ == (Machine { mem: self.memory@, ..pre }),
                forall|j: int| 0 <= j < 4096 ==> #[trigger] self.memory@[j]
                    == (if 0 <= j < i { font_data()[j] } else { mem0[j] }),
            decreases 80 - i,
        {
            self.memory[i] = sprites[i];
            i = i + 1;
        }
        proof {
            assert(self.memory@ =~= font_loaded(mem0));
        }
    }

    /// Copies a program image into memory starting at 0x200 and resets the
    /// program counter there. Rejected, with nothing changed, exactly when
    /// the image is longer than the 3584 bytes available.
    pub fn load_program_into_memory(&mut self, program: Vec<u8>) -> (r: Result<(), LoadError>)
        requires
            old(self).wf(),
        ensures
            final(self).wf(),
            program@.len() <= 3584 ==> r is Ok && final(self)@ == (Machine {
                mem: program_loaded(old(self)@.mem, program@),
                pc: 0x200,
                ..old(self)@
            }),
            program@.len() > 3584 ==> r == Err::<(), LoadError>(LoadError::ProgramTooLarge)
                && final(self)@ == old(self)@,
    {
        if program.len() > MAX_PROGRAM_LEN {
            return Err(LoadError::ProgramTooLarge);
        }
        let ghost pre = self@;
        let ghost mem0 = self.memory@;
        let mut i: usize = 0;
        while i < program.len()
            invariant
                i <= program@.len() <= 3584,
                self.memory@.len() == 4096,
                mem0.len() == 4096,
                self.display.wf(),
                self@ == (Machine { mem: self.memory@, ..pre }),
                forall|j: int| 0 <= j < 4096 ==> #[trigger] self.memory@[j]
                    == (if 0x200 <= j < 0x200 + i { program@[j - 0x200] } else { mem0[j] }),
            decreases program@.len() - i,
        {
            self.memory[PROGRAM_START as usize + i] = program[i];
            i = i + 1;
        }
        self.pc = PROGRAM_START;
        proof {
            assert(self.memory@ =~= program_loaded(mem0, program@));
        }
        Ok(())
    }

    /// Executes one already-fetched instruction: advances the program
    /// counter by 2 first, so jumps and skips land relative to the next
    /// instruction, then applies the opcode's effect. `rand_byte` is the
    /// byte a random source supplied for `Cxkk`; `keys` is the held-key
    /// bitmask. `Ok(Some(op))` reports an unrecognized opcode that was
    /// skipped over.
    pub fn execute_instruction(&mut self, opcode: u32, rand_byte: u8, keys: u16)
        -> (r: Result<Option<u32>, ExecError>)
        requires
            old(self).wf(),
        ensures
            final(self).wf(),
            step_post(old(self)@, final(self)@, opcode, rand_byte, keys, r),
    {
        let ghost pre = self@;
        self.pc = self.pc.wrapping_add(2);
        proof {
            assert(self@ =~= (Machine { pc: wrap16(pre.pc + 2), ..pre }));
        }
        let fam = (opcode / 0x1000) % 0x10;
        if fam == 0x0 {
            self.exec_zero(opcode, rand_byte, keys, Ghost(pre))
        } else if fam == 0x8 {
            self.exec_alu(opcode, rand_byte, keys, Ghost(pre))
        } else if fam == 0xD {
            self.exec_draw(opcode, rand_byte, keys, Ghost(pre))
        } else if fam == 0xE {
            self.exec_keys(opcode, rand_byte, keys, Ghost(pre))
        } else if fam == 0xF {
            self.exec_sys(opcode, rand_byte, keys, Ghost(pre))
        } else {
            self.exec_basic(opcode, rand_byte, keys, Ghost(pre))
        }
    }

    /// The 0x0 family: clear screen, return from subroutine, or unknown.
    fn exec_zero(&mut self, opcode: u32, rand_byte: u8, keys: u16, Ghost(pre): Ghost<Machine>)
        -> (r: Result<Option<u32>, ExecError>)
        requires
            old(self).wf(),
            op_fam(opcode) == 0x0,
            old(self)@ == (Machine { pc: wrap16(pre.pc + 2), ..pre }),
        ensures
            final(self).wf(),
            step_post(pre, final(self)@, opcode, rand_byte, keys, r),
    {
        proof {
            reveal(exec_spec);
        }
        let ghost s = self@;
        if opcode == 0x00E0 {
            self.display.clear();
            proof {
                assert(self@ =~= exec_spec(pre, opcode, rand_byte, keys).m);
            }
            Ok(None)
        } else if opcode == 0x00EE {
            match self.stack.pop() {
                Some(ret) => {
                    self.pc = ret;
                    proof {
                        assert(self@.stack =~= s.stack.drop_last());
                        assert(self@ =~= exec_spec(pre, opcode, rand_byte, keys).m);
                    }
                    Ok(None)
                },
                None => {
                    proof {
                        assert(self@ =~= exec_spec(pre, opcode, rand_byte, keys).m);
                    }
                    Err(ExecError::StackUnderflow)
                },
            }
        } else {
            proof {
                assert(self@ =~= exec_spec(pre, opcode, rand_byte, keys).m);
            }
            Ok(Some(opcode))
        }
    }

    /// The jump, call, skip, immediate, address and random families
    /// (0x1..0x7, 0x9, 0xA, 0xB, 0xC).
    #[verifier::rlimit(100)]
    fn exec_basic(&mut self, opcode: u32, rand_byte: u8, keys: u16, Ghost(pre): Ghost<Machine>)
        -> (r: Result<Option<u32>, ExecError>)
        requires
            old(self).wf(),
            op_fam(opcode) == 0x1 || op_fam(opcode) == 0x2 || op_fam(opcode) == 0x3
                || op_fam(opcode) == 0x4 || op_fam(opcode) == 0x5 || op_fam(opcode) == 0x6
                || op_fam(opcode) == 0x7 || op_fam(opcode) == 0x9 || op_fam(opcode) == 0xA
                || op_fam(opcode) == 0xB || op_fam(opcode) == 0xC,
            old(self)@ == (Machine { pc: wrap16(pre.pc + 2), ..pre }),
        ensures
            final(self).wf(),
            step_post(pre, final(self)@, opcode, rand_byte, keys, r),
    {
        proof {
            reveal(exec_spec);
        }
        let x = ((opcode / 0x100) % 0x10) as usize;
        let y = ((opcode / 0x10) % 0x10) as usize;
        let kk = (opcode % 0x100) as u8;
        let nnn = (opcode % 0x1000) as u16;
        let vx = self.registers[x];
        let vy = self.registers[y];
        let fam = (opcode / 0x1000) % 0x10;
        if fam == 0x1 {
            self.pc = nnn;
            proof {
                assert(self@ =~= exec_spec(pre, opcode, rand_byte, keys).m);
            }
            Ok(None)
        } else if fam == 0x2 {
            self.stack.push(self.pc);
            self.pc = nnn;
            proof {
                assert(self@ =~= exec_spec(pre, opcode, rand_byte, keys).m);
            }
            Ok(None)
        } else if fam == 0x3 {
            if vx == kk {
                self.pc = self.pc.wrapping_add(2);
            }
            proof {
                assert(self@ =~= exec_spec(pre, opcode, rand_byte, keys).m);
            }
            Ok(None)
        } else if fam == 0x4 {
            if vx != kk {
                self.pc = self.pc.wrapping_add(2);
            }
            proof {
                assert(self@ =~= exec_spec(pre, opcode, rand_byte, keys).m);
            }
            Ok(None)
        } else if fam == 0x5 {
            if opcode % 0x10 == 0 {
                if vx == vy {
                    self.pc = self.pc.wrapping_add(2);
                }
                proof {
                    assert(self@ =~= exec_spec(pre, opcode, rand_byte, keys).m);
                }
                Ok(None)
            } else {
                proof {
                    assert(self@ =~= exec_spec(pre, opcode, rand_byte, keys).m);
                }
                Ok(Some(opcode))
            }
        } else if fam == 0x6 {
            self.registers[x] = kk;
            proof {
                assert(self@ =~= exec_spec(pre, opcode, rand_byte, keys).m);
            }
            Ok(None)
        } else if fam == 0x7 {
            let sum = vx.wrapping_add(kk);
            self.registers[x] = sum;
            proof {
                assert(sum == wrap8(vx + kk));
                assert(self@ =~= exec_spec(pre, opcode, rand_byte, keys).m);
            }
            Ok(None)
        } else if fam == 0x9 {
            if opcode % 0x10 == 0 {
                if vx != vy {
                    self.pc = self.pc.wrapping_add(2);
                }
                proof {
                    assert(self@ =~= exec_spec(pre, opcode, rand_byte, keys).m);
                }
                Ok(None)
            } else {
                proof {
                    assert(self@ =~= exec_spec(pre, opcode, rand_byte, keys).m);
                }
                Ok(Some(opcode))
            }
        } else if fam == 0xA {
            self.address = nnn;
            proof {
                assert(self@ =~= exec_spec(pre, opcode, rand_byte, keys).m);
            }
            Ok(None)
        } else if fam == 0xB {
            let v0 = self.registers[0];
            self.pc = nnn.wrapping_add(v0 as u16);
            proof {
                assert(nnn.wrapping_add(v0 as u16) == wrap16(nnn + v0));
                assert(self@ =~= exec_spec(pre, opcode, rand_byte, keys).m);
            }
            Ok(None)
        } else {
            self.registers[x] = rand_byte & kk;
            proof {
                assert(self@ =~= exec_spec(pre, opcode, rand_byte, keys).m);
            }
            Ok(None)
        }
    }

    /// The 0x8 family: register-register ALU operations, with the carry,
    /// borrow or shifted-out bit written to VF after the result.
    #[verifier::rlimit(100)]
    fn exec_alu(&mut self, opcode: u32, rand_byte: u8, keys: u16, Ghost(pre): Ghost<Machine>)
        -> (r: Result<Option<u32>, ExecError>)
        requires
            old(self).wf(),
            op_fam(opcode) == 0x8,
            old(self)@ == (Machine { pc: wrap16(pre.pc + 2), ..pre }),
        ensures
            final(self).wf(),
            step_post(pre, final(self)@, opcode, rand_byte, keys, r),
    {
        proof {
            reveal(exec_spec);
        }
        let x = ((opcode / 0x100) % 0x10) as usize;
        let y = ((opcode / 0x10) % 0x10) as usize;
        let vx = self.registers[x];
        let vy = self.registers[y];
        let sub = opcode % 0x10;
        if sub == 0x0 {
            self.registers[x] = vy;
            proof {
                assert(self@ =~= exec_spec(pre, opcode, rand_byte, keys).m);
            }
            Ok(None)
        } else if sub == 0x1 {
            self.registers[x] = vx | vy;
            proof {
                assert(self@ =~= exec_spec(pre, opcode, rand_byte, keys).m);
            }
            Ok(None)
        } else if sub == 0x2 {
            self.registers[x] = vx & vy;
            proof {
                assert(self@ =~= exec_spec(pre, opcode, rand_byte, keys).m);
            }
            Ok(None)
        } else if sub == 0x3 {
            self.registers[x] = vx ^ vy;
            proof {
                assert(self@ =~= exec_spec(pre, opcode, rand_byte, keys).m);
            }
            Ok(None)
        } else if sub == 0x4 {
            let sum = vx as u16 + vy as u16;
            self.registers[x] = (sum % 256) as u8;
            self.registers[15] = if sum > 255 { 1 } else { 0 };
            proof {
                assert((sum % 256) as u8 == wrap8(vx + vy));
                assert(self@ =~= exec_spec(pre, opcode, rand_byte, keys).m);
            }
            Ok(None)
        } else if sub == 0x5 {
            self.registers[x] = vx.wrapping_sub(vy);
            self.registers[15] = if vx > vy { 1 } else { 0 };
            proof {
                assert(vx.wrapping_sub(vy) == wrap8(vx - vy));
                assert(self@ =~= exec_spec(pre, opcode, rand_byte, keys).m);
            }
            Ok(None)
        } else if sub == 0x6 {
            self.registers[x] = vx / 2;
            self.registers[15] = vx % 2;
            proof {
                assert(self@ =~= exec_spec(pre, opcode, rand_byte, keys).m);
            }
            Ok(None)
        } else if sub == 0x7 {
            self.registers[x] = vy.wrapping_sub(vx);
            self.registers[15] = if vy > vx { 1 } else { 0 };
            proof {
                assert(vy.wrapping_sub(vx) == wrap8(vy - vx));
                assert(self@ =~= exec_spec(pre, opcode, rand_byte, keys).m);
            }
            Ok(None)
        } else if sub == 0xE {
            self.registers[x] = ((vx as u16 * 2) % 256) as u8;
            self.registers[15] = vx / 128;
            proof {
                assert(((vx as u16 * 2) % 256) as u8 == wrap8(2 * vx));
                assert(self@ =~= exec_spec(pre, opcode, rand_byte, keys).m);
            }
            Ok(None)
        } else {
            proof {
                assert(self@ =~= exec_spec(pre, opcode, rand_byte, keys).m);
            }
            Ok(Some(opcode))
        }
    }

    /// The 0xD family: sprite drawing with collision into VF.
    fn exec_draw(&mut self, opcode: u32, rand_byte: u8, keys: u16, Ghost(pre): Ghost<Machine>)
        -> (r: Result<Option<u32>, ExecError>)
        requires
            old(self).wf(),
            op_fam(opcode) == 0xD,
            old(self)@ == (Machine { pc: wrap16(pre.pc + 2), ..pre }),
        ensures
            final(self).wf(),
            step_post(pre, final(self)@, opcode, rand_byte, keys, r),
    {
        proof {
            reveal(exec_spec);
        }
        let ghost s = self@;
        let x = ((opcode / 0x100) % 0x10) as usize;
        let y = ((opcode / 0x10) % 0x10) as usize;
        let n = (opcode % 0x10) as usize;
        let vx = self.registers[x];
        let vy = self.registers[y];
        let base = self.address as usize;
        if n > 0 && base + n > MEM_SIZE {
            proof {
                assert(self@ =~= exec_spec(pre, opcode, rand_byte, keys).m);
            }
            Err(ExecError::AddressOutOfRange)
        } else if n == 0 {
            self.registers[15] = 0;
            proof {
                let bi = s.addr as int;
                assert(draw_fb(s.fb, s.mem, bi, 0, vx as int, vy as int) =~= s.fb);
                assert(!draw_collision(s.fb, s.mem, bi, 0, vx as int, vy as int));
                assert(self@ =~= exec_spec(pre, opcode, rand_byte, keys).m);
            }
            Ok(None)
        } else {
            let coll = self.display.draw_sprite(&self.memory, base, n, vx as usize, vy as usize);
            self.registers[15] = if coll { 1 } else { 0 };
            proof {
                assert(self@ =~= exec_spec(pre, opcode, rand_byte, keys).m);
            }
            Ok(None)
        }
    }

    /// The 0xE family: skips on the current key state.
    fn exec_keys(&mut self, opcode: u32, rand_byte: u8, keys: u16, Ghost(pre): Ghost<Machine>)
        -> (r: Result<Option<u32>, ExecError>)
        requires
            old(self).wf(),
            op_fam(opcode) == 0xE,
            old(self)@ == (Machine { pc: wrap16(pre.pc + 2), ..pre }),
        ensures
            final(self).wf(),
            step_post(pre, final(self)@, opcode, rand_byte, keys, r),
    {
        proof {
            reveal(exec_spec);
        }
        let x = ((opcode / 0x100) % 0x10) as usize;
        let vx = self.registers[x];
        let lb = opcode % 0x100;
        if lb == 0x9E {
            if vx < 16 && (keys >> (vx as u16)) & 1 == 1 {
                self.pc = self.pc.wrapping_add(2);
            }
            proof {
                assert(self@ =~= exec_spec(pre, opcode, rand_byte, keys).m);
            }
            Ok(None)
        } else if lb == 0xA1 {
            if !(vx < 16 && (keys >> (vx as u16)) & 1 == 1) {
                self.pc = self.pc.wrapping_add(2);
            }
            proof {
                assert(self@ =~= exec_spec(pre, opcode, rand_byte, keys).m);
            }
            Ok(None)
        } else {
            proof {
                assert(self@ =~= exec_spec(pre, opcode, rand_byte, keys).m);
            }
            Ok(Some(opcode))
        }
    }

    /// The 0xF family: timers, the wait-for-key pause, address arithmetic,
    /// the font table, decimal conversion and register block transfer.
    #[verifier::rlimit(100)]
    fn exec_sys(&mut self, opcode: u32, rand_byte: u8, keys: u16, Ghost(pre): Ghost<Machine>)
        -> (r: Result<Option<u32>, ExecError>)
        requires
            old(self).wf(),
            op_fam(opcode) == 0xF,
            old(self)@ == (Machine { pc: wrap16(pre.pc + 2), ..pre }),
        ensures
            final(self).wf(),
            step_post(pre, final(self)@, opcode, rand_byte, keys, r),
    {
        proof {
            reveal(exec_spec);
        }
        let ghost s = self@;
        let x = ((opcode / 0x100) % 0x10) as usize;
        let vx = self.registers[x];
        let lb = opcode % 0x100;
        if lb == 0x07 {
            self.registers[x] = self.delay_timer;
            proof {
                assert(self@ =~= exec_spec(pre, opcode, rand_byte, keys).m);
            }
            Ok(None)
        } else if lb == 0x0A {
            self.paused = true;
            self.wait_register = x as u8;
            proof {
                assert(self@ =~= exec_spec(pre, opcode, rand_byte, keys).m);
            }
            Ok(None)
        } else if lb == 0x15 {
            self.delay_timer = vx;
            proof {
                assert(self@ =~= exec_spec(pre, opcode, rand_byte, keys).m);
            }
            Ok(None)
        } else if lb == 0x18 {
            self.sound_timer = vx;
            proof {
                assert(self@ =~= exec_spec(pre, opcode, rand_byte, keys).m);
            }
            Ok(None)
        } else if lb == 0x1E {
            self.address = self.address.wrapping_add(vx as u16);
            proof {
                assert(self@.addr == wrap16(s.addr + vx));
                assert(self@ =~= exec_spec(pre, opcode, rand_byte, keys).m);
            }
            Ok(None)
        } else if lb == 0x29 {
            self.address = vx as u16 * 5;
            proof {
                assert(self@ =~= exec_spec(pre, opcode, rand_byte, keys).m);
            }
            Ok(None)
        } else if lb == 0x33 {
            let base = self.address as usize;
            if base + 2 >= MEM_SIZE {
                proof {
                    assert(self@ =~= exec_spec(pre, opcode, rand_byte, keys).m);
                }
                Err(ExecError::AddressOutOfRange)
            } else {
                self.memory[base] = vx / 100;
                self.memory[base + 1] = (vx % 100) / 10;
                self.memory[base + 2] = vx % 10;
                proof {
                    assert(self@ =~= exec_spec(pre, opcode, rand_byte, keys).m);
                }
                Ok(None)
            }
        } else if lb == 0x55 {
            let base = self.address as usize;
            if base + x >= MEM_SIZE {
                proof {
                    assert(self@ =~= exec_spec(pre, opcode, rand_byte, keys).m);
                }
                Err(ExecError::AddressOutOfRange)
            } else {
                let mut i: usize = 0;
                while i <= x
                    invariant
                        i <= x + 1,
                        x < 16,
                        base + x < 4096,
                        base == s.addr as usize,
                        self.display.wf(),
                        s.regs.len() == 16,
                        s.mem.len() == 4096,
                        self.memory@.len() == 4096,
                        self@ == (Machine { mem: self.memory@, ..s }),
                        forall|j: int| 0 <= j < 4096 ==> #[trigger] self.memory@[j]
                            == (if base <= j < base + i { s.regs[j - base] } else { s.mem[j] }),
                    decreases x + 1 - i,
                {
                    self.memory[base + i] = self.registers[i];
                    i = i + 1;
                }
                proof {
                    assert(self.memory@ =~= store_regs(s.mem, s.regs, s.addr as int, x as int));
                    assert(self@ =~= exec_spec(pre, opcode, rand_byte, keys).m);
                }
                Ok(None)
            }
        } else if lb == 0x65 {
            let base = self.address as usize;
            if base + x >= MEM_SIZE {
                proof {
                    assert(self@ =~= exec_spec(pre, opcode, rand_byte, keys).m);
                }
                Err(ExecError::AddressOutOfRange)
            } else {
                let mut i: usize = 0;
                while i <= x
                    invariant
                        i <= x + 1,
                        x < 16,
                        base + x < 4096,
                        base == s.addr as usize,
                        self.display.wf(),
                        s.regs.len() == 16,
                        s.mem.len() == 4096,
                        self.registers@.len() == 16,
                        self@ == (Machine { regs: self.registers@, ..s }),
                        forall|j: int| 0 <= j < 16 ==> #[trigger] self.registers@[j]
                            == (if j < i { s.mem[base + j] } else { s.regs[j] }),
                    decreases x + 1 - i,
                {
                    self.registers[i] = self.memory[base + i];
                    i = i + 1;
                }
                proof {
                    assert(self.registers@ =~= load_regs(s.mem, s.regs, s.addr as int, x as int));
                    assert(self@ =~= exec_spec(pre, opcode, rand_byte, keys).m);
                }
                Ok(None)
            }
        } else {
            proof {
                assert(self@ =~= exec_spec(pre, opcode, rand_byte, keys).m);
            }
            Ok(Some(opcode))
        }
    }

    /// One step of the engine: a no-op while paused; a fault if the program
    /// counter has run off memory; otherwise fetches the 2-byte big-endian
    /// word at PC, draws a random byte, and executes. Some random byte
    /// explains the outcome exactly.
    pub fn step(&mut self, keys: u16) -> (r: Result<Option<u32>, ExecError>)
        requires
            old(self).wf(),
        ensures
            final(self).wf(),
            exists|b: u8| #[trigger] step_results(old(self)@, final(self)@, b, keys, r),
            old(self)@.paused ==> final(self)@ == old(self)@
                && r == Ok::<Option<u32>, ExecError>(None),
    {
        if self.paused {
            proof {
                assert(step_results(self@, self@, 0u8, keys, Ok::<Option<u32>, ExecError>(None)));
            }
            return Ok(None);
        }
        let pc = self.pc;
        if pc as usize + 1 >= MEM_SIZE {
            proof {
                assert(step_results(
                    self@, self@, 0u8, keys,
                    Err::<Option<u32>, ExecError>(ExecError::AddressOutOfRange),
                ));
            }
            return Err(ExecError::AddressOutOfRange);
        }
        let hi = self.memory[pc as usize];
        let lo = self.memory[pc as usize + 1];
        let opcode = (hi as u32) * 256 + (lo as u32);
        let b = random_byte();
        let ghost pre = self@;
        let r = self.execute_instruction(opcode, b, keys);
        proof {
            assert(opcode == fetch_opcode(pre));
            assert(step_results(pre, self@, b, keys, r));
        }
        r
    }

    /// Runs one frame: a paused machine first polls for a newly pressed key
    /// (capturing it and resuming if one in 0..15 arrived), then up to
    /// `instructions_per_frame` steps run, then both timers tick once and
    /// the tone decision is reported. A fault stops the batch and leaves the
    /// timers untouched.
    pub fn cycle(&mut self, instructions_per_frame: u32, keys: u16, newly_pressed: Option<u8>)
        -> (r: Result<FrameOutput, ExecError>)
        requires
            old(self).wf(),
        ensures
            final(self).wf(),
            (match r {
                Ok(out) => cycle_ok_post(
                    old(self)@, final(self)@, instructions_per_frame, keys, newly_pressed,
                    out.tone_on, out.unknown_opcodes@,
                ),
                Err(e) => cycle_err_post(
                    old(self)@, final(self)@, instructions_per_frame, keys, newly_pressed, e,
                ),
            }),
            instructions_per_frame == 0 ==> r is Ok
                && final(self)@ == tick_spec(unpause_spec(old(self)@, newly_pressed)),
            old(self)@.paused && newly_pressed is None ==> r is Ok
                && final(self)@ == tick_spec(old(self)@),
    {
        let ghost pre = self@;
        if self.paused {
            if let Some(k) = newly_pressed {
                if k < 16 {
                    let wr = self.wait_register as usize;
                    self.registers[wr] = k;
                    self.paused = false;
                }
            }
        }
        let ghost s0 = self@;
        proof {
            assert(s0 =~= unpause_spec(pre, newly_pressed));
        }
        let mut unknowns: Vec<u32> = Vec::new();
        let ghost mut rands: Seq<u8> = Seq::<u8>::empty();
        let mut i: u32 = 0;
        while i < instructions_per_frame
            invariant
                i <= instructions_per_frame,
                self.wf(),
                pre == old(self)@,
                s0 == unpause_spec(pre, newly_pressed),
                rands.len() == i,
                run_spec(s0, rands, keys).err is None,
                self@ == run_spec(s0, rands, keys).m,
                unknowns@ == run_spec(s0, rands, keys).unknown,
            decreases instructions_per_frame - i,
        {
            let ghost prev = self@;
            let ghost prev_unknowns = unknowns@;
            let res = self.step(keys);
            let ghost b = choose|bb: u8| step_results(prev, self@, bb, keys, res);
            proof {
                lemma_run_snoc(s0, rands, b, keys);
                rands = rands.push(b);
            }
            match res {
                Ok(opt) => {
                    match opt {
                        Some(op) => {
                            unknowns.push(op);
                            proof {
                                assert(unknowns@ =~= run_spec(s0, rands, keys).unknown);
                            }
                        },
                        None => {
                            proof {
                                assert(unknowns@ =~= run_spec(s0, rands, keys).unknown);
                            }
                        },
                    }
                    i = i + 1;
                },
                Err(e) => {
                    proof {
                        assert(run_spec(s0, rands, keys).err == Some(e));
                        assert(self@ == run_spec(s0, rands, keys).m);
                        assert(run_spec(unpause_spec(pre, newly_pressed), rands, keys)
                            == run_spec(s0, rands, keys));
                        assert(cycle_err_post(
                            pre, self@, instructions_per_frame, keys, newly_pressed, e,
                        ));
                        if pre.paused && newly_pressed is None {
                            lemma_run_paused(s0, rands, keys);
                            assert(false);
                        }
                    }
                    return Err(e);
                },
            }
        }
        self.update_timers();
        let tone = self.sound_timer > 0;
        proof {
            assert(run_spec(unpause_spec(pre, newly_pressed), rands, keys)
                == run_spec(s0, rands, keys));
            if instructions_per_frame == 0 {
                assert(rands =~= Seq::<u8>::empty());
            }
            if pre.paused && newly_pressed is None {
                lemma_run_paused(s0, rands, keys);
            }
        }
        Ok(FrameOutput { tone_on: tone, unknown_opcodes: unknowns })
    }

    /// Decrements each timer by one, floored at zero.
    pub fn update_timers(&mut self)
        requires
            old(self).wf(),
        ensures
            final(self).wf(),
            final(self)@ == tick_spec(old(self)@),
    {
        if self.delay_timer > 0 {
            self.delay_timer = self.delay_timer - 1;
        }
        if self.sound_timer > 0 {
            self.sound_timer = self.sound_timer - 1;
        }
        proof {
            assert(self@ =~= tick_spec(old(self)@));
        }
    }
}

/// A vector of `n` zero bytes.
fn zero_bytes(n: usize) -> (v: Vec<u8>)
    ensures
        v@.len() == n,
        forall|i: int| 0 <= i < n ==> v@[i] == 0u8,
{
    let mut v: Vec<u8> = Vec::new();
    let mut i: usize = 0;
    while i < n
        invariant
            i <= n,
            v@.len() == i,
            forall|j: int| 0 <= j < i ==> v@[j] == 0u8,
        decreases n - i,
    {
        v.push(0);
        i = i + 1;
    }
    v
}

} // verus!
