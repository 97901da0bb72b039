//! The fetch-decode-execute cycle.
//!
//! [`spec_execute`] is the complete mathematical semantics of the 35
//! instructions: what each one does to the machine model, and on which
//! machines it instead fails fatally. [`CPU::execute`] is proved to follow it
//! exactly, and [`CPU::emulate_cycle`] ties it to the fetch at the program
//! counter.

use vstd::prelude::*;

use crate::draw::spec_draw;
use crate::instr::{decode_opcode, instr_wf, spec_decode, Instr};
use crate::state::{read_mem_word, word_at, Chip8Error, Chip8View, CpuState, CPU};

verus! {

/// 8-bit addition, wrapping on overflow.
pub open spec fn wrap_add8(a: u8, b: u8) -> u8 {
    if a + b > 255 {
        (a + b - 256) as u8
    } else {
        (a + b) as u8
    }
}

/// 8-bit subtraction, wrapping on borrow.
pub open spec fn wrap_sub8(a: u8, b: u8) -> u8 {
    if a - b < 0 {
        (a - b + 256) as u8
    } else {
        (a - b) as u8
    }
}

/// 16-bit addition, wrapping on overflow.
pub open spec fn wrap_add16(a: u16, b: u16) -> u16 {
    if a + b > 65535 {
        (a + b - 65536) as u16
    } else {
        (a + b) as u16
    }
}

proof fn lemma_low_nibble(b: u8)
    by (bit_vector)
    ensures
        b & 0xF < 16,
{
}

/// The machine after one instruction is applied: every register, memory,
/// stack, timer, framebuffer and control-flow effect of the instruction
/// table, or the fatal error the instruction runs into. `rnd` is the byte
/// the random-number source supplied; only `CXNN` reads it.
pub open spec fn spec_execute(m: Chip8View, instr: Instr, rnd: u8) -> Result<
    Chip8View,
    Chip8Error,
> {
    match instr {
        Instr::ClearScreen => Ok(
            Chip8View {
                gfx: Seq::new(2048, |p: int| 0u8),
                draw_flag: true,
                pc: (m.pc + 2) as u16,
                ..m
            },
        ),
        Instr::Return => if m.stack.len() == 0 {
            Err(Chip8Error::StackUnderflow)
        } else {
            Ok(Chip8View { pc: m.stack.last(), stack: m.stack.drop_last(), ..m })
        },
        Instr::Jump { nnn } => Ok(Chip8View { pc: nnn, ..m }),
        Instr::CallSub { nnn } => if m.stack.len() >= 16 {
            Err(Chip8Error::StackOverflow)
        } else {
            Ok(Chip8View { stack: m.stack.push((m.pc + 2) as u16), pc: nnn, ..m })
        },
        Instr::SkipEqImm { x, nn } => Ok(
            Chip8View {
                pc: if m.v[x as int] == nn {
                    (m.pc + 4) as u16
                } else {
                    (m.pc + 2) as u16
                },
                ..m
            },
        ),
        Instr::SkipNeImm { x, nn } => Ok(
            Chip8View {
                pc: if m.v[x as int] != nn {
                    (m.pc + 4) as u16
                } else {
                    (m.pc + 2) as u16
                },
                ..m
            },
        ),
        Instr::SkipEqReg { x, y } => Ok(
            Chip8View {
                pc: if m.v[x as int] == m.v[y as int] {
                    (m.pc + 4) as u16
                } else {
                    (m.pc + 2) as u16
                },
                ..m
            },
        ),
        Instr::SetImm { x, nn } => Ok(
            Chip8View { v: m.v.update(x as int, nn), pc: (m.pc + 2) as u16, ..m },
        ),
        Instr::AddImm { x, nn } => Ok(
            Chip8View {
                v: m.v.update(x as int, wrap_add8(m.v[x as int], nn)),
                pc: (m.pc + 2) as u16,
                ..m
            },
        ),
        Instr::Copy { x, y } => Ok(
            Chip8View { v: m.v.update(x as int, m.v[y as int]), pc: (m.pc + 2) as u16, ..m },
        ),
        Instr::BitOr { x, y } => Ok(
            Chip8View {
                v: m.v.update(x as int, m.v[x as int] | m.v[y as int]),
                pc: (m.pc + 2) as u16,
                ..m
            },
        ),
        Instr::BitAnd { x, y } => Ok(
            Chip8View {
                v: m.v.update(x as int, m.v[x as int] & m.v[y as int]),
                pc: (m.pc + 2) as u16,
                ..m
            },
        ),
        Instr::BitXor { x, y } => Ok(
            Chip8View {
                v: m.v.update(x as int, m.v[x as int] ^ m.v[y as int]),
                pc: (m.pc + 2) as u16,
                ..m
            },
        ),
        Instr::AddReg { x, y } => Ok(
            Chip8View {
                v: m.v.update(x as int, wrap_add8(m.v[x as int], m.v[y as int])).update(
                    15,
                    if m.v[x as int] + m.v[y as int] > 255 {
                        1u8
                    } else {
                        0u8
                    },
                ),
                pc: (m.pc + 2) as u16,
                ..m
            },
        ),
        Instr::SubReg { x, y } => Ok(
            Chip8View {
                v: m.v.update(x as int, wrap_sub8(m.v[x as int], m.v[y as int])).update(
                    15,
                    if m.v[x as int] >= m.v[y as int] {
                        1u8
                    } else {
                        0u8
                    },
                ),
                pc: (m.pc + 2) as u16,
                ..m
            },
        ),
        Instr::ShiftRight { x } => Ok(
            Chip8View {
                v: m.v.update(15, m.v[x as int] & 1).update(x as int, m.v[x as int] >> 1u8),
                pc: (m.pc + 2) as u16,
                ..m
            },
        ),
        Instr::SubFrom { x, y } => Ok(
            Chip8View {
                v: m.v.update(x as int, wrap_sub8(m.v[y as int], m.v[x as int])).update(
                    15,
                    if m.v[y as int] >= m.v[x as int] {
                        1u8
                    } else {
                        0u8
                    },
                ),
                pc: (m.pc + 2) as u16,
                ..m
            },
        ),
        Instr::ShiftLeft { x } => Ok(
            Chip8View {
                v: m.v.update(15, m.v[x as int] >> 7u8).update(x as int, m.v[x as int] << 1u8),
                pc: (m.pc + 2) as u16,
                ..m
            },
        ),
        Instr::SkipNeReg { x, y } => Ok(
            Chip8View {
                pc: if m.v[x as int] != m.v[y as int] {
                    (m.pc + 4) as u16
                } else {
                    (m.pc + 2) as u16
                },
                ..m
            },
        ),
        Instr::SetIndex { nnn } => Ok(Chip8View { i: nnn, pc: (m.pc + 2) as u16, ..m }),
        Instr::JumpPlusV0 { nnn } => Ok(Chip8View { pc: (m.v[0] + nnn) as u16, ..m }),
        Instr::Random { x, nn } => Ok(
            Chip8View { v: m.v.update(x as int, rnd & nn), pc: (m.pc + 2) as u16, ..m },
        ),
        Instr::DrawSprite { x, y, n } => match spec_draw(m, m.v[x as int], m.v[y as int], n) {
            Ok(m2) => Ok(Chip8View { pc: (m2.pc + 2) as u16, ..m2 }),
            Err(e) => Err(e),
        },
        Instr::SkipIfKey { x } => Ok(
            Chip8View {
                pc: if m.keys[(m.v[x as int] & 0xF) as int] {
                    (m.pc + 4) as u16
                } else {
                    (m.pc + 2) as u16
                },
                ..m
            },
        ),
        Instr::SkipIfNotKey { x } => Ok(
            Chip8View {
                pc: if !m.keys[(m.v[x as int] & 0xF) as int] {
                    (m.pc + 4) as u16
                } else {
                    (m.pc + 2) as u16
                },
                ..m
            },
        ),
        Instr::ReadDelay { x } => Ok(
            Chip8View { v: m.v.update(x as int, m.delay), pc: (m.pc + 2) as u16, ..m },
        ),
        Instr::WaitKey { x } => Ok(
            Chip8View { state: (CpuState::WaitingForKey { x }), pc: (m.pc + 2) as u16, ..m },
        ),
        Instr::SetDelay { x } => Ok(
            Chip8View { delay: m.v[x as int], pc: (m.pc + 2) as u16, ..m },
        ),
        Instr::SetSound { x } => Ok(
            Chip8View { sound: m.v[x as int], pc: (m.pc + 2) as u16, ..m },
        ),
        Instr::AddIndex { x } => Ok(
            Chip8View { i: wrap_add16(m.i, m.v[x as int] as u16), pc: (m.pc + 2) as u16, ..m },
        ),
        Instr::FontAddr { x } => Ok(
            Chip8View {
                i: (0x50 + 5 * (m.v[x as int] & 0xF)) as u16,
                pc: (m.pc + 2) as u16,
                ..m
            },
        ),
        Instr::StoreBcd { x } => if m.i + 3 > 4096 {
            Err(Chip8Error::MemoryOutOfBounds)
        } else {
            Ok(
                Chip8View {
                    mem: m.mem.update(m.i as int, (m.v[x as int] / 100) as u8).update(
                        m.i + 1,
                        ((m.v[x as int] / 10) % 10) as u8,
                    ).update(m.i + 2, (m.v[x as int] % 10) as u8),
                    pc: (m.pc + 2) as u16,
                    ..m
                },
            )
        },
        Instr::StoreRegs { x } => if m.i + x + 1 > 4096 {
            Err(Chip8Error::MemoryOutOfBounds)
        } else {
            Ok(
                Chip8View {
                    mem: Seq::new(
                        4096,
                        |a: int|
                            if m.i <= a < m.i + x + 1 {
                                m.v[a - m.i]
                            } else {
                                m.mem[a]
                            },
                    ),
                    pc: (m.pc + 2) as u16,
                    ..m
                },
            )
        },
        Instr::LoadRegs { x } => if m.i + x + 1 > 4096 {
            Err(Chip8Error::MemoryOutOfBounds)
        } else {
            Ok(
                Chip8View {
                    v: Seq::new(
                        16,
                        |j: int|
                            if j <= x {
                                m.mem[m.i + j]
                            } else {
                                m.v[j]
                            },
                    ),
                    pc: (m.pc + 2) as u16,
                    ..m
                },
            )
        },
    }
}

/// One whole cycle on the machine model: a suspended machine is left exactly
/// as it is; otherwise the word at the program counter is fetched, decoded
/// and executed, and a failed fetch or decode is fatal.
pub open spec fn spec_cycle(m: Chip8View, rnd: u8) -> Result<Chip8View, Chip8Error> {
    match m.state {
        CpuState::WaitingForKey { .. } => Ok(m),
        CpuState::Executing => {
            if m.pc + 1 >= 4096 {
                Err(Chip8Error::MemoryOutOfBounds)
            } else {
                let w = word_at(m.mem, m.pc as int);
                match spec_decode(w) {
                    None => Err(Chip8Error::UnknownOpcode { opcode: w }),
                    Some(instr) => spec_execute(m, instr, rnd),
                }
            }
        },
    }
}

/// How one call of [`CPU::emulate_cycle`] relates the machine before (`m0`)
/// and after (`m1`) and its result `r`, for the random byte `rnd`.
pub open spec fn cycle_matches(
    m0: Chip8View,
    m1: Chip8View,
    r: Result<(), Chip8Error>,
    rnd: u8,
) -> bool {
    match spec_cycle(m0, rnd) {
        Ok(m) => r is Ok && m1 == m,
        Err(e) => r == Err::<(), Chip8Error>(e) && m1 == m0,
    }
}

/// Relies on rand::random: one byte drawn from the thread-local generator.
/// Nothing is assumed about which byte comes back.
#[verifier::external_body]
fn random_byte() -> u8 {
    rand::random()
}

impl CPU {
    /// Applies one decoded instruction, using `rnd` as the random byte for
    /// `CXNN`: the machine afterwards is exactly [`spec_execute`] of the
    /// machine before, and a fatal error leaves the machine unchanged.
    pub fn execute(&mut self, instr: Instr, rnd: u8) -> (r: Result<(), Chip8Error>)
        requires
            old(self).wf(),
            instr_wf(instr),
            old(self)@.pc <= 4094,
        ensures
            final(self).wf(),
            (match spec_execute(old(self)@, instr, rnd) {
                Ok(m) => r is Ok && final(self)@ == m,
                Err(e) => r == Err::<(), Chip8Error>(e) && final(self)@ == old(self)@,
            }),
    {
        match instr {
            Instr::ClearScreen => {
                self.clear_display();
                self.pc = self.pc + 2;
                proof {
                    assert(self@ =~= spec_execute(old(self)@, instr, rnd).unwrap());
                }
                Ok(())
            },
            Instr::Return => {
                match self.stack.pop() {
                    Some(a) => {
                        self.pc = a;
                        proof {
                            assert(self@ =~= spec_execute(old(self)@, instr, rnd).unwrap());
                        }
                        Ok(())
                    },
                    None => Err(Chip8Error::StackUnderflow),
                }
            },
            Instr::Jump { nnn } => {
                self.pc = nnn;
                proof {
                    assert(self@ =~= spec_execute(old(self)@, instr, rnd).unwrap());
                }
                Ok(())
            },
            Instr::CallSub { nnn } => {
                if self.stack.len() >= 16 {
                    Err(Chip8Error::StackOverflow)
                } else {
                    self.stack.push(self.pc + 2);
                    self.pc = nnn;
                    proof {
                        assert(self@ =~= spec_execute(old(self)@, instr, rnd).unwrap());
                    }
                    Ok(())
                }
            },
            Instr::SkipEqImm { x, nn } => {
                if self.v[x as usize] == nn {
                    self.pc = self.pc + 4;
                } else {
                    self.pc = self.pc + 2;
                }
                proof {
                    assert(self@ =~= spec_execute(old(self)@, instr, rnd).unwrap());
                }
                Ok(())
            },
            Instr::SkipNeImm { x, nn } => {
                if self.v[x as usize] != nn {
                    self.pc = self.pc + 4;
                } else {
                    self.pc = self.pc + 2;
                }
                proof {
                    assert(self@ =~= spec_execute(old(self)@, instr, rnd).unwrap());
                }
                Ok(())
            },
            Instr::SkipEqReg { x, y } => {
                if self.v[x as usize] == self.v[y as usize] {
                    self.pc = self.pc + 4;
                } else {
                    self.pc = self.pc + 2;
                }
                proof {
                    assert(self@ =~= spec_execute(old(self)@, instr, rnd).unwrap());
                }
                Ok(())
            },
            Instr::SetImm { x, nn } => {
                self.v.set(x as usize, nn);
                self.pc = self.pc + 2;
                proof {
                    assert(self@ =~= spec_execute(old(self)@, instr, rnd).unwrap());
                }
                Ok(())
            },
            Instr::AddImm { x, nn } => {
                let vx: u8 = self.v[x as usize];
                self.v.set(x as usize, vx.wrapping_add(nn));
                self.pc = self.pc + 2;
                proof {
                    assert(self@ =~= spec_execute(old(self)@, instr, rnd).unwrap());
                }
                Ok(())
            },
            Instr::Copy { x, y } => {
                let vy: u8 = self.v[y as usize];
                self.v.set(x as usize, vy);
                self.pc = self.pc + 2;
                proof {
                    assert(self@ =~= spec_execute(old(self)@, instr, rnd).unwrap());
                }
                Ok(())
            },
            Instr::BitOr { x, y } => {
                let vx: u8 = self.v[x as usize];
                let vy: u8 = self.v[y as usize];
                self.v.set(x as usize, vx | vy);
                self.pc = self.pc + 2;
                proof {
                    assert(self@ =~= spec_execute(old(self)@, instr, rnd).unwrap());
                }
                Ok(())
            },
            Instr::BitAnd { x, y } => {
                let vx: u8 = self.v[x as usize];
                let vy: u8 = self.v[y as usize];
                self.v.set(x as usize, vx & vy);
                self.pc = self.pc + 2;
                proof {
                    assert(self@ =~= spec_execute(old(self)@, instr, rnd).unwrap());
                }
                Ok(())
            },
            Instr::BitXor { x, y } => {
                let vx: u8 = self.v[x as usize];
                let vy: u8 = self.v[y as usize];
                self.v.set(x as usize, vx ^ vy);
                self.pc = self.pc + 2;
                proof {
                    assert(self@ =~= spec_execute(old(self)@, instr, rnd).unwrap());
                }
                Ok(())
            },
            Instr::AddReg { x, y } => {
                let vx: u8 = self.v[x as usize];
                let vy: u8 = self.v[y as usize];
                let carry: u8 = if vx as u16 + vy as u16 > 255 {
                    1
                } else {
                    0
                };
                self.v.set(x as usize, vx.wrapping_add(vy));
                self.v.set(15, carry);
                self.pc = self.pc + 2;
                proof {
                    assert(self@ =~= spec_execute(old(self)@, instr, rnd).unwrap());
                }
                Ok(())
            },
            Instr::SubReg { x, y } => {
                let vx: u8 = self.v[x as usize];
                let vy: u8 = self.v[y as usize];
                let no_borrow: u8 = if vx >= vy {
                    1
                } else {
                    0
                };
                self.v.set(x as usize, vx.wrapping_sub(vy));
                self.v.set(15, no_borrow);
                self.pc = self.pc + 2;
                proof {
                    assert(self@ =~= spec_execute(old(self)@, instr, rnd).unwrap());
                }
                Ok(())
            },
            Instr::ShiftRight { x } => {
                let vx: u8 = self.v[x as usize];
                self.v.set(15, vx & 1);
                self.v.set(x as usize, vx >> 1u8);
                self.pc = self.pc + 2;
                proof {
                    assert(self@ =~= spec_execute(old(self)@, instr, rnd).unwrap());
                }
                Ok(())
            },
            Instr::SubFrom { x, y } => {
                let vx: u8 = self.v[x as usize];
                let vy: u8 = self.v[y as usize];
                let no_borrow: u8 = if vy >= vx {
                    1
                } else {
                    0
                };
                self.v.set(x as usize, vy.wrapping_sub(vx));
                self.v.set(15, no_borrow);
                self.pc = self.pc + 2;
                proof {
                    assert(self@ =~= spec_execute(old(self)@, instr, rnd).unwrap());
                }
                Ok(())
            },
            Instr::ShiftLeft { x } => {
                let vx: u8 = self.v[x as usize];
                self.v.set(15, vx >> 7u8);
                self.v.set(x as usize, vx << 1u8);
                self.pc = self.pc + 2;
                proof {
                    assert(self@ =~= spec_execute(old(self)@, instr, rnd).unwrap());
                }
                Ok(())
            },
            Instr::SkipNeReg { x, y } => {
                if self.v[x as usize] != self.v[y as usize] {
                    self.pc = self.pc + 4;
                } else {
                    self.pc = self.pc + 2;
                }
                proof {
                    assert(self@ =~= spec_execute(old(self)@, instr, rnd).unwrap());
                }
                Ok(())
            },
            Instr::SetIndex { nnn } => {
                self.i = nnn;
                self.pc = self.pc + 2;
                proof {
                    assert(self@ =~= spec_execute(old(self)@, instr, rnd).unwrap());
                }
                Ok(())
            },
            Instr::JumpPlusV0 { nnn } => {
                self.pc = self.v[0] as u16 + nnn;
                proof {
                    assert(self@ =~= spec_execute(old(self)@, instr, rnd).unwrap());
                }
                Ok(())
            },
            Instr::Random { x, nn } => {
                self.v.set(x as usize, rnd & nn);
                self.pc = self.pc + 2;
                proof {
                    assert(self@ =~= spec_execute(old(self)@, instr, rnd).unwrap());
                }
                Ok(())
            },
            Instr::DrawSprite { x, y, n } => {
                let vx: u8 = self.v[x as usize];
                let vy: u8 = self.v[y as usize];
                match self.draw(vx, vy, n) {
                    Ok(_) => {
                        self.pc = self.pc + 2;
                        proof {
                            assert(self@ =~= spec_execute(old(self)@, instr, rnd).unwrap());
                        }
                        Ok(())
                    },
                    Err(e) => Err(e),
                }
            },
            Instr::SkipIfKey { x } => {
                let vx: u8 = self.v[x as usize];
                proof {
                    lemma_low_nibble(vx);
                }
                if self.keys[(vx & 0xF) as usize] {
                    self.pc = self.pc + 4;
                } else {
                    self.pc = self.pc + 2;
                }
                proof {
                    assert(self@ =~= spec_execute(old(self)@, instr, rnd).unwrap());
                }
                Ok(())
            },
            Instr::SkipIfNotKey { x } => {
                let vx: u8 = self.v[x as usize];
                proof {
                    lemma_low_nibble(vx);
                }
                if !self.keys[(vx & 0xF) as usize] {
                    self.pc = self.pc + 4;
                } else {
                    self.pc = self.pc + 2;
                }
                proof {
                    assert(self@ =~= spec_execute(old(self)@, instr, rnd).unwrap());
                }
                Ok(())
            },
            Instr::ReadDelay { x } => {
                let t: u8 = self.delay_timer;
                self.v.set(x as usize, t);
                self.pc = self.pc + 2;
                proof {
                    assert(self@ =~= spec_execute(old(self)@, instr, rnd).unwrap());
                }
                Ok(())
            },
            Instr::WaitKey { x } => {
                self.state = CpuState::WaitingForKey { x };
                self.pc = self.pc + 2;
                proof {
                    assert(self@ =~= spec_execute(old(self)@, instr, rnd).unwrap());
                }
                Ok(())
            },
            Instr::SetDelay { x } => {
                self.delay_timer = self.v[x as usize];
                self.pc = self.pc + 2;
                proof {
                    assert(self@ =~= spec_execute(old(self)@, instr, rnd).unwrap());
                }
                Ok(())
            },
            Instr::SetSound { x } => {
                self.sound_timer = self.v[x as usize];
                self.pc = self.pc + 2;
                proof {
                    assert(self@ =~= spec_execute(old(self)@, instr, rnd).unwrap());
                }
                Ok(())
            },
            Instr::AddIndex { x } => {
                let vx: u8 = self.v[x as usize];
                self.i = self.i.wrapping_add(vx as u16);
                self.pc = self.pc + 2;
                proof {
                    assert(self@ =~= spec_execute(old(self)@, instr, rnd).unwrap());
                }
                Ok(())
            },
            Instr::FontAddr { x } => {
                let vx: u8 = self.v[x as usize];
                proof {
                    lemma_low_nibble(vx);
                }
                self.i = 0x50 + 5 * ((vx & 0xF) as u16);
                self.pc = self.pc + 2;
                proof {
                    assert(self@ =~= spec_execute(old(self)@, instr, rnd).unwrap());
                }
                Ok(())
            },
            Instr::StoreBcd { x } => {
                if (self.i as usize) + 3 > 4096 {
                    Err(Chip8Error::MemoryOutOfBounds)
                } else {
                    let vx: u8 = self.v[x as usize];
                    let base: usize = self.i as usize;
                    self.memory.set(base, vx / 100);
                    self.memory.set(base + 1, (vx / 10) % 10);
                    self.memory.set(base + 2, vx % 10);
                    self.pc = self.pc + 2;
                    proof {
                        assert(self@ =~= spec_execute(old(self)@, instr, rnd).unwrap());
                    }
                    Ok(())
                }
            },
            Instr::StoreRegs { x } => {
                if (self.i as usize) + (x as usize) + 1 > 4096 {
                    Err(Chip8Error::MemoryOutOfBounds)
                } else {
                    let base: usize = self.i as usize;
                    let ghost m0 = self@;
                    let mut k: usize = 0;
                    while k <= x as usize
                        invariant
                            instr == (Instr::StoreRegs { x }),
                            x < 16,
                            k <= x as usize + 1,
                            base == m0.i,
                            base + x as usize + 1 <= 4096,
                            m0.wf(),
                            self@ == (Chip8View { mem: self.memory@, ..m0 }),
                            self.memory@.len() == 4096,
                            forall|a: int|
                                0 <= a < 4096 ==> self.memory@[a] == (if m0.i <= a < m0.i + k {
                                    m0.v[a - m0.i]
                                } else {
                                    m0.mem[a]
                                }),
                        decreases x as usize + 1 - k,
                    {
                        self.memory.set(base + k, self.v[k]);
                        k = k + 1;
                    }
                    self.pc = self.pc + 2;
                    proof {
                        let m = spec_execute(old(self)@, instr, rnd).unwrap();
                        assert(self.memory@ =~= m.mem);
                        assert(self@ =~= m);
                    }
                    Ok(())
                }
            },
            Instr::LoadRegs { x } => {
                if (self.i as usize) + (x as usize) + 1 > 4096 {
                    Err(Chip8Error::MemoryOutOfBounds)
                } else {
                    let base: usize = self.i as usize;
                    let ghost m0 = self@;
                    let mut k: usize = 0;
                    while k <= x as usize
                        invariant
                            instr == (Instr::LoadRegs { x }),
                            x < 16,
                            k <= x as usize + 1,
                            base == m0.i,
                            base + x as usize + 1 <= 4096,
                            m0.wf(),
                            self@ == (Chip8View { v: self.v@, ..m0 }),
                            self.v@.len() == 16,
                            forall|j: int|
                                0 <= j < 16 ==> self.v@[j] == (if j < k {
                                    m0.mem[m0.i + j]
                                } else {
                                    m0.v[j]
                                }),
                        decreases x as usize + 1 - k,
                    {
                        let b: u8 = self.memory[base + k];
                        self.v.set(k, b);
                        k = k + 1;
                    }
                    self.pc = self.pc + 2;
                    proof {
                        let m = spec_execute(old(self)@, instr, rnd).unwrap();
                        assert(self.v@ =~= m.v);
                        assert(self@ =~= m);
                    }
                    Ok(())
                }
            },
        }
    }

    /// One step of fetch-decode-execute. A machine suspended awaiting a key
    /// is left untouched; otherwise the word at the program counter is
    /// fetched, decoded and executed, and the machine afterwards is
    /// [`spec_cycle`] of the machine before, for some byte the random-number
    /// source supplied. A fatal fetch, decode or execution error leaves the
    /// machine unchanged.
    pub fn emulate_cycle(&mut self) -> (r: Result<(), Chip8Error>)
        requires
            old(self).wf(),
        ensures
            final(self).wf(),
            exists|rnd: u8| cycle_matches(old(self)@, final(self)@, r, rnd),
    {
        let waiting: bool = self.is_waiting();
        if waiting {
            proof {
                assert(cycle_matches(old(self)@, self@, Ok::<(), Chip8Error>(()), 0u8));
            }
            return Ok(());
        }
        match read_mem_word(&self.memory, self.pc) {
            None => {
                proof {
                    assert(cycle_matches(
                        old(self)@,
                        self@,
                        Err::<(), Chip8Error>(Chip8Error::MemoryOutOfBounds),
                        0u8,
                    ));
                }
                Err(Chip8Error::MemoryOutOfBounds)
            },
            Some(w) => {
                match decode_opcode(w) {
                    None => {
                        proof {
                            assert(cycle_matches(
                                old(self)@,
                                self@,
                                Err::<(), Chip8Error>(Chip8Error::UnknownOpcode { opcode: w }),
                                0u8,
                            ));
                        }
                        Err(Chip8Error::UnknownOpcode { opcode: w })
                    },
                    Some(instr) => {
                        let rnd: u8 = match instr {
                            Instr::Random { .. } => random_byte(),
                            _ => 0,
                        };
                        let r = self.execute(instr, rnd);
                        proof {
                            assert(cycle_matches(old(self)@, self@, r, rnd));
                        }
                        r
                    },
                }
            },
        }
    }
}

} // verus!
