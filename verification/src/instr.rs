//! Bit-level decoding of the 16-bit instruction words.
//!
//! An instruction word is dispatched on its high nibble; the two overloaded
//! families `0x8___` and `0xE___`/`0xF___` dispatch further on the low nibble
//! or low byte. A word matching no defined pattern decodes to nothing, which
//! the executor reports as a fatal decode error.

use vstd::prelude::*;

use crate::state::{read_mem_word, word_at, CPU};

verus! {

/// One decoded CHIP-8 instruction. `x` and `y` are 4-bit register indices,
/// `nnn` a 12-bit address, `nn` an 8-bit immediate and `n` a 4-bit immediate.
#[derive(Clone, Copy, PartialEq, Eq, Structural, Debug)]
pub enum Instr {
    /// `00E0`: clear the framebuffer.
    ClearScreen,
    /// `00EE`: pop the stack into the program counter.
    Return,
    /// `1NNN`: jump.
    Jump { nnn: u16 },
    /// `2NNN`: push the post-fetch program counter, then jump.
    CallSub { nnn: u16 },
    /// `3XNN`: skip the next instruction if `VX == NN`.
    SkipEqImm { x: u8, nn: u8 },
    /// `4XNN`: skip the next instruction if `VX != NN`.
    SkipNeImm { x: u8, nn: u8 },
    /// `5XY0`: skip the next instruction if `VX == VY`.
    SkipEqReg { x: u8, y: u8 },
    /// `6XNN`: `VX <- NN`.
    SetImm { x: u8, nn: u8 },
    /// `7XNN`: `VX <- VX + NN`, wrapping, no flag.
    AddImm { x: u8, nn: u8 },
    /// `8XY0`: `VX <- VY`.
    Copy { x: u8, y: u8 },
    /// `8XY1`: `VX <- VX | VY`.
    BitOr { x: u8, y: u8 },
    /// `8XY2`: `VX <- VX & VY`.
    BitAnd { x: u8, y: u8 },
    /// `8XY3`: `VX <- VX ^ VY`.
    BitXor { x: u8, y: u8 },
    /// `8XY4`: `VX <- VX + VY` wrapping; `VF` is the carry.
    AddReg { x: u8, y: u8 },
    /// `8XY5`: `VX <- VX - VY` wrapping; `VF = 1` means no borrow.
    SubReg { x: u8, y: u8 },
    /// `8XY6`: `VF` gets the low bit of `VX`; `VX <- VX >> 1`.
    ShiftRight { x: u8 },
    /// `8XY7`: `VX <- VY - VX` wrapping; `VF = 1` means no borrow.
    SubFrom { x: u8, y: u8 },
    /// `8XYE`: `VF` gets the high bit of `VX`; `VX <- VX << 1`.
    ShiftLeft { x: u8 },
    /// `9XY0`: skip the next instruction if `VX != VY`.
    SkipNeReg { x: u8, y: u8 },
    /// `ANNN`: `I <- NNN`.
    SetIndex { nnn: u16 },
    /// `BNNN`: jump to `V0 + NNN`.
    JumpPlusV0 { nnn: u16 },
    /// `CXNN`: `VX <-` a uniform random byte masked with `NN`.
    Random { x: u8, nn: u8 },
    /// `DXYN`: draw the 8-wide, `N`-tall sprite at `memory[I..I+N]` at
    /// `(VX mod 64, VY mod 32)`, XOR-combined and clipped; `VF` reports
    /// collisions.
    DrawSprite { x: u8, y: u8, n: u8 },
    /// `EX9E`: skip the next instruction if key `VX` is pressed.
    SkipIfKey { x: u8 },
    /// `EXA1`: skip the next instruction if key `VX` is not pressed.
    SkipIfNotKey { x: u8 },
    /// `FX07`: `VX <-` delay timer.
    ReadDelay { x: u8 },
    /// `FX0A`: suspend until a key-press lands in `VX`.
    WaitKey { x: u8 },
    /// `FX15`: delay timer `<- VX`.
    SetDelay { x: u8 },
    /// `FX18`: sound timer `<- VX`.
    SetSound { x: u8 },
    /// `FX1E`: `I <- I + VX`, wrapping, no flag.
    AddIndex { x: u8 },
    /// `FX29`: `I <-` the font glyph address for the low nibble of `VX`.
    FontAddr { x: u8 },
    /// `FX33`: the three decimal digits of `VX` into `memory[I..I+3]`.
    StoreBcd { x: u8 },
    /// `FX55`: store `V0..VX` inclusive into memory at `I`.
    StoreRegs { x: u8 },
    /// `FX65`: load `V0..VX` inclusive from memory at `I`.
    LoadRegs { x: u8 },
}

/// Every register index and immediate of a decoded instruction fits its
/// 4-bit or 12-bit field.
pub open spec fn instr_wf(instr: Instr) -> bool {
    match instr {
        Instr::ClearScreen => true,
        Instr::Return => true,
        Instr::Jump { nnn } => nnn < 4096,
        Instr::CallSub { nnn } => nnn < 4096,
        Instr::SkipEqImm { x, nn } => x < 16,
        Instr::SkipNeImm { x, nn } => x < 16,
        Instr::SkipEqReg { x, y } => x < 16 && y < 16,
        Instr::SetImm { x, nn } => x < 16,
        Instr::AddImm { x, nn } => x < 16,
        Instr::Copy { x, y } => x < 16 && y < 16,
        Instr::BitOr { x, y } => x < 16 && y < 16,
        Instr::BitAnd { x, y } => x < 16 && y < 16,
        Instr::BitXor { x, y } => x < 16 && y < 16,
        Instr::AddReg { x, y } => x < 16 && y < 16,
        Instr::SubReg { x, y } => x < 16 && y < 16,
        Instr::ShiftRight { x } => x < 16,
        Instr::SubFrom { x, y } => x < 16 && y < 16,
        Instr::ShiftLeft { x } => x < 16,
        Instr::SkipNeReg { x, y } => x < 16 && y < 16,
        Instr::SetIndex { nnn } => nnn < 4096,
        Instr::JumpPlusV0 { nnn } => nnn < 4096,
        Instr::Random { x, nn } => x < 16,
        Instr::DrawSprite { x, y, n } => x < 16 && y < 16 && n < 16,
        Instr::SkipIfKey { x } => x < 16,
        Instr::SkipIfNotKey { x } => x < 16,
        Instr::ReadDelay { x } => x < 16,
        Instr::WaitKey { x } => x < 16,
        Instr::SetDelay { x } => x < 16,
        Instr::SetSound { x } => x < 16,
        Instr::AddIndex { x } => x < 16,
        Instr::FontAddr { x } => x < 16,
        Instr::StoreBcd { x } => x < 16,
        Instr::StoreRegs { x } => x < 16,
        Instr::LoadRegs { x } => x < 16,
    }
}

/// The `X` register index of an instruction word: bits `[11:8]`.
pub open spec fn op_x(op: u16) -> u8 {
    ((op & 0x0F00) >> 8u16) as u8
}

/// The `Y` register index of an instruction word: bits `[7:4]`.
pub open spec fn op_y(op: u16) -> u8 {
    ((op & 0x00F0) >> 4u16) as u8
}

/// The 4-bit immediate of an instruction word: bits `[3:0]`.
pub open spec fn op_n(op: u16) -> u8 {
    (op & 0x000F) as u8
}

/// The 8-bit immediate of an instruction word: bits `[7:0]`.
pub open spec fn op_nn(op: u16) -> u8 {
    (op & 0x00FF) as u8
}

/// The 12-bit address of an instruction word: bits `[11:0]`.
pub open spec fn op_nnn(op: u16) -> u16 {
    op & 0x0FFF
}

proof fn lemma_fields(op: u16)
    by (bit_vector)
    ensures
        (op & 0x0F00) >> 8u16 < 16,
        (op & 0x00F0) >> 4u16 < 16,
        op & 0x000F < 16,
        op & 0x00FF < 256,
        op & 0x0FFF < 4096,
{
}

/// What an instruction word decodes to, if anything.
pub open spec fn spec_decode(op: u16) -> Option<Instr> {
    let code = op & 0xF000;
    let x = op_x(op);
    let y = op_y(op);
    let n = op_n(op);
    let nn = op_nn(op);
    let nnn = op_nnn(op);
    if code == 0x0000 {
        if op == 0x00E0 {
            Some(Instr::ClearScreen)
        } else if op == 0x00EE {
            Some(Instr::Return)
        } else {
            None
        }
    } else if code == 0x1000 {
        Some(Instr::Jump { nnn })
    } else if code == 0x2000 {
        Some(Instr::CallSub { nnn })
    } else if code == 0x3000 {
        Some(Instr::SkipEqImm { x, nn })
    } else if code == 0x4000 {
        Some(Instr::SkipNeImm { x, nn })
    } else if code == 0x5000 {
        if n == 0 {
            Some(Instr::SkipEqReg { x, y })
        } else {
            None
        }
    } else if code == 0x6000 {
        Some(Instr::SetImm { x, nn })
    } else if code == 0x7000 {
        Some(Instr::AddImm { x, nn })
    } else if code == 0x8000 {
        if n == 0x0 {
            Some(Instr::Copy { x, y })
        } else if n == 0x1 {
            Some(Instr::BitOr { x, y })
        } else if n == 0x2 {
            Some(Instr::BitAnd { x, y })
        } else if n == 0x3 {
            Some(Instr::BitXor { x, y })
        } else if n == 0x4 {
            Some(Instr::AddReg { x, y })
        } else if n == 0x5 {
            Some(Instr::SubReg { x, y })
        } else if n == 0x6 {
            Some(Instr::ShiftRight { x })
        } else if n == 0x7 {
            Some(Instr::SubFrom { x, y })
        } else if n == 0xE {
            Some(Instr::ShiftLeft { x })
        } else {
            None
        }
    } else if code == 0x9000 {
        if n == 0 {
            Some(Instr::SkipNeReg { x, y })
        } else {
            None
        }
    } else if code == 0xA000 {
        Some(Instr::SetIndex { nnn })
    } else if code == 0xB000 {
        Some(Instr::JumpPlusV0 { nnn })
    } else if code == 0xC000 {
        Some(Instr::Random { x, nn })
    } else if code == 0xD000 {
        Some(Instr::DrawSprite { x, y, n })
    } else if code == 0xE000 {
        if nn == 0x9E {
            Some(Instr::SkipIfKey { x })
        } else if nn == 0xA1 {
            Some(Instr::SkipIfNotKey { x })
        } else {
            None
        }
    } else if code == 0xF000 {
        if nn == 0x07 {
            Some(Instr::ReadDelay { x })
        } else if nn == 0x0A {
            Some(Instr::WaitKey { x })
        } else if nn == 0x15 {
            Some(Instr::SetDelay { x })
        } else if nn == 0x18 {
            Some(Instr::SetSound { x })
        } else if nn == 0x1E {
            Some(Instr::AddIndex { x })
        } else if nn == 0x29 {
            Some(Instr::FontAddr { x })
        } else if nn == 0x33 {
            Some(Instr::StoreBcd { x })
        } else if nn == 0x55 {
            Some(Instr::StoreRegs { x })
        } else if nn == 0x65 {
            Some(Instr::LoadRegs { x })
        } else {
            None
        }
    } else {
        None
    }
}

/// A word that decodes at all decodes to a well-formed instruction.
pub proof fn lemma_decode_wf(op: u16)
    ensures
        spec_decode(op) matches Some(instr) ==> instr_wf(instr),
{
    lemma_fields(op);
}

/// Decodes one instruction word, or reports that it matches no defined
/// pattern.
pub fn decode_opcode(opcode: u16) -> (r: Option<Instr>)
    ensures
        r == spec_decode(opcode),
        r matches Some(instr) ==> instr_wf(instr),
{
    proof {
        lemma_decode_wf(opcode);
    }
    let code: u16 = opcode & 0xF000;
    let x: u8 = ((opcode & 0x0F00) >> 8u16) as u8;
    let y: u8 = ((opcode & 0x00F0) >> 4u16) as u8;
    let n: u8 = (opcode & 0x000F) as u8;
    let nn: u8 = (opcode & 0x00FF) as u8;
    let nnn: u16 = opcode & 0x0FFF;
    if code == 0x0000 {
        if opcode == 0x00E0 {
            Some(Instr::ClearScreen)
        } else if opcode == 0x00EE {
            Some(Instr::Return)
        } else {
            None
        }
    } else if code == 0x1000 {
        Some(Instr::Jump { nnn })
    } else if code == 0x2000 {
        Some(Instr::CallSub { nnn })
    } else if code == 0x3000 {
        Some(Instr::SkipEqImm { x, nn })
    } else if code == 0x4000 {
        Some(Instr::SkipNeImm { x, nn })
    } else if code == 0x5000 {
        if n == 0 {
            Some(Instr::SkipEqReg { x, y })
        } else {
            None
        }
    } else if code == 0x6000 {
        Some(Instr::SetImm { x, nn })
    } else if code == 0x7000 {
        Some(Instr::AddImm { x, nn })
    } else if code == 0x8000 {
        if n == 0x0 {
            Some(Instr::Copy { x, y })
        } else if n == 0x1 {
            Some(Instr::BitOr { x, y })
        } else if n == 0x2 {
            Some(Instr::BitAnd { x, y })
        } else if n == 0x3 {
            Some(Instr::BitXor { x, y })
        } else if n == 0x4 {
            Some(Instr::AddReg { x, y })
        } else if n == 0x5 {
            Some(Instr::SubReg { x, y })
        } else if n == 0x6 {
            Some(Instr::ShiftRight { x })
        } else if n == 0x7 {
            Some(Instr::SubFrom { x, y })
        } else if n == 0xE {
            Some(Instr::ShiftLeft { x })
        } else {
            None
        }
    } else if code == 0x9000 {
        if n == 0 {
            Some(Instr::SkipNeReg { x, y })
        } else {
            None
        }
    } else if code == 0xA000 {
        Some(Instr::SetIndex { nnn })
    } else if code == 0xB000 {
        Some(Instr::JumpPlusV0 { nnn })
    } else if code == 0xC000 {
        Some(Instr::Random { x, nn })
    } else if code == 0xD000 {
        Some(Instr::DrawSprite { x, y, n })
    } else if code == 0xE000 {
        if nn == 0x9E {
            Some(Instr::SkipIfKey { x })
        } else if nn == 0xA1 {
            Some(Instr::SkipIfNotKey { x })
        } else {
            None
        }
    } else if code == 0xF000 {
        if nn == 0x07 {
            Some(Instr::ReadDelay { x })
        } else if nn == 0x0A {
            Some(Instr::WaitKey { x })
        } else if nn == 0x15 {
            Some(Instr::SetDelay { x })
        } else if nn == 0x18 {
            Some(Instr::SetSound { x })
        } else if nn == 0x1E {
            Some(Instr::AddIndex { x })
        } else if nn == 0x29 {
            Some(Instr::FontAddr { x })
        } else if nn == 0x33 {
            Some(Instr::StoreBcd { x })
        } else if nn == 0x55 {
            Some(Instr::StoreRegs { x })
        } else if nn == 0x65 {
            Some(Instr::LoadRegs { x })
        } else {
            None
        }
    } else {
        None
    }
}

/// Decodes every aligned instruction word of program memory, from the load
/// address `0x200` to the end: entry `k` is what the word at `0x200 + 2k`
/// decodes to.
pub fn dump_opcodes(cpu: &CPU) -> (r: Vec<Option<Instr>>)
    requires
        cpu.wf(),
    ensures
        r@.len() == 1792,
        forall|k: int|
            0 <= k < 1792 ==> r@[k] == spec_decode(word_at(cpu@.mem, 0x200 + 2 * k)),
{
    let mut r: Vec<Option<Instr>> = Vec::new();
    let mut k: usize = 0;
    while k < 1792
        invariant
            cpu.wf(),
            k <= 1792,
            r@.len() == k,
            forall|j: int|
                0 <= j < k ==> r@[j] == spec_decode(word_at(cpu@.mem, 0x200 + 2 * j)),
        decreases 1792 - k,
    {
        let addr: u16 = (0x200 + 2 * k) as u16;
        let word = match read_mem_word(&cpu.memory, addr) {
            Some(w) => w,
            None => 0,  // unreachable: every aligned word below 0xFFE is in bounds
        };
        r.push(decode_opcode(word));
        k = k + 1;
    }
    r
}

} // verus!
