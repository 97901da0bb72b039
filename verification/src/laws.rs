//! Laws of the interpreter, proved once for every machine state.
//!
//! Each proof function here relates several operations of the machine —
//! properties that no single contract states on its own.

use vstd::prelude::*;

use crate::exec::{spec_cycle, spec_execute};
use crate::instr::Instr;
use crate::state::{spec_key_event, Chip8Error, Chip8View, CpuState};

verus! {

/// Law: for every machine, register `X` and immediate `NN`, executing `6XNN`
/// and then `7XNN` leaves `VX == (NN + NN) mod 256`, and the flag register is
/// untouched whenever it is not itself the target — for `X = 0xF` the two
/// instructions write `VF` directly, so nothing is said of it there.
pub proof fn lemma_set_then_add(m: Chip8View, x: u8, nn: u8, r1: u8, r2: u8)
    requires
        m.wf(),
        x < 16,
    ensures
        spec_execute(m, Instr::SetImm { x, nn }, r1) is Ok,
        ({
            let m1 = spec_execute(m, Instr::SetImm { x, nn }, r1).unwrap();
            spec_execute(m1, Instr::AddImm { x, nn }, r2) is Ok
        }),
        ({
            let m1 = spec_execute(m, Instr::SetImm { x, nn }, r1).unwrap();
            let m2 = spec_execute(m1, Instr::AddImm { x, nn }, r2).unwrap();
            &&& m2.v[x as int] == (nn + nn) % 256
            &&& (x != 15 ==> m2.v[15] == m.v[15])
        }),
{
}

/// Law: while the machine waits for a key, a cycle is a no-op — the program
/// counter does not advance, and nothing at all changes — whatever byte the
/// random-number source would supply.
pub proof fn lemma_wait_suspends(m: Chip8View, rnd: u8)
    requires
        m.state matches CpuState::WaitingForKey { .. },
    ensures
        spec_cycle(m, rnd) == Ok::<Chip8View, Chip8Error>(m),
{
}

/// Law: a key press delivered while the machine waits for one writes the
/// key's value into the register that triggered the wait and resumes normal
/// execution; the program counter, memory and every other register keep
/// their values.
pub proof fn lemma_key_resolves_wait(m: Chip8View, x: u8, k: u8)
    requires
        m.wf(),
        m.state == (CpuState::WaitingForKey { x }),
        k < 16,
    ensures
        ({
            let m1 = spec_key_event(m, k, true);
            &&& m1.state == CpuState::Executing
            &&& m1.v[x as int] == k
            &&& m1.pc == m.pc
            &&& m1.mem == m.mem
            &&& forall|j: int| 0 <= j < 16 && j != x ==> m1.v[j] == m.v[j]
        }),
{
}

/// Law: a key release never resolves a wait — the machine keeps waiting, and
/// only the key latch changes.
pub proof fn lemma_release_keeps_waiting(m: Chip8View, k: u8)
    requires
        m.wf(),
        m.state matches CpuState::WaitingForKey { .. },
        k < 16,
    ensures
        spec_key_event(m, k, false).state == m.state,
        spec_key_event(m, k, false).v == m.v,
        spec_key_event(m, k, false).pc == m.pc,
{
}

/// Law: `FX55` storing `V0..VX` to memory at `I`, followed by `FX65` loading
/// `V0..VX` from the same `I` — whatever the register file holds in between —
/// restores the original values of `V0..VX`.
pub proof fn lemma_store_load_roundtrip(m: Chip8View, x: u8, w: Seq<u8>, r1: u8, r2: u8)
    requires
        m.wf(),
        x < 16,
        w.len() == 16,
        m.i + x + 1 <= 4096,
    ensures
        spec_execute(m, Instr::StoreRegs { x }, r1) is Ok,
        ({
            let m1 = spec_execute(m, Instr::StoreRegs { x }, r1).unwrap();
            let m2 = Chip8View { v: w, ..m1 };
            spec_execute(m2, Instr::LoadRegs { x }, r2) is Ok
        }),
        ({
            let m1 = spec_execute(m, Instr::StoreRegs { x }, r1).unwrap();
            let m2 = Chip8View { v: w, ..m1 };
            let m3 = spec_execute(m2, Instr::LoadRegs { x }, r2).unwrap();
            forall|j: int| 0 <= j <= x ==> #[trigger] m3.v[j] == m.v[j]
        }),
{
    let m1 = spec_execute(m, Instr::StoreRegs { x }, r1).unwrap();
    let m2 = Chip8View { v: w, ..m1 };
    let m3 = spec_execute(m2, Instr::LoadRegs { x }, r2).unwrap();
    assert forall|j: int| 0 <= j <= x implies #[trigger] m3.v[j] == m.v[j] by {
        assert(m1.mem[m.i + j] == m.v[j]);
    }
}

} // verus!
