//! The machine state of the CHIP-8 virtual machine and its accessors.
//!
//! The state owns no decoding logic: it holds the 4096 bytes of memory, the
//! sixteen 8-bit registers `V0..VF`, the address register `I`, the program
//! counter, the call stack, the two countdown timers, the 64x32 monochrome
//! framebuffer, the 16-key latch and the execution-state tag.

use vstd::prelude::*;

verus! {

/// The sixteen keys of the CHIP-8 hexadecimal keypad.
#[derive(Clone, Copy, PartialEq, Eq, Structural, Debug)]
pub enum ChipKey {
    K0,
    K1,
    K2,
    K3,
    K4,
    K5,
    K6,
    K7,
    K8,
    K9,
    KA,
    KB,
    KC,
    KD,
    KE,
    KF,
}

/// Whether the machine is running normally or suspended until a key-press
/// writes the pressed key into register `x`.
#[derive(Clone, Copy, PartialEq, Eq, Structural, Debug)]
pub enum CpuState {
    Executing,
    WaitingForKey { x: u8 },
}

/// Every way a run can fail: a rejected ROM, an undecodable instruction word,
/// a memory access outside the 4096 bytes, or a call-stack violation.
#[derive(Clone, Copy, PartialEq, Eq, Structural, Debug)]
pub enum Chip8Error {
    RomTooLarge,
    UnknownOpcode { opcode: u16 },
    MemoryOutOfBounds,
    StackUnderflow,
    StackOverflow,
}

/// The mathematical model of the machine state: what every contract of this
/// crate speaks about.
#[verifier::ext_equal]
pub struct Chip8View {
    pub mem: Seq<u8>,
    pub v: Seq<u8>,
    pub i: u16,
    pub pc: u16,
    pub gfx: Seq<u8>,
    pub delay: u8,
    pub sound: u8,
    pub stack: Seq<u16>,
    pub keys: Seq<bool>,
    pub draw_flag: bool,
    pub state: CpuState,
}

impl Chip8View {
    /// Well-formedness: the sizes are fixed for the lifetime of the machine,
    /// every framebuffer cell is a 0/1 pixel, the call stack holds at most 16
    /// return addresses, and a pending key-wait targets a real register.
    pub open spec fn wf(self) -> bool {
        &&& self.mem.len() == 4096
        &&& self.v.len() == 16
        &&& self.gfx.len() == 2048
        &&& (forall|p: int| 0 <= p < 2048 ==> self.gfx[p] <= 1)
        &&& self.stack.len() <= 16
        &&& self.keys.len() == 16
        &&& match self.state {
            CpuState::WaitingForKey { x } => x < 16,
            CpuState::Executing => true,
        }
    }
}

/// The CHIP-8 machine state.
pub struct CPU {
    pub memory: Vec<u8>,
    pub v: Vec<u8>,
    pub i: u16,
    pub pc: u16,
    pub gfx: Vec<u8>,
    pub delay_timer: u8,
    pub sound_timer: u8,
    pub stack: Vec<u16>,
    pub keys: Vec<bool>,
    pub draw_flag: bool,
    pub state: CpuState,
}

impl View for CPU {
    type V = Chip8View;

    open spec fn view(&self) -> Chip8View {
        Chip8View {
            mem: self.memory@,
            v: self.v@,
            i: self.i,
            pc: self.pc,
            gfx: self.gfx@,
            delay: self.delay_timer,
            sound: self.sound_timer,
            stack: self.stack@,
            keys: self.keys@,
            draw_flag: self.draw_flag,
            state: self.state,
        }
    }
}

/// The built-in font: 16 glyphs of 5 bytes each, one per hexadecimal digit.
pub open spec fn font_seq() -> Seq<u8> {
    seq![
        0xF0u8, 0x90, 0x90, 0x90, 0xF0, // 0
        0x20, 0x60, 0x20, 0x20, 0x70, // 1
        0xF0, 0x10, 0xF0, 0x80, 0xF0, // 2
        0xF0, 0x10, 0xF0, 0x10, 0xF0, // 3
        0x90, 0x90, 0xF0, 0x10, 0x10, // 4
        0xF0, 0x80, 0xF0, 0x10, 0xF0, // 5
        0xF0, 0x80, 0xF0, 0x90, 0xF0, // 6
        0xF0, 0x10, 0x20, 0x40, 0x40, // 7
        0xF0, 0x90, 0xF0, 0x90, 0xF0, // 8
        0xF0, 0x90, 0xF0, 0x10, 0xF0, // 9
        0xF0, 0x90, 0xF0, 0x90, 0x90, // A
        0xE0, 0x90, 0xE0, 0x90, 0xE0, // B
        0xF0, 0x80, 0x80, 0x80, 0xF0, // C
        0xE0, 0x90, 0x90, 0x90, 0xE0, // D
        0xF0, 0x80, 0xF0, 0x80, 0xF0, // E
        0xF0, 0x80, 0xF0, 0x80, 0x80, // F
    ]
}

/// Appends the 5 rows of one font glyph.
fn push_glyph(rows: &mut Vec<u8>, r0: u8, r1: u8, r2: u8, r3: u8, r4: u8)
    ensures
        final(rows)@ == old(rows)@ + seq![r0, r1, r2, r3, r4],
{
    rows.push(r0);
    rows.push(r1);
    rows.push(r2);
    rows.push(r3);
    rows.push(r4);
    proof {
        assert(rows@ =~= old(rows)@ + seq![r0, r1, r2, r3, r4]);
    }
}

/// The font table as an executable vector of its 80 bytes.
pub fn font_table() -> (r: Vec<u8>)
    ensures
        r@ == font_seq(),
{
    let mut r: Vec<u8> = Vec::new();
    push_glyph(&mut r, 0xF0, 0x90, 0x90, 0x90, 0xF0);
    push_glyph(&mut r, 0x20, 0x60, 0x20, 0x20, 0x70);
    push_glyph(&mut r, 0xF0, 0x10, 0xF0, 0x80, 0xF0);
    push_glyph(&mut r, 0xF0, 0x10, 0xF0, 0x10, 0xF0);
    push_glyph(&mut r, 0x90, 0x90, 0xF0, 0x10, 0x10);
    push_glyph(&mut r, 0xF0, 0x80, 0xF0, 0x10, 0xF0);
    push_glyph(&mut r, 0xF0, 0x80, 0xF0, 0x90, 0xF0);
    push_glyph(&mut r, 0xF0, 0x10, 0x20, 0x40, 0x40);
    push_glyph(&mut r, 0xF0, 0x90, 0xF0, 0x90, 0xF0);
    push_glyph(&mut r, 0xF0, 0x90, 0xF0, 0x10, 0xF0);
    push_glyph(&mut r, 0xF0, 0x90, 0xF0, 0x90, 0x90);
    push_glyph(&mut r, 0xE0, 0x90, 0xE0, 0x90, 0xE0);
    push_glyph(&mut r, 0xF0, 0x80, 0x80, 0x80, 0xF0);
    push_glyph(&mut r, 0xE0, 0x90, 0x90, 0x90, 0xE0);
    push_glyph(&mut r, 0xF0, 0x80, 0xF0, 0x80, 0xF0);
    push_glyph(&mut r, 0xF0, 0x80, 0xF0, 0x80, 0x80);
    proof {
        assert(r@ =~= font_seq());
    }
    r
}

/// The numeric value 0x0..0xF of a keypad key.
pub open spec fn key_value(key: ChipKey) -> u8 {
    match key {
        ChipKey::K0 => 0,
        ChipKey::K1 => 1,
        ChipKey::K2 => 2,
        ChipKey::K3 => 3,
        ChipKey::K4 => 4,
        ChipKey::K5 => 5,
        ChipKey::K6 => 6,
        ChipKey::K7 => 7,
        ChipKey::K8 => 8,
        ChipKey::K9 => 9,
        ChipKey::KA => 10,
        ChipKey::KB => 11,
        ChipKey::KC => 12,
        ChipKey::KD => 13,
        ChipKey::KE => 14,
        ChipKey::KF => 15,
    }
}

impl ChipKey {
    /// The keypad value this key stands for.
    pub fn value(&self) -> (r: u8)
        ensures
            r == key_value(*self),
            r < 16,
    {
        match *self {
            ChipKey::K0 => 0,
            ChipKey::K1 => 1,
            ChipKey::K2 => 2,
            ChipKey::K3 => 3,
            ChipKey::K4 => 4,
            ChipKey::K5 => 5,
            ChipKey::K6 => 6,
            ChipKey::K7 => 7,
            ChipKey::K8 => 8,
            ChipKey::K9 => 9,
            ChipKey::KA => 10,
            ChipKey::KB => 11,
            ChipKey::KC => 12,
            ChipKey::KD => 13,
            ChipKey::KE => 14,
            ChipKey::KF => 15,
        }
    }
}

/// The big-endian 16-bit word formed by the bytes at `a` and `a + 1`.
pub open spec fn word_at(mem: Seq<u8>, a: int) -> u16 {
    (mem[a] * 256 + mem[a + 1]) as u16
}

proof fn lemma_word_bits(hi: u16, lo: u16)
    by (bit_vector)
    requires
        hi < 256,
        lo < 256,
    ensures
        ((hi << 8u16) | lo) == hi * 256 + lo,
{
}

/// Reads the big-endian word at `addr`, or nothing when the word would reach
/// past the end of memory.
pub fn read_mem_word(memory: &Vec<u8>, addr: u16) -> (r: Option<u16>)
    ensures
        addr as int + 1 < memory@.len() ==> r == Some(word_at(memory@, addr as int)),
        addr as int + 1 >= memory@.len() ==> r is None,
{
    if (addr as usize) + 1 < memory.len() {
        let hi: u8 = memory[addr as usize];
        let lo: u8 = memory[(addr as usize) + 1];
        proof {
            lemma_word_bits(hi as u16, lo as u16);
        }
        Some(((hi as u16) << 8u16) | (lo as u16))
    } else {
        None
    }
}

/// A countdown timer's value after one 60 Hz tick.
pub open spec fn ticked(t: u8) -> u8 {
    if t > 0 {
        (t - 1) as u8
    } else {
        0
    }
}

/// The memory image after the font table is installed in its reserved region
/// `0x50..0xA0`.
pub open spec fn with_font(mem: Seq<u8>) -> Seq<u8> {
    Seq::new(4096, |a: int| if 0x50 <= a < 0xA0 { font_seq()[a - 0x50] } else { mem[a] })
}

/// The memory image after `rom` is copied in starting at `0x200`.
pub open spec fn with_rom(mem: Seq<u8>, rom: Seq<u8>) -> Seq<u8> {
    Seq::new(4096, |a: int| if 0x200 <= a < 0x200 + rom.len() { rom[a - 0x200] } else { mem[a] })
}

/// The state after a key event: the latch for key `k` is set to `pressed`,
/// and a pending key-wait is resolved — `k` is written into the register that
/// triggered the wait and execution resumes — when, and only when, the key
/// went down.
pub open spec fn spec_key_event(m: Chip8View, k: u8, pressed: bool) -> Chip8View {
    let m1 = Chip8View { keys: m.keys.update(k as int, pressed), ..m };
    match m.state {
        CpuState::WaitingForKey { x } => {
            if pressed {
                Chip8View { v: m1.v.update(x as int, k), state: CpuState::Executing, ..m1 }
            } else {
                m1
            }
        },
        CpuState::Executing => m1,
    }
}

/// A vector holding `n` copies of `val`.
fn filled<T: Copy>(val: T, n: usize) -> (r: Vec<T>)
    ensures
        r@ == Seq::new(n as nat, |j: int| val),
{
    let mut r: Vec<T> = Vec::new();
    let mut k: usize = 0;
    while k < n
        invariant
            k <= n,
            r@ =~= Seq::new(k as nat, |j: int| val),
        decreases n - k,
    {
        r.push(val);
        k = k + 1;
    }
    proof {
        assert(r@ =~= Seq::new(n as nat, |j: int| val));
    }
    r
}

impl CPU {
    /// Well-formedness of the concrete machine, stated over its model.
    pub open spec fn wf(&self) -> bool {
        self@.wf()
    }

    /// The model of a freshly created machine: everything zeroed, no key
    /// pressed, the stack empty, execution not yet begun.
    pub open spec fn init_view() -> Chip8View {
        Chip8View {
            mem: Seq::new(4096, |a: int| 0u8),
            v: Seq::new(16, |j: int| 0u8),
            i: 0,
            pc: 0,
            gfx: Seq::new(2048, |p: int| 0u8),
            delay: 0,
            sound: 0,
            stack: Seq::empty(),
            keys: Seq::new(16, |k: int| false),
            draw_flag: false,
            state: CpuState::Executing,
        }
    }

    /// Creates a zero-initialized machine.
    pub fn new() -> (cpu: CPU)
        ensures
            cpu.wf(),
            cpu@ == Self::init_view(),
    {
        let cpu = CPU {
            memory: filled(0u8, 4096),
            v: filled(0u8, 16),
            i: 0,
            pc: 0,
            gfx: filled(0u8, 2048),
            delay_timer: 0,
            sound_timer: 0,
            stack: Vec::new(),
            keys: filled(false, 16),
            draw_flag: false,
            state: CpuState::Executing,
        };
        proof {
            assert(cpu@ =~= Self::init_view());
        }
        cpu
    }

    /// Resets the program counter to the conventional load address `0x200`,
    /// clears the address register and the call stack, and installs the font
    /// table into its reserved memory region.
    pub fn initialize(&mut self)
        requires
            old(self).wf(),
        ensures
            final(self).wf(),
            final(self)@ == (Chip8View {
                pc: 0x200,
                i: 0,
                stack: Seq::empty(),
                mem: with_font(old(self)@.mem),
                ..old(self)@
            }),
    {
        self.pc = 0x200;
        self.i = 0;
        self.stack = Vec::new();
        let ghost m0 = self@;
        let font = font_table();
        let mut k: usize = 0;
        while k < 80
            invariant
                k <= 80,
                font@ == font_seq(),
                self@ == (Chip8View { mem: self.memory@, ..m0 }),
                self.memory@.len() == 4096,
                forall|a: int|
                    0 <= a < 4096 ==> self.memory@[a] == (if 0x50 <= a < 0x50 + k {
                        font_seq()[a - 0x50]
                    } else {
                        m0.mem[a]
                    }),
            decreases 80 - k,
        {
            self.memory.set(0x50 + k, font[k]);
            k = k + 1;
        }
        proof {
            assert(self.memory@ =~= with_font(old(self)@.mem));
            assert(self@ =~= (Chip8View {
                pc: 0x200,
                i: 0,
                stack: Seq::empty(),
                mem: with_font(old(self)@.mem),
                ..old(self)@
            }));
        }
    }

    /// Copies a ROM's raw bytes into memory starting at `0x200`; a ROM larger
    /// than the `3584` bytes of memory left above the load address is
    /// rejected untouched.
    pub fn load_program(&mut self, bytes: &Vec<u8>) -> (r: Result<(), Chip8Error>)
        requires
            old(self).wf(),
        ensures
            final(self).wf(),
            bytes@.len() > 3584 ==> r == Err::<(), Chip8Error>(Chip8Error::RomTooLarge)
                && final(self)@ == old(self)@,
            bytes@.len() <= 3584 ==> r is Ok && final(self)@ == (Chip8View {
                mem: with_rom(old(self)@.mem, bytes@),
                ..old(self)@
            }),
    {
        if bytes.len() > 3584 {
            return Err(Chip8Error::RomTooLarge);
        }
        let ghost m0 = self@;
        let n: usize = bytes.len();
        let mut k: usize = 0;
        while k < n
            invariant
                k <= n,
                n == bytes@.len() <= 3584,
                self@ == (Chip8View { mem: self.memory@, ..m0 }),
                self.memory@.len() == 4096,
                forall|a: int|
                    0 <= a < 4096 ==> self.memory@[a] == (if 0x200 <= a < 0x200 + k {
                        bytes@[a - 0x200]
                    } else {
                        m0.mem[a]
                    }),
            decreases n - k,
        {
            self.memory.set(0x200 + k, bytes[k]);
            k = k + 1;
        }
        proof {
            assert(self.memory@ =~= with_rom(old(self)@.mem, bytes@));
            assert(self@ =~= (Chip8View { mem: with_rom(old(self)@.mem, bytes@), ..old(self)@ }));
        }
        Ok(())
    }

    /// Clears every framebuffer pixel to 0 and marks the framebuffer dirty.
    pub fn clear_display(&mut self)
        requires
            old(self).wf(),
        ensures
            final(self).wf(),
            final(self)@ == (Chip8View {
                gfx: Seq::new(2048, |p: int| 0u8),
                draw_flag: true,
                ..old(self)@
            }),
    {
        self.gfx = filled(0u8, 2048);
        self.draw_flag = true;
        proof {
            assert(self@ =~= (Chip8View {
                gfx: Seq::new(2048, |p: int| 0u8),
                draw_flag: true,
                ..old(self)@
            }));
        }
    }

    /// One 60 Hz timer tick: each timer counts down toward 0; the result says
    /// whether the sound timer just ran out, which signals one beep to the
    /// audio collaborator.
    pub fn update_timers(&mut self) -> (beep: bool)
        ensures
            final(self)@ == (Chip8View {
                delay: ticked(old(self)@.delay),
                sound: ticked(old(self)@.sound),
                ..old(self)@
            }),
            beep == (old(self)@.sound == 1),
    {
        let beep: bool = self.sound_timer == 1;
        if self.delay_timer > 0 {
            self.delay_timer = self.delay_timer - 1;
        }
        if self.sound_timer > 0 {
            self.sound_timer = self.sound_timer - 1;
        }
        proof {
            assert(self@ =~= (Chip8View {
                delay: ticked(old(self)@.delay),
                sound: ticked(old(self)@.sound),
                ..old(self)@
            }));
        }
        beep
    }

    /// Suspends execution until a key-press writes the pressed key into
    /// register `out_reg`.
    pub fn wait_for_key(&mut self, out_reg: u16)
        requires
            out_reg < 16,
        ensures
            final(self)@ == (Chip8View {
                state: (CpuState::WaitingForKey { x: out_reg as u8 }),
                ..old(self)@
            }),
    {
        self.state = CpuState::WaitingForKey { x: out_reg as u8 };
        proof {
            assert(self@ =~= (Chip8View {
                state: (CpuState::WaitingForKey { x: out_reg as u8 }),
                ..old(self)@
            }));
        }
    }

    /// Updates the key latch; a pending key-wait is resolved exactly when the
    /// key went down: the key's value lands in the waiting register and
    /// normal execution resumes.
    pub fn handle_key_event(&mut self, key: ChipKey, is_pressed: bool)
        requires
            old(self).wf(),
        ensures
            final(self).wf(),
            final(self)@ == spec_key_event(old(self)@, key_value(key), is_pressed),
    {
        let k: u8 = key.value();
        self.keys.set(k as usize, is_pressed);
        match self.state {
            CpuState::WaitingForKey { x } => {
                if is_pressed {
                    self.v.set(x as usize, k);
                    self.state = CpuState::Executing;
                }
            },
            CpuState::Executing => {},
        }
        proof {
            assert(self@ =~= spec_key_event(old(self)@, key_value(key), is_pressed));
        }
    }

    /// The flag register `VF`, which arithmetic and draw instructions use as
    /// their carry / borrow / collision output.
    pub fn flag(&self) -> (r: u8)
        requires
            self.wf(),
        ensures
            r == self@.v[15],
    {
        self.v[15]
    }

    /// General register `VX` for an index `0..16`.
    pub fn reg(&self, x: u8) -> (r: u8)
        requires
            self.wf(),
            x < 16,
        ensures
            r == self@.v[x as int],
    {
        self.v[x as usize]
    }

    /// The pixel at screen position `(x, y)`: 0 or 1.
    pub fn pixel(&self, x: u8, y: u8) -> (r: u8)
        requires
            self.wf(),
            x < 64,
            y < 32,
        ensures
            r == self@.gfx[y as int * 64 + x as int],
    {
        self.gfx[(y as usize) * 64 + (x as usize)]
    }

    /// Whether execution is suspended awaiting a key-press.
    pub fn is_waiting(&self) -> (r: bool)
        ensures
            r == (self@.state matches CpuState::WaitingForKey { .. }),
    {
        match self.state {
            CpuState::WaitingForKey { .. } => true,
            CpuState::Executing => false,
        }
    }
}

} // verus!
