use vstd::prelude::*;

verus! {

/// Size of the emulated flat physical memory: 1 MiB.
pub const MEMORY_BYTES: usize = 0x100000;

/// 16-bit registers of the 8086 that the service layer reads and writes.
#[derive(Debug, Clone, Copy, PartialEq, Eq, Structural)]
pub enum Reg {
    AX,
    BX,
    CX,
    DX,
    SI,
    DI,
    BP,
    SP,
    IP,
    CS,
    DS,
    ES,
    SS,
}

/// Half of a 16-bit general-purpose register.
#[derive(Debug, Clone, Copy, PartialEq, Eq, Structural)]
pub enum RegHalf {
    High,
    Low,
}

/// CPU flags the service layer sets: carry reports DOS errors, zero reports
/// keyboard status.
#[derive(Debug, Clone, Copy, PartialEq, Eq, Structural)]
pub enum Flag {
    Carry,
    Zero,
}

/// Mathematical state of the machine as the service layer sees it.
pub ghost struct MachineView {
    pub mem: Seq<u8>,
    pub ax: u16,
    pub bx: u16,
    pub cx: u16,
    pub dx: u16,
    pub si: u16,
    pub di: u16,
    pub bp: u16,
    pub sp: u16,
    pub ip: u16,
    pub cs: u16,
    pub ds: u16,
    pub es: u16,
    pub ss: u16,
    pub carry: bool,
    pub zero: bool,
    pub pending_interrupt: Option<u8>,
}

/// The CPU state this service layer operates on: registers, flags, the flat
/// guest memory, and the interrupt the CPU was asked to raise on its next
/// step. The instruction engine itself is an external collaborator; it hands
/// this state to the interrupt and port handlers and resumes from it.
#[derive(Debug)]
pub struct Machine {
    pub memory: Vec<u8>,
    pub ax: u16,
    pub bx: u16,
    pub cx: u16,
    pub dx: u16,
    pub si: u16,
    pub di: u16,
    pub bp: u16,
    pub sp: u16,
    pub ip: u16,
    pub cs: u16,
    pub ds: u16,
    pub es: u16,
    pub ss: u16,
    pub carry: bool,
    pub zero: bool,
    pub pending_interrupt: Option<u8>,
}

impl View for Machine {
    type V = MachineView;

    open spec fn view(&self) -> MachineView {
        MachineView {
            mem: self.memory@,
            ax: self.ax,
            bx: self.bx,
            cx: self.cx,
            dx: self.dx,
            si: self.si,
            di: self.di,
            bp: self.bp,
            sp: self.sp,
            ip: self.ip,
            cs: self.cs,
            ds: self.ds,
            es: self.es,
            ss: self.ss,
            carry: self.carry,
            zero: self.zero,
            pending_interrupt: self.pending_interrupt,
        }
    }
}

/// Two machine states that agree on everything but memory contents.
pub open spec fn same_except_mem(a: MachineView, b: MachineView) -> bool {
    a == (MachineView { mem: a.mem, ..b })
}

/// The 16-bit register `reg` in state `m`.
pub open spec fn reg16(m: MachineView, reg: Reg) -> u16 {
    match reg {
        Reg::AX => m.ax,
        Reg::BX => m.bx,
        Reg::CX => m.cx,
        Reg::DX => m.dx,
        Reg::SI => m.si,
        Reg::DI => m.di,
        Reg::BP => m.bp,
        Reg::SP => m.sp,
        Reg::IP => m.ip,
        Reg::CS => m.cs,
        Reg::DS => m.ds,
        Reg::ES => m.es,
        Reg::SS => m.ss,
    }
}

/// State `m` with the 16-bit register `reg` set to `v`.
pub open spec fn with_reg16(m: MachineView, reg: Reg, v: u16) -> MachineView {
    match reg {
        Reg::AX => MachineView { ax: v, ..m },
        Reg::BX => MachineView { bx: v, ..m },
        Reg::CX => MachineView { cx: v, ..m },
        Reg::DX => MachineView { dx: v, ..m },
        Reg::SI => MachineView { si: v, ..m },
        Reg::DI => MachineView { di: v, ..m },
        Reg::BP => MachineView { bp: v, ..m },
        Reg::SP => MachineView { sp: v, ..m },
        Reg::IP => MachineView { ip: v, ..m },
        Reg::CS => MachineView { cs: v, ..m },
        Reg::DS => MachineView { ds: v, ..m },
        Reg::ES => MachineView { es: v, ..m },
        Reg::SS => MachineView { ss: v, ..m },
    }
}

/// Only the four general-purpose registers have addressable byte halves.
pub open spec fn reg_has_half(reg: Reg) -> bool {
    reg == Reg::AX || reg == Reg::BX || reg == Reg::CX || reg == Reg::DX
}

/// High byte of a 16-bit value.
pub open spec fn hi_byte(v: u16) -> u8 {
    (v / 256) as u8
}

/// Low byte of a 16-bit value.
pub open spec fn lo_byte(v: u16) -> u8 {
    (v % 256) as u8
}

/// The byte half `half` of 16-bit value `v`.
pub open spec fn byte_half(v: u16, half: RegHalf) -> u8 {
    match half {
        RegHalf::High => hi_byte(v),
        RegHalf::Low => lo_byte(v),
    }
}

/// 16-bit value `v` with the byte half `half` replaced by `b`.
pub open spec fn with_byte_half(v: u16, half: RegHalf, b: u8) -> u16 {
    match half {
        RegHalf::High => (256 * b + lo_byte(v)) as u16,
        RegHalf::Low => (256 * hi_byte(v) + b) as u16,
    }
}

/// Little-endian word held at `addr` in memory `mem`.
pub open spec fn word_at(mem: Seq<u8>, addr: int) -> u16 {
    (mem[addr] + 256 * mem[addr + 1]) as u16
}

/// Memory `mem` with the little-endian word at `addr` replaced by `v`.
pub open spec fn with_word_at(mem: Seq<u8>, addr: int, v: u16) -> Seq<u8> {
    mem.update(addr, lo_byte(v)).update(addr + 1, hi_byte(v))
}

/// Flat 20-bit address of segment:offset.
pub open spec fn flat_addr(seg: u16, off: u16) -> u32 {
    (seg * 16 + off) as u32
}

/// Some byte at or after `addr` is a NUL terminator.
pub open spec fn has_nul_from(mem: Seq<u8>, addr: int) -> bool {
    exists|i: int| addr <= i < mem.len() && mem[i] == 0
}

/// The bytes from `addr` up to (excluding) the first NUL.
pub open spec fn nul_str_at(mem: Seq<u8>, addr: int) -> Seq<u8>
    decreases mem.len() - addr,
{
    if addr < 0 || addr >= mem.len() || mem[addr] == 0 {
        Seq::empty()
    } else {
        seq![mem[addr]] + nul_str_at(mem, addr + 1)
    }
}

impl Machine {
    /// The machine is well formed when its memory spans the whole 1 MiB
    /// address space.
    pub open spec fn inv(self) -> bool {
        self.memory@.len() == MEMORY_BYTES
    }

    /// A machine with zeroed memory, registers and flags, and no pending
    /// interrupt.
    pub fn new() -> (r: Machine)
        ensures
            r.inv(),
            r@.mem == Seq::<u8>::new(MEMORY_BYTES as nat, |i: int| 0u8),
            r@.ax == 0 && r@.bx == 0 && r@.cx == 0 && r@.dx == 0,
            r@.si == 0 && r@.di == 0 && r@.bp == 0 && r@.sp == 0,
            r@.ip == 0 && r@.cs == 0 && r@.ds == 0 && r@.es == 0 && r@.ss == 0,
            !r@.carry && !r@.zero,
            r@.pending_interrupt is None,
    {
        let mut memory: Vec<u8> = Vec::new();
        let mut i: usize = 0;
        while i < MEMORY_BYTES
            invariant
                i <= MEMORY_BYTES,
                memory@.len() == i,
                forall|j: int| 0 <= j < i ==> memory@[j] == 0u8,
            decreases MEMORY_BYTES - i,
        {
            memory.push(0);
            i += 1;
        }
        proof {
            assert(memory@ =~= Seq::<u8>::new(MEMORY_BYTES as nat, |i: int| 0u8));
        }
        Machine {
            memory,
            ax: 0,
            bx: 0,
            cx: 0,
            dx: 0,
            si: 0,
            di: 0,
            bp: 0,
            sp: 0,
            ip: 0,
            cs: 0,
            ds: 0,
            es: 0,
            ss: 0,
            carry: false,
            zero: false,
            pending_interrupt: None,
        }
    }

    pub fn get_reg_u16(&self, reg: Reg) -> (r: u16)
        ensures
            r == reg16(self@, reg),
    {
        match reg {
            Reg::AX => self.ax,
            Reg::BX => self.bx,
            Reg::CX => self.cx,
            Reg::DX => self.dx,
            Reg::SI => self.si,
            Reg::DI => self.di,
            Reg::BP => self.bp,
            Reg::SP => self.sp,
            Reg::IP => self.ip,
            Reg::CS => self.cs,
            Reg::DS => self.ds,
            Reg::ES => self.es,
            Reg::SS => self.ss,
        }
    }

    pub fn set_reg_u16(&mut self, reg: Reg, v: u16)
        ensures
            final(self)@ == with_reg16(old(self)@, reg, v),
            final(self).inv() == old(self).inv(),
    {
        match reg {
            Reg::AX => self.ax = v,
            Reg::BX => self.bx = v,
            Reg::CX => self.cx = v,
            Reg::DX => self.dx = v,
            Reg::SI => self.si = v,
            Reg::DI => self.di = v,
            Reg::BP => self.bp = v,
            Reg::SP => self.sp = v,
            Reg::IP => self.ip = v,
            Reg::CS => self.cs = v,
            Reg::DS => self.ds = v,
            Reg::ES => self.es = v,
            Reg::SS => self.ss = v,
        }
    }

    pub fn get_reg_u8(&self, reg: Reg, half: RegHalf) -> (r: u8)
        requires
            reg_has_half(reg),
        ensures
            r == byte_half(reg16(self@, reg), half),
    {
        let v = self.get_reg_u16(reg);
        match half {
            RegHalf::High => (v / 256) as u8,
            RegHalf::Low => (v % 256) as u8,
        }
    }

    pub fn set_reg_u8(&mut self, reg: Reg, half: RegHalf, b: u8)
        requires
            reg_has_half(reg),
        ensures
            final(self)@ == with_reg16(
                old(self)@,
                reg,
                with_byte_half(reg16(old(self)@, reg), half, b),
            ),
            final(self).inv() == old(self).inv(),
    {
        let v = self.get_reg_u16(reg);
        let v2: u16 = match half {
            RegHalf::High => 256 * (b as u16) + v % 256,
            RegHalf::Low => 256 * (v / 256) + b as u16,
        };
        self.set_reg_u16(reg, v2);
    }

    /// Flat address of a segment:offset pair taken from two registers.
    pub fn get_seg_reg(&self, seg: Reg, off: Reg) -> (r: u32)
        ensures
            r == flat_addr(reg16(self@, seg), reg16(self@, off)),
    {
        let s = self.get_reg_u16(seg);
        let o = self.get_reg_u16(off);
        s as u32 * 16 + o as u32
    }

    pub fn set_flag(&mut self, flag: Flag, value: bool)
        ensures
            final(self)@ == match flag {
                Flag::Carry => MachineView { carry: value, ..old(self)@ },
                Flag::Zero => MachineView { zero: value, ..old(self)@ },
            },
            final(self).inv() == old(self).inv(),
    {
        match flag {
            Flag::Carry => self.carry = value,
            Flag::Zero => self.zero = value,
        }
    }

    /// Asks the CPU to dispatch interrupt `index` before its next opcode.
    pub fn interrupt_on_next_step(&mut self, index: u8)
        ensures
            final(self)@ == (MachineView { pending_interrupt: Some(index), ..old(self)@ }),
            final(self).inv() == old(self).inv(),
    {
        self.pending_interrupt = Some(index);
    }

    pub fn peek_u8(&self, addr: u32) -> (r: u8)
        requires
            self.inv(),
            addr < MEMORY_BYTES,
        ensures
            r == self@.mem[addr as int],
    {
        self.memory[addr as usize]
    }

    pub fn poke_u8(&mut self, addr: u32, v: u8)
        requires
            old(self).inv(),
            addr < MEMORY_BYTES,
        ensures
            final(self).inv(),
            final(self)@ == (MachineView { mem: old(self)@.mem.update(addr as int, v), ..old(self)@ }),
    {
        self.memory.set(addr as usize, v);
    }

    pub fn peek_u16(&self, addr: u32) -> (r: u16)
        requires
            self.inv(),
            addr + 1 < MEMORY_BYTES,
        ensures
            r == word_at(self@.mem, addr as int),
    {
        let lo = self.memory[addr as usize];
        let hi = self.memory[addr as usize + 1];
        lo as u16 + 256 * hi as u16
    }

    pub fn poke_u16(&mut self, addr: u32, v: u16)
        requires
            old(self).inv(),
            addr + 1 < MEMORY_BYTES,
        ensures
            final(self).inv(),
            final(self)@ == (MachineView {
                mem: with_word_at(old(self)@.mem, addr as int, v),
                ..old(self)@
            }),
            word_at(final(self)@.mem, addr as int) == v,
    {
        self.memory.set(addr as usize, (v % 256) as u8);
        self.memory.set(addr as usize + 1, (v / 256) as u8);
    }

    /// The bytes at `addr` up to (excluding) the first NUL terminator.
    pub fn read_null_terminated_string(&self, addr: u32) -> (r: Vec<u8>)
        requires
            self.inv(),
            addr < MEMORY_BYTES,
            has_nul_from(self@.mem, addr as int),
        ensures
            r@ == nul_str_at(self@.mem, addr as int),
    {
        let mut r: Vec<u8> = Vec::new();
        let mut i: u32 = addr;
        loop
            invariant
                self.inv(),
                addr <= i < MEMORY_BYTES,
                has_nul_from(self@.mem, i as int),
                forall|j: int| addr <= j < i ==> self@.mem[j] != 0,
                r@ + nul_str_at(self@.mem, i as int) == nul_str_at(self@.mem, addr as int),
                r@.len() == i - addr,
            decreases MEMORY_BYTES - i,
        {
            let b = self.memory[i as usize];
            if b == 0 {
                proof {
                    assert(nul_str_at(self@.mem, i as int) =~= Seq::<u8>::empty());
                    assert(r@ =~= r@ + Seq::<u8>::empty());
                }
                return r;
            }
            proof {
                assert(nul_str_at(self@.mem, i as int) =~= seq![self@.mem[i as int]]
                    + nul_str_at(self@.mem, i as int + 1));
                assert((r@ + seq![self@.mem[i as int]]) + nul_str_at(self@.mem, i as int + 1)
                    =~= r@ + nul_str_at(self@.mem, i as int));
                // the NUL witness for position i lies strictly beyond i
                let w = choose|w: int| i <= w < self@.mem.len() && self@.mem[w] == 0;
                assert(i < w < self@.mem.len() && self@.mem[w] == 0);
            }
            r.push(b);
            i = i + 1;
        }
    }

    /// Copies `bytes` into memory starting at `at`.
    pub fn insert_contiguous_bytes(&mut self, bytes: &[u8], at: usize)
        requires
            old(self).inv(),
            at + bytes@.len() <= MEMORY_BYTES,
        ensures
            final(self).inv(),
            same_except_mem(final(self)@, old(self)@),
            forall|i: int|
                0 <= i < MEMORY_BYTES ==> final(self)@.mem[i] == (if at <= i < at + bytes@.len() {
                    bytes@[i - at]
                } else {
                    old(self)@.mem[i]
                }),
    {
        let mut i: usize = 0;
        while i < bytes.len()
            invariant
                self.inv(),
                i <= bytes@.len(),
                at + bytes@.len() <= MEMORY_BYTES,
                same_except_mem(self@, old(self)@),
                forall|j: int|
                    0 <= j < MEMORY_BYTES ==> self@.mem[j] == (if at <= j < at + i {
                        bytes@[j - at]
                    } else {
                        old(self)@.mem[j]
                    }),
            decreases bytes@.len() - i,
        {
            let b = bytes[i];
            self.memory.set(at + i, b);
            i += 1;
        }
    }
}

} // verus!
