use vstd::prelude::*;

verus! {

/// How the four logical name tables map onto the two physical ones.
#[derive(Clone, Copy, Debug, PartialEq, Eq, Structural)]
pub enum MirroringType {
    Horizontal,
    Vertical,
    FourScreens,
    ScreenAOnly,
    ScreenBOnly,
}

/// The memories that can be loaded as a block.
#[derive(Clone, Copy, Debug, PartialEq, Eq, Structural)]
pub enum MemoryType {
    /// $0000-$07FF of the processor, mirrored up to $1FFF.
    CpuRam,
    /// $8000-$FFFF of the processor.
    PrgRam,
    /// $0000-$1FFF of the picture chip.
    ChrRam,
    /// $2000-$2FFF of the picture chip.
    NametableRam,
    /// The 32 palette bytes inside the picture chip.
    PaletteRam,
    /// The 288 sprite bytes inside the picture chip.
    SpriteRam,
    /// Everything above together with the state of every wire.
    FullState,
}

pub const CPU_RAM_SIZE: usize = 0x800;

pub const PRG_RAM_SIZE: usize = 0x8000;

pub const CHR_RAM_SIZE: usize = 0x2000;

pub const NAMETABLE_SIZE: usize = 0x400;

pub const NAMETABLE_RAM_SIZE: usize = 0x1000;

/// The memories outside the two chips as mathematical values.
pub struct MemoryView {
    pub cpu_ram: Seq<u8>,
    pub prg_ram: Seq<u8>,
    pub chr_ram: Seq<u8>,
    /// The four name tables one after the other.
    pub nametable_ram: Seq<u8>,
    pub mirroring: MirroringType,
    /// The value last seen on the processor's data bus.
    pub last_cpu_db_value: u8,
}

/// Where an address of the picture chip lands.
pub enum PpuCell {
    /// A byte of character memory.
    Chr(int),
    /// A byte of name-table memory, counted over all four tables.
    Nametable(int),
}

/// The picture chip's address folded into its 14 bits, with $3000-$3FFF
/// mirroring $2000-$2FFF.
pub open spec fn ppu_fold(a: u16) -> int {
    let low = a as int % 0x4000;
    if low >= 0x3000 {
        low - 0x1000
    } else {
        low
    }
}

/// The name table that a folded address selects.
pub open spec fn nametable_of(mirroring: MirroringType, folded: int) -> int {
    match mirroring {
        MirroringType::Horizontal => (folded / 0x800) % 2,
        MirroringType::Vertical => (folded / 0x400) % 2,
        MirroringType::FourScreens => 0,
        MirroringType::ScreenAOnly => 0,
        MirroringType::ScreenBOnly => 1,
    }
}

/// The memory cell behind an address of the picture chip.
pub open spec fn ppu_cell(mirroring: MirroringType, a: u16) -> PpuCell {
    let folded = ppu_fold(a);
    if folded < 0x2000 {
        PpuCell::Chr(folded)
    } else {
        PpuCell::Nametable(nametable_of(mirroring, folded) * 0x400 + folded % 0x400)
    }
}

impl MemoryView {
    /// Every memory has its size and the mirroring is one that is wired.
    pub open spec fn wf(self) -> bool {
        &&& self.cpu_ram.len() == CPU_RAM_SIZE
        &&& self.prg_ram.len() == PRG_RAM_SIZE
        &&& self.chr_ram.len() == CHR_RAM_SIZE
        &&& self.nametable_ram.len() == NAMETABLE_RAM_SIZE
        &&& self.mirroring != MirroringType::FourScreens
    }

    /// What the processor reads at `a`: the byte, and whether the bus was open.
    pub open spec fn cpu_read(self, a: u16) -> (u8, bool) {
        if a < 0x2000 {
            (self.cpu_ram[a as int % 0x800], false)
        } else if a >= 0x8000 {
            (self.prg_ram[a as int - 0x8000], false)
        } else {
            (self.last_cpu_db_value, true)
        }
    }

    /// The memories after the processor writes `d` at `a`.
    pub open spec fn cpu_write(self, a: u16, d: u8) -> MemoryView {
        if a < 0x2000 {
            MemoryView { cpu_ram: self.cpu_ram.update(a as int % 0x800, d), ..self }
        } else if a >= 0x8000 {
            MemoryView { prg_ram: self.prg_ram.update(a as int - 0x8000, d), ..self }
        } else {
            self
        }
    }

    /// What the picture chip reads at `a`.
    pub open spec fn ppu_read(self, a: u16) -> u8 {
        match ppu_cell(self.mirroring, a) {
            PpuCell::Chr(i) => self.chr_ram[i],
            PpuCell::Nametable(i) => self.nametable_ram[i],
        }
    }

    /// The memories after the picture chip writes `d` at `a`.
    pub open spec fn ppu_write(self, a: u16, d: u8) -> MemoryView {
        match ppu_cell(self.mirroring, a) {
            PpuCell::Chr(i) => MemoryView { chr_ram: self.chr_ram.update(i, d), ..self },
            PpuCell::Nametable(i) => MemoryView {
                nametable_ram: self.nametable_ram.update(i, d),
                ..self
            },
        }
    }

    /// The memories with every byte zero.
    pub open spec fn cleared(self) -> MemoryView {
        MemoryView {
            cpu_ram: Seq::new(CPU_RAM_SIZE as nat, |i: int| 0u8),
            prg_ram: Seq::new(PRG_RAM_SIZE as nat, |i: int| 0u8),
            chr_ram: Seq::new(CHR_RAM_SIZE as nat, |i: int| 0u8),
            nametable_ram: Seq::new(NAMETABLE_RAM_SIZE as nat, |i: int| 0u8),
            ..self
        }
    }

    /// The memory named by `memory_type`, where it is one that is copied
    /// as a whole.
    pub open spec fn block(self, memory_type: MemoryType) -> Option<Seq<u8>> {
        match memory_type {
            MemoryType::CpuRam => Some(self.cpu_ram),
            MemoryType::PrgRam => Some(self.prg_ram),
            MemoryType::ChrRam => Some(self.chr_ram),
            MemoryType::NametableRam => Some(self.nametable_ram),
            _ => None,
        }
    }

    /// The size that a block for `memory_type` must have, where the block
    /// is copied as a whole.
    pub open spec fn block_size(memory_type: MemoryType) -> Option<int> {
        match memory_type {
            MemoryType::CpuRam => Some(CPU_RAM_SIZE as int),
            MemoryType::PrgRam => Some(PRG_RAM_SIZE as int),
            MemoryType::ChrRam => Some(CHR_RAM_SIZE as int),
            MemoryType::NametableRam => Some(NAMETABLE_RAM_SIZE as int),
            _ => None,
        }
    }

    /// The memories with the one named by `memory_type` replaced by `block`.
    pub open spec fn loaded(self, memory_type: MemoryType, block: Seq<u8>) -> MemoryView {
        match memory_type {
            MemoryType::CpuRam => MemoryView { cpu_ram: block, ..self },
            MemoryType::PrgRam => MemoryView { prg_ram: block, ..self },
            MemoryType::ChrRam => MemoryView { chr_ram: block, ..self },
            MemoryType::NametableRam => MemoryView { nametable_ram: block, ..self },
            _ => self,
        }
    }
}

/// The memories outside the two chips: processor memory, program memory,
/// character memory and the name tables.
pub struct Memory {
    cpu_ram: Vec<u8>,
    prg_ram: Vec<u8>,
    chr_ram: Vec<u8>,
    nametable_ram: Vec<u8>,
    mirroring_type: MirroringType,
    last_cpu_db_value: u8,
}

impl View for Memory {
    type V = MemoryView;

    closed spec fn view(&self) -> MemoryView {
        MemoryView {
            cpu_ram: self.cpu_ram@,
            prg_ram: self.prg_ram@,
            chr_ram: self.chr_ram@,
            nametable_ram: self.nametable_ram@,
            mirroring: self.mirroring_type,
            last_cpu_db_value: self.last_cpu_db_value,
        }
    }
}

/// A vector of `size` zero bytes.
fn zeroes(size: usize) -> (block: Vec<u8>)
    ensures
        block@ == Seq::new(size as nat, |i: int| 0u8),
{
    let mut block: Vec<u8> = Vec::with_capacity(size);
    let mut i: usize = 0;
    while i < size
        invariant
            i <= size,
            block@ =~= Seq::new(i as nat, |k: int| 0u8),
        decreases size - i,
    {
        block.push(0u8);
        i += 1;
    }
    block
}

/// A copy of `block`.
fn copy_of(block: &[u8]) -> (copy: Vec<u8>)
    ensures
        copy@ == block@,
{
    let mut copy: Vec<u8> = Vec::with_capacity(block.len());
    let mut i: usize = 0;
    while i < block.len()
        invariant
            i <= block@.len(),
            copy@ =~= block@.take(i as int),
        decreases block@.len() - i,
    {
        copy.push(block[i]);
        i += 1;
    }
    assert(block@.take(block@.len() as int) =~= block@);
    copy
}

impl Memory {
    /// Zeroed memories with horizontal mirroring.
    pub fn new() -> (memory: Self)
        ensures
            memory@.wf(),
            memory@ == (MemoryView {
                cpu_ram: Seq::empty(),
                prg_ram: Seq::empty(),
                chr_ram: Seq::empty(),
                nametable_ram: Seq::empty(),
                mirroring: MirroringType::Horizontal,
                last_cpu_db_value: 0,
            }).cleared(),
    {
        Memory {
            cpu_ram: zeroes(CPU_RAM_SIZE),
            prg_ram: zeroes(PRG_RAM_SIZE),
            chr_ram: zeroes(CHR_RAM_SIZE),
            nametable_ram: zeroes(NAMETABLE_RAM_SIZE),
            mirroring_type: MirroringType::Horizontal,
            last_cpu_db_value: 0,
        }
    }

    /// Zeroes every memory; mirroring and the last bus value stay.
    pub fn clear(&mut self)
        requires
            old(self)@.wf(),
        ensures
            final(self)@.wf(),
            final(self)@ == old(self)@.cleared(),
    {
        self.cpu_ram = zeroes(CPU_RAM_SIZE);
        self.prg_ram = zeroes(PRG_RAM_SIZE);
        self.chr_ram = zeroes(CHR_RAM_SIZE);
        self.nametable_ram = zeroes(NAMETABLE_RAM_SIZE);
    }

    /// The mirroring in force.
    pub fn mirroring(&self) -> (mirroring: MirroringType)
        ensures
            mirroring == self@.mirroring,
    {
        self.mirroring_type
    }

    /// Selects the mirroring; four-screen mirroring is not wired and is refused.
    pub fn set_mirroring(&mut self, mirroring: MirroringType) -> (accepted: bool)
        requires
            old(self)@.wf(),
        ensures
            final(self)@.wf(),
            accepted == (mirroring != MirroringType::FourScreens),
            accepted ==> final(self)@ == (MemoryView { mirroring, ..old(self)@ }),
            !accepted ==> final(self)@ == old(self)@,
    {
        match mirroring {
            MirroringType::FourScreens => false,
            _ => {
                self.mirroring_type = mirroring;
                true
            },
        }
    }

    /// Records `value` as last seen on the processor's data bus.
    pub fn observe_cpu_db(&mut self, value: u8)
        requires
            old(self)@.wf(),
        ensures
            final(self)@.wf(),
            final(self)@ == (MemoryView { last_cpu_db_value: value, ..old(self)@ }),
    {
        self.last_cpu_db_value = value;
    }

    /// Reads the byte at processor address `a`; the flag tells an open bus.
    pub fn cpu_read(&self, a: u16) -> (read: (u8, bool))
        requires
            self@.wf(),
        ensures
            read == self@.cpu_read(a),
    {
        if a < 0x2000 {
            (self.cpu_ram[(a % 0x800) as usize], false)
        } else if a >= 0x8000 {
            (self.prg_ram[(a - 0x8000) as usize], false)
        } else {
            (self.last_cpu_db_value, true)
        }
    }

    /// Writes `d` at processor address `a`; addresses outside the two
    /// memories are left to the chips.
    pub fn cpu_write(&mut self, a: u16, d: u8)
        requires
            old(self)@.wf(),
        ensures
            final(self)@.wf(),
            final(self)@ == old(self)@.cpu_write(a, d),
    {
        if a < 0x2000 {
            self.cpu_ram[(a % 0x800) as usize] = d;
        } else if a >= 0x8000 {
            self.prg_ram[(a - 0x8000) as usize] = d;
        }
    }

    /// The name table, 0 or 1, that the folded address `a` selects.
    pub fn get_nametable(&self, a: u16) -> (table: u16)
        requires
            self@.wf(),
        ensures
            table == nametable_of(self@.mirroring, a as int),
            table <= 1,
    {
        match self.mirroring_type {
            MirroringType::Horizontal => (a / 0x800) % 2,
            MirroringType::Vertical => (a / 0x400) % 2,
            MirroringType::FourScreens => 0,
            MirroringType::ScreenAOnly => 0,
            MirroringType::ScreenBOnly => 1,
        }
    }

    /// Folds a picture-chip address into $0000-$2FFF.
    fn fold(a: u16) -> (folded: u16)
        ensures
            folded == ppu_fold(a),
            folded < 0x3000,
    {
        let low = a % 0x4000;
        if low >= 0x3000 {
            low - 0x1000
        } else {
            low
        }
    }

    /// Writes `d` at picture-chip address `a`.
    pub fn ppu_write(&mut self, a: u16, d: u8)
        requires
            old(self)@.wf(),
        ensures
            final(self)@.wf(),
            final(self)@ == old(self)@.ppu_write(a, d),
    {
        let a = Self::fold(a);
        if a < 0x2000 {
            self.chr_ram[a as usize] = d;
        } else {
            let index = self.get_nametable(a) as usize * NAMETABLE_SIZE + (a % 0x400) as usize;
            self.nametable_ram[index] = d;
        }
    }

    /// Reads the byte at picture-chip address `a`.
    pub fn ppu_read(&self, a: u16) -> (d: u8)
        requires
            self@.wf(),
        ensures
            d == self@.ppu_read(a),
    {
        let a = Self::fold(a);
        if a < 0x2000 {
            self.chr_ram[a as usize]
        } else {
            let index = self.get_nametable(a) as usize * NAMETABLE_SIZE + (a % 0x400) as usize;
            self.nametable_ram[index]
        }
    }

    /// Replaces one memory by `buffer`. Refused, with nothing changed, when
    /// the memory is not one that is copied as a whole or `buffer` has not
    /// its size.
    pub fn load_block(&mut self, memory_type: MemoryType, buffer: &[u8]) -> (loaded: bool)
        requires
            old(self)@.wf(),
        ensures
            final(self)@.wf(),
            loaded == (MemoryView::block_size(memory_type) == Some(buffer@.len() as int)),
            loaded ==> final(self)@ == old(self)@.loaded(memory_type, buffer@),
            !loaded ==> final(self)@ == old(self)@,
    {
        match memory_type {
            MemoryType::CpuRam => {
                if buffer.len() != CPU_RAM_SIZE {
                    return false;
                }
                self.cpu_ram = copy_of(buffer);
                true
            },
            MemoryType::PrgRam => {
                if buffer.len() != PRG_RAM_SIZE {
                    return false;
                }
                self.prg_ram = copy_of(buffer);
                true
            },
            MemoryType::ChrRam => {
                if buffer.len() != CHR_RAM_SIZE {
                    return false;
                }
                self.chr_ram = copy_of(buffer);
                true
            },
            MemoryType::NametableRam => {
                if buffer.len() != NAMETABLE_RAM_SIZE {
                    return false;
                }
                self.nametable_ram = copy_of(buffer);
                true
            },
            _ => false,
        }
    }
}

/// Whether two byte strings are equal.
fn same_bytes(a: &Vec<u8>, b: &[u8]) -> (same: bool)
    ensures
        same == (a@ == b@),
{
    if a.len() != b.len() {
        return false;
    }
    let mut i: usize = 0;
    while i < a.len()
        invariant
            a@.len() == b@.len(),
            i <= a@.len(),
            forall|j: int| 0 <= j < i ==> a@[j] == b@[j],
        decreases a@.len() - i,
    {
        if a[i] != b[i] {
            return false;
        }
        i += 1;
    }
    assert(a@ =~= b@);
    true
}

impl Memory {
    /// Whether the memory named by `memory_type` holds exactly `reference`.
    /// False for a memory that is not copied as a whole.
    pub fn holds(&self, memory_type: MemoryType, reference: &[u8]) -> (same: bool)
        ensures
            same == (self@.block(memory_type) == Some(reference@)),
    {
        match memory_type {
            MemoryType::CpuRam => same_bytes(&self.cpu_ram, reference),
            MemoryType::PrgRam => same_bytes(&self.prg_ram, reference),
            MemoryType::ChrRam => same_bytes(&self.chr_ram, reference),
            MemoryType::NametableRam => same_bytes(&self.nametable_ram, reference),
            _ => false,
        }
    }
}

/// A byte written into program memory is read back, with the bus closed.
pub proof fn lemma_program_round_trip(memory: MemoryView, a: u16, d: u8)
    requires
        memory.wf(),
        a >= 0x8000,
    ensures
        memory.cpu_write(a, d).cpu_read(a) == (d, false),
{
}

/// A byte written into processor memory is read back, with the bus closed,
/// at every mirror of its address.
pub proof fn lemma_cpu_ram_round_trip(memory: MemoryView, a: u16, b: u16, d: u8)
    requires
        memory.wf(),
        a < 0x2000,
        b < 0x2000,
        a % 0x800 == b % 0x800,
    ensures
        memory.cpu_write(a, d).cpu_read(b) == (d, false),
{
}

/// Between the two memories the bus is open: a read gives the value last
/// seen on the data bus, and a write changes nothing.
pub proof fn lemma_open_bus(memory: MemoryView, a: u16, d: u8)
    requires
        0x2000 <= a < 0x8000,
    ensures
        memory.cpu_read(a) == (memory.last_cpu_db_value, true),
        memory.cpu_write(a, d) == memory,
{
}

/// With horizontal mirroring the first two logical name tables share one
/// physical table, and the third is another: a byte written at `a` in
/// $2000-$23FF is read back 0x400 higher, and the byte 0x800 higher keeps
/// its value.
pub proof fn lemma_horizontal_mirroring(memory: MemoryView, a: u16, d: u8)
    requires
        memory.wf(),
        memory.mirroring == MirroringType::Horizontal,
        0x2000 <= a < 0x2400,
    ensures
        memory.ppu_write(a, d).ppu_read(a) == d,
        memory.ppu_write(a, d).ppu_read((a + 0x400) as u16) == d,
        memory.ppu_write(a, d).ppu_read((a + 0x800) as u16) == memory.ppu_read((a + 0x800) as u16),
{
}

/// With vertical mirroring the first and third logical name tables share
/// one physical table, and the second is another: a byte written at `a` in
/// $2000-$23FF is read back 0x800 higher, and the byte 0x400 higher keeps
/// its value.
pub proof fn lemma_vertical_mirroring(memory: MemoryView, a: u16, d: u8)
    requires
        memory.wf(),
        memory.mirroring == MirroringType::Vertical,
        0x2000 <= a < 0x2400,
    ensures
        memory.ppu_write(a, d).ppu_read(a) == d,
        memory.ppu_write(a, d).ppu_read((a + 0x800) as u16) == d,
        memory.ppu_write(a, d).ppu_read((a + 0x400) as u16) == memory.ppu_read((a + 0x400) as u16),
{
}

} // verus!
