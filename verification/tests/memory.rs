use nessim::memory::{Memory, MemoryType, MirroringType};

#[test]
fn new_memory_is_zero_and_horizontal() {
    let memory = Memory::new();
    assert_eq!(memory.mirroring(), MirroringType::Horizontal);
    assert_eq!(memory.cpu_read(0x0000), (0, false));
    assert_eq!(memory.cpu_read(0x1fff), (0, false));
    assert_eq!(memory.cpu_read(0x8000), (0, false));
    assert_eq!(memory.cpu_read(0xffff), (0, false));
    assert_eq!(memory.ppu_read(0x0000), 0);
    assert_eq!(memory.ppu_read(0x3fff), 0);
}

#[test]
fn program_memory_round_trip() {
    let mut memory = Memory::new();
    memory.cpu_write(0x8000, 0x12);
    memory.cpu_write(0xffff, 0x34);
    memory.cpu_write(0xc123, 0x56);
    assert_eq!(memory.cpu_read(0x8000), (0x12, false));
    assert_eq!(memory.cpu_read(0xffff), (0x34, false));
    assert_eq!(memory.cpu_read(0xc123), (0x56, false));
}

#[test]
fn processor_memory_is_mirrored_every_2k() {
    let mut memory = Memory::new();
    memory.cpu_write(0x0001, 0xaa);
    assert_eq!(memory.cpu_read(0x0001), (0xaa, false));
    assert_eq!(memory.cpu_read(0x0801), (0xaa, false));
    assert_eq!(memory.cpu_read(0x1001), (0xaa, false));
    assert_eq!(memory.cpu_read(0x1801), (0xaa, false));
    memory.cpu_write(0x1fff, 0xbb);
    assert_eq!(memory.cpu_read(0x07ff), (0xbb, false));
}

#[test]
fn open_bus_reads_the_last_value_and_ignores_writes() {
    let mut memory = Memory::new();
    assert_eq!(memory.cpu_read(0x2000), (0, true));
    memory.observe_cpu_db(0x5a);
    assert_eq!(memory.cpu_read(0x2000), (0x5a, true));
    assert_eq!(memory.cpu_read(0x7fff), (0x5a, true));
    assert_eq!(memory.cpu_read(0x4016), (0x5a, true));
    memory.cpu_write(0x2000, 0x77);
    memory.cpu_write(0x7fff, 0x77);
    assert_eq!(memory.cpu_read(0x2000), (0x5a, true));
    assert_eq!(memory.cpu_read(0x0000), (0, false));
    assert_eq!(memory.cpu_read(0x8000), (0, false));
}

#[test]
fn horizontal_mirroring_pairs_the_first_two_tables() {
    let mut memory = Memory::new();
    assert!(memory.set_mirroring(MirroringType::Horizontal));
    memory.ppu_write(0x2000, 0x3c);
    assert_eq!(memory.ppu_read(0x2000), 0x3c);
    assert_eq!(memory.ppu_read(0x2400), 0x3c);
    assert_ne!(memory.ppu_read(0x2800), 0x3c);
    assert_ne!(memory.ppu_read(0x2c00), 0x3c);
    memory.ppu_write(0x2c05, 0x11);
    assert_eq!(memory.ppu_read(0x2805), 0x11);
    assert_eq!(memory.ppu_read(0x2005), 0);
}

#[test]
fn vertical_mirroring_pairs_the_first_and_third_table() {
    let mut memory = Memory::new();
    assert!(memory.set_mirroring(MirroringType::Vertical));
    memory.ppu_write(0x2000, 0x3c);
    assert_eq!(memory.ppu_read(0x2000), 0x3c);
    assert_eq!(memory.ppu_read(0x2800), 0x3c);
    assert_ne!(memory.ppu_read(0x2400), 0x3c);
    assert_ne!(memory.ppu_read(0x2c00), 0x3c);
    memory.ppu_write(0x2c05, 0x11);
    assert_eq!(memory.ppu_read(0x2405), 0x11);
    assert_eq!(memory.ppu_read(0x2005), 0);
}

#[test]
fn single_screen_mirroring_uses_one_table() {
    let mut memory = Memory::new();
    assert!(memory.set_mirroring(MirroringType::ScreenAOnly));
    memory.ppu_write(0x2c10, 0x21);
    assert_eq!(memory.ppu_read(0x2010), 0x21);
    assert_eq!(memory.ppu_read(0x2410), 0x21);
    assert_eq!(memory.ppu_read(0x2810), 0x21);
    assert!(memory.set_mirroring(MirroringType::ScreenBOnly));
    assert_eq!(memory.ppu_read(0x2010), 0);
    memory.ppu_write(0x2010, 0x22);
    assert_eq!(memory.ppu_read(0x2c10), 0x22);
    assert!(memory.set_mirroring(MirroringType::ScreenAOnly));
    assert_eq!(memory.ppu_read(0x2c10), 0x21);
}

#[test]
fn four_screen_mirroring_is_refused() {
    let mut memory = Memory::new();
    assert!(memory.set_mirroring(MirroringType::Vertical));
    assert!(!memory.set_mirroring(MirroringType::FourScreens));
    assert_eq!(memory.mirroring(), MirroringType::Vertical);
}

#[test]
fn picture_chip_addresses_fold_into_14_bits() {
    let mut memory = Memory::new();
    memory.ppu_write(0x0123, 0x40);
    assert_eq!(memory.ppu_read(0x4123), 0x40);
    assert_eq!(memory.ppu_read(0xc123), 0x40);
    memory.ppu_write(0x1fff, 0x41);
    assert_eq!(memory.ppu_read(0x1fff), 0x41);
    // $3000-$3FFF mirrors $2000-$2FFF
    memory.ppu_write(0x3005, 0x42);
    assert_eq!(memory.ppu_read(0x2005), 0x42);
    memory.ppu_write(0x2fff, 0x43);
    assert_eq!(memory.ppu_read(0x3fff), 0x43);
    assert_eq!(memory.ppu_read(0x7fff), 0x43);
}

#[test]
fn get_nametable_reads_the_mirroring_bit() {
    let mut memory = Memory::new();
    assert_eq!(memory.get_nametable(0x2000), 0);
    assert_eq!(memory.get_nametable(0x2400), 0);
    assert_eq!(memory.get_nametable(0x2800), 1);
    assert_eq!(memory.get_nametable(0x2c00), 1);
    memory.set_mirroring(MirroringType::Vertical);
    assert_eq!(memory.get_nametable(0x2000), 0);
    assert_eq!(memory.get_nametable(0x2400), 1);
    assert_eq!(memory.get_nametable(0x2800), 0);
    assert_eq!(memory.get_nametable(0x2c00), 1);
    memory.set_mirroring(MirroringType::ScreenAOnly);
    assert_eq!(memory.get_nametable(0x2c00), 0);
    memory.set_mirroring(MirroringType::ScreenBOnly);
    assert_eq!(memory.get_nametable(0x2000), 1);
}

#[test]
fn blocks_load_only_at_their_size() {
    let mut memory = Memory::new();
    let mut chr = vec![0u8; 0x2000];
    chr[0] = 1;
    chr[0x1fff] = 2;
    assert!(memory.load_block(MemoryType::ChrRam, &chr));
    assert_eq!(memory.ppu_read(0x0000), 1);
    assert_eq!(memory.ppu_read(0x1fff), 2);
    assert!(!memory.load_block(MemoryType::ChrRam, &chr[1..]));
    assert_eq!(memory.ppu_read(0x0000), 1);
    assert!(!memory.load_block(MemoryType::PrgRam, &chr));
    let mut prg = vec![0u8; 0x8000];
    prg[0x7ffc] = 0x34;
    assert!(memory.load_block(MemoryType::PrgRam, &prg));
    assert_eq!(memory.cpu_read(0xfffc), (0x34, false));
    let mut ram = vec![0u8; 0x800];
    ram[0x7ff] = 9;
    assert!(memory.load_block(MemoryType::CpuRam, &ram));
    assert_eq!(memory.cpu_read(0x1fff), (9, false));
    let mut tables = vec![0u8; 0x1000];
    tables[0x400] = 7;
    tables[0xfff] = 8;
    assert!(memory.load_block(MemoryType::NametableRam, &tables));
    memory.set_mirroring(MirroringType::Horizontal);
    assert_eq!(memory.ppu_read(0x2800), 7);
    assert!(!memory.load_block(MemoryType::PaletteRam, &[0; 0x20]));
    assert!(!memory.load_block(MemoryType::SpriteRam, &[0; 0x120]));
    assert!(!memory.load_block(MemoryType::FullState, &[]));
}

#[test]
fn clear_zeroes_the_memories_and_keeps_the_mirroring() {
    let mut memory = Memory::new();
    memory.set_mirroring(MirroringType::Vertical);
    memory.observe_cpu_db(0x99);
    memory.cpu_write(0x0000, 1);
    memory.cpu_write(0x8000, 2);
    memory.ppu_write(0x0000, 3);
    memory.ppu_write(0x2000, 4);
    memory.clear();
    assert_eq!(memory.cpu_read(0x0000), (0, false));
    assert_eq!(memory.cpu_read(0x8000), (0, false));
    assert_eq!(memory.ppu_read(0x0000), 0);
    assert_eq!(memory.ppu_read(0x2000), 0);
    assert_eq!(memory.mirroring(), MirroringType::Vertical);
    assert_eq!(memory.cpu_read(0x3000), (0x99, true));
}
