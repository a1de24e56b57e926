use nessim::components::TransistorDefinition;
use nessim::consts::{
    NODE_AB0, NODE_AB1, NODE_AB10, NODE_AB11, NODE_AB12, NODE_AB13, NODE_AB2, NODE_AB3, NODE_AB4,
    NODE_AB5, NODE_AB6, NODE_AB7, NODE_AB8, NODE_AB9, NODE_ALE, NODE_CLK0, NODE_CPU_AB0,
    NODE_CPU_AB1, NODE_CPU_AB10, NODE_CPU_AB11, NODE_CPU_AB12, NODE_CPU_AB13, NODE_CPU_AB14,
    NODE_CPU_AB15, NODE_CPU_AB2, NODE_CPU_AB3, NODE_CPU_AB4, NODE_CPU_AB5, NODE_CPU_AB6,
    NODE_CPU_AB7, NODE_CPU_AB8, NODE_CPU_AB9, NODE_CPU_CLK0, NODE_CPU_DB0, NODE_CPU_DB1,
    NODE_CPU_DB2, NODE_CPU_DB3, NODE_CPU_DB4, NODE_CPU_DB5, NODE_CPU_DB6, NODE_CPU_DB7,
    NODE_CPU_IRQ, NODE_CPU_NMI, NODE_CPU_RW, NODE_CPU_SO, NODE_GND, NODE_HPOS0, NODE_HPOS1,
    NODE_HPOS2, NODE_HPOS3, NODE_HPOS4, NODE_HPOS5, NODE_HPOS6, NODE_HPOS7, NODE_HPOS8, NODE_INT,
    NODE_IO_CE, NODE_PAL_D0_OUT, NODE_PAL_D1_OUT, NODE_PAL_D2_OUT, NODE_PAL_D3_OUT,
    NODE_PAL_D4_OUT, NODE_PAL_D5_OUT, NODE_PCLK1, NODE_PWR, NODE_RD, NODE_RESET, NODE_VPOS0,
    NODE_VPOS1, NODE_VPOS2, NODE_VPOS3, NODE_VPOS4, NODE_VPOS5, NODE_VPOS6, NODE_VPOS7,
    NODE_VPOS8, NODE_WR, NUM_NODES, PALETTE_ARGB, PALETTE_RAM_SIZE, SPRITE_RAM_SIZE,
};
use nessim::errors::{BuildError, SimError};
use nessim::loader::{load_ppu_nodes, load_segment_definitions, load_transistor_definitions};
use nessim::memory::{MemoryType, MirroringType};
use nessim::preprocessor::id_conversion_table;
use nessim::sim_view::Cartridge;
use nessim::SimulationState;

const CPU_AB: [u16; 16] = [
    NODE_CPU_AB0, NODE_CPU_AB1, NODE_CPU_AB2, NODE_CPU_AB3, NODE_CPU_AB4, NODE_CPU_AB5,
    NODE_CPU_AB6, NODE_CPU_AB7, NODE_CPU_AB8, NODE_CPU_AB9, NODE_CPU_AB10, NODE_CPU_AB11,
    NODE_CPU_AB12, NODE_CPU_AB13, NODE_CPU_AB14, NODE_CPU_AB15,
];
const CPU_DB: [u16; 8] = [
    NODE_CPU_DB0, NODE_CPU_DB1, NODE_CPU_DB2, NODE_CPU_DB3, NODE_CPU_DB4, NODE_CPU_DB5,
    NODE_CPU_DB6, NODE_CPU_DB7,
];
const AB: [u16; 14] = [
    NODE_AB0, NODE_AB1, NODE_AB2, NODE_AB3, NODE_AB4, NODE_AB5, NODE_AB6, NODE_AB7, NODE_AB8,
    NODE_AB9, NODE_AB10, NODE_AB11, NODE_AB12, NODE_AB13,
];
const HPOS: [u16; 9] = [
    NODE_HPOS0, NODE_HPOS1, NODE_HPOS2, NODE_HPOS3, NODE_HPOS4, NODE_HPOS5, NODE_HPOS6,
    NODE_HPOS7, NODE_HPOS8,
];
const VPOS: [u16; 9] = [
    NODE_VPOS0, NODE_VPOS1, NODE_VPOS2, NODE_VPOS3, NODE_VPOS4, NODE_VPOS5, NODE_VPOS6,
    NODE_VPOS7, NODE_VPOS8,
];
const PAL: [u16; 6] = [
    NODE_PAL_D0_OUT, NODE_PAL_D1_OUT, NODE_PAL_D2_OUT, NODE_PAL_D3_OUT, NODE_PAL_D4_OUT,
    NODE_PAL_D5_OUT,
];

fn absent(rows: usize, width: usize) -> Vec<Vec<(i32, i32)>> {
    vec![vec![(-1, -1); width]; rows]
}

fn segments(wires: &[(u16, bool, u16)]) -> Vec<Vec<u16>> {
    let mut segs: Vec<Vec<u16>> = vec![vec![(NUM_NODES - 1) as u16, 0, 0, 0, 0, 0, 0]];
    for (id, pullup, area) in wires.iter() {
        segs.push(vec![*id, *pullup as u16, 0, 0, *area, 1, 0]);
    }
    segs
}

fn transistors(trans: &[(u16, u16, u16)]) -> Vec<TransistorDefinition> {
    trans
        .iter()
        .enumerate()
        .map(|(i, (gate, c1, c2))| TransistorDefinition {
            name: format!("t{}", i),
            gate: *gate,
            c1: *c1,
            c2: *c2,
        })
        .collect()
}

fn machine_with(
    wires: &[(u16, bool, u16)],
    trans: &[(u16, u16, u16)],
    palette: Vec<Vec<(i32, i32)>>,
) -> SimulationState {
    SimulationState::new(
        &segments(wires),
        transistors(trans),
        palette,
        absent(SPRITE_RAM_SIZE, 8),
    )
    .ok()
    .unwrap()
}

fn machine(wires: &[(u16, bool, u16)], trans: &[(u16, u16, u16)]) -> SimulationState {
    machine_with(wires, trans, absent(PALETTE_RAM_SIZE, 6))
}

/// A machine whose processor clock follows the master clock.
fn clocked_machine() -> SimulationState {
    let mut sim = machine(&[], &[(NODE_CLK0, NODE_CPU_CLK0, NODE_PWR)]);
    sim.init(false).unwrap();
    sim.set_low(NODE_CPU_CLK0).unwrap();
    sim
}

fn drive(sim: &mut SimulationState, nodes: &[u16], value: u32) {
    for (i, n) in nodes.iter().enumerate() {
        if (value >> i) & 1 == 1 {
            sim.set_high(*n).unwrap();
        } else {
            sim.set_low(*n).unwrap();
        }
    }
}

fn snapshot(sim: &SimulationState) -> (Vec<(bool, bool, bool, bool)>, Vec<bool>) {
    (
        (0..sim.node_count())
            .map(|n| {
                let node = sim.node(n);
                (node.floating, node.pulldown, node.pullup, node.state)
            })
            .collect(),
        (0..sim.transistor_count()).map(|t| sim.transistor(t).on).collect(),
    )
}

fn build_error(
    segs: &[Vec<u16>],
    trans: &[(u16, u16, u16)],
    palette: Vec<Vec<(i32, i32)>>,
    sprite: Vec<Vec<(i32, i32)>>,
) -> Option<BuildError> {
    SimulationState::new(segs, transistors(trans), palette, sprite).err()
}

#[test]
fn new_builds_the_tables_without_powering_on() {
    let sim = machine(
        &[(3, true, 7), (NODE_CLK0, false, 2), (NODE_GND, false, 0), (NODE_PWR, false, 0)],
        &[(3, 4, NODE_GND), (NODE_PWR, 5, 6)],
    );
    assert_eq!(sim.node_count(), NUM_NODES);
    assert_eq!(sim.transistor_count(), 2);
    assert_eq!(sim.all_nodes(), &vec![3u16, NODE_CLK0, (NUM_NODES - 1) as u16]);
    for n in 0..NUM_NODES {
        let node = sim.node(n);
        assert!(!node.state);
        assert!(!node.pulldown);
        assert!(node.floating);
        assert_eq!(node.pullup, n == 3);
    }
    assert_eq!(sim.node(3).area, 7);
    assert_eq!(sim.node(3).gates, vec![0]);
    assert_eq!(sim.node(NODE_PWR as usize).gates, vec![1]);
    assert!(!sim.transistor(0).on);
    assert!(!sim.transistor(1).on);
    assert_eq!((sim.transistor(0).c1, sim.transistor(0).c2), (4, NODE_GND));
    assert_eq!(sim.mirroring(), MirroringType::Horizontal);
    assert_eq!(sim.step_cycle_count(), 0);
    assert_eq!(sim.chr_address(), 0);
    assert_eq!(sim.last_data(), 0);
    assert!(!sim.is_halted());
    assert_eq!(sim.framebuffer().len(), 256 * 240);
    assert!(sim.framebuffer().iter().all(|p| *p == 0));
    assert_eq!(sim.cpu_read(0x8000), (0, false));
}

#[test]
fn new_reports_why_the_tables_cannot_be_built() {
    let palette = || absent(PALETTE_RAM_SIZE, 6);
    let sprite = || absent(SPRITE_RAM_SIZE, 8);
    assert_eq!(build_error(&[], &[], palette(), sprite()), Some(BuildError::EmptySegmentList));
    assert_eq!(
        build_error(&[vec![40000, 1, 0]], &[], palette(), sprite()),
        Some(BuildError::MalformedSegment)
    );
    assert_eq!(
        build_error(&[vec![34000, 0, 0, 0, 0, 0, 0]], &[], palette(), sprite()),
        Some(BuildError::TooManyNodes)
    );
    assert_eq!(
        build_error(&[vec![25090, 0, 0, 0, 0, 0, 0]], &[], palette(), sprite()),
        Some(BuildError::TooFewNodes)
    );
    assert_eq!(build_error(&[vec![25091, 0, 0, 0, 0, 0, 0]], &[], palette(), sprite()), None);
    assert_eq!(build_error(&[vec![33999, 0, 0, 0, 0, 0, 0]], &[], palette(), sprite()), None);
    assert_eq!(
        build_error(&segments(&[]), &[(33001, 3, 4)], palette(), sprite()),
        Some(BuildError::DanglingTransistor)
    );
    let crowd: Vec<(u16, u16, u16)> = (0..96).map(|_| (3, 4, NODE_GND)).collect();
    assert_eq!(
        build_error(&segments(&[]), &crowd, palette(), sprite()),
        Some(BuildError::TooManyChannels)
    );
    // the tables are judged before the wire count
    assert_eq!(
        build_error(&[vec![100, 0, 0, 0, 0, 0, 0]], &[(101, 3, 4)], palette(), sprite()),
        Some(BuildError::DanglingTransistor)
    );
}

#[test]
fn new_refuses_latch_tables_that_cannot_be_written() {
    let segs = segments(&[]);
    let sprite = || absent(SPRITE_RAM_SIZE, 8);
    let palette = || absent(PALETTE_RAM_SIZE, 6);
    let bad = Some(BuildError::BadLatchTable);
    assert_eq!(build_error(&segs, &[], absent(PALETTE_RAM_SIZE - 1, 6), sprite()), bad);
    assert_eq!(build_error(&segs, &[], absent(PALETTE_RAM_SIZE + 1, 6), sprite()), bad);
    assert_eq!(build_error(&segs, &[], absent(PALETTE_RAM_SIZE, 5), sprite()), bad);
    assert_eq!(build_error(&segs, &[], palette(), absent(SPRITE_RAM_SIZE, 7)), bad);
    assert_eq!(build_error(&segs, &[], palette(), absent(SPRITE_RAM_SIZE - 1, 8)), bad);
    assert_eq!(build_error(&segs, &[], absent(PALETTE_RAM_SIZE, 7), sprite()), None);
    let mut table = palette();
    table[31][5] = (33001, 4);
    assert_eq!(build_error(&segs, &[], table, sprite()), bad);
    let mut table = palette();
    table[0][0] = (4, 33001);
    assert_eq!(build_error(&segs, &[], table, sprite()), bad);
    let mut table = palette();
    table[0][0] = (-1, 33001);
    table[0][1] = (40000, -1);
    table[0][2] = (33000, 0);
    assert_eq!(build_error(&segs, &[], table, sprite()), None);
    // what lies beyond the bits that are written is not judged
    let mut table = absent(PALETTE_RAM_SIZE, 7);
    table[0][6] = (33001, 33001);
    assert_eq!(build_error(&segs, &[], table, sprite()), None);
    let mut table = sprite();
    table[0x11f][7] = (33001, 4);
    assert_eq!(build_error(&segs, &[], palette(), table), bad);
    // a rail is no side of a latch
    for sides in [(1, 4), (2, 4), (4, 1), (4, 2)] {
        let mut table = palette();
        table[3][3] = sides;
        assert_eq!(build_error(&segs, &[], table, sprite()), bad);
    }
    let mut table = palette();
    table[3][3] = (1, -1);
    assert_eq!(build_error(&segs, &[], table, sprite()), None);
}

#[test]
fn power_on_sets_the_control_lines() {
    let mut sim = machine(&[(3, true, 1), (4, false, 1)], &[(NODE_PWR, 4, NODE_PWR)]);
    sim.ppu_write(0x2000, 9);
    sim.cpu_write(0x8000, 9);
    assert_eq!(sim.init(false), Ok(()));
    assert!(!sim.is_node_high(NODE_GND));
    assert!(sim.is_node_high(NODE_PWR));
    assert!(!sim.node(NODE_GND as usize).floating);
    assert!(!sim.node(NODE_PWR as usize).floating);
    assert!(sim.node(3).floating);
    assert!(!sim.is_node_high(NODE_CLK0));
    assert!(sim.node(NODE_CLK0 as usize).pulldown);
    assert!(sim.is_node_high(NODE_RESET));
    assert!(sim.is_node_high(NODE_IO_CE));
    assert!(sim.is_node_high(NODE_INT));
    assert!(sim.is_node_high(NODE_CPU_NMI));
    assert!(sim.is_node_high(NODE_CPU_IRQ));
    assert!(!sim.is_node_high(NODE_CPU_SO));
    // every wire with a segment has been relaxed
    assert!(sim.is_node_high(3));
    assert!(sim.is_node_high(4));
    assert!(sim.transistor(0).on);
    assert_eq!(sim.ppu_read(0x2000), 0);
    assert_eq!(sim.cpu_read(0x8000), (0, false));
    assert_eq!(sim.read_bit(NODE_RESET), 1);
    assert_eq!(sim.read_bit(NODE_CLK0), 0);
    let pulls = |n: u16| (sim.node(n as usize).pullup, sim.node(n as usize).pulldown);
    assert_eq!(pulls(NODE_RESET), (true, false));
    assert_eq!(pulls(NODE_CLK0), (false, true));
    assert_eq!(pulls(NODE_IO_CE), (true, false));
    assert_eq!(pulls(NODE_INT), (true, false));
    assert_eq!(pulls(NODE_CPU_SO), (false, true));
    assert_eq!(pulls(NODE_CPU_IRQ), (true, false));
    assert_eq!(pulls(NODE_CPU_NMI), (true, false));
    assert_eq!(sim.chr_address(), 0);
    assert!(sim.framebuffer().iter().all(|p| *p == 0));
}

#[test]
fn a_cartridge_changes_no_wire_and_no_transistor() {
    let wires = [(3, true, 3), (4, false, 2), (5, true, 1), (6, false, 9)];
    let trans = [(NODE_CLK0, 3, 4), (4, 5, NODE_GND), (5, 6, 3), (NODE_PWR, 6, 7)];
    let mut alone = machine(&wires, &trans);
    alone.init(false).unwrap();
    let mut loaded = machine(&wires, &trans);
    loaded.cpu_write(0x0000, 9);
    loaded.load_rom(&cartridge(0, MirroringType::Vertical, 0x4000, 0x2000)).unwrap();
    assert_eq!(snapshot(&alone), snapshot(&loaded));
    let (node_bytes, transistor_bytes) = pack(&alone);
    assert!(loaded.verify_state(&node_bytes, &transistor_bytes));
}

#[test]
fn reset_keeps_the_memories_and_raises_reset() {
    let mut sim = machine(&[(3, true, 1)], &[]);
    sim.init(false).unwrap();
    sim.cpu_write(0x8000, 0x12);
    sim.ppu_write(0x2000, 0x34);
    sim.set_low(NODE_RESET).unwrap();
    assert_eq!(sim.init(true), Ok(()));
    assert!(sim.node(NODE_RESET as usize).pullup);
    assert!(!sim.node(NODE_RESET as usize).pulldown);
    assert_eq!(sim.cpu_read(0x8000), (0x12, false));
    assert_eq!(sim.ppu_read(0x2000), 0x34);
    assert_eq!(sim.chr_address(), 0);
}

#[test]
fn power_on_relaxes_only_wires_with_a_segment() {
    // wire 7 has no segment: its pull-up takes no effect until it is touched
    let mut sim = machine(&[(3, true, 1)], &[]);
    sim.set_high(7).unwrap();
    assert!(sim.is_node_high(7));
    sim.init(false).unwrap();
    assert!(sim.is_node_high(3));
    assert!(!sim.is_node_high(7));
    assert!(sim.node(7).pullup);
    sim.set_high(7).unwrap();
    assert!(sim.is_node_high(7));
}

#[test]
fn half_step_toggles_the_master_clock() {
    let mut sim = machine(&[], &[]);
    sim.init(false).unwrap();
    assert!(!sim.is_node_high(NODE_CLK0));
    assert_eq!(sim.half_step(), Ok(()));
    assert!(sim.is_node_high(NODE_CLK0));
    assert_eq!(sim.half_step(), Ok(()));
    assert!(!sim.is_node_high(NODE_CLK0));
    for _ in 0..11 {
        sim.half_step().unwrap();
    }
    assert!(sim.is_node_high(NODE_CLK0));
}

#[test]
fn soft_reset_toggles_the_clock_193_times_and_raises_reset() {
    let mut sim = machine(&[], &[]);
    sim.init(false).unwrap();
    sim.set_low(NODE_RESET).unwrap();
    assert_eq!(sim.init(true), Ok(()));
    assert!(sim.is_node_high(NODE_CLK0));
    assert!(sim.is_node_high(NODE_RESET));
    assert_eq!(sim.init(true), Ok(()));
    assert!(!sim.is_node_high(NODE_CLK0));
    assert_eq!(sim.chr_address(), 0);
}

#[test]
fn processor_write_is_stored_on_the_rising_clock_edge() {
    let mut sim = clocked_machine();
    sim.set_low(NODE_CPU_RW).unwrap();
    drive(&mut sim, &CPU_AB, 0x8123);
    drive(&mut sim, &CPU_DB, 0x5a);
    assert_eq!(sim.read_cpu_address_bus(), 0x8123);
    assert_eq!(sim.read_cpu_data_bus(), 0x5a);
    sim.half_step().unwrap();
    assert!(sim.is_node_high(NODE_CPU_CLK0));
    assert_eq!(sim.cpu_read(0x8123), (0x5a, false));
    assert_eq!(sim.cpu_read(0x8122), (0, false));
    // the byte is remembered as last seen on the bus
    assert_eq!(sim.cpu_read(0x4000), (0x5a, true));
    // the falling edge stores nothing
    drive(&mut sim, &CPU_DB, 0x77);
    sim.half_step().unwrap();
    assert!(!sim.is_node_high(NODE_CPU_CLK0));
    assert_eq!(sim.cpu_read(0x8123), (0x5a, false));
}

#[test]
fn processor_write_into_mirrored_memory() {
    let mut sim = clocked_machine();
    sim.set_low(NODE_CPU_RW).unwrap();
    drive(&mut sim, &CPU_AB, 0x1801);
    drive(&mut sim, &CPU_DB, 0xc3);
    sim.half_step().unwrap();
    assert_eq!(sim.cpu_read(0x0001), (0xc3, false));
    assert_eq!(sim.cpu_read(0x1801), (0xc3, false));
}

#[test]
fn processor_write_while_reading_is_ignored() {
    let mut sim = clocked_machine();
    sim.set_high(NODE_CPU_RW).unwrap();
    drive(&mut sim, &CPU_AB, 0x8123);
    drive(&mut sim, &CPU_DB, 0x5a);
    sim.half_step().unwrap();
    assert_eq!(sim.cpu_read(0x8123), (0, false));
}

#[test]
fn processor_read_is_answered_on_the_falling_clock_edge() {
    let mut sim = clocked_machine();
    sim.cpu_write(0x9000, 0xa6);
    sim.set_high(NODE_CPU_RW).unwrap();
    drive(&mut sim, &CPU_AB, 0x9000);
    drive(&mut sim, &CPU_DB, 0x00);
    sim.half_step().unwrap();
    assert_eq!(sim.read_cpu_data_bus(), 0x00);
    sim.half_step().unwrap();
    assert!(!sim.is_node_high(NODE_CPU_CLK0));
    assert_eq!(sim.read_cpu_data_bus(), 0xa6);
    // the byte put on the bus is the last seen on it
    assert_eq!(sim.cpu_read(0x4000), (0xa6, true));
    for (i, n) in CPU_DB.iter().enumerate() {
        let bit = (0xa6u8 >> i) & 1 == 1;
        assert_eq!(sim.node(*n as usize).pullup, bit);
        assert_eq!(sim.node(*n as usize).pulldown, !bit);
    }
}

#[test]
fn processor_read_of_an_open_bus_lets_the_data_bus_float() {
    let mut sim = clocked_machine();
    sim.set_high(NODE_CPU_RW).unwrap();
    drive(&mut sim, &CPU_AB, 0x4016);
    drive(&mut sim, &CPU_DB, 0xff);
    sim.half_step().unwrap();
    sim.half_step().unwrap();
    for n in CPU_DB.iter() {
        assert!(!sim.node(*n as usize).pullup);
        assert!(!sim.node(*n as usize).pulldown);
    }
    // an open bus shows nothing new
    assert_eq!(sim.cpu_read(0x4016), (0, true));
    // wires without area lose their charge
    assert_eq!(sim.read_cpu_data_bus(), 0);
}

#[test]
fn chip_enable_is_held_low_for_eleven_half_steps() {
    let mut sim = clocked_machine();
    sim.set_high(NODE_CPU_RW).unwrap();
    drive(&mut sim, &CPU_AB, 0x2002);
    assert!(sim.is_node_high(NODE_IO_CE));
    sim.half_step().unwrap();
    // the processor clock is high and the address lies in $2000-$3FFF
    assert!(!sim.is_node_high(NODE_IO_CE));
    assert_eq!(sim.step_cycle_count(), 11);
    for left in (1..=10u8).rev() {
        sim.half_step().unwrap();
        assert_eq!(sim.step_cycle_count(), left);
        assert!(!sim.is_node_high(NODE_IO_CE));
    }
    sim.half_step().unwrap();
    assert_eq!(sim.step_cycle_count(), 0);
    assert!(sim.is_node_high(NODE_IO_CE));
    // the clock is high again on the step after
    sim.half_step().unwrap();
    assert_eq!(sim.step_cycle_count(), 11);
    assert!(!sim.is_node_high(NODE_IO_CE));
}

#[test]
fn chip_enable_stays_high_outside_the_register_range() {
    for address in [0x0000u32, 0x1fff, 0x4000, 0x6002, 0xa002, 0xe000] {
        let mut sim = clocked_machine();
        drive(&mut sim, &CPU_AB, address);
        sim.half_step().unwrap();
        assert!(sim.is_node_high(NODE_IO_CE));
        assert_eq!(sim.step_cycle_count(), 0);
    }
    // with the processor clock low nothing is decoded
    let mut sim = machine(&[], &[]);
    sim.init(false).unwrap();
    sim.set_low(NODE_CPU_CLK0).unwrap();
    drive(&mut sim, &CPU_AB, 0x2002);
    sim.half_step().unwrap();
    assert!(sim.is_node_high(NODE_IO_CE));
}

fn ppu_machine() -> SimulationState {
    let mut sim = machine(&[], &[]);
    sim.init(false).unwrap();
    sim.set_low(NODE_ALE).unwrap();
    sim.set_high(NODE_RD).unwrap();
    sim.set_high(NODE_WR).unwrap();
    sim.half_step().unwrap();
    sim
}

#[test]
fn address_is_latched_on_the_rising_edge_of_ale() {
    let mut sim = ppu_machine();
    drive(&mut sim, &AB, 0x2345);
    sim.half_step().unwrap();
    assert_eq!(sim.chr_address(), 0);
    sim.set_high(NODE_ALE).unwrap();
    assert_eq!(sim.read_ab(), 0x2345);
    sim.half_step().unwrap();
    assert_eq!(sim.chr_address(), 0x2345);
    // while the line stays high the latch keeps its address
    drive(&mut sim, &AB, 0x0042);
    sim.half_step().unwrap();
    assert_eq!(sim.chr_address(), 0x2345);
    sim.set_low(NODE_ALE).unwrap();
    sim.half_step().unwrap();
    sim.set_high(NODE_ALE).unwrap();
    sim.half_step().unwrap();
    assert_eq!(sim.chr_address(), 0x0042);
}

#[test]
fn read_line_drives_and_releases_the_data_bus() {
    let mut sim = ppu_machine();
    sim.ppu_write(0x0123, 0xa5);
    drive(&mut sim, &AB, 0x0123);
    sim.set_high(NODE_ALE).unwrap();
    sim.half_step().unwrap();
    sim.set_low(NODE_ALE).unwrap();
    sim.set_low(NODE_RD).unwrap();
    sim.half_step().unwrap();
    assert_eq!(sim.read_db(), 0xa5);
    assert_eq!(sim.last_data(), 0xa5);
    for (i, n) in AB[..8].iter().enumerate() {
        let bit = (0xa5u8 >> i) & 1 == 1;
        assert_eq!(sim.node(*n as usize).pullup, bit);
        assert_eq!(sim.node(*n as usize).pulldown, !bit);
    }
    // no edge, nothing new
    sim.ppu_write(0x0123, 0x11);
    sim.half_step().unwrap();
    assert_eq!(sim.read_db(), 0xa5);
    sim.set_high(NODE_RD).unwrap();
    sim.half_step().unwrap();
    for n in AB[..8].iter() {
        assert!(!sim.node(*n as usize).pullup);
        assert!(!sim.node(*n as usize).pulldown);
    }
    // the sample taken while the line was low is kept
    assert_eq!(sim.last_data(), 0xa5);
}

#[test]
fn write_line_stores_the_data_bus_on_its_rising_edge() {
    let mut sim = ppu_machine();
    drive(&mut sim, &AB, 0x2010);
    sim.set_high(NODE_ALE).unwrap();
    sim.half_step().unwrap();
    assert_eq!(sim.chr_address(), 0x2010);
    sim.set_low(NODE_ALE).unwrap();
    sim.set_low(NODE_WR).unwrap();
    sim.write_db(0x77).unwrap();
    sim.half_step().unwrap();
    assert_eq!(sim.ppu_read(0x2010), 0);
    assert_eq!(sim.last_data(), 0x77);
    sim.set_high(NODE_WR).unwrap();
    sim.write_db(0x78).unwrap();
    sim.half_step().unwrap();
    assert_eq!(sim.ppu_read(0x2010), 0x78);
    // horizontal mirroring
    assert_eq!(sim.ppu_read(0x2410), 0x78);
    assert_eq!(sim.ppu_read(0x2810), 0);
    // both lines are high: no new sample
    assert_eq!(sim.last_data(), 0x77);
}

fn video_machine(h: u32, v: u32, p: u32) -> SimulationState {
    let mut sim = machine(&[], &[]);
    sim.init(false).unwrap();
    sim.set_high(NODE_PCLK1).unwrap();
    drive(&mut sim, &HPOS, h);
    drive(&mut sim, &VPOS, v);
    drive(&mut sim, &PAL, p);
    sim
}

#[test]
fn a_pixel_is_sampled_two_columns_left_of_the_counter() {
    let mut sim = video_machine(12, 3, 0x21);
    assert_eq!(sim.read_hpos(), 12);
    assert_eq!(sim.read_vpos(), 3);
    assert_eq!(sim.read_palette(), 0x21);
    sim.half_step().unwrap();
    assert_eq!(sim.framebuffer()[3 * 256 + 10], 0xFF64B0FF);
    assert_eq!(sim.framebuffer().iter().filter(|p| **p != 0).count(), 1);
    // the same column is not sampled again
    drive(&mut sim, &PAL, 0x16);
    drive(&mut sim, &VPOS, 4);
    sim.half_step().unwrap();
    assert_eq!(sim.framebuffer()[3 * 256 + 10], 0xFF64B0FF);
    assert_eq!(sim.framebuffer()[4 * 256 + 10], 0);
    drive(&mut sim, &HPOS, 13);
    sim.half_step().unwrap();
    assert_eq!(sim.framebuffer()[4 * 256 + 11], 0xFFB53120);
}

#[test]
fn the_corners_of_the_picture_are_sampled() {
    let mut sim = video_machine(2, 0, 0x00);
    sim.half_step().unwrap();
    assert_eq!(sim.framebuffer()[0], 0xFF666666);
    let mut sim = video_machine(257, 239, 0x3f);
    sim.half_step().unwrap();
    assert_eq!(sim.framebuffer()[239 * 256 + 255], 0xFF000000);
    assert_eq!(PALETTE_ARGB[0x3f], 0xFF000000);
    assert_eq!(sim.framebuffer().len(), 256 * 240);
}

#[test]
fn nothing_is_sampled_outside_the_picture() {
    for (h, v) in [(0u32, 0u32), (1, 0), (258, 0), (511, 10), (12, 240), (12, 511)] {
        let mut sim = video_machine(h, v, 0x21);
        sim.half_step().unwrap();
        assert!(sim.framebuffer().iter().all(|p| *p == 0));
    }
    // the pixel clock gates the sampler
    let mut sim = video_machine(12, 3, 0x21);
    sim.set_low(NODE_PCLK1).unwrap();
    sim.half_step().unwrap();
    assert!(sim.framebuffer().iter().all(|p| *p == 0));
}

#[test]
fn a_column_outside_the_picture_is_still_remembered() {
    // column 300 is not drawn; coming back to it draws nothing either
    let mut sim = video_machine(302, 3, 0x21);
    sim.half_step().unwrap();
    drive(&mut sim, &HPOS, 12);
    sim.half_step().unwrap();
    assert_eq!(sim.framebuffer()[3 * 256 + 10], 0xFF64B0FF);
    // power-on remembers column -1, which the counter value 1 stands for
    let mut sim = video_machine(1, 3, 0x21);
    sim.half_step().unwrap();
    drive(&mut sim, &HPOS, 2);
    sim.half_step().unwrap();
    assert_eq!(sim.framebuffer()[3 * 256], 0xFF64B0FF);
}

const READ_ENABLE: u16 = 200;

/// Six latches, each of two cross-coupled inverters, and a palette output
/// that is joined to the second side of each while wire 200 is high.
fn palette_machine() -> SimulationState {
    let mut wires = Vec::new();
    let mut trans = Vec::new();
    let mut row = Vec::new();
    for b in 0..6u16 {
        let n0 = 100 + 2 * b;
        let n1 = 101 + 2 * b;
        wires.push((n0, true, 1));
        wires.push((n1, true, 1));
        trans.push((n0, n1, NODE_GND));
        trans.push((n1, n0, NODE_GND));
        trans.push((READ_ENABLE, PAL[b as usize], n1));
        row.push((n0 as i32, n1 as i32));
    }
    let mut palette = absent(PALETTE_RAM_SIZE, 6);
    palette[0] = row;
    let mut sim = machine_with(&wires, &trans, palette);
    sim.init(false).unwrap();
    sim.set_high(READ_ENABLE).unwrap();
    sim
}

#[test]
fn palette_write_reaches_the_palette_output() {
    let mut sim = palette_machine();
    assert_eq!(sim.palette_write(0, 0x3f), Ok(()));
    assert_eq!(sim.read_palette(), 0x3f);
    assert_eq!(sim.palette_write(0, 0x00), Ok(()));
    assert_eq!(sim.read_palette(), 0x00);
    assert_eq!(sim.palette_write(0, 0x25), Ok(()));
    assert_eq!(sim.read_palette(), 0x25);
    // only six bits are written
    assert_eq!(sim.palette_write(0, 0xff), Ok(()));
    assert_eq!(sim.read_palette(), 0x3f);
    assert_eq!(sim.palette_write(0, 0xc0), Ok(()));
    assert_eq!(sim.read_palette(), 0x00);
    for b in 0..6usize {
        assert!(sim.is_node_high(100 + 2 * b as u16));
        assert!(!sim.is_node_high(101 + 2 * b as u16));
    }
}

#[test]
fn a_latch_written_while_it_is_not_read_shows_when_it_is() {
    let mut sim = palette_machine();
    sim.palette_write(0, 0x00).unwrap();
    sim.set_low(READ_ENABLE).unwrap();
    sim.palette_write(0, 0x2c).unwrap();
    // the outputs are cut off and keep no charge
    assert_eq!(sim.read_palette(), 0x00);
    sim.set_high(READ_ENABLE).unwrap();
    assert_eq!(sim.read_palette(), 0x2c);
}

#[test]
fn palette_write_to_absent_latches_does_nothing() {
    let mut sim = palette_machine();
    sim.palette_write(0, 0x15).unwrap();
    let before = snapshot(&sim);
    assert_eq!(sim.palette_write(1, 0x3f), Ok(()));
    assert_eq!(sim.palette_write(31, 0x2a), Ok(()));
    assert_eq!(sim.sprite_write(0, 0xff), Ok(()));
    assert_eq!(sim.sprite_write(0x11f, 0xff), Ok(()));
    assert_eq!(before, snapshot(&sim));
}

#[test]
fn set_memory_state_loads_blocks_and_latches() {
    let mut sim = palette_machine();
    let mut prg = vec![0u8; 0x8000];
    prg[0x1234] = 0x56;
    assert_eq!(sim.set_memory_state(MemoryType::PrgRam, &prg), Ok(()));
    assert_eq!(sim.cpu_read(0x9234), (0x56, false));
    let mut chr = vec![0u8; 0x2000];
    chr[0x1000] = 0x99;
    assert_eq!(sim.set_memory_state(MemoryType::ChrRam, &chr), Ok(()));
    assert_eq!(sim.ppu_read(0x1000), 0x99);
    let mut ram = vec![0u8; 0x800];
    ram[5] = 0x12;
    assert_eq!(sim.set_memory_state(MemoryType::CpuRam, &ram), Ok(()));
    assert_eq!(sim.cpu_read(0x0805), (0x12, false));
    let mut tables = vec![0u8; 0x1000];
    tables[0x7ff] = 0x21;
    assert_eq!(sim.set_memory_state(MemoryType::NametableRam, &tables), Ok(()));
    assert_eq!(sim.ppu_read(0x2bff), 0x21);
    assert_eq!(sim.set_memory_state(MemoryType::PaletteRam, &[0x2a, 0x3f]), Ok(()));
    assert_eq!(sim.read_palette(), 0x2a);
    assert_eq!(sim.set_memory_state(MemoryType::PaletteRam, &[0x11; 40]), Ok(()));
    assert_eq!(sim.read_palette(), 0x11);
    assert_eq!(sim.set_memory_state(MemoryType::PaletteRam, &[]), Ok(()));
    assert_eq!(sim.read_palette(), 0x11);
    assert_eq!(sim.set_memory_state(MemoryType::SpriteRam, &[0xff; 0x200]), Ok(()));
}

#[test]
fn set_memory_state_refuses_wrong_sizes_and_the_full_state() {
    let mut sim = machine(&[], &[]);
    sim.cpu_write(0x8000, 7);
    assert_eq!(
        sim.set_memory_state(MemoryType::PrgRam, &[1; 0x4000]),
        Err(SimError::BadBlockSize)
    );
    assert_eq!(sim.set_memory_state(MemoryType::ChrRam, &[]), Err(SimError::BadBlockSize));
    assert_eq!(
        sim.set_memory_state(MemoryType::CpuRam, &[1; 0x801]),
        Err(SimError::BadBlockSize)
    );
    assert_eq!(
        sim.set_memory_state(MemoryType::NametableRam, &[1; 0x400]),
        Err(SimError::BadBlockSize)
    );
    assert_eq!(
        sim.set_memory_state(MemoryType::FullState, &[1; 0x8000]),
        Err(SimError::UnsupportedMemory)
    );
    assert_eq!(sim.cpu_read(0x8000), (7, false));
}

fn cartridge(mapper: u16, mirroring: MirroringType, prg: usize, chr: usize) -> Cartridge {
    Cartridge {
        mapper,
        mirroring,
        prg: (0..prg).map(|i| (i % 251) as u8).collect(),
        chr: (0..chr).map(|i| (i % 241) as u8).collect(),
    }
}

#[test]
fn load_rom_mirrors_a_16k_program() {
    let mut sim = machine(&[], &[]);
    let rom = cartridge(0, MirroringType::Vertical, 0x4000, 0x2000);
    assert_eq!(sim.load_rom(&rom), Ok(()));
    assert_eq!(sim.mirroring(), MirroringType::Vertical);
    assert_eq!(sim.cpu_read(0x8000), (0, false));
    assert_eq!(sim.cpu_read(0x8005), (5, false));
    assert_eq!(sim.cpu_read(0xc005), (5, false));
    assert_eq!(sim.cpu_read(0xbfff), ((0x3fff % 251) as u8, false));
    assert_eq!(sim.cpu_read(0xffff), ((0x3fff % 251) as u8, false));
    assert_eq!(sim.ppu_read(0x0007), 7);
    assert_eq!(sim.ppu_read(0x1fff), (0x1fff % 241) as u8);
    // the machine has been powered on
    assert!(sim.is_node_high(NODE_RESET));
    assert!(sim.is_node_high(NODE_PWR));
}

#[test]
fn load_rom_takes_a_32k_program_as_it_is() {
    let mut sim = machine(&[], &[]);
    sim.cpu_write(0x0000, 0x44);
    let rom = cartridge(0, MirroringType::Horizontal, 0x8000, 0x2000);
    assert_eq!(sim.load_rom(&rom), Ok(()));
    assert_eq!(sim.mirroring(), MirroringType::Horizontal);
    assert_eq!(sim.cpu_read(0x8005), (5, false));
    assert_eq!(sim.cpu_read(0xc005), ((0x4005 % 251) as u8, false));
    assert_eq!(sim.cpu_read(0xffff), ((0x7fff % 251) as u8, false));
    assert_eq!(sim.cpu_read(0x0000), (0, false));
}

#[test]
fn load_rom_refuses_what_it_cannot_take() {
    let mut sim = machine(&[], &[]);
    sim.cpu_write(0x8000, 0x44);
    let refused = [
        (cartridge(1, MirroringType::Horizontal, 0x4000, 0x2000), SimError::UnsupportedMapper),
        (cartridge(4, MirroringType::FourScreens, 0x4000, 0), SimError::UnsupportedMapper),
        (cartridge(0, MirroringType::FourScreens, 0x4000, 0x2000), SimError::UnsupportedMirroring),
        (cartridge(0, MirroringType::ScreenAOnly, 0x4000, 0x2000), SimError::UnsupportedMirroring),
        (cartridge(0, MirroringType::ScreenBOnly, 0, 0), SimError::UnsupportedMirroring),
        (cartridge(0, MirroringType::Vertical, 0x2000, 0x2000), SimError::BadBlockSize),
        (cartridge(0, MirroringType::Vertical, 0x4000, 0x4000), SimError::BadBlockSize),
        (cartridge(0, MirroringType::Vertical, 0x8001, 0x2000), SimError::BadBlockSize),
        (cartridge(0, MirroringType::Vertical, 0x8000, 0), SimError::BadBlockSize),
    ];
    for (rom, error) in refused.iter() {
        assert_eq!(sim.load_rom(rom), Err(*error));
        assert_eq!(sim.cpu_read(0x8000), (0x44, false));
        assert_eq!(sim.mirroring(), MirroringType::Horizontal);
        assert!(!sim.is_node_high(NODE_PWR));
    }
}

/// A machine with a wire that grounds itself as soon as it is relaxed.
fn unstable_machine() -> SimulationState {
    machine(&[(3, true, 1)], &[(3, 3, NODE_GND)])
}

#[test]
fn a_machine_that_does_not_settle_halts() {
    let mut sim = unstable_machine();
    assert_eq!(sim.init(false), Err(SimError::Diverged));
    assert!(sim.is_halted());
    let before = snapshot(&sim);
    assert_eq!(sim.half_step(), Err(SimError::Diverged));
    assert_eq!(sim.init(true), Err(SimError::Diverged));
    assert_eq!(sim.set_high(4), Err(SimError::Diverged));
    assert_eq!(sim.set_low(4), Err(SimError::Diverged));
    assert_eq!(sim.set_bit(4, 5), Err(SimError::Diverged));
    assert_eq!(sim.write_db(1), Err(SimError::Diverged));
    assert_eq!(sim.float_db(), Err(SimError::Diverged));
    assert_eq!(sim.write_cpu_db(1), Err(SimError::Diverged));
    assert_eq!(sim.float_cpu_db(), Err(SimError::Diverged));
    assert_eq!(sim.palette_write(0, 1), Err(SimError::Diverged));
    assert_eq!(sim.sprite_write(0, 1), Err(SimError::Diverged));
    assert_eq!(before, snapshot(&sim));
    let rom = cartridge(0, MirroringType::Vertical, 0x4000, 0x2000);
    assert_eq!(sim.load_rom(&rom), Err(SimError::Diverged));
    assert_eq!(sim.cpu_read(0x8005), (0, false));
    assert_eq!(sim.mirroring(), MirroringType::Vertical);
}

#[test]
fn a_machine_halts_in_the_middle_of_a_half_step() {
    // wire 10 inverts chip enable; while it is high it grounds wire 4, and
    // wire 3, which joins itself to wire 4 when high, starts to oscillate
    let mut sim = machine(
        &[(3, true, 1), (4, true, 1), (10, true, 1)],
        &[
            (NODE_CLK0, NODE_CPU_CLK0, NODE_PWR),
            (NODE_IO_CE, 10, NODE_GND),
            (10, 4, NODE_GND),
            (3, 3, 4),
        ],
    );
    assert_eq!(sim.init(false), Ok(()));
    sim.set_low(NODE_CPU_CLK0).unwrap();
    assert!(sim.is_node_high(3));
    assert!(!sim.is_node_high(10));
    sim.set_high(NODE_PCLK1).unwrap();
    drive(&mut sim, &HPOS, 12);
    drive(&mut sim, &CPU_AB, 0x2000);
    assert_eq!(sim.half_step(), Err(SimError::Diverged));
    assert!(sim.is_halted());
    // the clock edge and the decoder have run, the video sampler has not
    assert!(sim.is_node_high(NODE_CLK0));
    assert_eq!(sim.step_cycle_count(), 11);
    assert!(!sim.is_node_high(NODE_IO_CE));
    assert!(sim.framebuffer().iter().all(|p| *p == 0));
    assert_eq!(sim.half_step(), Err(SimError::Diverged));
    assert_eq!(sim.step_cycle_count(), 11);
    // power-on revives the machine
    assert_eq!(sim.init(false), Ok(()));
    assert!(!sim.is_halted());
}

#[test]
fn equal_machines_stay_equal() {
    let build = || {
        let mut sim = machine(
            &[(3, true, 3), (4, false, 2), (5, true, 1), (6, false, 9)],
            &[
                (NODE_CLK0, NODE_CPU_CLK0, NODE_PWR),
                (NODE_CLK0, 3, 4),
                (4, 5, NODE_GND),
                (5, 6, 3),
                (NODE_CPU_CLK0, NODE_PCLK1, NODE_PWR),
            ],
        );
        sim.init(false).unwrap();
        sim.set_low(NODE_CPU_CLK0).unwrap();
        sim
    };
    let mut a = build();
    let mut b = build();
    assert_eq!(snapshot(&a), snapshot(&b));
    for step in 0..40u32 {
        if step % 7 == 0 {
            drive(&mut a, &HPOS, step + 2);
            drive(&mut b, &HPOS, step + 2);
        }
        assert_eq!(a.half_step(), b.half_step());
        assert_eq!(snapshot(&a), snapshot(&b));
        assert_eq!(a.framebuffer(), b.framebuffer());
    }
    assert!(a.framebuffer().iter().any(|p| *p != 0));
}

fn pack(sim: &SimulationState) -> (Vec<u8>, Vec<u8>) {
    let mut node_bytes = vec![0u8; (sim.node_count() + 1) / 2];
    for n in 0..sim.node_count() {
        let node = sim.node(n);
        let half = node.floating as u8
            | (node.pulldown as u8) << 1
            | (node.pullup as u8) << 2
            | (node.state as u8) << 3;
        node_bytes[n / 2] |= half << ((n % 2) * 4);
    }
    let mut transistor_bytes = vec![0u8; (sim.transistor_count() + 7) / 8];
    for t in 0..sim.transistor_count() {
        transistor_bytes[t / 8] |= (sim.transistor(t).on as u8) << (t % 8);
    }
    (node_bytes, transistor_bytes)
}

#[test]
fn verify_state_holds_the_network_against_a_snapshot() {
    let trans: Vec<(u16, u16, u16)> = (0..11).map(|k| (3 + k, 20 + k, NODE_GND)).collect();
    let mut sim = machine(&[(3, true, 1), (5, true, 1), (12, true, 1), (13, true, 1)], &trans);
    let (node_bytes, transistor_bytes) = pack(&sim);
    assert_eq!(node_bytes.len(), 16501);
    assert_eq!(transistor_bytes.len(), 2);
    // before power-on every wire floats and the pull-ups show in bit 2
    assert_eq!(node_bytes[0], 0x11);
    assert_eq!(node_bytes[1], 0x51);
    assert!(sim.verify_state(&node_bytes, &transistor_bytes));
    sim.init(false).unwrap();
    assert!(!sim.verify_state(&node_bytes, &transistor_bytes));
    let (node_bytes, transistor_bytes) = pack(&sim);
    // power is high and fixed; ground is low and fixed; wire 3 is pulled up and high
    assert_eq!(node_bytes[0], 0x81);
    assert_eq!(node_bytes[1], 0xd0);
    assert_eq!(transistor_bytes, vec![0b0000_0101, 0b0000_0110]);
    assert!(sim.verify_state(&node_bytes, &transistor_bytes));
    // every bit counts
    for (byte, bit) in [(0usize, 0u8), (0, 7), (1, 4), (16500, 0), (16500, 3), (8000, 5)] {
        let mut changed = node_bytes.clone();
        changed[byte] ^= 1 << bit;
        assert!(!sim.verify_state(&changed, &transistor_bytes));
    }
    for (byte, bit) in [(0usize, 0u8), (0, 7), (1, 0), (1, 2)] {
        let mut changed = transistor_bytes.clone();
        changed[byte] ^= 1 << bit;
        assert!(!sim.verify_state(&node_bytes, &changed));
    }
    // the high half of the last byte stands for no wire, the bits after the last
    // transistor for no transistor
    let mut padded = node_bytes.clone();
    padded[16500] ^= 0xf0;
    assert!(sim.verify_state(&padded, &transistor_bytes));
    let mut padded = transistor_bytes.clone();
    padded[1] ^= 0xf8;
    assert!(sim.verify_state(&node_bytes, &padded));
    // the sizes count
    assert!(!sim.verify_state(&node_bytes[..16500], &transistor_bytes));
    assert!(!sim.verify_state(&node_bytes, &transistor_bytes[..1]));
    let mut longer = transistor_bytes.clone();
    longer.push(0);
    assert!(!sim.verify_state(&node_bytes, &longer));
}

#[test]
fn verify_ram_state_compares_program_and_character_memory() {
    let mut sim = machine(&[], &[]);
    let mut prg = vec![0u8; 0x8000];
    let mut chr = vec![0u8; 0x2000];
    assert!(sim.verify_ram_state(&prg, &chr));
    sim.cpu_write(0xffff, 1);
    assert!(!sim.verify_ram_state(&prg, &chr));
    prg[0x7fff] = 1;
    assert!(sim.verify_ram_state(&prg, &chr));
    sim.ppu_write(0x0000, 2);
    assert!(!sim.verify_ram_state(&prg, &chr));
    chr[0] = 2;
    assert!(sim.verify_ram_state(&prg, &chr));
    assert!(!sim.verify_ram_state(&prg[1..], &chr));
    assert!(!sim.verify_ram_state(&prg, &[]));
    // other memories are not looked at
    sim.cpu_write(0x0000, 3);
    sim.ppu_write(0x2000, 4);
    assert!(sim.verify_ram_state(&prg, &chr));
}

#[test]
fn a_machine_is_built_from_its_text_tables() {
    let table = id_conversion_table();
    // wire 3 is pulled up and grounds wire 4; the processor's wire 10004 is the reset line
    let seg_defs = load_segment_definitions(
        b"3,1,0,0,5,1,0\r\n4,1,0,0,7,1,0\r\n33000,0,0,0,0,0,0\r\n",
        b"10004,0,0,0,9,1,0\n",
        &table,
    )
    .unwrap();
    let trans_defs =
        load_transistor_definitions(b"t0,3,4,2\n", b"t0,10000,5,10001\n", &table).unwrap();
    let palette_text = "-1|-1,-1|-1,-1|-1,-1|-1,-1|-1,-1|-1\n".repeat(PALETTE_RAM_SIZE);
    let sprite_text = "-1|-1,-1|-1,-1|-1,-1|-1,-1|-1,-1|-1,-1|-1,-1|-1\n".repeat(SPRITE_RAM_SIZE);
    let (palette_nodes, sprite_nodes) =
        load_ppu_nodes(palette_text.as_bytes(), sprite_text.as_bytes()).unwrap();
    let mut sim =
        SimulationState::new(&seg_defs, trans_defs, palette_nodes, sprite_nodes).ok().unwrap();
    assert_eq!(sim.node_count(), NUM_NODES);
    assert_eq!(sim.all_nodes(), &vec![3u16, 4, NODE_RESET, 33000]);
    assert_eq!(sim.node(NODE_RESET as usize).area, 9);
    assert_eq!(sim.transistor_count(), 2);
    // the processor's transistor is gated by power and joins wire 13005 to ground
    let cpu = sim.transistor(1);
    assert_eq!((cpu.gate, cpu.c1, cpu.c2), (NODE_PWR, 13005, NODE_GND));
    assert_eq!(sim.init(false), Ok(()));
    assert!(sim.is_node_high(3));
    assert!(!sim.is_node_high(4));
    assert!(sim.transistor(0).on);
    assert!(sim.transistor(1).on);
    assert!(sim.is_node_high(NODE_RESET));
    assert_eq!(sim.half_step(), Ok(()));
    assert!(sim.is_node_high(NODE_CLK0));
}
