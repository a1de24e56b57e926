use vstd::prelude::*;
use crate::connectivity::is_wire;
use crate::consts::{
    SPRITE_RAM_SIZE, PALETTE_RAM_SIZE, NODE_CLK0, NODE_RESET, NODE_IO_CE, NODE_INT, NODE_ALE,
    NODE_CPU_SO, NODE_CPU_IRQ, NODE_CPU_NMI, NODE_CPU_CLK0, SCREEN_WIDTH, SCREEN_HEIGHT,
    PALETTE_ARGB,
};
use crate::laws::{
    lemma_pull_marks, pulls_kept_but,
    rails_kept,
    lemma_float_bits_keeps_sound, lemma_power_on_sound, lemma_relax_keeps_sound,
    lemma_relaxed_chain, lemma_set_bit_keeps_sound, lemma_set_high_keeps_sound,
    lemma_set_low_keeps_sound, lemma_topology_chain, lemma_write_bits_keeps_sound,
};
use crate::memory::{MemoryType, MemoryView};
use crate::settling::{
    lemma_float_bits_settles, lemma_links_faithful_carries, lemma_relax_all_settles,
    lemma_write_bits_settles,
};
use crate::sim_view::{
    ab_nodes, cpu_ab_nodes, cpu_db_nodes, db_nodes, latch_ok, Cartridge, SimView,
};
use crate::wiring::CircuitView;

verus! {

/// Whether a simulation is at its fixed point or has halted.
pub open spec fn at_rest(s: SimView) -> bool {
    s.halted() || s.settled()
}

/// A simulation stays sound when its circuit is exchanged for a sound
/// idle one of the same topology.
pub proof fn lemma_around(s: SimView, circuit: CircuitView)
    requires
        s.sound(),
        circuit.idle(),
        circuit.wiring.sound(),
        circuit.wiring.same_topology(s.circuit.wiring),
    ensures
        s.around(circuit).sound(),
        s.around(circuit).kin(s),
{
    lemma_links_faithful_carries(s.circuit.wiring, circuit.wiring);
}

/// `kin` chains, and holds of a simulation and itself.
pub proof fn lemma_kin_chain(a: SimView, b: SimView, c: SimView)
    requires
        b.kin(a),
        c.kin(b),
    ensures
        c.kin(a),
        a.kin(a),
{
    lemma_topology_chain(a.circuit.wiring, b.circuit.wiring, c.circuit.wiring);
    lemma_relaxed_chain(a.circuit.wiring, a.circuit.wiring, a.circuit.wiring);
}

/// The pinned buses exist in every well-formed simulation.
pub proof fn lemma_pinned(s: SimView)
    requires
        s.wf(),
    ensures
        forall|k: int|
            0 <= k < db_nodes().len() ==> (#[trigger] db_nodes()[k]) < s.circuit.wiring.nodes.len(),
        forall|k: int|
            0 <= k < cpu_db_nodes().len() ==> (#[trigger] cpu_db_nodes()[k])
                < s.circuit.wiring.nodes.len(),
{
    crate::lemma_pinned_lists();
}

/// Pulling a wire up keeps a simulation sound, and at rest if it was.
pub proof fn lemma_set_high(s: SimView, node: u16)
    requires
        s.sound(),
        node < s.circuit.wiring.nodes.len(),
    ensures
        s.set_high(node).sound(),
        s.set_high(node).kin(s),
        rails_kept(s.set_high(node).circuit.wiring, s.circuit.wiring),
        at_rest(s) ==> at_rest(s.set_high(node)),
{
    lemma_set_high_keeps_sound(s.circuit, node);
    lemma_around(s, s.circuit.set_high(node));
    if s.settled() {
        crate::settling::lemma_set_high_settles(s.circuit, node);
    }
}

/// Pulling a wire down keeps a simulation sound, and at rest if it was.
pub proof fn lemma_set_low(s: SimView, node: u16)
    requires
        s.sound(),
        node < s.circuit.wiring.nodes.len(),
    ensures
        s.set_low(node).sound(),
        s.set_low(node).kin(s),
        rails_kept(s.set_low(node).circuit.wiring, s.circuit.wiring),
        at_rest(s) ==> at_rest(s.set_low(node)),
{
    lemma_set_low_keeps_sound(s.circuit, node);
    lemma_around(s, s.circuit.set_low(node));
    if s.settled() {
        crate::settling::lemma_set_low_settles(s.circuit, node);
    }
}

/// Driving wires keeps a simulation sound, and at rest if it was.
pub proof fn lemma_write_bits(s: SimView, nodes: Seq<u16>, value: nat)
    requires
        s.sound(),
        forall|k: int|
            0 <= k < nodes.len() ==> (#[trigger] nodes[k]) < s.circuit.wiring.nodes.len(),
    ensures
        s.around(s.circuit.write_bits(nodes, value)).sound(),
        s.around(s.circuit.write_bits(nodes, value)).kin(s),
        rails_kept(s.circuit.write_bits(nodes, value).wiring, s.circuit.wiring),
        at_rest(s) ==> at_rest(s.around(s.circuit.write_bits(nodes, value))),
{
    lemma_write_bits_keeps_sound(s.circuit, nodes, value);
    lemma_around(s, s.circuit.write_bits(nodes, value));
    if s.settled() {
        lemma_write_bits_settles(s.circuit, nodes, value);
    }
}

/// Letting wires float keeps a simulation sound, and at rest if it was.
pub proof fn lemma_float_bits(s: SimView, nodes: Seq<u16>)
    requires
        s.sound(),
        forall|k: int|
            0 <= k < nodes.len() ==> (#[trigger] nodes[k]) < s.circuit.wiring.nodes.len(),
    ensures
        s.around(s.circuit.float_bits(nodes)).sound(),
        s.around(s.circuit.float_bits(nodes)).kin(s),
        rails_kept(s.circuit.float_bits(nodes).wiring, s.circuit.wiring),
        at_rest(s) ==> at_rest(s.around(s.circuit.float_bits(nodes))),
{
    lemma_float_bits_keeps_sound(s.circuit, nodes);
    lemma_around(s, s.circuit.float_bits(nodes));
    if s.settled() {
        lemma_float_bits_settles(s.circuit, nodes);
    }
}

/// Toggling the master clock keeps a simulation sound, and at rest if it
/// was.
pub proof fn lemma_toggle_clock(s: SimView)
    requires
        s.sound(),
    ensures
        s.toggle_clock().sound(),
        s.toggle_clock().kin(s),
        rails_kept(s.toggle_clock().circuit.wiring, s.circuit.wiring),
        at_rest(s) ==> at_rest(s.toggle_clock()),
{
    lemma_set_high(s, NODE_CLK0);
    lemma_set_low(s, NODE_CLK0);
}

/// Toggling the master clock `n` times keeps a simulation sound, and at
/// rest if it was.
pub proof fn lemma_toggled(s: SimView, n: nat)
    requires
        s.sound(),
    ensures
        s.toggled(n).sound(),
        s.toggled(n).kin(s),
        rails_kept(s.toggled(n).circuit.wiring, s.circuit.wiring),
        at_rest(s) ==> at_rest(s.toggled(n)),
    decreases n,
{
    if n > 0 {
        lemma_toggle_clock(s);
        lemma_toggled(s.toggle_clock(), (n - 1) as nat);
        lemma_kin_chain(s, s.toggle_clock(), s.toggled(n));
    } else {
        lemma_kin_chain(s, s, s);
    }
}

/// Ticking the master clock `n` times keeps a simulation sound, and at
/// rest if it was.
pub proof fn lemma_clocked(s: SimView, n: nat)
    requires
        s.sound(),
    ensures
        s.clocked(n).sound(),
        s.clocked(n).kin(s),
        rails_kept(s.clocked(n).circuit.wiring, s.circuit.wiring),
        at_rest(s) ==> at_rest(s.clocked(n)),
    decreases n,
{
    if n > 0 {
        let up = s.set_high(NODE_CLK0);
        let down = up.set_low(NODE_CLK0);
        lemma_set_high(s, NODE_CLK0);
        lemma_set_low(up, NODE_CLK0);
        lemma_clocked(down, (n - 1) as nat);
        lemma_kin_chain(s, up, down);
        lemma_kin_chain(s, down, s.clocked(n));
    } else {
        lemma_kin_chain(s, s, s);
    }
}

/// Reset keeps a simulation sound, and at rest if it was.
pub proof fn lemma_soft_reset(s: SimView)
    requires
        s.sound(),
    ensures
        s.soft_reset().sound(),
        s.soft_reset().kin(s),
        rails_kept(s.soft_reset().circuit.wiring, s.circuit.wiring),
        at_rest(s) ==> at_rest(s.soft_reset()),
{
    lemma_kin_chain(s, s, s);
    if !s.halted() {
        let cleared = s.bus_reset();
        let held = cleared.set_low(NODE_RESET);
        lemma_set_low(cleared, NODE_RESET);
        lemma_toggled(held, 193);
        lemma_set_high(held.toggled(193), NODE_RESET);
        lemma_kin_chain(cleared, held, held.toggled(193));
        lemma_kin_chain(cleared, held.toggled(193), s.soft_reset());
    }
}

/// Power-on makes a ready simulation sound: from then on every
/// transistor conducts exactly while its gate is high, the rails have
/// their levels, and nothing is queued. If every wire has a segment,
/// power-on ends at the fixed point, unless the simulation halts.
pub proof fn lemma_power_on(s: SimView)
    requires
        s.ready(),
    ensures
        s.power_on().sound(),
        s.power_on().powered_up(),
        s.power_on().kin(s),
        rails_kept(s.power_on().circuit.wiring, s.circuit.wiring),
        s.relaxes_every_wire() ==> at_rest(s.power_on()),
{
    lemma_power_on_sound(s.circuit);
    let fresh = SimView {
        circuit: s.circuit.powered_on(),
        memory: s.memory.cleared(),
        framebuffer: Seq::new((SCREEN_WIDTH * SCREEN_HEIGHT) as nat, |i: int| 0u32),
        ..s.bus_reset()
    };
    lemma_links_faithful_carries(s.circuit.wiring, fresh.circuit.wiring);
    assert(fresh.sound());
    assert(fresh.kin(s));
    let s1 = fresh.set_low(NODE_RESET);
    lemma_set_low(fresh, NODE_RESET);
    lemma_kin_chain(s, fresh, s1);
    let s2 = s1.set_low(NODE_CLK0);
    lemma_set_low(s1, NODE_CLK0);
    lemma_kin_chain(s, s1, s2);
    let s3 = s2.set_high(NODE_IO_CE);
    lemma_set_high(s2, NODE_IO_CE);
    lemma_kin_chain(s, s2, s3);
    let s4 = s3.set_high(NODE_INT);
    lemma_set_high(s3, NODE_INT);
    lemma_kin_chain(s, s3, s4);
    let s5 = s4.clocked(6);
    lemma_clocked(s4, 6);
    lemma_kin_chain(s, s4, s5);
    let s6 = s5.set_low(NODE_CPU_SO);
    lemma_set_low(s5, NODE_CPU_SO);
    lemma_kin_chain(s, s5, s6);
    let s7 = s6.set_high(NODE_CPU_IRQ);
    lemma_set_high(s6, NODE_CPU_IRQ);
    lemma_kin_chain(s, s6, s7);
    let s8 = s7.set_high(NODE_CPU_NMI);
    lemma_set_high(s7, NODE_CPU_NMI);
    lemma_kin_chain(s, s7, s8);
    let relaxed = s8.circuit.relax(s8.all_recalc_nodes);
    lemma_relax_keeps_sound(s8.circuit, s8.all_recalc_nodes);
    let s9 = s8.around(relaxed);
    lemma_around(s8, relaxed);
    lemma_kin_chain(s, s8, s9);
    if s.relaxes_every_wire() {
        assert forall|n: int| is_wire(s8.circuit.wiring, n) implies s8.all_recalc_nodes.contains(
            n as u16,
        ) by {
            assert(is_wire(s.circuit.wiring, n));
        }
        lemma_relax_all_settles(s8.circuit, s8.all_recalc_nodes);
        assert(at_rest(s9));
    }
    let s10 = s9.clocked(96);
    lemma_clocked(s9, 96);
    lemma_kin_chain(s, s9, s10);
    lemma_set_high(s10, NODE_RESET);
    lemma_kin_chain(s, s10, s10.set_high(NODE_RESET));
}

/// Power-on or reset leaves a simulation sound.
pub proof fn lemma_init(s: SimView, soft_reset: bool)
    requires
        if soft_reset {
            s.sound()
        } else {
            s.ready()
        },
    ensures
        s.init(soft_reset).sound(),
        s.init(soft_reset).kin(s),
        rails_kept(s.init(soft_reset).circuit.wiring, s.circuit.wiring),
{
    if soft_reset {
        lemma_soft_reset(s);
    } else {
        lemma_power_on(s);
    }
}

/// Writing latches keeps a simulation sound.
pub proof fn lemma_latch_bits(s: SimView, row: Seq<(i32, i32)>, rest: nat, b: int, width: int)
    requires
        s.sound(),
        0 <= b <= width <= row.len(),
        forall|k: int|
            0 <= k < width ==> latch_ok(#[trigger] row[k], s.circuit.wiring.nodes.len() as int),
    ensures
        s.latch_bits(row, rest, b, width).sound(),
        s.latch_bits(row, rest, b, width).kin(s),
        rails_kept(s.latch_bits(row, rest, b, width).circuit.wiring, s.circuit.wiring),
    decreases width - b,
{
    if b < width {
        let sides = row[b];
        let written = if rest % 2 == 1 {
            s.circuit.set_bit(sides.1, sides.0)
        } else {
            s.circuit.set_bit(sides.0, sides.1)
        };
        lemma_set_bit_keeps_sound(s.circuit, sides.1, sides.0);
        lemma_set_bit_keeps_sound(s.circuit, sides.0, sides.1);
        lemma_around(s, written);
        lemma_latch_bits(s.around(written), row, rest / 2, b + 1, width);
        lemma_kin_chain(s, s.around(written), s.latch_bits(row, rest, b, width));
    } else {
        lemma_kin_chain(s, s, s);
    }
}

/// Writing a palette byte keeps a simulation sound.
pub proof fn lemma_palette_write(s: SimView, addr: u16, val: u8)
    requires
        s.sound(),
        addr < PALETTE_RAM_SIZE,
    ensures
        s.palette_write(addr, val).sound(),
        s.palette_write(addr, val).kin(s),
        rails_kept(s.palette_write(addr, val).circuit.wiring, s.circuit.wiring),
{
    let row = s.palette_nodes[addr as int]@;
    assert(s.palette_nodes[addr as int]@.len() >= 6);
    assert forall|k: int| 0 <= k < 6 implies latch_ok(
        #[trigger] row[k],
        s.circuit.wiring.nodes.len() as int,
    ) by {
        assert(latch_ok(s.palette_nodes[addr as int]@[k], s.circuit.wiring.nodes.len() as int));
    }
    lemma_latch_bits(s, row, val as nat, 0, 6);
}

/// Writing a sprite byte keeps a simulation sound.
pub proof fn lemma_sprite_write(s: SimView, addr: u16, val: u8)
    requires
        s.sound(),
        addr < SPRITE_RAM_SIZE,
    ensures
        s.sprite_write(addr, val).sound(),
        s.sprite_write(addr, val).kin(s),
        rails_kept(s.sprite_write(addr, val).circuit.wiring, s.circuit.wiring),
{
    let row = s.sprite_nodes[addr as int]@;
    assert(s.sprite_nodes[addr as int]@.len() >= 8);
    assert forall|k: int| 0 <= k < 8 implies latch_ok(
        #[trigger] row[k],
        s.circuit.wiring.nodes.len() as int,
    ) by {
        assert(latch_ok(s.sprite_nodes[addr as int]@[k], s.circuit.wiring.nodes.len() as int));
    }
    lemma_latch_bits(s, row, val as nat, 0, 8);
}

/// The chip-enable decoder keeps a simulation sound, and at rest if it
/// was.
pub proof fn lemma_decode_io(s: SimView)
    requires
        s.sound(),
    ensures
        s.decode_io().sound(),
        s.decode_io().kin(s),
        rails_kept(s.decode_io().circuit.wiring, s.circuit.wiring),
        at_rest(s) ==> at_rest(s.decode_io()),
{
    lemma_kin_chain(s, s, s);
    if !s.halted() {
        if s.step_cycle_count > 0 {
            let counted = SimView { step_cycle_count: (s.step_cycle_count - 1) as u8, ..s };
            lemma_set_high(counted, NODE_IO_CE);
        } else {
            lemma_set_low(SimView { step_cycle_count: 11, ..s }, NODE_IO_CE);
        }
    }
}

/// The cartridge's side of the bus keeps a simulation sound, and at rest
/// if it was.
pub proof fn lemma_handle_chr_bus(s: SimView)
    requires
        s.sound(),
    ensures
        s.handle_chr_bus().sound(),
        s.handle_chr_bus().kin(s),
        rails_kept(s.handle_chr_bus().circuit.wiring, s.circuit.wiring),
        at_rest(s) ==> at_rest(s.handle_chr_bus()),
{
    lemma_kin_chain(s, s, s);
    if !s.halted() {
        let ale = s.level(NODE_ALE);
        let latched = if !s.prev_ppu_ale && ale {
            SimView {
                chr_address: s.bits(ab_nodes()) as u16,
                last_address: s.bits(ab_nodes()) as u16,
                ..s
            }
        } else {
            s
        };
        lemma_pinned(latched);
        let value = latched.memory.ppu_read(latched.chr_address) as nat;
        lemma_write_bits_keeps_sound(latched.circuit, db_nodes(), value);
        lemma_float_bits_keeps_sound(latched.circuit, db_nodes());
        lemma_around(latched, latched.circuit.write_bits(db_nodes(), value));
        lemma_around(latched, latched.circuit.float_bits(db_nodes()));
        if s.settled() {
            lemma_write_bits_settles(latched.circuit, db_nodes(), value);
            lemma_float_bits_settles(latched.circuit, db_nodes());
        }
    }
}

/// The processor's side effects keep a simulation sound, and at rest if
/// it was.
pub proof fn lemma_handle_cpu_bus(s: SimView, prev_cpu_clk: bool)
    requires
        s.sound(),
    ensures
        s.handle_cpu_bus(prev_cpu_clk).sound(),
        s.handle_cpu_bus(prev_cpu_clk).kin(s),
        rails_kept(s.handle_cpu_bus(prev_cpu_clk).circuit.wiring, s.circuit.wiring),
        at_rest(s) ==> at_rest(s.handle_cpu_bus(prev_cpu_clk)),
{
    lemma_kin_chain(s, s, s);
    if !s.halted() {
        lemma_pinned(s);
        let read = s.memory.cpu_read(s.bits(cpu_ab_nodes()) as u16);
        lemma_write_bits_keeps_sound(s.circuit, cpu_db_nodes(), read.0 as nat);
        lemma_float_bits_keeps_sound(s.circuit, cpu_db_nodes());
        let seen = SimView {
            memory: (MemoryView { last_cpu_db_value: read.0, ..s.memory }),
            ..s
        };
        lemma_around(seen, s.circuit.write_bits(cpu_db_nodes(), read.0 as nat));
        lemma_around(s, s.circuit.float_bits(cpu_db_nodes()));
        if s.settled() {
            lemma_write_bits_settles(s.circuit, cpu_db_nodes(), read.0 as nat);
            lemma_float_bits_settles(s.circuit, cpu_db_nodes());
        }
    }
}

/// The video sampler keeps a simulation sound, and at rest if it was.
pub proof fn lemma_sample_video(s: SimView)
    requires
        s.sound(),
    ensures
        s.sample_video().sound(),
        s.sample_video().kin(s),
        rails_kept(s.sample_video().circuit.wiring, s.circuit.wiring),
        at_rest(s) ==> at_rest(s.sample_video()),
{
    lemma_kin_chain(s, s, s);
}

/// The invariants of the network hold from half-step to half-step:
/// after a half-step every transistor conducts exactly while its gate is
/// high, the rails have their levels, and nothing is queued; and if every
/// wire sat at the level of its component before, every wire does so
/// after, unless the simulation has halted.
pub proof fn lemma_half_step(s: SimView)
    requires
        s.sound(),
    ensures
        s.half_step().sound(),
        s.half_step().kin(s),
        rails_kept(s.half_step().circuit.wiring, s.circuit.wiring),
        at_rest(s) ==> at_rest(s.half_step()),
{
    lemma_kin_chain(s, s, s);
    if !s.halted() {
        let s1 = s.toggle_clock();
        lemma_toggle_clock(s);
        let s2 = s1.decode_io();
        lemma_decode_io(s1);
        lemma_kin_chain(s, s1, s2);
        let s3 = s2.handle_chr_bus();
        lemma_handle_chr_bus(s2);
        lemma_kin_chain(s, s2, s3);
        let s4 = s3.handle_cpu_bus(s.level(NODE_CPU_CLK0));
        lemma_handle_cpu_bus(s3, s.level(NODE_CPU_CLK0));
        lemma_kin_chain(s, s3, s4);
        lemma_sample_video(s4);
        lemma_kin_chain(s, s4, s4.sample_video());
    }
}

/// Putting in a cartridge that the simulation takes leaves it sound, and,
/// if every wire has a segment, at rest.
pub proof fn lemma_load_rom(s: SimView, rom: Cartridge)
    requires
        s.ready(),
        SimView::takes(rom),
    ensures
        s.load_rom(rom).sound(),
        s.load_rom(rom).powered_up(),
        s.load_rom(rom).kin(s),
        rails_kept(s.load_rom(rom).circuit.wiring, s.circuit.wiring),
        s.relaxes_every_wire() ==> at_rest(s.load_rom(rom)),
{
    let mirrored = SimView { memory: (MemoryView { mirroring: rom.mirroring, ..s.memory }), ..s };
    assert(mirrored.ready());
    lemma_power_on(mirrored);
    let started = mirrored.power_on();
    if !started.halted() {
        let image = SimView::program_image(rom.prg@);
        let filled = started.memory.loaded(MemoryType::ChrRam, rom.chr@).loaded(
            MemoryType::PrgRam,
            image,
        );
        assert(filled.wf());
    }
}

/// Two simulations that are equal stay equal: what a half-step, a
/// power-on and a reset make of a simulation depends on nothing else.
pub proof fn lemma_deterministic(a: SimView, b: SimView, soft_reset: bool)
    requires
        a == b,
    ensures
        a.init(soft_reset) == b.init(soft_reset),
        a.half_step() == b.half_step(),
        a.init(soft_reset).half_step() == b.init(soft_reset).half_step(),
{
}

/// Every colour of the palette is opaque: its highest byte is 0xFF.
pub proof fn lemma_palette_opaque()
    ensures
        forall|i: int| 0 <= i < 64 ==> (#[trigger] PALETTE_ARGB[i]) >= 0xFF00_0000,
{
    assert(PALETTE_ARGB[0] >= 0xFF00_0000);
    assert(PALETTE_ARGB[1] >= 0xFF00_0000);
    assert(PALETTE_ARGB[2] >= 0xFF00_0000);
    assert(PALETTE_ARGB[3] >= 0xFF00_0000);
    assert(PALETTE_ARGB[4] >= 0xFF00_0000);
    assert(PALETTE_ARGB[5] >= 0xFF00_0000);
    assert(PALETTE_ARGB[6] >= 0xFF00_0000);
    assert(PALETTE_ARGB[7] >= 0xFF00_0000);
    assert(PALETTE_ARGB[8] >= 0xFF00_0000);
    assert(PALETTE_ARGB[9] >= 0xFF00_0000);
    assert(PALETTE_ARGB[10] >= 0xFF00_0000);
    assert(PALETTE_ARGB[11] >= 0xFF00_0000);
    assert(PALETTE_ARGB[12] >= 0xFF00_0000);
    assert(PALETTE_ARGB[13] >= 0xFF00_0000);
    assert(PALETTE_ARGB[14] >= 0xFF00_0000);
    assert(PALETTE_ARGB[15] >= 0xFF00_0000);
    assert(PALETTE_ARGB[16] >= 0xFF00_0000);
    assert(PALETTE_ARGB[17] >= 0xFF00_0000);
    assert(PALETTE_ARGB[18] >= 0xFF00_0000);
    assert(PALETTE_ARGB[19] >= 0xFF00_0000);
    assert(PALETTE_ARGB[20] >= 0xFF00_0000);
    assert(PALETTE_ARGB[21] >= 0xFF00_0000);
    assert(PALETTE_ARGB[22] >= 0xFF00_0000);
    assert(PALETTE_ARGB[23] >= 0xFF00_0000);
    assert(PALETTE_ARGB[24] >= 0xFF00_0000);
    assert(PALETTE_ARGB[25] >= 0xFF00_0000);
    assert(PALETTE_ARGB[26] >= 0xFF00_0000);
    assert(PALETTE_ARGB[27] >= 0xFF00_0000);
    assert(PALETTE_ARGB[28] >= 0xFF00_0000);
    assert(PALETTE_ARGB[29] >= 0xFF00_0000);
    assert(PALETTE_ARGB[30] >= 0xFF00_0000);
    assert(PALETTE_ARGB[31] >= 0xFF00_0000);
    assert(PALETTE_ARGB[32] >= 0xFF00_0000);
    assert(PALETTE_ARGB[33] >= 0xFF00_0000);
    assert(PALETTE_ARGB[34] >= 0xFF00_0000);
    assert(PALETTE_ARGB[35] >= 0xFF00_0000);
    assert(PALETTE_ARGB[36] >= 0xFF00_0000);
    assert(PALETTE_ARGB[37] >= 0xFF00_0000);
    assert(PALETTE_ARGB[38] >= 0xFF00_0000);
    assert(PALETTE_ARGB[39] >= 0xFF00_0000);
    assert(PALETTE_ARGB[40] >= 0xFF00_0000);
    assert(PALETTE_ARGB[41] >= 0xFF00_0000);
    assert(PALETTE_ARGB[42] >= 0xFF00_0000);
    assert(PALETTE_ARGB[43] >= 0xFF00_0000);
    assert(PALETTE_ARGB[44] >= 0xFF00_0000);
    assert(PALETTE_ARGB[45] >= 0xFF00_0000);
    assert(PALETTE_ARGB[46] >= 0xFF00_0000);
    assert(PALETTE_ARGB[47] >= 0xFF00_0000);
    assert(PALETTE_ARGB[48] >= 0xFF00_0000);
    assert(PALETTE_ARGB[49] >= 0xFF00_0000);
    assert(PALETTE_ARGB[50] >= 0xFF00_0000);
    assert(PALETTE_ARGB[51] >= 0xFF00_0000);
    assert(PALETTE_ARGB[52] >= 0xFF00_0000);
    assert(PALETTE_ARGB[53] >= 0xFF00_0000);
    assert(PALETTE_ARGB[54] >= 0xFF00_0000);
    assert(PALETTE_ARGB[55] >= 0xFF00_0000);
    assert(PALETTE_ARGB[56] >= 0xFF00_0000);
    assert(PALETTE_ARGB[57] >= 0xFF00_0000);
    assert(PALETTE_ARGB[58] >= 0xFF00_0000);
    assert(PALETTE_ARGB[59] >= 0xFF00_0000);
    assert(PALETTE_ARGB[60] >= 0xFF00_0000);
    assert(PALETTE_ARGB[61] >= 0xFF00_0000);
    assert(PALETTE_ARGB[62] >= 0xFF00_0000);
    assert(PALETTE_ARGB[63] >= 0xFF00_0000);
}

/// A pixel that the video sampler writes is an opaque colour of the
/// palette, and it writes no other pixel.
pub proof fn lemma_sampled_pixel(s: SimView)
    requires
        s.wf(),
    ensures
        s.sample_video().framebuffer.len() == s.framebuffer.len(),
        forall|p: int|
            0 <= p < s.framebuffer.len() ==> (#[trigger] s.sample_video().framebuffer[p])
                == s.framebuffer[p] || s.sample_video().framebuffer[p] >= 0xFF00_0000,
{
    lemma_palette_opaque();
    crate::lemma_pinned_lists();
    crate::circuit::lemma_bits_value_bound(s.circuit.wiring, crate::sim_view::pal_nodes());
    vstd::arithmetic::power2::lemma2_to64();
}

/// Whether `after` is `before` around another circuit in which every
/// wire but `node` has the pulls it had, and is `before` itself if that
/// had halted.
pub open spec fn repulled(after: SimView, before: SimView, node: int) -> bool {
    &&& after == before.around(after.circuit)
    &&& pulls_kept_but(after.circuit.wiring, before.circuit.wiring, node)
    &&& before.halted() ==> after == before
}

/// `repulled` chains where the two steps spare the same wire, or one
/// spares none.
pub proof fn lemma_repulled_chain(a: SimView, b: SimView, c: SimView, node: int)
    requires
        repulled(b, a, node) || repulled(b, a, -1),
        repulled(c, b, node) || repulled(c, b, -1),
    ensures
        repulled(c, a, node),
{
    assert forall|n: int|
        0 <= n < c.circuit.wiring.nodes.len() && n != node implies (
    #[trigger] c.circuit.wiring.nodes[n]).pullup == a.circuit.wiring.nodes[n].pullup
        && c.circuit.wiring.nodes[n].pulldown == a.circuit.wiring.nodes[n].pulldown by {
        assert(b.circuit.wiring.nodes[n].pullup == a.circuit.wiring.nodes[n].pullup);
    }
}

/// Pulling a wire up leaves it pulled up, unless the simulation had
/// halted, and every other wire with the pulls it had.
pub proof fn lemma_set_high_marks(s: SimView, node: u16)
    requires
        s.sound(),
        node < s.circuit.wiring.nodes.len(),
    ensures
        repulled(s.set_high(node), s, node as int),
        !s.halted() ==> s.set_high(node).pulled_up(node),
{
    if !s.halted() {
        lemma_pull_marks(s.circuit, node, true, false);
    }
}

/// Pulling a wire down leaves it pulled down, unless the simulation had
/// halted, and every other wire with the pulls it had.
pub proof fn lemma_set_low_marks(s: SimView, node: u16)
    requires
        s.sound(),
        node < s.circuit.wiring.nodes.len(),
    ensures
        repulled(s.set_low(node), s, node as int),
        !s.halted() ==> s.set_low(node).pulled_down(node),
{
    if !s.halted() {
        lemma_pull_marks(s.circuit, node, false, true);
    }
}

/// Ticking the master clock leaves it pulled down, unless the simulation
/// halts, and every other wire with the pulls it had.
pub proof fn lemma_clocked_marks(s: SimView, n: nat)
    requires
        s.sound(),
    ensures
        repulled(s.clocked(n), s, NODE_CLK0 as int),
        n > 0 && !s.clocked(n).halted() ==> s.clocked(n).pulled_down(NODE_CLK0),
    decreases n,
{
    if n > 0 {
        let up = s.set_high(NODE_CLK0);
        let down = up.set_low(NODE_CLK0);
        lemma_set_high(s, NODE_CLK0);
        lemma_set_high_marks(s, NODE_CLK0);
        lemma_set_low(up, NODE_CLK0);
        lemma_set_low_marks(up, NODE_CLK0);
        lemma_clocked(down, (n - 1) as nat);
        lemma_clocked_marks(down, (n - 1) as nat);
        lemma_repulled_chain(s, up, down, NODE_CLK0 as int);
        lemma_repulled_chain(s, down, s.clocked(n), NODE_CLK0 as int);
        if !s.clocked(n).halted() {
            assert(!down.halted());
            assert(!up.halted());
            assert(down.pulled_down(NODE_CLK0));
        }
    }
}

/// Toggling the master clock leaves every other wire with the pulls it
/// had.
pub proof fn lemma_toggled_marks(s: SimView, n: nat)
    requires
        s.sound(),
    ensures
        repulled(s.toggled(n), s, NODE_CLK0 as int),
    decreases n,
{
    if n > 0 {
        let next = s.toggle_clock();
        lemma_toggle_clock(s);
        lemma_set_high_marks(s, NODE_CLK0);
        lemma_set_low_marks(s, NODE_CLK0);
        lemma_toggled_marks(next, (n - 1) as nat);
        lemma_repulled_chain(s, next, s.toggled(n), NODE_CLK0 as int);
    }
}

/// A reset that does not halt leaves reset pulled up and the bus
/// snapshot reset, and leaves the memories and the picture as they were.
pub proof fn lemma_soft_reset_marks(s: SimView)
    requires
        s.sound(),
    ensures
        !s.soft_reset().halted() ==> s.soft_reset().restarted(),
        s.soft_reset().memory == s.memory,
        s.soft_reset().framebuffer == s.framebuffer,
{
    if !s.halted() {
        let cleared = s.bus_reset();
        let held = cleared.set_low(NODE_RESET);
        lemma_set_low(cleared, NODE_RESET);
        lemma_set_low_marks(cleared, NODE_RESET);
        let toggled = held.toggled(193);
        lemma_toggled(held, 193);
        lemma_toggled_marks(held, 193);
        lemma_set_high_marks(toggled, NODE_RESET);
    }
}

/// A power-on that does not halt leaves reset, chip enable and the
/// interrupt lines pulled up, the clock and the overflow input pulled
/// down, the memories and the picture zero, and the bus snapshot reset.
pub proof fn lemma_power_on_marks(s: SimView)
    requires
        s.sound(),
    ensures
        !s.power_on().halted() ==> s.power_on().started(),
{
    lemma_power_on_sound(s.circuit);
    let fresh = SimView {
        circuit: s.circuit.powered_on(),
        memory: s.memory.cleared(),
        framebuffer: Seq::new((SCREEN_WIDTH * SCREEN_HEIGHT) as nat, |i: int| 0u32),
        ..s.bus_reset()
    };
    lemma_links_faithful_carries(s.circuit.wiring, fresh.circuit.wiring);
    assert(fresh.sound());
    assert(fresh.memory.cleared() == fresh.memory) by {
        assert(fresh.memory.cleared().cpu_ram =~= fresh.memory.cpu_ram);
    }
    let s1 = fresh.set_low(NODE_RESET);
    lemma_set_low(fresh, NODE_RESET);
    lemma_set_low_marks(fresh, NODE_RESET);
    let s2 = s1.set_low(NODE_CLK0);
    lemma_set_low(s1, NODE_CLK0);
    lemma_set_low_marks(s1, NODE_CLK0);
    let s3 = s2.set_high(NODE_IO_CE);
    lemma_set_high(s2, NODE_IO_CE);
    lemma_set_high_marks(s2, NODE_IO_CE);
    let s4 = s3.set_high(NODE_INT);
    lemma_set_high(s3, NODE_INT);
    lemma_set_high_marks(s3, NODE_INT);
    let s5 = s4.clocked(6);
    lemma_clocked(s4, 6);
    lemma_clocked_marks(s4, 6);
    let s6 = s5.set_low(NODE_CPU_SO);
    lemma_set_low(s5, NODE_CPU_SO);
    lemma_set_low_marks(s5, NODE_CPU_SO);
    let s7 = s6.set_high(NODE_CPU_IRQ);
    lemma_set_high(s6, NODE_CPU_IRQ);
    lemma_set_high_marks(s6, NODE_CPU_IRQ);
    let s8 = s7.set_high(NODE_CPU_NMI);
    lemma_set_high(s7, NODE_CPU_NMI);
    lemma_set_high_marks(s7, NODE_CPU_NMI);
    let relaxed = s8.circuit.relax(s8.all_recalc_nodes);
    lemma_relax_keeps_sound(s8.circuit, s8.all_recalc_nodes);
    crate::laws::lemma_relax_marks(s8.circuit, s8.all_recalc_nodes);
    let s9 = s8.around(relaxed);
    lemma_around(s8, relaxed);
    let s10 = s9.clocked(96);
    lemma_clocked(s9, 96);
    lemma_clocked_marks(s9, 96);
    let s11 = s10.set_high(NODE_RESET);
    lemma_set_high_marks(s10, NODE_RESET);
    assert(s11 == s.power_on());
    if !s11.halted() {
        assert(!s10.halted() && !s9.halted() && !s8.halted() && !s7.halted() && !s6.halted()
            && !s5.halted() && !s4.halted() && !s3.halted() && !s2.halted() && !s1.halted());
        assert(s11.pulled_up(NODE_RESET));
        assert(s10.pulled_down(NODE_CLK0));
        assert(s3.pulled_up(NODE_IO_CE));
        assert(s4.pulled_up(NODE_INT));
        assert(s5.pulled_up(NODE_IO_CE));
        assert(s6.pulled_down(NODE_CPU_SO));
        assert(s7.pulled_up(NODE_CPU_IRQ));
        assert(s8.pulled_up(NODE_CPU_NMI));
        assert(s8.pulled_up(NODE_IO_CE) && s8.pulled_down(NODE_CPU_SO) && s8.pulled_up(
            NODE_CPU_IRQ,
        ));
        assert(s9.pulled_up(NODE_IO_CE) && s9.pulled_down(NODE_CPU_SO) && s9.pulled_up(
            NODE_CPU_IRQ,
        ) && s9.pulled_up(NODE_INT));
        assert(s10.pulled_up(NODE_IO_CE) && s10.pulled_down(NODE_CPU_SO) && s10.pulled_up(
            NODE_CPU_IRQ,
        ) && s10.pulled_up(NODE_INT));
    }
}

/// What ticking the master clock makes of the circuit depends on the
/// circuit alone.
pub proof fn lemma_clocked_circuit(a: SimView, b: SimView, n: nat)
    requires
        a.circuit == b.circuit,
    ensures
        a.clocked(n).circuit == b.clocked(n).circuit,
        a.clocked(n) == a.around(a.clocked(n).circuit),
        b.clocked(n) == b.around(b.clocked(n).circuit),
    decreases n,
{
    if n > 0 {
        lemma_clocked_circuit(
            a.set_high(NODE_CLK0).set_low(NODE_CLK0),
            b.set_high(NODE_CLK0).set_low(NODE_CLK0),
            (n - 1) as nat,
        );
    }
}

/// What power-on makes of the circuit depends on the circuit and on the
/// list of wires to relax alone: not on the memories, the picture or the
/// bus snapshot.
pub proof fn lemma_power_on_circuit(a: SimView, b: SimView)
    requires
        a.circuit == b.circuit,
        a.all_recalc_nodes == b.all_recalc_nodes,
    ensures
        a.power_on().circuit == b.power_on().circuit,
{
    let fresh_a = SimView {
        circuit: a.circuit.powered_on(),
        memory: a.memory.cleared(),
        framebuffer: Seq::new((SCREEN_WIDTH * SCREEN_HEIGHT) as nat, |i: int| 0u32),
        ..a.bus_reset()
    };
    let fresh_b = SimView {
        circuit: b.circuit.powered_on(),
        memory: b.memory.cleared(),
        framebuffer: Seq::new((SCREEN_WIDTH * SCREEN_HEIGHT) as nat, |i: int| 0u32),
        ..b.bus_reset()
    };
    let a4 = fresh_a.set_low(NODE_RESET).set_low(NODE_CLK0).set_high(NODE_IO_CE).set_high(
        NODE_INT,
    );
    let b4 = fresh_b.set_low(NODE_RESET).set_low(NODE_CLK0).set_high(NODE_IO_CE).set_high(
        NODE_INT,
    );
    lemma_clocked_circuit(a4, b4, 6);
    let a8 = a4.clocked(6).set_low(NODE_CPU_SO).set_high(NODE_CPU_IRQ).set_high(NODE_CPU_NMI);
    let b8 = b4.clocked(6).set_low(NODE_CPU_SO).set_high(NODE_CPU_IRQ).set_high(NODE_CPU_NMI);
    assert(a8.all_recalc_nodes == b8.all_recalc_nodes);
    let a9 = a8.around(a8.circuit.relax(a8.all_recalc_nodes));
    let b9 = b8.around(b8.circuit.relax(b8.all_recalc_nodes));
    lemma_clocked_circuit(a9, b9, 96);
}

/// Putting a cartridge in leaves the network as power-on alone leaves
/// it: what the cartridge holds changes no wire and no transistor.
pub proof fn lemma_load_rom_circuit(s: SimView, rom: Cartridge)
    ensures
        s.load_rom(rom).circuit == s.power_on().circuit,
{
    let mirrored = SimView { memory: (MemoryView { mirroring: rom.mirroring, ..s.memory }), ..s };
    lemma_power_on_circuit(mirrored, s);
}

} // verus!
