pub mod circuit;
pub mod components;
pub mod connectivity;
pub mod consts;
pub mod errors;
pub mod laws;
pub mod loader;
pub mod memory;
pub mod preprocessor;
pub mod processed_nodes_map;
pub mod recalc_swap_list;
pub mod settling;
pub mod sim_laws;
pub mod sim_view;
pub mod tables;
pub mod walk_laws;
pub mod wiring;

use vstd::prelude::*;
use vstd::arithmetic::power2::lemma2_to64;
use crate::circuit::{lemma_bits_value_bound, Circuit};
use crate::consts::{
    SPRITE_RAM_SIZE, PALETTE_RAM_SIZE, EMPTYNODE, NODE_GND, NODE_PWR, NODE_CLK0, NODE_RESET,
    NODE_IO_CE, NODE_INT, NODE_ALE, NODE_RD, NODE_WR, NODE_CPU_SO, NODE_CPU_IRQ, NODE_CPU_NMI,
    NODE_CPU_CLK0, NODE_AB0, NODE_AB1, NODE_AB2, NODE_AB3, NODE_AB4, NODE_AB5, NODE_AB6, NODE_AB7,
    NODE_AB8, NODE_AB9, NODE_AB10, NODE_AB11, NODE_AB12, NODE_AB13, NODE_CPU_AB0, NODE_CPU_AB1,
    NODE_CPU_AB2, NODE_CPU_AB3, NODE_CPU_AB4, NODE_CPU_AB5, NODE_CPU_AB6, NODE_CPU_AB7,
    NODE_CPU_AB8, NODE_CPU_AB9, NODE_CPU_AB10, NODE_CPU_AB11, NODE_CPU_AB12, NODE_CPU_AB13,
    NODE_CPU_AB14, NODE_CPU_AB15, NODE_CPU_DB0, NODE_CPU_DB1, NODE_CPU_DB2, NODE_CPU_DB3,
    NODE_CPU_DB4, NODE_CPU_DB5, NODE_CPU_DB6, NODE_CPU_DB7, NODE_DB0, NODE_DB1, NODE_DB2, NODE_DB3,
    NODE_DB4, NODE_DB5, NODE_DB6, NODE_DB7, NODE_CPU_RW, NODE_PAL_D0_OUT, NODE_PAL_D1_OUT,
    NODE_PAL_D2_OUT, NODE_PAL_D3_OUT, NODE_PAL_D4_OUT, NODE_PAL_D5_OUT, NODE_PCLK1, NODE_HPOS0,
    NODE_HPOS1, NODE_HPOS2, NODE_HPOS3, NODE_HPOS4, NODE_HPOS5, NODE_HPOS6, NODE_HPOS7, NODE_HPOS8,
    NODE_VPOS0, NODE_VPOS1, NODE_VPOS2, NODE_VPOS3, NODE_VPOS4, NODE_VPOS5, NODE_VPOS6, NODE_VPOS7,
    NODE_VPOS8, MAX_NODES, PINNED_NODES, SCREEN_WIDTH, SCREEN_HEIGHT, PALETTE_ARGB,
};
use crate::components::{Node, NodeDefinition, Transistor, TransistorDefinition};
use crate::errors::{BuildError, SimError};
use crate::preprocessor::{
    any_crowded, any_dangling, area_after, area_overflows, canonical, defined_by, gained_gates,
    gates_after, highest_id, lemma_end_is_linked, lemma_gated_is_listed, lemma_gates_are_gated,
    lemma_gates_below, lemma_links_are_ends, lemma_links_below, lemma_undefined_is_empty,
    links_after, node_matches, pullup_after, row_holds, segments_ok, setup_nodes, setup_transistors,
};
use crate::wiring::{is_rail, Wiring};
use crate::memory::{Memory, MemoryType, MemoryView, MirroringType, CHR_RAM_SIZE, PRG_RAM_SIZE};
use crate::laws::rails_kept;
use crate::sim_laws::{
    lemma_load_rom_circuit, lemma_power_on_marks, lemma_soft_reset_marks,
    lemma_float_bits, lemma_write_bits,
    at_rest, lemma_half_step, lemma_load_rom, lemma_palette_write, lemma_power_on, lemma_set_high,
    lemma_set_low, lemma_soft_reset, lemma_sprite_write,
};
use crate::sim_view::{
    ab_nodes, cpu_ab_nodes, cpu_db_nodes, db_nodes, hpos_nodes, latch_ok, latches_ok,
    packed_half, packed_marks, packed_switch, pal_nodes, vpos_nodes, Cartridge, SimView,
};

verus! {

/// The simulated machine: the network of both chips, the memories around
/// them, the glue logic's state and the picture.
pub struct SimulationState {
    circuit: Circuit,
    memory: Memory,
    all_recalc_nodes: Vec<u16>,
    step_cycle_count: u8,
    prev_ppu_ale: bool,
    prev_ppu_write: bool,
    prev_ppu_read: bool,
    chr_address: u16,
    last_address: u16,
    last_data: u8,
    prev_hpos: i32,
    ppu_framebuffer: Vec<u32>,
    sprite_nodes: Vec<Vec<(i32, i32)>>,
    palette_nodes: Vec<Vec<(i32, i32)>>,
}

impl View for SimulationState {
    type V = SimView;

    closed spec fn view(&self) -> SimView {
        SimView {
            circuit: self.circuit@,
            memory: self.memory@,
            all_recalc_nodes: self.all_recalc_nodes@,
            step_cycle_count: self.step_cycle_count,
            prev_ppu_ale: self.prev_ppu_ale,
            prev_ppu_write: self.prev_ppu_write,
            prev_ppu_read: self.prev_ppu_read,
            chr_address: self.chr_address,
            last_address: self.last_address,
            last_data: self.last_data,
            prev_hpos: self.prev_hpos,
            framebuffer: self.ppu_framebuffer@,
            sprite_nodes: self.sprite_nodes@,
            palette_nodes: self.palette_nodes@,
        }
    }
}

/// Every wire of the pinned bus lists lies below the bound that a
/// well-formed simulation has wires for.
pub proof fn lemma_pinned_lists()
    ensures
        forall|k: int| 0 <= k < db_nodes().len() ==> (#[trigger] db_nodes()[k]) < PINNED_NODES,
        forall|k: int| 0 <= k < ab_nodes().len() ==> (#[trigger] ab_nodes()[k]) < PINNED_NODES,
        forall|k: int|
            0 <= k < cpu_db_nodes().len() ==> (#[trigger] cpu_db_nodes()[k]) < PINNED_NODES,
        forall|k: int|
            0 <= k < cpu_ab_nodes().len() ==> (#[trigger] cpu_ab_nodes()[k]) < PINNED_NODES,
        forall|k: int| 0 <= k < hpos_nodes().len() ==> (#[trigger] hpos_nodes()[k]) < PINNED_NODES,
        forall|k: int| 0 <= k < vpos_nodes().len() ==> (#[trigger] vpos_nodes()[k]) < PINNED_NODES,
        forall|k: int| 0 <= k < pal_nodes().len() ==> (#[trigger] pal_nodes()[k]) < PINNED_NODES,
        db_nodes().len() == 8,
        ab_nodes().len() == 14,
        cpu_db_nodes().len() == 8,
        cpu_ab_nodes().len() == 16,
        hpos_nodes().len() == 9,
        vpos_nodes().len() == 9,
        pal_nodes().len() == 6,
{
}

fn db_list() -> (nodes: [u16; 8])
    ensures
        nodes@ == db_nodes(),
{
    let nodes = [NODE_DB0, NODE_DB1, NODE_DB2, NODE_DB3, NODE_DB4, NODE_DB5, NODE_DB6, NODE_DB7];
    assert(nodes@ =~= db_nodes());
    nodes
}

fn cpu_db_list() -> (nodes: [u16; 8])
    ensures
        nodes@ == cpu_db_nodes(),
{
    let nodes = [
        NODE_CPU_DB0,
        NODE_CPU_DB1,
        NODE_CPU_DB2,
        NODE_CPU_DB3,
        NODE_CPU_DB4,
        NODE_CPU_DB5,
        NODE_CPU_DB6,
        NODE_CPU_DB7,
    ];
    assert(nodes@ =~= cpu_db_nodes());
    nodes
}

fn ab_list() -> (nodes: [u16; 14])
    ensures
        nodes@ == ab_nodes(),
{
    let nodes = [
        NODE_AB0,
        NODE_AB1,
        NODE_AB2,
        NODE_AB3,
        NODE_AB4,
        NODE_AB5,
        NODE_AB6,
        NODE_AB7,
        NODE_AB8,
        NODE_AB9,
        NODE_AB10,
        NODE_AB11,
        NODE_AB12,
        NODE_AB13,
    ];
    assert(nodes@ =~= ab_nodes());
    nodes
}

fn cpu_ab_list() -> (nodes: [u16; 16])
    ensures
        nodes@ == cpu_ab_nodes(),
{
    let nodes = [
        NODE_CPU_AB0,
        NODE_CPU_AB1,
        NODE_CPU_AB2,
        NODE_CPU_AB3,
        NODE_CPU_AB4,
        NODE_CPU_AB5,
        NODE_CPU_AB6,
        NODE_CPU_AB7,
        NODE_CPU_AB8,
        NODE_CPU_AB9,
        NODE_CPU_AB10,
        NODE_CPU_AB11,
        NODE_CPU_AB12,
        NODE_CPU_AB13,
        NODE_CPU_AB14,
        NODE_CPU_AB15,
    ];
    assert(nodes@ =~= cpu_ab_nodes());
    nodes
}

fn hpos_list() -> (nodes: [u16; 9])
    ensures
        nodes@ == hpos_nodes(),
{
    let nodes = [
        NODE_HPOS0,
        NODE_HPOS1,
        NODE_HPOS2,
        NODE_HPOS3,
        NODE_HPOS4,
        NODE_HPOS5,
        NODE_HPOS6,
        NODE_HPOS7,
        NODE_HPOS8,
    ];
    assert(nodes@ =~= hpos_nodes());
    nodes
}

fn vpos_list() -> (nodes: [u16; 9])
    ensures
        nodes@ == vpos_nodes(),
{
    let nodes = [
        NODE_VPOS0,
        NODE_VPOS1,
        NODE_VPOS2,
        NODE_VPOS3,
        NODE_VPOS4,
        NODE_VPOS5,
        NODE_VPOS6,
        NODE_VPOS7,
        NODE_VPOS8,
    ];
    assert(nodes@ =~= vpos_nodes());
    nodes
}

fn pal_list() -> (nodes: [u16; 6])
    ensures
        nodes@ == pal_nodes(),
{
    let nodes = [
        NODE_PAL_D0_OUT,
        NODE_PAL_D1_OUT,
        NODE_PAL_D2_OUT,
        NODE_PAL_D3_OUT,
        NODE_PAL_D4_OUT,
        NODE_PAL_D5_OUT,
    ];
    assert(nodes@ =~= pal_nodes());
    nodes
}

/// `Ok` for a network that has settled, `Diverged` for one that has not.
fn outcome(settled: bool) -> (result: Result<(), SimError>)
    ensures
        result is Ok <==> settled,
        result matches Err(e) ==> e == SimError::Diverged,
{
    if settled {
        Ok(())
    } else {
        Err(SimError::Diverged)
    }
}

impl SimulationState {
    /// The scratch state of the circuit is consistent and empty: no wire
    /// is in either work list, no queued bit is set, and the group buffer
    /// holds nothing.
    pub closed spec fn scratch_ok(&self) -> bool {
        self.circuit.scratch_ok() && self.circuit.scratch_empty()
    }

    /// The simulation is sound, that is, well formed, with faithful tables
    /// and transistors that follow their gates, and its scratch state is
    /// empty.
    pub open spec fn inv(&self) -> bool {
        self@.sound() && self.scratch_ok()
    }

    /// Number of wires.
    pub open spec fn size(&self) -> int {
        self@.circuit.wiring.nodes.len() as int
    }

    /// Whether a relaxation has failed to settle since power-on.
    pub fn is_halted(&self) -> (halted: bool)
        ensures
            halted == self@.halted(),
    {
        self.circuit.is_diverged()
    }

    /// Number of wires.
    pub fn node_count(&self) -> (count: usize)
        ensures
            count == self.size(),
    {
        self.circuit.node_count()
    }

    /// Number of transistors.
    pub fn transistor_count(&self) -> (count: usize)
        ensures
            count == self@.circuit.wiring.transistors.len(),
    {
        self.circuit.transistor_count()
    }

    /// Wire `node_number`.
    pub fn node(&self, node_number: usize) -> (node: &Node)
        requires
            node_number < self.size(),
        ensures
            *node == self@.circuit.wiring.nodes[node_number as int],
    {
        self.circuit.node(node_number)
    }

    /// Transistor `index`.
    pub fn transistor(&self, index: usize) -> (transistor: &Transistor)
        requires
            index < self@.circuit.wiring.transistors.len(),
        ensures
            *transistor == self@.circuit.wiring.transistors[index as int],
    {
        self.circuit.transistor(index)
    }

    /// Holds the network against a snapshot: the marks of every wire, two
    /// wires to a byte, and the switch of every transistor, eight to a
    /// byte.
    pub fn verify_state(&self, node_bytes: &[u8], transistor_bytes: &[u8]) -> (same: bool)
        ensures
            same == self@.shown_by(node_bytes@, transistor_bytes@),
    {
        let node_total = self.circuit.node_count();
        let transistor_total = self.circuit.transistor_count();
        if node_bytes.len() != node_total / 2 + node_total % 2 || transistor_bytes.len()
            != transistor_total / 8 + (if transistor_total % 8 != 0 {
            1usize
        } else {
            0usize
        }) {
            return false;
        }
        let mut n: usize = 0;
        while n < node_total
            invariant
                node_total == self@.circuit.wiring.nodes.len(),
                node_bytes@.len() == (node_total + 1) / 2,
                n <= node_total,
                forall|m: int|
                    0 <= m < n ==> packed_marks(packed_half(node_bytes@, m)) == (
                        (#[trigger] self@.circuit.wiring.nodes[m]).floating,
                        self@.circuit.wiring.nodes[m].pulldown,
                        self@.circuit.wiring.nodes[m].pullup,
                        self@.circuit.wiring.nodes[m].state,
                    ),
            decreases node_total - n,
        {
            let byte = node_bytes[n / 2];
            let half = if n % 2 == 0 {
                byte % 16
            } else {
                byte / 16
            };
            let node = self.circuit.node(n);
            if (half % 2 == 1) != node.floating || ((half / 2) % 2 == 1) != node.pulldown || ((half
                / 4) % 2 == 1) != node.pullup || ((half / 8) % 2 == 1) != node.state {
                assert(packed_marks(packed_half(node_bytes@, n as int)) != (
                    self@.circuit.wiring.nodes[n as int].floating,
                    self@.circuit.wiring.nodes[n as int].pulldown,
                    self@.circuit.wiring.nodes[n as int].pullup,
                    self@.circuit.wiring.nodes[n as int].state,
                ));
                return false;
            }
            n += 1;
        }
        let mut t: usize = 0;
        while t < transistor_total
            invariant
                transistor_total == self@.circuit.wiring.transistors.len(),
                transistor_bytes@.len() == (transistor_total + 7) / 8,
                t <= transistor_total,
                forall|u: int|
                    0 <= u < t ==> packed_switch(transistor_bytes@, u) == (
                    #[trigger] self@.circuit.wiring.transistors[u]).on,
            decreases transistor_total - t,
        {
            let byte = transistor_bytes[t / 8];
            let bit = t % 8;
            let weight: u8 = if bit == 0 {
                1
            } else if bit == 1 {
                2
            } else if bit == 2 {
                4
            } else if bit == 3 {
                8
            } else if bit == 4 {
                16
            } else if bit == 5 {
                32
            } else if bit == 6 {
                64
            } else {
                128
            };
            if ((byte / weight) % 2 == 1) != self.circuit.transistor(t).on {
                assert(packed_switch(transistor_bytes@, t as int)
                    != self@.circuit.wiring.transistors[t as int].on);
                return false;
            }
            t += 1;
        }
        true
    }

    /// Whether program and character memory hold exactly the two references.
    pub fn verify_ram_state(&self, reference_prg: &[u8], reference_chr: &[u8]) -> (same: bool)
        ensures
            same == (self@.memory.prg_ram == reference_prg@ && self@.memory.chr_ram
                == reference_chr@),
    {
        self.memory.holds(MemoryType::PrgRam, reference_prg) && self.memory.holds(
            MemoryType::ChrRam,
            reference_chr,
        )
    }

    /// The wires that power-on relaxes: those that have a segment and are
    /// no rail.
    pub fn all_nodes(&self) -> (nodes: &Vec<u16>)
        ensures
            nodes@ == self@.all_recalc_nodes,
    {
        &self.all_recalc_nodes
    }

    /// Half-steps left until chip enable is raised again.
    pub fn step_cycle_count(&self) -> (count: u8)
        ensures
            count == self@.step_cycle_count,
    {
        self.step_cycle_count
    }

    /// The address latched from the picture chip's address bus.
    pub fn chr_address(&self) -> (address: u16)
        ensures
            address == self@.chr_address,
    {
        self.chr_address
    }

    /// The picture chip's data bus as last sampled while it was driven.
    pub fn last_data(&self) -> (data: u8)
        ensures
            data == self@.last_data,
    {
        self.last_data
    }

    /// The mirroring in force.
    pub fn mirroring(&self) -> (mirroring: MirroringType)
        ensures
            mirroring == self@.memory.mirroring,
    {
        self.memory.mirroring()
    }

    /// The present level of wire `node_number`.
    pub fn is_node_high(&self, node_number: u16) -> (high: bool)
        requires
            node_number < self.size(),
        ensures
            high == self@.level(node_number),
    {
        self.circuit.is_node_high(node_number)
    }

    /// The present level of wire `node_number` as 0 or 1.
    pub fn read_bit(&self, node_number: u16) -> (bit: u8)
        requires
            node_number < self.size(),
        ensures
            bit == if self@.level(node_number) {
                1u8
            } else {
                0u8
            },
    {
        if self.circuit.is_node_high(node_number) {
            1
        } else {
            0
        }
    }

    /// Pulls wire `node_number` up and relaxes from it.
    pub fn set_high(&mut self, node_number: u16) -> (result: Result<(), SimError>)
        requires
            old(self).inv(),
            node_number < old(self).size(),
        ensures
            final(self).inv(),
            final(self)@ == old(self)@.set_high(node_number),
            result is Ok <==> !final(self)@.halted(),
            result matches Err(e) ==> e == SimError::Diverged,
            rails_kept(final(self)@.circuit.wiring, old(self)@.circuit.wiring),
            at_rest(old(self)@) ==> at_rest(final(self)@),
    {
        let settled = self.circuit.set_high(node_number);
        proof {
            lemma_set_high(old(self)@, node_number);
        }
        outcome(settled)
    }

    /// Pulls wire `node_number` down and relaxes from it.
    pub fn set_low(&mut self, node_number: u16) -> (result: Result<(), SimError>)
        requires
            old(self).inv(),
            node_number < old(self).size(),
        ensures
            final(self).inv(),
            final(self)@ == old(self)@.set_low(node_number),
            result is Ok <==> !final(self)@.halted(),
            result matches Err(e) ==> e == SimError::Diverged,
            rails_kept(final(self)@.circuit.wiring, old(self)@.circuit.wiring),
            at_rest(old(self)@) ==> at_rest(final(self)@),
    {
        let settled = self.circuit.set_low(node_number);
        proof {
            lemma_set_low(old(self)@, node_number);
        }
        outcome(settled)
    }

    /// Reads the picture chip's data bus.
    pub fn read_db(&self) -> (value: u8)
        requires
            self.inv(),
        ensures
            value == self@.bits(db_nodes()),
    {
        proof {
            lemma_pinned_lists();
            lemma_bits_value_bound(self@.circuit.wiring, db_nodes());
            lemma2_to64();
        }
        let nodes = db_list();
        self.circuit.read_bits(nodes.as_slice()) as u8
    }

    /// Reads the picture chip's address bus.
    pub fn read_ab(&self) -> (value: u16)
        requires
            self.inv(),
        ensures
            value == self@.bits(ab_nodes()),
    {
        proof {
            lemma_pinned_lists();
        }
        let nodes = ab_list();
        self.circuit.read_bits(nodes.as_slice())
    }

    /// Reads the horizontal position counter.
    pub fn read_hpos(&self) -> (value: u16)
        requires
            self.inv(),
        ensures
            value == self@.bits(hpos_nodes()),
            value < 512,
    {
        proof {
            lemma_pinned_lists();
            lemma_bits_value_bound(self@.circuit.wiring, hpos_nodes());
            lemma2_to64();
        }
        let nodes = hpos_list();
        self.circuit.read_bits(nodes.as_slice())
    }

    /// Reads the vertical position counter.
    pub fn read_vpos(&self) -> (value: u16)
        requires
            self.inv(),
        ensures
            value == self@.bits(vpos_nodes()),
            value < 512,
    {
        proof {
            lemma_pinned_lists();
            lemma_bits_value_bound(self@.circuit.wiring, vpos_nodes());
            lemma2_to64();
        }
        let nodes = vpos_list();
        self.circuit.read_bits(nodes.as_slice())
    }

    /// Reads the palette output.
    pub fn read_palette(&self) -> (value: u8)
        requires
            self.inv(),
        ensures
            value == self@.bits(pal_nodes()),
            value < 64,
    {
        proof {
            lemma_pinned_lists();
            lemma_bits_value_bound(self@.circuit.wiring, pal_nodes());
            lemma2_to64();
        }
        let nodes = pal_list();
        self.circuit.read_bits(nodes.as_slice()) as u8
    }

    /// Reads the processor's address bus.
    pub fn read_cpu_address_bus(&self) -> (value: u16)
        requires
            self.inv(),
        ensures
            value == self@.bits(cpu_ab_nodes()),
    {
        proof {
            lemma_pinned_lists();
        }
        let nodes = cpu_ab_list();
        self.circuit.read_bits(nodes.as_slice())
    }

    /// Reads the processor's data bus.
    pub fn read_cpu_data_bus(&self) -> (value: u8)
        requires
            self.inv(),
        ensures
            value == self@.bits(cpu_db_nodes()),
    {
        proof {
            lemma_pinned_lists();
            lemma_bits_value_bound(self@.circuit.wiring, cpu_db_nodes());
            lemma2_to64();
        }
        let nodes = cpu_db_list();
        self.circuit.read_bits(nodes.as_slice()) as u8
    }

    /// Drives the picture chip's data bus with `val`.
    pub fn write_db(&mut self, val: u8) -> (result: Result<(), SimError>)
        requires
            old(self).inv(),
        ensures
            final(self).inv(),
            final(self)@ == old(self)@.around(
                old(self)@.circuit.write_bits(db_nodes(), val as nat),
            ),
            result is Ok <==> !final(self)@.halted(),
            result matches Err(e) ==> e == SimError::Diverged,
            rails_kept(final(self)@.circuit.wiring, old(self)@.circuit.wiring),
            at_rest(old(self)@) ==> at_rest(final(self)@),
    {
        proof {
            lemma_pinned_lists();
            lemma_write_bits(self@, db_nodes(), val as nat);
        }
        let settled = self.circuit.write_byte(db_list(), val);
        outcome(settled)
    }

    /// Lets the picture chip's data bus float.
    pub fn float_db(&mut self) -> (result: Result<(), SimError>)
        requires
            old(self).inv(),
        ensures
            final(self).inv(),
            final(self)@ == old(self)@.around(old(self)@.circuit.float_bits(db_nodes())),
            result is Ok <==> !final(self)@.halted(),
            result matches Err(e) ==> e == SimError::Diverged,
            rails_kept(final(self)@.circuit.wiring, old(self)@.circuit.wiring),
            at_rest(old(self)@) ==> at_rest(final(self)@),
    {
        proof {
            lemma_pinned_lists();
            lemma_float_bits(self@, db_nodes());
        }
        let settled = self.circuit.float_byte(db_list());
        outcome(settled)
    }

    /// Drives the processor's data bus with `val`.
    pub fn write_cpu_db(&mut self, val: u8) -> (result: Result<(), SimError>)
        requires
            old(self).inv(),
        ensures
            final(self).inv(),
            final(self)@ == old(self)@.around(
                old(self)@.circuit.write_bits(cpu_db_nodes(), val as nat),
            ),
            result is Ok <==> !final(self)@.halted(),
            result matches Err(e) ==> e == SimError::Diverged,
            rails_kept(final(self)@.circuit.wiring, old(self)@.circuit.wiring),
            at_rest(old(self)@) ==> at_rest(final(self)@),
    {
        proof {
            lemma_pinned_lists();
            lemma_write_bits(self@, cpu_db_nodes(), val as nat);
        }
        let settled = self.circuit.write_byte(cpu_db_list(), val);
        outcome(settled)
    }

    /// Lets the processor's data bus float.
    pub fn float_cpu_db(&mut self) -> (result: Result<(), SimError>)
        requires
            old(self).inv(),
        ensures
            final(self).inv(),
            final(self)@ == old(self)@.around(old(self)@.circuit.float_bits(cpu_db_nodes())),
            result is Ok <==> !final(self)@.halted(),
            result matches Err(e) ==> e == SimError::Diverged,
            rails_kept(final(self)@.circuit.wiring, old(self)@.circuit.wiring),
            at_rest(old(self)@) ==> at_rest(final(self)@),
    {
        proof {
            lemma_pinned_lists();
            lemma_float_bits(self@, cpu_db_nodes());
        }
        let settled = self.circuit.float_byte(cpu_db_list());
        outcome(settled)
    }

    /// Reads the byte at processor address `a`; the flag tells an open bus.
    pub fn cpu_read(&self, a: u16) -> (read: (u8, bool))
        requires
            self.inv(),
        ensures
            read == self@.memory.cpu_read(a),
    {
        self.memory.cpu_read(a)
    }

    /// Writes `d` at processor address `a`.
    pub fn cpu_write(&mut self, a: u16, d: u8)
        requires
            old(self).inv(),
        ensures
            final(self).inv(),
            final(self)@ == (SimView { memory: old(self)@.memory.cpu_write(a, d), ..old(self)@ }),
            at_rest(old(self)@) ==> at_rest(final(self)@),
    {
        self.memory.cpu_write(a, d);
    }

    /// Reads the byte at picture-chip address `a`.
    pub fn ppu_read(&self, a: u16) -> (d: u8)
        requires
            self.inv(),
        ensures
            d == self@.memory.ppu_read(a),
    {
        self.memory.ppu_read(a)
    }

    /// Writes `d` at picture-chip address `a`.
    pub fn ppu_write(&mut self, a: u16, d: u8)
        requires
            old(self).inv(),
        ensures
            final(self).inv(),
            final(self)@ == (SimView { memory: old(self)@.memory.ppu_write(a, d), ..old(self)@ }),
            at_rest(old(self)@) ==> at_rest(final(self)@),
    {
        self.memory.ppu_write(a, d);
    }

    /// The picture, 256 pixels wide and 240 high, row by row.
    pub fn framebuffer(&self) -> (pixels: &Vec<u32>)
        ensures
            pixels@ == self@.framebuffer,
    {
        &self.ppu_framebuffer
    }

    /// Writes a one into the latch whose two sides are `n1` and `n2`; does
    /// nothing when either number is negative.
    pub fn set_bit(&mut self, n1: i32, n2: i32) -> (result: Result<(), SimError>)
        requires
            old(self).inv(),
            n1 < 0 || n2 < 0 || (n1 < old(self).size() && n2 < old(self).size()),
        ensures
            final(self).inv(),
            final(self)@ == old(self)@.around(old(self)@.circuit.set_bit(n1, n2)),
            result is Ok <==> !final(self)@.halted(),
            result matches Err(e) ==> e == SimError::Diverged,
            latch_ok((n1, n2), old(self).size()) ==> rails_kept(
                final(self)@.circuit.wiring,
                old(self)@.circuit.wiring,
            ),
    {
        let settled = self.circuit.set_bit(n1, n2);
        outcome(settled)
    }

    /// Writes the low six bits of `val` into palette byte `addr`.
    pub fn palette_write(&mut self, addr: u16, val: u8) -> (result: Result<(), SimError>)
        requires
            old(self).inv(),
            addr < PALETTE_RAM_SIZE,
        ensures
            final(self).inv(),
            final(self)@ == old(self)@.palette_write(addr, val),
            result is Ok <==> !final(self)@.halted(),
            result matches Err(e) ==> e == SimError::Diverged,
            rails_kept(final(self)@.circuit.wiring, old(self)@.circuit.wiring),
    {
        proof {
            lemma_palette_write(old(self)@, addr, val);
        }
        let ghost row = self@.palette_nodes[addr as int]@;
        let mut rest = val;
        let mut b: usize = 0;
        while b < 6
            invariant
                self.inv(),
                addr < PALETTE_RAM_SIZE,
                b <= 6,
                row == self@.palette_nodes[addr as int]@,
                self@.latch_bits(row, rest as nat, b as int, 6) == old(self)@.latch_bits(
                    row,
                    val as nat,
                    0,
                    6,
                ),
            decreases 6 - b,
        {
            let sides = self.palette_nodes[addr as usize][b];
            assert(latch_ok(self@.palette_nodes[addr as int]@[b as int], self.size()));
            if rest % 2 == 1 {
                self.circuit.set_bit(sides.1, sides.0);
            } else {
                self.circuit.set_bit(sides.0, sides.1);
            }
            rest = rest / 2;
            b += 1;
        }
        outcome(!self.circuit.is_diverged())
    }

    /// Writes `val` into sprite byte `addr`.
    pub fn sprite_write(&mut self, addr: u16, val: u8) -> (result: Result<(), SimError>)
        requires
            old(self).inv(),
            addr < SPRITE_RAM_SIZE,
        ensures
            final(self).inv(),
            final(self)@ == old(self)@.sprite_write(addr, val),
            result is Ok <==> !final(self)@.halted(),
            result matches Err(e) ==> e == SimError::Diverged,
            rails_kept(final(self)@.circuit.wiring, old(self)@.circuit.wiring),
    {
        proof {
            lemma_sprite_write(old(self)@, addr, val);
        }
        let ghost row = self@.sprite_nodes[addr as int]@;
        let mut rest = val;
        let mut b: usize = 0;
        while b < 8
            invariant
                self.inv(),
                addr < SPRITE_RAM_SIZE,
                b <= 8,
                row == self@.sprite_nodes[addr as int]@,
                self@.latch_bits(row, rest as nat, b as int, 8) == old(self)@.latch_bits(
                    row,
                    val as nat,
                    0,
                    8,
                ),
            decreases 8 - b,
        {
            let sides = self.sprite_nodes[addr as usize][b];
            assert(latch_ok(self@.sprite_nodes[addr as int]@[b as int], self.size()));
            if rest % 2 == 1 {
                self.circuit.set_bit(sides.1, sides.0);
            } else {
                self.circuit.set_bit(sides.0, sides.1);
            }
            rest = rest / 2;
            b += 1;
        }
        outcome(!self.circuit.is_diverged())
    }

    /// Loads one memory from `buffer`. The memories outside the chips take
    /// a block of exactly their size; palette and sprite memory take the
    /// bytes of `buffer` one by one, as far as they have bytes.
    pub fn set_memory_state(&mut self, memory_type: MemoryType, buffer: &[u8]) -> (result: Result<
        (),
        SimError,
    >)
        requires
            old(self).inv(),
        ensures
            final(self).inv(),
            rails_kept(final(self)@.circuit.wiring, old(self)@.circuit.wiring),
            memory_type == MemoryType::FullState ==> final(self)@ == old(self)@ && result == Err::<
                (),
                SimError,
            >(SimError::UnsupportedMemory),
            MemoryView::block_size(memory_type) matches Some(size) ==> {
                if size == buffer@.len() {
                    &&& result is Ok
                    &&& final(self)@ == (SimView {
                        memory: old(self)@.memory.loaded(memory_type, buffer@),
                        ..old(self)@
                    })
                } else {
                    &&& result == Err::<(), SimError>(SimError::BadBlockSize)
                    &&& final(self)@ == old(self)@
                }
            },
            memory_type == MemoryType::PaletteRam ==> {
                &&& final(self)@ == old(self)@.palette_loaded(buffer@, 0)
                &&& (result is Ok <==> !final(self)@.halted())
                &&& (result matches Err(e) ==> e == SimError::Diverged)
            },
            memory_type == MemoryType::SpriteRam ==> {
                &&& final(self)@ == old(self)@.sprite_loaded(buffer@, 0)
                &&& (result is Ok <==> !final(self)@.halted())
                &&& (result matches Err(e) ==> e == SimError::Diverged)
            },
    {
        match memory_type {
            MemoryType::FullState => Err(SimError::UnsupportedMemory),
            MemoryType::PaletteRam => {
                let mut i: usize = 0;
                while i < buffer.len() && i < PALETTE_RAM_SIZE
                    invariant
                        self.inv(),
                        i <= buffer@.len(),
                        i <= PALETTE_RAM_SIZE,
                        rails_kept(self@.circuit.wiring, old(self)@.circuit.wiring),
                        self@.palette_loaded(buffer@, i as int) == old(self)@.palette_loaded(
                            buffer@,
                            0,
                        ),
                    decreases buffer@.len() - i,
                {
                    let _ = self.palette_write(i as u16, buffer[i]);
                    i += 1;
                }
                outcome(!self.circuit.is_diverged())
            },
            MemoryType::SpriteRam => {
                let mut i: usize = 0;
                while i < buffer.len() && i < SPRITE_RAM_SIZE
                    invariant
                        self.inv(),
                        i <= buffer@.len(),
                        i <= SPRITE_RAM_SIZE,
                        rails_kept(self@.circuit.wiring, old(self)@.circuit.wiring),
                        self@.sprite_loaded(buffer@, i as int) == old(self)@.sprite_loaded(
                            buffer@,
                            0,
                        ),
                    decreases buffer@.len() - i,
                {
                    let _ = self.sprite_write(i as u16, buffer[i]);
                    i += 1;
                }
                outcome(!self.circuit.is_diverged())
            },
            _ => {
                if self.memory.load_block(memory_type, buffer) {
                    Ok(())
                } else {
                    Err(SimError::BadBlockSize)
                }
            },
        }
    }

    /// Toggles the master clock.
    fn toggle_clock(&mut self)
        requires
            old(self).inv(),
        ensures
            final(self).inv(),
            final(self)@ == old(self)@.toggle_clock(),
    {
        if self.circuit.is_node_high(NODE_CLK0) {
            self.circuit.set_low(NODE_CLK0);
        } else {
            self.circuit.set_high(NODE_CLK0);
        }
    }

    /// Raises and lowers the master clock `times` times.
    fn clock(&mut self, times: usize)
        requires
            old(self).inv(),
        ensures
            final(self).inv(),
            final(self)@ == old(self)@.clocked(times as nat),
    {
        let mut i: usize = 0;
        while i < times
            invariant
                self.inv(),
                i <= times,
                self@.clocked((times - i) as nat) == old(self)@.clocked(times as nat),
            decreases times - i,
        {
            self.circuit.set_high(NODE_CLK0);
            self.circuit.set_low(NODE_CLK0);
            i += 1;
        }
    }

    /// Resets the snapshot of the picture chip's bus.
    fn bus_reset(&mut self)
        requires
            old(self).inv(),
        ensures
            final(self).inv(),
            final(self)@ == old(self)@.bus_reset(),
    {
        self.prev_hpos = -1;
        self.chr_address = 0;
        self.prev_ppu_read = true;
        self.prev_ppu_write = true;
        self.prev_ppu_ale = false;
    }

    /// Power-on, or reset when `soft_reset` is set. A reset leaves a halted
    /// simulation as it is; power-on revives it.
    pub fn init(&mut self, soft_reset: bool) -> (result: Result<(), SimError>)
        requires
            old(self).inv(),
        ensures
            final(self).inv(),
            final(self)@ == old(self)@.init(soft_reset),
            result is Ok <==> !final(self)@.halted(),
            result matches Err(e) ==> e == SimError::Diverged,
            !soft_reset ==> final(self)@.powered_up(),
            !soft_reset && result is Ok ==> final(self)@.started(),
            !soft_reset && old(self)@.relaxes_every_wire() ==> at_rest(final(self)@),
            soft_reset ==> rails_kept(final(self)@.circuit.wiring, old(self)@.circuit.wiring),
            soft_reset && result is Ok ==> final(self)@.restarted(),
            soft_reset ==> final(self)@.memory == old(self)@.memory && final(self)@.framebuffer
                == old(self)@.framebuffer,
            soft_reset && at_rest(old(self)@) ==> at_rest(final(self)@),
    {
        proof {
            if soft_reset {
                lemma_soft_reset(old(self)@);
                lemma_soft_reset_marks(old(self)@);
            } else {
                lemma_power_on(old(self)@);
                lemma_power_on_marks(old(self)@);
            }
        }
        if soft_reset {
            if self.circuit.is_diverged() {
                return Err(SimError::Diverged);
            }
            self.bus_reset();
            self.circuit.set_low(NODE_RESET);
            let ghost held = self@;
            let mut i: usize = 0;
            while i < 193
                invariant
                    self.inv(),
                    i <= 193,
                    self@.toggled((193 - i) as nat) == held.toggled(193),
                decreases 193 - i,
            {
                self.toggle_clock();
                i += 1;
            }
            self.circuit.set_high(NODE_RESET);
        } else {
            self.bus_reset();
            self.memory.clear();
            let mut blank: Vec<u32> = Vec::with_capacity(SCREEN_WIDTH * SCREEN_HEIGHT);
            let mut i: usize = 0;
            while i < SCREEN_WIDTH * SCREEN_HEIGHT
                invariant
                    i <= SCREEN_WIDTH * SCREEN_HEIGHT,
                    blank@ =~= Seq::new(i as nat, |k: int| 0u32),
                decreases SCREEN_WIDTH * SCREEN_HEIGHT - i,
            {
                blank.push(0u32);
                i += 1;
            }
            self.ppu_framebuffer = blank;
            self.circuit.power_on();
            self.circuit.set_low(NODE_RESET);
            self.circuit.set_low(NODE_CLK0);
            self.circuit.set_high(NODE_IO_CE);
            self.circuit.set_high(NODE_INT);
            self.clock(6);
            self.circuit.set_low(NODE_CPU_SO);
            self.circuit.set_high(NODE_CPU_IRQ);
            self.circuit.set_high(NODE_CPU_NMI);
            self.circuit.recalc_node_list(self.all_recalc_nodes.as_slice());
            self.clock(96);
            self.circuit.set_high(NODE_RESET);
        }
        outcome(!self.circuit.is_diverged())
    }

    /// The chip-enable decoder of one half-step.
    fn decode_io(&mut self)
        requires
            old(self).inv(),
        ensures
            final(self).inv(),
            final(self)@ == old(self)@.decode_io(),
    {
        if self.circuit.is_diverged() {
            return ;
        }
        if self.step_cycle_count > 0 {
            self.step_cycle_count -= 1;
            if self.step_cycle_count == 0 {
                self.circuit.set_high(NODE_IO_CE);
            }
        } else if self.circuit.is_node_high(NODE_CPU_AB13) && !self.circuit.is_node_high(
            NODE_CPU_AB14,
        ) && !self.circuit.is_node_high(NODE_CPU_AB15) && self.circuit.is_node_high(NODE_CPU_CLK0) {
            self.step_cycle_count = 11;
            self.circuit.set_low(NODE_IO_CE);
        }
    }

    /// The cartridge's side of the picture chip's bus in one half-step.
    fn handle_chr_bus(&mut self)
        requires
            old(self).inv(),
        ensures
            final(self).inv(),
            final(self)@ == old(self)@.handle_chr_bus(),
    {
        if self.circuit.is_diverged() {
            return ;
        }
        let ale = self.circuit.is_node_high(NODE_ALE);
        let rd = self.circuit.is_node_high(NODE_RD);
        let wr = self.circuit.is_node_high(NODE_WR);
        if !self.prev_ppu_ale && ale {
            self.last_address = self.read_ab();
            self.chr_address = self.last_address;
        }
        if self.prev_ppu_read && !rd {
            let d = self.memory.ppu_read(self.chr_address);
            let _ = self.write_db(d);
        } else if !self.prev_ppu_read && rd {
            let _ = self.float_db();
        }
        if self.circuit.is_diverged() {
            return ;
        }
        if !self.prev_ppu_write && wr {
            let d = self.read_db();
            self.memory.ppu_write(self.chr_address, d);
        }
        if !self.circuit.is_node_high(NODE_RD) || !self.circuit.is_node_high(NODE_WR) {
            self.last_data = self.read_db();
        }
        self.prev_ppu_ale = ale;
        self.prev_ppu_read = rd;
        self.prev_ppu_write = wr;
    }

    /// The memory's answer to a read by the processor.
    fn handle_cpu_bus_read(&mut self)
        requires
            old(self).inv(),
        ensures
            final(self).inv(),
            final(self)@ == old(self)@.handle_cpu_bus_read(),
    {
        if self.circuit.is_diverged() {
            return ;
        }
        if self.circuit.is_node_high(NODE_CPU_RW) {
            let a = self.read_cpu_address_bus();
            let (d, open_bus) = self.memory.cpu_read(a);
            if open_bus {
                let _ = self.float_cpu_db();
            } else {
                self.memory.observe_cpu_db(d);
                let _ = self.write_cpu_db(d);
            }
        }
    }

    /// A write by the processor.
    fn handle_cpu_bus_write(&mut self)
        requires
            old(self).inv(),
        ensures
            final(self).inv(),
            final(self)@ == old(self)@.handle_cpu_bus_write(),
    {
        if self.circuit.is_diverged() {
            return ;
        }
        if !self.circuit.is_node_high(NODE_CPU_RW) {
            let a = self.read_cpu_address_bus();
            let d = self.read_cpu_data_bus();
            self.memory.cpu_write(a, d);
            self.memory.observe_cpu_db(d);
        }
    }

    /// The processor's side effects of one half-step, given the level of
    /// its clock before the step.
    fn handle_cpu_bus(&mut self, prev_cpu_clk: bool)
        requires
            old(self).inv(),
        ensures
            final(self).inv(),
            final(self)@ == old(self)@.handle_cpu_bus(prev_cpu_clk),
    {
        if self.circuit.is_diverged() {
            return ;
        }
        if prev_cpu_clk != self.circuit.is_node_high(NODE_CPU_CLK0) {
            if prev_cpu_clk {
                self.handle_cpu_bus_read();
            } else {
                self.handle_cpu_bus_write();
            }
        }
    }

    /// The video sampler of one half-step.
    fn sample_video(&mut self)
        requires
            old(self).inv(),
        ensures
            final(self).inv(),
            final(self)@ == old(self)@.sample_video(),
    {
        if self.circuit.is_diverged() {
            return ;
        }
        if self.circuit.is_node_high(NODE_PCLK1) {
            let hpos: i32 = self.read_hpos() as i32 - 2;
            if hpos != self.prev_hpos {
                let vpos = self.read_vpos();
                if hpos >= 0 && hpos < 256 && vpos < 240 {
                    let palette_entry = self.read_palette();
                    let index = vpos as usize * SCREEN_WIDTH + hpos as usize;
                    self.ppu_framebuffer[index] = PALETTE_ARGB[palette_entry as usize];
                }
                self.prev_hpos = hpos;
            }
        }
    }

    /// Advances the machine by one edge of the master clock: the clock
    /// toggles and the network settles, the chip-enable decoder runs, the
    /// cartridge and the memories answer the two buses, and the video
    /// sampler takes a pixel. A halted simulation stays as it is.
    pub fn half_step(&mut self) -> (result: Result<(), SimError>)
        requires
            old(self).inv(),
        ensures
            final(self).inv(),
            final(self)@ == old(self)@.half_step(),
            result is Ok <==> !final(self)@.halted(),
            result matches Err(e) ==> e == SimError::Diverged,
            rails_kept(final(self)@.circuit.wiring, old(self)@.circuit.wiring),
            at_rest(old(self)@) ==> at_rest(final(self)@),
    {
        proof {
            lemma_half_step(old(self)@);
        }
        if self.circuit.is_diverged() {
            return Err(SimError::Diverged);
        }
        let cpu_clk0 = self.circuit.is_node_high(NODE_CPU_CLK0);
        self.toggle_clock();
        self.decode_io();
        self.handle_chr_bus();
        self.handle_cpu_bus(cpu_clk0);
        self.sample_video();
        outcome(!self.circuit.is_diverged())
    }

    /// Puts a cartridge in and powers the machine on. Refused, with
    /// nothing changed, for a mapper other than 0, for a mirroring other
    /// than horizontal or vertical, and for memories of another size than
    /// 16 or 32 KiB of program and 8 KiB of characters.
    pub fn load_rom(&mut self, rom: &Cartridge) -> (result: Result<(), SimError>)
        requires
            old(self).inv(),
        ensures
            final(self).inv(),
            rom.mapper != 0 ==> result == Err::<(), SimError>(SimError::UnsupportedMapper),
            rom.mapper == 0 && rom.mirroring != MirroringType::Horizontal && rom.mirroring
                != MirroringType::Vertical ==> result == Err::<(), SimError>(
                SimError::UnsupportedMirroring,
            ),
            rom.mapper == 0 && (rom.mirroring == MirroringType::Horizontal || rom.mirroring
                == MirroringType::Vertical) && !SimView::takes(*rom) ==> result == Err::<
                (),
                SimError,
            >(SimError::BadBlockSize),
            !SimView::takes(*rom) ==> final(self)@ == old(self)@,
            SimView::takes(*rom) ==> {
                &&& final(self)@ == old(self)@.load_rom(*rom)
                &&& (result is Ok <==> !final(self)@.halted())
                &&& (result matches Err(e) ==> e == SimError::Diverged)
            },
            SimView::takes(*rom) ==> final(self)@.powered_up(),
            SimView::takes(*rom) ==> final(self)@.circuit == old(self)@.power_on().circuit,
            SimView::takes(*rom) && old(self)@.relaxes_every_wire() ==> at_rest(final(self)@),
    {
        proof {
            if SimView::takes(*rom) {
                lemma_load_rom(old(self)@, *rom);
                lemma_load_rom_circuit(old(self)@, *rom);
            }
        }
        if rom.mapper != 0 {
            return Err(SimError::UnsupportedMapper);
        }
        match rom.mirroring {
            MirroringType::Horizontal => {},
            MirroringType::Vertical => {},
            _ => {
                return Err(SimError::UnsupportedMirroring);
            },
        }
        if (rom.prg.len() != 0x4000 && rom.prg.len() != PRG_RAM_SIZE) || rom.chr.len()
            != CHR_RAM_SIZE {
            return Err(SimError::BadBlockSize);
        }
        self.memory.set_mirroring(rom.mirroring);
        let _ = self.init(false);
        if self.circuit.is_diverged() {
            return Err(SimError::Diverged);
        }
        self.memory.load_block(MemoryType::ChrRam, rom.chr.as_slice());
        if rom.prg.len() == 0x4000 {
            let mut prg: Vec<u8> = Vec::with_capacity(PRG_RAM_SIZE);
            let mut i: usize = 0;
            while i < PRG_RAM_SIZE
                invariant
                    rom.prg@.len() == 0x4000,
                    i <= PRG_RAM_SIZE,
                    prg@ =~= (rom.prg@ + rom.prg@).take(i as int),
                decreases PRG_RAM_SIZE - i,
            {
                prg.push(rom.prg[i % 0x4000]);
                i += 1;
            }
            assert(prg@ =~= rom.prg@ + rom.prg@);
            self.memory.load_block(MemoryType::PrgRam, prg.as_slice());
        } else {
            self.memory.load_block(MemoryType::PrgRam, rom.prg.as_slice());
        }
        Ok(())
    }
}

/// The wires below `upto` that have a segment and are no rail, in
/// ascending order.
pub open spec fn wired_ids(segs: Seq<Vec<u16>>, upto: int) -> Seq<u16>
    decreases upto,
{
    if upto <= 0 {
        Seq::empty()
    } else if defined_by(segs, segs.len() as int, upto - 1) && !is_rail((upto - 1) as u16) {
        wired_ids(segs, upto - 1).push((upto - 1) as u16)
    } else {
        wired_ids(segs, upto - 1)
    }
}

/// The wires listed are exactly those below `upto` that have a segment
/// and are no rail.
pub proof fn lemma_wired_ids(segs: Seq<Vec<u16>>, upto: int, n: int)
    requires
        0 <= upto <= 65536,
        0 <= n < 65536,
    ensures
        wired_ids(segs, upto).contains(n as u16) <==> n < upto && defined_by(
            segs,
            segs.len() as int,
            n,
        ) && !is_rail(n as u16),
    decreases upto,
{
    if upto > 0 {
        lemma_wired_ids(segs, upto - 1, n);
        let before = wired_ids(segs, upto - 1);
        let now = wired_ids(segs, upto);
        if defined_by(segs, segs.len() as int, upto - 1) && !is_rail((upto - 1) as u16) {
            assert(now == before.push((upto - 1) as u16));
            if before.contains(n as u16) {
                let k = choose|k: int| 0 <= k < before.len() && before[k] == n as u16;
                assert(now[k] == n as u16);
            }
            if now.contains(n as u16) {
                let k = choose|k: int| 0 <= k < now.len() && now[k] == n as u16;
                if k < before.len() {
                    assert(before[k] == n as u16);
                } else {
                    assert(n == upto - 1);
                }
            }
            if n == upto - 1 {
                assert(now[before.len() as int] == n as u16);
            }
        }
    }
}

/// Why the tables cannot be built into a simulation, if they cannot.
pub open spec fn build_verdict(
    segs: Seq<Vec<u16>>,
    defs: Seq<TransistorDefinition>,
    palette: Seq<Vec<(i32, i32)>>,
    sprite: Seq<Vec<(i32, i32)>>,
) -> Option<BuildError> {
    let node_total = highest_id(segs, segs.len() as int) + 1;
    if segs.len() == 0 {
        Some(BuildError::EmptySegmentList)
    } else if !segments_ok(segs) {
        Some(BuildError::MalformedSegment)
    } else if area_overflows(segs) {
        Some(BuildError::AreaOverflow)
    } else if node_total > MAX_NODES {
        Some(BuildError::TooManyNodes)
    } else if defs.len() > 65536 {
        Some(BuildError::TooManyTransistors)
    } else if any_dangling(defs, node_total) {
        Some(BuildError::DanglingTransistor)
    } else if any_crowded(defs) {
        Some(BuildError::TooManyChannels)
    } else if node_total < PINNED_NODES {
        Some(BuildError::TooFewNodes)
    } else if !latches_ok(palette, PALETTE_RAM_SIZE as int, 6, node_total) || !latches_ok(
        sprite,
        SPRITE_RAM_SIZE as int,
        8,
        node_total,
    ) {
        Some(BuildError::BadLatchTable)
    } else {
        None
    }
}

/// Whether `node` is wire `id` as the tables define it, before power-on:
/// low, floating, pulled up as its first segment says, with the area of
/// its segments and the transistors it gates.
pub open spec fn node_built(
    node: Node,
    segs: Seq<Vec<u16>>,
    defs: Seq<TransistorDefinition>,
    id: int,
) -> bool {
    &&& !node.state
    &&& node.pullup == pullup_after(segs, segs.len() as int, id)
    &&& !node.pulldown
    &&& node.floating
    &&& node.area == area_after(segs, segs.len() as int, id)
    &&& node.gates@ == gates_after(defs, defs.len() as int, id)
}

/// Whether `sim` is the simulation that the tables define, before power-on.
pub open spec fn built_from(
    sim: SimView,
    segs: Seq<Vec<u16>>,
    defs: Seq<TransistorDefinition>,
    palette: Seq<Vec<(i32, i32)>>,
    sprite: Seq<Vec<(i32, i32)>>,
) -> bool {
    let wiring = sim.circuit.wiring;
    &&& sim.circuit.pending.len() == 0
    &&& !sim.circuit.diverged
    &&& wiring.nodes.len() == highest_id(segs, segs.len() as int) + 1
    &&& forall|id: int|
        0 <= id < wiring.nodes.len() ==> node_built(#[trigger] wiring.nodes[id], segs, defs, id)
    &&& wiring.transistors.len() == defs.len()
    &&& forall|i: int|
        0 <= i < defs.len() ==> (#[trigger] wiring.transistors[i]) == canonical(defs[i])
    &&& wiring.counts.len() == MAX_NODES
    &&& wiring.links.len() == MAX_NODES
    &&& forall|m: int|
        0 <= m < MAX_NODES ==> row_holds(
            (#[trigger] wiring.links[m])@,
            wiring.counts[m],
            links_after(defs, defs.len() as int, m),
        )
    &&& sim.memory == (MemoryView {
        cpu_ram: Seq::empty(),
        prg_ram: Seq::empty(),
        chr_ram: Seq::empty(),
        nametable_ram: Seq::empty(),
        mirroring: MirroringType::Horizontal,
        last_cpu_db_value: 0,
    }).cleared()
    &&& sim.all_recalc_nodes == wired_ids(segs, wiring.nodes.len() as int)
    &&& sim.step_cycle_count == 0
    &&& !sim.prev_ppu_ale
    &&& sim.prev_ppu_write
    &&& sim.prev_ppu_read
    &&& sim.chr_address == 0
    &&& sim.last_address == 0
    &&& sim.last_data == 0
    &&& sim.prev_hpos == -1
    &&& sim.framebuffer == Seq::new((SCREEN_WIDTH * SCREEN_HEIGHT) as nat, |i: int| 0u32)
    &&& sim.palette_nodes == palette
    &&& sim.sprite_nodes == sprite
}

/// Whether `node` starts from `def` as `Node::new` makes it.
pub open spec fn started_from(node: Node, def: NodeDefinition) -> bool {
    &&& node.state == def.state
    &&& node.pullup == def.pullup
    &&& !node.pulldown
    &&& node.floating
    &&& node.area == def.area
    &&& node.gates == def.gates
}

/// Turns every definition into a wire of the running network.
fn into_nodes(defs: Vec<NodeDefinition>) -> (nodes: Vec<Node>)
    ensures
        nodes@.len() == defs@.len(),
        forall|i: int| 0 <= i < defs@.len() ==> started_from(#[trigger] nodes@[i], defs@[i]),
{
    let mut defs = defs;
    let ghost all = defs@;
    let total = defs.len();
    let mut reversed: Vec<Node> = Vec::with_capacity(total);
    while defs.len() > 0
        invariant
            total == all.len(),
            defs@.len() + reversed@.len() == total,
            defs@ == all.take(defs@.len() as int),
            forall|j: int|
                0 <= j < reversed@.len() ==> started_from(
                    #[trigger] reversed@[j],
                    all[total - 1 - j],
                ),
        decreases defs@.len(),
    {
        let ghost before = defs@;
        match defs.pop() {
            Some(def) => {
                assert(def == all[before.len() - 1]);
                reversed.push(Node::new(def));
                assert(defs@ =~= all.take(defs@.len() as int));
            },
            None => {},
        }
    }
    let mut nodes: Vec<Node> = Vec::with_capacity(total);
    let ghost turned = reversed@;
    while reversed.len() > 0
        invariant
            total == all.len(),
            turned.len() == total,
            nodes@.len() + reversed@.len() == total,
            reversed@ == turned.take(reversed@.len() as int),
            forall|j: int|
                0 <= j < turned.len() ==> started_from(#[trigger] turned[j], all[total - 1 - j]),
            forall|i: int| 0 <= i < nodes@.len() ==> started_from(#[trigger] nodes@[i], all[i]),
        decreases reversed@.len(),
    {
        let ghost before = reversed@;
        match reversed.pop() {
            Some(node) => {
                assert(node == turned[before.len() - 1]);
                assert(started_from(turned[before.len() - 1], all[total - 1 - (before.len() - 1)]));
                nodes.push(node);
                assert(reversed@ =~= turned.take(reversed@.len() as int));
            },
            None => {},
        }
    }
    nodes
}

/// Whether a latch table has `rows` rows of at least `width` writable bits.
fn check_latches(table: &Vec<Vec<(i32, i32)>>, rows: usize, width: usize, node_total: usize) -> (ok:
    bool)
    requires
        node_total <= 65535,
    ensures
        ok == latches_ok(table@, rows as int, width as int, node_total as int),
{
    if table.len() != rows {
        return false;
    }
    let mut r: usize = 0;
    while r < rows
        invariant
            table@.len() == rows,
            node_total <= 65535,
            r <= rows,
            forall|q: int| 0 <= q < r ==> (#[trigger] table@[q])@.len() >= width,
            forall|q: int, b: int|
                0 <= q < r && 0 <= b < width ==> latch_ok(
                    #[trigger] table@[q]@[b],
                    node_total as int,
                ),
        decreases rows - r,
    {
        let row = &table[r];
        if row.len() < width {
            assert(table@[r as int]@.len() < width);
            return false;
        }
        let mut b: usize = 0;
        while b < width
            invariant
                r < rows == table@.len(),
                *row == table@[r as int],
                node_total <= 65535,
                b <= width <= row@.len(),
                forall|c: int| 0 <= c < b ==> latch_ok(#[trigger] row@[c], node_total as int),
            decreases width - b,
        {
            let sides = row[b];
            if !(sides.0 < 0 || sides.1 < 0 || (sides.0 < node_total as i32 && sides.1
                < node_total as i32 && sides.0 != NODE_GND as i32 && sides.0 != NODE_PWR as i32
                && sides.1 != NODE_GND as i32 && sides.1 != NODE_PWR as i32)) {
                assert(!latch_ok(table@[r as int]@[b as int], node_total as int));
                return false;
            }
            b += 1;
        }
        r += 1;
    }
    true
}

impl SimulationState {
    /// Builds the machine from its definition tables: the segment records,
    /// the transistor definitions, and the latch tables of palette and
    /// sprite memory. The machine is built but not powered on.
    pub fn new(
        seg_defs: &[Vec<u16>],
        trans_defs: Vec<TransistorDefinition>,
        palette_nodes: Vec<Vec<(i32, i32)>>,
        sprite_nodes: Vec<Vec<(i32, i32)>>,
    ) -> (built: Result<Self, BuildError>)
        ensures
            match build_verdict(seg_defs@, trans_defs@, palette_nodes@, sprite_nodes@) {
                Some(error) => built matches Err(e) && e == error,
                None => built matches Ok(sim) && sim.inv() && built_from(
                    sim@,
                    seg_defs@,
                    trans_defs@,
                    palette_nodes@,
                    sprite_nodes@,
                ),
            },
    {
        let mut defs = match setup_nodes(seg_defs) {
            Ok(defs) => defs,
            Err(e) => {
                return Err(e);
            },
        };
        let ghost blank_defs = defs@;
        let ghost seg_total = seg_defs@.len() as int;
        let ghost def_total = trans_defs@.len() as int;
        let ghost all_defs = trans_defs@;
        let (transistors, node_counts, nodes_c1_c2, _) = match setup_transistors(
            &mut defs,
            trans_defs,
        ) {
            Ok(tables) => tables,
            Err(e) => {
                return Err(e);
            },
        };
        let node_total = defs.len();
        if node_total < PINNED_NODES {
            return Err(BuildError::TooFewNodes);
        }
        if !check_latches(&palette_nodes, PALETTE_RAM_SIZE, 6, node_total) || !check_latches(
            &sprite_nodes,
            SPRITE_RAM_SIZE,
            8,
            node_total,
        ) {
            return Err(BuildError::BadLatchTable);
        }
        let mut all_recalc_nodes: Vec<u16> = Vec::new();
        let mut n: usize = 0;
        while n < node_total
            invariant
                node_total == defs@.len(),
                node_total == blank_defs.len(),
                node_total <= MAX_NODES,
                n <= node_total,
                seg_total == seg_defs@.len(),
                forall|id: int|
                    0 <= id < node_total ==> node_matches(
                        #[trigger] blank_defs[id],
                        seg_defs@,
                        seg_total,
                        id,
                    ),
                forall|id: int|
                    0 <= id < node_total ==> (#[trigger] defs@[id]).num == blank_defs[id].num,
                all_recalc_nodes@ == wired_ids(seg_defs@, n as int),
                forall|k: int|
                    0 <= k < all_recalc_nodes@.len() ==> (#[trigger] all_recalc_nodes@[k])
                        < node_total,
            decreases node_total - n,
        {
            let num = defs[n].num;
            assert(node_matches(blank_defs[n as int], seg_defs@, seg_total, n as int));
            if num != NODE_PWR && num != NODE_GND && num != EMPTYNODE {
                all_recalc_nodes.push(num);
            }
            n += 1;
        }
        let ghost gated_defs = defs@;
        let nodes = into_nodes(defs);
        let ghost wiring = Wiring {
            nodes: nodes@,
            transistors: transistors@,
            counts: node_counts@,
            links: nodes_c1_c2@,
        };
        proof {
            assert forall|id: int| 0 <= id < wiring.nodes.len() implies node_built(
                #[trigger] wiring.nodes[id],
                seg_defs@,
                all_defs,
                id,
            ) by {
                assert(started_from(nodes@[id], gated_defs[id]));
                assert(gained_gates(
                    gated_defs[id],
                    blank_defs[id],
                    gates_after(all_defs, def_total, id),
                ));
                assert(node_matches(blank_defs[id], seg_defs@, seg_total, id));
                if !defined_by(seg_defs@, seg_total, id) {
                    lemma_undefined_is_empty(seg_defs@, seg_total, id);
                }
                assert(blank_defs[id].gates@ + gates_after(all_defs, def_total, id)
                    =~= gates_after(all_defs, def_total, id));
            }
            assert forall|t: int| 0 <= t < wiring.transistors.len() implies {
                &&& (#[trigger] wiring.transistors[t]).gate < wiring.nodes.len()
                &&& wiring.transistors[t].c1 < wiring.nodes.len()
                &&& wiring.transistors[t].c2 < wiring.nodes.len()
            } by {
                assert(wiring.transistors[t] == canonical(all_defs[t]));
                assert(!crate::preprocessor::dangling(all_defs[t], node_total as int));
            }
            assert forall|m: int, j: int|
                0 <= m < wiring.nodes.len() && 0 <= j < wiring.nodes[m].gates@.len() implies (
            #[trigger] wiring.nodes[m].gates@[j]) < wiring.transistors.len() by {
                assert(node_built(wiring.nodes[m], seg_defs@, all_defs, m));
                lemma_gates_below(all_defs, def_total, m);
            }
            assert forall|m: int| 0 <= m < wiring.nodes.len() implies (#[trigger] wiring.counts[m])
                <= wiring.links[m]@.len() by {
                assert(row_holds(
                    wiring.links[m]@,
                    wiring.counts[m],
                    links_after(all_defs, def_total, m),
                ));
            }
            assert forall|m: int, i: int|
                0 <= m < wiring.nodes.len() && 0 <= i < wiring.counts[m] implies (
            #[trigger] wiring.links[m]@[i]) < wiring.transistors.len() by {
                assert(row_holds(
                    wiring.links[m]@,
                    wiring.counts[m],
                    links_after(all_defs, def_total, m),
                ));
                lemma_links_below(all_defs, def_total, m);
                assert(wiring.links[m]@[i] == links_after(all_defs, def_total, m)[i]);
            }
            assert(wiring.wf());
            assert forall|m: int, j: int|
                0 <= m < wiring.nodes.len() && 0 <= j < wiring.nodes[m].gates@.len()
                implies wiring.transistors[(#[trigger] wiring.nodes[m].gates@[j]) as int].gate
                == m by {
                assert(node_built(wiring.nodes[m], seg_defs@, all_defs, m));
                lemma_gates_are_gated(all_defs, def_total, m);
                lemma_gates_below(all_defs, def_total, m);
                let t = gates_after(all_defs, def_total, m)[j];
                assert(wiring.transistors[t as int] == canonical(all_defs[t as int]));
            }
            assert forall|t: int| 0 <= t < wiring.transistors.len() implies wiring.nodes[(
            #[trigger] wiring.transistors[t]).gate as int].gates@.contains(t as u16) by {
                assert(wiring.transistors[t] == canonical(all_defs[t]));
                assert(!crate::preprocessor::dangling(all_defs[t], node_total as int));
                let g = all_defs[t].gate as int;
                assert(node_built(wiring.nodes[g], seg_defs@, all_defs, g));
                lemma_gated_is_listed(all_defs, def_total, t);
            }
            assert(wiring.gates_faithful());
            assert forall|m: int, i: int|
                0 <= m < wiring.nodes.len() && 0 <= i < wiring.counts[m] implies {
                let t = (#[trigger] wiring.links[m]@[i]) as int;
                wiring.transistors[t].c1 == m || wiring.transistors[t].c2 == m
            } by {
                assert(row_holds(
                    wiring.links[m]@,
                    wiring.counts[m],
                    links_after(all_defs, def_total, m),
                ));
                lemma_links_are_ends(all_defs, def_total, m);
                let t = links_after(all_defs, def_total, m)[i] as int;
                assert(wiring.links[m]@[i] == t);
                assert(wiring.transistors[t] == canonical(all_defs[t]));
            }
            assert forall|t: int|
                0 <= t < wiring.transistors.len() && !is_rail((#[trigger] wiring.transistors[t]).c1)
                implies wiring.row_lists(wiring.transistors[t].c1 as int, t) by {
                assert(wiring.transistors[t] == canonical(all_defs[t]));
                let m = wiring.transistors[t].c1 as int;
                lemma_end_is_linked(all_defs, def_total, t, m);
                let row = links_after(all_defs, def_total, m);
                let i = choose|i: int| 0 <= i < row.len() && row[i] == t as u16;
                assert(row_holds(wiring.links[m]@, wiring.counts[m], row));
                assert(wiring.links[m]@[i] == t);
            }
            assert forall|t: int|
                0 <= t < wiring.transistors.len() && !is_rail((#[trigger] wiring.transistors[t]).c2)
                implies wiring.row_lists(wiring.transistors[t].c2 as int, t) by {
                assert(wiring.transistors[t] == canonical(all_defs[t]));
                let m = wiring.transistors[t].c2 as int;
                lemma_end_is_linked(all_defs, def_total, t, m);
                let row = links_after(all_defs, def_total, m);
                let i = choose|i: int| 0 <= i < row.len() && row[i] == t as u16;
                assert(row_holds(wiring.links[m]@, wiring.counts[m], row));
                assert(wiring.links[m]@[i] == t);
            }
            assert forall|t: int|
                0 <= t < wiring.transistors.len() && is_rail((#[trigger] wiring.transistors[t]).c1)
                implies is_rail(wiring.transistors[t].c2) by {
                assert(wiring.transistors[t] == canonical(all_defs[t]));
            }
            assert(wiring.links_faithful());
        }
        let circuit = Circuit::from_tables(nodes, transistors, node_counts, nodes_c1_c2);
        let mut ppu_framebuffer: Vec<u32> = Vec::with_capacity(SCREEN_WIDTH * SCREEN_HEIGHT);
        let mut i: usize = 0;
        while i < SCREEN_WIDTH * SCREEN_HEIGHT
            invariant
                i <= SCREEN_WIDTH * SCREEN_HEIGHT,
                ppu_framebuffer@ =~= Seq::new(i as nat, |k: int| 0u32),
            decreases SCREEN_WIDTH * SCREEN_HEIGHT - i,
        {
            ppu_framebuffer.push(0u32);
            i += 1;
        }
        let sim = SimulationState {
            circuit,
            memory: Memory::new(),
            all_recalc_nodes,
            step_cycle_count: 0,
            prev_ppu_ale: false,
            prev_ppu_write: true,
            prev_ppu_read: true,
            chr_address: 0,
            last_address: 0,
            last_data: 0,
            prev_hpos: -1,
            ppu_framebuffer,
            sprite_nodes,
            palette_nodes,
        };
        Ok(sim)
    }
}

} // verus!
