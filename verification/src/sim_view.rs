use vstd::prelude::*;
use crate::consts::{
    SPRITE_RAM_SIZE, PALETTE_RAM_SIZE, NODE_GND, NODE_PWR, NODE_CLK0, NODE_RESET, NODE_IO_CE,
    NODE_INT, NODE_ALE, NODE_RD, NODE_WR, NODE_CPU_SO, NODE_CPU_IRQ, NODE_CPU_NMI, NODE_CPU_CLK0,
    NODE_AB0, NODE_AB1, NODE_AB2, NODE_AB3, NODE_AB4, NODE_AB5, NODE_AB6, NODE_AB7, NODE_AB8,
    NODE_AB9, NODE_AB10, NODE_AB11, NODE_AB12, NODE_AB13, NODE_CPU_AB0, NODE_CPU_AB1, NODE_CPU_AB2,
    NODE_CPU_AB3, NODE_CPU_AB4, NODE_CPU_AB5, NODE_CPU_AB6, NODE_CPU_AB7, NODE_CPU_AB8,
    NODE_CPU_AB9, NODE_CPU_AB10, NODE_CPU_AB11, NODE_CPU_AB12, NODE_CPU_AB13, NODE_CPU_AB14,
    NODE_CPU_AB15, NODE_CPU_DB0, NODE_CPU_DB1, NODE_CPU_DB2, NODE_CPU_DB3, NODE_CPU_DB4,
    NODE_CPU_DB5, NODE_CPU_DB6, NODE_CPU_DB7, NODE_DB0, NODE_DB1, NODE_DB2, NODE_DB3, NODE_DB4,
    NODE_DB5, NODE_DB6, NODE_DB7, NODE_CPU_RW, NODE_PAL_D0_OUT, NODE_PAL_D1_OUT, NODE_PAL_D2_OUT,
    NODE_PAL_D3_OUT, NODE_PAL_D4_OUT, NODE_PAL_D5_OUT, NODE_PCLK1, NODE_HPOS0, NODE_HPOS1,
    NODE_HPOS2, NODE_HPOS3, NODE_HPOS4, NODE_HPOS5, NODE_HPOS6, NODE_HPOS7, NODE_HPOS8, NODE_VPOS0,
    NODE_VPOS1, NODE_VPOS2, NODE_VPOS3, NODE_VPOS4, NODE_VPOS5, NODE_VPOS6, NODE_VPOS7, NODE_VPOS8,
    PINNED_NODES, SCREEN_WIDTH, SCREEN_HEIGHT, PALETTE_ARGB,
};
use crate::memory::{MemoryType, MemoryView, MirroringType, CHR_RAM_SIZE, PRG_RAM_SIZE};
use crate::connectivity::{is_wire, settled};
use crate::wiring::CircuitView;

verus! {

/// The eight wires of the picture chip's data bus, lowest bit first.
pub open spec fn db_nodes() -> Seq<u16> {
    seq![NODE_DB0, NODE_DB1, NODE_DB2, NODE_DB3, NODE_DB4, NODE_DB5, NODE_DB6, NODE_DB7]
}

/// The fourteen wires of the picture chip's address bus, lowest bit first.
pub open spec fn ab_nodes() -> Seq<u16> {
    seq![
        NODE_AB0,
        NODE_AB1,
        NODE_AB2,
        NODE_AB3,
        NODE_AB4,
        NODE_AB5,
        NODE_AB6,
        NODE_AB7,
        NODE_AB8,
        NODE_AB9,
        NODE_AB10,
        NODE_AB11,
        NODE_AB12,
        NODE_AB13,
    ]
}

/// The eight wires of the processor's data bus, lowest bit first.
pub open spec fn cpu_db_nodes() -> Seq<u16> {
    seq![
        NODE_CPU_DB0,
        NODE_CPU_DB1,
        NODE_CPU_DB2,
        NODE_CPU_DB3,
        NODE_CPU_DB4,
        NODE_CPU_DB5,
        NODE_CPU_DB6,
        NODE_CPU_DB7,
    ]
}

/// The sixteen wires of the processor's address bus, lowest bit first.
pub open spec fn cpu_ab_nodes() -> Seq<u16> {
    seq![
        NODE_CPU_AB0,
        NODE_CPU_AB1,
        NODE_CPU_AB2,
        NODE_CPU_AB3,
        NODE_CPU_AB4,
        NODE_CPU_AB5,
        NODE_CPU_AB6,
        NODE_CPU_AB7,
        NODE_CPU_AB8,
        NODE_CPU_AB9,
        NODE_CPU_AB10,
        NODE_CPU_AB11,
        NODE_CPU_AB12,
        NODE_CPU_AB13,
        NODE_CPU_AB14,
        NODE_CPU_AB15,
    ]
}

/// The nine wires of the horizontal position counter, lowest bit first.
pub open spec fn hpos_nodes() -> Seq<u16> {
    seq![
        NODE_HPOS0,
        NODE_HPOS1,
        NODE_HPOS2,
        NODE_HPOS3,
        NODE_HPOS4,
        NODE_HPOS5,
        NODE_HPOS6,
        NODE_HPOS7,
        NODE_HPOS8,
    ]
}

/// The nine wires of the vertical position counter, lowest bit first.
pub open spec fn vpos_nodes() -> Seq<u16> {
    seq![
        NODE_VPOS0,
        NODE_VPOS1,
        NODE_VPOS2,
        NODE_VPOS3,
        NODE_VPOS4,
        NODE_VPOS5,
        NODE_VPOS6,
        NODE_VPOS7,
        NODE_VPOS8,
    ]
}

/// The six wires of the palette output, lowest bit first.
pub open spec fn pal_nodes() -> Seq<u16> {
    seq![
        NODE_PAL_D0_OUT,
        NODE_PAL_D1_OUT,
        NODE_PAL_D2_OUT,
        NODE_PAL_D3_OUT,
        NODE_PAL_D4_OUT,
        NODE_PAL_D5_OUT,
    ]
}

/// Whether the two sides of a latch bit can be written in a network of
/// `node_total` wires: either side absent, or both wires of the network
/// and no rails.
pub open spec fn latch_ok(sides: (i32, i32), node_total: int) -> bool {
    sides.0 < 0 || sides.1 < 0 || (sides.0 < node_total && sides.1 < node_total && sides.0
        != NODE_GND && sides.0 != NODE_PWR && sides.1 != NODE_GND && sides.1 != NODE_PWR)
}

/// Whether a latch table has `rows` rows of at least `width` writable bits.
pub open spec fn latches_ok(
    table: Seq<Vec<(i32, i32)>>,
    rows: int,
    width: int,
    node_total: int,
) -> bool {
    &&& table.len() == rows
    &&& forall|r: int| 0 <= r < rows ==> (#[trigger] table[r])@.len() >= width
    &&& forall|r: int, b: int|
        0 <= r < rows && 0 <= b < width ==> latch_ok(#[trigger] table[r]@[b], node_total)
}

/// The four marks of a wire as a snapshot packs them into half a byte:
/// floating is bit 0, pulled down bit 1, pulled up bit 2 and the level bit 3.
pub open spec fn packed_marks(half: int) -> (bool, bool, bool, bool) {
    (half % 2 == 1, (half / 2) % 2 == 1, (half / 4) % 2 == 1, (half / 8) % 2 == 1)
}

/// The half byte of wire `n` in a snapshot: two wires to a byte, the even
/// one in the low half.
pub open spec fn packed_half(bytes: Seq<u8>, n: int) -> int {
    if n % 2 == 0 {
        bytes[n / 2] as int % 16
    } else {
        bytes[n / 2] as int / 16
    }
}

/// The bit of transistor `t` in a snapshot: eight transistors to a byte,
/// the first in the lowest bit.
pub open spec fn packed_switch(bytes: Seq<u8>, t: int) -> bool {
    (bytes[t / 8] as int / pow2_small(t % 8)) % 2 == 1
}

/// Two to the power `k`, for `k` below eight.
pub open spec fn pow2_small(k: int) -> int {
    if k == 0 {
        1
    } else if k == 1 {
        2
    } else if k == 2 {
        4
    } else if k == 3 {
        8
    } else if k == 4 {
        16
    } else if k == 5 {
        32
    } else if k == 6 {
        64
    } else {
        128
    }
}

/// A cartridge as the loader hands it over.
pub struct Cartridge {
    pub mapper: u16,
    pub mirroring: MirroringType,
    /// Program memory, 16 or 32 KiB.
    pub prg: Vec<u8>,
    /// Character memory, 8 KiB.
    pub chr: Vec<u8>,
}

/// The whole simulation as a mathematical value.
pub struct SimView {
    pub circuit: CircuitView,
    pub memory: MemoryView,
    /// Every wire that has a segment and is no rail.
    pub all_recalc_nodes: Seq<u16>,
    /// Half-steps left until the input/output chip enable is raised again.
    pub step_cycle_count: u8,
    pub prev_ppu_ale: bool,
    pub prev_ppu_write: bool,
    pub prev_ppu_read: bool,
    /// The address latched from the picture chip's address bus.
    pub chr_address: u16,
    pub last_address: u16,
    /// The picture chip's data bus as last sampled while it was driven.
    pub last_data: u8,
    /// The horizontal position of the pixel sampled last, or -1.
    pub prev_hpos: i32,
    pub framebuffer: Seq<u32>,
    pub sprite_nodes: Seq<Vec<(i32, i32)>>,
    pub palette_nodes: Seq<Vec<(i32, i32)>>,
}

impl SimView {
    /// The circuit is idle and holds every pinned wire, the memories and
    /// the picture have their sizes, and the latch tables can be written.
    pub open spec fn wf(self) -> bool {
        &&& self.circuit.idle()
        &&& self.circuit.wiring.nodes.len() >= PINNED_NODES
        &&& self.memory.wf()
        &&& self.framebuffer.len() == SCREEN_WIDTH * SCREEN_HEIGHT
        &&& forall|k: int|
            0 <= k < self.all_recalc_nodes.len() ==> (#[trigger] self.all_recalc_nodes[k])
                < self.circuit.wiring.nodes.len()
        &&& latches_ok(
            self.palette_nodes,
            PALETTE_RAM_SIZE as int,
            6,
            self.circuit.wiring.nodes.len() as int,
        )
        &&& latches_ok(
            self.sprite_nodes,
            SPRITE_RAM_SIZE as int,
            8,
            self.circuit.wiring.nodes.len() as int,
        )
    }

    /// Well formed, with faithful gate lists and channel rows: what the
    /// network build hands over.
    pub open spec fn ready(self) -> bool {
        self.wf() && self.circuit.wiring.gates_faithful() && self.circuit.wiring.links_faithful()
    }

    /// Whether `before` is the same machine in another state: its
    /// topology, its list of wires to relax and its latch tables are this
    /// one's.
    pub open spec fn kin(self, before: SimView) -> bool {
        &&& self.circuit.wiring.same_topology(before.circuit.wiring)
        &&& self.all_recalc_nodes == before.all_recalc_nodes
        &&& self.palette_nodes == before.palette_nodes
        &&& self.sprite_nodes == before.sprite_nodes
    }

    /// Whether wire `node` is pulled up and not down.
    pub open spec fn pulled_up(self, node: u16) -> bool {
        let wire = self.circuit.wiring.nodes[node as int];
        wire.pullup && !wire.pulldown
    }

    /// Whether wire `node` is pulled down and not up.
    pub open spec fn pulled_down(self, node: u16) -> bool {
        let wire = self.circuit.wiring.nodes[node as int];
        !wire.pullup && wire.pulldown
    }

    /// Whether the snapshot of the picture chip's bus is as a reset leaves
    /// it, and reset is pulled up.
    pub open spec fn restarted(self) -> bool {
        &&& self.pulled_up(NODE_RESET)
        &&& self.chr_address == 0
        &&& self.prev_ppu_read
        &&& self.prev_ppu_write
        &&& !self.prev_ppu_ale
        &&& self.prev_hpos == -1
    }

    /// What power-on leaves behind where it does not halt: reset, chip
    /// enable and the two interrupt lines are pulled up, the clock and the
    /// overflow input are pulled down, the memories and the picture are
    /// zero, and the bus snapshot is reset.
    pub open spec fn started(self) -> bool {
        &&& self.restarted()
        &&& self.pulled_down(NODE_CLK0)
        &&& self.pulled_up(NODE_IO_CE)
        &&& self.pulled_up(NODE_INT)
        &&& self.pulled_down(NODE_CPU_SO)
        &&& self.pulled_up(NODE_CPU_IRQ)
        &&& self.pulled_up(NODE_CPU_NMI)
        &&& self.memory == self.memory.cleared()
        &&& self.framebuffer == Seq::new((SCREEN_WIDTH * SCREEN_HEIGHT) as nat, |i: int| 0u32)
    }

    /// Whether power-on relaxes every wire, which it does if every wire
    /// has a segment.
    pub open spec fn relaxes_every_wire(self) -> bool {
        forall|n: int| is_wire(self.circuit.wiring, n) ==> self.all_recalc_nodes.contains(n as u16)
    }

    /// Whether every wire sits at the level that its component takes.
    pub open spec fn settled(self) -> bool {
        settled(self.circuit.wiring)
    }

    /// Ready, and every transistor follows its gate: what holds of a
    /// simulation from its build onwards.
    pub open spec fn sound(self) -> bool {
        self.ready() && self.circuit.wiring.sound()
    }

    /// Sound, with the rails at their levels: what holds of a simulation
    /// from power-on onwards.
    pub open spec fn powered_up(self) -> bool {
        self.sound() && self.circuit.wiring.rails_fixed()
    }

    /// Whether a relaxation has failed to settle since power-on.
    pub open spec fn halted(self) -> bool {
        self.circuit.diverged
    }

    /// The present level of wire `node`.
    pub open spec fn level(self, node: u16) -> bool {
        self.circuit.wiring.level(node)
    }

    /// The number read off the listed wires, lowest bit first.
    pub open spec fn bits(self, nodes: Seq<u16>) -> nat {
        self.circuit.wiring.bits_value(nodes)
    }

    /// The same simulation around another circuit.
    pub open spec fn around(self, circuit: CircuitView) -> SimView {
        SimView { circuit, ..self }
    }

    /// Pulls wire `node` up and relaxes.
    pub open spec fn set_high(self, node: u16) -> SimView {
        self.around(self.circuit.set_high(node))
    }

    /// Pulls wire `node` down and relaxes.
    pub open spec fn set_low(self, node: u16) -> SimView {
        self.around(self.circuit.set_low(node))
    }

    /// Writes the bits of `rest` from bit `b` up to `width` into the
    /// latches of `row`, lowest bit first: a one sets the second side of
    /// the latch, a zero the first.
    pub open spec fn latch_bits(
        self,
        row: Seq<(i32, i32)>,
        rest: nat,
        b: int,
        width: int,
    ) -> SimView
        decreases width - b,
    {
        if b < 0 || b >= width {
            self
        } else {
            let written = if rest % 2 == 1 {
                self.circuit.set_bit(row[b].1, row[b].0)
            } else {
                self.circuit.set_bit(row[b].0, row[b].1)
            };
            self.around(written).latch_bits(row, rest / 2, b + 1, width)
        }
    }

    /// Writes the low six bits of `val` into palette byte `addr`.
    pub open spec fn palette_write(self, addr: u16, val: u8) -> SimView {
        self.latch_bits(self.palette_nodes[addr as int]@, val as nat, 0, 6)
    }

    /// Writes `val` into sprite byte `addr`.
    pub open spec fn sprite_write(self, addr: u16, val: u8) -> SimView {
        self.latch_bits(self.sprite_nodes[addr as int]@, val as nat, 0, 8)
    }

    /// Writes `buffer[i..]` into the palette bytes from `i` on, as far as
    /// there are palette bytes.
    pub open spec fn palette_loaded(self, buffer: Seq<u8>, i: int) -> SimView
        decreases buffer.len() - i,
    {
        if i < 0 || i >= buffer.len() || i >= PALETTE_RAM_SIZE {
            self
        } else {
            self.palette_write(i as u16, buffer[i]).palette_loaded(buffer, i + 1)
        }
    }

    /// Writes `buffer[i..]` into the sprite bytes from `i` on, as far as
    /// there are sprite bytes.
    pub open spec fn sprite_loaded(self, buffer: Seq<u8>, i: int) -> SimView
        decreases buffer.len() - i,
    {
        if i < 0 || i >= buffer.len() || i >= SPRITE_RAM_SIZE {
            self
        } else {
            self.sprite_write(i as u16, buffer[i]).sprite_loaded(buffer, i + 1)
        }
    }

    /// Toggles the master clock.
    pub open spec fn toggle_clock(self) -> SimView {
        if self.level(NODE_CLK0) {
            self.set_low(NODE_CLK0)
        } else {
            self.set_high(NODE_CLK0)
        }
    }

    /// Toggles the master clock `n` times.
    pub open spec fn toggled(self, n: nat) -> SimView
        decreases n,
    {
        if n == 0 {
            self
        } else {
            self.toggle_clock().toggled((n - 1) as nat)
        }
    }

    /// Raises and lowers the master clock `n` times.
    pub open spec fn clocked(self, n: nat) -> SimView
        decreases n,
    {
        if n == 0 {
            self
        } else {
            self.set_high(NODE_CLK0).set_low(NODE_CLK0).clocked((n - 1) as nat)
        }
    }

    /// The simulation with the picture chip's bus snapshot reset.
    pub open spec fn bus_reset(self) -> SimView {
        SimView {
            prev_hpos: -1i32,
            chr_address: 0,
            prev_ppu_read: true,
            prev_ppu_write: true,
            prev_ppu_ale: false,
            ..self
        }
    }

    /// Reset: the reset line is held low over 193 toggles of the master
    /// clock and raised again. A halted simulation stays as it is.
    pub open spec fn soft_reset(self) -> SimView {
        if self.halted() {
            self
        } else {
            self.bus_reset().set_low(NODE_RESET).toggled(193).set_high(NODE_RESET)
        }
    }

    /// Power-on: memories and picture are zeroed and the network returns
    /// to its power-on levels; then reset and clock go low, chip enable and
    /// interrupt go high, the clock ticks six times, the processor's
    /// overflow input goes low and its two interrupt inputs high, every
    /// wire that has a segment is relaxed, the clock ticks 96 times, and
    /// reset is raised.
    pub open spec fn power_on(self) -> SimView {
        let fresh = SimView {
            circuit: self.circuit.powered_on(),
            memory: self.memory.cleared(),
            framebuffer: Seq::new((SCREEN_WIDTH * SCREEN_HEIGHT) as nat, |i: int| 0u32),
            ..self.bus_reset()
        };
        let started = fresh.set_low(NODE_RESET).set_low(NODE_CLK0).set_high(NODE_IO_CE).set_high(
            NODE_INT,
        ).clocked(6).set_low(NODE_CPU_SO).set_high(NODE_CPU_IRQ).set_high(NODE_CPU_NMI);
        started.around(started.circuit.relax(started.all_recalc_nodes)).clocked(96).set_high(
            NODE_RESET,
        )
    }

    /// Power-on, or reset when `soft_reset` is set.
    pub open spec fn init(self, soft_reset: bool) -> SimView {
        if soft_reset {
            self.soft_reset()
        } else {
            self.power_on()
        }
    }

    /// The chip-enable decoder: while the countdown runs it is decremented,
    /// and chip enable is raised when it reaches zero; otherwise an
    /// address in $2000-$3FFF on the processor's bus while its clock is
    /// high lowers chip enable and starts the countdown at 11.
    pub open spec fn decode_io(self) -> SimView {
        if self.halted() {
            self
        } else if self.step_cycle_count > 0 {
            let counted = SimView {
                step_cycle_count: (self.step_cycle_count - 1) as u8,
                ..self
            };
            if counted.step_cycle_count == 0 {
                counted.set_high(NODE_IO_CE)
            } else {
                counted
            }
        } else if self.level(NODE_CPU_AB13) && !self.level(NODE_CPU_AB14) && !self.level(
            NODE_CPU_AB15,
        ) && self.level(NODE_CPU_CLK0) {
            (SimView { step_cycle_count: 11, ..self }).set_low(NODE_IO_CE)
        } else {
            self
        }
    }

    /// The cartridge's side of the picture chip's bus: a rising edge of
    /// the address latch enable latches the address bus; a falling edge of
    /// the read line drives the data bus with the byte at the latched
    /// address, a rising edge lets it float; a rising edge of the write
    /// line stores the byte on the data bus at the latched address; the
    /// data bus is sampled while the read or the write line is low; and the
    /// three lines are remembered.
    pub open spec fn handle_chr_bus(self) -> SimView {
        if self.halted() {
            self
        } else {
            let ale = self.level(NODE_ALE);
            let rd = self.level(NODE_RD);
            let wr = self.level(NODE_WR);
            let latched = if !self.prev_ppu_ale && ale {
                SimView {
                    chr_address: self.bits(ab_nodes()) as u16,
                    last_address: self.bits(ab_nodes()) as u16,
                    ..self
                }
            } else {
                self
            };
            let driven = if self.prev_ppu_read && !rd {
                latched.around(
                    latched.circuit.write_bits(
                        db_nodes(),
                        latched.memory.ppu_read(latched.chr_address) as nat,
                    ),
                )
            } else if !self.prev_ppu_read && rd {
                latched.around(latched.circuit.float_bits(db_nodes()))
            } else {
                latched
            };
            if driven.halted() {
                driven
            } else {
                let stored = if !self.prev_ppu_write && wr {
                    SimView {
                        memory: driven.memory.ppu_write(
                            driven.chr_address,
                            driven.bits(db_nodes()) as u8,
                        ),
                        ..driven
                    }
                } else {
                    driven
                };
                let sampled = if !stored.level(NODE_RD) || !stored.level(NODE_WR) {
                    SimView { last_data: stored.bits(db_nodes()) as u8, ..stored }
                } else {
                    stored
                };
                SimView { prev_ppu_ale: ale, prev_ppu_read: rd, prev_ppu_write: wr, ..sampled }
            }
        }
    }

    /// The memory's answer to a read by the processor: while the
    /// read/write line is high, the byte at the address on the bus is put
    /// on the data bus and remembered as last seen, or the data bus floats
    /// where the bus is open.
    pub open spec fn handle_cpu_bus_read(self) -> SimView {
        if self.halted() || !self.level(NODE_CPU_RW) {
            self
        } else {
            let read = self.memory.cpu_read(self.bits(cpu_ab_nodes()) as u16);
            if read.1 {
                self.around(self.circuit.float_bits(cpu_db_nodes()))
            } else {
                (SimView {
                    memory: (MemoryView { last_cpu_db_value: read.0, ..self.memory }),
                    ..self
                }).around(self.circuit.write_bits(cpu_db_nodes(), read.0 as nat))
            }
        }
    }

    /// A write by the processor: while the read/write line is low, the
    /// byte on the data bus is stored at the address on the bus and
    /// remembered as last seen.
    pub open spec fn handle_cpu_bus_write(self) -> SimView {
        if self.halted() || self.level(NODE_CPU_RW) {
            self
        } else {
            let a = self.bits(cpu_ab_nodes()) as u16;
            let d = self.bits(cpu_db_nodes()) as u8;
            SimView {
                memory: (MemoryView { last_cpu_db_value: d, ..self.memory.cpu_write(a, d) }),
                ..self
            }
        }
    }

    /// The processor's side effects: on a falling edge of its clock the
    /// memory answers a read, on a rising edge it takes a write.
    pub open spec fn handle_cpu_bus(self, prev_cpu_clk: bool) -> SimView {
        if self.halted() || self.level(NODE_CPU_CLK0) == prev_cpu_clk {
            self
        } else if prev_cpu_clk {
            self.handle_cpu_bus_read()
        } else {
            self.handle_cpu_bus_write()
        }
    }

    /// The video sampler: while the pixel clock is high and the
    /// horizontal position, less 2, has moved, the position is remembered,
    /// and if it lies inside the picture the colour at the palette output
    /// is stored there.
    pub open spec fn sample_video(self) -> SimView {
        if self.halted() || !self.level(NODE_PCLK1) {
            self
        } else {
            let hpos = self.bits(hpos_nodes()) - 2;
            let vpos = self.bits(vpos_nodes()) as int;
            if hpos == self.prev_hpos {
                self
            } else if 0 <= hpos < 256 && vpos < 240 {
                SimView {
                    framebuffer: self.framebuffer.update(
                        vpos * 256 + hpos,
                        PALETTE_ARGB[self.bits(pal_nodes()) as int],
                    ),
                    prev_hpos: hpos as i32,
                    ..self
                }
            } else {
                SimView { prev_hpos: hpos as i32, ..self }
            }
        }
    }

    /// One edge of the master clock with everything that follows from it.
    pub open spec fn half_step(self) -> SimView {
        if self.halted() {
            self
        } else {
            self.toggle_clock().decode_io().handle_chr_bus().handle_cpu_bus(
                self.level(NODE_CPU_CLK0),
            ).sample_video()
        }
    }

    /// Whether a snapshot of the marks of every wire, two wires to a byte,
    /// and of the switch of every transistor, eight to a byte, has the
    /// sizes for this network and shows it as it is.
    pub open spec fn shown_by(self, node_bytes: Seq<u8>, transistor_bytes: Seq<u8>) -> bool {
        let w = self.circuit.wiring;
        &&& node_bytes.len() == (w.nodes.len() + 1) / 2
        &&& transistor_bytes.len() == (w.transistors.len() + 7) / 8
        &&& forall|n: int|
            0 <= n < w.nodes.len() ==> packed_marks(packed_half(node_bytes, n)) == (
                (#[trigger] w.nodes[n]).floating,
                w.nodes[n].pulldown,
                w.nodes[n].pullup,
                w.nodes[n].state,
            )
        &&& forall|t: int|
            0 <= t < w.transistors.len() ==> packed_switch(transistor_bytes, t) == (
            #[trigger] w.transistors[t]).on
    }

    /// Whether a cartridge has the mapper, the mirroring and the memory
    /// sizes that the simulation takes.
    pub open spec fn takes(rom: Cartridge) -> bool {
        &&& rom.mapper == 0
        &&& (rom.mirroring == MirroringType::Horizontal || rom.mirroring == MirroringType::Vertical)
        &&& (rom.prg@.len() == 0x4000 || rom.prg@.len() == PRG_RAM_SIZE)
        &&& rom.chr@.len() == CHR_RAM_SIZE
    }

    /// The program memory that a cartridge fills: its own 32 KiB, or its
    /// 16 KiB twice.
    pub open spec fn program_image(prg: Seq<u8>) -> Seq<u8> {
        if prg.len() == 0x4000 {
            prg + prg
        } else {
            prg
        }
    }

    /// The simulation after a cartridge that it takes is put in: the
    /// mirroring is the cartridge's, the machine is powered on, and, unless
    /// that halted it, character and program memory hold the cartridge's.
    pub open spec fn load_rom(self, rom: Cartridge) -> SimView {
        let started = (SimView {
            memory: (MemoryView { mirroring: rom.mirroring, ..self.memory }),
            ..self
        }).power_on();
        if started.halted() {
            started
        } else {
            SimView {
                memory: started.memory.loaded(MemoryType::ChrRam, rom.chr@).loaded(
                    MemoryType::PrgRam,
                    Self::program_image(rom.prg@),
                ),
                ..started
            }
        }
    }
}

} // verus!
