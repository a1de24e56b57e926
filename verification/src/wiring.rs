use vstd::prelude::*;
use crate::components::{Node, Transistor};
use crate::consts::{NODE_GND, NODE_PWR, MAX_PASSES};

verus! {

/// Ground and power: the two wires of unlimited drive strength.
pub open spec fn is_rail(node: u16) -> bool {
    node == NODE_GND || node == NODE_PWR
}

/// The wires of this die that tolerate being tied to both rails at once.
pub open spec fn is_weak_drive(node: u16) -> bool {
    node == 359 || node == 566 || node == 691 || node == 818 || node == 856 || node == 864 || node
        == 870 || node == 871
}

/// The wires found connected to a seed through conducting transistors, in
/// the order the walk met them, and whether the walk touched each rail.
pub struct Group {
    pub members: Seq<u16>,
    pub has_ground: bool,
    pub has_power: bool,
}

impl Group {
    /// No wire collected, no rail touched.
    pub open spec fn empty() -> Group {
        Group { members: Seq::empty(), has_ground: false, has_power: false }
    }

    /// The group with one more wire at its end.
    pub open spec fn with_member(self, node: u16) -> Group {
        Group { members: self.members.push(node), ..self }
    }

    /// Some member is a weak-drive wire.
    pub open spec fn any_weak(self) -> bool {
        exists|i: int| 0 <= i < self.members.len() && is_weak_drive(#[trigger] self.members[i])
    }

    /// The group as the resolver leaves it: where it touches both rails
    /// and holds a weak-drive wire, both rail flags are cleared; otherwise
    /// it is as it was.
    pub open spec fn waived(self) -> Group {
        if self.has_ground && self.has_power && self.any_weak() {
            Group { has_ground: false, has_power: false, ..self }
        } else {
            self
        }
    }

    /// Whether the group counts as tied to ground once a rail conflict on a
    /// weak-drive wire has been waived.
    pub open spec fn grounded(self) -> bool {
        self.has_ground && !(self.has_power && self.any_weak())
    }

    /// Whether the group counts as tied to power once a rail conflict on a
    /// weak-drive wire has been waived.
    pub open spec fn powered(self) -> bool {
        self.has_power && !(self.has_ground && self.any_weak())
    }
}

/// The network as a mathematical value: every wire and transistor with its
/// present level, and the channel table.
pub struct Wiring {
    pub nodes: Seq<Node>,
    pub transistors: Seq<Transistor>,
    /// For each wire, how many entries of its `links` row are in use.
    pub counts: Seq<u8>,
    /// For each wire, the transistors whose channel touches it.
    pub links: Seq<Vec<u16>>,
}

/// A network under relaxation: the wiring, the wires waiting for the next
/// pass, and whether a relaxation has ever failed to settle.
pub struct CircuitView {
    pub wiring: Wiring,
    pub pending: Seq<u16>,
    pub diverged: bool,
}

impl Wiring {
    /// Every index stored in the network points inside its tables, both rails
    /// exist, and wire and transistor numbers fit sixteen bits.
    pub open spec fn wf(self) -> bool {
        &&& NODE_GND < self.nodes.len() <= 65535
        &&& self.transistors.len() <= 65536
        &&& self.counts.len() == self.links.len()
        &&& self.nodes.len() <= self.counts.len()
        &&& forall|t: int|
            0 <= t < self.transistors.len() ==> {
                &&& (#[trigger] self.transistors[t]).gate < self.nodes.len()
                &&& self.transistors[t].c1 < self.nodes.len()
                &&& self.transistors[t].c2 < self.nodes.len()
            }
        &&& forall|n: int, j: int|
            0 <= n < self.nodes.len() && 0 <= j < self.nodes[n].gates@.len() ==> (
            #[trigger] self.nodes[n].gates@[j]) < self.transistors.len()
        &&& forall|n: int|
            0 <= n < self.nodes.len() ==> (#[trigger] self.counts[n]) <= self.links[n]@.len()
        &&& forall|n: int, i: int|
            0 <= n < self.nodes.len() && 0 <= i < self.counts[n] ==> (#[trigger] self.links[n]@[i])
                < self.transistors.len()
    }

    /// Number of wires still outside `group`, zero once it is full.
    pub open spec fn room(self, group: Group) -> nat {
        if group.members.len() >= self.nodes.len() {
            0
        } else {
            (self.nodes.len() - group.members.len()) as nat
        }
    }

    /// The end of transistor `t` that is not `node`.
    pub open spec fn other_end(self, t: int, node: u16) -> u16 {
        if self.transistors[t].c1 == node {
            self.transistors[t].c2
        } else {
            self.transistors[t].c1
        }
    }

    /// Depth-first walk from `node` that extends `group`: a rail raises its
    /// flag and ends the branch, a wire already collected ends the branch,
    /// and a new wire is appended before its channels are followed in table
    /// order. The walk also stops on a group that already holds as many
    /// wires as the network has; on a well-formed network that cannot happen.
    pub open spec fn walk(self, group: Group, node: u16) -> Group
        decreases self.room(group), 0int, 0int,
    {
        if node == NODE_GND {
            Group { has_ground: true, ..group }
        } else if node == NODE_PWR {
            Group { has_power: true, ..group }
        } else if group.members.contains(node) || group.members.len() >= self.nodes.len() {
            group
        } else {
            self.walk_links(group.with_member(node), node, 0)
        }
    }

    /// Follows the conducting transistors in `node`'s channel row from
    /// position `i` on. A step that lost wires would end the scan; no step
    /// of `walk` does.
    pub open spec fn walk_links(self, group: Group, node: u16, i: int) -> Group
        decreases self.room(group), 1int, self.counts[node as int] - i,
    {
        if i < 0 || i >= self.counts[node as int] {
            group
        } else {
            let t = self.links[node as int]@[i] as int;
            let next = if self.transistors[t].on {
                self.walk(group, self.other_end(t, node))
            } else {
                group
            };
            if next.members.len() < group.members.len() {
                next
            } else {
                self.walk_links(next, node, i + 1)
            }
        }
    }

    /// The group of `seed`.
    pub open spec fn group_of(self, seed: u16) -> Group {
        self.walk(Group::empty(), seed)
    }

    /// Some member of the list is pulled up.
    pub open spec fn any_pullup(self, members: Seq<u16>) -> bool {
        exists|i: int| 0 <= i < members.len() && self.nodes[#[trigger] members[i] as int].pullup
    }

    /// Some member of the list is pulled down.
    pub open spec fn any_pulldown(self, members: Seq<u16>) -> bool {
        exists|i: int| 0 <= i < members.len() && self.nodes[#[trigger] members[i] as int].pulldown
    }

    /// Total area of the listed wires that presently sit at `level`.
    pub open spec fn area_at(self, members: Seq<u16>, level: bool) -> nat
        decreases members.len(),
    {
        if members.len() == 0 {
            0
        } else {
            let last = self.nodes[members.last() as int];
            self.area_at(members.drop_last(), level) + if last.state == level {
                last.area as nat
            } else {
                0
            }
        }
    }

    /// The level a group takes: ground wins, then power, then any pull-up,
    /// then any pull-down, then the larger stored charge, low on a tie.
    pub open spec fn level_of(self, group: Group) -> bool {
        if group.grounded() {
            false
        } else if group.powered() {
            true
        } else if self.any_pullup(group.members) {
            true
        } else if self.any_pulldown(group.members) {
            false
        } else {
            self.area_at(group.members, true) > self.area_at(group.members, false)
        }
    }

    /// The network with transistor `t` switched to `on`.
    pub open spec fn with_on(self, t: int, on: bool) -> Wiring {
        Wiring {
            transistors: self.transistors.update(t, Transistor { on, ..self.transistors[t] }),
            ..self
        }
    }

    /// The network with wire `node` at `level`.
    pub open spec fn with_state(self, node: int, level: bool) -> Wiring {
        Wiring { nodes: self.nodes.update(node, Node { state: level, ..self.nodes[node] }), ..self }
    }

    /// Every gate list holds exactly the transistors that its wire gates.
    pub open spec fn gates_faithful(self) -> bool {
        &&& forall|n: int, j: int|
            0 <= n < self.nodes.len() && 0 <= j < self.nodes[n].gates@.len()
                ==> self.transistors[(#[trigger] self.nodes[n].gates@[j]) as int].gate == n
        &&& forall|t: int|
            0 <= t < self.transistors.len() ==> self.nodes[(
            #[trigger] self.transistors[t]).gate as int].gates@.contains(t as u16)
    }

    /// Every transistor conducts exactly while its gate is high.
    pub open spec fn gates_follow(self) -> bool {
        forall|t: int|
            0 <= t < self.transistors.len() ==> (#[trigger] self.transistors[t]).on
                == self.nodes[self.transistors[t].gate as int].state
    }

    /// Ground is low, power is high, and neither floats.
    pub open spec fn rails_fixed(self) -> bool {
        &&& !self.nodes[NODE_GND as int].state
        &&& !self.nodes[NODE_GND as int].floating
        &&& self.nodes[NODE_PWR as int].state
        &&& !self.nodes[NODE_PWR as int].floating
    }

    /// Whether `other` is the same network but for levels, pulls and the
    /// floating marks.
    pub open spec fn same_topology(self, other: Wiring) -> bool {
        &&& self.nodes.len() == other.nodes.len()
        &&& self.transistors.len() == other.transistors.len()
        &&& self.counts == other.counts
        &&& self.links == other.links
        &&& forall|n: int|
            0 <= n < self.nodes.len() ==> (#[trigger] self.nodes[n]).gates == other.nodes[n].gates
                && self.nodes[n].area == other.nodes[n].area
        &&& forall|t: int|
            0 <= t < self.transistors.len() ==> (#[trigger] self.transistors[t]).gate
                == other.transistors[t].gate && self.transistors[t].c1 == other.transistors[t].c1
                && self.transistors[t].c2 == other.transistors[t].c2
    }

    /// Well formed, with faithful gate lists and transistors that follow
    /// their gates: what holds of a network from its build onwards.
    pub open spec fn sound(self) -> bool {
        self.wf() && self.gates_faithful() && self.gates_follow()
    }

    /// Sound, with the rails at their levels: what holds of a network from
    /// power-on onwards.
    pub open spec fn powered_up(self) -> bool {
        self.sound() && self.rails_fixed()
    }

    /// The network with the pulls of wire `node` set as given.
    pub open spec fn with_pulls(self, node: int, up: bool, down: bool) -> Wiring {
        Wiring {
            nodes: self.nodes.update(node, Node { pullup: up, pulldown: down, ..self.nodes[node] }),
            ..self
        }
    }

    /// The present level of wire `node`.
    pub open spec fn level(self, node: u16) -> bool {
        self.nodes[node as int].state
    }

    /// The number whose binary digits are the levels of the listed wires,
    /// lowest digit first.
    pub open spec fn bits_value(self, nodes: Seq<u16>) -> nat
        decreases nodes.len(),
    {
        if nodes.len() == 0 {
            0
        } else {
            2 * self.bits_value(nodes.skip(1)) + if self.level(nodes[0]) {
                1nat
            } else {
                0nat
            }
        }
    }

    /// The network with every transistor listed in `gates` switched to `on`,
    /// and the others as they are.
    pub open spec fn forced(self, gates: Seq<u16>, on: bool) -> Wiring {
        Wiring {
            transistors: Seq::new(
                self.transistors.len(),
                |t: int|
                    if 0 <= t < 65536 && gates.contains(t as u16) {
                        Transistor { on, ..self.transistors[t] }
                    } else {
                        self.transistors[t]
                    },
            ),
            ..self
        }
    }

    /// Pulls the wires `nodes[i..]` up or down after the binary digits of
    /// `value`, lowest digit first.
    pub open spec fn driven(self, nodes: Seq<u16>, value: nat, i: int) -> Wiring
        decreases nodes.len() - i,
    {
        if i < 0 || i >= nodes.len() {
            self
        } else {
            self.with_pulls(nodes[i] as int, value % 2 == 1, value % 2 == 0).driven(
                nodes,
                value / 2,
                i + 1,
            )
        }
    }

    /// Takes both pulls off the wires `nodes[i..]`.
    pub open spec fn released(self, nodes: Seq<u16>, i: int) -> Wiring
        decreases nodes.len() - i,
    {
        if i < 0 || i >= nodes.len() {
            self
        } else {
            self.with_pulls(nodes[i] as int, false, false).released(nodes, i + 1)
        }
    }

    /// The network at power-on: ground low, power high, every other wire low
    /// and floating, and exactly the transistors gated by power conducting.
    /// Pulls, areas and the topology stay.
    pub open spec fn powered_on(self) -> Wiring {
        Wiring {
            nodes: Seq::new(
                self.nodes.len(),
                |n: int|
                    Node {
                        state: n == NODE_PWR,
                        floating: n != NODE_GND && n != NODE_PWR,
                        ..self.nodes[n]
                    },
            ),
            transistors: Seq::new(
                self.transistors.len(),
                |t: int|
                    Transistor { on: self.transistors[t].gate == NODE_PWR, ..self.transistors[t] },
            ),
            ..self
        }
    }
}

impl CircuitView {
    /// The wiring is well formed, and every queued wire exists and is no rail.
    pub open spec fn wf(self) -> bool {
        &&& self.wiring.wf()
        &&& forall|k: int|
            0 <= k < self.pending.len() ==> (#[trigger] self.pending[k]) < self.wiring.nodes.len()
                && !is_rail(self.pending[k])
    }

    /// Well formed with nothing queued: the state between two operations.
    pub open spec fn idle(self) -> bool {
        self.wf() && self.pending.len() == 0
    }

    /// The same circuit over another wiring.
    pub open spec fn over(self, wiring: Wiring) -> CircuitView {
        CircuitView { wiring, ..self }
    }

    /// Queues `node` for the next pass unless it is a rail or already queued.
    pub open spec fn enqueue(self, node: u16) -> CircuitView {
        if is_rail(node) || self.pending.contains(node) {
            self
        } else {
            CircuitView { pending: self.pending.push(node), ..self }
        }
    }

    /// Closes transistor `t` if it is open, and queues its first channel end.
    pub open spec fn turn_on(self, t: int) -> CircuitView {
        if self.wiring.transistors[t].on {
            self
        } else {
            self.over(self.wiring.with_on(t, true)).enqueue(self.wiring.transistors[t].c1)
        }
    }

    /// Opens transistor `t` if it is closed, and queues both channel ends.
    pub open spec fn turn_off(self, t: int) -> CircuitView {
        if !self.wiring.transistors[t].on {
            self
        } else {
            self.over(self.wiring.with_on(t, false)).enqueue(self.wiring.transistors[t].c1).enqueue(
                self.wiring.transistors[t].c2,
            )
        }
    }

    /// Switches the transistors `gates[j..]` to follow a gate at `level`.
    pub open spec fn switch_all(self, gates: Seq<u16>, j: int, level: bool) -> CircuitView
        decreases gates.len() - j,
    {
        if j < 0 || j >= gates.len() {
            self
        } else if level {
            self.turn_on(gates[j] as int).switch_all(gates, j + 1, level)
        } else {
            self.turn_off(gates[j] as int).switch_all(gates, j + 1, level)
        }
    }

    /// Brings wire `node` to `level`; if that changes it, the transistors it
    /// gates follow.
    pub open spec fn settle_member(self, node: u16, level: bool) -> CircuitView {
        if self.wiring.nodes[node as int].state == level {
            self
        } else {
            self.over(self.wiring.with_state(node as int, level)).switch_all(
                self.wiring.nodes[node as int].gates@,
                0,
                level,
            )
        }
    }

    /// Brings the wires `members[k..]` to `level`, one after the other.
    pub open spec fn settle_all(self, members: Seq<u16>, k: int, level: bool) -> CircuitView
        decreases members.len() - k,
    {
        if k < 0 || k >= members.len() {
            self
        } else {
            self.settle_member(members[k], level).settle_all(members, k + 1, level)
        }
    }

    /// Re-evaluates the group of `node` and brings all of it to its level.
    /// Rails are left alone.
    pub open spec fn recalc_node(self, node: u16) -> CircuitView {
        if is_rail(node) {
            self
        } else {
            let group = self.wiring.group_of(node);
            self.settle_all(group.members, 0, self.wiring.level_of(group))
        }
    }

    /// One relaxation pass over `current[i..]`.
    pub open spec fn pass(self, current: Seq<u16>, i: int) -> CircuitView
        decreases current.len() - i,
    {
        if i < 0 || i >= current.len() {
            self
        } else {
            self.recalc_node(current[i]).pass(current, i + 1)
        }
    }

    /// The network with nothing queued.
    pub open spec fn drained(self) -> CircuitView {
        CircuitView { pending: Seq::empty(), ..self }
    }

    /// Passes number `round` and later: each processes the wires the pass
    /// before it queued. The network is settled when a pass queues nothing,
    /// and is marked as diverged when pass number `MAX_PASSES` would be due.
    pub open spec fn relax_rounds(self, current: Seq<u16>, round: int) -> CircuitView
        decreases MAX_PASSES - round,
    {
        if round >= MAX_PASSES {
            CircuitView { diverged: true, ..self }
        } else {
            let after = self.pass(current, 0);
            if after.pending.len() == 0 {
                after
            } else {
                after.drained().relax_rounds(after.pending, round + 1)
            }
        }
    }

    /// Relaxation seeded with `seeds`. A network that has diverged stays as
    /// it is.
    pub open spec fn relax(self, seeds: Seq<u16>) -> CircuitView {
        if self.diverged {
            self
        } else {
            self.relax_rounds(seeds, 0)
        }
    }

    /// Pulls wire `node` up and relaxes from it.
    pub open spec fn set_high(self, node: u16) -> CircuitView {
        if self.diverged {
            self
        } else {
            self.over(self.wiring.with_pulls(node as int, true, false)).relax(seq![node])
        }
    }

    /// Pulls wire `node` down and relaxes from it.
    pub open spec fn set_low(self, node: u16) -> CircuitView {
        if self.diverged {
            self
        } else {
            self.over(self.wiring.with_pulls(node as int, false, true)).relax(seq![node])
        }
    }

    /// Writes a one into a latch whose two sides are `n1` and `n2`: the
    /// transistors gated by `n1` conduct, then those gated by `n2` are cut,
    /// `n1` goes high, then `n2` goes low, and the network relaxes from both.
    /// A negative number stands for an absent side and nothing happens.
    pub open spec fn set_bit(self, n1: i32, n2: i32) -> CircuitView {
        if self.diverged || n1 < 0 || n2 < 0 {
            self
        } else {
            let gated_on = self.wiring.forced(self.wiring.nodes[n1 as int].gates@, true);
            let gated_off = gated_on.forced(self.wiring.nodes[n2 as int].gates@, false);
            self.over(gated_off.with_state(n1 as int, true).with_state(n2 as int, false)).relax(
                seq![n1 as u16, n2 as u16],
            )
        }
    }

    /// Drives the listed wires with the binary digits of `value`, lowest
    /// digit first, and relaxes from all of them.
    pub open spec fn write_bits(self, nodes: Seq<u16>, value: nat) -> CircuitView {
        if self.diverged {
            self
        } else {
            self.over(self.wiring.driven(nodes, value, 0)).relax(nodes)
        }
    }

    /// Lets the listed wires float and relaxes from all of them.
    pub open spec fn float_bits(self, nodes: Seq<u16>) -> CircuitView {
        if self.diverged {
            self
        } else {
            self.over(self.wiring.released(nodes, 0)).relax(nodes)
        }
    }

    /// The circuit at power-on: levels reset, nothing queued, not diverged.
    pub open spec fn powered_on(self) -> CircuitView {
        CircuitView { wiring: self.wiring.powered_on(), pending: Seq::empty(), diverged: false }
    }
}

} // verus!
