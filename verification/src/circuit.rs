use vstd::prelude::*;
use crate::components::{Node, Transistor};
use crate::consts::{NODE_GND, NODE_PWR, MAX_PASSES};
use crate::processed_nodes_map::ProcessedNodesSet;
use crate::recalc_swap_list::RecalcSwapList;
use crate::connectivity::{component, level_in, touches};
use crate::laws::{
    kept, lemma_kept, lemma_set_bit_keeps_sound, rails_kept,
    lemma_float_bits_keeps_sound, lemma_power_on_sound, lemma_relax_keeps_sound,
    lemma_set_high_keeps_sound, lemma_set_low_keeps_sound, lemma_write_bits_keeps_sound,
};
use crate::settling::{
    covered, lemma_float_bits_settles, lemma_relax_settles, lemma_set_high_settles,
    lemma_set_low_settles, lemma_write_bits_settles, tail_set,
};
use crate::walk_laws::{lemma_group_is_component, lemma_level_of_group, member_set};
use crate::wiring::{is_rail, is_weak_drive, CircuitView, Group, Wiring};
use vstd::arithmetic::power2::{lemma2_to64, lemma_pow2_strictly_increases, lemma_pow2_unfold, pow2};

verus! {

impl Group {
    /// Every member is a wire of `wiring`, none is a rail, none occurs twice.
    pub open spec fn fits(self, wiring: Wiring) -> bool {
        &&& self.members.no_duplicates()
        &&& forall|k: int|
            0 <= k < self.members.len() ==> (#[trigger] self.members[k]) < wiring.nodes.len()
                && !is_rail(self.members[k])
    }
}

/// A list without repeats whose entries all lie below `bound` is no longer
/// than `bound`.
pub proof fn lemma_distinct_below(list: Seq<u16>, bound: nat)
    requires
        list.no_duplicates(),
        forall|k: int| 0 <= k < list.len() ==> (#[trigger] list[k]) < bound,
    ensures
        list.len() <= bound,
    decreases bound,
{
    if list.len() > 0 {
        if bound == 0 {
            assert(list[0] < bound);
        } else {
            let top = (bound - 1) as nat;
            if exists|k: int| 0 <= k < list.len() && list[k] == top {
                let k = choose|k: int| 0 <= k < list.len() && list[k] == top;
                let rest = list.remove(k);
                assert forall|a: int| 0 <= a < rest.len() implies (#[trigger] rest[a]) < top by {
                    if a < k {
                        assert(rest[a] == list[a]);
                    } else {
                        assert(rest[a] == list[a + 1]);
                    }
                }
                assert(rest.no_duplicates()) by {
                    assert forall|a: int, b: int|
                        0 <= a < rest.len() && 0 <= b < rest.len() && a != b implies rest[a]
                        != rest[b] by {
                        let a0 = if a < k { a } else { a + 1 };
                        let b0 = if b < k { b } else { b + 1 };
                        assert(rest[a] == list[a0]);
                        assert(rest[b] == list[b0]);
                    }
                }
                lemma_distinct_below(rest, top);
            } else {
                assert forall|a: int| 0 <= a < list.len() implies (#[trigger] list[a]) < top by {
                    assert(list[a] < bound);
                }
                lemma_distinct_below(list, top);
            }
        }
    }
}

/// Switching a transistor keeps a wiring well formed.
pub proof fn lemma_with_on_wf(wiring: Wiring, t: int, on: bool)
    requires
        wiring.wf(),
        0 <= t < wiring.transistors.len(),
    ensures
        wiring.with_on(t, on).wf(),
{
    let after = wiring.with_on(t, on);
    assert forall|u: int| 0 <= u < after.transistors.len() implies {
        &&& (#[trigger] after.transistors[u]).gate < after.nodes.len()
        &&& after.transistors[u].c1 < after.nodes.len()
        &&& after.transistors[u].c2 < after.nodes.len()
    } by {
        assert(wiring.transistors[u].gate < wiring.nodes.len());
    }
}

/// Changing the level of a wire keeps a wiring well formed.
pub proof fn lemma_with_state_wf(wiring: Wiring, node: int, level: bool)
    requires
        wiring.wf(),
        0 <= node < wiring.nodes.len(),
    ensures
        wiring.with_state(node, level).wf(),
{
    let after = wiring.with_state(node, level);
    assert forall|n: int, j: int|
        0 <= n < after.nodes.len() && 0 <= j < after.nodes[n].gates@.len() implies (
    #[trigger] after.nodes[n].gates@[j]) < after.transistors.len() by {
        assert(after.nodes[n].gates == wiring.nodes[n].gates);
        assert(wiring.nodes[n].gates@[j] < wiring.transistors.len());
    }
}

/// Changing the pulls of a wire keeps a wiring well formed.
pub proof fn lemma_with_pulls_wf(wiring: Wiring, node: int, up: bool, down: bool)
    requires
        wiring.wf(),
        0 <= node < wiring.nodes.len(),
    ensures
        wiring.with_pulls(node, up, down).wf(),
{
    let after = wiring.with_pulls(node, up, down);
    assert forall|n: int, j: int|
        0 <= n < after.nodes.len() && 0 <= j < after.nodes[n].gates@.len() implies (
    #[trigger] after.nodes[n].gates@[j]) < after.transistors.len() by {
        assert(after.nodes[n].gates == wiring.nodes[n].gates);
        assert(wiring.nodes[n].gates@[j] < wiring.transistors.len());
    }
}

/// The levels of `n` wires read as binary digits give a number below two
/// to the `n`.
pub proof fn lemma_bits_value_bound(wiring: Wiring, nodes: Seq<u16>)
    ensures
        wiring.bits_value(nodes) < pow2(nodes.len()),
    decreases nodes.len(),
{
    if nodes.len() == 0 {
        lemma2_to64();
    } else {
        lemma_bits_value_bound(wiring, nodes.skip(1));
        lemma_pow2_unfold(nodes.len());
    }
}

/// The wires, the transistors and the channel table of a network.
pub struct Net {
    nodes: Vec<Node>,
    transistors: Vec<Transistor>,
    node_counts: Vec<u8>,
    nodes_c1_c2: Vec<Vec<u16>>,
}

impl View for Net {
    type V = Wiring;

    closed spec fn view(&self) -> Wiring {
        Wiring {
            nodes: self.nodes@,
            transistors: self.transistors@,
            counts: self.node_counts@,
            links: self.nodes_c1_c2@,
        }
    }
}

/// The buffer a group is collected into.
pub struct GroupBuf {
    members: Vec<u16>,
    has_ground: bool,
    has_power: bool,
}

impl View for GroupBuf {
    type V = Group;

    closed spec fn view(&self) -> Group {
        Group {
            members: self.members@,
            has_ground: self.has_ground,
            has_power: self.has_power,
        }
    }
}

impl GroupBuf {
    /// An empty buffer.
    pub fn new() -> (buf: Self)
        ensures
            buf@ == Group::empty(),
    {
        GroupBuf { members: Vec::new(), has_ground: false, has_power: false }
    }

    /// Forgets the collected group.
    pub fn reset(&mut self)
        ensures
            final(self)@ == Group::empty(),
    {
        self.members.clear();
        self.has_ground = false;
        self.has_power = false;
    }

    /// Whether `node` has been collected.
    pub fn contains(&self, node: u16) -> (found: bool)
        ensures
            found == self@.members.contains(node),
    {
        let mut k: usize = 0;
        while k < self.members.len()
            invariant
                k <= self.members@.len(),
                forall|j: int| 0 <= j < k ==> self.members@[j] != node,
            decreases self.members@.len() - k,
        {
            if self.members[k] == node {
                return true;
            }
            k += 1;
        }
        false
    }
}

impl Net {
    /// Extends `buf` by the depth-first walk from `node_number`.
    pub fn add_node_to_group(&self, buf: &mut GroupBuf, node_number: u16)
        requires
            self@.wf(),
            node_number < self@.nodes.len(),
            old(buf)@.fits(self@),
        ensures
            final(buf)@ == self@.walk(old(buf)@, node_number),
            final(buf)@.fits(self@),
            final(buf)@.members.len() >= old(buf)@.members.len(),
        decreases self@.room(old(buf)@),
    {
        if node_number == NODE_GND {
            buf.has_ground = true;
            return ;
        }
        if node_number == NODE_PWR {
            buf.has_power = true;
            return ;
        }
        if buf.contains(node_number) {
            return ;
        }
        proof {
            let grown = buf@.members.push(node_number);
            assert(grown.no_duplicates());
            lemma_distinct_below(grown, self@.nodes.len());
        }
        buf.members.push(node_number);
        let ghost entered = buf@;
        assert(entered == old(buf)@.with_member(node_number));
        let count = self.node_counts[node_number as usize] as usize;
        let mut i: usize = 0;
        while i < count
            invariant
                self@.wf(),
                node_number < self@.nodes.len(),
                count == self@.counts[node_number as int],
                i <= count,
                buf@.fits(self@),
                buf@.members.len() > old(buf)@.members.len(),
                old(buf)@.members.len() < self@.nodes.len(),
                self@.walk_links(buf@, node_number, i as int) == self@.walk_links(
                    entered,
                    node_number,
                    0,
                ),
            decreases count - i,
        {
            let transistor_index = self.nodes_c1_c2[node_number as usize][i] as usize;
            if self.transistors[transistor_index].on {
                let node_to_add = if self.transistors[transistor_index].c1 == node_number {
                    self.transistors[transistor_index].c2
                } else {
                    self.transistors[transistor_index].c1
                };
                self.add_node_to_group(buf, node_to_add);
            }
            i += 1;
        }
    }

    /// Collects the group of `node_number` into `buf`.
    pub fn get_node_group(&self, buf: &mut GroupBuf, node_number: u16)
        requires
            self@.wf(),
            node_number < self@.nodes.len(),
        ensures
            final(buf)@ == self@.group_of(node_number),
            final(buf)@.fits(self@),
    {
        buf.reset();
        self.add_node_to_group(buf, node_number);
    }
}

/// Whether `node` is one of the weak-drive wires.
pub fn weak_drive(node: u16) -> (weak: bool)
    ensures
        weak == is_weak_drive(node),
{
    node == 359 || node == 566 || node == 691 || node == 871 || node == 870 || node == 864 || node
        == 856 || node == 818
}

impl Net {
    /// The level that the group in `buf` takes. Where the group touches
    /// both rails and holds a weak-drive wire, the conflict is waived: both
    /// rail flags of `buf` are cleared, and the pulls and the charge decide.
    pub fn get_node_value(&self, buf: &mut GroupBuf) -> (level: bool)
        requires
            self@.wf(),
            old(buf)@.fits(self@),
        ensures
            level == self@.level_of(old(buf)@),
            final(buf)@ == old(buf)@.waived(),
            final(buf)@.fits(self@),
    {
        let total = buf.members.len();
        proof {
            lemma_distinct_below(buf@.members, self@.nodes.len());
        }
        let mut weak = false;
        if buf.has_ground && buf.has_power {
            let mut k: usize = 0;
            while k < total
                invariant
                    buf@ == old(buf)@,
                    total == buf@.members.len(),
                    k <= total,
                    weak == exists|i: int| 0 <= i < k && is_weak_drive(#[trigger] buf@.members[i]),
                decreases total - k,
            {
                if weak_drive(buf.members[k]) {
                    weak = true;
                }
                k += 1;
            }
        }
        assert(weak == (buf@.has_ground && buf@.has_power && buf@.any_weak()));
        if weak {
            buf.has_ground = false;
            buf.has_power = false;
        }
        assert(buf@ == old(buf)@.waived());
        if buf.has_ground {
            return false;
        }
        if buf.has_power {
            return true;
        }
        let mut pullup = false;
        let mut pulldown = false;
        let mut hi_area: u128 = 0;
        let mut lo_area: u128 = 0;
        let mut k: usize = 0;
        while k < total
            invariant
                self@.wf(),
                buf@.fits(self@),
                buf@ == old(buf)@.waived(),
                total == buf@.members.len(),
                total <= 65535,
                k <= total,
                pullup == self@.any_pullup(buf@.members.take(k as int)),
                pulldown == self@.any_pulldown(buf@.members.take(k as int)),
                hi_area == self@.area_at(buf@.members.take(k as int), true),
                lo_area == self@.area_at(buf@.members.take(k as int), false),
                hi_area <= k * 0x1_0000_0000_0000_0000,
                lo_area <= k * 0x1_0000_0000_0000_0000,
            decreases total - k,
        {
            let node = &self.nodes[buf.members[k] as usize];
            proof {
                let seen = buf@.members.take(k as int);
                let more = buf@.members.take(k as int + 1);
                assert(more.drop_last() =~= seen);
                assert(more.last() == buf@.members[k as int]);
                assert(self@.any_pullup(more) == (self@.any_pullup(seen) || node.pullup)) by {
                    if self@.any_pullup(seen) {
                        let i = choose|i: int|
                            0 <= i < seen.len() && self@.nodes[#[trigger] seen[i] as int].pullup;
                        assert(more[i] == seen[i]);
                    }
                    if node.pullup {
                        assert(self@.nodes[more[k as int] as int].pullup);
                    }
                    if self@.any_pullup(more) {
                        let i = choose|i: int|
                            0 <= i < more.len() && self@.nodes[#[trigger] more[i] as int].pullup;
                        if i < k {
                            assert(seen[i] == more[i]);
                        }
                    }
                }
                assert(self@.any_pulldown(more) == (self@.any_pulldown(seen) || node.pulldown)) by {
                    if self@.any_pulldown(seen) {
                        let i = choose|i: int|
                            0 <= i < seen.len() && self@.nodes[#[trigger] seen[i] as int].pulldown;
                        assert(more[i] == seen[i]);
                    }
                    if node.pulldown {
                        assert(self@.nodes[more[k as int] as int].pulldown);
                    }
                    if self@.any_pulldown(more) {
                        let i = choose|i: int|
                            0 <= i < more.len() && self@.nodes[#[trigger] more[i] as int].pulldown;
                        if i < k {
                            assert(seen[i] == more[i]);
                        }
                    }
                }
            }
            if node.pullup {
                pullup = true;
            }
            if node.pulldown {
                pulldown = true;
            }
            if node.state {
                hi_area = hi_area + node.area as u128;
            } else {
                lo_area = lo_area + node.area as u128;
            }
            k += 1;
        }
        assert(buf@.members.take(total as int) =~= buf@.members);
        if pullup {
            true
        } else if pulldown {
            false
        } else {
            hi_area > lo_area
        }
    }
}

/// A network together with the scratch state of its relaxation driver.
pub struct Circuit {
    net: Net,
    group: GroupBuf,
    queued: ProcessedNodesSet,
    queue: RecalcSwapList,
    diverged: bool,
}

impl View for Circuit {
    type V = CircuitView;

    closed spec fn view(&self) -> CircuitView {
        CircuitView { wiring: self.net@, pending: self.queue.pending(), diverged: self.diverged }
    }
}

impl Circuit {
    /// The bit set has room for every wire and marks exactly the queued ones.
    pub closed spec fn scratch_ok(&self) -> bool {
        &&& self.queue.wf()
        &&& self.queued.capacity() >= self.net@.nodes.len()
        &&& forall|n: int|
            self.queued.has(n) <==> (0 <= n < 65536 && self@.pending.contains(n as u16))
    }

    /// The circuit is well formed and its scratch state is consistent.
    pub open spec fn inv(&self) -> bool {
        self@.wf() && self.scratch_ok()
    }

    /// The list that the running pass works through.
    pub closed spec fn current(&self) -> Seq<u16> {
        self.queue.current()
    }

    /// The group collected last.
    pub closed spec fn collected(&self) -> Group {
        self.group@
    }

    /// Whether the bit set marks wire `n` as queued.
    pub closed spec fn is_queued(&self, n: int) -> bool {
        self.queued.has(n)
    }

    /// Whether the scratch state is empty: no wire is in either work
    /// list, no queued bit is set, and the group buffer holds nothing.
    pub open spec fn scratch_empty(&self) -> bool {
        &&& self@.pending == Seq::<u16>::empty()
        &&& self.current() == Seq::<u16>::empty()
        &&& self.collected() == Group::empty()
        &&& forall|n: int| !self.is_queued(n)
    }

    /// Number of wires.
    pub open spec fn size(&self) -> int {
        self@.wiring.nodes.len() as int
    }

    /// Empties the current work list and the group buffer.
    fn clear_scratch(&mut self)
        requires
            old(self).inv(),
            old(self)@.pending.len() == 0,
        ensures
            final(self).inv(),
            final(self)@ == old(self)@,
            final(self).scratch_empty(),
    {
        self.queue.init(&[]);
        self.group.reset();
        assert(self@.pending =~= old(self)@.pending);
        assert(self@.pending =~= Seq::<u16>::empty());
        assert(self.current() =~= Seq::<u16>::empty());
        assert forall|n: int| !self.is_queued(n) by {
            assert(!(0 <= n < 65536 && self@.pending.contains(n as u16)));
        }
    }

    /// Every wire of the list exists.
    pub open spec fn has_all(&self, list: Seq<u16>) -> bool {
        forall|k: int| 0 <= k < list.len() ==> (#[trigger] list[k]) < self.size()
    }

    /// Queues `node_number` for the next pass unless it is a rail or queued already.
    fn add_recalc_node(&mut self, node_number: u16)
        requires
            old(self).inv(),
            node_number < old(self).size(),
        ensures
            final(self).inv(),
            final(self)@ == old(self)@.enqueue(node_number),
            final(self).current() == old(self).current(),
            final(self).collected() == old(self).collected(),
            final(self).size() == old(self).size(),
            final(self)@.diverged == old(self)@.diverged,
    {
        if node_number == NODE_GND || node_number == NODE_PWR {
            return ;
        }
        if !self.queued.contains(node_number) {
            self.queue.push_next_list(node_number);
            self.queued.set(node_number);
            proof {
                let before = old(self)@.pending;
                let after = self@.pending;
                assert(after == before.push(node_number));
                assert forall|n: int|
                    self.queued.has(n) <==> (0 <= n < 65536 && after.contains(n as u16)) by {
                    if 0 <= n < 65536 {
                        if before.contains(n as u16) {
                            let k = choose|k: int| 0 <= k < before.len() && before[k] == n as u16;
                            assert(after[k] == n as u16);
                        }
                        if after.contains(n as u16) {
                            let k = choose|k: int| 0 <= k < after.len() && after[k] == n as u16;
                            if k < before.len() {
                                assert(before[k] == n as u16);
                            }
                        }
                        assert(after[before.len() as int] == node_number);
                    }
                }
            }
        }
    }

    /// Closes transistor `i` if it is open, and queues its first channel end.
    fn turn_transistor_on(&mut self, i: u16)
        requires
            old(self).inv(),
            i < old(self)@.wiring.transistors.len(),
        ensures
            final(self).inv(),
            final(self)@ == old(self)@.turn_on(i as int),
            final(self).current() == old(self).current(),
            final(self).collected() == old(self).collected(),
            final(self).size() == old(self).size(),
            final(self)@.diverged == old(self)@.diverged,
            final(self)@.wiring.nodes == old(self)@.wiring.nodes,
            final(self)@.wiring.transistors.len() == old(self)@.wiring.transistors.len(),
    {
        let i = i as usize;
        if !self.net.transistors[i].on {
            self.net.transistors[i].on = true;
            let c1 = self.net.transistors[i].c1;
            proof {
                assert(self.net@.transistors =~= old(self).net@.with_on(
                    i as int,
                    true,
                ).transistors);
                assert(self.net@ == old(self).net@.with_on(i as int, true));
                lemma_with_on_wf(old(self).net@, i as int, true);
                assert(self@.pending == old(self)@.pending);
                assert(self@ == old(self)@.over(old(self).net@.with_on(i as int, true)));
            }
            self.add_recalc_node(c1);
        }
    }

    /// Opens transistor `i` if it is closed, and queues both channel ends.
    fn turn_transistor_off(&mut self, i: u16)
        requires
            old(self).inv(),
            i < old(self)@.wiring.transistors.len(),
        ensures
            final(self).inv(),
            final(self)@ == old(self)@.turn_off(i as int),
            final(self).current() == old(self).current(),
            final(self).collected() == old(self).collected(),
            final(self).size() == old(self).size(),
            final(self)@.diverged == old(self)@.diverged,
            final(self)@.wiring.nodes == old(self)@.wiring.nodes,
            final(self)@.wiring.transistors.len() == old(self)@.wiring.transistors.len(),
    {
        let i = i as usize;
        if self.net.transistors[i].on {
            self.net.transistors[i].on = false;
            let c1 = self.net.transistors[i].c1;
            let c2 = self.net.transistors[i].c2;
            proof {
                assert(self.net@.transistors =~= old(self).net@.with_on(
                    i as int,
                    false,
                ).transistors);
                assert(self.net@ == old(self).net@.with_on(i as int, false));
                lemma_with_on_wf(old(self).net@, i as int, false);
                assert(self@.pending == old(self)@.pending);
                assert(self@ == old(self)@.over(old(self).net@.with_on(i as int, false)));
            }
            self.add_recalc_node(c1);
            self.add_recalc_node(c2);
        }
    }

    /// Brings wire `node_number` to `level`; if that changes it, the
    /// transistors it gates follow.
    fn settle_member(&mut self, node_number: u16, level: bool)
        requires
            old(self).inv(),
            node_number < old(self).size(),
        ensures
            final(self).inv(),
            final(self)@ == old(self)@.settle_member(node_number, level),
            final(self).current() == old(self).current(),
            final(self).collected() == old(self).collected(),
            final(self).size() == old(self).size(),
            final(self)@.diverged == old(self)@.diverged,
    {
        let m = node_number as usize;
        if self.net.nodes[m].state != level {
            self.net.nodes[m].state = level;
            proof {
                assert(self.net@.nodes =~= old(self).net@.with_state(m as int, level).nodes);
                assert(self.net@ == old(self).net@.with_state(m as int, level));
                lemma_with_state_wf(old(self).net@, m as int, level);
                assert(self@.pending == old(self)@.pending);
                assert(self@ == old(self)@.over(old(self).net@.with_state(m as int, level)));
            }
            let ghost start = self@;
            let ghost gates = self@.wiring.nodes[m as int].gates@;
            let gate_count = self.net.nodes[m].gates.len();
            let mut j: usize = 0;
            while j < gate_count
                invariant
                    self.inv(),
                    m < self.size(),
                    self.size() == old(self).size(),
                self@.diverged == old(self)@.diverged,
                    self@.diverged == old(self)@.diverged,
                    self.current() == old(self).current(),
                    self.collected() == old(self).collected(),
                    self@.wiring.nodes[m as int].gates@ == gates,
                    gate_count == gates.len(),
                    j <= gate_count,
                    self@.switch_all(gates, j as int, level) == start.switch_all(gates, 0, level),
                decreases gate_count - j,
            {
                let t = self.net.nodes[m].gates[j];
                if level {
                    self.turn_transistor_on(t);
                } else {
                    self.turn_transistor_off(t);
                }
                j += 1;
            }
        }
    }

    /// Brings every wire of the collected group to `level`.
    fn settle_group(&mut self, level: bool)
        requires
            old(self).inv(),
            old(self).collected().fits(old(self)@.wiring),
        ensures
            final(self).inv(),
            final(self)@ == old(self)@.settle_all(old(self).collected().members, 0, level),
            final(self).current() == old(self).current(),
            final(self).collected() == old(self).collected(),
            final(self).size() == old(self).size(),
            final(self)@.diverged == old(self)@.diverged,
    {
        let ghost members = self.collected().members;
        let total = self.group.members.len();
        let mut k: usize = 0;
        while k < total
            invariant
                self.inv(),
                self.size() == old(self).size(),
                self@.diverged == old(self)@.diverged,
                self.current() == old(self).current(),
                self.collected() == old(self).collected(),
                members == self.collected().members,
                total == members.len(),
                k <= total,
                forall|i: int| 0 <= i < members.len() ==> (#[trigger] members[i]) < self.size(),
                self@.settle_all(members, k as int, level) == old(self)@.settle_all(
                    members,
                    0,
                    level,
                ),
            decreases total - k,
        {
            let node_number = self.group.members[k];
            self.settle_member(node_number, level);
            k += 1;
        }
    }

    /// Collects the group of wire `node_number`: every wire connected to
    /// it through conducting transistors, and whether the walk touched
    /// ground or power.
    pub fn get_node_group(&mut self, node_number: u16)
        requires
            old(self).inv(),
            node_number < old(self).size(),
        ensures
            final(self).inv(),
            final(self)@ == old(self)@,
            final(self).collected() == old(self)@.wiring.group_of(node_number),
            final(self).collected().fits(final(self)@.wiring),
            final(self).current() == old(self).current(),
            old(self)@.wiring.links_faithful() && !is_rail(node_number) ==> {
                let home = component(old(self)@.wiring, node_number as int);
                &&& member_set(final(self).collected().members) == home
                &&& final(self).collected().has_ground == touches(old(self)@.wiring, home, NODE_GND)
                &&& final(self).collected().has_power == touches(old(self)@.wiring, home, NODE_PWR)
                &&& old(self)@.wiring.level_of(final(self).collected()) == level_in(
                    old(self)@.wiring,
                    home,
                )
            },
    {
        proof {
            if self@.wiring.links_faithful() && !is_rail(node_number) {
                lemma_group_is_component(self@.wiring, node_number as int);
                lemma_level_of_group(self@.wiring, node_number as int);
            }
        }
        self.net.get_node_group(&mut self.group, node_number);
    }

    /// The level that the group collected last takes. Where that group
    /// touches both rails and holds a weak-drive wire, the conflict is
    /// waived: both rail flags of the group are cleared, and the pulls and
    /// the charge decide.
    pub fn get_node_value(&mut self) -> (level: bool)
        requires
            old(self).inv(),
            old(self).collected().fits(old(self)@.wiring),
        ensures
            final(self).inv(),
            level == old(self)@.wiring.level_of(old(self).collected()),
            final(self)@ == old(self)@,
            final(self).collected() == old(self).collected().waived(),
            final(self).collected().fits(final(self)@.wiring),
            final(self).current() == old(self).current(),
    {
        self.net.get_node_value(&mut self.group)
    }

    /// The wires of the group collected last, in the order the walk met them.
    pub fn group(&self) -> (members: &Vec<u16>)
        ensures
            members@ == self.collected().members,
    {
        &self.group.members
    }

    /// The work list of the pass that runs; empty between relaxations.
    pub fn work_list(&self) -> (list: &Vec<u16>)
        requires
            self.inv(),
        ensures
            list@ == self.current(),
    {
        self.queue.cur_list()
    }

    /// Whether the group collected last touches ground.
    pub fn has_ground(&self) -> (touched: bool)
        ensures
            touched == self.collected().has_ground,
    {
        self.group.has_ground
    }

    /// Whether the group collected last touches power.
    pub fn has_power(&self) -> (touched: bool)
        ensures
            touched == self.collected().has_power,
    {
        self.group.has_power
    }

    /// Re-evaluates the group of `node_number` and brings all of it to its level.
    fn recalc_node(&mut self, node_number: u16)
        requires
            old(self).inv(),
            node_number < old(self).size(),
        ensures
            final(self).inv(),
            final(self)@ == old(self)@.recalc_node(node_number),
            final(self).current() == old(self).current(),
            final(self).size() == old(self).size(),
            final(self)@.diverged == old(self)@.diverged,
    {
        if node_number == NODE_GND || node_number == NODE_PWR {
            return ;
        }
        self.get_node_group(node_number);
        let new_state = self.get_node_value();
        self.settle_group(new_state);
    }

    /// One relaxation pass over the current list.
    fn pass(&mut self)
        requires
            old(self).inv(),
            old(self).has_all(old(self).current()),
        ensures
            final(self).inv(),
            final(self)@ == old(self)@.pass(old(self).current(), 0),
            final(self).current() == old(self).current(),
            final(self).size() == old(self).size(),
            final(self)@.diverged == old(self)@.diverged,
    {
        let ghost current = self.current();
        let total = self.queue.cur_list().len();
        let mut i: usize = 0;
        while i < total
            invariant
                self.inv(),
                self.size() == old(self).size(),
                self@.diverged == old(self)@.diverged,
                self.current() == current,
                current == old(self).current(),
                total == current.len(),
                i <= total,
                self.has_all(current),
                self@.pass(current, i as int) == old(self)@.pass(current, 0),
            decreases total - i,
        {
            let node_number = self.queue.cur_list()[i];
            self.recalc_node(node_number);
            i += 1;
        }
    }

    /// Relaxes the network from `recalc_list`: passes run until one queues
    /// nothing. Returns whether the network has settled; a network that
    /// does not settle within the allowed passes is marked as diverged, and
    /// a diverged network is left untouched. The scratch state is empty
    /// afterwards.
    pub fn recalc_node_list(&mut self, recalc_list: &[u16]) -> (settled: bool)
        requires
            old(self).inv(),
            old(self)@.pending.len() == 0,
            old(self).has_all(recalc_list@),
        ensures
            final(self).inv(),
            final(self)@ == old(self)@.relax(recalc_list@),
            final(self)@.pending.len() == 0,
            final(self).scratch_empty(),
            final(self).size() == old(self).size(),
            settled == !final(self)@.diverged,
            kept(final(self)@.wiring, old(self)@.wiring),
            old(self)@.wiring.sound() ==> rails_kept(final(self)@.wiring, old(self)@.wiring),
            old(self)@.wiring.sound() && old(self)@.wiring.links_faithful() && covered(
                old(self)@,
                tail_set(recalc_list@, 0),
            ) ==> final(self)@.diverged || crate::connectivity::settled(final(self)@.wiring),
    {
        proof {
            if self@.wiring.sound() {
                lemma_relax_keeps_sound(self@, recalc_list@);
                if self@.wiring.links_faithful() && covered(self@, tail_set(recalc_list@, 0)) {
                    lemma_relax_settles(self@, recalc_list@);
                }
            }
            lemma_kept(self@.relax(recalc_list@).wiring, self@.wiring);
        }
        if self.diverged {
            self.clear_scratch();
            return false;
        }
        self.queue.init(recalc_list);
        assert(self@ == old(self)@) by {
            assert(self@.pending =~= old(self)@.pending);
        }
        let mut round: usize = 0;
        while round < MAX_PASSES
            invariant
                self.inv(),
                self.size() == old(self).size(),
                !self@.diverged,
                self@.pending.len() == 0,
                round <= MAX_PASSES,
                self.has_all(self.current()),
                self@.relax_rounds(self.current(), round as int) == old(self)@.relax(recalc_list@),
                kept(old(self)@.relax(recalc_list@).wiring, old(self)@.wiring),
                old(self)@.wiring.sound() ==> rails_kept(
                    old(self)@.relax(recalc_list@).wiring,
                    old(self)@.wiring,
                ),
                old(self)@.wiring.sound() && old(self)@.wiring.links_faithful() && covered(
                    old(self)@,
                    tail_set(recalc_list@, 0),
                ) ==> old(self)@.relax(recalc_list@).diverged || crate::connectivity::settled(
                    old(self)@.relax(recalc_list@).wiring,
                ),
            decreases MAX_PASSES - round,
        {
            let ghost before = self@;
            let ghost current = self.current();
            self.pass();
            if self.queue.is_next_list_empty() {
                self.clear_scratch();
                return true;
            }
            let ghost after = self@;
            self.queued.clear(self.queue.next_list().as_slice());
            self.queue.swap();
            assert(self@ == after.drained());
            assert(self.current() == after.pending);
            round += 1;
        }
        self.diverged = true;
        self.clear_scratch();
        false
    }
}

impl Net {
    /// Whether every index stored in the network points inside its tables.
    fn check(&self) -> (ok: bool)
        ensures
            ok == self@.wf(),
    {
        let node_total = self.nodes.len();
        let transistor_total = self.transistors.len();
        if node_total <= NODE_GND as usize || node_total > 65535 || transistor_total > 65536
            || self.node_counts.len() != self.nodes_c1_c2.len() || node_total
            > self.node_counts.len() {
            return false;
        }
        let mut t: usize = 0;
        while t < transistor_total
            invariant
                node_total == self@.nodes.len(),
                transistor_total == self@.transistors.len(),
                t <= transistor_total,
                forall|u: int|
                    0 <= u < t ==> {
                        &&& (#[trigger] self@.transistors[u]).gate < node_total
                        &&& self@.transistors[u].c1 < node_total
                        &&& self@.transistors[u].c2 < node_total
                    },
            decreases transistor_total - t,
        {
            let tr = &self.transistors[t];
            if tr.gate as usize >= node_total || tr.c1 as usize >= node_total || tr.c2 as usize
                >= node_total {
                return false;
            }
            t += 1;
        }
        let mut n: usize = 0;
        while n < node_total
            invariant
                node_total == self@.nodes.len(),
                transistor_total == self@.transistors.len(),
                self@.counts.len() == self@.links.len(),
                node_total <= self@.counts.len(),
                n <= node_total,
                forall|m: int, j: int|
                    0 <= m < n && 0 <= j < self@.nodes[m].gates@.len() ==> (
                    #[trigger] self@.nodes[m].gates@[j]) < transistor_total,
                forall|m: int| 0 <= m < n ==> (#[trigger] self@.counts[m]) <= self@.links[m]@.len(),
                forall|m: int, i: int|
                    0 <= m < n && 0 <= i < self@.counts[m] ==> (#[trigger] self@.links[m]@[i])
                        < transistor_total,
            decreases node_total - n,
        {
            let gates = &self.nodes[n].gates;
            let mut j: usize = 0;
            while j < gates.len()
                invariant
                    n < node_total == self@.nodes.len(),
                    transistor_total == self@.transistors.len(),
                    *gates == self@.nodes[n as int].gates,
                    j <= gates@.len(),
                    forall|k: int| 0 <= k < j ==> (#[trigger] gates@[k]) < transistor_total,
                decreases gates@.len() - j,
            {
                if gates[j] as usize >= transistor_total {
                    assert(self@.nodes[n as int].gates@[j as int] >= self@.transistors.len());
                    return false;
                }
                j += 1;
            }
            let count = self.node_counts[n] as usize;
            let row = &self.nodes_c1_c2[n];
            if count > row.len() {
                assert(self@.counts[n as int] > self@.links[n as int]@.len());
                return false;
            }
            let mut i: usize = 0;
            while i < count
                invariant
                    n < node_total == self@.nodes.len(),
                    transistor_total == self@.transistors.len(),
                    *row == self@.links[n as int],
                    count == self@.counts[n as int],
                    i <= count <= row@.len(),
                    forall|k: int| 0 <= k < i ==> (#[trigger] row@[k]) < transistor_total,
                decreases count - i,
            {
                if row[i] as usize >= transistor_total {
                    assert(self@.links[n as int]@[i as int] >= self@.transistors.len());
                    return false;
                }
                i += 1;
            }
            n += 1;
        }
        true
    }
}

impl Circuit {
    /// Puts a network under a relaxation driver. `None` when an index
    /// stored in the tables points outside them, a rail is missing, or the
    /// wires or transistors outnumber what sixteen bits can name.
    pub fn new(
        nodes: Vec<Node>,
        transistors: Vec<Transistor>,
        node_counts: Vec<u8>,
        nodes_c1_c2: Vec<Vec<u16>>,
    ) -> (made: Option<Self>)
        ensures
            made is Some <==> (Wiring {
                nodes: nodes@,
                transistors: transistors@,
                counts: node_counts@,
                links: nodes_c1_c2@,
            }).wf(),
            made matches Some(circuit) ==> {
                &&& circuit.inv()
                &&& circuit.scratch_empty()
                &&& circuit@ == (CircuitView {
                    wiring: Wiring {
                        nodes: nodes@,
                        transistors: transistors@,
                        counts: node_counts@,
                        links: nodes_c1_c2@,
                    },
                    pending: Seq::empty(),
                    diverged: false,
                })
            },
    {
        let net = Net { nodes, transistors, node_counts, nodes_c1_c2 };
        if !net.check() {
            return None;
        }
        Some(Circuit::around(net))
    }

    /// Puts well-formed tables under a relaxation driver.
    pub fn from_tables(
        nodes: Vec<Node>,
        transistors: Vec<Transistor>,
        node_counts: Vec<u8>,
        nodes_c1_c2: Vec<Vec<u16>>,
    ) -> (circuit: Self)
        requires
            (Wiring {
                nodes: nodes@,
                transistors: transistors@,
                counts: node_counts@,
                links: nodes_c1_c2@,
            }).wf(),
        ensures
            circuit.inv(),
            circuit.scratch_empty(),
            circuit@ == (CircuitView {
                wiring: Wiring {
                    nodes: nodes@,
                    transistors: transistors@,
                    counts: node_counts@,
                    links: nodes_c1_c2@,
                },
                pending: Seq::empty(),
                diverged: false,
            }),
    {
        Circuit::around(Net { nodes, transistors, node_counts, nodes_c1_c2 })
    }

    /// The driver around a well-formed network, with nothing queued.
    fn around(net: Net) -> (circuit: Self)
        requires
            net@.wf(),
        ensures
            circuit.inv(),
            circuit.scratch_empty(),
            circuit@ == (CircuitView { wiring: net@, pending: Seq::empty(), diverged: false }),
    {
        let queued = ProcessedNodesSet::new(net.nodes.len());
        let circuit = Circuit {
            net,
            group: GroupBuf::new(),
            queued,
            queue: RecalcSwapList::new(),
            diverged: false,
        };
        assert(circuit@.pending =~= Seq::empty());
        circuit
    }

    /// Number of wires.
    pub fn node_count(&self) -> (count: usize)
        ensures
            count == self.size(),
    {
        self.net.nodes.len()
    }

    /// Number of transistors.
    pub fn transistor_count(&self) -> (count: usize)
        ensures
            count == self@.wiring.transistors.len(),
    {
        self.net.transistors.len()
    }

    /// Wire `node_number`.
    pub fn node(&self, node_number: usize) -> (node: &Node)
        requires
            node_number < self.size(),
        ensures
            *node == self@.wiring.nodes[node_number as int],
    {
        &self.net.nodes[node_number]
    }

    /// Transistor `index`.
    pub fn transistor(&self, index: usize) -> (transistor: &Transistor)
        requires
            index < self@.wiring.transistors.len(),
        ensures
            *transistor == self@.wiring.transistors[index as int],
    {
        &self.net.transistors[index]
    }

    /// Whether a relaxation has failed to settle since power-on.
    pub fn is_diverged(&self) -> (diverged: bool)
        ensures
            diverged == self@.diverged,
    {
        self.diverged
    }

    /// The present level of wire `node_number`.
    pub fn is_node_high(&self, node_number: u16) -> (high: bool)
        requires
            node_number < self.size(),
        ensures
            high == self@.wiring.level(node_number),
    {
        self.net.nodes[node_number as usize].state
    }

    /// Sets the pulls of wire `node_number`.
    fn pull(&mut self, node_number: u16, up: bool, down: bool)
        requires
            old(self).inv(),
            node_number < old(self).size(),
        ensures
            final(self).inv(),
            final(self)@ == old(self)@.over(
                old(self)@.wiring.with_pulls(node_number as int, up, down),
            ),
            final(self).size() == old(self).size(),
    {
        self.net.nodes[node_number as usize].pullup = up;
        self.net.nodes[node_number as usize].pulldown = down;
        proof {
            let target = old(self).net@.with_pulls(node_number as int, up, down);
            assert(self.net@.nodes =~= target.nodes);
            assert(self.net@ == target);
            lemma_with_pulls_wf(old(self).net@, node_number as int, up, down);
            assert(self@.pending == old(self)@.pending);
        }
    }

    /// Pulls wire `node_number` up and relaxes from it. Returns whether the
    /// network has settled.
    pub fn set_high(&mut self, node_number: u16) -> (settled: bool)
        requires
            old(self).inv(),
            old(self)@.pending.len() == 0,
            node_number < old(self).size(),
        ensures
            final(self).inv(),
            final(self)@ == old(self)@.set_high(node_number),
            final(self)@.pending.len() == 0,
            final(self).scratch_empty(),
            final(self).size() == old(self).size(),
            settled == !final(self)@.diverged,
            kept(final(self)@.wiring, old(self)@.wiring),
            old(self)@.wiring.sound() ==> rails_kept(final(self)@.wiring, old(self)@.wiring),
            old(self)@.wiring.sound() && old(self)@.wiring.links_faithful()
                && crate::connectivity::settled(old(self)@.wiring) ==> final(self)@.diverged
                || crate::connectivity::settled(final(self)@.wiring),
    {
        proof {
            if self@.wiring.sound() {
                lemma_set_high_keeps_sound(self@, node_number);
                if self@.wiring.links_faithful() && crate::connectivity::settled(self@.wiring) {
                    lemma_set_high_settles(self@, node_number);
                }
            }
            lemma_kept(self@.set_high(node_number).wiring, self@.wiring);
        }
        if self.diverged {
            self.clear_scratch();
            return false;
        }
        self.pull(node_number, true, false);
        let seeds = [node_number];
        assert(seeds@ =~= seq![node_number]);
        self.recalc_node_list(seeds.as_slice())
    }

    /// Pulls wire `node_number` down and relaxes from it. Returns whether
    /// the network has settled.
    pub fn set_low(&mut self, node_number: u16) -> (settled: bool)
        requires
            old(self).inv(),
            old(self)@.pending.len() == 0,
            node_number < old(self).size(),
        ensures
            final(self).inv(),
            final(self)@ == old(self)@.set_low(node_number),
            final(self)@.pending.len() == 0,
            final(self).scratch_empty(),
            final(self).size() == old(self).size(),
            settled == !final(self)@.diverged,
            kept(final(self)@.wiring, old(self)@.wiring),
            old(self)@.wiring.sound() ==> rails_kept(final(self)@.wiring, old(self)@.wiring),
            old(self)@.wiring.sound() && old(self)@.wiring.links_faithful()
                && crate::connectivity::settled(old(self)@.wiring) ==> final(self)@.diverged
                || crate::connectivity::settled(final(self)@.wiring),
    {
        proof {
            if self@.wiring.sound() {
                lemma_set_low_keeps_sound(self@, node_number);
                if self@.wiring.links_faithful() && crate::connectivity::settled(self@.wiring) {
                    lemma_set_low_settles(self@, node_number);
                }
            }
            lemma_kept(self@.set_low(node_number).wiring, self@.wiring);
        }
        if self.diverged {
            self.clear_scratch();
            return false;
        }
        self.pull(node_number, false, true);
        let seeds = [node_number];
        assert(seeds@ =~= seq![node_number]);
        self.recalc_node_list(seeds.as_slice())
    }

    /// Switches every transistor gated by wire `node_number` to `on`,
    /// without queueing anything.
    fn force_gates(&mut self, node_number: usize, on: bool)
        requires
            old(self).inv(),
            node_number < old(self).size(),
        ensures
            final(self).inv(),
            final(self)@ == old(self)@.over(
                old(self)@.wiring.forced(old(self)@.wiring.nodes[node_number as int].gates@, on),
            ),
            final(self).size() == old(self).size(),
    {
        let ghost start = self.net@;
        let ghost gates = self.net@.nodes[node_number as int].gates@;
        let gate_count = self.net.nodes[node_number].gates.len();
        let mut j: usize = 0;
        assert(self.net@.transistors =~= start.forced(gates.take(0), on).transistors);
        while j < gate_count
            invariant
                self.inv(),
                node_number < self.size(),
                self@.pending == old(self)@.pending,
                self@.diverged == old(self)@.diverged,
                start == old(self)@.wiring,
                start.wf(),
                self.net@.nodes == start.nodes,
                self.net@.counts == start.counts,
                self.net@.links == start.links,
                gates == start.nodes[node_number as int].gates@,
                gate_count == gates.len(),
                j <= gate_count,
                self.net@.transistors == start.forced(gates.take(j as int), on).transistors,
            decreases gate_count - j,
        {
            let t = self.net.nodes[node_number].gates[j] as usize;
            let ghost before = self.net@;
            self.net.transistors[t].on = on;
            proof {
                let done = gates.take(j as int);
                let more = gates.take(j as int + 1);
                assert(more =~= done.push(gates[j as int]));
                assert(self.net@.transistors =~= before.with_on(t as int, on).transistors);
                assert(self.net@ == before.with_on(t as int, on));
                lemma_with_on_wf(before, t as int, on);
                assert(self@.pending == old(self)@.pending);
                assert forall|u: int| 0 <= u < start.transistors.len() implies self.net@.transistors[u]
                    == start.forced(more, on).transistors[u] by {
                    if 0 <= u < 65536 {
                        if done.contains(u as u16) {
                            let k = choose|k: int| 0 <= k < done.len() && done[k] == u as u16;
                            assert(more[k] == u as u16);
                        }
                        if more.contains(u as u16) {
                            let k = choose|k: int| 0 <= k < more.len() && more[k] == u as u16;
                            if k < j {
                                assert(done[k] == u as u16);
                            }
                        }
                        assert(more[j as int] == t as u16);
                    }
                }
                assert(self.net@.transistors =~= start.forced(more, on).transistors);
            }
            j += 1;
        }
        assert(gates.take(gate_count as int) =~= gates);
        assert(self.net@ == start.forced(gates, on));
    }

    /// Writes a one into the latch whose two sides are `n1` and `n2`; does
    /// nothing when either number is negative. Returns whether the network
    /// has settled.
    pub fn set_bit(&mut self, n1: i32, n2: i32) -> (settled: bool)
        requires
            old(self).inv(),
            old(self)@.pending.len() == 0,
            n1 < 0 || n2 < 0 || (n1 < old(self).size() && n2 < old(self).size()),
        ensures
            final(self).inv(),
            final(self)@ == old(self)@.set_bit(n1, n2),
            final(self)@.pending.len() == 0,
            final(self).scratch_empty(),
            final(self).size() == old(self).size(),
            settled == !final(self)@.diverged,
            kept(final(self)@.wiring, old(self)@.wiring),
            old(self)@.wiring.sound() && (n1 < 0 || n2 < 0 || (!is_rail(n1 as u16) && !is_rail(
                n2 as u16,
            ))) ==> rails_kept(final(self)@.wiring, old(self)@.wiring),
    {
        proof {
            if self@.wiring.sound() {
                lemma_set_bit_keeps_sound(self@, n1, n2);
            }
            lemma_kept(self@.set_bit(n1, n2).wiring, self@.wiring);
        }
        if self.diverged {
            self.clear_scratch();
            return false;
        }
        if n1 < 0 || n2 < 0 {
            self.clear_scratch();
            return true;
        }
        let ghost gates_high = self@.wiring.nodes[n1 as int].gates@;
        let ghost gates_low = self@.wiring.nodes[n2 as int].gates@;
        self.force_gates(n1 as usize, true);
        self.force_gates(n2 as usize, false);
        let ghost before = self.net@;
        self.net.nodes[n1 as usize].state = true;
        proof {
            assert(self.net@.nodes =~= before.with_state(n1 as int, true).nodes);
            assert(self.net@ == before.with_state(n1 as int, true));
            lemma_with_state_wf(before, n1 as int, true);
            assert(self@.pending == old(self)@.pending);
        }
        let ghost between = self.net@;
        self.net.nodes[n2 as usize].state = false;
        proof {
            assert(self.net@.nodes =~= between.with_state(n2 as int, false).nodes);
            assert(self.net@ == between.with_state(n2 as int, false));
            lemma_with_state_wf(between, n2 as int, false);
            assert(self@.pending == old(self)@.pending);
        }
        let seeds = [n1 as u16, n2 as u16];
        assert(seeds@ =~= seq![n1 as u16, n2 as u16]);
        self.recalc_node_list(seeds.as_slice())
    }

    /// Drives the listed wires with the binary digits of `value`, lowest
    /// digit first, and relaxes from all of them. Returns whether the
    /// network has settled.
    pub fn write_bits(&mut self, nodes: &[u16], value: u16) -> (settled: bool)
        requires
            old(self).inv(),
            old(self)@.pending.len() == 0,
            old(self).has_all(nodes@),
        ensures
            final(self).inv(),
            final(self)@ == old(self)@.write_bits(nodes@, value as nat),
            final(self)@.pending.len() == 0,
            final(self).scratch_empty(),
            final(self).size() == old(self).size(),
            settled == !final(self)@.diverged,
            kept(final(self)@.wiring, old(self)@.wiring),
            old(self)@.wiring.sound() ==> rails_kept(final(self)@.wiring, old(self)@.wiring),
            old(self)@.wiring.sound() && old(self)@.wiring.links_faithful()
                && crate::connectivity::settled(old(self)@.wiring) ==> final(self)@.diverged
                || crate::connectivity::settled(final(self)@.wiring),
    {
        proof {
            if self@.wiring.sound() {
                lemma_write_bits_keeps_sound(self@, nodes@, value as nat);
                if self@.wiring.links_faithful() && crate::connectivity::settled(self@.wiring) {
                    lemma_write_bits_settles(self@, nodes@, value as nat);
                }
            }
            lemma_kept(self@.write_bits(nodes@, value as nat).wiring, self@.wiring);
        }
        if self.diverged {
            self.clear_scratch();
            return false;
        }
        let mut rest = value;
        let mut i: usize = 0;
        while i < nodes.len()
            invariant
                self.inv(),
                self.size() == old(self).size(),
                self@.pending.len() == 0,
                !self@.diverged,
                self.has_all(nodes@),
                i <= nodes@.len(),
                self@.wiring.driven(nodes@, rest as nat, i as int) == old(self)@.wiring.driven(
                    nodes@,
                    value as nat,
                    0,
                ),
            decreases nodes@.len() - i,
        {
            let node_number = nodes[i];
            if rest % 2 == 0 {
                self.pull(node_number, false, true);
            } else {
                self.pull(node_number, true, false);
            }
            rest = rest / 2;
            i += 1;
        }
        assert(self@.wiring.driven(nodes@, rest as nat, nodes@.len() as int) == self@.wiring);
        assert(self@.pending =~= old(self)@.pending);
        assert(self@ == old(self)@.over(old(self)@.wiring.driven(nodes@, value as nat, 0)));
        self.recalc_node_list(nodes)
    }

    /// Drives the eight listed wires with the bits of `val`, lowest bit
    /// first, and relaxes from all of them. Returns whether the network has
    /// settled.
    pub fn write_byte(&mut self, nodes: [u16; 8], val: u8) -> (settled: bool)
        requires
            old(self).inv(),
            old(self)@.pending.len() == 0,
            old(self).has_all(nodes@),
        ensures
            final(self).inv(),
            final(self)@ == old(self)@.write_bits(nodes@, val as nat),
            final(self)@.pending.len() == 0,
            final(self).scratch_empty(),
            final(self).size() == old(self).size(),
            settled == !final(self)@.diverged,
            kept(final(self)@.wiring, old(self)@.wiring),
            old(self)@.wiring.sound() ==> rails_kept(final(self)@.wiring, old(self)@.wiring),
            old(self)@.wiring.sound() && old(self)@.wiring.links_faithful()
                && crate::connectivity::settled(old(self)@.wiring) ==> final(self)@.diverged
                || crate::connectivity::settled(final(self)@.wiring),
    {
        self.write_bits(nodes.as_slice(), val as u16)
    }

    /// Lets the listed wires float and relaxes from all of them. Returns
    /// whether the network has settled.
    pub fn float_bits(&mut self, nodes: &[u16]) -> (settled: bool)
        requires
            old(self).inv(),
            old(self)@.pending.len() == 0,
            old(self).has_all(nodes@),
        ensures
            final(self).inv(),
            final(self)@ == old(self)@.float_bits(nodes@),
            final(self)@.pending.len() == 0,
            final(self).scratch_empty(),
            final(self).size() == old(self).size(),
            settled == !final(self)@.diverged,
            kept(final(self)@.wiring, old(self)@.wiring),
            old(self)@.wiring.sound() ==> rails_kept(final(self)@.wiring, old(self)@.wiring),
            old(self)@.wiring.sound() && old(self)@.wiring.links_faithful()
                && crate::connectivity::settled(old(self)@.wiring) ==> final(self)@.diverged
                || crate::connectivity::settled(final(self)@.wiring),
    {
        proof {
            if self@.wiring.sound() {
                lemma_float_bits_keeps_sound(self@, nodes@);
                if self@.wiring.links_faithful() && crate::connectivity::settled(self@.wiring) {
                    lemma_float_bits_settles(self@, nodes@);
                }
            }
            lemma_kept(self@.float_bits(nodes@).wiring, self@.wiring);
        }
        if self.diverged {
            self.clear_scratch();
            return false;
        }
        let mut i: usize = 0;
        while i < nodes.len()
            invariant
                self.inv(),
                self.size() == old(self).size(),
                self@.pending.len() == 0,
                !self@.diverged,
                self.has_all(nodes@),
                i <= nodes@.len(),
                self@.wiring.released(nodes@, i as int) == old(self)@.wiring.released(nodes@, 0),
            decreases nodes@.len() - i,
        {
            self.pull(nodes[i], false, false);
            i += 1;
        }
        assert(self@.wiring.released(nodes@, nodes@.len() as int) == self@.wiring);
        assert(self@.pending =~= old(self)@.pending);
        assert(self@ == old(self)@.over(old(self)@.wiring.released(nodes@, 0)));
        self.recalc_node_list(nodes)
    }

    /// Lets the eight listed wires float and relaxes from all of them.
    /// Returns whether the network has settled.
    pub fn float_byte(&mut self, nodes: [u16; 8]) -> (settled: bool)
        requires
            old(self).inv(),
            old(self)@.pending.len() == 0,
            old(self).has_all(nodes@),
        ensures
            final(self).inv(),
            final(self)@ == old(self)@.float_bits(nodes@),
            final(self)@.pending.len() == 0,
            final(self).scratch_empty(),
            final(self).size() == old(self).size(),
            settled == !final(self)@.diverged,
            kept(final(self)@.wiring, old(self)@.wiring),
            old(self)@.wiring.sound() ==> rails_kept(final(self)@.wiring, old(self)@.wiring),
            old(self)@.wiring.sound() && old(self)@.wiring.links_faithful()
                && crate::connectivity::settled(old(self)@.wiring) ==> final(self)@.diverged
                || crate::connectivity::settled(final(self)@.wiring),
    {
        self.float_bits(nodes.as_slice())
    }

    /// Reads the levels of up to sixteen wires as a binary number, lowest
    /// digit first.
    pub fn read_bits(&self, nodes: &[u16]) -> (value: u16)
        requires
            self.has_all(nodes@),
            nodes@.len() <= 16,
        ensures
            value == self@.wiring.bits_value(nodes@),
    {
        let total = nodes.len();
        let mut value: u32 = 0;
        let mut i: usize = total;
        assert(nodes@.skip(total as int) =~= Seq::<u16>::empty());
        while i > 0
            invariant
                total == nodes@.len(),
                total <= 16,
                i <= total,
                self.has_all(nodes@),
                value == self@.wiring.bits_value(nodes@.skip(i as int)),
                value < 65536,
            decreases i,
        {
            i -= 1;
            proof {
                let tail = nodes@.skip(i as int);
                assert(tail.skip(1) =~= nodes@.skip(i as int + 1));
                assert(tail[0] == nodes@[i as int]);
                lemma_bits_value_bound(self@.wiring, tail);
                lemma2_to64();
                if tail.len() < 16 {
                    lemma_pow2_strictly_increases(tail.len(), 16);
                }
            }
            let bit: u32 = if self.net.nodes[nodes[i] as usize].state {
                1
            } else {
                0
            };
            value = 2 * value + bit;
        }
        assert(nodes@.skip(0) =~= nodes@);
        value as u16
    }

    /// Returns the network to its power-on state: ground low, power high,
    /// every other wire low and floating, exactly the transistors gated by
    /// power conducting, nothing queued, not diverged.
    pub fn power_on(&mut self)
        requires
            old(self).inv(),
        ensures
            final(self).inv(),
            final(self)@ == old(self)@.powered_on(),
            final(self).scratch_empty(),
            final(self).size() == old(self).size(),
            old(self)@.wiring.gates_faithful() ==> final(self)@.wiring.powered_up(),
            kept(final(self)@.wiring, old(self)@.wiring),
    {
        proof {
            if self@.wiring.gates_faithful() {
                lemma_power_on_sound(self@);
            }
            lemma_kept(self@.powered_on().wiring, self@.wiring);
        }
        let ghost start = self.net@;
        let node_total = self.net.nodes.len();
        let mut n: usize = 0;
        while n < node_total
            invariant
                node_total == start.nodes.len(),
                self.queue == old(self).queue,
                self.queued == old(self).queued,
                self.net@.nodes.len() == node_total,
                self.net@.transistors == start.transistors,
                self.net@.counts == start.counts,
                self.net@.links == start.links,
                n <= node_total,
                forall|m: int|
                    0 <= m < n ==> (#[trigger] self.net@.nodes[m]) == start.powered_on().nodes[m],
                forall|m: int|
                    n <= m < node_total ==> (#[trigger] self.net@.nodes[m]) == start.nodes[m],
            decreases node_total - n,
        {
            self.net.nodes[n].state = n == NODE_PWR as usize;
            self.net.nodes[n].floating = n != NODE_GND as usize && n != NODE_PWR as usize;
            n += 1;
        }
        let transistor_total = self.net.transistors.len();
        let mut t: usize = 0;
        while t < transistor_total
            invariant
                transistor_total == start.transistors.len(),
                self.queue == old(self).queue,
                self.queued == old(self).queued,
                self.net@.transistors.len() == transistor_total,
                self.net@.nodes =~= start.powered_on().nodes,
                self.net@.counts == start.counts,
                self.net@.links == start.links,
                t <= transistor_total,
                forall|u: int|
                    0 <= u < t ==> (#[trigger] self.net@.transistors[u])
                        == start.powered_on().transistors[u],
                forall|u: int|
                    t <= u < transistor_total ==> (#[trigger] self.net@.transistors[u])
                        == start.transistors[u],
            decreases transistor_total - t,
        {
            let on = self.net.transistors[t].gate == NODE_PWR;
            self.net.transistors[t].on = on;
            t += 1;
        }
        proof {
            let waiting = self.queue.pending();
            assert(waiting == old(self)@.pending);
            assert forall|k: int| 0 <= k < waiting.len() implies waiting[k]
                < self.queued.capacity() by {
                assert(old(self)@.pending[k] < old(self)@.wiring.nodes.len());
            }
        }
        self.queued.clear(self.queue.next_list().as_slice());
        self.queue.init(&[]);
        self.group.reset();
        self.diverged = false;
        proof {
            let target = start.powered_on();
            assert(self.net@.transistors =~= target.transistors);
            assert(self.net@ == target);
            assert(self@.pending =~= Seq::empty());
            assert(self.current() =~= Seq::<u16>::empty());
            assert forall|n: int| !self.is_queued(n) by {
                assert(!(0 <= n < 65536 && self@.pending.contains(n as u16)));
            }
            assert forall|u: int| 0 <= u < target.transistors.len() implies {
                &&& (#[trigger] target.transistors[u]).gate < target.nodes.len()
                &&& target.transistors[u].c1 < target.nodes.len()
                &&& target.transistors[u].c2 < target.nodes.len()
            } by {
                assert(start.transistors[u].gate < start.nodes.len());
            }
            assert forall|m: int, j: int|
                0 <= m < target.nodes.len() && 0 <= j < target.nodes[m].gates@.len() implies (
            #[trigger] target.nodes[m].gates@[j]) < target.transistors.len() by {
                assert(target.nodes[m].gates == start.nodes[m].gates);
                assert(start.nodes[m].gates@[j] < start.transistors.len());
            }
            assert(target.wf());
        }
    }
}

} // verus!
