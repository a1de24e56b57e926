use vstd::prelude::*;
use crate::components::Transistor;
use crate::consts::{MAX_PASSES, NODE_GND, NODE_PWR};
use crate::wiring::{is_rail, CircuitView, Group, Wiring};

verus! {

/// Whether nothing but levels and switches differs: the topology, the
/// pulls and the floating marks are those of `before`.
pub open spec fn same_marks(after: Wiring, before: Wiring) -> bool {
    &&& after.same_topology(before)
    &&& forall|n: int|
        0 <= n < after.nodes.len() ==> (#[trigger] after.nodes[n]).pullup == before.nodes[n].pullup
            && after.nodes[n].pulldown == before.nodes[n].pulldown && after.nodes[n].floating
            == before.nodes[n].floating
}

/// Whether relaxing changed nothing but levels and switches: the topology,
/// the pulls and the floating marks are those of `before`, and the rails
/// have the levels that they had.
pub open spec fn relaxed_from(after: Wiring, before: Wiring) -> bool {
    &&& same_marks(after, before)
    &&& after.nodes[NODE_GND as int].state == before.nodes[NODE_GND as int].state
    &&& after.nodes[NODE_PWR as int].state == before.nodes[NODE_PWR as int].state
}

/// Whether the rails have their levels afterwards, if they had them before.
pub open spec fn rails_kept(after: Wiring, before: Wiring) -> bool {
    before.rails_fixed() ==> after.rails_fixed()
}

/// What every operation keeps of a sound network: it stays sound, its
/// topology stays, and its channel rows stay faithful.
pub open spec fn kept(after: Wiring, before: Wiring) -> bool {
    before.sound() ==> {
        &&& after.sound()
        &&& after.same_topology(before)
        &&& before.links_faithful() ==> after.links_faithful()
    }
}

/// A sound network of the same topology keeps what is to be kept.
pub proof fn lemma_kept(after: Wiring, before: Wiring)
    requires
        before.sound() ==> after.sound() && after.same_topology(before),
    ensures
        kept(after, before),
{
    if before.sound() && before.links_faithful() {
        crate::settling::lemma_links_faithful_carries(before, after);
    }
}

/// `relaxed_from` holds of a network and itself, and chains.
pub proof fn lemma_relaxed_chain(a: Wiring, b: Wiring, c: Wiring)
    requires
        relaxed_from(b, a),
        relaxed_from(c, b),
    ensures
        relaxed_from(c, a),
        relaxed_from(a, a),
{
    assert forall|n: int| 0 <= n < c.nodes.len() implies (#[trigger] c.nodes[n]).gates
        == a.nodes[n].gates && c.nodes[n].area == a.nodes[n].area by {
        assert(b.nodes[n].gates == a.nodes[n].gates);
    }
    assert forall|t: int| 0 <= t < c.transistors.len() implies (#[trigger] c.transistors[t]).gate
        == a.transistors[t].gate && c.transistors[t].c1 == a.transistors[t].c1
        && c.transistors[t].c2 == a.transistors[t].c2 by {
        assert(b.transistors[t].gate == a.transistors[t].gate);
    }
    assert forall|n: int| 0 <= n < c.nodes.len() implies (#[trigger] c.nodes[n]).pullup
        == a.nodes[n].pullup && c.nodes[n].pulldown == a.nodes[n].pulldown && c.nodes[n].floating
        == a.nodes[n].floating by {
        assert(b.nodes[n].pullup == a.nodes[n].pullup);
    }
}

/// A network that differs from a sound one by levels and switches only,
/// and whose transistors follow their gates, is sound.
pub proof fn lemma_sound_carries(after: Wiring, before: Wiring)
    requires
        before.sound(),
        same_marks(after, before),
        after.gates_follow(),
    ensures
        after.sound(),
{
    assert forall|t: int| 0 <= t < after.transistors.len() implies {
        &&& (#[trigger] after.transistors[t]).gate < after.nodes.len()
        &&& after.transistors[t].c1 < after.nodes.len()
        &&& after.transistors[t].c2 < after.nodes.len()
    } by {
        assert(before.transistors[t].gate < before.nodes.len());
    }
    assert forall|n: int, j: int|
        0 <= n < after.nodes.len() && 0 <= j < after.nodes[n].gates@.len() implies (
    #[trigger] after.nodes[n].gates@[j]) < after.transistors.len()
        && after.transistors[after.nodes[n].gates@[j] as int].gate == n by {
        assert(after.nodes[n].gates == before.nodes[n].gates);
        let t = before.nodes[n].gates@[j];
        assert(t < before.transistors.len());
        assert(before.transistors[t as int].gate == n);
        assert(after.transistors[t as int].gate == before.transistors[t as int].gate);
    }
    assert forall|t: int| 0 <= t < after.transistors.len() implies after.nodes[(
    #[trigger] after.transistors[t]).gate as int].gates@.contains(t as u16) by {
        let g = before.transistors[t].gate as int;
        assert(before.nodes[g].gates@.contains(t as u16));
        assert(after.nodes[g].gates == before.nodes[g].gates);
    }
    assert forall|n: int| 0 <= n < after.nodes.len() implies (#[trigger] after.counts[n])
        <= after.links[n]@.len() by {
        assert(before.counts[n] <= before.links[n]@.len());
    }
    assert forall|n: int, i: int|
        0 <= n < after.nodes.len() && 0 <= i < after.counts[n] implies (
    #[trigger] after.links[n]@[i]) < after.transistors.len() by {
        assert(before.links[n]@[i] < before.transistors.len());
    }
}

/// Queueing a wire leaves the wiring as it is and the circuit well formed.
pub proof fn lemma_enqueue(c: CircuitView, node: u16)
    requires
        c.wf(),
        node < c.wiring.nodes.len(),
    ensures
        c.enqueue(node).wf(),
        c.enqueue(node).wiring == c.wiring,
        c.enqueue(node).diverged == c.diverged,
{
}

/// Switching one transistor to follow a gate at `level` changes that
/// transistor's switch and nothing else of the wiring.
pub proof fn lemma_turn(c: CircuitView, t: int, level: bool)
    requires
        c.wf(),
        0 <= t < c.wiring.transistors.len(),
    ensures
        ({
            let r = if level {
                c.turn_on(t)
            } else {
                c.turn_off(t)
            };
            &&& r.wf()
            &&& r.diverged == c.diverged
            &&& r.wiring.nodes == c.wiring.nodes
            &&& r.wiring.counts == c.wiring.counts
            &&& r.wiring.links == c.wiring.links
            &&& r.wiring.transistors == c.wiring.transistors.update(
                t,
                Transistor { on: level, ..c.wiring.transistors[t] },
            )
        }),
{
    let tr = c.wiring.transistors[t];
    let r = if level {
        c.turn_on(t)
    } else {
        c.turn_off(t)
    };
    let target = c.wiring.transistors.update(t, Transistor { on: level, ..tr });
    if tr.on == level {
        assert(target =~= c.wiring.transistors);
    } else {
        let switched = c.over(c.wiring.with_on(t, level));
        crate::circuit::lemma_with_on_wf(c.wiring, t, level);
        assert(switched.wf());
        lemma_enqueue(switched, tr.c1);
        if !level {
            lemma_enqueue(switched.enqueue(tr.c1), tr.c2);
        }
    }
}

/// Switching the transistors `gates[j..]` to follow a gate at `level`
/// sets the switch of each of them and nothing else of the wiring.
pub proof fn lemma_switch_all(c: CircuitView, gates: Seq<u16>, j: int, level: bool)
    requires
        c.wf(),
        0 <= j <= gates.len(),
        forall|k: int| 0 <= k < gates.len() ==> (#[trigger] gates[k]) < c.wiring.transistors.len(),
    ensures
        ({
            let r = c.switch_all(gates, j, level);
            &&& r.wf()
            &&& r.diverged == c.diverged
            &&& r.wiring.nodes == c.wiring.nodes
            &&& r.wiring.counts == c.wiring.counts
            &&& r.wiring.links == c.wiring.links
            &&& r.wiring.transistors.len() == c.wiring.transistors.len()
            &&& forall|u: int|
                0 <= u < c.wiring.transistors.len() ==> (#[trigger] r.wiring.transistors[u]) == (if (
                exists|k: int| j <= k < gates.len() && gates[k] == u) {
                    Transistor { on: level, ..c.wiring.transistors[u] }
                } else {
                    c.wiring.transistors[u]
                })
        }),
    decreases gates.len() - j,
{
    if j < gates.len() {
        let t = gates[j] as int;
        let next = if level {
            c.turn_on(t)
        } else {
            c.turn_off(t)
        };
        lemma_turn(c, t, level);
        lemma_switch_all(next, gates, j + 1, level);
        let r = c.switch_all(gates, j, level);
        assert(r == next.switch_all(gates, j + 1, level));
        assert forall|u: int| 0 <= u < c.wiring.transistors.len() implies (
        #[trigger] r.wiring.transistors[u]) == (if (exists|k: int|
            j <= k < gates.len() && gates[k] == u) {
            Transistor { on: level, ..c.wiring.transistors[u] }
        } else {
            c.wiring.transistors[u]
        }) by {
            let later = exists|k: int| j + 1 <= k < gates.len() && gates[k] == u;
            let here = exists|k: int| j <= k < gates.len() && gates[k] == u;
            if later {
                let k = choose|k: int| j + 1 <= k < gates.len() && gates[k] == u;
                assert(j <= k < gates.len() && gates[k] == u);
            }
            if u == t {
                assert(j <= j < gates.len() && gates[j] == u);
            }
            if here && !later {
                let k = choose|k: int| j <= k < gates.len() && gates[k] == u;
                assert(k == j);
            }
        }
    }
}

/// Bringing one wire of a sound circuit to a level keeps it sound, and
/// changes nothing but that wire's level and the switches it gates.
pub proof fn lemma_settle_member(c: CircuitView, node: u16, level: bool)
    requires
        c.wf(),
        c.wiring.sound(),
        node < c.wiring.nodes.len(),
        !is_rail(node),
    ensures
        c.settle_member(node, level).wf(),
        c.settle_member(node, level).wiring.sound(),
        c.settle_member(node, level).diverged == c.diverged,
        relaxed_from(c.settle_member(node, level).wiring, c.wiring),
{
    let r = c.settle_member(node, level);
    let w = c.wiring;
    if w.nodes[node as int].state == level {
        lemma_relaxed_chain(w, w, w);
    } else {
        let gates = w.nodes[node as int].gates@;
        let raised = c.over(w.with_state(node as int, level));
        crate::circuit::lemma_with_state_wf(w, node as int, level);
        assert forall|k: int| 0 <= k < gates.len() implies (#[trigger] gates[k])
            < raised.wiring.transistors.len() by {
            assert(w.nodes[node as int].gates@[k] < w.transistors.len());
        }
        lemma_switch_all(raised, gates, 0, level);
        assert(r == raised.switch_all(gates, 0, level));
        let after = r.wiring;
        assert(after.nodes == w.with_state(node as int, level).nodes);
        assert forall|t: int| 0 <= t < after.transistors.len() implies (
        #[trigger] after.transistors[t]).gate == w.transistors[t].gate && after.transistors[t].c1
            == w.transistors[t].c1 && after.transistors[t].c2 == w.transistors[t].c2 by {
            assert(raised.wiring.transistors[t] == w.transistors[t]);
        }
        assert(relaxed_from(after, w));
        assert forall|t: int| 0 <= t < after.transistors.len() implies (
        #[trigger] after.transistors[t]).on == after.nodes[after.transistors[t].gate as int].state by {
            let g = w.transistors[t].gate;
            assert(raised.wiring.transistors[t] == w.transistors[t]);
            let listed = exists|k: int| 0 <= k < gates.len() && gates[k] == t;
            if g == node {
                assert(w.nodes[node as int].gates@.contains(t as u16));
                let k = choose|k: int| 0 <= k < gates.len() && gates[k] == t as u16;
                assert(0 <= k < gates.len() && gates[k] == t);
            } else {
                if listed {
                    let k = choose|k: int| 0 <= k < gates.len() && gates[k] == t;
                    assert(w.transistors[w.nodes[node as int].gates@[k] as int].gate == node);
                }
                assert(w.transistors[t].on == w.nodes[g as int].state);
            }
        }
        lemma_sound_carries(after, w);
    }
}

/// Bringing the wires `members[k..]` of a sound circuit to a level keeps
/// it sound.
pub proof fn lemma_settle_all(c: CircuitView, members: Seq<u16>, k: int, level: bool)
    requires
        c.wf(),
        c.wiring.sound(),
        0 <= k <= members.len(),
        forall|i: int|
            0 <= i < members.len() ==> (#[trigger] members[i]) < c.wiring.nodes.len() && !is_rail(
                members[i],
            ),
    ensures
        c.settle_all(members, k, level).wf(),
        c.settle_all(members, k, level).wiring.sound(),
        c.settle_all(members, k, level).diverged == c.diverged,
        relaxed_from(c.settle_all(members, k, level).wiring, c.wiring),
    decreases members.len() - k,
{
    if k < members.len() {
        let next = c.settle_member(members[k], level);
        lemma_settle_member(c, members[k], level);
        lemma_settle_all(next, members, k + 1, level);
        lemma_relaxed_chain(c.wiring, next.wiring, next.settle_all(members, k + 1, level).wiring);
    } else {
        lemma_relaxed_chain(c.wiring, c.wiring, c.wiring);
    }
}

/// The walk collects wires of the network that are no rails, each once.
pub proof fn lemma_walk_fits(w: Wiring, group: Group, node: u16)
    requires
        w.wf(),
        node < w.nodes.len(),
        group.fits(w),
    ensures
        w.walk(group, node).fits(w),
        w.walk(group, node).members.len() >= group.members.len(),
    decreases w.room(group), 0int, 0int,
{
    if node != NODE_GND && node != NODE_PWR && !group.members.contains(node) && group.members.len()
        < w.nodes.len() {
        let entered = group.with_member(node);
        assert(entered.members.no_duplicates());
        lemma_walk_links_fits(w, entered, node, 0);
    }
}

/// The scan of a channel row collects wires of the network that are no
/// rails, each once.
pub proof fn lemma_walk_links_fits(w: Wiring, group: Group, node: u16, i: int)
    requires
        w.wf(),
        node < w.nodes.len(),
        group.fits(w),
        0 <= i,
    ensures
        w.walk_links(group, node, i).fits(w),
        w.walk_links(group, node, i).members.len() >= group.members.len(),
    decreases w.room(group), 1int, w.counts[node as int] - i,
{
    if i < w.counts[node as int] {
        let t = w.links[node as int]@[i] as int;
        assert(t < w.transistors.len());
        let other = w.other_end(t, node);
        assert(w.transistors[t].c1 < w.nodes.len());
        let next = if w.transistors[t].on {
            w.walk(group, other)
        } else {
            group
        };
        if w.transistors[t].on {
            lemma_walk_fits(w, group, other);
        }
        lemma_walk_links_fits(w, next, node, i + 1);
    }
}

/// Re-evaluating one wire of a sound circuit keeps it sound.
pub proof fn lemma_recalc_node(c: CircuitView, node: u16)
    requires
        c.wf(),
        c.wiring.sound(),
        node < c.wiring.nodes.len(),
    ensures
        c.recalc_node(node).wf(),
        c.recalc_node(node).wiring.sound(),
        c.recalc_node(node).diverged == c.diverged,
        relaxed_from(c.recalc_node(node).wiring, c.wiring),
{
    if is_rail(node) {
        lemma_relaxed_chain(c.wiring, c.wiring, c.wiring);
    } else {
        lemma_walk_fits(c.wiring, Group::empty(), node);
        let group = c.wiring.group_of(node);
        lemma_settle_all(c, group.members, 0, c.wiring.level_of(group));
    }
}

/// One pass over a sound circuit keeps it sound.
pub proof fn lemma_pass(c: CircuitView, current: Seq<u16>, i: int)
    requires
        c.wf(),
        c.wiring.sound(),
        0 <= i <= current.len(),
        forall|k: int| 0 <= k < current.len() ==> (#[trigger] current[k]) < c.wiring.nodes.len(),
    ensures
        c.pass(current, i).wf(),
        c.pass(current, i).wiring.sound(),
        c.pass(current, i).diverged == c.diverged,
        relaxed_from(c.pass(current, i).wiring, c.wiring),
    decreases current.len() - i,
{
    if i < current.len() {
        let next = c.recalc_node(current[i]);
        lemma_recalc_node(c, current[i]);
        lemma_pass(next, current, i + 1);
        lemma_relaxed_chain(c.wiring, next.wiring, next.pass(current, i + 1).wiring);
    } else {
        lemma_relaxed_chain(c.wiring, c.wiring, c.wiring);
    }
}

/// The passes from `round` on keep a sound circuit sound and leave
/// nothing queued.
pub proof fn lemma_relax_rounds(c: CircuitView, current: Seq<u16>, round: int)
    requires
        c.idle(),
        c.wiring.sound(),
        0 <= round,
        forall|k: int| 0 <= k < current.len() ==> (#[trigger] current[k]) < c.wiring.nodes.len(),
    ensures
        c.relax_rounds(current, round).idle(),
        c.relax_rounds(current, round).wiring.sound(),
        relaxed_from(c.relax_rounds(current, round).wiring, c.wiring),
    decreases MAX_PASSES - round,
{
    if round >= MAX_PASSES {
        lemma_relaxed_chain(c.wiring, c.wiring, c.wiring);
    } else {
        let after = c.pass(current, 0);
        lemma_pass(c, current, 0);
        if after.pending.len() != 0 {
            lemma_relax_rounds(after.drained(), after.pending, round + 1);
            lemma_relaxed_chain(
                c.wiring,
                after.wiring,
                after.drained().relax_rounds(after.pending, round + 1).wiring,
            );
        }
    }
}

/// Relaxation keeps the invariants of the network: afterwards every
/// transistor conducts exactly while its gate is high, the rails have
/// their levels, nothing is queued, and topology and pulls are as before.
pub proof fn lemma_relax_keeps_sound(c: CircuitView, seeds: Seq<u16>)
    requires
        c.idle(),
        c.wiring.sound(),
        forall|k: int| 0 <= k < seeds.len() ==> (#[trigger] seeds[k]) < c.wiring.nodes.len(),
    ensures
        c.relax(seeds).idle(),
        c.relax(seeds).wiring.sound(),
        relaxed_from(c.relax(seeds).wiring, c.wiring),
{
    if c.diverged {
        lemma_relaxed_chain(c.wiring, c.wiring, c.wiring);
    } else {
        lemma_relax_rounds(c, seeds, 0);
    }
}

/// Changing the pulls of a wire keeps a network sound.
pub proof fn lemma_with_pulls_sound(w: Wiring, node: int, up: bool, down: bool)
    requires
        w.sound(),
        0 <= node < w.nodes.len(),
    ensures
        w.with_pulls(node, up, down).sound(),
        w.with_pulls(node, up, down).same_topology(w),
        rails_kept(w.with_pulls(node, up, down), w),
{
    let after = w.with_pulls(node, up, down);
    crate::circuit::lemma_with_pulls_wf(w, node, up, down);
    assert forall|n: int, j: int|
        0 <= n < after.nodes.len() && 0 <= j < after.nodes[n].gates@.len()
        implies after.transistors[(#[trigger] after.nodes[n].gates@[j]) as int].gate == n by {
        assert(after.nodes[n].gates == w.nodes[n].gates);
        assert(w.transistors[w.nodes[n].gates@[j] as int].gate == n);
    }
    assert forall|t: int| 0 <= t < after.transistors.len() implies after.nodes[(
    #[trigger] after.transistors[t]).gate as int].gates@.contains(t as u16) by {
        let g = w.transistors[t].gate as int;
        assert(w.nodes[g].gates@.contains(t as u16));
        assert(after.nodes[g].gates == w.nodes[g].gates);
    }
    assert forall|t: int| 0 <= t < after.transistors.len() implies (
    #[trigger] after.transistors[t]).on == after.nodes[after.transistors[t].gate as int].state by {
        let g = w.transistors[t].gate as int;
        assert(w.transistors[t].on == w.nodes[g].state);
        assert(after.nodes[g].state == w.nodes[g].state);
    }
}

/// Driving wires with the digits of a number keeps a network sound.
pub proof fn lemma_driven_sound(w: Wiring, nodes: Seq<u16>, value: nat, i: int)
    requires
        w.sound(),
        0 <= i <= nodes.len(),
        forall|k: int| 0 <= k < nodes.len() ==> (#[trigger] nodes[k]) < w.nodes.len(),
    ensures
        w.driven(nodes, value, i).sound(),
        w.driven(nodes, value, i).nodes.len() == w.nodes.len(),
        w.driven(nodes, value, i).same_topology(w),
        rails_kept(w.driven(nodes, value, i), w),
    decreases nodes.len() - i,
{
    if i < nodes.len() {
        let next = w.with_pulls(nodes[i] as int, value % 2 == 1, value % 2 == 0);
        lemma_with_pulls_sound(w, nodes[i] as int, value % 2 == 1, value % 2 == 0);
        lemma_driven_sound(next, nodes, value / 2, i + 1);
        lemma_topology_chain(w, next, next.driven(nodes, value / 2, i + 1));
    } else {
        lemma_relaxed_chain(w, w, w);
    }
}

/// Letting wires float keeps a network sound.
pub proof fn lemma_released_sound(w: Wiring, nodes: Seq<u16>, i: int)
    requires
        w.sound(),
        0 <= i <= nodes.len(),
        forall|k: int| 0 <= k < nodes.len() ==> (#[trigger] nodes[k]) < w.nodes.len(),
    ensures
        w.released(nodes, i).sound(),
        w.released(nodes, i).nodes.len() == w.nodes.len(),
        w.released(nodes, i).same_topology(w),
        rails_kept(w.released(nodes, i), w),
    decreases nodes.len() - i,
{
    if i < nodes.len() {
        let next = w.with_pulls(nodes[i] as int, false, false);
        lemma_with_pulls_sound(w, nodes[i] as int, false, false);
        lemma_released_sound(next, nodes, i + 1);
        lemma_topology_chain(w, next, next.released(nodes, i + 1));
    } else {
        lemma_relaxed_chain(w, w, w);
    }
}

/// At power-on every transistor follows its gate and the rails have their
/// levels, whatever the levels were before.
pub proof fn lemma_power_on_sound(c: CircuitView)
    requires
        c.wiring.wf(),
        c.wiring.gates_faithful(),
    ensures
        c.powered_on().idle(),
        c.powered_on().wiring.sound(),
        c.powered_on().wiring.rails_fixed(),
        c.powered_on().wiring.same_topology(c.wiring),
        !c.powered_on().diverged,
{
    let w = c.wiring;
    let after = w.powered_on();
    assert forall|t: int| 0 <= t < after.transistors.len() implies {
        &&& (#[trigger] after.transistors[t]).gate < after.nodes.len()
        &&& after.transistors[t].c1 < after.nodes.len()
        &&& after.transistors[t].c2 < after.nodes.len()
    } by {
        assert(w.transistors[t].gate < w.nodes.len());
    }
    assert forall|n: int, j: int|
        0 <= n < after.nodes.len() && 0 <= j < after.nodes[n].gates@.len() implies (
    #[trigger] after.nodes[n].gates@[j]) < after.transistors.len()
        && after.transistors[after.nodes[n].gates@[j] as int].gate == n by {
        assert(after.nodes[n].gates == w.nodes[n].gates);
        let t = w.nodes[n].gates@[j];
        assert(t < w.transistors.len());
        assert(w.transistors[t as int].gate == n);
    }
    assert forall|t: int| 0 <= t < after.transistors.len() implies after.nodes[(
    #[trigger] after.transistors[t]).gate as int].gates@.contains(t as u16) by {
        let g = w.transistors[t].gate as int;
        assert(w.nodes[g].gates@.contains(t as u16));
        assert(after.nodes[g].gates == w.nodes[g].gates);
    }
    assert forall|n: int| 0 <= n < after.nodes.len() implies (#[trigger] after.counts[n])
        <= after.links[n]@.len() by {
        assert(w.counts[n] <= w.links[n]@.len());
    }
    assert forall|n: int, i: int|
        0 <= n < after.nodes.len() && 0 <= i < after.counts[n] implies (
    #[trigger] after.links[n]@[i]) < after.transistors.len() by {
        assert(w.links[n]@[i] < w.transistors.len());
    }
    assert forall|t: int| 0 <= t < after.transistors.len() implies (
    #[trigger] after.transistors[t]).on == after.nodes[after.transistors[t].gate as int].state by {
        assert(w.transistors[t].gate < w.nodes.len());
    }
}

/// Pulling a wire up and relaxing keeps a sound circuit sound.
pub proof fn lemma_set_high_keeps_sound(c: CircuitView, node: u16)
    requires
        c.idle(),
        c.wiring.sound(),
        node < c.wiring.nodes.len(),
    ensures
        c.set_high(node).idle(),
        c.set_high(node).wiring.sound(),
        c.set_high(node).wiring.same_topology(c.wiring),
        rails_kept(c.set_high(node).wiring, c.wiring),
{
    lemma_relaxed_chain(c.wiring, c.wiring, c.wiring);
    if !c.diverged {
        let pulled = c.over(c.wiring.with_pulls(node as int, true, false));
        lemma_with_pulls_sound(c.wiring, node as int, true, false);
        assert(pulled.idle());
        lemma_relax_keeps_sound(pulled, seq![node]);
        lemma_topology_chain(c.wiring, pulled.wiring, pulled.relax(seq![node]).wiring);
    }
}

/// Pulling a wire down and relaxing keeps a sound circuit sound.
pub proof fn lemma_set_low_keeps_sound(c: CircuitView, node: u16)
    requires
        c.idle(),
        c.wiring.sound(),
        node < c.wiring.nodes.len(),
    ensures
        c.set_low(node).idle(),
        c.set_low(node).wiring.sound(),
        c.set_low(node).wiring.same_topology(c.wiring),
        rails_kept(c.set_low(node).wiring, c.wiring),
{
    lemma_relaxed_chain(c.wiring, c.wiring, c.wiring);
    if !c.diverged {
        let pulled = c.over(c.wiring.with_pulls(node as int, false, true));
        lemma_with_pulls_sound(c.wiring, node as int, false, true);
        assert(pulled.idle());
        lemma_relax_keeps_sound(pulled, seq![node]);
        lemma_topology_chain(c.wiring, pulled.wiring, pulled.relax(seq![node]).wiring);
    }
}

/// `same_topology` chains.
pub proof fn lemma_topology_chain(a: Wiring, b: Wiring, c: Wiring)
    requires
        b.same_topology(a),
        c.same_topology(b) || relaxed_from(c, b),
    ensures
        c.same_topology(a),
{
    assert forall|n: int| 0 <= n < c.nodes.len() implies (#[trigger] c.nodes[n]).gates
        == a.nodes[n].gates && c.nodes[n].area == a.nodes[n].area by {
        assert(b.nodes[n].gates == a.nodes[n].gates);
    }
    assert forall|t: int| 0 <= t < c.transistors.len() implies (#[trigger] c.transistors[t]).gate
        == a.transistors[t].gate && c.transistors[t].c1 == a.transistors[t].c1
        && c.transistors[t].c2 == a.transistors[t].c2 by {
        assert(b.transistors[t].gate == a.transistors[t].gate);
    }
}

/// Driving wires and relaxing keeps a sound circuit sound.
pub proof fn lemma_write_bits_keeps_sound(c: CircuitView, nodes: Seq<u16>, value: nat)
    requires
        c.idle(),
        c.wiring.sound(),
        forall|k: int| 0 <= k < nodes.len() ==> (#[trigger] nodes[k]) < c.wiring.nodes.len(),
    ensures
        c.write_bits(nodes, value).idle(),
        c.write_bits(nodes, value).wiring.sound(),
        c.write_bits(nodes, value).wiring.same_topology(c.wiring),
        rails_kept(c.write_bits(nodes, value).wiring, c.wiring),
{
    lemma_relaxed_chain(c.wiring, c.wiring, c.wiring);
    if !c.diverged {
        let pulled = c.over(c.wiring.driven(nodes, value, 0));
        lemma_driven_sound(c.wiring, nodes, value, 0);
        assert(pulled.idle());
        lemma_relax_keeps_sound(pulled, nodes);
        lemma_topology_chain(c.wiring, pulled.wiring, pulled.relax(nodes).wiring);
    }
}

/// Letting wires float and relaxing keeps a sound circuit sound.
pub proof fn lemma_float_bits_keeps_sound(c: CircuitView, nodes: Seq<u16>)
    requires
        c.idle(),
        c.wiring.sound(),
        forall|k: int| 0 <= k < nodes.len() ==> (#[trigger] nodes[k]) < c.wiring.nodes.len(),
    ensures
        c.float_bits(nodes).idle(),
        c.float_bits(nodes).wiring.sound(),
        c.float_bits(nodes).wiring.same_topology(c.wiring),
        rails_kept(c.float_bits(nodes).wiring, c.wiring),
{
    lemma_relaxed_chain(c.wiring, c.wiring, c.wiring);
    if !c.diverged {
        let pulled = c.over(c.wiring.released(nodes, 0));
        lemma_released_sound(c.wiring, nodes, 0);
        assert(pulled.idle());
        lemma_relax_keeps_sound(pulled, nodes);
        lemma_topology_chain(c.wiring, pulled.wiring, pulled.relax(nodes).wiring);
    }
}

/// Writing a latch keeps a sound circuit sound, and keeps the rails at
/// their levels unless a rail is a side of the latch.
pub proof fn lemma_set_bit_keeps_sound(c: CircuitView, n1: i32, n2: i32)
    requires
        c.idle(),
        c.wiring.sound(),
        n1 < 0 || n2 < 0 || (n1 < c.wiring.nodes.len() && n2 < c.wiring.nodes.len()),
    ensures
        c.set_bit(n1, n2).idle(),
        c.set_bit(n1, n2).wiring.sound(),
        c.set_bit(n1, n2).wiring.same_topology(c.wiring),
        n1 < 0 || n2 < 0 || (!is_rail(n1 as u16) && !is_rail(n2 as u16)) ==> rails_kept(
            c.set_bit(n1, n2).wiring,
            c.wiring,
        ),
{
    lemma_relaxed_chain(c.wiring, c.wiring, c.wiring);
    if !(c.diverged || n1 < 0 || n2 < 0) {
        let w = c.wiring;
        let gates_high = w.nodes[n1 as int].gates@;
        let gates_low = w.nodes[n2 as int].gates@;
        let gated_on = w.forced(gates_high, true);
        let gated_off = gated_on.forced(gates_low, false);
        let written = gated_off.with_state(n1 as int, true).with_state(n2 as int, false);
        assert(written.nodes.len() == w.nodes.len());
        assert(written.transistors.len() == w.transistors.len());
        assert forall|n: int| 0 <= n < written.nodes.len() implies (#[trigger] written.nodes[n]).gates
            == w.nodes[n].gates && written.nodes[n].area == w.nodes[n].area
            && written.nodes[n].pullup == w.nodes[n].pullup && written.nodes[n].pulldown
            == w.nodes[n].pulldown && written.nodes[n].floating == w.nodes[n].floating by {}
        assert forall|t: int| 0 <= t < written.transistors.len() implies (
        #[trigger] written.transistors[t]).gate == w.transistors[t].gate
            && written.transistors[t].c1 == w.transistors[t].c1 && written.transistors[t].c2
            == w.transistors[t].c2 by {
            assert(gated_on.transistors[t].gate == w.transistors[t].gate);
        }
        assert(same_marks(written, w));
        assert forall|t: int| 0 <= t < written.transistors.len() implies (
        #[trigger] written.transistors[t]).on
            == written.nodes[written.transistors[t].gate as int].state by {
            let g = w.transistors[t].gate as int;
            assert(w.transistors[t].on == w.nodes[g].state);
            assert(w.nodes[g].gates@.contains(t as u16));
            if gates_high.contains(t as u16) {
                let k = choose|k: int| 0 <= k < gates_high.len() && gates_high[k] == t as u16;
                assert(w.transistors[w.nodes[n1 as int].gates@[k] as int].gate == n1);
            }
            if gates_low.contains(t as u16) {
                let k = choose|k: int| 0 <= k < gates_low.len() && gates_low[k] == t as u16;
                assert(w.transistors[w.nodes[n2 as int].gates@[k] as int].gate == n2);
            }
        }
        lemma_sound_carries(written, w);
        let started = c.over(written);
        assert(started.idle());
        assert(seq![n1 as u16, n2 as u16][0] == n1 as u16);
        assert(seq![n1 as u16, n2 as u16][1] == n2 as u16);
        lemma_relax_keeps_sound(started, seq![n1 as u16, n2 as u16]);
        lemma_topology_chain(w, written, started.relax(seq![n1 as u16, n2 as u16]).wiring);
    }
}

/// A wire whose group is at the level that the group takes.
pub open spec fn settled_at(w: Wiring, node: u16) -> bool {
    let group = w.group_of(node);
    forall|k: int|
        0 <= k < group.members.len() ==> w.nodes[(#[trigger] group.members[k]) as int].state
            == w.level_of(group)
}

/// Bringing wires that are at a level to that level changes nothing.
pub proof fn lemma_settle_all_idle(c: CircuitView, members: Seq<u16>, k: int, level: bool)
    requires
        0 <= k <= members.len(),
        forall|i: int|
            0 <= i < members.len() ==> c.wiring.nodes[(#[trigger] members[i]) as int].state == level,
    ensures
        c.settle_all(members, k, level) == c,
    decreases members.len() - k,
{
    if k < members.len() {
        assert(c.wiring.nodes[members[k] as int].state == level);
        lemma_settle_all_idle(c, members, k + 1, level);
    }
}

/// Relaxing from a wire whose group is settled changes nothing.
pub proof fn lemma_relax_settled(c: CircuitView, node: u16)
    requires
        c.pending.len() == 0,
        is_rail(node) || settled_at(c.wiring, node),
    ensures
        c.relax(seq![node]) == c,
{
    if !c.diverged {
        let seeds = seq![node];
        assert(seeds[0] == node);
        if !is_rail(node) {
            let group = c.wiring.group_of(node);
            lemma_settle_all_idle(c, group.members, 0, c.wiring.level_of(group));
        }
        assert(c.recalc_node(node) == c);
        assert(c.recalc_node(node).pass(seeds, 1) == c);
        assert(c.pass(seeds, 0) == c);
    }
}

/// Pulling up a wire that is pulled up already, and whose group is
/// settled, leaves the whole circuit as it is.
pub proof fn lemma_set_high_idempotent(c: CircuitView, node: u16)
    requires
        c.pending.len() == 0,
        node < c.wiring.nodes.len(),
        c.wiring.nodes[node as int].pullup,
        !c.wiring.nodes[node as int].pulldown,
        is_rail(node) || settled_at(c.wiring, node),
    ensures
        c.set_high(node) == c,
{
    if !c.diverged {
        let pulled = c.wiring.with_pulls(node as int, true, false);
        assert(pulled.nodes =~= c.wiring.nodes);
        assert(pulled == c.wiring);
        assert(c.over(pulled) == c);
        lemma_relax_settled(c, node);
    }
}

/// Pulling down a wire that is pulled down already, and whose group is
/// settled, leaves the whole circuit as it is.
pub proof fn lemma_set_low_idempotent(c: CircuitView, node: u16)
    requires
        c.pending.len() == 0,
        node < c.wiring.nodes.len(),
        !c.wiring.nodes[node as int].pullup,
        c.wiring.nodes[node as int].pulldown,
        is_rail(node) || settled_at(c.wiring, node),
    ensures
        c.set_low(node) == c,
{
    if !c.diverged {
        let pulled = c.wiring.with_pulls(node as int, false, true);
        assert(pulled.nodes =~= c.wiring.nodes);
        assert(pulled == c.wiring);
        assert(c.over(pulled) == c);
        lemma_relax_settled(c, node);
    }
}

/// Whether the pulls of every wire but `node` are those of `before`.
pub open spec fn pulls_kept_but(after: Wiring, before: Wiring, node: int) -> bool {
    &&& after.nodes.len() == before.nodes.len()
    &&& forall|n: int|
        0 <= n < after.nodes.len() && n != node ==> (#[trigger] after.nodes[n]).pullup
            == before.nodes[n].pullup && after.nodes[n].pulldown == before.nodes[n].pulldown
}

/// Changing the pulls of a wire and relaxing from it leaves that wire
/// with the pulls given and every other wire with the pulls it had.
pub proof fn lemma_pull_marks(c: CircuitView, node: u16, up: bool, down: bool)
    requires
        c.idle(),
        !c.diverged,
        c.wiring.sound(),
        node < c.wiring.nodes.len(),
    ensures
        ({
            let r = c.over(c.wiring.with_pulls(node as int, up, down)).relax(seq![node]);
            &&& pulls_kept_but(r.wiring, c.wiring, node as int)
            &&& r.wiring.nodes[node as int].pullup == up
            &&& r.wiring.nodes[node as int].pulldown == down
        }),
{
    let pulled = c.over(c.wiring.with_pulls(node as int, up, down));
    lemma_with_pulls_sound(c.wiring, node as int, up, down);
    assert(seq![node][0] == node);
    lemma_relax_keeps_sound(pulled, seq![node]);
    let r = pulled.relax(seq![node]);
    assert forall|n: int| 0 <= n < r.wiring.nodes.len() && n != node implies (
    #[trigger] r.wiring.nodes[n]).pullup == c.wiring.nodes[n].pullup && r.wiring.nodes[n].pulldown
        == c.wiring.nodes[n].pulldown by {
        assert(pulled.wiring.nodes[n] == c.wiring.nodes[n]);
    }
}

/// Relaxing leaves every wire with the pulls it had.
pub proof fn lemma_relax_marks(c: CircuitView, seeds: Seq<u16>)
    requires
        c.idle(),
        c.wiring.sound(),
        forall|k: int| 0 <= k < seeds.len() ==> (#[trigger] seeds[k]) < c.wiring.nodes.len(),
    ensures
        pulls_kept_but(c.relax(seeds).wiring, c.wiring, -1),
{
    lemma_relax_keeps_sound(c, seeds);
}

} // verus!
