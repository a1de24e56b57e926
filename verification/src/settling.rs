use vstd::prelude::*;
use crate::connectivity::{
    closed, component, consistent, is_wire, joined, lemma_component_carries,
    lemma_component_closed, lemma_joined_symmetric, lemma_level_carries, lemma_level_stable,
    lemma_same_component, level_in, settled, switched_in,
};
use crate::consts::MAX_PASSES;
use crate::laws::{
    lemma_pass, lemma_recalc_node, lemma_settle_all, lemma_settle_member, lemma_switch_all,
    lemma_turn, lemma_walk_fits,
};
use crate::walk_laws::{lemma_group_is_component, lemma_level_of_group, member_set};
use crate::wiring::{is_rail, CircuitView, Group, Wiring};

verus! {

/// Whether `p` is one of the wires `todo` or is queued.
pub open spec fn waiting(c: CircuitView, todo: Set<int>, p: int) -> bool {
    todo.contains(p) || (0 <= p < 65536 && c.pending.contains(p as u16))
}

/// Whether the component of wire `n` holds a wire that is waiting to be
/// evaluated.
pub open spec fn marked(c: CircuitView, todo: Set<int>, n: int) -> bool {
    exists|p: int| #[trigger] component(c.wiring, n).contains(p) && waiting(c, todo, p)
}

/// Whether every wire that does not sit at the level of its component has
/// a wire in its component that is waiting to be evaluated.
pub open spec fn covered(c: CircuitView, todo: Set<int>) -> bool {
    forall|n: int| is_wire(c.wiring, n) ==> #[trigger] consistent(c.wiring, n) || marked(c, todo, n)
}

/// Whether, from `c` to `r`, what was queued is still queued, and every
/// transistor that has switched has its first channel end queued and, if
/// it was opened, its second too; rails are never queued.
pub open spec fn announced(c: CircuitView, r: CircuitView) -> bool {
    &&& forall|k: int| 0 <= k < c.pending.len() ==> r.pending.contains(#[trigger] c.pending[k])
    &&& forall|t: int|
        0 <= t < c.wiring.transistors.len() && (#[trigger] c.wiring.transistors[t]).on
            != r.wiring.transistors[t].on ==> {
            &&& !is_rail(c.wiring.transistors[t].c1) ==> r.pending.contains(
                c.wiring.transistors[t].c1,
            )
            &&& !r.wiring.transistors[t].on && !is_rail(c.wiring.transistors[t].c2)
                ==> r.pending.contains(c.wiring.transistors[t].c2)
        }
}

/// `announced` chains over networks of one topology.
pub proof fn lemma_announced_chain(a: CircuitView, b: CircuitView, c: CircuitView)
    requires
        announced(a, b),
        announced(b, c),
        b.wiring.same_topology(a.wiring),
    ensures
        announced(a, c),
{
    assert forall|k: int| 0 <= k < a.pending.len() implies c.pending.contains(
        #[trigger] a.pending[k],
    ) by {
        assert(b.pending.contains(a.pending[k]));
        let j = choose|j: int| 0 <= j < b.pending.len() && b.pending[j] == a.pending[k];
        assert(c.pending.contains(b.pending[j]));
    }
    assert forall|t: int|
        0 <= t < a.wiring.transistors.len() && (#[trigger] a.wiring.transistors[t]).on
            != c.wiring.transistors[t].on implies {
        &&& !is_rail(a.wiring.transistors[t].c1) ==> c.pending.contains(a.wiring.transistors[t].c1)
        &&& !c.wiring.transistors[t].on && !is_rail(a.wiring.transistors[t].c2)
            ==> c.pending.contains(a.wiring.transistors[t].c2)
    } by {
        let ta = a.wiring.transistors[t];
        let tb = b.wiring.transistors[t];
        assert(tb.c1 == ta.c1 && tb.c2 == ta.c2);
        if tb.on != c.wiring.transistors[t].on {
        } else {
            assert(ta.on != tb.on);
            if !is_rail(ta.c1) {
                assert(b.pending.contains(ta.c1));
                let j = choose|j: int| 0 <= j < b.pending.len() && b.pending[j] == ta.c1;
                assert(c.pending.contains(b.pending[j]));
            }
            if !tb.on && !is_rail(ta.c2) {
                assert(b.pending.contains(ta.c2));
                let j = choose|j: int| 0 <= j < b.pending.len() && b.pending[j] == ta.c2;
                assert(c.pending.contains(b.pending[j]));
            }
        }
    }
}

/// Queueing keeps what was queued and queues the wire, unless it is a rail.
pub proof fn lemma_enqueue_keeps(c: CircuitView, node: u16)
    ensures
        forall|k: int|
            0 <= k < c.pending.len() ==> c.enqueue(node).pending.contains(#[trigger] c.pending[k]),
        !is_rail(node) ==> c.enqueue(node).pending.contains(node),
{
    let r = c.enqueue(node);
    if is_rail(node) || c.pending.contains(node) {
    } else {
        assert forall|k: int| 0 <= k < c.pending.len() implies r.pending.contains(
            #[trigger] c.pending[k],
        ) by {
            assert(r.pending[k] == c.pending[k]);
        }
        assert(r.pending[c.pending.len() as int] == node);
    }
}

/// Switching one transistor announces it.
pub proof fn lemma_turn_announced(c: CircuitView, t: int, level: bool)
    requires
        c.wf(),
        0 <= t < c.wiring.transistors.len(),
    ensures
        announced(
            c,
            if level {
                c.turn_on(t)
            } else {
                c.turn_off(t)
            },
        ),
{
    let tr = c.wiring.transistors[t];
    let r = if level {
        c.turn_on(t)
    } else {
        c.turn_off(t)
    };
    lemma_turn(c, t, level);
    if tr.on == level {
        assert(r == c);
        assert forall|k: int| 0 <= k < c.pending.len() implies r.pending.contains(
            #[trigger] c.pending[k],
        ) by {}
    } else {
        let switched = c.over(c.wiring.with_on(t, level));
        lemma_enqueue_keeps(switched, tr.c1);
        let first = switched.enqueue(tr.c1);
        if level {
            assert(r == first);
        } else {
            lemma_enqueue_keeps(first, tr.c2);
            assert(r == first.enqueue(tr.c2));
            assert forall|k: int| 0 <= k < c.pending.len() implies r.pending.contains(
                #[trigger] c.pending[k],
            ) by {
                assert(first.pending.contains(c.pending[k]));
                let j = choose|j: int| 0 <= j < first.pending.len() && first.pending[j]
                    == c.pending[k];
                assert(r.pending.contains(first.pending[j]));
            }
            if !is_rail(tr.c1) {
                let j = choose|j: int| 0 <= j < first.pending.len() && first.pending[j] == tr.c1;
                assert(r.pending.contains(first.pending[j]));
            }
        }
        assert forall|u: int|
            0 <= u < c.wiring.transistors.len() && (#[trigger] c.wiring.transistors[u]).on
                != r.wiring.transistors[u].on implies {
            &&& !is_rail(c.wiring.transistors[u].c1) ==> r.pending.contains(
                c.wiring.transistors[u].c1,
            )
            &&& !r.wiring.transistors[u].on && !is_rail(c.wiring.transistors[u].c2)
                ==> r.pending.contains(c.wiring.transistors[u].c2)
        } by {
            assert(u == t);
        }
    }
}

/// Switching a list of transistors announces each that switches.
pub proof fn lemma_switch_all_announced(c: CircuitView, gates: Seq<u16>, j: int, level: bool)
    requires
        c.wf(),
        0 <= j <= gates.len(),
        forall|k: int| 0 <= k < gates.len() ==> (#[trigger] gates[k]) < c.wiring.transistors.len(),
    ensures
        announced(c, c.switch_all(gates, j, level)),
        c.switch_all(gates, j, level).wiring.same_topology(c.wiring),
    decreases gates.len() - j,
{
    if j < gates.len() {
        let t = gates[j] as int;
        let next = if level {
            c.turn_on(t)
        } else {
            c.turn_off(t)
        };
        lemma_turn(c, t, level);
        lemma_turn_announced(c, t, level);
        lemma_switch_all(c, gates, j, level);
        lemma_switch_all(next, gates, j + 1, level);
        lemma_switch_all_announced(next, gates, j + 1, level);
        let r = c.switch_all(gates, j, level);
        assert(r == next.switch_all(gates, j + 1, level));
        assert(next.wiring.same_topology(c.wiring)) by {
            assert forall|u: int| 0 <= u < next.wiring.transistors.len() implies (
            #[trigger] next.wiring.transistors[u]).gate == c.wiring.transistors[u].gate
                && next.wiring.transistors[u].c1 == c.wiring.transistors[u].c1
                && next.wiring.transistors[u].c2 == c.wiring.transistors[u].c2 by {}
        }
        lemma_announced_chain(c, next, r);
        crate::laws::lemma_topology_chain(c.wiring, next.wiring, r.wiring);
    } else {
        assert forall|k: int| 0 <= k < c.pending.len() implies c.pending.contains(
            #[trigger] c.pending[k],
        ) by {}
    }
}

/// Bringing one wire to a level announces every transistor that
/// switches, and changes the level of that wire only.
pub proof fn lemma_settle_member_announced(c: CircuitView, node: u16, level: bool)
    requires
        c.wf(),
        c.wiring.sound(),
        node < c.wiring.nodes.len(),
        !is_rail(node),
    ensures
        announced(c, c.settle_member(node, level)),
        forall|n: int|
            0 <= n < c.wiring.nodes.len() ==> (#[trigger] c.settle_member(
                node,
                level,
            ).wiring.nodes[n]).state == if n == node {
                level
            } else {
                c.wiring.nodes[n].state
            },
{
    let w = c.wiring;
    let r = c.settle_member(node, level);
    if w.nodes[node as int].state == level {
        assert forall|k: int| 0 <= k < c.pending.len() implies c.pending.contains(
            #[trigger] c.pending[k],
        ) by {}
    } else {
        let gates = w.nodes[node as int].gates@;
        let raised = c.over(w.with_state(node as int, level));
        crate::circuit::lemma_with_state_wf(w, node as int, level);
        assert forall|k: int| 0 <= k < gates.len() implies (#[trigger] gates[k])
            < raised.wiring.transistors.len() by {
            assert(w.nodes[node as int].gates@[k] < w.transistors.len());
        }
        lemma_switch_all(raised, gates, 0, level);
        lemma_switch_all_announced(raised, gates, 0, level);
        assert(r == raised.switch_all(gates, 0, level));
        assert(announced(c, r)) by {
            assert forall|t: int|
                0 <= t < c.wiring.transistors.len() && (#[trigger] c.wiring.transistors[t]).on
                    != r.wiring.transistors[t].on implies {
                &&& !is_rail(c.wiring.transistors[t].c1) ==> r.pending.contains(
                    c.wiring.transistors[t].c1,
                )
                &&& !r.wiring.transistors[t].on && !is_rail(c.wiring.transistors[t].c2)
                    ==> r.pending.contains(c.wiring.transistors[t].c2)
            } by {
                assert(raised.wiring.transistors[t] == c.wiring.transistors[t]);
            }
        }
    }
}

/// Whether wire `n` is one of `members[k..]`.
pub open spec fn listed_from(members: Seq<u16>, k: int, n: int) -> bool {
    exists|j: int| k <= j < members.len() && #[trigger] members[j] == n
}

/// Bringing a list of wires to a level announces every transistor that
/// switches, brings exactly the listed wires to the level, and keeps the
/// network sound.
pub proof fn lemma_settle_all_announced(c: CircuitView, members: Seq<u16>, k: int, level: bool)
    requires
        c.wf(),
        c.wiring.sound(),
        0 <= k <= members.len(),
        forall|i: int|
            0 <= i < members.len() ==> (#[trigger] members[i]) < c.wiring.nodes.len() && !is_rail(
                members[i],
            ),
    ensures
        announced(c, c.settle_all(members, k, level)),
        forall|n: int|
            0 <= n < c.wiring.nodes.len() ==> (#[trigger] c.settle_all(
                members,
                k,
                level,
            ).wiring.nodes[n]).state == if listed_from(members, k, n) {
                level
            } else {
                c.wiring.nodes[n].state
            },
    decreases members.len() - k,
{
    let r = c.settle_all(members, k, level);
    if k < members.len() {
        let next = c.settle_member(members[k], level);
        lemma_settle_member(c, members[k], level);
        lemma_settle_member_announced(c, members[k], level);
        lemma_settle_all(next, members, k + 1, level);
        lemma_settle_all_announced(next, members, k + 1, level);
        assert(r == next.settle_all(members, k + 1, level));
        lemma_announced_chain(c, next, r);
        assert forall|n: int| 0 <= n < c.wiring.nodes.len() implies (#[trigger] r.wiring.nodes[n]).state
            == if listed_from(members, k, n) {
            level
        } else {
            c.wiring.nodes[n].state
        } by {
            assert(next.wiring.nodes.len() == c.wiring.nodes.len());
            let later = listed_from(members, k + 1, n);
            if later {
                let j = choose|j: int| k + 1 <= j < members.len() && #[trigger] members[j] == n;
                assert(k <= j < members.len() && members[j] == n);
            }
            if members[k] == n {
                assert(k <= k < members.len() && members[k] == n);
            }
            if listed_from(members, k, n) && !later {
                let j = choose|j: int| k <= j < members.len() && #[trigger] members[j] == n;
                assert(j == k);
            }
            assert(next.wiring.nodes[n].state == if n == members[k] {
                level
            } else {
                c.wiring.nodes[n].state
            });
        }
    } else {
        assert forall|i: int| 0 <= i < c.pending.len() implies c.pending.contains(
            #[trigger] c.pending[i],
        ) by {}
    }
}

/// Faithful channel rows are a matter of the topology.
pub proof fn lemma_links_faithful_carries(w: Wiring, after: Wiring)
    requires
        w.wf(),
        w.links_faithful(),
        after.same_topology(w),
    ensures
        after.links_faithful(),
{
    assert forall|n: int, i: int|
        0 <= n < after.nodes.len() && 0 <= i < after.counts[n] implies {
        let t = (#[trigger] after.links[n]@[i]) as int;
        after.transistors[t].c1 == n || after.transistors[t].c2 == n
    } by {
        assert(w.counts[n] <= w.links[n]@.len());
        let t = w.links[n]@[i] as int;
        assert(t < w.transistors.len());
        assert(w.transistors[t].c1 == n || w.transistors[t].c2 == n);
        assert(after.transistors[t].c1 == w.transistors[t].c1);
    }
    assert forall|t: int|
        0 <= t < after.transistors.len() && !is_rail((#[trigger] after.transistors[t]).c1)
        implies after.row_lists(after.transistors[t].c1 as int, t) by {
        assert(after.transistors[t].c1 == w.transistors[t].c1);
        assert(w.row_lists(w.transistors[t].c1 as int, t));
        let n = w.transistors[t].c1 as int;
        let i = choose|i: int| 0 <= i < w.counts[n] && #[trigger] w.links[n]@[i] == t;
        assert(after.links[n]@[i] == t);
    }
    assert forall|t: int|
        0 <= t < after.transistors.len() && !is_rail((#[trigger] after.transistors[t]).c2)
        implies after.row_lists(after.transistors[t].c2 as int, t) by {
        assert(after.transistors[t].c2 == w.transistors[t].c2);
        assert(w.row_lists(w.transistors[t].c2 as int, t));
        let n = w.transistors[t].c2 as int;
        let i = choose|i: int| 0 <= i < w.counts[n] && #[trigger] w.links[n]@[i] == t;
        assert(after.links[n]@[i] == t);
    }
    assert forall|t: int|
        0 <= t < after.transistors.len() && is_rail((#[trigger] after.transistors[t]).c1)
        implies is_rail(after.transistors[t].c2) by {
        assert(after.transistors[t].c1 == w.transistors[t].c1);
        assert(is_rail(w.transistors[t].c2));
    }
}

/// Re-evaluating a wire takes it off the wires that wait: afterwards
/// every wire that does not sit at the level of its component has a wire
/// in its component that still waits.
pub proof fn lemma_recalc_covers(c: CircuitView, todo: Set<int>, node: u16)
    requires
        c.wf(),
        c.wiring.sound(),
        c.wiring.links_faithful(),
        node < c.wiring.nodes.len(),
        covered(c, todo.insert(node as int)),
    ensures
        covered(c.recalc_node(node), todo),
{
    let w = c.wiring;
    let r = c.recalc_node(node);
    let after = r.wiring;
    if is_rail(node) {
        assert forall|n: int| is_wire(w, n) implies #[trigger] consistent(w, n) || marked(
            c,
            todo,
            n,
        ) by {
            if !consistent(w, n) {
                assert(marked(c, todo.insert(node as int), n));
                let p = choose|p: int| #[trigger]
                    component(w, n).contains(p) && waiting(c, todo.insert(node as int), p);
                lemma_component_closed(w, n);
                assert(is_wire(w, p));
                assert(waiting(c, todo, p));
            }
        }
    } else {
        let a = node as int;
        let group = w.group_of(node);
        let level = w.level_of(group);
        let home = component(w, a);
        lemma_group_is_component(w, a);
        lemma_level_of_group(w, a);
        lemma_walk_fits(w, Group::empty(), node);
        lemma_settle_all(c, group.members, 0, level);
        lemma_settle_all_announced(c, group.members, 0, level);
        lemma_recalc_node(c, node);
        assert(r == c.settle_all(group.members, 0, level));
        lemma_links_faithful_carries(w, after);
        lemma_component_closed(w, a);
        assert forall|n: int| 0 <= n < w.nodes.len() implies (#[trigger] after.nodes[n]).state == (
        if home.contains(n) {
            level
        } else {
            w.nodes[n].state
        }) by {
            if listed_from(group.members, 0, n) {
                let j = choose|j: int| 0 <= j < group.members.len() && #[trigger] group.members[j]
                    == n;
                assert(member_set(group.members).contains(n));
            }
            if home.contains(n) {
                assert(member_set(group.members).contains(n));
                let j = choose|j: int| 0 <= j < group.members.len() && group.members[j] == n as u16;
                assert(0 <= j < group.members.len() && group.members[j] == n);
            }
        }
        assert forall|n: int| is_wire(after, n) implies #[trigger] consistent(after, n) || marked(
            r,
            todo,
            n,
        ) by {
            let now = component(after, n);
            lemma_component_closed(after, n);
            if switched_in(w, after, now) {
                let t = choose|t: int|
                    0 <= t < w.transistors.len() && (#[trigger] w.transistors[t]).on
                        != after.transistors[t].on && (now.contains(w.transistors[t].c1 as int)
                        || now.contains(w.transistors[t].c2 as int));
                let tr = w.transistors[t];
                assert(after.transistors[t].c1 == tr.c1 && after.transistors[t].c2 == tr.c2);
                if is_rail(tr.c1) {
                    assert(is_rail(tr.c2));
                    assert(is_wire(after, tr.c1 as int) || is_wire(after, tr.c2 as int));
                }
                if after.transistors[t].on {
                    if !now.contains(tr.c1 as int) {
                        assert(now.contains(tr.c2 as int));
                        assert((#[trigger] after.transistors[t]).on);
                    }
                    assert(now.contains(tr.c1 as int));
                    assert(r.pending.contains(tr.c1));
                    assert(waiting(r, todo, tr.c1 as int));
                } else {
                    if now.contains(tr.c1 as int) {
                        assert(r.pending.contains(tr.c1));
                        assert(waiting(r, todo, tr.c1 as int));
                    } else {
                        assert(is_wire(after, tr.c2 as int));
                        assert(r.pending.contains(tr.c2));
                        assert(waiting(r, todo, tr.c2 as int));
                    }
                }
                assert(marked(r, todo, n));
            } else {
                lemma_component_carries(w, after, n);
                assert(component(w, n) == now);
                lemma_component_closed(w, n);
                if home.contains(n) {
                    lemma_same_component(w, a, n);
                    assert(now == home);
                    assert forall|m: int| 0 <= m < w.nodes.len() && now.contains(m) implies (
                    #[trigger] after.nodes[m]).state == level_in(w, now) && after.nodes[m].area
                        == w.nodes[m].area && after.nodes[m].pullup == w.nodes[m].pullup
                        && after.nodes[m].pulldown == w.nodes[m].pulldown by {}
                    lemma_level_stable(w, after, now);
                    assert(consistent(after, n));
                } else {
                    assert forall|m: int| 0 <= m < w.nodes.len() && now.contains(m) implies (
                    #[trigger] after.nodes[m]).state == w.nodes[m].state && after.nodes[m].area
                        == w.nodes[m].area && after.nodes[m].pullup == w.nodes[m].pullup
                        && after.nodes[m].pulldown == w.nodes[m].pulldown by {
                        if home.contains(m) {
                            lemma_joined_symmetric(w, n, m);
                            lemma_joined_symmetric(w, a, m);
                            assert forall|s: Set<int>| #[trigger] closed(w, s) && s.contains(
                                a,
                            ) implies s.contains(n) by {
                                assert(s.contains(m));
                            }
                            assert(joined(w, a, n));
                        }
                    }
                    lemma_level_carries(w, after, now);
                    if !consistent(w, n) {
                        assert(marked(c, todo.insert(a), n));
                        let p = choose|p: int| #[trigger]
                            component(w, n).contains(p) && waiting(c, todo.insert(a), p);
                        if p == a {
                            lemma_joined_symmetric(w, n, a);
                            assert(joined(w, a, n));
                        }
                        if !todo.contains(p) {
                            assert(c.pending.contains(p as u16));
                            let k = choose|k: int| 0 <= k < c.pending.len() && c.pending[k]
                                == p as u16;
                            assert(r.pending.contains(c.pending[k]));
                        }
                        assert(waiting(r, todo, p));
                        assert(marked(r, todo, n));
                    }
                }
            }
        }
    }
}

/// The wires `current[i..]` as a set.
pub open spec fn tail_set(current: Seq<u16>, i: int) -> Set<int> {
    Set::new(|p: int| exists|k: int| i <= k < current.len() && #[trigger] current[k] == p)
}

/// After a pass every wire that does not sit at the level of its
/// component has a queued wire in its component.
pub proof fn lemma_pass_covers(c: CircuitView, current: Seq<u16>, i: int)
    requires
        c.wf(),
        c.wiring.sound(),
        c.wiring.links_faithful(),
        0 <= i <= current.len(),
        forall|k: int| 0 <= k < current.len() ==> (#[trigger] current[k]) < c.wiring.nodes.len(),
        covered(c, tail_set(current, i)),
    ensures
        covered(c.pass(current, i), Set::empty()),
    decreases current.len() - i,
{
    if i < current.len() {
        let next = c.recalc_node(current[i]);
        assert(tail_set(current, i) =~= tail_set(current, i + 1).insert(current[i] as int)) by {
            assert forall|p: int| tail_set(current, i).contains(p) == tail_set(
                current,
                i + 1,
            ).insert(current[i] as int).contains(p) by {
                if tail_set(current, i).contains(p) {
                    let k = choose|k: int| i <= k < current.len() && #[trigger] current[k] == p;
                    if k > i {
                        assert(i + 1 <= k < current.len() && current[k] == p);
                    }
                }
                if tail_set(current, i + 1).contains(p) {
                    let k = choose|k: int| i + 1 <= k < current.len() && #[trigger] current[k] == p;
                    assert(i <= k < current.len() && current[k] == p);
                }
                if p == current[i] {
                    assert(i <= i < current.len() && current[i] == p);
                }
            }
        }
        lemma_recalc_covers(c, tail_set(current, i + 1), current[i]);
        lemma_recalc_node(c, current[i]);
        lemma_links_faithful_carries(c.wiring, next.wiring);
        lemma_pass_covers(next, current, i + 1);
    } else {
        assert(tail_set(current, i) =~= Set::<int>::empty());
    }
}

/// The passes from `round` on end at a fixed point, unless the network
/// diverges.
pub proof fn lemma_relax_rounds_settles(c: CircuitView, current: Seq<u16>, round: int)
    requires
        c.idle(),
        !c.diverged,
        c.wiring.sound(),
        c.wiring.links_faithful(),
        0 <= round,
        forall|k: int| 0 <= k < current.len() ==> (#[trigger] current[k]) < c.wiring.nodes.len(),
        covered(c, tail_set(current, 0)),
    ensures
        c.relax_rounds(current, round).diverged || settled(c.relax_rounds(current, round).wiring),
    decreases MAX_PASSES - round,
{
    if round < MAX_PASSES {
        let after = c.pass(current, 0);
        lemma_pass(c, current, 0);
        lemma_pass_covers(c, current, 0);
        lemma_links_faithful_carries(c.wiring, after.wiring);
        if after.pending.len() == 0 {
            assert forall|n: int| is_wire(after.wiring, n) implies #[trigger] consistent(
                after.wiring,
                n,
            ) by {
                if marked(after, Set::empty(), n) {
                    let p = choose|p: int| #[trigger]
                        component(after.wiring, n).contains(p) && waiting(after, Set::empty(), p);
                    assert(after.pending.contains(p as u16));
                }
            }
        } else {
            let drained = after.drained();
            assert(covered(drained, tail_set(after.pending, 0))) by {
                assert forall|n: int| is_wire(drained.wiring, n) implies #[trigger] consistent(
                    drained.wiring,
                    n,
                ) || marked(drained, tail_set(after.pending, 0), n) by {
                    if !consistent(after.wiring, n) {
                        assert(marked(after, Set::empty(), n));
                        let p = choose|p: int| #[trigger]
                            component(after.wiring, n).contains(p) && waiting(
                                after,
                                Set::empty(),
                                p,
                            );
                        assert(after.pending.contains(p as u16));
                        let k = choose|k: int| 0 <= k < after.pending.len() && after.pending[k]
                            == p as u16;
                        assert(0 <= k < after.pending.len() && after.pending[k] == p);
                        assert(tail_set(after.pending, 0).contains(p));
                        assert(waiting(drained, tail_set(after.pending, 0), p));
                    }
                }
            }
            lemma_relax_rounds_settles(drained, after.pending, round + 1);
        }
    }
}

/// The fixed point: if every wire that does not sit at the level of its
/// component has a seed in its component, then relaxation from the seeds
/// ends with every wire at the level of its component, unless the
/// network diverges.
pub proof fn lemma_relax_settles(c: CircuitView, seeds: Seq<u16>)
    requires
        c.idle(),
        c.wiring.sound(),
        c.wiring.links_faithful(),
        forall|k: int| 0 <= k < seeds.len() ==> (#[trigger] seeds[k]) < c.wiring.nodes.len(),
        covered(c, tail_set(seeds, 0)),
    ensures
        c.relax(seeds).diverged || settled(c.relax(seeds).wiring),
{
    if !c.diverged {
        lemma_relax_rounds_settles(c, seeds, 0);
    }
}

/// After the pulls of some wires of a settled network have changed,
/// every wire that does not sit at the level of its component has one of
/// those wires in its component.
pub proof fn lemma_repull_covers(c: CircuitView, after: Wiring, todo: Set<int>)
    requires
        c.wiring.wf(),
        after.wf(),
        after.same_topology(c.wiring),
        after.transistors == c.wiring.transistors,
        forall|n: int|
            0 <= n < after.nodes.len() ==> (#[trigger] after.nodes[n]).state
                == c.wiring.nodes[n].state,
        forall|n: int|
            0 <= n < after.nodes.len() && !todo.contains(n) ==> (#[trigger] after.nodes[n]).pullup
                == c.wiring.nodes[n].pullup && after.nodes[n].pulldown
                == c.wiring.nodes[n].pulldown,
        settled(c.wiring),
    ensures
        covered(c.over(after), todo),
{
    let w = c.wiring;
    let r = c.over(after);
    assert forall|n: int| is_wire(after, n) implies #[trigger] consistent(after, n) || marked(
        r,
        todo,
        n,
    ) by {
        let now = component(after, n);
        assert(!switched_in(w, after, now));
        lemma_component_carries(w, after, n);
        lemma_component_closed(w, n);
        assert(r.wiring == after);
        if exists|p: int| #[trigger] now.contains(p) && todo.contains(p) {
            let p = choose|p: int| #[trigger] now.contains(p) && todo.contains(p);
            assert(component(r.wiring, n).contains(p) && waiting(r, todo, p));
            assert(marked(r, todo, n));
        } else {
            assert forall|m: int| 0 <= m < w.nodes.len() && now.contains(m) implies (
            #[trigger] after.nodes[m]).state == w.nodes[m].state && after.nodes[m].area
                == w.nodes[m].area && after.nodes[m].pullup == w.nodes[m].pullup
                && after.nodes[m].pulldown == w.nodes[m].pulldown by {
                assert(!todo.contains(m));
            }
            assert(component(w, n) == now);
            lemma_level_carries(w, after, now);
            assert(is_wire(w, n));
            assert(consistent(w, n));
            assert(after.nodes[n].state == w.nodes[n].state);
            assert(consistent(after, n));
        }
    }
}

/// Driving wires changes the pulls of the wires driven and nothing else.
pub proof fn lemma_driven_shape(w: Wiring, nodes: Seq<u16>, value: nat, i: int)
    requires
        w.wf(),
        0 <= i <= nodes.len(),
        forall|k: int| 0 <= k < nodes.len() ==> (#[trigger] nodes[k]) < w.nodes.len(),
    ensures
        ({
            let after = w.driven(nodes, value, i);
            &&& after.wf()
            &&& after.same_topology(w)
            &&& after.transistors == w.transistors
            &&& forall|n: int|
                0 <= n < after.nodes.len() ==> (#[trigger] after.nodes[n]).state
                    == w.nodes[n].state
            &&& forall|n: int|
                0 <= n < after.nodes.len() && !tail_set(nodes, i).contains(n) ==> (
                #[trigger] after.nodes[n]).pullup == w.nodes[n].pullup && after.nodes[n].pulldown
                    == w.nodes[n].pulldown
        }),
    decreases nodes.len() - i,
{
    if i < nodes.len() {
        let next = w.with_pulls(nodes[i] as int, value % 2 == 1, value % 2 == 0);
        crate::circuit::lemma_with_pulls_wf(w, nodes[i] as int, value % 2 == 1, value % 2 == 0);
        lemma_driven_shape(next, nodes, value / 2, i + 1);
        let after = w.driven(nodes, value, i);
        assert(after == next.driven(nodes, value / 2, i + 1));
        assert(next.same_topology(w));
        crate::laws::lemma_topology_chain(w, next, after);
        assert forall|n: int|
            0 <= n < after.nodes.len() && !tail_set(nodes, i).contains(n) implies (
        #[trigger] after.nodes[n]).pullup == w.nodes[n].pullup && after.nodes[n].pulldown
            == w.nodes[n].pulldown by {
            if tail_set(nodes, i + 1).contains(n) {
                let k = choose|k: int| i + 1 <= k < nodes.len() && #[trigger] nodes[k] == n;
                assert(i <= k < nodes.len() && nodes[k] == n);
            }
            if n == nodes[i] {
                assert(i <= i < nodes.len() && nodes[i] == n);
            }
        }
    } else {
        assert(w.same_topology(w));
    }
}

/// Letting wires float changes the pulls of those wires and nothing else.
pub proof fn lemma_released_shape(w: Wiring, nodes: Seq<u16>, i: int)
    requires
        w.wf(),
        0 <= i <= nodes.len(),
        forall|k: int| 0 <= k < nodes.len() ==> (#[trigger] nodes[k]) < w.nodes.len(),
    ensures
        ({
            let after = w.released(nodes, i);
            &&& after.wf()
            &&& after.same_topology(w)
            &&& after.transistors == w.transistors
            &&& forall|n: int|
                0 <= n < after.nodes.len() ==> (#[trigger] after.nodes[n]).state
                    == w.nodes[n].state
            &&& forall|n: int|
                0 <= n < after.nodes.len() && !tail_set(nodes, i).contains(n) ==> (
                #[trigger] after.nodes[n]).pullup == w.nodes[n].pullup && after.nodes[n].pulldown
                    == w.nodes[n].pulldown
        }),
    decreases nodes.len() - i,
{
    if i < nodes.len() {
        let next = w.with_pulls(nodes[i] as int, false, false);
        crate::circuit::lemma_with_pulls_wf(w, nodes[i] as int, false, false);
        lemma_released_shape(next, nodes, i + 1);
        let after = w.released(nodes, i);
        assert(after == next.released(nodes, i + 1));
        assert(next.same_topology(w));
        crate::laws::lemma_topology_chain(w, next, after);
        assert forall|n: int|
            0 <= n < after.nodes.len() && !tail_set(nodes, i).contains(n) implies (
        #[trigger] after.nodes[n]).pullup == w.nodes[n].pullup && after.nodes[n].pulldown
            == w.nodes[n].pulldown by {
            if tail_set(nodes, i + 1).contains(n) {
                let k = choose|k: int| i + 1 <= k < nodes.len() && #[trigger] nodes[k] == n;
                assert(i <= k < nodes.len() && nodes[k] == n);
            }
            if n == nodes[i] {
                assert(i <= i < nodes.len() && nodes[i] == n);
            }
        }
    } else {
        assert(w.same_topology(w));
    }
}

/// Driving wires of a network at its fixed point, and relaxing from
/// them, ends at a fixed point again, unless the network diverges.
pub proof fn lemma_write_bits_settles(c: CircuitView, nodes: Seq<u16>, value: nat)
    requires
        c.idle(),
        c.wiring.sound(),
        c.wiring.links_faithful(),
        settled(c.wiring),
        forall|k: int| 0 <= k < nodes.len() ==> (#[trigger] nodes[k]) < c.wiring.nodes.len(),
    ensures
        c.write_bits(nodes, value).diverged || settled(c.write_bits(nodes, value).wiring),
{
    if !c.diverged {
        let after = c.wiring.driven(nodes, value, 0);
        lemma_driven_shape(c.wiring, nodes, value, 0);
        crate::laws::lemma_driven_sound(c.wiring, nodes, value, 0);
        lemma_repull_covers(c, after, tail_set(nodes, 0));
        lemma_links_faithful_carries(c.wiring, after);
        lemma_relax_settles(c.over(after), nodes);
    }
}

/// Letting wires of a network at its fixed point float, and relaxing
/// from them, ends at a fixed point again, unless the network diverges.
pub proof fn lemma_float_bits_settles(c: CircuitView, nodes: Seq<u16>)
    requires
        c.idle(),
        c.wiring.sound(),
        c.wiring.links_faithful(),
        settled(c.wiring),
        forall|k: int| 0 <= k < nodes.len() ==> (#[trigger] nodes[k]) < c.wiring.nodes.len(),
    ensures
        c.float_bits(nodes).diverged || settled(c.float_bits(nodes).wiring),
{
    if !c.diverged {
        let after = c.wiring.released(nodes, 0);
        lemma_released_shape(c.wiring, nodes, 0);
        crate::laws::lemma_released_sound(c.wiring, nodes, 0);
        lemma_repull_covers(c, after, tail_set(nodes, 0));
        lemma_links_faithful_carries(c.wiring, after);
        lemma_relax_settles(c.over(after), nodes);
    }
}

/// Changing the pulls of one wire of a network at its fixed point, and
/// relaxing from it, ends at a fixed point again, unless the network
/// diverges.
pub proof fn lemma_pull_settles(c: CircuitView, node: u16, up: bool, down: bool)
    requires
        c.idle(),
        !c.diverged,
        c.wiring.sound(),
        c.wiring.links_faithful(),
        settled(c.wiring),
        node < c.wiring.nodes.len(),
    ensures
        c.over(c.wiring.with_pulls(node as int, up, down)).relax(seq![node]).diverged || settled(
            c.over(c.wiring.with_pulls(node as int, up, down)).relax(seq![node]).wiring,
        ),
{
    let after = c.wiring.with_pulls(node as int, up, down);
    let seeds = seq![node];
    assert(seeds[0] == node);
    crate::laws::lemma_with_pulls_sound(c.wiring, node as int, up, down);
    assert(tail_set(seeds, 0).contains(node as int)) by {
        assert(0 <= 0 < seeds.len() && seeds[0] == node as int);
    }
    lemma_repull_covers(c, after, tail_set(seeds, 0));
    lemma_links_faithful_carries(c.wiring, after);
    lemma_relax_settles(c.over(after), seeds);
}

/// Pulling up a wire of a network at its fixed point ends at a fixed
/// point again, unless the network diverges.
pub proof fn lemma_set_high_settles(c: CircuitView, node: u16)
    requires
        c.idle(),
        c.wiring.sound(),
        c.wiring.links_faithful(),
        settled(c.wiring),
        node < c.wiring.nodes.len(),
    ensures
        c.set_high(node).diverged || settled(c.set_high(node).wiring),
{
    if !c.diverged {
        lemma_pull_settles(c, node, true, false);
    }
}

/// Pulling down a wire of a network at its fixed point ends at a fixed
/// point again, unless the network diverges.
pub proof fn lemma_set_low_settles(c: CircuitView, node: u16)
    requires
        c.idle(),
        c.wiring.sound(),
        c.wiring.links_faithful(),
        settled(c.wiring),
        node < c.wiring.nodes.len(),
    ensures
        c.set_low(node).diverged || settled(c.set_low(node).wiring),
{
    if !c.diverged {
        lemma_pull_settles(c, node, false, true);
    }
}

/// Relaxing from every wire ends at a fixed point, whatever the levels
/// were, unless the network diverges.
pub proof fn lemma_relax_all_settles(c: CircuitView, seeds: Seq<u16>)
    requires
        c.idle(),
        c.wiring.sound(),
        c.wiring.links_faithful(),
        forall|k: int| 0 <= k < seeds.len() ==> (#[trigger] seeds[k]) < c.wiring.nodes.len(),
        forall|n: int| is_wire(c.wiring, n) ==> seeds.contains(n as u16),
    ensures
        c.relax(seeds).diverged || settled(c.relax(seeds).wiring),
{
    assert forall|n: int| is_wire(c.wiring, n) implies #[trigger] consistent(c.wiring, n) || marked(
        c,
        tail_set(seeds, 0),
        n,
    ) by {
        lemma_component_closed(c.wiring, n);
        assert(seeds.contains(n as u16));
        let k = choose|k: int| 0 <= k < seeds.len() && seeds[k] == n as u16;
        assert(0 <= k < seeds.len() && seeds[k] == n);
        assert(tail_set(seeds, 0).contains(n));
        assert(component(c.wiring, n).contains(n) && waiting(c, tail_set(seeds, 0), n));
    }
    lemma_relax_settles(c, seeds);
}

/// A wire of a network at its fixed point sits at the level that the
/// walk from it finds for its group: relaxing from it changes nothing.
pub proof fn lemma_settled_is_idle(c: CircuitView, node: u16)
    requires
        c.wiring.wf(),
        c.wiring.links_faithful(),
        c.pending.len() == 0,
        settled(c.wiring),
        node < c.wiring.nodes.len(),
    ensures
        c.relax(seq![node]) == c,
        is_rail(node) || crate::laws::settled_at(c.wiring, node),
{
    let w = c.wiring;
    if !is_rail(node) {
        let group = w.group_of(node);
        lemma_group_is_component(w, node as int);
        lemma_level_of_group(w, node as int);
        assert forall|k: int| 0 <= k < group.members.len() implies w.nodes[(
        #[trigger] group.members[k]) as int].state == w.level_of(group) by {
            let m = group.members[k] as int;
            assert(member_set(group.members).contains(m));
            assert(joined(w, node as int, m));
            lemma_same_component(w, node as int, m);
            assert(consistent(w, m));
        }
    }
    crate::laws::lemma_relax_settled(c, node);
}

/// Idempotence: pulling a wire up twice is pulling it up once. After the
/// first time the network is at its fixed point or has diverged, and the
/// second time changes nothing.
pub proof fn lemma_set_high_twice(c: CircuitView, node: u16)
    requires
        c.idle(),
        c.wiring.sound(),
        c.wiring.links_faithful(),
        settled(c.wiring),
        node < c.wiring.nodes.len(),
    ensures
        c.set_high(node).set_high(node) == c.set_high(node),
{
    let once = c.set_high(node);
    if !c.diverged {
        lemma_set_high_settles(c, node);
        crate::laws::lemma_set_high_keeps_sound(c, node);
        if !once.diverged {
            let pulled = c.over(c.wiring.with_pulls(node as int, true, false));
            crate::laws::lemma_with_pulls_sound(c.wiring, node as int, true, false);
            crate::laws::lemma_relax_keeps_sound(pulled, seq![node]);
            assert(once == pulled.relax(seq![node]));
            assert(once.wiring.nodes[node as int].pullup);
            assert(!once.wiring.nodes[node as int].pulldown);
            lemma_links_faithful_carries(c.wiring, once.wiring);
            lemma_settled_is_idle(once, node);
            crate::laws::lemma_set_high_idempotent(once, node);
        }
    }
}

} // verus!
