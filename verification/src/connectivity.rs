use vstd::prelude::*;
use crate::consts::{NODE_GND, NODE_PWR};
use crate::wiring::{is_rail, is_weak_drive, Wiring};

verus! {

/// Whether `node` is a wire of the network and no rail.
pub open spec fn is_wire(w: Wiring, node: int) -> bool {
    0 <= node < w.nodes.len() && node != NODE_GND && node != NODE_PWR
}

impl Wiring {
    /// Every channel row holds exactly the transistors with a channel end
    /// on its wire, and a transistor whose first channel end is a rail has
    /// a rail for its second.
    pub open spec fn links_faithful(self) -> bool {
        &&& forall|n: int, i: int|
            0 <= n < self.nodes.len() && 0 <= i < self.counts[n] ==> {
                let t = (#[trigger] self.links[n]@[i]) as int;
                self.transistors[t].c1 == n || self.transistors[t].c2 == n
            }
        &&& forall|t: int|
            0 <= t < self.transistors.len() && !is_rail((#[trigger] self.transistors[t]).c1)
                ==> self.row_lists(self.transistors[t].c1 as int, t)
        &&& forall|t: int|
            0 <= t < self.transistors.len() && !is_rail((#[trigger] self.transistors[t]).c2)
                ==> self.row_lists(self.transistors[t].c2 as int, t)
        &&& forall|t: int|
            0 <= t < self.transistors.len() && is_rail((#[trigger] self.transistors[t]).c1)
                ==> is_rail(self.transistors[t].c2)
    }

    /// Whether the channel row of wire `n` lists transistor `t`.
    pub open spec fn row_lists(self, n: int, t: int) -> bool {
        exists|i: int| 0 <= i < self.counts[n] && #[trigger] self.links[n]@[i] == t
    }
}

/// Whether a set of wires holds, with each wire, every wire that a
/// conducting transistor joins to it.
pub open spec fn closed(w: Wiring, s: Set<int>) -> bool {
    &&& forall|n: int| s.contains(n) ==> is_wire(w, n)
    &&& forall|t: int|
        0 <= t < w.transistors.len() && (#[trigger] w.transistors[t]).on ==> {
            &&& s.contains(w.transistors[t].c1 as int) && !is_rail(w.transistors[t].c2)
                ==> s.contains(w.transistors[t].c2 as int)
            &&& s.contains(w.transistors[t].c2 as int) && !is_rail(w.transistors[t].c1)
                ==> s.contains(w.transistors[t].c1 as int)
        }
}

/// Whether conducting transistors join wire `b` to wire `a`: every closed
/// set that holds `a` holds `b`.
pub open spec fn joined(w: Wiring, a: int, b: int) -> bool {
    forall|s: Set<int>| #[trigger] closed(w, s) && s.contains(a) ==> s.contains(b)
}

/// The wires that conducting transistors join to wire `n`.
pub open spec fn component(w: Wiring, n: int) -> Set<int> {
    Set::new(|m: int| joined(w, n, m))
}

/// Whether a conducting transistor joins a wire of the set to `rail`.
pub open spec fn touches(w: Wiring, s: Set<int>, rail: u16) -> bool {
    exists|t: int|
        0 <= t < w.transistors.len() && (#[trigger] w.transistors[t]).on && ((s.contains(
            w.transistors[t].c1 as int,
        ) && w.transistors[t].c2 == rail) || (s.contains(w.transistors[t].c2 as int)
            && w.transistors[t].c1 == rail))
}

/// The area of the wires of the set, numbered below `upto`, that sit at
/// `level`.
pub open spec fn area_in(w: Wiring, s: Set<int>, level: bool, upto: int) -> nat
    decreases upto,
{
    if upto <= 0 {
        0
    } else {
        area_in(w, s, level, upto - 1) + if s.contains(upto - 1) && w.nodes[upto - 1].state
            == level {
            w.nodes[upto - 1].area as nat
        } else {
            0
        }
    }
}

/// Some wire of the set is a weak-drive wire.
pub open spec fn weak_in(s: Set<int>) -> bool {
    exists|n: int| 0 <= n < 65536 && #[trigger] s.contains(n) && is_weak_drive(n as u16)
}

/// Some wire of the set is pulled up.
pub open spec fn pullup_in(w: Wiring, s: Set<int>) -> bool {
    exists|n: int| #[trigger] s.contains(n) && w.nodes[n].pullup
}

/// Some wire of the set is pulled down.
pub open spec fn pulldown_in(w: Wiring, s: Set<int>) -> bool {
    exists|n: int| #[trigger] s.contains(n) && w.nodes[n].pulldown
}

/// The level that a set of joined wires takes: ground wins, then power,
/// unless both touch it and a weak-drive wire waives the conflict; then
/// any pull-up, then any pull-down, then the larger charge, low on a tie.
pub open spec fn level_in(w: Wiring, s: Set<int>) -> bool {
    let ground = touches(w, s, NODE_GND);
    let power = touches(w, s, NODE_PWR);
    let waived = ground && power && weak_in(s);
    if ground && !waived {
        false
    } else if power && !waived {
        true
    } else if pullup_in(w, s) {
        true
    } else if pulldown_in(w, s) {
        false
    } else {
        area_in(w, s, true, w.nodes.len() as int) > area_in(w, s, false, w.nodes.len() as int)
    }
}

/// Whether wire `n` sits at the level that its component takes.
pub open spec fn consistent(w: Wiring, n: int) -> bool {
    w.nodes[n].state == level_in(w, component(w, n))
}

/// Whether every wire that is no rail sits at the level that its
/// component takes: the network is at a fixed point.
pub open spec fn settled(w: Wiring) -> bool {
    forall|n: int| is_wire(w, n) ==> #[trigger] consistent(w, n)
}

/// The set of all wires that are no rails.
pub open spec fn all_wires(w: Wiring) -> Set<int> {
    Set::new(|n: int| is_wire(w, n))
}

/// All wires together are closed.
pub proof fn lemma_all_wires_closed(w: Wiring)
    requires
        w.wf(),
    ensures
        closed(w, all_wires(w)),
{
    assert forall|t: int| 0 <= t < w.transistors.len() && (#[trigger] w.transistors[t]).on implies {
        &&& all_wires(w).contains(w.transistors[t].c1 as int) && !is_rail(w.transistors[t].c2)
            ==> all_wires(w).contains(w.transistors[t].c2 as int)
        &&& all_wires(w).contains(w.transistors[t].c2 as int) && !is_rail(w.transistors[t].c1)
            ==> all_wires(w).contains(w.transistors[t].c1 as int)
    } by {
        assert(w.transistors[t].c1 < w.nodes.len());
    }
}

/// A component is closed, holds its wire, and holds wires only.
pub proof fn lemma_component_closed(w: Wiring, n: int)
    requires
        w.wf(),
        is_wire(w, n),
    ensures
        closed(w, component(w, n)),
        component(w, n).contains(n),
{
    let c = component(w, n);
    lemma_all_wires_closed(w);
    assert forall|m: int| c.contains(m) implies is_wire(w, m) by {
        assert(joined(w, n, m));
        assert(closed(w, all_wires(w)) && all_wires(w).contains(n));
        assert(all_wires(w).contains(m));
    }
    assert forall|t: int| 0 <= t < w.transistors.len() && (#[trigger] w.transistors[t]).on implies {
        &&& c.contains(w.transistors[t].c1 as int) && !is_rail(w.transistors[t].c2) ==> c.contains(
            w.transistors[t].c2 as int,
        )
        &&& c.contains(w.transistors[t].c2 as int) && !is_rail(w.transistors[t].c1) ==> c.contains(
            w.transistors[t].c1 as int,
        )
    } by {
        let c1 = w.transistors[t].c1 as int;
        let c2 = w.transistors[t].c2 as int;
        if c.contains(c1) && !is_rail(w.transistors[t].c2) {
            assert forall|s: Set<int>| #[trigger] closed(w, s) && s.contains(n) implies s.contains(
                c2,
            ) by {
                assert(joined(w, n, c1));
                assert(s.contains(c1));
                assert(w.transistors[t].on);
            }
            assert(joined(w, n, c2));
        }
        if c.contains(c2) && !is_rail(w.transistors[t].c1) {
            assert forall|s: Set<int>| #[trigger] closed(w, s) && s.contains(n) implies s.contains(
                c1,
            ) by {
                assert(joined(w, n, c2));
                assert(s.contains(c2));
                assert(w.transistors[t].on);
            }
            assert(joined(w, n, c1));
        }
    }
}

/// Being joined goes both ways.
pub proof fn lemma_joined_symmetric(w: Wiring, a: int, b: int)
    requires
        w.wf(),
        is_wire(w, a),
        joined(w, a, b),
    ensures
        joined(w, b, a),
{
    let ca = component(w, a);
    lemma_component_closed(w, a);
    assert forall|s: Set<int>| #[trigger] closed(w, s) && s.contains(b) implies s.contains(a) by {
        if !s.contains(a) {
            let rest = ca.difference(s);
            assert(rest.contains(a));
            assert forall|t: int|
                0 <= t < w.transistors.len() && (#[trigger] w.transistors[t]).on implies {
                &&& rest.contains(w.transistors[t].c1 as int) && !is_rail(w.transistors[t].c2)
                    ==> rest.contains(w.transistors[t].c2 as int)
                &&& rest.contains(w.transistors[t].c2 as int) && !is_rail(w.transistors[t].c1)
                    ==> rest.contains(w.transistors[t].c1 as int)
            } by {
                let c1 = w.transistors[t].c1 as int;
                let c2 = w.transistors[t].c2 as int;
                if rest.contains(c1) && !is_rail(w.transistors[t].c2) {
                    assert(ca.contains(c2));
                    assert(is_wire(w, c1));
                    if s.contains(c2) {
                        assert(s.contains(c1));
                    }
                }
                if rest.contains(c2) && !is_rail(w.transistors[t].c1) {
                    assert(ca.contains(c1));
                    assert(is_wire(w, c2));
                    if s.contains(c1) {
                        assert(s.contains(c2));
                    }
                }
            }
            assert(closed(w, rest));
            assert(rest.contains(b));
        }
    }
}

/// Wires that are joined have one component.
pub proof fn lemma_same_component(w: Wiring, a: int, b: int)
    requires
        w.wf(),
        is_wire(w, a),
        joined(w, a, b),
    ensures
        component(w, a) == component(w, b),
        is_wire(w, b),
{
    lemma_component_closed(w, a);
    assert(component(w, a).contains(b));
    lemma_joined_symmetric(w, a, b);
    assert forall|m: int| component(w, a).contains(m) == component(w, b).contains(m) by {
        if joined(w, a, m) {
            assert forall|s: Set<int>| #[trigger] closed(w, s) && s.contains(b) implies s.contains(
                m,
            ) by {
                assert(s.contains(a));
            }
        }
        if joined(w, b, m) {
            assert forall|s: Set<int>| #[trigger] closed(w, s) && s.contains(a) implies s.contains(
                m,
            ) by {
                assert(s.contains(b));
            }
        }
    }
    assert(component(w, a) =~= component(w, b));
}

/// Whether a transistor that conducts in one of the two networks and not
/// in the other has a channel end in the set.
pub open spec fn switched_in(w: Wiring, after: Wiring, s: Set<int>) -> bool {
    exists|t: int|
        0 <= t < w.transistors.len() && (#[trigger] w.transistors[t]).on != after.transistors[t].on
            && (s.contains(w.transistors[t].c1 as int) || s.contains(w.transistors[t].c2 as int))
}

/// A set that is closed in one network is closed in another of the same
/// topology, if no transistor with an end in it has switched.
pub proof fn lemma_closed_carries(w: Wiring, after: Wiring, s: Set<int>)
    requires
        after.same_topology(w),
        closed(w, s),
        !switched_in(w, after, s),
    ensures
        closed(after, s),
{
    assert forall|t: int|
        0 <= t < after.transistors.len() && (#[trigger] after.transistors[t]).on implies {
        &&& s.contains(after.transistors[t].c1 as int) && !is_rail(after.transistors[t].c2)
            ==> s.contains(after.transistors[t].c2 as int)
        &&& s.contains(after.transistors[t].c2 as int) && !is_rail(after.transistors[t].c1)
            ==> s.contains(after.transistors[t].c1 as int)
    } by {
        assert(after.transistors[t].c1 == w.transistors[t].c1);
        assert(after.transistors[t].c2 == w.transistors[t].c2);
        if s.contains(w.transistors[t].c1 as int) || s.contains(w.transistors[t].c2 as int) {
            assert(w.transistors[t].on == after.transistors[t].on);
        }
    }
}

/// A component in which no transistor has switched is the component that
/// its wires had before, and touches the rails that it touched before.
pub proof fn lemma_component_carries(w: Wiring, after: Wiring, n: int)
    requires
        w.wf(),
        after.wf(),
        after.same_topology(w),
        is_wire(w, n),
        !switched_in(w, after, component(after, n)),
    ensures
        component(w, n) == component(after, n),
        touches(w, component(w, n), NODE_GND) == touches(after, component(after, n), NODE_GND),
        touches(w, component(w, n), NODE_PWR) == touches(after, component(after, n), NODE_PWR),
{
    let now = component(after, n);
    let was = component(w, n);
    lemma_component_closed(after, n);
    lemma_component_closed(w, n);
    lemma_topology_symmetric(w, after);
    assert(!switched_in(after, w, now)) by {
        if switched_in(after, w, now) {
            let t = choose|t: int|
                0 <= t < after.transistors.len() && (#[trigger] after.transistors[t]).on
                    != w.transistors[t].on && (now.contains(after.transistors[t].c1 as int)
                    || now.contains(after.transistors[t].c2 as int));
            assert(w.transistors[t].on != after.transistors[t].on);
            assert(w.transistors[t].c1 == after.transistors[t].c1);
        }
    }
    lemma_closed_carries(after, w, now);
    assert forall|m: int| was.contains(m) implies now.contains(m) by {
        assert(joined(w, n, m));
        assert(closed(w, now) && now.contains(n));
    }
    assert(!switched_in(w, after, was)) by {
        if switched_in(w, after, was) {
            let t = choose|t: int|
                0 <= t < w.transistors.len() && (#[trigger] w.transistors[t]).on
                    != after.transistors[t].on && (was.contains(w.transistors[t].c1 as int)
                    || was.contains(w.transistors[t].c2 as int));
            assert(now.contains(w.transistors[t].c1 as int) || now.contains(
                w.transistors[t].c2 as int,
            ));
        }
    }
    lemma_closed_carries(w, after, was);
    assert forall|m: int| now.contains(m) implies was.contains(m) by {
        assert(joined(after, n, m));
        assert(closed(after, was) && was.contains(n));
    }
    assert(was =~= now);
    lemma_touches_carries(w, after, now, NODE_GND);
    lemma_touches_carries(w, after, now, NODE_PWR);
}

/// `same_topology` goes both ways.
pub proof fn lemma_topology_symmetric(a: Wiring, b: Wiring)
    requires
        b.same_topology(a),
    ensures
        a.same_topology(b),
{
    assert forall|n: int| 0 <= n < a.nodes.len() implies (#[trigger] a.nodes[n]).gates
        == b.nodes[n].gates && a.nodes[n].area == b.nodes[n].area by {
        assert(b.nodes[n].gates == a.nodes[n].gates);
    }
    assert forall|t: int| 0 <= t < a.transistors.len() implies (#[trigger] a.transistors[t]).gate
        == b.transistors[t].gate && a.transistors[t].c1 == b.transistors[t].c1
        && a.transistors[t].c2 == b.transistors[t].c2 by {
        assert(b.transistors[t].gate == a.transistors[t].gate);
    }
}

/// A set in which no transistor has switched touches the rails that it
/// touched before.
pub proof fn lemma_touches_carries(w: Wiring, after: Wiring, s: Set<int>, rail: u16)
    requires
        after.same_topology(w),
        !switched_in(w, after, s),
    ensures
        touches(w, s, rail) == touches(after, s, rail),
{
    if touches(w, s, rail) {
        let t = choose|t: int|
            0 <= t < w.transistors.len() && (#[trigger] w.transistors[t]).on && ((s.contains(
                w.transistors[t].c1 as int,
            ) && w.transistors[t].c2 == rail) || (s.contains(w.transistors[t].c2 as int)
                && w.transistors[t].c1 == rail));
        assert(after.transistors[t].c1 == w.transistors[t].c1);
        assert(after.transistors[t].on == w.transistors[t].on);
        assert(after.transistors[t].on && ((s.contains(after.transistors[t].c1 as int)
            && after.transistors[t].c2 == rail) || (s.contains(after.transistors[t].c2 as int)
            && after.transistors[t].c1 == rail)));
    }
    if touches(after, s, rail) {
        let t = choose|t: int|
            0 <= t < after.transistors.len() && (#[trigger] after.transistors[t]).on && ((
            s.contains(after.transistors[t].c1 as int) && after.transistors[t].c2 == rail) || (
            s.contains(after.transistors[t].c2 as int) && after.transistors[t].c1 == rail));
        assert(after.transistors[t].c1 == w.transistors[t].c1);
        assert(w.transistors[t].on == after.transistors[t].on);
        assert(w.transistors[t].on && ((s.contains(w.transistors[t].c1 as int)
            && w.transistors[t].c2 == rail) || (s.contains(w.transistors[t].c2 as int)
            && w.transistors[t].c1 == rail)));
    }
}

/// The area of a set at a level depends on its own wires only.
pub proof fn lemma_area_carries(w: Wiring, after: Wiring, s: Set<int>, level: bool, upto: int)
    requires
        0 <= upto <= w.nodes.len(),
        after.nodes.len() == w.nodes.len(),
        forall|m: int|
            0 <= m < w.nodes.len() && s.contains(m) ==> (#[trigger] after.nodes[m]).state
                == w.nodes[m].state && after.nodes[m].area == w.nodes[m].area,
    ensures
        area_in(after, s, level, upto) == area_in(w, s, level, upto),
    decreases upto,
{
    if upto > 0 {
        lemma_area_carries(w, after, s, level, upto - 1);
        if s.contains(upto - 1) {
            assert(after.nodes[upto - 1].state == w.nodes[upto - 1].state);
        }
    }
}

/// Once every wire of a set sits at `level`, the area of the set at that
/// level is the whole area that it had, and at the other level it is none.
pub proof fn lemma_area_gathers(w: Wiring, after: Wiring, s: Set<int>, level: bool, upto: int)
    requires
        0 <= upto <= w.nodes.len(),
        after.nodes.len() == w.nodes.len(),
        forall|m: int|
            0 <= m < w.nodes.len() && s.contains(m) ==> (#[trigger] after.nodes[m]).state == level
                && after.nodes[m].area == w.nodes[m].area,
    ensures
        area_in(after, s, level, upto) == area_in(w, s, level, upto) + area_in(
            w,
            s,
            !level,
            upto,
        ),
        area_in(after, s, !level, upto) == 0,
    decreases upto,
{
    if upto > 0 {
        lemma_area_gathers(w, after, s, level, upto - 1);
        if s.contains(upto - 1) {
            assert(after.nodes[upto - 1].state == level);
        }
    }
}

/// The level of a set depends on the marks of its own wires and on the
/// rails that it touches only.
pub proof fn lemma_level_carries(w: Wiring, after: Wiring, s: Set<int>)
    requires
        after.nodes.len() == w.nodes.len(),
        forall|m: int| s.contains(m) ==> 0 <= m < w.nodes.len(),
        forall|m: int|
            0 <= m < w.nodes.len() && s.contains(m) ==> (#[trigger] after.nodes[m]).state
                == w.nodes[m].state && after.nodes[m].area == w.nodes[m].area
                && after.nodes[m].pullup == w.nodes[m].pullup && after.nodes[m].pulldown
                == w.nodes[m].pulldown,
        touches(w, s, NODE_GND) == touches(after, s, NODE_GND),
        touches(w, s, NODE_PWR) == touches(after, s, NODE_PWR),
    ensures
        level_in(after, s) == level_in(w, s),
{
    lemma_area_carries(w, after, s, true, w.nodes.len() as int);
    lemma_area_carries(w, after, s, false, w.nodes.len() as int);
    lemma_pulls_carry(w, after, s);
}

/// Whether a set holds a pulled wire depends on the pulls of its own
/// wires only.
pub proof fn lemma_pulls_carry(w: Wiring, after: Wiring, s: Set<int>)
    requires
        after.nodes.len() == w.nodes.len(),
        forall|m: int| s.contains(m) ==> 0 <= m < w.nodes.len(),
        forall|m: int|
            0 <= m < w.nodes.len() && s.contains(m) ==> (#[trigger] after.nodes[m]).pullup
                == w.nodes[m].pullup && after.nodes[m].pulldown == w.nodes[m].pulldown,
    ensures
        pullup_in(after, s) == pullup_in(w, s),
        pulldown_in(after, s) == pulldown_in(w, s),
{
    if pullup_in(w, s) {
        let n = choose|n: int| #[trigger] s.contains(n) && w.nodes[n].pullup;
        assert(after.nodes[n].pullup);
    }
    if pullup_in(after, s) {
        let n = choose|n: int| #[trigger] s.contains(n) && after.nodes[n].pullup;
        assert(after.nodes[n].pullup == w.nodes[n].pullup);
    }
    if pulldown_in(w, s) {
        let n = choose|n: int| #[trigger] s.contains(n) && w.nodes[n].pulldown;
        assert(after.nodes[n].pulldown);
    }
    if pulldown_in(after, s) {
        let n = choose|n: int| #[trigger] s.contains(n) && after.nodes[n].pulldown;
        assert(after.nodes[n].pulldown == w.nodes[n].pulldown);
    }
}

/// A set whose wires have all been brought to the level that it takes
/// still takes that level.
pub proof fn lemma_level_stable(w: Wiring, after: Wiring, s: Set<int>)
    requires
        after.nodes.len() == w.nodes.len(),
        forall|m: int| s.contains(m) ==> 0 <= m < w.nodes.len(),
        forall|m: int|
            0 <= m < w.nodes.len() && s.contains(m) ==> (#[trigger] after.nodes[m]).state
                == level_in(w, s) && after.nodes[m].area == w.nodes[m].area
                && after.nodes[m].pullup == w.nodes[m].pullup && after.nodes[m].pulldown
                == w.nodes[m].pulldown,
        touches(w, s, NODE_GND) == touches(after, s, NODE_GND),
        touches(w, s, NODE_PWR) == touches(after, s, NODE_PWR),
    ensures
        level_in(after, s) == level_in(w, s),
{
    lemma_pulls_carry(w, after, s);
    lemma_area_gathers(w, after, s, level_in(w, s), w.nodes.len() as int);
}

} // verus!
