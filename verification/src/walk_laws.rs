use vstd::prelude::*;
use crate::circuit::lemma_distinct_below;
use crate::connectivity::{
    area_in, closed, component, is_wire, joined, lemma_component_closed, level_in, pulldown_in,
    pullup_in, touches, weak_in,
};
use crate::consts::{NODE_GND, NODE_PWR};
use crate::wiring::{is_rail, is_weak_drive, Group, Wiring};

verus! {

/// The wires of a list as a set of numbers.
pub open spec fn member_set(members: Seq<u16>) -> Set<int> {
    Set::new(|m: int| 0 <= m < 65536 && members.contains(m as u16))
}

/// Every wire collected is joined to `seed`.
pub open spec fn reached(w: Wiring, seed: int, g: Group) -> bool {
    forall|k: int| 0 <= k < g.members.len() ==> joined(w, seed, (#[trigger] g.members[k]) as int)
}

/// A rail is flagged only if the component of `seed` touches it.
pub open spec fn flags_sound(w: Wiring, seed: int, g: Group) -> bool {
    &&& g.has_ground ==> touches(w, component(w, seed), NODE_GND)
    &&& g.has_power ==> touches(w, component(w, seed), NODE_PWR)
}

/// The walk has followed entry `i` of the channel row of wire `m`: if the
/// transistor conducts, its other end is collected or flagged.
pub open spec fn channel_done(w: Wiring, g: Group, m: u16, i: int) -> bool {
    let t = w.links[m as int]@[i] as int;
    w.transistors[t].on ==> {
        let other = w.other_end(t, m);
        (other == NODE_GND && g.has_ground) || (other == NODE_PWR && g.has_power)
            || g.members.contains(other)
    }
}

/// The walk has followed the whole channel row of wire `m`.
pub open spec fn done(w: Wiring, g: Group, m: u16) -> bool {
    forall|i: int| 0 <= i < w.counts[m as int] ==> #[trigger] channel_done(w, g, m, i)
}

/// `r` is `g` with more wires at its end and, maybe, more flags.
pub open spec fn extends(r: Group, g: Group) -> bool {
    &&& g.members.len() <= r.members.len()
    &&& forall|k: int| 0 <= k < g.members.len() ==> (#[trigger] r.members[k]) == g.members[k]
    &&& g.has_ground ==> r.has_ground
    &&& g.has_power ==> r.has_power
}

/// What was followed stays followed as the group grows.
pub proof fn lemma_channel_done_carries(w: Wiring, g: Group, r: Group, m: u16, i: int)
    requires
        extends(r, g),
        channel_done(w, g, m, i),
    ensures
        channel_done(w, r, m, i),
{
    let t = w.links[m as int]@[i] as int;
    if w.transistors[t].on {
        let other = w.other_end(t, m);
        if g.members.contains(other) {
            let k = choose|k: int| 0 <= k < g.members.len() && g.members[k] == other;
            assert(r.members[k] == other);
        }
    }
}

/// A wire that is done stays done as the group grows.
pub proof fn lemma_done_carries(w: Wiring, g: Group, r: Group, m: u16)
    requires
        extends(r, g),
        done(w, g, m),
    ensures
        done(w, r, m),
{
    assert forall|i: int| 0 <= i < w.counts[m as int] implies #[trigger] channel_done(
        w,
        r,
        m,
        i,
    ) by {
        assert(channel_done(w, g, m, i));
        lemma_channel_done_carries(w, g, r, m, i);
    }
}

/// `extends` chains.
pub proof fn lemma_extends_chain(a: Group, b: Group, c: Group)
    requires
        extends(b, a),
        extends(c, b),
    ensures
        extends(c, a),
{
    assert forall|k: int| 0 <= k < a.members.len() implies (#[trigger] c.members[k])
        == a.members[k] by {
        assert(b.members[k] == a.members[k]);
    }
}

/// The walk from a wire joined to `seed` collects wires joined to `seed`
/// only, flags the rails that their component touches only, and follows
/// the whole channel row of every wire that it collects.
pub proof fn lemma_walk_sound(w: Wiring, seed: int, g: Group, node: u16)
    requires
        w.wf(),
        w.links_faithful(),
        is_wire(w, seed),
        g.fits(w),
        node < w.nodes.len(),
        reached(w, seed, g),
        flags_sound(w, seed, g),
        !is_rail(node) ==> joined(w, seed, node as int),
        is_rail(node) ==> touches(w, component(w, seed), node),
    ensures
        ({
            let r = w.walk(g, node);
            &&& r.fits(w)
            &&& extends(r, g)
            &&& reached(w, seed, r)
            &&& flags_sound(w, seed, r)
            &&& forall|k: int|
                g.members.len() <= k < r.members.len() ==> done(w, r, #[trigger] r.members[k])
            &&& node == NODE_GND ==> r.has_ground
            &&& node == NODE_PWR ==> r.has_power
            &&& !is_rail(node) ==> r.members.contains(node)
        }),
    decreases w.room(g), 0int, 0int,
{
    let r = w.walk(g, node);
    if node == NODE_GND || node == NODE_PWR {
    } else if g.members.contains(node) {
    } else {
        let entered = g.with_member(node);
        assert(entered.members.no_duplicates());
        lemma_distinct_below(entered.members, w.nodes.len());
        assert(g.members.len() < w.nodes.len());
        assert(entered.fits(w));
        assert(reached(w, seed, entered)) by {
            assert forall|k: int| 0 <= k < entered.members.len() implies joined(
                w,
                seed,
                (#[trigger] entered.members[k]) as int,
            ) by {
                if k < g.members.len() {
                    assert(entered.members[k] == g.members[k]);
                }
            }
        }
        assert(entered.members[g.members.len() as int] == node);
        lemma_walk_links_sound(w, seed, entered, node, 0);
        assert(r == w.walk_links(entered, node, 0));
        assert(extends(entered, g));
        lemma_extends_chain(g, entered, r);
        assert(r.members[g.members.len() as int] == node);
        assert forall|k: int| g.members.len() <= k < r.members.len() implies done(
            w,
            r,
            #[trigger] r.members[k],
        ) by {
            if k == g.members.len() {
                assert(done(w, r, node));
            }
        }
    }
}

/// The scan of the channel row of a collected wire, from entry `i` on,
/// collects wires joined to `seed` only, flags the rails that their
/// component touches only, follows the whole channel row of every wire
/// that it collects, and finishes the row of the wire itself.
pub proof fn lemma_walk_links_sound(w: Wiring, seed: int, g: Group, node: u16, i: int)
    requires
        w.wf(),
        w.links_faithful(),
        is_wire(w, seed),
        g.fits(w),
        is_wire(w, node as int),
        g.members.contains(node),
        joined(w, seed, node as int),
        reached(w, seed, g),
        flags_sound(w, seed, g),
        0 <= i,
        forall|j: int|
            0 <= j < i && j < w.counts[node as int] ==> #[trigger] channel_done(w, g, node, j),
    ensures
        ({
            let r = w.walk_links(g, node, i);
            &&& r.fits(w)
            &&& extends(r, g)
            &&& reached(w, seed, r)
            &&& flags_sound(w, seed, r)
            &&& forall|k: int|
                g.members.len() <= k < r.members.len() ==> done(w, r, #[trigger] r.members[k])
            &&& done(w, r, node)
        }),
    decreases w.room(g), 1int, w.counts[node as int] - i,
{
    let r = w.walk_links(g, node, i);
    if i < w.counts[node as int] {
        let t = w.links[node as int]@[i] as int;
        assert(t < w.transistors.len());
        let tr = w.transistors[t];
        assert(tr.c1 < w.nodes.len() && tr.c2 < w.nodes.len());
        assert(tr.c1 == node || tr.c2 == node);
        let other = w.other_end(t, node);
        let next = if tr.on {
            w.walk(g, other)
        } else {
            g
        };
        if tr.on {
            lemma_component_closed(w, seed);
            if is_rail(other) {
                if tr.c1 != node {
                    assert(is_rail(tr.c1));
                    assert(is_rail(tr.c2));
                }
                assert(tr.c1 == node && tr.c2 == other);
                assert(component(w, seed).contains(tr.c1 as int));
                assert(touches(w, component(w, seed), other));
            } else {
                assert forall|s: Set<int>| #[trigger] closed(w, s) && s.contains(
                    seed,
                ) implies s.contains(other as int) by {
                    assert(s.contains(node as int));
                    assert(w.transistors[t].on);
                }
            }
            lemma_walk_sound(w, seed, g, other);
            assert(channel_done(w, next, node, i));
        } else {
            assert(channel_done(w, next, node, i));
        }
        assert(extends(next, g));
        assert(next.members.contains(node)) by {
            let k = choose|k: int| 0 <= k < g.members.len() && g.members[k] == node;
            assert(next.members[k] == node);
        }
        assert forall|j: int| 0 <= j < i + 1 && j < w.counts[node as int] implies #[trigger] channel_done(
            w,
            next,
            node,
            j,
        ) by {
            if j < i {
                assert(channel_done(w, g, node, j));
                lemma_channel_done_carries(w, g, next, node, j);
            }
        }
        lemma_walk_links_sound(w, seed, next, node, i + 1);
        assert(r == w.walk_links(next, node, i + 1));
        lemma_extends_chain(g, next, r);
        assert forall|k: int| g.members.len() <= k < r.members.len() implies done(
            w,
            r,
            #[trigger] r.members[k],
        ) by {
            if k < next.members.len() {
                assert(done(w, next, next.members[k]));
                assert(r.members[k] == next.members[k]);
                lemma_done_carries(w, next, r, next.members[k]);
            }
        }
    } else {
        assert(extends(g, g));
    }
}

/// The group that the walk collects from a wire is the component of that
/// wire, and it flags exactly the rails that the component touches.
pub proof fn lemma_group_is_component(w: Wiring, seed: int)
    requires
        w.wf(),
        w.links_faithful(),
        is_wire(w, seed),
    ensures
        w.group_of(seed as u16).fits(w),
        member_set(w.group_of(seed as u16).members) == component(w, seed),
        w.group_of(seed as u16).has_ground == touches(w, component(w, seed), NODE_GND),
        w.group_of(seed as u16).has_power == touches(w, component(w, seed), NODE_PWR),
{
    let g = w.group_of(seed as u16);
    let set = member_set(g.members);
    let comp = component(w, seed);
    lemma_component_closed(w, seed);
    assert(joined(w, seed, seed));
    lemma_walk_sound(w, seed, Group::empty(), seed as u16);
    assert forall|m: int| set.contains(m) implies comp.contains(m) by {
        let k = choose|k: int| 0 <= k < g.members.len() && g.members[k] == m as u16;
        assert(joined(w, seed, g.members[k] as int));
    }
    assert forall|m: int| set.contains(m) implies is_wire(w, m) && done(w, g, m as u16) by {
        let k = choose|k: int| 0 <= k < g.members.len() && g.members[k] == m as u16;
        assert(done(w, g, g.members[k]));
        assert(g.members[k] < w.nodes.len());
    }
    assert forall|t: int| 0 <= t < w.transistors.len() && (#[trigger] w.transistors[t]).on implies {
        &&& set.contains(w.transistors[t].c1 as int) && !is_rail(w.transistors[t].c2)
            ==> set.contains(w.transistors[t].c2 as int)
        &&& set.contains(w.transistors[t].c2 as int) && !is_rail(w.transistors[t].c1)
            ==> set.contains(w.transistors[t].c1 as int)
    } by {
        let tr = w.transistors[t];
        if set.contains(tr.c1 as int) && !is_rail(tr.c2) {
            assert(w.row_lists(tr.c1 as int, t));
            let i = choose|i: int|
                0 <= i < w.counts[tr.c1 as int] && #[trigger] w.links[tr.c1 as int]@[i] == t;
            assert(channel_done(w, g, tr.c1, i));
            assert(w.other_end(t, tr.c1) == tr.c2);
        }
        if set.contains(tr.c2 as int) && !is_rail(tr.c1) {
            assert(w.row_lists(tr.c2 as int, t));
            let i = choose|i: int|
                0 <= i < w.counts[tr.c2 as int] && #[trigger] w.links[tr.c2 as int]@[i] == t;
            assert(channel_done(w, g, tr.c2, i));
            if tr.c1 != tr.c2 {
                assert(w.other_end(t, tr.c2) == tr.c1);
            }
        }
    }
    assert(closed(w, set));
    assert(set.contains(seed));
    assert forall|m: int| comp.contains(m) implies set.contains(m) by {
        assert(joined(w, seed, m));
    }
    assert(set =~= comp);
    if touches(w, comp, NODE_GND) {
        let t = choose|t: int|
            0 <= t < w.transistors.len() && (#[trigger] w.transistors[t]).on && ((comp.contains(
                w.transistors[t].c1 as int,
            ) && w.transistors[t].c2 == NODE_GND) || (comp.contains(w.transistors[t].c2 as int)
                && w.transistors[t].c1 == NODE_GND));
        let tr = w.transistors[t];
        if comp.contains(tr.c2 as int) && tr.c1 == NODE_GND {
            assert(is_rail(tr.c2));
            assert(is_wire(w, tr.c2 as int));
        }
        assert(set.contains(tr.c1 as int));
        assert(w.row_lists(tr.c1 as int, t));
        let i = choose|i: int|
            0 <= i < w.counts[tr.c1 as int] && #[trigger] w.links[tr.c1 as int]@[i] == t;
        assert(channel_done(w, g, tr.c1, i));
        assert(w.other_end(t, tr.c1) == NODE_GND);
        if g.members.contains(NODE_GND) {
            let k = choose|k: int| 0 <= k < g.members.len() && g.members[k] == NODE_GND;
            assert(!is_rail(g.members[k]));
        }
    }
    if touches(w, comp, NODE_PWR) {
        let t = choose|t: int|
            0 <= t < w.transistors.len() && (#[trigger] w.transistors[t]).on && ((comp.contains(
                w.transistors[t].c1 as int,
            ) && w.transistors[t].c2 == NODE_PWR) || (comp.contains(w.transistors[t].c2 as int)
                && w.transistors[t].c1 == NODE_PWR));
        let tr = w.transistors[t];
        if comp.contains(tr.c2 as int) && tr.c1 == NODE_PWR {
            assert(is_rail(tr.c2));
            assert(is_wire(w, tr.c2 as int));
        }
        assert(set.contains(tr.c1 as int));
        assert(w.row_lists(tr.c1 as int, t));
        let i = choose|i: int|
            0 <= i < w.counts[tr.c1 as int] && #[trigger] w.links[tr.c1 as int]@[i] == t;
        assert(channel_done(w, g, tr.c1, i));
        assert(w.other_end(t, tr.c1) == NODE_PWR);
        if g.members.contains(NODE_PWR) {
            let k = choose|k: int| 0 <= k < g.members.len() && g.members[k] == NODE_PWR;
            assert(!is_rail(g.members[k]));
        }
    }
}

/// The area of a set with one more wire.
pub proof fn lemma_area_insert(w: Wiring, s: Set<int>, x: int, level: bool, upto: int)
    requires
        0 <= upto,
        0 <= x,
        !s.contains(x),
    ensures
        area_in(w, s.insert(x), level, upto) == area_in(w, s, level, upto) + if x < upto
            && w.nodes[x].state == level {
            w.nodes[x].area as nat
        } else {
            0
        },
    decreases upto,
{
    if upto > 0 {
        lemma_area_insert(w, s, x, level, upto - 1);
    }
}

/// The area of a list of different wires is the area of its set.
pub proof fn lemma_area_of_list(w: Wiring, members: Seq<u16>, level: bool)
    requires
        members.no_duplicates(),
        forall|k: int| 0 <= k < members.len() ==> (#[trigger] members[k]) < w.nodes.len(),
    ensures
        w.area_at(members, level) == area_in(
            w,
            member_set(members),
            level,
            w.nodes.len() as int,
        ),
    decreases members.len(),
{
    if members.len() == 0 {
        assert(member_set(members) =~= Set::<int>::empty());
        lemma_area_empty(w, level, w.nodes.len() as int);
    } else {
        let init = members.drop_last();
        let x = members.last();
        assert forall|k: int| 0 <= k < init.len() implies (#[trigger] init[k]) < w.nodes.len() by {
            assert(init[k] == members[k]);
        }
        lemma_area_of_list(w, init, level);
        assert(!member_set(init).contains(x as int)) by {
            if init.contains(x) {
                let k = choose|k: int| 0 <= k < init.len() && init[k] == x;
                assert(members[k] == members[members.len() - 1]);
            }
        }
        assert(member_set(members) =~= member_set(init).insert(x as int)) by {
            assert forall|m: int| member_set(members).contains(m) == member_set(init).insert(
                x as int,
            ).contains(m) by {
                if 0 <= m < 65536 {
                    if members.contains(m as u16) {
                        let k = choose|k: int| 0 <= k < members.len() && members[k] == m as u16;
                        if k < init.len() {
                            assert(init[k] == m as u16);
                        }
                    }
                    if init.contains(m as u16) {
                        let k = choose|k: int| 0 <= k < init.len() && init[k] == m as u16;
                        assert(members[k] == m as u16);
                    }
                    if m == x {
                        assert(members[members.len() - 1] == x);
                    }
                }
            }
        }
        lemma_area_insert(w, member_set(init), x as int, level, w.nodes.len() as int);
    }
}

/// The empty set has no area.
pub proof fn lemma_area_empty(w: Wiring, level: bool, upto: int)
    ensures
        area_in(w, Set::<int>::empty(), level, upto) == 0,
    decreases upto,
{
    if upto > 0 {
        lemma_area_empty(w, level, upto - 1);
    }
}

/// The level that the group of a wire takes is the level that its
/// component takes.
pub proof fn lemma_level_of_group(w: Wiring, seed: int)
    requires
        w.wf(),
        w.links_faithful(),
        is_wire(w, seed),
    ensures
        w.level_of(w.group_of(seed as u16)) == level_in(w, component(w, seed)),
{
    let g = w.group_of(seed as u16);
    let comp = component(w, seed);
    lemma_group_is_component(w, seed);
    assert(member_set(g.members) == comp);
    lemma_area_of_list(w, g.members, true);
    lemma_area_of_list(w, g.members, false);
    assert(g.any_weak() == weak_in(comp)) by {
        if g.any_weak() {
            let i = choose|i: int|
                0 <= i < g.members.len() && is_weak_drive(#[trigger] g.members[i]);
            assert(member_set(g.members).contains(g.members[i] as int));
        }
        if weak_in(comp) {
            let n = choose|n: int|
                0 <= n < 65536 && #[trigger] comp.contains(n) && is_weak_drive(n as u16);
            assert(member_set(g.members).contains(n));
            let k = choose|k: int| 0 <= k < g.members.len() && g.members[k] == n as u16;
            assert(is_weak_drive(g.members[k]));
        }
    }
    assert(w.any_pullup(g.members) == pullup_in(w, comp)) by {
        if w.any_pullup(g.members) {
            let i = choose|i: int|
                0 <= i < g.members.len() && w.nodes[#[trigger] g.members[i] as int].pullup;
            assert(member_set(g.members).contains(g.members[i] as int));
        }
        if pullup_in(w, comp) {
            let n = choose|n: int| #[trigger] comp.contains(n) && w.nodes[n].pullup;
            assert(member_set(g.members).contains(n));
            let k = choose|k: int| 0 <= k < g.members.len() && g.members[k] == n as u16;
            assert(w.nodes[g.members[k] as int].pullup);
        }
    }
    assert(w.any_pulldown(g.members) == pulldown_in(w, comp)) by {
        if w.any_pulldown(g.members) {
            let i = choose|i: int|
                0 <= i < g.members.len() && w.nodes[#[trigger] g.members[i] as int].pulldown;
            assert(member_set(g.members).contains(g.members[i] as int));
        }
        if pulldown_in(w, comp) {
            let n = choose|n: int| #[trigger] comp.contains(n) && w.nodes[n].pulldown;
            assert(member_set(g.members).contains(n));
            let k = choose|k: int| 0 <= k < g.members.len() && g.members[k] == n as u16;
            assert(w.nodes[g.members[k] as int].pulldown);
        }
    }
}

} // verus!
