use vstd::prelude::*;
use fnv::FnvHashMap;
use crate::components::{NodeDefinition, Transistor, TransistorDefinition};
use crate::consts::{CPU_OFFSET, EMPTYNODE, MAX_C1_C2, MAX_NODES, NODE_GND, NODE_PWR};
use crate::errors::BuildError;
use crate::wiring::is_rail;

verus! {

/// `fnv::FnvHasher`, the hasher of the maps below. Nothing is said of it:
/// it only names the kind of map.
#[verifier::external_type_specification]
#[verifier::external_body]
pub struct ExFnvHasher(fnv::FnvHasher);

/// `std::hash::BuildHasherDefault`, through which a map makes its
/// hashers. Nothing is said of it: it only names the kind of map.
#[verifier::external_type_specification]
#[verifier::external_body]
#[verifier::reject_recursive_types(H)]
pub struct ExBuildHasherDefault<H>(std::hash::BuildHasherDefault<H>);

/// `FnvHashMap::default`: a map of the FNV-hashed kind that holds nothing.
#[verifier::external_body]
fn table_new() -> (table: FnvHashMap<u16, u16>)
    ensures
        table@.dom() =~= Set::empty(),
{
    FnvHashMap::default()
}

/// `HashMap::insert` on an FNV-hashed map: afterwards `key` maps to
/// `value` and every other key is as before.
#[verifier::external_body]
fn table_insert(table: &mut FnvHashMap<u16, u16>, key: u16, value: u16)
    ensures
        final(table)@ == old(table)@.insert(key, value),
{
    table.insert(key, value);
}

/// `HashMap::get` on an FNV-hashed map: the value stored under `key`, if any.
#[verifier::external_body]
fn table_get(table: &FnvHashMap<u16, u16>, key: u16) -> (found: Option<u16>)
    ensures
        found == if table@.contains_key(key) {
            Some(table@[key])
        } else {
            None::<u16>
        },
{
    table.get(&key).copied()
}

/// The identifiers that are renumbered when the two chips' tables are
/// joined: the processor's rails, reset, clock, interrupt and read/write
/// line take the numbers of the picture chip's, and the picture chip's
/// processor-side data and address pins take the numbers of the
/// processor's.
pub open spec fn conversion_map() -> Map<u16, u16> {
    Map::<u16, u16>::empty().insert(23000, 1).insert(23001, 2).insert(23004, 1934).insert(
        24669,
        772,
    ).insert(1013, 24819).insert(765, 24966).insert(431, 25056).insert(87, 25091).insert(
        11,
        25090,
    ).insert(10, 25089).insert(9, 25088).insert(8, 25087).insert(12, 23020).insert(
        6,
        23019,
    ).insert(7, 23030).insert(23331, 1031).insert(23092, 1224)
}

/// The renumbering of `id` under `table`: its entry, or `id` itself.
pub open spec fn converted(table: Map<u16, u16>, id: u16) -> u16 {
    if table.contains_key(id) {
        table[id]
    } else {
        id
    }
}

/// Builds the renumbering table.
pub fn id_conversion_table() -> (table: FnvHashMap<u16, u16>)
    ensures
        table@ == conversion_map(),
{
    let mut map = table_new();
    assert(map@ =~= Map::<u16, u16>::empty());
    table_insert(&mut map, 10000 + CPU_OFFSET, 1);
    table_insert(&mut map, 10001 + CPU_OFFSET, 2);
    table_insert(&mut map, 10004 + CPU_OFFSET, 1934);
    table_insert(&mut map, 11669 + CPU_OFFSET, 772);
    table_insert(&mut map, 1013, 11819 + CPU_OFFSET);
    table_insert(&mut map, 765, 11966 + CPU_OFFSET);
    table_insert(&mut map, 431, 12056 + CPU_OFFSET);
    table_insert(&mut map, 87, 12091 + CPU_OFFSET);
    table_insert(&mut map, 11, 12090 + CPU_OFFSET);
    table_insert(&mut map, 10, 12089 + CPU_OFFSET);
    table_insert(&mut map, 9, 12088 + CPU_OFFSET);
    table_insert(&mut map, 8, 12087 + CPU_OFFSET);
    table_insert(&mut map, 12, 10020 + CPU_OFFSET);
    table_insert(&mut map, 6, 10019 + CPU_OFFSET);
    table_insert(&mut map, 7, 10030 + CPU_OFFSET);
    table_insert(&mut map, 10331 + CPU_OFFSET, 1031);
    table_insert(&mut map, 10092 + CPU_OFFSET, 1224);
    map
}

/// Renumbers `id`: its entry in the table, or `id` itself where it has none.
pub fn convert_id(id: u16, conversion_table: &FnvHashMap<u16, u16>) -> (new_id: u16)
    ensures
        new_id == converted(conversion_table@, id),
{
    match table_get(conversion_table, id) {
        Some(mapped) => mapped,
        None => id,
    }
}

/// Whether a segment record can be used: it has a wire number other
/// than the empty-slot sentinel and a pull-up field, and, unless it
/// belongs to a rail, at least one coordinate pair.
pub open spec fn segment_ok(seg: Seq<u16>) -> bool {
    &&& seg.len() >= 2
    &&& seg[0] != EMPTYNODE
    &&& (is_rail(seg[0]) || seg.len() >= 5)
}

/// One term of the area sum of a segment record, at position `j`.
pub open spec fn area_term(seg: Seq<u16>, j: int) -> int {
    seg[j] * seg[j + 3] - seg[j + 2] * seg[j - 1]
}

/// The terms of the area sum from position `j` on, two fields at a time,
/// while four more fields follow.
pub open spec fn area_terms_from(seg: Seq<u16>, j: int) -> int
    decreases seg.len() - j,
{
    if j + 4 >= seg.len() {
        0
    } else {
        area_term(seg, j) + area_terms_from(seg, j + 2)
    }
}

/// The unsigned area of a segment record: the closing term, then the
/// terms from position 3 on.
pub open spec fn segment_area(seg: Seq<u16>) -> nat {
    let signed = seg[seg.len() - 2] * seg[4] - seg[3] * seg[seg.len() - 1] + area_terms_from(
        seg,
        3,
    );
    if signed < 0 {
        (-signed) as nat
    } else {
        signed as nat
    }
}

/// Whether one of the first `k` records belongs to wire `id`.
pub open spec fn defined_by(segs: Seq<Vec<u16>>, k: int, id: int) -> bool {
    exists|j: int| 0 <= j < k && (#[trigger] segs[j])@[0] == id
}

/// The pull-up flag of wire `id` after the first `k` records: that of its
/// first record.
pub open spec fn pullup_after(segs: Seq<Vec<u16>>, k: int, id: int) -> bool
    decreases k,
{
    if k <= 0 {
        false
    } else if defined_by(segs, k - 1, id) {
        pullup_after(segs, k - 1, id)
    } else {
        segs[k - 1]@[0] == id && segs[k - 1]@[1] == 1
    }
}

/// The area of wire `id` after the first `k` records: the sum over its
/// records; rails have none.
pub open spec fn area_after(segs: Seq<Vec<u16>>, k: int, id: int) -> nat
    decreases k,
{
    if k <= 0 {
        0
    } else if segs[k - 1]@[0] == id && id != NODE_GND && id != NODE_PWR {
        area_after(segs, k - 1, id) + segment_area(segs[k - 1]@)
    } else {
        area_after(segs, k - 1, id)
    }
}

/// The first and last coordinate of each record of wire `id` among the
/// first `k`; rails have none.
pub open spec fn ends_after(segs: Seq<Vec<u16>>, k: int, id: int) -> Seq<(u16, u16)>
    decreases k,
{
    if k <= 0 {
        Seq::empty()
    } else if segs[k - 1]@[0] == id && id != NODE_GND && id != NODE_PWR {
        ends_after(segs, k - 1, id).push((segs[k - 1]@[3], segs[k - 1]@.last()))
    } else {
        ends_after(segs, k - 1, id)
    }
}

/// The highest wire number among the first `k` records.
pub open spec fn highest_id(segs: Seq<Vec<u16>>, k: int) -> int
    decreases k,
{
    if k <= 0 {
        0
    } else if segs[k - 1]@[0] > highest_id(segs, k - 1) {
        segs[k - 1]@[0] as int
    } else {
        highest_id(segs, k - 1)
    }
}

/// Whether `def` is what the first `k` records make of wire `id`.
pub open spec fn node_matches(def: NodeDefinition, segs: Seq<Vec<u16>>, k: int, id: int) -> bool {
    if defined_by(segs, k, id) {
        &&& def.num == id
        &&& def.pullup == pullup_after(segs, k, id)
        &&& !def.state
        &&& def.area == area_after(segs, k, id)
        &&& def.gates@.len() == 0
        &&& def.segs@ == ends_after(segs, k, id)
    } else {
        def.is_blank()
    }
}

/// Whether every record can be used.
pub open spec fn segments_ok(segs: Seq<Vec<u16>>) -> bool {
    forall|j: int| 0 <= j < segs.len() ==> segment_ok((#[trigger] segs[j])@)
}

/// Whether some wire's area outgrows 64 bits.
pub open spec fn area_overflows(segs: Seq<Vec<u16>>) -> bool {
    exists|k: int| 0 < k <= segs.len() && area_after(segs, k, (#[trigger] segs[k - 1])@[0] as int)
        > u64::MAX
}

/// The product of two table fields.
fn product(a: u16, b: u16) -> (p: i128)
    ensures
        p == a * b,
        0 <= p <= 0xFFFE_0001,
{
    assert(0 <= a * b <= 0xFFFE_0001) by (nonlinear_arith)
        requires
            0 <= a <= 0xFFFF,
            0 <= b <= 0xFFFF,
    ;
    let wide: u64 = a as u64 * b as u64;
    wide as i128
}

/// The unsigned area of a usable record of a wire that is no rail.
fn shoelace(seg: &Vec<u16>) -> (area: u128)
    requires
        seg@.len() >= 5,
    ensures
        area == segment_area(seg@),
        area <= 0x1_0000_0000 * (seg@.len() + 1),
{
    let len = seg.len();
    let closing: i128 = product(seg[len - 2], seg[4]) - product(seg[3], seg[len - 1]);
    let mut area: i128 = closing;
    let mut j: usize = 3;
    while j < len - 4
        invariant
            len == seg@.len(),
            len >= 5,
            3 <= j,
            j <= len + 1,
            area + area_terms_from(seg@, j as int) == closing + area_terms_from(seg@, 3),
            -0x1_0000_0000 * (j - 2) <= area <= 0x1_0000_0000 * (j - 2),
        decreases len + 1 - j,
    {
        let term: i128 = product(seg[j], seg[j + 3]) - product(seg[j + 2], seg[j - 1]);
        area = area + term;
        j += 2;
    }
    if area < 0 {
        (-area) as u128
    } else {
        area as u128
    }
}

/// Builds the wire table from the segment records: one slot per wire
/// number up to the highest that occurs, blank where no record names it.
/// A wire takes its pull-up from its first record and its area from the
/// sum over all its records; rails carry no area.
pub fn setup_nodes(segdefs: &[Vec<u16>]) -> (built: Result<Vec<NodeDefinition>, BuildError>)
    ensures
        built matches Err(e) ==> e == BuildError::EmptySegmentList || e
            == BuildError::MalformedSegment || e == BuildError::AreaOverflow,
        built == Err::<Vec<NodeDefinition>, BuildError>(BuildError::EmptySegmentList)
            <==> segdefs@.len() == 0,
        built == Err::<Vec<NodeDefinition>, BuildError>(BuildError::MalformedSegment) <==> (
        segdefs@.len() > 0 && !segments_ok(segdefs@)),
        built == Err::<Vec<NodeDefinition>, BuildError>(BuildError::AreaOverflow) <==> (
        segdefs@.len() > 0 && segments_ok(segdefs@) && area_overflows(segdefs@)),
        built matches Ok(nodes) ==> {
            &&& nodes@.len() == highest_id(segdefs@, segdefs@.len() as int) + 1
            &&& forall|id: int|
                0 <= id < nodes@.len() ==> node_matches(
                    #[trigger] nodes@[id],
                    segdefs@,
                    segdefs@.len() as int,
                    id,
                )
        },
{
    let total = segdefs.len();
    if total == 0 {
        return Err(BuildError::EmptySegmentList);
    }
    let mut max_id: usize = 0;
    let mut k: usize = 0;
    while k < total
        invariant
            total == segdefs@.len(),
            k <= total,
            max_id == highest_id(segdefs@, k as int),
            max_id < 65535,
            forall|j: int| 0 <= j < k ==> segment_ok((#[trigger] segdefs@[j])@),
        decreases total - k,
    {
        let seg = &segdefs[k];
        if seg.len() < 2 || seg[0] == EMPTYNODE || (seg[0] != NODE_GND && seg[0] != NODE_PWR
            && seg.len() < 5) {
            assert(!segment_ok(segdefs@[k as int]@));
            return Err(BuildError::MalformedSegment);
        }
        if seg[0] as usize > max_id {
            max_id = seg[0] as usize;
        }
        k += 1;
    }
    let mut nodes: Vec<NodeDefinition> = Vec::new();
    let mut n: usize = 0;
    while n < max_id + 1
        invariant
            max_id < 65535,
            n <= max_id + 1,
            nodes@.len() == n,
            forall|id: int| 0 <= id < n ==> (#[trigger] nodes@[id]).is_blank(),
        decreases max_id + 1 - n,
    {
        nodes.push(NodeDefinition::default());
        n += 1;
    }
    assert forall|id: int| 0 <= id < nodes@.len() implies node_matches(
        #[trigger] nodes@[id],
        segdefs@,
        0,
        id,
    ) by {
        assert(!defined_by(segdefs@, 0, id));
    }
    let mut k: usize = 0;
    while k < total
        invariant
            total == segdefs@.len(),
            total > 0,
            k <= total,
            segments_ok(segdefs@),
            max_id == highest_id(segdefs@, total as int),
            nodes@.len() == max_id + 1,
            forall|id: int|
                0 <= id < nodes@.len() ==> node_matches(#[trigger] nodes@[id], segdefs@, k as int, id),
            forall|j: int|
                0 < j <= k ==> area_after(segdefs@, j, (#[trigger] segdefs@[j - 1])@[0] as int)
                    <= u64::MAX,
        decreases total - k,
    {
        let seg = &segdefs[k];
        assert(segment_ok(segdefs@[k as int]@));
        let w = seg[0];
        let w_idx = w as usize;
        proof {
            lemma_highest_bounds(segdefs@, total as int, k as int);
        }
        let ghost before = nodes@;
        let ghost was_defined = defined_by(segdefs@, k as int, w as int);
        assert(node_matches(before[w as int], segdefs@, k as int, w as int));
        let mut area_add: u128 = 0;
        let seg_len = seg.len();
        if w != NODE_GND && w != NODE_PWR {
            area_add = shoelace(seg);
            if nodes[w_idx].area as u128 + area_add > u64::MAX as u128 {
                proof {
                    assert(area_after(segdefs@, k as int + 1, w as int) > u64::MAX);
                    assert(segdefs@[k as int + 1 - 1]@[0] == w);
                }
                return Err(BuildError::AreaOverflow);
            }
        }
        if nodes[w_idx].num == EMPTYNODE {
            nodes[w_idx].num = w;
            nodes[w_idx].pullup = seg[1] == 1;
            nodes[w_idx].state = false;
            nodes[w_idx].area = 0;
        }
        if w != NODE_GND && w != NODE_PWR {
            nodes[w_idx].area = (nodes[w_idx].area as u128 + area_add) as u64;
            nodes[w_idx].segs.push((seg[3], seg[seg.len() - 1]));
        }
        proof {
            assert forall|id: int| 0 <= id < nodes@.len() implies node_matches(
                #[trigger] nodes@[id],
                segdefs@,
                k as int + 1,
                id,
            ) by {
                assert(node_matches(before[id], segdefs@, k as int, id));
                if id == w {
                    let now = nodes@[id];
                    assert(segdefs@[k as int]@[0] == id);
                    assert(defined_by(segdefs@, k as int + 1, id));
                    assert(ends_after(segdefs@, k as int + 1, id) == if is_rail(w) {
                        ends_after(segdefs@, k as int, id)
                    } else {
                        ends_after(segdefs@, k as int, id).push((seg@[3], seg@.last()))
                    });
                    assert(area_after(segdefs@, k as int + 1, id) == if is_rail(w) {
                        area_after(segdefs@, k as int, id)
                    } else {
                        area_after(segdefs@, k as int, id) + segment_area(seg@)
                    });
                    assert(pullup_after(segdefs@, k as int + 1, id) == if was_defined {
                        pullup_after(segdefs@, k as int, id)
                    } else {
                        seg@[1] == 1
                    });
                    if !was_defined {
                        lemma_undefined_is_empty(segdefs@, k as int, id);
                        assert(before[id].is_blank());
                    } else {
                        assert(before[id].num == id);
                    }
                    assert(now.num == id);
                    assert(now.pullup == pullup_after(segdefs@, k as int + 1, id));
                    assert(!now.state);
                    assert(now.gates@.len() == 0);
                    assert(now.area == area_after(segdefs@, k as int + 1, id));
                    assert(now.segs@ == ends_after(segdefs@, k as int + 1, id));
                } else {
                    assert(nodes@[id] == before[id]);
                    if defined_by(segdefs@, k as int + 1, id) {
                        let j = choose|j: int| 0 <= j < k + 1 && (#[trigger] segdefs@[j])@[0] == id;
                        assert(j < k);
                        assert(defined_by(segdefs@, k as int, id));
                    }
                    if defined_by(segdefs@, k as int, id) {
                        let j = choose|j: int| 0 <= j < k && (#[trigger] segdefs@[j])@[0] == id;
                        assert(defined_by(segdefs@, k as int + 1, id));
                    }
                }
            }
            assert(area_after(segdefs@, k as int + 1, w as int) <= u64::MAX);
        }
        k += 1;
    }
    proof {
        if area_overflows(segdefs@) {
            let j = choose|j: int|
                0 < j <= segdefs@.len() && area_after(
                    segdefs@,
                    j,
                    (#[trigger] segdefs@[j - 1])@[0] as int,
                ) > u64::MAX;
            assert(false);
        }
    }
    Ok(nodes)
}

/// No record's wire number exceeds the highest.
pub proof fn lemma_highest_bounds(segs: Seq<Vec<u16>>, k: int, j: int)
    requires
        0 <= j < k <= segs.len(),
    ensures
        segs[j]@[0] <= highest_id(segs, k),
    decreases k,
{
    if j < k - 1 {
        lemma_highest_bounds(segs, k - 1, j);
    }
}

/// A wire that none of the first `k` records names has no area and no
/// segment ends after them.
pub proof fn lemma_undefined_is_empty(segs: Seq<Vec<u16>>, k: int, id: int)
    requires
        0 <= k <= segs.len(),
        !defined_by(segs, k, id),
    ensures
        area_after(segs, k, id) == 0,
        ends_after(segs, k, id) == Seq::<(u16, u16)>::empty(),
        !pullup_after(segs, k, id),
    decreases k,
{
    if k > 0 {
        assert(segs[k - 1]@[0] != id);
        assert(!defined_by(segs, k - 1, id)) by {
            if defined_by(segs, k - 1, id) {
                let j = choose|j: int| 0 <= j < k - 1 && (#[trigger] segs[j])@[0] == id;
                assert(0 <= j < k && segs[j]@[0] == id);
            }
        }
        lemma_undefined_is_empty(segs, k - 1, id);
    }
}

/// What a name-keyed map of the FNV-hashed kind holds: for each name,
/// as its characters, the number stored under it.
pub uninterp spec fn names_of(map: FnvHashMap<String, u16>) -> Map<Seq<char>, u16>;

/// `FnvHashMap::default`: a name-keyed map that holds nothing.
#[verifier::external_body]
pub(crate) fn names_new() -> (names: FnvHashMap<String, u16>)
    ensures
        names_of(names).dom() =~= Set::empty(),
{
    FnvHashMap::default()
}

/// `HashMap::insert` on a name-keyed map: afterwards `name` maps to
/// `index` and every other name is as before.
#[verifier::external_body]
pub(crate) fn names_insert(names: &mut FnvHashMap<String, u16>, name: String, index: u16)
    ensures
        names_of(*final(names)) == names_of(*old(names)).insert(name@, index),
{
    names.insert(name, index);
}

/// The transistor that a definition stands for: not conducting, and with
/// a rail, if it touches one, as its second channel end.
pub open spec fn canonical(def: TransistorDefinition) -> Transistor {
    let c1 = if def.c1 == NODE_GND {
        def.c2
    } else {
        def.c1
    };
    let c2 = if def.c1 == NODE_GND {
        NODE_GND
    } else {
        def.c2
    };
    Transistor {
        on: false,
        c1: if c1 == NODE_PWR {
            c2
        } else {
            c1
        },
        c2: if c1 == NODE_PWR {
            NODE_PWR
        } else {
            c2
        },
        gate: def.gate,
    }
}

/// Whether a definition names a wire that a table of `node_total` wires
/// has not.
pub open spec fn dangling(def: TransistorDefinition, node_total: int) -> bool {
    def.gate >= node_total || def.c1 >= node_total || def.c2 >= node_total
}

/// Whether some definition dangles.
pub open spec fn any_dangling(defs: Seq<TransistorDefinition>, node_total: int) -> bool {
    exists|i: int| 0 <= i < defs.len() && dangling(#[trigger] defs[i], node_total)
}

/// The channel row of wire `n` after the first `k` transistors: their
/// indices, in order, once for each channel end that touches `n`. Rails
/// have empty rows.
pub open spec fn links_after(defs: Seq<TransistorDefinition>, k: int, n: int) -> Seq<u16>
    decreases k,
{
    if k <= 0 {
        Seq::empty()
    } else {
        let before = links_after(defs, k - 1, n);
        let t = canonical(defs[k - 1]);
        let tracked_wire = n != NODE_GND && n != NODE_PWR;
        let first = if t.c1 == n && tracked_wire {
            before.push((k - 1) as u16)
        } else {
            before
        };
        if t.c2 == n && tracked_wire {
            first.push((k - 1) as u16)
        } else {
            first
        }
    }
}

/// The indices, in order, of those of the first `k` transistors whose
/// gate is wire `n`.
pub open spec fn gates_after(defs: Seq<TransistorDefinition>, k: int, n: int) -> Seq<u16>
    decreases k,
{
    if k <= 0 {
        Seq::empty()
    } else if defs[k - 1].gate == n {
        gates_after(defs, k - 1, n).push((k - 1) as u16)
    } else {
        gates_after(defs, k - 1, n)
    }
}

/// The index of each of the first `k` transistors under its name; of two
/// with one name the later stays.
pub open spec fn names_after(defs: Seq<TransistorDefinition>, k: int) -> Map<Seq<char>, u16>
    decreases k,
{
    if k <= 0 {
        Map::empty()
    } else {
        names_after(defs, k - 1).insert(defs[k - 1].name@, (k - 1) as u16)
    }
}

/// Whether some wire is touched by more channel ends than a row holds.
pub open spec fn any_crowded(defs: Seq<TransistorDefinition>) -> bool {
    exists|n: int| 0 <= n < MAX_NODES && (#[trigger] links_after(defs, defs.len() as int, n)).len()
        > MAX_C1_C2
}

/// Whether `now` is `before` with `gates` appended to its gate list.
pub open spec fn gained_gates(
    now: NodeDefinition,
    before: NodeDefinition,
    gates: Seq<u16>,
) -> bool {
    &&& now.area == before.area
    &&& now.num == before.num
    &&& now.pullup == before.pullup
    &&& now.state == before.state
    &&& now.segs == before.segs
    &&& now.gates@ == before.gates@ + gates
}

/// Whether row `n` of the channel table holds `links` and then zeroes.
pub open spec fn row_holds(row: Seq<u16>, count: u8, links: Seq<u16>) -> bool {
    &&& row.len() == MAX_C1_C2
    &&& links.len() <= MAX_C1_C2
    &&& count == links.len()
    &&& forall|i: int| 0 <= i < links.len() ==> (#[trigger] row[i]) == links[i]
    &&& forall|i: int| links.len() <= i < MAX_C1_C2 ==> (#[trigger] row[i]) == 0
}

/// A channel row grows with the transistors.
pub proof fn lemma_links_grow(defs: Seq<TransistorDefinition>, k: int, later: int, n: int)
    requires
        0 <= k <= later,
    ensures
        links_after(defs, k, n).len() <= links_after(defs, later, n).len(),
    decreases later - k,
{
    if k < later {
        lemma_links_grow(defs, k, later - 1, n);
    }
}

/// Every entry of a channel row is the index of one of the transistors
/// counted.
pub proof fn lemma_links_below(defs: Seq<TransistorDefinition>, k: int, n: int)
    requires
        0 <= k <= 65536,
    ensures
        forall|i: int|
            0 <= i < links_after(defs, k, n).len() ==> (#[trigger] links_after(defs, k, n)[i]) < k,
    decreases k,
{
    if k > 0 {
        lemma_links_below(defs, k - 1, n);
        let before = links_after(defs, k - 1, n);
        let now = links_after(defs, k, n);
        assert forall|i: int| 0 <= i < now.len() implies (#[trigger] now[i]) < k by {
            if i < before.len() {
                assert(now[i] == before[i]);
            } else {
                assert(now[i] == (k - 1) as u16);
            }
        }
    }
}

/// Every entry of a gate list is the index of one of the transistors
/// counted.
pub proof fn lemma_gates_below(defs: Seq<TransistorDefinition>, k: int, n: int)
    requires
        0 <= k <= 65536,
    ensures
        forall|i: int|
            0 <= i < gates_after(defs, k, n).len() ==> (#[trigger] gates_after(defs, k, n)[i]) < k,
    decreases k,
{
    if k > 0 {
        lemma_gates_below(defs, k - 1, n);
        let before = gates_after(defs, k - 1, n);
        let now = gates_after(defs, k, n);
        assert forall|i: int| 0 <= i < now.len() implies (#[trigger] now[i]) < k by {
            if i < before.len() {
                assert(now[i] == before[i]);
            } else {
                assert(now[i] == (k - 1) as u16);
            }
        }
    }
}

/// A wire that no counted transistor touches has an empty channel row.
pub proof fn lemma_links_untouched(defs: Seq<TransistorDefinition>, k: int, n: int)
    requires
        0 <= k <= defs.len(),
        forall|j: int|
            0 <= j < k ==> canonical(#[trigger] defs[j]).c1 != n && canonical(defs[j]).c2 != n,
    ensures
        links_after(defs, k, n).len() == 0,
    decreases k,
{
    if k > 0 {
        assert(canonical(defs[k - 1]).c1 != n);
        lemma_links_untouched(defs, k - 1, n);
    }
}

/// A row of the channel table with nothing in it.
fn blank_row() -> (row: Vec<u16>)
    ensures
        row@.len() == MAX_C1_C2,
        forall|i: int| 0 <= i < MAX_C1_C2 ==> (#[trigger] row@[i]) == 0,
{
    let mut row: Vec<u16> = Vec::with_capacity(MAX_C1_C2);
    let mut i: usize = 0;
    while i < MAX_C1_C2
        invariant
            i <= MAX_C1_C2,
            row@.len() == i,
            forall|j: int| 0 <= j < i ==> (#[trigger] row@[j]) == 0,
        decreases MAX_C1_C2 - i,
    {
        row.push(0u16);
        i += 1;
    }
    row
}

/// Appends transistor `index` to the channel row of `wire`, unless the
/// wire is a rail. Refused when the row is full.
fn link(
    node_counts: &mut Vec<u8>,
    nodes_c1_c2: &mut Vec<Vec<u16>>,
    wire: u16,
    index: u16,
) -> (linked: bool)
    requires
        old(node_counts)@.len() == MAX_NODES,
        old(nodes_c1_c2)@.len() == MAX_NODES,
        wire < MAX_NODES,
        old(nodes_c1_c2)@[wire as int]@.len() == MAX_C1_C2,
        old(node_counts)@[wire as int] <= MAX_C1_C2,
    ensures
        final(node_counts)@.len() == MAX_NODES,
        final(nodes_c1_c2)@.len() == MAX_NODES,
        forall|n: int|
            0 <= n < MAX_NODES && n != wire ==> (#[trigger] final(node_counts)@[n]) == old(
                node_counts,
            )@[n],
        forall|n: int|
            0 <= n < MAX_NODES && n != wire ==> (#[trigger] final(nodes_c1_c2)@[n]) == old(
                nodes_c1_c2,
            )@[n],
        linked == (is_rail(wire) || old(node_counts)@[wire as int] < MAX_C1_C2),
        !linked || is_rail(wire) ==> final(node_counts)@[wire as int] == old(node_counts)@[wire as int]
            && final(nodes_c1_c2)@[wire as int] == old(nodes_c1_c2)@[wire as int],
        linked && !is_rail(wire) ==> final(node_counts)@[wire as int] == old(node_counts)@[wire as int]
            + 1 && final(nodes_c1_c2)@[wire as int]@ == old(nodes_c1_c2)@[wire as int]@.update(
            old(node_counts)@[wire as int] as int,
            index,
        ),
{
    if wire == NODE_PWR || wire == NODE_GND {
        return true;
    }
    let count = node_counts[wire as usize];
    if count as usize >= MAX_C1_C2 {
        return false;
    }
    nodes_c1_c2[wire as usize][count as usize] = index;
    node_counts[wire as usize] = count + 1;
    true
}

/// Builds the transistor table and the channel table, puts each
/// transistor at the end of the list `gates` of the wire that gates it, and
/// indexes the transistors by name. Nothing is changed when the build is
/// refused.
pub fn setup_transistors(
    nodes: &mut Vec<NodeDefinition>,
    trans_defs: Vec<TransistorDefinition>,
) -> (built: Result<
    (Vec<Transistor>, Vec<u8>, Vec<Vec<u16>>, FnvHashMap<String, u16>),
    BuildError,
>)
    ensures
        final(nodes)@.len() == old(nodes)@.len(),
        built is Err ==> final(nodes)@ == old(nodes)@,
        built matches Err(e) ==> e == BuildError::TooManyNodes || e == BuildError::TooManyTransistors
            || e == BuildError::DanglingTransistor || e == BuildError::TooManyChannels,
        built matches Err(e) ==> (e == BuildError::TooManyNodes <==> old(nodes)@.len() > MAX_NODES),
        built matches Err(e) ==> (e == BuildError::TooManyTransistors <==> old(nodes)@.len()
            <= MAX_NODES && trans_defs@.len() > 65536),
        built matches Err(e) ==> (e == BuildError::DanglingTransistor <==> old(nodes)@.len()
            <= MAX_NODES && trans_defs@.len() <= 65536 && any_dangling(
            trans_defs@,
            old(nodes)@.len() as int,
        )),
        built is Ok <==> old(nodes)@.len() <= MAX_NODES && trans_defs@.len() <= 65536
            && !any_dangling(trans_defs@, old(nodes)@.len() as int) && !any_crowded(trans_defs@),
        built matches Ok(tables) ==> {
            &&& tables.0@.len() == trans_defs@.len()
            &&& forall|i: int|
                0 <= i < trans_defs@.len() ==> (#[trigger] tables.0@[i]) == canonical(trans_defs@[i])
            &&& tables.1@.len() == MAX_NODES
            &&& tables.2@.len() == MAX_NODES
            &&& forall|n: int|
                0 <= n < MAX_NODES ==> row_holds(
                    (#[trigger] tables.2@[n])@,
                    tables.1@[n],
                    links_after(trans_defs@, trans_defs@.len() as int, n),
                )
            &&& forall|n: int|
                0 <= n < old(nodes)@.len() ==> gained_gates(
                    #[trigger] final(nodes)@[n],
                    old(nodes)@[n],
                    gates_after(trans_defs@, trans_defs@.len() as int, n),
                )
            &&& names_of(tables.3) == names_after(trans_defs@, trans_defs@.len() as int)
        },
{
    let node_total = nodes.len();
    let total = trans_defs.len();
    if node_total > MAX_NODES {
        return Err(BuildError::TooManyNodes);
    }
    if total > 65536 {
        return Err(BuildError::TooManyTransistors);
    }
    let mut i: usize = 0;
    while i < total
        invariant
            total == trans_defs@.len(),
            total <= 65536,
            node_total == nodes@.len(),
            node_total <= MAX_NODES,
            nodes@ == old(nodes)@,
            i <= total,
            forall|j: int| 0 <= j < i ==> !dangling(#[trigger] trans_defs@[j], node_total as int),
        decreases total - i,
    {
        let def = &trans_defs[i];
        if def.gate as usize >= node_total || def.c1 as usize >= node_total || def.c2 as usize
            >= node_total {
            assert(dangling(trans_defs@[i as int], node_total as int));
            return Err(BuildError::DanglingTransistor);
        }
        i += 1;
    }
    assert(!any_dangling(trans_defs@, node_total as int));
    let mut node_counts: Vec<u8> = Vec::with_capacity(MAX_NODES);
    let mut nodes_c1_c2: Vec<Vec<u16>> = Vec::with_capacity(MAX_NODES);
    let mut n: usize = 0;
    while n < MAX_NODES
        invariant
            n <= MAX_NODES,
            node_counts@.len() == n,
            nodes_c1_c2@.len() == n,
            forall|m: int|
                0 <= m < n ==> row_holds(
                    (#[trigger] nodes_c1_c2@[m])@,
                    node_counts@[m],
                    Seq::<u16>::empty(),
                ),
        decreases MAX_NODES - n,
    {
        node_counts.push(0u8);
        nodes_c1_c2.push(blank_row());
        n += 1;
    }
    let mut transistors: Vec<Transistor> = Vec::with_capacity(total);
    let mut i: usize = 0;
    while i < total
        invariant
            total == trans_defs@.len(),
            total <= 65536,
            node_total == nodes@.len(),
            node_total <= MAX_NODES,
            nodes@ == old(nodes)@,
            i <= total,
            !any_dangling(trans_defs@, node_total as int),
            transistors@.len() == i,
            forall|j: int| 0 <= j < i ==> (#[trigger] transistors@[j]) == canonical(trans_defs@[j]),
            node_counts@.len() == MAX_NODES,
            nodes_c1_c2@.len() == MAX_NODES,
            forall|m: int|
                0 <= m < MAX_NODES ==> row_holds(
                    (#[trigger] nodes_c1_c2@[m])@,
                    node_counts@[m],
                    links_after(trans_defs@, i as int, m),
                ),
        decreases total - i,
    {
        let def = &trans_defs[i];
        assert(!dangling(trans_defs@[i as int], node_total as int));
        let mut c1 = def.c1;
        let mut c2 = def.c2;
        let gate = def.gate;
        if c1 == NODE_GND {
            c1 = c2;
            c2 = NODE_GND;
        }
        if c1 == NODE_PWR {
            c1 = c2;
            c2 = NODE_PWR;
        }
        assert(c1 == canonical(trans_defs@[i as int]).c1);
        assert(c2 == canonical(trans_defs@[i as int]).c2);
        let ghost rows_before = nodes_c1_c2@;
        let ghost counts_before = node_counts@;
        assert(row_holds(
            rows_before[c1 as int]@,
            counts_before[c1 as int],
            links_after(trans_defs@, i as int, c1 as int),
        ));
        let linked_first = link(&mut node_counts, &mut nodes_c1_c2, c1, i as u16);
        if !linked_first {
            proof {
                assert(links_after(trans_defs@, i as int + 1, c1 as int).len() > MAX_C1_C2);
                lemma_links_grow(trans_defs@, i as int + 1, total as int, c1 as int);
            }
            return Err(BuildError::TooManyChannels);
        }
        let ghost rows_between = nodes_c1_c2@;
        let ghost counts_between = node_counts@;
        let ghost first_links = if is_rail(c1) {
            links_after(trans_defs@, i as int, c1 as int)
        } else {
            links_after(trans_defs@, i as int, c1 as int).push(i as u16)
        };
        assert(row_holds(rows_between[c1 as int]@, counts_between[c1 as int], first_links));
        assert(row_holds(
            rows_between[c2 as int]@,
            counts_between[c2 as int],
            if c2 == c1 {
                first_links
            } else {
                links_after(trans_defs@, i as int, c2 as int)
            },
        )) by {
            if c2 != c1 {
                assert(rows_between[c2 as int] == rows_before[c2 as int]);
                assert(row_holds(
                    rows_before[c2 as int]@,
                    counts_before[c2 as int],
                    links_after(trans_defs@, i as int, c2 as int),
                ));
            }
        }
        let linked_second = link(&mut node_counts, &mut nodes_c1_c2, c2, i as u16);
        if !linked_second {
            proof {
                assert(links_after(trans_defs@, i as int + 1, c2 as int).len() > MAX_C1_C2);
                lemma_links_grow(trans_defs@, i as int + 1, total as int, c2 as int);
            }
            return Err(BuildError::TooManyChannels);
        }
        transistors.push(Transistor { c1, c2, gate, on: false });
        proof {
            assert forall|m: int| 0 <= m < MAX_NODES implies row_holds(
                (#[trigger] nodes_c1_c2@[m])@,
                node_counts@[m],
                links_after(trans_defs@, i as int + 1, m),
            ) by {
                assert(row_holds(
                    rows_before[m]@,
                    counts_before[m],
                    links_after(trans_defs@, i as int, m),
                ));
                if m != c1 && m != c2 {
                    assert(rows_between[m] == rows_before[m]);
                    assert(nodes_c1_c2@[m] == rows_between[m]);
                } else if m == c2 && m != c1 {
                    assert(rows_between[m] == rows_before[m]);
                } else if m == c1 && m != c2 {
                    assert(nodes_c1_c2@[m] == rows_between[m]);
                }
            }
        }
        i += 1;
    }
    assert(!any_crowded(trans_defs@)) by {
        if any_crowded(trans_defs@) {
            let m = choose|m: int|
                0 <= m < MAX_NODES && (#[trigger] links_after(
                    trans_defs@,
                    trans_defs@.len() as int,
                    m,
                )).len() > MAX_C1_C2;
            assert(row_holds(
                nodes_c1_c2@[m]@,
                node_counts@[m],
                links_after(trans_defs@, total as int, m),
            ));
        }
    }
    let mut names = names_new();
    assert(names_of(names) =~= names_after(trans_defs@, 0));
    let mut i: usize = 0;
    while i < total
        invariant
            total == trans_defs@.len(),
            total <= 65536,
            node_total == nodes@.len(),
            node_total == old(nodes)@.len(),
            i <= total,
            !any_dangling(trans_defs@, node_total as int),
            forall|m: int|
                0 <= m < node_total ==> gained_gates(
                    #[trigger] nodes@[m],
                    old(nodes)@[m],
                    gates_after(trans_defs@, i as int, m),
                ),
            names_of(names) == names_after(trans_defs@, i as int),
        decreases total - i,
    {
        let def = &trans_defs[i];
        assert(!dangling(trans_defs@[i as int], node_total as int));
        let gate = def.gate as usize;
        let ghost before = nodes@;
        nodes[gate].gates.push(i as u16);
        names_insert(&mut names, def.name.clone(), i as u16);
        proof {
            assert forall|m: int| 0 <= m < node_total implies gained_gates(
                #[trigger] nodes@[m],
                old(nodes)@[m],
                gates_after(trans_defs@, i as int + 1, m),
            ) by {
                assert(gained_gates(before[m], old(nodes)@[m], gates_after(trans_defs@, i as int, m)));
                if m == gate {
                    assert(nodes@[m].gates@ =~= old(nodes)@[m].gates@ + gates_after(
                        trans_defs@,
                        i as int + 1,
                        m,
                    ));
                } else {
                    assert(nodes@[m] == before[m]);
                }
            }
        }
        i += 1;
    }
    Ok((transistors, node_counts, nodes_c1_c2, names))
}

/// A gate list holds transistors whose gate is its wire.
pub proof fn lemma_gates_are_gated(defs: Seq<TransistorDefinition>, k: int, n: int)
    requires
        0 <= k <= 65536,
        k <= defs.len(),
    ensures
        forall|j: int|
            0 <= j < gates_after(defs, k, n).len() ==> defs[(#[trigger] gates_after(
                defs,
                k,
                n,
            )[j]) as int].gate == n,
    decreases k,
{
    if k > 0 {
        lemma_gates_are_gated(defs, k - 1, n);
        let before = gates_after(defs, k - 1, n);
        let now = gates_after(defs, k, n);
        assert forall|j: int| 0 <= j < now.len() implies defs[(#[trigger] now[j]) as int].gate
            == n by {
            if j < before.len() {
                assert(now[j] == before[j]);
            } else {
                assert(now[j] == (k - 1) as u16);
            }
        }
    }
}

/// A transistor is in the list `gates` of the wire that gates it.
pub proof fn lemma_gated_is_listed(defs: Seq<TransistorDefinition>, k: int, t: int)
    requires
        0 <= t < k <= 65536,
        k <= defs.len(),
    ensures
        gates_after(defs, k, defs[t].gate as int).contains(t as u16),
    decreases k,
{
    let n = defs[t].gate as int;
    let now = gates_after(defs, k, n);
    if t == k - 1 {
        assert(now[now.len() - 1] == t as u16);
    } else {
        lemma_gated_is_listed(defs, k - 1, t);
        let before = gates_after(defs, k - 1, n);
        let j = choose|j: int| 0 <= j < before.len() && before[j] == t as u16;
        assert(now[j] == t as u16);
    }
}

/// A channel row holds transistors with a channel end on its wire.
pub proof fn lemma_links_are_ends(defs: Seq<TransistorDefinition>, k: int, n: int)
    requires
        0 <= k <= 65536,
        k <= defs.len(),
    ensures
        forall|i: int|
            0 <= i < links_after(defs, k, n).len() ==> {
                let t = (#[trigger] links_after(defs, k, n)[i]) as int;
                0 <= t < k && (canonical(defs[t]).c1 == n || canonical(defs[t]).c2 == n)
            },
    decreases k,
{
    if k > 0 {
        lemma_links_are_ends(defs, k - 1, n);
        let before = links_after(defs, k - 1, n);
        let now = links_after(defs, k, n);
        assert forall|i: int| 0 <= i < now.len() implies {
            let t = (#[trigger] now[i]) as int;
            0 <= t < k && (canonical(defs[t]).c1 == n || canonical(defs[t]).c2 == n)
        } by {
            if i < before.len() {
                assert(now[i] == before[i]);
            } else {
                assert(now[i] == (k - 1) as u16);
            }
        }
    }
}

/// A transistor is in the channel row of each of its channel ends that is
/// no rail.
pub proof fn lemma_end_is_linked(defs: Seq<TransistorDefinition>, k: int, t: int, n: int)
    requires
        0 <= t < k <= 65536,
        k <= defs.len(),
        n != NODE_GND && n != NODE_PWR,
        canonical(defs[t]).c1 == n || canonical(defs[t]).c2 == n,
    ensures
        links_after(defs, k, n).contains(t as u16),
    decreases k,
{
    let now = links_after(defs, k, n);
    if t == k - 1 {
        assert(now[now.len() - 1] == t as u16);
    } else {
        lemma_end_is_linked(defs, k - 1, t, n);
        let before = links_after(defs, k - 1, n);
        let j = choose|j: int| 0 <= j < before.len() && before[j] == t as u16;
        assert(now[j] == t as u16);
    }
}

} // verus!
