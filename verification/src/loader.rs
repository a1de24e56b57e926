use vstd::prelude::*;
use vstd::utf8::{decode_utf8, valid_utf8};
use fnv::FnvHashMap;
use crate::components::TransistorDefinition;
use crate::consts::CPU_OFFSET;
use crate::errors::BuildError;
use crate::preprocessor::{convert_id, converted, names_insert, names_new, names_of};
use crate::tables::{
    lines, lines_of, number_in, parse_number, pieces, rows, split, trim, trimmed, BAR, COMMA,
};

verus! {

/// `String::from_utf8`: the text that the bytes encode, if they are
/// well-formed UTF-8.
#[verifier::external_body]
fn text_of(bytes: Vec<u8>) -> (text: Option<String>)
    ensures
        text is Some <==> valid_utf8(bytes@),
        text matches Some(s) ==> s@ == decode_utf8(bytes@),
{
    String::from_utf8(bytes).ok()
}

/// The sixteen-bit lists that a vector of vectors holds.
pub open spec fn rows16(parts: Seq<Vec<u16>>) -> Seq<Seq<u16>> {
    Seq::new(parts.len(), |i: int| parts[i]@)
}

/// The latch rows that a vector of vectors holds.
pub open spec fn latch_rows(parts: Seq<Vec<(i32, i32)>>) -> Seq<Seq<(i32, i32)>> {
    Seq::new(parts.len(), |i: int| parts[i]@)
}

/// The wire number that a field spells, moved up by `offset` and
/// renumbered; none where the field spells no number of sixteen bits or
/// the sum has more.
pub open spec fn wire_of(field: Seq<u8>, offset: u16, table: Map<u16, u16>) -> Option<u16> {
    match number_in(field, 0, 65535) {
        Some(v) => if v + offset <= 65535 {
            Some(converted(table, (v + offset) as u16))
        } else {
            None
        },
        None => None,
    }
}

/// The segment record that a line spells: its fields are numbers of
/// sixteen bits, and the first is a wire number.
pub open spec fn segment_of(line: Seq<u8>, offset: u16, table: Map<u16, u16>) -> Option<Seq<u16>> {
    let fields = pieces(line, COMMA);
    if wire_of(fields[0], offset, table) is Some && (forall|i: int|
        1 <= i < fields.len() ==> number_in(#[trigger] fields[i], 0, 65535) is Some) {
        Some(
            Seq::new(
                fields.len(),
                |i: int|
                    if i == 0 {
                        wire_of(fields[0], offset, table).unwrap()
                    } else {
                        number_in(fields[i], 0, 65535).unwrap() as u16
                    },
            ),
        )
    } else {
        None
    }
}

/// The segment records that a table spells, one per line.
pub open spec fn segments_of(text: Seq<u8>, offset: u16, table: Map<u16, u16>) -> Option<
    Seq<Seq<u16>>,
> {
    let all = lines_of(text);
    if forall|i: int| 0 <= i < all.len() ==> segment_of(#[trigger] all[i], offset, table) is Some {
        Some(Seq::new(all.len(), |i: int| segment_of(all[i], offset, table).unwrap()))
    } else {
        None
    }
}

/// Reads a field as a wire number.
fn parse_wire(field: &Vec<u8>, offset: u16, conversion_table: &FnvHashMap<u16, u16>) -> (wire:
    Option<u16>)
    ensures
        wire == wire_of(field@, offset, conversion_table@),
{
    match parse_number(field.as_slice(), 0, 65535) {
        Some(v) => {
            if v + offset as i64 > 65535 {
                None
            } else {
                Some(convert_id((v + offset as i64) as u16, conversion_table))
            }
        },
        None => None,
    }
}

/// Reads one segment record.
fn parse_segment(line: &Vec<u8>, offset: u16, conversion_table: &FnvHashMap<u16, u16>) -> (record:
    Option<Vec<u16>>)
    ensures
        match segment_of(line@, offset, conversion_table@) {
            Some(expected) => record matches Some(found) && found@ == expected,
            None => record is None,
        },
{
    let fields = split(line.as_slice(), COMMA);
    let ghost spelled = pieces(line@, COMMA);
    let mut record: Vec<u16> = Vec::with_capacity(fields.len());
    assert(rows(fields@)[0] == fields@[0]@);
    match parse_wire(&fields[0], offset, conversion_table) {
        Some(wire) => {
            record.push(wire);
        },
        None => {
            return None;
        },
    }
    let mut i: usize = 1;
    while i < fields.len()
        invariant
            rows(fields@) == spelled,
            spelled == pieces(line@, COMMA),
            1 <= i <= fields@.len(),
            record@.len() == i,
            wire_of(spelled[0], offset, conversion_table@) == Some(record@[0]),
            forall|j: int|
                1 <= j < i ==> number_in(#[trigger] spelled[j], 0, 65535) == Some(record@[j] as int),
        decreases fields@.len() - i,
    {
        assert(rows(fields@)[i as int] == fields@[i as int]@);
        match parse_number(fields[i].as_slice(), 0, 65535) {
            Some(v) => {
                record.push(v as u16);
            },
            None => {
                assert(number_in(spelled[i as int], 0, 65535) is None);
                return None;
            },
        }
        i += 1;
    }
    proof {
        let expected = segment_of(line@, offset, conversion_table@);
        assert(rows(fields@).len() == fields@.len());
        assert(expected is Some);
        assert(expected.unwrap() =~= record@);
    }
    Some(record)
}

/// Reads one table of segment records.
fn parse_segments(text: &[u8], offset: u16, conversion_table: &FnvHashMap<u16, u16>) -> (records:
    Option<Vec<Vec<u16>>>)
    ensures
        match segments_of(text@, offset, conversion_table@) {
            Some(expected) => records matches Some(found) && rows16(found@) == expected,
            None => records is None,
        },
{
    let all = lines(text);
    let ghost wanted = lines_of(text@);
    assert(rows(all@).len() == all@.len());
    let mut records: Vec<Vec<u16>> = Vec::with_capacity(all.len());
    let mut k: usize = 0;
    while k < all.len()
        invariant
            rows(all@) == wanted,
            wanted == lines_of(text@),
            wanted.len() == all@.len(),
            k <= all@.len(),
            records@.len() == k,
            forall|j: int|
                0 <= j < k ==> segment_of(#[trigger] wanted[j], offset, conversion_table@) == Some(
                    records@[j]@,
                ),
        decreases all@.len() - k,
    {
        assert(rows(all@)[k as int] == all@[k as int]@);
        match parse_segment(&all[k], offset, conversion_table) {
            Some(record) => {
                records.push(record);
            },
            None => {
                assert(segment_of(wanted[k as int], offset, conversion_table@) is None);
                return None;
            },
        }
        k += 1;
    }
    proof {
        let expected = segments_of(text@, offset, conversion_table@);
        assert(expected is Some);
        assert(rows16(records@) =~= expected.unwrap());
    }
    Some(records)
}

/// Reads the segment records of both chips: the picture chip's table as
/// it stands, then the processor's with its wire numbers moved up by the
/// processor's offset; every wire number is renumbered. Each line holds
/// numbers of sixteen bits between commas.
pub fn load_segment_definitions(
    ppu_table: &[u8],
    cpu_table: &[u8],
    conversion_table: &FnvHashMap<u16, u16>,
) -> (loaded: Result<Vec<Vec<u16>>, BuildError>)
    ensures
        match (
            segments_of(ppu_table@, 0, conversion_table@),
            segments_of(cpu_table@, CPU_OFFSET, conversion_table@),
        ) {
            (Some(ppu), Some(cpu)) => loaded matches Ok(found) && rows16(found@) == ppu + cpu,
            _ => loaded matches Err(e) && e == BuildError::MalformedTable,
        },
{
    let mut seg_defs = match parse_segments(ppu_table, 0, conversion_table) {
        Some(found) => found,
        None => {
            return Err(BuildError::MalformedTable);
        },
    };
    let mut cpu_seg_defs = match parse_segments(cpu_table, CPU_OFFSET, conversion_table) {
        Some(found) => found,
        None => {
            return Err(BuildError::MalformedTable);
        },
    };
    let ghost ppu = rows16(seg_defs@);
    let ghost cpu = rows16(cpu_seg_defs@);
    seg_defs.append(&mut cpu_seg_defs);
    assert(rows16(seg_defs@) =~= ppu + cpu);
    Ok(seg_defs)
}

/// A transistor definition as plain values: the characters of its name,
/// its gate and its two channel ends.
pub struct TransistorSpec {
    pub name: Seq<char>,
    pub gate: u16,
    pub c1: u16,
    pub c2: u16,
}

/// The plain values of a definition.
pub open spec fn plain(def: TransistorDefinition) -> TransistorSpec {
    TransistorSpec { name: def.name@, gate: def.gate, c1: def.c1, c2: def.c2 }
}

/// The transistor that a line spells: a name, to which `prefix` is put in
/// front, then gate and channel ends as wire numbers; what follows the
/// fourth field is not looked at.
pub open spec fn transistor_of(
    line: Seq<u8>,
    prefix: Seq<u8>,
    offset: u16,
    table: Map<u16, u16>,
) -> Option<TransistorSpec> {
    let fields = pieces(line, COMMA);
    if fields.len() >= 4 && valid_utf8(prefix + fields[0]) && wire_of(fields[1], offset, table)
        is Some && wire_of(fields[2], offset, table) is Some && wire_of(fields[3], offset, table)
        is Some {
        Some(
            TransistorSpec {
                name: decode_utf8(prefix + fields[0]),
                gate: wire_of(fields[1], offset, table).unwrap(),
                c1: wire_of(fields[2], offset, table).unwrap(),
                c2: wire_of(fields[3], offset, table).unwrap(),
            },
        )
    } else {
        None
    }
}

/// The transistors that a table spells, one per line.
pub open spec fn transistors_of(
    text: Seq<u8>,
    prefix: Seq<u8>,
    offset: u16,
    table: Map<u16, u16>,
) -> Option<Seq<TransistorSpec>> {
    let all = lines_of(text);
    if forall|i: int|
        0 <= i < all.len() ==> transistor_of(#[trigger] all[i], prefix, offset, table) is Some {
        Some(Seq::new(all.len(), |i: int| transistor_of(all[i], prefix, offset, table).unwrap()))
    } else {
        None
    }
}

/// The plain values of a list of definitions.
pub open spec fn plain_all(defs: Seq<TransistorDefinition>) -> Seq<TransistorSpec> {
    Seq::new(defs.len(), |i: int| plain(defs[i]))
}

/// `prefix` followed by `field`.
fn joined(prefix: &[u8], field: &Vec<u8>) -> (whole: Vec<u8>)
    ensures
        whole@ == prefix@ + field@,
{
    let mut whole: Vec<u8> = Vec::with_capacity(prefix.len());
    let mut i: usize = 0;
    while i < prefix.len()
        invariant
            i <= prefix@.len(),
            whole@ == prefix@.take(i as int),
        decreases prefix@.len() - i,
    {
        whole.push(prefix[i]);
        assert(whole@ =~= prefix@.take(i as int + 1));
        i += 1;
    }
    assert(prefix@.take(prefix@.len() as int) =~= prefix@);
    let mut j: usize = 0;
    while j < field.len()
        invariant
            j <= field@.len(),
            whole@ == prefix@ + field@.take(j as int),
        decreases field@.len() - j,
    {
        whole.push(field[j]);
        assert(whole@ =~= prefix@ + field@.take(j as int + 1));
        j += 1;
    }
    assert(field@.take(field@.len() as int) =~= field@);
    whole
}

/// Reads one transistor definition.
fn parse_transistor(
    line: &Vec<u8>,
    name_prefix: &[u8],
    offset: u16,
    conversion_table: &FnvHashMap<u16, u16>,
) -> (def: Option<TransistorDefinition>)
    ensures
        match transistor_of(line@, name_prefix@, offset, conversion_table@) {
            Some(expected) => def matches Some(found) && plain(found) == expected,
            None => def is None,
        },
{
    let fields = split(line.as_slice(), COMMA);
    assert(rows(fields@).len() == fields@.len());
    if fields.len() < 4 {
        return None;
    }
    assert(rows(fields@)[0] == fields@[0]@);
    assert(rows(fields@)[1] == fields@[1]@);
    assert(rows(fields@)[2] == fields@[2]@);
    assert(rows(fields@)[3] == fields@[3]@);
    let name = match text_of(joined(name_prefix, &fields[0])) {
        Some(name) => name,
        None => {
            return None;
        },
    };
    let gate = match parse_wire(&fields[1], offset, conversion_table) {
        Some(wire) => wire,
        None => {
            return None;
        },
    };
    let c1 = match parse_wire(&fields[2], offset, conversion_table) {
        Some(wire) => wire,
        None => {
            return None;
        },
    };
    let c2 = match parse_wire(&fields[3], offset, conversion_table) {
        Some(wire) => wire,
        None => {
            return None;
        },
    };
    Some(TransistorDefinition { name, gate, c1, c2 })
}

/// Reads one table of transistor definitions.
fn parse_transistors(
    text: &[u8],
    name_prefix: &[u8],
    offset: u16,
    conversion_table: &FnvHashMap<u16, u16>,
) -> (defs: Option<Vec<TransistorDefinition>>)
    ensures
        match transistors_of(text@, name_prefix@, offset, conversion_table@) {
            Some(expected) => defs matches Some(found) && plain_all(found@) == expected,
            None => defs is None,
        },
{
    let all = lines(text);
    let ghost wanted = lines_of(text@);
    assert(rows(all@).len() == all@.len());
    let mut defs: Vec<TransistorDefinition> = Vec::with_capacity(all.len());
    let mut k: usize = 0;
    while k < all.len()
        invariant
            rows(all@) == wanted,
            wanted == lines_of(text@),
            wanted.len() == all@.len(),
            k <= all@.len(),
            defs@.len() == k,
            forall|j: int|
                0 <= j < k ==> transistor_of(
                    #[trigger] wanted[j],
                    name_prefix@,
                    offset,
                    conversion_table@,
                ) == Some(plain(defs@[j])),
        decreases all@.len() - k,
    {
        assert(rows(all@)[k as int] == all@[k as int]@);
        match parse_transistor(&all[k], name_prefix, offset, conversion_table) {
            Some(def) => {
                defs.push(def);
            },
            None => {
                assert(transistor_of(wanted[k as int], name_prefix@, offset, conversion_table@)
                    is None);
                return None;
            },
        }
        k += 1;
    }
    proof {
        let expected = transistors_of(text@, name_prefix@, offset, conversion_table@);
        assert(expected is Some);
        assert(plain_all(defs@) =~= expected.unwrap());
    }
    Some(defs)
}

/// The four bytes put before the names of the processor's tables.
pub open spec fn cpu_prefix() -> Seq<u8> {
    seq![99u8, 112u8, 117u8, 95u8]
}

fn cpu_prefix_bytes() -> (prefix: [u8; 4])
    ensures
        prefix@ == cpu_prefix(),
{
    let prefix = [99u8, 112u8, 117u8, 95u8];
    assert(prefix@ =~= cpu_prefix());
    prefix
}

/// Reads the transistor definitions of both chips: the picture chip's
/// table as it stands, then the processor's with `cpu_` before each name
/// and its wire numbers moved up by the processor's offset; every wire
/// number is renumbered. Each line holds a name, a gate wire and the two
/// channel ends between commas.
pub fn load_transistor_definitions(
    ppu_table: &[u8],
    cpu_table: &[u8],
    conversion_table: &FnvHashMap<u16, u16>,
) -> (loaded: Result<Vec<TransistorDefinition>, BuildError>)
    ensures
        match (
            transistors_of(ppu_table@, Seq::empty(), 0, conversion_table@),
            transistors_of(cpu_table@, cpu_prefix(), CPU_OFFSET, conversion_table@),
        ) {
            (Some(ppu), Some(cpu)) => loaded matches Ok(found) && plain_all(found@) == ppu + cpu,
            _ => loaded matches Err(e) && e == BuildError::MalformedTable,
        },
{
    let none: [u8; 0] = [];
    assert(none@ =~= Seq::<u8>::empty());
    let mut trans_defs = match parse_transistors(ppu_table, none.as_slice(), 0, conversion_table) {
        Some(found) => found,
        None => {
            return Err(BuildError::MalformedTable);
        },
    };
    let prefix = cpu_prefix_bytes();
    let mut cpu_transistor_defs = match parse_transistors(
        cpu_table,
        prefix.as_slice(),
        CPU_OFFSET,
        conversion_table,
    ) {
        Some(found) => found,
        None => {
            return Err(BuildError::MalformedTable);
        },
    };
    let ghost ppu = plain_all(trans_defs@);
    let ghost cpu = plain_all(cpu_transistor_defs@);
    trans_defs.append(&mut cpu_transistor_defs);
    assert(plain_all(trans_defs@) =~= ppu + cpu);
    Ok(trans_defs)
}

/// The latch bit that a field spells: the numbers of its two sides
/// around a bar; what follows a second bar is not looked at.
pub open spec fn latch_of(field: Seq<u8>) -> Option<(i32, i32)> {
    let sides = pieces(field, BAR);
    if sides.len() >= 2 && number_in(sides[0], i32::MIN as int, i32::MAX as int) is Some
        && number_in(sides[1], i32::MIN as int, i32::MAX as int) is Some {
        Some(
            (
                number_in(sides[0], i32::MIN as int, i32::MAX as int).unwrap() as i32,
                number_in(sides[1], i32::MIN as int, i32::MAX as int).unwrap() as i32,
            ),
        )
    } else {
        None
    }
}

/// The latch bits of one byte that a line spells, one per field.
pub open spec fn latch_row_of(line: Seq<u8>) -> Option<Seq<(i32, i32)>> {
    let fields = pieces(line, COMMA);
    if forall|i: int| 0 <= i < fields.len() ==> latch_of(#[trigger] fields[i]) is Some {
        Some(Seq::new(fields.len(), |i: int| latch_of(fields[i]).unwrap()))
    } else {
        None
    }
}

/// The latch table that a text spells, one byte per line.
pub open spec fn latch_table_of(text: Seq<u8>) -> Option<Seq<Seq<(i32, i32)>>> {
    let all = lines_of(text);
    if forall|i: int| 0 <= i < all.len() ==> latch_row_of(#[trigger] all[i]) is Some {
        Some(Seq::new(all.len(), |i: int| latch_row_of(all[i]).unwrap()))
    } else {
        None
    }
}

/// Reads one latch bit.
fn parse_latch(field: &Vec<u8>) -> (latch: Option<(i32, i32)>)
    ensures
        latch == latch_of(field@),
{
    let sides = split(field.as_slice(), BAR);
    assert(rows(sides@).len() == sides@.len());
    if sides.len() < 2 {
        return None;
    }
    assert(rows(sides@)[0] == sides@[0]@);
    assert(rows(sides@)[1] == sides@[1]@);
    let first = parse_number(sides[0].as_slice(), i32::MIN as i64, i32::MAX as i64);
    let second = parse_number(sides[1].as_slice(), i32::MIN as i64, i32::MAX as i64);
    match (first, second) {
        (Some(a), Some(b)) => Some((a as i32, b as i32)),
        _ => None,
    }
}

/// Reads the latch bits of one byte.
fn parse_latch_row(line: &Vec<u8>) -> (row: Option<Vec<(i32, i32)>>)
    ensures
        match latch_row_of(line@) {
            Some(expected) => row matches Some(found) && found@ == expected,
            None => row is None,
        },
{
    let fields = split(line.as_slice(), COMMA);
    let ghost spelled = pieces(line@, COMMA);
    assert(rows(fields@).len() == fields@.len());
    let mut row: Vec<(i32, i32)> = Vec::with_capacity(fields.len());
    let mut i: usize = 0;
    while i < fields.len()
        invariant
            rows(fields@) == spelled,
            spelled == pieces(line@, COMMA),
            spelled.len() == fields@.len(),
            i <= fields@.len(),
            row@.len() == i,
            forall|j: int| 0 <= j < i ==> latch_of(#[trigger] spelled[j]) == Some(row@[j]),
        decreases fields@.len() - i,
    {
        assert(rows(fields@)[i as int] == fields@[i as int]@);
        match parse_latch(&fields[i]) {
            Some(latch) => {
                row.push(latch);
            },
            None => {
                assert(latch_of(spelled[i as int]) is None);
                return None;
            },
        }
        i += 1;
    }
    proof {
        let expected = latch_row_of(line@);
        assert(expected is Some);
        assert(expected.unwrap() =~= row@);
    }
    Some(row)
}

/// Reads one latch table.
fn parse_latches(text: &[u8]) -> (table: Option<Vec<Vec<(i32, i32)>>>)
    ensures
        match latch_table_of(text@) {
            Some(expected) => table matches Some(found) && latch_rows(found@) == expected,
            None => table is None,
        },
{
    let all = lines(text);
    let ghost wanted = lines_of(text@);
    assert(rows(all@).len() == all@.len());
    let mut table: Vec<Vec<(i32, i32)>> = Vec::with_capacity(all.len());
    let mut k: usize = 0;
    while k < all.len()
        invariant
            rows(all@) == wanted,
            wanted == lines_of(text@),
            wanted.len() == all@.len(),
            k <= all@.len(),
            table@.len() == k,
            forall|j: int| 0 <= j < k ==> latch_row_of(#[trigger] wanted[j]) == Some(table@[j]@),
        decreases all@.len() - k,
    {
        assert(rows(all@)[k as int] == all@[k as int]@);
        match parse_latch_row(&all[k]) {
            Some(row) => {
                table.push(row);
            },
            None => {
                assert(latch_row_of(wanted[k as int]) is None);
                return None;
            },
        }
        k += 1;
    }
    proof {
        let expected = latch_table_of(text@);
        assert(expected is Some);
        assert(latch_rows(table@) =~= expected.unwrap());
    }
    Some(table)
}

/// Reads the latch tables of palette and sprite memory. Each line holds
/// the latch bits of one byte between commas, each bit as the numbers of
/// its two sides around a bar.
pub fn load_ppu_nodes(palette_table: &[u8], sprite_table: &[u8]) -> (loaded: Result<
    (Vec<Vec<(i32, i32)>>, Vec<Vec<(i32, i32)>>),
    BuildError,
>)
    ensures
        match (latch_table_of(palette_table@), latch_table_of(sprite_table@)) {
            (Some(palette), Some(sprite)) => loaded matches Ok(found) && latch_rows(found.0@)
                == palette && latch_rows(found.1@) == sprite,
            _ => loaded matches Err(e) && e == BuildError::MalformedTable,
        },
{
    let palette_nodes = match parse_latches(palette_table) {
        Some(found) => found,
        None => {
            return Err(BuildError::MalformedTable);
        },
    };
    let sprite_nodes = match parse_latches(sprite_table) {
        Some(found) => found,
        None => {
            return Err(BuildError::MalformedTable);
        },
    };
    Ok((palette_nodes, sprite_nodes))
}

/// The named wire that a line spells: a name, to which `prefix` is put in
/// front, and a number, both with the white space around them dropped. The
/// number may have a sign and up to 64 bits; moved up by `offset`, its
/// low sixteen bits are the wire number, which is renumbered. What
/// follows the second field is not looked at.
pub open spec fn named_wire_of(
    line: Seq<u8>,
    prefix: Seq<u8>,
    offset: u16,
    table: Map<u16, u16>,
) -> Option<(Seq<char>, u16)> {
    let fields = pieces(line, COMMA);
    if fields.len() >= 2 && valid_utf8(prefix + trimmed(fields[0])) && number_in(
        trimmed(fields[1]),
        i64::MIN as int,
        i64::MAX as int,
    ) is Some {
        let id = number_in(trimmed(fields[1]), i64::MIN as int, i64::MAX as int).unwrap() + offset;
        Some((decode_utf8(prefix + trimmed(fields[0])), converted(table, (id % 65536) as u16)))
    } else {
        None
    }
}

/// The names of the first `k` lines with their wires added to `names`;
/// of two lines with one name the later stays. None where a line spells
/// no named wire.
pub open spec fn named_wires_after(
    names: Map<Seq<char>, u16>,
    all: Seq<Seq<u8>>,
    k: int,
    prefix: Seq<u8>,
    offset: u16,
    table: Map<u16, u16>,
) -> Option<Map<Seq<char>, u16>>
    decreases k,
{
    if k <= 0 {
        Some(names)
    } else {
        match (
            named_wires_after(names, all, k - 1, prefix, offset, table),
            named_wire_of(all[k - 1], prefix, offset, table),
        ) {
            (Some(before), Some(entry)) => Some(before.insert(entry.0, entry.1)),
            _ => None,
        }
    }
}

/// `names` with the named wires of a table added.
pub open spec fn named_wires_of(
    names: Map<Seq<char>, u16>,
    text: Seq<u8>,
    prefix: Seq<u8>,
    offset: u16,
    table: Map<u16, u16>,
) -> Option<Map<Seq<char>, u16>> {
    named_wires_after(names, lines_of(text), lines_of(text).len() as int, prefix, offset, table)
}

/// Once a line spells no named wire, no longer prefix of the lines does.
pub proof fn lemma_named_wires_stay_none(
    names: Map<Seq<char>, u16>,
    all: Seq<Seq<u8>>,
    k: int,
    later: int,
    prefix: Seq<u8>,
    offset: u16,
    table: Map<u16, u16>,
)
    requires
        0 <= k <= later,
        named_wires_after(names, all, k, prefix, offset, table) is None,
    ensures
        named_wires_after(names, all, later, prefix, offset, table) is None,
    decreases later - k,
{
    if k < later {
        lemma_named_wires_stay_none(names, all, k, later - 1, prefix, offset, table);
    }
}

/// Reads one named wire.
fn parse_named_wire(
    line: &Vec<u8>,
    name_prefix: &[u8],
    offset: u16,
    conversion_table: &FnvHashMap<u16, u16>,
) -> (entry: Option<(String, u16)>)
    ensures
        match named_wire_of(line@, name_prefix@, offset, conversion_table@) {
            Some(expected) => entry matches Some(found) && found.0@ == expected.0 && found.1
                == expected.1,
            None => entry is None,
        },
{
    let fields = split(line.as_slice(), COMMA);
    assert(rows(fields@).len() == fields@.len());
    if fields.len() < 2 {
        return None;
    }
    assert(rows(fields@)[0] == fields@[0]@);
    assert(rows(fields@)[1] == fields@[1]@);
    let name_field = trim(fields[0].as_slice());
    let id_field = trim(fields[1].as_slice());
    let name = text_of(joined(name_prefix, &name_field));
    let id = parse_number(id_field.as_slice(), i64::MIN, i64::MAX);
    match (name, id) {
        (Some(name), Some(id)) => {
            let moved: i128 = id as i128 + offset as i128;
            let wire = (moved % 65536) as i64;
            let low: u16 = if wire < 0 {
                (wire + 65536) as u16
            } else {
                wire as u16
            };
            assert(low == (id + offset) % 65536);
            Some((name, convert_id(low, conversion_table)))
        },
        _ => None,
    }
}

/// Adds the named wires of one table to `names`.
fn parse_names(
    names: &mut FnvHashMap<String, u16>,
    text: &[u8],
    name_prefix: &[u8],
    offset: u16,
    conversion_table: &FnvHashMap<u16, u16>,
) -> (read: bool)
    ensures
        match named_wires_of(
            names_of(*old(names)),
            text@,
            name_prefix@,
            offset,
            conversion_table@,
        ) {
            Some(expected) => read && names_of(*final(names)) == expected,
            None => !read,
        },
{
    let all = lines(text);
    let ghost wanted = lines_of(text@);
    let ghost start = names_of(*names);
    assert(rows(all@).len() == all@.len());
    let mut k: usize = 0;
    while k < all.len()
        invariant
            rows(all@) == wanted,
            wanted == lines_of(text@),
            wanted.len() == all@.len(),
            start == names_of(*old(names)),
            k <= all@.len(),
            named_wires_after(start, wanted, k as int, name_prefix@, offset, conversion_table@)
                == Some(names_of(*names)),
        decreases all@.len() - k,
    {
        assert(rows(all@)[k as int] == all@[k as int]@);
        match parse_named_wire(&all[k], name_prefix, offset, conversion_table) {
            Some(entry) => {
                names_insert(names, entry.0, entry.1);
            },
            None => {
                proof {
                    assert(named_wire_of(wanted[k as int], name_prefix@, offset, conversion_table@)
                        is None);
                    lemma_named_wires_stay_none(
                        start,
                        wanted,
                        k as int + 1,
                        wanted.len() as int,
                        name_prefix@,
                        offset,
                        conversion_table@,
                    );
                }
                return false;
            },
        }
        k += 1;
    }
    true
}

/// Reads the wire names of both chips into one index: the picture chip's
/// table as it stands, then the processor's with `cpu_` before each name
/// and its wire numbers moved up by the processor's offset; every wire
/// number is renumbered. Each line holds a name and a number around a
/// comma.
pub fn load_node_number_by_name_map(
    ppu_table: &[u8],
    cpu_table: &[u8],
    conversion_table: &FnvHashMap<u16, u16>,
) -> (loaded: Result<FnvHashMap<String, u16>, BuildError>)
    ensures
        match named_wires_of(Map::empty(), ppu_table@, Seq::empty(), 0, conversion_table@) {
            Some(ppu) => match named_wires_of(
                ppu,
                cpu_table@,
                cpu_prefix(),
                CPU_OFFSET,
                conversion_table@,
            ) {
                Some(both) => loaded matches Ok(found) && names_of(found) == both,
                None => loaded matches Err(e) && e == BuildError::MalformedTable,
            },
            None => loaded matches Err(e) && e == BuildError::MalformedTable,
        },
{
    let mut node_names = names_new();
    assert(names_of(node_names) =~= Map::empty());
    let none: [u8; 0] = [];
    assert(none@ =~= Seq::<u8>::empty());
    if !parse_names(&mut node_names, ppu_table, none.as_slice(), 0, conversion_table) {
        return Err(BuildError::MalformedTable);
    }
    let prefix = cpu_prefix_bytes();
    if !parse_names(&mut node_names, cpu_table, prefix.as_slice(), CPU_OFFSET, conversion_table) {
        return Err(BuildError::MalformedTable);
    }
    Ok(node_names)
}

} // verus!
