use nessim::consts::{NODE_CLK0, NODE_CPU_DB0, NODE_GND, NODE_PWR, NODE_RESET};
use nessim::errors::BuildError;
use nessim::loader::{
    load_node_number_by_name_map, load_ppu_nodes, load_segment_definitions,
    load_transistor_definitions,
};
use nessim::preprocessor::id_conversion_table;
use nessim::tables::{lines, parse_number, split, trim};

fn texts(parts: Vec<Vec<u8>>) -> Vec<String> {
    parts.into_iter().map(|p| String::from_utf8(p).unwrap()).collect()
}

#[test]
fn split_keeps_empty_pieces() {
    assert_eq!(texts(split(b"a,b,c", b',')), vec!["a", "b", "c"]);
    assert_eq!(texts(split(b"", b',')), vec![""]);
    assert_eq!(texts(split(b",", b',')), vec!["", ""]);
    assert_eq!(texts(split(b",a,,b,", b',')), vec!["", "a", "", "b", ""]);
    assert_eq!(texts(split(b"abc", b',')), vec!["abc"]);
    assert_eq!(texts(split(b"1|2", b'|')), vec!["1", "2"]);
}

#[test]
fn lines_end_at_newlines() {
    assert_eq!(texts(lines(b"a\nb")), vec!["a", "b"]);
    assert_eq!(texts(lines(b"a\nb\n")), vec!["a", "b"]);
    assert_eq!(texts(lines(b"a\r\nb\r\n")), vec!["a", "b"]);
    assert_eq!(texts(lines(b"")), Vec::<String>::new());
    assert_eq!(texts(lines(b"\n")), vec![""]);
    assert_eq!(texts(lines(b"\r\n")), vec![""]);
    assert_eq!(texts(lines(b"a\n\nb")), vec!["a", "", "b"]);
    assert_eq!(texts(lines(b"a\n\n")), vec!["a", ""]);
    // only one carriage return goes, and only before a newline
    assert_eq!(texts(lines(b"a\r\r\nb\r")), vec!["a\r", "b\r"]);
    assert_eq!(texts(lines(b"a\rb\n")), vec!["a\rb"]);
    assert_eq!(texts(lines(b"\r")), vec!["\r"]);
}

#[test]
fn parse_number_reads_digits_with_an_optional_sign() {
    assert_eq!(parse_number(b"0", 0, 65535), Some(0));
    assert_eq!(parse_number(b"65535", 0, 65535), Some(65535));
    assert_eq!(parse_number(b"65536", 0, 65535), None);
    assert_eq!(parse_number(b"+12", 0, 65535), Some(12));
    assert_eq!(parse_number(b"007", 0, 65535), Some(7));
    assert_eq!(parse_number(b"0000000000000000000000000000000000065535", 0, 65535), Some(65535));
    assert_eq!(parse_number(b"99999999999999999999999999999999999999999", 0, 65535), None);
    assert_eq!(parse_number(b"-0", 0, 65535), None);
    assert_eq!(parse_number(b"-1", 0, 65535), None);
    assert_eq!(parse_number(b"", 0, 65535), None);
    assert_eq!(parse_number(b"+", 0, 65535), None);
    assert_eq!(parse_number(b"-", -5, 5), None);
    assert_eq!(parse_number(b" 1", 0, 65535), None);
    assert_eq!(parse_number(b"1 ", 0, 65535), None);
    assert_eq!(parse_number(b"1a", 0, 65535), None);
    assert_eq!(parse_number(b"++1", 0, 65535), None);
    assert_eq!(parse_number(b"+-1", -5, 5), None);
    assert_eq!(parse_number(b"0x10", 0, 65535), None);
    assert_eq!(parse_number(b"1.0", 0, 65535), None);
}

#[test]
fn parse_number_keeps_to_its_range() {
    let (low, high) = (i32::MIN as i64, i32::MAX as i64);
    assert_eq!(parse_number(b"-1", low, high), Some(-1));
    assert_eq!(parse_number(b"-0", low, high), Some(0));
    assert_eq!(parse_number(b"2147483647", low, high), Some(2147483647));
    assert_eq!(parse_number(b"2147483648", low, high), None);
    assert_eq!(parse_number(b"-2147483648", low, high), Some(-2147483648));
    assert_eq!(parse_number(b"-2147483649", low, high), None);
    assert_eq!(parse_number(b"9223372036854775807", i64::MIN, i64::MAX), Some(i64::MAX));
    assert_eq!(parse_number(b"9223372036854775808", i64::MIN, i64::MAX), None);
    assert_eq!(parse_number(b"-9223372036854775808", i64::MIN, i64::MAX), Some(i64::MIN));
    assert_eq!(parse_number(b"-9223372036854775809", i64::MIN, i64::MAX), None);
    assert_eq!(parse_number(b"18446744073709551616", i64::MIN, i64::MAX), None);
    assert_eq!(parse_number(b"0", 0, 0), Some(0));
    assert_eq!(parse_number(b"1", 0, 0), None);
    assert_eq!(parse_number(b"9", 0, 8), None);
}

#[test]
fn trim_drops_every_white_space_of_unicode() {
    let blanks = [
        '\u{9}', '\u{a}', '\u{b}', '\u{c}', '\u{d}', ' ', '\u{85}', '\u{a0}', '\u{1680}',
        '\u{2000}', '\u{2001}', '\u{2002}', '\u{2003}', '\u{2004}', '\u{2005}', '\u{2006}',
        '\u{2007}', '\u{2008}', '\u{2009}', '\u{200a}', '\u{2028}', '\u{2029}', '\u{202f}',
        '\u{205f}', '\u{3000}',
    ];
    for blank in blanks {
        assert!(blank.is_whitespace());
        let text = format!("{}{}a b{}{}", blank, blank, blank, blank);
        assert_eq!(trim(text.as_bytes()), b"a b".to_vec());
        let text = format!("a{}b", blank);
        assert_eq!(trim(text.as_bytes()), text.as_bytes().to_vec());
        assert_eq!(trim(blank.to_string().as_bytes()), b"".to_vec());
    }
    // what std does not count as white space stays
    let others =
        ['\u{200b}', '\u{feff}', '\u{180e}', '\u{2060}', '\u{8}', '\u{e}', '\u{1f}', '\u{e9}'];
    for other in others {
        assert!(!other.is_whitespace());
        let text = format!("{}a{}", other, other);
        assert_eq!(trim(text.as_bytes()), text.trim().as_bytes().to_vec());
        assert_eq!(trim(text.as_bytes()), text.as_bytes().to_vec());
    }
    let text = " \u{a0}\t\u{3000}na\u{2003}me \u{2028}\r\n";
    assert_eq!(trim(text.as_bytes()), text.trim().as_bytes().to_vec());
    assert_eq!(trim(text.as_bytes()), "na\u{2003}me".as_bytes().to_vec());
}

#[test]
fn trim_drops_blanks_at_both_ends() {
    assert_eq!(trim(b"  ab c \t\r\n"), b"ab c".to_vec());
    assert_eq!(trim(b"abc"), b"abc".to_vec());
    assert_eq!(trim(b""), b"".to_vec());
    assert_eq!(trim(b" \t\x0b\x0c\r\n "), b"".to_vec());
    assert_eq!(trim(b"\x08a\x0e"), b"\x08a\x0e".to_vec());
    assert_eq!(trim(b" a"), b"a".to_vec());
    assert_eq!(trim(b"a "), b"a".to_vec());
}

#[test]
fn segment_tables_are_joined_and_renumbered() {
    let table = id_conversion_table();
    let ppu = b"3,1,0,10,20,30,40\r\n1013,0,5\r\n7\r\n";
    let cpu = b"4,+1,0,1,2,3,4\n10000,1\n10004,0,7,8";
    let segs = load_segment_definitions(ppu, cpu, &table).unwrap();
    assert_eq!(
        segs,
        vec![
            vec![3, 1, 0, 10, 20, 30, 40],
            vec![NODE_CPU_DB0, 0, 5],
            vec![23030],
            vec![13004, 1, 0, 1, 2, 3, 4],
            vec![NODE_PWR, 1],
            vec![NODE_RESET, 0, 7, 8],
        ]
    );
    // only the first field is a wire number
    let segs = load_segment_definitions(b"5,1013,7", b"5,10000,7", &table).unwrap();
    assert_eq!(segs, vec![vec![5, 1013, 7], vec![13005, 10000, 7]]);
    assert_eq!(load_segment_definitions(b"", b"", &table).unwrap(), Vec::<Vec<u16>>::new());
}

#[test]
fn segment_tables_that_are_malformed_are_refused() {
    let table = id_conversion_table();
    let bad = Some(BuildError::MalformedTable);
    for text in [
        &b"3,1,x"[..],
        b"3,,1",
        b"3,1,",
        b"\n",
        b"3,1\n\n4,1",
        b"3, 1",
        b"65536",
        b"3,65536",
        b"3,-1",
        b"3;1",
        b"3,1\r\r\n",
        b"\xff",
    ] {
        assert_eq!(load_segment_definitions(text, b"", &table).err(), bad);
        assert_eq!(load_segment_definitions(b"", text, &table).err(), bad);
    }
    // the processor's wire numbers must leave room for the offset
    assert!(load_segment_definitions(b"52536", b"", &table).is_ok());
    assert_eq!(load_segment_definitions(b"", b"52536", &table).err(), bad);
    assert_eq!(load_segment_definitions(b"", b"52535", &table).unwrap(), vec![vec![65535]]);
}

#[test]
fn transistor_tables_are_joined_prefixed_and_renumbered() {
    let table = id_conversion_table();
    let ppu = b"t1,3,4,5\r\nt2,1013,2,1,9,junk\n";
    let cpu = b"t1,4,10001,10000\n,11669,0,0";
    let defs = load_transistor_definitions(ppu, cpu, &table).unwrap();
    let plain: Vec<(String, u16, u16, u16)> =
        defs.into_iter().map(|d| (d.name, d.gate, d.c1, d.c2)).collect();
    assert_eq!(
        plain,
        vec![
            ("t1".to_string(), 3, 4, 5),
            ("t2".to_string(), NODE_CPU_DB0, 2, 1),
            ("cpu_t1".to_string(), 13004, NODE_GND, NODE_PWR),
            ("cpu_".to_string(), NODE_CLK0, 13000, 13000),
        ]
    );
    assert!(load_transistor_definitions(b"", b"", &table).unwrap().is_empty());
    // a name is taken as it stands
    let defs = load_transistor_definitions(" t \u{e9},1,2,3".as_bytes(), b"", &table).unwrap();
    assert_eq!(defs[0].name, " t \u{e9}");
}

#[test]
fn transistor_tables_that_are_malformed_are_refused() {
    let table = id_conversion_table();
    let bad = Some(BuildError::MalformedTable);
    for text in [
        &b"t,1,2"[..],
        b"t",
        b"\n",
        b"t,1,2,x",
        b"t,1,,3",
        b"t,1,2,3\nu,1,2",
        b"t,1,2, 3",
        b"t,65536,2,3",
        b"\xff,1,2,3",
        b"\xc3,1,2,3",
    ] {
        assert_eq!(load_transistor_definitions(text, b"", &table).err(), bad);
        assert_eq!(load_transistor_definitions(b"", text, &table).err(), bad);
    }
    assert!(load_transistor_definitions(b"t,60000,2,3", b"", &table).is_ok());
    assert_eq!(load_transistor_definitions(b"", b"t,60000,2,3", &table).err(), bad);
}

#[test]
fn latch_tables_hold_pairs_around_bars() {
    let (palette, sprite) =
        load_ppu_nodes(b"1|2,3|4\r\n-1|-1,+5|6|7\n", b"100|-2147483648\n").unwrap();
    assert_eq!(palette, vec![vec![(1, 2), (3, 4)], vec![(-1, -1), (5, 6)]]);
    assert_eq!(sprite, vec![vec![(100, i32::MIN)]]);
    let (palette, sprite) = load_ppu_nodes(b"", b"").unwrap();
    assert!(palette.is_empty() && sprite.is_empty());
}

#[test]
fn latch_tables_that_are_malformed_are_refused() {
    let bad = Some(BuildError::MalformedTable);
    for text in [
        &b"1"[..],
        b"1|",
        b"|1",
        b"1|2,",
        b"1|2,3",
        b"\n",
        b"1|2\n\n3|4",
        b"1|x",
        b"1|2147483648",
        b"1 |2",
        b"1|2;3|4",
    ] {
        assert_eq!(load_ppu_nodes(text, b"").err(), bad);
        assert_eq!(load_ppu_nodes(b"", text).err(), bad);
    }
}

#[test]
fn wire_names_are_trimmed_prefixed_and_renumbered() {
    let table = id_conversion_table();
    let ppu = b"clk0, 772\r\n res ,1934\nio_db0,1013\nodd,-1,rest\n";
    let cpu = b"clk0,11669\nvcc, 10000 \nwrap,65536\nneg,-13000\nclk0,5\n";
    let names = load_node_number_by_name_map(ppu, cpu, &table).unwrap();
    assert_eq!(names.len(), 8);
    assert_eq!(names["clk0"], NODE_CLK0);
    assert_eq!(names["res"], NODE_RESET);
    assert_eq!(names["io_db0"], NODE_CPU_DB0);
    assert_eq!(names["odd"], 65535);
    // of two lines with one name the later stays
    assert_eq!(names["cpu_clk0"], 13005);
    assert_eq!(names["cpu_vcc"], NODE_PWR);
    assert_eq!(names["cpu_wrap"], 13000);
    assert_eq!(names["cpu_neg"], 0);
    // white space beyond the ASCII blanks goes too
    let names =
        load_node_number_by_name_map("\u{a0}a\u{3000},\u{2003}7\u{85}".as_bytes(), b"", &table)
            .unwrap();
    assert_eq!(names["a"], 23030);
    // the later table writes over the earlier
    let names = load_node_number_by_name_map(b"cpu_a,1\nb,2", b"a,3", &table).unwrap();
    assert_eq!(names.len(), 2);
    assert_eq!(names["cpu_a"], 13003);
    assert_eq!(names["b"], 2);
    assert!(load_node_number_by_name_map(b"", b"", &table).unwrap().is_empty());
}

#[test]
fn wire_names_that_are_malformed_are_refused() {
    let table = id_conversion_table();
    let bad = Some(BuildError::MalformedTable);
    for text in [
        &b"a"[..],
        b"\n",
        b"a,",
        b"a,x",
        b"a,1 2",
        b"a,9223372036854775808",
        b"\xff,1",
        b"a,1\nb",
    ] {
        assert_eq!(load_node_number_by_name_map(text, b"", &table).err(), bad);
        assert_eq!(load_node_number_by_name_map(b"", text, &table).err(), bad);
    }
    assert_eq!(
        load_node_number_by_name_map(b"a,9223372036854775807", b"", &table).unwrap()["a"],
        65535
    );
    assert_eq!(
        load_node_number_by_name_map(b"", b"a,-9223372036854775808", &table).unwrap()["cpu_a"],
        13000
    );
}
