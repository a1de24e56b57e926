use nessim::components::{NodeDefinition, TransistorDefinition};
use nessim::consts::{EMPTYNODE, MAX_C1_C2, MAX_NODES, NODE_GND, NODE_PWR};
use nessim::errors::BuildError;
use nessim::preprocessor::{convert_id, id_conversion_table, setup_nodes, setup_transistors};

fn sorted_table() -> Vec<(u16, u16)> {
    let conversion_table = id_conversion_table();
    let mut conversion_table: Vec<(u16, u16)> = conversion_table.into_iter().collect();
    conversion_table.sort_by(|(a1, _), (a2, _)| a1.cmp(a2));
    conversion_table
}

#[test]
fn tests_conversion_table_reference_test() {
    let reference_data = "6,23019\r\n7,23030\r\n8,25087\r\n9,25088\r\n10,25089\r\n11,25090\r\n\
12,23020\r\n87,25091\r\n431,25056\r\n765,24966\r\n1013,24819\r\n23000,1\r\n23001,2\r\n\
23004,1934\r\n23092,1224\r\n23331,1031\r\n24669,772";

    let processed_data = sorted_table()
        .iter()
        .map(|(a, b)| format!("{},{}", a, b))
        .collect::<Vec<String>>()
        .join("\r\n");

    assert_eq!(reference_data, processed_data);
}

#[test]
fn main_conversion_table_reference_test() {
    let reference_data = "Entries: 17\r\n6,23019\r\n7,23030\r\n8,25087\r\n9,25088\r\n\
10,25089\r\n11,25090\r\n12,23020\r\n87,25091\r\n431,25056\r\n765,24966\r\n1013,24819\r\n\
23000,1\r\n23001,2\r\n23004,1934\r\n23092,1224\r\n23331,1031\r\n24669,772\r\n";
    let conversion_table = sorted_table();
    let mut processed_data = format!("Entries: {}\r\n", conversion_table.len());
    for (a, b) in conversion_table.iter() {
        processed_data.push_str(format!("{},{}\r\n", a, b).as_str());
    }
    assert_eq!(reference_data, processed_data);
}

#[test]
fn convert_id_looks_the_table_up() {
    let table = id_conversion_table();
    assert_eq!(convert_id(23000, &table), 1);
    assert_eq!(convert_id(23001, &table), 2);
    assert_eq!(convert_id(23004, &table), 1934);
    assert_eq!(convert_id(1013, &table), 24819);
    assert_eq!(convert_id(12, &table), 23020);
    assert_eq!(convert_id(24669, &table), 772);
}

#[test]
fn convert_id_keeps_what_the_table_lacks() {
    let table = id_conversion_table();
    assert_eq!(convert_id(0, &table), 0);
    assert_eq!(convert_id(5, &table), 5);
    assert_eq!(convert_id(13, &table), 13);
    assert_eq!(convert_id(1, &table), 1);
    assert_eq!(convert_id(23002, &table), 23002);
    assert_eq!(convert_id(65535, &table), 65535);
}

#[test]
fn setup_nodes_refuses_an_empty_list() {
    assert_eq!(setup_nodes(&[]).err(), Some(BuildError::EmptySegmentList));
}

#[test]
fn setup_nodes_refuses_short_records() {
    assert_eq!(setup_nodes(&[vec![]]).err(), Some(BuildError::MalformedSegment));
    assert_eq!(setup_nodes(&[vec![3]]).err(), Some(BuildError::MalformedSegment));
    assert_eq!(setup_nodes(&[vec![3, 1, 0, 4]]).err(), Some(BuildError::MalformedSegment));
    assert_eq!(
        setup_nodes(&[vec![3, 1, 0, 4, 5, 6, 7], vec![4, 1]]).err(),
        Some(BuildError::MalformedSegment)
    );
    // a rail needs no coordinates
    assert!(setup_nodes(&[vec![NODE_GND, 0]]).is_ok());
    assert!(setup_nodes(&[vec![NODE_PWR, 1]]).is_ok());
    assert_eq!(setup_nodes(&[vec![NODE_PWR]]).err(), Some(BuildError::MalformedSegment));
}

#[test]
fn setup_nodes_refuses_the_sentinel_as_a_number() {
    assert_eq!(
        setup_nodes(&[vec![EMPTYNODE, 1, 0, 1, 1, 2, 2]]).err(),
        Some(BuildError::MalformedSegment)
    );
}

#[test]
fn setup_nodes_sizes_the_table_by_the_highest_number() {
    let nodes = setup_nodes(&[vec![5, 1, 0, 0, 3, 1, 0], vec![9, 0, 0, 0, 1, 1, 0], vec![2, 0]])
        .unwrap();
    assert_eq!(nodes.len(), 10);
    for (i, node) in nodes.iter().enumerate() {
        if i == 5 || i == 9 || i == 2 {
            assert_eq!(node.num as usize, i);
        } else {
            assert_eq!(node.num, EMPTYNODE);
            assert_eq!(node.area, 0);
            assert!(!node.pullup);
            assert!(node.segs.is_empty());
        }
        assert!(!node.state);
        assert!(node.gates.is_empty());
    }
    assert!(nodes[5].pullup);
    assert!(!nodes[9].pullup);
}

#[test]
fn segment_area_of_the_shortest_record() {
    // |x1*y0 - x0*y1| = |1*3 - 0*0|
    let nodes = setup_nodes(&[vec![3, 0, 0, 0, 3, 1, 0]]).unwrap();
    assert_eq!(nodes[3].area, 3);
    assert_eq!(nodes[3].segs, vec![(0, 0)]);
    // five fields: the closing term reads the same pair twice
    let nodes = setup_nodes(&[vec![3, 0, 0, 7, 9]]).unwrap();
    assert_eq!(nodes[3].area, 0);
    assert_eq!(nodes[3].segs, vec![(7, 9)]);
}

#[test]
fn segment_area_of_a_longer_record() {
    // closing 6*3 - 2*7 = 4, then one term 2*5 - 4*0 = 10
    let nodes = setup_nodes(&[vec![7, 1, 0, 2, 3, 4, 5, 6, 7]]).unwrap();
    assert_eq!(nodes[7].area, 14);
    assert_eq!(nodes[7].segs, vec![(2, 7)]);
    // the term reads the field before x0: 2*5 - 4*9 = -26, in all -22
    let nodes = setup_nodes(&[vec![7, 1, 9, 2, 3, 4, 5, 6, 7]]).unwrap();
    assert_eq!(nodes[7].area, 22);
    // eleven fields: closing 8*3 - 2*9 = 6, terms 2*5 - 4*0 = 10 and 4*7 - 6*3 = 10
    let nodes = setup_nodes(&[vec![7, 1, 0, 2, 3, 4, 5, 6, 7, 8, 9]]).unwrap();
    assert_eq!(nodes[7].area, 26);
    assert_eq!(nodes[7].segs, vec![(2, 9)]);
}

#[test]
fn segment_area_needs_more_than_32_bits() {
    // 65535*65535 - 0
    let nodes = setup_nodes(&[vec![3, 0, 0, 0, 65535, 65535, 0]]).unwrap();
    assert_eq!(nodes[3].area, 4_294_836_225);
    let nodes = setup_nodes(&[
        vec![3, 0, 0, 0, 65535, 65535, 0],
        vec![3, 0, 0, 65535, 0, 0, 65535],
        vec![3, 0, 0, 0, 65535, 65535, 0],
    ])
    .unwrap();
    assert_eq!(nodes[3].area, 3 * 4_294_836_225u64);
}

#[test]
fn areas_of_one_wire_add_up_and_the_first_pullup_wins() {
    let nodes = setup_nodes(&[
        vec![4, 1, 0, 0, 3, 1, 0],
        vec![3, 0, 0, 0, 2, 1, 0],
        vec![4, 0, 0, 0, 10, 1, 0],
        vec![3, 1, 0, 5, 1, 1, 6],
    ])
    .unwrap();
    assert_eq!(nodes[4].area, 13);
    assert!(nodes[4].pullup);
    // |1*1 - 5*6| = 29
    assert_eq!(nodes[3].area, 31);
    assert!(!nodes[3].pullup);
    assert_eq!(nodes[4].segs, vec![(0, 0), (0, 0)]);
    assert_eq!(nodes[3].segs, vec![(0, 0), (5, 6)]);
}

#[test]
fn rails_carry_no_area() {
    let nodes = setup_nodes(&[
        vec![NODE_GND, 0, 0, 0, 3, 1, 0],
        vec![NODE_PWR, 1, 0, 0, 3, 1, 0],
        vec![3, 0, 0, 0, 3, 1, 0],
    ])
    .unwrap();
    assert_eq!(nodes[NODE_GND as usize].area, 0);
    assert_eq!(nodes[NODE_PWR as usize].area, 0);
    assert!(nodes[NODE_GND as usize].segs.is_empty());
    assert_eq!(nodes[NODE_GND as usize].num, NODE_GND);
    assert!(nodes[NODE_PWR as usize].pullup);
    assert_eq!(nodes[3].area, 3);
}

fn blank_nodes(total: usize) -> Vec<NodeDefinition> {
    (0..total).map(|_| NodeDefinition::default()).collect()
}

fn def(name: &str, gate: u16, c1: u16, c2: u16) -> TransistorDefinition {
    TransistorDefinition { name: name.to_string(), gate, c1, c2 }
}

#[test]
fn default_definition_is_blank() {
    let node = NodeDefinition::default();
    assert_eq!(node.num, EMPTYNODE);
    assert_eq!(node.area, 0);
    assert!(!node.pullup);
    assert!(!node.state);
    assert!(node.gates.is_empty());
    assert!(node.segs.is_empty());
}

#[test]
fn setup_transistors_puts_rails_second() {
    let mut nodes = blank_nodes(8);
    let defs = vec![
        def("a", 3, NODE_GND, 4),
        def("b", 3, NODE_PWR, 5),
        def("c", 3, 6, NODE_GND),
        def("d", 3, 6, 7),
        def("e", 3, NODE_GND, NODE_PWR),
        def("f", 3, NODE_PWR, NODE_GND),
        def("g", 3, NODE_PWR, NODE_PWR),
        def("h", 3, NODE_GND, NODE_GND),
    ];
    let (transistors, _, _, _) = setup_transistors(&mut nodes, defs).unwrap();
    let ends: Vec<(u16, u16)> = transistors.iter().map(|t| (t.c1, t.c2)).collect();
    assert_eq!(
        ends,
        vec![
            (4, NODE_GND),
            (5, NODE_PWR),
            (6, NODE_GND),
            (6, 7),
            (NODE_GND, NODE_PWR),
            (NODE_GND, NODE_PWR),
            (NODE_PWR, NODE_PWR),
            (NODE_GND, NODE_GND),
        ]
    );
    for t in transistors.iter() {
        assert!(!t.on);
        assert_eq!(t.gate, 3);
    }
}

#[test]
fn setup_transistors_fills_gates_channels_and_names() {
    let mut nodes = blank_nodes(8);
    nodes[3].gates.push(77);
    let defs = vec![
        def("t0", 3, 4, 5),
        def("t1", 4, 5, NODE_GND),
        def("t2", 3, NODE_PWR, 4),
        def("t3", 6, 7, 7),
    ];
    let (transistors, node_counts, nodes_c1_c2, names) =
        setup_transistors(&mut nodes, defs).unwrap();
    assert_eq!(transistors.len(), 4);
    assert_eq!(node_counts.len(), MAX_NODES);
    assert_eq!(nodes_c1_c2.len(), MAX_NODES);
    for row in nodes_c1_c2.iter() {
        assert_eq!(row.len(), MAX_C1_C2);
    }
    assert_eq!(nodes[3].gates, vec![77, 0, 2]);
    assert_eq!(nodes[4].gates, vec![1]);
    assert_eq!(nodes[6].gates, vec![3]);
    assert!(nodes[5].gates.is_empty());
    assert_eq!(node_counts[4], 2);
    assert_eq!(&nodes_c1_c2[4][..3], &[0, 2, 0]);
    assert_eq!(node_counts[5], 2);
    assert_eq!(&nodes_c1_c2[5][..3], &[0, 1, 0]);
    // both ends of one transistor on one wire are listed twice
    assert_eq!(node_counts[7], 2);
    assert_eq!(&nodes_c1_c2[7][..3], &[3, 3, 0]);
    // rails are not listed
    assert_eq!(node_counts[NODE_GND as usize], 0);
    assert_eq!(node_counts[NODE_PWR as usize], 0);
    assert_eq!(node_counts[3], 0);
    assert_eq!(node_counts[6], 0);
    assert_eq!(names.len(), 4);
    assert_eq!(names["t0"], 0);
    assert_eq!(names["t1"], 1);
    assert_eq!(names["t2"], 2);
    assert_eq!(names["t3"], 3);
}

#[test]
fn of_two_transistors_with_one_name_the_later_is_indexed() {
    let mut nodes = blank_nodes(8);
    let defs = vec![def("x", 3, 4, 5), def("y", 3, 4, 5), def("x", 3, 4, 5)];
    let (_, _, _, names) = setup_transistors(&mut nodes, defs).unwrap();
    assert_eq!(names.len(), 2);
    assert_eq!(names["x"], 2);
    assert_eq!(names["y"], 1);
}

#[test]
fn setup_transistors_refuses_a_dangling_transistor() {
    for bad in [def("g", 8, 4, 5), def("c1", 3, 8, 5), def("c2", 3, 4, 8)] {
        let mut nodes = blank_nodes(8);
        nodes[3].gates.push(1);
        let defs = vec![def("ok", 3, 4, 5), bad];
        assert_eq!(
            setup_transistors(&mut nodes, defs).err(),
            Some(BuildError::DanglingTransistor)
        );
        assert_eq!(nodes[3].gates, vec![1]);
    }
    // a rail that the table has not is dangling too
    let mut nodes = blank_nodes(2);
    assert_eq!(
        setup_transistors(&mut nodes, vec![def("r", 0, 0, NODE_GND)]).err(),
        Some(BuildError::DanglingTransistor)
    );
}

#[test]
fn setup_transistors_refuses_a_crowded_wire() {
    let mut nodes = blank_nodes(8);
    let defs: Vec<TransistorDefinition> =
        (0..MAX_C1_C2).map(|i| def(&format!("t{}", i), 3, 4, NODE_GND)).collect();
    let (_, node_counts, _, _) = setup_transistors(&mut nodes, defs).unwrap();
    assert_eq!(node_counts[4] as usize, MAX_C1_C2);

    let mut nodes = blank_nodes(8);
    let defs: Vec<TransistorDefinition> =
        (0..MAX_C1_C2 + 1).map(|i| def(&format!("t{}", i), 3, 4, NODE_GND)).collect();
    assert_eq!(setup_transistors(&mut nodes, defs).err(), Some(BuildError::TooManyChannels));
    assert!(nodes[3].gates.is_empty());

    // 48 transistors with both ends on one wire fill 96 slots
    let mut nodes = blank_nodes(8);
    let defs: Vec<TransistorDefinition> =
        (0..48).map(|i| def(&format!("t{}", i), 3, 4, 4)).collect();
    assert_eq!(setup_transistors(&mut nodes, defs).err(), Some(BuildError::TooManyChannels));
}

#[test]
fn setup_transistors_refuses_too_many_wires() {
    let mut nodes = blank_nodes(MAX_NODES + 1);
    assert_eq!(setup_transistors(&mut nodes, vec![]).err(), Some(BuildError::TooManyNodes));
    let mut nodes = blank_nodes(MAX_NODES);
    assert!(setup_transistors(&mut nodes, vec![]).is_ok());
}

#[test]
fn setup_transistors_refuses_too_many_transistors() {
    let mut nodes = blank_nodes(8);
    let defs: Vec<TransistorDefinition> =
        (0..65537).map(|_| def("t", 3, NODE_GND, NODE_GND)).collect();
    assert_eq!(setup_transistors(&mut nodes, defs).err(), Some(BuildError::TooManyTransistors));
    let mut nodes = blank_nodes(8);
    let defs: Vec<TransistorDefinition> =
        (0..65536).map(|_| def("t", 3, NODE_GND, NODE_GND)).collect();
    let (transistors, _, _, names) = setup_transistors(&mut nodes, defs).unwrap();
    assert_eq!(transistors.len(), 65536);
    assert_eq!(nodes[3].gates.len(), 65536);
    assert_eq!(nodes[3].gates[65535], 65535);
    assert_eq!(names["t"], 65535);
}
