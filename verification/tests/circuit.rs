use nessim::circuit::Circuit;
use nessim::components::{Node, NodeDefinition, TransistorDefinition};
use nessim::consts::{NODE_GND, NODE_PWR};
use nessim::preprocessor::{setup_nodes, setup_transistors};

/// A network of `total` wires; `wires` gives number, pull-up and area of
/// those that have a segment, `trans` gate and channel ends of each
/// transistor. The network is powered on.
fn build(total: u16, wires: &[(u16, bool, u16)], trans: &[(u16, u16, u16)]) -> Circuit {
    let mut segs: Vec<Vec<u16>> = vec![vec![total - 1, 0, 0, 0, 0, 0, 0]];
    for (id, pullup, area) in wires.iter() {
        segs.push(vec![*id, *pullup as u16, 0, 0, *area, 1, 0]);
    }
    let mut defs = setup_nodes(&segs).unwrap();
    let trans_defs: Vec<TransistorDefinition> = trans
        .iter()
        .enumerate()
        .map(|(i, (gate, c1, c2))| TransistorDefinition {
            name: format!("t{}", i),
            gate: *gate,
            c1: *c1,
            c2: *c2,
        })
        .collect();
    let (transistors, node_counts, nodes_c1_c2, _) =
        setup_transistors(&mut defs, trans_defs).unwrap();
    let nodes: Vec<Node> = defs.into_iter().map(Node::new).collect();
    let mut circuit = Circuit::new(nodes, transistors, node_counts, nodes_c1_c2).unwrap();
    circuit.power_on();
    circuit
}

fn levels(circuit: &Circuit) -> Vec<bool> {
    (0..circuit.node_count()).map(|n| circuit.node(n).state).collect()
}

fn switches(circuit: &Circuit) -> Vec<bool> {
    (0..circuit.transistor_count()).map(|t| circuit.transistor(t).on).collect()
}

fn gates_follow(circuit: &Circuit) -> bool {
    (0..circuit.transistor_count()).all(|t| {
        let tr = circuit.transistor(t);
        tr.on == circuit.node(tr.gate as usize).state
    })
}

#[test]
fn node_new_starts_floating() {
    let node = Node::new(NodeDefinition {
        area: 12,
        num: 3,
        pullup: true,
        state: true,
        gates: vec![4, 5],
        segs: vec![(1, 2)],
    });
    assert!(node.state);
    assert!(node.pullup);
    assert!(!node.pulldown);
    assert!(node.floating);
    assert_eq!(node.area, 12);
    assert_eq!(node.gates, vec![4, 5]);
}

#[test]
fn circuit_new_refuses_tables_that_point_outside() {
    let node = |gates: Vec<u16>| Node {
        state: false,
        pullup: false,
        pulldown: false,
        floating: true,
        area: 0,
        gates,
    };
    let tr = |gate, c1, c2| nessim::components::Transistor { on: false, gate, c1, c2 };
    let nodes = |n: usize| (0..n).map(|_| node(vec![])).collect::<Vec<Node>>();
    // no ground rail
    assert!(Circuit::new(nodes(2), vec![], vec![0; 2], vec![vec![]; 2]).is_none());
    assert!(Circuit::new(nodes(3), vec![], vec![0; 3], vec![vec![]; 3]).is_some());
    // channel table shorter than the wire table
    assert!(Circuit::new(nodes(3), vec![], vec![0; 2], vec![vec![]; 2]).is_none());
    assert!(Circuit::new(nodes(3), vec![], vec![0; 3], vec![vec![]; 4]).is_none());
    // a transistor on a wire that is not there
    assert!(Circuit::new(nodes(4), vec![tr(4, 0, 0)], vec![0; 4], vec![vec![]; 4]).is_none());
    assert!(Circuit::new(nodes(4), vec![tr(3, 4, 0)], vec![0; 4], vec![vec![]; 4]).is_none());
    assert!(Circuit::new(nodes(4), vec![tr(3, 0, 4)], vec![0; 4], vec![vec![]; 4]).is_none());
    assert!(Circuit::new(nodes(4), vec![tr(3, 3, 3)], vec![0; 4], vec![vec![]; 4]).is_some());
    // a gate list or a channel row that names a transistor that is not there
    let mut with_gate = nodes(4);
    with_gate[3] = node(vec![0]);
    assert!(Circuit::new(with_gate, vec![], vec![0; 4], vec![vec![]; 4]).is_none());
    assert!(Circuit::new(nodes(4), vec![], vec![0, 0, 0, 1], vec![vec![], vec![], vec![], vec![0]])
        .is_none());
    // more channel ends counted than the row holds
    assert!(Circuit::new(nodes(4), vec![], vec![0, 0, 0, 1], vec![vec![]; 4]).is_none());
    // too many wires
    assert!(Circuit::new(nodes(65536), vec![], vec![0; 65536], vec![vec![]; 65536]).is_none());
}

#[test]
fn power_on_fixes_the_rails_and_the_power_gated_transistors() {
    let circuit = build(8, &[(3, true, 1)], &[(NODE_PWR, 3, 4), (3, 4, 5), (NODE_GND, 5, 6)]);
    for n in 0..8u16 {
        assert_eq!(circuit.is_node_high(n), n == NODE_PWR);
        assert_eq!(circuit.node(n as usize).floating, n != NODE_PWR && n != NODE_GND);
    }
    assert_eq!(switches(&circuit), vec![true, false, false]);
    assert!(circuit.node(3).pullup);
    assert!(!circuit.is_diverged());
    assert!(gates_follow(&circuit));
}

#[test]
fn group_walks_through_conducting_transistors_only() {
    // 3 - 4 - 5 conduct, 5 - 6 is open
    let mut circuit = build(
        8,
        &[],
        &[(NODE_PWR, 3, 4), (NODE_PWR, 4, 5), (NODE_GND, 5, 6)],
    );
    circuit.get_node_group(3);
    assert_eq!(circuit.group(), &vec![3u16, 4, 5]);
    assert!(!circuit.has_ground());
    assert!(!circuit.has_power());
    circuit.get_node_group(5);
    assert_eq!(circuit.group(), &vec![5u16, 4, 3]);
    circuit.get_node_group(6);
    assert_eq!(circuit.group(), &vec![6u16]);
    circuit.get_node_group(7);
    assert_eq!(circuit.group(), &vec![7u16]);
}

#[test]
fn group_stops_at_the_rails_and_flags_them() {
    let mut circuit = build(
        8,
        &[],
        &[(NODE_PWR, 3, NODE_GND), (NODE_PWR, 4, NODE_PWR), (NODE_PWR, 3, 5), (NODE_PWR, 6, 4)],
    );
    circuit.get_node_group(5);
    assert_eq!(circuit.group(), &vec![5u16, 3]);
    assert!(circuit.has_ground());
    assert!(!circuit.has_power());
    circuit.get_node_group(6);
    assert_eq!(circuit.group(), &vec![6u16, 4]);
    assert!(!circuit.has_ground());
    assert!(circuit.has_power());
    // the walk does not pass through a rail: 3 and 4 both touch rails only
    circuit.get_node_group(NODE_GND);
    assert!(circuit.group().is_empty());
    assert!(circuit.has_ground());
    assert!(!circuit.has_power());
    circuit.get_node_group(NODE_PWR);
    assert!(circuit.group().is_empty());
    assert!(circuit.has_power());
}

#[test]
fn group_follows_the_channel_rows_depth_first() {
    // 3 touches 4 and 5, 4 touches 6; the walk finishes 4 before 5
    let mut circuit = build(
        8,
        &[],
        &[(NODE_PWR, 3, 4), (NODE_PWR, 3, 5), (NODE_PWR, 4, 6), (NODE_PWR, 6, 3)],
    );
    circuit.get_node_group(3);
    assert_eq!(circuit.group(), &vec![3u16, 4, 6, 5]);
}

#[test]
fn ground_beats_power_beats_pulls() {
    let mut circuit = build(
        8,
        &[(3, true, 5), (4, true, 5), (5, false, 5)],
        &[
            (NODE_PWR, 3, NODE_GND),
            (NODE_PWR, 3, NODE_PWR),
            (NODE_PWR, 4, NODE_PWR),
        ],
    );
    circuit.get_node_group(3);
    assert!(circuit.has_ground() && circuit.has_power());
    assert!(!circuit.get_node_value());
    circuit.get_node_group(4);
    assert!(circuit.get_node_value());
    assert!(circuit.set_low(4));
    assert!(circuit.is_node_high(4));
    assert!(circuit.set_high(3));
    assert!(!circuit.is_node_high(3));
}

#[test]
fn a_weak_drive_wire_waives_a_rail_conflict() {
    for weak in [359u16, 566, 691, 818, 856, 864, 870, 871] {
        let mut circuit = build(
            900,
            &[(weak, false, 5)],
            &[(NODE_PWR, weak, NODE_GND), (NODE_PWR, weak, NODE_PWR)],
        );
        circuit.get_node_group(weak);
        assert!(circuit.has_ground() && circuit.has_power());
        // no pull, nothing charged: low
        assert!(!circuit.get_node_value());
        // the conflict is waived: both rail flags are cleared
        assert!(!circuit.has_ground() && !circuit.has_power());
        assert_eq!(circuit.group(), &vec![weak]);
        assert!(circuit.set_high(weak));
        assert!(circuit.is_node_high(weak));
        assert!(circuit.set_low(weak));
        assert!(!circuit.is_node_high(weak));
    }
    // the neighbour of a weak-drive wire is none, and its flags stay
    let mut circuit =
        build(900, &[(360, true, 5)], &[(NODE_PWR, 360, NODE_GND), (NODE_PWR, 360, NODE_PWR)]);
    assert!(circuit.set_high(360));
    assert!(!circuit.is_node_high(360));
    circuit.get_node_group(360);
    assert!(!circuit.get_node_value());
    assert!(circuit.has_ground() && circuit.has_power());
}

#[test]
fn a_weak_drive_wire_on_one_rail_only_is_driven_by_it() {
    let mut circuit = build(900, &[(359, true, 5)], &[(NODE_PWR, 359, NODE_GND)]);
    assert!(circuit.set_high(359));
    assert!(!circuit.is_node_high(359));
    circuit.get_node_group(359);
    assert!(!circuit.get_node_value());
    assert!(circuit.has_ground() && !circuit.has_power());
    let mut circuit = build(900, &[(359, false, 5)], &[(NODE_PWR, 359, NODE_PWR)]);
    assert!(circuit.set_low(359));
    assert!(circuit.is_node_high(359));
}

#[test]
fn a_pullup_anywhere_in_the_group_beats_a_pulldown() {
    // the pulled-down wire comes first in the walk
    let mut circuit = build(8, &[(3, false, 1), (4, false, 1)], &[(NODE_PWR, 3, 4)]);
    assert!(circuit.set_low(3));
    assert!(!circuit.is_node_high(3));
    assert!(circuit.set_high(4));
    circuit.get_node_group(3);
    assert_eq!(circuit.group(), &vec![3u16, 4]);
    assert!(circuit.get_node_value());
    assert!(circuit.is_node_high(3));
    assert!(circuit.is_node_high(4));
}

#[test]
fn the_larger_charge_wins_and_a_tie_goes_low() {
    for (area3, area4, high) in [(5u16, 5u16, false), (6, 5, true), (5, 6, false), (0, 0, false)] {
        let mut circuit = build(8, &[(3, false, area3), (4, false, area4)], &[(5, 3, 4)]);
        // charge wire 3, then let it float
        assert!(circuit.set_high(3));
        assert!(circuit.float_bits(&[3]));
        assert_eq!(circuit.is_node_high(3), area3 > 0);
        assert!(!circuit.is_node_high(4));
        // join the two wires
        assert!(circuit.set_high(5));
        assert_eq!(circuit.is_node_high(3), high);
        assert_eq!(circuit.is_node_high(4), high);
        assert!(gates_follow(&circuit));
    }
}

#[test]
fn an_inverter_inverts() {
    let mut circuit = build(8, &[(3, false, 1), (4, true, 1)], &[(3, 4, NODE_GND)]);
    assert!(circuit.set_low(3));
    assert!(circuit.recalc_node_list(&[4]));
    assert!(!circuit.is_node_high(3));
    assert!(circuit.is_node_high(4));
    assert!(circuit.set_high(3));
    assert!(circuit.is_node_high(3));
    assert!(!circuit.is_node_high(4));
    assert_eq!(switches(&circuit), vec![true]);
    assert!(circuit.set_low(3));
    assert!(circuit.is_node_high(4));
    assert_eq!(switches(&circuit), vec![false]);
    assert!(gates_follow(&circuit));
}

#[test]
fn a_chain_of_inverters_settles_in_one_call() {
    // 3 -> 4 -> 5 -> 6
    let mut circuit = build(
        8,
        &[(3, false, 1), (4, true, 1), (5, true, 1), (6, true, 1)],
        &[(3, 4, NODE_GND), (4, 5, NODE_GND), (5, 6, NODE_GND)],
    );
    assert!(circuit.recalc_node_list(&[3, 4, 5, 6]));
    assert_eq!(&levels(&circuit)[3..7], &[false, true, false, true]);
    assert!(circuit.set_high(3));
    assert_eq!(&levels(&circuit)[3..7], &[true, false, true, false]);
    assert!(circuit.set_low(3));
    assert_eq!(&levels(&circuit)[3..7], &[false, true, false, true]);
    assert!(gates_follow(&circuit));
}

#[test]
fn set_high_on_a_settled_high_wire_changes_nothing() {
    let mut circuit = build(
        8,
        &[(3, false, 1), (4, true, 1), (5, true, 1)],
        &[(3, 4, NODE_GND), (4, 5, NODE_GND)],
    );
    assert!(circuit.recalc_node_list(&[3, 4, 5]));
    assert!(circuit.set_high(3));
    let before = (levels(&circuit), switches(&circuit));
    let pulls: Vec<(bool, bool)> =
        (0..8).map(|n| (circuit.node(n).pullup, circuit.node(n).pulldown)).collect();
    assert!(circuit.set_high(3));
    assert_eq!(before, (levels(&circuit), switches(&circuit)));
    let after: Vec<(bool, bool)> =
        (0..8).map(|n| (circuit.node(n).pullup, circuit.node(n).pulldown)).collect();
    assert_eq!(pulls, after);
}

#[test]
fn relaxing_a_rail_does_nothing() {
    let mut circuit = build(8, &[(3, true, 1)], &[(NODE_PWR, 3, NODE_GND)]);
    let before = (levels(&circuit), switches(&circuit));
    assert!(circuit.recalc_node_list(&[NODE_GND, NODE_PWR]));
    assert!(circuit.recalc_node_list(&[]));
    assert_eq!(before, (levels(&circuit), switches(&circuit)));
    assert!(!circuit.is_node_high(NODE_GND));
    assert!(circuit.is_node_high(NODE_PWR));
}

#[test]
fn an_oscillator_diverges_and_power_on_revives_it() {
    // a pulled-up wire that grounds itself
    let mut circuit = build(8, &[(3, true, 1), (4, false, 1)], &[(3, 3, NODE_GND)]);
    assert!(!circuit.recalc_node_list(&[3]));
    assert!(circuit.is_diverged());
    // a diverged network is left alone
    let before = (levels(&circuit), switches(&circuit));
    assert!(!circuit.set_high(4));
    assert!(!circuit.set_low(4));
    assert!(!circuit.write_bits(&[4], 1));
    assert!(!circuit.float_bits(&[4]));
    assert!(!circuit.set_bit(4, 5));
    assert!(!circuit.recalc_node_list(&[4]));
    assert_eq!(before, (levels(&circuit), switches(&circuit)));
    assert!(!circuit.node(4).pullup && !circuit.node(4).pulldown);
    circuit.power_on();
    assert!(!circuit.is_diverged());
    assert!(circuit.set_high(4));
    assert!(circuit.is_node_high(4));
}

#[test]
fn ninety_nine_passes_are_allowed() {
    // a chain of inverters needs one pass per stage
    let chain = |stages: u16| {
        let mut wires = vec![(3u16, false, 1u16)];
        let mut trans = Vec::new();
        for k in 0..stages {
            wires.push((4 + k, true, 1));
            trans.push((3 + k, 4 + k, NODE_GND));
        }
        let mut circuit = build(4 + stages + 1, &wires, &trans);
        // settle the chain stage by stage, so that each later call ripples through all of it
        for k in 0..=stages {
            assert!(circuit.recalc_node_list(&[3 + k]));
        }
        circuit
    };
    let mut circuit = chain(98);
    assert!(!circuit.is_node_high(3 + 98));
    assert!(circuit.set_high(3));
    assert!(circuit.is_node_high(3 + 98));
    assert!(circuit.is_node_high(3 + 96));
    assert!(!circuit.is_node_high(3 + 97));
    assert!(circuit.set_low(3));
    assert!(!circuit.is_node_high(3 + 98));
    let mut circuit = chain(99);
    assert!(!circuit.set_high(3));
    assert!(circuit.is_diverged());
}

#[test]
fn write_bits_drives_lowest_bit_first() {
    let mut circuit = build(16, &[], &[]);
    let bus = [3u16, 4, 5, 6, 7, 8, 9, 10];
    assert!(circuit.write_byte(bus, 0b1010_0110));
    assert_eq!(&levels(&circuit)[3..11], &[false, true, true, false, false, true, false, true]);
    for (i, n) in bus.iter().enumerate() {
        let bit = (0b1010_0110u8 >> i) & 1 == 1;
        assert_eq!(circuit.node(*n as usize).pullup, bit);
        assert_eq!(circuit.node(*n as usize).pulldown, !bit);
    }
    assert_eq!(circuit.read_bits(&bus), 0b1010_0110);
    assert!(circuit.write_bits(&bus[..3], 0xffff));
    assert_eq!(circuit.read_bits(&bus), 0b1010_0111);
    assert_eq!(circuit.read_bits(&bus[1..4]), 0b011);
    assert_eq!(circuit.read_bits(&[]), 0);
}

#[test]
fn read_bits_reads_sixteen_wires() {
    let mut circuit = build(32, &[], &[]);
    let bus: Vec<u16> = (3..19).collect();
    assert!(circuit.write_bits(&bus, 0xfffe));
    assert_eq!(circuit.read_bits(&bus), 0xfffe);
    assert!(circuit.write_bits(&bus, 0x8001));
    assert_eq!(circuit.read_bits(&bus), 0x8001);
    assert!(circuit.write_bits(&bus, 0xffff));
    assert_eq!(circuit.read_bits(&bus), 0xffff);
}

#[test]
fn float_byte_takes_the_pulls_off_and_keeps_the_charge() {
    let mut circuit = build(
        16,
        &[(3, false, 1), (4, false, 1), (5, false, 1), (6, false, 1), (7, false, 1),
          (8, false, 1), (9, false, 1), (10, false, 1)],
        &[],
    );
    let bus = [3u16, 4, 5, 6, 7, 8, 9, 10];
    assert!(circuit.write_byte(bus, 0x5a));
    assert!(circuit.float_byte(bus));
    for n in bus.iter() {
        assert!(!circuit.node(*n as usize).pullup);
        assert!(!circuit.node(*n as usize).pulldown);
    }
    assert_eq!(circuit.read_bits(&bus), 0x5a);
}

#[test]
fn a_floating_wire_without_area_falls_low() {
    let mut circuit = build(8, &[(3, false, 0)], &[]);
    assert!(circuit.set_high(3));
    assert!(circuit.is_node_high(3));
    assert!(circuit.float_bits(&[3]));
    assert!(!circuit.is_node_high(3));
}

#[test]
fn set_bit_flips_a_latch() {
    // two cross-coupled inverters: 3 and 4, each pulled up, each grounding the other
    let mut circuit =
        build(8, &[(3, true, 1), (4, true, 1)], &[(3, 4, NODE_GND), (4, 3, NODE_GND)]);
    assert!(circuit.set_bit(3, 4));
    assert!(circuit.is_node_high(3));
    assert!(!circuit.is_node_high(4));
    assert_eq!(switches(&circuit), vec![true, false]);
    assert!(circuit.set_bit(4, 3));
    assert!(!circuit.is_node_high(3));
    assert!(circuit.is_node_high(4));
    assert_eq!(switches(&circuit), vec![false, true]);
    assert!(gates_follow(&circuit));
}

#[test]
fn set_bit_with_an_absent_side_does_nothing() {
    let mut circuit =
        build(8, &[(3, true, 1), (4, true, 1)], &[(3, 4, NODE_GND), (4, 3, NODE_GND)]);
    let before = (levels(&circuit), switches(&circuit));
    assert!(circuit.set_bit(-1, 4));
    assert!(circuit.set_bit(3, -1));
    assert!(circuit.set_bit(-1, -1));
    assert!(circuit.set_bit(i32::MIN, 3));
    assert_eq!(before, (levels(&circuit), switches(&circuit)));
}

#[test]
fn transistors_follow_their_gates_after_every_operation() {
    let mut circuit = build(
        12,
        &[(3, false, 2), (4, true, 1), (5, false, 3), (6, true, 1), (7, false, 1)],
        &[(3, 4, NODE_GND), (4, 5, 6), (5, 7, NODE_PWR), (6, 7, NODE_GND), (NODE_PWR, 8, 9)],
    );
    assert!(gates_follow(&circuit));
    assert!(circuit.recalc_node_list(&[3, 4, 5, 6, 7, 8, 9]));
    assert!(gates_follow(&circuit));
    for step in 0..16u16 {
        let settled = match step % 4 {
            0 => circuit.set_high(3 + step % 5),
            1 => circuit.set_low(3 + step % 3),
            2 => circuit.write_bits(&[3, 5, 7], step),
            _ => circuit.float_bits(&[4, 6]),
        };
        assert!(settled);
        assert!(gates_follow(&circuit));
    }
}

/// The wires that conducting transistors join to `seed`, found without
/// the library's walk, and whether they touch ground and power.
fn joined_wires(circuit: &Circuit, seed: u16) -> (Vec<u16>, bool, bool) {
    let mut found = vec![seed];
    let (mut ground, mut power) = (false, false);
    let mut grew = true;
    while grew {
        grew = false;
        for t in 0..circuit.transistor_count() {
            let tr = circuit.transistor(t);
            if !tr.on {
                continue;
            }
            for (a, b) in [(tr.c1, tr.c2), (tr.c2, tr.c1)] {
                if found.contains(&a) {
                    if b == NODE_GND {
                        ground = true;
                    } else if b == NODE_PWR {
                        power = true;
                    } else if !found.contains(&b) {
                        found.push(b);
                        grew = true;
                    }
                }
            }
        }
    }
    found.sort();
    (found, ground, power)
}

fn is_settled(circuit: &mut Circuit) -> bool {
    (0..circuit.node_count() as u16).filter(|n| *n != NODE_GND && *n != NODE_PWR).all(|n| {
        circuit.get_node_group(n);
        circuit.get_node_value() == circuit.is_node_high(n)
    })
}

struct Dice(u64);

impl Dice {
    fn roll(&mut self, sides: u16) -> u16 {
        self.0 = self.0.wrapping_mul(6364136223846793005).wrapping_add(1442695040888963407);
        ((self.0 >> 33) % sides as u64) as u16
    }
}

fn random_circuit(dice: &mut Dice, total: u16, transistors: usize) -> Circuit {
    let wires: Vec<(u16, bool, u16)> =
        (3..total).map(|n| (n, dice.roll(4) == 0, dice.roll(5))).collect();
    let trans: Vec<(u16, u16, u16)> = (0..transistors)
        .map(|_| (1 + dice.roll(total - 1), 1 + dice.roll(total - 1), 1 + dice.roll(total - 1)))
        .collect();
    build(total, &wires, &trans)
}

#[test]
fn the_group_of_a_wire_is_what_conducting_transistors_join_to_it() {
    let mut dice = Dice(7);
    for _ in 0..30 {
        let mut circuit = random_circuit(&mut dice, 24, 40);
        // some more transistors conduct after a few wires are driven
        for _ in 0..4 {
            let node = 3 + dice.roll(21);
            if !circuit.set_high(node) {
                break;
            }
        }
        for n in 3..24u16 {
            circuit.get_node_group(n);
            let mut members = circuit.group().clone();
            assert_eq!(members[0], n);
            members.sort();
            let (found, ground, power) = joined_wires(&circuit, n);
            assert_eq!(members, found);
            assert_eq!(circuit.has_ground(), ground);
            assert_eq!(circuit.has_power(), power);
        }
    }
}

#[test]
fn relaxing_every_wire_ends_at_the_fixed_point_and_operations_keep_it() {
    let mut dice = Dice(11);
    let mut settled_networks = 0;
    let mut checks = 0;
    for _ in 0..60 {
        let mut circuit = random_circuit(&mut dice, 20, 24);
        let all: Vec<u16> = (0..20).collect();
        if !circuit.recalc_node_list(&all) {
            assert!(circuit.is_diverged());
            continue;
        }
        settled_networks += 1;
        assert!(is_settled(&mut circuit));
        assert!(gates_follow(&circuit));
        for step in 0..12 {
            let node = 3 + dice.roll(17);
            let other = 3 + dice.roll(17);
            let settled = match step % 4 {
                0 => circuit.set_high(node),
                1 => circuit.set_low(node),
                2 => circuit.write_bits(&[node, other], dice.roll(4)),
                _ => circuit.float_bits(&[node, other]),
            };
            if !settled {
                break;
            }
            assert!(is_settled(&mut circuit));
            assert!(gates_follow(&circuit));
            assert!(!circuit.is_node_high(NODE_GND));
            assert!(circuit.is_node_high(NODE_PWR));
            checks += 1;
        }
    }
    assert!(settled_networks >= 20);
    assert!(checks >= 100);
}

#[test]
fn pulling_a_wire_twice_is_pulling_it_once() {
    let mut dice = Dice(13);
    let mut checks = 0;
    for _ in 0..40 {
        let mut circuit = random_circuit(&mut dice, 20, 24);
        let all: Vec<u16> = (0..20).collect();
        if !circuit.recalc_node_list(&all) {
            continue;
        }
        for _ in 0..6 {
            let node = 3 + dice.roll(17);
            let high = dice.roll(2) == 0;
            let settled = if high { circuit.set_high(node) } else { circuit.set_low(node) };
            if !settled {
                break;
            }
            let once = (levels(&circuit), switches(&circuit));
            let again = if high { circuit.set_high(node) } else { circuit.set_low(node) };
            assert!(again);
            assert_eq!(once, (levels(&circuit), switches(&circuit)));
            checks += 1;
        }
    }
    assert!(checks >= 50);
}

#[test]
fn a_partial_relaxation_may_stop_short_of_the_fixed_point() {
    // wire 4 is pulled up but nothing has evaluated it since power-on
    let mut circuit = build(8, &[(3, true, 1), (4, true, 1)], &[]);
    assert!(circuit.recalc_node_list(&[3]));
    assert!(circuit.is_node_high(3));
    assert!(!circuit.is_node_high(4));
    assert!(!is_settled(&mut circuit));
    assert!(circuit.recalc_node_list(&[4]));
    assert!(is_settled(&mut circuit));
}

#[test]
fn set_bit_relaxes_the_two_sides_only() {
    // wire 5 is pulled down and follows wire 3 through a transistor to power;
    // writing the latch switches that transistor without evaluating wire 5
    let mut circuit = build(
        8,
        &[(3, true, 1), (4, true, 1), (5, false, 1)],
        &[(3, 4, NODE_GND), (4, 3, NODE_GND), (3, 5, NODE_PWR)],
    );
    assert!(circuit.set_low(5));
    assert!(circuit.recalc_node_list(&[3, 4, 5]));
    assert!(circuit.is_node_high(3));
    assert!(circuit.is_node_high(5));
    assert!(is_settled(&mut circuit));
    assert!(circuit.set_bit(4, 3));
    assert!(!circuit.is_node_high(3));
    assert!(!circuit.transistor(2).on);
    // cut off from power and pulled down, but still high
    assert!(circuit.is_node_high(5));
    assert!(gates_follow(&circuit));
    assert!(!is_settled(&mut circuit));
    assert!(circuit.recalc_node_list(&[5]));
    assert!(!circuit.is_node_high(5));
    assert!(is_settled(&mut circuit));
}

#[test]
fn scratch_is_empty_after_every_relaxation() {
    fn empty(circuit: &Circuit) -> bool {
        circuit.work_list().is_empty()
            && circuit.group().is_empty()
            && !circuit.has_ground()
            && !circuit.has_power()
    }
    let mut circuit = build(
        12,
        &[(3, false, 1), (4, true, 1), (5, true, 1), (6, true, 1)],
        &[(3, 4, NODE_GND), (4, 5, NODE_GND), (5, 6, NODE_PWR)],
    );
    assert!(empty(&circuit));
    circuit.get_node_group(6);
    assert!(!empty(&circuit));
    assert!(circuit.recalc_node_list(&[3, 4, 5, 6]));
    assert!(empty(&circuit));
    assert!(circuit.set_high(3));
    assert!(empty(&circuit));
    assert!(circuit.set_low(3));
    assert!(empty(&circuit));
    assert!(circuit.write_bits(&[3, 7], 3));
    assert!(empty(&circuit));
    assert!(circuit.float_bits(&[3, 7]));
    assert!(empty(&circuit));
    assert!(circuit.set_bit(7, 8));
    assert!(empty(&circuit));
    circuit.get_node_group(6);
    assert!(circuit.set_bit(-1, 8));
    assert!(empty(&circuit));
    circuit.get_node_group(6);
    assert!(circuit.recalc_node_list(&[]));
    assert!(empty(&circuit));
    circuit.get_node_group(6);
    circuit.power_on();
    assert!(empty(&circuit));
    // a network that diverges leaves nothing behind either
    let mut circuit = build(8, &[(3, true, 1)], &[(3, 3, NODE_GND)]);
    assert!(!circuit.recalc_node_list(&[3]));
    assert!(empty(&circuit));
    circuit.get_node_group(3);
    assert!(!circuit.set_high(4));
    assert!(empty(&circuit));
}
