use gcf::galloc::ifr::{construct, dsatur, InterferenceGraph, NodeIndex, RegColor};
use gcf::galloc::liveness::{merge_to_live_segments, LiveRange};
use gcf::il::amd::AmdRegister;
use gcf::il::cfg::{Block, BlockHandle, CtrlFlow, Location};
use gcf::il::reg::{MachineReg, SSARegister};
use gcf::il::ILSize;

#[test]
fn ifr_graph() {
    let mut ifr_graph: InterferenceGraph<i32> = InterferenceGraph::new();
    let n0 = ifr_graph.add_node(0);
    let n1 = ifr_graph.add_node(1);
    let n2 = ifr_graph.add_node(2);

    ifr_graph.add_edge(n0, n1);
    ifr_graph.add_edge(n0, n2);

    assert_eq!(ifr_graph.neighbors_vec(n0), vec![n2, n1]);
}

#[test]
fn ifr_none_sentinels() {
    assert!(NodeIndex::none().is_none());
    assert!(!NodeIndex::none().is_some());
    let mut g: InterferenceGraph<i32> = InterferenceGraph::new();
    let n0 = g.add_node(7);
    assert!(n0.is_some());
    assert_eq!(*g.get_node(n0).data(), 7);
    assert_eq!(g.get_node(n0).color(), None);
    assert_eq!(g.get_node(n0).dsatur_saturation(), 0);
}

fn dword(id: usize) -> SSARegister {
    SSARegister::new(id, ILSize::Integer { width_in_bytes: 4 })
}

fn unit_range_at(block: BlockHandle, offset: usize, reg: SSARegister) -> LiveRange {
    LiveRange::new(
        merge_to_live_segments(vec![Location::new(block, offset)]),
        reg,
    )
}

fn one_block() -> (CtrlFlow, BlockHandle) {
    let mut cfg = CtrlFlow::new();
    let b = cfg.insert_block(Block::new(Vec::new()));
    (cfg, b)
}

/// Register pressure: three mutually interfering double-word ranges and
/// only two double-word registers. One range spills to a fresh stack slot
/// of its width.
#[test]
fn pressure_spills_exactly_one() {
    let (_cfg, b) = one_block();
    let ranges = vec![
        unit_range_at(b, 0, dword(0)),
        unit_range_at(b, 0, dword(1)),
        unit_range_at(b, 0, dword(2)),
    ];
    assert!(ranges[0].overlaps(&ranges[1]));
    assert!(ranges[1].overlaps(&ranges[2]));
    let mut graph = construct(ranges);
    dsatur(&mut graph);
    let c0 = graph.get_node(NodeIndex::at(0)).color().unwrap();
    let c1 = graph.get_node(NodeIndex::at(1)).color().unwrap();
    let c2 = graph.get_node(NodeIndex::at(2)).color().unwrap();
    assert_eq!(c0, RegColor::Machine(MachineReg::AMD64(AmdRegister::Eax)));
    assert_eq!(c1, RegColor::Machine(MachineReg::AMD64(AmdRegister::Ecx)));
    match c2 {
        RegColor::Slot(slot) => {
            assert_eq!(slot.width, 4);
        }
        RegColor::Machine(_) => panic!("the third range must spill"),
    }
}

/// Partial aliasing: a quad-word range takes the wide accumulator, so an
/// interfering double-word range must avoid the accumulator's low half and
/// take the other double-word register.
#[test]
fn aliasing_respected_across_widths() {
    let (_cfg, b) = one_block();
    let wide = SSARegister::new(0, ILSize::Integer { width_in_bytes: 8 });
    let ranges = vec![unit_range_at(b, 0, wide), unit_range_at(b, 0, dword(1))];
    let mut graph = construct(ranges);
    dsatur(&mut graph);
    let c0 = graph.get_node(NodeIndex::at(0)).color().unwrap();
    let c1 = graph.get_node(NodeIndex::at(1)).color().unwrap();
    assert_eq!(c0, RegColor::Machine(MachineReg::AMD64(AmdRegister::Rax)));
    // never the aliased child of the neighbour's color
    assert_eq!(c1, RegColor::Machine(MachineReg::AMD64(AmdRegister::Ecx)));
}

/// Interference soundness on a concrete pair: overlapping ranges get an
/// edge, disjoint ones do not.
#[test]
fn overlap_decides_edges() {
    let (_cfg, b) = one_block();
    let ranges = vec![
        unit_range_at(b, 0, dword(0)),
        unit_range_at(b, 0, dword(1)),
        unit_range_at(b, 5, dword(2)),
    ];
    let graph = construct(ranges);
    assert!(graph.has_edge(NodeIndex::at(0), NodeIndex::at(1)));
    assert!(!graph.has_edge(NodeIndex::at(0), NodeIndex::at(2)));
    assert!(!graph.has_edge(NodeIndex::at(1), NodeIndex::at(2)));
}

#[test]
fn machine_register_overlap_table() {
    let rax = MachineReg::AMD64(AmdRegister::Rax);
    let eax = MachineReg::AMD64(AmdRegister::Eax);
    let ecx = MachineReg::AMD64(AmdRegister::Ecx);
    assert!(rax.overlaps(&eax));
    assert!(eax.overlaps(&rax));
    assert!(!rax.overlaps(&ecx));
    assert!(!eax.overlaps(&ecx));
}

/// Heavier pressure: four mutually interfering double-word ranges, two
/// double-word registers. The two spilled ranges get distinct fresh slots.
#[test]
fn pressure_spills_get_fresh_slots() {
    let (_cfg, b) = one_block();
    let ranges = vec![
        unit_range_at(b, 0, dword(0)),
        unit_range_at(b, 0, dword(1)),
        unit_range_at(b, 0, dword(2)),
        unit_range_at(b, 0, dword(3)),
    ];
    let mut graph = construct(ranges);
    dsatur(&mut graph);
    let c2 = graph.get_node(NodeIndex::at(2)).color().unwrap();
    let c3 = graph.get_node(NodeIndex::at(3)).color().unwrap();
    match (c2, c3) {
        (RegColor::Slot(s2), RegColor::Slot(s3)) => {
            assert_eq!(s2.width, 4);
            assert_eq!(s3.width, 4);
            assert_ne!(s2.offset, s3.offset);
            assert_eq!(s2.offset, 0);
            assert_eq!(s3.offset, 4);
        }
        _ => panic!("both later ranges must spill"),
    }
}
