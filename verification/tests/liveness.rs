use gcf::galloc::ifr::{construct, dsatur, NodeIndex, RegColor};
use gcf::galloc::liveness::{
    find_deaths, mark_live_in_range, merge_to_live_segments, LiveRangesBuilder,
};
use gcf::il::amd::AmdRegister;
use gcf::il::reg::MachineReg;
use gcf::il::cfg::{Block, CtrlFlow, Location};
use gcf::il::reg::SSARegister;
use gcf::il::{DummyUse, ILSize, Instruction, Return, Write, RValue, Immediate};

fn reg(id: usize) -> SSARegister {
    SSARegister::new(id, ILSize::Integer { width_in_bytes: 4 })
}

fn write_ins(dest: SSARegister) -> Instruction {
    Instruction::Write(Write {
        destination: dest,
        value: RValue::Immediate(Immediate::U32(10)),
    })
}

fn use_ins(r: SSARegister) -> Instruction {
    Instruction::DummyUse(DummyUse { register: r })
}

/// Segment invariants on a concrete merge: scattered unit marks collapse
/// into segments that neither overlap nor touch.
#[test]
fn merge_yields_clean_segments() {
    let mut cfg = CtrlFlow::new();
    let b = cfg.insert_block(Block::new(Vec::new()));
    let locations = vec![
        Location::new(b, 2),
        Location::new(b, 1),
        Location::new(b, 0),
        Location::new(b, 5),
    ];
    let segments = merge_to_live_segments(locations);
    assert_eq!(segments.len(), 2);
    assert_eq!(segments[0].begin_offset(), 0);
    assert_eq!(segments[0].end_offset(), 3);
    assert_eq!(segments[1].begin_offset(), 5);
    assert_eq!(segments[1].end_offset(), 6);
    for i in 0..segments.len() {
        for j in 0..segments.len() {
            if i != j {
                assert!(!segments[i].overlaps(&segments[j]));
                assert!(!segments[i].is_adjacent_with(&segments[j]));
            }
        }
    }
}

/// Cross-block liveness: a register written in the entry block and used in
/// the next block is live in both, one segment each.
#[test]
fn liveness_crosses_blocks() {
    let x = reg(0);
    let mut cfg = CtrlFlow::new();
    let b0 = cfg.insert_block(Block::new(vec![
        write_ins(x),
        use_ins(x),
        Instruction::Return(Return { register: None }),
    ]));
    let b1 = cfg.insert_block(Block::new(vec![use_ins(x)]));
    cfg.add_directed_edge(b0, b1);

    let mut builder = LiveRangesBuilder::new();
    mark_live_in_range(
        &x,
        Location::new(b0, 0),
        Location::new(b1, 0),
        &mut builder,
        &cfg,
    );
    let ranges = builder.build();
    assert_eq!(ranges.len(), 1);
    assert_eq!(ranges[0].reg().id(), 0);
    let segments = ranges[0].segments();
    assert_eq!(segments.len(), 2);
    // the end block's use, then the whole entry block
    assert_eq!(segments[0].begin().block_handle(), b1);
    assert_eq!(segments[0].begin_offset(), 0);
    assert_eq!(segments[0].end_offset(), 1);
    assert_eq!(segments[1].begin().block_handle(), b0);
    assert_eq!(segments[1].begin_offset(), 0);
    assert_eq!(segments[1].end_offset(), 3);
}

/// Liveness minimality on a concrete block: marking stops at the death
/// location, so offsets past it stay out of the built range.
#[test]
fn liveness_stops_at_the_death() {
    let x = reg(0);
    let mut cfg = CtrlFlow::new();
    let b0 = cfg.insert_block(Block::new(vec![
        write_ins(x),
        use_ins(x),
        use_ins(x),
        Instruction::Return(Return { register: None }),
    ]));
    let mut builder = LiveRangesBuilder::new();
    mark_live_in_range(
        &x,
        Location::new(b0, 0),
        Location::new(b0, 2),
        &mut builder,
        &cfg,
    );
    let ranges = builder.build();
    assert_eq!(ranges.len(), 1);
    let segments = ranges[0].segments();
    assert_eq!(segments.len(), 1);
    assert_eq!(segments[0].begin_offset(), 0);
    assert_eq!(segments[0].end_offset(), 3);
    assert!(!segments[0].contains(Location::new(b0, 3)));
}

/// The death of a register is its last read, per branch of the walk.
#[test]
fn deaths_are_last_uses() {
    let x = reg(0);
    let mut cfg = CtrlFlow::new();
    let b0 = cfg.insert_block(Block::new(vec![write_ins(x), use_ins(x), use_ins(x)]));
    let deaths = find_deaths(&x, b0, &cfg);
    assert_eq!(deaths.len(), 1);
    assert_eq!(deaths[0].block_handle(), b0);
    assert_eq!(deaths[0].offset(), 2);
}

/// Reachability drives the cross-block location order.
#[test]
fn location_order_follows_edges() {
    let mut cfg = CtrlFlow::new();
    let b0 = cfg.insert_block(Block::new(vec![use_ins(reg(0))]));
    let b1 = cfg.insert_block(Block::new(vec![use_ins(reg(0))]));
    let b2 = cfg.insert_block(Block::new(vec![use_ins(reg(0))]));
    cfg.add_directed_edge(b0, b1);
    cfg.add_directed_edge(b1, b2);
    assert!(cfg.has_forward_path(b0, b2));
    assert!(!cfg.has_forward_path(b2, b0));
    assert!(cfg.has_backwards_path(b2, b0));
    let early = Location::new(b0, 0);
    let late = Location::new(b2, 0);
    assert!(late.is_after(&cfg, &early));
    assert!(!early.is_after(&cfg, &late));
    // the two orders are dual across blocks
    assert!(early.is_before(&cfg, &late));
    assert!(!late.is_before(&cfg, &early));
}

/// Cross-block liveness feeds the interference graph: a single range makes
/// a single node, and coloring gives it one machine register.
#[test]
fn cross_block_range_is_one_node() {
    let x = reg(0);
    let mut cfg = CtrlFlow::new();
    let b0 = cfg.insert_block(Block::new(vec![
        write_ins(x),
        use_ins(x),
        Instruction::Return(Return { register: None }),
    ]));
    let b1 = cfg.insert_block(Block::new(vec![use_ins(x)]));
    cfg.add_directed_edge(b0, b1);
    let mut builder = LiveRangesBuilder::new();
    mark_live_in_range(
        &x,
        Location::new(b0, 0),
        Location::new(b1, 0),
        &mut builder,
        &cfg,
    );
    let ranges = builder.build();
    let mut graph = construct(ranges);
    assert!(graph.neighbors_vec(NodeIndex::at(0)).is_empty());
    dsatur(&mut graph);
    assert_eq!(
        graph.get_node(NodeIndex::at(0)).color(),
        Some(RegColor::Machine(MachineReg::AMD64(AmdRegister::Eax)))
    );
}
