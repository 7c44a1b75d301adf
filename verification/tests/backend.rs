use std::collections::{HashMap, HashSet};

use tibanna::backend::allocator::coalesce::coalesce_registers;
use tibanna::backend::allocator::graph_color;
use tibanna::backend::allocator::Allocator;
use tibanna::backend::constant::ConstantFolding;
use tibanna::backend::dce::DeadCodeElimination;
use tibanna::backend::liveness::{check_cfg, liveness};
use tibanna::backend::pass::OptimizationPass;
use tibanna::backend::regalloc;
use tibanna::common::graph::Graph;
use tibanna::common::regset::RegSet;
use tibanna::common::uf::UnionFind;
use tibanna::ir::types::{BlockId, Instruction, Operation, TIRBlock, TIRFunction, Terminator, VirtualRegister};
use tibanna::resolver::FunctionId;

fn vr(n: usize) -> VirtualRegister {
    VirtualRegister(n)
}

fn instr(dest: usize, op: Operation) -> Instruction {
    Instruction { dest: vr(dest), op }
}

fn block_with(label: usize, params: Vec<VirtualRegister>, instructions: Vec<Instruction>, terminator: Terminator) -> TIRBlock {
    TIRBlock { label: BlockId(label), params, instructions, terminator }
}

fn block(id: usize, instructions: Vec<Instruction>, terminator: Terminator) -> TIRBlock {
    block_with(id, vec![], instructions, terminator)
}

fn func(blocks: Vec<TIRBlock>) -> TIRFunction {
    TIRFunction { name: "test".to_string(), params: vec![], blocks }
}

fn set_of(s: &RegSet) -> HashSet<VirtualRegister> {
    s.to_vec().into_iter().collect()
}

fn assert_valid_coloring(graph: &Graph, alloc: &HashMap<usize, usize>, num_registers: usize) {
    for &r in alloc.values() {
        assert!(r < num_registers, "invalid register assignment: {}", r);
    }

    for v in graph.vertices() {
        if let Some(neighbors) = graph.edges(v) {
            for n in neighbors.to_vec() {
                if let (Some(&c1), Some(&c2)) = (alloc.get(&v.0), alloc.get(&n.0)) {
                    assert_ne!(c1, c2, "color conflict between {:?} and {:?}", v, n);
                }
            }
        }
    }
}

fn chain() -> Graph {
    let mut g = Graph::new();
    g.add_edge(vr(0), vr(1));
    g.add_edge(vr(1), vr(2));
    g.add_edge(vr(2), vr(3));
    g
}

fn triangle() -> Graph {
    let mut g = Graph::new();
    g.add_edge(vr(0), vr(1));
    g.add_edge(vr(1), vr(2));
    g.add_edge(vr(2), vr(0));
    g
}

#[test]
fn graph_color_test_single_node() {
    let mut g = Graph::new();
    g.add_vertex(vr(1));

    let alloc = graph_color::allocate_registers(g, 2);
    assert_eq!(alloc.allocations.len(), 1);
    assert!(alloc.allocations.contains_key(&1));
}

#[test]
fn graph_color_test_chain_has_no_spills() {
    let alloc = graph_color::allocate_registers(chain(), 2);
    assert_eq!(alloc.allocations.len(), 4);
    assert_valid_coloring(&chain(), &alloc.allocations, 2);
}

#[test]
fn graph_color_test_triangle_requires_spill() {
    let alloc = graph_color::allocate_registers(triangle(), 2);

    assert_eq!(alloc.spilled.len(), 1);
    assert_valid_coloring(&triangle(), &alloc.allocations, 2);
}

#[test]
fn graph_color_test_independent_nodes() {
    let mut g = Graph::new();
    for i in 0..10 {
        g.add_vertex(vr(i));
    }

    let alloc = graph_color::allocate_registers(g, 2);
    assert_eq!(alloc.allocations.len(), 10);
}

#[test]
fn test_terminator_interference() {
    let f = TIRFunction {
        name: "test".to_string(),
        params: vec![],
        blocks: vec![
            block_with(
                0,
                vec![],
                vec![instr(0, Operation::ConstInt(1)), instr(1, Operation::ConstInt(2)), instr(2, Operation::ConstInt(3))],
                Terminator::ConditionalBranch {
                    cond: vr(0),
                    then_target: BlockId(1),
                    then_params: vec![vr(1)],
                    else_target: BlockId(2),
                    else_params: vec![vr(2)],
                },
            ),
            block_with(1, vec![vr(3)], vec![], Terminator::Return(vr(1))),
            block_with(2, vec![vr(4)], vec![], Terminator::Return(vr(2))),
        ],
    };

    let l = liveness(&f);
    let mut uf = coalesce_registers(&f);
    let g = graph_color::create_interference_graph(&f, &l, &mut uf);

    assert_eq!(set_of(g.edges(vr(0)).unwrap()), HashSet::from([vr(1), vr(2)]));
}

#[test]
fn regalloc_test_single_node() {
    let mut g = Graph::new();
    g.add_vertex(vr(1));

    let alloc = regalloc::allocate_registers(g, 2);
    assert_eq!(alloc.allocations.len(), 1);
    assert!(alloc.allocations.contains_key(&1));
}

#[test]
fn regalloc_test_chain_has_no_spills() {
    let alloc = regalloc::allocate_registers(chain(), 2);
    assert_eq!(alloc.allocations.len(), 4);
    assert_valid_coloring(&chain(), &alloc.allocations, 2);
}

#[test]
fn regalloc_test_triangle_requires_spill() {
    let alloc = regalloc::allocate_registers(triangle(), 2);

    assert_eq!(alloc.spilled.len(), 2);
    assert_valid_coloring(&triangle(), &alloc.allocations, 2);
}

#[test]
fn regalloc_test_independent_nodes() {
    let mut g = Graph::new();
    for i in 0..10 {
        g.add_vertex(vr(i));
    }

    let alloc = regalloc::allocate_registers(g, 2);
    assert_eq!(alloc.allocations.len(), 10);
}

#[test]
fn test_liveness_single_block() {
    let block0 = block_with(
        0,
        vec![],
        vec![instr(1, Operation::ConstInt(10)), instr(2, Operation::Add(vr(1), vr(3)))],
        Terminator::Return(vr(2)),
    );
    let f = func(vec![block0]);

    let live = liveness(&f);
    let b0 = live.block(BlockId(0)).unwrap();
    assert_eq!(set_of(&b0.live_in), HashSet::from([vr(3)]));
    assert!(b0.live_out.is_empty());
}

#[test]
fn test_liveness_branch() {
    let block0 = block_with(
        0,
        vec![],
        vec![instr(1, Operation::ConstInt(1))],
        Terminator::Branch { target: BlockId(1), params: vec![vr(1)] },
    );
    let block1 = block_with(1, vec![vr(2)], vec![], Terminator::Return(vr(2)));
    let f = func(vec![block0, block1]);

    let live = liveness(&f);
    let b0 = live.block(BlockId(0)).unwrap();
    let b1 = live.block(BlockId(1)).unwrap();
    assert!(b0.live_in.is_empty());
    assert_eq!(set_of(&b0.live_out), HashSet::from([vr(1)]));
    assert!(b1.live_in.is_empty());
    assert!(b1.live_out.is_empty());
}

#[test]
fn test_folds_add() {
    let mut f = func(vec![block(
        0,
        vec![instr(0, Operation::ConstInt(2)), instr(1, Operation::ConstInt(3)), instr(2, Operation::Add(vr(0), vr(1)))],
        Terminator::Void,
    )]);

    let mut pass = ConstantFolding;
    pass.run(&mut f);

    match &f.blocks[0].instructions[2].op {
        Operation::ConstInt(v) => assert_eq!(*v, 5),
        _ => panic!("Expected ConstInt(5)"),
    }
}

#[test]
fn test_folds_chained_operations() {
    let mut f = func(vec![block(
        0,
        vec![
            instr(0, Operation::ConstInt(2)),
            instr(1, Operation::ConstInt(3)),
            instr(2, Operation::Add(vr(0), vr(1))),
            instr(3, Operation::Mul(vr(2), vr(1))),
        ],
        Terminator::Void,
    )]);

    let mut pass = ConstantFolding;
    pass.run(&mut f);

    assert_eq!(f.blocks[0].instructions[3].op, Operation::ConstInt(15))
}

#[test]
fn test_folds_comparisons() {
    let mut f = func(vec![block(
        0,
        vec![instr(0, Operation::ConstInt(4)), instr(1, Operation::ConstInt(4)), instr(2, Operation::Eq(vr(0), vr(1)))],
        Terminator::Void,
    )]);

    let mut pass = ConstantFolding;
    pass.run(&mut f);

    assert_eq!(f.blocks[0].instructions[2].op, Operation::ConstBool(true))
}

#[test]
fn test_folds_boolean_ops() {
    let mut f = func(vec![block(
        0,
        vec![
            instr(0, Operation::ConstBool(true)),
            instr(1, Operation::ConstBool(false)),
            instr(2, Operation::And(vr(0), vr(1))),
            instr(3, Operation::Or(vr(0), vr(1))),
        ],
        Terminator::Void,
    )]);

    let mut pass = ConstantFolding;
    pass.run(&mut f);

    assert_eq!(f.blocks[0].instructions[2].op, Operation::ConstBool(false));
    assert_eq!(f.blocks[0].instructions[3].op, Operation::ConstBool(true));
}

#[test]
fn test_mixed_types_dont_fold() {
    let mut f = func(vec![block(
        0,
        vec![instr(0, Operation::ConstInt(1)), instr(1, Operation::ConstBool(true)), instr(2, Operation::Add(vr(0), vr(1)))],
        Terminator::Void,
    )]);

    let mut pass = ConstantFolding;
    pass.run(&mut f);

    assert_eq!(f.blocks[0].instructions[2].op, Operation::Add(vr(0), vr(1)));
}

#[test]
fn constant_folding_reports_no_change_when_nothing_folds() {
    let mut f = func(vec![block(0, vec![instr(0, Operation::ConstInt(1))], Terminator::Return(vr(0)))]);
    let mut pass = ConstantFolding;
    assert!(!pass.run(&mut f));
    assert_eq!(f.blocks[0].instructions[0].op, Operation::ConstInt(1));
}

#[test]
fn constant_folding_is_stable() {
    let mut f = func(vec![block(
        0,
        vec![instr(0, Operation::ConstInt(7)), instr(1, Operation::ConstInt(5)), instr(2, Operation::Sub(vr(0), vr(1)))],
        Terminator::Return(vr(2)),
    )]);
    let mut pass = ConstantFolding;
    assert!(pass.run(&mut f));
    assert_eq!(f.blocks[0].instructions[2].op, Operation::ConstInt(2));
    assert!(!pass.run(&mut f));
}

#[test]
fn dce_test_it_works() {
    let mut f = func(vec![block(0, vec![instr(1, Operation::ConstInt(2))], Terminator::Void)]);

    let mut pass = DeadCodeElimination;
    pass.run(&mut f);
    assert!(f.blocks[0].instructions.is_empty());
}

#[test]
fn test_multipass() {
    let mut f = func(vec![block(
        0,
        vec![
            instr(1, Operation::ConstInt(2)),
            instr(2, Operation::ConstInt(3)),
            instr(3, Operation::Add(vr(1), vr(2))),
            instr(4, Operation::Mul(vr(3), vr(2))),
        ],
        Terminator::Void,
    )]);

    let mut pass = DeadCodeElimination;
    loop {
        let changed = pass.run(&mut f);
        if !changed {
            break;
        }
    }
    assert!(f.blocks[0].instructions.is_empty());
}

#[test]
fn test_keeps_return() {
    let mut f = func(vec![block(
        0,
        vec![instr(1, Operation::ConstInt(2)), instr(2, Operation::ConstInt(3)), instr(3, Operation::Add(vr(1), vr(2)))],
        Terminator::Return(vr(3)),
    )]);

    let mut pass = DeadCodeElimination;
    pass.run(&mut f);
    assert_eq!(f.blocks[0].instructions.len(), 3);
}

#[test]
fn test_keeps_unremovable() {
    let mut f = func(vec![block(
        0,
        vec![instr(1, Operation::Call(FunctionId { name: "foo".into(), id: 0 }, vec![]))],
        Terminator::Void,
    )]);

    let mut pass = DeadCodeElimination;
    pass.run(&mut f);
    assert_eq!(f.blocks[0].instructions.len(), 1);
}

#[test]
fn test_keeps_branch_params() {
    let mut f = func(vec![block(
        0,
        vec![instr(1, Operation::ConstInt(42))],
        Terminator::Branch { target: BlockId(1), params: vec![vr(1)] },
    )]);

    let mut pass = DeadCodeElimination;
    pass.run(&mut f);
    assert_eq!(f.blocks[0].instructions.len(), 1);
}

#[test]
fn test_keeps_branch_cond() {
    let mut f = func(vec![block(
        0,
        vec![instr(1, Operation::ConstBool(true))],
        Terminator::ConditionalBranch {
            cond: vr(1),
            then_target: BlockId(1),
            then_params: vec![],
            else_target: BlockId(2),
            else_params: vec![],
        },
    )]);

    let mut pass = DeadCodeElimination;
    pass.run(&mut f);
    assert_eq!(f.blocks[0].instructions.len(), 1);
}

#[test]
fn test_removes_dead_blocks() {
    let mut f = func(vec![
        block(
            0,
            vec![instr(0, Operation::ConstInt(1))],
            Terminator::ConditionalBranch {
                cond: vr(0),
                then_target: BlockId(1),
                then_params: vec![],
                else_target: BlockId(2),
                else_params: vec![],
            },
        ),
        block(1, vec![instr(3, Operation::ConstInt(1))], Terminator::Branch { target: BlockId(3), params: vec![vr(3)] }),
        block(2, vec![], Terminator::Branch { target: BlockId(3), params: vec![vr(3)] }),
        block(3, vec![], Terminator::Return(vr(4))),
    ]);

    let mut pass = DeadCodeElimination;
    pass.run(&mut f);
    assert_eq!(f.blocks.len(), 3);
}

#[test]
fn union_find_joins_classes() {
    let mut uf = UnionFind::new();
    uf.union(vr(1), vr(2));
    uf.union(vr(3), vr(2));
    let a = uf.canonical(vr(1));
    assert_eq!(uf.canonical(vr(3)), a);
    assert_eq!(uf.canonical(vr(2)), a);
    assert_eq!(uf.canonical(vr(4)), vr(4));
}

#[test]
fn graph_edges_are_undirected() {
    let mut g = Graph::new();
    g.add_edge(vr(1), vr(2));
    assert!(g.edges(vr(2)).unwrap().contains(vr(1)));
    assert_eq!(g.degree(vr(1)), 1);
    assert!(g.remove_vertex(vr(1)).is_some());
    assert_eq!(g.degree(vr(2)), 0);
    assert_eq!(g.len(), 1);
}

#[test]
fn allocator_gives_interfering_values_different_registers() {
    let f = func(vec![block(
        0,
        vec![instr(0, Operation::ConstInt(1)), instr(1, Operation::ConstInt(2)), instr(2, Operation::Add(vr(0), vr(1)))],
        Terminator::Return(vr(2)),
    )]);
    let mut a = Allocator::new(&f, 9);
    let r0 = a.location(vr(0)).unwrap();
    let r1 = a.location(vr(1)).unwrap();
    assert_ne!(r0, r1);
    assert!(a.spilled().is_empty());
}

#[test]
fn uncoloured_vertex_sees_every_colour() {
    let g = triangle();
    let alloc = graph_color::allocate_registers(triangle(), 2);
    for v in g.vertices() {
        if !alloc.allocations.contains_key(&v.0) {
            let colours: HashSet<usize> =
                g.edges(v).unwrap().to_vec().iter().filter_map(|n| alloc.allocations.get(&n.0).copied()).collect();
            assert_eq!(colours, HashSet::from([0, 1]));
        }
    }
}

#[test]
fn dce_reports_a_dropped_block() {
    let mut f = func(vec![
        block(0, vec![], Terminator::Branch { target: BlockId(1), params: vec![] }),
        block(1, vec![], Terminator::Return(vr(0))),
    ]);
    let mut pass = DeadCodeElimination;
    let changed = pass.run(&mut f);
    assert!(changed);
    assert_eq!(f.blocks.len(), 1);
    assert_eq!(f.blocks[0].label, BlockId(1));
}

#[test]
fn dce_bypass_forwards_edge_values() {
    let mut f = func(vec![
        block(
            0,
            vec![instr(0, Operation::ConstBool(true))],
            Terminator::ConditionalBranch {
                cond: vr(0),
                then_target: BlockId(1),
                then_params: vec![],
                else_target: BlockId(2),
                else_params: vec![],
            },
        ),
        block(1, vec![], Terminator::Branch { target: BlockId(3), params: vec![vr(0)] }),
        block(2, vec![instr(1, Operation::ConstInt(7))], Terminator::Branch { target: BlockId(3), params: vec![vr(1)] }),
        block_with(3, vec![vr(5)], vec![], Terminator::Return(vr(5))),
    ]);
    let mut pass = DeadCodeElimination;
    assert!(pass.run(&mut f));
    assert_eq!(f.blocks.len(), 3);
    match &f.blocks[0].terminator {
        Terminator::ConditionalBranch { then_target, then_params, .. } => {
            assert_eq!(*then_target, BlockId(3));
            assert_eq!(*then_params, vec![vr(0)]);
        }
        _ => panic!("expected a conditional branch"),
    }
}

#[test]
fn dce_bypass_reads_parameters_through_the_edge() {
    let mut f = func(vec![
        block(0, vec![instr(0, Operation::ConstInt(4))], Terminator::Branch { target: BlockId(1), params: vec![vr(0)] }),
        block_with(1, vec![vr(1)], vec![], Terminator::Branch { target: BlockId(2), params: vec![vr(1)] }),
        block_with(2, vec![vr(2)], vec![], Terminator::Return(vr(2))),
    ]);
    let mut pass = DeadCodeElimination;
    assert!(pass.run(&mut f));
    assert_eq!(f.blocks.len(), 2);
    assert_eq!(f.blocks[0].terminator, Terminator::Branch { target: BlockId(2), params: vec![vr(0)] });
}

#[test]
fn union_keeps_other_representatives() {
    let mut uf = UnionFind::new();
    uf.union(vr(1), vr(2));
    uf.union(vr(4), vr(5));
    assert_eq!(uf.canonical(vr(3)), vr(3));
    assert_eq!(uf.canonical(vr(1)), vr(2));
    assert_eq!(uf.canonical(vr(2)), vr(2));
    assert_eq!(uf.canonical(vr(4)), vr(5));
}

#[test]
fn coalescing_links_only_chains() {
    let f = func(vec![
        block(0, vec![instr(0, Operation::ConstInt(1))], Terminator::Branch { target: BlockId(1), params: vec![vr(0)] }),
        block_with(1, vec![vr(1)], vec![instr(2, Operation::ConstInt(2))], Terminator::Branch { target: BlockId(2), params: vec![vr(1)] }),
        block_with(2, vec![vr(3)], vec![], Terminator::Return(vr(3))),
    ]);
    let mut uf = coalesce_registers(&f);
    let c = uf.canonical(vr(0));
    assert_eq!(uf.canonical(vr(1)), c);
    assert_eq!(uf.canonical(vr(3)), c);
    assert_ne!(uf.canonical(vr(2)), c);
    assert_eq!(uf.canonical(vr(2)), vr(2));
}

#[test]
fn check_cfg_finds_missing_and_repeated_labels() {
    let good = vec![
        block(0, vec![], Terminator::Branch { target: BlockId(1), params: vec![] }),
        block(1, vec![], Terminator::Return(vr(0))),
    ];
    assert!(check_cfg(&good));
    let missing = vec![block(0, vec![], Terminator::Branch { target: BlockId(7), params: vec![] })];
    assert!(!check_cfg(&missing));
    let repeated = vec![block(0, vec![], Terminator::Return(vr(0))), block(0, vec![], Terminator::Return(vr(0)))];
    assert!(!check_cfg(&repeated));
}

#[test]
fn folding_checks_its_range() {
    let ok = func(vec![block(
        0,
        vec![instr(0, Operation::ConstInt(2)), instr(1, Operation::ConstInt(3)), instr(2, Operation::Mul(vr(0), vr(1)))],
        Terminator::Return(vr(2)),
    )]);
    assert!(ConstantFolding.can_run(&ok));
    let over = func(vec![block(
        0,
        vec![instr(0, Operation::ConstInt(usize::MAX)), instr(1, Operation::ConstInt(1)), instr(2, Operation::Add(vr(0), vr(1)))],
        Terminator::Return(vr(2)),
    )]);
    assert!(!ConstantFolding.can_run(&over));
    let under = func(vec![block(
        0,
        vec![instr(0, Operation::ConstInt(1)), instr(1, Operation::ConstInt(2)), instr(2, Operation::Sub(vr(0), vr(1)))],
        Terminator::Return(vr(2)),
    )]);
    assert!(!ConstantFolding.can_run(&under));
    assert!(DeadCodeElimination.can_run(&under));
}
