use javadec::cfg::{gen_control_flow_graph, split_at_multiple, Block};
use javadec::decompiler::DecompilerError;
use javadec::disassembler::{disassemble, Instruction};

fn listing(code: Vec<u8>) -> Vec<(u64, Instruction)> {
    match disassemble(code) {
        Ok(v) => v,
        Err(e) => panic!("unexpected error {:?}", e),
    }
}

#[test]
fn split_at_several_indices() {
    let parts = split_at_multiple(vec![1, 2, 3, 4, 5, 6], vec![4, 2, 2, 0, 9]);
    assert_eq!(parts, vec![vec![1, 2], vec![3, 4], vec![5, 6]]);
}

#[test]
fn split_at_end_cuts_nothing() {
    let parts = split_at_multiple(vec![1, 2, 3], vec![3]);
    assert_eq!(parts, vec![vec![1, 2, 3]]);
    let none: Vec<Vec<u8>> = split_at_multiple(Vec::new(), vec![0, 1]);
    assert!(none.is_empty());
}

#[test]
fn if_else_blocks() {
    // 0: iload_0  1: ifeq +7 (8)  4: iconst_1  5: goto +4 (9)  8: iconst_0  9: ireturn
    let instrs = listing(vec![0x1A, 0x99, 0x00, 0x07, 0x04, 0xA7, 0x00, 0x04, 0x03, 0xAC]);
    let all = instrs.clone();
    let cfg = match gen_control_flow_graph(instrs) {
        Ok(m) => m,
        Err(e) => panic!("unexpected error {:?}", e),
    };
    let mut keys: Vec<u64> = cfg.keys().copied().collect();
    keys.sort();
    assert_eq!(keys, vec![0, 4, 8, 9]);
    assert_eq!(cfg[&0].branches, vec![8, 4]);
    assert_eq!(cfg[&4].branches, vec![9]);
    assert_eq!(cfg[&8].branches, vec![9]);
    assert!(cfg[&9].branches.is_empty());
    let mut joined: Vec<(u64, Instruction)> = Vec::new();
    for k in &keys {
        joined.extend(cfg[k].instructions.iter().cloned());
    }
    assert_eq!(joined, all);
    for k in &keys {
        for s in &cfg[k].branches {
            assert!(cfg.contains_key(s));
        }
    }
}

#[test]
fn loop_back_edge() {
    // 0: iinc 0 1  3: iload_0  4: ifne -4 (0)  7: return
    let instrs = listing(vec![0x84, 0x00, 0x01, 0x1A, 0x9A, 0xFF, 0xFC, 0xB1]);
    let cfg = gen_control_flow_graph(instrs).ok().unwrap();
    assert_eq!(cfg.len(), 2);
    assert_eq!(cfg[&0].branches, vec![0, 7]);
    assert_eq!(
        cfg[&7],
        Block { instructions: vec![(7, Instruction::Return)], branches: vec![] }
    );
}

#[test]
fn jump_into_an_instruction_is_rejected() {
    // goto +1 lands inside the goto itself
    let instrs = listing(vec![0xA7, 0x00, 0x01, 0xB1]);
    assert!(matches!(
        gen_control_flow_graph(instrs),
        Err(DecompilerError::InvalidBranchTarget { target: 1 })
    ));
}

#[test]
fn paths_of_if_else() {
    let instrs = listing(vec![0x1A, 0x99, 0x00, 0x07, 0x04, 0xA7, 0x00, 0x04, 0x03, 0xAC]);
    let cfg = gen_control_flow_graph(instrs).ok().unwrap();
    let paths = javadec::paths::find_paths(&cfg, 0, Vec::new());
    assert_eq!(paths, vec![vec![0, 8, 9], vec![0, 4, 9]]);
}

#[test]
fn paths_with_loop() {
    let instrs = listing(vec![0x84, 0x00, 0x01, 0x1A, 0x9A, 0xFF, 0xFC, 0xB1]);
    let cfg = gen_control_flow_graph(instrs).ok().unwrap();
    let paths = javadec::paths::find_paths(&cfg, 0, Vec::new());
    assert_eq!(paths, vec![vec![0, 0], vec![0, 7]]);
}

#[test]
fn method_graph_of_loop() {
    let (cfg, paths) = javadec::method::method_graph(vec![0x84, 0x00, 0x01, 0x1A, 0x9A, 0xFF, 0xFC, 0xB1]).ok().unwrap();
    assert_eq!(cfg.len(), 2);
    assert_eq!(paths, vec![vec![0, 0], vec![0, 7]]);
    assert!(matches!(javadec::method::method_graph(vec![0xFF]), Err(DecompilerError::UnknownInstr { instruction: 0xFF })));
    assert!(matches!(
        javadec::method::method_graph(vec![0xA7, 0x00, 0x01, 0xB1]),
        Err(DecompilerError::InvalidBranchTarget { target: 1 })
    ));
}
