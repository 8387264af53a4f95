//! From a method's code to its control-flow graph and the paths through it.
use vstd::prelude::*;
use std::collections::HashMap;
use crate::cfg::{
    gen_control_flow_graph, is_cfg_of, jumps_resolve, lemma_successors_are_blocks,
    reports_bad_jump, Block,
};
use crate::decompiler::DecompilerError;
use crate::disassembler::{disasm_from, disassemble, lemma_full_coverage, listing_matches, entry_matches, Instruction};
use crate::paths::{find_paths, path_ok, path_views, paths_from};

verus! {

/// The graph of a listing and the paths from its entry block.
pub open spec fn graph_of(
    listing: Seq<(u64, Instruction)>,
    cfg: Map<u64, Block>,
    paths: Seq<Seq<u64>>,
) -> bool {
    &&& is_cfg_of(listing, cfg)
    &&& paths == if cfg.contains_key(0) {
        paths_from(cfg, 0, seq![])
    } else {
        seq![]
    }
}

/// `listing` is what the code disassembles to.
pub open spec fn listing_of(code: Seq<u8>, listing: Seq<(u64, Instruction)>) -> bool {
    disasm_from(code, 0) matches Ok(m) && listing_matches(listing, m)
}

/// Disassembles a method's code, splits it into blocks and lists the paths from the
/// entry block.
pub fn method_graph(code: Vec<u8>) -> (r: Result<(HashMap<u64, Block>, Vec<Vec<u64>>), DecompilerError>)
    ensures
        disasm_from(code@, 0) matches Err(e) ==> (r matches Err(e2) && e2 == e),
        r matches Ok((cfg, paths)) ==> exists|listing: Seq<(u64, Instruction)>|
            #[trigger] listing_of(code@, listing) && graph_of(listing, cfg@, path_views(paths@)),
        r matches Err(e) ==> disasm_from(code@, 0) is Err || exists|listing: Seq<(u64, Instruction)>|
            #[trigger] listing_of(code@, listing) && !jumps_resolve(listing) && reports_bad_jump(listing, e),
{
    broadcast use vstd::std_specs::hash::group_hash_axioms;
    let ghost bytes = code@;
    let n = code.len();
    assert(bytes.len() == n as int);
    let instructions = disassemble(code)?;
    let ghost listing = instructions@;
    proof {
        lemma_full_coverage(bytes);
        let m = disasm_from(bytes, 0)->Ok_0;
        assert forall|a: int, b: int| 0 <= a < b < listing.len() implies listing[a].0 < listing[b].0 by {
            assert(entry_matches(listing[a], m[a]));
            assert(entry_matches(listing[b], m[b]));
        }
        assert(listing_of(bytes, listing));
    }
    let cfg = gen_control_flow_graph(instructions)?;
    proof {
        lemma_successors_are_blocks(listing, cfg@);
    }
    let paths = if cfg.contains_key(&0) {
        proof {
            assert(path_ok(cfg@, seq![0u64])) by {
                assert(seq![0u64][0] == 0u64);
            }
            assert(Seq::<u64>::empty().push(0u64) =~= seq![0u64]);
        }
        find_paths(&cfg, 0, Vec::new())
    } else {
        let none: Vec<Vec<u64>> = Vec::new();
        assert(path_views(none@) =~= seq![]);
        none
    };
    proof {
        assert(graph_of(listing, cfg@, path_views(paths@)));
    }
    Ok((cfg, paths))
}

} // verus!
