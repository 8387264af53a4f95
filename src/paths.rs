//! Enumeration of the paths through a control-flow graph.
use vstd::prelude::*;
use std::collections::HashMap;
use crate::cfg::{closed, Block};

verus! {

/// A path of distinct blocks of `m`.
pub open spec fn path_ok(m: Map<u64, Block>, path: Seq<u64>) -> bool {
    path.no_duplicates() && forall|i: int| 0 <= i < path.len() ==> m.contains_key(#[trigger] path[i])
}

/// A path of distinct blocks is no longer than the number of blocks.
pub proof fn lemma_path_bound(m: Map<u64, Block>, path: Seq<u64>)
    requires
        m.dom().finite(),
        path_ok(m, path),
    ensures
        path.len() <= m.dom().len(),
{
    path.unique_seq_to_set();
    vstd::seq_lib::seq_to_set_is_finite(path);
    assert(path.to_set().subset_of(m.dom())) by {
        assert forall|x: u64| path.to_set().contains(x) implies m.dom().contains(x) by {
            let i = choose|i: int| 0 <= i < path.len() && path[i] == x;
            assert(m.contains_key(path[i]));
        }
    }
    vstd::set_lib::lemma_len_subset(path.to_set(), m.dom());
}

/// The paths that start at `node` after the blocks of `path`: each follows successor edges
/// and ends at a block without successors, or at a block already on the path (a loop).
pub open spec fn paths_from(m: Map<u64, Block>, node: u64, path: Seq<u64>) -> Seq<Seq<u64>>
    decreases m.dom().len() - path.len(), 1int, 0int,
    when m.dom().finite() && path_ok(m, path.push(node))
{
    let here = path.push(node);
    let bs = m[node].branches@;
    if bs.len() == 0 {
        seq![seq![node]]
    } else {
        branch_paths(m, node, here, 0)
    }
}

/// The paths through the successors of `node` from the `i`-th on, `here` being the path
/// that ends at `node`.
pub open spec fn branch_paths(m: Map<u64, Block>, node: u64, here: Seq<u64>, i: int) -> Seq<Seq<u64>>
    decreases m.dom().len() - here.len() + 1, 0int, m[node].branches@.len() - i,
    when m.dom().finite() && path_ok(m, here)
{
    let bs = m[node].branches@;
    if i < 0 || i >= bs.len() {
        seq![]
    } else {
        let b = bs[i];
        let first = if here.contains(b) || !m.contains_key(b) {
            seq![seq![node, b]]
        } else {
            proof {
                lemma_path_bound(m, here);
            }
            paths_from(m, b, here).map_values(|p: Seq<u64>| seq![node] + p)
        };
        first + branch_paths(m, node, here, i + 1)
    }
}

fn contains_pc(v: &Vec<u64>, x: u64) -> (r: bool)
    ensures
        r == v@.contains(x),
{
    let mut i: usize = 0;
    while i < v.len()
        invariant
            i <= v@.len(),
            forall|k: int| 0 <= k < i ==> v@[k] != x,
        decreases v.len() - i,
    {
        if v[i] == x {
            return true;
        }
        i = i + 1;
    }
    false
}

/// A copy of `p` with `x` added at the end.
fn extended(p: &Vec<u64>, x: u64) -> (r: Vec<u64>)
    ensures
        r@ == p@.push(x),
{
    let mut v: Vec<u64> = Vec::new();
    let mut i: usize = 0;
    while i < p.len()
        invariant
            i <= p@.len(),
            v@ == p@.take(i as int),
        decreases p.len() - i,
    {
        v.push(p[i]);
        i = i + 1;
        assert(v@ =~= p@.take(i as int));
    }
    v.push(x);
    assert(v@ =~= p@.push(x));
    v
}

/// `node` followed by a copy of `p`.
fn prefixed(node: u64, p: &Vec<u64>) -> (r: Vec<u64>)
    ensures
        r@ == seq![node] + p@,
{
    let mut v: Vec<u64> = Vec::new();
    v.push(node);
    let mut i: usize = 0;
    while i < p.len()
        invariant
            i <= p@.len(),
            v@ == seq![node] + p@.take(i as int),
        decreases p.len() - i,
    {
        v.push(p[i]);
        i = i + 1;
        assert(v@ =~= seq![node] + p@.take(i as int));
    }
    assert(p@.take(i as int) =~= p@);
    v
}

pub open spec fn path_views(v: Seq<Vec<u64>>) -> Seq<Seq<u64>> {
    v.map_values(|p: Vec<u64>| p@)
}


/// The paths from `node` that continue to its successor `b`, which is not on `path`.
fn paths_through(blocks: &HashMap<u64, Block>, node: u64, path: &Vec<u64>, b: u64) -> (r: Vec<Vec<u64>>)
    requires
        path_ok(blocks@, path@.push(b)),
        path@.len() > 0,
        path@.last() == node,
        closed(blocks@),
    ensures
        path_views(r@) == paths_from(blocks@, b, path@).map_values(|p: Seq<u64>| seq![node] + p),
    decreases blocks@.dom().len() - path@.len() + 1, 0int,
{
    let ghost m = blocks@;
    let ghost here = path@;
    let mut copy: Vec<u64> = Vec::new();
    let mut k: usize = 0;
    while k < path.len()
        invariant
            k <= path@.len(),
            copy@ == path@.take(k as int),
        decreases path.len() - k,
    {
        copy.push(path[k]);
        k = k + 1;
        assert(copy@ =~= path@.take(k as int));
    }
    assert(path@.take(k as int) =~= path@);
    proof {
        broadcast use vstd::std_specs::hash::group_hash_axioms;
        lemma_path_bound(m, here.push(b));
    }
    let sub = find_paths(blocks, b, copy);
    let ghost subv = path_views(sub@);
    let mut paths: Vec<Vec<u64>> = Vec::new();
    let mut j: usize = 0;
    while j < sub.len()
        invariant
            j <= sub@.len(),
            subv == path_views(sub@),
            path_views(paths@) == subv.take(j as int).map_values(|p: Seq<u64>| seq![node] + p),
        decreases sub.len() - j,
    {
        let v = prefixed(node, &sub[j]);
        let ghost pv0 = path_views(paths@);
        assert(subv[j as int] == sub@[j as int]@);
        paths.push(v);
        assert(path_views(paths@) =~= pv0.push(seq![node] + subv[j as int]));
        assert(subv.take(j + 1).map_values(|p: Seq<u64>| seq![node] + p) =~= subv.take(j as int).map_values(
            |p: Seq<u64>| seq![node] + p,
        ).push(seq![node] + subv[j as int]));
        j = j + 1;
    }
    assert(subv.take(j as int) =~= subv);
    paths
}

/// Lists the paths from `node` through the graph, as `paths_from` describes them;
/// `path_in` holds the blocks visited before `node`.
pub fn find_paths(blocks: &HashMap<u64, Block>, node: u64, path_in: Vec<u64>) -> (r: Vec<Vec<u64>>)
    requires
        path_ok(blocks@, path_in@.push(node)),
        closed(blocks@),
    ensures
        path_views(r@) == paths_from(blocks@, node, path_in@),
    decreases blocks@.dom().len() - path_in@.len(), 1int,
{
    broadcast use vstd::std_specs::hash::group_hash_axioms;
    let ghost m = blocks@;
    proof {
        lemma_path_bound(m, path_in@.push(node));
        assert(path_in@.push(node)[path_in@.len() as int] == node);
    }
    let block = match blocks.get(&node) {
        Some(b) => b,
        None => {
            assert(false);
            return Vec::new();
        },
    };
    let ghost pin = path_in@;
    let path = extended(&path_in, node);
    let ghost here = path@;
    let mut paths: Vec<Vec<u64>> = Vec::new();
    if block.branches.len() == 0 {
        let mut only: Vec<u64> = Vec::new();
        only.push(node);
        paths.push(only);
        assert(path_views(paths@) =~= seq![seq![node]]);
        return paths;
    }
    let n = block.branches.len();
    let mut i: usize = 0;
    while i < n
        invariant
            m == blocks@,
            *block == m[node],
            n == m[node].branches@.len(),
            i <= n,
            path@ == here,
            here == pin.push(node),
            pin == path_in@,
            m.dom().finite(),
            path_ok(m, here),
            here.len() <= m.dom().len(),
            here.last() == node,
            closed(m),
            m.contains_key(node),
            branch_paths(m, node, here, 0) == path_views(paths@) + branch_paths(m, node, here, i as int),
        decreases n - i,
    {
        let b = block.branches[i];
        let ghost before = path_views(paths@);
        assert(m.contains_key(b));
        if contains_pc(&path, b) {
            let mut pair: Vec<u64> = Vec::new();
            pair.push(node);
            pair.push(b);
            assert(pair@ =~= seq![node, b]);
            paths.push(pair);
            assert(path_views(paths@) =~= before + seq![seq![node, b]]);
        } else {
            let mut more = paths_through(blocks, node, &path, b);
            let ghost mv = path_views(more@);
            paths.append(&mut more);
            assert(path_views(paths@) =~= before + mv);
        }
        proof {
            let first = if here.contains(b) || !m.contains_key(b) {
                seq![seq![node, b]]
            } else {
                paths_from(m, b, here).map_values(|p: Seq<u64>| seq![node] + p)
            };
            assert(branch_paths(m, node, here, i as int) == first + branch_paths(m, node, here, i + 1));
            assert(path_views(paths@) == before + first);
            assert(before + (first + branch_paths(m, node, here, i + 1)) =~= (before + first) + branch_paths(m, node, here, i + 1));
        }
        i = i + 1;
    }
    proof {
        assert(path_views(paths@) + seq![] =~= path_views(paths@));
    }
    paths
}


} // verus!
