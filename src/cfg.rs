//! Basic blocks of a method and the edges between them.
use vstd::prelude::*;
use std::collections::HashMap;
use crate::decompiler::DecompilerError;
use crate::disassembler::Instruction;

verus! {

/// A run of instructions entered only at its first and left only at its last, with the
/// positions of the blocks that may run next.
#[derive(Debug, PartialEq, Eq)]
pub struct Block {
    pub instructions: Vec<(u64, Instruction)>,
    pub branches: Vec<u64>,
}

/// The target of a conditional branch, `goto` or `goto_w`.
pub open spec fn jump_target(i: Instruction) -> Option<u64> {
    match i {
        Instruction::IfEq { branch } | Instruction::IfNe { branch } | Instruction::IfLt { branch }
        | Instruction::IfGe { branch } | Instruction::IfGt { branch } | Instruction::IfLe { branch }
        | Instruction::IfICmpEq { branch } | Instruction::IfICmpNe { branch }
        | Instruction::IfICmpLt { branch } | Instruction::IfICmpGe { branch }
        | Instruction::IfICmpGt { branch } | Instruction::IfICmpLe { branch }
        | Instruction::IfACmpEq { branch } | Instruction::IfACmpNe { branch }
        | Instruction::IfNull { branch } | Instruction::IfNonNull { branch }
        | Instruction::Goto { branch } => Some(branch as u64),
        Instruction::GotoW { branch } => Some(branch as u64),
        _ => None,
    }
}

/// A conditional branch: it may also fall through.
pub open spec fn is_conditional(i: Instruction) -> bool {
    jump_target(i) is Some && !(i is Goto) && !(i is GotoW)
}

pub open spec fn is_return(i: Instruction) -> bool {
    i is Return || i is AReturn || i is IReturn || i is LReturn || i is DReturn || i is FReturn
}

/// Positions strictly increase along the listing.
pub open spec fn increasing_pcs(instrs: Seq<(u64, Instruction)>) -> bool {
    forall|a: int, b: int| 0 <= a < b < instrs.len() ==> instrs[a].0 < instrs[b].0
}

/// Some instruction of the listing starts at `pc`.
pub open spec fn has_pc(instrs: Seq<(u64, Instruction)>, pc: u64) -> bool {
    exists|i: int| 0 <= i < instrs.len() && #[trigger] instrs[i].0 == pc
}

/// Instruction `j` jumps to a position where no instruction starts.
pub open spec fn bad_jump(instrs: Seq<(u64, Instruction)>, j: int) -> bool {
    jump_target(instrs[j].1) matches Some(t) && !has_pc(instrs, t)
}

/// Every jump lands at the start of an instruction.
pub open spec fn jumps_resolve(instrs: Seq<(u64, Instruction)>) -> bool {
    forall|j: int| 0 <= j < instrs.len() ==> !#[trigger] bad_jump(instrs, j)
}

/// Instruction `i` starts a block: it is the first, follows a conditional branch, or is
/// the target of a jump.
pub open spec fn is_leader(instrs: Seq<(u64, Instruction)>, i: int) -> bool {
    ||| i == 0
    ||| (0 < i && is_conditional(instrs[i - 1].1))
    ||| exists|j: int| 0 <= j < instrs.len() && #[trigger] jump_target(instrs[j].1) == Some(instrs[i].0)
}

pub open spec fn leaders(instrs: Seq<(u64, Instruction)>) -> spec_fn(int) -> bool {
    |i: int| is_leader(instrs, i)
}

/// The positions that may run after instruction `j`, the last of its block.
pub open spec fn successors(instrs: Seq<(u64, Instruction)>, j: int) -> Seq<u64> {
    let fall = if j + 1 < instrs.len() {
        seq![instrs[j + 1].0]
    } else {
        seq![]
    };
    let i = instrs[j].1;
    if is_conditional(i) {
        seq![jump_target(i)->Some_0] + fall
    } else if jump_target(i) is Some {
        seq![jump_target(i)->Some_0]
    } else if is_return(i) {
        seq![]
    } else {
        fall
    }
}

/// The lengths of the first `k` pieces, added up: where piece `k` starts.
pub open spec fn offset<T>(pieces: Seq<Seq<T>>, k: int) -> int
    decreases k,
{
    if k <= 0 || k > pieces.len() {
        0
    } else {
        offset(pieces, k - 1) + pieces[k - 1].len()
    }
}

/// The first `k` pieces, one after another.
pub open spec fn concat<T>(pieces: Seq<Seq<T>>, k: int) -> Seq<T>
    decreases k,
{
    if k <= 0 || k > pieces.len() {
        seq![]
    } else {
        concat(pieces, k - 1) + pieces[k - 1]
    }
}

/// `pieces` cut `whole` at exactly the indices where `cut` holds (and at 0): they follow
/// one another without gap or overlap, none is empty, each starts at a cut and holds no
/// other.
pub open spec fn is_partition<T>(pieces: Seq<Seq<T>>, whole: Seq<T>, cut: spec_fn(int) -> bool) -> bool {
    &&& concat(pieces, pieces.len() as int) == whole
    &&& forall|k: int| 0 <= k < pieces.len() ==> #[trigger] pieces[k].len() > 0
    &&& forall|k: int| 0 <= k < pieces.len() ==> #[trigger] cut(offset(pieces, k)) || offset(pieces, k) == 0
    &&& forall|k: int, i: int|
        0 <= k < pieces.len() && offset(pieces, k) < i < offset(pieces, k) + pieces[k].len() ==> !#[trigger] cut_at(cut, k, i)
}

/// Index `i`, inside piece `k`, is a cut.
pub open spec fn cut_at(cut: spec_fn(int) -> bool, k: int, i: int) -> bool {
    cut(i)
}

pub open spec fn views<T>(v: Seq<Vec<T>>) -> Seq<Seq<T>> {
    v.map_values(|p: Vec<T>| p@)
}

proof fn lemma_push_piece<T>(pieces: Seq<Seq<T>>, p: Seq<T>)
    ensures
        forall|k: int| 0 <= k <= pieces.len() ==> #[trigger] offset(pieces.push(p), k) == offset(pieces, k),
        concat(pieces.push(p), (pieces.len() + 1) as int) == concat(pieces, pieces.len() as int) + p,
        offset(pieces.push(p), (pieces.len() + 1) as int) == offset(pieces, pieces.len() as int) + p.len(),
{
    assert forall|k: int| 0 <= k <= pieces.len() implies #[trigger] offset(pieces.push(p), k) == offset(pieces, k) by {
        lemma_offset_prefix(pieces, p, k);
    }
    lemma_concat_prefix(pieces, p, pieces.len() as int);
    lemma_offset_prefix(pieces, p, pieces.len() as int);
}

proof fn lemma_offset_prefix<T>(pieces: Seq<Seq<T>>, p: Seq<T>, k: int)
    requires
        0 <= k <= pieces.len(),
    ensures
        offset(pieces.push(p), k) == offset(pieces, k),
    decreases k,
{
    if k > 0 {
        lemma_offset_prefix(pieces, p, k - 1);
    }
}

proof fn lemma_concat_prefix<T>(pieces: Seq<Seq<T>>, p: Seq<T>, k: int)
    requires
        0 <= k <= pieces.len(),
    ensures
        concat(pieces.push(p), k) == concat(pieces, k),
    decreases k,
{
    if k > 0 {
        lemma_concat_prefix(pieces, p, k - 1);
    }
}

proof fn lemma_concat_len<T>(pieces: Seq<Seq<T>>, k: int)
    requires
        0 <= k <= pieces.len(),
    ensures
        concat(pieces, k).len() == offset(pieces, k),
    decreases k,
{
    if k > 0 {
        lemma_concat_len(pieces, k - 1);
    }
}

/// Membership in `indices`, as a cut.
pub open spec fn listed(indices: Seq<usize>) -> spec_fn(int) -> bool {
    |i: int| indices.contains(i as usize)
}

/// Cuts `vec` into pieces at each of `split_indices` (in any order, repeats allowed);
/// indices of 0 or past the end cut nothing.
pub fn split_at_multiple<T>(vec: Vec<T>, split_indices: Vec<usize>) -> (r: Vec<Vec<T>>)
    ensures
        is_partition(views(r@), vec@, listed(split_indices@)),
        vec@.len() == 0 ==> r@.len() == 0,
{
    let ghost whole = vec@;
    let ghost cut = listed(split_indices@);
    let n = vec.len();
    let mut marks: Vec<bool> = Vec::new();
    let mut i: usize = 0;
    while i < n
        invariant
            i <= n,
            marks@.len() == i,
            forall|k: int| 0 <= k < i ==> !#[trigger] marks@[k],
        decreases n - i,
    {
        marks.push(false);
        i = i + 1;
    }
    let mut j: usize = 0;
    while j < split_indices.len()
        invariant
            j <= split_indices@.len(),
            marks@.len() == n,
            forall|k: int| 0 <= k < n ==> #[trigger] marks@[k] == split_indices@.take(j as int).contains(k as usize),
        decreases split_indices.len() - j,
    {
        let idx = split_indices[j];
        assert(split_indices@.take(j + 1) =~= split_indices@.take(j as int).push(idx));
        if idx < n {
            marks.set(idx, true);
        }
        proof {
            let s1 = split_indices@.take(j as int);
            let s2 = split_indices@.take(j + 1);
            assert forall|k: int| 0 <= k < n implies #[trigger] marks@[k] == s2.contains(k as usize) by {
                if s1.contains(k as usize) {
                    let w = choose|w: int| 0 <= w < s1.len() && s1[w] == k as usize;
                    assert(s2[w] == k as usize);
                }
                if k == idx {
                    assert(s2[j as int] == idx);
                }
                if s2.contains(k as usize) {
                    let w = choose|w: int| 0 <= w < s2.len() && s2[w] == k as usize;
                    if w < j {
                        assert(s1[w] == s2[w]);
                    }
                }
            }
        }
        j = j + 1;
    }
    assert(split_indices@.take(j as int) =~= split_indices@);
    let mut src = vec;
    let mut rev: Vec<T> = Vec::new();
    while src.len() > 0
        invariant
            rev@.len() + src@.len() == n,
            n == whole.len(),
            src@ == whole.take(src@.len() as int),
            forall|k: int| 0 <= k < rev@.len() ==> #[trigger] rev@[k] == whole[n - 1 - k],
        decreases src@.len(),
    {
        match src.pop() {
            Some(x) => {
                rev.push(x);
            },
            None => {},
        }
        assert(src@ =~= whole.take(src@.len() as int));
    }
    let mut pieces: Vec<Vec<T>> = Vec::new();
    let mut cur: Vec<T> = Vec::new();
    let mut i: usize = 0;
    while i < n
        invariant
            i <= n,
            n == whole.len(),
            marks@.len() == n,
            forall|k: int| 0 <= k < n ==> #[trigger] marks@[k] == cut(k),
            rev@.len() == n - i,
            forall|k: int| 0 <= k < rev@.len() ==> #[trigger] rev@[k] == whole[n - 1 - k],
            concat(views(pieces@), pieces@.len() as int) + cur@ == whole.take(i as int),
            offset(views(pieces@), pieces@.len() as int) + cur@.len() == i,
            i > 0 <==> cur@.len() > 0,
            cut(offset(views(pieces@), pieces@.len() as int)) || offset(views(pieces@), pieces@.len() as int) == 0,
            forall|m: int| offset(views(pieces@), pieces@.len() as int) < m < i ==> !#[trigger] cut(m),
            forall|k: int| 0 <= k < pieces@.len() ==> #[trigger] views(pieces@)[k].len() > 0,
            forall|k: int| 0 <= k < pieces@.len() ==> #[trigger] cut(offset(views(pieces@), k)) || offset(views(pieces@), k) == 0,
            forall|k: int, m: int|
                0 <= k < pieces@.len() && offset(views(pieces@), k) < m < offset(views(pieces@), k) + views(pieces@)[k].len() ==> !#[trigger] cut_at(cut, k, m),
        decreases n - i,
    {
        let x = match rev.pop() {
            Some(x) => x,
            None => {
                assert(false);
                return pieces;
            },
        };
        if i > 0 && marks[i] {
            let ghost pv = views(pieces@);
            let ghost cv = cur@;
            let done = cur;
            cur = Vec::new();
            pieces.push(done);
            proof {
                lemma_push_piece(pv, cv);
                assert(views(pieces@) =~= pv.push(cv));
                assert forall|k: int, m: int|
                    0 <= k < pieces@.len() && offset(views(pieces@), k) < m < offset(views(pieces@), k) + views(pieces@)[k].len() implies !#[trigger] cut_at(cut, k, m) by {
                    if k < pv.len() {
                        assert(offset(views(pieces@), k) == offset(pv, k));
                        assert(views(pieces@)[k] == pv[k]);
                    } else {
                        assert(offset(views(pieces@), k) == offset(pv, pv.len() as int));
                    }
                }
                assert forall|k: int| 0 <= k < pieces@.len() implies #[trigger] cut(offset(views(pieces@), k)) || offset(views(pieces@), k) == 0 by {
                    if k < pv.len() {
                        assert(offset(views(pieces@), k) == offset(pv, k));
                    }
                }
            }
        }
        let ghost c0 = cur@;
        cur.push(x);
        proof {
            assert(whole.take(i + 1) =~= whole.take(i as int).push(whole[i as int]));
            assert(concat(views(pieces@), pieces@.len() as int) + cur@ =~= (concat(views(pieces@), pieces@.len() as int) + c0).push(x));
        }
        i = i + 1;
    }
    if n > 0 {
        let ghost pv = views(pieces@);
        let ghost cv = cur@;
        pieces.push(cur);
        proof {
            lemma_push_piece(pv, cv);
            assert(views(pieces@) =~= pv.push(cv));
            assert(whole.take(n as int) =~= whole);
            assert forall|k: int, m: int|
                0 <= k < pieces@.len() && offset(views(pieces@), k) < m < offset(views(pieces@), k) + views(pieces@)[k].len() implies !#[trigger] cut_at(cut, k, m) by {
                if k < pv.len() {
                    assert(offset(views(pieces@), k) == offset(pv, k));
                    assert(views(pieces@)[k] == pv[k]);
                } else {
                    assert(offset(views(pieces@), k) == offset(pv, pv.len() as int));
                }
            }
            assert forall|k: int| 0 <= k < pieces@.len() implies #[trigger] cut(offset(views(pieces@), k)) || offset(views(pieces@), k) == 0 by {
                if k < pv.len() {
                    assert(offset(views(pieces@), k) == offset(pv, k));
                }
            }
        }
    } else {
        assert(views(pieces@) =~= seq![]);
        assert(whole =~= seq![]);
    }
    proof {
        let pv = views(pieces@);
        assert(concat(pv, pv.len() as int) == whole);
        assert(forall|k: int| 0 <= k < pv.len() ==> #[trigger] pv[k].len() > 0);
        assert(forall|k: int| 0 <= k < pv.len() ==> #[trigger] cut(offset(pv, k)) || offset(pv, k) == 0);
    }
    pieces
}


/// The index of the first instruction that starts at `pos`.
fn get_index_for_pos(instructions: &Vec<(u64, Instruction)>, pos: u64) -> (r: Option<usize>)
    ensures
        r matches Some(i) ==> i < instructions@.len() && instructions@[i as int].0 == pos,
        r is None ==> !has_pc(instructions@, pos),
{
    let mut i: usize = 0;
    while i < instructions.len()
        invariant
            i <= instructions@.len(),
            forall|k: int| 0 <= k < i ==> #[trigger] instructions@[k].0 != pos,
        decreases instructions.len() - i,
    {
        if instructions[i].0 == pos {
            return Some(i);
        }
        i = i + 1;
    }
    None
}

fn jump_target_of(i: &Instruction) -> (r: Option<u64>)
    ensures
        r == jump_target(*i),
{
    match i {
        Instruction::IfEq { branch } | Instruction::IfNe { branch } | Instruction::IfLt { branch }
        | Instruction::IfGe { branch } | Instruction::IfGt { branch } | Instruction::IfLe { branch }
        | Instruction::IfICmpEq { branch } | Instruction::IfICmpNe { branch }
        | Instruction::IfICmpLt { branch } | Instruction::IfICmpGe { branch }
        | Instruction::IfICmpGt { branch } | Instruction::IfICmpLe { branch }
        | Instruction::IfACmpEq { branch } | Instruction::IfACmpNe { branch }
        | Instruction::IfNull { branch } | Instruction::IfNonNull { branch }
        | Instruction::Goto { branch } => Some(*branch as u64),
        Instruction::GotoW { branch } => Some(*branch as u64),
        _ => None,
    }
}

fn is_conditional_instr(i: &Instruction) -> (r: bool)
    ensures
        r == is_conditional(*i),
{
    match i {
        Instruction::Goto { .. } | Instruction::GotoW { .. } => false,
        _ => jump_target_of(i).is_some(),
    }
}

fn is_return_instr(i: &Instruction) -> (r: bool)
    ensures
        r == is_return(*i),
{
    match i {
        Instruction::Return | Instruction::AReturn | Instruction::IReturn | Instruction::LReturn
        | Instruction::DReturn | Instruction::FReturn => true,
        _ => false,
    }
}

/// What may run after `i`, the last instruction of a block, when `next` starts the block
/// that follows it in the code.
pub open spec fn succ_spec(i: Instruction, next: Option<u64>) -> Seq<u64> {
    let fall = match next {
        Some(pc) => seq![pc],
        None => seq![],
    };
    if is_conditional(i) {
        seq![jump_target(i)->Some_0] + fall
    } else if jump_target(i) is Some {
        seq![jump_target(i)->Some_0]
    } else if is_return(i) {
        seq![]
    } else {
        fall
    }
}

fn successors_of(i: &Instruction, next: Option<u64>) -> (r: Vec<u64>)
    ensures
        r@ == succ_spec(*i, next),
{
    let mut out: Vec<u64> = Vec::new();
    let target = jump_target_of(i);
    if is_conditional_instr(i) {
        match target {
            Some(t) => out.push(t),
            None => {},
        }
        match next {
            Some(pc) => out.push(pc),
            None => {},
        }
    } else if target.is_some() {
        match target {
            Some(t) => out.push(t),
            None => {},
        }
    } else if !is_return_instr(i) {
        match next {
            Some(pc) => out.push(pc),
            None => {},
        }
    }
    proof {
        if is_conditional(*i) {
            assert(out@ =~= succ_spec(*i, next));
        } else if jump_target(*i) is Some {
            assert(out@ =~= succ_spec(*i, next));
        } else if is_return(*i) {
            assert(out@ =~= succ_spec(*i, next));
        } else {
            assert(out@ =~= succ_spec(*i, next));
        }
    }
    out
}

/// The successors of block `k`: the block after it in the code starts where it falls
/// through.
pub open spec fn block_succ(blocks: Seq<Seq<(u64, Instruction)>>, k: int) -> Seq<u64> {
    succ_spec(
        blocks[k].last().1,
        if k + 1 < blocks.len() {
            Some(blocks[k + 1][0].0)
        } else {
            None
        },
    )
}

/// `m` maps the first position of each block to that block and its successors, and
/// holds nothing else.
pub open spec fn cfg_matches(blocks: Seq<Seq<(u64, Instruction)>>, m: Map<u64, Block>) -> bool {
    &&& forall|pc: u64| #[trigger] m.contains_key(pc) <==> exists|k: int| 0 <= k < blocks.len() && #[trigger] blocks[k][0].0 == pc
    &&& forall|k: int|
        0 <= k < blocks.len() ==> m.contains_key(#[trigger] blocks[k][0].0) && m[blocks[k][0].0].instructions@
            == blocks[k] && m[blocks[k][0].0].branches@ == block_succ(blocks, k)
}

proof fn lemma_offsets_grow<T>(pieces: Seq<Seq<T>>, a: int, b: int)
    requires
        0 <= a <= b <= pieces.len(),
    ensures
        offset(pieces, a) <= offset(pieces, b),
    decreases b - a,
{
    if a < b {
        lemma_offsets_grow(pieces, a, b - 1);
    }
}

/// The first element of piece `k` is the element of the whole at the piece's offset.
proof fn lemma_piece_in_whole<T>(pieces: Seq<Seq<T>>, k: int, m: int, i: int)
    requires
        0 <= k < m <= pieces.len(),
        0 <= i < pieces[k].len(),
    ensures
        concat(pieces, m)[offset(pieces, k) + i] == pieces[k][i],
        concat(pieces, m).len() == offset(pieces, m),
    decreases m,
{
    lemma_concat_len(pieces, m);
    lemma_concat_len(pieces, k);
    if m > k + 1 {
        lemma_piece_in_whole(pieces, k, m - 1, i);
        lemma_offsets_grow(pieces, k + 1, m - 1);
    }
}

/// The error names the target of a jump that lands where no instruction starts.
pub open spec fn reports_bad_jump(instrs: Seq<(u64, Instruction)>, e: DecompilerError) -> bool {
    exists|j: int|
        0 <= j < instrs.len() && #[trigger] bad_jump(instrs, j) && e == (DecompilerError::InvalidBranchTarget {
            target: jump_target(instrs[j].1)->Some_0,
        })
}

/// `m` is the graph of the blocks that cut `instrs` at its leaders.
pub open spec fn is_cfg_of(instrs: Seq<(u64, Instruction)>, m: Map<u64, Block>) -> bool {
    exists|blocks: Seq<Seq<(u64, Instruction)>>|
        is_partition(blocks, instrs, leaders(instrs)) && #[trigger] cfg_matches(blocks, m)
}

/// Instruction `k` follows a conditional branch among the first `i`, or one of them jumps to it.
pub open spec fn split_reason(instrs: Seq<(u64, Instruction)>, k: int, i: int) -> bool {
    ||| (k - 1 < i && is_conditional(instrs[k - 1].1))
    ||| exists|j: int| 0 <= j < i && #[trigger] jump_target(instrs[j].1) == Some(instrs[k].0)
}

pub open spec fn splits_so_far(instrs: Seq<(u64, Instruction)>, idx: Seq<usize>, i: int) -> bool {
    forall|k: int| 0 < k < instrs.len() ==> #[trigger] idx.contains(k as usize) == split_reason(instrs, k, i)
}

/// The first position of the block after the first `k`, if any.
pub open spec fn first_pc_after(blocks: Seq<Seq<(u64, Instruction)>>, k: int) -> Option<u64> {
    if k < blocks.len() {
        Some(blocks[k][0].0)
    } else {
        None
    }
}

/// Blocks taken in order from a listing with increasing positions start at increasing
/// positions.
proof fn lemma_first_pcs_distinct(pv: Seq<Seq<(u64, Instruction)>>, instrs: Seq<(u64, Instruction)>, a: int, b: int)
    requires
        0 <= a < b < pv.len(),
        concat(pv, pv.len() as int) == instrs,
        increasing_pcs(instrs),
        forall|k: int| 0 <= k < pv.len() ==> #[trigger] pv[k].len() > 0,
    ensures
        pv[a][0].0 < pv[b][0].0,
{
    lemma_piece_in_whole(pv, a, pv.len() as int, 0);
    lemma_piece_in_whole(pv, b, pv.len() as int, 0);
    lemma_offsets_grow(pv, a + 1, b);
    lemma_offsets_grow(pv, 0, a);
    lemma_offsets_grow(pv, b + 1, pv.len() as int);
    assert(pv[b].len() > 0);
    assert(pv[a].len() > 0);
}

/// The map from the first position of each block to the block and its successors; the
/// blocks come in code order.
fn build_map(pieces: Vec<Vec<(u64, Instruction)>>) -> (map: HashMap<u64, Block>)
    requires
        forall|k: int| 0 <= k < pieces@.len() ==> #[trigger] pieces@[k]@.len() > 0,
        forall|a: int, b: int| 0 <= a < b < pieces@.len() ==> #[trigger] pieces@[a]@[0].0 < #[trigger] pieces@[b]@[0].0,
    ensures
        cfg_matches(views(pieces@), map@),
{
    broadcast use vstd::std_specs::hash::group_hash_axioms;
    let ghost pv = views(pieces@);
    let mut pieces = pieces;
    let mut map: HashMap<u64, Block> = HashMap::new();
    let mut next_pc: Option<u64> = None;
    let total = pieces.len();
    while pieces.len() > 0
        invariant
            pieces@.len() <= total,
            total == pv.len(),
            forall|k: int| 0 <= k < pieces@.len() ==> #[trigger] pieces@[k]@ == pv[k],
            forall|k: int| 0 <= k < pv.len() ==> #[trigger] pv[k].len() > 0,
            forall|a: int, b: int| 0 <= a < b < pv.len() ==> #[trigger] pv[a][0].0 < #[trigger] pv[b][0].0,
            next_pc == first_pc_after(pv, pieces@.len() as int),
            forall|pc: u64| #[trigger] map@.contains_key(pc) <==> exists|k: int| pieces@.len() <= k < pv.len() && #[trigger] pv[k][0].0 == pc,
            forall|k: int|
                pieces@.len() <= k < pv.len() ==> map@.contains_key(#[trigger] pv[k][0].0) && map@[pv[k][0].0].instructions@
                    == pv[k] && map@[pv[k][0].0].branches@ == block_succ(pv, k),
        decreases pieces@.len(),
    {
        let ghost kk = pieces@.len() - 1;
        let piece = match pieces.pop() {
            Some(p) => p,
            None => {
                assert(false);
                return map;
            },
        };
        assert(piece@ == pv[kk]);
        let last = piece.len() - 1;
        let branches = successors_of(&piece[last].1, next_pc);
        let key = piece[0].0;
        next_pc = Some(key);
        let ghost old_map = map@;
        assert forall|k: int| kk < k < pv.len() implies #[trigger] pv[k][0].0 != key by {
            assert(pv[kk][0].0 < pv[k][0].0);
        }
        map.insert(key, Block { instructions: piece, branches });
        proof {
            assert forall|pc: u64| #[trigger] map@.contains_key(pc) <==> exists|k: int| kk <= k < pv.len() && #[trigger] pv[k][0].0 == pc by {
                if pc == key {
                    assert(pv[kk][0].0 == pc);
                }
                if old_map.contains_key(pc) {
                    let k = choose|k: int| kk + 1 <= k < pv.len() && #[trigger] pv[k][0].0 == pc;
                    assert(pv[k][0].0 == pc);
                }
            }
        }
    }
    proof {
        assert(cfg_matches(pv, map@));
    }
    map
}

/// Splits a method's instructions into basic blocks keyed by their first position.
pub fn gen_control_flow_graph(instructions: Vec<(u64, Instruction)>) -> (r: Result<
    HashMap<u64, Block>,
    DecompilerError,
>)
    requires
        increasing_pcs(instructions@),
    ensures
        r is Ok <==> jumps_resolve(instructions@),
        r matches Err(e) ==> reports_bad_jump(instructions@, e),
        r matches Ok(m) ==> is_cfg_of(instructions@, m@),
{
    broadcast use vstd::std_specs::hash::group_hash_axioms;
    let ghost instrs = instructions@;
    let n = instructions.len();
    let mut jump_indices: Vec<usize> = Vec::new();
    let mut i: usize = 0;
    while i < n
        invariant
            n == instrs.len(),
            instructions@ == instrs,
            increasing_pcs(instrs),
            i <= n,
            forall|j: int| 0 <= j < i ==> !#[trigger] bad_jump(instrs, j),
            splits_so_far(instrs, jump_indices@, i as int),
        decreases n - i,
    {
        let ghost before = jump_indices@;
        let t = jump_target_of(&instructions[i].1);
        match t {
            Some(target) => match get_index_for_pos(&instructions, target) {
                Some(k) => {
                    jump_indices.push(k);
                },
                None => {
                    assert(bad_jump(instrs, i as int));
                    return Err(DecompilerError::InvalidBranchTarget { target });
                },
            },
            None => {},
        }
        let ghost mid = jump_indices@;
        if is_conditional_instr(&instructions[i].1) {
            jump_indices.push(i + 1);
        }
        proof {
            assert(!bad_jump(instrs, i as int));
            assert forall|k: int| 0 < k < n implies #[trigger] jump_indices@.contains(k as usize) == split_reason(instrs, k, i + 1) by {
                let cond = (k - 1 < i + 1 && is_conditional(instrs[k - 1].1));
                let jump = exists|j: int| 0 <= j < i + 1 && #[trigger] jump_target(instrs[j].1) == Some(instrs[k].0);
                assert(before.contains(k as usize) == split_reason(instrs, k, i as int));
                if jump_indices@.contains(k as usize) {
                    let w = choose|w: int| 0 <= w < jump_indices@.len() && jump_indices@[w] == k as usize;
                    if w < before.len() {
                        assert(before[w] == k as usize);
                        assert(before.contains(k as usize));
                    } else if w < mid.len() {
                        assert(jump_target(instrs[i as int].1) == Some(instrs[k].0));
                    } else {
                        assert(k == i + 1);
                    }
                }
                if cond {
                    if k - 1 == i {
                        assert(jump_indices@[jump_indices@.len() - 1] == k as usize);
                    } else {
                        assert(before.contains(k as usize));
                        let w = choose|w: int| 0 <= w < before.len() && before[w] == k as usize;
                        assert(jump_indices@[w] == k as usize);
                    }
                }
                if jump {
                    let j = choose|j: int| 0 <= j < i + 1 && #[trigger] jump_target(instrs[j].1) == Some(instrs[k].0);
                    if j == i {
                        let kk = mid[mid.len() - 1];
                        assert(instrs[kk as int].0 == instrs[k].0);
                        if kk as int != k {
                            if (kk as int) < k {
                                assert(instrs[kk as int].0 < instrs[k].0);
                            } else {
                                assert(instrs[k].0 < instrs[kk as int].0);
                            }
                        }
                        assert(jump_indices@[mid.len() - 1] == k as usize);
                    } else {
                        assert(before.contains(k as usize));
                        let w = choose|w: int| 0 <= w < before.len() && before[w] == k as usize;
                        assert(jump_indices@[w] == k as usize);
                    }
                }
            }
        }
        i = i + 1;
    }
    let ghost cut = listed(jump_indices@);
    let pieces = split_at_multiple(instructions, jump_indices);
    let ghost pv = views(pieces@);
    proof {
        lemma_concat_len(pv, pv.len() as int);
        assert forall|i: int| 0 < i < n implies #[trigger] cut(i) == is_leader(instrs, i) by {
            assert(jump_indices@.contains(i as usize) == cut(i));
        }
        assert forall|k: int| 0 <= k < pv.len() implies offset(pv, k) + pv[k].len() <= n by {
            lemma_offsets_grow(pv, k + 1, pv.len() as int);
        }
        assert forall|k: int| 0 <= k < pv.len() implies #[trigger] leaders(instrs)(offset(pv, k)) || offset(pv, k) == 0 by {
            assert(cut(offset(pv, k)) || offset(pv, k) == 0);
            assert(pv[k].len() > 0);
            lemma_offsets_grow(pv, k + 1, pv.len() as int);
            lemma_offsets_grow(pv, 0, k);
            if offset(pv, k) > 0 {
                assert(cut(offset(pv, k)) == is_leader(instrs, offset(pv, k)));
            }
        }
        assert forall|k: int, m: int|
            0 <= k < pv.len() && offset(pv, k) < m < offset(pv, k) + pv[k].len() implies !#[trigger] cut_at(leaders(instrs), k, m) by {
            assert(!cut_at(cut, k, m));
            lemma_offsets_grow(pv, 0, k);
        }
        assert(is_partition(pv, instrs, leaders(instrs)));
    }
    proof {
        assert forall|k: int| 0 <= k < pieces@.len() implies #[trigger] pieces@[k]@.len() > 0 by {
            assert(pv[k] == pieces@[k]@);
        }
        assert forall|a: int, b: int| 0 <= a < b < pieces@.len() implies #[trigger] pieces@[a]@[0].0 < #[trigger] pieces@[b]@[0].0 by {
            lemma_first_pcs_distinct(pv, instrs, a, b);
            assert(pv[a] == pieces@[a]@ && pv[b] == pieces@[b]@);
        }
    }
    let map = build_map(pieces);
    proof {
        assert(cfg_matches(pv, map@));
    }
    Ok(map)
}


/// Every successor of every block of `m` is itself a block of `m`.
pub open spec fn closed(m: Map<u64, Block>) -> bool {
    forall|pc: u64, i: int|
        #[trigger] m.contains_key(pc) && 0 <= i < m[pc].branches@.len() ==> m.contains_key(
            #[trigger] m[pc].branches@[i],
        )
}


/// Some piece holds index `i` of the whole.
proof fn lemma_find_piece<T>(pieces: Seq<Seq<T>>, i: int, k: int) -> (w: int)
    requires
        0 <= k <= pieces.len(),
        offset(pieces, k) <= i < offset(pieces, pieces.len() as int),
    ensures
        0 <= w < pieces.len(),
        offset(pieces, w) <= i < offset(pieces, w) + pieces[w].len(),
    decreases pieces.len() - k,
{
    if k == pieces.len() {
        assert(false);
        0
    } else if i < offset(pieces, k) + pieces[k].len() {
        k
    } else {
        lemma_find_piece(pieces, i, k + 1)
    }
}

/// Pieces that are apart hold disjoint index ranges.
proof fn lemma_pieces_apart<T>(pieces: Seq<Seq<T>>, a: int, b: int)
    requires
        0 <= a < b < pieces.len(),
    ensures
        offset(pieces, a) + pieces[a].len() <= offset(pieces, b),
{
    lemma_offsets_grow(pieces, a + 1, b);
}

/// Every leader of the method starts one of the blocks.
proof fn lemma_leaders_start_blocks(instrs: Seq<(u64, Instruction)>, blocks: Seq<Seq<(u64, Instruction)>>, i: int) -> (k: int)
    requires
        is_partition(blocks, instrs, leaders(instrs)),
        0 <= i < instrs.len(),
        is_leader(instrs, i),
    ensures
        0 <= k < blocks.len(),
        offset(blocks, k) == i,
{
    lemma_concat_len(blocks, blocks.len() as int);
    let k = lemma_find_piece(blocks, i, 0);
    if offset(blocks, k) < i {
        assert(!cut_at(leaders(instrs), k, i));
    }
    k
}

/// Where block `k` sits in the method: its entries are the method's from its offset on.
proof fn lemma_block_place(instrs: Seq<(u64, Instruction)>, blocks: Seq<Seq<(u64, Instruction)>>, k: int, j: int)
    requires
        is_partition(blocks, instrs, leaders(instrs)),
        0 <= k < blocks.len(),
        0 <= j < blocks[k].len(),
    ensures
        0 <= offset(blocks, k),
        offset(blocks, k) + blocks[k].len() <= instrs.len(),
        instrs[offset(blocks, k) + j] == blocks[k][j],
{
    lemma_concat_len(blocks, blocks.len() as int);
    lemma_piece_in_whole(blocks, k, blocks.len() as int, j);
    lemma_offsets_grow(blocks, k + 1, blocks.len() as int);
    lemma_offsets_grow(blocks, 0, k);
}

/// Every successor of a block of a method's graph is itself a block of the graph.
pub proof fn lemma_successors_are_blocks(instrs: Seq<(u64, Instruction)>, m: Map<u64, Block>)
    requires
        increasing_pcs(instrs),
        jumps_resolve(instrs),
        is_cfg_of(instrs, m),
    ensures
        closed(m),
{
    let blocks = choose|blocks: Seq<Seq<(u64, Instruction)>>|
        is_partition(blocks, instrs, leaders(instrs)) && #[trigger] cfg_matches(blocks, m);
    assert forall|pc: u64, x: int|
        #[trigger] m.contains_key(pc) && 0 <= x < m[pc].branches@.len() implies m.contains_key(
            #[trigger] m[pc].branches@[x],
        ) by {
        let k = choose|k: int| 0 <= k < blocks.len() && #[trigger] blocks[k][0].0 == pc;
        assert(m[pc].branches@ == block_succ(blocks, k));
        let last = blocks[k].last();
        let j = offset(blocks, k) + blocks[k].len() - 1;
        lemma_block_place(instrs, blocks, k, blocks[k].len() - 1);
        let s = m[pc].branches@[x];
        if jump_target(last.1) is Some && s == jump_target(last.1)->Some_0 {
            assert(!bad_jump(instrs, j));
            let i = choose|i: int| 0 <= i < instrs.len() && #[trigger] instrs[i].0 == s;
            assert(jump_target(instrs[j].1) == Some(instrs[i].0));
            assert(is_leader(instrs, i));
            let kk = lemma_leaders_start_blocks(instrs, blocks, i);
            lemma_block_place(instrs, blocks, kk, 0);
            assert(blocks[kk][0].0 == s);
        } else {
            assert(k + 1 < blocks.len());
            assert(s == blocks[k + 1][0].0);
        }
    }
}

/// The blocks of a method's graph cover its instructions without gap or overlap: each
/// instruction lies in exactly one block, and each entry of a block is an instruction of
/// the method.
pub proof fn lemma_cfg_coverage(instrs: Seq<(u64, Instruction)>, m: Map<u64, Block>)
    requires
        increasing_pcs(instrs),
        is_cfg_of(instrs, m),
    ensures
        forall|i: int| 0 <= i < instrs.len() ==> #[trigger] in_some_block(m, instrs, i),
        forall|i: int, pc1: u64, pc2: u64|
            0 <= i < instrs.len() && #[trigger] holds_at(m, pc1, instrs, i) && #[trigger] holds_at(m, pc2, instrs, i) ==> pc1 == pc2,
        forall|pc: u64, j: int|
            m.contains_key(pc) && 0 <= j < m[pc].instructions@.len() ==> #[trigger] from_method(m, pc, j, instrs),
{
    let blocks = choose|blocks: Seq<Seq<(u64, Instruction)>>|
        is_partition(blocks, instrs, leaders(instrs)) && #[trigger] cfg_matches(blocks, m);
    let n = instrs.len() as int;
    assert forall|i: int| 0 <= i < n implies #[trigger] in_some_block(m, instrs, i) by {
        lemma_concat_len(blocks, blocks.len() as int);
        let k = lemma_find_piece(blocks, i, 0);
        let j = i - offset(blocks, k);
        lemma_block_place(instrs, blocks, k, j);
        lemma_block_place(instrs, blocks, k, 0);
        let pc = blocks[k][0].0;
        assert(m[pc].instructions@ == blocks[k]);
        assert(m[pc].instructions@[j] == instrs[i]);
        assert(holds_at(m, pc, instrs, i));
    }
    assert forall|i: int, pc1: u64, pc2: u64|
        0 <= i < n && #[trigger] holds_at(m, pc1, instrs, i) && #[trigger] holds_at(m, pc2, instrs, i) implies pc1 == pc2 by {
        let k1 = choose|k: int| 0 <= k < blocks.len() && #[trigger] blocks[k][0].0 == pc1;
        let k2 = choose|k: int| 0 <= k < blocks.len() && #[trigger] blocks[k][0].0 == pc2;
        let j1 = choose|j: int| 0 <= j < m[pc1].instructions@.len() && #[trigger] m[pc1].instructions@[j] == instrs[i];
        let j2 = choose|j: int| 0 <= j < m[pc2].instructions@.len() && #[trigger] m[pc2].instructions@[j] == instrs[i];
        lemma_block_place(instrs, blocks, k1, j1);
        lemma_block_place(instrs, blocks, k2, j2);
        // positions are distinct, so instruction `i` sits at one index only
        assert(offset(blocks, k1) + j1 == i) by {
            let a = offset(blocks, k1) + j1;
            if a < i {
                assert(instrs[a].0 < instrs[i].0);
            } else if a > i {
                assert(instrs[i].0 < instrs[a].0);
            }
        }
        assert(offset(blocks, k2) + j2 == i) by {
            let a = offset(blocks, k2) + j2;
            if a < i {
                assert(instrs[a].0 < instrs[i].0);
            } else if a > i {
                assert(instrs[i].0 < instrs[a].0);
            }
        }
        if k1 < k2 {
            lemma_pieces_apart(blocks, k1, k2);
        } else if k2 < k1 {
            lemma_pieces_apart(blocks, k2, k1);
        }
    }
    assert forall|pc: u64, j: int|
        m.contains_key(pc) && 0 <= j < m[pc].instructions@.len() implies #[trigger] from_method(m, pc, j, instrs) by {
        let k = choose|k: int| 0 <= k < blocks.len() && #[trigger] blocks[k][0].0 == pc;
        lemma_block_place(instrs, blocks, k, j);
        assert(instrs[offset(blocks, k) + j] == m[pc].instructions@[j]);
    }
}

/// Entry `j` of the block at `pc` is an instruction of the method.
pub open spec fn from_method(m: Map<u64, Block>, pc: u64, j: int, instrs: Seq<(u64, Instruction)>) -> bool {
    exists|i: int| 0 <= i < instrs.len() && #[trigger] instrs[i] == m[pc].instructions@[j]
}

/// Instruction `i` of the method sits in some block.
pub open spec fn in_some_block(m: Map<u64, Block>, instrs: Seq<(u64, Instruction)>, i: int) -> bool {
    exists|pc: u64| #[trigger] holds_at(m, pc, instrs, i)
}

/// Instruction `i` of the method sits in the block at `pc`, at its own place there.
pub open spec fn holds_at(m: Map<u64, Block>, pc: u64, instrs: Seq<(u64, Instruction)>, i: int) -> bool {
    &&& m.contains_key(pc)
    &&& m[pc].instructions@.len() > 0
    &&& m[pc].instructions@[0].0 <= instrs[i].0
    &&& exists|j: int| 0 <= j < m[pc].instructions@.len() && #[trigger] m[pc].instructions@[j] == instrs[i]
}

} // verus!
