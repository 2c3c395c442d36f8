//! What circuits compute of Merkle trees: the digest of a leaf, and the root at
//! the top of a path.
use crate::contract::ContractV;
use crate::emission::{emit, leaf_hash, path_fold, wires, EmitV};
use crate::expr::ExprV;
use crate::lowering::{lower, lower_path_root, path_argument, path_root};
use crate::machine::{at_all, carried, comes_before, fits, lemma_before_trans, lemma_cell, lemma_emit_before, run_of};
use crate::machine::{wires_keep_their_values, MachineV};
use crate::nocturne_type::chunks;
use crate::syntax::{PathV, Span};
use crate::value_laws::{lemma_one, lemma_self_before};
use crate::zkir::{imm, AlignmentAtom, InstructionV};
use vstd::prelude::*;

verus! {

/// The digest at the top of a path, from the leaf up: each entry is a sibling
/// and whether the running digest stands to its left.
pub open spec fn climb(hash: spec_fn(Seq<int>) -> int, leaf: int, path: Seq<(int, int)>) -> int
    decreases path.len(),
{
    if path.len() == 0 {
        leaf
    } else {
        let below = climb(hash, leaf, path.drop_last());
        let (sibling, goes_left) = path.last();
        if goes_left == 1 {
            hash(seq![below, sibling])
        } else {
            hash(seq![sibling, below])
        }
    }
}

/// The entries of a path whose cells start at `base`.
pub open spec fn entries(cells: Seq<int>, base: int, n: nat) -> Seq<(int, int)> {
    Seq::new(n, |i: int| (cells[base + 2 * i], cells[base + 2 * i + 1]))
}

/// Climbing `n` entries of a path from a start value gives the digest at its
/// top.
pub proof fn paths_climb_to_their_root(m: MachineV, s: EmitV, start: u32, base: u32, n: nat)
    requires
        fits(m, path_fold(s, start, base, n).0),
        start < s.next_index,
        base + 2 * n <= s.next_index,
    ensures
        ({
            let (t, w) = path_fold(s, start, base, n);
            &&& comes_before(s, t)
            &&& w < t.next_index
            &&& carried(m, t, w) == climb(
                m.transient,
                carried(m, t, start),
                entries(run_of(m, t).cells, base as int, n),
            )
        }),
{
    let t = path_fold(s, start, base, n).0;
    lemma_self_before(t, t);
    lemma_fold(m, s, start, base, n, t);
}

proof fn lemma_fold(m: MachineV, s: EmitV, start: u32, base: u32, n: nat, u: EmitV)
    requires
        comes_before(path_fold(s, start, base, n).0, u),
        fits(m, u),
        start < s.next_index,
        base + 2 * n <= s.next_index,
    ensures
        comes_before(s, path_fold(s, start, base, n).0),
        s.next_index <= path_fold(s, start, base, n).0.next_index,
        path_fold(s, start, base, n).1 < path_fold(s, start, base, n).0.next_index,
        carried(m, u, path_fold(s, start, base, n).1) == climb(
            m.transient,
            carried(m, u, start),
            entries(run_of(m, u).cells, base as int, n),
        ),
    decreases n,
{
    let all = entries(run_of(m, u).cells, base as int, n);
    if n == 0 {
        lemma_self_before(s, s);
        assert(all =~= seq![]);
    } else {
        let (a, acc) = path_fold(s, start, base, (n - 1) as nat);
        let sibling = base.wrapping_add(2u32.wrapping_mul((n - 1) as u32));
        let goes_left = sibling.wrapping_add(1);
        assert(sibling == base + 2 * (n - 1));
        assert(goes_left == sibling + 1);
        let i = InstructionV::CondSelect { bit: goes_left, a: acc, b: sibling };
        let (b, left) = emit(a, i);
        let j = InstructionV::CondSelect { bit: goes_left, a: sibling, b: acc };
        let (c, right) = emit(b, j);
        let t = path_fold(s, start, base, n).0;
        let k = InstructionV::TransientHash { inputs: seq![left, right] };
        lemma_emit_before(a, i);
        lemma_emit_before(b, j);
        lemma_emit_before(c, k);
        lemma_before_trans(c, t, u);
        lemma_before_trans(b, c, u);
        lemma_before_trans(a, b, u);
        lemma_fold(m, s, start, base, (n - 1) as nat, u);
        lemma_one(m, a, i, acc, sibling, u);
        lemma_one(m, a, i, goes_left, goes_left, u);
        lemma_one(m, b, j, acc, sibling, u);
        lemma_one(m, b, j, goes_left, goes_left, u);
        lemma_one(m, c, k, left, right, u);
        lemma_before_trans(b, c, t);
        lemma_before_trans(a, b, t);
        lemma_before_trans(s, a, t);
        let below = climb(m.transient, carried(m, u, start), all.drop_last());
        assert(all.drop_last() =~= entries(run_of(m, u).cells, base as int, (n - 1) as nat));
        assert(all.last() == (carried(m, u, sibling), carried(m, u, goes_left)));
        let l = carried(m, u, left);
        let r = carried(m, u, right);
        assert(at_all(run_of(m, c).cells, seq![left, right]) =~= seq![l, r]);
    }
}

/// The number whose bytes, from the least significant on, are the characters.
pub open spec fn little_endian(text: Seq<char>) -> int
    decreases text.len(),
{
    if text.len() == 0 {
        0
    } else {
        text[0] as int + 256 * little_endian(text.drop_first())
    }
}

/// The digest of a leaf of `n` bytes: the second half of its persistent hash,
/// behind the domain separator `mdn:lh`.
pub open spec fn leaf_digest(m: MachineV, n: u32, leaf: Seq<int>) -> int {
    (m.persistent)(
        seq![AlignmentAtom::Bytes { length: 6 }, AlignmentAtom::Bytes { length: n }],
        seq![little_endian("mdn:lh"@)] + leaf,
    ).1
}

proof fn lemma_domain()
    ensures
        crate::emission::leaf_domain() == little_endian("mdn:lh"@),
        0 <= little_endian("mdn:lh"@) < 0x1_0000_0000_0000,
{
    reveal_strlit("mdn:lh");
    let t = "mdn:lh"@;
    assert(t.drop_first() =~= seq!['d', 'n', ':', 'l', 'h']);
    assert(t.drop_first().drop_first() =~= seq!['n', ':', 'l', 'h']);
    assert(t.drop_first().drop_first().drop_first() =~= seq![':', 'l', 'h']);
    assert(t.drop_first().drop_first().drop_first().drop_first() =~= seq!['l', 'h']);
    assert(t.drop_first().drop_first().drop_first().drop_first().drop_first() =~= seq!['h']);
    reveal_with_fuel(little_endian, 7);
}

/// `merkle_tree_path_root` computes the root of the path: the digest of the
/// leaf, climbed over every entry.
pub proof fn path_roots_are_computed(m: MachineV, s: EmitV, first: u32, h: u32, n: u32)
    requires
        m.modulus > 0x1_0000_0000_0000,
        fits(m, path_root(s, first, h, n).0),
        first + chunks(n) + 2 * h <= s.next_index,
    ensures
        ({
            let (t, w) = path_root(s, first, h, n);
            let cells = run_of(m, t).cells;
            let leaf = Seq::new(chunks(n), |i: int| cells[first + i]);
            &&& w is Some
            &&& carried(m, t, w->0) == climb(
                m.transient,
                leaf_digest(m, n, leaf),
                entries(cells, first + chunks(n), h as nat),
            )
        }),
{
    reveal(leaf_hash);
    reveal(emit);
    let i = InstructionV::LoadImm { imm: imm(crate::emission::leaf_domain()) };
    let (a, d) = emit(s, i);
    let k = InstructionV::PersistentHash {
        alignment: seq![AlignmentAtom::Bytes { length: 6 }, AlignmentAtom::Bytes { length: n }],
        inputs: seq![d] + wires(first, chunks(n)),
    };
    let (b, hash) = emit(a, k);
    let (t, w) = path_fold(b, hash.wrapping_add(1), first.wrapping_add(chunks(n) as u32), h as nat);
    assert(path_root(s, first, h, n) == (t, Some(w)));
    lemma_self_before(t, t);
    lemma_fold_before(b, hash.wrapping_add(1), first.wrapping_add(chunks(n) as u32), h as nat);
    lemma_emit_before(s, i);
    lemma_emit_before(a, k);
    lemma_before_trans(a, b, t);
    lemma_before_trans(s, a, t);
    lemma_cell(m, a, k, t);
    lemma_cell(m, s, i, t);
    wires_keep_their_values(m, a, t, d);
    lemma_fold(m, b, hash.wrapping_add(1), first.wrapping_add(chunks(n) as u32), h as nat, t);
    lemma_domain();
    let cells = run_of(m, t).cells;
    let leaf = Seq::new(chunks(n), |i: int| cells[first + i]);
    vstd::arithmetic::div_mod::lemma_small_mod(little_endian("mdn:lh"@) as nat, m.modulus as nat);
    let ins = seq![d] + wires(first, chunks(n));
    assert forall|q: int| 0 <= q < ins.len() implies run_of(m, a).cells[#[trigger] ins[q] as int] == (seq![
        little_endian("mdn:lh"@),
    ] + leaf)[q] by {
        if q > 0 {
            let x = first.wrapping_add((q - 1) as u32);
            assert(ins[q] == x);
            wires_keep_their_values(m, a, t, x);
        }
    }
    assert(at_all(run_of(m, a).cells, ins) =~= seq![little_endian("mdn:lh"@)] + leaf);
}

proof fn lemma_fold_before(s: EmitV, start: u32, base: u32, n: nat)
    ensures
        comes_before(s, path_fold(s, start, base, n).0),
    decreases n,
{
    if n == 0 {
        lemma_self_before(s, s);
    } else {
        let (a, acc) = path_fold(s, start, base, (n - 1) as nat);
        let sibling = base.wrapping_add(2u32.wrapping_mul((n - 1) as u32));
        let goes_left = sibling.wrapping_add(1);
        let i = InstructionV::CondSelect { bit: goes_left, a: acc, b: sibling };
        let (b, left) = emit(a, i);
        let j = InstructionV::CondSelect { bit: goes_left, a: sibling, b: acc };
        let (c, right) = emit(b, j);
        let k = InstructionV::TransientHash { inputs: seq![left, right] };
        lemma_fold_before(s, start, base, (n - 1) as nat);
        lemma_emit_before(a, i);
        lemma_emit_before(b, j);
        lemma_emit_before(c, k);
        lemma_before_trans(b, c, emit(c, k).0);
        lemma_before_trans(a, b, emit(c, k).0);
        lemma_before_trans(s, a, emit(c, k).0);
    }
}

/// The same of a call in a circuit body, whose argument's elements start at
/// the argument's wire.
pub proof fn path_root_calls_compute_the_root(
    m: MachineV,
    cx: ContractV,
    s: EmitV,
    span: Span,
    path: PathV,
    args: Seq<ExprV>,
    depth: nat,
)
    requires
        m.modulus > 0x1_0000_0000_0000,
        fits(m, lower(cx, s, ExprV::FnCall { span, name: "merkle_tree_path_root"@, path, args }, depth).0),
    ensures
        ({
            let (t, w) = lower(cx, s, ExprV::FnCall { span, name: "merkle_tree_path_root"@, path, args }, depth);
            let (a, first) = lower(cx, s, args[0], depth);
            args.len() > 0 ==> (path_argument(cx, args[0]) matches Ok((h, n)) ==> (first matches Some(f) ==> (f + chunks(
                n,
            ) + 2 * h <= a.next_index ==> {
                let cells = run_of(m, t).cells;
                let leaf = Seq::new(chunks(n), |i: int| cells[f + i]);
                &&& w is Some
                &&& carried(m, t, w->0) == climb(
                    m.transient,
                    leaf_digest(m, n, leaf),
                    entries(cells, f + chunks(n), h as nat),
                )
            })))
        }),
{
    if args.len() > 0 {
        match path_argument(cx, args[0]) {
            Ok((h, n)) => {
                let (a, first) = lower(cx, s, args[0], depth);
                assert(lower(cx, s, ExprV::FnCall { span, name: "merkle_tree_path_root"@, path, args }, depth)
                    == lower_path_root(cx, s, args, depth));
                if first is Some && first->0 + chunks(n) + 2 * h <= a.next_index {
                    path_roots_are_computed(m, a, first->0, h, n);
                }
            }
            Err(_) => {}
        }
    }
}

/// The persistent hash of a leaf of `n` bytes behind its domain separator.
pub open spec fn leaf_hashes(m: MachineV, n: u32, leaf: Seq<int>) -> (int, int) {
    (m.persistent)(
        seq![AlignmentAtom::Bytes { length: 6 }, AlignmentAtom::Bytes { length: n }],
        seq![little_endian("mdn:lh"@)] + leaf,
    )
}

/// The two cells of a leaf's hash.
pub(crate) proof fn lemma_leaf_cells(m: MachineV, s: EmitV, first: u32, n: u32, u: EmitV)
    requires
        m.modulus > 0x1_0000_0000_0000,
        comes_before(leaf_hash(s, first, n).0, u),
        fits(m, u),
        first + chunks(n) <= s.next_index,
    ensures
        ({
            let (b, h) = leaf_hash(s, first, n);
            let leaf = Seq::new(chunks(n), |i: int| run_of(m, u).cells[first + i]);
            &&& comes_before(s, b)
            &&& comes_before(s, u)
            &&& h + 1 < b.next_index
            &&& carried(m, u, h) == leaf_hashes(m, n, leaf).0
            &&& carried(m, u, (h + 1) as u32) == leaf_hashes(m, n, leaf).1
        }),
{
    reveal(leaf_hash);
    reveal(emit);
    let i = InstructionV::LoadImm { imm: imm(crate::emission::leaf_domain()) };
    let (a, d) = emit(s, i);
    let k = InstructionV::PersistentHash {
        alignment: seq![AlignmentAtom::Bytes { length: 6 }, AlignmentAtom::Bytes { length: n }],
        inputs: seq![d] + wires(first, chunks(n)),
    };
    let (b, h) = emit(a, k);
    lemma_emit_before(s, i);
    lemma_emit_before(a, k);
    lemma_before_trans(s, a, b);
    lemma_before_trans(a, b, u);
    lemma_before_trans(s, a, u);
    lemma_cell(m, a, k, u);
    lemma_cell(m, s, i, u);
    wires_keep_their_values(m, a, u, d);
    lemma_domain();
    let cells = run_of(m, u).cells;
    let leaf = Seq::new(chunks(n), |i: int| cells[first + i]);
    vstd::arithmetic::div_mod::lemma_small_mod(little_endian("mdn:lh"@) as nat, m.modulus as nat);
    let ins = seq![d] + wires(first, chunks(n));
    assert forall|q: int| 0 <= q < ins.len() implies run_of(m, a).cells[#[trigger] ins[q] as int] == (seq![
        little_endian("mdn:lh"@),
    ] + leaf)[q] by {
        if q > 0 {
            let x = first.wrapping_add((q - 1) as u32);
            assert(ins[q] == x);
            wires_keep_their_values(m, a, u, x);
        }
    }
    assert(at_all(run_of(m, a).cells, ins) =~= seq![little_endian("mdn:lh"@)] + leaf);
}

} // verus!
