//! What each group of instructions keeps: the steps from which the laws of
//! whole circuits are put together.
use crate::contract::ContractV;
use crate::emission::{addi_op, counter_increment, declare, declare_all, declare_atoms, emit, fail, held_type, idx_op};
use crate::emission::{io_guard, key_repr, leaf_hash, ledger_read, ledger_write, load, load_zero, map_insert};
use crate::emission::{map_lookup, map_member, map_remove, merkle_check_root, merkle_insert, op, path_fold};
use crate::emission::{popeq_bool, private_block, push_cell, push_null, put, read_elements, set_insert, skip};
use crate::emission::{type_ctx, value_encoding, EmitV};
use crate::nocturne_type::{EncodingV, FrLayout};
use crate::syntax::TyV;
use crate::zkir::{output_count, InstructionV};
use vstd::prelude::*;

verus! {

// ---- single instructions

/// Whether an instruction reads the transcript.
pub open spec fn is_io(i: InstructionV) -> bool {
    i is PublicInput || i is PrivateInput
}

/// The guard of a transcript read.
pub open spec fn guard_of(i: InstructionV) -> Option<u32> {
    match i {
        InstructionV::PublicInput { guard } => guard,
        InstructionV::PrivateInput { guard } => guard,
        _ => None,
    }
}

/// How far an instruction moves the number of public inputs that no group has
/// claimed yet.
pub open spec fn unclaimed_by(i: InstructionV) -> int {
    match i {
        InstructionV::DeclarePubInput { .. } => 1,
        InstructionV::PiSkip { count, .. } => -(count as int),
        _ => 0,
    }
}

/// The public inputs that no group claims, over a list of instructions.
pub open spec fn unclaimed(is: Seq<InstructionV>) -> int
    decreases is.len(),
{
    if is.len() == 0 {
        0
    } else {
        unclaimed(is.drop_last()) + unclaimed_by(is.last())
    }
}

/// The memory cells that a list of instructions fills.
pub open spec fn cells(is: Seq<InstructionV>) -> int
    decreases is.len(),
{
    if is.len() == 0 {
        0
    } else {
        cells(is.drop_last()) + output_count(is.last()) as int
    }
}

pub(crate) proof fn lemma_sums_push(is: Seq<InstructionV>, i: InstructionV)
    ensures
        unclaimed(is.push(i)) == unclaimed(is) + unclaimed_by(i),
        cells(is.push(i)) == cells(is) + output_count(i),
{
    assert(is.push(i).drop_last() =~= is);
}

/// How far the wire counter is from the cells filled, in 32-bit arithmetic.
pub open spec fn slack(s: EmitV) -> int {
    (s.next_index - cells(s.instructions)) % 0x1_0000_0000
}

/// The wire that the instruction at position `q` fills.
pub open spec fn wire_of(t: EmitV, q: int) -> int {
    (slack(t) + cells(t.instructions.take(q))) % 0x1_0000_0000
}

// ---- growth of a state

/// What lowering a whole expression leaves as it was.
pub open spec fn same_frame(s: EmitV, t: EmitV) -> bool {
    s.guard == t.guard && s.in_conditional == t.in_conditional && s.in_helper == t.in_helper && s.num_inputs
        == t.num_inputs
}

/// Whether a branch recorded between `s` and `t` holds position `p`.
pub open spec fn covered(s: EmitV, t: EmitV, p: int) -> bool {
    exists|k: int|
        s.branch_spans.len() <= k < t.branch_spans.len() && (#[trigger] t.branch_spans[k]).0 <= p
            < t.branch_spans[k].1
}

/// What holds of the instruction at a position emitted between `s` and `t`.
pub open spec fn placed(s: EmitV, t: EmitV, p: int) -> bool {
    let i = t.instructions[p];
    let inside = covered(s, t, p);
    &&& !(i is Output)
    &&& is_io(i) ==> (guard_of(i) is Some <==> (s.in_conditional || inside))
    &&& i is DeclarePubInput && (s.in_conditional || inside) ==> p - 1 >= s.instructions.len() && t.instructions[p
        - 1] is CondSelect && i->DeclarePubInput_var == wire_of(t, p - 1)
    &&& !inside && is_io(i) ==> guard_of(i) == io_guard(s)
    &&& !inside && i is PiSkip ==> i->PiSkip_guard == Some(s.guard)
}

/// While nothing has failed, no name is without a wire.
pub open spec fn sound_names(s: EmitV) -> bool {
    s.errors.len() == 0 ==> s.poisoned =~= Set::empty()
}

/// `t` continues `s`; where counts are `ok` and no error is new, `d` more public
/// inputs are left unclaimed.
#[verifier::opaque]
pub open spec fn continues(ok: bool, s: EmitV, t: EmitV, d: int) -> bool {
    &&& s.instructions.len() <= t.instructions.len()
    &&& forall|p: int| 0 <= p < s.instructions.len() ==> #[trigger] t.instructions[p] == s.instructions[p]
    &&& s.errors.len() <= t.errors.len()
    &&& forall|p: int| 0 <= p < s.errors.len() ==> #[trigger] t.errors[p] == s.errors[p]
    &&& s.branch_spans.len() <= t.branch_spans.len()
    &&& forall|k: int| 0 <= k < s.branch_spans.len() ==> #[trigger] t.branch_spans[k] == s.branch_spans[k]
    &&& forall|k: int|
        s.branch_spans.len() <= k < t.branch_spans.len() ==> s.instructions.len() <= (#[trigger] t.branch_spans[k]).0
            <= t.branch_spans[k].1 <= t.instructions.len()
    &&& forall|p: int| s.instructions.len() <= p < t.instructions.len() ==> #[trigger] placed(s, t, p)
    &&& slack(s) == slack(t)
    &&& sound_names(s) ==> sound_names(t)
    &&& ok && t.errors.len() == s.errors.len() ==> unclaimed(t.instructions) == unclaimed(s.instructions) + d
}

/// `t` is `s` and more, at the same place of the circuit.
pub open spec fn grows(ok: bool, s: EmitV, t: EmitV, d: int) -> bool {
    same_frame(s, t) && continues(ok, s, t, d)
}

pub(crate) proof fn lemma_same(ok: bool, s: EmitV, t: EmitV)
    requires
        same_frame(s, t),
        s.instructions == t.instructions,
        s.errors == t.errors,
        s.branch_spans == t.branch_spans,
        s.next_index == t.next_index,
        s.poisoned == t.poisoned,
    ensures
        grows(ok, s, t, 0),
{
    reveal(continues);
}

pub(crate) proof fn lemma_then(ok: bool, a: EmitV, b: EmitV, c: EmitV, d: int, e: int)
    requires
        grows(ok, a, b, d),
        grows(ok, b, c, e),
    ensures
        grows(ok, a, c, d + e),
{
    reveal(continues);
    assert forall|p: int| a.instructions.len() <= p < c.instructions.len() implies #[trigger] placed(a, c, p) by {
        if p < b.instructions.len() {
            assert(placed(a, b, p));
            assert(c.instructions[p] == b.instructions[p]);
            if p >= 1 {
                assert(c.instructions[p - 1] == b.instructions[p - 1]);
                assert(c.instructions.take(p - 1) =~= b.instructions.take(p - 1));
            }
            if covered(a, b, p) {
                let k = choose|k: int|
                    a.branch_spans.len() <= k < b.branch_spans.len() && (#[trigger] b.branch_spans[k]).0 <= p
                        < b.branch_spans[k].1;
                assert(c.branch_spans[k] == b.branch_spans[k]);
                assert(covered(a, c, p));
            }
            if covered(a, c, p) {
                let k = choose|k: int|
                    a.branch_spans.len() <= k < c.branch_spans.len() && (#[trigger] c.branch_spans[k]).0 <= p
                        < c.branch_spans[k].1;
                assert(k < b.branch_spans.len());
                assert(c.branch_spans[k] == b.branch_spans[k]);
                assert(covered(a, b, p));
            }
        } else {
            assert(placed(b, c, p));
            if covered(b, c, p) {
                let k = choose|k: int|
                    b.branch_spans.len() <= k < c.branch_spans.len() && (#[trigger] c.branch_spans[k]).0 <= p
                        < c.branch_spans[k].1;
                assert(covered(a, c, p));
            }
            if covered(a, c, p) {
                let k = choose|k: int|
                    a.branch_spans.len() <= k < c.branch_spans.len() && (#[trigger] c.branch_spans[k]).0 <= p
                        < c.branch_spans[k].1;
                if k < b.branch_spans.len() {
                    assert(c.branch_spans[k] == b.branch_spans[k]);
                }
                assert(covered(b, c, p));
            }
        }
    }
    assert forall|p: int| 0 <= p < a.instructions.len() implies #[trigger] c.instructions[p] == a.instructions[p] by {
        assert(b.instructions[p] == a.instructions[p]);
    }
    assert forall|p: int| 0 <= p < a.errors.len() implies #[trigger] c.errors[p] == a.errors[p] by {
        assert(b.errors[p] == a.errors[p]);
    }
    assert forall|k: int| 0 <= k < a.branch_spans.len() implies #[trigger] c.branch_spans[k] == a.branch_spans[k] by {
        assert(b.branch_spans[k] == a.branch_spans[k]);
    }
    assert forall|k: int| a.branch_spans.len() <= k < c.branch_spans.len() implies a.instructions.len() <= (
    #[trigger] c.branch_spans[k]).0 <= c.branch_spans[k].1 <= c.instructions.len() by {
        if k < b.branch_spans.len() {
            assert(c.branch_spans[k] == b.branch_spans[k]);
        }
    }
}

pub(crate) proof fn lemma_recount(ok: bool, s: EmitV, t: EmitV, d: int, e: int)
    requires
        grows(ok, s, t, d),
        ok ==> d == e,
    ensures
        grows(ok, s, t, e),
{
    reveal(continues);
}

/// An instruction outside any group, or a transcript read with the guard of
/// its place.
pub open spec fn is_plain(s: EmitV, i: InstructionV) -> bool {
    !(i is Output) && !(i is DeclarePubInput) && !(i is PiSkip) && (is_io(i) ==> guard_of(i) == io_guard(s))
}

pub(crate) proof fn lemma_put_any(ok: bool, s: EmitV, t: EmitV, i: InstructionV, d: int)
    requires
        same_frame(s, t),
        t.instructions == s.instructions.push(i),
        t.errors == s.errors,
        t.branch_spans == s.branch_spans,
        t.poisoned == s.poisoned,
        slack(t) == slack(s),
        d == unclaimed_by(i),
        !(i is Output),
        is_io(i) ==> guard_of(i) == io_guard(s),
        i is DeclarePubInput ==> !s.in_conditional,
        i is PiSkip ==> i->PiSkip_guard == Some(s.guard),
    ensures
        grows(ok, s, t, d),
{
    reveal(continues);
    lemma_sums_push(s.instructions, i);
    let p = s.instructions.len() as int;
    assert(t.instructions[p] == i);
    assert(!covered(s, t, p));
    assert(placed(s, t, p));
}

pub(crate) proof fn lemma_emit(ok: bool, s: EmitV, i: InstructionV)
    requires
        is_plain(s, i),
    ensures
        grows(ok, s, emit(s, i).0, 0),
{
    reveal(emit);
    lemma_sums_push(s.instructions, i);
    lemma_put_any(ok, s, emit(s, i).0, i, 0);
}

pub(crate) proof fn lemma_put(ok: bool, s: EmitV, i: InstructionV)
    requires
        is_plain(s, i),
        output_count(i) == 0,
    ensures
        grows(ok, s, put(s, i), 0),
{
    reveal(put);
    lemma_sums_push(s.instructions, i);
    lemma_put_any(ok, s, put(s, i), i, 0);
}

pub(crate) proof fn lemma_fail(ok: bool, s: EmitV, m: Seq<char>)
    ensures
        grows(ok, s, fail(s, m).0, 0),
{
    reveal(continues);
}

pub(crate) proof fn lemma_load(ok: bool, s: EmitV, n: int)
    ensures
        grows(ok, s, load(s, n).0, 0),
{
    lemma_emit(ok, s, InstructionV::LoadImm { imm: crate::zkir::imm(n) });
}

pub(crate) proof fn lemma_load_zero(ok: bool, s: EmitV)
    ensures
        grows(ok, s, load_zero(s).0, 0),
{
    match s.zero_var {
        Some(z) => lemma_same(ok, s, s),
        None => {
            lemma_load(ok, s, 0);
            lemma_same(ok, load(s, 0).0, load_zero(s).0);
            lemma_then(ok, s, load(s, 0).0, load_zero(s).0, 0, 0);
        }
    }
}

pub(crate) proof fn lemma_skip(ok: bool, s: EmitV, count: u32)
    ensures
        grows(ok, s, skip(s, s.guard, count), -(count as int)),
{
    reveal(put);
    let i = InstructionV::PiSkip { guard: Some(s.guard), count };
    lemma_sums_push(s.instructions, i);
    lemma_put_any(ok, s, skip(s, s.guard, count), i, -(count as int));
}

pub(crate) proof fn lemma_declare(ok: bool, s: EmitV, value: u32)
    ensures
        grows(ok, s, declare(s, value), 1),
{
    reveal(declare);
    reveal(put);
    if s.in_conditional {
        let a = load_zero(s).0;
        let select = InstructionV::CondSelect { bit: s.guard, a: value, b: load_zero(s).1 };
        let (b, v) = emit(a, select);
        let i = InstructionV::DeclarePubInput { var: v };
        let t = declare(s, value);
        lemma_load_zero(ok, s);
        lemma_emit(ok, a, select);
        lemma_sums_push(b.instructions, i);
        assert(grows(ok, a, t, 1)) by {
            reveal(continues);
            reveal(emit);
            let p = b.instructions.len() as int;
            assert(t.instructions[p] == i);
            assert(t.instructions[p - 1] == select);
            assert(t.instructions.take(p - 1) =~= a.instructions);
            assert(slack(t) == slack(a));
            assert(v == wire_of(t, p - 1));
            assert(b.branch_spans == a.branch_spans);
            assert forall|q: int| a.instructions.len() <= q < t.instructions.len() implies #[trigger] placed(a, t, q) by {
                assert(!covered(a, t, q));
                if q < p {
                    assert(placed(a, b, q));
                    assert(t.instructions[q] == b.instructions[q]);
                    assert(q == p - 1);
                }
            }
            assert forall|q: int| 0 <= q < a.instructions.len() implies #[trigger] t.instructions[q]
                == a.instructions[q] by {
                assert(b.instructions[q] == a.instructions[q]);
            }
        }
        lemma_then(ok, s, a, t, 0, 1);
    } else {
        let i = InstructionV::DeclarePubInput { var: value };
        lemma_sums_push(s.instructions, i);
        lemma_put_any(ok, s, declare(s, value), i, 1);
    }
}

// ---- groups

pub(crate) proof fn lemma_load_declare(ok: bool, s: EmitV, n: int)
    ensures
        grows(ok, s, declare(load(s, n).0, load(s, n).1), 1),
{
    let a = load(s, n).0;
    lemma_load(ok, s, n);
    lemma_declare(ok, a, load(s, n).1);
    lemma_then(ok, s, a, declare(a, load(s, n).1), 0, 1);
}

pub(crate) proof fn lemma_key_repr(ok: bool, s: EmitV, key: u8)
    ensures
        grows(ok, s, key_repr(s, key), 3),
{
    reveal(key_repr);
    let (a, k) = load(s, key as int);
    let b = declare(a, s.guard);
    let c = declare(b, s.guard);
    lemma_load(ok, s, key as int);
    lemma_declare(ok, a, s.guard);
    lemma_declare(ok, b, s.guard);
    lemma_declare(ok, c, k);
    lemma_then(ok, s, a, b, 0, 1);
    lemma_then(ok, s, b, c, 1, 1);
    lemma_then(ok, s, c, declare(c, k), 2, 1);
}

pub(crate) proof fn lemma_op(ok: bool, s: EmitV, code: int)
    ensures
        grows(ok, s, op(s, code), 0),
{
    reveal(op);
    let (a, o) = load(s, code);
    let b = declare(a, o);
    lemma_load_declare(ok, s, code);
    lemma_skip(ok, b, 1);
    lemma_then(ok, s, b, skip(b, s.guard, 1), 1, -1);
}

pub(crate) proof fn lemma_idx_op(ok: bool, s: EmitV, code: int, key: u8)
    ensures
        grows(ok, s, idx_op(s, code, key), 0),
{
    reveal(idx_op);
    let (a, o) = load(s, code);
    let b = declare(a, o);
    let c = key_repr(b, key);
    lemma_load_declare(ok, s, code);
    lemma_key_repr(ok, b, key);
    lemma_then(ok, s, b, c, 1, 3);
    lemma_skip(ok, c, 4);
    lemma_then(ok, s, c, skip(c, s.guard, 4), 4, -4);
}

pub(crate) proof fn lemma_addi_op(ok: bool, s: EmitV, n: int)
    ensures
        grows(ok, s, addi_op(s, n).0, 0),
{
    reveal(addi_op);
    let (a, o) = load(s, 0x0e);
    let (b, v) = load(a, n);
    let c = declare(b, o);
    let d = declare(c, v);
    lemma_load(ok, s, 0x0e);
    lemma_load(ok, a, n);
    lemma_then(ok, s, a, b, 0, 0);
    lemma_declare(ok, b, o);
    lemma_then(ok, s, b, c, 0, 1);
    lemma_declare(ok, c, v);
    lemma_then(ok, s, c, d, 1, 1);
    lemma_skip(ok, d, 2);
    lemma_then(ok, s, d, skip(d, s.guard, 2), 2, -2);
}

pub(crate) proof fn lemma_declare_all(ok: bool, s: EmitV, vars: Seq<u32>, n: nat)
    requires
        n <= vars.len(),
    ensures
        grows(ok, s, declare_all(s, vars, n), n as int),
    decreases n,
{
    if n == 0 {
        lemma_same(ok, s, s);
    } else {
        let a = declare_all(s, vars, (n - 1) as nat);
        lemma_declare_all(ok, s, vars, (n - 1) as nat);
        lemma_declare(ok, a, vars[n - 1]);
        lemma_then(ok, s, a, declare(a, vars[n - 1]), n - 1, 1);
    }
}

pub(crate) proof fn lemma_declare_atoms(ok: bool, s: EmitV, atoms: Seq<i32>, n: nat)
    requires
        n <= atoms.len(),
    ensures
        grows(ok, s, declare_atoms(s, atoms, n), n as int),
    decreases n,
{
    if n == 0 {
        lemma_same(ok, s, s);
    } else {
        let a = declare_atoms(s, atoms, (n - 1) as nat);
        lemma_declare_atoms(ok, s, atoms, (n - 1) as nat);
        lemma_load_declare(ok, a, atoms[n - 1] as int);
        lemma_then(ok, s, a, declare_atoms(s, atoms, n), n - 1, 1);
    }
}

/// Whether 32-bit counts can describe a value of this encoding.
pub open spec fn countable(e: EncodingV) -> bool {
    e.alignment_atoms.len() + e.value_field_count + 2 <= u32::MAX
}

pub(crate) proof fn lemma_push_cell(ok: bool, s: EmitV, vars: Seq<u32>, enc: Option<EncodingV>, storage: bool)
    requires
        ok ==> (enc matches Some(e) ==> countable(e)),
        ok ==> vars.len() > 0 || (enc is Some && enc->0.value_field_count == 0),
    ensures
        grows(ok, s, push_cell(s, vars, enc, storage), 0),
{
    reveal(push_cell);
    let code: int = if storage { 0x11 } else { 0x10 };
    let (a, o) = load(s, code);
    let b = declare(a, o);
    lemma_load_declare(ok, s, code);
    if enc is Some && vars.len() == enc->0.value_field_count {
        let e = enc->0;
        let (c, disc) = load(b, 1);
        let c1 = declare(c, disc);
        let d = declare_atoms(c1, e.alignment_atoms, e.alignment_atoms.len());
        let f = declare_all(d, vars, vars.len());
        lemma_load_declare(ok, b, 1);
        lemma_then(ok, s, b, c1, 1, 1);
        lemma_declare_atoms(ok, c1, e.alignment_atoms, e.alignment_atoms.len());
        lemma_then(ok, s, c1, d, 2, e.alignment_atoms.len() as int);
        lemma_declare_all(ok, d, vars, vars.len());
        lemma_then(ok, s, d, f, 2int + e.alignment_atoms.len(), vars.len() as int);
        let n = (2 + e.alignment_atoms.len() + vars.len()) as u32;
        lemma_skip(ok, f, n);
        let all = 2int + e.alignment_atoms.len() + vars.len();
        lemma_then(ok, s, f, skip(f, s.guard, n), all, -(n as int));
        lemma_recount(ok, s, skip(f, s.guard, n), all - n, 0);
    } else if vars.len() > 0 {
        let c = declare(b, vars[0]);
        lemma_declare(ok, b, vars[0]);
        lemma_then(ok, s, b, c, 1, 1);
        lemma_skip(ok, c, 2);
        lemma_then(ok, s, c, skip(c, s.guard, 2), 2, -2);
    } else {
        lemma_skip(ok, b, 2);
        lemma_then(ok, s, b, skip(b, s.guard, 2), 1, -2);
        lemma_recount(ok, s, skip(b, s.guard, 2), -1, 0);
    }
}

pub(crate) proof fn lemma_push_null(ok: bool, s: EmitV, storage: bool)
    ensures
        grows(ok, s, push_null(s, storage), 0),
{
    reveal(push_null);
    let code: int = if storage { 0x11 } else { 0x10 };
    let (a, o) = load(s, code);
    let (b, n) = load(a, 0);
    let c = declare(b, o);
    let d = declare(c, n);
    lemma_load(ok, s, code);
    lemma_load(ok, a, 0);
    lemma_then(ok, s, a, b, 0, 0);
    lemma_declare(ok, b, o);
    lemma_then(ok, s, b, c, 0, 1);
    lemma_declare(ok, c, n);
    lemma_then(ok, s, c, d, 1, 1);
    lemma_skip(ok, d, 2);
    lemma_then(ok, s, d, skip(d, s.guard, 2), 2, -2);
}

pub(crate) proof fn lemma_popeq_bool(ok: bool, s: EmitV)
    ensures
        grows(ok, s, popeq_bool(s).0, 0),
{
    reveal(popeq_bool);
    let (a, o) = load(s, 0x0d);
    let read = InstructionV::PublicInput { guard: io_guard(s) };
    let (b, v) = emit(a, read);
    let b1 = declare(b, o);
    let (c, one) = load(b1, 1);
    let c1 = declare(c, one);
    let c2 = declare(c1, one);
    let c3 = declare(c2, v);
    let d = skip(c3, s.guard, 4);
    lemma_load(ok, s, 0x0d);
    lemma_emit(ok, a, read);
    lemma_then(ok, s, a, b, 0, 0);
    lemma_declare(ok, b, o);
    lemma_then(ok, s, b, b1, 0, 1);
    lemma_load(ok, b1, 1);
    lemma_then(ok, s, b1, c, 1, 0);
    lemma_declare(ok, c, one);
    lemma_then(ok, s, c, c1, 1, 1);
    lemma_declare(ok, c1, one);
    lemma_then(ok, s, c1, c2, 2, 1);
    lemma_declare(ok, c2, v);
    lemma_then(ok, s, c2, c3, 3, 1);
    lemma_skip(ok, c3, 4);
    lemma_then(ok, s, c3, d, 4, -4);
    lemma_put(ok, d, InstructionV::ConstrainToBoolean { var: v });
    lemma_then(ok, s, d, put(d, InstructionV::ConstrainToBoolean { var: v }), 0, 0);
}

pub(crate) proof fn lemma_read_elements(ok: bool, s: EmitV, layout: Seq<Option<u32>>, n: nat)
    requires
        n <= layout.len(),
    ensures
        grows(ok, s, read_elements(s, layout, n).0, n as int),
    decreases n,
{
    if n == 0 {
        lemma_same(ok, s, s);
    } else {
        let a = read_elements(s, layout, (n - 1) as nat).0;
        let read = InstructionV::PublicInput { guard: io_guard(s) };
        let (b, v) = emit(a, read);
        lemma_read_elements(ok, s, layout, (n - 1) as nat);
        lemma_emit(ok, a, read);
        lemma_then(ok, s, a, b, n - 1, 0);
        let c = match layout[n - 1] {
            Some(bits) => put(b, InstructionV::ConstrainBits { var: v, bits }),
            None => b,
        };
        match layout[n - 1] {
            Some(bits) => lemma_put(ok, b, InstructionV::ConstrainBits { var: v, bits }),
            None => lemma_same(ok, b, b),
        }
        lemma_then(ok, s, b, c, n - 1, 0);
        lemma_declare(ok, c, v);
        lemma_then(ok, s, c, declare(c, v), n - 1, 1);
    }
}

pub(crate) proof fn lemma_private_block(ok: bool, s: EmitV, layout: Seq<FrLayout>, n: nat)
    requires
        n <= layout.len(),
    ensures
        grows(ok, s, private_block(s, layout, n).0, 0),
    decreases n,
{
    if n == 0 {
        lemma_same(ok, s, s);
    } else {
        let a = private_block(s, layout, (n - 1) as nat).0;
        let read = InstructionV::PrivateInput { guard: io_guard(s) };
        let (b, v) = emit(a, read);
        lemma_private_block(ok, s, layout, (n - 1) as nat);
        lemma_emit(ok, a, read);
        lemma_then(ok, s, a, b, 0, 0);
        match layout[n - 1] {
            FrLayout::Bits(bits) => {
                lemma_put(ok, b, InstructionV::ConstrainBits { var: v, bits });
            }
            FrLayout::Boolean => {
                lemma_put(ok, b, InstructionV::ConstrainToBoolean { var: v });
            }
            FrLayout::Field => {
                lemma_same(ok, b, b);
            }
        }
        lemma_then(ok, s, b, private_block(s, layout, n).0, 0, 0);
    }
}

// ---- ledger operations

pub(crate) proof fn lemma_counter_increment(ok: bool, s: EmitV, slot: u8, n: u32)
    ensures
        grows(ok, s, counter_increment(s, slot, n).0, 0),
{
    reveal(counter_increment);
    let a = idx_op(s, 0x70, slot);
    let b = addi_op(a, n as int).0;
    lemma_idx_op(ok, s, 0x70, slot);
    lemma_addi_op(ok, a, n as int);
    lemma_then(ok, s, a, b, 0, 0);
    lemma_op(ok, b, 0xa1);
    lemma_then(ok, s, b, op(b, 0xa1), 0, 0);
}

pub(crate) proof fn lemma_dup_idx(ok: bool, s: EmitV, slot: u8)
    ensures
        grows(ok, s, idx_op(op(s, 0x30), 0x50, slot), 0),
{
    let a = op(s, 0x30);
    lemma_op(ok, s, 0x30);
    lemma_idx_op(ok, a, 0x50, slot);
    lemma_then(ok, s, a, idx_op(a, 0x50, slot), 0, 0);
}

/// Whether a type's values, where it has any, can be described by 32-bit
/// counts.
pub open spec fn countable_type(cx: ContractV, t: TyV) -> bool {
    value_encoding(type_ctx(cx), t) matches Some(e) ==> countable(e)
}

#[verifier::spinoff_prover]
pub(crate) proof fn lemma_ledger_read(ok: bool, cx: ContractV, s: EmitV, slot: u8, ty: Option<TyV>)
    requires
        ok ==> (ty matches Some(t) ==> countable_type(cx, t)),
    ensures
        grows(ok, s, ledger_read(cx, s, slot, ty).0, 0),
{
    reveal(ledger_read);
    let i = idx_op(op(s, 0x30), 0x50, slot);
    let (a, o) = load(i, 0x0d);
    let b = declare(a, o);
    lemma_dup_idx(ok, s, slot);
    lemma_load_declare(ok, i, 0x0d);
    lemma_then(ok, s, i, b, 0, 1);
    let enc = match ty {
        Some(t) => value_encoding(type_ctx(cx), t),
        None => None,
    };
    let r = ledger_read(cx, s, slot, ty).0;
    if enc is Some && enc->0.value_field_count >= 1 {
        let e = enc->0;
        let layout = crate::emission::read_layout(type_ctx(cx), ty->0);
        if layout.len() != e.value_field_count {
            assert(grows(ok, b, r, -1)) by {
                reveal(continues);
            }
            lemma_then(ok, s, b, r, 1, -1);
        } else {
            let c = declare_atoms(b, e.alignment_atoms, e.alignment_atoms.len());
            let d = read_elements(c, layout, layout.len()).0;
            lemma_declare_atoms(ok, b, e.alignment_atoms, e.alignment_atoms.len());
            lemma_then(ok, s, b, c, 1, e.alignment_atoms.len() as int);
            lemma_read_elements(ok, c, layout, layout.len());
            lemma_then(ok, s, c, d, 1int + e.alignment_atoms.len(), layout.len() as int);
            let n = (1 + e.alignment_atoms.len() + e.value_field_count) as u32;
            lemma_skip(ok, d, n);
            let all = 1int + e.alignment_atoms.len() + layout.len();
            lemma_then(ok, s, d, skip(d, s.guard, n), all, -(n as int));
            lemma_recount(ok, s, skip(d, s.guard, n), all - n, 0);
        }
    } else {
        let read = InstructionV::PublicInput { guard: io_guard(b) };
        let c = emit(b, read).0;
        lemma_emit(ok, b, read);
        lemma_then(ok, s, b, c, 1, 0);
        lemma_skip(ok, c, 1);
        lemma_then(ok, s, c, skip(c, s.guard, 1), 1, -1);
    }
}

/// A key or value whose wires are those of its encoding.
pub open spec fn is_whole(vars: Seq<u32>, e: EncodingV) -> bool {
    countable(e) && vars.len() == e.value_field_count
}

pub(crate) proof fn lemma_map_insert(
    ok: bool,
    s: EmitV,
    slot: u8,
    key: Seq<u32>,
    ke: EncodingV,
    val: Seq<u32>,
    ve: EncodingV,
)
    requires
        ok ==> is_whole(key, ke),
        ok ==> is_whole(val, ve),
    ensures
        grows(ok, s, map_insert(s, slot, key, ke, val, ve), 0),
{
    reveal(map_insert);
    let a = idx_op(s, 0x70, slot);
    let b = push_cell(a, key, Some(ke), false);
    let c = push_cell(b, val, Some(ve), true);
    let d = op(c, 0x91);
    lemma_idx_op(ok, s, 0x70, slot);
    lemma_push_cell(ok, a, key, Some(ke), false);
    lemma_then(ok, s, a, b, 0, 0);
    lemma_push_cell(ok, b, val, Some(ve), true);
    lemma_then(ok, s, b, c, 0, 0);
    lemma_op(ok, c, 0x91);
    lemma_then(ok, s, c, d, 0, 0);
    lemma_op(ok, d, 0xa1);
    lemma_then(ok, s, d, op(d, 0xa1), 0, 0);
}

pub(crate) proof fn lemma_map_member(ok: bool, s: EmitV, slot: u8, key: Seq<u32>, ke: EncodingV)
    requires
        ok ==> is_whole(key, ke),
    ensures
        grows(ok, s, map_member(s, slot, key, ke).0, 0),
{
    reveal(map_member);
    let a = idx_op(op(s, 0x30), 0x50, slot);
    let b = push_cell(a, key, Some(ke), false);
    let c = op(b, 0x18);
    lemma_dup_idx(ok, s, slot);
    lemma_push_cell(ok, a, key, Some(ke), false);
    lemma_then(ok, s, a, b, 0, 0);
    lemma_op(ok, b, 0x18);
    lemma_then(ok, s, b, c, 0, 0);
    lemma_popeq_bool(ok, c);
    lemma_then(ok, s, c, popeq_bool(c).0, 0, 0);
}

#[verifier::spinoff_prover]
pub(crate) proof fn lemma_map_lookup(
    ok: bool,
    cx: ContractV,
    s: EmitV,
    slot: u8,
    key: Seq<u32>,
    ke: EncodingV,
    vt: TyV,
    ve: EncodingV,
)
    requires
        ok ==> is_whole(key, ke),
        ok ==> countable(ve),
    ensures
        grows(ok, s, map_lookup(cx, s, slot, key, ke, vt, ve).0, 0),
{
    reveal(map_lookup);
    let i = idx_op(op(s, 0x30), 0x50, slot);
    let (a, o) = load(i, 0x50);
    let a1 = declare(a, o);
    let a2 = declare_atoms(a1, ke.alignment_atoms, ke.alignment_atoms.len());
    let b = declare_all(a2, key, key.len());
    let n = (1 + ke.alignment_atoms.len() + key.len()) as u32;
    let c = skip(b, s.guard, n);
    lemma_dup_idx(ok, s, slot);
    lemma_load_declare(ok, i, 0x50);
    lemma_then(ok, s, i, a1, 0, 1);
    lemma_declare_atoms(ok, a1, ke.alignment_atoms, ke.alignment_atoms.len());
    lemma_then(ok, s, a1, a2, 1, ke.alignment_atoms.len() as int);
    lemma_declare_all(ok, a2, key, key.len());
    lemma_then(ok, s, a2, b, 1int + ke.alignment_atoms.len(), key.len() as int);
    lemma_skip(ok, b, n);
    let all = 1int + ke.alignment_atoms.len() + key.len();
    lemma_then(ok, s, b, c, all, -(n as int));
    lemma_recount(ok, s, c, all - n, 0);
    let layout = crate::emission::read_layout(type_ctx(cx), vt);
    let r = map_lookup(cx, s, slot, key, ke, vt, ve).0;
    if layout.len() != ve.value_field_count {
        assert(grows(ok, c, r, 0)) by {
            reveal(continues);
        }
        lemma_then(ok, s, c, r, 0, 0);
    } else {
        let (d, o2) = load(c, 0x0c);
        let d1 = declare(d, o2);
        let d2 = declare_atoms(d1, ve.alignment_atoms, ve.alignment_atoms.len());
        let f = read_elements(d2, layout, layout.len()).0;
        let m = (1 + ve.alignment_atoms.len() + ve.value_field_count) as u32;
        lemma_load_declare(ok, c, 0x0c);
        lemma_then(ok, s, c, d1, 0, 1);
        lemma_declare_atoms(ok, d1, ve.alignment_atoms, ve.alignment_atoms.len());
        lemma_then(ok, s, d1, d2, 1, ve.alignment_atoms.len() as int);
        lemma_read_elements(ok, d2, layout, layout.len());
        lemma_then(ok, s, d2, f, 1int + ve.alignment_atoms.len(), layout.len() as int);
        lemma_skip(ok, f, m);
        let rest = 1int + ve.alignment_atoms.len() + layout.len();
        lemma_then(ok, s, f, skip(f, s.guard, m), rest, -(m as int));
        lemma_recount(ok, s, skip(f, s.guard, m), rest - m, 0);
    }
}

pub(crate) proof fn lemma_map_remove(ok: bool, s: EmitV, slot: u8, key: Seq<u32>, ke: EncodingV)
    requires
        ok ==> is_whole(key, ke),
    ensures
        grows(ok, s, map_remove(s, slot, key, ke), 0),
{
    reveal(map_remove);
    let a = idx_op(s, 0x70, slot);
    let b = push_cell(a, key, Some(ke), false);
    let c = op(b, 0x19);
    lemma_idx_op(ok, s, 0x70, slot);
    lemma_push_cell(ok, a, key, Some(ke), false);
    lemma_then(ok, s, a, b, 0, 0);
    lemma_op(ok, b, 0x19);
    lemma_then(ok, s, b, c, 0, 0);
    lemma_op(ok, c, 0xa1);
    lemma_then(ok, s, c, op(c, 0xa1), 0, 0);
}

pub(crate) proof fn lemma_set_insert(ok: bool, s: EmitV, slot: u8, key: Seq<u32>, ke: EncodingV)
    requires
        ok ==> is_whole(key, ke),
    ensures
        grows(ok, s, set_insert(s, slot, key, ke), 0),
{
    reveal(set_insert);
    let a = idx_op(s, 0x70, slot);
    let b = push_cell(a, key, Some(ke), false);
    let c = push_null(b, true);
    let d = op(c, 0x91);
    lemma_idx_op(ok, s, 0x70, slot);
    lemma_push_cell(ok, a, key, Some(ke), false);
    lemma_then(ok, s, a, b, 0, 0);
    lemma_push_null(ok, b, true);
    lemma_then(ok, s, b, c, 0, 0);
    lemma_op(ok, c, 0x91);
    lemma_then(ok, s, c, d, 0, 0);
    lemma_op(ok, d, 0xa1);
    lemma_then(ok, s, d, op(d, 0xa1), 0, 0);
}

pub(crate) proof fn lemma_leaf_hash(ok: bool, s: EmitV, leaf_first: u32, n: u32)
    ensures
        grows(ok, s, leaf_hash(s, leaf_first, n).0, 0),
{
    reveal(leaf_hash);
    let a = load(s, crate::emission::leaf_domain()).0;
    lemma_load(ok, s, crate::emission::leaf_domain());
    let i = InstructionV::PersistentHash {
        alignment: seq![
            crate::zkir::AlignmentAtom::Bytes { length: 6 },
            crate::zkir::AlignmentAtom::Bytes { length: n },
        ],
        inputs: seq![load(s, crate::emission::leaf_domain()).1] + crate::emission::wires(
            leaf_first,
            crate::nocturne_type::chunks(n),
        ),
    };
    lemma_emit(ok, a, i);
    lemma_then(ok, s, a, emit(a, i).0, 0, 0);
}

pub(crate) proof fn lemma_path_fold(ok: bool, s: EmitV, start: u32, base: u32, n: nat)
    ensures
        grows(ok, s, path_fold(s, start, base, n).0, 0),
    decreases n,
{
    if n == 0 {
        lemma_same(ok, s, s);
    } else {
        let (a, acc) = path_fold(s, start, base, (n - 1) as nat);
        let sibling = base.wrapping_add(2u32.wrapping_mul((n - 1) as u32));
        let goes_left = sibling.wrapping_add(1);
        let i = InstructionV::CondSelect { bit: goes_left, a: acc, b: sibling };
        let j = InstructionV::CondSelect { bit: goes_left, a: sibling, b: acc };
        let (b, left) = emit(a, i);
        let (c, right) = emit(b, j);
        let k = InstructionV::TransientHash { inputs: seq![left, right] };
        lemma_path_fold(ok, s, start, base, (n - 1) as nat);
        lemma_emit(ok, a, i);
        lemma_then(ok, s, a, b, 0, 0);
        lemma_emit(ok, b, j);
        lemma_then(ok, s, b, c, 0, 0);
        lemma_emit(ok, c, k);
        lemma_then(ok, s, c, emit(c, k).0, 0, 0);
    }
}

#[verifier::spinoff_prover]
pub(crate) proof fn lemma_merkle_insert(ok: bool, s: EmitV, slot: u8, leaf_first: u32, n: u32)
    ensures
        grows(ok, s, merkle_insert(s, slot, leaf_first, n), 0),
{
    reveal(merkle_insert);
    let a0 = idx_op(s, 0x70, slot);
    let a1 = idx_op(a0, 0x70, 0);
    let a2 = op(a1, 0x32);
    let a = idx_op(a2, 0x50, 1);
    lemma_idx_op(ok, s, 0x70, slot);
    lemma_idx_op(ok, a0, 0x70, 0);
    lemma_then(ok, s, a0, a1, 0, 0);
    lemma_op(ok, a1, 0x32);
    lemma_then(ok, s, a1, a2, 0, 0);
    lemma_idx_op(ok, a2, 0x50, 1);
    lemma_then(ok, s, a2, a, 0, 0);
    let (b, h) = leaf_hash(a, leaf_first, n);
    let (c, o) = load(b, 0x11);
    let (d, disc) = load(c, 1);
    let (e, len) = load(d, 32);
    lemma_leaf_hash(ok, a, leaf_first, n);
    lemma_then(ok, s, a, b, 0, 0);
    lemma_load(ok, b, 0x11);
    lemma_then(ok, s, b, c, 0, 0);
    lemma_load(ok, c, 1);
    lemma_then(ok, s, c, d, 0, 0);
    lemma_load(ok, d, 32);
    lemma_then(ok, s, d, e, 0, 0);
    let f1 = declare(e, o);
    let f2 = declare(f1, disc);
    let f3 = declare(f2, disc);
    let f = declare(f3, len);
    lemma_declare(ok, e, o);
    lemma_then(ok, s, e, f1, 0, 1);
    lemma_declare(ok, f1, disc);
    lemma_then(ok, s, f1, f2, 1, 1);
    lemma_declare(ok, f2, disc);
    lemma_then(ok, s, f2, f3, 2, 1);
    lemma_declare(ok, f3, len);
    lemma_then(ok, s, f3, f, 3, 1);
    let g1 = declare(f, h);
    let g2 = declare(g1, h.wrapping_add(1));
    let g = skip(g2, s.guard, 6);
    lemma_declare(ok, f, h);
    lemma_then(ok, s, f, g1, 4, 1);
    lemma_declare(ok, g1, h.wrapping_add(1));
    lemma_then(ok, s, g1, g2, 5, 1);
    lemma_skip(ok, g2, 6);
    lemma_then(ok, s, g2, g, 6, -6);
    let h1 = op(g, 0x91);
    let h2 = op(h1, 0xa1);
    let h3 = idx_op(h2, 0x70, 1);
    let i = addi_op(h3, 1).0;
    lemma_op(ok, g, 0x91);
    lemma_then(ok, s, g, h1, 0, 0);
    lemma_op(ok, h1, 0xa1);
    lemma_then(ok, s, h1, h2, 0, 0);
    lemma_idx_op(ok, h2, 0x70, 1);
    lemma_then(ok, s, h2, h3, 0, 0);
    lemma_addi_op(ok, h3, 1);
    lemma_then(ok, s, h3, i, 0, 0);
    lemma_op(ok, i, 0xa2);
    lemma_then(ok, s, i, op(i, 0xa2), 0, 0);
}

pub(crate) proof fn lemma_merkle_check_root(ok: bool, s: EmitV, slot: u8, digest: u32)
    ensures
        grows(ok, s, merkle_check_root(s, slot, digest).0, 0),
{
    reveal(merkle_check_root);
    let a0 = idx_op(op(s, 0x30), 0x50, slot);
    let a1 = idx_op(a0, 0x50, 0);
    let a = op(a1, 0x0a);
    let enc = EncodingV { alignment_atoms: seq![1i32, -2i32 as i32], value_field_count: 1 };
    let b = push_cell(a, seq![digest], Some(enc), false);
    let c = op(b, 0x02);
    lemma_dup_idx(ok, s, slot);
    lemma_idx_op(ok, a0, 0x50, 0);
    lemma_then(ok, s, a0, a1, 0, 0);
    lemma_op(ok, a1, 0x0a);
    lemma_then(ok, s, a1, a, 0, 0);
    lemma_push_cell(ok, a, seq![digest], Some(enc), false);
    lemma_then(ok, s, a, b, 0, 0);
    lemma_op(ok, b, 0x02);
    lemma_then(ok, s, b, c, 0, 0);
    lemma_popeq_bool(ok, c);
    lemma_then(ok, s, c, popeq_bool(c).0, 0, 0);
}

pub(crate) proof fn lemma_ledger_write(ok: bool, cx: ContractV, s: EmitV, slot: u8, vars: Seq<u32>)
    requires
        ok ==> (held_type(cx, slot) matches Some(t) ==> countable_type(cx, t)),
    ensures
        grows(ok, s, ledger_write(cx, s, slot, vars).0, 0),
{
    reveal(ledger_write);
    let (a, k) = load(s, slot as int);
    let key_enc = EncodingV { alignment_atoms: seq![1i32, 1i32], value_field_count: 1 };
    let b = push_cell(a, seq![k], Some(key_enc), false);
    let enc = match held_type(cx, slot) {
        Some(t) => value_encoding(type_ctx(cx), t),
        None => None,
    };
    let c = if vars.len() > 0 { push_cell(b, vars, enc, true) } else { b };
    lemma_load(ok, s, slot as int);
    lemma_push_cell(ok, a, seq![k], Some(key_enc), false);
    lemma_then(ok, s, a, b, 0, 0);
    if vars.len() > 0 {
        lemma_push_cell(ok, b, vars, enc, true);
    } else {
        lemma_same(ok, b, b);
    }
    lemma_then(ok, s, b, c, 0, 0);
    lemma_op(ok, c, 0x91);
    lemma_then(ok, s, c, op(c, 0x91), 0, 0);
}

} // verus!
