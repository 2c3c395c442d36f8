//! Groups of public inputs: the transcript reads that they claim, and their
//! counts.
use crate::circuit_laws::{body_end, countable_field, countable_ledger, instructions_of, lemma_checked_list};
use crate::circuit_laws::lemma_held;
use crate::containers::{map_kv, merkle_leaf, set_inner};
use crate::contract::{CircuitV, ContractV, ParamV};
use crate::emission::{addi_op, common_width, counter_increment, declare, declare_all, declare_atoms, emit};
use crate::emission::{field_slot, find_helper, held_type, idx_op, io_guard, key_repr, leaf_hash, ledger_read};
use crate::emission::{ledger_write, load, map_insert, map_lookup, map_member, map_remove, merkle_check_root};
use crate::emission::{merkle_insert, method_type, op, path_fold, popeq_bool, private_block, push_cell, push_null};
use crate::emission::{put, read_elements, read_layout, read_type, renamed_list, set_insert, skip, slot_type};
use crate::emission::{start_state, type_ctx, value_encoding, wires, witness_layout, witness_type, wraps_value};
use crate::emission::{written_wires, EmitV};
use crate::emission_laws::{countable, countable_type, is_whole};
use crate::expr::{AssertV, BinOp, ExprV};
use crate::lowering::{binary, circuit_prologue, close_branch, else_guard, enter_branch, evaluation_order};
use crate::lowering::{increment_amount, lower, lower_all, lower_arg, lower_branch, lower_cell_method, lower_fields};
use crate::lowering::{lower_helper, lower_map_method, lower_merkle_method, lower_params, lower_path_root, lower_run};
use crate::lowering::{lower_seq, lower_set_method, lowered_circuit, param_names, path_argument, path_root};
use crate::lowering::{slot_leaf_len, then_guard, with_constraints, with_params};
use crate::nocturne_type::{EncodingV, FrLayout};
use crate::syntax::TyV;
use crate::zkir::InstructionV;
use vstd::prelude::*;

verus! {

// ---- reads and the groups that claim them

/// Where a list of instructions stands: the guard of the reads that no group
/// has claimed yet, and whether every group so far had the guard of its reads.
pub struct ReadsV {
    pub open: Option<u32>,
    pub sound: bool,
}

pub open spec fn step(r: ReadsV, i: InstructionV) -> ReadsV {
    match i {
        InstructionV::PublicInput { guard } => match guard {
            Some(_) => ReadsV { open: guard, sound: r.sound && (r.open is None || r.open == guard) },
            None => r,
        },
        InstructionV::PiSkip { guard, .. } => ReadsV {
            open: None,
            sound: r.sound && (r.open is None || r.open == guard),
        },
        _ => r,
    }
}

pub open spec fn reads(is: Seq<InstructionV>) -> ReadsV
    decreases is.len(),
{
    if is.len() == 0 {
        ReadsV { open: None, sound: true }
    } else {
        step(reads(is.drop_last()), is.last())
    }
}

/// How many public inputs are declared behind the last group of a list, and
/// whether every group so far counts the declarations since the one before.
pub struct TallyV {
    pub open: int,
    pub even: bool,
}

pub open spec fn tally_step(r: TallyV, i: InstructionV) -> TallyV {
    match i {
        InstructionV::DeclarePubInput { .. } => TallyV { open: r.open + 1, ..r },
        InstructionV::PiSkip { count, .. } => TallyV { open: 0, even: r.even && r.open == count },
        _ => r,
    }
}

pub open spec fn tally(is: Seq<InstructionV>) -> TallyV
    decreases is.len(),
{
    if is.len() == 0 {
        TallyV { open: 0, even: true }
    } else {
        tally_step(tally(is.drop_last()), is.last())
    }
}

/// No group is open.
pub open spec fn shut(s: EmitV) -> bool {
    tally(s.instructions).open == 0
}

/// `t` declares `d` public inputs more than `s`, in the group that is open.
pub open spec fn counted(s: EmitV, t: EmitV, d: int) -> bool {
    &&& t.errors == s.errors
    &&& tally(t.instructions) == (TallyV { open: tally(s.instructions).open + d, ..tally(s.instructions) })
}

/// `t` stands where `s` does, under the same guard.
pub open spec fn level(s: EmitV, t: EmitV) -> bool {
    &&& reads(t.instructions) == reads(s.instructions)
    &&& t.guard == s.guard
    &&& t.in_conditional == s.in_conditional
}

broadcast proof fn lemma_emit_step(s: EmitV, i: InstructionV)
    ensures
        reads((#[trigger] emit(s, i)).0.instructions) == step(reads(s.instructions), i),
        emit(s, i).0.guard == s.guard,
        emit(s, i).0.in_conditional == s.in_conditional,
        emit(s, i).0.errors == s.errors,
        tally(emit(s, i).0.instructions) == tally_step(tally(s.instructions), i),
{
    reveal(emit);
    assert(s.instructions.push(i).drop_last() =~= s.instructions);
}

broadcast proof fn lemma_put_step(s: EmitV, i: InstructionV)
    ensures
        reads((#[trigger] put(s, i)).instructions) == step(reads(s.instructions), i),
        put(s, i).guard == s.guard,
        put(s, i).in_conditional == s.in_conditional,
        put(s, i).errors == s.errors,
        tally(put(s, i).instructions) == tally_step(tally(s.instructions), i),
{
    reveal(put);
    assert(s.instructions.push(i).drop_last() =~= s.instructions);
}

broadcast proof fn lemma_level_declare(s: EmitV, v: u32)
    ensures
        level(s, #[trigger] declare(s, v)),
        counted(s, declare(s, v), 1),
{
    broadcast use lemma_emit_step;
    broadcast use lemma_put_step;

    reveal(declare);
}

broadcast proof fn lemma_level_key_repr(s: EmitV, key: u8)
    ensures
        level(s, #[trigger] key_repr(s, key)),
        counted(s, key_repr(s, key), 3),
{
    broadcast use lemma_emit_step;
    broadcast use lemma_level_declare;

    reveal(key_repr);
}

broadcast group steps {
    lemma_emit_step,
    lemma_put_step,
    lemma_level_declare,
    lemma_level_key_repr,
}

proof fn lemma_level_declare_all(s: EmitV, vars: Seq<u32>, n: nat)
    ensures
        level(s, declare_all(s, vars, n)),
        n <= vars.len() ==> counted(s, declare_all(s, vars, n), n as int),
    decreases n,
{
    broadcast use steps;

    if n > 0 && n <= vars.len() {
        lemma_level_declare_all(s, vars, (n - 1) as nat);
    }
}

proof fn lemma_level_declare_atoms(s: EmitV, atoms: Seq<i32>, n: nat)
    ensures
        level(s, declare_atoms(s, atoms, n)),
        n <= atoms.len() ==> counted(s, declare_atoms(s, atoms, n), n as int),
    decreases n,
{
    broadcast use steps;

    if n > 0 && n <= atoms.len() {
        lemma_level_declare_atoms(s, atoms, (n - 1) as nat);
    }
}

/// Nothing is left unclaimed.
pub open spec fn closed(s: EmitV) -> bool {
    reads(s.instructions).open is None
}

broadcast proof fn lemma_level_op(s: EmitV, code: int)
    ensures
        closed(s) ==> level(s, #[trigger] op(s, code)),
        op(s, code).errors == s.errors,
        shut(s) ==> counted(s, op(s, code), 0),
{
    broadcast use steps;

    reveal(op);
}

broadcast proof fn lemma_level_idx_op(s: EmitV, code: int, key: u8)
    ensures
        closed(s) ==> level(s, #[trigger] idx_op(s, code, key)),
        idx_op(s, code, key).errors == s.errors,
        shut(s) ==> counted(s, idx_op(s, code, key), 0),
{
    broadcast use steps;

    reveal(idx_op);
}

broadcast proof fn lemma_level_addi_op(s: EmitV, n: int)
    ensures
        closed(s) ==> level(s, (#[trigger] addi_op(s, n)).0),
        addi_op(s, n).0.errors == s.errors,
        shut(s) ==> counted(s, addi_op(s, n).0, 0),
{
    broadcast use steps;

    reveal(addi_op);
}

/// Whether 32-bit counts can describe a value of known or unknown encoding,
/// and its wires are there.
pub open spec fn is_filled(vars: Seq<u32>, enc: Option<EncodingV>) -> bool {
    &&& enc matches Some(e) ==> countable(e)
    &&& vars.len() > 0 || (enc is Some && enc->0.value_field_count == 0)
}

broadcast proof fn lemma_level_push_cell(s: EmitV, vars: Seq<u32>, enc: Option<EncodingV>, storage: bool)
    ensures
        closed(s) ==> level(s, #[trigger] push_cell(s, vars, enc, storage)),
        push_cell(s, vars, enc, storage).errors == s.errors,
        shut(s) && is_filled(vars, enc) ==> counted(s, push_cell(s, vars, enc, storage), 0),
{
    broadcast use steps;

    reveal(push_cell);
    let (a, o) = load(s, if storage { 0x11 } else { 0x10 });
    let b = declare(a, o);
    if enc is Some {
        let e = enc->0;
        let (c, disc) = load(b, 1);
        let c1 = declare(c, disc);
        lemma_level_declare_atoms(c1, e.alignment_atoms, e.alignment_atoms.len());
        lemma_level_declare_all(declare_atoms(c1, e.alignment_atoms, e.alignment_atoms.len()), vars, vars.len());
    }
}

broadcast proof fn lemma_level_push_null(s: EmitV, storage: bool)
    ensures
        closed(s) ==> level(s, #[trigger] push_null(s, storage)),
        push_null(s, storage).errors == s.errors,
        shut(s) ==> counted(s, push_null(s, storage), 0),
{
    broadcast use steps;

    reveal(push_null);
}

broadcast proof fn lemma_level_popeq_bool(s: EmitV)
    ensures
        closed(s) ==> level(s, (#[trigger] popeq_bool(s)).0),
        popeq_bool(s).0.errors == s.errors,
        shut(s) ==> counted(s, popeq_bool(s).0, 0),
{
    broadcast use steps;

    reveal(popeq_bool);
}

broadcast group operations {
    lemma_emit_step,
    lemma_put_step,
    lemma_level_declare,
    lemma_level_op,
    lemma_level_idx_op,
    lemma_level_addi_op,
    lemma_level_push_cell,
    lemma_level_push_null,
    lemma_level_popeq_bool,
}

/// Errors are only added.
pub open spec fn adds_errors(s: EmitV, t: EmitV) -> bool {
    s.errors.len() <= t.errors.len()
}

/// Without a new error, what begins outside a group ends outside a group, and
/// every group between counts its declarations.
pub open spec fn evened(s: EmitV, t: EmitV) -> bool {
    shut(s) && t.errors.len() == s.errors.len() ==> tally(t.instructions) == tally(s.instructions)
}

/// Reading a value's elements opens the group under the guard of the place.
proof fn lemma_open_elements(s: EmitV, layout: Seq<Option<u32>>, n: nat)
    requires
        closed(s),
    ensures
        ({
            let t = read_elements(s, layout, n).0;
            &&& reads(t.instructions).sound == reads(s.instructions).sound
            &&& reads(t.instructions).open is None || reads(t.instructions).open == io_guard(s)
            &&& t.guard == s.guard
            &&& t.in_conditional == s.in_conditional
            &&& t.errors == s.errors
            &&& n <= layout.len() ==> counted(s, t, n as int)
        }),
    decreases n,
{
    broadcast use steps;

    if n > 0 && n <= layout.len() {
        lemma_open_elements(s, layout, (n - 1) as nat);
    }
}

proof fn lemma_level_ledger_read(cx: ContractV, s: EmitV, slot: u8, ty: Option<TyV>)
    requires
        closed(s),
    ensures
        level(s, ledger_read(cx, s, slot, ty).0),
        adds_errors(s, ledger_read(cx, s, slot, ty).0),
        (ty matches Some(t) ==> countable_type(cx, t)) ==> evened(s, ledger_read(cx, s, slot, ty).0),
{
    broadcast use operations;

    reveal(ledger_read);
    let (a, o) = load(idx_op(op(s, 0x30), 0x50, slot), 0x0d);
    let b = declare(a, o);
    let enc = match ty {
        Some(t) => value_encoding(type_ctx(cx), t),
        None => None,
    };
    if enc is Some {
        let e = enc->0;
        let layout = read_layout(type_ctx(cx), ty->0);
        lemma_level_declare_atoms(b, e.alignment_atoms, e.alignment_atoms.len());
        lemma_open_elements(declare_atoms(b, e.alignment_atoms, e.alignment_atoms.len()), layout, layout.len());
    }
}

proof fn lemma_level_map_lookup(cx: ContractV, s: EmitV, slot: u8, key: Seq<u32>, ke: EncodingV, vt: TyV, ve: EncodingV)
    requires
        closed(s),
    ensures
        level(s, map_lookup(cx, s, slot, key, ke, vt, ve).0),
        adds_errors(s, map_lookup(cx, s, slot, key, ke, vt, ve).0),
        is_whole(key, ke) && countable(ve) ==> evened(s, map_lookup(cx, s, slot, key, ke, vt, ve).0),
{
    broadcast use operations;

    reveal(map_lookup);
    let (a, o) = load(idx_op(op(s, 0x30), 0x50, slot), 0x50);
    let a1 = declare(a, o);
    let a2 = declare_atoms(a1, ke.alignment_atoms, ke.alignment_atoms.len());
    let b = declare_all(a2, key, key.len());
    let c = skip(b, s.guard, (1 + ke.alignment_atoms.len() + key.len()) as u32);
    lemma_level_declare_atoms(a1, ke.alignment_atoms, ke.alignment_atoms.len());
    lemma_level_declare_all(a2, key, key.len());
    let layout = read_layout(type_ctx(cx), vt);
    let (d, o2) = load(c, 0x0c);
    let d1 = declare(d, o2);
    let d2 = declare_atoms(d1, ve.alignment_atoms, ve.alignment_atoms.len());
    lemma_level_declare_atoms(d1, ve.alignment_atoms, ve.alignment_atoms.len());
    lemma_open_elements(d2, layout, layout.len());
}

proof fn lemma_level_ledger_ops(s: EmitV, slot: u8, n: u32, key: Seq<u32>, ke: EncodingV)
    requires
        closed(s),
    ensures
        level(s, counter_increment(s, slot, n).0),
        counter_increment(s, slot, n).0.errors == s.errors,
        evened(s, counter_increment(s, slot, n).0),
        level(s, map_member(s, slot, key, ke).0),
        map_member(s, slot, key, ke).0.errors == s.errors,
        is_whole(key, ke) ==> evened(s, map_member(s, slot, key, ke).0),
        level(s, map_remove(s, slot, key, ke)),
        map_remove(s, slot, key, ke).errors == s.errors,
        is_whole(key, ke) ==> evened(s, map_remove(s, slot, key, ke)),
        level(s, set_insert(s, slot, key, ke)),
        set_insert(s, slot, key, ke).errors == s.errors,
        is_whole(key, ke) ==> evened(s, set_insert(s, slot, key, ke)),
{
    broadcast use operations;

    reveal(counter_increment);
    reveal(map_member);
    reveal(map_remove);
    reveal(set_insert);
}

proof fn lemma_level_map_insert(s: EmitV, slot: u8, key: Seq<u32>, ke: EncodingV, val: Seq<u32>, ve: EncodingV)
    requires
        closed(s),
    ensures
        level(s, map_insert(s, slot, key, ke, val, ve)),
        map_insert(s, slot, key, ke, val, ve).errors == s.errors,
        is_whole(key, ke) && is_whole(val, ve) ==> evened(s, map_insert(s, slot, key, ke, val, ve)),
{
    broadcast use operations;

    reveal(map_insert);
}

proof fn lemma_level_tree_ops(s: EmitV, slot: u8, first: u32, n: u32)
    requires
        closed(s),
    ensures
        level(s, merkle_insert(s, slot, first, n)),
        merkle_insert(s, slot, first, n).errors == s.errors,
        evened(s, merkle_insert(s, slot, first, n)),
        level(s, merkle_check_root(s, slot, first).0),
        merkle_check_root(s, slot, first).0.errors == s.errors,
        evened(s, merkle_check_root(s, slot, first).0),
{
    broadcast use operations;

    reveal(merkle_insert);
    reveal(merkle_check_root);
    reveal(leaf_hash);
}

proof fn lemma_level_ledger_write(cx: ContractV, s: EmitV, slot: u8, vars: Seq<u32>)
    requires
        closed(s),
    ensures
        level(s, ledger_write(cx, s, slot, vars).0),
        ledger_write(cx, s, slot, vars).0.errors == s.errors,
        (held_type(cx, slot) matches Some(t) ==> countable_type(cx, t)) ==> evened(s, ledger_write(cx, s, slot, vars).0),
{
    broadcast use operations;

    reveal(ledger_write);
}

proof fn lemma_level_path_root(s: EmitV, first: u32, h: u32, n: u32)
    ensures
        level(s, path_root(s, first, h, n).0),
        counted(s, path_root(s, first, h, n).0, 0),
{
    broadcast use steps;

    reveal(leaf_hash);
    let (a, hash) = leaf_hash(s, first, n);
    lemma_level_path_fold(
        a,
        hash.wrapping_add(1),
        first.wrapping_add(crate::nocturne_type::chunks(n) as u32),
        h as nat,
    );
}

proof fn lemma_level_path_fold(s: EmitV, start: u32, base: u32, n: nat)
    ensures
        level(s, path_fold(s, start, base, n).0),
        counted(s, path_fold(s, start, base, n).0, 0),
    decreases n,
{
    broadcast use steps;

    if n > 0 {
        lemma_level_path_fold(s, start, base, (n - 1) as nat);
    }
}

proof fn lemma_level_private_block(s: EmitV, layout: Seq<FrLayout>, n: nat)
    ensures
        level(s, private_block(s, layout, n).0),
        counted(s, private_block(s, layout, n).0, 0),
    decreases n,
{
    broadcast use steps;

    if n > 0 && n <= layout.len() {
        lemma_level_private_block(s, layout, (n - 1) as nat);
    }
}

proof fn lemma_level_binary(s: EmitV, op: BinOp, a: u32, b: u32, bits: Option<u32>)
    ensures
        level(s, binary(s, op, a, b, bits).0),
        adds_errors(s, binary(s, op, a, b, bits).0),
        tally(binary(s, op, a, b, bits).0.instructions) == tally(s.instructions),
{
    broadcast use steps;

}

// ---- whole expressions

/// Lowering keeps where the reads and the groups stand.
pub open spec fn kept(cx: ContractV, s: EmitV, t: EmitV) -> bool {
    &&& reads(t.instructions) == reads(s.instructions)
    &&& adds_errors(s, t)
    &&& countable_ledger(cx) ==> evened(s, t)
}

proof fn lemma_kept(cx: ContractV, s: EmitV, e: ExprV, depth: nat)
    requires
        closed(s),
    ensures
        kept(cx, s, lower(cx, s, e, depth).0),
    decreases depth, e, 1nat,
{
    match e {
        ExprV::LedgerAccess { .. } => lemma_kept_ledger(cx, s, e, depth),
        ExprV::WitnessAccess { field, .. } => match witness_type(cx, field) {
            Some(t) => {
                let layout = witness_layout(type_ctx(cx), t);
                lemma_level_private_block(s, layout, layout.len());
            }
            None => {}
        },
        ExprV::WitnessCall { name, args, .. } => {
            let a = lower_seq(cx, s, args, args.len(), depth).0;
            lemma_kept_seq(cx, s, args, args.len(), depth);
            match method_type(cx, name) {
                Some(t) => {
                    let layout = witness_layout(type_ctx(cx), t);
                    lemma_level_private_block(a, layout, layout.len());
                }
                None => {}
            }
        }
        ExprV::Literal { .. } => {
            broadcast use steps;

        }
        ExprV::Path { .. } => {
            broadcast use steps;

        }
        ExprV::EnumPayload { scrutinee, .. } => lemma_kept(cx, s, *scrutinee, depth),
        ExprV::BinaryOp { op, lhs, rhs, .. } => {
            let (a, l) = lower(cx, s, *lhs, depth);
            lemma_kept(cx, s, *lhs, depth);
            if l is Some {
                let (b, w) = lower(cx, a, *rhs, depth);
                lemma_kept(cx, a, *rhs, depth);
                if w is Some {
                    lemma_level_binary(b, op, l->0, w->0, common_width(cx, s, *lhs, *rhs));
                }
            }
        }
        ExprV::UnaryOp { expr, .. } => {
            broadcast use steps;

            lemma_kept(cx, s, *expr, depth);
        }
        ExprV::Let { value, .. } => lemma_kept(cx, s, *value, depth),
        ExprV::Assert { kind, .. } => {
            broadcast use steps;

            match kind {
                AssertV::Assert(c) => lemma_kept(cx, s, *c, depth),
                AssertV::AssertEq(lhs, rhs) => {
                    lemma_kept(cx, s, *lhs, depth);
                    lemma_kept(cx, lower(cx, s, *lhs, depth).0, *rhs, depth);
                }
            }
        }
        ExprV::If { cond, then_branch, else_branch, .. } => {
            broadcast use steps;

            let (a, w) = lower(cx, s, *cond, depth);
            lemma_kept(cx, s, *cond, depth);
            if w is Some {
                let (b, tg) = then_guard(a, w->0);
                let inside = enter_branch(b, tg);
                lemma_kept_branch(cx, inside, then_branch, then_branch.len(), depth);
                let t = lower_branch(cx, inside, then_branch, then_branch.len(), depth).0;
                let shut = close_branch(t, inside.instructions.len());
                match else_branch {
                    Some(eb) => {
                        let (f, eg) = else_guard(shut, w->0, a.in_conditional, a.guard);
                        lemma_kept_branch(cx, EmitV { guard: eg, ..f }, eb, eb.len(), depth);
                    }
                    None => {}
                }
            }
        }
        ExprV::FnCall { .. } => lemma_kept_call(cx, s, e, depth),
        ExprV::Disclose { value, .. } => lemma_kept(cx, s, *value, depth),
        ExprV::MethodCall { receiver, args, .. } => {
            lemma_kept(cx, s, *receiver, depth);
            lemma_kept_seq(cx, lower(cx, s, *receiver, depth).0, args, args.len(), depth);
        }
        ExprV::Block { stmts, .. } => lemma_kept_seq(cx, s, stmts, stmts.len(), depth),
        ExprV::Return { value, .. } => match value {
            Some(v) => lemma_kept(cx, s, *v, depth),
            None => {}
        },
        ExprV::Tuple { elements, .. } => {
            lemma_kept_run(cx, s, elements, elements.len(), "tuple literal"@, depth);
        }
        ExprV::ArrayLit { elements, .. } => {
            lemma_kept_run(cx, s, elements, elements.len(), "array literal"@, depth);
        }
        ExprV::Reference { expr, .. } => lemma_kept(cx, s, *expr, depth),
        ExprV::Index { array, .. } => lemma_kept(cx, s, *array, depth),
        ExprV::StructInit { name, fields, .. } => {
            let order = evaluation_order(cx, name, fields);
            lemma_kept_fields(cx, s, fields, order, order.len(), depth);
        }
        _ => {}
    }
}

proof fn lemma_kept_seq(cx: ContractV, s: EmitV, es: Seq<ExprV>, n: nat, depth: nat)
    requires
        closed(s),
    ensures
        kept(cx, s, lower_seq(cx, s, es, n, depth).0),
    decreases depth, es, n,
{
    if n > 0 && n <= es.len() {
        lemma_kept_seq(cx, s, es, (n - 1) as nat, depth);
        lemma_kept(cx, lower_seq(cx, s, es, (n - 1) as nat, depth).0, es[n - 1], depth);
    }
}

proof fn lemma_kept_branch(cx: ContractV, s: EmitV, es: Seq<ExprV>, n: nat, depth: nat)
    requires
        closed(s),
    ensures
        kept(cx, s, lower_branch(cx, s, es, n, depth).0),
    decreases depth, es, n,
{
    if n > 0 && n <= es.len() {
        lemma_kept_branch(cx, s, es, (n - 1) as nat, depth);
        lemma_kept(cx, lower_branch(cx, s, es, (n - 1) as nat, depth).0, es[n - 1], depth);
    }
}

proof fn lemma_kept_all(cx: ContractV, s: EmitV, es: Seq<ExprV>, n: nat, depth: nat)
    requires
        closed(s),
    ensures
        kept(cx, s, lower_all(cx, s, es, n, depth).0),
    decreases depth, es, n,
{
    if n > 0 && n <= es.len() {
        lemma_kept_all(cx, s, es, (n - 1) as nat, depth);
        lemma_kept(cx, lower_all(cx, s, es, (n - 1) as nat, depth).0, es[n - 1], depth);
    }
}

proof fn lemma_kept_run(cx: ContractV, s: EmitV, es: Seq<ExprV>, n: nat, what: Seq<char>, depth: nat)
    requires
        closed(s),
    ensures
        kept(cx, s, lower_run(cx, s, es, n, what, depth).0),
    decreases depth, es, n,
{
    if n > 0 && n <= es.len() {
        lemma_kept_run(cx, s, es, (n - 1) as nat, what, depth);
        lemma_kept(cx, lower_run(cx, s, es, (n - 1) as nat, what, depth).0, es[n - 1], depth);
    }
}

proof fn lemma_kept_fields(
    cx: ContractV,
    s: EmitV,
    fs: Seq<(Seq<char>, ExprV)>,
    order: Seq<int>,
    n: nat,
    depth: nat,
)
    requires
        closed(s),
    ensures
        kept(cx, s, lower_fields(cx, s, fs, order, n, depth).0),
    decreases depth, fs, n,
{
    if n > 0 && n <= order.len() {
        lemma_kept_fields(cx, s, fs, order, (n - 1) as nat, depth);
        if 0 <= order[n - 1] < fs.len() {
            lemma_kept(cx, lower_fields(cx, s, fs, order, (n - 1) as nat, depth).0, fs[order[n - 1]].1, depth);
        }
    }
}

proof fn lemma_kept_arg(cx: ContractV, s: EmitV, args: Seq<ExprV>, i: nat, depth: nat)
    requires
        closed(s),
    ensures
        kept(cx, s, lower_arg(cx, s, args, i, depth).0),
    decreases depth, args, 0nat,
{
    if i < args.len() {
        lemma_kept(cx, s, args[i as int], depth);
    }
}

proof fn lemma_kept_params(
    cx: ContractV,
    s: EmitV,
    params: Seq<ParamV>,
    args: Seq<ExprV>,
    n: nat,
    counter: u32,
    depth: nat,
)
    requires
        closed(s),
    ensures
        kept(cx, s, lower_params(cx, s, params, args, n, counter, depth).0),
    decreases depth, args, n,
{
    if n > 0 && n <= args.len() {
        lemma_kept_params(cx, s, params, args, (n - 1) as nat, counter, depth);
        let a = lower_params(cx, s, params, args, (n - 1) as nat, counter, depth).0;
        lemma_kept(cx, a, args[n - 1], depth);
    }
}

proof fn lemma_kept_call(cx: ContractV, s: EmitV, e: ExprV, depth: nat)
    requires
        closed(s),
        e is FnCall,
    ensures
        kept(cx, s, lower(cx, s, e, depth).0),
    decreases depth, e, 0nat,
{
    broadcast use steps;

    match e {
        ExprV::FnCall { name, path, args, .. } => {
            if name == "merkle_tree_path_root"@ {
                assert(lower(cx, s, e, depth) == lower_path_root(cx, s, args, depth));
                if args.len() > 0 && path_argument(cx, args[0]) is Ok {
                    let (h, n) = path_argument(cx, args[0])->Ok_0;
                    let (a, first) = lower(cx, s, args[0], depth);
                    lemma_kept(cx, s, args[0], depth);
                    if first is Some {
                        lemma_level_path_root(a, first->0, h, n);
                    }
                }
            } else {
                match find_helper(cx.helpers, name, cx.helpers.len()) {
                    Some(h) => {
                        assert(lower(cx, s, e, depth) == lower_helper(cx, s, h, args, depth));
                        if h.params.len() == args.len() {
                            let counter = s.helper_counter;
                            let a = EmitV { helper_counter: counter.wrapping_add(1), ..s };
                            lemma_kept_params(cx, a, h.params, args, args.len(), counter, depth);
                            if depth > 0 {
                                let b = lower_params(cx, a, h.params, args, args.len(), counter, depth).0;
                                let names = param_names(h.params, h.params.len(), counter);
                                let body = renamed_list(
                                    h.body,
                                    h.body.len(),
                                    names,
                                    counter,
                                    h.params.len() as u32,
                                ).exprs;
                                let inner = EmitV { in_helper: true, ..b };
                                lemma_kept_seq(cx, inner, body, body.len(), (depth - 1) as nat);
                            }
                        }
                    }
                    None => {
                        if args.len() == 1 && wraps_value(path) {
                            lemma_kept(cx, s, args[0], depth);
                        } else {
                            lemma_kept_all(cx, s, args, args.len(), depth);
                        }
                    }
                }
            }
        }
        _ => {}
    }
}

proof fn lemma_kept_ledger(cx: ContractV, s: EmitV, e: ExprV, depth: nat)
    requires
        closed(s),
        e is LedgerAccess,
    ensures
        kept(cx, s, lower(cx, s, e, depth).0),
    decreases depth, e, 0nat,
{
    match e {
        ExprV::LedgerAccess { field, method, args, .. } => match field_slot(cx, field) {
            None => {}
            Some(slot) => {
                if countable_ledger(cx) {
                    lemma_held(cx, slot);
                }
                match slot_type(cx, slot) {
                    None => lemma_kept_cell(cx, s, slot, None, field, method, args, depth),
                    Some(t) => match map_kv(t) {
                        Some((k, v)) => lemma_kept_map(cx, s, slot, k, v, method, args, depth),
                        None => match set_inner(t) {
                            Some(elem) => lemma_kept_set(cx, s, slot, elem, method, args, depth),
                            None => if merkle_leaf(t) is Some {
                                lemma_kept_tree(cx, s, slot, method, args, depth);
                            } else {
                                lemma_kept_cell(cx, s, slot, Some(t), field, method, args, depth);
                            },
                        },
                    },
                }
            },
        },
        _ => {}
    }
}

proof fn lemma_kept_cell(
    cx: ContractV,
    s: EmitV,
    slot: u8,
    ty: Option<TyV>,
    field: Seq<char>,
    method: Seq<char>,
    args: Seq<ExprV>,
    depth: nat,
)
    requires
        closed(s),
        countable_ledger(cx) ==> (ty matches Some(t) ==> countable_field(cx, t)),
    ensures
        kept(cx, s, lower_cell_method(cx, s, slot, ty, field, method, args, depth).0),
    decreases depth, args, 1nat,
{
    if countable_ledger(cx) {
        lemma_held(cx, slot);
    }
    match increment_amount(args) {
        Some(n) => lemma_level_ledger_ops(s, slot, n, seq![], EncodingV { alignment_atoms: seq![], value_field_count: 0 }),
        None => {}
    }
    lemma_level_ledger_read(
        cx,
        s,
        slot,
        match ty {
            Some(t) => read_type(t),
            None => None,
        },
    );
    let (a, first) = lower_arg(cx, s, args, 0, depth);
    lemma_kept_arg(cx, s, args, 0, depth);
    lemma_level_ledger_write(cx, a, slot, written_wires(cx, slot, first));
}

proof fn lemma_kept_map(
    cx: ContractV,
    s: EmitV,
    slot: u8,
    k: TyV,
    v: TyV,
    method: Seq<char>,
    args: Seq<ExprV>,
    depth: nat,
)
    requires
        closed(s),
        countable_ledger(cx) ==> countable_type(cx, k) && countable_type(cx, v),
    ensures
        kept(cx, s, lower_map_method(cx, s, slot, k, v, method, args, depth).0),
    decreases depth, args, 1nat,
{
    if value_encoding(type_ctx(cx), k) is Some {
        let ke = value_encoding(type_ctx(cx), k)->0;
        let (a, first) = lower_arg(cx, s, args, 0, depth);
        lemma_kept_arg(cx, s, args, 0, depth);
        if first is Some {
            let key = wires(first->0, ke.value_field_count);
            if method == "contains"@ {
                lemma_level_ledger_ops(a, slot, 0, key, ke);
            } else if method == "insert"@ || method == "set"@ {
                if value_encoding(type_ctx(cx), v) is Some {
                    let ve = value_encoding(type_ctx(cx), v)->0;
                    let (b, second) = lower_arg(cx, a, args, 1, depth);
                    lemma_kept_arg(cx, a, args, 1, depth);
                    if second is Some {
                        lemma_level_map_insert(b, slot, key, ke, wires(second->0, ve.value_field_count), ve);
                    }
                }
            } else if method == "remove"@ {
                lemma_level_ledger_ops(a, slot, 0, key, ke);
            } else if method == "lookup"@ {
                if value_encoding(type_ctx(cx), v) is Some {
                    let ve = value_encoding(type_ctx(cx), v)->0;
                    lemma_level_map_lookup(cx, a, slot, key, ke, v, ve);
                }
            }
        }
    }
}

proof fn lemma_kept_set(
    cx: ContractV,
    s: EmitV,
    slot: u8,
    elem: TyV,
    method: Seq<char>,
    args: Seq<ExprV>,
    depth: nat,
)
    requires
        closed(s),
        countable_ledger(cx) ==> countable_type(cx, elem),
    ensures
        kept(cx, s, lower_set_method(cx, s, slot, elem, method, args, depth).0),
    decreases depth, args, 1nat,
{
    let (a, first) = lower_arg(cx, s, args, 0, depth);
    lemma_kept_arg(cx, s, args, 0, depth);
    match (value_encoding(type_ctx(cx), elem), first) {
        (Some(ke), Some(f)) => lemma_level_ledger_ops(a, slot, 0, wires(f, ke.value_field_count), ke),
        _ => {}
    }
}

proof fn lemma_kept_tree(cx: ContractV, s: EmitV, slot: u8, method: Seq<char>, args: Seq<ExprV>, depth: nat)
    requires
        closed(s),
    ensures
        kept(cx, s, lower_merkle_method(cx, s, slot, method, args, depth).0),
    decreases depth, args, 1nat,
{
    let (a, first) = lower_arg(cx, s, args, 0, depth);
    lemma_kept_arg(cx, s, args, 0, depth);
    if first is Some {
        lemma_level_tree_ops(a, slot, first->0, slot_leaf_len(cx, slot)->0);
    }
}

// ---- the law

/// In a list where every group had the guard of its reads, the group that
/// claims the read at `p` has that read's guard.
proof fn lemma_claimed(is: Seq<InstructionV>, p: int)
    requires
        reads(is).sound,
        0 <= p < is.len(),
        is[p] is PublicInput,
        is[p]->PublicInput_guard is Some,
    ensures
        claims(is, p, is[p]->PublicInput_guard) || (reads(is).open == is[p]->PublicInput_guard && forall|r: int|
            p < r < is.len() ==> !(#[trigger] is[r] is PiSkip)),
    decreases is.len(),
{
    let front = is.drop_last();
    let g = is[p]->PublicInput_guard;
    assert(reads(is) == step(reads(front), is.last()));
    if p < front.len() {
        assert(front[p] == is[p]);
        lemma_claimed(front, p);
        if claims(front, p, g) {
            let q = choose|q: int| #[trigger] claims_at(front, p, q, g);
            assert(front[q] == is[q]);
            assert forall|r: int| p < r < q implies !(#[trigger] is[r] is PiSkip) by {
                assert(front[r] == is[r]);
            }
            assert(claims_at(is, p, q, g));
        } else {
            let q = is.len() - 1;
            assert forall|r: int| p < r < q implies !(#[trigger] is[r] is PiSkip) by {
                assert(front[r] == is[r]);
            }
            if is.last() is PiSkip {
                assert(claims_at(is, p, q, g));
            }
        }
    }
}

/// The group that ends at `q` claims the read at `p`, under the guard `g`.
pub open spec fn claims_at(is: Seq<InstructionV>, p: int, q: int, g: Option<u32>) -> bool {
    &&& p < q < is.len()
    &&& is[q] matches InstructionV::PiSkip { guard, .. } && guard == g
    &&& forall|r: int| p < r < q ==> !(#[trigger] is[r] is PiSkip)
}

/// The first group that ends behind `p` has the guard `g`.
pub open spec fn claims(is: Seq<InstructionV>, p: int, g: Option<u32>) -> bool {
    exists|q: int| #[trigger] claims_at(is, p, q, g)
}

proof fn lemma_params_level(params: Seq<ParamV>, n: nat)
    ensures
        with_params(start_state(), params, n).instructions.len() == 0,
    decreases n,
{
    if n > 0 && n <= params.len() {
        lemma_params_level(params, (n - 1) as nat);
    }
}

proof fn lemma_constraints_level(cx: ContractV, s: EmitV, params: Seq<ParamV>, n: nat)
    ensures
        kept(cx, s, with_constraints(cx, s, params, n)),
    decreases n,
{
    broadcast use steps;

    if n > 0 && n <= params.len() {
        lemma_constraints_level(cx, s, params, (n - 1) as nat);
    }
}

/// A public transcript read inside a branch belongs to a group under its own
/// guard: both are skipped together where the branch is inactive.
pub proof fn guarded_reads_have_their_groups_guard(cx: ContractV, c: CircuitV, p: int)
    requires
        0 <= p < instructions_of(cx, c).len(),
        instructions_of(cx, c)[p] is PublicInput,
        instructions_of(cx, c)[p]->PublicInput_guard is Some,
    ensures
        claims(instructions_of(cx, c), p, instructions_of(cx, c)[p]->PublicInput_guard),
{
    broadcast use steps;

    let s = with_params(start_state(), c.params, c.params.len());
    let a = load(s, 1).0;
    let b = EmitV { guard: load(s, 1).1, ..a };
    let start = circuit_prologue(cx, c);
    lemma_params_level(c.params, c.params.len());
    assert(reads(s.instructions) == (ReadsV { open: None, sound: true }));
    lemma_constraints_level(cx, b, c.params, c.params.len());
    lemma_kept_seq(cx, start, c.body, c.body.len(), cx.helpers.len());
    let is = instructions_of(cx, c);
    assert(reads(is) == (ReadsV { open: None, sound: true }));
    lemma_claimed(is, p);
}

proof fn lemma_even(is: Seq<InstructionV>, p: int)
    requires
        tally(is).even,
        0 <= p < is.len(),
        is[p] is PiSkip,
    ensures
        is[p]->PiSkip_count == tally(is.take(p)).open,
    decreases is.len(),
{
    let front = is.drop_last();
    assert(tally(is) == tally_step(tally(front), is.last()));
    if p < front.len() {
        lemma_even(front, p);
        assert(front.take(p) =~= is.take(p));
    } else {
        assert(is.take(p) =~= front);
    }
}

/// In a circuit without errors, each group counts its own inputs: its count
/// is the number of public inputs declared since the group before it.
pub proof fn groups_count_their_inputs(cx: ContractV, c: CircuitV, p: int)
    requires
        countable_ledger(cx),
        lowered_circuit(cx, c).errors.len() == 0,
        0 <= p < instructions_of(cx, c).len(),
        instructions_of(cx, c)[p] is PiSkip,
    ensures
        instructions_of(cx, c)[p]->PiSkip_count == tally(instructions_of(cx, c).take(p)).open,
{
    broadcast use steps;

    let s = with_params(start_state(), c.params, c.params.len());
    let a = load(s, 1).0;
    let b = EmitV { guard: load(s, 1).1, ..a };
    let start = circuit_prologue(cx, c);
    lemma_params_level(c.params, c.params.len());
    lemma_constraints_level(cx, b, c.params, c.params.len());
    lemma_kept_seq(cx, start, c.body, c.body.len(), cx.helpers.len());
    let is = instructions_of(cx, c);
    let checked = with_constraints(cx, b, c.params, c.params.len());
    lemma_checked_list(checked.errors, c.body, c.body.len(), true);
    assert(body_end(cx, c).errors.len() == 0);
    assert(start.errors.len() == 0 && checked.errors.len() == 0);
    assert(tally(s.instructions) == (TallyV { open: 0, even: true }));
    assert(tally(body_end(cx, c).instructions) == (TallyV { open: 0, even: true }));
    lemma_even(is, p);
}

} // verus!
