//! What every lowered circuit satisfies: transcript reads carry a guard
//! exactly inside branches, conditional public inputs are zeroed where the
//! branch is inactive, every public input belongs to one group, and a circuit
//! has at most one output.
use crate::containers::{map_kv, merkle_leaf, set_inner};
use crate::contract::{CircuitV, ContractV, HelperV, ParamV};
use crate::emission::{emit, fail, field_slot, find_helper, held_type, inferred_type, leaf_hash, load, load_zero};
use crate::emission::{method_type, private_block, put, read_type, renamed_list, slot_type, start_state, type_ctx};
use crate::emission::{value_encoding, wires, witness_layout, witness_type, wraps_value, written_wires, EmitV};
use crate::emission_laws::{cells, continues, countable, countable_type, covered, grows, guard_of, is_io, is_plain};
use crate::emission_laws::{is_whole, lemma_counter_increment, lemma_emit, lemma_fail, lemma_leaf_hash};
use crate::emission_laws::{lemma_ledger_read, lemma_ledger_write, lemma_load, lemma_load_zero, lemma_map_insert};
use crate::emission_laws::{lemma_map_lookup, lemma_map_member, lemma_map_remove, lemma_merkle_check_root};
use crate::emission_laws::{lemma_merkle_insert, lemma_path_fold, lemma_private_block, lemma_put, lemma_same};
use crate::emission_laws::{lemma_set_insert, lemma_sums_push, lemma_then, placed, same_frame, slack, unclaimed};
use crate::expr::{AssertV, BinOp, ExprV, LitV, UnOp};
use crate::lowering::{binary, bound, checked_list, checked_returns, circuit_output, circuit_prologue, close_branch};
use crate::lowering::{complain, element, else_guard, enter_branch, evaluation_order, has_return, increment_amount};
use crate::lowering::{leave_if, literal, lower, lower_all, lower_arg, lower_branch, lower_cell_method, lower_fields};
use crate::lowering::{lower_helper, lower_map_method, lower_merkle_method, lower_params, lower_path_root, lower_run};
use crate::lowering::{lower_seq, lower_set_method, lowered_circuit, param_constraint, param_names, path_argument};
use crate::lowering::{path_constant, path_root, run_step, slot_leaf_len, then_guard, unary, variable};
use crate::lowering::{with_constraints, with_params, witness_read};
use crate::syntax::TyV;
use crate::zkir::{AlignmentAtom, InstructionV};
use vstd::prelude::*;

verus! {

/// Whether 32-bit counts can describe the values of a ledger field.
pub open spec fn countable_field(cx: ContractV, t: TyV) -> bool {
    &&& map_kv(t) matches Some((k, v)) ==> countable_type(cx, k) && countable_type(cx, v)
    &&& set_inner(t) matches Some(k) ==> countable_type(cx, k)
    &&& read_type(t) matches Some(r) ==> countable_type(cx, r)
}

/// Whether 32-bit counts can describe the values of all ledger fields.
pub open spec fn countable_ledger(cx: ContractV) -> bool {
    forall|i: int| 0 <= i < cx.ledger.fields.len() ==> #[trigger] countable_field(cx, cx.ledger.fields[i].ty)
}

pub(crate) proof fn lemma_held(cx: ContractV, slot: u8)
    requires
        countable_ledger(cx),
    ensures
        held_type(cx, slot) matches Some(t) ==> countable_type(cx, t),
        slot_type(cx, slot) matches Some(t) ==> countable_field(cx, t),
{
    if slot < cx.ledger.fields.len() {
        let t = cx.ledger.fields[slot as int].ty;
        assert(countable_field(cx, t));
        reveal_strlit("Cell");
        reveal_strlit("Counter");
        assert("Cell"@.len() == 4);
        assert("Counter"@.len() == 7);
    }
}

// ---- expressions without parts

proof fn lemma_emit2(ok: bool, s: EmitV, i: InstructionV, j: InstructionV)
    requires
        is_plain(s, i),
        is_plain(emit(s, i).0, j),
    ensures
        grows(ok, s, emit(emit(s, i).0, j).0, 0),
{
    let a = emit(s, i).0;
    lemma_emit(ok, s, i);
    lemma_emit(ok, a, j);
    lemma_then(ok, s, a, emit(a, j).0, 0, 0);
}

pub(crate) proof fn lemma_binary(ok: bool, s: EmitV, op: BinOp, a: u32, b: u32, bits: Option<u32>)
    ensures
        grows(ok, s, binary(s, op, a, b, bits).0, 0),
{
    let r = binary(s, op, a, b, bits).0;
    if r == fail(s, r.errors.last()).0 {
        lemma_fail(ok, s, r.errors.last());
    } else {
        match op {
            BinOp::Add => lemma_emit(ok, s, InstructionV::Add { a, b }),
            BinOp::AddAssign => lemma_emit(ok, s, InstructionV::Add { a, b }),
            BinOp::Sub => {
                let neg = emit(s, InstructionV::Neg { a: b }).1;
                lemma_emit2(ok, s, InstructionV::Neg { a: b }, InstructionV::Add { a, b: neg });
            }
            BinOp::SubAssign => {
                let neg = emit(s, InstructionV::Neg { a: b }).1;
                lemma_emit2(ok, s, InstructionV::Neg { a: b }, InstructionV::Add { a, b: neg });
            }
            BinOp::Mul => lemma_emit(ok, s, InstructionV::Mul { a, b }),
            BinOp::MulAssign => lemma_emit(ok, s, InstructionV::Mul { a, b }),
            BinOp::And => lemma_emit(ok, s, InstructionV::Mul { a, b }),
            BinOp::Eq => lemma_emit(ok, s, InstructionV::TestEq { a, b }),
            BinOp::Ne => {
                let eq = emit(s, InstructionV::TestEq { a, b }).1;
                lemma_emit2(ok, s, InstructionV::TestEq { a, b }, InstructionV::Not { a: eq });
            }
            BinOp::Lt => {
                if bits is Some {
                    lemma_emit(ok, s, InstructionV::LessThan { a, b, bits: bits->0 });
                }
            }
            BinOp::Gt => {
                if bits is Some {
                    lemma_emit(ok, s, InstructionV::LessThan { a: b, b: a, bits: bits->0 });
                }
            }
            BinOp::Le => {
                if bits is Some {
                    let less = InstructionV::LessThan { a: b, b: a, bits: bits->0 };
                    lemma_emit2(ok, s, less, InstructionV::Not { a: emit(s, less).1 });
                }
            }
            BinOp::Ge => {
                if bits is Some {
                    let less = InstructionV::LessThan { a, b, bits: bits->0 };
                    lemma_emit2(ok, s, less, InstructionV::Not { a: emit(s, less).1 });
                }
            }
            BinOp::Or => {
                let (t, ab) = emit(s, InstructionV::Mul { a, b });
                let (u, sum) = emit(t, InstructionV::Add { a, b });
                let (v, neg) = emit(u, InstructionV::Neg { a: ab });
                lemma_emit2(ok, s, InstructionV::Mul { a, b }, InstructionV::Add { a, b });
                lemma_emit2(ok, u, InstructionV::Neg { a: ab }, InstructionV::Add { a: sum, b: neg });
                lemma_then(ok, s, u, r, 0, 0);
            }
            _ => {}
        }
    }
}

proof fn lemma_unary(ok: bool, s: EmitV, op: UnOp, a: u32)
    ensures
        grows(ok, s, unary(s, op, a).0, 0),
{
    match op {
        UnOp::Neg => lemma_emit(ok, s, InstructionV::Neg { a }),
        UnOp::Not => lemma_emit(ok, s, InstructionV::Not { a }),
        UnOp::Deref => lemma_fail(ok, s, unary(s, op, a).0.errors.last()),
    }
}

proof fn lemma_literal(ok: bool, s: EmitV, value: LitV)
    ensures
        grows(ok, s, literal(s, value).0, 0),
{
    match value {
        LitV::Int(n) => lemma_load(ok, s, n as int),
        LitV::Bool(b) => lemma_load(ok, s, if b { 1 } else { 0 }),
        LitV::Str(_) => lemma_fail(ok, s, literal(s, value).0.errors.last()),
    }
}

proof fn lemma_bound(ok: bool, s: EmitV, name: Seq<char>, wire: Option<u32>, ty: Option<TyV>)
    ensures
        grows(ok, s, bound(s, name, wire, ty).0, 0),
{
    reveal(continues);
}

proof fn lemma_witness_read(ok: bool, cx: ContractV, s: EmitV, field: Seq<char>)
    ensures
        grows(ok, s, witness_read(cx, s, field).0, 0),
{
    let r = witness_read(cx, s, field).0;
    let key = crate::lowering::witness_key(field);
    if s.variables.contains_key(key) {
        lemma_same(ok, s, s);
    } else if s.guarded_witness_fields.contains(field) || witness_type(cx, field) is None {
        lemma_fail(ok, s, r.errors.last());
    } else {
        let layout = witness_layout(type_ctx(cx), witness_type(cx, field)->0);
        let (a, first) = private_block(s, layout, layout.len());
        lemma_private_block(ok, s, layout, layout.len());
        if first is Some {
            lemma_same(ok, a, r);
        } else {
            lemma_fail(ok, a, r.errors.last());
        }
        lemma_then(ok, s, a, r, 0, 0);
    }
}

proof fn lemma_variable(ok: bool, s: EmitV, name: Seq<char>)
    ensures
        grows(ok, s, variable(s, name).0, 0),
{
    if s.variables.contains_key(name) || s.poisoned.contains(name) {
        lemma_same(ok, s, s);
    } else {
        lemma_fail(ok, s, variable(s, name).0.errors.last());
    }
}

proof fn lemma_path_constant(ok: bool, cx: ContractV, s: EmitV, path: crate::syntax::PathV)
    ensures
        grows(ok, s, path_constant(cx, s, path).0, 0),
{
    match crate::emission::discriminant(cx.user_enums, path) {
        Some(d) => lemma_load(ok, s, d as int),
        None => lemma_fail(ok, s, path_constant(cx, s, path).0.errors.last()),
    }
}

proof fn lemma_run_step(ok: bool, s: EmitV, before: u32, r: (EmitV, Option<u32>), first: Option<u32>, what: Seq<char>)
    requires
        grows(ok, s, r.0, 0),
    ensures
        grows(ok, s, run_step(before, r, first, what).0, 0),
{
    let t = run_step(before, r, first, what).0;
    if r.1 is Some && r.1->0 != before {
        lemma_fail(ok, r.0, t.errors.last());
        lemma_then(ok, s, r.0, t, 0, 0);
    }
}

proof fn lemma_element(ok: bool, cx: ContractV, s: EmitV, ty: Option<TyV>, first: u32, index: u32)
    ensures
        grows(ok, s, element(cx, s, ty, first, index).0, 0),
{
    let t = element(cx, s, ty, first, index).0;
    if t.errors.len() > s.errors.len() {
        lemma_fail(ok, s, t.errors.last());
    } else {
        lemma_same(ok, s, s);
    }
}

proof fn lemma_path_root(ok: bool, s: EmitV, first: u32, h: u32, n: u32)
    ensures
        grows(ok, s, path_root(s, first, h, n).0, 0),
{
    let (a, hash) = leaf_hash(s, first, n);
    let base = first.wrapping_add(crate::nocturne_type::chunks(n) as u32);
    lemma_leaf_hash(ok, s, first, n);
    lemma_path_fold(ok, a, hash.wrapping_add(1), base, h as nat);
    lemma_then(ok, s, a, path_root(s, first, h, n).0, 0, 0);
}

// ---- branches

/// The state of a branch body, back at the place of its `if`.
pub open spec fn outside(s: EmitV, guard: u32, in_conditional: bool) -> EmitV {
    EmitV { guard, in_conditional, ..s }
}

/// A branch body, recorded as such, continues the state before the branch.
proof fn lemma_branch(ok: bool, s: EmitV, guard: u32, t: EmitV)
    requires
        grows(ok, enter_branch(s, guard), t, 0),
    ensures
        grows(ok, s, outside(close_branch(t, s.instructions.len()), s.guard, s.in_conditional), 0),
{
    reveal(continues);
    let inside = enter_branch(s, guard);
    let r = outside(close_branch(t, s.instructions.len()), s.guard, s.in_conditional);
    let k = t.branch_spans.len() as int;
    assert(r.branch_spans[k] == (s.instructions.len(), t.instructions.len()));
    assert forall|p: int| s.instructions.len() <= p < r.instructions.len() implies #[trigger] placed(s, r, p) by {
        assert(placed(inside, t, p));
        assert(covered(s, r, p));
    }
    assert forall|q: int| 0 <= q < s.branch_spans.len() implies #[trigger] r.branch_spans[q] == s.branch_spans[q] by {
        assert(t.branch_spans[q] == s.branch_spans[q]);
    }
    assert forall|q: int| s.branch_spans.len() <= q < r.branch_spans.len() implies s.instructions.len() <= (
    #[trigger] r.branch_spans[q]).0 <= r.branch_spans[q].1 <= r.instructions.len() by {
        if q < k {
            assert(r.branch_spans[q] == t.branch_spans[q]);
        }
    }
}

proof fn lemma_then_guard(ok: bool, s: EmitV, cond: u32)
    ensures
        grows(ok, s, then_guard(s, cond).0, 0),
{
    if s.in_conditional {
        let (a, zero) = load_zero(s);
        let i = InstructionV::CondSelect { bit: cond, a: s.guard, b: zero };
        lemma_load_zero(ok, s);
        lemma_emit(ok, a, i);
        lemma_then(ok, s, a, emit(a, i).0, 0, 0);
    } else {
        lemma_same(ok, s, s);
    }
}

proof fn lemma_else_guard(ok: bool, s: EmitV, cond: u32, nested: bool, outer: u32)
    ensures
        grows(ok, s, else_guard(s, cond, nested, outer).0, 0),
{
    if nested {
        let (a, zero) = load_zero(s);
        let i = InstructionV::CondSelect { bit: cond, a: zero, b: outer };
        lemma_load_zero(ok, s);
        lemma_emit(ok, a, i);
        lemma_then(ok, s, a, emit(a, i).0, 0, 0);
    } else {
        lemma_emit(ok, s, InstructionV::Not { a: cond });
    }
}

/// The guard of an `else` branch does not depend on where the state stands.
proof fn lemma_else_guard_outside(s: EmitV, cond: u32, nested: bool, outer: u32, guard: u32, in_conditional: bool)
    ensures
        outside(else_guard(s, cond, nested, outer).0, guard, in_conditional) == else_guard(
            outside(s, guard, in_conditional),
            cond,
            nested,
            outer,
        ).0,
        else_guard(s, cond, nested, outer).1 == else_guard(outside(s, guard, in_conditional), cond, nested, outer).1,
{
    reveal(emit);
}

proof fn lemma_leave_if(ok: bool, s: EmitV, a: EmitV, cond: u32, then_wire: Option<u32>, else_wire: Option<u32>)
    requires
        grows(ok, a, outside(s, a.guard, a.in_conditional), 0),
    ensures
        grows(ok, a, leave_if(s, cond, a.guard, a.in_conditional, then_wire, else_wire).0, 0),
{
    let b = outside(s, a.guard, a.in_conditional);
    if then_wire is Some && else_wire is Some {
        let i = InstructionV::CondSelect { bit: cond, a: then_wire->0, b: else_wire->0 };
        lemma_emit(ok, b, i);
        lemma_then(ok, a, b, emit(b, i).0, 0, 0);
    }
}

// ---- expressions

pub(crate) proof fn lemma_lower(ok: bool, cx: ContractV, s: EmitV, e: ExprV, depth: nat)
    requires
        ok ==> countable_ledger(cx),
    ensures
        grows(ok, s, lower(cx, s, e, depth).0, 0),
    decreases depth, e, 1nat,
{
    let r = lower(cx, s, e, depth).0;
    match e {
        ExprV::LedgerAccess { field, method, args, .. } => lemma_lower_ledger(ok, cx, s, e, depth),
        ExprV::WitnessAccess { field, .. } => lemma_witness_read(ok, cx, s, field),
        ExprV::WitnessCall { name, args, .. } => {
            let a = lower_seq(cx, s, args, args.len(), depth).0;
            lemma_lower_seq(ok, cx, s, args, args.len(), depth);
            match method_type(cx, name) {
                Some(t) => {
                    let layout = witness_layout(type_ctx(cx), t);
                    lemma_private_block(ok, a, layout, layout.len());
                }
                None => lemma_fail(ok, a, r.errors.last()),
            }
            lemma_then(ok, s, a, r, 0, 0);
        }
        ExprV::Literal { value, .. } => lemma_literal(ok, s, value),
        ExprV::Var { name, .. } => lemma_variable(ok, s, name),
        ExprV::Path { path, .. } => lemma_path_constant(ok, cx, s, path),
        ExprV::EnumPayload { scrutinee, .. } => lemma_lower(ok, cx, s, *scrutinee, depth),
        ExprV::BinaryOp { op, lhs, rhs, .. } => {
            let bits = crate::emission::common_width(cx, s, *lhs, *rhs);
            let (a, l) = lower(cx, s, *lhs, depth);
            lemma_lower(ok, cx, s, *lhs, depth);
            if l is Some {
                let (b, w) = lower(cx, a, *rhs, depth);
                lemma_lower(ok, cx, a, *rhs, depth);
                lemma_then(ok, s, a, b, 0, 0);
                if w is Some {
                    lemma_binary(ok, b, op, l->0, w->0, bits);
                    lemma_then(ok, s, b, r, 0, 0);
                }
            }
        }
        ExprV::UnaryOp { op, expr, .. } => {
            let (a, w) = lower(cx, s, *expr, depth);
            lemma_lower(ok, cx, s, *expr, depth);
            if w is Some {
                lemma_unary(ok, a, op, w->0);
                lemma_then(ok, s, a, r, 0, 0);
            }
        }
        ExprV::Let { name, value, .. } => {
            let (a, w) = lower(cx, s, *value, depth);
            lemma_lower(ok, cx, s, *value, depth);
            lemma_bound(ok, a, name, w, inferred_type(cx, s, *value));
            lemma_then(ok, s, a, r, 0, 0);
        }
        ExprV::Assert { kind, .. } => match kind {
            AssertV::Assert(c) => {
                let (a, w) = lower(cx, s, *c, depth);
                lemma_lower(ok, cx, s, *c, depth);
                if w is Some {
                    lemma_put(ok, a, InstructionV::Assert { cond: w->0 });
                    lemma_then(ok, s, a, r, 0, 0);
                }
            }
            AssertV::AssertEq(lhs, rhs) => {
                let (a, l) = lower(cx, s, *lhs, depth);
                lemma_lower(ok, cx, s, *lhs, depth);
                if l is Some {
                    let (b, w) = lower(cx, a, *rhs, depth);
                    lemma_lower(ok, cx, a, *rhs, depth);
                    lemma_then(ok, s, a, b, 0, 0);
                    if w is Some {
                        lemma_put(ok, b, InstructionV::ConstrainEq { a: l->0, b: w->0 });
                        lemma_then(ok, s, b, r, 0, 0);
                    }
                }
            }
        },
        ExprV::If { .. } => lemma_lower_if(ok, cx, s, e, depth),
        ExprV::FnCall { name, path, args, .. } => lemma_lower_call(ok, cx, s, e, depth),
        ExprV::Disclose { value, .. } => lemma_lower(ok, cx, s, *value, depth),
        ExprV::MethodCall { receiver, args, .. } => {
            let a = lower(cx, s, *receiver, depth).0;
            lemma_lower(ok, cx, s, *receiver, depth);
            lemma_lower_seq(ok, cx, a, args, args.len(), depth);
            lemma_then(ok, s, a, r, 0, 0);
        }
        ExprV::Block { stmts, .. } => lemma_lower_seq(ok, cx, s, stmts, stmts.len(), depth),
        ExprV::Return { value, .. } => {
            if s.in_helper {
                lemma_fail(ok, s, r.errors.last());
            } else {
                match value {
                    Some(v) => lemma_lower(ok, cx, s, *v, depth),
                    None => lemma_same(ok, s, s),
                }
            }
        }
        ExprV::Tuple { elements, .. } => lemma_lower_run(ok, cx, s, elements, elements.len(), "tuple literal"@, depth),
        ExprV::ArrayLit { elements, .. } => lemma_lower_run(ok, cx, s, elements, elements.len(), "array literal"@, depth),
        ExprV::Reference { expr, .. } => lemma_lower(ok, cx, s, *expr, depth),
        ExprV::Index { array, index, .. } => {
            let (a, first) = lower(cx, s, *array, depth);
            lemma_lower(ok, cx, s, *array, depth);
            if first is Some {
                lemma_element(ok, cx, a, inferred_type(cx, a, *array), first->0, index);
                lemma_then(ok, s, a, r, 0, 0);
            }
        }
        ExprV::StructInit { name, fields, .. } => {
            let order = evaluation_order(cx, name, fields);
            lemma_lower_fields(ok, cx, s, fields, order, order.len(), depth);
        }
        ExprV::Unsupported { .. } => lemma_fail(ok, s, r.errors.last()),
    }
}

pub(crate) proof fn lemma_lower_ledger(ok: bool, cx: ContractV, s: EmitV, e: ExprV, depth: nat)
    requires
        ok ==> countable_ledger(cx),
        e is LedgerAccess,
    ensures
        grows(ok, s, lower(cx, s, e, depth).0, 0),
    decreases depth, e, 0nat,
{
    match e {
        ExprV::LedgerAccess { field, method, args, .. } => match field_slot(cx, field) {
            None => lemma_fail(ok, s, lower(cx, s, e, depth).0.errors.last()),
            Some(slot) => {
                if ok {
                    lemma_held(cx, slot);
                }
                match slot_type(cx, slot) {
                    None => lemma_lower_cell(ok, cx, s, slot, None, field, method, args, depth),
                    Some(t) => match map_kv(t) {
                        Some((k, v)) => lemma_lower_map(ok, cx, s, slot, k, v, method, args, depth),
                        None => match set_inner(t) {
                            Some(elem) => lemma_lower_set(ok, cx, s, slot, elem, method, args, depth),
                            None => {
                                if merkle_leaf(t) is Some {
                                    lemma_lower_merkle(ok, cx, s, slot, method, args, depth);
                                } else {
                                    lemma_lower_cell(ok, cx, s, slot, Some(t), field, method, args, depth);
                                }
                            }
                        },
                    },
                }
            }
        },
        _ => {}
    }
}

pub(crate) proof fn lemma_lower_if(ok: bool, cx: ContractV, s: EmitV, e: ExprV, depth: nat)
    requires
        ok ==> countable_ledger(cx),
        e is If,
    ensures
        grows(ok, s, lower(cx, s, e, depth).0, 0),
    decreases depth, e, 0nat,
{
    match e {
        ExprV::If { cond, then_branch, else_branch, .. } => {
            let (a, c) = lower(cx, s, *cond, depth);
            lemma_lower(ok, cx, s, *cond, depth);
            if c is Some {
                let cw = c->0;
                let (b, tg) = then_guard(a, cw);
                lemma_then_guard(ok, a, cw);
                let inside = enter_branch(b, tg);
                let (t, then_wire) = lower_branch(cx, inside, then_branch, then_branch.len(), depth);
                lemma_lower_branch(ok, cx, inside, then_branch, then_branch.len(), depth);
                lemma_branch(ok, b, tg, t);
                let closed = close_branch(t, inside.instructions.len());
                let back = outside(closed, b.guard, b.in_conditional);
                lemma_then(ok, a, b, back, 0, 0);
                let r = lower(cx, s, e, depth).0;
                match else_branch {
                    None => lemma_leave_if(ok, closed, a, cw, then_wire, None),
                    Some(eb) => {
                        let (d, eg) = else_guard(closed, cw, a.in_conditional, a.guard);
                        lemma_else_guard_outside(closed, cw, a.in_conditional, a.guard, a.guard, a.in_conditional);
                        lemma_else_guard(ok, back, cw, a.in_conditional, a.guard);
                        let d0 = outside(d, a.guard, a.in_conditional);
                        lemma_then(ok, a, back, d0, 0, 0);
                        let other = EmitV { guard: eg, ..d };
                        assert(d.in_conditional) by {
                            reveal(emit);
                        }
                        assert(other == enter_branch(d0, eg));
                        let (f, else_wire) = lower_branch(cx, other, eb, eb.len(), depth);
                        lemma_lower_branch(ok, cx, other, eb, eb.len(), depth);
                        lemma_branch(ok, d0, eg, f);
                        let shut = close_branch(f, other.instructions.len());
                        lemma_then(ok, a, d0, outside(shut, a.guard, a.in_conditional), 0, 0);
                        lemma_leave_if(ok, shut, a, cw, then_wire, else_wire);
                    }
                }
                lemma_then(ok, s, a, r, 0, 0);
            }
        }
        _ => {}
    }
}

pub(crate) proof fn lemma_lower_call(ok: bool, cx: ContractV, s: EmitV, e: ExprV, depth: nat)
    requires
        ok ==> countable_ledger(cx),
        e is FnCall,
    ensures
        grows(ok, s, lower(cx, s, e, depth).0, 0),
    decreases depth, e, 0nat,
{
    let r = lower(cx, s, e, depth).0;
    match e {
        ExprV::FnCall { name, path, args, .. } => {
            if name == "merkle_tree_path_root"@ {
                lemma_lower_path_root(ok, cx, s, args, depth);
            } else {
                match find_helper(cx.helpers, name, cx.helpers.len()) {
                    Some(h) => lemma_lower_helper(ok, cx, s, h, args, depth),
                    None => {
                        if args.len() == 1 && wraps_value(path) {
                            lemma_lower(ok, cx, s, args[0], depth);
                        } else if name == "persistent_hash"@ {
                            let (a, inputs) = lower_all(cx, s, args, args.len(), depth);
                            lemma_lower_all(ok, cx, s, args, args.len(), depth);
                            if inputs is Some {
                                lemma_emit(
                                    ok,
                                    a,
                                    InstructionV::PersistentHash {
                                        alignment: seq![AlignmentAtom::Field],
                                        inputs: inputs->0,
                                    },
                                );
                                lemma_then(ok, s, a, r, 0, 0);
                            }
                        } else if name == "transient_hash"@ {
                            let (a, inputs) = lower_all(cx, s, args, args.len(), depth);
                            lemma_lower_all(ok, cx, s, args, args.len(), depth);
                            if inputs is Some {
                                lemma_emit(ok, a, InstructionV::TransientHash { inputs: inputs->0 });
                                lemma_then(ok, s, a, r, 0, 0);
                            }
                        } else {
                            lemma_fail(ok, s, r.errors.last());
                        }
                    }
                }
            }
        }
        _ => {}
    }
}

pub(crate) proof fn lemma_lower_seq(ok: bool, cx: ContractV, s: EmitV, es: Seq<ExprV>, n: nat, depth: nat)
    requires
        ok ==> countable_ledger(cx),
    ensures
        grows(ok, s, lower_seq(cx, s, es, n, depth).0, 0),
    decreases depth, es, n,
{
    if n == 0 || n > es.len() {
        lemma_same(ok, s, s);
    } else {
        let a = lower_seq(cx, s, es, (n - 1) as nat, depth).0;
        lemma_lower_seq(ok, cx, s, es, (n - 1) as nat, depth);
        lemma_lower(ok, cx, a, es[n - 1], depth);
        lemma_then(ok, s, a, lower_seq(cx, s, es, n, depth).0, 0, 0);
    }
}

pub(crate) proof fn lemma_lower_branch(ok: bool, cx: ContractV, s: EmitV, es: Seq<ExprV>, n: nat, depth: nat)
    requires
        ok ==> countable_ledger(cx),
    ensures
        grows(ok, s, lower_branch(cx, s, es, n, depth).0, 0),
    decreases depth, es, n,
{
    if n == 0 || n > es.len() {
        lemma_same(ok, s, s);
    } else {
        let a = lower_branch(cx, s, es, (n - 1) as nat, depth).0;
        lemma_lower_branch(ok, cx, s, es, (n - 1) as nat, depth);
        lemma_lower(ok, cx, a, es[n - 1], depth);
        lemma_then(ok, s, a, lower_branch(cx, s, es, n, depth).0, 0, 0);
    }
}

pub(crate) proof fn lemma_lower_all(ok: bool, cx: ContractV, s: EmitV, es: Seq<ExprV>, n: nat, depth: nat)
    requires
        ok ==> countable_ledger(cx),
    ensures
        grows(ok, s, lower_all(cx, s, es, n, depth).0, 0),
    decreases depth, es, n,
{
    if n == 0 || n > es.len() {
        lemma_same(ok, s, s);
    } else {
        let (a, ws) = lower_all(cx, s, es, (n - 1) as nat, depth);
        lemma_lower_all(ok, cx, s, es, (n - 1) as nat, depth);
        if ws is Some {
            lemma_lower(ok, cx, a, es[n - 1], depth);
            lemma_then(ok, s, a, lower_all(cx, s, es, n, depth).0, 0, 0);
        }
    }
}

pub(crate) proof fn lemma_lower_run(
    ok: bool,
    cx: ContractV,
    s: EmitV,
    es: Seq<ExprV>,
    n: nat,
    what: Seq<char>,
    depth: nat,
)
    requires
        ok ==> countable_ledger(cx),
    ensures
        grows(ok, s, lower_run(cx, s, es, n, what, depth).0, 0),
    decreases depth, es, n,
{
    if n == 0 || n > es.len() {
        lemma_same(ok, s, s);
    } else {
        let (a, run) = lower_run(cx, s, es, (n - 1) as nat, what, depth);
        lemma_lower_run(ok, cx, s, es, (n - 1) as nat, what, depth);
        if run is Some {
            let w = lower(cx, a, es[n - 1], depth);
            lemma_lower(ok, cx, a, es[n - 1], depth);
            lemma_then(ok, s, a, w.0, 0, 0);
            lemma_run_step(ok, s, a.next_index, w, run->0, what);
        }
    }
}

pub(crate) proof fn lemma_lower_fields(
    ok: bool,
    cx: ContractV,
    s: EmitV,
    fs: Seq<(Seq<char>, ExprV)>,
    order: Seq<int>,
    n: nat,
    depth: nat,
)
    requires
        ok ==> countable_ledger(cx),
    ensures
        grows(ok, s, lower_fields(cx, s, fs, order, n, depth).0, 0),
    decreases depth, fs, n,
{
    if n == 0 || n > order.len() {
        lemma_same(ok, s, s);
    } else {
        let (a, run) = lower_fields(cx, s, fs, order, (n - 1) as nat, depth);
        lemma_lower_fields(ok, cx, s, fs, order, (n - 1) as nat, depth);
        if run is Some && 0 <= order[n - 1] < fs.len() {
            let w = lower(cx, a, fs[order[n - 1]].1, depth);
            lemma_lower(ok, cx, a, fs[order[n - 1]].1, depth);
            lemma_then(ok, s, a, w.0, 0, 0);
            lemma_run_step(ok, s, a.next_index, w, run->0, "struct literal"@);
        }
    }
}

pub(crate) proof fn lemma_lower_path_root(ok: bool, cx: ContractV, s: EmitV, args: Seq<ExprV>, depth: nat)
    requires
        ok ==> countable_ledger(cx),
    ensures
        grows(ok, s, lower_path_root(cx, s, args, depth).0, 0),
    decreases depth, args, 0nat,
{
    let r = lower_path_root(cx, s, args, depth).0;
    if args.len() == 0 || path_argument(cx, args[0]) is Err {
        lemma_fail(ok, s, r.errors.last());
    } else {
        let (h, n) = path_argument(cx, args[0])->Ok_0;
        let (a, first) = lower(cx, s, args[0], depth);
        lemma_lower(ok, cx, s, args[0], depth);
        if first is Some {
            lemma_path_root(ok, a, first->0, h, n);
            lemma_then(ok, s, a, r, 0, 0);
        }
    }
}

pub(crate) proof fn lemma_lower_arg(ok: bool, cx: ContractV, s: EmitV, args: Seq<ExprV>, i: nat, depth: nat)
    requires
        ok ==> countable_ledger(cx),
    ensures
        grows(ok, s, lower_arg(cx, s, args, i, depth).0, 0),
    decreases depth, args, 0nat,
{
    if i < args.len() {
        lemma_lower(ok, cx, s, args[i as int], depth);
    } else {
        lemma_same(ok, s, s);
    }
}

pub(crate) proof fn lemma_lower_cell(
    ok: bool,
    cx: ContractV,
    s: EmitV,
    slot: u8,
    ty: Option<TyV>,
    field: Seq<char>,
    method: Seq<char>,
    args: Seq<ExprV>,
    depth: nat,
)
    requires
        ok ==> countable_ledger(cx),
        ok ==> (ty matches Some(t) ==> countable_field(cx, t)),
    ensures
        grows(ok, s, lower_cell_method(cx, s, slot, ty, field, method, args, depth).0, 0),
    decreases depth, args, 1nat,
{
    let r = lower_cell_method(cx, s, slot, ty, field, method, args, depth).0;
    if method == "increment"@ || method == "increment_by"@ {
        match increment_amount(args) {
            Some(n) => lemma_counter_increment(ok, s, slot, n),
            None => lemma_fail(ok, s, r.errors.last()),
        }
    } else if method == "get"@ || method == "value"@ || method == "__direct_access"@ {
        lemma_ledger_read(
            ok,
            cx,
            s,
            slot,
            match ty {
                Some(t) => read_type(t),
                None => None,
            },
        );
    } else if method == "set"@ || method == "insert"@ {
        let (a, first) = lower_arg(cx, s, args, 0, depth);
        lemma_lower_arg(ok, cx, s, args, 0, depth);
        if ok {
            lemma_held(cx, slot);
        }
        lemma_ledger_write(ok, cx, a, slot, written_wires(cx, slot, first));
        lemma_then(ok, s, a, r, 0, 0);
    } else {
        lemma_fail(ok, s, r.errors.last());
    }
}

proof fn lemma_wires_whole(f: u32, e: crate::nocturne_type::EncodingV)
    requires
        countable(e),
    ensures
        is_whole(wires(f, e.value_field_count), e),
{
}

pub(crate) proof fn lemma_lower_map(
    ok: bool,
    cx: ContractV,
    s: EmitV,
    slot: u8,
    k: TyV,
    v: TyV,
    method: Seq<char>,
    args: Seq<ExprV>,
    depth: nat,
)
    requires
        ok ==> countable_ledger(cx),
        ok ==> countable_type(cx, k),
        ok ==> countable_type(cx, v),
    ensures
        grows(ok, s, lower_map_method(cx, s, slot, k, v, method, args, depth).0, 0),
    decreases depth, args, 1nat,
{
    let r = lower_map_method(cx, s, slot, k, v, method, args, depth).0;
    let (a, first) = lower_arg(cx, s, args, 0, depth);
    lemma_lower_arg(ok, cx, s, args, 0, depth);
    match value_encoding(type_ctx(cx), k) {
        None => lemma_fail(ok, s, r.errors.last()),
        Some(ke) => {
            if first is Some {
                if ok {
                    lemma_wires_whole(first->0, ke);
                }
            }
            if method == "contains"@ {
                if first is Some {
                    lemma_map_member(ok, a, slot, wires(first->0, ke.value_field_count), ke);
                    lemma_then(ok, s, a, r, 0, 0);
                }
            } else if method == "insert"@ || method == "set"@ {
                match value_encoding(type_ctx(cx), v) {
                    None => lemma_fail(ok, s, r.errors.last()),
                    Some(ve) => {
                        if first is Some {
                            let (b, vf) = lower_arg(cx, a, args, 1, depth);
                            lemma_lower_arg(ok, cx, a, args, 1, depth);
                            lemma_then(ok, s, a, b, 0, 0);
                            if vf is Some {
                                if ok {
                                    lemma_wires_whole(vf->0, ve);
                                }
                                lemma_map_insert(
                                    ok,
                                    b,
                                    slot,
                                    wires(first->0, ke.value_field_count),
                                    ke,
                                    wires(vf->0, ve.value_field_count),
                                    ve,
                                );
                                lemma_then(ok, s, b, r, 0, 0);
                            }
                        }
                    }
                }
            } else if method == "remove"@ {
                if first is Some {
                    lemma_map_remove(ok, a, slot, wires(first->0, ke.value_field_count), ke);
                    lemma_then(ok, s, a, r, 0, 0);
                }
            } else if method == "lookup"@ {
                match value_encoding(type_ctx(cx), v) {
                    None => lemma_fail(ok, s, r.errors.last()),
                    Some(ve) => {
                        if first is Some {
                            lemma_map_lookup(ok, cx, a, slot, wires(first->0, ke.value_field_count), ke, v, ve);
                            lemma_then(ok, s, a, r, 0, 0);
                        }
                    }
                }
            } else {
                lemma_fail(ok, s, r.errors.last());
            }
        }
    }
}

pub(crate) proof fn lemma_lower_set(
    ok: bool,
    cx: ContractV,
    s: EmitV,
    slot: u8,
    elem: TyV,
    method: Seq<char>,
    args: Seq<ExprV>,
    depth: nat,
)
    requires
        ok ==> countable_ledger(cx),
        ok ==> countable_type(cx, elem),
    ensures
        grows(ok, s, lower_set_method(cx, s, slot, elem, method, args, depth).0, 0),
    decreases depth, args, 1nat,
{
    let r = lower_set_method(cx, s, slot, elem, method, args, depth).0;
    let (a, first) = lower_arg(cx, s, args, 0, depth);
    lemma_lower_arg(ok, cx, s, args, 0, depth);
    match value_encoding(type_ctx(cx), elem) {
        None => lemma_fail(ok, s, r.errors.last()),
        Some(ke) => {
            if first is Some {
                if ok {
                    lemma_wires_whole(first->0, ke);
                }
            }
            if method == "contains"@ || method == "member"@ {
                if first is Some {
                    lemma_map_member(ok, a, slot, wires(first->0, ke.value_field_count), ke);
                    lemma_then(ok, s, a, r, 0, 0);
                }
            } else if method == "insert"@ {
                if first is Some {
                    lemma_set_insert(ok, a, slot, wires(first->0, ke.value_field_count), ke);
                    lemma_then(ok, s, a, r, 0, 0);
                }
            } else if method == "remove"@ {
                if first is Some {
                    lemma_map_remove(ok, a, slot, wires(first->0, ke.value_field_count), ke);
                    lemma_then(ok, s, a, r, 0, 0);
                }
            } else {
                lemma_fail(ok, s, r.errors.last());
            }
        }
    }
}

pub(crate) proof fn lemma_lower_merkle(
    ok: bool,
    cx: ContractV,
    s: EmitV,
    slot: u8,
    method: Seq<char>,
    args: Seq<ExprV>,
    depth: nat,
)
    requires
        ok ==> countable_ledger(cx),
    ensures
        grows(ok, s, lower_merkle_method(cx, s, slot, method, args, depth).0, 0),
    decreases depth, args, 1nat,
{
    let r = lower_merkle_method(cx, s, slot, method, args, depth).0;
    let (a, first) = lower_arg(cx, s, args, 0, depth);
    lemma_lower_arg(ok, cx, s, args, 0, depth);
    if method == "check_root"@ {
        if first is Some {
            lemma_merkle_check_root(ok, a, slot, first->0);
            lemma_then(ok, s, a, r, 0, 0);
        }
    } else if method == "insert"@ {
        match slot_leaf_len(cx, slot) {
            None => lemma_fail(ok, s, r.errors.last()),
            Some(n) => {
                if first is Some {
                    lemma_merkle_insert(ok, a, slot, first->0, n);
                    lemma_then(ok, s, a, r, 0, 0);
                }
            }
        }
    } else {
        lemma_fail(ok, s, r.errors.last());
    }
}

pub(crate) proof fn lemma_lower_params(
    ok: bool,
    cx: ContractV,
    s: EmitV,
    params: Seq<ParamV>,
    args: Seq<ExprV>,
    n: nat,
    counter: u32,
    depth: nat,
)
    requires
        ok ==> countable_ledger(cx),
    ensures
        grows(ok, s, lower_params(cx, s, params, args, n, counter, depth).0, 0),
    decreases depth, args, n,
{
    if n == 0 || n > args.len() {
        lemma_same(ok, s, s);
    } else {
        let (a, good) = lower_params(cx, s, params, args, (n - 1) as nat, counter, depth);
        lemma_lower_params(ok, cx, s, params, args, (n - 1) as nat, counter, depth);
        if good {
            let (b, w) = lower(cx, a, args[n - 1], depth);
            let r = lower_params(cx, s, params, args, n, counter, depth).0;
            lemma_lower(ok, cx, a, args[n - 1], depth);
            lemma_then(ok, s, a, b, 0, 0);
            lemma_same(ok, b, r);
            lemma_then(ok, s, b, r, 0, 0);
        }
    }
}

pub(crate) proof fn lemma_lower_helper(ok: bool, cx: ContractV, s: EmitV, h: HelperV, args: Seq<ExprV>, depth: nat)
    requires
        ok ==> countable_ledger(cx),
    ensures
        grows(ok, s, lower_helper(cx, s, h, args, depth).0, 0),
    decreases depth, args, args.len() + 1,
{
    let r = lower_helper(cx, s, h, args, depth).0;
    if h.params.len() != args.len() {
        lemma_fail(ok, s, r.errors.last());
    } else {
        let counter = s.helper_counter;
        let a = EmitV { helper_counter: counter.wrapping_add(1), ..s };
        let (b, good) = lower_params(cx, a, h.params, args, args.len(), counter, depth);
        lemma_same(ok, s, a);
        lemma_lower_params(ok, cx, a, h.params, args, args.len(), counter, depth);
        lemma_then(ok, s, a, b, 0, 0);
        if good {
            if depth == 0 {
                lemma_fail(ok, b, r.errors.last());
                lemma_then(ok, s, b, r, 0, 0);
            } else {
                let body = renamed_list(
                    h.body,
                    h.body.len(),
                    param_names(h.params, h.params.len(), counter),
                    counter,
                    h.params.len() as u32,
                ).exprs;
                let inner = EmitV { in_helper: true, ..b };
                let c = lower_seq(cx, inner, body, body.len(), (depth - 1) as nat).0;
                lemma_lower_seq(ok, cx, inner, body, body.len(), (depth - 1) as nat);
                lemma_in_helper(ok, b, inner, c, r);
                lemma_then(ok, s, b, r, 0, 0);
            }
        }
    }
}

/// Growth does not depend on whether a helper is being spliced.
proof fn lemma_in_helper(ok: bool, b: EmitV, inner: EmitV, c: EmitV, r: EmitV)
    requires
        inner == (EmitV { in_helper: true, ..b }),
        r == (EmitV { in_helper: b.in_helper, ..c }),
        grows(ok, inner, c, 0),
    ensures
        grows(ok, b, r, 0),
{
    reveal(continues);
    assert forall|p: int| b.instructions.len() <= p < r.instructions.len() implies #[trigger] placed(b, r, p) by {
        assert(placed(inner, c, p));
        if covered(inner, c, p) {
            let k = choose|k: int|
                inner.branch_spans.len() <= k < c.branch_spans.len() && (#[trigger] c.branch_spans[k]).0 <= p
                    < c.branch_spans[k].1;
            assert(r.branch_spans[k] == c.branch_spans[k]);
            assert(covered(b, r, p));
        }
        if covered(b, r, p) {
            let k = choose|k: int|
                b.branch_spans.len() <= k < r.branch_spans.len() && (#[trigger] r.branch_spans[k]).0 <= p
                    < r.branch_spans[k].1;
            assert(c.branch_spans[k] == r.branch_spans[k]);
            assert(covered(inner, c, p));
        }
    }
}

// ---- circuits

proof fn lemma_param_constraint(ok: bool, cx: ContractV, s: EmitV, var: u32, t: TyV)
    ensures
        grows(ok, s, param_constraint(cx, s, var, t), 0),
{
    let r = param_constraint(cx, s, var, t);
    if r.errors.len() > s.errors.len() {
        reveal(put);
        lemma_fail(ok, s, r.errors.last());
    } else if r == s {
        lemma_same(ok, s, s);
    } else {
        let text = crate::text::no_spaces(t.text);
        if text == "Boolean"@ || text == "bool"@ {
            lemma_put(ok, s, InstructionV::ConstrainToBoolean { var });
        } else if crate::typing::uint_bits(text) is Some {
            lemma_put(ok, s, InstructionV::ConstrainBits { var, bits: crate::typing::uint_bits(text)->0 });
        } else if crate::nocturne_type::bytes_len(text) is Some {
            let n = crate::nocturne_type::bytes_len(text)->0;
            lemma_put(ok, s, InstructionV::ConstrainBits { var, bits: (n * 8) as u32 });
        }
    }
}

proof fn lemma_constraints(ok: bool, cx: ContractV, s: EmitV, params: Seq<ParamV>, n: nat)
    ensures
        grows(ok, s, with_constraints(cx, s, params, n), 0),
    decreases n,
{
    if n == 0 || n > params.len() {
        lemma_same(ok, s, s);
    } else {
        let a = with_constraints(cx, s, params, (n - 1) as nat);
        lemma_constraints(ok, cx, s, params, (n - 1) as nat);
        lemma_param_constraint(ok, cx, a, (n - 1) as u32, params[n - 1].ty);
        lemma_then(ok, s, a, with_constraints(cx, s, params, n), 0, 0);
    }
}

proof fn lemma_params(params: Seq<ParamV>, n: nat)
    ensures
        with_params(start_state(), params, n).next_index == with_params(start_state(), params, n).num_inputs,
        with_params(start_state(), params, n) == (EmitV {
            next_index: with_params(start_state(), params, n).next_index,
            num_inputs: with_params(start_state(), params, n).num_inputs,
            variables: with_params(start_state(), params, n).variables,
            ..start_state()
        }),
    decreases n,
{
    if n > 0 && n <= params.len() {
        lemma_params(params, (n - 1) as nat);
    }
}

/// The state in which the always-true guard has just been loaded.
pub open spec fn guarded_start(c: CircuitV) -> EmitV {
    let (a, guard) = load(with_params(start_state(), c.params, c.params.len()), 1);
    EmitV { guard, ..a }
}

proof fn lemma_guarded_start(c: CircuitV)
    ensures
        guarded_start(c).instructions == seq![InstructionV::LoadImm { imm: crate::zkir::imm(1) }],
        guarded_start(c).guard == guarded_start(c).num_inputs,
        !guarded_start(c).in_conditional,
        guarded_start(c).branch_spans.len() == 0,
        guarded_start(c).errors.len() == 0,
        slack(guarded_start(c)) == guarded_start(c).num_inputs,
        unclaimed(guarded_start(c).instructions) == 0,
{
    reveal(emit);
    lemma_params(c.params, c.params.len());
    let none = Seq::<InstructionV>::empty();
    let i = InstructionV::LoadImm { imm: crate::zkir::imm(1) };
    lemma_sums_push(none, i);
    assert(none.push(i) =~= seq![i]);
    assert(guarded_start(c).instructions =~= seq![i]);
}

pub(crate) proof fn lemma_checked_list(errors: Seq<Seq<char>>, es: Seq<ExprV>, n: nat, tail: bool)
    ensures
        errors.len() <= checked_list(errors, es, n, tail).len(),
        forall|p: int| 0 <= p < errors.len() ==> #[trigger] checked_list(errors, es, n, tail)[p] == errors[p],
    decreases es, n,
{
    if n > 0 && n <= es.len() {
        let a = checked_list(errors, es, (n - 1) as nat, tail);
        lemma_checked_list(errors, es, (n - 1) as nat, tail);
        lemma_checked(a, es[n - 1], tail && n == es.len());
        assert forall|p: int| 0 <= p < errors.len() implies #[trigger] checked_list(errors, es, n, tail)[p]
            == errors[p] by {
            assert(a[p] == errors[p]);
        }
    }
}

proof fn lemma_checked(errors: Seq<Seq<char>>, e: ExprV, tail: bool)
    ensures
        errors.len() <= checked_returns(errors, e, tail).len(),
        forall|p: int| 0 <= p < errors.len() ==> #[trigger] checked_returns(errors, e, tail)[p] == errors[p],
    decreases e, 0nat,
{
    match e {
        ExprV::Block { stmts, .. } => lemma_checked_list(errors, stmts, stmts.len(), tail),
        ExprV::If { cond, then_branch, else_branch, .. } => {
            let a = complain(errors, has_return(*cond));
            let b = checked_list(a, then_branch, then_branch.len(), tail);
            lemma_checked_list(a, then_branch, then_branch.len(), tail);
            assert forall|p: int| 0 <= p < errors.len() implies #[trigger] b[p] == errors[p] by {
                assert(a[p] == errors[p]);
            }
            match else_branch {
                Some(eb) => {
                    lemma_checked_list(b, eb, eb.len(), tail);
                    assert forall|p: int| 0 <= p < errors.len() implies #[trigger] checked_returns(errors, e, tail)[p]
                        == errors[p] by {
                        assert(b[p] == errors[p]);
                    }
                }
                None => {}
            }
        }
        _ => {}
    }
}

pub(crate) proof fn lemma_prologue_frame(cx: ContractV, c: CircuitV)
    ensures
        !circuit_prologue(cx, c).in_helper,
{
    let s = guarded_start(c);
    lemma_constraints(false, cx, s, c.params, c.params.len());
    lemma_params(c.params, c.params.len());
    reveal(emit);
}

/// The state behind a circuit's body.
pub open spec fn body_end(cx: ContractV, c: CircuitV) -> EmitV {
    lower_seq(cx, circuit_prologue(cx, c), c.body, c.body.len(), cx.helpers.len()).0
}

proof fn lemma_body(cx: ContractV, c: CircuitV)
    ensures
        grows(countable_ledger(cx), guarded_start(c), body_end(cx, c), 0),
{
    let ok = countable_ledger(cx);
    let s = guarded_start(c);
    let b = with_constraints(cx, s, c.params, c.params.len());
    let p = circuit_prologue(cx, c);
    lemma_constraints(ok, cx, s, c.params, c.params.len());
    assert(grows(ok, b, p, 0)) by {
        reveal(continues);
        lemma_checked_list(b.errors, c.body, c.body.len(), true);
    }
    lemma_then(ok, s, b, p, 0, 0);
    lemma_lower_seq(ok, cx, p, c.body, c.body.len(), cx.helpers.len());
    lemma_then(ok, s, p, body_end(cx, c), 0, 0);
}

// ---- the laws

/// Whether a branch of the circuit holds the instruction at position `p`.
pub open spec fn in_branch(cx: ContractV, c: CircuitV, p: int) -> bool {
    let spans = circuit_output(cx, c).branch_spans;
    exists|k: int| 0 <= k < spans.len() && (#[trigger] spans[k]).0 <= p < spans[k].1
}

/// The circuit's instructions.
pub open spec fn instructions_of(cx: ContractV, c: CircuitV) -> Seq<InstructionV> {
    circuit_output(cx, c).ir_source.instructions
}

/// What holds of every instruction behind the first, before the output.
proof fn lemma_placed(cx: ContractV, c: CircuitV, p: int)
    requires
        0 <= p < instructions_of(cx, c).len(),
    ensures
        p < body_end(cx, c).instructions.len() ==> instructions_of(cx, c)[p] == body_end(cx, c).instructions[p],
        p >= body_end(cx, c).instructions.len() ==> instructions_of(cx, c)[p] is Output,
        0 < p < body_end(cx, c).instructions.len() ==> placed(guarded_start(c), body_end(cx, c), p),
        body_end(cx, c).instructions.len() >= 1,
        body_end(cx, c).instructions[0] is LoadImm,
        in_branch(cx, c, p) == covered(guarded_start(c), body_end(cx, c), p),
        circuit_output(cx, c).branch_spans == body_end(cx, c).branch_spans,
{
    let s = guarded_start(c);
    let t = body_end(cx, c);
    lemma_body(cx, c);
    lemma_guarded_start(c);
    reveal(continues);
    reveal(put);
    assert(t.instructions[0] == s.instructions[0]);
    if covered(s, t, p) {
        let k = choose|k: int|
            s.branch_spans.len() <= k < t.branch_spans.len() && (#[trigger] t.branch_spans[k]).0 <= p
                < t.branch_spans[k].1;
        assert(circuit_output(cx, c).branch_spans[k].0 <= p);
    }
    if in_branch(cx, c, p) {
        let spans = circuit_output(cx, c).branch_spans;
        let k = choose|k: int| 0 <= k < spans.len() && (#[trigger] spans[k]).0 <= p < spans[k].1;
        assert(t.branch_spans[k].0 <= p);
    }
}

/// A transcript read carries a guard exactly when a branch holds it. Without
/// one, an inactive branch would consume a transcript entry; with one outside,
/// an active read could be skipped.
pub proof fn reads_are_guarded_iff_in_a_branch(cx: ContractV, c: CircuitV, p: int)
    requires
        0 <= p < instructions_of(cx, c).len(),
        is_io(instructions_of(cx, c)[p]),
    ensures
        guard_of(instructions_of(cx, c)[p]) is Some <==> in_branch(cx, c, p),
{
    lemma_placed(cx, c, p);
    lemma_guarded_start(c);
}

/// The wire that the instruction at position `q` of a circuit fills: the
/// circuit's inputs come first, then the cells in order.
pub open spec fn wire_at(cx: ContractV, c: CircuitV, q: int) -> int {
    (circuit_output(cx, c).ir_source.num_inputs + cells(instructions_of(cx, c).take(q))) % 0x1_0000_0000
}

/// Every public input declared inside a branch is the result of the selection
/// right before it, which zeroes it where the branch is inactive.
pub proof fn conditional_inputs_are_selected(cx: ContractV, c: CircuitV, p: int)
    requires
        0 <= p < instructions_of(cx, c).len(),
        instructions_of(cx, c)[p] is DeclarePubInput,
        in_branch(cx, c, p),
    ensures
        p > 0,
        instructions_of(cx, c)[p - 1] is CondSelect,
        instructions_of(cx, c)[p]->DeclarePubInput_var == wire_at(cx, c, p - 1),
{
    lemma_placed(cx, c, p);
    lemma_guarded_start(c);
    lemma_placed(cx, c, p - 1);
    let t = body_end(cx, c);
    assert(instructions_of(cx, c).take(p - 1) =~= t.instructions.take(p - 1)) by {
        reveal(put);
    }
    lemma_body(cx, c);
    assert(slack(t) == slack(guarded_start(c)) && t.num_inputs == guarded_start(c).num_inputs) by {
        reveal(continues);
    }
    assert(circuit_output(cx, c).ir_source.num_inputs == t.num_inputs) by {
        reveal(put);
    }
}

/// Outside branches, every group of public inputs is under the always-true
/// guard, the wire right behind the circuit's inputs.
pub proof fn unconditional_groups_are_always_active(cx: ContractV, c: CircuitV, p: int)
    requires
        0 <= p < instructions_of(cx, c).len(),
        instructions_of(cx, c)[p] is PiSkip,
        !in_branch(cx, c, p),
    ensures
        instructions_of(cx, c)[p]->PiSkip_guard == Some(circuit_output(cx, c).ir_source.num_inputs),
{
    lemma_placed(cx, c, p);
    lemma_guarded_start(c);
    lemma_body(cx, c);
    reveal(put);
}

/// In a circuit without errors, every declared public input belongs to one
/// group: the declarations are as many as the groups claim together.
pub proof fn every_input_belongs_to_one_group(cx: ContractV, c: CircuitV)
    requires
        countable_ledger(cx),
        lowered_circuit(cx, c).errors.len() == 0,
    ensures
        unclaimed(instructions_of(cx, c)) == 0,
{
    lemma_body(cx, c);
    lemma_guarded_start(c);
    reveal(continues);
    reveal(put);
    let t = body_end(cx, c);
    let last = lower_seq(cx, circuit_prologue(cx, c), c.body, c.body.len(), cx.helpers.len()).1;
    if c.return_type is Some && last is Some {
        lemma_sums_push(t.instructions, InstructionV::Output { var: last->0 });
    }
}

/// A circuit's output is its last instruction, and its only one: a circuit
/// with a return type and no errors has one, a circuit without a return type
/// has none.
pub proof fn one_output_at_the_end(cx: ContractV, c: CircuitV, p: int)
    requires
        0 <= p < instructions_of(cx, c).len(),
    ensures
        instructions_of(cx, c)[p] is Output ==> c.return_type is Some && p == instructions_of(cx, c).len() - 1,
        c.return_type is Some && lowered_circuit(cx, c).errors.len() == 0 ==> instructions_of(
            cx,
            c,
        ).last() is Output,
{
    lemma_placed(cx, c, p);
    lemma_placed(cx, c, instructions_of(cx, c).len() - 1);
    lemma_guarded_start(c);
    reveal(put);
}

/// Wires are numbered as instructions fill them: behind the body, the next
/// wire is the number of inputs and of cells filled, in 32-bit arithmetic.
pub proof fn wires_count_inputs_and_cells(cx: ContractV, c: CircuitV)
    ensures
        (body_end(cx, c).next_index - cells(body_end(cx, c).instructions)) % 0x1_0000_0000
            == circuit_output(cx, c).ir_source.num_inputs,
{
    lemma_body(cx, c);
    lemma_guarded_start(c);
    reveal(continues);
    reveal(put);
}

/// Errors are never lost: a failed part of a circuit shows in the whole.
pub proof fn errors_are_kept(cx: ContractV, s: EmitV, e: ExprV, depth: nat)
    ensures
        s.errors.len() <= lower(cx, s, e, depth).0.errors.len(),
        lower(cx, s, e, depth).0.errors.take(s.errors.len() as int) =~= s.errors,
{
    lemma_lower(false, cx, s, e, depth);
    reveal(continues);
}

/// Lowering an expression leaves the guard, and whether a branch or a helper
/// is being lowered, as they were.
pub proof fn place_is_restored(cx: ContractV, s: EmitV, e: ExprV, depth: nat)
    ensures
        same_frame(s, lower(cx, s, e, depth).0),
{
    lemma_lower(false, cx, s, e, depth);
}

/// `disclose` marks a value and adds nothing to the circuit.
pub proof fn disclose_is_transparent(cx: ContractV, s: EmitV, span: crate::syntax::Span, value: ExprV, depth: nat)
    ensures
        lower(cx, s, ExprV::Disclose { span, value: Box::new(value) }, depth) == lower(cx, s, value, depth),
{
}

/// A witness field first read inside a branch cannot be read again.
pub proof fn guarded_field_is_read_once(
    cx: ContractV,
    s: EmitV,
    span: crate::syntax::Span,
    field: Seq<char>,
    depth: nat,
)
    requires
        s.guarded_witness_fields.contains(field),
        !s.variables.contains_key(crate::lowering::witness_key(field)),
    ensures
        lower(cx, s, ExprV::WitnessAccess { span, field }, depth).1 is None,
        lower(cx, s, ExprV::WitnessAccess { span, field }, depth).0.errors.len() == s.errors.len() + 1,
{
}

} // verus!
