//! The operations of the transcript builder against the groups of public
//! inputs that the circuit declares.
use crate::contract::{ContractV, ParamV};
use crate::emission::{addi_op, common_width, declare, declare_all, declare_atoms, emit, find_helper, idx_op};
use crate::emission::{io_guard, key_repr, leaf_hash, load, load_zero, method_type, op, path_fold, popeq_bool};
use crate::emission::{private_block, push_cell, push_null, put, read_elements, renamed_list, skip, type_ctx};
use crate::emission::{witness_layout, witness_type, wraps_value, EmitV};
use crate::expr::{AssertV, BinOp, ExprV};
use crate::ledger_free::{all_ledger_free, fields_ledger_free, ledger_free, ledger_free_helpers, lemma_helper_body};
use crate::ledger_free::lemma_renamed_list_free;
use crate::lowering::{binary, close_branch, else_guard, enter_branch, evaluation_order, leave_if, lower, lower_all};
use crate::lowering::{lower_arg, lower_branch, lower_fields, lower_helper, lower_params, lower_path_root, lower_run};
use crate::lowering::{lower_seq, negated, param_names, path_argument, path_root, subtract, then_guard};
use crate::nocturne_type::{EncodingV, FrLayout};
use crate::zkir::{imm, output_count, Imm, InstructionV};
use vstd::prelude::*;

verus! {

// ---- groups of public inputs by their opcodes

/// Where a list of instructions stands: the next wire, the constants that
/// wires hold where their branch is active, the first input of the group that
/// is open, and every group behind.
pub struct GroupsV {
    pub next: u32,
    pub value: Map<u32, Imm>,
    pub open: Option<Option<Imm>>,
    pub closed: Seq<GroupV>,
}

/// A group of public inputs: its first input, where that is a constant, and
/// the wire that tells whether the group is active.
pub struct GroupV {
    pub code: Option<Imm>,
    pub guard: Option<u32>,
}

/// The group of an operation, under a guard.
pub open spec fn group(code: int, guard: u32) -> GroupV {
    GroupV { code: Some(imm(code)), guard: Some(guard) }
}

pub open spec fn constant(g: GroupsV, wire: u32) -> Option<Imm> {
    if g.value.contains_key(wire) {
        Some(g.value[wire])
    } else {
        None
    }
}

pub open spec fn step(g: GroupsV, i: InstructionV) -> GroupsV {
    match i {
        InstructionV::LoadImm { imm } => GroupsV {
            next: g.next.wrapping_add(1),
            value: g.value.insert(g.next, imm),
            ..g
        },
        InstructionV::CondSelect { a, .. } => GroupsV {
            next: g.next.wrapping_add(1),
            value: match constant(g, a) {
                Some(imm) => g.value.insert(g.next, imm),
                None => g.value.remove(g.next),
            },
            ..g
        },
        InstructionV::DeclarePubInput { var } => if g.open is None {
            GroupsV { open: Some(constant(g, var)), ..g }
        } else {
            g
        },
        InstructionV::PiSkip { guard, .. } => GroupsV {
            open: None,
            closed: g.closed.push(
                GroupV {
                    code: match g.open {
                        Some(code) => code,
                        None => None,
                    },
                    guard,
                },
            ),
            ..g
        },
        _ => GroupsV {
            next: g.next.wrapping_add(output_count(i)),
            value: if output_count(i) == 0 {
                g.value
            } else if output_count(i) == 1 {
                g.value.remove(g.next)
            } else {
                g.value.remove(g.next).remove(g.next.wrapping_add(1))
            },
            ..g
        },
    }
}

/// The groups of a list of instructions whose first cell is the wire `first`.
pub open spec fn groups(first: u32, is: Seq<InstructionV>) -> GroupsV
    decreases is.len(),
{
    if is.len() == 0 {
        GroupsV { next: first, value: Map::empty(), open: None, closed: seq![] }
    } else {
        step(groups(first, is.drop_last()), is.last())
    }
}

/// The groups that lie between two states of a lowering.
pub open spec fn groups_between(s: EmitV, t: EmitV) -> Seq<GroupV> {
    groups(s.next_index, t.instructions.skip(s.instructions.len() as int)).closed
}

/// The groups behind the first `b` instructions, whose next wire was `w`.
pub open spec fn progress(b: nat, w: u32, s: EmitV) -> GroupsV {
    groups(w, s.instructions.skip(b as int))
}

/// The wires are counted alike.
pub open spec fn in_step(b: nat, w: u32, s: EmitV) -> bool {
    b <= s.instructions.len() && progress(b, w, s).next == s.next_index
}

/// No group is open.
pub open spec fn ready(b: nat, w: u32, s: EmitV) -> bool {
    in_step(b, w, s) && progress(b, w, s).open is None
}

/// The group that is open begins with the constant `c`.
pub open spec fn opened(b: nat, w: u32, s: EmitV, c: Imm) -> bool {
    in_step(b, w, s) && progress(b, w, s).open == Some(Some(c))
}

/// From `s` to `t` no group is opened or closed.
pub open spec fn idle(b: nat, w: u32, s: EmitV, t: EmitV) -> bool {
    ready(b, w, s) ==> ready(b, w, t) && progress(b, w, t).closed == progress(b, w, s).closed
}

/// From `s` to `t` the open group stays open.
pub open spec fn within(b: nat, w: u32, s: EmitV, t: EmitV) -> bool {
    &&& t.guard == s.guard
    &&& in_step(b, w, s) && progress(b, w, s).open is Some ==> in_step(b, w, t) && progress(b, w, t).open == progress(
        b,
        w,
        s,
    ).open && progress(b, w, t).closed == progress(b, w, s).closed
}

/// From `s` to `t` one group is added, with the given opcode and the guard of
/// the place.
pub open spec fn adds(b: nat, w: u32, s: EmitV, t: EmitV, code: int) -> bool {
    ready(b, w, s) ==> ready(b, w, t) && t.guard == s.guard && progress(b, w, t).closed == progress(
        b,
        w,
        s,
    ).closed.push(group(code, s.guard))
}

pub(crate) broadcast proof fn lemma_emit_step(b: nat, w: u32, s: EmitV, i: InstructionV)
    ensures
        b <= s.instructions.len() ==> (#[trigger] progress(b, w, emit(s, i).0)) == step(progress(b, w, s), i),
        emit(s, i).0.next_index == s.next_index.wrapping_add(output_count(i)),
        emit(s, i).0.instructions.len() == s.instructions.len() + 1,
        emit(s, i).0.guard == s.guard,
{
    reveal(emit);
    if b <= s.instructions.len() {
        let after = s.instructions.push(i).skip(b as int);
        assert(after.drop_last() =~= s.instructions.skip(b as int));
        assert(after.last() == i);
    }
}

pub(crate) broadcast proof fn lemma_put_step(b: nat, w: u32, s: EmitV, i: InstructionV)
    ensures
        b <= s.instructions.len() ==> (#[trigger] progress(b, w, put(s, i))) == step(progress(b, w, s), i),
        put(s, i).next_index == s.next_index,
        put(s, i).instructions.len() == s.instructions.len() + 1,
        put(s, i).guard == s.guard,
{
    reveal(put);
    if b <= s.instructions.len() {
        let after = s.instructions.push(i).skip(b as int);
        assert(after.drop_last() =~= s.instructions.skip(b as int));
        assert(after.last() == i);
    }
}

pub(crate) broadcast group steps {
    lemma_emit_step,
    lemma_put_step,
}

/// A declaration, as a step over the selection in front of it.
pub(crate) proof fn lemma_declare_step(b: nat, w: u32, s: EmitV, v: u32)
    ensures
        b <= s.instructions.len() ==> ({
            let g = progress(b, w, s);
            let t = declare(s, v);
            &&& b <= t.instructions.len()
            &&& g.next == s.next_index ==> {
                &&& progress(b, w, t).next == t.next_index
                &&& progress(b, w, t).closed == g.closed
                &&& progress(b, w, t).open == (if g.open is None && s.next_index != v {
                    Some(constant(g, v))
                } else if g.open is None {
                    progress(b, w, t).open
                } else {
                    g.open
                })
            }
        }),
        declare(s, v).guard == s.guard,
{
    broadcast use steps;

    reveal(declare);
    reveal(emit);
    reveal(put);
    if b <= s.instructions.len() && s.in_conditional {
        let (a, zero) = load_zero(s);
        if s.zero_var is None {
            assert(progress(b, w, a) == progress(b, w, load(s, 0).0));
        }
        let select = InstructionV::CondSelect { bit: s.guard, a: v, b: zero };
        let (c, x) = emit(a, select);
        assert(progress(b, w, c) == step(progress(b, w, a), select));
        assert(x == a.next_index);
        assert(declare(s, v) == put(c, InstructionV::DeclarePubInput { var: x }));
    }
}

/// The first input of a group is declared.
pub(crate) proof fn lemma_opens(b: nat, w: u32, s: EmitV, v: u32, c: Imm)
    requires
        ready(b, w, s),
        constant(progress(b, w, s), v) == Some(c),
        s.next_index != v,
    ensures
        opened(b, w, declare(s, v), c),
        progress(b, w, declare(s, v)).closed == progress(b, w, s).closed,
        declare(s, v).guard == s.guard,
{
    lemma_declare_step(b, w, s, v);
}

pub(crate) broadcast proof fn lemma_within_declare(b: nat, w: u32, s: EmitV, v: u32)
    ensures
        #[trigger] within(b, w, s, declare(s, v)),
{
    lemma_declare_step(b, w, s, v);
}

pub(crate) proof fn lemma_within_key_repr(b: nat, w: u32, s: EmitV, key: u8)
    ensures
        within(b, w, s, key_repr(s, key)),
{
    broadcast use steps;

    reveal(key_repr);
    let (a, k) = load(s, key as int);
    let c = declare(a, s.guard);
    let d = declare(c, s.guard);
    lemma_within_declare(b, w, a, s.guard);
    lemma_within_declare(b, w, c, s.guard);
    lemma_within_declare(b, w, d, k);
}

pub(crate) proof fn lemma_within_declare_all(b: nat, w: u32, s: EmitV, vars: Seq<u32>, n: nat)
    ensures
        within(b, w, s, declare_all(s, vars, n)),
    decreases n,
{
    if n > 0 && n <= vars.len() {
        lemma_within_declare_all(b, w, s, vars, (n - 1) as nat);
        lemma_within_declare(b, w, declare_all(s, vars, (n - 1) as nat), vars[n - 1]);
    }
}

pub(crate) proof fn lemma_within_declare_atoms(b: nat, w: u32, s: EmitV, atoms: Seq<i32>, n: nat)
    ensures
        within(b, w, s, declare_atoms(s, atoms, n)),
    decreases n,
{
    broadcast use steps;

    if n > 0 && n <= atoms.len() {
        lemma_within_declare_atoms(b, w, s, atoms, (n - 1) as nat);
        let (a, v) = load(declare_atoms(s, atoms, (n - 1) as nat), atoms[n - 1] as int);
        lemma_within_declare(b, w, a, v);
    }
}

pub(crate) proof fn lemma_within_read_elements(b: nat, w: u32, s: EmitV, layout: Seq<Option<u32>>, n: nat)
    ensures
        within(b, w, s, read_elements(s, layout, n).0),
    decreases n,
{
    broadcast use steps;

    if n > 0 && n <= layout.len() {
        lemma_within_read_elements(b, w, s, layout, (n - 1) as nat);
        let a = read_elements(s, layout, (n - 1) as nat).0;
        let (c, v) = emit(a, InstructionV::PublicInput { guard: io_guard(s) });
        let d = match layout[n - 1] {
            Some(bits) => put(c, InstructionV::ConstrainBits { var: v, bits }),
            None => c,
        };
        lemma_within_declare(b, w, d, v);
    }
}

/// An opcode is loaded and declared: its group is open.
pub(crate) proof fn lemma_begins(b: nat, w: u32, s: EmitV, code: int)
    requires
        ready(b, w, s),
    ensures
        opened(b, w, declare(load(s, code).0, load(s, code).1), imm(code)),
        progress(b, w, declare(load(s, code).0, load(s, code).1)).closed == progress(b, w, s).closed,
        declare(load(s, code).0, load(s, code).1).guard == s.guard,
{
    broadcast use steps;

    let (a, o) = load(s, code);
    assert(o == s.next_index) by {
        reveal(emit);
    }
    lemma_opens(b, w, a, o, imm(code));
}

/// An open group is closed.
pub(crate) proof fn lemma_ends(b: nat, w: u32, s: EmitV, guard: u32, count: u32, c: Imm)
    requires
        opened(b, w, s, c),
    ensures
        ready(b, w, skip(s, guard, count)),
        progress(b, w, skip(s, guard, count)).closed == progress(b, w, s).closed.push(
            GroupV { code: Some(c), guard: Some(guard) },
        ),
        skip(s, guard, count).guard == s.guard,
{
    broadcast use steps;

}

pub(crate) broadcast proof fn lemma_adds_op(b: nat, w: u32, s: EmitV, code: int)
    ensures
        #[trigger] adds(b, w, s, op(s, code), code),
{
    reveal(op);
    if ready(b, w, s) {
        let (a, o) = load(s, code);
        lemma_begins(b, w, s, code);
        lemma_ends(b, w, declare(a, o), s.guard, 1, imm(code));
    }
}

pub(crate) proof fn lemma_adds_idx_op(b: nat, w: u32, s: EmitV, code: int, key: u8)
    ensures
        adds(b, w, s, idx_op(s, code, key), code),
{
    reveal(idx_op);
    if ready(b, w, s) {
        let (a, o) = load(s, code);
        lemma_begins(b, w, s, code);
        lemma_within_key_repr(b, w, declare(a, o), key);
        lemma_ends(b, w, key_repr(declare(a, o), key), s.guard, 4, imm(code));
    }
}

/// An opcode of two loaded constants is declared from the first.
pub(crate) proof fn lemma_begins_behind(b: nat, w: u32, s: EmitV, code: int, n: int)
    requires
        ready(b, w, s),
    ensures
        ({
            let (a, o) = load(s, code);
            let c = load(a, n).0;
            &&& opened(b, w, declare(c, o), imm(code))
            &&& progress(b, w, declare(c, o)).closed == progress(b, w, s).closed
            &&& declare(c, o).guard == s.guard
        }),
{
    broadcast use steps;

    let (a, o) = load(s, code);
    let c = load(a, n).0;
    assert(o == s.next_index) by {
        reveal(emit);
    }
    assert(ready(b, w, a) && constant(progress(b, w, a), o) == Some(imm(code)));
    assert(ready(b, w, c) && constant(progress(b, w, c), o) == Some(imm(code)));
    lemma_opens(b, w, c, o, imm(code));
}

pub(crate) proof fn lemma_adds_addi_op(b: nat, w: u32, s: EmitV, n: int)
    ensures
        adds(b, w, s, addi_op(s, n).0, 0x0e),
{
    reveal(addi_op);
    if ready(b, w, s) {
        let (a, o) = load(s, 0x0e);
        let (c, v) = load(a, n);
        lemma_begins_behind(b, w, s, 0x0e, n);
        lemma_within_declare(b, w, declare(c, o), v);
        lemma_ends(b, w, declare(declare(c, o), v), s.guard, 2, imm(0x0e));
    }
}

pub open spec fn push_opcode(storage: bool) -> int {
    if storage {
        0x11
    } else {
        0x10
    }
}

pub(crate) proof fn lemma_adds_push_cell(b: nat, w: u32, s: EmitV, vars: Seq<u32>, enc: Option<EncodingV>, storage: bool)
    ensures
        adds(b, w, s, push_cell(s, vars, enc, storage), push_opcode(storage)),
{
    broadcast use steps;

    reveal(push_cell);
    if ready(b, w, s) {
        let code = push_opcode(storage);
        let (a, o) = load(s, code);
        let d = declare(a, o);
        lemma_begins(b, w, s, code);
        if enc is Some && vars.len() == enc->0.value_field_count {
            let e = enc->0;
            let (c, disc) = load(d, 1);
            let c1 = declare(c, disc);
            lemma_within_declare(b, w, c, disc);
            let c2 = declare_atoms(c1, e.alignment_atoms, e.alignment_atoms.len());
            lemma_within_declare_atoms(b, w, c1, e.alignment_atoms, e.alignment_atoms.len());
            lemma_within_declare_all(b, w, c2, vars, vars.len());
            lemma_ends(
                b,
                w,
                declare_all(c2, vars, vars.len()),
                s.guard,
                (2 + e.alignment_atoms.len() + vars.len()) as u32,
                imm(code),
            );
        } else {
            if vars.len() > 0 {
                lemma_within_declare(b, w, d, vars[0]);
                lemma_ends(b, w, declare(d, vars[0]), s.guard, 2, imm(code));
            } else {
                lemma_ends(b, w, d, s.guard, 2, imm(code));
            }
        }
    }
}

pub(crate) proof fn lemma_adds_push_null(b: nat, w: u32, s: EmitV, storage: bool)
    ensures
        adds(b, w, s, push_null(s, storage), push_opcode(storage)),
{
    reveal(push_null);
    if ready(b, w, s) {
        let code = push_opcode(storage);
        let (a, o) = load(s, code);
        let (c, n) = load(a, 0);
        lemma_begins_behind(b, w, s, code, 0);
        lemma_within_declare(b, w, declare(c, o), n);
        lemma_ends(b, w, declare(declare(c, o), n), s.guard, 2, imm(code));
    }
}

pub(crate) proof fn lemma_adds_popeq_bool(b: nat, w: u32, s: EmitV)
    ensures
        adds(b, w, s, popeq_bool(s).0, 0x0d),
{
    broadcast use steps;

    reveal(popeq_bool);
    if ready(b, w, s) {
        let (a, o) = load(s, 0x0d);
        let (c, v) = emit(a, InstructionV::PublicInput { guard: io_guard(s) });
        assert(o == s.next_index) by {
            reveal(emit);
        }
        assert(ready(b, w, a) && constant(progress(b, w, a), o) == Some(imm(0x0d)));
        assert(ready(b, w, c) && constant(progress(b, w, c), o) == Some(imm(0x0d)));
        lemma_opens(b, w, c, o, imm(0x0d));
        let d = declare(c, o);
        let (e, one) = load(d, 1);
        let f = declare(e, one);
        let g = declare(f, one);
        let h = declare(g, v);
        lemma_within_declare(b, w, e, one);
        lemma_within_declare(b, w, f, one);
        lemma_within_declare(b, w, g, v);
        lemma_ends(b, w, h, s.guard, 4, imm(0x0d));
    }
}

// ---- lowering without the ledger

pub(crate) proof fn lemma_idle_path_root(b: nat, w: u32, s: EmitV, first: u32, h: u32, n: u32)
    ensures
        idle(b, w, s, path_root(s, first, h, n).0),
{
    broadcast use steps;

    reveal(leaf_hash);
    let (a, hash) = leaf_hash(s, first, n);
    lemma_idle_path_fold(
        b,
        w,
        a,
        hash.wrapping_add(1),
        first.wrapping_add(crate::nocturne_type::chunks(n) as u32),
        h as nat,
    );
}

pub(crate) proof fn lemma_idle_path_fold(b: nat, w: u32, s: EmitV, start: u32, base: u32, n: nat)
    ensures
        idle(b, w, s, path_fold(s, start, base, n).0),
    decreases n,
{
    broadcast use steps;

    if n > 0 {
        lemma_idle_path_fold(b, w, s, start, base, (n - 1) as nat);
    }
}

pub(crate) proof fn lemma_idle_private_block(b: nat, w: u32, s: EmitV, layout: Seq<FrLayout>, n: nat)
    ensures
        idle(b, w, s, private_block(s, layout, n).0),
    decreases n,
{
    broadcast use steps;

    if n > 0 && n <= layout.len() {
        lemma_idle_private_block(b, w, s, layout, (n - 1) as nat);
    }
}

proof fn lemma_idle_emit(b: nat, w: u32, s: EmitV, i: InstructionV)
    requires
        !(i is DeclarePubInput),
        !(i is PiSkip),
    ensures
        idle(b, w, s, emit(s, i).0),
{
    broadcast use steps;

}

proof fn lemma_idle_negated(b: nat, w: u32, s: EmitV, i: InstructionV)
    requires
        !(i is DeclarePubInput),
        !(i is PiSkip),
    ensures
        idle(b, w, s, negated(emit(s, i)).0),
{
    broadcast use steps;

}

proof fn lemma_idle_or(b: nat, w: u32, s: EmitV, l: u32, r: u32)
    ensures
        idle(b, w, s, binary(s, BinOp::Or, l, r, None).0),
{
    let (t, lr) = emit(s, InstructionV::Mul { a: l, b: r });
    let (u, sum) = emit(t, InstructionV::Add { a: l, b: r });
    let (v, neg) = emit(u, InstructionV::Neg { a: lr });
    lemma_idle_emit(b, w, s, InstructionV::Mul { a: l, b: r });
    lemma_idle_emit(b, w, t, InstructionV::Add { a: l, b: r });
    lemma_idle_emit(b, w, u, InstructionV::Neg { a: lr });
    lemma_idle_emit(b, w, v, InstructionV::Add { a: sum, b: neg });
}

#[verifier::rlimit(40)]
pub(crate) proof fn lemma_idle_binary(b: nat, w: u32, s: EmitV, op: BinOp, l: u32, r: u32, bits: Option<u32>)
    ensures
        idle(b, w, s, binary(s, op, l, r, bits).0),
{
    let less = |a: u32, b: u32| InstructionV::LessThan { a, b, bits: bits->0 };
    match op {
        BinOp::Add => lemma_idle_emit(b, w, s, InstructionV::Add { a: l, b: r }),
        BinOp::AddAssign => lemma_idle_emit(b, w, s, InstructionV::Add { a: l, b: r }),
        BinOp::Mul => lemma_idle_emit(b, w, s, InstructionV::Mul { a: l, b: r }),
        BinOp::MulAssign => lemma_idle_emit(b, w, s, InstructionV::Mul { a: l, b: r }),
        BinOp::And => lemma_idle_emit(b, w, s, InstructionV::Mul { a: l, b: r }),
        BinOp::Sub => lemma_idle_subtract(b, w, s, l, r),
        BinOp::SubAssign => lemma_idle_subtract(b, w, s, l, r),
        BinOp::Eq => lemma_idle_emit(b, w, s, InstructionV::TestEq { a: l, b: r }),
        BinOp::Ne => lemma_idle_negated(b, w, s, InstructionV::TestEq { a: l, b: r }),
        BinOp::Lt => lemma_idle_emit(b, w, s, less(l, r)),
        BinOp::Gt => lemma_idle_emit(b, w, s, less(r, l)),
        BinOp::Le => lemma_idle_negated(b, w, s, less(r, l)),
        BinOp::Ge => lemma_idle_negated(b, w, s, less(l, r)),
        BinOp::Or => lemma_idle_or(b, w, s, l, r),
        _ => {}
    }
}

proof fn lemma_idle_subtract(b: nat, w: u32, s: EmitV, l: u32, r: u32)
    ensures
        idle(b, w, s, subtract(s, l, r).0),
{
    broadcast use steps;

}

#[verifier::rlimit(60)]
pub(crate) proof fn lemma_idle(b: nat, w: u32, cx: ContractV, s: EmitV, e: ExprV, depth: nat)
    requires
        ledger_free_helpers(cx),
        ledger_free(e),
    ensures
        idle(b, w, s, lower(cx, s, e, depth).0),
    decreases depth, e, 1nat,
{
    match e {
        ExprV::WitnessAccess { field, .. } => match witness_type(cx, field) {
            Some(t) => {
                let layout = witness_layout(type_ctx(cx), t);
                lemma_idle_private_block(b, w, s, layout, layout.len());
            }
            None => {}
        },
        ExprV::WitnessCall { name, args, .. } => {
            let a = lower_seq(cx, s, args, args.len(), depth).0;
            lemma_idle_seq(b, w, cx, s, args, args.len(), depth);
            match method_type(cx, name) {
                Some(t) => {
                    let layout = witness_layout(type_ctx(cx), t);
                    lemma_idle_private_block(b, w, a, layout, layout.len());
                }
                None => {}
            }
        }
        ExprV::Literal { .. } => {
            broadcast use steps;

        }
        ExprV::Path { .. } => {
            broadcast use steps;

        }
        ExprV::EnumPayload { scrutinee, .. } => lemma_idle(b, w, cx, s, *scrutinee, depth),
        ExprV::BinaryOp { op, lhs, rhs, .. } => {
            let (a, l) = lower(cx, s, *lhs, depth);
            lemma_idle(b, w, cx, s, *lhs, depth);
            if l is Some {
                let (c, r) = lower(cx, a, *rhs, depth);
                lemma_idle(b, w, cx, a, *rhs, depth);
                if r is Some {
                    lemma_idle_binary(b, w, c, op, l->0, r->0, common_width(cx, s, *lhs, *rhs));
                }
            }
        }
        ExprV::UnaryOp { expr, .. } => {
            broadcast use steps;

            lemma_idle(b, w, cx, s, *expr, depth);
        }
        ExprV::Let { value, .. } => lemma_idle(b, w, cx, s, *value, depth),
        ExprV::Assert { kind, .. } => {
            broadcast use steps;

            match kind {
                AssertV::Assert(c) => lemma_idle(b, w, cx, s, *c, depth),
                AssertV::AssertEq(lhs, rhs) => {
                    lemma_idle(b, w, cx, s, *lhs, depth);
                    lemma_idle(b, w, cx, lower(cx, s, *lhs, depth).0, *rhs, depth);
                }
            }
        }
        ExprV::If { .. } => lemma_idle_if(b, w, cx, s, e, depth),
        ExprV::FnCall { .. } => lemma_idle_call(b, w, cx, s, e, depth),
        ExprV::Disclose { value, .. } => lemma_idle(b, w, cx, s, *value, depth),
        ExprV::MethodCall { receiver, args, .. } => {
            lemma_idle(b, w, cx, s, *receiver, depth);
            lemma_idle_seq(b, w, cx, lower(cx, s, *receiver, depth).0, args, args.len(), depth);
        }
        ExprV::Block { stmts, .. } => lemma_idle_seq(b, w, cx, s, stmts, stmts.len(), depth),
        ExprV::Return { value, .. } => match value {
            Some(v) => lemma_idle(b, w, cx, s, *v, depth),
            None => {}
        },
        ExprV::Tuple { elements, .. } => {
            lemma_idle_run(b, w, cx, s, elements, elements.len(), "tuple literal"@, depth);
        }
        ExprV::ArrayLit { elements, .. } => {
            lemma_idle_run(b, w, cx, s, elements, elements.len(), "array literal"@, depth);
        }
        ExprV::Reference { expr, .. } => lemma_idle(b, w, cx, s, *expr, depth),
        ExprV::Index { array, .. } => lemma_idle(b, w, cx, s, *array, depth),
        ExprV::StructInit { name, fields, .. } => {
            let order = evaluation_order(cx, name, fields);
            lemma_idle_fields(b, w, cx, s, fields, order, order.len(), depth);
        }
        _ => {}
    }
}

pub(crate) proof fn lemma_idle_zero(b: nat, w: u32, s: EmitV)
    ensures
        idle(b, w, s, load_zero(s).0),
        load_zero(s).0.instructions.len() >= s.instructions.len(),
{
    broadcast use steps;

    if s.zero_var is None {
        assert(progress(b, w, load_zero(s).0) == progress(b, w, load(s, 0).0));
    }
}

pub(crate) proof fn lemma_idle_guards(b: nat, w: u32, s: EmitV, cond: u32, nested: bool, outer: u32)
    ensures
        idle(b, w, s, then_guard(s, cond).0),
        idle(b, w, s, else_guard(s, cond, nested, outer).0),
{
    broadcast use steps;

    lemma_idle_zero(b, w, s);
}

pub(crate) proof fn lemma_idle_leave(
    b: nat,
    w: u32,
    s: EmitV,
    cond: u32,
    guard: u32,
    nested: bool,
    first: Option<u32>,
    second: Option<u32>,
)
    ensures
        idle(b, w, s, leave_if(s, cond, guard, nested, first, second).0),
{
    broadcast use steps;

    let a = EmitV { guard, in_conditional: nested, ..s };
    assert(progress(b, w, a) == progress(b, w, s));
}

#[verifier::rlimit(40)]
pub(crate) proof fn lemma_idle_if(b: nat, w: u32, cx: ContractV, s: EmitV, e: ExprV, depth: nat)
    requires
        ledger_free_helpers(cx),
        ledger_free(e),
        e is If,
    ensures
        idle(b, w, s, lower(cx, s, e, depth).0),
    decreases depth, e, 0nat,
{
    match e {
        ExprV::If { cond, then_branch, else_branch, .. } => {
            let (a, bit) = lower(cx, s, *cond, depth);
            lemma_idle(b, w, cx, s, *cond, depth);
            if bit is Some {
                let (g, tg) = then_guard(a, bit->0);
                lemma_idle_guards(b, w, a, bit->0, false, 0);
                let inside = enter_branch(g, tg);
                assert(progress(b, w, inside) == progress(b, w, g));
                lemma_idle_branch(b, w, cx, inside, then_branch, then_branch.len(), depth);
                let (t, first) = lower_branch(cx, inside, then_branch, then_branch.len(), depth);
                let shut = close_branch(t, inside.instructions.len());
                assert(progress(b, w, shut) == progress(b, w, t));
                assert(idle(b, w, s, shut));
                match else_branch {
                    Some(eb) => {
                        let (f, eg) = else_guard(shut, bit->0, a.in_conditional, a.guard);
                        lemma_idle_guards(b, w, shut, bit->0, a.in_conditional, a.guard);
                        let other = EmitV { guard: eg, ..f };
                        assert(progress(b, w, other) == progress(b, w, f));
                        lemma_idle_branch(b, w, cx, other, eb, eb.len(), depth);
                        let (h, second) = lower_branch(cx, other, eb, eb.len(), depth);
                        let closed = close_branch(h, other.instructions.len());
                        assert(progress(b, w, closed) == progress(b, w, h));
                        lemma_idle_leave(b, w, closed, bit->0, a.guard, a.in_conditional, first, second);
                    }
                    None => lemma_idle_leave(b, w, shut, bit->0, a.guard, a.in_conditional, first, None),
                }
            }
        }
        _ => {}
    }
}

pub(crate) proof fn lemma_idle_seq(b: nat, w: u32, cx: ContractV, s: EmitV, es: Seq<ExprV>, n: nat, depth: nat)
    requires
        ledger_free_helpers(cx),
        all_ledger_free(es),
    ensures
        idle(b, w, s, lower_seq(cx, s, es, n, depth).0),
    decreases depth, es, n,
{
    if n > 0 && n <= es.len() {
        lemma_idle_seq(b, w, cx, s, es, (n - 1) as nat, depth);
        lemma_idle(b, w, cx, lower_seq(cx, s, es, (n - 1) as nat, depth).0, es[n - 1], depth);
    }
}

pub(crate) proof fn lemma_idle_branch(b: nat, w: u32, cx: ContractV, s: EmitV, es: Seq<ExprV>, n: nat, depth: nat)
    requires
        ledger_free_helpers(cx),
        all_ledger_free(es),
    ensures
        idle(b, w, s, lower_branch(cx, s, es, n, depth).0),
    decreases depth, es, n,
{
    if n > 0 && n <= es.len() {
        lemma_idle_branch(b, w, cx, s, es, (n - 1) as nat, depth);
        lemma_idle(b, w, cx, lower_branch(cx, s, es, (n - 1) as nat, depth).0, es[n - 1], depth);
    }
}

pub(crate) proof fn lemma_idle_all(b: nat, w: u32, cx: ContractV, s: EmitV, es: Seq<ExprV>, n: nat, depth: nat)
    requires
        ledger_free_helpers(cx),
        all_ledger_free(es),
    ensures
        idle(b, w, s, lower_all(cx, s, es, n, depth).0),
    decreases depth, es, n,
{
    if n > 0 && n <= es.len() {
        lemma_idle_all(b, w, cx, s, es, (n - 1) as nat, depth);
        lemma_idle(b, w, cx, lower_all(cx, s, es, (n - 1) as nat, depth).0, es[n - 1], depth);
    }
}

pub(crate) proof fn lemma_idle_run(b: nat, w: u32, cx: ContractV, s: EmitV, es: Seq<ExprV>, n: nat, what: Seq<char>, depth: nat)
    requires
        ledger_free_helpers(cx),
        all_ledger_free(es),
    ensures
        idle(b, w, s, lower_run(cx, s, es, n, what, depth).0),
    decreases depth, es, n,
{
    if n > 0 && n <= es.len() {
        lemma_idle_run(b, w, cx, s, es, (n - 1) as nat, what, depth);
        lemma_idle(b, w, cx, lower_run(cx, s, es, (n - 1) as nat, what, depth).0, es[n - 1], depth);
    }
}

pub(crate) proof fn lemma_idle_fields(
    b: nat,
    w: u32,
    cx: ContractV,
    s: EmitV,
    fs: Seq<(Seq<char>, ExprV)>,
    order: Seq<int>,
    n: nat,
    depth: nat,
)
    requires
        ledger_free_helpers(cx),
        fields_ledger_free(fs),
    ensures
        idle(b, w, s, lower_fields(cx, s, fs, order, n, depth).0),
    decreases depth, fs, n,
{
    if n > 0 && n <= order.len() {
        lemma_idle_fields(b, w, cx, s, fs, order, (n - 1) as nat, depth);
        if 0 <= order[n - 1] < fs.len() {
            lemma_idle(b, w, cx, lower_fields(cx, s, fs, order, (n - 1) as nat, depth).0, fs[order[n - 1]].1, depth);
        }
    }
}

pub(crate) proof fn lemma_idle_arg(b: nat, w: u32, cx: ContractV, s: EmitV, args: Seq<ExprV>, i: nat, depth: nat)
    requires
        ledger_free_helpers(cx),
        all_ledger_free(args),
    ensures
        idle(b, w, s, lower_arg(cx, s, args, i, depth).0),
    decreases depth, args, 0nat,
{
    if i < args.len() {
        lemma_idle(b, w, cx, s, args[i as int], depth);
    }
}

pub(crate) proof fn lemma_idle_params(
    b: nat,
    w: u32,
    cx: ContractV,
    s: EmitV,
    params: Seq<ParamV>,
    args: Seq<ExprV>,
    n: nat,
    counter: u32,
    depth: nat,
)
    requires
        ledger_free_helpers(cx),
        all_ledger_free(args),
    ensures
        idle(b, w, s, lower_params(cx, s, params, args, n, counter, depth).0),
    decreases depth, args, n,
{
    if n > 0 && n <= args.len() {
        lemma_idle_params(b, w, cx, s, params, args, (n - 1) as nat, counter, depth);
        let a = lower_params(cx, s, params, args, (n - 1) as nat, counter, depth).0;
        lemma_idle(b, w, cx, a, args[n - 1], depth);
    }
}

#[verifier::rlimit(60)]
pub(crate) proof fn lemma_idle_call(b: nat, w: u32, cx: ContractV, s: EmitV, e: ExprV, depth: nat)
    requires
        ledger_free_helpers(cx),
        ledger_free(e),
        e is FnCall,
    ensures
        idle(b, w, s, lower(cx, s, e, depth).0),
    decreases depth, e, 0nat,
{
    broadcast use steps;

    match e {
        ExprV::FnCall { name, path, args, .. } => {
            assert(all_ledger_free(args));
            if args.len() > 0 {
                assert(ledger_free(args[0]));
            }
            if name == "merkle_tree_path_root"@ {
                assert(lower(cx, s, e, depth) == lower_path_root(cx, s, args, depth));
                if args.len() > 0 && path_argument(cx, args[0]) is Ok {
                    let (h, n) = path_argument(cx, args[0])->Ok_0;
                    let (a, first) = lower(cx, s, args[0], depth);
                    lemma_idle(b, w, cx, s, args[0], depth);
                    if first is Some {
                        lemma_idle_path_root(b, w, a, first->0, h, n);
                    }
                }
            } else {
                match find_helper(cx.helpers, name, cx.helpers.len()) {
                    Some(h) => {
                        assert(lower(cx, s, e, depth) == lower_helper(cx, s, h, args, depth));
                        if h.params.len() == args.len() {
                            let counter = s.helper_counter;
                            let a = EmitV { helper_counter: counter.wrapping_add(1), ..s };
                            assert(progress(b, w, a) == progress(b, w, s));
                            lemma_idle_params(b, w, cx, a, h.params, args, args.len(), counter, depth);
                            if depth > 0 {
                                let bound = lower_params(cx, a, h.params, args, args.len(), counter, depth).0;
                                let names = param_names(h.params, h.params.len(), counter);
                                let body = renamed_list(
                                    h.body,
                                    h.body.len(),
                                    names,
                                    counter,
                                    h.params.len() as u32,
                                ).exprs;
                                lemma_helper_body(cx, name, cx.helpers.len());
                                lemma_renamed_list_free(h.body, h.body.len(), names, counter, h.params.len() as u32);
                                let inner = EmitV { in_helper: true, ..bound };
                                assert(progress(b, w, inner) == progress(b, w, bound));
                                lemma_idle_seq(b, w, cx, inner, body, body.len(), (depth - 1) as nat);
                                let c = lower_seq(cx, inner, body, body.len(), (depth - 1) as nat).0;
                                assert(progress(b, w, EmitV { in_helper: s.in_helper, ..c }) == progress(b, w, c));
                            }
                        }
                    }
                    None => {
                        if args.len() == 1 && wraps_value(path) {
                            lemma_idle(b, w, cx, s, args[0], depth);
                        } else {
                            lemma_idle_all(b, w, cx, s, args, args.len(), depth);
                        }
                    }
                }
            }
        }
        _ => {}
    }
}

} // verus!
