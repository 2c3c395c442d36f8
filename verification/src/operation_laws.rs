//! The host and the circuit agree on the VM program: the transcript builder
//! pushes one operation for each group of public inputs, in the same order.
use crate::circuit_laws::{errors_are_kept, place_is_restored};
use crate::code::{refusal_code, u8_code};
use crate::containers::{cell_inner, map_kv, merkle_leaf, set_inner};
use crate::contract::ContractV;
use crate::emission::{addi_op, counter_increment, declare, declare_all, declare_atoms, emit, field_slot, held_type};
use crate::emission::{idx_op, io_guard, is_counter, leaf_hash, ledger_read, ledger_write, load, map_insert};
use crate::emission::{map_lookup, map_member, map_remove, merkle_check_root, merkle_insert, op, popeq_bool};
use crate::emission::{push_cell, push_null, put, read_elements, read_layout, read_type, set_insert, simple_type};
use crate::emission::{skip, slot_type, type_ctx, value_encoding, wires, written_wires, EmitV};
use crate::expr::{ExprV, LitV};
use crate::ledger_free::{all_ledger_free, ledger_free_helpers};
use crate::lowering::{increment_amount, lower, lower_all, lower_arg, lower_cell_method, lower_map_method};
use crate::lowering::{lower_merkle_method, lower_set_method, slot_leaf_len};
use crate::nocturne_type::EncodingV;
use crate::operation_groups::{adds, constant, group, groups_between, idle, lemma_adds_addi_op, lemma_adds_idx_op};
use crate::operation_groups::{lemma_adds_op, lemma_adds_popeq_bool, lemma_adds_push_cell, lemma_adds_push_null};
use crate::operation_groups::{lemma_begins, lemma_ends, lemma_idle_arg, lemma_opens, lemma_within_declare};
use crate::operation_groups::{lemma_within_declare_all, lemma_within_declare_atoms, lemma_within_read_elements};
use crate::operation_groups::{opened, progress, ready, GroupV};
use crate::snippets::{state_get, state_lookup, state_value};
use crate::syntax::{Span, TyV};
use crate::text::dec;
use crate::transcript::{bool_read, bound_key, cell_write, check_root_ops, cond, contains_value, first_raw};
use crate::transcript::{increment_ops, insert_ops, is_member, is_read, keyed_ops, ledger_cond, ledger_ops, live_test};
use crate::transcript::{looked_up, lookup_ops, map_insert_ops, member_steps, nth_aligned, ops, read_ops, read_value};
use crate::transcript::{remove_ops, set_insert_ops, set_ops, tree_insert_ops, write_type};
use crate::vm_ops::{check_root_steps, cond_read_steps, contains_steps, increment_steps, lookup_steps};
use crate::vm_ops::{map_insert_steps, map_remove_steps, opcodes, operations, read_steps, script, set_insert_steps};
use crate::vm_ops::{tree_insert_steps, write_steps, StepV};
use crate::zkir::{imm, InstructionV};
use vstd::prelude::*;

verus! {

// ---- the script of a ledger access

/// The script of `insert`, by the kind of the field.
pub open spec fn insert_script(cx: ContractV, slot: u8, args: Seq<ExprV>, t: Option<TyV>) -> Seq<StepV> {
    let at = u8_code(slot);
    let write = write_steps(at, nth_aligned(cx, args, 0, write_type(t)));
    match t {
        Some(ty) => match map_kv(ty) {
            Some((k, v)) => map_insert_steps(at, nth_aligned(cx, args, 0, Some(k)), nth_aligned(cx, args, 1, Some(v))),
            None => match set_inner(ty) {
                Some(k) => set_insert_steps(at, nth_aligned(cx, args, 0, Some(k))),
                None => if merkle_leaf(ty) is Some {
                    tree_insert_steps(first_raw(args), at)
                } else {
                    write
                },
            },
        },
        None => write,
    }
}

/// The script of `set`, by the kind of the field.
pub open spec fn set_script(cx: ContractV, slot: u8, args: Seq<ExprV>, t: Option<TyV>) -> Seq<StepV> {
    let at = u8_code(slot);
    let write = write_steps(at, nth_aligned(cx, args, 0, write_type(t)));
    match t {
        Some(ty) => match map_kv(ty) {
            Some((k, v)) => map_insert_steps(at, nth_aligned(cx, args, 0, Some(k)), nth_aligned(cx, args, 1, Some(v))),
            None => write,
        },
        None => write,
    }
}

/// The script of a read; none for a field that is no counter or cell.
pub open spec fn read_script(cx: ContractV, slot: u8, field: Seq<char>, t: Option<TyV>) -> Option<Seq<StepV>> {
    match t {
        Some(t) => if is_counter(t) {
            Some(read_steps(u8_code(slot), read_value(cx, state_value(field), simple_type("u64"@))))
        } else {
            match cell_inner(t) {
                Some(inner) => Some(read_steps(u8_code(slot), read_value(cx, state_get(field), inner))),
                None => None,
            }
        },
        None => None,
    }
}

/// The script of an increment; none for an amount that is no literal.
pub open spec fn increment_script(slot: u8, args: Seq<ExprV>) -> Option<Seq<StepV>> {
    if args.len() == 0 {
        Some(increment_steps(u8_code(slot), "1u32"@))
    } else {
        match args[0] {
            ExprV::Literal { value: LitV::Int(v), .. } => if v <= u32::MAX {
                Some(increment_steps(u8_code(slot), dec(v as nat) + "u32"@))
            } else {
                None
            },
            _ => None,
        }
    }
}

/// The script of a method that only some kinds of field have.
pub open spec fn keyed_script(
    cx: ContractV,
    slot: u8,
    field: Seq<char>,
    method: Seq<char>,
    args: Seq<ExprV>,
    t: Option<TyV>,
) -> Option<Seq<StepV>> {
    let at = u8_code(slot);
    match t {
        Some(t) => match map_kv(t) {
            Some((k, v)) => if method == "remove"@ {
                Some(map_remove_steps(at, nth_aligned(cx, args, 0, Some(k))))
            } else if method == "lookup"@ {
                Some(
                    lookup_steps(
                        first_raw(args),
                        at,
                        bound_key(cx, args, Some(k)),
                        looked_up(cx, state_lookup(field, "__key"@), v),
                    ),
                )
            } else {
                None
            },
            None => match set_inner(t) {
                Some(k) => if method == "remove"@ {
                    Some(map_remove_steps(at, nth_aligned(cx, args, 0, Some(k))))
                } else {
                    None
                },
                None => if method == "check_root"@ && merkle_leaf(t) is Some {
                    Some(check_root_steps(first_raw(args), at, live_test(field, " . check_root (& __digest) ;"@)))
                } else {
                    None
                },
            },
        },
        None => None,
    }
}

/// The script of a ledger access; none where the builder refuses it.
pub open spec fn ledger_script(
    cx: ContractV,
    field: Seq<char>,
    method: Seq<char>,
    args: Seq<ExprV>,
) -> Option<Seq<StepV>> {
    match field_slot(cx, field) {
        None => None,
        Some(slot) => {
            let t = slot_type(cx, slot);
            if method == "increment"@ || method == "increment_by"@ {
                increment_script(slot, args)
            } else if is_read(method) {
                read_script(cx, slot, field, t)
            } else if is_member(method) {
                Some(member_steps(cx, slot, field, args, t, true))
            } else if method == "insert"@ {
                Some(insert_script(cx, slot, args, t))
            } else if method == "set"@ {
                Some(set_script(cx, slot, args, t))
            } else {
                keyed_script(cx, slot, field, method, args, t)
            }
        }
    }
}

/// Whether code is a refusal: a compile error and nothing else.
pub open spec fn refuses(code: Seq<char>) -> bool {
    exists|m: Seq<char>| code == #[trigger] refusal_code(m)
}

/// The code of a ledger access is its script, line by line: the push of each
/// operation, and host code around them. Without a script it is a refusal.
pub proof fn ledger_code_is_its_script(cx: ContractV, span: Span, field: Seq<char>, method: Seq<char>, args: Seq<ExprV>)
    ensures
        match ledger_script(cx, field, method, args) {
            Some(steps) => ops(cx, ExprV::LedgerAccess { span, field, method, args }) == script(steps),
            None => refuses(ops(cx, ExprV::LedgerAccess { span, field, method, args })),
        },
{
    reveal(ledger_ops);
    reveal(increment_ops);
    reveal(read_ops);
    reveal(contains_value);
    reveal(insert_ops);
    reveal(set_ops);
    reveal(keyed_ops);
    reveal(cell_write);
    reveal(map_insert_ops);
    reveal(set_insert_ops);
    reveal(tree_insert_ops);
    reveal(remove_ops);
    reveal(lookup_ops);
    reveal(check_root_ops);
}

/// The script of a ledger access that stands as a condition: a membership
/// test, or the read of a boolean cell.
pub open spec fn cond_script(
    cx: ContractV,
    field: Seq<char>,
    method: Seq<char>,
    args: Seq<ExprV>,
) -> Option<Seq<StepV>> {
    match field_slot(cx, field) {
        None => None,
        Some(slot) => {
            let t = slot_type(cx, slot);
            if is_member(method) {
                Some(member_steps(cx, slot, field, args, t, false))
            } else {
                match bool_read(field, method, t) {
                    Some(r) => Some(cond_read_steps(u8_code(slot), r)),
                    None => None,
                }
            }
        }
    }
}

/// The same of a ledger access as a condition.
pub proof fn condition_code_is_its_script(
    cx: ContractV,
    span: Span,
    field: Seq<char>,
    method: Seq<char>,
    args: Seq<ExprV>,
)
    ensures
        cond_script(cx, field, method, args) matches Some(steps) ==> cond(
            cx,
            ExprV::LedgerAccess { span, field, method, args },
        ) == script(steps),
{
    reveal(ledger_cond);
    reveal(contains_value);
}

// ---- operations of a script

/// The opcodes of a script's operations.
pub open spec fn script_codes(steps: Seq<StepV>) -> Seq<int> {
    opcodes(operations(steps))
}

proof fn lemma_write_codes(at: Seq<char>, a: Seq<char>)
    ensures
        script_codes(write_steps(at, a)) =~= seq![0x10int, 0x11, 0x91],
        script_codes(read_steps(at, a)) =~= seq![0x30int, 0x50, 0x0d],
        script_codes(increment_steps(at, a)) =~= seq![0x70int, 0x0e, 0xa1],
        script_codes(cond_read_steps(at, a)) =~= seq![0x30int, 0x50, 0x0d],
{
    reveal_with_fuel(operations, 16);
}

proof fn lemma_keyed_codes(at: Seq<char>, a: Seq<char>, c: Seq<char>)
    ensures
        script_codes(map_insert_steps(at, a, c)) =~= seq![0x70int, 0x10, 0x11, 0x91, 0xa1],
        script_codes(set_insert_steps(at, a)) =~= seq![0x70int, 0x10, 0x11, 0x91, 0xa1],
        script_codes(map_remove_steps(at, a)) =~= seq![0x70int, 0x10, 0x19, 0xa1],
{
    reveal_with_fuel(operations, 16);
}

proof fn lemma_lookup_codes(raw: Seq<char>, at: Seq<char>, key: Seq<char>, result: Seq<char>)
    ensures
        script_codes(lookup_steps(raw, at, key, result)) =~= seq![0x30int, 0x50, 0x50, 0x0c],
{
    reveal_with_fuel(operations, 16);
}

proof fn lemma_member_codes(head: Seq<char>, at: Seq<char>, key: Seq<char>, test: Seq<char>, tail: Seq<char>)
    ensures
        script_codes(contains_steps(head, at, key, test, tail)) =~= seq![0x30int, 0x50, 0x10, 0x18, 0x0d],
{
    reveal_with_fuel(operations, 16);
}

proof fn lemma_tree_codes(raw: Seq<char>, at: Seq<char>, test: Seq<char>)
    ensures
        script_codes(check_root_steps(raw, at, test)) =~= seq![0x30int, 0x50, 0x50, 0x0a, 0x10, 0x02, 0x0d],
        script_codes(tree_insert_steps(raw, at)) =~= seq![
            0x70int,
            0x70,
            0x32,
            0x50,
            0x11,
            0x91,
            0xa1,
            0x70,
            0x0e,
            0xa2,
        ],
{
    reveal_with_fuel(operations, 16);
}

// ---- groups of a ledger operation

/// The groups of operations, all under one guard.
pub open spec fn marks(codes: Seq<int>, guard: u32) -> Seq<GroupV> {
    Seq::new(codes.len(), |i: int| group(codes[i], guard))
}

/// From `s` to `t` groups with the given opcodes are added, under the guard of
/// the place.
pub open spec fn adds_all(b: nat, w: u32, s: EmitV, t: EmitV, codes: Seq<int>) -> bool {
    ready(b, w, s) ==> ready(b, w, t) && t.guard == s.guard && progress(b, w, t).closed == progress(
        b,
        w,
        s,
    ).closed + marks(codes, s.guard)
}

proof fn lemma_one_more(b: nat, w: u32, s: EmitV, t: EmitV, u: EmitV, codes: Seq<int>, code: int, more: Seq<int>)
    requires
        adds_all(b, w, s, t, codes),
        adds(b, w, t, u, code),
        more =~= codes.push(code),
    ensures
        adds_all(b, w, s, u, more),
{
    if ready(b, w, s) {
        let before = progress(b, w, s).closed;
        let g = s.guard;
        assert(marks(codes, g).push(group(code, g)) =~= marks(codes.push(code), g));
        assert((before + marks(codes, g)).push(group(code, g)) =~= before + marks(codes.push(code), g));
    }
}

proof fn lemma_first(b: nat, w: u32, s: EmitV)
    ensures
        adds_all(b, w, s, s, seq![]),
{
    assert(progress(b, w, s).closed + marks(seq![], s.guard) =~= progress(b, w, s).closed);
}

proof fn lemma_then_idle(b: nat, w: u32, s: EmitV, t: EmitV, u: EmitV, codes: Seq<int>)
    requires
        adds_all(b, w, s, t, codes),
        idle(b, w, t, u),
        u.guard == t.guard,
    ensures
        adds_all(b, w, s, u, codes),
{
}

proof fn lemma_counter(b: nat, w: u32, s: EmitV, slot: u8, n: u32)
    ensures
        adds_all(b, w, s, counter_increment(s, slot, n).0, seq![0x70int, 0x0e, 0xa1]),
{
    reveal(counter_increment);
    let s1 = idx_op(s, 0x70, slot);
    let s2 = addi_op(s1, n as int).0;
    lemma_first(b, w, s);
    lemma_adds_idx_op(b, w, s, 0x70, slot);
    lemma_one_more(b, w, s, s, s1, seq![], 0x70, seq![0x70int]);
    lemma_adds_addi_op(b, w, s1, n as int);
    lemma_one_more(b, w, s, s1, s2, seq![0x70int], 0x0e, seq![0x70int, 0x0e]);
    lemma_adds_op(b, w, s2, 0xa1);
    lemma_one_more(b, w, s, s2, op(s2, 0xa1), seq![0x70int, 0x0e], 0xa1, seq![0x70int, 0x0e, 0xa1]);
}

proof fn lemma_dup_idx(b: nat, w: u32, s: EmitV, slot: u8)
    ensures
        adds_all(b, w, s, idx_op(op(s, 0x30), 0x50, slot), seq![0x30int, 0x50]),
{
    let s1 = op(s, 0x30);
    lemma_first(b, w, s);
    lemma_adds_op(b, w, s, 0x30);
    lemma_one_more(b, w, s, s, s1, seq![], 0x30, seq![0x30int]);
    lemma_adds_idx_op(b, w, s1, 0x50, slot);
    lemma_one_more(b, w, s, s1, idx_op(s1, 0x50, slot), seq![0x30int], 0x50, seq![0x30int, 0x50]);
}

/// A group of an opcode, alignment atoms and elements read.
proof fn lemma_read_group(
    b: nat,
    w: u32,
    s: EmitV,
    code: int,
    atoms: Seq<i32>,
    layout: Seq<Option<u32>>,
    guard: u32,
    count: u32,
)
    requires
        ready(b, w, s) ==> guard == s.guard,
    ensures
        ({
            let (a, o) = load(s, code);
            let c = declare_atoms(declare(a, o), atoms, atoms.len());
            adds(b, w, s, skip(read_elements(c, layout, layout.len()).0, guard, count), code)
        }),
{
    if ready(b, w, s) {
        let (a, o) = load(s, code);
        let d = declare(a, o);
        let c = declare_atoms(d, atoms, atoms.len());
        lemma_begins(b, w, s, code);
        lemma_within_declare_atoms(b, w, d, atoms, atoms.len());
        lemma_within_read_elements(b, w, c, layout, layout.len());
        lemma_ends(b, w, read_elements(c, layout, layout.len()).0, guard, count, imm(code));
    }
}

proof fn lemma_read(b: nat, w: u32, cx: ContractV, s: EmitV, slot: u8, ty: Option<TyV>)
    requires
        ledger_read(cx, s, slot, ty).0.errors.len() == s.errors.len(),
    ensures
        adds_all(b, w, s, ledger_read(cx, s, slot, ty).0, seq![0x30int, 0x50, 0x0d]),
{
    broadcast use crate::operation_groups::steps;

    let s2 = idx_op(op(s, 0x30), 0x50, slot);
    lemma_dup_idx(b, w, s, slot);
    let r = ledger_read(cx, s, slot, ty).0;
    assert(ready(b, w, s) ==> adds(b, w, s2, r, 0x0d)) by {
        reveal(ledger_read);
        let (a, o) = load(s2, 0x0d);
        let d = declare(a, o);
        let enc = match ty {
            Some(t) => value_encoding(type_ctx(cx), t),
            None => None,
        };
        if !ready(b, w, s) {
        } else if enc is Some && enc->0.value_field_count >= 1 {
            let e = enc->0;
            let layout = read_layout(type_ctx(cx), ty->0);
            crate::emission_laws::lemma_dup_idx(false, s, slot);
            assert(s.errors.len() <= d.errors.len()) by {
                reveal(crate::emission_laws::continues);
                reveal(declare);
                reveal(emit);
                reveal(put);
            }
            lemma_read_group(
                b,
                w,
                s2,
                0x0d,
                e.alignment_atoms,
                layout,
                s.guard,
                (1 + e.alignment_atoms.len() + e.value_field_count) as u32,
            );
        } else {
            lemma_begins(b, w, s2, 0x0d);
            let (c, v) = emit(d, InstructionV::PublicInput { guard: io_guard(d) });
            assert(opened(b, w, c, imm(0x0d)));
            lemma_ends(b, w, c, s.guard, 1, imm(0x0d));
        }
    }
    if ready(b, w, s) {
        lemma_one_more(b, w, s, s2, r, seq![0x30int, 0x50], 0x0d, seq![0x30int, 0x50, 0x0d]);
    }
}

proof fn lemma_member(b: nat, w: u32, s: EmitV, slot: u8, key: Seq<u32>, ke: EncodingV)
    ensures
        adds_all(b, w, s, map_member(s, slot, key, ke).0, seq![0x30int, 0x50, 0x10, 0x18, 0x0d]),
{
    reveal(map_member);
    let s2 = idx_op(op(s, 0x30), 0x50, slot);
    let s3 = push_cell(s2, key, Some(ke), false);
    let s4 = op(s3, 0x18);
    lemma_dup_idx(b, w, s, slot);
    lemma_adds_push_cell(b, w, s2, key, Some(ke), false);
    lemma_one_more(b, w, s, s2, s3, seq![0x30int, 0x50], 0x10, seq![0x30int, 0x50, 0x10]);
    lemma_adds_op(b, w, s3, 0x18);
    lemma_one_more(b, w, s, s3, s4, seq![0x30int, 0x50, 0x10], 0x18, seq![0x30int, 0x50, 0x10, 0x18]);
    lemma_adds_popeq_bool(b, w, s4);
    lemma_one_more(b, w, s, s4, popeq_bool(s4).0, seq![0x30int, 0x50, 0x10, 0x18], 0x0d, seq![0x30int, 0x50, 0x10, 0x18, 0x0d]);
}

proof fn lemma_lookup(b: nat, w: u32, cx: ContractV, s: EmitV, slot: u8, key: Seq<u32>, ke: EncodingV, vt: TyV, ve: EncodingV)
    requires
        read_layout(type_ctx(cx), vt).len() == ve.value_field_count,
    ensures
        adds_all(b, w, s, map_lookup(cx, s, slot, key, ke, vt, ve).0, seq![0x30int, 0x50, 0x50, 0x0c]),
{
    reveal(map_lookup);
    let s2 = idx_op(op(s, 0x30), 0x50, slot);
    lemma_dup_idx(b, w, s, slot);
    let (a, o) = load(s2, 0x50);
    let d = declare(a, o);
    let d1 = declare_atoms(d, ke.alignment_atoms, ke.alignment_atoms.len());
    let d2 = declare_all(d1, key, key.len());
    let s3 = skip(d2, s.guard, (1 + ke.alignment_atoms.len() + key.len()) as u32);
    if ready(b, w, s) {
        lemma_begins(b, w, s2, 0x50);
        lemma_within_declare_atoms(b, w, d, ke.alignment_atoms, ke.alignment_atoms.len());
        lemma_within_declare_all(b, w, d1, key, key.len());
        lemma_ends(b, w, d2, s.guard, (1 + ke.alignment_atoms.len() + key.len()) as u32, imm(0x50));
        lemma_one_more(b, w, s, s2, s3, seq![0x30int, 0x50], 0x50, seq![0x30int, 0x50, 0x50]);
        let layout = read_layout(type_ctx(cx), vt);
        let count = (1 + ve.alignment_atoms.len() + ve.value_field_count) as u32;
        lemma_read_group(b, w, s3, 0x0c, ve.alignment_atoms, layout, s.guard, count);
        lemma_one_more(
            b,
            w,
            s,
            s3,
            map_lookup(cx, s, slot, key, ke, vt, ve).0,
            seq![0x30int, 0x50, 0x50], 0x0c, seq![0x30int, 0x50, 0x50, 0x0c]);
    }
}

proof fn lemma_remove(b: nat, w: u32, s: EmitV, slot: u8, key: Seq<u32>, ke: EncodingV)
    ensures
        adds_all(b, w, s, map_remove(s, slot, key, ke), seq![0x70int, 0x10, 0x19, 0xa1]),
{
    reveal(map_remove);
    let s1 = idx_op(s, 0x70, slot);
    let s2 = push_cell(s1, key, Some(ke), false);
    let s3 = op(s2, 0x19);
    lemma_first(b, w, s);
    lemma_adds_idx_op(b, w, s, 0x70, slot);
    lemma_one_more(b, w, s, s, s1, seq![], 0x70, seq![0x70int]);
    lemma_adds_push_cell(b, w, s1, key, Some(ke), false);
    lemma_one_more(b, w, s, s1, s2, seq![0x70int], 0x10, seq![0x70int, 0x10]);
    lemma_adds_op(b, w, s2, 0x19);
    lemma_one_more(b, w, s, s2, s3, seq![0x70int, 0x10], 0x19, seq![0x70int, 0x10, 0x19]);
    lemma_adds_op(b, w, s3, 0xa1);
    lemma_one_more(b, w, s, s3, op(s3, 0xa1), seq![0x70int, 0x10, 0x19], 0xa1, seq![0x70int, 0x10, 0x19, 0xa1]);
}

proof fn lemma_inserted(b: nat, w: u32, s: EmitV, s3: EmitV)
    requires
        adds_all(b, w, s, s3, seq![0x70int, 0x10, 0x11]),
    ensures
        adds_all(b, w, s, op(op(s3, 0x91), 0xa1), seq![0x70int, 0x10, 0x11, 0x91, 0xa1]),
{
    let s4 = op(s3, 0x91);
    lemma_adds_op(b, w, s3, 0x91);
    lemma_one_more(b, w, s, s3, s4, seq![0x70int, 0x10, 0x11], 0x91, seq![0x70int, 0x10, 0x11, 0x91]);
    lemma_adds_op(b, w, s4, 0xa1);
    lemma_one_more(b, w, s, s4, op(s4, 0xa1), seq![0x70int, 0x10, 0x11, 0x91], 0xa1, seq![0x70int, 0x10, 0x11, 0x91, 0xa1]);
}

proof fn lemma_inserts(b: nat, w: u32, s: EmitV, slot: u8, key: Seq<u32>, ke: EncodingV, val: Seq<u32>, ve: EncodingV)
    ensures
        adds_all(b, w, s, map_insert(s, slot, key, ke, val, ve), seq![0x70int, 0x10, 0x11, 0x91, 0xa1]),
        adds_all(b, w, s, set_insert(s, slot, key, ke), seq![0x70int, 0x10, 0x11, 0x91, 0xa1]),
{
    reveal(map_insert);
    reveal(set_insert);
    let s1 = idx_op(s, 0x70, slot);
    let s2 = push_cell(s1, key, Some(ke), false);
    lemma_first(b, w, s);
    lemma_adds_idx_op(b, w, s, 0x70, slot);
    lemma_one_more(b, w, s, s, s1, seq![], 0x70, seq![0x70int]);
    lemma_adds_push_cell(b, w, s1, key, Some(ke), false);
    lemma_one_more(b, w, s, s1, s2, seq![0x70int], 0x10, seq![0x70int, 0x10]);
    lemma_adds_push_cell(b, w, s2, val, Some(ve), true);
    lemma_one_more(b, w, s, s2, push_cell(s2, val, Some(ve), true), seq![0x70int, 0x10], 0x11, seq![0x70int, 0x10, 0x11]);
    lemma_inserted(b, w, s, push_cell(s2, val, Some(ve), true));
    lemma_adds_push_null(b, w, s2, true);
    lemma_one_more(b, w, s, s2, push_null(s2, true), seq![0x70int, 0x10], 0x11, seq![0x70int, 0x10, 0x11]);
    lemma_inserted(b, w, s, push_null(s2, true));
}

proof fn lemma_write(b: nat, w: u32, cx: ContractV, s: EmitV, slot: u8, vars: Seq<u32>)
    requires
        vars.len() > 0,
    ensures
        adds_all(b, w, s, ledger_write(cx, s, slot, vars).0, seq![0x10int, 0x11, 0x91]),
{
    broadcast use crate::operation_groups::steps;

    reveal(ledger_write);
    let (a, k) = load(s, slot as int);
    let key_enc = EncodingV { alignment_atoms: seq![1i32, 1i32], value_field_count: 1 };
    let s1 = push_cell(a, seq![k], Some(key_enc), false);
    let enc = match held_type(cx, slot) {
        Some(t) => value_encoding(type_ctx(cx), t),
        None => None,
    };
    let s2 = push_cell(s1, vars, enc, true);
    lemma_first(b, w, s);
    assert(idle(b, w, s, a));
    lemma_then_idle(b, w, s, s, a, seq![]);
    lemma_adds_push_cell(b, w, a, seq![k], Some(key_enc), false);
    lemma_one_more(b, w, s, a, s1, seq![], 0x10, seq![0x10int]);
    lemma_adds_push_cell(b, w, s1, vars, enc, true);
    lemma_one_more(b, w, s, s1, s2, seq![0x10int], 0x11, seq![0x10int, 0x11]);
    lemma_adds_op(b, w, s2, 0x91);
    lemma_one_more(b, w, s, s2, op(s2, 0x91), seq![0x10int, 0x11], 0x91, seq![0x10int, 0x11, 0x91]);
}

proof fn lemma_root(b: nat, w: u32, s: EmitV, slot: u8, digest: u32)
    ensures
        adds_all(
            b,
            w,
            s,
            merkle_check_root(s, slot, digest).0,
            seq![0x30int, 0x50, 0x50, 0x0a, 0x10, 0x02, 0x0d],
        ),
{
    reveal(merkle_check_root);
    let s2 = idx_op(op(s, 0x30), 0x50, slot);
    let s3 = idx_op(s2, 0x50, 0);
    let s4 = op(s3, 0x0a);
    let enc = EncodingV { alignment_atoms: seq![1i32, -2i32 as i32], value_field_count: 1 };
    let s5 = push_cell(s4, seq![digest], Some(enc), false);
    let s6 = op(s5, 0x02);
    lemma_dup_idx(b, w, s, slot);
    lemma_adds_idx_op(b, w, s2, 0x50, 0);
    lemma_one_more(b, w, s, s2, s3, seq![0x30int, 0x50], 0x50, seq![0x30int, 0x50, 0x50]);
    lemma_adds_op(b, w, s3, 0x0a);
    lemma_one_more(b, w, s, s3, s4, seq![0x30int, 0x50, 0x50], 0x0a, seq![0x30int, 0x50, 0x50, 0x0a]);
    lemma_adds_push_cell(b, w, s4, seq![digest], Some(enc), false);
    lemma_one_more(b, w, s, s4, s5, seq![0x30int, 0x50, 0x50, 0x0a], 0x10, seq![0x30int, 0x50, 0x50, 0x0a, 0x10]);
    lemma_adds_op(b, w, s5, 0x02);
    lemma_one_more(b, w, s, s5, s6, seq![0x30int, 0x50, 0x50, 0x0a, 0x10], 0x02, seq![0x30int, 0x50, 0x50, 0x0a, 0x10, 0x02]);
    lemma_adds_popeq_bool(b, w, s6);
    lemma_one_more(b, w, s, s6, popeq_bool(s6).0, seq![0x30int, 0x50, 0x50, 0x0a, 0x10, 0x02], 0x0d, seq![0x30int, 0x50, 0x50, 0x0a, 0x10, 0x02, 0x0d]);
}

/// The push of a leaf's hash.
proof fn lemma_leaf_group(b: nat, w: u32, s: EmitV, h: u32, guard: u32)
    requires
        ready(b, w, s) ==> guard == s.guard,
    ensures
        ({
            let (c, o) = load(s, 0x11);
            let (d, disc) = load(c, 1);
            let (e, len) = load(d, 32);
            let f = declare(declare(declare(declare(e, o), disc), disc), len);
            adds(b, w, s, skip(declare(declare(f, h), h.wrapping_add(1)), guard, 6), 0x11)
        }),
{
    broadcast use crate::operation_groups::steps;

    if ready(b, w, s) {
        let (c, o) = load(s, 0x11);
        let (d, disc) = load(c, 1);
        let (e, len) = load(d, 32);
        assert(o == s.next_index) by {
            reveal(emit);
        }
        assert(ready(b, w, c) && constant(progress(b, w, c), o) == Some(imm(0x11)));
        assert(ready(b, w, d) && constant(progress(b, w, d), o) == Some(imm(0x11)));
        assert(ready(b, w, e) && constant(progress(b, w, e), o) == Some(imm(0x11)));
        lemma_opens(b, w, e, o, imm(0x11));
        let f1 = declare(e, o);
        let f2 = declare(f1, disc);
        let f3 = declare(f2, disc);
        let f4 = declare(f3, len);
        let f5 = declare(f4, h);
        lemma_within_declare(b, w, f1, disc);
        lemma_within_declare(b, w, f2, disc);
        lemma_within_declare(b, w, f3, len);
        lemma_within_declare(b, w, f4, h);
        lemma_within_declare(b, w, f5, h.wrapping_add(1));
        lemma_ends(b, w, declare(f5, h.wrapping_add(1)), guard, 6, imm(0x11));
    }
}

proof fn lemma_tree_begin(b: nat, w: u32, s: EmitV, slot: u8)
    ensures
        adds_all(
            b,
            w,
            s,
            idx_op(op(idx_op(idx_op(s, 0x70, slot), 0x70, 0), 0x32), 0x50, 1),
            seq![0x70int, 0x70, 0x32, 0x50],
        ),
{
    let s1 = idx_op(s, 0x70, slot);
    let s2 = idx_op(s1, 0x70, 0);
    let s3 = op(s2, 0x32);
    let s4 = idx_op(s3, 0x50, 1);
    lemma_first(b, w, s);
    lemma_adds_idx_op(b, w, s, 0x70, slot);
    lemma_one_more(b, w, s, s, s1, seq![], 0x70, seq![0x70int]);
    lemma_adds_idx_op(b, w, s1, 0x70, 0);
    lemma_one_more(b, w, s, s1, s2, seq![0x70int], 0x70, seq![0x70int, 0x70]);
    lemma_adds_op(b, w, s2, 0x32);
    lemma_one_more(b, w, s, s2, s3, seq![0x70int, 0x70], 0x32, seq![0x70int, 0x70, 0x32]);
    lemma_adds_idx_op(b, w, s3, 0x50, 1);
    lemma_one_more(b, w, s, s3, s4, seq![0x70int, 0x70, 0x32], 0x50, seq![0x70int, 0x70, 0x32, 0x50]);
}

proof fn lemma_hashed(b: nat, w: u32, s: EmitV, leaf_first: u32, n: u32)
    ensures
        idle(b, w, s, leaf_hash(s, leaf_first, n).0),
        leaf_hash(s, leaf_first, n).0.guard == s.guard,
{
    broadcast use crate::operation_groups::steps;

    crate::emission_laws::lemma_leaf_hash(false, s, leaf_first, n);
    reveal(leaf_hash);
}

proof fn lemma_tree_insert(b: nat, w: u32, s: EmitV, slot: u8, leaf_first: u32, n: u32)
    ensures
        adds_all(
            b,
            w,
            s,
            merkle_insert(s, slot, leaf_first, n),
            seq![0x70int, 0x70, 0x32, 0x50, 0x11, 0x91, 0xa1, 0x70, 0x0e, 0xa2],
        ),
{
    let s4 = idx_op(op(idx_op(idx_op(s, 0x70, slot), 0x70, 0), 0x32), 0x50, 1);
    lemma_tree_begin(b, w, s, slot);
    let (hashed, h) = leaf_hash(s4, leaf_first, n);
    lemma_hashed(b, w, s4, leaf_first, n);
    lemma_then_idle(b, w, s, s4, hashed, seq![0x70int, 0x70, 0x32, 0x50]);
    if ready(b, w, s) {
        lemma_leaf_group(b, w, hashed, h, s.guard);
        let (c, o) = load(hashed, 0x11);
        let (d, disc) = load(c, 1);
        let (e, len) = load(d, 32);
        let f = declare(declare(declare(declare(e, o), disc), disc), len);
        let s5 = skip(declare(declare(f, h), h.wrapping_add(1)), s.guard, 6);
        lemma_one_more(b, w, s, hashed, s5, seq![0x70int, 0x70, 0x32, 0x50], 0x11, seq![0x70int, 0x70, 0x32, 0x50, 0x11]);
        lemma_tree_end(b, w, s, s5);
        assert(merkle_insert(s, slot, leaf_first, n) == op(
            addi_op(idx_op(op(op(s5, 0x91), 0xa1), 0x70, 1), 1).0,
            0xa2,
        )) by {
            reveal(merkle_insert);
        }
    }
}

proof fn lemma_tree_end(b: nat, w: u32, s: EmitV, s5: EmitV)
    requires
        adds_all(b, w, s, s5, seq![0x70int, 0x70, 0x32, 0x50, 0x11]),
    ensures
        adds_all(
            b,
            w,
            s,
            op(addi_op(idx_op(op(op(s5, 0x91), 0xa1), 0x70, 1), 1).0, 0xa2),
            seq![0x70int, 0x70, 0x32, 0x50, 0x11, 0x91, 0xa1, 0x70, 0x0e, 0xa2],
        ),
{
    let s6 = op(s5, 0x91);
    let s7 = op(s6, 0xa1);
    let s8 = idx_op(s7, 0x70, 1);
    let s9 = addi_op(s8, 1).0;
    lemma_adds_op(b, w, s5, 0x91);
    lemma_one_more(b, w, s, s5, s6, seq![0x70int, 0x70, 0x32, 0x50, 0x11], 0x91, seq![0x70int, 0x70, 0x32, 0x50, 0x11, 0x91]);
    lemma_adds_op(b, w, s6, 0xa1);
    lemma_one_more(b, w, s, s6, s7, seq![0x70int, 0x70, 0x32, 0x50, 0x11, 0x91], 0xa1, seq![0x70int, 0x70, 0x32, 0x50, 0x11, 0x91, 0xa1]);
    lemma_adds_idx_op(b, w, s7, 0x70, 1);
    lemma_one_more(b, w, s, s7, s8, seq![0x70int, 0x70, 0x32, 0x50, 0x11, 0x91, 0xa1], 0x70, seq![0x70int, 0x70, 0x32, 0x50, 0x11, 0x91, 0xa1, 0x70]);
    lemma_adds_addi_op(b, w, s8, 1);
    lemma_one_more(b, w, s, s8, s9, seq![0x70int, 0x70, 0x32, 0x50, 0x11, 0x91, 0xa1, 0x70], 0x0e, seq![0x70int, 0x70, 0x32, 0x50, 0x11, 0x91, 0xa1, 0x70, 0x0e]);
    lemma_adds_op(b, w, s9, 0xa2);
    lemma_one_more(b, w, s, s9, op(s9, 0xa2), seq![0x70int, 0x70, 0x32, 0x50, 0x11, 0x91, 0xa1, 0x70, 0x0e], 0xa2, seq![0x70int, 0x70, 0x32, 0x50, 0x11, 0x91, 0xa1, 0x70, 0x0e, 0xa2]);
}

// ---- the access as a whole

/// How many operands an access takes its wires from.
pub open spec fn operand_count(cx: ContractV, slot: u8, method: Seq<char>) -> nat {
    let keyed = match slot_type(cx, slot) {
        Some(t) => map_kv(t) is Some,
        None => false,
    };
    if method == "increment"@ || method == "increment_by"@ || is_read(method) {
        0
    } else if keyed && (method == "insert"@ || method == "set"@) {
        2
    } else {
        1
    }
}

/// Whether each operand of an access stands there and has a wire, and a value
/// that is written takes at least one.
pub open spec fn operands_wired(
    cx: ContractV,
    s: EmitV,
    slot: u8,
    method: Seq<char>,
    args: Seq<ExprV>,
    depth: nat,
) -> bool {
    let n = operand_count(cx, slot, method);
    &&& n <= args.len()
    &&& lower_all(cx, s, args, n, depth).1 is Some
    &&& method == "insert"@ || method == "set"@ ==> written_wires(cx, slot, Some(0)).len() > 0
}

proof fn lemma_operands(cx: ContractV, s: EmitV, args: Seq<ExprV>, depth: nat)
    ensures
        args.len() >= 1 && lower_all(cx, s, args, 1, depth).1 is Some ==> lower_arg(cx, s, args, 0, depth).1 is Some,
        args.len() >= 2 && lower_all(cx, s, args, 2, depth).1 is Some ==> lower_arg(cx, s, args, 0, depth).1 is Some
            && lower_arg(cx, lower_arg(cx, s, args, 0, depth).0, args, 1, depth).1 is Some,
        s.errors.len() <= lower_arg(cx, s, args, 0, depth).0.errors.len(),
        lower_arg(cx, s, args, 0, depth).0.guard == s.guard,
        lower_arg(cx, lower_arg(cx, s, args, 0, depth).0, args, 1, depth).0.guard == s.guard,
{
    reveal_with_fuel(lower_all, 3);
    if args.len() >= 1 {
        errors_are_kept(cx, s, args[0], depth);
        place_is_restored(cx, s, args[0], depth);
    }
    if args.len() >= 2 {
        place_is_restored(cx, lower_arg(cx, s, args, 0, depth).0, args[1], depth);
    }
}

proof fn lemma_methods_differ()
    ensures
        "increment"@.len() == 9,
        "increment_by"@.len() == 12,
        "get"@.len() == 3 && "get"@[0] == 'g',
        "value"@.len() == 5,
        "__direct_access"@.len() == 15,
        "contains"@.len() == 8,
        "member"@.len() == 6 && "member"@[0] == 'm',
        "insert"@.len() == 6 && "insert"@[0] == 'i',
        "set"@.len() == 3 && "set"@[0] == 's',
        "remove"@.len() == 6 && "remove"@[0] == 'r',
        "lookup"@.len() == 6 && "lookup"@[0] == 'l',
        "check_root"@.len() == 10,
{
    reveal_strlit("increment");
    reveal_strlit("increment_by");
    reveal_strlit("get");
    reveal_strlit("value");
    reveal_strlit("__direct_access");
    reveal_strlit("contains");
    reveal_strlit("member");
    reveal_strlit("insert");
    reveal_strlit("set");
    reveal_strlit("remove");
    reveal_strlit("lookup");
    reveal_strlit("check_root");
}

#[verifier::rlimit(60)]
proof fn lemma_map_access(
    b: nat,
    w: u32,
    cx: ContractV,
    s: EmitV,
    slot: u8,
    k: TyV,
    v: TyV,
    field: Seq<char>,
    method: Seq<char>,
    args: Seq<ExprV>,
    depth: nat,
    steps: Seq<StepV>,
)
    requires
        ledger_free_helpers(cx),
        all_ledger_free(args),
        field_slot(cx, field) == Some(slot),
        slot_type(cx, slot) is Some,
        map_kv(slot_type(cx, slot)->0) == Some((k, v)),
        ledger_script(cx, field, method, args) == Some(steps),
        operands_wired(cx, s, slot, method, args, depth),
        lower_map_method(cx, s, slot, k, v, method, args, depth).0.errors.len() == s.errors.len(),
    ensures
        adds_all(
            b,
            w,
            s,
            lower_map_method(cx, s, slot, k, v, method, args, depth).0,
            script_codes(steps),
        ),
{
    lemma_methods_differ();
    lemma_operands(cx, s, args, depth);
    let (a, first) = lower_arg(cx, s, args, 0, depth);
    lemma_idle_arg(b, w, cx, s, args, 0, depth);
    if value_encoding(type_ctx(cx), k) is Some {
        let ke = value_encoding(type_ctx(cx), k)->0;
        let key = wires(first->0, ke.value_field_count);
        if method == "contains"@ {
            lemma_member(b, w, a, slot, key, ke);
            lemma_member_script(cx, slot, field, args, slot_type(cx, slot), true);
        } else if method == "insert"@ || method == "set"@ {
            let (c, second) = lower_arg(cx, a, args, 1, depth);
            lemma_idle_arg(b, w, cx, a, args, 1, depth);
            if value_encoding(type_ctx(cx), v) is Some {
                let ve = value_encoding(type_ctx(cx), v)->0;
                lemma_inserts(b, w, c, slot, key, ke, wires(second->0, ve.value_field_count), ve);
                lemma_keyed_codes(
                    u8_code(slot),
                    nth_aligned(cx, args, 0, Some(k)),
                    nth_aligned(cx, args, 1, Some(v)),
                );
            }
        } else if method == "remove"@ {
            lemma_remove(b, w, a, slot, key, ke);
            lemma_keyed_codes(u8_code(slot), nth_aligned(cx, args, 0, Some(k)), seq![]);
        } else if method == "lookup"@ {
            if value_encoding(type_ctx(cx), v) is Some {
                let ve = value_encoding(type_ctx(cx), v)->0;
                if read_layout(type_ctx(cx), v).len() == ve.value_field_count {
                    lemma_lookup(b, w, cx, a, slot, key, ke, v, ve);
                } else {
                    lemma_lookup_fails(cx, a, slot, key, ke, v, ve);
                }
                lemma_lookup_codes(
                    first_raw(args),
                    u8_code(slot),
                    bound_key(cx, args, Some(k)),
                    looked_up(cx, state_lookup(field, "__key"@), v),
                );
            }
        }
    }
}

proof fn lemma_member_script(
    cx: ContractV,
    slot: u8,
    field: Seq<char>,
    args: Seq<ExprV>,
    t: Option<TyV>,
    statement: bool,
)
    ensures
        script_codes(member_steps(cx, slot, field, args, t, statement)) == seq![0x30int, 0x50, 0x10, 0x18, 0x0d],
{
    assert forall|h: Seq<char>, at: Seq<char>, key: Seq<char>, test: Seq<char>, tail: Seq<char>|
        script_codes(#[trigger] contains_steps(h, at, key, test, tail)) == seq![0x30int, 0x50, 0x10, 0x18, 0x0d] by {
        lemma_member_codes(h, at, key, test, tail);
    }
}

proof fn lemma_lookup_fails(cx: ContractV, s: EmitV, slot: u8, key: Seq<u32>, ke: EncodingV, vt: TyV, ve: EncodingV)
    requires
        read_layout(type_ctx(cx), vt).len() != ve.value_field_count,
    ensures
        map_lookup(cx, s, slot, key, ke, vt, ve).0.errors.len() > s.errors.len(),
{
    reveal(map_lookup);
    let s2 = idx_op(op(s, 0x30), 0x50, slot);
    let (a, o) = load(s2, 0x50);
    let d = declare(a, o);
    let d1 = declare_atoms(d, ke.alignment_atoms, ke.alignment_atoms.len());
    let d2 = declare_all(d1, key, key.len());
    assert(s.errors.len() <= s2.errors.len()) by {
        crate::emission_laws::lemma_dup_idx(false, s, slot);
        reveal(crate::emission_laws::continues);
    }
    assert(s2.errors.len() <= d.errors.len()) by {
        crate::emission_laws::lemma_load_declare(false, s2, 0x50);
        reveal(crate::emission_laws::continues);
    }
    assert(d.errors.len() <= d1.errors.len()) by {
        crate::emission_laws::lemma_declare_atoms(false, d, ke.alignment_atoms, ke.alignment_atoms.len());
        reveal(crate::emission_laws::continues);
    }
    assert(d1.errors.len() <= d2.errors.len()) by {
        crate::emission_laws::lemma_declare_all(false, d1, key, key.len());
        reveal(crate::emission_laws::continues);
    }
    reveal(put);
}

proof fn lemma_set_access(
    b: nat,
    w: u32,
    cx: ContractV,
    s: EmitV,
    slot: u8,
    k: TyV,
    field: Seq<char>,
    method: Seq<char>,
    args: Seq<ExprV>,
    depth: nat,
    steps: Seq<StepV>,
)
    requires
        ledger_free_helpers(cx),
        all_ledger_free(args),
        field_slot(cx, field) == Some(slot),
        slot_type(cx, slot) is Some,
        map_kv(slot_type(cx, slot)->0) is None,
        set_inner(slot_type(cx, slot)->0) == Some(k),
        ledger_script(cx, field, method, args) == Some(steps),
        operands_wired(cx, s, slot, method, args, depth),
        lower_set_method(cx, s, slot, k, method, args, depth).0.errors.len() == s.errors.len(),
    ensures
        adds_all(b, w, s, lower_set_method(cx, s, slot, k, method, args, depth).0, script_codes(steps)),
{
    lemma_methods_differ();
    lemma_operands(cx, s, args, depth);
    let (a, first) = lower_arg(cx, s, args, 0, depth);
    lemma_idle_arg(b, w, cx, s, args, 0, depth);
    if value_encoding(type_ctx(cx), k) is Some {
        let ke = value_encoding(type_ctx(cx), k)->0;
        let key = wires(first->0, ke.value_field_count);
        if method == "contains"@ || method == "member"@ {
            lemma_member(b, w, a, slot, key, ke);
            lemma_member_script(cx, slot, field, args, slot_type(cx, slot), true);
        } else if method == "insert"@ {
            lemma_inserts(b, w, a, slot, key, ke, seq![], ke);
            lemma_keyed_codes(u8_code(slot), nth_aligned(cx, args, 0, Some(k)), seq![]);
        } else if method == "remove"@ {
            lemma_remove(b, w, a, slot, key, ke);
            lemma_keyed_codes(u8_code(slot), nth_aligned(cx, args, 0, Some(k)), seq![]);
        }
    }
}

proof fn lemma_tree_access(
    b: nat,
    w: u32,
    cx: ContractV,
    s: EmitV,
    slot: u8,
    field: Seq<char>,
    method: Seq<char>,
    args: Seq<ExprV>,
    depth: nat,
    steps: Seq<StepV>,
)
    requires
        ledger_free_helpers(cx),
        all_ledger_free(args),
        field_slot(cx, field) == Some(slot),
        slot_type(cx, slot) is Some,
        map_kv(slot_type(cx, slot)->0) is None,
        set_inner(slot_type(cx, slot)->0) is None,
        merkle_leaf(slot_type(cx, slot)->0) is Some,
        ledger_script(cx, field, method, args) == Some(steps),
        operands_wired(cx, s, slot, method, args, depth),
        lower_merkle_method(cx, s, slot, method, args, depth).0.errors.len() == s.errors.len(),
    ensures
        adds_all(b, w, s, lower_merkle_method(cx, s, slot, method, args, depth).0, script_codes(steps)),
{
    lemma_methods_differ();
    lemma_operands(cx, s, args, depth);
    let (a, first) = lower_arg(cx, s, args, 0, depth);
    lemma_idle_arg(b, w, cx, s, args, 0, depth);
    lemma_tree_codes(first_raw(args), u8_code(slot), live_test(field, " . check_root (& __digest) ;"@));
    if method == "check_root"@ {
        lemma_root(b, w, a, slot, first->0);
    } else if method == "insert"@ && slot_leaf_len(cx, slot) is Some {
        lemma_tree_insert(b, w, a, slot, first->0, slot_leaf_len(cx, slot)->0);
    }
}

proof fn lemma_cell_write(
    b: nat,
    w: u32,
    cx: ContractV,
    s: EmitV,
    slot: u8,
    args: Seq<ExprV>,
    depth: nat,
    x: Seq<char>,
)
    requires
        ledger_free_helpers(cx),
        all_ledger_free(args),
        written_wires(cx, slot, Some(0)).len() > 0,
        lower_arg(cx, s, args, 0, depth).1 is Some,
    ensures
        ({
            let (a, first) = lower_arg(cx, s, args, 0, depth);
            adds_all(
                b,
                w,
                s,
                ledger_write(cx, a, slot, written_wires(cx, slot, first)).0,
                script_codes(write_steps(u8_code(slot), x)),
            )
        }),
{
    let (a, first) = lower_arg(cx, s, args, 0, depth);
    lemma_operands(cx, s, args, depth);
    lemma_idle_arg(b, w, cx, s, args, 0, depth);
    assert(written_wires(cx, slot, first).len() == written_wires(cx, slot, Some(0)).len());
    lemma_write(b, w, cx, a, slot, written_wires(cx, slot, first));
    lemma_write_codes(u8_code(slot), x);
}

/// Which script an access of a cell or counter has.
proof fn lemma_cell_script(
    cx: ContractV,
    slot: u8,
    field: Seq<char>,
    method: Seq<char>,
    args: Seq<ExprV>,
    steps: Seq<StepV>,
)
    requires
        field_slot(cx, field) == Some(slot),
        slot_type(cx, slot) matches Some(t) ==> map_kv(t) is None && set_inner(t) is None && merkle_leaf(t) is None,
        ledger_script(cx, field, method, args) == Some(steps),
    ensures
        method == "increment"@ || method == "increment_by"@ ==> increment_amount(args) is Some && script_codes(steps)
            == seq![0x70int, 0x0e, 0xa1],
        is_read(method) ==> script_codes(steps) == seq![0x30int, 0x50, 0x0d],
        method == "set"@ || method == "insert"@ ==> exists|x: Seq<char>| steps == #[trigger] write_steps(
            u8_code(slot),
            x,
        ),
        method == "increment"@ || method == "increment_by"@ || is_read(method) || method == "set"@ || method
            == "insert"@ || is_member(method) || method == "remove"@ || method == "lookup"@ || method == "check_root"@,
{
    lemma_methods_differ();
    assert forall|at: Seq<char>, x: Seq<char>|
        #![trigger read_steps(at, x)]
        #![trigger increment_steps(at, x)]
        script_codes(read_steps(at, x)) == seq![0x30int, 0x50, 0x0d] && script_codes(increment_steps(at, x)) == seq![
            0x70int,
            0x0e,
            0xa1,
        ] by {
        lemma_write_codes(at, x);
    }
}

proof fn lemma_cell_access(
    b: nat,
    w: u32,
    cx: ContractV,
    s: EmitV,
    slot: u8,
    field: Seq<char>,
    method: Seq<char>,
    args: Seq<ExprV>,
    depth: nat,
    steps: Seq<StepV>,
)
    requires
        ledger_free_helpers(cx),
        all_ledger_free(args),
        field_slot(cx, field) == Some(slot),
        slot_type(cx, slot) matches Some(t) ==> map_kv(t) is None && set_inner(t) is None && merkle_leaf(t) is None,
        ledger_script(cx, field, method, args) == Some(steps),
        operands_wired(cx, s, slot, method, args, depth),
        lower_cell_method(cx, s, slot, slot_type(cx, slot), field, method, args, depth).0.errors.len()
            == s.errors.len(),
    ensures
        adds_all(
            b,
            w,
            s,
            lower_cell_method(cx, s, slot, slot_type(cx, slot), field, method, args, depth).0,
            script_codes(steps),
        ),
{
    lemma_cell_script(cx, slot, field, method, args, steps);
    let t = slot_type(cx, slot);
    if method == "increment"@ || method == "increment_by"@ {
        lemma_counter(b, w, s, slot, increment_amount(args)->0);
    } else if is_read(method) {
        lemma_read(
            b,
            w,
            cx,
            s,
            slot,
            match t {
                Some(t) => read_type(t),
                None => None,
            },
        );
    } else if method == "set"@ || method == "insert"@ {
        lemma_methods_differ();
        lemma_operands(cx, s, args, depth);
        let x = choose|x: Seq<char>| steps == #[trigger] write_steps(u8_code(slot), x);
        lemma_cell_write(b, w, cx, s, slot, args, depth, x);
    }
}

/// Whether a ledger access can be held against the circuit: its operands hold
/// no ledger access, and have wires.
pub open spec fn in_reach(
    cx: ContractV,
    s: EmitV,
    field: Seq<char>,
    method: Seq<char>,
    args: Seq<ExprV>,
    depth: nat,
) -> bool {
    &&& all_ledger_free(args)
    &&& field_slot(cx, field) matches Some(slot) ==> operands_wired(cx, s, slot, method, args, depth)
}

pub(crate) proof fn lemma_access(
    b: nat,
    w: u32,
    cx: ContractV,
    s: EmitV,
    span: Span,
    field: Seq<char>,
    method: Seq<char>,
    args: Seq<ExprV>,
    depth: nat,
)
    requires
        ledger_free_helpers(cx),
        in_reach(cx, s, field, method, args, depth),
        ledger_script(cx, field, method, args) is Some,
        lower(cx, s, ExprV::LedgerAccess { span, field, method, args }, depth).0.errors.len() == s.errors.len(),
    ensures
        adds_all(
            b,
            w,
            s,
            lower(cx, s, ExprV::LedgerAccess { span, field, method, args }, depth).0,
            script_codes(ledger_script(cx, field, method, args)->0),
        ),
{
    let steps = ledger_script(cx, field, method, args)->0;
    let slot = field_slot(cx, field)->0;
    match slot_type(cx, slot) {
        None => lemma_cell_access(b, w, cx, s, slot, field, method, args, depth, steps),
        Some(t) => match map_kv(t) {
            Some((k, v)) => lemma_map_access(b, w, cx, s, slot, k, v, field, method, args, depth, steps),
            None => match set_inner(t) {
                Some(k) => lemma_set_access(b, w, cx, s, slot, k, field, method, args, depth, steps),
                None => if merkle_leaf(t) is Some {
                    lemma_tree_access(b, w, cx, s, slot, field, method, args, depth, steps)
                } else {
                    lemma_cell_access(b, w, cx, s, slot, field, method, args, depth, steps)
                },
            },
        },
    }
}

/// The host and the circuit run one program: for a ledger access whose
/// operands hold no ledger access, the groups of public inputs that lowering
/// adds bear, in order, the opcodes of the operations that its script pushes,
/// all under the guard of the place. This is of an access that lowers without
/// an error and whose operands have wires; an operand without a value adds no
/// group for what it would push.
pub proof fn groups_follow_the_script(
    cx: ContractV,
    s: EmitV,
    span: Span,
    field: Seq<char>,
    method: Seq<char>,
    args: Seq<ExprV>,
    depth: nat,
)
    requires
        ledger_free_helpers(cx),
        in_reach(cx, s, field, method, args, depth),
        lower(cx, s, ExprV::LedgerAccess { span, field, method, args }, depth).0.errors.len() == s.errors.len(),
    ensures
        ledger_script(cx, field, method, args) matches Some(steps) ==> groups_between(
            s,
            lower(cx, s, ExprV::LedgerAccess { span, field, method, args }, depth).0,
        ) == marks(script_codes(steps), s.guard),
{
    let b = s.instructions.len();
    let w = s.next_index;
    assert(s.instructions.skip(b as int) =~= seq![]);
    assert(ready(b, w, s) && progress(b, w, s).closed =~= seq![]);
    if ledger_script(cx, field, method, args) is Some {
        let codes = script_codes(ledger_script(cx, field, method, args)->0);
        lemma_access(b, w, cx, s, span, field, method, args, depth);
        assert(seq![] + marks(codes, s.guard) =~= marks(codes, s.guard));
    }
}

/// A ledger access pushes the same operations as a condition as it does as a
/// statement or value, and so matches the same groups.
pub proof fn conditions_push_the_same_operations(cx: ContractV, field: Seq<char>, method: Seq<char>, args: Seq<ExprV>)
    ensures
        cond_script(cx, field, method, args) matches Some(c) ==> (ledger_script(cx, field, method, args) matches Some(
            l,
        ) && script_codes(c) == script_codes(l)),
{
    lemma_methods_differ();
    if cond_script(cx, field, method, args) is Some {
        let slot = field_slot(cx, field)->0;
        let t = slot_type(cx, slot);
        lemma_member_script(cx, slot, field, args, t, true);
        lemma_member_script(cx, slot, field, args, t, false);
        assert forall|at: Seq<char>, x: Seq<char>|
            #![trigger read_steps(at, x)]
            #![trigger cond_read_steps(at, x)]
            script_codes(read_steps(at, x)) == seq![0x30int, 0x50, 0x0d] && script_codes(cond_read_steps(at, x))
                == seq![0x30int, 0x50, 0x0d] by {
            lemma_write_codes(at, x);
        }
    }
}

/// How many operations each access pushes, and so how many groups it adds:
/// three for an increment, a read or a cell write; five for a membership test
/// and for an insertion into a map or set; four for a removal and a lookup;
/// seven for a root check; ten for an insertion into a tree.
pub proof fn script_lengths(cx: ContractV, field: Seq<char>, method: Seq<char>, args: Seq<ExprV>)
    ensures
        ledger_script(cx, field, method, args) matches Some(steps) ==> {
            let t = slot_type(cx, field_slot(cx, field)->0);
            let map = t is Some && map_kv(t->0) is Some;
            let set = t is Some && set_inner(t->0) is Some;
            let tree = t is Some && merkle_leaf(t->0) is Some;
            let n = script_codes(steps).len();
            &&& method == "increment"@ || method == "increment_by"@ || is_read(method) ==> n == 3
            &&& is_member(method) ==> n == 5
            &&& method == "insert"@ && (map || set) ==> n == 5
            &&& method == "insert"@ && !map && !set && tree ==> n == 10
            &&& method == "insert"@ && !map && !set && !tree ==> n == 3
            &&& method == "set"@ && map ==> n == 5
            &&& method == "set"@ && !map ==> n == 3
            &&& method == "remove"@ || method == "lookup"@ ==> n == 4
            &&& method == "check_root"@ ==> n == 7
        },
{
    lemma_methods_differ();
    if ledger_script(cx, field, method, args) is Some {
        let slot = field_slot(cx, field)->0;
        lemma_member_script(cx, slot, field, args, slot_type(cx, slot), true);
        assert forall|at: Seq<char>, x: Seq<char>|
            #![trigger write_steps(at, x)]
            #![trigger read_steps(at, x)]
            #![trigger increment_steps(at, x)]
            script_codes(write_steps(at, x)).len() == 3 && script_codes(read_steps(at, x)).len() == 3 && script_codes(
                increment_steps(at, x),
            ).len() == 3 by {
            lemma_write_codes(at, x);
        }
        assert forall|at: Seq<char>, x: Seq<char>, y: Seq<char>|
            script_codes(#[trigger] map_insert_steps(at, x, y)).len() == 5 by {
            lemma_keyed_codes(at, x, y);
        }
        assert forall|at: Seq<char>, x: Seq<char>|
            #![trigger set_insert_steps(at, x)]
            #![trigger map_remove_steps(at, x)]
            script_codes(set_insert_steps(at, x)).len() == 5 && script_codes(map_remove_steps(at, x)).len() == 4 by {
            lemma_keyed_codes(at, x, x);
        }
        assert forall|raw: Seq<char>, at: Seq<char>, key: Seq<char>, x: Seq<char>|
            script_codes(#[trigger] lookup_steps(raw, at, key, x)).len() == 4 by {
            lemma_lookup_codes(raw, at, key, x);
        }
        lemma_tree_codes(first_raw(args), u8_code(slot), live_test(field, " . check_root (& __digest) ;"@));
    }
}

} // verus!
