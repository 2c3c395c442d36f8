//! The private inputs of an emitter state, and which steps leave them alone.
use crate::contract::ContractV;
use crate::emission::{addi_op, counter_increment, declare, declare_all, declare_atoms, emit, idx_op, io_guard};
use crate::emission::{key_repr, leaf_hash, ledger_read, ledger_write, load, map_insert, map_lookup, map_member};
use crate::emission::{map_remove, merkle_check_root, merkle_insert, op, path_fold, popeq_bool, private_block};
use crate::emission::{push_cell, push_null, put, read_elements, set_insert, skip, type_ctx, value_encoding, EmitV};
use crate::expr::BinOp;
use crate::lowering::{binary, path_root};
use crate::nocturne_type::{EncodingV, FrLayout};
use crate::syntax::TyV;
use crate::zkir::InstructionV;
use vstd::prelude::*;

verus! {

// ---- private inputs of a state

/// The private inputs among a list of instructions, each by whether it is
/// guarded.
pub open spec fn private_inputs(is: Seq<InstructionV>) -> Seq<bool>
    decreases is.len(),
{
    if is.len() == 0 {
        seq![]
    } else {
        match is.last() {
            InstructionV::PrivateInput { guard } => private_inputs(is.drop_last()).push(guard is Some),
            _ => private_inputs(is.drop_last()),
        }
    }
}

pub(crate) proof fn lemma_inputs_push(is: Seq<InstructionV>, i: InstructionV)
    ensures
        private_inputs(is.push(i)) == (match i {
            InstructionV::PrivateInput { guard } => private_inputs(is).push(guard is Some),
            _ => private_inputs(is),
        }),
{
    assert(is.push(i).drop_last() =~= is);
}

/// `t` differs from `s` in nothing that concerns witnesses and names.
pub open spec fn quiet(s: EmitV, t: EmitV) -> bool {
    &&& t.variables == s.variables
    &&& t.guarded_witness_fields == s.guarded_witness_fields
    &&& t.in_conditional == s.in_conditional
    &&& t.in_helper == s.in_helper
    &&& private_inputs(t.instructions) == private_inputs(s.instructions)
}

pub(crate) broadcast proof fn lemma_quiet_emit(s: EmitV, i: InstructionV)
    ensures
        !(i is PrivateInput) ==> quiet(s, (#[trigger] emit(s, i)).0),
{
    reveal(emit);
    lemma_inputs_push(s.instructions, i);
}

pub(crate) broadcast proof fn lemma_quiet_put(s: EmitV, i: InstructionV)
    ensures
        !(i is PrivateInput) ==> quiet(s, #[trigger] put(s, i)),
{
    reveal(put);
    lemma_inputs_push(s.instructions, i);
}

pub(crate) broadcast group single {
    lemma_quiet_emit,
    lemma_quiet_put,
}

pub(crate) broadcast proof fn lemma_quiet_declare(s: EmitV, v: u32)
    ensures
        quiet(s, #[trigger] declare(s, v)),
{
    broadcast use single;

    reveal(declare);
}

pub(crate) broadcast proof fn lemma_quiet_key_repr(s: EmitV, key: u8)
    ensures
        quiet(s, #[trigger] key_repr(s, key)),
{
    broadcast use single;
    broadcast use lemma_quiet_declare;

    reveal(key_repr);
}

pub(crate) broadcast proof fn lemma_quiet_op(s: EmitV, code: int)
    ensures
        quiet(s, #[trigger] op(s, code)),
{
    broadcast use single;
    broadcast use lemma_quiet_declare;

    reveal(op);
}

pub(crate) broadcast proof fn lemma_quiet_idx_op(s: EmitV, code: int, key: u8)
    ensures
        quiet(s, #[trigger] idx_op(s, code, key)),
{
    broadcast use single;
    broadcast use lemma_quiet_declare;
    broadcast use lemma_quiet_key_repr;

    reveal(idx_op);
}

pub(crate) broadcast proof fn lemma_quiet_addi_op(s: EmitV, n: int)
    ensures
        quiet(s, (#[trigger] addi_op(s, n)).0),
{
    broadcast use single;
    broadcast use lemma_quiet_declare;

    reveal(addi_op);
}

pub(crate) proof fn lemma_quiet_declare_all(s: EmitV, vars: Seq<u32>, n: nat)
    ensures
        quiet(s, declare_all(s, vars, n)),
    decreases n,
{
    broadcast use lemma_quiet_declare;

    if n > 0 && n <= vars.len() {
        lemma_quiet_declare_all(s, vars, (n - 1) as nat);
    }
}

pub(crate) proof fn lemma_quiet_declare_atoms(s: EmitV, atoms: Seq<i32>, n: nat)
    ensures
        quiet(s, declare_atoms(s, atoms, n)),
    decreases n,
{
    broadcast use single;
    broadcast use lemma_quiet_declare;

    if n > 0 && n <= atoms.len() {
        lemma_quiet_declare_atoms(s, atoms, (n - 1) as nat);
    }
}

pub(crate) proof fn lemma_quiet_read_elements(s: EmitV, layout: Seq<Option<u32>>, n: nat)
    ensures
        quiet(s, read_elements(s, layout, n).0),
        0 < n <= layout.len() ==> read_elements(s, layout, n).1 is Some,
    decreases n,
{
    broadcast use single;
    broadcast use lemma_quiet_declare;

    if n > 0 && n <= layout.len() {
        lemma_quiet_read_elements(s, layout, (n - 1) as nat);
    }
}

pub(crate) broadcast proof fn lemma_quiet_push_cell(s: EmitV, vars: Seq<u32>, enc: Option<EncodingV>, storage: bool)
    ensures
        quiet(s, #[trigger] push_cell(s, vars, enc, storage)),
{
    broadcast use single;
    broadcast use lemma_quiet_declare;

    reveal(push_cell);
    let (a, o) = load(s, if storage { 0x11 } else { 0x10 });
    let b = declare(a, o);
    if enc is Some {
        let e = enc->0;
        let (c, disc) = load(b, 1);
        let c1 = declare(c, disc);
        lemma_quiet_declare_atoms(c1, e.alignment_atoms, e.alignment_atoms.len());
        lemma_quiet_declare_all(declare_atoms(c1, e.alignment_atoms, e.alignment_atoms.len()), vars, vars.len());
    }
}

pub(crate) broadcast proof fn lemma_quiet_push_null(s: EmitV, storage: bool)
    ensures
        quiet(s, #[trigger] push_null(s, storage)),
{
    broadcast use single;
    broadcast use lemma_quiet_declare;

    reveal(push_null);
}

pub(crate) broadcast proof fn lemma_quiet_popeq_bool(s: EmitV)
    ensures
        quiet(s, (#[trigger] popeq_bool(s)).0),
{
    broadcast use single;
    broadcast use lemma_quiet_declare;

    reveal(popeq_bool);
}

pub(crate) broadcast group groups {
    lemma_quiet_emit,
    lemma_quiet_put,
    lemma_quiet_declare,
    lemma_quiet_op,
    lemma_quiet_idx_op,
    lemma_quiet_addi_op,
    lemma_quiet_push_cell,
    lemma_quiet_push_null,
    lemma_quiet_popeq_bool,
}

pub(crate) proof fn lemma_quiet_counter_increment(s: EmitV, slot: u8, n: u32)
    ensures
        quiet(s, counter_increment(s, slot, n).0),
{
    broadcast use groups;

    reveal(counter_increment);
}

pub(crate) proof fn lemma_quiet_ledger_read(cx: ContractV, s: EmitV, slot: u8, ty: Option<TyV>)
    ensures
        quiet(s, ledger_read(cx, s, slot, ty).0),
        ledger_read(cx, s, slot, ty).1 is Some || ledger_read(cx, s, slot, ty).0.errors.len() > 0,
{
    broadcast use groups;

    reveal(ledger_read);
    let (a, o) = load(idx_op(op(s, 0x30), 0x50, slot), 0x0d);
    let b = declare(a, o);
    let enc = match ty {
        Some(t) => value_encoding(type_ctx(cx), t),
        None => None,
    };
    if enc is Some {
        let e = enc->0;
        let layout = crate::emission::read_layout(type_ctx(cx), ty->0);
        lemma_quiet_declare_atoms(b, e.alignment_atoms, e.alignment_atoms.len());
        lemma_quiet_read_elements(
            declare_atoms(b, e.alignment_atoms, e.alignment_atoms.len()),
            layout,
            layout.len(),
        );
    }
}

pub(crate) proof fn lemma_quiet_map_insert(
    s: EmitV,
    slot: u8,
    key: Seq<u32>,
    ke: EncodingV,
    val: Seq<u32>,
    ve: EncodingV,
)
    ensures
        quiet(s, map_insert(s, slot, key, ke, val, ve)),
{
    broadcast use groups;

    reveal(map_insert);
}

pub(crate) proof fn lemma_quiet_map_member(s: EmitV, slot: u8, key: Seq<u32>, ke: EncodingV)
    ensures
        quiet(s, map_member(s, slot, key, ke).0),
        map_member(s, slot, key, ke).1 is Some,
{
    broadcast use groups;

    reveal(map_member);
}

pub(crate) proof fn lemma_quiet_map_lookup(
    cx: ContractV,
    s: EmitV,
    slot: u8,
    key: Seq<u32>,
    ke: EncodingV,
    vt: TyV,
    ve: EncodingV,
)
    ensures
        quiet(s, map_lookup(cx, s, slot, key, ke, vt, ve).0),
        ve.value_field_count > 0 ==> map_lookup(cx, s, slot, key, ke, vt, ve).1 is Some || map_lookup(
            cx,
            s,
            slot,
            key,
            ke,
            vt,
            ve,
        ).0.errors.len() > 0,
{
    broadcast use groups;

    reveal(map_lookup);
    let (a, o) = load(idx_op(op(s, 0x30), 0x50, slot), 0x50);
    let a1 = declare(a, o);
    let a2 = declare_atoms(a1, ke.alignment_atoms, ke.alignment_atoms.len());
    let b = declare_all(a2, key, key.len());
    let c = skip(b, s.guard, (1 + ke.alignment_atoms.len() + key.len()) as u32);
    lemma_quiet_declare_atoms(a1, ke.alignment_atoms, ke.alignment_atoms.len());
    lemma_quiet_declare_all(a2, key, key.len());
    let layout = crate::emission::read_layout(type_ctx(cx), vt);
    let (d, o2) = load(c, 0x0c);
    let d1 = declare(d, o2);
    let d2 = declare_atoms(d1, ve.alignment_atoms, ve.alignment_atoms.len());
    lemma_quiet_declare_atoms(d1, ve.alignment_atoms, ve.alignment_atoms.len());
    lemma_quiet_read_elements(d2, layout, layout.len());
}

pub(crate) proof fn lemma_quiet_map_remove(s: EmitV, slot: u8, key: Seq<u32>, ke: EncodingV)
    ensures
        quiet(s, map_remove(s, slot, key, ke)),
{
    broadcast use groups;

    reveal(map_remove);
}

pub(crate) proof fn lemma_quiet_set_insert(s: EmitV, slot: u8, key: Seq<u32>, ke: EncodingV)
    ensures
        quiet(s, set_insert(s, slot, key, ke)),
{
    broadcast use groups;

    reveal(set_insert);
}

pub(crate) proof fn lemma_quiet_leaf_hash(s: EmitV, leaf_first: u32, n: u32)
    ensures
        quiet(s, leaf_hash(s, leaf_first, n).0),
{
    broadcast use single;

    reveal(leaf_hash);
}

pub(crate) proof fn lemma_quiet_path_root(s: EmitV, first: u32, h: u32, n: u32)
    ensures
        quiet(s, path_root(s, first, h, n).0),
{
    let (a, hash) = leaf_hash(s, first, n);
    lemma_quiet_leaf_hash(s, first, n);
    lemma_quiet_path_fold(
        a,
        hash.wrapping_add(1),
        first.wrapping_add(crate::nocturne_type::chunks(n) as u32),
        h as nat,
    );
}

pub(crate) proof fn lemma_quiet_path_fold(s: EmitV, start: u32, base: u32, n: nat)
    ensures
        quiet(s, path_fold(s, start, base, n).0),
    decreases n,
{
    broadcast use single;

    if n > 0 {
        lemma_quiet_path_fold(s, start, base, (n - 1) as nat);
    }
}

pub(crate) proof fn lemma_quiet_merkle_insert(s: EmitV, slot: u8, leaf_first: u32, n: u32)
    ensures
        quiet(s, merkle_insert(s, slot, leaf_first, n)),
{
    broadcast use groups;

    reveal(merkle_insert);
    let a = idx_op(op(idx_op(idx_op(s, 0x70, slot), 0x70, 0), 0x32), 0x50, 1);
    lemma_quiet_leaf_hash(a, leaf_first, n);
}

pub(crate) proof fn lemma_quiet_check_root(s: EmitV, slot: u8, digest: u32)
    ensures
        quiet(s, merkle_check_root(s, slot, digest).0),
        merkle_check_root(s, slot, digest).1 is Some,
{
    broadcast use groups;

    reveal(merkle_check_root);
}

pub(crate) proof fn lemma_quiet_ledger_write(cx: ContractV, s: EmitV, slot: u8, vars: Seq<u32>)
    ensures
        quiet(s, ledger_write(cx, s, slot, vars).0),
{
    broadcast use groups;

    reveal(ledger_write);
}

pub(crate) proof fn lemma_quiet_binary(s: EmitV, op: BinOp, a: u32, b: u32, bits: Option<u32>)
    ensures
        quiet(s, binary(s, op, a, b, bits).0),
        binary(s, op, a, b, bits).1 is Some || binary(s, op, a, b, bits).0.errors.len() > 0,
{
    broadcast use single;

}

/// The private inputs of a witness value: all alike, one per element.
pub(crate) proof fn lemma_private_block(s: EmitV, layout: Seq<FrLayout>, n: nat)
    requires
        n <= layout.len(),
    ensures
        private_inputs(private_block(s, layout, n).0.instructions) =~= private_inputs(s.instructions) + Seq::new(
            n,
            |i: int| s.in_conditional,
        ),
        private_block(s, layout, n).0.variables == s.variables,
        private_block(s, layout, n).0.guarded_witness_fields == s.guarded_witness_fields,
        private_block(s, layout, n).0.in_conditional == s.in_conditional,
        private_block(s, layout, n).0.in_helper == s.in_helper,
        private_block(s, layout, n).1 is Some <==> n > 0,
    decreases n,
{
    broadcast use lemma_quiet_put;

    if n > 0 {
        let a = private_block(s, layout, (n - 1) as nat).0;
        lemma_private_block(s, layout, (n - 1) as nat);
        reveal(emit);
        lemma_inputs_push(a.instructions, InstructionV::PrivateInput { guard: io_guard(s) });
        let b = emit(a, InstructionV::PrivateInput { guard: io_guard(s) }).0;
        assert(private_inputs(b.instructions) =~= private_inputs(s.instructions) + Seq::new(n, |i: int| s.in_conditional));
    }
}

} // verus!
