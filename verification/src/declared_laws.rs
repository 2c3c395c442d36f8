//! The public inputs that a ledger operation declares where its branch is
//! active: opcodes and operands, value by value.
use crate::contract::ContractV;
use crate::emission::{addi_op, counter_increment, declare, declare_all, declare_atoms, emit, held_type, idx_op};
use crate::emission::{io_guard, key_repr, leaf_hash, ledger_read, ledger_write, load, load_zero, map_insert};
use crate::emission::{map_lookup, map_member, map_remove, merkle_check_root, merkle_insert, op, popeq_bool};
use crate::emission::{push_cell, push_null, put, read_elements, read_layout, set_insert, skip, type_ctx};
use crate::emission::{value_encoding, EmitV};
use crate::machine::{carried, comes_before, fits, lemma_before_trans, lemma_cell, lemma_emit_before};
use crate::machine::{lemma_put_before, run_of, wires_keep_their_values, MachineV};
use crate::merkle_laws::{leaf_hashes, lemma_leaf_cells};
use crate::nocturne_type::EncodingV;
use crate::syntax::TyV;
use crate::value_laws::{lemma_one, lemma_self_before};
use crate::zkir::{imm, InstructionV};
use vstd::prelude::*;

verus! {

/// The guard of the place is filled, and met in the run `u`.
pub open spec fn live(m: MachineV, s: EmitV, u: EmitV) -> bool {
    s.guard < s.next_index && carried(m, u, s.guard) == 1
}

/// From `s` to `t` the inputs `xs` are declared, at one place of the circuit.
#[verifier::opaque]
pub open spec fn declares(m: MachineV, s: EmitV, t: EmitV, xs: Seq<int>) -> bool {
    &&& comes_before(s, t)
    &&& s.next_index <= t.next_index
    &&& t.guard == s.guard
    &&& t.in_conditional == s.in_conditional
    &&& run_of(m, t).declared == run_of(m, s).declared + xs
}

/// The values of wires in the run `u`.
pub open spec fn values_of(m: MachineV, u: EmitV, ws: Seq<u32>) -> Seq<int> {
    Seq::new(ws.len(), |i: int| carried(m, u, ws[i]))
}

/// Alignment atoms as field elements.
pub open spec fn atoms_of(m: MachineV, atoms: Seq<i32>) -> Seq<int> {
    Seq::new(atoms.len(), |i: int| atoms[i] as int % m.modulus)
}

proof fn lemma_then(m: MachineV, s: EmitV, t: EmitV, u: EmitV, xs: Seq<int>, ys: Seq<int>, all: Seq<int>)
    requires
        declares(m, s, t, xs),
        declares(m, t, u, ys),
        all =~= xs + ys,
    ensures
        declares(m, s, u, all),
{
    reveal(declares);
    lemma_before_trans(s, t, u);
    assert(run_of(m, s).declared + xs + ys =~= run_of(m, s).declared + all);
}

/// What comes behind `t` comes behind what is in front of `t`.
proof fn lemma_in_front(m: MachineV, s: EmitV, t: EmitV, u: EmitV, xs: Seq<int>)
    requires
        declares(m, s, t, xs),
        comes_before(t, u),
    ensures
        comes_before(s, u),
        live(m, s, u) ==> live(m, t, u),
        s.next_index <= t.next_index,
        t.guard == s.guard,
{
    reveal(declares);
    lemma_before_trans(s, t, u);
}

proof fn lemma_emits(m: MachineV, s: EmitV, i: InstructionV, u: EmitV)
    requires
        comes_before(emit(s, i).0, u),
        fits(m, u),
        !(i is DeclarePubInput),
    ensures
        declares(m, s, emit(s, i).0, seq![]),
        comes_before(s, u),
        emit(s, i).1 == s.next_index,
        crate::zkir::output_count(i) > 0 ==> s.next_index < emit(s, i).0.next_index,
{
    reveal(declares);
    broadcast use crate::machine::runs;

    let t = emit(s, i).0;
    lemma_emit_before(s, i);
    lemma_before_trans(s, t, u);
    wires_keep_their_values(m, t, u, 0);
    wires_keep_their_values(m, s, t, 0);
    assert(t.guard == s.guard && t.in_conditional == s.in_conditional) by {
        reveal(emit);
    }
    assert(run_of(m, t) == crate::machine::step(m, run_of(m, s), i));
    assert(run_of(m, t).declared =~= run_of(m, s).declared + Seq::<int>::empty());
}

proof fn lemma_puts(m: MachineV, s: EmitV, i: InstructionV)
    requires
        crate::zkir::output_count(i) == 0,
        !(i is DeclarePubInput),
    ensures
        declares(m, s, put(s, i), seq![]),
{
    reveal(declares);
    broadcast use crate::machine::runs;

    lemma_put_before(s, i);
    assert(put(s, i).guard == s.guard && put(s, i).in_conditional == s.in_conditional) by {
        reveal(put);
    }
    assert(run_of(m, put(s, i)) == crate::machine::step(m, run_of(m, s), i));
    assert(put(s, i).next_index == s.next_index);
    assert(run_of(m, put(s, i)).declared =~= run_of(m, s).declared + Seq::<int>::empty());
}

proof fn lemma_loads(m: MachineV, s: EmitV, n: int, u: EmitV)
    requires
        comes_before(load(s, n).0, u),
        fits(m, u),
        -0x8000_0000 <= n < 0x1_0000_0000,
    ensures
        declares(m, s, load(s, n).0, seq![]),
        load(s, n).1 < load(s, n).0.next_index,
        carried(m, u, load(s, n).1) == n % m.modulus,
{
    let i = InstructionV::LoadImm { imm: imm(n) };
    lemma_emits(m, s, i, u);
    lemma_cell(m, s, i, u);
}

/// A declaration where the branch is active.
proof fn lemma_declares(m: MachineV, s: EmitV, v: u32, u: EmitV)
    requires
        comes_before(declare(s, v), u),
        fits(m, u),
        live(m, s, u),
        v < s.next_index,
    ensures
        declares(m, s, declare(s, v), seq![carried(m, u, v)]),
{
    broadcast use crate::machine::runs;

    let t = declare(s, v);
    let base = run_of(m, s).declared;
    if s.in_conditional {
        let (a, zero) = load_zero(s);
        let i = InstructionV::CondSelect { bit: s.guard, a: v, b: zero };
        let (b, x) = emit(a, i);
        let j = InstructionV::DeclarePubInput { var: x };
        assert(t == put(b, j)) by {
            reveal(declare);
        }
        lemma_put_before(b, j);
        lemma_before_trans(b, t, u);
        lemma_emits(m, a, i, u);
        assert(declares(m, s, a, seq![])) by {
            if s.zero_var is Some {
                reveal(declares);
                lemma_self_before(s, s);
                assert(base + seq![] =~= base);
            } else {
                let (c, z) = load(s, 0);
                lemma_self_before(c, a);
                lemma_before_trans(c, a, u);
                lemma_loads(m, s, 0, u);
                lemma_same_run(m, s, c, a);
            }
        }
        lemma_in_front(m, s, a, u, seq![]);
        lemma_one(m, a, i, s.guard, v, u);
        wires_keep_their_values(m, b, u, x);
        assert(run_of(m, b).cells[x as int] == carried(m, u, v));
        lemma_then(m, s, a, b, seq![], seq![], seq![]);
        reveal(declares);
        lemma_before_trans(s, b, t);
        assert(t.guard == b.guard && t.in_conditional == b.in_conditional && t.next_index == b.next_index) by {
            reveal(put);
        }
        assert(run_of(m, b).declared =~= base);
        assert(run_of(m, t).declared =~= base + seq![carried(m, u, v)]);
    } else {
        let j = InstructionV::DeclarePubInput { var: v };
        assert(t == put(s, j)) by {
            reveal(declare);
        }
        lemma_put_before(s, j);
        lemma_before_trans(s, t, u);
        wires_keep_their_values(m, s, u, v);
        reveal(declares);
        assert(t.guard == s.guard && t.in_conditional == s.in_conditional && t.next_index == s.next_index) by {
            reveal(put);
        }
        assert(run_of(m, t).declared =~= base + seq![carried(m, u, v)]);
    }
}

proof fn lemma_same_run(m: MachineV, s: EmitV, c: EmitV, a: EmitV)
    requires
        declares(m, s, c, seq![]),
        a.instructions == c.instructions,
        a.next_index == c.next_index,
        a.guard == c.guard,
        a.in_conditional == c.in_conditional,
    ensures
        declares(m, s, a, seq![]),
{
    reveal(declares);
    lemma_self_before(c, a);
    lemma_before_trans(s, c, a);
}

/// A group is closed.
proof fn lemma_skips(m: MachineV, s: EmitV, guard: u32, count: u32)
    ensures
        declares(m, s, skip(s, guard, count), seq![]),
{
    lemma_puts(m, s, InstructionV::PiSkip { guard: Some(guard), count });
}

proof fn lemma_declares_all(m: MachineV, s: EmitV, vars: Seq<u32>, n: nat, u: EmitV)
    requires
        n <= vars.len(),
        comes_before(declare_all(s, vars, n), u),
        fits(m, u),
        live(m, s, u),
        forall|i: int| 0 <= i < vars.len() ==> (#[trigger] vars[i]) < s.next_index,
    ensures
        declares(m, s, declare_all(s, vars, n), values_of(m, u, vars).take(n as int)),
    decreases n,
{
    let vs = values_of(m, u, vars);
    if n == 0 {
        reveal(declares);
        lemma_self_before(s, s);
        assert(run_of(m, s).declared + vs.take(0) =~= run_of(m, s).declared);
    } else {
        let a = declare_all(s, vars, (n - 1) as nat);
        lemma_declare_before(a, vars[n - 1]);
        lemma_before_trans(a, declare_all(s, vars, n), u);
        lemma_declares_all(m, s, vars, (n - 1) as nat, u);
        lemma_in_front(m, s, a, u, vs.take(n - 1));
        lemma_declares(m, a, vars[n - 1], u);
        lemma_then(
            m,
            s,
            a,
            declare_all(s, vars, n),
            vs.take(n - 1),
            seq![carried(m, u, vars[n - 1])],
            vs.take(n as int),
        );
    }
}

proof fn lemma_declare_before(s: EmitV, v: u32)
    ensures
        comes_before(s, declare(s, v)),
{
    crate::emission_laws::lemma_declare(false, s, v);
    reveal(crate::emission_laws::continues);
    reveal(comes_before);
    assert(declare(s, v).instructions.take(s.instructions.len() as int) =~= s.instructions);
}

proof fn lemma_declares_atoms(m: MachineV, s: EmitV, atoms: Seq<i32>, n: nat, u: EmitV)
    requires
        n <= atoms.len(),
        comes_before(declare_atoms(s, atoms, n), u),
        fits(m, u),
        live(m, s, u),
    ensures
        declares(m, s, declare_atoms(s, atoms, n), atoms_of(m, atoms).take(n as int)),
    decreases n,
{
    let vs = atoms_of(m, atoms);
    if n == 0 {
        reveal(declares);
        lemma_self_before(s, s);
        assert(run_of(m, s).declared + vs.take(0) =~= run_of(m, s).declared);
    } else {
        let a = declare_atoms(s, atoms, (n - 1) as nat);
        let (b, v) = load(a, atoms[n - 1] as int);
        lemma_declare_before(b, v);
        lemma_before_trans(b, declare_atoms(s, atoms, n), u);
        lemma_emit_before(a, InstructionV::LoadImm { imm: imm(atoms[n - 1] as int) });
        lemma_before_trans(a, b, u);
        lemma_declares_atoms(m, s, atoms, (n - 1) as nat, u);
        lemma_in_front(m, s, a, u, vs.take(n - 1));
        lemma_loads(m, a, atoms[n - 1] as int, u);
        lemma_in_front(m, a, b, u, seq![]);
        lemma_declares(m, b, v, u);
        lemma_then(m, s, a, b, vs.take(n - 1), seq![], vs.take(n - 1));
        lemma_then(
            m,
            s,
            b,
            declare_atoms(s, atoms, n),
            vs.take(n - 1),
            seq![carried(m, u, v)],
            vs.take(n as int),
        );
    }
}

// ---- operations

proof fn lemma_from_growth(s: EmitV, t: EmitV, d: int)
    requires
        crate::emission_laws::grows(false, s, t, d),
    ensures
        comes_before(s, t),
{
    reveal(crate::emission_laws::continues);
    reveal(comes_before);
    assert(t.instructions.take(s.instructions.len() as int) =~= s.instructions);
}

proof fn lemma_skip_before(s: EmitV, guard: u32, count: u32)
    ensures
        comes_before(s, skip(s, guard, count)),
{
    lemma_put_before(s, InstructionV::PiSkip { guard: Some(guard), count });
}

/// A constant is loaded and declared.
proof fn lemma_constant(m: MachineV, s: EmitV, n: int, u: EmitV)
    requires
        comes_before(declare(load(s, n).0, load(s, n).1), u),
        fits(m, u),
        live(m, s, u),
        0 <= n < 0x1_0000_0000 < m.modulus,
    ensures
        declares(m, s, declare(load(s, n).0, load(s, n).1), seq![n]),
        comes_before(s, u),
{
    let (a, v) = load(s, n);
    lemma_declare_before(a, v);
    lemma_before_trans(a, declare(a, v), u);
    lemma_loads(m, s, n, u);
    lemma_in_front(m, s, a, u, seq![]);
    lemma_declares(m, a, v, u);
    vstd::arithmetic::div_mod::lemma_small_mod(n as nat, m.modulus as nat);
    lemma_then(m, s, a, declare(a, v), seq![], seq![n], seq![n]);
}

proof fn lemma_op(m: MachineV, s: EmitV, code: int, u: EmitV)
    requires
        comes_before(op(s, code), u),
        fits(m, u),
        live(m, s, u),
        0 <= code < 0x1_0000_0000 < m.modulus,
    ensures
        declares(m, s, op(s, code), seq![code]),
        comes_before(s, u),
{
    reveal(op);
    let (a, o) = load(s, code);
    let d = declare(a, o);
    lemma_skip_before(d, s.guard, 1);
    lemma_before_trans(d, op(s, code), u);
    lemma_constant(m, s, code, u);
    lemma_skips(m, d, s.guard, 1);
    lemma_then(m, s, d, op(s, code), seq![code], seq![], seq![code]);
}

proof fn lemma_key(m: MachineV, s: EmitV, key: u8, u: EmitV)
    requires
        comes_before(key_repr(s, key), u),
        fits(m, u),
        live(m, s, u),
        0x1_0000_0000 < m.modulus,
    ensures
        declares(m, s, key_repr(s, key), seq![1int, 1, key as int]),
        comes_before(s, u),
{
    reveal(key_repr);
    let (a, k) = load(s, key as int);
    let b = declare(a, s.guard);
    let c = declare(b, s.guard);
    let d = declare(c, k);
    lemma_declare_before(c, k);
    lemma_before_trans(c, d, u);
    lemma_declare_before(b, s.guard);
    lemma_before_trans(b, c, u);
    lemma_declare_before(a, s.guard);
    lemma_before_trans(a, b, u);
    lemma_loads(m, s, key as int, u);
    lemma_in_front(m, s, a, u, seq![]);
    lemma_declares(m, a, s.guard, u);
    lemma_in_front(m, a, b, u, seq![1int]);
    lemma_declares(m, b, s.guard, u);
    lemma_in_front(m, b, c, u, seq![1int]);
    lemma_declares(m, c, k, u);
    vstd::arithmetic::div_mod::lemma_small_mod(key as nat, m.modulus as nat);
    lemma_then(m, s, a, b, seq![], seq![1int], seq![1int]);
    lemma_then(m, s, b, c, seq![1int], seq![1int], seq![1int, 1]);
    lemma_then(m, s, c, d, seq![1int, 1], seq![key as int], seq![1int, 1, key as int]);
}

proof fn lemma_idx(m: MachineV, s: EmitV, code: int, key: u8, u: EmitV)
    requires
        comes_before(idx_op(s, code, key), u),
        fits(m, u),
        live(m, s, u),
        0 <= code < 0x1_0000_0000 < m.modulus,
    ensures
        declares(m, s, idx_op(s, code, key), seq![code, 1, 1, key as int]),
        comes_before(s, u),
{
    reveal(idx_op);
    let (a, o) = load(s, code);
    let d = declare(a, o);
    let e = key_repr(d, key);
    lemma_skip_before(e, s.guard, 4);
    lemma_before_trans(e, idx_op(s, code, key), u);
    lemma_key_before(d, key);
    lemma_before_trans(d, e, u);
    lemma_constant_before(s, code, d, u);
    lemma_constant(m, s, code, u);
    lemma_in_front(m, s, d, u, seq![code]);
    lemma_key(m, d, key, u);
    lemma_skips(m, e, s.guard, 4);
    lemma_then(m, s, d, e, seq![code], seq![1int, 1, key as int], seq![code, 1, 1, key as int]);
    lemma_then(m, s, e, idx_op(s, code, key), seq![code, 1, 1, key as int], seq![], seq![code, 1, 1, key as int]);
}

proof fn lemma_constant_before(s: EmitV, n: int, d: EmitV, u: EmitV)
    requires
        d == declare(load(s, n).0, load(s, n).1),
        comes_before(d, u),
    ensures
        comes_before(s, u),
{
    let (a, v) = load(s, n);
    lemma_declare_before(a, v);
    lemma_before_trans(a, d, u);
    lemma_emit_before(s, InstructionV::LoadImm { imm: imm(n) });
    lemma_before_trans(s, a, u);
}

proof fn lemma_key_before(s: EmitV, key: u8)
    ensures
        comes_before(s, key_repr(s, key)),
{
    crate::emission_laws::lemma_key_repr(false, s, key);
    lemma_from_growth(s, key_repr(s, key), 3);
}

proof fn lemma_op_before(s: EmitV, code: int)
    ensures
        comes_before(s, op(s, code)),
{
    crate::emission_laws::lemma_op(false, s, code);
    lemma_from_growth(s, op(s, code), 0);
}

proof fn lemma_idx_before(s: EmitV, code: int, key: u8)
    ensures
        comes_before(s, idx_op(s, code, key)),
{
    crate::emission_laws::lemma_idx_op(false, s, code, key);
    lemma_from_growth(s, idx_op(s, code, key), 0);
}

proof fn lemma_all_before(s: EmitV, vars: Seq<u32>, n: nat)
    ensures
        comes_before(s, declare_all(s, vars, n)),
    decreases n,
{
    if n == 0 || n > vars.len() {
        lemma_self_before(s, s);
    } else {
        let a = declare_all(s, vars, (n - 1) as nat);
        lemma_all_before(s, vars, (n - 1) as nat);
        lemma_declare_before(a, vars[n - 1]);
        lemma_before_trans(s, a, declare_all(s, vars, n));
    }
}

proof fn lemma_atoms_before(s: EmitV, atoms: Seq<i32>, n: nat)
    ensures
        comes_before(s, declare_atoms(s, atoms, n)),
    decreases n,
{
    if n == 0 || n > atoms.len() {
        lemma_self_before(s, s);
    } else {
        let a = declare_atoms(s, atoms, (n - 1) as nat);
        let (b, v) = load(a, atoms[n - 1] as int);
        lemma_atoms_before(s, atoms, (n - 1) as nat);
        lemma_emit_before(a, InstructionV::LoadImm { imm: imm(atoms[n - 1] as int) });
        lemma_declare_before(b, v);
        lemma_before_trans(a, b, declare_atoms(s, atoms, n));
        lemma_before_trans(s, a, declare_atoms(s, atoms, n));
    }
}

/// The inputs of a `Push` of a value: opcode, a one for a cell, the alignment
/// and the value.
pub open spec fn pushed(m: MachineV, storage: bool, atoms: Seq<i32>, value: Seq<int>) -> Seq<int> {
    seq![
        if storage {
            0x11int
        } else {
            0x10
        },
        1,
    ] + atoms_of(m, atoms) + value
}

proof fn lemma_push_before(s: EmitV, vars: Seq<u32>, e: EncodingV, storage: bool)
    requires
        vars.len() == e.value_field_count,
    ensures
        comes_before(s, push_cell(s, vars, Some(e), storage)),
{
    reveal(push_cell);
    let code: int = if storage {
        0x11
    } else {
        0x10
    };
    let (a, o) = load(s, code);
    let b = declare(a, o);
    let (c, disc) = load(b, 1);
    let d0 = declare(c, disc);
    let d = declare_atoms(d0, e.alignment_atoms, e.alignment_atoms.len());
    let f = declare_all(d, vars, vars.len());
    let t = push_cell(s, vars, Some(e), storage);
    lemma_skip_before(f, s.guard, (2 + e.alignment_atoms.len() + vars.len()) as u32);
    lemma_all_before(d, vars, vars.len());
    lemma_before_trans(d, f, t);
    lemma_atoms_before(d0, e.alignment_atoms, e.alignment_atoms.len());
    lemma_before_trans(d0, d, t);
    lemma_constant_before(b, 1, d0, t);
    lemma_constant_before(s, code, b, t);
}

proof fn lemma_push(m: MachineV, s: EmitV, vars: Seq<u32>, e: EncodingV, storage: bool, u: EmitV)
    requires
        vars.len() == e.value_field_count,
        comes_before(push_cell(s, vars, Some(e), storage), u),
        fits(m, u),
        live(m, s, u),
        0x1_0000_0000 < m.modulus,
        forall|i: int| 0 <= i < vars.len() ==> (#[trigger] vars[i]) < s.next_index,
    ensures
        declares(
            m,
            s,
            push_cell(s, vars, Some(e), storage),
            pushed(m, storage, e.alignment_atoms, values_of(m, u, vars)),
        ),
        comes_before(s, u),
{
    reveal(push_cell);
    let code: int = if storage {
        0x11
    } else {
        0x10
    };
    let (a, o) = load(s, code);
    let b = declare(a, o);
    let (c, disc) = load(b, 1);
    let d0 = declare(c, disc);
    let atoms = e.alignment_atoms;
    let d = declare_atoms(d0, atoms, atoms.len());
    let f = declare_all(d, vars, vars.len());
    let t = push_cell(s, vars, Some(e), storage);
    let count = (2 + atoms.len() + vars.len()) as u32;
    lemma_skip_before(f, s.guard, count);
    lemma_before_trans(f, t, u);
    lemma_all_before(d, vars, vars.len());
    lemma_before_trans(d, f, u);
    lemma_atoms_before(d0, atoms, atoms.len());
    lemma_before_trans(d0, d, u);
    lemma_constant_before(b, 1, d0, u);
    lemma_constant(m, s, code, u);
    lemma_in_front(m, s, b, u, seq![code]);
    lemma_constant(m, b, 1, u);
    lemma_in_front(m, b, d0, u, seq![1int]);
    lemma_declares_atoms(m, d0, atoms, atoms.len(), u);
    let xs = atoms_of(m, atoms);
    let vs = values_of(m, u, vars);
    assert(xs.take(atoms.len() as int) =~= xs);
    assert(vs.take(vars.len() as int) =~= vs);
    lemma_in_front(m, d0, d, u, xs);
    lemma_declares_all(m, d, vars, vars.len(), u);
    lemma_skips(m, f, s.guard, count);
    lemma_then(m, s, b, d0, seq![code], seq![1int], seq![code, 1]);
    lemma_then(m, s, d0, d, seq![code, 1], xs, seq![code, 1] + xs);
    lemma_then(m, s, d, f, seq![code, 1] + xs, vs, seq![code, 1] + xs + vs);
    lemma_then(m, s, f, t, seq![code, 1] + xs + vs, seq![], pushed(m, storage, atoms, vs));
}

proof fn lemma_addi(m: MachineV, s: EmitV, n: int, u: EmitV)
    requires
        comes_before(addi_op(s, n).0, u),
        fits(m, u),
        live(m, s, u),
        0 <= n < 0x1_0000_0000 < m.modulus,
    ensures
        declares(m, s, addi_op(s, n).0, seq![0x0eint, n]),
        comes_before(s, u),
{
    reveal(addi_op);
    let (a, o) = load(s, 0x0e);
    let (b, v) = load(a, n);
    let c = declare(b, o);
    let d = declare(c, v);
    let t = addi_op(s, n).0;
    lemma_skip_before(d, s.guard, 2);
    lemma_before_trans(d, t, u);
    lemma_declare_before(c, v);
    lemma_before_trans(c, d, u);
    lemma_declare_before(b, o);
    lemma_before_trans(b, c, u);
    lemma_emit_before(a, InstructionV::LoadImm { imm: imm(n) });
    lemma_before_trans(a, b, u);
    lemma_loads(m, s, 0x0e, u);
    lemma_in_front(m, s, a, u, seq![]);
    lemma_loads(m, a, n, u);
    lemma_in_front(m, a, b, u, seq![]);
    vstd::arithmetic::div_mod::lemma_small_mod(n as nat, m.modulus as nat);
    vstd::arithmetic::div_mod::lemma_small_mod(0x0e, m.modulus as nat);
    lemma_declares(m, b, o, u);
    lemma_in_front(m, b, c, u, seq![0x0eint]);
    lemma_declares(m, c, v, u);
    lemma_skips(m, d, s.guard, 2);
    lemma_then(m, s, a, b, seq![], seq![], seq![]);
    lemma_then(m, s, b, c, seq![], seq![0x0eint], seq![0x0eint]);
    lemma_then(m, s, c, d, seq![0x0eint], seq![n], seq![0x0eint, n]);
    lemma_then(m, s, d, t, seq![0x0eint, n], seq![], seq![0x0eint, n]);
}

proof fn lemma_null(m: MachineV, s: EmitV, u: EmitV)
    requires
        comes_before(push_null(s, true), u),
        fits(m, u),
        live(m, s, u),
        0x1_0000_0000 < m.modulus,
    ensures
        declares(m, s, push_null(s, true), seq![0x11int, 0]),
        comes_before(s, u),
{
    reveal(push_null);
    let (a, o) = load(s, 0x11);
    let (b, v) = load(a, 0);
    let c = declare(b, o);
    let d = declare(c, v);
    let t = push_null(s, true);
    lemma_skip_before(d, s.guard, 2);
    lemma_before_trans(d, t, u);
    lemma_declare_before(c, v);
    lemma_before_trans(c, d, u);
    lemma_declare_before(b, o);
    lemma_before_trans(b, c, u);
    lemma_emit_before(a, InstructionV::LoadImm { imm: imm(0) });
    lemma_before_trans(a, b, u);
    lemma_loads(m, s, 0x11, u);
    lemma_in_front(m, s, a, u, seq![]);
    lemma_loads(m, a, 0, u);
    lemma_in_front(m, a, b, u, seq![]);
    vstd::arithmetic::div_mod::lemma_small_mod(0, m.modulus as nat);
    vstd::arithmetic::div_mod::lemma_small_mod(0x11, m.modulus as nat);
    lemma_declares(m, b, o, u);
    lemma_in_front(m, b, c, u, seq![0x11int]);
    lemma_declares(m, c, v, u);
    lemma_skips(m, d, s.guard, 2);
    lemma_then(m, s, a, b, seq![], seq![], seq![]);
    lemma_then(m, s, b, c, seq![], seq![0x11int], seq![0x11int]);
    lemma_then(m, s, c, d, seq![0x11int], seq![0int], seq![0x11int, 0]);
    lemma_then(m, s, d, t, seq![0x11int, 0], seq![], seq![0x11int, 0]);
}

proof fn lemma_popeq(m: MachineV, s: EmitV, u: EmitV)
    requires
        comes_before(popeq_bool(s).0, u),
        fits(m, u),
        live(m, s, u),
        0x1_0000_0000 < m.modulus,
    ensures
        declares(m, s, popeq_bool(s).0, seq![0x0dint, 1, 1, carried(m, u, popeq_bool(s).1)]),
        popeq_bool(s).1 < popeq_bool(s).0.next_index,
        comes_before(s, u),
{
    reveal(popeq_bool);
    let (a, o) = load(s, 0x0d);
    let i = InstructionV::PublicInput { guard: io_guard(s) };
    let (b, v) = emit(a, i);
    let c = declare(b, o);
    let (d, one) = load(c, 1);
    let e = declare(d, one);
    let f = declare(e, one);
    let g = declare(f, v);
    let h = skip(g, s.guard, 4);
    let j = InstructionV::ConstrainToBoolean { var: v };
    let t = put(h, j);
    let x = carried(m, u, v);
    lemma_put_before(h, j);
    lemma_before_trans(h, t, u);
    lemma_skip_before(g, s.guard, 4);
    lemma_before_trans(g, h, u);
    lemma_declare_before(f, v);
    lemma_before_trans(f, g, u);
    lemma_declare_before(e, one);
    lemma_before_trans(e, f, u);
    lemma_declare_before(d, one);
    lemma_before_trans(d, e, u);
    lemma_emit_before(c, InstructionV::LoadImm { imm: imm(1) });
    lemma_before_trans(c, d, u);
    lemma_declare_before(b, o);
    lemma_before_trans(b, c, u);
    lemma_emit_before(a, i);
    lemma_before_trans(a, b, u);
    vstd::arithmetic::div_mod::lemma_small_mod(1, m.modulus as nat);
    vstd::arithmetic::div_mod::lemma_small_mod(0x0d, m.modulus as nat);
    lemma_loads(m, s, 0x0d, u);
    lemma_in_front(m, s, a, u, seq![]);
    lemma_emits(m, a, i, u);
    lemma_in_front(m, a, b, u, seq![]);
    lemma_declares(m, b, o, u);
    lemma_in_front(m, b, c, u, seq![0x0dint]);
    lemma_loads(m, c, 1, u);
    lemma_in_front(m, c, d, u, seq![]);
    lemma_declares(m, d, one, u);
    lemma_in_front(m, d, e, u, seq![1int]);
    lemma_declares(m, e, one, u);
    lemma_in_front(m, e, f, u, seq![1int]);
    lemma_declares(m, f, v, u);
    lemma_in_front(m, f, g, u, seq![x]);
    lemma_skips(m, g, s.guard, 4);
    lemma_puts(m, h, j);
    lemma_then(m, s, a, b, seq![], seq![], seq![]);
    lemma_then(m, s, b, c, seq![], seq![0x0dint], seq![0x0dint]);
    lemma_then(m, s, c, d, seq![0x0dint], seq![], seq![0x0dint]);
    lemma_then(m, s, d, e, seq![0x0dint], seq![1int], seq![0x0dint, 1]);
    lemma_then(m, s, e, f, seq![0x0dint, 1], seq![1int], seq![0x0dint, 1, 1]);
    lemma_then(m, s, f, g, seq![0x0dint, 1, 1], seq![x], seq![0x0dint, 1, 1, x]);
    lemma_then(m, s, g, h, seq![0x0dint, 1, 1, x], seq![], seq![0x0dint, 1, 1, x]);
    lemma_then(m, s, h, t, seq![0x0dint, 1, 1, x], seq![], seq![0x0dint, 1, 1, x]);
    reveal(declares);
    reveal(put);
}

// ---- ledger accesses

/// The inputs of an `Idx` by a one-byte key.
pub open spec fn indexed(code: int, key: u8) -> Seq<int> {
    seq![code, 1, 1, key as int]
}

/// The wires of an operand are filled.
pub open spec fn all_filled(s: EmitV, ws: Seq<u32>) -> bool {
    forall|i: int| 0 <= i < ws.len() ==> (#[trigger] ws[i]) < s.next_index
}

/// An active increment declares the path to its slot and the amount.
pub proof fn increments_declare_slot_and_amount(m: MachineV, s: EmitV, slot: u8, n: u32)
    requires
        0x1_0000_0000 < m.modulus,
        fits(m, counter_increment(s, slot, n).0),
        live(m, s, counter_increment(s, slot, n).0),
    ensures
        run_of(m, counter_increment(s, slot, n).0).declared == run_of(m, s).declared + (indexed(0x70, slot) + seq![
            0x0eint,
            n as int,
            0xa1,
        ]),
{
    reveal(counter_increment);
    let a = idx_op(s, 0x70, slot);
    let b = addi_op(a, n as int).0;
    let t = op(b, 0xa1);
    lemma_self_before(t, t);
    lemma_op_before(b, 0xa1);
    crate::emission_laws::lemma_addi_op(false, a, n as int);
    lemma_from_growth(a, b, 0);
    lemma_before_trans(a, b, t);
    lemma_idx(m, s, 0x70, slot, t);
    lemma_in_front(m, s, a, t, indexed(0x70, slot));
    lemma_addi(m, a, n as int, t);
    lemma_in_front(m, a, b, t, seq![0x0eint, n as int]);
    lemma_op(m, b, 0xa1, t);
    let xs = indexed(0x70, slot);
    lemma_then(m, s, a, b, xs, seq![0x0eint, n as int], xs + seq![0x0eint, n as int]);
    lemma_then(m, s, b, t, xs + seq![0x0eint, n as int], seq![0xa1int], xs + seq![0x0eint, n as int, 0xa1]);
    reveal(declares);
}

/// An active write declares its slot as the key, and the value written.
pub proof fn writes_declare_slot_and_value(m: MachineV, cx: ContractV, s: EmitV, slot: u8, vars: Seq<u32>, e: EncodingV)
    requires
        0x1_0000_0000 < m.modulus,
        fits(m, ledger_write(cx, s, slot, vars).0),
        live(m, s, ledger_write(cx, s, slot, vars).0),
        held_type(cx, slot) is Some,
        value_encoding(type_ctx(cx), held_type(cx, slot)->0) == Some(e),
        vars.len() == e.value_field_count,
        vars.len() > 0,
        all_filled(s, vars),
    ensures
        ({
            let t = ledger_write(cx, s, slot, vars).0;
            run_of(m, t).declared == run_of(m, s).declared + (pushed(m, false, seq![1i32, 1i32], seq![slot as int])
                + pushed(m, true, e.alignment_atoms, values_of(m, t, vars)) + seq![0x91int])
        }),
{
    reveal(ledger_write);
    let (a, k) = load(s, slot as int);
    let key = EncodingV { alignment_atoms: seq![1i32, 1i32], value_field_count: 1 };
    let b = push_cell(a, seq![k], Some(key), false);
    let c = push_cell(b, vars, Some(e), true);
    let t = op(c, 0x91);
    assert(t == ledger_write(cx, s, slot, vars).0);
    lemma_self_before(t, t);
    lemma_op_before(c, 0x91);
    lemma_push_before(b, vars, e, true);
    lemma_before_trans(b, c, t);
    lemma_push_before(a, seq![k], key, false);
    lemma_before_trans(a, b, t);
    lemma_loads(m, s, slot as int, t);
    vstd::arithmetic::div_mod::lemma_small_mod(slot as nat, m.modulus as nat);
    lemma_in_front(m, s, a, t, seq![]);
    lemma_push(m, a, seq![k], key, false, t);
    assert(values_of(m, t, seq![k]) =~= seq![slot as int]);
    let xs = pushed(m, false, seq![1i32, 1i32], seq![slot as int]);
    lemma_in_front(m, a, b, t, xs);
    lemma_push(m, b, vars, e, true, t);
    let ys = pushed(m, true, e.alignment_atoms, values_of(m, t, vars));
    lemma_in_front(m, b, c, t, ys);
    lemma_op(m, c, 0x91, t);
    lemma_then(m, s, a, b, seq![], xs, xs);
    lemma_then(m, s, b, c, xs, ys, xs + ys);
    lemma_then(m, s, c, t, xs + ys, seq![0x91int], xs + ys + seq![0x91int]);
    reveal(declares);
}

/// An active map insertion declares the path to its slot, the key and then the
/// value.
pub proof fn insertions_declare_key_and_value(
    m: MachineV,
    s: EmitV,
    slot: u8,
    key: Seq<u32>,
    ke: EncodingV,
    val: Seq<u32>,
    ve: EncodingV,
)
    requires
        0x1_0000_0000 < m.modulus,
        fits(m, map_insert(s, slot, key, ke, val, ve)),
        live(m, s, map_insert(s, slot, key, ke, val, ve)),
        key.len() == ke.value_field_count,
        val.len() == ve.value_field_count,
        all_filled(s, key),
        all_filled(s, val),
    ensures
        ({
            let t = map_insert(s, slot, key, ke, val, ve);
            run_of(m, t).declared == run_of(m, s).declared + (indexed(0x70, slot) + pushed(
                m,
                false,
                ke.alignment_atoms,
                values_of(m, t, key),
            ) + pushed(m, true, ve.alignment_atoms, values_of(m, t, val)) + seq![0x91int, 0xa1])
        }),
{
    reveal(map_insert);
    let a = idx_op(s, 0x70, slot);
    let b = push_cell(a, key, Some(ke), false);
    let c = push_cell(b, val, Some(ve), true);
    let d = op(c, 0x91);
    let t = op(d, 0xa1);
    lemma_self_before(t, t);
    lemma_op_before(d, 0xa1);
    lemma_op_before(c, 0x91);
    lemma_before_trans(c, d, t);
    lemma_push_before(b, val, ve, true);
    lemma_before_trans(b, c, t);
    lemma_push_before(a, key, ke, false);
    lemma_before_trans(a, b, t);
    let ws = indexed(0x70, slot);
    let xs = pushed(m, false, ke.alignment_atoms, values_of(m, t, key));
    let ys = pushed(m, true, ve.alignment_atoms, values_of(m, t, val));
    lemma_idx(m, s, 0x70, slot, t);
    lemma_in_front(m, s, a, t, ws);
    lemma_push(m, a, key, ke, false, t);
    lemma_in_front(m, a, b, t, xs);
    lemma_push(m, b, val, ve, true, t);
    lemma_in_front(m, b, c, t, ys);
    lemma_op(m, c, 0x91, t);
    lemma_in_front(m, c, d, t, seq![0x91int]);
    lemma_op(m, d, 0xa1, t);
    lemma_then(m, s, a, b, ws, xs, ws + xs);
    lemma_then(m, s, b, c, ws + xs, ys, ws + xs + ys);
    lemma_then(m, s, c, d, ws + xs + ys, seq![0x91int], ws + xs + ys + seq![0x91int]);
    lemma_then(m, s, d, t, ws + xs + ys + seq![0x91int], seq![0xa1int], ws + xs + ys + seq![0x91int, 0xa1]);
    reveal(declares);
}

/// An active set insertion declares the path to its slot, the key and a null.
pub proof fn set_insertions_declare_the_key(m: MachineV, s: EmitV, slot: u8, key: Seq<u32>, ke: EncodingV)
    requires
        0x1_0000_0000 < m.modulus,
        fits(m, set_insert(s, slot, key, ke)),
        live(m, s, set_insert(s, slot, key, ke)),
        key.len() == ke.value_field_count,
        all_filled(s, key),
    ensures
        ({
            let t = set_insert(s, slot, key, ke);
            run_of(m, t).declared == run_of(m, s).declared + (indexed(0x70, slot) + pushed(
                m,
                false,
                ke.alignment_atoms,
                values_of(m, t, key),
            ) + seq![0x11int, 0, 0x91, 0xa1])
        }),
{
    reveal(set_insert);
    let a = idx_op(s, 0x70, slot);
    let b = push_cell(a, key, Some(ke), false);
    let c = push_null(b, true);
    let d = op(c, 0x91);
    let t = op(d, 0xa1);
    lemma_self_before(t, t);
    lemma_op_before(d, 0xa1);
    lemma_op_before(c, 0x91);
    lemma_before_trans(c, d, t);
    crate::emission_laws::lemma_push_null(false, b, true);
    lemma_from_growth(b, c, 0);
    lemma_before_trans(b, c, t);
    lemma_push_before(a, key, ke, false);
    lemma_before_trans(a, b, t);
    let ws = indexed(0x70, slot);
    let xs = pushed(m, false, ke.alignment_atoms, values_of(m, t, key));
    lemma_idx(m, s, 0x70, slot, t);
    lemma_in_front(m, s, a, t, ws);
    lemma_push(m, a, key, ke, false, t);
    lemma_in_front(m, a, b, t, xs);
    lemma_null(m, b, t);
    lemma_in_front(m, b, c, t, seq![0x11int, 0]);
    lemma_op(m, c, 0x91, t);
    lemma_in_front(m, c, d, t, seq![0x91int]);
    lemma_op(m, d, 0xa1, t);
    lemma_then(m, s, a, b, ws, xs, ws + xs);
    lemma_then(m, s, b, c, ws + xs, seq![0x11int, 0], ws + xs + seq![0x11int, 0]);
    lemma_then(m, s, c, d, ws + xs + seq![0x11int, 0], seq![0x91int], ws + xs + seq![0x11int, 0, 0x91]);
    lemma_then(m, s, d, t, ws + xs + seq![0x11int, 0, 0x91], seq![0xa1int], ws + xs + seq![0x11int, 0, 0x91, 0xa1]);
    reveal(declares);
}

/// An active removal declares the path to its slot and the key.
pub proof fn removals_declare_the_key(m: MachineV, s: EmitV, slot: u8, key: Seq<u32>, ke: EncodingV)
    requires
        0x1_0000_0000 < m.modulus,
        fits(m, map_remove(s, slot, key, ke)),
        live(m, s, map_remove(s, slot, key, ke)),
        key.len() == ke.value_field_count,
        all_filled(s, key),
    ensures
        ({
            let t = map_remove(s, slot, key, ke);
            run_of(m, t).declared == run_of(m, s).declared + (indexed(0x70, slot) + pushed(
                m,
                false,
                ke.alignment_atoms,
                values_of(m, t, key),
            ) + seq![0x19int, 0xa1])
        }),
{
    reveal(map_remove);
    let a = idx_op(s, 0x70, slot);
    let b = push_cell(a, key, Some(ke), false);
    let c = op(b, 0x19);
    let t = op(c, 0xa1);
    lemma_self_before(t, t);
    lemma_op_before(c, 0xa1);
    lemma_op_before(b, 0x19);
    lemma_before_trans(b, c, t);
    lemma_push_before(a, key, ke, false);
    lemma_before_trans(a, b, t);
    let ws = indexed(0x70, slot);
    let xs = pushed(m, false, ke.alignment_atoms, values_of(m, t, key));
    lemma_idx(m, s, 0x70, slot, t);
    lemma_in_front(m, s, a, t, ws);
    lemma_push(m, a, key, ke, false, t);
    lemma_in_front(m, a, b, t, xs);
    lemma_op(m, b, 0x19, t);
    lemma_in_front(m, b, c, t, seq![0x19int]);
    lemma_op(m, c, 0xa1, t);
    lemma_then(m, s, a, b, ws, xs, ws + xs);
    lemma_then(m, s, b, c, ws + xs, seq![0x19int], ws + xs + seq![0x19int]);
    lemma_then(m, s, c, t, ws + xs + seq![0x19int], seq![0xa1int], ws + xs + seq![0x19int, 0xa1]);
    reveal(declares);
}

/// An active membership test declares the path to its slot, the key and the
/// result read from the transcript, which is its value.
pub proof fn membership_tests_declare_key_and_result(m: MachineV, s: EmitV, slot: u8, key: Seq<u32>, ke: EncodingV)
    requires
        0x1_0000_0000 < m.modulus,
        fits(m, map_member(s, slot, key, ke).0),
        live(m, s, map_member(s, slot, key, ke).0),
        key.len() == ke.value_field_count,
        all_filled(s, key),
    ensures
        ({
            let (t, v) = map_member(s, slot, key, ke);
            v is Some && run_of(m, t).declared == run_of(m, s).declared + (seq![0x30int] + indexed(0x50, slot) + pushed(
                m,
                false,
                ke.alignment_atoms,
                values_of(m, t, key),
            ) + seq![0x18int, 0x0d, 1, 1, carried(m, t, v->0)])
        }),
{
    reveal(map_member);
    let a0 = op(s, 0x30);
    let a = idx_op(a0, 0x50, slot);
    let b = push_cell(a, key, Some(ke), false);
    let c = op(b, 0x18);
    let (t, v) = popeq_bool(c);
    lemma_self_before(t, t);
    crate::emission_laws::lemma_popeq_bool(false, c);
    lemma_from_growth(c, t, 0);
    lemma_op_before(b, 0x18);
    lemma_before_trans(b, c, t);
    lemma_push_before(a, key, ke, false);
    lemma_before_trans(a, b, t);
    lemma_idx_before(a0, 0x50, slot);
    lemma_before_trans(a0, a, t);
    let ws = indexed(0x50, slot);
    let xs = pushed(m, false, ke.alignment_atoms, values_of(m, t, key));
    let r = carried(m, t, v);
    lemma_op(m, s, 0x30, t);
    lemma_in_front(m, s, a0, t, seq![0x30int]);
    lemma_idx(m, a0, 0x50, slot, t);
    lemma_in_front(m, a0, a, t, ws);
    lemma_push(m, a, key, ke, false, t);
    lemma_in_front(m, a, b, t, xs);
    lemma_op(m, b, 0x18, t);
    lemma_in_front(m, b, c, t, seq![0x18int]);
    lemma_popeq(m, c, t);
    let head = seq![0x30int] + ws;
    lemma_then(m, s, a0, a, seq![0x30int], ws, head);
    lemma_then(m, s, a, b, head, xs, head + xs);
    lemma_then(m, s, b, c, head + xs, seq![0x18int], head + xs + seq![0x18int]);
    lemma_then(
        m,
        s,
        c,
        t,
        head + xs + seq![0x18int],
        seq![0x0dint, 1, 1, r],
        head + xs + seq![0x18int, 0x0d, 1, 1, r],
    );
    reveal(declares);
}

// ---- trees

/// An active root check declares the path to its tree, the digest and the
/// result read from the transcript, which is its value.
pub proof fn root_checks_declare_digest_and_result(m: MachineV, s: EmitV, slot: u8, digest: u32)
    requires
        0x1_0000_0000 < m.modulus,
        fits(m, merkle_check_root(s, slot, digest).0),
        live(m, s, merkle_check_root(s, slot, digest).0),
        digest < s.next_index,
    ensures
        ({
            let (t, v) = merkle_check_root(s, slot, digest);
            v is Some && run_of(m, t).declared == run_of(m, s).declared + (seq![0x30int] + indexed(0x50, slot) + indexed(
                0x50,
                0,
            ) + seq![0x0aint] + pushed(m, false, seq![1i32, -2i32 as i32], seq![carried(m, t, digest)]) + seq![
                0x02int,
                0x0d,
                1,
                1,
                carried(m, t, v->0),
            ])
        }),
{
    reveal(merkle_check_root);
    let a = op(s, 0x30);
    let b = idx_op(a, 0x50, slot);
    let c = idx_op(b, 0x50, 0);
    let d = op(c, 0x0a);
    let enc = EncodingV { alignment_atoms: seq![1i32, -2i32 as i32], value_field_count: 1 };
    let e = push_cell(d, seq![digest], Some(enc), false);
    let f = op(e, 0x02);
    let (t, v) = popeq_bool(f);
    lemma_self_before(t, t);
    crate::emission_laws::lemma_popeq_bool(false, f);
    lemma_from_growth(f, t, 0);
    lemma_op_before(e, 0x02);
    lemma_before_trans(e, f, t);
    lemma_push_before(d, seq![digest], enc, false);
    lemma_before_trans(d, e, t);
    lemma_op_before(c, 0x0a);
    lemma_before_trans(c, d, t);
    lemma_idx_before(b, 0x50, 0);
    lemma_before_trans(b, c, t);
    lemma_idx_before(a, 0x50, slot);
    lemma_before_trans(a, b, t);
    let xs = pushed(m, false, enc.alignment_atoms, seq![carried(m, t, digest)]);
    let r = carried(m, t, v);
    lemma_op(m, s, 0x30, t);
    lemma_in_front(m, s, a, t, seq![0x30int]);
    lemma_idx(m, a, 0x50, slot, t);
    lemma_in_front(m, a, b, t, indexed(0x50, slot));
    lemma_idx(m, b, 0x50, 0, t);
    lemma_in_front(m, b, c, t, indexed(0x50, 0));
    lemma_op(m, c, 0x0a, t);
    lemma_in_front(m, c, d, t, seq![0x0aint]);
    lemma_push(m, d, seq![digest], enc, false, t);
    assert(values_of(m, t, seq![digest]) =~= seq![carried(m, t, digest)]);
    lemma_in_front(m, d, e, t, xs);
    lemma_op(m, e, 0x02, t);
    lemma_in_front(m, e, f, t, seq![0x02int]);
    lemma_popeq(m, f, t);
    let h1 = seq![0x30int] + indexed(0x50, slot);
    let h2 = h1 + indexed(0x50, 0);
    let h3 = h2 + seq![0x0aint];
    lemma_then(m, s, a, b, seq![0x30int], indexed(0x50, slot), h1);
    lemma_then(m, s, b, c, h1, indexed(0x50, 0), h2);
    lemma_then(m, s, c, d, h2, seq![0x0aint], h3);
    lemma_then(m, s, d, e, h3, xs, h3 + xs);
    lemma_then(m, s, e, f, h3 + xs, seq![0x02int], h3 + xs + seq![0x02int]);
    lemma_then(m, s, f, t, h3 + xs + seq![0x02int], seq![0x0dint, 1, 1, r], h3 + xs + seq![0x02int, 0x0d, 1, 1, r]);
    reveal(declares);
}

proof fn lemma_leaf_before(s: EmitV, first: u32, n: u32)
    ensures
        comes_before(s, leaf_hash(s, first, n).0),
{
    crate::emission_laws::lemma_leaf_hash(false, s, first, n);
    lemma_from_growth(s, leaf_hash(s, first, n).0, 0);
}

proof fn lemma_leaf_declares(m: MachineV, s: EmitV, first: u32, n: u32, u: EmitV)
    requires
        comes_before(leaf_hash(s, first, n).0, u),
        fits(m, u),
    ensures
        declares(m, s, leaf_hash(s, first, n).0, seq![]),
        comes_before(s, u),
{
    reveal(leaf_hash);
    let i = InstructionV::LoadImm { imm: imm(crate::emission::leaf_domain()) };
    let (a, d) = emit(s, i);
    let k = InstructionV::PersistentHash {
        alignment: seq![
            crate::zkir::AlignmentAtom::Bytes { length: 6 },
            crate::zkir::AlignmentAtom::Bytes { length: n },
        ],
        inputs: seq![d] + crate::emission::wires(first, crate::nocturne_type::chunks(n)),
    };
    let b = emit(a, k).0;
    lemma_emits(m, a, k, u);
    lemma_emits(m, s, i, u);
    lemma_then(m, s, a, b, seq![], seq![], seq![]);
}

/// The push of a leaf's hash: an aligned value of 32 bytes in two elements.
proof fn lemma_leaf_push(m: MachineV, s: EmitV, h: u32, u: EmitV)
    requires
        0x1_0000_0000 < m.modulus,
        comes_before(leaf_pushed(s, h), u),
        fits(m, u),
        live(m, s, u),
        h + 1 < s.next_index,
    ensures
        declares(
            m,
            s,
            leaf_pushed(s, h),
            seq![0x11int, 1, 1, 32, carried(m, u, h), carried(m, u, (h + 1) as u32)],
        ),
        comes_before(s, u),
{
    let (c, o) = load(s, 0x11);
    let (d, disc) = load(c, 1);
    let (e, len) = load(d, 32);
    let f1 = declare(e, o);
    let f2 = declare(f1, disc);
    let f3 = declare(f2, disc);
    let f4 = declare(f3, len);
    let f5 = declare(f4, h);
    let f6 = declare(f5, (h + 1) as u32);
    let t = leaf_pushed(s, h);
    let x = carried(m, u, h);
    let y = carried(m, u, (h + 1) as u32);
    lemma_skip_before(f6, s.guard, 6);
    lemma_before_trans(f6, t, u);
    lemma_declare_before(f5, (h + 1) as u32);
    lemma_before_trans(f5, f6, u);
    lemma_declare_before(f4, h);
    lemma_before_trans(f4, f5, u);
    lemma_declare_before(f3, len);
    lemma_before_trans(f3, f4, u);
    lemma_declare_before(f2, disc);
    lemma_before_trans(f2, f3, u);
    lemma_declare_before(f1, disc);
    lemma_before_trans(f1, f2, u);
    lemma_declare_before(e, o);
    lemma_before_trans(e, f1, u);
    lemma_emit_before(d, InstructionV::LoadImm { imm: imm(32) });
    lemma_before_trans(d, e, u);
    lemma_emit_before(c, InstructionV::LoadImm { imm: imm(1) });
    lemma_before_trans(c, d, u);
    vstd::arithmetic::div_mod::lemma_small_mod(0x11, m.modulus as nat);
    vstd::arithmetic::div_mod::lemma_small_mod(1, m.modulus as nat);
    vstd::arithmetic::div_mod::lemma_small_mod(32, m.modulus as nat);
    lemma_loads(m, s, 0x11, u);
    lemma_in_front(m, s, c, u, seq![]);
    lemma_loads(m, c, 1, u);
    lemma_in_front(m, c, d, u, seq![]);
    lemma_loads(m, d, 32, u);
    lemma_in_front(m, d, e, u, seq![]);
    lemma_declares(m, e, o, u);
    lemma_in_front(m, e, f1, u, seq![0x11int]);
    lemma_declares(m, f1, disc, u);
    lemma_in_front(m, f1, f2, u, seq![1int]);
    lemma_declares(m, f2, disc, u);
    lemma_in_front(m, f2, f3, u, seq![1int]);
    lemma_declares(m, f3, len, u);
    lemma_in_front(m, f3, f4, u, seq![32int]);
    lemma_declares(m, f4, h, u);
    lemma_in_front(m, f4, f5, u, seq![x]);
    lemma_declares(m, f5, (h + 1) as u32, u);
    lemma_in_front(m, f5, f6, u, seq![y]);
    lemma_skips(m, f6, s.guard, 6);
    lemma_then(m, s, c, d, seq![], seq![], seq![]);
    lemma_then(m, s, d, e, seq![], seq![], seq![]);
    lemma_then(m, s, e, f1, seq![], seq![0x11int], seq![0x11int]);
    lemma_then(m, s, f1, f2, seq![0x11int], seq![1int], seq![0x11int, 1]);
    lemma_then(m, s, f2, f3, seq![0x11int, 1], seq![1int], seq![0x11int, 1, 1]);
    lemma_then(m, s, f3, f4, seq![0x11int, 1, 1], seq![32int], seq![0x11int, 1, 1, 32]);
    lemma_then(m, s, f4, f5, seq![0x11int, 1, 1, 32], seq![x], seq![0x11int, 1, 1, 32, x]);
    lemma_then(m, s, f5, f6, seq![0x11int, 1, 1, 32, x], seq![y], seq![0x11int, 1, 1, 32, x, y]);
    lemma_then(m, s, f6, t, seq![0x11int, 1, 1, 32, x, y], seq![], seq![0x11int, 1, 1, 32, x, y]);
}

/// The state behind the push of a leaf's hash.
spec fn leaf_pushed(s: EmitV, h: u32) -> EmitV {
    let (c, o) = load(s, 0x11);
    let (d, disc) = load(c, 1);
    let (e, len) = load(d, 32);
    let f = declare(declare(declare(declare(e, o), disc), disc), len);
    skip(declare(declare(f, h), (h + 1) as u32), s.guard, 6)
}

/// An active insertion into a tree declares the path to its leaves and the
/// hash of the leaf, and moves the tree's index on by one.
pub proof fn tree_insertions_declare_the_leaf_hash(m: MachineV, s: EmitV, slot: u8, first: u32, n: u32)
    requires
        0x1_0000_0000_0000 < m.modulus,
        fits(m, merkle_insert(s, slot, first, n)),
        live(m, s, merkle_insert(s, slot, first, n)),
        first + crate::nocturne_type::chunks(n) <= s.next_index,
    ensures
        ({
            let t = merkle_insert(s, slot, first, n);
            let leaf = Seq::new(crate::nocturne_type::chunks(n), |i: int| run_of(m, t).cells[first + i]);
            let (x, y) = leaf_hashes(m, n, leaf);
            run_of(m, t).declared == run_of(m, s).declared + (indexed(0x70, slot) + indexed(0x70, 0) + seq![0x32int]
                + indexed(0x50, 1) + seq![0x11int, 1, 1, 32, x, y] + seq![0x91int, 0xa1] + indexed(0x70, 1) + seq![
                0x0eint,
                1,
                0xa2,
            ])
        }),
{
    reveal(merkle_insert);
    let a1 = idx_op(s, 0x70, slot);
    let a2 = idx_op(a1, 0x70, 0);
    let a3 = op(a2, 0x32);
    let a4 = idx_op(a3, 0x50, 1);
    let (b, h) = leaf_hash(a4, first, n);
    let t = merkle_insert(s, slot, first, n);
    let g = skip(
        declare(
            declare(
                declare(
                    declare(
                        declare(
                            declare(load(load(load(b, 0x11).0, 1).0, 32).0, load(b, 0x11).1),
                            load(load(b, 0x11).0, 1).1,
                        ),
                        load(load(b, 0x11).0, 1).1,
                    ),
                    load(load(load(b, 0x11).0, 1).0, 32).1,
                ),
                h,
            ),
            h.wrapping_add(1),
        ),
        s.guard,
        6,
    );
    let c1 = op(g, 0x91);
    let c2 = op(c1, 0xa1);
    let c3 = idx_op(c2, 0x70, 1);
    let c4 = addi_op(c3, 1).0;
    assert(t == op(c4, 0xa2));
    lemma_self_before(t, t);
    lemma_op_before(c4, 0xa2);
    crate::emission_laws::lemma_addi_op(false, c3, 1);
    lemma_from_growth(c3, c4, 0);
    lemma_before_trans(c3, c4, t);
    lemma_idx_before(c2, 0x70, 1);
    lemma_before_trans(c2, c3, t);
    lemma_op_before(c1, 0xa1);
    lemma_before_trans(c1, c2, t);
    lemma_op_before(g, 0x91);
    lemma_before_trans(g, c1, t);
    lemma_tree_front(m, s, slot, first, n, g, t);
    let leaf = Seq::new(crate::nocturne_type::chunks(n), |i: int| run_of(m, t).cells[first + i]);
    let (x, y) = leaf_hashes(m, n, leaf);
    let xs = indexed(0x70, slot) + indexed(0x70, 0) + seq![0x32int] + indexed(0x50, 1) + seq![0x11int, 1, 1, 32, x, y];
    lemma_in_front(m, s, g, t, xs);
    lemma_op(m, g, 0x91, t);
    lemma_in_front(m, g, c1, t, seq![0x91int]);
    lemma_op(m, c1, 0xa1, t);
    lemma_in_front(m, c1, c2, t, seq![0xa1int]);
    lemma_idx(m, c2, 0x70, 1, t);
    lemma_in_front(m, c2, c3, t, indexed(0x70, 1));
    lemma_addi(m, c3, 1, t);
    lemma_in_front(m, c3, c4, t, seq![0x0eint, 1]);
    lemma_op(m, c4, 0xa2, t);
    let ys = xs + seq![0x91int, 0xa1];
    let zs = ys + indexed(0x70, 1);
    lemma_then(m, s, g, c1, xs, seq![0x91int], xs + seq![0x91int]);
    lemma_then(m, s, c1, c2, xs + seq![0x91int], seq![0xa1int], ys);
    lemma_then(m, s, c2, c3, ys, indexed(0x70, 1), zs);
    lemma_then(m, s, c3, c4, zs, seq![0x0eint, 1], zs + seq![0x0eint, 1]);
    lemma_then(m, s, c4, t, zs + seq![0x0eint, 1], seq![0xa2int], zs + seq![0x0eint, 1, 0xa2]);
    reveal(declares);
}

/// The first half of an insertion into a tree.
proof fn lemma_tree_front(m: MachineV, s: EmitV, slot: u8, first: u32, n: u32, g: EmitV, u: EmitV)
    requires
        0x1_0000_0000_0000 < m.modulus,
        ({
            let a4 = idx_op(op(idx_op(idx_op(s, 0x70, slot), 0x70, 0), 0x32), 0x50, 1);
            let (b, h) = leaf_hash(a4, first, n);
            let (c, o) = load(b, 0x11);
            let (d, disc) = load(c, 1);
            let (e, len) = load(d, 32);
            let f = declare(declare(declare(declare(e, o), disc), disc), len);
            g == skip(declare(declare(f, h), h.wrapping_add(1)), s.guard, 6)
        }),
        comes_before(g, u),
        fits(m, u),
        live(m, s, u),
        first + crate::nocturne_type::chunks(n) <= s.next_index,
    ensures
        ({
            let leaf = Seq::new(crate::nocturne_type::chunks(n), |i: int| run_of(m, u).cells[first + i]);
            let (x, y) = leaf_hashes(m, n, leaf);
            declares(
                m,
                s,
                g,
                indexed(0x70, slot) + indexed(0x70, 0) + seq![0x32int] + indexed(0x50, 1) + seq![
                    0x11int,
                    1,
                    1,
                    32,
                    x,
                    y,
                ],
            )
        }),
{
    let a1 = idx_op(s, 0x70, slot);
    let a2 = idx_op(a1, 0x70, 0);
    let a3 = op(a2, 0x32);
    let a4 = idx_op(a3, 0x50, 1);
    let (b, h) = leaf_hash(a4, first, n);
    assert(comes_before(b, g)) by {
        lemma_leaf_group_before(b, h, s.guard);
    }
    lemma_before_trans(b, g, u);
    lemma_leaf_before(a4, first, n);
    lemma_before_trans(a4, b, u);
    lemma_idx_before(a3, 0x50, 1);
    lemma_before_trans(a3, a4, u);
    lemma_op_before(a2, 0x32);
    lemma_before_trans(a2, a3, u);
    lemma_idx_before(a1, 0x70, 0);
    lemma_before_trans(a1, a2, u);
    lemma_idx(m, s, 0x70, slot, u);
    lemma_in_front(m, s, a1, u, indexed(0x70, slot));
    lemma_idx(m, a1, 0x70, 0, u);
    lemma_in_front(m, a1, a2, u, indexed(0x70, 0));
    lemma_op(m, a2, 0x32, u);
    lemma_in_front(m, a2, a3, u, seq![0x32int]);
    lemma_idx(m, a3, 0x50, 1, u);
    lemma_in_front(m, a3, a4, u, indexed(0x50, 1));
    lemma_leaf_cells(m, a4, first, n, u);
    lemma_leaf_declares(m, a4, first, n, u);
    lemma_in_front(m, a4, b, u, seq![]);
    assert(h.wrapping_add(1) == h + 1);
    assert(g == leaf_pushed(b, h));
    lemma_leaf_push(m, b, h, u);
    let leaf = Seq::new(crate::nocturne_type::chunks(n), |i: int| run_of(m, u).cells[first + i]);
    let (x, y) = leaf_hashes(m, n, leaf);
    let h1 = indexed(0x70, slot) + indexed(0x70, 0);
    let h2 = h1 + seq![0x32int];
    let h3 = h2 + indexed(0x50, 1);
    lemma_then(m, s, a1, a2, indexed(0x70, slot), indexed(0x70, 0), h1);
    lemma_then(m, s, a2, a3, h1, seq![0x32int], h2);
    lemma_then(m, s, a3, a4, h2, indexed(0x50, 1), h3);
    lemma_then(m, s, a4, b, h3, seq![], h3);
    lemma_then(m, s, b, g, h3, seq![0x11int, 1, 1, 32, x, y], h3 + seq![0x11int, 1, 1, 32, x, y]);
}

proof fn lemma_leaf_group_before(b: EmitV, h: u32, guard: u32)
    ensures
        ({
            let (c, o) = load(b, 0x11);
            let (d, disc) = load(c, 1);
            let (e, len) = load(d, 32);
            let f = declare(declare(declare(declare(e, o), disc), disc), len);
            comes_before(b, skip(declare(declare(f, h), h.wrapping_add(1)), guard, 6))
        }),
{
    let (c, o) = load(b, 0x11);
    let (d, disc) = load(c, 1);
    let (e, len) = load(d, 32);
    let f1 = declare(e, o);
    let f2 = declare(f1, disc);
    let f3 = declare(f2, disc);
    let f4 = declare(f3, len);
    let f5 = declare(f4, h);
    let f6 = declare(f5, h.wrapping_add(1));
    let g = skip(f6, guard, 6);
    lemma_skip_before(f6, guard, 6);
    lemma_declare_before(f5, h.wrapping_add(1));
    lemma_before_trans(f5, f6, g);
    lemma_declare_before(f4, h);
    lemma_before_trans(f4, f5, g);
    lemma_declare_before(f3, len);
    lemma_before_trans(f3, f4, g);
    lemma_declare_before(f2, disc);
    lemma_before_trans(f2, f3, g);
    lemma_declare_before(f1, disc);
    lemma_before_trans(f1, f2, g);
    lemma_declare_before(e, o);
    lemma_before_trans(e, f1, g);
    lemma_emit_before(d, InstructionV::LoadImm { imm: imm(32) });
    lemma_before_trans(d, e, g);
    lemma_emit_before(c, InstructionV::LoadImm { imm: imm(1) });
    lemma_before_trans(c, d, g);
    lemma_emit_before(b, InstructionV::LoadImm { imm: imm(0x11) });
    lemma_before_trans(b, c, g);
}

// ---- reads

/// From `s` to `t` nothing is taken from the public transcript.
spec fn takes_nothing(m: MachineV, s: EmitV, t: EmitV) -> bool {
    run_of(m, t).read == run_of(m, s).read
}

proof fn lemma_declare_takes(m: MachineV, s: EmitV, v: u32)
    ensures
        takes_nothing(m, s, declare(s, v)),
{
    broadcast use crate::machine::runs;

    reveal(declare);
    if s.in_conditional {
        let (a, zero) = load_zero(s);
        if s.zero_var is None {
            assert(run_of(m, a) == run_of(m, load(s, 0).0));
        }
        let (b, x) = emit(a, InstructionV::CondSelect { bit: s.guard, a: v, b: zero });
        assert(run_of(m, b).read == run_of(m, s).read);
    }
}

proof fn lemma_op_takes(m: MachineV, s: EmitV, code: int)
    ensures
        takes_nothing(m, s, op(s, code)),
{
    broadcast use crate::machine::runs;

    reveal(op);
    let (a, o) = load(s, code);
    lemma_declare_takes(m, a, o);
}

proof fn lemma_idx_takes(m: MachineV, s: EmitV, code: int, key: u8)
    ensures
        takes_nothing(m, s, idx_op(s, code, key)),
{
    broadcast use crate::machine::runs;

    reveal(idx_op);
    reveal(key_repr);
    let (a, o) = load(s, code);
    let d = declare(a, o);
    lemma_declare_takes(m, a, o);
    let (b, k) = load(d, key as int);
    let c = declare(b, d.guard);
    let e = declare(c, d.guard);
    lemma_declare_takes(m, b, d.guard);
    lemma_declare_takes(m, c, d.guard);
    lemma_declare_takes(m, e, k);
}

proof fn lemma_atoms_take(m: MachineV, s: EmitV, atoms: Seq<i32>, n: nat)
    ensures
        takes_nothing(m, s, declare_atoms(s, atoms, n)),
    decreases n,
{
    broadcast use crate::machine::runs;

    if n > 0 && n <= atoms.len() {
        lemma_atoms_take(m, s, atoms, (n - 1) as nat);
        let (a, v) = load(declare_atoms(s, atoms, (n - 1) as nat), atoms[n - 1] as int);
        lemma_declare_takes(m, a, v);
    }
}

/// The next `n` outputs of the public transcript.
pub open spec fn outputs(m: MachineV, from: nat, n: nat) -> Seq<int> {
    Seq::new(n, |i: int| (m.public)((from + i) as nat))
}

proof fn lemma_elements_before(s: EmitV, layout: Seq<Option<u32>>, n: nat)
    ensures
        comes_before(s, read_elements(s, layout, n).0),
    decreases n,
{
    if n == 0 || n > layout.len() {
        lemma_self_before(s, s);
    } else {
        let t = read_elements(s, layout, n).0;
        let a = read_elements(s, layout, (n - 1) as nat).0;
        let i = InstructionV::PublicInput { guard: io_guard(s) };
        let (b, v) = emit(a, i);
        let c = match layout[n - 1] {
            Some(bits) => put(b, InstructionV::ConstrainBits { var: v, bits }),
            None => b,
        };
        lemma_elements_before(s, layout, (n - 1) as nat);
        lemma_emit_before(a, i);
        lemma_declare_before(c, v);
        if layout[n - 1] is Some {
            lemma_put_before(b, InstructionV::ConstrainBits { var: v, bits: layout[n - 1]->0 });
            lemma_before_trans(b, c, t);
        }
        lemma_before_trans(a, b, t);
        lemma_before_trans(s, a, t);
    }
}

/// The elements of a value read are declared as they are taken.
proof fn lemma_elements(m: MachineV, s: EmitV, layout: Seq<Option<u32>>, n: nat, u: EmitV)
    requires
        n <= layout.len(),
        comes_before(read_elements(s, layout, n).0, u),
        fits(m, u),
        live(m, s, u),
    ensures
        ({
            let (t, first) = read_elements(s, layout, n);
            let from = run_of(m, s).read;
            &&& declares(m, s, t, outputs(m, from, n))
            &&& run_of(m, t).read == from + n
            &&& n > 0 ==> first is Some && first->0 < t.next_index && carried(m, u, first->0) == (m.public)(from)
        }),
    decreases n,
{
    broadcast use crate::machine::runs;

    let (t, first) = read_elements(s, layout, n);
    let from = run_of(m, s).read;
    if n == 0 {
        reveal(declares);
        lemma_self_before(s, s);
        assert(run_of(m, s).declared + outputs(m, from, 0) =~= run_of(m, s).declared);
    } else {
        let a = read_elements(s, layout, (n - 1) as nat).0;
        let i = InstructionV::PublicInput { guard: io_guard(s) };
        let (b, v) = emit(a, i);
        let c = match layout[n - 1] {
            Some(bits) => put(b, InstructionV::ConstrainBits { var: v, bits }),
            None => b,
        };
        lemma_declare_before(c, v);
        lemma_before_trans(c, t, u);
        if layout[n - 1] is Some {
            lemma_put_before(b, InstructionV::ConstrainBits { var: v, bits: layout[n - 1]->0 });
            lemma_before_trans(b, c, u);
        }
        lemma_emit_before(a, i);
        lemma_before_trans(a, b, u);
        lemma_elements(m, s, layout, (n - 1) as nat, u);
        let before = outputs(m, from, (n - 1) as nat);
        lemma_in_front(m, s, a, u, before);
        lemma_emits(m, a, i, u);
        lemma_in_front(m, a, b, u, seq![]);
        wires_keep_their_values(m, a, u, s.guard);
        wires_keep_their_values(m, b, u, v);
        assert(crate::machine::active(run_of(m, a).cells, io_guard(s)));
        assert(carried(m, u, v) == (m.public)((from + n - 1) as nat));
        assert(declares(m, b, c, seq![])) by {
            if layout[n - 1] is Some {
                lemma_puts(m, b, InstructionV::ConstrainBits { var: v, bits: layout[n - 1]->0 });
            } else {
                reveal(declares);
                lemma_self_before(b, b);
                assert(run_of(m, b).declared + Seq::<int>::empty() =~= run_of(m, b).declared);
            }
        }
        lemma_in_front(m, b, c, u, seq![]);
        lemma_declares(m, c, v, u);
        lemma_in_front(m, c, t, u, seq![carried(m, u, v)]);
        lemma_declare_takes(m, c, v);
        lemma_then(m, s, a, b, before, seq![], before);
        lemma_then(m, s, b, c, before, seq![], before);
        lemma_then(m, s, c, t, before, seq![carried(m, u, v)], outputs(m, from, n));
    }
}

/// An active read declares the path to its slot, the type of the value and the
/// value itself: the next outputs of the public transcript. Its wire carries
/// the first of them.
pub proof fn reads_declare_what_they_take(m: MachineV, cx: ContractV, s: EmitV, slot: u8, ty: TyV, e: EncodingV)
    requires
        0x1_0000_0000 < m.modulus,
        fits(m, ledger_read(cx, s, slot, Some(ty)).0),
        live(m, s, ledger_read(cx, s, slot, Some(ty)).0),
        value_encoding(type_ctx(cx), ty) == Some(e),
        e.value_field_count >= 1,
        read_layout(type_ctx(cx), ty).len() == e.value_field_count,
    ensures
        ({
            let (t, v) = ledger_read(cx, s, slot, Some(ty));
            let from = run_of(m, s).read;
            &&& run_of(m, t).declared == run_of(m, s).declared + (seq![0x30int] + indexed(0x50, slot) + seq![0x0dint]
                + atoms_of(m, e.alignment_atoms) + outputs(m, from, e.value_field_count))
            &&& v is Some
            &&& carried(m, t, v->0) == (m.public)(from)
        }),
{
    broadcast use crate::machine::runs;

    reveal(ledger_read);
    let layout = read_layout(type_ctx(cx), ty);
    let atoms = e.alignment_atoms;
    let a = op(s, 0x30);
    let b = idx_op(a, 0x50, slot);
    let (c, o) = load(b, 0x0d);
    let d = declare(c, o);
    let f = declare_atoms(d, atoms, atoms.len());
    let (g, first) = read_elements(f, layout, layout.len());
    let t = skip(g, s.guard, (1 + atoms.len() + e.value_field_count) as u32);
    assert(ledger_read(cx, s, slot, Some(ty)) == (t, first));
    lemma_self_before(t, t);
    lemma_skip_before(g, s.guard, (1 + atoms.len() + e.value_field_count) as u32);
    lemma_elements_before(f, layout, layout.len());
    lemma_before_trans(f, g, t);
    lemma_atoms_before(d, atoms, atoms.len());
    lemma_before_trans(d, f, t);
    lemma_constant_before(b, 0x0d, d, t);
    lemma_idx_before(a, 0x50, slot);
    lemma_before_trans(a, b, t);
    lemma_op(m, s, 0x30, t);
    lemma_in_front(m, s, a, t, seq![0x30int]);
    lemma_idx(m, a, 0x50, slot, t);
    lemma_in_front(m, a, b, t, indexed(0x50, slot));
    lemma_constant(m, b, 0x0d, t);
    lemma_in_front(m, b, d, t, seq![0x0dint]);
    lemma_declares_atoms(m, d, atoms, atoms.len(), t);
    let xs = atoms_of(m, atoms);
    assert(xs.take(atoms.len() as int) =~= xs);
    lemma_in_front(m, d, f, t, xs);
    lemma_op_takes(m, s, 0x30);
    lemma_idx_takes(m, a, 0x50, slot);
    lemma_declare_takes(m, c, o);
    lemma_atoms_take(m, d, atoms, atoms.len());
    lemma_elements(m, f, layout, layout.len(), t);
    let from = run_of(m, s).read;
    let ys = outputs(m, from, layout.len());
    lemma_in_front(m, f, g, t, ys);
    lemma_skips(m, g, s.guard, (1 + atoms.len() + e.value_field_count) as u32);
    let h1 = seq![0x30int] + indexed(0x50, slot);
    let h2 = h1 + seq![0x0dint];
    lemma_then(m, s, a, b, seq![0x30int], indexed(0x50, slot), h1);
    lemma_then(m, s, b, d, h1, seq![0x0dint], h2);
    lemma_then(m, s, d, f, h2, xs, h2 + xs);
    lemma_then(m, s, f, g, h2 + xs, ys, h2 + xs + ys);
    lemma_then(m, s, g, t, h2 + xs + ys, seq![], h2 + xs + ys);
    reveal(declares);
}

/// An active lookup declares the path to its slot, the key, the type of the
/// value and the value itself: the next outputs of the public transcript.
pub proof fn lookups_declare_key_and_value(
    m: MachineV,
    cx: ContractV,
    s: EmitV,
    slot: u8,
    key: Seq<u32>,
    ke: EncodingV,
    vt: TyV,
    ve: EncodingV,
)
    requires
        0x1_0000_0000 < m.modulus,
        fits(m, map_lookup(cx, s, slot, key, ke, vt, ve).0),
        live(m, s, map_lookup(cx, s, slot, key, ke, vt, ve).0),
        all_filled(s, key),
        read_layout(type_ctx(cx), vt).len() == ve.value_field_count,
        ve.value_field_count >= 1,
    ensures
        ({
            let (t, v) = map_lookup(cx, s, slot, key, ke, vt, ve);
            let from = run_of(m, s).read;
            &&& run_of(m, t).declared == run_of(m, s).declared + (seq![0x30int] + indexed(0x50, slot) + seq![0x50int]
                + atoms_of(m, ke.alignment_atoms) + values_of(m, t, key) + seq![0x0cint] + atoms_of(
                m,
                ve.alignment_atoms,
            ) + outputs(m, from, ve.value_field_count))
            &&& v is Some
            &&& carried(m, t, v->0) == (m.public)(from)
        }),
{
    broadcast use crate::machine::runs;

    reveal(map_lookup);
    let layout = read_layout(type_ctx(cx), vt);
    let ka = ke.alignment_atoms;
    let va = ve.alignment_atoms;
    let a = op(s, 0x30);
    let b = idx_op(a, 0x50, slot);
    let (c, o) = load(b, 0x50);
    let d = declare(c, o);
    let f = declare_atoms(d, ka, ka.len());
    let g = declare_all(f, key, key.len());
    let kc = (1 + ka.len() + key.len()) as u32;
    let h = skip(g, s.guard, kc);
    let (i, o2) = load(h, 0x0c);
    let j = declare(i, o2);
    let k = declare_atoms(j, va, va.len());
    let (l, first) = read_elements(k, layout, layout.len());
    let vc = (1 + va.len() + ve.value_field_count) as u32;
    let t = skip(l, s.guard, vc);
    assert(map_lookup(cx, s, slot, key, ke, vt, ve) == (t, first));
    lemma_self_before(t, t);
    lemma_skip_before(l, s.guard, vc);
    lemma_elements_before(k, layout, layout.len());
    lemma_before_trans(k, l, t);
    lemma_atoms_before(j, va, va.len());
    lemma_before_trans(j, k, t);
    lemma_constant_before(h, 0x0c, j, t);
    lemma_skip_before(g, s.guard, kc);
    lemma_before_trans(g, h, t);
    lemma_all_before(f, key, key.len());
    lemma_before_trans(f, g, t);
    lemma_atoms_before(d, ka, ka.len());
    lemma_before_trans(d, f, t);
    lemma_constant_before(b, 0x50, d, t);
    lemma_idx_before(a, 0x50, slot);
    lemma_before_trans(a, b, t);
    lemma_op(m, s, 0x30, t);
    lemma_in_front(m, s, a, t, seq![0x30int]);
    lemma_idx(m, a, 0x50, slot, t);
    lemma_in_front(m, a, b, t, indexed(0x50, slot));
    lemma_constant(m, b, 0x50, t);
    lemma_in_front(m, b, d, t, seq![0x50int]);
    lemma_declares_atoms(m, d, ka, ka.len(), t);
    let ks = atoms_of(m, ka);
    let ws = values_of(m, t, key);
    let vs = atoms_of(m, va);
    assert(ks.take(ka.len() as int) =~= ks);
    assert(ws.take(key.len() as int) =~= ws);
    assert(vs.take(va.len() as int) =~= vs);
    lemma_in_front(m, d, f, t, ks);
    lemma_declares_all(m, f, key, key.len(), t);
    lemma_in_front(m, f, g, t, ws);
    lemma_skips(m, g, s.guard, kc);
    lemma_in_front(m, g, h, t, seq![]);
    lemma_constant(m, h, 0x0c, t);
    lemma_in_front(m, h, j, t, seq![0x0cint]);
    lemma_declares_atoms(m, j, va, va.len(), t);
    lemma_in_front(m, j, k, t, vs);
    lemma_op_takes(m, s, 0x30);
    lemma_idx_takes(m, a, 0x50, slot);
    lemma_declare_takes(m, c, o);
    lemma_atoms_take(m, d, ka, ka.len());
    lemma_all_take(m, f, key, key.len());
    lemma_declare_takes(m, i, o2);
    lemma_atoms_take(m, j, va, va.len());
    let from = run_of(m, s).read;
    assert(run_of(m, k).read == from);
    lemma_elements(m, k, layout, layout.len(), t);
    let ys = outputs(m, from, layout.len());
    lemma_in_front(m, k, l, t, ys);
    lemma_skips(m, l, s.guard, vc);
    let h1 = seq![0x30int] + indexed(0x50, slot);
    let h2 = h1 + seq![0x50int];
    let h3 = h2 + ks + ws;
    let h4 = h3 + seq![0x0cint];
    lemma_then(m, s, a, b, seq![0x30int], indexed(0x50, slot), h1);
    lemma_then(m, s, b, d, h1, seq![0x50int], h2);
    lemma_then(m, s, d, f, h2, ks, h2 + ks);
    lemma_then(m, s, f, g, h2 + ks, ws, h3);
    lemma_then(m, s, g, h, h3, seq![], h3);
    lemma_then(m, s, h, j, h3, seq![0x0cint], h4);
    lemma_then(m, s, j, k, h4, vs, h4 + vs);
    lemma_then(m, s, k, l, h4 + vs, ys, h4 + vs + ys);
    lemma_then(m, s, l, t, h4 + vs + ys, seq![], h4 + vs + ys);
    reveal(declares);
}

proof fn lemma_all_take(m: MachineV, s: EmitV, vars: Seq<u32>, n: nat)
    ensures
        takes_nothing(m, s, declare_all(s, vars, n)),
    decreases n,
{
    if n > 0 && n <= vars.len() {
        lemma_all_take(m, s, vars, (n - 1) as nat);
        lemma_declare_takes(m, declare_all(s, vars, (n - 1) as nat), vars[n - 1]);
    }
}

} // verus!
