//! Where code of a circuit is active, which transcript outputs its witness
//! values are, and which cells names, elements and variants have.
use crate::containers::array_parts;
use crate::contract::{lookup, ContractV, EnumVariantV, ParamV, StructFieldV};
use crate::deploy_laws::{lemma_one_more, stand_in_order};
use crate::emission::{declare, discriminant, emit, io_guard, load, load_zero, private_block, start_state, type_ctx};
use crate::emission::{variant_position, witness_layout, EmitV};
use crate::expr::ExprV;
use crate::lowering::{close_branch, declared_order, element, else_guard, evaluation_order, field_position, lower};
use crate::lowering::{lower_fields, lower_run, then_guard, with_params};
use crate::machine::{active, carried, comes_before, fits, lemma_before_trans, lemma_cell, lemma_emit_before};
use crate::machine::{lemma_put_before, run_of, wires_keep_their_values, MachineV};
use crate::nocturne_type::FrLayout;
use crate::private_events::EventV;
use crate::program_laws::{else_state, then_state};
use crate::syntax::{PathV, TyV};
use crate::transcript::{event_push, event_pushes};
use crate::value_laws::{lemma_one, lemma_self_before};
use crate::zkir::{imm, InstructionV};
use vstd::prelude::*;

verus! {

// ---- guards

/// The wire kept for zero carries zero.
pub open spec fn zero_ready(m: MachineV, s: EmitV) -> bool {
    s.zero_var matches Some(z) ==> z < s.next_index && carried(m, s, z) == 0
}

proof fn lemma_zero(m: MachineV, s: EmitV, u: EmitV)
    requires
        m.modulus > 1,
        comes_before(load_zero(s).0, u),
        fits(m, u),
        zero_ready(m, s),
    ensures
        comes_before(s, u),
        s.next_index <= load_zero(s).0.next_index,
        load_zero(s).1 < load_zero(s).0.next_index,
        carried(m, u, load_zero(s).1) == 0,
{
    let (a, z) = load_zero(s);
    if s.zero_var is Some {
        wires_keep_their_values(m, s, u, z);
    } else {
        let i = InstructionV::LoadImm { imm: imm(0) };
        let b = emit(s, i).0;
        lemma_self_before(b, a);
        lemma_before_trans(b, a, u);
        lemma_emit_before(s, i);
        lemma_before_trans(s, b, u);
        lemma_cell(m, s, i, u);
        reveal(emit);
        vstd::arithmetic::div_mod::lemma_small_mod(0nat, m.modulus as nat);
    }
}

/// The guard of a `then` branch is met just where the condition holds and the
/// code around the `if` is active.
pub proof fn then_branches_are_active_where_the_condition_holds(m: MachineV, a: EmitV, cond: u32)
    requires
        m.modulus > 1,
        fits(m, then_state(a, cond)),
        zero_ready(m, a),
        cond < a.next_index,
        a.guard < a.next_index,
    ensures
        ({
            let t = then_state(a, cond);
            let outside = a.in_conditional ==> carried(m, t, a.guard) == 1;
            &&& t.in_conditional
            &&& carried(m, t, t.guard) == 1 <==> carried(m, t, cond) == 1 && outside
        }),
{
    let t = then_state(a, cond);
    let (g, guard) = then_guard(a, cond);
    lemma_self_before(g, t);
    if a.in_conditional {
        let (z, zero) = load_zero(a);
        let i = InstructionV::CondSelect { bit: cond, a: a.guard, b: zero };
        lemma_emit_before(z, i);
        lemma_before_trans(z, g, t);
        lemma_zero(m, a, t);
        lemma_one(m, z, i, cond, a.guard, t);
        lemma_one(m, z, i, zero, zero, t);
    }
}

/// The guard of an `else` branch is met just where the condition is zero and
/// the code around the `if` is active.
pub proof fn else_branches_are_active_where_the_condition_fails(m: MachineV, a: EmitV, cond: u32, t: EmitV)
    requires
        m.modulus > 1,
        fits(m, else_state(a, cond, t)),
        zero_ready(m, t),
        cond < t.next_index,
        a.guard < t.next_index,
        carried(m, else_state(a, cond, t), cond) == 0 || carried(m, else_state(a, cond, t), cond) == 1,
    ensures
        ({
            let f = else_state(a, cond, t);
            let outside = a.in_conditional ==> carried(m, f, a.guard) == 1;
            carried(m, f, f.guard) == 1 <==> carried(m, f, cond) == 0 && outside
        }),
{
    let f = else_state(a, cond, t);
    let shut = close_branch(t, then_state(a, cond).instructions.len());
    let (g, guard) = else_guard(shut, cond, a.in_conditional, a.guard);
    lemma_self_before(g, f);
    if a.in_conditional {
        let (z, zero) = load_zero(shut);
        let i = InstructionV::CondSelect { bit: cond, a: zero, b: a.guard };
        lemma_emit_before(z, i);
        lemma_before_trans(z, g, f);
        lemma_zero(m, shut, f);
        lemma_one(m, z, i, cond, a.guard, f);
        lemma_one(m, z, i, zero, zero, f);
    } else {
        let i = InstructionV::Not { a: cond };
        lemma_one(m, shut, i, cond, cond, f);
    }
}

/// Where a branch is not active, zero is declared in place of every public
/// input.
pub proof fn inactive_branches_declare_zero(m: MachineV, s: EmitV, v: u32)
    requires
        m.modulus > 1,
        fits(m, declare(s, v)),
        s.in_conditional,
        s.guard < s.next_index,
        v < s.next_index,
        zero_ready(m, s),
        carried(m, declare(s, v), s.guard) != 1,
    ensures
        run_of(m, declare(s, v)).declared == run_of(m, s).declared.push(0),
{
    broadcast use crate::machine::runs;

    reveal(declare);
    let t = declare(s, v);
    let (a, zero) = load_zero(s);
    let i = InstructionV::CondSelect { bit: s.guard, a: v, b: zero };
    let (b, x) = emit(a, i);
    let j = InstructionV::DeclarePubInput { var: x };
    lemma_put_before(b, j);
    lemma_emit_before(a, i);
    lemma_before_trans(a, b, t);
    lemma_zero(m, s, t);
    lemma_one(m, a, i, s.guard, zero, t);
    wires_keep_their_values(m, b, t, x);
    assert(run_of(m, a).declared == run_of(m, s).declared) by {
        if s.zero_var is None {
            let c = load(s, 0).0;
            assert(run_of(m, a) == run_of(m, c));
        }
    }
}

// ---- witness values

/// The elements of a witness value are the next outputs of the private
/// transcript, one cell for each, in order; where the branch is not active
/// they are zero and nothing is taken.
pub proof fn witness_elements_are_drawn_in_order(m: MachineV, s: EmitV, layout: Seq<FrLayout>, n: nat)
    requires
        n <= layout.len(),
        fits(m, s),
        s.guard < s.next_index,
    ensures
        ({
            let (t, first) = private_block(s, layout, n);
            let r = run_of(m, s);
            let on = active(r.cells, io_guard(s));
            &&& run_of(m, t).cells == r.cells + Seq::new(
                n,
                |i: int|
                    if on {
                        (m.private)((r.drawn + i) as nat)
                    } else {
                        0
                    },
            )
            &&& run_of(m, t).drawn == r.drawn + (if on {
                n
            } else {
                0
            })
            &&& n > 0 ==> first == Some(s.next_index)
        }),
    decreases n,
{
    broadcast use crate::machine::runs;

    let r = run_of(m, s);
    let on = active(r.cells, io_guard(s));
    let f = |i: int|
        if on {
            (m.private)((r.drawn + i) as nat)
        } else {
            0
        };
    if n == 0 {
        assert(r.cells + Seq::new(0, f) =~= r.cells);
    } else {
        witness_elements_are_drawn_in_order(m, s, layout, (n - 1) as nat);
        let a = private_block(s, layout, (n - 1) as nat).0;
        let i = InstructionV::PrivateInput { guard: io_guard(s) };
        let (b, v) = emit(a, i);
        assert(active(run_of(m, a).cells, io_guard(s)) == on);
        assert(Seq::new(n, f) =~= Seq::new((n - 1) as nat, f).push(f(n - 1)));
        assert(run_of(m, b).cells =~= r.cells + Seq::new(n, f));
        let t = private_block(s, layout, n).0;
        assert(run_of(m, t).cells == run_of(m, b).cells && run_of(m, t).drawn == run_of(m, b).drawn);
    }
}

// ---- cells

/// The parameter at position `i` of a circuit is its `i`th argument.
pub proof fn parameters_are_the_arguments(params: Seq<ParamV>, n: nat)
    requires
        n <= params.len() <= u32::MAX,
        forall|i: int, j: int| 0 <= i < j < params.len() ==> (#[trigger] params[i]).name != (#[trigger] params[j]).name,
    ensures
        ({
            let s = with_params(start_state(), params, n);
            &&& s.next_index == n
            &&& s.num_inputs == n
            &&& forall|i: int|
                0 <= i < n ==> s.variables.contains_key((#[trigger] params[i]).name) && s.variables[params[i].name] == i
        }),
    decreases n,
{
    if n > 0 {
        parameters_are_the_arguments(params, (n - 1) as nat);
    }
}

/// `array[i]` has the cells of element `i`, which follow those of the elements
/// in front of it; an index beyond the end is an error.
pub proof fn elements_follow_each_other(cx: ContractV, s: EmitV, t: TyV, first: u32, index: u32)
    requires
        array_parts(t) is Some,
        first + index * witness_layout(type_ctx(cx), (array_parts(t)->0).0).len() <= u32::MAX,
        witness_layout(type_ctx(cx), (array_parts(t)->0).0).len() <= u32::MAX,
    ensures
        ({
            let (elem, len) = array_parts(t)->0;
            let (r, w) = element(cx, s, Some(t), first, index);
            &&& index < len ==> r == s && w is Some && w->0 == first + index * witness_layout(type_ctx(cx), elem).len()
            &&& index >= len ==> w is None && r.errors.len() == s.errors.len() + 1
        }),
{
    let k = witness_layout(type_ctx(cx), (array_parts(t)->0).0).len();
    assert(index * k <= u32::MAX) by (nonlinear_arith)
        requires
            first + index * k <= u32::MAX,
            first >= 0,
    ;
    assert(index.wrapping_mul(k as u32) == index * k);
}

proof fn lemma_variant(vs: Seq<EnumVariantV>, name: Seq<char>, n: nat)
    requires
        n <= vs.len(),
    ensures
        match variant_position(vs, name, n) {
            Some(i) => 0 <= i < n && vs[i].name == name && forall|j: int| 0 <= j < i ==> (#[trigger] vs[j]).name != name,
            None => forall|j: int| 0 <= j < n ==> (#[trigger] vs[j]).name != name,
        },
    decreases n,
{
    if n > 0 {
        lemma_variant(vs, name, (n - 1) as nat);
    }
}

/// A variant's discriminant is its position among the variants of its enum.
pub proof fn discriminants_are_positions(enums: Seq<(Seq<char>, Seq<EnumVariantV>)>, path: PathV)
    requires
        path.segments.len() >= 2,
    ensures
        ({
            let n = path.segments.len();
            match lookup(enums, path.segments[n - 2]) {
                Some(vs) => vs.len() <= 256 ==> match discriminant(enums, path) {
                    Some(d) => d < vs.len() && vs[d as int].name == path.segments[n - 1] && forall|j: int|
                        0 <= j < d ==> (#[trigger] vs[j]).name != path.segments[n - 1],
                    None => forall|j: int| 0 <= j < vs.len() ==> (#[trigger] vs[j]).name != path.segments[n - 1],
                },
                None => discriminant(enums, path) is None,
            }
        }),
{
    let n = path.segments.len();
    match lookup(enums, path.segments[n - 2]) {
        Some(vs) => lemma_variant(vs, path.segments[n - 1], vs.len()),
        None => {}
    }
}

proof fn lemma_field(fs: Seq<(Seq<char>, ExprV)>, name: Seq<char>, n: nat)
    requires
        n <= fs.len(),
    ensures
        field_position(fs, name, n) matches Some(i) ==> 0 <= i < n && fs[i].0 == name,
        (exists|i: int| 0 <= i < n && (#[trigger] fs[i]).0 == name) ==> field_position(fs, name, n) is Some,
    decreases n,
{
    if n > 0 {
        lemma_field(fs, name, (n - 1) as nat);
    }
}

proof fn lemma_declared(decl: Seq<StructFieldV>, n: nat, fs: Seq<(Seq<char>, ExprV)>)
    requires
        n <= decl.len(),
        forall|k: int|
            0 <= k < decl.len() ==> exists|i: int| 0 <= i < fs.len() && (#[trigger] fs[i]).0 == (#[trigger] decl[k]).name,
    ensures
        declared_order(decl, n, fs).len() == n,
        forall|k: int|
            0 <= k < n ==> 0 <= #[trigger] declared_order(decl, n, fs)[k] < fs.len() && fs[declared_order(
                decl,
                n,
                fs,
            )[k]].0 == decl[k].name,
    decreases n,
{
    if n > 0 {
        lemma_declared(decl, (n - 1) as nat, fs);
        lemma_field(fs, decl[n - 1].name, fs.len());
    }
}

/// The fields of a struct literal are evaluated in the order in which the
/// struct declares them.
pub proof fn struct_fields_are_evaluated_as_declared(cx: ContractV, name: Seq<char>, fs: Seq<(Seq<char>, ExprV)>)
    requires
        lookup(cx.user_structs, name) is Some,
        forall|k: int|
            0 <= k < lookup(cx.user_structs, name)->0.len() ==> exists|i: int|
                0 <= i < fs.len() && (#[trigger] fs[i]).0 == (#[trigger] lookup(cx.user_structs, name)->0[k]).name,
    ensures
        ({
            let decl = lookup(cx.user_structs, name)->0;
            let order = evaluation_order(cx, name, fs);
            order.len() == decl.len() && forall|k: int|
                0 <= k < decl.len() ==> 0 <= #[trigger] order[k] < fs.len() && fs[order[k]].0 == decl[k].name
        }),
{
    let decl = lookup(cx.user_structs, name)->0;
    lemma_declared(decl, decl.len(), fs);
}

// ---- the private transcript

/// The pushes of witness values stand in the builder's code in the order of
/// the draws.
pub proof fn draws_are_pushed_in_order(cx: ContractV, evs: Seq<EventV>, n: nat) -> (at: Seq<int>)
    requires
        n <= evs.len(),
    ensures
        stand_in_order(event_pushes(cx, evs, n), Seq::new(n, |i: int| event_push(cx, evs[i])), at),
    decreases n,
{
    let all = Seq::new(n, |i: int| event_push(cx, evs[i]));
    if n == 0 {
        let at: Seq<int> = seq![];
        at
    } else {
        let before = draws_are_pushed_in_order(cx, evs, (n - 1) as nat);
        let text = event_pushes(cx, evs, (n - 1) as nat);
        let last = event_push(cx, evs[n - 1]);
        let gap = if text.len() == 0 || last.len() == 0 {
            seq![]
        } else {
            " "@
        };
        let fewer = Seq::new((n - 1) as nat, |i: int| event_push(cx, evs[i]));
        lemma_one_more(text, fewer, before, gap, last);
        assert(fewer.push(last) =~= all);
        assert(text + gap + last =~= event_pushes(cx, evs, n));
        before.push((text + gap).len() as int)
    }
}

// ---- values of many parts

/// Whether expressions are lowered one behind the other, each to cells that
/// begin where the one in front of it ends: `states` are the states between
/// them.
pub open spec fn side_by_side(cx: ContractV, es: Seq<ExprV>, depth: nat, states: Seq<EmitV>) -> bool {
    &&& states.len() == es.len() + 1
    &&& forall|i: int|
        0 <= i < es.len() ==> states[i + 1] == lower(cx, #[trigger] states[i], es[i], depth).0 && lower(
            cx,
            states[i],
            es[i],
            depth,
        ).1 == Some(states[i].next_index)
}

proof fn lemma_one_beside(cx: ContractV, es: Seq<ExprV>, e: ExprV, depth: nat, states: Seq<EmitV>)
    requires
        side_by_side(cx, es, depth, states),
        lower(cx, states.last(), e, depth).1 == Some(states.last().next_index),
    ensures
        side_by_side(cx, es.push(e), depth, states.push(lower(cx, states.last(), e, depth).0)),
{
    let more = states.push(lower(cx, states.last(), e, depth).0);
    assert forall|i: int| 0 <= i < es.push(e).len() implies more[i + 1] == lower(
        cx,
        #[trigger] more[i],
        es.push(e)[i],
        depth,
    ).0 && lower(cx, more[i], es.push(e)[i], depth).1 == Some(more[i].next_index) by {
        if i < es.len() {
            assert(more[i] == states[i]);
        }
    }
}

proof fn lemma_run_parts(cx: ContractV, s: EmitV, es: Seq<ExprV>, n: nat, what: Seq<char>, depth: nat) -> (states: Seq<
    EmitV,
>)
    requires
        n <= es.len(),
        lower_run(cx, s, es, n, what, depth).1 is Some,
    ensures
        side_by_side(cx, es.take(n as int), depth, states),
        states[0] == s,
        states[n as int] == lower_run(cx, s, es, n, what, depth).0,
        lower_run(cx, s, es, n, what, depth).1 == Some(
            if n == 0 {
                None
            } else {
                Some(s.next_index)
            },
        ),
    decreases n,
{
    if n == 0 {
        seq![s]
    } else {
        let before = lemma_run_parts(cx, s, es, (n - 1) as nat, what, depth);
        lemma_one_beside(cx, es.take(n - 1), es[n - 1], depth, before);
        assert(es.take(n - 1).push(es[n - 1]) =~= es.take(n as int));
        before.push(lower(cx, before.last(), es[n - 1], depth).0)
    }
}

/// A tuple or array literal begins where the next cell is, and its elements
/// lie in it side by side, in their order.
pub proof fn elements_lie_side_by_side(cx: ContractV, s: EmitV, e: ExprV, depth: nat) -> (states: Seq<EmitV>)
    requires
        e is Tuple || e is ArrayLit,
        lower(cx, s, e, depth).1 is Some,
    ensures
        ({
            let es = if e is Tuple {
                e->Tuple_elements
            } else {
                e->ArrayLit_elements
            };
            &&& side_by_side(cx, es, depth, states)
            &&& states[0] == s
            &&& states.last() == lower(cx, s, e, depth).0
            &&& lower(cx, s, e, depth).1 == Some(s.next_index)
        }),
{
    let es = if e is Tuple {
        e->Tuple_elements
    } else {
        e->ArrayLit_elements
    };
    let what = if e is Tuple {
        "tuple literal"@
    } else {
        "array literal"@
    };
    let states = lemma_run_parts(cx, s, es, es.len(), what, depth);
    assert(es.take(es.len() as int) =~= es);
    states
}

/// The initializers at the given positions.
pub open spec fn placed(fs: Seq<(Seq<char>, ExprV)>, order: Seq<int>) -> Seq<ExprV> {
    Seq::new(order.len(), |k: int| fs[order[k]].1)
}

proof fn lemma_field_parts(
    cx: ContractV,
    s: EmitV,
    fs: Seq<(Seq<char>, ExprV)>,
    order: Seq<int>,
    n: nat,
    depth: nat,
) -> (states: Seq<EmitV>)
    requires
        n <= order.len(),
        lower_fields(cx, s, fs, order, n, depth).1 is Some,
    ensures
        side_by_side(cx, placed(fs, order.take(n as int)), depth, states),
        states[0] == s,
        states[n as int] == lower_fields(cx, s, fs, order, n, depth).0,
        lower_fields(cx, s, fs, order, n, depth).1 == Some(
            if n == 0 {
                None
            } else {
                Some(s.next_index)
            },
        ),
    decreases n,
{
    if n == 0 {
        seq![s]
    } else {
        let before = lemma_field_parts(cx, s, fs, order, (n - 1) as nat, depth);
        let fewer = placed(fs, order.take(n - 1));
        let e = fs[order[n - 1]].1;
        lemma_one_beside(cx, fewer, e, depth, before);
        assert(fewer.push(e) =~= placed(fs, order.take(n as int)));
        before.push(lower(cx, before.last(), e, depth).0)
    }
}

/// A struct literal begins where the next cell is, and its fields lie in it
/// side by side, in the order in which the struct declares them.
pub proof fn fields_lie_side_by_side(cx: ContractV, s: EmitV, e: ExprV, depth: nat) -> (states: Seq<EmitV>)
    requires
        e is StructInit,
        lookup(cx.user_structs, e->StructInit_name) is Some,
        forall|k: int|
            0 <= k < lookup(cx.user_structs, e->StructInit_name)->0.len() ==> exists|i: int|
                0 <= i < e->StructInit_fields.len() && (#[trigger] e->StructInit_fields[i]).0
                    == (#[trigger] lookup(cx.user_structs, e->StructInit_name)->0[k]).name,
        lower(cx, s, e, depth).1 is Some,
    ensures
        ({
            let decl = lookup(cx.user_structs, e->StructInit_name)->0;
            let fs = e->StructInit_fields;
            let order = evaluation_order(cx, e->StructInit_name, fs);
            &&& side_by_side(cx, placed(fs, order), depth, states)
            &&& order.len() == decl.len()
            &&& forall|k: int| 0 <= k < decl.len() ==> 0 <= #[trigger] order[k] < fs.len() && fs[order[k]].0 == decl[k].name
            &&& states[0] == s
            &&& states.last() == lower(cx, s, e, depth).0
            &&& lower(cx, s, e, depth).1 == Some(s.next_index)
        }),
{
    let fs = e->StructInit_fields;
    let order = evaluation_order(cx, e->StructInit_name, fs);
    struct_fields_are_evaluated_as_declared(cx, e->StructInit_name, fs);
    let states = lemma_field_parts(cx, s, fs, order, order.len(), depth);
    assert(order.take(order.len() as int) =~= order);
    states
}

} // verus!
