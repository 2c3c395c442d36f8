//! Host code and circuit compute the same values.
use crate::contract::ContractV;
use crate::emission::EmitV;
use crate::expr::{ExprV, LitV};
use crate::host_laws::{argument_code_computes_its_value, code, computes, host_of, source, valued, DatumV, WorldV};
use crate::host_value_laws::{bindable, binding_code_computes_its_value, condition_code_computes_its_value, host_let};
use crate::host_value_laws::{host_test, testable};
use crate::lowering::{lower, witness_key};
use crate::machine::{carried, fits, MachineV};
use crate::transcript::{cond, let_value, val};
use crate::value_laws::{agrees, drawn_before, field_env, filled, logical, meaning, pure, wires_carry_source_values};
use vstd::prelude::*;

verus! {

/// Whether an expression is one operation after the other on literals, names
/// and witness fields.
pub open spec fn scalar(e: ExprV) -> bool
    decreases e,
{
    match e {
        ExprV::Literal { value, .. } => !(value is Str),
        ExprV::Var { .. } => true,
        ExprV::WitnessAccess { .. } => true,
        ExprV::BinaryOp { lhs, rhs, .. } => scalar(*lhs) && scalar(*rhs),
        ExprV::UnaryOp { expr, .. } => scalar(*expr),
        ExprV::Disclose { value, .. } => scalar(*value),
        ExprV::Reference { expr, .. } => scalar(*expr),
        ExprV::MethodCall { receiver, .. } => scalar(*receiver),
        _ => false,
    }
}

/// The names and witness fields of host code have the values that they have in
/// the circuit, and its arithmetic is reduced as in the field.
pub open spec fn one_world(m: MachineV, names: spec_fn(Seq<char>) -> int, w: WorldV) -> bool {
    &&& forall|n: Seq<char>| #[trigger] (w.names)(n) == DatumV::Int(names(n))
    &&& forall|f: Seq<char>| #[trigger] (w.fields)(f) == DatumV::Int(names(witness_key(f)))
    &&& forall|n: int| #[trigger] (w.reduced)(n) == n % m.modulus
}

proof fn lemma_same_value(m: MachineV, names: spec_fn(Seq<char>) -> int, w: WorldV, e: ExprV)
    requires
        m.modulus > u128::MAX,
        one_world(m, names, w),
        pure(e),
        scalar(e),
    ensures
        source(w, e) == DatumV::Int(meaning(field_env(m, names), e)),
    decreases e,
{
    match e {
        ExprV::Literal { value, .. } => match value {
            LitV::Int(n) => vstd::arithmetic::div_mod::lemma_small_mod(n as nat, m.modulus as nat),
            _ => {}
        },
        ExprV::BinaryOp { lhs, rhs, .. } => {
            lemma_same_value(m, names, w, *lhs);
            lemma_same_value(m, names, w, *rhs);
        }
        ExprV::UnaryOp { expr, .. } => lemma_same_value(m, names, w, *expr),
        ExprV::Disclose { value, .. } => lemma_same_value(m, names, w, *value),
        ExprV::Reference { expr, .. } => lemma_same_value(m, names, w, *expr),
        ExprV::MethodCall { receiver, .. } => lemma_same_value(m, names, w, *receiver),
        _ => {}
    }
}

/// The code of an argument, of a condition and of a bound value computes what
/// the expression's wire carries.
pub proof fn host_code_computes_what_wires_carry(
    m: MachineV,
    names: spec_fn(Seq<char>) -> int,
    w: WorldV,
    cx: ContractV,
    s: EmitV,
    e: ExprV,
    depth: nat,
)
    requires
        m.modulus > u128::MAX,
        one_world(m, names, w),
        pure(e),
        scalar(e),
        drawn_before(cx, s, e, depth),
        logical(field_env(m, names), e),
        filled(s),
        fits(m, lower(cx, s, e, depth).0),
        agrees(m, lower(cx, s, e, depth).0, names),
        lower(cx, s, e, depth).1 is Some,
    ensures
        ({
            let (t, wire) = lower(cx, s, e, depth);
            let x = DatumV::Int(carried(m, t, wire->0));
            &&& valued(e, true) ==> val(e) == code(host_of(e, true)) && computes(w, host_of(e, true)) == x
            &&& testable(cx, e) ==> cond(cx, e) == code(host_test(e)) && computes(w, host_test(e)) == x
            &&& bindable(cx, e) ==> let_value(cx, e) == Some(code(host_let(e))) && computes(w, host_let(e)) == x
        }),
{
    wires_carry_source_values(m, names, cx, s, e, depth);
    lemma_same_value(m, names, w, e);
    argument_code_computes_its_value(w, e);
    if testable(cx, e) {
        condition_code_computes_its_value(w, cx, e);
    }
    if bindable(cx, e) {
        binding_code_computes_its_value(w, cx, e);
    }
}

} // verus!
