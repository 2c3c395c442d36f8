//! The host code of conditions, bindings and writes computes what the source
//! says.
use crate::contract::ContractV;
use crate::emission::{field_slot, slot_type};
use crate::expr::{bin_op_text, un_op_text, BinOp, ExprV, LitV, UnOp};
use crate::host_laws::{all_valued, argument_code_computes_its_value, code, codes, compute_all, computes, host_of};
use crate::host_laws::{hosts_of, last_source, lemma_all_values, lemma_list_text, lemma_literals, source, sources};
use crate::host_laws::{spelled, valued, HostV, WorldV};
use crate::operation_laws::ledger_script;
use crate::snippets::{bare_call, clone_of, if_value, index_clone, infix, paren, paren_cast, paren_method};
use crate::snippets::{prefix_paren, value_cast, witness_call_code, witness_clone, witness_value};
use crate::text::dec;
use crate::transcript::{aligned_arg, cast_value, cond, host_cast, is_arithmetic, is_relation, is_variant, last_value};
use crate::transcript::{let_list, let_value, range_error, shaped_value, write_type};
use crate::typing::transparent;
use crate::vm_ops::{OpV, StepV};
use vstd::prelude::*;

verus! {

// ---- conditions

/// How tightly an operator binds in host code.
pub open spec fn tightness(op: BinOp) -> nat {
    match op {
        BinOp::Or => 1,
        BinOp::And => 2,
        BinOp::Eq | BinOp::Ne | BinOp::Lt | BinOp::Le | BinOp::Gt | BinOp::Ge => 3,
        BinOp::BitOr => 4,
        BinOp::BitXor => 5,
        BinOp::BitAnd => 6,
        BinOp::Add | BinOp::Sub => 7,
        _ => 8,
    }
}

/// The same of an expression's code; what is no operation binds tightest.
pub open spec fn binding_of(e: ExprV) -> nat
    decreases e,
{
    match e {
        ExprV::BinaryOp { op, .. } => tightness(op),
        ExprV::Disclose { value, .. } => binding_of(*value),
        ExprV::Reference { expr, .. } => binding_of(*expr),
        ExprV::MethodCall { receiver, method, .. } => if transparent(method) {
            binding_of(*receiver)
        } else {
            9
        },
        _ => 9,
    }
}

/// Whether the code of `l op r` without parentheses reads back as that.
pub open spec fn reads_back(op: BinOp, l: nat, r: nat) -> bool {
    r > tightness(op) && (l > tightness(op) || l == tightness(op) && tightness(op) != 3)
}

/// Whether an expression is a condition without ledger reads whose code reads
/// back as the expression.
pub open spec fn testable(cx: ContractV, e: ExprV) -> bool
    decreases e,
{
    match e {
        ExprV::WitnessAccess { .. } => true,
        ExprV::Var { .. } => true,
        ExprV::Path { .. } => true,
        ExprV::Literal { value, .. } => value is Bool,
        ExprV::Disclose { value, .. } => testable(cx, *value),
        ExprV::Reference { expr, .. } => testable(cx, *expr),
        ExprV::MethodCall { receiver, method, args, .. } => testable(cx, *receiver) && (transparent(method) || args.len()
            == 0 && binding_of(*receiver) == 9),
        ExprV::BinaryOp { op, lhs, rhs, .. } => {
            &&& is_relation(op)
            &&& !((op == BinOp::Eq || op == BinOp::Ne) && (is_variant(cx, *lhs) || is_variant(cx, *rhs)))
            &&& testable(cx, *lhs)
            &&& testable(cx, *rhs)
            &&& reads_back(op, binding_of(*lhs), binding_of(*rhs))
        }
        ExprV::UnaryOp { op, expr, .. } => op != UnOp::Deref && testable(cx, *expr) && binding_of(*expr) == 9,
        _ => false,
    }
}

/// The host expression of a condition.
pub open spec fn host_test(e: ExprV) -> HostV
    decreases e,
{
    match e {
        ExprV::WitnessAccess { field, .. } => HostV::Value(Box::new(HostV::Field(field))),
        ExprV::Var { name, .. } => HostV::Name(name),
        ExprV::Path { path, .. } => HostV::Path(path.text),
        ExprV::Literal { value, .. } => HostV::Bool(value == LitV::Bool(true)),
        ExprV::Disclose { value, .. } => host_test(*value),
        ExprV::Reference { expr, .. } => host_test(*expr),
        ExprV::MethodCall { receiver, method, .. } => if transparent(method) {
            host_test(*receiver)
        } else {
            HostV::Method(Box::new(host_test(*receiver)), method, seq![])
        },
        ExprV::BinaryOp { op, lhs, rhs, .. } => HostV::Infix(Box::new(host_test(*lhs)), op, Box::new(host_test(*rhs))),
        ExprV::UnaryOp { op, expr, .. } => HostV::Group(Box::new(HostV::Prefix(op, Box::new(host_test(*expr))))),
        _ => HostV::Bool(true),
    }
}

/// The code of a condition computes the condition's value.
pub proof fn condition_code_computes_its_value(w: WorldV, cx: ContractV, e: ExprV)
    requires
        testable(cx, e),
    ensures
        code(host_test(e)) == cond(cx, e),
        computes(w, host_test(e)) == source(w, e),
    decreases e,
{
    reveal_with_fuel(computes, 3);
    reveal_with_fuel(code, 3);
    reveal(witness_value);
    match e {
        ExprV::Disclose { value, .. } => condition_code_computes_its_value(w, cx, *value),
        ExprV::Reference { expr, .. } => condition_code_computes_its_value(w, cx, *expr),
        ExprV::MethodCall { receiver, method, args, .. } => {
            condition_code_computes_its_value(w, cx, *receiver);
            if !transparent(method) {
                reveal(bare_call);
                lemma_literals();
                let none: Seq<HostV> = seq![];
                assert(codes(none, 0) =~= seq![]);
                assert(compute_all(w, none, 0) =~= sources(w, args, 0));
                let r = cond(cx, *receiver);
                assert(r + " . "@ + method + " ("@ + seq![] + ")"@ =~= bare_call(r, method));
            }
        }
        ExprV::BinaryOp { op, lhs, rhs, .. } => {
            condition_code_computes_its_value(w, cx, *lhs);
            condition_code_computes_its_value(w, cx, *rhs);
            reveal(infix);
            assert(spelled(op) == bin_op_text(op));
        }
        ExprV::UnaryOp { op, expr, .. } => {
            condition_code_computes_its_value(w, cx, *expr);
            reveal(prefix_paren);
            let o = un_op_text(op);
            let x = cond(cx, *expr);
            assert("("@ + (o + " "@ + x) + ")"@ =~= prefix_paren(o, x));
        }
        _ => {}
    }
}

// ---- bindings

/// Whether an expression has a value that `let` binds, whose code reads back as
/// the expression.
pub open spec fn bindable(cx: ContractV, e: ExprV) -> bool
    decreases e, 0nat,
{
    match e {
        ExprV::WitnessAccess { .. } => true,
        ExprV::WitnessCall { args, .. } => all_valued(args, args.len(), false),
        ExprV::Var { .. } => true,
        ExprV::Literal { value, .. } => !(value is Str),
        ExprV::Reference { expr, .. } => bindable(cx, *expr),
        ExprV::MethodCall { receiver, method, args, .. } => transparent(method) && args.len() == 0 && bindable(
            cx,
            *receiver,
        ),
        ExprV::Index { array, .. } => bindable(cx, *array),
        ExprV::BinaryOp { op, lhs, rhs, .. } => {
            &&& is_arithmetic(op)
            &&& bindable(cx, *lhs)
            &&& bindable(cx, *rhs)
            &&& reads_back(op, bound_tightness(*lhs), bound_tightness(*rhs))
        }
        ExprV::If { cond: c, then_branch, else_branch, .. } => testable(cx, *c) && bindable_last(cx, then_branch) && (
        match else_branch {
            Some(eb) => bindable_last(cx, eb),
            None => false,
        }),
        _ => false,
    }
}

pub open spec fn bindable_last(cx: ContractV, es: Seq<ExprV>) -> bool
    decreases es, 0nat,
{
    es.len() > 0 && bindable(cx, es[es.len() - 1])
}

/// How tightly the code of a bound value binds.
pub open spec fn bound_tightness(e: ExprV) -> nat {
    match e {
        ExprV::BinaryOp { op, .. } => tightness(op),
        ExprV::If { .. } => 0,
        _ => 9,
    }
}

/// The host expression that `let` binds.
pub open spec fn host_let(e: ExprV) -> HostV
    decreases e, 0nat,
{
    match e {
        ExprV::WitnessAccess { field, .. } => HostV::Copy(Box::new(HostV::Field(field))),
        ExprV::WitnessCall { name, args, .. } => HostV::Draw(name, hosts_of(args, args.len(), false)),
        ExprV::Var { name, .. } => HostV::Copy(Box::new(HostV::Name(name))),
        ExprV::Literal { value, .. } => match value {
            LitV::Int(n) => HostV::Int(n),
            LitV::Bool(b) => HostV::Bool(b),
            LitV::Str(s) => HostV::Text(s),
        },
        ExprV::Reference { expr, .. } => HostV::Group(Box::new(host_let(*expr))),
        ExprV::MethodCall { receiver, method, .. } => {
            let r = Box::new(HostV::Group(Box::new(host_let(*receiver))));
            if method == "value"@ {
                HostV::Value(r)
            } else {
                HostV::Into(r)
            }
        }
        ExprV::Index { array, index, .. } => HostV::Copy(Box::new(HostV::Nth(Box::new(host_let(*array)), index))),
        ExprV::BinaryOp { op, lhs, rhs, .. } => HostV::Infix(Box::new(host_let(*lhs)), op, Box::new(host_let(*rhs))),
        ExprV::If { cond, then_branch, else_branch, .. } => HostV::Either(
            Box::new(host_test(*cond)),
            Box::new(host_last(then_branch)),
            Box::new(
                match else_branch {
                    Some(eb) => host_last(eb),
                    None => HostV::Tuple(seq![]),
                },
            ),
        ),
        _ => HostV::Tuple(seq![]),
    }
}

pub open spec fn host_last(es: Seq<ExprV>) -> HostV
    decreases es, 0nat,
{
    if es.len() > 0 {
        host_let(es[es.len() - 1])
    } else {
        HostV::Tuple(seq![])
    }
}

proof fn lemma_wrapper_text(r: Seq<char>)
    ensures
        paren_method(r, "value"@, seq![]) == "("@ + r + ")"@ + " . value ()"@,
        paren_method(r, "into"@, seq![]) == "("@ + r + ")"@ + " . into ()"@,
{
    reveal(paren_method);
    reveal_strlit("value");
    reveal_strlit("into");
    reveal_strlit("(");
    reveal_strlit(")");
    reveal_strlit(") . ");
    reveal_strlit(" (");
    reveal_strlit(" . value ()");
    reveal_strlit(" . into ()");
    let value = ") . "@ + "value"@ + " ("@ + ")"@;
    let into = ") . "@ + "into"@ + " ("@ + ")"@;
    assert(value =~= ")"@ + " . value ()"@);
    assert(into =~= ")"@ + " . into ()"@);
    assert(paren_method(r, "value"@, seq![]) =~= "("@ + r + value);
    assert(paren_method(r, "into"@, seq![]) =~= "("@ + r + into);
}

proof fn lemma_method_binding(w: WorldV, cx: ContractV, e: ExprV)
    requires
        bindable(cx, e),
        e is MethodCall,
        let_value(cx, *e->MethodCall_receiver) == Some(code(host_let(*e->MethodCall_receiver))),
        computes(w, host_let(*e->MethodCall_receiver)) == source(w, *e->MethodCall_receiver),
    ensures
        let_value(cx, e) == Some(code(host_let(e))),
        computes(w, host_let(e)) == source(w, e),
{
    let h = host_let(*e->MethodCall_receiver);
    let g = HostV::Group(Box::new(h));
    let args = e->MethodCall_args;
    lemma_wrapper_text(code(h));
    assert(let_list(cx, args, args.len()) == Some(Seq::<char>::empty()));
    assert(code(g) == "("@ + code(h) + ")"@);
    assert(computes(w, g) == computes(w, h));
}

/// The code that `let` binds computes the value of the source.
pub proof fn binding_code_computes_its_value(w: WorldV, cx: ContractV, e: ExprV)
    requires
        bindable(cx, e),
    ensures
        let_value(cx, e) == Some(code(host_let(e))),
        computes(w, host_let(e)) == source(w, e),
    decreases e, 0nat,
{
    match e {
        ExprV::WitnessAccess { .. } => {
            reveal_with_fuel(computes, 2);
            reveal_with_fuel(code, 2);
            reveal(witness_clone);
        }
        ExprV::WitnessCall { name, args, .. } => {
            reveal(witness_call_code);
            lemma_list_text(args, args.len(), false);
            lemma_all_values(w, args, args.len(), false);
        }
        ExprV::Var { .. } => {
            reveal_with_fuel(computes, 2);
            reveal_with_fuel(code, 2);
            reveal(clone_of);
        }
        ExprV::Literal { .. } => {}
        ExprV::Reference { expr, .. } => {
            binding_code_computes_its_value(w, cx, *expr);
            reveal(paren);
        }
        ExprV::MethodCall { receiver, .. } => {
            binding_code_computes_its_value(w, cx, *receiver);
            lemma_method_binding(w, cx, e);
        }
        ExprV::Index { array, index, .. } => {
            binding_code_computes_its_value(w, cx, *array);
            reveal_with_fuel(computes, 2);
            reveal_with_fuel(code, 2);
            reveal(index_clone);
            lemma_literals();
            let a = code(host_let(*array));
            let k = dec(index as nat);
            assert("("@ + a + ") ["@ + k + "]"@ + " . clone ()"@ =~= index_clone(a, k));
        }
        ExprV::BinaryOp { op, lhs, rhs, .. } => {
            binding_code_computes_its_value(w, cx, *lhs);
            binding_code_computes_its_value(w, cx, *rhs);
            reveal(infix);
            assert(spelled(op) == bin_op_text(op));
        }
        ExprV::If { cond: c, then_branch, else_branch, .. } => {
            let eb = else_branch->0;
            assert(bindable_last(cx, then_branch) && bindable_last(cx, eb));
            condition_code_computes_its_value(w, cx, *c);
            lemma_last_binding(w, cx, then_branch);
            lemma_last_binding(w, cx, eb);
            reveal(if_value);
        }
        _ => {}
    }
}

proof fn lemma_last_binding(w: WorldV, cx: ContractV, es: Seq<ExprV>)
    requires
        bindable_last(cx, es),
    ensures
        last_value(cx, es) == Some(code(host_last(es))),
        computes(w, host_last(es)) == last_source(w, es),
    decreases es, 0nat,
{
    assert(bindable(cx, es[es.len() - 1]));
    assert(host_last(es) == host_let(es[es.len() - 1]));
    binding_code_computes_its_value(w, cx, es[es.len() - 1]);
}

// ---- writes

/// A write to a cell of integers pushes the field's slot and the argument: the
/// code of a host expression that computes the argument's value, cast to the
/// cell's width.
pub proof fn cell_writes_push_their_argument(w: WorldV, cx: ContractV, field: Seq<char>, args: Seq<ExprV>)
    requires
        field_slot(cx, field) is Some,
        args.len() > 0,
        ledger_script(cx, field, "set"@, args) is Some,
        write_type(slot_type(cx, field_slot(cx, field)->0)) is Some,
        slot_type(cx, field_slot(cx, field)->0) matches Some(t) ==> crate::containers::map_kv(t) is None,
        ({
            let t = write_type(slot_type(cx, field_slot(cx, field)->0))->0;
            range_error(args[0], t) is None && shaped_value(cx, crate::transcript::raw(args[0]), t) is None
        }),
        valued(args[0], true),
    ensures
        ({
            let t = write_type(slot_type(cx, field_slot(cx, field)->0))->0;
            let h = code(host_of(args[0], true));
            let steps = ledger_script(cx, field, "set"@, args)->0;
            &&& steps.len() == 3
            &&& steps[0] == StepV::Op(
                OpV::Push { storage: false, value: dec(field_slot(cx, field)->0 as nat) + "u8"@ },
            )
            &&& steps[1] matches StepV::Op(OpV::Push { storage, value }) && storage && (match host_cast(
                crate::text::no_spaces(t.text),
            ) {
                Some(c) => value == "("@ + h + ") "@ + c || (args[0] is Var && value == "("@ + h + ") . value () "@ + c),
                None => value == h,
            })
            &&& steps[2] == StepV::Op(OpV::Ins { cached: false, n: 1 })
        }),
        computes(w, host_of(args[0], true)) == source(w, args[0]),
{
    argument_code_computes_its_value(w, args[0]);
    reveal(aligned_arg);
    reveal(cast_value);
    reveal(paren_cast);
    reveal(value_cast);
    reveal_strlit("set");
    reveal_strlit("get");
    reveal_strlit("value");
    reveal_strlit("increment");
    reveal_strlit("increment_by");
    reveal_strlit("__direct_access");
    reveal_strlit("contains");
    reveal_strlit("member");
    reveal_strlit("insert");
    assert("set"@[0] != "get"@[0]);
    assert("set"@.len() == 3 && "value"@.len() == 5 && "increment"@.len() == 9 && "increment_by"@.len() == 12
        && "__direct_access"@.len() == 15 && "contains"@.len() == 8 && "member"@.len() == 6 && "insert"@.len() == 6);
}

} // verus!
