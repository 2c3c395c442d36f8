//! The host's program and the circuit's, over a list of statements: the
//! scripts of the transcript builder and the groups of public inputs stand in
//! one order, the groups of a branch under the guard of the branch.
use crate::circuit_laws::{lemma_lower_seq, place_is_restored};
use crate::code::{braced, spaced, string_literal};
use crate::contract::{CircuitV, ContractV};
use crate::emission::{common_width, EmitV};
use crate::emission_laws::continues;
use crate::expr::{bin_op_text, un_op_text, AssertV, BinOp, ExprV, UnOp};
use crate::ledger_free::{all_ledger_free, ledger_free, ledger_free_helpers};
use crate::lowering::{circuit_prologue, close_branch, else_guard, enter_branch, leave_if, lower, lower_branch};
use crate::lowering::{lower_seq, lowered_circuit, then_guard, with_output};
use crate::operation_groups::{groups_between, idle, lemma_idle, lemma_idle_binary, lemma_idle_guards};
use crate::operation_groups::{lemma_idle_leave, lemma_idle_seq, progress, ready, GroupV};
use crate::operation_laws::{adds_all, cond_script, condition_code_is_its_script, conditions_push_the_same_operations};
use crate::operation_laws::{in_reach, ledger_code_is_its_script, ledger_script, lemma_access, marks, script_codes};
use crate::private_events::{fresh_tracker, TrackerV};
use crate::snippets::{assert_code, assert_eq_code, bare_call, fn_code, if_code, if_else_code, infix, let_code};
use crate::snippets::prefix_paren;
use crate::transcript::{assertion, binding, builder, builder_params, builder_result, cond, either, is_relation};
use crate::transcript::{is_variant, ledger_value, let_value, ops, ops_list, pushes, stmt, stmts};
use crate::typing::transparent;
use crate::vm_ops::{script, StepV};
use crate::zkir::imm;
use vstd::prelude::*;

verus! {

// ---- the builder's code, its scripts apart

/// A piece of a builder's code: the script of a ledger access, or the host
/// code around scripts.
pub enum PieceV {
    Host(Seq<char>),
    Script(Seq<StepV>),
}

pub open spec fn piece_code(p: PieceV) -> Seq<char> {
    match p {
        PieceV::Host(text) => text,
        PieceV::Script(steps) => script(steps),
    }
}

/// The code of the pieces, one behind the other.
pub open spec fn code_of(ps: Seq<PieceV>) -> Seq<char>
    decreases ps.len(),
{
    if ps.len() == 0 {
        seq![]
    } else {
        code_of(ps.drop_last()) + piece_code(ps.last())
    }
}

/// The opcodes that the scripts among the pieces push, in order.
pub open spec fn codes_of(ps: Seq<PieceV>) -> Seq<int>
    decreases ps.len(),
{
    if ps.len() == 0 {
        seq![]
    } else {
        codes_of(ps.drop_last()) + (match ps.last() {
            PieceV::Host(_) => seq![],
            PieceV::Script(steps) => script_codes(steps),
        })
    }
}

pub open spec fn host(text: Seq<char>) -> Seq<PieceV> {
    seq![PieceV::Host(text)]
}

/// A script where there is one, else host code.
pub open spec fn scripted(steps: Option<Seq<StepV>>, text: Seq<char>) -> Seq<PieceV> {
    match steps {
        Some(steps) => seq![PieceV::Script(steps)],
        None => host(text),
    }
}

/// Two lists of pieces after each other, with a space where both hold code.
pub open spec fn joined(a: Seq<PieceV>, b: Seq<PieceV>) -> Seq<PieceV> {
    if code_of(a).len() == 0 || code_of(b).len() == 0 {
        a + b
    } else {
        a + host(" "@) + b
    }
}

/// Pieces in braces.
pub open spec fn enclosed(a: Seq<PieceV>) -> Seq<PieceV> {
    if code_of(a).len() == 0 {
        a + host("{ }"@)
    } else {
        host("{ "@) + a + host(" }"@)
    }
}

/// The pieces of an expression's operations.
pub open spec fn value_pieces(cx: ContractV, e: ExprV) -> Seq<PieceV>
    decreases e,
{
    if ledger_free(e) {
        host(ops(cx, e))
    } else {
        match e {
            ExprV::LedgerAccess { field, method, args, .. } => scripted(
                ledger_script(cx, field, method, args),
                ops(cx, e),
            ),
            ExprV::Reference { expr, .. } => value_pieces(cx, *expr),
            ExprV::Disclose { value, .. } => value_pieces(cx, *value),
            ExprV::UnaryOp { expr, .. } => value_pieces(cx, *expr),
            ExprV::EnumPayload { scrutinee, .. } => value_pieces(cx, *scrutinee),
            ExprV::Index { array, .. } => value_pieces(cx, *array),
            ExprV::Return { value, .. } => match value {
                Some(v) => value_pieces(cx, *v),
                None => seq![],
            },
            ExprV::MethodCall { receiver, args, .. } => joined(
                value_pieces(cx, *receiver),
                host(ops_list(cx, args, args.len())),
            ),
            ExprV::BinaryOp { lhs, rhs, .. } => joined(value_pieces(cx, *lhs), value_pieces(cx, *rhs)),
            _ => host(ops(cx, e)),
        }
    }
}

/// Whether a condition evaluates both operands as conditions.
pub open spec fn relates(cx: ContractV, op: BinOp, lhs: ExprV, rhs: ExprV) -> bool {
    is_relation(op) && !((op == BinOp::Eq || op == BinOp::Ne) && (is_variant(cx, lhs) || is_variant(cx, rhs)))
}

/// The pieces of a condition.
pub open spec fn test_pieces(cx: ContractV, e: ExprV) -> Seq<PieceV>
    decreases e,
{
    if ledger_free(e) {
        host(cond(cx, e))
    } else {
        match e {
            ExprV::LedgerAccess { field, method, args, .. } => scripted(
                cond_script(cx, field, method, args),
                cond(cx, e),
            ),
            ExprV::Reference { expr, .. } => test_pieces(cx, *expr),
            ExprV::Disclose { value, .. } => test_pieces(cx, *value),
            ExprV::MethodCall { receiver, method, .. } => if transparent(method) {
                test_pieces(cx, *receiver)
            } else {
                test_pieces(cx, *receiver) + host(" . "@ + method + " ()"@)
            },
            ExprV::UnaryOp { op, expr, .. } => if op == UnOp::Deref {
                host(cond(cx, e))
            } else {
                host("("@ + un_op_text(op) + " "@) + test_pieces(cx, *expr) + host(")"@)
            },
            ExprV::BinaryOp { op, lhs, rhs, .. } => if relates(cx, op, *lhs, *rhs) {
                test_pieces(cx, *lhs) + host(" "@ + bin_op_text(op) + " "@) + test_pieces(cx, *rhs)
            } else {
                host(cond(cx, e))
            },
            _ => host(cond(cx, e)),
        }
    }
}

/// The pieces of an assertion.
pub open spec fn assertion_pieces(cx: ContractV, t: TrackerV, k: AssertV) -> Seq<PieceV> {
    match k {
        AssertV::Assert(c) => joined(
            host(pushes(cx, t, *c).1),
            host("assert ! ("@) + test_pieces(cx, *c) + host(" , \"nocturne: circuit assertion failed\") ;"@),
        ),
        AssertV::AssertEq(a, b) => {
            let p = pushes(cx, t, *a);
            let q = pushes(cx, p.0, *b);
            joined(
                host(spaced(p.1, q.1)),
                host("assert_eq ! ("@) + test_pieces(cx, *a) + host(" , "@) + test_pieces(cx, *b) + host(
                    " , \"nocturne: circuit assert_eq! failed\") ;"@,
                ),
            )
        }
    }
}

/// The pieces of a binding, behind those of its right-hand side.
pub open spec fn binding_pieces(cx: ContractV, name: Seq<char>, value: ExprV, code: Seq<PieceV>) -> Seq<PieceV> {
    match either(let_value(cx, value), ledger_value(cx, value)) {
        Some(x) => joined(code, host(let_code(name, x))),
        None => host("# [allow (non_snake_case , unused_variables)] let "@ + name + " = "@) + enclosed(code) + host(
            " ;"@,
        ),
    }
}

/// The pieces of a statement's code.
pub open spec fn stmt_pieces(cx: ContractV, t: TrackerV, e: ExprV) -> Seq<PieceV>
    decreases e, 0nat,
{
    if ledger_free(e) {
        host(stmt(cx, t, e).1)
    } else {
        match e {
            ExprV::If { cond: c, then_branch, else_branch, .. } => {
                let p = pushes(cx, t, *c);
                let inside = TrackerV { in_branch: true, ..p.0 };
                let first = host("if "@) + test_pieces(cx, *c) + host(" "@) + enclosed(
                    list_pieces(cx, inside, then_branch, then_branch.len()),
                );
                joined(
                    host(p.1),
                    match else_branch {
                        Some(eb) => first + host(" else "@) + enclosed(
                            list_pieces(cx, stmts(cx, inside, then_branch, then_branch.len()).0, eb, eb.len()),
                        ),
                        None => first,
                    },
                )
            }
            ExprV::Let { name, value, .. } => binding_pieces(
                cx,
                name,
                *value,
                if *value is If || *value is Block {
                    stmt_pieces(cx, t, *value)
                } else {
                    joined(host(pushes(cx, t, *value).1), value_pieces(cx, *value))
                },
            ),
            ExprV::Block { stmts: body, .. } => list_pieces(cx, t, body, body.len()),
            ExprV::Assert { kind, .. } => assertion_pieces(cx, t, kind),
            _ => joined(host(pushes(cx, t, e).1), value_pieces(cx, e)),
        }
    }
}

/// The pieces of the first `n` statements.
pub open spec fn list_pieces(cx: ContractV, t: TrackerV, es: Seq<ExprV>, n: nat) -> Seq<PieceV>
    decreases es, n,
{
    if n == 0 || n > es.len() {
        seq![]
    } else {
        joined(
            list_pieces(cx, t, es, (n - 1) as nat),
            stmt_pieces(cx, stmts(cx, t, es, (n - 1) as nat).0, es[n - 1]),
        )
    }
}

pub(crate) broadcast proof fn lemma_behind(a: Seq<PieceV>, b: Seq<PieceV>)
    ensures
        #![trigger code_of(a + b)]
        #![trigger codes_of(a + b)]
        code_of(a + b) == code_of(a) + code_of(b),
        codes_of(a + b) == codes_of(a) + codes_of(b),
    decreases b.len(),
{
    if b.len() == 0 {
        assert(a + b =~= a);
        assert(code_of(a) + code_of(b) =~= code_of(a));
        assert(codes_of(a) + codes_of(b) =~= codes_of(a));
    } else {
        lemma_behind(a, b.drop_last());
        assert((a + b).drop_last() =~= a + b.drop_last());
        assert((a + b).last() == b.last());
        let p = piece_code(b.last());
        assert(code_of(a) + (code_of(b.drop_last()) + p) =~= code_of(a) + code_of(b.drop_last()) + p);
        let c = match b.last() {
            PieceV::Host(_) => seq![],
            PieceV::Script(steps) => script_codes(steps),
        };
        assert(codes_of(a) + (codes_of(b.drop_last()) + c) =~= codes_of(a) + codes_of(b.drop_last()) + c);
    }
}

pub(crate) broadcast proof fn lemma_host(text: Seq<char>)
    ensures
        #![trigger host(text)]
        code_of(host(text)) == text,
        codes_of(host(text)) == Seq::<int>::empty(),
{
    let ps = host(text);
    reveal_with_fuel(code_of, 2);
    reveal_with_fuel(codes_of, 2);
    assert(ps.drop_last() =~= seq![]);
    assert(code_of(ps) =~= text);
    assert(codes_of(ps) =~= seq![]);
}

pub(crate) broadcast proof fn lemma_script(steps: Seq<StepV>, text: Seq<char>)
    ensures
        #![trigger scripted(Some(steps), text)]
        code_of(scripted(Some(steps), text)) == script(steps),
        codes_of(scripted(Some(steps), text)) == script_codes(steps),
{
    let ps = seq![PieceV::Script(steps)];
    reveal_with_fuel(code_of, 2);
    reveal_with_fuel(codes_of, 2);
    assert(ps.drop_last() =~= seq![]);
    assert(code_of(ps) =~= script(steps));
    assert(codes_of(ps) =~= script_codes(steps));
}

pub(crate) broadcast proof fn lemma_joined(a: Seq<PieceV>, b: Seq<PieceV>)
    ensures
        #![trigger joined(a, b)]
        code_of(joined(a, b)) == spaced(code_of(a), code_of(b)),
        codes_of(joined(a, b)) == codes_of(a) + codes_of(b),
{
    broadcast use {lemma_behind, lemma_host};

    if code_of(a).len() == 0 {
        assert(code_of(a) + code_of(b) =~= code_of(b));
    } else if code_of(b).len() == 0 {
        assert(code_of(a) + code_of(b) =~= code_of(a));
    } else {
        assert(codes_of(a) + seq![] + codes_of(b) =~= codes_of(a) + codes_of(b));
    }
}

pub(crate) broadcast proof fn lemma_enclosed(a: Seq<PieceV>)
    ensures
        #![trigger enclosed(a)]
        code_of(enclosed(a)) == braced(code_of(a)),
        codes_of(enclosed(a)) == codes_of(a),
{
    broadcast use {lemma_behind, lemma_host};

    assert(seq![] + codes_of(a) + seq![] =~= codes_of(a));
    assert(codes_of(a) + seq![] =~= codes_of(a));
    if code_of(a).len() == 0 {
        assert(code_of(a) + "{ }"@ =~= "{ }"@);
    }
}

pub(crate) broadcast group pieces {
    lemma_behind,
    lemma_host,
    lemma_script,
    lemma_joined,
    lemma_enclosed,
}

/// An expression's pieces are its operations' code.
pub proof fn value_pieces_are_its_code(cx: ContractV, e: ExprV)
    ensures
        code_of(value_pieces(cx, e)) == ops(cx, e),
    decreases e,
{
    broadcast use pieces;

    if !ledger_free(e) {
        match e {
            ExprV::LedgerAccess { span, field, method, args } => {
                ledger_code_is_its_script(cx, span, field, method, args);
            }
            ExprV::Reference { expr, .. } => value_pieces_are_its_code(cx, *expr),
            ExprV::Disclose { value, .. } => value_pieces_are_its_code(cx, *value),
            ExprV::UnaryOp { expr, .. } => value_pieces_are_its_code(cx, *expr),
            ExprV::EnumPayload { scrutinee, .. } => value_pieces_are_its_code(cx, *scrutinee),
            ExprV::Index { array, .. } => value_pieces_are_its_code(cx, *array),
            ExprV::Return { value, .. } => match value {
                Some(v) => value_pieces_are_its_code(cx, *v),
                None => {}
            },
            ExprV::MethodCall { receiver, .. } => value_pieces_are_its_code(cx, *receiver),
            ExprV::BinaryOp { lhs, rhs, .. } => {
                value_pieces_are_its_code(cx, *lhs);
                value_pieces_are_its_code(cx, *rhs);
            }
            _ => {}
        }
    }
}

/// A condition's pieces are its code.
pub proof fn test_pieces_are_its_code(cx: ContractV, e: ExprV)
    ensures
        code_of(test_pieces(cx, e)) == cond(cx, e),
    decreases e,
{
    broadcast use pieces;

    reveal(bare_call);
    reveal(prefix_paren);
    reveal(infix);
    if !ledger_free(e) {
        match e {
            ExprV::LedgerAccess { span, field, method, args } => {
                condition_code_is_its_script(cx, span, field, method, args);
            }
            ExprV::Reference { expr, .. } => test_pieces_are_its_code(cx, *expr),
            ExprV::Disclose { value, .. } => test_pieces_are_its_code(cx, *value),
            ExprV::MethodCall { receiver, method, .. } => {
                test_pieces_are_its_code(cx, *receiver);
                assert(cond(cx, *receiver) + (" . "@ + method + " ()"@) =~= bare_call(cond(cx, *receiver), method));
            }
            ExprV::UnaryOp { op, expr, .. } => {
                test_pieces_are_its_code(cx, *expr);
                let o = un_op_text(op);
                assert("("@ + o + " "@ + cond(cx, *expr) + ")"@ =~= prefix_paren(o, cond(cx, *expr)));
            }
            ExprV::BinaryOp { op, lhs, rhs, .. } => {
                test_pieces_are_its_code(cx, *lhs);
                test_pieces_are_its_code(cx, *rhs);
                let o = bin_op_text(op);
                assert(cond(cx, *lhs) + (" "@ + o + " "@) + cond(cx, *rhs) =~= infix(
                    cond(cx, *lhs),
                    o,
                    cond(cx, *rhs),
                ));
            }
            _ => {}
        }
    }
}

proof fn lemma_assertion_code(cx: ContractV, t: TrackerV, k: AssertV)
    ensures
        code_of(assertion_pieces(cx, t, k)) == assertion(cx, t, k).1,
{
    broadcast use pieces;

    reveal(assertion);
    reveal(assert_code);
    reveal(assert_eq_code);
    match k {
        AssertV::Assert(c) => test_pieces_are_its_code(cx, *c),
        AssertV::AssertEq(a, b) => {
            test_pieces_are_its_code(cx, *a);
            test_pieces_are_its_code(cx, *b);
        }
    }
}

proof fn lemma_binding_code(cx: ContractV, name: Seq<char>, value: ExprV, code: Seq<PieceV>)
    ensures
        code_of(binding_pieces(cx, name, value, code)) == binding(cx, name, value, code_of(code)),
{
    broadcast use pieces;

    reveal(binding);
    reveal(let_code);
}

/// A statement's pieces are its code.
pub proof fn statement_pieces_are_its_code(cx: ContractV, t: TrackerV, e: ExprV)
    ensures
        code_of(stmt_pieces(cx, t, e)) == stmt(cx, t, e).1,
    decreases e, 0nat,
{
    broadcast use pieces;

    reveal(if_code);
    reveal(if_else_code);
    if !ledger_free(e) {
        match e {
            ExprV::If { cond: c, then_branch, else_branch, .. } => {
                let p = pushes(cx, t, *c);
                let inside = TrackerV { in_branch: true, ..p.0 };
                test_pieces_are_its_code(cx, *c);
                body_pieces_are_its_code(cx, inside, then_branch, then_branch.len());
                let a = stmts(cx, inside, then_branch, then_branch.len());
                match else_branch {
                    Some(eb) => {
                        body_pieces_are_its_code(cx, a.0, eb, eb.len());
                        let b = stmts(cx, a.0, eb, eb.len());
                        assert("if "@ + cond(cx, *c) + " "@ + braced(a.1) + " else "@ + braced(b.1) =~= if_else_code(
                            cond(cx, *c),
                            braced(a.1),
                            braced(b.1),
                        ));
                    }
                    None => {}
                }
            }
            ExprV::Let { name, value, .. } => {
                if *value is If || *value is Block {
                    statement_pieces_are_its_code(cx, t, *value);
                    lemma_binding_code(cx, name, *value, stmt_pieces(cx, t, *value));
                } else {
                    value_pieces_are_its_code(cx, *value);
                    lemma_binding_code(
                        cx,
                        name,
                        *value,
                        joined(host(pushes(cx, t, *value).1), value_pieces(cx, *value)),
                    );
                }
            }
            ExprV::Block { stmts: body, .. } => body_pieces_are_its_code(cx, t, body, body.len()),
            ExprV::Assert { kind, .. } => lemma_assertion_code(cx, t, kind),
            _ => value_pieces_are_its_code(cx, e),
        }
    }
}

/// The pieces of a list of statements are its code.
pub proof fn body_pieces_are_its_code(cx: ContractV, t: TrackerV, es: Seq<ExprV>, n: nat)
    ensures
        code_of(list_pieces(cx, t, es, n)) == stmts(cx, t, es, n).1,
    decreases es, n,
{
    broadcast use pieces;

    if n > 0 && n <= es.len() {
        body_pieces_are_its_code(cx, t, es, (n - 1) as nat);
        statement_pieces_are_its_code(cx, stmts(cx, t, es, (n - 1) as nat).0, es[n - 1]);
    }
}

// ---- the circuit's groups

/// Whether the second operand is evaluated only for some values of the first.
pub open spec fn short_circuits(op: BinOp) -> bool {
    op == BinOp::And || op == BinOp::Or
}

pub open spec fn expr_pieces(cx: ContractV, test: bool, e: ExprV) -> Seq<PieceV> {
    if test {
        test_pieces(cx, e)
    } else {
        value_pieces(cx, e)
    }
}

/// Whether the ledger accesses of an expression, or of a condition where
/// `test` holds, are evaluated one by one: each has a script, lowers without
/// an error and has wires for its operands, and where an operand has no wire
/// no access follows. An access behind `&&` or `||` of a condition would be
/// skipped by the host for some values, so none stands there.
pub open spec fn in_order(cx: ContractV, test: bool, s: EmitV, e: ExprV, depth: nat) -> bool
    decreases e,
{
    ledger_free(e) || match e {
        ExprV::LedgerAccess { field, method, args, .. } => {
            &&& in_reach(cx, s, field, method, args, depth)
            &&& lower(cx, s, e, depth).0.errors.len() == s.errors.len()
            &&& if test {
                cond_script(cx, field, method, args) is Some
            } else {
                ledger_script(cx, field, method, args) is Some
            }
        }
        ExprV::Reference { expr, .. } => in_order(cx, test, s, *expr, depth),
        ExprV::Disclose { value, .. } => in_order(cx, test, s, *value, depth),
        ExprV::MethodCall { receiver, args, .. } => in_order(cx, test, s, *receiver, depth) && all_ledger_free(args),
        ExprV::UnaryOp { op, expr, .. } => (test ==> op != UnOp::Deref) && in_order(cx, test, s, *expr, depth),
        ExprV::BinaryOp { op, lhs, rhs, .. } => {
            let (a, l) = lower(cx, s, *lhs, depth);
            &&& test ==> relates(cx, op, *lhs, *rhs)
            &&& in_order(cx, test, s, *lhs, depth)
            &&& if l is Some && !(test && short_circuits(op)) {
                in_order(cx, test, a, *rhs, depth)
            } else {
                ledger_free(*rhs)
            }
        }
        ExprV::EnumPayload { scrutinee, .. } => !test && in_order(cx, test, s, *scrutinee, depth),
        ExprV::Index { array, .. } => !test && in_order(cx, test, s, *array, depth),
        ExprV::Return { value, .. } => !test && !s.in_helper && (match value {
            Some(v) => in_order(cx, test, s, *v, depth),
            None => true,
        }),
        _ => false,
    }
}

/// The state in which the `then` branch of an `if` is lowered, behind the
/// condition's state `a` and wire `bit`.
pub open spec fn then_state(a: EmitV, bit: u32) -> EmitV {
    let (g, guard) = then_guard(a, bit);
    enter_branch(g, guard)
}

/// The state in which the `else` branch is lowered, behind the `then` branch's
/// state `t`.
pub open spec fn else_state(a: EmitV, bit: u32, t: EmitV) -> EmitV {
    let (f, guard) = else_guard(
        close_branch(t, then_state(a, bit).instructions.len()),
        bit,
        a.in_conditional,
        a.guard,
    );
    EmitV { guard, ..f }
}

/// Whether the ledger accesses of a statement stand as statements, as values
/// of bindings, or in conditions of `if` and assertions. The condition of an
/// `if` that is the value of a binding is repeated by the host, so no access
/// stands in it.
pub open spec fn orderly(cx: ContractV, s: EmitV, e: ExprV, depth: nat) -> bool
    decreases e, 0nat,
{
    ledger_free(e) || match e {
        ExprV::If { cond: c, then_branch, else_branch, .. } => {
            let (a, bit) = lower(cx, s, *c, depth);
            &&& in_order(cx, true, s, *c, depth)
            &&& match bit {
                None => all_ledger_free(then_branch) && (else_branch matches Some(eb) ==> all_ledger_free(eb)),
                Some(bit) => {
                    let inside = then_state(a, bit);
                    &&& orderly_list(cx, inside, then_branch, then_branch.len(), depth)
                    &&& else_branch matches Some(eb) ==> orderly_list(
                        cx,
                        else_state(a, bit, lower_seq(cx, inside, then_branch, then_branch.len(), depth).0),
                        eb,
                        eb.len(),
                        depth,
                    )
                }
            }
        }
        ExprV::Let { value, .. } => {
            &&& (*value matches ExprV::If { cond: c, .. } ==> ledger_free(*c) || either(
                let_value(cx, *value),
                ledger_value(cx, *value),
            ) is None)
            &&& if *value is If || *value is Block {
                orderly(cx, s, *value, depth)
            } else {
                in_order(cx, false, s, *value, depth)
            }
        }
        ExprV::Block { stmts: body, .. } => orderly_list(cx, s, body, body.len(), depth),
        ExprV::Assert { kind, .. } => match kind {
            AssertV::Assert(c) => in_order(cx, true, s, *c, depth),
            AssertV::AssertEq(l, r) => {
                &&& in_order(cx, true, s, *l, depth)
                &&& if lower(cx, s, *l, depth).1 is Some {
                    in_order(cx, true, lower(cx, s, *l, depth).0, *r, depth)
                } else {
                    ledger_free(*r)
                }
            }
        },
        _ => in_order(cx, false, s, e, depth),
    }
}

pub open spec fn orderly_list(cx: ContractV, s: EmitV, es: Seq<ExprV>, n: nat, depth: nat) -> bool
    decreases es, n,
{
    n == 0 || n > es.len() || (orderly_list(cx, s, es, (n - 1) as nat, depth) && orderly(
        cx,
        lower_seq(cx, s, es, (n - 1) as nat, depth).0,
        es[n - 1],
        depth,
    ))
}

/// The groups of a statement: the operations of its scripts, under the guard
/// of the place. Those of a branch stand under the branch's guard.
pub open spec fn stmt_groups(cx: ContractV, s: EmitV, e: ExprV, depth: nat) -> Seq<GroupV>
    decreases e, 0nat,
{
    if ledger_free(e) {
        seq![]
    } else {
        match e {
            ExprV::If { cond: c, then_branch, else_branch, .. } => {
                let (a, bit) = lower(cx, s, *c, depth);
                let tested = marks(codes_of(test_pieces(cx, *c)), s.guard);
                match bit {
                    None => tested,
                    Some(bit) => {
                        let inside = then_state(a, bit);
                        let t = lower_seq(cx, inside, then_branch, then_branch.len(), depth).0;
                        let first = list_groups(cx, inside, then_branch, then_branch.len(), depth);
                        match else_branch {
                            None => tested + first,
                            Some(eb) => tested + first + list_groups(cx, else_state(a, bit, t), eb, eb.len(), depth),
                        }
                    }
                }
            }
            ExprV::Let { value, .. } => if *value is If || *value is Block {
                stmt_groups(cx, s, *value, depth)
            } else {
                marks(codes_of(value_pieces(cx, *value)), s.guard)
            },
            ExprV::Block { stmts: body, .. } => list_groups(cx, s, body, body.len(), depth),
            ExprV::Assert { kind, .. } => match kind {
                AssertV::Assert(c) => marks(codes_of(test_pieces(cx, *c)), s.guard),
                AssertV::AssertEq(l, r) => marks(
                    codes_of(test_pieces(cx, *l)) + codes_of(test_pieces(cx, *r)),
                    s.guard,
                ),
            },
            _ => marks(codes_of(value_pieces(cx, e)), s.guard),
        }
    }
}

/// The groups of the first `n` statements.
pub open spec fn list_groups(cx: ContractV, s: EmitV, es: Seq<ExprV>, n: nat, depth: nat) -> Seq<GroupV>
    decreases es, n,
{
    if n == 0 || n > es.len() {
        seq![]
    } else {
        list_groups(cx, s, es, (n - 1) as nat, depth) + stmt_groups(
            cx,
            lower_seq(cx, s, es, (n - 1) as nat, depth).0,
            es[n - 1],
            depth,
        )
    }
}

/// From `s` to `t` the groups `gs` are added.
pub open spec fn adds_groups(b: nat, w: u32, s: EmitV, t: EmitV, gs: Seq<GroupV>) -> bool {
    ready(b, w, s) ==> ready(b, w, t) && progress(b, w, t).closed == progress(b, w, s).closed + gs
}

proof fn lemma_idle_adds(b: nat, w: u32, cx: ContractV, s: EmitV, e: ExprV, depth: nat)
    requires
        ledger_free_helpers(cx),
        ledger_free(e),
    ensures
        adds_all(b, w, s, lower(cx, s, e, depth).0, seq![]),
{
    lemma_idle(b, w, cx, s, e, depth);
    place_is_restored(cx, s, e, depth);
    assert(progress(b, w, s).closed + marks(seq![], s.guard) =~= progress(b, w, s).closed);
}

proof fn lemma_one_then_two(b: nat, w: u32, s: EmitV, t: EmitV, u: EmitV, c: Seq<int>, d: Seq<int>)
    requires
        adds_all(b, w, s, t, c),
        adds_all(b, w, t, u, d),
    ensures
        adds_all(b, w, s, u, c + d),
{
    if ready(b, w, s) {
        let g = s.guard;
        assert(progress(b, w, s).closed + marks(c, g) + marks(d, g) =~= progress(b, w, s).closed + marks(c + d, g));
    }
}

proof fn lemma_groups_then(b: nat, w: u32, s: EmitV, t: EmitV, u: EmitV, c: Seq<GroupV>, d: Seq<GroupV>)
    requires
        adds_groups(b, w, s, t, c),
        adds_groups(b, w, t, u, d),
    ensures
        adds_groups(b, w, s, u, c + d),
{
    if ready(b, w, s) {
        assert(progress(b, w, s).closed + c + d =~= progress(b, w, s).closed + (c + d));
    }
}

proof fn lemma_groups_idle(b: nat, w: u32, s: EmitV, t: EmitV, u: EmitV, c: Seq<GroupV>)
    requires
        adds_groups(b, w, s, t, c),
        idle(b, w, t, u),
    ensures
        adds_groups(b, w, s, u, c),
{
}

/// The groups of an expression are its scripts' operations.
proof fn lemma_expr(b: nat, w: u32, cx: ContractV, test: bool, s: EmitV, e: ExprV, depth: nat)
    requires
        ledger_free_helpers(cx),
        in_order(cx, test, s, e, depth),
    ensures
        adds_all(b, w, s, lower(cx, s, e, depth).0, codes_of(expr_pieces(cx, test, e))),
    decreases e,
{
    broadcast use pieces;

    let r = lower(cx, s, e, depth).0;
    place_is_restored(cx, s, e, depth);
    if ledger_free(e) {
        lemma_idle_adds(b, w, cx, s, e, depth);
    } else {
        match e {
            ExprV::LedgerAccess { span, field, method, args } => {
                conditions_push_the_same_operations(cx, field, method, args);
                lemma_access(b, w, cx, s, span, field, method, args, depth);
            }
            ExprV::Reference { expr, .. } => lemma_expr(b, w, cx, test, s, *expr, depth),
            ExprV::Disclose { value, .. } => lemma_expr(b, w, cx, test, s, *value, depth),
            ExprV::EnumPayload { scrutinee, .. } => lemma_expr(b, w, cx, test, s, *scrutinee, depth),
            ExprV::Return { value, .. } => match value {
                Some(v) => lemma_expr(b, w, cx, test, s, *v, depth),
                None => {
                    assert(progress(b, w, s).closed + marks(seq![], s.guard) =~= progress(b, w, s).closed);
                }
            },
            ExprV::Index { array, .. } => {
                lemma_expr(b, w, cx, test, s, *array, depth);
            }
            ExprV::MethodCall { receiver, args, .. } => {
                let a = lower(cx, s, *receiver, depth).0;
                lemma_expr(b, w, cx, test, s, *receiver, depth);
                lemma_idle_seq(b, w, cx, a, args, args.len(), depth);
                let c = codes_of(expr_pieces(cx, test, *receiver));
                assert(c + seq![] =~= c);
            }
            ExprV::UnaryOp { op, expr, .. } => {
                lemma_expr(b, w, cx, test, s, *expr, depth);
                lemma_unary_expr(b, w, cx, test, s, e, depth);
            }
            ExprV::BinaryOp { op, lhs, rhs, .. } => {
                let (a, l) = lower(cx, s, *lhs, depth);
                lemma_expr(b, w, cx, test, s, *lhs, depth);
                let c = codes_of(expr_pieces(cx, test, *lhs));
                let d = codes_of(expr_pieces(cx, test, *rhs));
                assert(c + seq![] + d =~= c + d);
                if l is Some {
                    if test && short_circuits(op) {
                        lemma_idle_adds(b, w, cx, a, *rhs, depth);
                    } else {
                        lemma_expr(b, w, cx, test, a, *rhs, depth);
                    }
                    let (f, x) = lower(cx, a, *rhs, depth);
                    lemma_one_then_two(b, w, s, a, f, c, d);
                    if x is Some {
                        lemma_idle_binary(b, w, f, op, l->0, x->0, common_width(cx, s, *lhs, *rhs));
                    }
                } else {
                    assert(c + d =~= c);
                }
            }
            _ => {}
        }
    }
}

proof fn lemma_unary_expr(b: nat, w: u32, cx: ContractV, test: bool, s: EmitV, e: ExprV, depth: nat)
    requires
        e matches ExprV::UnaryOp { op, expr, .. } && (test ==> op != UnOp::Deref) && adds_all(
            b,
            w,
            s,
            lower(cx, s, *expr, depth).0,
            codes_of(expr_pieces(cx, test, *expr)),
        ),
        !ledger_free(e),
    ensures
        adds_all(b, w, s, lower(cx, s, e, depth).0, codes_of(expr_pieces(cx, test, e))),
{
    broadcast use pieces;
    broadcast use crate::operation_groups::steps;

    place_is_restored(cx, s, e, depth);
    match e {
        ExprV::UnaryOp { expr, .. } => {
            let c = codes_of(expr_pieces(cx, test, *expr));
            assert(Seq::<int>::empty() + c + Seq::<int>::empty() =~= c);
        }
        _ => {}
    }
}

/// A branch is lowered statement by statement, as any list is.
proof fn lemma_branch_list(cx: ContractV, s: EmitV, es: Seq<ExprV>, n: nat, depth: nat)
    ensures
        lower_branch(cx, s, es, n, depth).0 == lower_seq(cx, s, es, n, depth).0,
    decreases n,
{
    if n > 0 && n <= es.len() {
        lemma_branch_list(cx, s, es, (n - 1) as nat, depth);
    }
}

proof fn lemma_stmt(b: nat, w: u32, cx: ContractV, s: EmitV, e: ExprV, depth: nat)
    requires
        ledger_free_helpers(cx),
        orderly(cx, s, e, depth),
    ensures
        adds_groups(b, w, s, lower(cx, s, e, depth).0, stmt_groups(cx, s, e, depth)),
    decreases e, 1nat,
{
    if ledger_free(e) {
        lemma_idle(b, w, cx, s, e, depth);
        assert(progress(b, w, s).closed + Seq::<GroupV>::empty() =~= progress(b, w, s).closed);
    } else {
        match e {
            ExprV::If { .. } => lemma_if(b, w, cx, s, e, depth),
            ExprV::Let { value, .. } => {
                if *value is If || *value is Block {
                    lemma_stmt(b, w, cx, s, *value, depth);
                } else {
                    lemma_expr(b, w, cx, false, s, *value, depth);
                }
                let (a, r) = (lower(cx, s, *value, depth).0, lower(cx, s, e, depth).0);
                assert(progress(b, w, r) == progress(b, w, a));
            }
            ExprV::Block { stmts: body, .. } => lemma_list(b, w, cx, s, body, body.len(), depth),
            ExprV::Assert { .. } => lemma_assertion(b, w, cx, s, e, depth),
            _ => lemma_expr(b, w, cx, false, s, e, depth),
        }
    }
}

proof fn lemma_assertion(b: nat, w: u32, cx: ContractV, s: EmitV, e: ExprV, depth: nat)
    requires
        ledger_free_helpers(cx),
        orderly(cx, s, e, depth),
        !ledger_free(e),
        e is Assert,
    ensures
        adds_groups(b, w, s, lower(cx, s, e, depth).0, stmt_groups(cx, s, e, depth)),
{
    broadcast use crate::operation_groups::steps;

    match e {
        ExprV::Assert { kind, .. } => match kind {
            AssertV::Assert(c) => lemma_expr(b, w, cx, true, s, *c, depth),
            AssertV::AssertEq(l, r) => {
                let (a, x) = lower(cx, s, *l, depth);
                lemma_expr(b, w, cx, true, s, *l, depth);
                let c = codes_of(test_pieces(cx, *l));
                let d = codes_of(test_pieces(cx, *r));
                if x is Some {
                    lemma_expr(b, w, cx, true, a, *r, depth);
                    lemma_one_then_two(b, w, s, a, lower(cx, a, *r, depth).0, c, d);
                } else {
                    lemma_host(cond(cx, *r));
                    assert(c + d =~= c);
                }
            }
        },
        _ => {}
    }
}

proof fn lemma_if(b: nat, w: u32, cx: ContractV, s: EmitV, e: ExprV, depth: nat)
    requires
        ledger_free_helpers(cx),
        orderly(cx, s, e, depth),
        !ledger_free(e),
        e is If,
    ensures
        adds_groups(b, w, s, lower(cx, s, e, depth).0, stmt_groups(cx, s, e, depth)),
    decreases e, 0nat,
{
    match e {
        ExprV::If { cond: c, then_branch, else_branch, .. } => {
            let (a, bit) = lower(cx, s, *c, depth);
            let tested = marks(codes_of(test_pieces(cx, *c)), s.guard);
            lemma_expr(b, w, cx, true, s, *c, depth);
            assert(adds_groups(b, w, s, a, tested));
            if bit is Some {
                let g = then_guard(a, bit->0).0;
                let inside = then_state(a, bit->0);
                lemma_idle_guards(b, w, a, bit->0, false, 0);
                assert(progress(b, w, inside) == progress(b, w, g));
                lemma_groups_idle(b, w, s, a, inside, tested);
                let t = lower_seq(cx, inside, then_branch, then_branch.len(), depth).0;
                lemma_branch_list(cx, inside, then_branch, then_branch.len(), depth);
                lemma_list(b, w, cx, inside, then_branch, then_branch.len(), depth);
                let first = list_groups(cx, inside, then_branch, then_branch.len(), depth);
                lemma_groups_then(b, w, s, inside, t, tested, first);
                let shut = close_branch(t, inside.instructions.len());
                assert(progress(b, w, shut) == progress(b, w, t));
                lemma_groups_idle(b, w, s, t, shut, tested + first);
                let then_wire = lower_branch(cx, inside, then_branch, then_branch.len(), depth).1;
                match else_branch {
                    None => {
                        lemma_idle_leave(b, w, shut, bit->0, a.guard, a.in_conditional, then_wire, None);
                        lemma_groups_idle(
                            b,
                            w,
                            s,
                            shut,
                            leave_if(shut, bit->0, a.guard, a.in_conditional, then_wire, None).0,
                            tested + first,
                        );
                    }
                    Some(eb) => {
                        let f = else_guard(shut, bit->0, a.in_conditional, a.guard).0;
                        let other = else_state(a, bit->0, t);
                        lemma_idle_guards(b, w, shut, bit->0, a.in_conditional, a.guard);
                        assert(progress(b, w, other) == progress(b, w, f));
                        lemma_groups_idle(b, w, s, shut, other, tested + first);
                        let h = lower_seq(cx, other, eb, eb.len(), depth).0;
                        lemma_branch_list(cx, other, eb, eb.len(), depth);
                        lemma_list(b, w, cx, other, eb, eb.len(), depth);
                        let second = list_groups(cx, other, eb, eb.len(), depth);
                        lemma_groups_then(b, w, s, other, h, tested + first, second);
                        let closed = close_branch(h, other.instructions.len());
                        assert(progress(b, w, closed) == progress(b, w, h));
                        let else_wire = lower_branch(cx, other, eb, eb.len(), depth).1;
                        lemma_idle_leave(b, w, closed, bit->0, a.guard, a.in_conditional, then_wire, else_wire);
                        lemma_groups_idle(
                            b,
                            w,
                            s,
                            closed,
                            leave_if(closed, bit->0, a.guard, a.in_conditional, then_wire, else_wire).0,
                            tested + first + second,
                        );
                    }
                }
            }
        }
        _ => {}
    }
}

proof fn lemma_list(b: nat, w: u32, cx: ContractV, s: EmitV, es: Seq<ExprV>, n: nat, depth: nat)
    requires
        ledger_free_helpers(cx),
        orderly_list(cx, s, es, n, depth),
    ensures
        adds_groups(b, w, s, lower_seq(cx, s, es, n, depth).0, list_groups(cx, s, es, n, depth)),
    decreases es, n,
{
    if n > 0 && n <= es.len() {
        let a = lower_seq(cx, s, es, (n - 1) as nat, depth).0;
        lemma_list(b, w, cx, s, es, (n - 1) as nat, depth);
        lemma_stmt(b, w, cx, a, es[n - 1], depth);
        lemma_groups_then(
            b,
            w,
            s,
            a,
            lower(cx, a, es[n - 1], depth).0,
            list_groups(cx, s, es, (n - 1) as nat, depth),
            stmt_groups(cx, a, es[n - 1], depth),
        );
    } else {
        assert(progress(b, w, s).closed + Seq::<GroupV>::empty() =~= progress(b, w, s).closed);
    }
}

// ---- host and circuit together

/// The groups bear the given opcodes, in order.
pub open spec fn coded(gs: Seq<GroupV>, codes: Seq<int>) -> bool {
    gs.len() == codes.len() && forall|i: int| 0 <= i < gs.len() ==> (#[trigger] gs[i]).code == Some(imm(codes[i]))
}

proof fn lemma_free_list(cx: ContractV, t: TrackerV, es: Seq<ExprV>, n: nat)
    requires
        all_ledger_free(es),
    ensures
        codes_of(list_pieces(cx, t, es, n)) == Seq::<int>::empty(),
    decreases n,
{
    broadcast use pieces;

    if n > 0 && n <= es.len() {
        let u = stmts(cx, t, es, (n - 1) as nat).0;
        lemma_free_list(cx, t, es, (n - 1) as nat);
        assert(ledger_free(es[n - 1]));
        assert(stmt_pieces(cx, u, es[n - 1]) == host(stmt(cx, u, es[n - 1]).1));
        let last = stmt_pieces(cx, u, es[n - 1]);
        lemma_joined(list_pieces(cx, t, es, (n - 1) as nat), last);
        assert(codes_of(list_pieces(cx, t, es, n)) =~= Seq::<int>::empty());
    } else {
        assert(codes_of(Seq::<PieceV>::empty()) =~= Seq::<int>::empty());
    }
}

proof fn lemma_coded_stmt(cx: ContractV, t: TrackerV, s: EmitV, e: ExprV, depth: nat)
    requires
        orderly(cx, s, e, depth),
    ensures
        coded(stmt_groups(cx, s, e, depth), codes_of(stmt_pieces(cx, t, e))),
    decreases e, 0nat,
{
    broadcast use pieces;

    if !ledger_free(e) {
        match e {
            ExprV::If { cond: c, then_branch, else_branch, .. } => {
                let (a, bit) = lower(cx, s, *c, depth);
                let p = pushes(cx, t, *c);
                let outside = TrackerV { in_branch: true, ..p.0 };
                let behind = stmts(cx, outside, then_branch, then_branch.len()).0;
                if bit is Some {
                    let inside = then_state(a, bit->0);
                    let r = lower_seq(cx, inside, then_branch, then_branch.len(), depth).0;
                    lemma_coded_list(cx, outside, inside, then_branch, then_branch.len(), depth);
                    match else_branch {
                        Some(eb) => lemma_coded_list(cx, behind, else_state(a, bit->0, r), eb, eb.len(), depth),
                        None => {}
                    }
                } else {
                    lemma_free_list(cx, outside, then_branch, then_branch.len());
                    match else_branch {
                        Some(eb) => lemma_free_list(cx, behind, eb, eb.len()),
                        None => {}
                    }
                }
            }
            ExprV::Let { value, .. } => {
                if *value is If || *value is Block {
                    lemma_coded_stmt(cx, t, s, *value, depth);
                }
            }
            ExprV::Block { stmts: body, .. } => lemma_coded_list(cx, t, s, body, body.len(), depth),
            _ => {}
        }
    }
}

proof fn lemma_coded_list(cx: ContractV, t: TrackerV, s: EmitV, es: Seq<ExprV>, n: nat, depth: nat)
    requires
        orderly_list(cx, s, es, n, depth),
    ensures
        coded(list_groups(cx, s, es, n, depth), codes_of(list_pieces(cx, t, es, n))),
    decreases es, n,
{
    broadcast use pieces;

    if n > 0 && n <= es.len() {
        lemma_coded_list(cx, t, s, es, (n - 1) as nat, depth);
        lemma_coded_stmt(
            cx,
            stmts(cx, t, es, (n - 1) as nat).0,
            lower_seq(cx, s, es, (n - 1) as nat, depth).0,
            es[n - 1],
            depth,
        );
    }
}

/// The host and the circuit run one program: over a list of statements whose
/// ledger accesses stand as statements, values of bindings or conditions, the
/// builder's code is made of scripts and host code around them, and the groups
/// that lowering adds bear the opcodes of the scripts' operations, in the order
/// of the code. A group stands under the guard of its place: those of a branch
/// of an `if` under the guard of that branch.
pub proof fn circuit_follows_the_builder(
    cx: ContractV,
    t: TrackerV,
    s: EmitV,
    es: Seq<ExprV>,
    n: nat,
    depth: nat,
)
    requires
        ledger_free_helpers(cx),
        orderly_list(cx, s, es, n, depth),
    ensures
        stmts(cx, t, es, n).1 == code_of(list_pieces(cx, t, es, n)),
        groups_between(s, lower_seq(cx, s, es, n, depth).0) == list_groups(cx, s, es, n, depth),
        coded(list_groups(cx, s, es, n, depth), codes_of(list_pieces(cx, t, es, n))),
{
    let b = s.instructions.len();
    let w = s.next_index;
    assert(s.instructions.skip(b as int) =~= seq![]);
    assert(ready(b, w, s) && progress(b, w, s).closed =~= seq![]);
    lemma_list(b, w, cx, s, es, n, depth);
    let gs = list_groups(cx, s, es, n, depth);
    assert(seq![] + gs =~= gs);
    body_pieces_are_its_code(cx, t, es, n);
    lemma_coded_list(cx, t, s, es, n, depth);
}

/// The same of a whole circuit and its builder.
pub proof fn circuit_runs_its_builders_program(cx: ContractV, c: CircuitV)
    requires
        ledger_free_helpers(cx),
        orderly_list(cx, circuit_prologue(cx, c), c.body, c.body.len(), cx.helpers.len()),
    ensures
        ({
            let program = list_pieces(cx, fresh_tracker(), c.body, c.body.len());
            let gs = groups_between(circuit_prologue(cx, c), lowered_circuit(cx, c));
            &&& gs == list_groups(cx, circuit_prologue(cx, c), c.body, c.body.len(), cx.helpers.len())
            &&& coded(gs, codes_of(program))
            &&& builder(cx, c) == fn_code(
                string_literal("Build the transcript for the `"@ + c.name + "` circuit."@),
                "build_"@ + c.name + "_transcript"@,
                builder_params(cx, c),
                spaced(code_of(program), builder_result()),
            )
        }),
{
    broadcast use crate::operation_groups::steps;

    let s = circuit_prologue(cx, c);
    circuit_follows_the_builder(cx, fresh_tracker(), s, c.body, c.body.len(), cx.helpers.len());
    let (t, last) = lower_seq(cx, s, c.body, c.body.len(), cx.helpers.len());
    lemma_lower_seq(false, cx, s, c.body, c.body.len(), cx.helpers.len());
    assert(s.instructions.len() <= t.instructions.len()) by {
        reveal(continues);
    }
    let b = s.instructions.len();
    let w = s.next_index;
    let r = with_output(t, c.return_type is Some, last);
    assert(progress(b, w, r).closed == progress(b, w, t).closed);
    assert(r == lowered_circuit(cx, c));
    reveal(builder);
}

} // verus!
