//! The host code of a circuit's body runs the statements that the source runs,
//! in its order.

use crate::code::{braced, spaced};
use crate::contract::ContractV;
use crate::expr::{AssertV, ExprV};
use crate::host_laws::{code, computes, number, source, HostV, WorldV};
use crate::host_value_laws::{bindable, binding_code_computes_its_value, condition_code_computes_its_value, host_let};
use crate::host_value_laws::{host_test, testable};
use crate::private_events::TrackerV;
use crate::snippets::{assert_code, assert_eq_code, if_code, if_else_code, let_code};
use crate::transcript::{assertion, binding, ops, pushes, stmt, stmts};
use vstd::prelude::*;

verus! {

// ---- host statements

/// A statement of host code.
pub enum HostStmtV {
    /// Code that pushes witness values.
    Push(Seq<char>),
    /// The code of one statement of the source.
    Plain(TrackerV, ExprV),
    /// `if c { .. }`
    When(HostV, Seq<HostStmtV>),
    /// `if c { .. } else { .. }`
    Either(HostV, Seq<HostStmtV>, Seq<HostStmtV>),
}

/// The text of a host statement.
pub open spec fn text_of(cx: ContractV, p: HostStmtV) -> Seq<char>
    decreases p, 0nat,
{
    match p {
        HostStmtV::Push(c) => c,
        HostStmtV::Plain(t, e) => stmt(cx, t, e).1,
        HostStmtV::When(c, a) => "if "@ + code(c) + " "@ + braced(texts_of(cx, a, a.len())),
        HostStmtV::Either(c, a, b) => "if "@ + code(c) + " "@ + braced(texts_of(cx, a, a.len())) + " else "@ + braced(
            texts_of(cx, b, b.len()),
        ),
    }
}

/// The first `n` host statements, one after the other.
pub open spec fn texts_of(cx: ContractV, ps: Seq<HostStmtV>, n: nat) -> Seq<char>
    decreases ps, n,
{
    if n == 0 || n > ps.len() {
        seq![]
    } else {
        spaced(texts_of(cx, ps, (n - 1) as nat), text_of(cx, ps[n - 1]))
    }
}

/// The statements of the source whose code runs when a host statement does.
pub open spec fn ran(w: WorldV, p: HostStmtV) -> Seq<ExprV>
    decreases p, 0nat,
{
    match p {
        HostStmtV::Push(_) => seq![],
        HostStmtV::Plain(_, e) => seq![e],
        HostStmtV::When(c, a) => if number(computes(w, c)) == 1 {
            ran_all(w, a, a.len())
        } else {
            seq![]
        },
        HostStmtV::Either(c, a, b) => if number(computes(w, c)) == 1 {
            ran_all(w, a, a.len())
        } else {
            ran_all(w, b, b.len())
        },
    }
}

pub open spec fn ran_all(w: WorldV, ps: Seq<HostStmtV>, n: nat) -> Seq<ExprV>
    decreases ps, n,
{
    if n == 0 || n > ps.len() {
        seq![]
    } else {
        ran_all(w, ps, (n - 1) as nat) + ran(w, ps[n - 1])
    }
}

// ---- source statements

/// Whether every branch of a statement is taken on a condition whose code
/// reads back as the condition.
pub open spec fn branches_on_tests(cx: ContractV, e: ExprV) -> bool
    decreases e, 0nat,
{
    match e {
        ExprV::If { cond: c, then_branch, else_branch, .. } => testable(cx, *c) && all_branch_on_tests(
            cx,
            then_branch,
            then_branch.len(),
        ) && (match else_branch {
            Some(eb) => all_branch_on_tests(cx, eb, eb.len()),
            None => true,
        }),
        ExprV::Block { stmts: body, .. } => all_branch_on_tests(cx, body, body.len()),
        _ => true,
    }
}

pub open spec fn all_branch_on_tests(cx: ContractV, es: Seq<ExprV>, n: nat) -> bool
    decreases es, n,
{
    n == 0 || n > es.len() || all_branch_on_tests(cx, es, (n - 1) as nat) && branches_on_tests(cx, es[n - 1])
}

/// The statements that run when a statement of the source does: of an `if`
/// those of the branch that its condition picks.
pub open spec fn taken(w: WorldV, e: ExprV) -> Seq<ExprV>
    decreases e, 0nat,
{
    match e {
        ExprV::If { cond: c, then_branch, else_branch, .. } => if number(source(w, *c)) == 1 {
            all_taken(w, then_branch, then_branch.len())
        } else {
            match else_branch {
                Some(eb) => all_taken(w, eb, eb.len()),
                None => seq![],
            }
        },
        ExprV::Block { stmts: body, .. } => all_taken(w, body, body.len()),
        _ => seq![e],
    }
}

pub open spec fn all_taken(w: WorldV, es: Seq<ExprV>, n: nat) -> Seq<ExprV>
    decreases es, n,
{
    if n == 0 || n > es.len() {
        seq![]
    } else {
        all_taken(w, es, (n - 1) as nat) + taken(w, es[n - 1])
    }
}

// ---- the host statements of a body

pub open spec fn host_stmts(cx: ContractV, t: TrackerV, e: ExprV) -> Seq<HostStmtV>
    decreases e, 0nat,
{
    match e {
        ExprV::If { cond: c, then_branch, else_branch, .. } => {
            let p = pushes(cx, t, *c);
            let inside = TrackerV { in_branch: true, ..p.0 };
            let yes = host_list(cx, inside, then_branch, then_branch.len());
            let after = stmts(cx, inside, then_branch, then_branch.len()).0;
            seq![
                HostStmtV::Push(p.1),
                match else_branch {
                    Some(eb) => HostStmtV::Either(host_test(*c), yes, host_list(cx, after, eb, eb.len())),
                    None => HostStmtV::When(host_test(*c), yes),
                },
            ]
        }
        ExprV::Block { stmts: body, .. } => host_list(cx, t, body, body.len()),
        _ => seq![HostStmtV::Plain(t, e)],
    }
}

pub open spec fn host_list(cx: ContractV, t: TrackerV, es: Seq<ExprV>, n: nat) -> Seq<HostStmtV>
    decreases es, n,
{
    if n == 0 || n > es.len() {
        seq![]
    } else {
        host_list(cx, t, es, (n - 1) as nat) + host_stmts(
            cx,
            stmts(cx, t, es, (n - 1) as nat).0,
            es[n - 1],
        )
    }
}

proof fn lemma_spaced_twice(a: Seq<char>, b: Seq<char>, c: Seq<char>)
    ensures
        spaced(spaced(a, b), c) == spaced(a, spaced(b, c)),
{
    reveal_strlit(" ");
    assert(a + " "@ + b + " "@ + c =~= a + " "@ + (b + " "@ + c));
}

proof fn lemma_prefix(w: WorldV, cx: ContractV, a: Seq<HostStmtV>, b: Seq<HostStmtV>, n: nat)
    requires
        n <= a.len(),
    ensures
        texts_of(cx, a + b, n) == texts_of(cx, a, n),
        ran_all(w, a + b, n) == ran_all(w, a, n),
    decreases n,
{
    if n > 0 {
        lemma_prefix(w, cx, a, b, (n - 1) as nat);
        assert((a + b)[n - 1] == a[n - 1]);
    }
}

proof fn lemma_joined(w: WorldV, cx: ContractV, a: Seq<HostStmtV>, b: Seq<HostStmtV>, n: nat)
    requires
        n <= b.len(),
    ensures
        texts_of(cx, a + b, a.len() + n) == spaced(texts_of(cx, a, a.len()), texts_of(cx, b, n)),
        ran_all(w, a + b, a.len() + n) == ran_all(w, a, a.len()) + ran_all(w, b, n),
    decreases n,
{
    if n == 0 {
        lemma_prefix(w, cx, a, b, a.len());
        assert(ran_all(w, a, a.len()) + ran_all(w, b, 0) =~= ran_all(w, a, a.len()));
    } else {
        lemma_joined(w, cx, a, b, (n - 1) as nat);
        assert((a + b)[a.len() + n - 1] == b[n - 1]);
        lemma_spaced_twice(texts_of(cx, a, a.len()), texts_of(cx, b, (n - 1) as nat), text_of(cx, b[n - 1]));
        assert(ran_all(w, a + b, a.len() + n) =~= ran_all(w, a, a.len()) + ran_all(w, b, n));
    }
}

// ---- the laws

/// The host code of a statement runs the statements that the source runs: the
/// branches of an `if` stand in their places.
pub proof fn host_code_takes_the_branches_of_the_source(w: WorldV, cx: ContractV, t: TrackerV, e: ExprV)
    requires
        branches_on_tests(cx, e),
    ensures
        stmt(cx, t, e).1 == texts_of(cx, host_stmts(cx, t, e), host_stmts(cx, t, e).len()),
        ran_all(w, host_stmts(cx, t, e), host_stmts(cx, t, e).len()) == taken(w, e),
    decreases e, 0nat,
{
    let ps = host_stmts(cx, t, e);
    match e {
        ExprV::If { cond: c, then_branch, else_branch, .. } => {
            let p = pushes(cx, t, *c);
            let inside = TrackerV { in_branch: true, ..p.0 };
            let after = stmts(cx, inside, then_branch, then_branch.len()).0;
            assert(all_branch_on_tests(cx, then_branch, then_branch.len()));
            condition_code_computes_its_value(w, cx, *c);
            host_code_runs_the_statements_of_the_source(w, cx, inside, then_branch, then_branch.len());
            if let Some(eb) = else_branch {
                assert(all_branch_on_tests(cx, eb, eb.len()));
                host_code_runs_the_statements_of_the_source(w, cx, after, eb, eb.len());
            }
            reveal(if_code);
            reveal(if_else_code);
            assert(ps.len() == 2);
            reveal_with_fuel(texts_of, 3);
            reveal_with_fuel(ran_all, 3);
            assert(ps[0] == HostStmtV::Push(p.1));
            assert(text_of(cx, ps[0]) == p.1);
            assert(ran(w, ps[0]) =~= seq![]);
            assert(ran_all(w, ps, 1) =~= seq![]);
            assert(ran_all(w, ps, 2) =~= ran(w, ps[1]));
            assert(ran(w, ps[1]) == taken(w, e));
            assert(spaced(seq![], p.1) =~= p.1);
            assert(texts_of(cx, ps, 2) == spaced(p.1, text_of(cx, ps[1])));
        }
        ExprV::Block { stmts: body, .. } => {
            assert(all_branch_on_tests(cx, body, body.len()));
            host_code_runs_the_statements_of_the_source(w, cx, t, body, body.len());
        }
        _ => {
            reveal_with_fuel(texts_of, 2);
            reveal_with_fuel(ran_all, 2);
            assert(ps.len() == 1 && ps[0] == HostStmtV::Plain(t, e));
            assert(text_of(cx, ps[0]) == stmt(cx, t, e).1);
            assert(spaced(seq![], stmt(cx, t, e).1) =~= stmt(cx, t, e).1);
            assert(ran_all(w, ps, 1) =~= seq![e]);
        }
    }
}

/// The host code of a body runs the statements that the source runs, in the
/// order of the source.
pub proof fn host_code_runs_the_statements_of_the_source(
    w: WorldV,
    cx: ContractV,
    t: TrackerV,
    es: Seq<ExprV>,
    n: nat,
)
    requires
        n <= es.len(),
        all_branch_on_tests(cx, es, n),
    ensures
        stmts(cx, t, es, n).1 == texts_of(cx, host_list(cx, t, es, n), host_list(cx, t, es, n).len()),
        ran_all(w, host_list(cx, t, es, n), host_list(cx, t, es, n).len()) == all_taken(w, es, n),
    decreases es, n,
{
    if n > 0 {
        host_code_runs_the_statements_of_the_source(w, cx, t, es, (n - 1) as nat);
        let s = stmts(cx, t, es, (n - 1) as nat).0;
        assert(branches_on_tests(cx, es[n - 1]));
        host_code_takes_the_branches_of_the_source(w, cx, s, es[n - 1]);
        let a = host_list(cx, t, es, (n - 1) as nat);
        let b = host_stmts(cx, s, es[n - 1]);
        lemma_joined(w, cx, a, b, b.len());
    }
}

/// The code of a binding gives its name to a host expression that computes the
/// value on its right-hand side, and comes behind the pushes and operations of
/// that side.
pub proof fn host_bindings_name_their_value(w: WorldV, cx: ContractV, t: TrackerV, e: ExprV)
    requires
        e matches ExprV::Let { value, .. } && bindable(cx, *value),
    ensures
        ({
            let value = *e->Let_value;
            let before = if value is If || value is Block {
                stmt(cx, t, value).1
            } else {
                spaced(pushes(cx, t, value).1, ops(cx, value))
            };
            &&& stmt(cx, t, e).1 == spaced(
                before,
                "# [allow (non_snake_case , unused_variables)] let "@ + e->Let_name + " = "@ + code(host_let(value))
                    + " ;"@,
            )
            &&& computes(w, host_let(value)) == source(w, value)
        }),
{
    binding_code_computes_its_value(w, cx, *e->Let_value);
    reveal(binding);
    reveal(let_code);
}

/// The code of an assertion asserts a host expression that computes the
/// condition, and that of an equality two that compute its sides.
pub proof fn host_assertions_test_what_the_source_asserts(w: WorldV, cx: ContractV, t: TrackerV, e: ExprV)
    requires
        e matches ExprV::Assert { kind, .. } && (match kind {
            AssertV::Assert(c) => testable(cx, *c),
            AssertV::AssertEq(a, b) => testable(cx, *a) && testable(cx, *b),
        }),
    ensures
        match e->Assert_kind {
            AssertV::Assert(c) => {
                &&& stmt(cx, t, e).1 == spaced(
                    pushes(cx, t, *c).1,
                    "assert ! ("@ + code(host_test(*c)) + " , \"nocturne: circuit assertion failed\") ;"@,
                )
                &&& computes(w, host_test(*c)) == source(w, *c)
            }
            AssertV::AssertEq(a, b) => {
                &&& stmt(cx, t, e).1 == spaced(
                    spaced(pushes(cx, t, *a).1, pushes(cx, pushes(cx, t, *a).0, *b).1),
                    "assert_eq ! ("@ + code(host_test(*a)) + " , "@ + code(host_test(*b))
                        + " , \"nocturne: circuit assert_eq! failed\") ;"@,
                )
                &&& computes(w, host_test(*a)) == source(w, *a)
                &&& computes(w, host_test(*b)) == source(w, *b)
            }
        },
{
    reveal(assertion);
    reveal(assert_code);
    reveal(assert_eq_code);
    match e->Assert_kind {
        AssertV::Assert(c) => condition_code_computes_its_value(w, cx, *c),
        AssertV::AssertEq(a, b) => {
            condition_code_computes_its_value(w, cx, *a);
            condition_code_computes_its_value(w, cx, *b);
        }
    }
}

} // verus!
