//! The transcript builders against the walk over a circuit body.
use crate::code::refusal_code;
use crate::contract::ContractV;
use crate::expr::{AssertV, ExprV};
use crate::private_events::{walk, walk_list, TrackerV};
use crate::syntax::Block;
use crate::transcript::{assertion, has_if, if_position_error, pushes, stmt, stmts};
use vstd::prelude::*;

verus! {

/// Every `if` in a statement stands in statement position.
pub open spec fn statement_ifs(e: ExprV) -> bool
    decreases e, 0nat,
{
    match e {
        ExprV::If { cond, then_branch, else_branch, .. } => !has_if(*cond) && all_statement_ifs(then_branch) && (
        match else_branch {
            Some(eb) => all_statement_ifs(eb),
            None => true,
        }),
        ExprV::Let { value, .. } => if *value is If || *value is Block {
            statement_ifs(*value)
        } else {
            !has_if(*value)
        },
        ExprV::Block { stmts, .. } => all_statement_ifs(stmts),
        ExprV::Assert { kind, .. } => match kind {
            AssertV::Assert(c) => !has_if(*c),
            AssertV::AssertEq(a, b) => !has_if(*a) && !has_if(*b),
        },
        _ => !has_if(e),
    }
}

pub open spec fn all_statement_ifs(es: Seq<ExprV>) -> bool
    decreases es, 0nat,
{
    forall|i: int| 0 <= i < es.len() ==> statement_ifs(#[trigger] es[i])
}

proof fn lemma_stmt_tracks(cx: ContractV, t: TrackerV, e: ExprV)
    requires
        statement_ifs(e),
    ensures
        stmt(cx, t, e).0 == walk(cx, t, e).0,
    decreases e, 0nat,
{
    reveal(pushes);
    reveal(assertion);
    match e {
        ExprV::If { cond, then_branch, else_branch, .. } => {
            let inside = TrackerV { in_branch: true, ..walk(cx, t, *cond).0 };
            builder_tracks_like_the_walk(cx, inside, then_branch, then_branch.len());
            match else_branch {
                Some(eb) => {
                    let a = walk_list(cx, inside, then_branch, then_branch.len()).0;
                    builder_tracks_like_the_walk(cx, a, eb, eb.len());
                }
                None => {}
            }
        }
        ExprV::Let { value, .. } => {
            if *value is If || *value is Block {
                lemma_stmt_tracks(cx, t, *value);
            }
        }
        ExprV::Block { stmts: body, .. } => builder_tracks_like_the_walk(cx, t, body, body.len()),
        _ => {}
    }
}

/// Where every `if` stands in statement position, the code for a list of
/// statements pushes each statement's witness values with the memory of earlier
/// touches that the walk over the list has there.
pub proof fn builder_tracks_like_the_walk(cx: ContractV, t: TrackerV, es: Seq<ExprV>, n: nat)
    requires
        all_statement_ifs(es),
    ensures
        stmts(cx, t, es, n).0 == walk_list(cx, t, es, n).0,
    decreases es, n,
{
    if n > 0 && n <= es.len() {
        builder_tracks_like_the_walk(cx, t, es, (n - 1) as nat);
        lemma_stmt_tracks(cx, walk_list(cx, t, es, (n - 1) as nat).0, es[n - 1]);
    }
}

/// An expression with an `if` inside it is refused, and pushes nothing.
pub proof fn if_in_expression_is_refused(cx: ContractV, t: TrackerV, e: ExprV)
    requires
        has_if(e),
    ensures
        pushes(cx, t, e) == (t, refusal_code(if_position_error())),
{
    reveal(pushes);
}

} // verus!
