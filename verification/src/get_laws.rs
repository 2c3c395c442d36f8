//! Optional reads of a map: the `if let`, the `match` and the `match` with its
//! arms the other way round mean the same.
use crate::expr::ExprV;
use crate::reading::{get_arms, get_branch, get_call, get_if, is_none_pattern, let_get, read, read_arm, read_block};
use crate::reading::{read_body, read_else, read_if, read_match, shadow, some_binding, DeclV, Read, ScopeV};
use crate::syntax::{Arm, Block, Expr, ExprKind, Ident, Span};
use vstd::prelude::*;

verus! {

/// What an optional read of a map comes to: the binding, the field, the key,
/// and the bodies of both branches.
pub struct GetV {
    pub v: Ident,
    pub field: Ident,
    pub key: ExprV,
    pub body: Seq<ExprV>,
    pub otherwise: Option<Seq<ExprV>>,
}

pub open spec fn get_tree(g: GetV, span: Span, at: Span) -> ExprV {
    get_if(span, at, g.v, g.field, g.key, g.body, g.otherwise)
}

/// Two readings are the same, the positions of the branch and of its two
/// ledger accesses aside.
pub open spec fn same_reading(a: Read, b: Read, g: GetV, span: Span, at: Span, other: Span, other_at: Span) -> bool {
    &&& a.1 == b.1
    &&& match (a.0, b.0) {
        (Err(x), Err(y)) => x == y,
        (Ok(x), Ok(y)) => x == get_tree(g, span, at) && y == get_tree(g, other, other_at),
        _ => false,
    }
}

/// Whether the arms of a match are those of an optional read: arm `i` binds
/// with the pattern and body of the `if let`, the other is its `else`.
pub open spec fn mirrors_if_let(cond: Expr, then_branch: Block, otherwise: Expr, arms: Seq<Arm>, i: int) -> bool {
    &&& arms.len() == 2
    &&& i == 0 || i == 1
    &&& !arms[0].has_guard && !arms[1].has_guard
    &&& cond.kind matches ExprKind::Let { pat, .. } && arms[i].pat == pat && some_binding(pat) is Some
    &&& arms[i].body.kind == ExprKind::Block(then_branch)
    &&& is_none_pattern(arms[1 - i].pat)
    &&& arms[1 - i].body == otherwise
}

/// `if let Some(v) = self.map.get(k) { .. } else { .. }` reads as the `match`
/// on `self.map.get(k)` with the same bodies, whichever arm stands first.
pub proof fn if_let_reads_as_match(cx: DeclV, sc: ScopeV, a: Expr, b: Expr, i: int, n: u32)
    requires
        a.kind is If && b.kind is Match,
        a.kind->If_else_branch is Some,
        a.kind->If_cond.kind is Let,
        *a.kind->If_cond.kind->Let_expr == *b.kind->Match_expr,
        get_call(sc, *b.kind->Match_expr) is Some,
        mirrors_if_let(
            *a.kind->If_cond,
            a.kind->If_then_branch,
            *a.kind->If_else_branch->0,
            b.kind->Match_arms@,
            i,
        ),
    ensures
        exists|g: GetV| #[trigger]
            same_reading(
                read(cx, sc, a, n),
                read(cx, sc, b, n),
                g,
                a.kind->If_if_span,
                a.kind->If_cond.span,
                b.kind->Match_match_span,
                b.kind->Match_expr.span,
            ),
{
    reveal(get_branch);
    let arms = b.kind->Match_arms@;
    let cond = *a.kind->If_cond;
    let (v, field, key) = let_get(sc, cond)->0;
    assert(get_call(sc, *b.kind->Match_expr) == Some((field, key)));
    assert(get_arms(arms) == Some((v, i == 0)));
    let ra = read(cx, sc, a, n);
    let rb = read(cx, sc, b, n);
    let k = read(cx, sc, key, n);
    let inner = shadow(sc, v.name@);
    let t = read_arm(cx, inner, arms, i, k.1);
    let stmts = a.kind->If_then_branch.stmts@;
    assert(read_body(cx, inner, arms[i].body, k.1) == read_block(cx, inner, stmts, stmts.len(), k.1));
    let f = read_else(cx, sc, a.kind->If_else_branch, t.1);
    assert(ra == read_if(cx, sc, a, n));
    assert(rb == read_match(cx, sc, b, n));
    let g = GetV { v, field, key: k.0->Ok_0, body: t.0->Ok_0, otherwise: f.0->Ok_0 };
    assert(same_reading(
        ra,
        rb,
        g,
        a.kind->If_if_span,
        a.kind->If_cond.span,
        b.kind->Match_match_span,
        b.kind->Match_expr.span,
    ));
}

/// A `match` on `self.map.get(k)` reads the same with its arms swapped.
pub proof fn swapped_arms_read_the_same(cx: DeclV, sc: ScopeV, a: Expr, b: Expr, n: u32)
    requires
        a.kind is Match && b.kind is Match,
        a.kind->Match_match_span == b.kind->Match_match_span,
        *a.kind->Match_expr == *b.kind->Match_expr,
        get_call(sc, *a.kind->Match_expr) is Some,
        get_arms(a.kind->Match_arms@) is Some,
        b.kind->Match_arms@ == seq![a.kind->Match_arms@[1], a.kind->Match_arms@[0]],
    ensures
        read(cx, sc, a, n) == read(cx, sc, b, n),
{
    assert(read(cx, sc, a, n) == read_match(cx, sc, a, n));
    assert(read(cx, sc, b, n) == read_match(cx, sc, b, n));
    let x = a.kind->Match_arms@;
    let y = b.kind->Match_arms@;
    assert(y[0] == x[1] && y[1] == x[0]);
    let (v, first) = get_arms(x)->0;
    assert(get_arms(y) == Some((v, !first)));
}

} // verus!
