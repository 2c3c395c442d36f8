//! What function bodies read as: loops unroll to one block for each value of
//! their variable, operands keep their places, and a match picks the arm of
//! the variant.
use crate::expr::{BinOp, ExprV, LitV};
use crate::reading::{after_stmts, array, binary, binding, block, bounds, branch, direct_call, element, get_branch};
use crate::reading::{get_if, int_of, let_get, let_name, loop_value, path_expr, path_name, payload_scope, read};
use crate::reading::{read_all, read_arm, read_block, read_chain, read_else, read_if, read_iterations, read_stmt};
use crate::reading::{self_field, shadow, unary, unroll, variant_link, Bounds, DeclV, ScopeV, Shape};
use crate::syntax::{spec_call_site, Arm, Expr, PathV, Span, Stmt};
use vstd::prelude::*;

verus! {

// ---- loops

/// The number of values from `first` up to `stop`, which a closed range takes
/// too.
pub open spec fn value_count(first: u64, stop: u64, closed: bool) -> int {
    if closed {
        stop - first + 1
    } else {
        stop - first
    }
}

/// Reading `for x in first..stop { body }` gives one block for each value of
/// the range, in order: the block at position `j` is the body read where `x`
/// stands for `first + j`. The result holds the number of the next synthetic
/// name in front of each block.
pub proof fn loops_unroll_to_their_values(cx: DeclV, sc: ScopeV, e: Expr, n: u32) -> (ns: Seq<u32>)
    requires
        e.kind is ForLoop,
        e.kind->ForLoop_pat.kind is Ident,
        e.kind->ForLoop_expr.kind is Range,
        e.kind->ForLoop_expr.kind->Range_start is Some,
        e.kind->ForLoop_expr.kind->Range_end is Some,
        int_of(sc, *e.kind->ForLoop_expr.kind->Range_start->0) is Some,
        int_of(sc, *e.kind->ForLoop_expr.kind->Range_end->0) is Some,
        int_of(sc, *e.kind->ForLoop_expr.kind->Range_start->0)->0 <= u64::MAX,
        int_of(sc, *e.kind->ForLoop_expr.kind->Range_end->0)->0 <= u64::MAX,
    ensures
        ({
            let x = e.kind->ForLoop_pat.kind->Ident_ident.name@;
            let range = e.kind->ForLoop_expr.kind;
            let first = int_of(sc, *range->Range_start->0)->0 as u64;
            let stop = int_of(sc, *range->Range_end->0)->0 as u64;
            let count = value_count(first, stop, range->closed);
            let body = e.kind->ForLoop_body.stmts@;
            let r = read(cx, sc, e, n);
            &&& count > 1024 ==> r.0 is Err
            &&& count <= 0 ==> r.0 is Ok && r.0->Ok_0 is Block && r.0->Ok_0->Block_stmts.len() == 0
            &&& r.0 matches Ok(v) ==> (count > 0 ==> {
                &&& v is Block
                &&& v->Block_stmts.len() == count
                &&& ns.len() == count + 1
                &&& ns[0] == n
                &&& ns[count] == r.1
                &&& forall|j: int|
                    0 <= j < count ==> {
                        let b = #[trigger] v->Block_stmts[j];
                        b is Block && read_block(cx, unroll(sc, x, (first + j) as u64), body, body.len(), ns[j]) == (
                            Ok::<Seq<ExprV>, crate::error::ErrorV>(b->Block_stmts),
                            ns[j + 1],
                        )
                    }
            })
        }),
{
    reveal(bounds);
    reveal(block);
    let x = e.kind->ForLoop_pat.kind->Ident_ident.name@;
    let range = e.kind->ForLoop_expr.kind;
    let first = int_of(sc, *range->Range_start->0)->0 as u64;
    let stop = int_of(sc, *range->Range_end->0)->0 as u64;
    let count = value_count(first, stop, range->closed);
    let body = e.kind->ForLoop_body.stmts@;
    if 0 < count <= 1024 {
        assert(bounds(sc, e.kind->ForLoop_for_span, e.kind->ForLoop_pat, *e.kind->ForLoop_expr) == Bounds::Values(
            x,
            first,
            (first + count - 1) as u64,
        ));
        lemma_iterations(cx, sc, e.kind->ForLoop_for_span, x, first, body, count as nat, n)
    } else {
        seq![n]
    }
}

proof fn lemma_iterations(
    cx: DeclV,
    sc: ScopeV,
    span: Span,
    x: Seq<char>,
    first: u64,
    body: Seq<Stmt>,
    k: nat,
    n: u32,
) -> (ns: Seq<u32>)
    requires
        first + k - 1 <= u64::MAX,
    ensures
        ({
            let r = read_iterations(cx, sc, span, x, first, body, k, n);
            r.0 matches Ok(vs) ==> {
                &&& vs.len() == k
                &&& ns.len() == k + 1
                &&& ns[0] == n
                &&& ns[k as int] == r.1
                &&& forall|j: int|
                    0 <= j < k ==> {
                        let b = #[trigger] vs[j];
                        b is Block && read_block(cx, unroll(sc, x, (first + j) as u64), body, body.len(), ns[j]) == (
                            Ok::<Seq<ExprV>, crate::error::ErrorV>(b->Block_stmts),
                            ns[j + 1],
                        )
                    }
            }
        }),
    decreases k,
{
    reveal(block);
    if k == 0 {
        seq![n]
    } else {
        let before = lemma_iterations(cx, sc, span, x, first, body, (k - 1) as nat, n);
        let p = read_iterations(cx, sc, span, x, first, body, (k - 1) as nat, n);
        let r = read_iterations(cx, sc, span, x, first, body, k, n);
        let ns = before.push(r.1);
        if p.0 is Ok && r.0 is Ok {
            let vs = r.0->Ok_0;
            let us = p.0->Ok_0;
            assert forall|j: int| 0 <= j < k implies {
                let b = #[trigger] vs[j];
                b is Block && read_block(cx, unroll(sc, x, (first + j) as u64), body, body.len(), ns[j]) == (
                    Ok::<Seq<ExprV>, crate::error::ErrorV>(b->Block_stmts),
                    ns[j + 1],
                )
            } by {
                if j < k - 1 {
                    assert(vs[j] == us[j]);
                }
            }
        }
        ns
    }
}

/// Inside a loop its variable reads as an integer literal of its value, unless
/// an outer loop has the same variable, and every other name as it does
/// outside.
pub proof fn loop_variables_read_as_their_value(cx: DeclV, sc: ScopeV, x: Seq<char>, v: u64, e: Expr, n: u32)
    requires
        e.kind is Path,
    ensures
        path_name(e.kind->Path_0) == Some(x) && loop_value(sc.unrolled, x) is None ==> read(
            cx,
            unroll(sc, x, v),
            e,
            n,
        ).0 == Ok::<ExprV, crate::error::ErrorV>(
            ExprV::Literal { span: spec_call_site(), value: LitV::Int(v as u128) },
        ),
        path_name(e.kind->Path_0) != Some(x) ==> read(cx, unroll(sc, x, v), e, n) == read(cx, sc, e, n),
{
    reveal(path_expr);
    let inner = unroll(sc, x, v);
    assert(inner.unrolled.drop_last() =~= sc.unrolled);
}

/// An array indexed by a loop variable reads as the element at the variable's
/// value.
pub proof fn loop_indices_read_as_their_value(cx: DeclV, sc: ScopeV, x: Seq<char>, v: u64, e: Expr, n: u32)
    requires
        e.kind is Index,
        e.kind->Index_index.kind is Path,
        path_name(e.kind->Index_index.kind->Path_0) == Some(x),
        loop_value(sc.unrolled, x) is None,
        v <= u32::MAX,
    ensures
        ({
            let inner = unroll(sc, x, v);
            let a = read(cx, inner, *e.kind->Index_expr, n);
            a.0 matches Ok(array) ==> read(cx, inner, e, n) == (
                Ok::<ExprV, crate::error::ErrorV>(
                    ExprV::Index { span: e.span, array: Box::new(array), index: v as u32 },
                ),
                a.1,
            )
        }),
{
    reveal(element);
    let inner = unroll(sc, x, v);
    assert(inner.unrolled.drop_last() =~= sc.unrolled);
}

// ---- operands

/// A binary expression reads as its operator between what its operands read
/// as, left and right in their places.
pub proof fn operands_keep_their_sides(cx: DeclV, sc: ScopeV, e: Expr, n: u32)
    requires
        e.kind is Binary,
    ensures
        read(cx, sc, e, n).0 matches Ok(v) ==> {
            let l = read(cx, sc, *e.kind->Binary_left, n);
            let r = read(cx, sc, *e.kind->Binary_right, l.1);
            &&& v is BinaryOp
            &&& v->BinaryOp_op == e.kind->Binary_op
            &&& l.0 == Ok::<ExprV, crate::error::ErrorV>(*v->BinaryOp_lhs)
            &&& r.0 == Ok::<ExprV, crate::error::ErrorV>(*v->BinaryOp_rhs)
        },
{
    reveal(binary);
}

/// A unary expression reads as its operator on what its operand reads as.
pub proof fn unary_operators_stay(cx: DeclV, sc: ScopeV, e: Expr, n: u32)
    requires
        e.kind is Unary,
    ensures
        read(cx, sc, e, n).0 matches Ok(v) ==> v is UnaryOp && v->UnaryOp_op == e.kind->Unary_op && read(
            cx,
            sc,
            *e.kind->Unary_expr,
            n,
        ).0 == Ok::<ExprV, crate::error::ErrorV>(*v->UnaryOp_expr),
{
    reveal(unary);
}

/// Lists of expressions read element by element, in order.
pub proof fn lists_keep_their_order(cx: DeclV, sc: ScopeV, es: Seq<Expr>, k: nat, n: u32) -> (ns: Seq<u32>)
    requires
        k <= es.len(),
    ensures
        read_all(cx, sc, es, k, n).0 matches Ok(vs) ==> {
            &&& vs.len() == k
            &&& ns.len() == k + 1
            &&& ns[0] == n
            &&& ns[k as int] == read_all(cx, sc, es, k, n).1
            &&& forall|j: int|
                0 <= j < k ==> read(cx, sc, es[j], ns[j]) == (
                    Ok::<ExprV, crate::error::ErrorV>(#[trigger] vs[j]),
                    ns[j + 1],
                )
        },
    decreases k,
{
    if k == 0 {
        seq![n]
    } else {
        let before = lists_keep_their_order(cx, sc, es, (k - 1) as nat, n);
        let p = read_all(cx, sc, es, (k - 1) as nat, n);
        let r = read_all(cx, sc, es, k, n);
        let ns = before.push(r.1);
        if p.0 is Ok && r.0 is Ok {
            let vs = r.0->Ok_0;
            assert forall|j: int| 0 <= j < k implies read(cx, sc, es[j], ns[j]) == (
                Ok::<ExprV, crate::error::ErrorV>(#[trigger] vs[j]),
                ns[j + 1],
            ) by {
                if j < k - 1 {
                    assert(vs[j] == p.0->Ok_0[j]);
                }
            }
        }
        ns
    }
}

/// The statements of a block read one by one, in order, each in the scope
/// behind those in front of it.
pub proof fn statements_keep_their_order(cx: DeclV, sc: ScopeV, ss: Seq<Stmt>, k: nat, n: u32) -> (ns: Seq<u32>)
    requires
        k <= ss.len(),
    ensures
        read_block(cx, sc, ss, k, n).0 matches Ok(vs) ==> {
            &&& vs.len() == k
            &&& ns.len() == k + 1
            &&& ns[0] == n
            &&& ns[k as int] == read_block(cx, sc, ss, k, n).1
            &&& forall|j: int|
                0 <= j < k ==> read_stmt(cx, after_stmts(sc, ss, j as nat), ss[j], ns[j]) == (
                    Ok::<ExprV, crate::error::ErrorV>(#[trigger] vs[j]),
                    ns[j + 1],
                )
        },
    decreases k,
{
    if k == 0 {
        seq![n]
    } else {
        let before = statements_keep_their_order(cx, sc, ss, (k - 1) as nat, n);
        let p = read_block(cx, sc, ss, (k - 1) as nat, n);
        let r = read_block(cx, sc, ss, k, n);
        let ns = before.push(r.1);
        if p.0 is Ok && r.0 is Ok {
            let vs = r.0->Ok_0;
            assert forall|j: int| 0 <= j < k implies read_stmt(cx, after_stmts(sc, ss, j as nat), ss[j], ns[j]) == (
                Ok::<ExprV, crate::error::ErrorV>(#[trigger] vs[j]),
                ns[j + 1],
            ) by {
                if j < k - 1 {
                    assert(vs[j] == p.0->Ok_0[j]);
                }
            }
        }
        ns
    }
}

/// An `if` reads as a branch on its condition with the statements of its
/// branches in their places.
pub proof fn branches_keep_their_places(cx: DeclV, sc: ScopeV, e: Expr, n: u32)
    requires
        e.kind is If,
        let_get(sc, *e.kind->If_cond) is None,
    ensures
        read(cx, sc, e, n).0 matches Ok(v) ==> {
            let c = read(cx, sc, *e.kind->If_cond, n);
            let ts = e.kind->If_then_branch.stmts@;
            let t = read_block(cx, sc, ts, ts.len(), c.1);
            let f = read_else(cx, sc, e.kind->If_else_branch, t.1);
            &&& v is If
            &&& c.0 == Ok::<ExprV, crate::error::ErrorV>(*v->If_cond)
            &&& t.0 == Ok::<Seq<ExprV>, crate::error::ErrorV>(v->If_then_branch)
            &&& f.0 == Ok::<Option<Seq<ExprV>>, crate::error::ErrorV>(v->If_else_branch)
        },
{
    reveal(branch);
    assert(read(cx, sc, e, n) == read_if(cx, sc, e, n));
}

// ---- matches

/// The statements that a chain of variant tests comes to, given which variants
/// the scrutinee is.
pub open spec fn picked(chain: Option<Seq<ExprV>>, is: spec_fn(PathV) -> bool) -> Option<Seq<ExprV>>
    decreases chain,
{
    match chain {
        Some(links) => if links.len() == 1 {
            match links[0] {
                ExprV::If { cond, then_branch, else_branch, .. } => match *cond {
                    ExprV::BinaryOp { op: BinOp::Eq, rhs, .. } => match *rhs {
                        ExprV::Path { path, .. } => if is(path) {
                            Some(then_branch)
                        } else {
                            proof {
                                assert(decreases_to!(chain => links));
                                assert(decreases_to!(links => links[0]));
                                assert(decreases_to!(links[0] => else_branch));
                            }
                            picked(else_branch, is)
                        },
                        _ => chain,
                    },
                    _ => chain,
                },
                _ => chain,
            }
        } else {
            chain
        },
        None => None,
    }
}

/// Whether the scrutinee is the variant of arm `i`.
pub open spec fn arm_applies(ss: Seq<Shape>, is: spec_fn(PathV) -> bool, i: int) -> bool {
    match ss[i] {
        Shape::Variant { path, .. } => is(path@),
        Shape::Wild => false,
    }
}

/// A match runs the first arm whose variant the scrutinee is: the chain that
/// it reads as comes to that arm's body, behind the payload's binding, and
/// where no arm applies to the catch-all.
pub proof fn matches_run_the_first_arm_that_applies(
    cx: DeclV,
    sc: ScopeV,
    match_span: Span,
    arms: Seq<Arm>,
    ss: Seq<Shape>,
    subject: ExprV,
    k: nat,
    otherwise: Option<Seq<ExprV>>,
    n: u32,
    is: spec_fn(PathV) -> bool,
)
    requires
        k <= ss.len(),
    ensures
        read_chain(cx, sc, match_span, arms, ss, subject, k, otherwise, n).0 matches Ok(chain) ==> {
            &&& (forall|i: int| 0 <= i < k ==> !#[trigger] arm_applies(ss, is, i)) ==> picked(chain, is) == picked(
                otherwise,
                is,
            )
            &&& forall|i: int|
                0 <= i < k && #[trigger] arm_applies(ss, is, i) && (forall|j: int|
                    0 <= j < i ==> !#[trigger] arm_applies(ss, is, j)) ==> arm_body(cx, sc, arms, ss, i, picked(chain, is))
        },
    decreases k,
{
    reveal(variant_link);
    if k > 0 {
        match ss[k - 1] {
            Shape::Wild => {
                matches_run_the_first_arm_that_applies(
                    cx,
                    sc,
                    match_span,
                    arms,
                    ss,
                    subject,
                    (k - 1) as nat,
                    otherwise,
                    n,
                    is,
                );
                assert(!arm_applies(ss, is, k - 1));
            }
            Shape::Variant { path, payload } => {
                let r = read_arm(cx, payload_scope(sc, payload), arms, k - 1, n);
                if r.0 is Ok {
                    let body = r.0->Ok_0;
                    let link = Some(seq![variant_link(match_span, path, payload, subject, body, otherwise)]);
                    matches_run_the_first_arm_that_applies(
                        cx,
                        sc,
                        match_span,
                        arms,
                        ss,
                        subject,
                        (k - 1) as nat,
                        link,
                        r.1,
                        is,
                    );
                    let v = variant_link(match_span, path, payload, subject, body, otherwise);
                    assert(link->0[0] == v);
                    assert(picked(link, is) == if is(path@) {
                        Some(v->If_then_branch)
                    } else {
                        picked(otherwise, is)
                    });
                    let inner = read_chain(cx, sc, match_span, arms, ss, subject, (k - 1) as nat, link, r.1).0;
                    if inner is Ok {
                        let chain = inner->Ok_0;
                        if is(path@) {
                            assert(arm_applies(ss, is, k - 1));
                            if forall|j: int| 0 <= j < k - 1 ==> !#[trigger] arm_applies(ss, is, j) {
                                assert(picked(chain, is) == Some(v->If_then_branch));
                                match payload {
                                    None => assert(v->If_then_branch =~= body),
                                    Some(_) => assert(v->If_then_branch.skip(1) =~= body),
                                }
                                assert(body_of(cx, sc, arms, ss, k - 1, n, v->If_then_branch));
                                assert(body_of(cx, sc, arms, ss, k - 1, n, picked(chain, is)->0));
                            }
                        } else {
                            assert(!arm_applies(ss, is, k - 1));
                        }
                    }
                }
            }
        }
    }
}

/// Whether statements are the body of arm `i`, read with the payload in scope,
/// behind the payload's binding.
pub open spec fn body_of(
    cx: DeclV,
    sc: ScopeV,
    arms: Seq<Arm>,
    ss: Seq<Shape>,
    i: int,
    n: u32,
    statements: Seq<ExprV>,
) -> bool {
    match ss[i] {
        Shape::Variant { payload, .. } => read_arm(cx, payload_scope(sc, payload), arms, i, n).0 matches Ok(body) && (
        match payload {
            None => statements == body,
            Some(b) => statements.len() == body.len() + 1 && statements.skip(1) == body && (statements[0] matches ExprV::Let {
                name,
                value,
                ..
            } && name == b.name@ && *value is EnumPayload),
        }),
        Shape::Wild => false,
    }
}

pub open spec fn arm_body(
    cx: DeclV,
    sc: ScopeV,
    arms: Seq<Arm>,
    ss: Seq<Shape>,
    i: int,
    statements: Option<Seq<ExprV>>,
) -> bool {
    statements is Some && exists|n: u32| #[trigger] body_of(cx, sc, arms, ss, i, n, statements->0)
}

/// `let x = e` reads as a binding of `x` to what `e` reads as.
pub proof fn bindings_keep_name_and_value(cx: DeclV, sc: ScopeV, s: Stmt, n: u32)
    requires
        s is Local,
        let_name(s->Local_pat) is Ok,
        s->Local_init is Some,
    ensures
        read_stmt(cx, sc, s, n).0 matches Ok(v) ==> v is Let && v->Let_name == let_name(s->Local_pat)->Ok_0.name@ && read(
            cx,
            sc,
            s->Local_init->0,
            n,
        ).0 == Ok::<ExprV, crate::error::ErrorV>(*v->Let_value),
{
    reveal(binding);
}

/// `self.field.method(args)` reads as an access of that field by that method,
/// with what the arguments read as.
pub proof fn ledger_accesses_keep_field_and_arguments(cx: DeclV, sc: ScopeV, e: Expr, n: u32)
    requires
        e.kind is MethodCall,
        self_field(sc, *e.kind->MethodCall_receiver) is Some,
    ensures
        read(cx, sc, e, n).0 matches Ok(v) ==> v is LedgerAccess && v->LedgerAccess_field == self_field(
            sc,
            *e.kind->MethodCall_receiver,
        )->0.name@ && v->LedgerAccess_method == e.kind->MethodCall_method.name@ && read_all(
            cx,
            sc,
            e.kind->MethodCall_args@,
            e.kind->MethodCall_args@.len(),
            n,
        ).0 == Ok::<Seq<ExprV>, crate::error::ErrorV>(v->LedgerAccess_args),
{
    reveal(direct_call);
}

/// `if let Some(v) = self.map.get(k) { body } else { .. }` reads as a branch on
/// whether the map contains the key; where it does, `v` is bound to the value
/// under that same key in front of the body.
pub proof fn optional_reads_bind_what_is_there(cx: DeclV, sc: ScopeV, e: Expr, n: u32)
    requires
        e.kind is If,
        let_get(sc, *e.kind->If_cond) is Some,
    ensures
        read(cx, sc, e, n).0 matches Ok(x) ==> {
            let (v, field, key) = let_get(sc, *e.kind->If_cond)->0;
            let k = read(cx, sc, key, n);
            let ts = e.kind->If_then_branch.stmts@;
            let t = read_block(cx, shadow(sc, v.name@), ts, ts.len(), k.1);
            let f = read_else(cx, sc, e.kind->If_else_branch, t.1);
            &&& x is If
            &&& k.0 is Ok
            &&& *x->If_cond matches ExprV::LedgerAccess { field: a, method, args, .. } && a == field.name@ && method
                == "contains"@ && args == seq![k.0->Ok_0]
            &&& x->If_then_branch.len() > 0
            &&& x->If_then_branch[0] matches ExprV::Let { name, value, .. } && name == v.name@ && (
            *value matches ExprV::LedgerAccess { field: a, method, args, .. } && a == field.name@ && method == "lookup"@
                && args == seq![k.0->Ok_0])
            &&& t.0 == Ok::<Seq<ExprV>, crate::error::ErrorV>(x->If_then_branch.skip(1))
            &&& f.0 == Ok::<Option<Seq<ExprV>>, crate::error::ErrorV>(x->If_else_branch)
        },
{
    reveal(get_branch);
    reveal(get_if);
    assert(read(cx, sc, e, n) == read_if(cx, sc, e, n));
    if read(cx, sc, e, n).0 is Ok {
        let (v, field, key) = let_get(sc, *e.kind->If_cond)->0;
        let k = read(cx, sc, key, n);
        let ts = e.kind->If_then_branch.stmts@;
        let t = read_block(cx, shadow(sc, v.name@), ts, ts.len(), k.1);
        let x = read(cx, sc, e, n).0->Ok_0;
        assert(x->If_then_branch.skip(1) =~= t.0->Ok_0);
    }
}

} // verus!
