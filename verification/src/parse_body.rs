//! The recursion over expressions, statements and blocks of a function body.
use crate::body::{classify_arms, draw_once, expr_res, expr_span, exprs_res, fields_res, find_wild, has_variant_arm};
use crate::body::{ident_opt, is_compound_assignment, let_binding, loop_bounds, make_array, make_assert};
use crate::body::{make_assert_eq, make_binary, make_binding, make_block, make_branch, make_called};
use crate::body::{make_compound_error, make_direct_call, make_direct_field, make_element, make_field_access};
use crate::body::{make_get_branch, make_literal, make_loop, make_match, make_method_call, make_no_match, make_other};
use crate::body::{make_path, make_reference, make_return, make_struct_init, make_tuple, make_unary};
use crate::body::{make_uninitialized, match_get_arms, match_if_let_some_get, match_self_field_get_scrutinee};
use crate::body::{member_ident, opt_exprs, opt_exprs_res, parse_cast, pattern_view, patterns_view, read_claim};
use crate::body::{unsupported, variant_if, ArmPattern, ClassifiedAll, ContractCtx, LoopBounds, MacroClaim, Scope};
use crate::error::{ErrorV, MidnightError};
use crate::expr::{expr_view, exprs_view, fields_view, lemma_exprs_view_push, ExprIR, ExprV};
use crate::reading::{after_stmts, lemma_claim_smaller, lemma_get_key_smaller, payload_scope, read, read_all};
use crate::reading::{read_arm, read_block, read_body, read_chain, read_else, read_enum_match, read_fields, read_if};
use crate::reading::{read_iterations, read_macro, read_match, read_stmt, MAX_UNROLL, DeclV, ScopeV};
use crate::syntax::{Arm, Expr, ExprKind, FieldValue, Ident, MacroCall, Span, Stmt};
use vstd::prelude::*;

verus! {

/// Parses an expression; `n` numbers synthetic scrutinee names.
pub(crate) fn parse_expr<'e>(cx: &ContractCtx, sc: &Scope<'e>, e: &'e Expr, n: &mut u32) -> (r: Result<
    ExprIR,
    MidnightError,
>)
    ensures
        (expr_res(r), *final(n)) == read(cx@, sc@, *e, *old(n)),
    decreases e, 1nat,
{
    match &e.kind {
        ExprKind::Lit(lit) => Ok(make_literal(e.span, lit)),
        ExprKind::Path(p) => Ok(make_path(sc, p)),
        ExprKind::Binary { op, op_span, left, right } => {
            if is_compound_assignment(*op) {
                return Err(make_compound_error(*op_span));
            }
            match parse_expr(cx, sc, left, n) {
                Err(x) => Err(x),
                Ok(lhs) => make_binary(*op_span, *op, lhs, parse_expr(cx, sc, right, n)),
            }
        }
        ExprKind::Unary { op, expr } => make_unary(e.span, *op, parse_expr(cx, sc, expr, n)),
        ExprKind::MethodCall { receiver, method, args } => match parse_exprs(cx, sc, args, n) {
            Err(x) => Err(x),
            Ok(parsed) => match make_direct_call(sc, receiver, method, parsed) {
                Ok(v) => Ok(v),
                Err(parsed) => make_method_call(method, parsed, parse_expr(cx, sc, receiver, n)),
            },
        },
        ExprKind::Field { base, member } => match make_direct_field(sc, base, member) {
            Some(v) => Ok(v),
            None => make_field_access(member, parse_expr(cx, sc, base, n)),
        },
        ExprKind::Call { func, args } => make_called(sc, e.span, func, parse_exprs(cx, sc, args, n)),
        ExprKind::If { .. } => parse_if(cx, sc, e, n),
        ExprKind::Block(b) => make_block(e.span, parse_block_stmts(cx, sc, &b.stmts, n)),
        ExprKind::Match { .. } => parse_match(cx, sc, e, n),
        ExprKind::Struct { path, fields } => make_struct_init(e.span, path, parse_fields(cx, sc, fields, n)),
        ExprKind::Return(value) => match value {
            Some(v) => make_return(e.span, parse_expr(cx, sc, v, n)),
            None => Ok(ExprIR::Return { span: e.span, value: None }),
        },
        ExprKind::Tuple(elems) => make_tuple(e.span, parse_exprs(cx, sc, elems, n)),
        ExprKind::Array(elems) => make_array(e.span, parse_exprs(cx, sc, elems, n)),
        ExprKind::Reference(inner) => make_reference(e.span, parse_expr(cx, sc, inner, n)),
        ExprKind::Paren(inner) => parse_expr(cx, sc, inner, n),
        ExprKind::Macro(m) => parse_macro_expr(cx, sc, m, n),
        ExprKind::Loop => Ok(make_loop(e.span)),
        ExprKind::ForLoop { for_span, pat, expr, body } => match loop_bounds(sc, *for_span, pat, expr) {
            LoopBounds::Shapeless(span, d) => Ok(unsupported(span, d.as_str())),
            LoopBounds::Refused(x) => Err(x),
            LoopBounds::Empty => {
                let stmts: Vec<ExprIR> = Vec::new();
                assert(exprs_view(stmts@) =~= seq![]);
                make_block(*for_span, Ok(stmts))
            }
            LoopBounds::Values(name, first, last) => make_block(
                *for_span,
                parse_iterations(cx, sc, *for_span, name, first, last, &body.stmts, n),
            ),
        },
        ExprKind::Cast { expr, as_span, ty } => parse_cast(cx, sc, parse_expr(cx, sc, expr, n), ty, *as_span),
        ExprKind::Index { expr, index } => make_element(sc, e.span, index, parse_expr(cx, sc, expr, n)),
        _ => Ok(make_other(sc, e)),
    }
}

fn parse_if<'e>(cx: &ContractCtx, sc: &Scope<'e>, e: &'e Expr, n: &mut u32) -> (r: Result<ExprIR, MidnightError>)
    ensures
        (expr_res(r), *final(n)) == read_if(cx@, sc@, *e, *old(n)),
    decreases e, 0nat,
{
    match &e.kind {
        ExprKind::If { if_span, cond, then_branch, else_branch } => match match_if_let_some_get(sc, cond) {
            Some((v, field, key_expr)) => {
                proof {
                    lemma_get_key_smaller(sc@, **cond);
                    assert(decreases_to!(*e => e.kind));
                    assert(decreases_to!(e.kind => cond));
                }
                match parse_expr(cx, sc, key_expr, n) {
                    Err(x) => Err(x),
                    Ok(key) => {
                        let inner = sc.with_shadowed(v.name.as_str());
                        match parse_block_stmts(cx, &inner, &then_branch.stmts, n) {
                            Err(x) => Err(x),
                            Ok(body) => make_get_branch(
                                *if_span,
                                cond.span,
                                v,
                                field,
                                key,
                                body,
                                parse_else(cx, sc, else_branch, n),
                            ),
                        }
                    }
                }
            }
            None => match parse_expr(cx, sc, cond, n) {
                Err(x) => Err(x),
                Ok(c) => match parse_block_stmts(cx, sc, &then_branch.stmts, n) {
                    Err(x) => Err(x),
                    Ok(body) => make_branch(*if_span, c, body, parse_else(cx, sc, else_branch, n)),
                },
            },
        },
        _ => Ok(make_other(sc, e)),
    }
}

fn parse_match<'e>(cx: &ContractCtx, sc: &Scope<'e>, e: &'e Expr, n: &mut u32) -> (r: Result<ExprIR, MidnightError>)
    ensures
        (expr_res(r), *final(n)) == read_match(cx@, sc@, *e, *old(n)),
    decreases e, 0nat,
{
    match &e.kind {
        ExprKind::Match { match_span, expr, arms } => {
            proof {
                assert(decreases_to!(*e => e.kind));
                assert(decreases_to!(e.kind => arms));
                assert(decreases_to!(arms => arms@));
            }
            match (match_self_field_get_scrutinee(sc, expr), match_get_arms(arms)) {
                (Some((field, key_expr)), Some((v, some_first))) => {
                    proof {
                        lemma_get_key_smaller(sc@, **expr);
                        assert(decreases_to!(e.kind => expr));
                    }
                    match parse_expr(cx, sc, key_expr, n) {
                        Err(x) => Err(x),
                        Ok(key) => {
                            let inner = sc.with_shadowed(v.name.as_str());
                            let (si, ni): (usize, usize) = if some_first { (0, 1) } else { (1, 0) };
                            assert(decreases_to!(arms@ => arms@[si as int]));
                            assert(decreases_to!(arms@ => arms@[ni as int]));
                            match parse_arm_body(cx, &inner, &arms[si].body, n) {
                                Err(x) => Err(x),
                                Ok(body) => {
                                    let other = match parse_arm_body(cx, sc, &arms[ni].body, n) {
                                        Err(x) => Err(x),
                                        Ok(o) => Ok(Some(o)),
                                    };
                                    make_get_branch(*match_span, expr.span, v, field, key, body, other)
                                }
                            }
                        }
                    }
                }
                _ => match classify_arms(cx, arms) {
                    ClassifiedAll::NotEnum => Ok(make_no_match(*match_span)),
                    ClassifiedAll::Refused(x) => Err(x),
                    ClassifiedAll::All(ss) => match parse_expr(cx, sc, expr, n) {
                        Err(x) => Err(x),
                        Ok(scrutinee) => lower_enum_match(
                            cx,
                            sc,
                            *match_span,
                            expr_span(sc, expr),
                            arms,
                            &ss,
                            scrutinee,
                            n,
                        ),
                    },
                },
            }
        }
        _ => Ok(make_other(sc, e)),
    }
}

/// Lowers an enum match to a chain of discriminant comparisons.
fn lower_enum_match<'e>(
    cx: &ContractCtx,
    sc: &Scope<'e>,
    match_span: Span,
    scrutinee_span: Span,
    arms: &'e Vec<Arm>,
    ss: &Vec<ArmPattern<'e>>,
    scrutinee: ExprIR,
    n: &mut u32,
) -> (r: Result<ExprIR, MidnightError>)
    requires
        ss@.len() == arms@.len(),
    ensures
        (expr_res(r), *final(n)) == read_enum_match(
            cx@,
            sc@,
            match_span,
            scrutinee_span,
            arms@,
            patterns_view(ss@),
            scrutinee@,
            *old(n),
        ),
    decreases arms@, arms@.len() + 2,
{
    let (draw, subject) = match draw_once(scrutinee, scrutinee_span, *n) {
        Ok((d, v)) => {
            *n = n.wrapping_add(1);
            (Some(d), v)
        }
        Err(s) => (None, s),
    };
    let ghost var = subject@;
    let otherwise = match find_wild(ss) {
        Some(i) => {
            assert(decreases_to!(arms@ => arms@[i as int]));
            match parse_arm_body(cx, sc, &arms[i].body, n) {
                Err(x) => {
                    return Err(x);
                }
                Ok(body) => Some(body),
            }
        }
        None => None,
    };
    if !has_variant_arm(ss) {
        return Ok(make_no_match(match_span));
    }
    match lower_chain(cx, sc, match_span, arms, ss, &subject, otherwise, n) {
        Err(x) => Err(x),
        Ok(chain) => Ok(make_match(match_span, draw, Ghost(var), chain)),
    }
}

/// Parses the body of a variant's arm, with its payload's name bound.
fn parse_variant_arm<'e>(
    cx: &ContractCtx,
    sc: &Scope<'e>,
    arms: &'e Vec<Arm>,
    i: usize,
    payload: Option<&'e Ident>,
    n: &mut u32,
) -> (r: Result<Vec<ExprIR>, MidnightError>)
    requires
        i < arms@.len(),
    ensures
        (exprs_res(r), *final(n)) == read_arm(
            cx@,
            payload_scope(sc@, ident_opt(payload)),
            arms@,
            i as int,
            *old(n),
        ),
    decreases arms@, 0nat,
{
    assert(decreases_to!(arms@ => arms@[i as int]));
    match payload {
        Some(b) => {
            let inner = sc.with_shadowed(b.name.as_str());
            parse_arm_body(cx, &inner, &arms[i].body, n)
        }
        None => parse_arm_body(cx, sc, &arms[i].body, n),
    }
}

/// Adds a link per variant arm in front of what the match otherwise does, the
/// last arm's link innermost.
fn lower_chain<'e>(
    cx: &ContractCtx,
    sc: &Scope<'e>,
    match_span: Span,
    arms: &'e Vec<Arm>,
    ss: &Vec<ArmPattern<'e>>,
    subject: &ExprIR,
    otherwise: Option<Vec<ExprIR>>,
    n: &mut u32,
) -> (r: Result<Option<Vec<ExprIR>>, MidnightError>)
    requires
        ss@.len() == arms@.len(),
    ensures
        (opt_exprs_res(r), *final(n)) == read_chain(
            cx@,
            sc@,
            match_span,
            arms@,
            patterns_view(ss@),
            subject@,
            arms@.len(),
            opt_exprs(otherwise),
            *old(n),
        ),
    decreases arms@, arms@.len() + 1,
{
    let ghost v = patterns_view(ss@);
    let ghost goal = read_chain(cx@, sc@, match_span, arms@, v, subject@, arms@.len(), opt_exprs(otherwise), *n);
    let mut rest = otherwise;
    let mut k: usize = arms.len();
    while k > 0
        invariant
            k <= arms@.len(),
            ss@.len() == arms@.len(),
            v == patterns_view(ss@),
            goal == read_chain(cx@, sc@, match_span, arms@, v, subject@, arms@.len(), opt_exprs(otherwise), *old(n)),
            goal == read_chain(cx@, sc@, match_span, arms@, v, subject@, k as nat, opt_exprs(rest), *n),
        decreases k,
    {
        let i: usize = k - 1;
        assert(v[i as int] == pattern_view(ss@[i as int]));
        match &ss[i] {
            ArmPattern::Wild => {}
            ArmPattern::Variant { path, payload } => {
                match parse_variant_arm(cx, sc, arms, i, *payload, n) {
                    Err(x) => {
                        return Err(x);
                    }
                    Ok(body) => {
                        let link = variant_if(match_span, path, *payload, subject, body, rest);
                        let mut links: Vec<ExprIR> = Vec::new();
                        links.push(link);
                        assert(exprs_view(links@) =~= seq![link@]);
                        rest = Some(links);
                    }
                }
            }
        }
        k = i;
    }
    Ok(rest)
}

fn parse_else<'e>(cx: &ContractCtx, sc: &Scope<'e>, e: &'e Option<Box<Expr>>, n: &mut u32) -> (r: Result<
    Option<Vec<ExprIR>>,
    MidnightError,
>)
    ensures
        (opt_exprs_res(r), *final(n)) == read_else(cx@, sc@, *e, *old(n)),
    decreases e, 0nat,
{
    match e {
        None => Ok(None),
        Some(b) => match parse_arm_body(cx, sc, b, n) {
            Err(x) => Err(x),
            Ok(v) => Ok(Some(v)),
        },
    }
}

/// Parses a branch body, which is either a block or a bare expression.
fn parse_arm_body<'e>(cx: &ContractCtx, sc: &Scope<'e>, e: &'e Expr, n: &mut u32) -> (r: Result<
    Vec<ExprIR>,
    MidnightError,
>)
    ensures
        (exprs_res(r), *final(n)) == read_body(cx@, sc@, *e, *old(n)),
    decreases e, 2nat,
{
    match &e.kind {
        ExprKind::Block(b) => parse_block_stmts(cx, sc, &b.stmts, n),
        _ => match parse_expr(cx, sc, e, n) {
            Err(x) => Err(x),
            Ok(v) => {
                let mut out: Vec<ExprIR> = Vec::new();
                out.push(v);
                assert(exprs_view(out@) =~= seq![v@]);
                Ok(out)
            }
        },
    }
}

/// Parses a list of expressions, stopping at the first error.
fn parse_exprs<'e>(cx: &ContractCtx, sc: &Scope<'e>, es: &'e Vec<Expr>, n: &mut u32) -> (r: Result<
    Vec<ExprIR>,
    MidnightError,
>)
    ensures
        (exprs_res(r), *final(n)) == read_all(cx@, sc@, es@, es@.len(), *old(n)),
    decreases es, 0nat,
{
    let ghost start = *n;
    let mut out: Vec<ExprIR> = Vec::new();
    assert(exprs_view(out@) =~= seq![]);
    let mut i: usize = 0;
    while i < es.len()
        invariant
            i <= es@.len(),
            start == *old(n),
            read_all(cx@, sc@, es@, i as nat, start) == (Ok::<Seq<ExprV>, ErrorV>(exprs_view(out@)), *n),
        decreases es@.len() - i,
    {
        match parse_expr(cx, sc, &es[i], n) {
            Err(x) => {
                proof {
                    lemma_all_stop(cx@, sc@, es@, (i + 1) as nat, es@.len(), start);
                }
                return Err(x);
            }
            Ok(v) => {
                proof {
                    lemma_exprs_view_push(out@, v);
                }
                out.push(v);
            }
        }
        i += 1;
    }
    Ok(out)
}

proof fn lemma_all_stop(cx: DeclV, sc: ScopeV, es: Seq<Expr>, a: nat, b: nat, n: u32)
    requires
        a <= b <= es.len(),
        read_all(cx, sc, es, a, n).0 is Err,
    ensures
        read_all(cx, sc, es, b, n) == read_all(cx, sc, es, a, n),
    decreases b,
{
    if a < b {
        lemma_all_stop(cx, sc, es, a, (b - 1) as nat, n);
    }
}

proof fn lemma_fields_stop(cx: DeclV, sc: ScopeV, fs: Seq<FieldValue>, a: nat, b: nat, n: u32)
    requires
        a <= b <= fs.len(),
        read_fields(cx, sc, fs, a, n).0 is Err,
    ensures
        read_fields(cx, sc, fs, b, n) == read_fields(cx, sc, fs, a, n),
    decreases b,
{
    if a < b {
        lemma_fields_stop(cx, sc, fs, a, (b - 1) as nat, n);
    }
}

fn parse_fields<'e>(cx: &ContractCtx, sc: &Scope<'e>, fs: &'e Vec<FieldValue>, n: &mut u32) -> (r: Result<
    Vec<(String, ExprIR)>,
    MidnightError,
>)
    ensures
        (fields_res(r), *final(n)) == read_fields(cx@, sc@, fs@, fs@.len(), *old(n)),
    decreases fs, 0nat,
{
    let ghost start = *n;
    let mut out: Vec<(String, ExprIR)> = Vec::new();
    assert(fields_view(out@) =~= seq![]);
    let mut i: usize = 0;
    while i < fs.len()
        invariant
            i <= fs@.len(),
            start == *old(n),
            read_fields(cx@, sc@, fs@, i as nat, start) == (
                Ok::<Seq<(Seq<char>, ExprV)>, ErrorV>(fields_view(out@)),
                *n,
            ),
        decreases fs@.len() - i,
    {
        let f = &fs[i];
        let name = member_ident(&f.member);
        match parse_expr(cx, sc, &f.expr, n) {
            Err(x) => {
                proof {
                    lemma_fields_stop(cx@, sc@, fs@, (i + 1) as nat, fs@.len(), start);
                }
                return Err(x);
            }
            Ok(v) => {
                let ghost before = out@;
                out.push((name, v));
                assert(fields_view(out@) =~= fields_view(before).push((name@, expr_view(v))));
            }
        }
        i += 1;
    }
    Ok(out)
}

// ---- statements

proof fn lemma_block_stop(cx: DeclV, sc: ScopeV, ss: Seq<Stmt>, a: nat, b: nat, n: u32)
    requires
        a <= b <= ss.len(),
        read_block(cx, sc, ss, a, n).0 is Err,
    ensures
        read_block(cx, sc, ss, b, n) == read_block(cx, sc, ss, a, n),
    decreases b,
{
    if a < b {
        lemma_block_stop(cx, sc, ss, a, (b - 1) as nat, n);
    }
}

/// Parses a block's statements.
pub(crate) fn parse_block_stmts<'e>(cx: &ContractCtx, sc: &Scope<'e>, ss: &'e Vec<Stmt>, n: &mut u32) -> (r: Result<
    Vec<ExprIR>,
    MidnightError,
>)
    ensures
        (exprs_res(r), *final(n)) == read_block(cx@, sc@, ss@, ss@.len(), *old(n)),
    decreases ss, 0nat,
{
    let ghost start = *n;
    let mut inner = sc.copy();
    let mut out: Vec<ExprIR> = Vec::new();
    assert(exprs_view(out@) =~= seq![]);
    let mut i: usize = 0;
    while i < ss.len()
        invariant
            i <= ss@.len(),
            start == *old(n),
            inner@ == after_stmts(sc@, ss@, i as nat),
            read_block(cx@, sc@, ss@, i as nat, start) == (Ok::<Seq<ExprV>, ErrorV>(exprs_view(out@)), *n),
        decreases ss@.len() - i,
    {
        let stmt = &ss[i];
        match parse_stmt(cx, &inner, stmt, n) {
            Err(x) => {
                proof {
                    lemma_block_stop(cx@, sc@, ss@, (i + 1) as nat, ss@.len(), start);
                }
                return Err(x);
            }
            Ok(v) => {
                proof {
                    lemma_exprs_view_push(out@, v);
                }
                out.push(v);
            }
        }
        match stmt {
            Stmt::Local { pat, .. } => match let_binding(pat) {
                Ok(name) => inner.shadow(name.name.as_str()),
                Err(_) => {}
            },
            _ => {}
        }
        i += 1;
    }
    Ok(out)
}

fn parse_stmt<'e>(cx: &ContractCtx, sc: &Scope<'e>, s: &'e Stmt, n: &mut u32) -> (r: Result<ExprIR, MidnightError>)
    ensures
        (expr_res(r), *final(n)) == read_stmt(cx@, sc@, *s, *old(n)),
    decreases s, 0nat,
{
    match s {
        Stmt::Local { pat, init } => match let_binding(pat) {
            Err(span) => Ok(unsupported(span, "complex pattern in let binding")),
            Ok(name) => match init {
                Some(value) => make_binding(name, parse_expr(cx, sc, value, n)),
                None => Ok(make_uninitialized(name)),
            },
        },
        Stmt::Expr(e) => parse_expr(cx, sc, e, n),
        Stmt::Item(span) => Ok(unsupported(*span, "item inside function body")),
        Stmt::Macro(m) => parse_macro_expr(cx, sc, m, n),
    }
}

/// Parses a macro call: `assert!` and `assert_eq!`, whose messages are
/// dropped.
fn parse_macro_expr<'e>(cx: &ContractCtx, sc: &Scope<'e>, m: &'e MacroCall, n: &mut u32) -> (r: Result<
    ExprIR,
    MidnightError,
>)
    ensures
        (expr_res(r), *final(n)) == read_macro(cx@, sc@, *m, *old(n)),
    decreases m, 0nat,
{
    proof {
        lemma_claim_smaller(*m);
    }
    match read_claim(m) {
        MacroClaim::Refused(x) => Err(x),
        MacroClaim::Nothing(e) => Ok(e),
        MacroClaim::One(cond) => {
            let plain = sc.for_macro();
            make_assert(m.path.span, parse_expr(cx, &plain, cond, n))
        }
        MacroClaim::Two(left, right) => {
            let plain = sc.for_macro();
            match parse_expr(cx, &plain, left, n) {
                Err(x) => Err(x),
                Ok(a) => make_assert_eq(m.path.span, a, parse_expr(cx, &plain, right, n)),
            }
        }
    }
}

proof fn lemma_iterations_stop(
    cx: DeclV,
    sc: ScopeV,
    span: Span,
    name: Seq<char>,
    first: u64,
    body: Seq<Stmt>,
    a: nat,
    b: nat,
    n: u32,
)
    requires
        a <= b,
        read_iterations(cx, sc, span, name, first, body, a, n).0 is Err,
    ensures
        read_iterations(cx, sc, span, name, first, body, b, n) == read_iterations(cx, sc, span, name, first, body, a, n),
    decreases b,
{
    if a < b {
        lemma_iterations_stop(cx, sc, span, name, first, body, a, (b - 1) as nat, n);
    }
}

fn parse_iterations<'e>(
    cx: &ContractCtx,
    sc: &Scope<'e>,
    span: Span,
    name: &'e str,
    first: u64,
    last: u64,
    body: &'e Vec<Stmt>,
    n: &mut u32,
) -> (r: Result<Vec<ExprIR>, MidnightError>)
    requires
        first <= last,
        last - first < MAX_UNROLL,
    ensures
        (exprs_res(r), *final(n)) == read_iterations(
            cx@,
            sc@,
            span,
            name@,
            first,
            body@,
            (last - first + 1) as nat,
            *old(n),
        ),
    decreases body, 1nat,
{
    let ghost start = *n;
    let mut out: Vec<ExprIR> = Vec::new();
    assert(exprs_view(out@) =~= seq![]);
    let count: u64 = last - first + 1;
    let mut k: u64 = 0;
    while k < count
        invariant
            k <= count,
            count == last - first + 1,
            first <= last,
            start == *old(n),
            read_iterations(cx@, sc@, span, name@, first, body@, k as nat, start) == (
                Ok::<Seq<ExprV>, ErrorV>(exprs_view(out@)),
                *n,
            ),
        decreases count - k,
    {
        let inner = sc.with_value(name, first + k);
        match parse_block_stmts(cx, &inner, body, n) {
            Err(x) => {
                proof {
                    reveal(crate::reading::block);
                    lemma_iterations_stop(cx@, sc@, span, name@, first, body@, (k + 1) as nat, count as nat, start);
                }
                return Err(x);
            }
            Ok(stmts) => {
                let block = ExprIR::Block { span, stmts };
                proof {
                    reveal(crate::reading::block);
                    lemma_exprs_view_push(out@, block);
                }
                out.push(block);
            }
        }
        k += 1;
    }
    Ok(out)
}

} // verus!
