//! Reading a body looks declarations up by name: it does not depend on the
//! order in which enums and witness methods are declared.
use crate::contract::lookup;
use crate::declaring::{add_fns, bodies, circuit_of, constructor_of, fn_body, helper_of, query_of, BodiesV};
use crate::error::ErrorV;
use crate::expr::ExprV;
use crate::reading::{after_stmts, any_variant, arm_shapes, bounds, cast, claim, drawn_once, first_method, first_wild};
use crate::reading::{get_arms, get_call, is_compound, lemma_claim_smaller, lemma_get_key_smaller, let_get};
use crate::reading::{macro_scope, named_enum_with, opt_result, payload_scope, read, read_all, read_arm, read_block};
use crate::reading::{read_body, read_chain, read_else, read_enum_match, read_fields, read_if, read_iterations};
use crate::reading::{read_macro, read_match, read_stmt, shadow, shapes, span_of, unroll, variant_link, width_of};
use crate::reading::{Bounds, Claim, DeclV, ScopeV, Shape, Shapes};
use crate::syntax::{Arm, Expr, ExprKind, FieldValue, FnItem, Item, MacroCall, Span, Stmt};
use vstd::prelude::*;

verus! {

/// Two sets of declarations give the same for every name.
pub open spec fn same_lookups(p: DeclV, q: DeclV) -> bool {
    &&& p.ledger == q.ledger
    &&& match (p.witnesses, q.witnesses) {
        (None, None) => true,
        (Some(v), Some(w)) => {
            &&& v.name == w.name
            &&& v.fields == w.fields
            &&& forall|name: Seq<char>| #[trigger]
                first_method(v.methods, name, v.methods.len()) == first_method(w.methods, name, w.methods.len())
        }
        _ => false,
    }
    &&& forall|name: Seq<char>| #[trigger] lookup(p.enums, name) == lookup(q.enums, name)
}

proof fn lemma_width_alike(p: DeclV, q: DeclV, sc: ScopeV, e: ExprV)
    requires
        same_lookups(p, q),
    ensures
        width_of(p, sc, e) == width_of(q, sc, e),
    decreases e,
{
    match e {
        ExprV::MethodCall { receiver, .. } => lemma_width_alike(p, q, sc, *receiver),
        ExprV::Reference { expr, .. } => lemma_width_alike(p, q, sc, *expr),
        ExprV::Disclose { value, .. } => lemma_width_alike(p, q, sc, *value),
        ExprV::WitnessCall { name, .. } => match (p.witnesses, q.witnesses) {
            (Some(v), Some(w)) => {
                assert(first_method(v.methods, name, v.methods.len()) == first_method(w.methods, name, w.methods.len()));
            }
            _ => {}
        },
        _ => {}
    }
}

proof fn lemma_named_alike(p: DeclV, q: DeclV, arms: Seq<Arm>, name: Seq<char>, n: nat)
    requires
        same_lookups(p, q),
    ensures
        named_enum_with(p, arms, name, n) == named_enum_with(q, arms, name, n),
    decreases n,
{
    if n > 0 && n <= arms.len() {
        lemma_named_alike(p, q, arms, name, (n - 1) as nat);
    }
}

proof fn lemma_shapes_alike(p: DeclV, q: DeclV, arms: Seq<Arm>, n: nat)
    requires
        same_lookups(p, q),
    ensures
        shapes(p, arms, n) == shapes(q, arms, n),
    decreases n,
{
    if n > 0 && n <= arms.len() {
        lemma_shapes_alike(p, q, arms, (n - 1) as nat);
        assert forall|name: Seq<char>| #[trigger]
            named_enum_with(p, arms, name, arms.len()) == named_enum_with(q, arms, name, arms.len()) by {
            lemma_named_alike(p, q, arms, name, arms.len());
        }
    }
}

proof fn lemma_read_alike(p: DeclV, q: DeclV, sc: ScopeV, e: Expr, n: u32)
    requires
        same_lookups(p, q),
    ensures
        read(p, sc, e, n) == read(q, sc, e, n),
    decreases e, 1nat,
{
    match e.kind {
        ExprKind::Binary { op, left, right, .. } => {
            if !is_compound(op) {
                lemma_read_alike(p, q, sc, *left, n);
                lemma_read_alike(p, q, sc, *right, read(p, sc, *left, n).1);
            }
        }
        ExprKind::Unary { expr, .. } => lemma_read_alike(p, q, sc, *expr, n),
        ExprKind::MethodCall { receiver, args, .. } => {
            lemma_read_all_alike(p, q, sc, args@, args@.len(), n);
            lemma_read_alike(p, q, sc, *receiver, read_all(p, sc, args@, args@.len(), n).1);
        }
        ExprKind::Field { base, .. } => lemma_read_alike(p, q, sc, *base, n),
        ExprKind::Call { args, .. } => lemma_read_all_alike(p, q, sc, args@, args@.len(), n),
        ExprKind::If { .. } => lemma_read_if_alike(p, q, sc, e, n),
        ExprKind::Block(b) => lemma_read_block_alike(p, q, sc, b.stmts@, b.stmts@.len(), n),
        ExprKind::Match { .. } => lemma_read_match_alike(p, q, sc, e, n),
        ExprKind::Struct { fields, .. } => lemma_read_fields_alike(p, q, sc, fields@, fields@.len(), n),
        ExprKind::Return(value) => match value {
            Some(v) => lemma_read_alike(p, q, sc, *v, n),
            None => {}
        },
        ExprKind::Tuple(elems) => lemma_read_all_alike(p, q, sc, elems@, elems@.len(), n),
        ExprKind::Array(elems) => lemma_read_all_alike(p, q, sc, elems@, elems@.len(), n),
        ExprKind::Reference(inner) => lemma_read_alike(p, q, sc, *inner, n),
        ExprKind::Paren(inner) => lemma_read_alike(p, q, sc, *inner, n),
        ExprKind::Macro(m) => lemma_read_macro_alike(p, q, sc, m, n),
        ExprKind::ForLoop { for_span, pat, expr, body } => match bounds(sc, for_span, pat, *expr) {
            Bounds::Values(name, first, last) => lemma_read_iterations_alike(
                p,
                q,
                sc,
                for_span,
                name,
                first,
                body.stmts@,
                (last - first + 1) as nat,
                n,
            ),
            _ => {}
        },
        ExprKind::Cast { expr, .. } => {
            lemma_read_alike(p, q, sc, *expr, n);
            reveal(cast);
            match read(p, sc, *expr, n).0 {
                Ok(inner) => lemma_width_alike(p, q, sc, inner),
                Err(_) => {}
            }
        }
        ExprKind::Index { expr, .. } => lemma_read_alike(p, q, sc, *expr, n),
        _ => {}
    }
}

proof fn lemma_read_if_alike(p: DeclV, q: DeclV, sc: ScopeV, e: Expr, n: u32)
    requires
        same_lookups(p, q),
        e.kind is If,
    ensures
        read_if(p, sc, e, n) == read_if(q, sc, e, n),
    decreases e, 0nat,
{
    match e.kind {
        ExprKind::If { cond, then_branch, else_branch, .. } => {
            let stmts = then_branch.stmts@;
            match let_get(sc, *cond) {
                Some((v, field, key)) => {
                    lemma_get_key_smaller(sc, *cond);
                    let inside = shadow(sc, v.name@);
                    let k = read(p, sc, key, n);
                    let t = read_block(p, inside, stmts, stmts.len(), k.1);
                    lemma_read_alike(p, q, sc, key, n);
                    lemma_read_block_alike(p, q, inside, stmts, stmts.len(), k.1);
                    lemma_read_else_alike(p, q, sc, else_branch, t.1);
                }
                None => {
                    let k = read(p, sc, *cond, n);
                    let t = read_block(p, sc, stmts, stmts.len(), k.1);
                    lemma_read_alike(p, q, sc, *cond, n);
                    lemma_read_block_alike(p, q, sc, stmts, stmts.len(), k.1);
                    lemma_read_else_alike(p, q, sc, else_branch, t.1);
                }
            }
        }
        _ => {}
    }
}

proof fn lemma_read_match_alike(p: DeclV, q: DeclV, sc: ScopeV, e: Expr, n: u32)
    requires
        same_lookups(p, q),
        e.kind is Match,
    ensures
        read_match(p, sc, e, n) == read_match(q, sc, e, n),
    decreases e, 0nat,
{
    match e.kind {
        ExprKind::Match { match_span, expr, arms } => match (get_call(sc, *expr), get_arms(arms@)) {
            (Some((field, key)), Some((v, some_first))) => {
                lemma_get_key_smaller(sc, *expr);
                let si: int = if some_first {
                    0
                } else {
                    1
                };
                let inside = shadow(sc, v.name@);
                let k = read(p, sc, key, n);
                let t = read_arm(p, inside, arms@, si, k.1);
                lemma_read_alike(p, q, sc, key, n);
                lemma_read_arm_alike(p, q, inside, arms@, si, k.1);
                lemma_read_arm_alike(p, q, sc, arms@, 1 - si, t.1);
            }
            _ => {
                reveal(arm_shapes);
                lemma_shapes_alike(p, q, arms@, arms@.len());
                match arm_shapes(p, arms@) {
                    Shapes::All(ss) => {
                        let r = read(p, sc, *expr, n);
                        lemma_read_alike(p, q, sc, *expr, n);
                        if r.0 is Ok {
                            lemma_read_enum_alike(
                                p,
                                q,
                                sc,
                                match_span,
                                span_of(sc, *expr),
                                arms@,
                                ss,
                                r.0->Ok_0,
                                r.1,
                            );
                        }
                    }
                    _ => {}
                }
            }
        },
        _ => {}
    }
}

proof fn lemma_read_all_alike(p: DeclV, q: DeclV, sc: ScopeV, es: Seq<Expr>, k: nat, n: u32)
    requires
        same_lookups(p, q),
    ensures
        read_all(p, sc, es, k, n) == read_all(q, sc, es, k, n),
    decreases es, k,
{
    if k > 0 && k <= es.len() {
        lemma_read_all_alike(p, q, sc, es, (k - 1) as nat, n);
        lemma_read_alike(p, q, sc, es[k - 1], read_all(p, sc, es, (k - 1) as nat, n).1);
    }
}

proof fn lemma_read_fields_alike(p: DeclV, q: DeclV, sc: ScopeV, fs: Seq<FieldValue>, k: nat, n: u32)
    requires
        same_lookups(p, q),
    ensures
        read_fields(p, sc, fs, k, n) == read_fields(q, sc, fs, k, n),
    decreases fs, k,
{
    if k > 0 && k <= fs.len() {
        lemma_read_fields_alike(p, q, sc, fs, (k - 1) as nat, n);
        assert(decreases_to!(fs => fs[k - 1]));
        lemma_read_alike(p, q, sc, fs[k - 1].expr, read_fields(p, sc, fs, (k - 1) as nat, n).1);
    }
}

proof fn lemma_read_else_alike(p: DeclV, q: DeclV, sc: ScopeV, e: Option<Box<Expr>>, n: u32)
    requires
        same_lookups(p, q),
    ensures
        read_else(p, sc, e, n) == read_else(q, sc, e, n),
    decreases e, 0nat,
{
    match e {
        None => {}
        Some(b) => lemma_read_body_alike(p, q, sc, *b, n),
    }
}

proof fn lemma_read_body_alike(p: DeclV, q: DeclV, sc: ScopeV, e: Expr, n: u32)
    requires
        same_lookups(p, q),
    ensures
        read_body(p, sc, e, n) == read_body(q, sc, e, n),
    decreases e, 2nat,
{
    match e.kind {
        ExprKind::Block(b) => lemma_read_block_alike(p, q, sc, b.stmts@, b.stmts@.len(), n),
        _ => lemma_read_alike(p, q, sc, e, n),
    }
}

proof fn lemma_read_arm_alike(p: DeclV, q: DeclV, sc: ScopeV, arms: Seq<Arm>, i: int, n: u32)
    requires
        same_lookups(p, q),
    ensures
        read_arm(p, sc, arms, i, n) == read_arm(q, sc, arms, i, n),
    decreases arms, 0nat,
{
    if 0 <= i < arms.len() {
        assert(decreases_to!(arms => arms[i]));
        lemma_read_body_alike(p, q, sc, arms[i].body, n);
    }
}

pub(crate) proof fn lemma_read_block_alike(p: DeclV, q: DeclV, sc: ScopeV, ss: Seq<Stmt>, k: nat, n: u32)
    requires
        same_lookups(p, q),
    ensures
        read_block(p, sc, ss, k, n) == read_block(q, sc, ss, k, n),
    decreases ss, k,
{
    if k > 0 && k <= ss.len() {
        lemma_read_block_alike(p, q, sc, ss, (k - 1) as nat, n);
        let here = after_stmts(sc, ss, (k - 1) as nat);
        lemma_read_stmt_alike(p, q, here, ss[k - 1], read_block(p, sc, ss, (k - 1) as nat, n).1);
    }
}

proof fn lemma_read_stmt_alike(p: DeclV, q: DeclV, sc: ScopeV, s: Stmt, n: u32)
    requires
        same_lookups(p, q),
    ensures
        read_stmt(p, sc, s, n) == read_stmt(q, sc, s, n),
    decreases s, 0nat,
{
    match s {
        Stmt::Local { init, .. } => match init {
            Some(value) => lemma_read_alike(p, q, sc, value, n),
            None => {}
        },
        Stmt::Expr(e) => lemma_read_alike(p, q, sc, e, n),
        Stmt::Item(_) => {}
        Stmt::Macro(m) => lemma_read_macro_alike(p, q, sc, m, n),
    }
}

proof fn lemma_read_macro_alike(p: DeclV, q: DeclV, sc: ScopeV, m: MacroCall, n: u32)
    requires
        same_lookups(p, q),
    ensures
        read_macro(p, sc, m, n) == read_macro(q, sc, m, n),
    decreases m, 0nat,
{
    lemma_claim_smaller(m);
    match claim(m) {
        Claim::One(cond) => lemma_read_alike(p, q, macro_scope(sc), cond, n),
        Claim::Two(left, right) => {
            lemma_read_alike(p, q, macro_scope(sc), left, n);
            lemma_read_alike(p, q, macro_scope(sc), right, read(p, macro_scope(sc), left, n).1);
        }
        _ => {}
    }
}

proof fn lemma_read_iterations_alike(
    p: DeclV,
    q: DeclV,
    sc: ScopeV,
    span: Span,
    name: Seq<char>,
    first: u64,
    body: Seq<Stmt>,
    k: nat,
    n: u32,
)
    requires
        same_lookups(p, q),
    ensures
        read_iterations(p, sc, span, name, first, body, k, n) == read_iterations(q, sc, span, name, first, body, k, n),
    decreases body, body.len() + 1 + k,
{
    if k > 0 {
        let before = read_iterations(p, sc, span, name, first, body, (k - 1) as nat, n);
        lemma_read_iterations_alike(p, q, sc, span, name, first, body, (k - 1) as nat, n);
        lemma_read_block_alike(p, q, unroll(sc, name, (first + k - 1) as u64), body, body.len(), before.1);
    }
}

proof fn lemma_read_enum_alike(
    p: DeclV,
    q: DeclV,
    sc: ScopeV,
    match_span: Span,
    scrutinee_span: Span,
    arms: Seq<Arm>,
    ss: Seq<Shape>,
    scrutinee: ExprV,
    n: u32,
)
    requires
        same_lookups(p, q),
    ensures
        read_enum_match(p, sc, match_span, scrutinee_span, arms, ss, scrutinee, n) == read_enum_match(
            q,
            sc,
            match_span,
            scrutinee_span,
            arms,
            ss,
            scrutinee,
            n,
        ),
    decreases arms, arms.len() + 2,
{
    let drawn = drawn_once(scrutinee, scrutinee_span, n);
    let subject = match drawn {
        Some((_, v)) => v,
        None => scrutinee,
    };
    let n1 = match drawn {
        Some(_) => n.wrapping_add(1),
        None => n,
    };
    let default = match first_wild(ss, ss.len()) {
        Some(i) => {
            let w = read_arm(p, sc, arms, i, n1);
            (opt_result(w.0), w.1)
        }
        None => (Ok(None), n1),
    };
    match first_wild(ss, ss.len()) {
        Some(i) => lemma_read_arm_alike(p, q, sc, arms, i, n1),
        None => {}
    }
    if default.0 is Ok && any_variant(ss) {
        lemma_read_chain_alike(p, q, sc, match_span, arms, ss, subject, arms.len(), default.0->Ok_0, default.1);
    }
}

proof fn lemma_read_chain_alike(
    p: DeclV,
    q: DeclV,
    sc: ScopeV,
    match_span: Span,
    arms: Seq<Arm>,
    ss: Seq<Shape>,
    subject: ExprV,
    k: nat,
    otherwise: Option<Seq<ExprV>>,
    n: u32,
)
    requires
        same_lookups(p, q),
    ensures
        read_chain(p, sc, match_span, arms, ss, subject, k, otherwise, n) == read_chain(
            q,
            sc,
            match_span,
            arms,
            ss,
            subject,
            k,
            otherwise,
            n,
        ),
    decreases arms, k + 1,
{
    if k > 0 && k <= ss.len() {
        let m = (k - 1) as nat;
        match ss[k - 1] {
            Shape::Wild => lemma_read_chain_alike(p, q, sc, match_span, arms, ss, subject, m, otherwise, n),
            Shape::Variant { path, payload } => {
                let inside = payload_scope(sc, payload);
                let r = read_arm(p, inside, arms, k - 1, n);
                lemma_read_arm_alike(p, q, inside, arms, k - 1, n);
                if r.0 is Ok {
                    let link = variant_link(match_span, path, payload, subject, r.0->Ok_0, otherwise);
                    lemma_read_chain_alike(p, q, sc, match_span, arms, ss, subject, m, Some(seq![link]), r.1);
                }
            }
        }
    }
}

// ---- functions

proof fn lemma_fn_alike(p: DeclV, q: DeclV, f: FnItem)
    requires
        same_lookups(p, q),
    ensures
        constructor_of(p, f) == constructor_of(q, f),
        circuit_of(p, f) == circuit_of(q, f),
        query_of(p, f) == query_of(q, f),
        helper_of(p, f) == helper_of(q, f),
{
    reveal(constructor_of);
    reveal(circuit_of);
    reveal(query_of);
    reveal(helper_of);
    assert forall|params: crate::declaring::ParamsV| #[trigger] fn_body(p, f, params) == fn_body(q, f, params) by {
        lemma_read_block_alike(
            p,
            q,
            crate::declaring::body_scope(params),
            f.block.stmts@,
            f.block.stmts@.len(),
            0,
        );
    }
}

proof fn lemma_fns_alike(p: DeclV, q: DeclV, s: BodiesV, fns: Seq<FnItem>, n: nat)
    requires
        same_lookups(p, q),
    ensures
        add_fns(p, s, fns, n) == add_fns(q, s, fns, n),
    decreases n,
{
    if n > 0 && n <= fns.len() {
        lemma_fns_alike(p, q, s, fns, (n - 1) as nat);
        lemma_fn_alike(p, q, fns[n - 1]);
    }
}

/// The functions that a module's items hold depend on its declarations only
/// through what they give for each name.
pub proof fn bodies_look_up_by_name(p: DeclV, q: DeclV, items: Seq<Item>, errors: Seq<ErrorV>, n: nat)
    requires
        same_lookups(p, q),
    ensures
        bodies(p, items, errors, n) == bodies(q, items, errors, n),
    decreases n,
{
    if n > 0 && n <= items.len() {
        bodies_look_up_by_name(p, q, items, errors, (n - 1) as nat);
        let before = bodies(p, items, errors, (n - 1) as nat);
        match items[n - 1] {
            Item::Impl { fns, .. } => lemma_fns_alike(p, q, before, fns@, fns@.len()),
            Item::Fn(f) => lemma_fn_alike(p, q, f),
            _ => {}
        }
    }
}

} // verus!
