//! What holds of every contract that parsing accepts, and of every refusal.
use crate::contract::{CircuitV, ConstructorV, HelperV, QueryV, WitnessV};
use crate::declaring::{add_fns, bodies, body_scope, contract_of, decl_of, declared, helper_of, helper_params};
use crate::declaring::{methods_of_fns, resolution_errors, resolve_body, resolve_circuits, resolve_constructors};
use crate::declaring::{resolve_helpers, resolve_nodes, resolve_queries, unresolved, with_methods, witness_methods};
use crate::declaring::{BodiesV, MethodsV, ParamsV};
use crate::error::ErrorV;
use crate::expr::{BinOp, ExprV};
use crate::helper_graph::{accepted_iff_acyclic, acyclic, call_graph};
use crate::reading::{after_stmts, any_variant, appended, arm_shapes, array, asserted, asserted_equal, binary};
use crate::reading::{binding, block, bounds, branch, called, cast, claim, direct_call, direct_field, drawn_once};
use crate::reading::{element, field_access, first_wild, get_access, get_arms, get_branch, get_call, get_if};
use crate::reading::{is_compound, lemma_claim_smaller, lemma_get_key_smaller, let_get, let_name, literal_expr};
use crate::reading::{loop_expr, macro_scope, match_expr, member_name, method_call, no_match, no_meaning, nodes_of};
use crate::reading::{opt_result, other_expr, path_enum, path_expr, payload_scope, read, read_all, read_arm};
use crate::reading::{read_block, read_body, read_chain, read_else, read_enum_match, read_fields, read_if};
use crate::reading::{read_iterations, read_macro, read_match, read_stmt, reference, returned, shadow, span_of};
use crate::reading::{struct_init, tuple, unary, uninitialized, unroll, variant_link, Bounds, Claim, DeclV, ScopeV};
use crate::reading::{Shape, Shapes};
use crate::syntax::{Arm, Expr, ExprKind, FieldValue, FnArg, FnItem, Ident, Item, ItemMod, MacroCall, Path, Span};
use crate::syntax::Stmt;
use crate::witness_free::{all_witness_free, fields_witness_free, witness_free, witness_free_helpers};
use vstd::prelude::*;

verus! {

// ---- errors are never lost

proof fn lemma_declared_errors(items: Seq<Item>, n: nat)
    ensures
        declared(items, n).ledger_seen && declared(items, n).ledger is None ==> declared(items, n).errors.len() > 0,
        declared(items, n).ledger is Some ==> declared(items, n).ledger_seen,
    decreases n,
{
    if n > 0 && n <= items.len() {
        lemma_declared_errors(items, (n - 1) as nat);
    }
}

proof fn lemma_fn_methods_errors(s: MethodsV, fns: Seq<FnItem>, n: nat)
    ensures
        s.errors.len() <= methods_of_fns(s, fns, n).errors.len(),
    decreases n,
{
    if n > 0 && n <= fns.len() {
        lemma_fn_methods_errors(s, fns, (n - 1) as nat);
    }
}

proof fn lemma_methods_errors(items: Seq<Item>, name: Seq<char>, errors: Seq<ErrorV>, n: nat)
    ensures
        errors.len() <= witness_methods(items, name, errors, n).errors.len(),
    decreases n,
{
    if n > 0 && n <= items.len() {
        let before = witness_methods(items, name, errors, (n - 1) as nat);
        lemma_methods_errors(items, name, errors, (n - 1) as nat);
        match items[n - 1] {
            Item::Impl { fns, .. } => lemma_fn_methods_errors(before, fns@, fns@.len()),
            _ => {}
        }
    }
}

proof fn lemma_add_fns(cx: DeclV, s: BodiesV, fns: Seq<FnItem>, n: nat)
    ensures
        s.errors.len() <= add_fns(cx, s, fns, n).errors.len(),
        add_fns(cx, s, fns, n).helpers == s.helpers,
    decreases n,
{
    if n > 0 && n <= fns.len() {
        lemma_add_fns(cx, s, fns, (n - 1) as nat);
    }
}

proof fn lemma_bodies(cx: DeclV, items: Seq<Item>, errors: Seq<ErrorV>, n: nat)
    ensures
        errors.len() <= bodies(cx, items, errors, n).errors.len(),
        forall|i: int|
            0 <= i < bodies(cx, items, errors, n).helpers.len() ==> all_witness_free(
                (#[trigger] bodies(cx, items, errors, n).helpers[i]).body,
                false,
            ),
    decreases n,
{
    if n > 0 && n <= items.len() {
        let before = bodies(cx, items, errors, (n - 1) as nat);
        let after = bodies(cx, items, errors, n);
        lemma_bodies(cx, items, errors, (n - 1) as nat);
        match items[n - 1] {
            Item::Impl { fns, .. } => lemma_add_fns(cx, before, fns@, fns@.len()),
            Item::Fn(f) => {
                lemma_helper_free(cx, f);
                assert forall|i: int| 0 <= i < after.helpers.len() implies all_witness_free(
                    (#[trigger] after.helpers[i]).body,
                    false,
                ) by {
                    if i < before.helpers.len() {
                        assert(after.helpers[i] == before.helpers[i]);
                    }
                }
            }
            _ => {}
        }
    }
}

// ---- witness resolution

proof fn lemma_resolved_nodes(w: Option<WitnessV>, ns: Seq<ExprV>, errors: Seq<ErrorV>, n: nat)
    ensures
        errors.len() <= resolve_nodes(w, ns, errors, n).len(),
        resolve_nodes(w, ns, errors, n).len() == 0 ==> forall|i: int|
            0 <= i < n && i < ns.len() && n <= ns.len() ==> unresolved(w, #[trigger] ns[i]) is None,
    decreases n,
{
    if n > 0 && n <= ns.len() {
        lemma_resolved_nodes(w, ns, errors, (n - 1) as nat);
    }
}

/// Every witness that a body reads or calls is declared.
pub open spec fn resolved_body(w: Option<WitnessV>, body: Seq<ExprV>) -> bool {
    let ns = nodes_of(body, body.len());
    forall|i: int| 0 <= i < ns.len() ==> unresolved(w, #[trigger] ns[i]) is None
}

proof fn lemma_resolved_body(w: Option<WitnessV>, body: Seq<ExprV>, errors: Seq<ErrorV>)
    ensures
        errors.len() <= resolve_body(w, body, errors).len(),
        resolve_body(w, body, errors).len() == 0 ==> resolved_body(w, body),
{
    reveal(resolve_body);
    let ns = nodes_of(body, body.len());
    lemma_resolved_nodes(w, ns, errors, ns.len());
}

proof fn lemma_constructors(w: Option<WitnessV>, s: Seq<ConstructorV>, errors: Seq<ErrorV>, n: nat)
    ensures
        errors.len() <= resolve_constructors(w, s, errors, n).len(),
        n <= s.len() && resolve_constructors(w, s, errors, n).len() == 0 ==> forall|i: int|
            0 <= i < n ==> resolved_body(w, (#[trigger] s[i]).body),
    decreases n,
{
    if n > 0 && n <= s.len() {
        lemma_constructors(w, s, errors, (n - 1) as nat);
        lemma_resolved_body(w, s[n - 1].body, resolve_constructors(w, s, errors, (n - 1) as nat));
    }
}

proof fn lemma_circuits(w: Option<WitnessV>, s: Seq<CircuitV>, errors: Seq<ErrorV>, n: nat)
    ensures
        errors.len() <= resolve_circuits(w, s, errors, n).len(),
        n <= s.len() && resolve_circuits(w, s, errors, n).len() == 0 ==> forall|i: int|
            0 <= i < n ==> resolved_body(w, (#[trigger] s[i]).body),
    decreases n,
{
    if n > 0 && n <= s.len() {
        lemma_circuits(w, s, errors, (n - 1) as nat);
        lemma_resolved_body(w, s[n - 1].body, resolve_circuits(w, s, errors, (n - 1) as nat));
    }
}

proof fn lemma_queries(w: Option<WitnessV>, s: Seq<QueryV>, errors: Seq<ErrorV>, n: nat)
    ensures
        errors.len() <= resolve_queries(w, s, errors, n).len(),
        n <= s.len() && resolve_queries(w, s, errors, n).len() == 0 ==> forall|i: int|
            0 <= i < n ==> resolved_body(w, (#[trigger] s[i]).body),
    decreases n,
{
    if n > 0 && n <= s.len() {
        lemma_queries(w, s, errors, (n - 1) as nat);
        lemma_resolved_body(w, s[n - 1].body, resolve_queries(w, s, errors, (n - 1) as nat));
    }
}

proof fn lemma_helpers(w: Option<WitnessV>, s: Seq<HelperV>, errors: Seq<ErrorV>, n: nat)
    ensures
        errors.len() <= resolve_helpers(w, s, errors, n).len(),
        n <= s.len() && resolve_helpers(w, s, errors, n).len() == 0 ==> forall|i: int|
            0 <= i < n ==> resolved_body(w, (#[trigger] s[i]).body),
    decreases n,
{
    if n > 0 && n <= s.len() {
        lemma_helpers(w, s, errors, (n - 1) as nat);
        lemma_resolved_body(w, s[n - 1].body, resolve_helpers(w, s, errors, (n - 1) as nat));
    }
}

proof fn lemma_resolution(w: Option<WitnessV>, b: BodiesV)
    ensures
        b.errors.len() <= resolution_errors(w, b).len(),
        resolution_errors(w, b).len() == 0 ==> forall|i: int|
            0 <= i < b.circuits.len() ==> resolved_body(w, (#[trigger] b.circuits[i]).body),
        resolution_errors(w, b).len() == 0 ==> forall|i: int|
            0 <= i < b.constructors.len() ==> resolved_body(w, (#[trigger] b.constructors[i]).body),
        resolution_errors(w, b).len() == 0 ==> forall|i: int|
            0 <= i < b.queries.len() ==> resolved_body(w, (#[trigger] b.queries[i]).body),
        resolution_errors(w, b).len() == 0 ==> forall|i: int|
            0 <= i < b.helpers.len() ==> resolved_body(w, (#[trigger] b.helpers[i]).body),
{
    let e1 = resolve_constructors(w, b.constructors, b.errors, b.constructors.len());
    let e2 = resolve_circuits(w, b.circuits, e1, b.circuits.len());
    let e3 = resolve_queries(w, b.queries, e2, b.queries.len());
    lemma_constructors(w, b.constructors, b.errors, b.constructors.len());
    lemma_circuits(w, b.circuits, e1, b.circuits.len());
    lemma_queries(w, b.queries, e2, b.queries.len());
    lemma_helpers(w, b.helpers, e3, b.helpers.len());
}

// ---- bodies read without a witnesses parameter

/// What an outcome says where no witnesses parameter is in scope.
pub open spec fn free_result(r: Result<ExprV, ErrorV>) -> bool {
    r matches Ok(e) ==> witness_free(e, false)
}

pub open spec fn free_results(r: Result<Seq<ExprV>, ErrorV>) -> bool {
    r matches Ok(es) ==> all_witness_free(es, false)
}

pub open spec fn free_option(r: Result<Option<Seq<ExprV>>, ErrorV>) -> bool {
    r matches Ok(Some(es)) ==> all_witness_free(es, false)
}

proof fn lemma_appended(before: Seq<ExprV>, r: Result<ExprV, ErrorV>)
    requires
        all_witness_free(before, false),
        free_result(r),
    ensures
        free_results(appended(before, r)),
{
    if r is Ok {
        let all = before.push(r->Ok_0);
        assert forall|i: int| 0 <= i < all.len() implies witness_free(#[trigger] all[i], false) by {
            if i < before.len() {
                assert(all[i] == before[i]);
            }
        }
    }
}

proof fn lemma_get_branch(
    span: Span,
    access_span: Span,
    v: Ident,
    field: Ident,
    key: ExprV,
    body: Seq<ExprV>,
    r: Result<Option<Seq<ExprV>>, ErrorV>,
)
    requires
        witness_free(key, false),
        all_witness_free(body, false),
        free_option(r),
    ensures
        free_result(get_branch(span, access_span, v, field, key, body, r)),
{
    reveal(get_branch);
    reveal(get_if);
    if r is Ok {
        assert(all_witness_free(seq![key], false));
        let lookup = get_access(access_span, field, "lookup"@, key);
        let contains = get_access(access_span, field, "contains"@, key);
        assert(witness_free(lookup, false));
        assert(witness_free(contains, false));
        let bind = ExprV::Let { span: v.span, name: v.name@, value: Box::new(lookup) };
        assert(witness_free(bind, false));
        let all = seq![bind] + body;
        assert forall|i: int| 0 <= i < all.len() implies witness_free(#[trigger] all[i], false) by {
            if i > 0 {
                assert(all[i] == body[i - 1]);
            }
        }
        assert(all_witness_free(all, false));
    }
}

proof fn lemma_variant_link(
    span: Span,
    path: Path,
    payload: Option<Ident>,
    scrutinee: ExprV,
    body: Seq<ExprV>,
    otherwise: Option<Seq<ExprV>>,
)
    requires
        witness_free(scrutinee, false),
        all_witness_free(body, false),
        otherwise matches Some(es) ==> all_witness_free(es, false),
    ensures
        witness_free(variant_link(span, path, payload, scrutinee, body, otherwise), false),
{
    reveal(variant_link);
    match payload {
        Some(b) => {
            let value = ExprV::EnumPayload {
                span: b.span,
                scrutinee: Box::new(scrutinee),
                enum_name: path_enum(path),
            };
            assert(witness_free(value, false));
            let bind = ExprV::Let { span: b.span, name: b.name@, value: Box::new(value) };
            assert(witness_free(bind, false));
            let all = seq![bind] + body;
            assert forall|i: int| 0 <= i < all.len() implies witness_free(#[trigger] all[i], false) by {
                if i > 0 {
                    assert(all[i] == body[i - 1]);
                }
            }
            assert(all_witness_free(all, false));
        }
        None => {
            assert(Seq::<ExprV>::empty() + body =~= body);
        }
    }
    let right = ExprV::Path { span: path.span, path: path@ };
    assert(witness_free(right, false));
    let test = ExprV::BinaryOp { span: path.span, op: BinOp::Eq, lhs: Box::new(scrutinee), rhs: Box::new(right) };
    assert(witness_free(test, false));
}

proof fn lemma_read_free(cx: DeclV, sc: ScopeV, e: Expr, n: u32)
    requires
        sc.witnesses_param is None,
    ensures
        free_result(read(cx, sc, e, n).0),
    decreases e, 1nat,
{
    match e.kind {
        ExprKind::Lit(lit) => {
            reveal(literal_expr);
        }
        ExprKind::Path(p) => {
            reveal(path_expr);
        }
        ExprKind::Binary { op, op_span, left, right } => {
            if !is_compound(op) {
                let l = read(cx, sc, *left, n);
                lemma_read_free(cx, sc, *left, n);
                if l.0 is Ok {
                    lemma_read_free(cx, sc, *right, l.1);
                    reveal(binary);
                }
            }
        }
        ExprKind::Unary { op, expr } => {
            lemma_read_free(cx, sc, *expr, n);
            reveal(unary);
        }
        ExprKind::MethodCall { receiver, method, args } => {
            let a = read_all(cx, sc, args@, args@.len(), n);
            lemma_read_all_free(cx, sc, args@, args@.len(), n);
            if a.0 is Ok {
                let parsed = a.0->Ok_0;
                reveal(direct_call);
                if direct_call(sc, *receiver, method, parsed) is None {
                    lemma_read_free(cx, sc, *receiver, a.1);
                    reveal(method_call);
                }
            }
        }
        ExprKind::Field { base, member } => {
            reveal(direct_field);
            assert(all_witness_free(seq![], false));
            if direct_field(sc, *base, member) is None {
                lemma_read_free(cx, sc, *base, n);
                reveal(field_access);
            }
        }
        ExprKind::Call { func, args } => {
            lemma_read_all_free(cx, sc, args@, args@.len(), n);
            let a = read_all(cx, sc, args@, args@.len(), n).0;
            if a is Ok {
                assert(all_witness_free(a->Ok_0, false));
            }
            reveal(called);
        }
        ExprKind::If { .. } => lemma_read_if_free(cx, sc, e, n),
        ExprKind::Block(b) => {
            lemma_read_block_free(cx, sc, b.stmts@, b.stmts@.len(), n);
            reveal(block);
        }
        ExprKind::Match { .. } => lemma_read_match_free(cx, sc, e, n),
        ExprKind::Struct { path, fields } => {
            lemma_read_fields_free(cx, sc, fields@, fields@.len(), n);
            reveal(struct_init);
        }
        ExprKind::Return(value) => match value {
            Some(v) => {
                lemma_read_free(cx, sc, *v, n);
                reveal(returned);
            }
            None => {}
        },
        ExprKind::Tuple(elems) => {
            lemma_read_all_free(cx, sc, elems@, elems@.len(), n);
            reveal(tuple);
        }
        ExprKind::Array(elems) => {
            lemma_read_all_free(cx, sc, elems@, elems@.len(), n);
            reveal(array);
        }
        ExprKind::Reference(inner) => {
            lemma_read_free(cx, sc, *inner, n);
            reveal(reference);
        }
        ExprKind::Paren(inner) => lemma_read_free(cx, sc, *inner, n),
        ExprKind::Macro(m) => lemma_read_macro_free(cx, sc, m, n),
        ExprKind::Loop => {
            reveal(loop_expr);
        }
        ExprKind::ForLoop { for_span, pat, expr, body } => {
            reveal(block);
            match bounds(sc, for_span, pat, *expr) {
                Bounds::Values(name, first, last) => lemma_read_iterations_free(
                    cx,
                    sc,
                    for_span,
                    name,
                    first,
                    body.stmts@,
                    (last - first + 1) as nat,
                    n,
                ),
                Bounds::Empty => {
                    assert(all_witness_free(seq![], false));
                }
                _ => {}
            }
        }
        ExprKind::Cast { expr, as_span, ty } => {
            lemma_read_free(cx, sc, *expr, n);
            reveal(cast);
        }
        ExprKind::Index { expr, index } => {
            lemma_read_free(cx, sc, *expr, n);
            reveal(element);
        }
        _ => {
            reveal(other_expr);
        }
    }
}

proof fn lemma_read_if_free(cx: DeclV, sc: ScopeV, e: Expr, n: u32)
    requires
        sc.witnesses_param is None,
        e.kind is If,
    ensures
        free_result(read_if(cx, sc, e, n).0),
    decreases e, 0nat,
{
    match e.kind {
        ExprKind::If { if_span, cond, then_branch, else_branch } => match let_get(sc, *cond) {
            Some((v, field, key)) => {
                lemma_get_key_smaller(sc, *cond);
                let k = read(cx, sc, key, n);
                lemma_read_free(cx, sc, key, n);
                if k.0 is Ok {
                    let inside = shadow(sc, v.name@);
                    let t = read_block(cx, inside, then_branch.stmts@, then_branch.stmts@.len(), k.1);
                    lemma_read_block_free(cx, inside, then_branch.stmts@, then_branch.stmts@.len(), k.1);
                    if t.0 is Ok {
                        let f = read_else(cx, sc, else_branch, t.1);
                        lemma_read_else_free(cx, sc, else_branch, t.1);
                        lemma_get_branch(if_span, cond.span, v, field, k.0->Ok_0, t.0->Ok_0, f.0);
                    }
                }
            }
            None => {
                let c = read(cx, sc, *cond, n);
                lemma_read_free(cx, sc, *cond, n);
                if c.0 is Ok {
                    let t = read_block(cx, sc, then_branch.stmts@, then_branch.stmts@.len(), c.1);
                    lemma_read_block_free(cx, sc, then_branch.stmts@, then_branch.stmts@.len(), c.1);
                    if t.0 is Ok {
                        lemma_read_else_free(cx, sc, else_branch, t.1);
                        reveal(branch);
                    }
                }
            }
        },
        _ => {}
    }
}

proof fn lemma_read_match_free(cx: DeclV, sc: ScopeV, e: Expr, n: u32)
    requires
        sc.witnesses_param is None,
        e.kind is Match,
    ensures
        free_result(read_match(cx, sc, e, n).0),
    decreases e, 0nat,
{
    match e.kind {
        ExprKind::Match { match_span, expr, arms } => match (get_call(sc, *expr), get_arms(arms@)) {
            (Some((field, key)), Some((v, some_first))) => {
                lemma_get_key_smaller(sc, *expr);
                let k = read(cx, sc, key, n);
                lemma_read_free(cx, sc, key, n);
                if k.0 is Ok {
                    let si: int = if some_first {
                        0
                    } else {
                        1
                    };
                    let t = read_arm(cx, shadow(sc, v.name@), arms@, si, k.1);
                    lemma_read_arm_free(cx, shadow(sc, v.name@), arms@, si, k.1);
                    if t.0 is Ok {
                        let f = read_arm(cx, sc, arms@, 1 - si, t.1);
                        lemma_read_arm_free(cx, sc, arms@, 1 - si, t.1);
                        lemma_get_branch(match_span, expr.span, v, field, k.0->Ok_0, t.0->Ok_0, opt_result(f.0));
                    }
                }
            }
            _ => match arm_shapes(cx, arms@) {
                Shapes::All(ss) => {
                    let r = read(cx, sc, *expr, n);
                    lemma_read_free(cx, sc, *expr, n);
                    if r.0 is Ok {
                        lemma_read_enum_free(
                            cx,
                            sc,
                            match_span,
                            span_of(sc, *expr),
                            arms@,
                            ss,
                            r.0->Ok_0,
                            r.1,
                        );
                    }
                }
                _ => {
                    reveal(no_match);
                }
            },
        },
        _ => {}
    }
}

proof fn lemma_read_all_free(cx: DeclV, sc: ScopeV, es: Seq<Expr>, k: nat, n: u32)
    requires
        sc.witnesses_param is None,
    ensures
        free_results(read_all(cx, sc, es, k, n).0),
    decreases es, k,
{
    if k > 0 && k <= es.len() {
        let p = read_all(cx, sc, es, (k - 1) as nat, n);
        lemma_read_all_free(cx, sc, es, (k - 1) as nat, n);
        if p.0 is Ok {
            lemma_read_free(cx, sc, es[k - 1], p.1);
            lemma_appended(p.0->Ok_0, read(cx, sc, es[k - 1], p.1).0);
        }
    }
}

proof fn lemma_read_fields_free(cx: DeclV, sc: ScopeV, fs: Seq<FieldValue>, k: nat, n: u32)
    requires
        sc.witnesses_param is None,
    ensures
        read_fields(cx, sc, fs, k, n).0 matches Ok(vs) ==> fields_witness_free(vs, false),
    decreases fs, k,
{
    if k > 0 && k <= fs.len() {
        let p = read_fields(cx, sc, fs, (k - 1) as nat, n);
        lemma_read_fields_free(cx, sc, fs, (k - 1) as nat, n);
        if p.0 is Ok {
            assert(decreases_to!(fs => fs[k - 1]));
            lemma_read_free(cx, sc, fs[k - 1].expr, p.1);
            let r = read(cx, sc, fs[k - 1].expr, p.1);
            if r.0 is Ok {
                let before = p.0->Ok_0;
                let all = before.push((member_name(fs[k - 1].member), r.0->Ok_0));
                assert forall|i: int| 0 <= i < all.len() implies witness_free((#[trigger] all[i]).1, false) by {
                    if i < before.len() {
                        assert(all[i] == before[i]);
                    }
                }
            }
        }
    }
}

proof fn lemma_read_else_free(cx: DeclV, sc: ScopeV, e: Option<Box<Expr>>, n: u32)
    requires
        sc.witnesses_param is None,
    ensures
        free_option(read_else(cx, sc, e, n).0),
    decreases e, 0nat,
{
    match e {
        None => {}
        Some(b) => lemma_read_body_free(cx, sc, *b, n),
    }
}

proof fn lemma_read_body_free(cx: DeclV, sc: ScopeV, e: Expr, n: u32)
    requires
        sc.witnesses_param is None,
    ensures
        free_results(read_body(cx, sc, e, n).0),
    decreases e, 2nat,
{
    match e.kind {
        ExprKind::Block(b) => lemma_read_block_free(cx, sc, b.stmts@, b.stmts@.len(), n),
        _ => {
            lemma_read_free(cx, sc, e, n);
            assert(all_witness_free(seq![], false));
            lemma_appended(seq![], read(cx, sc, e, n).0);
        }
    }
}

proof fn lemma_read_arm_free(cx: DeclV, sc: ScopeV, arms: Seq<Arm>, i: int, n: u32)
    requires
        sc.witnesses_param is None,
    ensures
        free_results(read_arm(cx, sc, arms, i, n).0),
    decreases arms, 0nat,
{
    if 0 <= i < arms.len() {
        assert(decreases_to!(arms => arms[i]));
        lemma_read_body_free(cx, sc, arms[i].body, n);
    }
}

proof fn lemma_after_stmts(sc: ScopeV, ss: Seq<Stmt>, n: nat)
    ensures
        after_stmts(sc, ss, n).witnesses_param == sc.witnesses_param,
    decreases n,
{
    if n > 0 && n <= ss.len() {
        lemma_after_stmts(sc, ss, (n - 1) as nat);
    }
}

proof fn lemma_read_block_free(cx: DeclV, sc: ScopeV, ss: Seq<Stmt>, k: nat, n: u32)
    requires
        sc.witnesses_param is None,
    ensures
        free_results(read_block(cx, sc, ss, k, n).0),
    decreases ss, k,
{
    if k > 0 && k <= ss.len() {
        let p = read_block(cx, sc, ss, (k - 1) as nat, n);
        lemma_read_block_free(cx, sc, ss, (k - 1) as nat, n);
        if p.0 is Ok {
            let here = after_stmts(sc, ss, (k - 1) as nat);
            lemma_after_stmts(sc, ss, (k - 1) as nat);
            lemma_read_stmt_free(cx, here, ss[k - 1], p.1);
            lemma_appended(p.0->Ok_0, read_stmt(cx, here, ss[k - 1], p.1).0);
        }
    }
}

proof fn lemma_read_stmt_free(cx: DeclV, sc: ScopeV, s: Stmt, n: u32)
    requires
        sc.witnesses_param is None,
    ensures
        free_result(read_stmt(cx, sc, s, n).0),
    decreases s, 0nat,
{
    match s {
        Stmt::Local { pat, init } => {
            reveal(binding);
            reveal(uninitialized);
            match let_name(pat) {
                Err(_) => {}
                Ok(name) => match init {
                    Some(value) => lemma_read_free(cx, sc, value, n),
                    None => {
                        assert(witness_free(no_meaning(name.span, "let binding without initializer"@), false));
                    }
                },
            }
        }
        Stmt::Expr(e) => lemma_read_free(cx, sc, e, n),
        Stmt::Item(_) => {}
        Stmt::Macro(m) => lemma_read_macro_free(cx, sc, m, n),
    }
}

proof fn lemma_read_macro_free(cx: DeclV, sc: ScopeV, m: MacroCall, n: u32)
    requires
        sc.witnesses_param is None,
    ensures
        free_result(read_macro(cx, sc, m, n).0),
    decreases m, 0nat,
{
    lemma_claim_smaller(m);
    reveal(asserted);
    reveal(asserted_equal);
    match claim(m) {
        Claim::Refused(_) => {}
        Claim::Nothing(_) => {
            reveal(claim);
        }
        Claim::One(cond) => lemma_read_free(cx, macro_scope(sc), cond, n),
        Claim::Two(left, right) => {
            let a = read(cx, macro_scope(sc), left, n);
            lemma_read_free(cx, macro_scope(sc), left, n);
            if a.0 is Ok {
                lemma_read_free(cx, macro_scope(sc), right, a.1);
            }
        }
    }
}

proof fn lemma_read_iterations_free(
    cx: DeclV,
    sc: ScopeV,
    span: Span,
    name: Seq<char>,
    first: u64,
    body: Seq<Stmt>,
    k: nat,
    n: u32,
)
    requires
        sc.witnesses_param is None,
    ensures
        free_results(read_iterations(cx, sc, span, name, first, body, k, n).0),
    decreases body, body.len() + 1 + k,
{
    if k > 0 {
        let p = read_iterations(cx, sc, span, name, first, body, (k - 1) as nat, n);
        lemma_read_iterations_free(cx, sc, span, name, first, body, (k - 1) as nat, n);
        if p.0 is Ok {
            let inside = unroll(sc, name, (first + k - 1) as u64);
            let r = read_block(cx, inside, body, body.len(), p.1);
            lemma_read_block_free(cx, inside, body, body.len(), p.1);
            reveal(block);
            lemma_appended(p.0->Ok_0, block(span, r.0));
        }
    }
}

proof fn lemma_read_enum_free(
    cx: DeclV,
    sc: ScopeV,
    match_span: Span,
    scrutinee_span: Span,
    arms: Seq<Arm>,
    ss: Seq<Shape>,
    scrutinee: ExprV,
    n: u32,
)
    requires
        sc.witnesses_param is None,
        witness_free(scrutinee, false),
    ensures
        free_result(read_enum_match(cx, sc, match_span, scrutinee_span, arms, ss, scrutinee, n).0),
    decreases arms, arms.len() + 2,
{
    let drawn = drawn_once(scrutinee, scrutinee_span, n);
    let subject = match drawn {
        Some((_, v)) => v,
        None => scrutinee,
    };
    let n1 = match drawn {
        Some(_) => n.wrapping_add(1),
        None => n,
    };
    let d = match first_wild(ss, ss.len()) {
        Some(i) => {
            let w = read_arm(cx, sc, arms, i, n1);
            (opt_result(w.0), w.1)
        }
        None => (Ok(None), n1),
    };
    match first_wild(ss, ss.len()) {
        Some(i) => lemma_read_arm_free(cx, sc, arms, i, n1),
        None => {}
    }
    reveal(no_match);
    if d.0 is Ok && any_variant(ss) {
        let default = d.0->Ok_0;
        assert(witness_free(subject, false));
        lemma_read_chain_free(cx, sc, match_span, arms, ss, subject, arms.len(), default, d.1);
        reveal(match_expr);
        let c = read_chain(cx, sc, match_span, arms, ss, subject, arms.len(), default, d.1);
        if c.0 is Ok && c.0->Ok_0 is Some && (c.0->Ok_0->0).len() > 0 {
            let links = c.0->Ok_0->0;
            let last = links[links.len() - 1];
            assert(witness_free(last, false));
            match drawn {
                Some((draw, _)) => {
                    assert(witness_free(draw, false));
                    let stmts = seq![draw, last];
                    assert(all_witness_free(stmts, false));
                }
                None => {}
            }
        }
    }
}

proof fn lemma_read_chain_free(
    cx: DeclV,
    sc: ScopeV,
    match_span: Span,
    arms: Seq<Arm>,
    ss: Seq<Shape>,
    subject: ExprV,
    k: nat,
    otherwise: Option<Seq<ExprV>>,
    n: u32,
)
    requires
        sc.witnesses_param is None,
        witness_free(subject, false),
        otherwise matches Some(es) ==> all_witness_free(es, false),
    ensures
        free_option(read_chain(cx, sc, match_span, arms, ss, subject, k, otherwise, n).0),
    decreases arms, k + 1,
{
    if k > 0 && k <= ss.len() {
        match ss[k - 1] {
            Shape::Wild => lemma_read_chain_free(
                cx,
                sc,
                match_span,
                arms,
                ss,
                subject,
                (k - 1) as nat,
                otherwise,
                n,
            ),
            Shape::Variant { path, payload } => {
                let r = read_arm(cx, payload_scope(sc, payload), arms, k - 1, n);
                lemma_read_arm_free(cx, payload_scope(sc, payload), arms, k - 1, n);
                if r.0 is Ok {
                    let body = r.0->Ok_0;
                    lemma_variant_link(match_span, path, payload, subject, body, otherwise);
                    let link = variant_link(match_span, path, payload, subject, body, otherwise);
                    assert(all_witness_free(seq![link], false));
                    lemma_read_chain_free(
                        cx,
                        sc,
                        match_span,
                        arms,
                        ss,
                        subject,
                        (k - 1) as nat,
                        Some(seq![link]),
                        r.1,
                    );
                }
            }
        }
    }
}

proof fn lemma_helper_free(cx: DeclV, f: FnItem)
    ensures
        helper_of(cx, f) matches Some(h) ==> all_witness_free(h.body, false),
{
    reveal(helper_of);
    match helper_params(f.sig.inputs@, f.sig.inputs@.len()) {
        Some(params) => {
            let p = ParamsV { witnesses_param: None, params };
            lemma_read_block_free(cx, body_scope(p), f.block.stmts@, f.block.stmts@.len(), 0);
        }
        None => {}
    }
}

// ---- the laws

/// A contract is refused only with at least one diagnostic.
pub proof fn refusals_have_errors(m: ItemMod)
    ensures
        contract_of(m) matches Err(errors) ==> errors.len() > 0,
{
    match m.items {
        None => {}
        Some(items) => {
            let found = declared(items@, items@.len());
            let s = with_methods(found, items@);
            let b = bodies(decl_of(s), items@, s.errors, items@.len());
            lemma_declared_errors(items@, items@.len());
            if found.witnesses is Some {
                lemma_methods_errors(items@, found.witnesses->0.name, found.errors, items@.len());
            }
            lemma_bodies(decl_of(s), items@, s.errors, items@.len());
            lemma_resolution(s.witnesses, b);
        }
    }
}

/// The helpers of an accepted contract draw no witness value.
pub proof fn accepted_helpers_draw_no_witness(m: ItemMod)
    ensures
        contract_of(m) matches Ok(c) ==> witness_free_helpers(c),
{
    match m.items {
        None => {}
        Some(items) => {
            let s = with_methods(declared(items@, items@.len()), items@);
            lemma_bodies(decl_of(s), items@, s.errors, items@.len());
        }
    }
}

proof fn lemma_owned(inputs: Seq<FnArg>, n: nat)
    ensures
        helper_params(inputs, n) matches Some(ps) ==> forall|j: int|
            0 <= j < ps.len() ==> !((#[trigger] ps[j]).ty.kind is Reference),
    decreases n,
{
    if n > 0 && n <= inputs.len() {
        lemma_owned(inputs, (n - 1) as nat);
    }
}

/// Whether a helper takes owned values only, and so no borrowed witnesses.
pub open spec fn takes_owned(h: HelperV) -> bool {
    forall|j: int| 0 <= j < h.params.len() ==> !((#[trigger] h.params[j]).ty.kind is Reference)
}

proof fn lemma_owned_bodies(cx: DeclV, items: Seq<Item>, errors: Seq<ErrorV>, n: nat)
    ensures
        forall|i: int|
            0 <= i < bodies(cx, items, errors, n).helpers.len() ==> takes_owned(
                #[trigger] bodies(cx, items, errors, n).helpers[i],
            ),
    decreases n,
{
    if n > 0 && n <= items.len() {
        let before = bodies(cx, items, errors, (n - 1) as nat);
        let after = bodies(cx, items, errors, n);
        lemma_owned_bodies(cx, items, errors, (n - 1) as nat);
        match items[n - 1] {
            Item::Impl { fns, .. } => lemma_add_fns(cx, before, fns@, fns@.len()),
            Item::Fn(f) => {
                reveal(helper_of);
                lemma_owned(f.sig.inputs@, f.sig.inputs@.len());
                assert forall|i: int| 0 <= i < after.helpers.len() implies takes_owned(
                    #[trigger] after.helpers[i],
                ) by {
                    if i < before.helpers.len() {
                        assert(after.helpers[i] == before.helpers[i]);
                    }
                }
            }
            _ => {}
        }
    }
}

/// The helpers of an accepted contract take owned values: none is handed the
/// witnesses that circuits and constructors borrow.
pub proof fn accepted_helpers_take_owned_values(m: ItemMod, i: int)
    ensures
        contract_of(m) matches Ok(c) ==> (0 <= i < c.helpers.len() ==> takes_owned(c.helpers[i])),
{
    match m.items {
        None => {}
        Some(items) => {
            let s = with_methods(declared(items@, items@.len()), items@);
            lemma_owned_bodies(decl_of(s), items@, s.errors, items@.len());
        }
    }
}

/// No helper of an accepted contract reaches itself.
pub proof fn accepted_helpers_are_acyclic(m: ItemMod)
    ensures
        contract_of(m) matches Ok(c) ==> acyclic(call_graph(c.helpers)),
{
    match m.items {
        None => {}
        Some(items) => {
            let s = with_methods(declared(items@, items@.len()), items@);
            let b = bodies(decl_of(s), items@, s.errors, items@.len());
            accepted_iff_acyclic(b.helpers);
        }
    }
}

/// Every witness that a circuit of an accepted contract reads or calls is
/// declared by the witnesses struct.
pub proof fn accepted_circuits_read_declared_witnesses(m: ItemMod, i: int)
    ensures
        contract_of(m) matches Ok(c) && 0 <= i < c.circuits.len() ==> resolved_body(
            contract_of(m)->Ok_0.witnesses,
            contract_of(m)->Ok_0.circuits[i].body,
        ),
{
    match m.items {
        None => {}
        Some(items) => {
            let s = with_methods(declared(items@, items@.len()), items@);
            let b = bodies(decl_of(s), items@, s.errors, items@.len());
            lemma_resolution(s.witnesses, b);
        }
    }
}

/// Every witness that a constructor of an accepted contract reads or calls is
/// declared by the witnesses struct.
pub proof fn accepted_constructors_read_declared_witnesses(m: ItemMod, i: int)
    ensures
        contract_of(m) matches Ok(c) && 0 <= i < c.constructors.len() ==> resolved_body(
            contract_of(m)->Ok_0.witnesses,
            contract_of(m)->Ok_0.constructors[i].body,
        ),
{
    match m.items {
        None => {}
        Some(items) => {
            let s = with_methods(declared(items@, items@.len()), items@);
            let b = bodies(decl_of(s), items@, s.errors, items@.len());
            lemma_resolution(s.witnesses, b);
        }
    }
}

/// Every witness that a query of an accepted contract reads or calls is
/// declared by the witnesses struct.
pub proof fn accepted_queries_read_declared_witnesses(m: ItemMod, i: int)
    ensures
        contract_of(m) matches Ok(c) && 0 <= i < c.queries.len() ==> resolved_body(
            contract_of(m)->Ok_0.witnesses,
            contract_of(m)->Ok_0.queries[i].body,
        ),
{
    match m.items {
        None => {}
        Some(items) => {
            let s = with_methods(declared(items@, items@.len()), items@);
            let b = bodies(decl_of(s), items@, s.errors, items@.len());
            lemma_resolution(s.witnesses, b);
        }
    }
}

/// Every witness that a helper of an accepted contract names is declared by
/// the witnesses struct.
pub proof fn accepted_helpers_read_declared_witnesses(m: ItemMod, i: int)
    ensures
        contract_of(m) matches Ok(c) && 0 <= i < c.helpers.len() ==> resolved_body(
            contract_of(m)->Ok_0.witnesses,
            contract_of(m)->Ok_0.helpers[i].body,
        ),
{
    match m.items {
        None => {}
        Some(items) => {
            let s = with_methods(declared(items@, items@.len()), items@);
            let b = bodies(decl_of(s), items@, s.errors, items@.len());
            lemma_resolution(s.witnesses, b);
        }
    }
}

} // verus!
