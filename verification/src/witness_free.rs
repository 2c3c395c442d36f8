//! Expressions that draw no witness value.
use crate::contract::ContractV;
use crate::emission::{find_helper, fresh_name, renamed, renamed_fields, renamed_list};
use crate::expr::{AssertV, ExprV};
use crate::lowering::{evaluation_order, witness_key};
use crate::private_events::{walk, walk_fields, walk_list, EventV, TrackerV};
use vstd::prelude::*;

verus! {

// ---- names and expressions that hold no witness

/// A name that no witness field's wire is kept under.
pub open spec fn ordinary_name(name: Seq<char>) -> bool {
    forall|f: Seq<char>| name != #[trigger] witness_key(f)
}

/// No witness value is drawn in `e`; with `plain`, every name that it binds is
/// a plain one.
pub open spec fn witness_free(e: ExprV, plain: bool) -> bool
    decreases e, 0nat,
{
    match e {
        ExprV::WitnessAccess { .. } => false,
        ExprV::WitnessCall { .. } => false,
        ExprV::LedgerAccess { args, .. } => all_witness_free(args, plain),
        ExprV::FnCall { args, .. } => all_witness_free(args, plain),
        ExprV::MethodCall { receiver, args, .. } => witness_free(*receiver, plain) && all_witness_free(args, plain),
        ExprV::BinaryOp { lhs, rhs, .. } => witness_free(*lhs, plain) && witness_free(*rhs, plain),
        ExprV::UnaryOp { expr, .. } => witness_free(*expr, plain),
        ExprV::Reference { expr, .. } => witness_free(*expr, plain),
        ExprV::Disclose { value, .. } => witness_free(*value, plain),
        ExprV::Let { name, value, .. } => witness_free(*value, plain) && (plain ==> ordinary_name(name)),
        ExprV::Block { stmts, .. } => all_witness_free(stmts, plain),
        ExprV::Assert { kind, .. } => match kind {
            AssertV::Assert(c) => witness_free(*c, plain),
            AssertV::AssertEq(l, r) => witness_free(*l, plain) && witness_free(*r, plain),
        },
        ExprV::If { cond, then_branch, else_branch, .. } => witness_free(*cond, plain) && all_witness_free(
            then_branch,
            plain,
        ) && (match else_branch {
            Some(eb) => all_witness_free(eb, plain),
            None => true,
        }),
        ExprV::EnumPayload { scrutinee, .. } => witness_free(*scrutinee, plain),
        ExprV::Index { array, .. } => witness_free(*array, plain),
        ExprV::Tuple { elements, .. } => all_witness_free(elements, plain),
        ExprV::ArrayLit { elements, .. } => all_witness_free(elements, plain),
        ExprV::StructInit { fields, .. } => fields_witness_free(fields, plain),
        ExprV::Return { value, .. } => match value {
            Some(v) => witness_free(*v, plain),
            None => true,
        },
        _ => true,
    }
}

pub open spec fn all_witness_free(es: Seq<ExprV>, plain: bool) -> bool
    decreases es, 0nat,
{
    forall|i: int| 0 <= i < es.len() ==> witness_free(#[trigger] es[i], plain)
}

pub open spec fn fields_witness_free(fs: Seq<(Seq<char>, ExprV)>, plain: bool) -> bool
    decreases fs, 0nat,
{
    forall|i: int| 0 <= i < fs.len() ==> witness_free((#[trigger] fs[i]).1, plain)
}

/// No helper draws a witness value.
pub open spec fn witness_free_helpers(cx: ContractV) -> bool {
    forall|i: int| 0 <= i < cx.helpers.len() ==> all_witness_free((#[trigger] cx.helpers[i]).body, false)
}

pub(crate) proof fn lemma_fresh_is_plain(counter: u32, seq: u32, name: Seq<char>)
    ensures
        ordinary_name(fresh_name(counter, seq, name)),
{
    let fresh = fresh_name(counter, seq, name);
    reveal_strlit("__h");
    reveal_strlit("witness.");
    assert(fresh[0] == '_');
    assert forall|f: Seq<char>| fresh != #[trigger] witness_key(f) by {
        assert(witness_key(f)[0] == 'w');
    }
}

pub(crate) proof fn lemma_keys_differ(f: Seq<char>, g: Seq<char>)
    ensures
        witness_key(f) == witness_key(g) ==> f == g,
{
    reveal_strlit("witness.");
    if witness_key(f) == witness_key(g) {
        assert(f =~= witness_key(f).skip(8));
        assert(g =~= witness_key(g).skip(8));
    }
}

pub(crate) proof fn lemma_renamed_free(e: ExprV, subst: Map<Seq<char>, Seq<char>>, counter: u32, seq: u32)
    requires
        witness_free(e, false),
    ensures
        witness_free(renamed(e, subst, counter, seq).expr, true),
    decreases e, 0nat,
{
    match e {
        ExprV::LedgerAccess { args, .. } => lemma_renamed_list_free(args, args.len(), subst, counter, seq),
        ExprV::FnCall { args, .. } => lemma_renamed_list_free(args, args.len(), subst, counter, seq),
        ExprV::MethodCall { receiver, args, .. } => {
            let v = renamed(*receiver, subst, counter, seq);
            lemma_renamed_free(*receiver, subst, counter, seq);
            lemma_renamed_list_free(args, args.len(), v.subst, counter, v.seq);
        }
        ExprV::BinaryOp { lhs, rhs, .. } => {
            let l = renamed(*lhs, subst, counter, seq);
            lemma_renamed_free(*lhs, subst, counter, seq);
            lemma_renamed_free(*rhs, l.subst, counter, l.seq);
        }
        ExprV::UnaryOp { expr, .. } => lemma_renamed_free(*expr, subst, counter, seq),
        ExprV::Reference { expr, .. } => lemma_renamed_free(*expr, subst, counter, seq),
        ExprV::Disclose { value, .. } => lemma_renamed_free(*value, subst, counter, seq),
        ExprV::Let { name, value, .. } => {
            lemma_renamed_free(*value, subst, counter, seq);
            lemma_fresh_is_plain(counter, renamed(*value, subst, counter, seq).seq, name);
        }
        ExprV::Block { stmts, .. } => lemma_renamed_list_free(stmts, stmts.len(), subst, counter, seq),
        ExprV::Assert { kind, .. } => match kind {
            AssertV::Assert(c) => lemma_renamed_free(*c, subst, counter, seq),
            AssertV::AssertEq(lhs, rhs) => {
                let l = renamed(*lhs, subst, counter, seq);
                lemma_renamed_free(*lhs, subst, counter, seq);
                lemma_renamed_free(*rhs, l.subst, counter, l.seq);
            }
        },
        ExprV::If { cond, then_branch, else_branch, .. } => {
            let c = renamed(*cond, subst, counter, seq);
            let t = renamed_list(then_branch, then_branch.len(), c.subst, counter, c.seq);
            lemma_renamed_free(*cond, subst, counter, seq);
            lemma_renamed_list_free(then_branch, then_branch.len(), c.subst, counter, c.seq);
            match else_branch {
                Some(b) => lemma_renamed_list_free(b, b.len(), c.subst, counter, t.seq),
                None => {}
            }
        }
        ExprV::EnumPayload { scrutinee, .. } => lemma_renamed_free(*scrutinee, subst, counter, seq),
        ExprV::Index { array, .. } => lemma_renamed_free(*array, subst, counter, seq),
        ExprV::Tuple { elements, .. } => lemma_renamed_list_free(elements, elements.len(), subst, counter, seq),
        ExprV::ArrayLit { elements, .. } => lemma_renamed_list_free(elements, elements.len(), subst, counter, seq),
        ExprV::StructInit { fields, .. } => lemma_renamed_fields_free(fields, fields.len(), subst, counter, seq),
        ExprV::Return { value, .. } => match value {
            Some(v) => lemma_renamed_free(*v, subst, counter, seq),
            None => {}
        },
        _ => {}
    }
}

pub(crate) proof fn lemma_renamed_list_free(
    es: Seq<ExprV>,
    n: nat,
    subst: Map<Seq<char>, Seq<char>>,
    counter: u32,
    seq: u32,
)
    requires
        n <= es.len(),
        all_witness_free(es, false),
    ensures
        all_witness_free(renamed_list(es, n, subst, counter, seq).exprs, true),
    decreases es, n,
{
    if n > 0 {
        let p = renamed_list(es, (n - 1) as nat, subst, counter, seq);
        lemma_renamed_list_free(es, (n - 1) as nat, subst, counter, seq);
        lemma_renamed_free(es[n - 1], p.subst, counter, p.seq);
        let all = renamed_list(es, n, subst, counter, seq).exprs;
        assert forall|i: int| 0 <= i < all.len() implies witness_free(#[trigger] all[i], true) by {
            if i < p.exprs.len() {
                assert(all[i] == p.exprs[i]);
            }
        }
    }
}

pub(crate) proof fn lemma_renamed_fields_free(
    fs: Seq<(Seq<char>, ExprV)>,
    n: nat,
    subst: Map<Seq<char>, Seq<char>>,
    counter: u32,
    seq: u32,
)
    requires
        n <= fs.len(),
        fields_witness_free(fs, false),
    ensures
        fields_witness_free(renamed_fields(fs, n, subst, counter, seq).fields, true),
    decreases fs, n,
{
    if n > 0 {
        let p = renamed_fields(fs, (n - 1) as nat, subst, counter, seq);
        lemma_renamed_fields_free(fs, (n - 1) as nat, subst, counter, seq);
        lemma_renamed_free(fs[n - 1].1, p.subst, counter, p.seq);
        let all = renamed_fields(fs, n, subst, counter, seq).fields;
        assert forall|i: int| 0 <= i < all.len() implies witness_free((#[trigger] all[i]).1, true) by {
            if i < p.fields.len() {
                assert(all[i] == p.fields[i]);
            }
        }
    }
}

pub(crate) proof fn lemma_helper_body(cx: ContractV, name: Seq<char>, n: nat)
    requires
        witness_free_helpers(cx),
    ensures
        find_helper(cx.helpers, name, n) matches Some(h) ==> all_witness_free(h.body, false),
    decreases n,
{
    if n > 0 && n <= cx.helpers.len() {
        lemma_helper_body(cx, name, (n - 1) as nat);
    }
}

/// A walk over what holds no witness has no events.
pub(crate) proof fn lemma_walk_free(cx: ContractV, t: TrackerV, e: ExprV, plain: bool)
    requires
        witness_free(e, plain),
    ensures
        walk(cx, t, e) == (t, Seq::<EventV>::empty()),
    decreases e, 1nat,
{
    let none = Seq::<EventV>::empty();
    assert(none + none =~= none);
    match e {
        ExprV::LedgerAccess { args, .. } => lemma_walk_list_free(cx, t, args, args.len(), plain),
        ExprV::FnCall { args, .. } => lemma_walk_list_free(cx, t, args, args.len(), plain),
        ExprV::MethodCall { receiver, args, .. } => {
            lemma_walk_free(cx, t, *receiver, plain);
            lemma_walk_list_free(cx, t, args, args.len(), plain);
        }
        ExprV::BinaryOp { lhs, rhs, .. } => {
            lemma_walk_free(cx, t, *lhs, plain);
            lemma_walk_free(cx, t, *rhs, plain);
        }
        ExprV::UnaryOp { expr, .. } => lemma_walk_free(cx, t, *expr, plain),
        ExprV::Reference { expr, .. } => lemma_walk_free(cx, t, *expr, plain),
        ExprV::Disclose { value, .. } => lemma_walk_free(cx, t, *value, plain),
        ExprV::Let { value, .. } => lemma_walk_free(cx, t, *value, plain),
        ExprV::Block { stmts, .. } => lemma_walk_list_free(cx, t, stmts, stmts.len(), plain),
        ExprV::Assert { kind, .. } => match kind {
            AssertV::Assert(c) => lemma_walk_free(cx, t, *c, plain),
            AssertV::AssertEq(l, r) => {
                lemma_walk_free(cx, t, *l, plain);
                lemma_walk_free(cx, t, *r, plain);
            }
        },
        ExprV::If { cond, then_branch, else_branch, .. } => {
            lemma_walk_free(cx, t, *cond, plain);
            let inside = TrackerV { in_branch: true, ..t };
            lemma_walk_list_free(cx, inside, then_branch, then_branch.len(), plain);
            match else_branch {
                Some(eb) => lemma_walk_list_free(cx, inside, eb, eb.len(), plain),
                None => {}
            }
        }
        ExprV::EnumPayload { scrutinee, .. } => lemma_walk_free(cx, t, *scrutinee, plain),
        ExprV::Index { array, .. } => lemma_walk_free(cx, t, *array, plain),
        ExprV::Tuple { elements, .. } => lemma_walk_list_free(cx, t, elements, elements.len(), plain),
        ExprV::ArrayLit { elements, .. } => lemma_walk_list_free(cx, t, elements, elements.len(), plain),
        ExprV::StructInit { name, fields, .. } => {
            let order = evaluation_order(cx, name, fields);
            lemma_walk_fields_free(cx, t, fields, order, order.len(), plain);
        }
        ExprV::Return { value, .. } => match value {
            Some(v) => lemma_walk_free(cx, t, *v, plain),
            None => {}
        },
        _ => {}
    }
}

pub(crate) proof fn lemma_walk_list_free(cx: ContractV, t: TrackerV, es: Seq<ExprV>, n: nat, plain: bool)
    requires
        all_witness_free(es, plain),
    ensures
        walk_list(cx, t, es, n) == (t, Seq::<EventV>::empty()),
    decreases es, n,
{
    if n > 0 && n <= es.len() {
        lemma_walk_list_free(cx, t, es, (n - 1) as nat, plain);
        lemma_walk_free(cx, t, es[n - 1], plain);
        assert(Seq::<EventV>::empty() + Seq::<EventV>::empty() =~= Seq::<EventV>::empty());
    }
}

pub(crate) proof fn lemma_walk_fields_free(
    cx: ContractV,
    t: TrackerV,
    fs: Seq<(Seq<char>, ExprV)>,
    order: Seq<int>,
    n: nat,
    plain: bool,
)
    requires
        fields_witness_free(fs, plain),
    ensures
        walk_fields(cx, t, fs, order, n) == (t, Seq::<EventV>::empty()),
    decreases fs, n,
{
    if n > 0 && n <= order.len() {
        lemma_walk_fields_free(cx, t, fs, order, (n - 1) as nat, plain);
        if 0 <= order[n - 1] < fs.len() {
            lemma_walk_free(cx, t, fs[order[n - 1]].1, plain);
        }
        assert(Seq::<EventV>::empty() + Seq::<EventV>::empty() =~= Seq::<EventV>::empty());
    }
}

} // verus!
