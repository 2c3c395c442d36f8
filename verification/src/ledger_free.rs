//! Expressions that do not touch the ledger.
use crate::contract::ContractV;
use crate::emission::{find_helper, renamed, renamed_fields, renamed_list};
use crate::expr::{AssertV, ExprV};
use vstd::prelude::*;

verus! {

/// The ledger is not touched in `e`.
pub open spec fn ledger_free(e: ExprV) -> bool
    decreases e, 0nat,
{
    match e {
        ExprV::LedgerAccess { .. } => false,
        ExprV::WitnessCall { args, .. } => all_ledger_free(args),
        ExprV::FnCall { args, .. } => all_ledger_free(args),
        ExprV::MethodCall { receiver, args, .. } => ledger_free(*receiver) && all_ledger_free(args),
        ExprV::BinaryOp { lhs, rhs, .. } => ledger_free(*lhs) && ledger_free(*rhs),
        ExprV::UnaryOp { expr, .. } => ledger_free(*expr),
        ExprV::Reference { expr, .. } => ledger_free(*expr),
        ExprV::Disclose { value, .. } => ledger_free(*value),
        ExprV::Let { value, .. } => ledger_free(*value),
        ExprV::Block { stmts, .. } => all_ledger_free(stmts),
        ExprV::Assert { kind, .. } => match kind {
            AssertV::Assert(c) => ledger_free(*c),
            AssertV::AssertEq(l, r) => ledger_free(*l) && ledger_free(*r),
        },
        ExprV::If { cond, then_branch, else_branch, .. } => ledger_free(*cond) && all_ledger_free(
            then_branch,
        ) && (match else_branch {
            Some(eb) => all_ledger_free(eb),
            None => true,
        }),
        ExprV::EnumPayload { scrutinee, .. } => ledger_free(*scrutinee),
        ExprV::Index { array, .. } => ledger_free(*array),
        ExprV::Tuple { elements, .. } => all_ledger_free(elements),
        ExprV::ArrayLit { elements, .. } => all_ledger_free(elements),
        ExprV::StructInit { fields, .. } => fields_ledger_free(fields),
        ExprV::Return { value, .. } => match value {
            Some(v) => ledger_free(*v),
            None => true,
        },
        _ => true,
    }
}

pub open spec fn all_ledger_free(es: Seq<ExprV>) -> bool
    decreases es, 0nat,
{
    forall|i: int| 0 <= i < es.len() ==> ledger_free(#[trigger] es[i])
}

pub open spec fn fields_ledger_free(fs: Seq<(Seq<char>, ExprV)>) -> bool
    decreases fs, 0nat,
{
    forall|i: int| 0 <= i < fs.len() ==> ledger_free((#[trigger] fs[i]).1)
}

/// No helper touches the ledger.
pub open spec fn ledger_free_helpers(cx: ContractV) -> bool {
    forall|i: int| 0 <= i < cx.helpers.len() ==> all_ledger_free((#[trigger] cx.helpers[i]).body)
}

pub(crate) proof fn lemma_renamed_free(e: ExprV, subst: Map<Seq<char>, Seq<char>>, counter: u32, seq: u32)
    requires
        ledger_free(e),
    ensures
        ledger_free(renamed(e, subst, counter, seq).expr),
    decreases e, 0nat,
{
    match e {
        ExprV::WitnessCall { args, .. } => lemma_renamed_list_free(args, args.len(), subst, counter, seq),
        ExprV::FnCall { args, .. } => lemma_renamed_list_free(args, args.len(), subst, counter, seq),
        ExprV::MethodCall { receiver, args, .. } => {
            let v = renamed(*receiver, subst, counter, seq);
            lemma_renamed_free(*receiver, subst, counter, seq);
            lemma_renamed_list_free(args, args.len(), v.subst, counter, v.seq);
        }
        ExprV::BinaryOp { lhs, rhs, .. } => {
            let l = renamed(*lhs, subst, counter, seq);
            lemma_renamed_free(*lhs, subst, counter, seq);
            lemma_renamed_free(*rhs, l.subst, counter, l.seq);
        }
        ExprV::UnaryOp { expr, .. } => lemma_renamed_free(*expr, subst, counter, seq),
        ExprV::Reference { expr, .. } => lemma_renamed_free(*expr, subst, counter, seq),
        ExprV::Disclose { value, .. } => lemma_renamed_free(*value, subst, counter, seq),
        ExprV::Let { value, .. } => lemma_renamed_free(*value, subst, counter, seq),
        ExprV::Block { stmts, .. } => lemma_renamed_list_free(stmts, stmts.len(), subst, counter, seq),
        ExprV::Assert { kind, .. } => match kind {
            AssertV::Assert(c) => lemma_renamed_free(*c, subst, counter, seq),
            AssertV::AssertEq(lhs, rhs) => {
                let l = renamed(*lhs, subst, counter, seq);
                lemma_renamed_free(*lhs, subst, counter, seq);
                lemma_renamed_free(*rhs, l.subst, counter, l.seq);
            }
        },
        ExprV::If { cond, then_branch, else_branch, .. } => {
            let c = renamed(*cond, subst, counter, seq);
            let t = renamed_list(then_branch, then_branch.len(), c.subst, counter, c.seq);
            lemma_renamed_free(*cond, subst, counter, seq);
            lemma_renamed_list_free(then_branch, then_branch.len(), c.subst, counter, c.seq);
            match else_branch {
                Some(b) => lemma_renamed_list_free(b, b.len(), c.subst, counter, t.seq),
                None => {}
            }
        }
        ExprV::EnumPayload { scrutinee, .. } => lemma_renamed_free(*scrutinee, subst, counter, seq),
        ExprV::Index { array, .. } => lemma_renamed_free(*array, subst, counter, seq),
        ExprV::Tuple { elements, .. } => lemma_renamed_list_free(elements, elements.len(), subst, counter, seq),
        ExprV::ArrayLit { elements, .. } => lemma_renamed_list_free(elements, elements.len(), subst, counter, seq),
        ExprV::StructInit { fields, .. } => lemma_renamed_fields_free(fields, fields.len(), subst, counter, seq),
        ExprV::Return { value, .. } => match value {
            Some(v) => lemma_renamed_free(*v, subst, counter, seq),
            None => {}
        },
        _ => {}
    }
}

pub(crate) proof fn lemma_renamed_list_free(
    es: Seq<ExprV>,
    n: nat,
    subst: Map<Seq<char>, Seq<char>>,
    counter: u32,
    seq: u32,
)
    requires
        n <= es.len(),
        all_ledger_free(es),
    ensures
        all_ledger_free(renamed_list(es, n, subst, counter, seq).exprs),
    decreases es, n,
{
    if n > 0 {
        let p = renamed_list(es, (n - 1) as nat, subst, counter, seq);
        lemma_renamed_list_free(es, (n - 1) as nat, subst, counter, seq);
        lemma_renamed_free(es[n - 1], p.subst, counter, p.seq);
        let all = renamed_list(es, n, subst, counter, seq).exprs;
        assert forall|i: int| 0 <= i < all.len() implies ledger_free(#[trigger] all[i]) by {
            if i < p.exprs.len() {
                assert(all[i] == p.exprs[i]);
            }
        }
    }
}

pub(crate) proof fn lemma_renamed_fields_free(
    fs: Seq<(Seq<char>, ExprV)>,
    n: nat,
    subst: Map<Seq<char>, Seq<char>>,
    counter: u32,
    seq: u32,
)
    requires
        n <= fs.len(),
        fields_ledger_free(fs),
    ensures
        fields_ledger_free(renamed_fields(fs, n, subst, counter, seq).fields),
    decreases fs, n,
{
    if n > 0 {
        let p = renamed_fields(fs, (n - 1) as nat, subst, counter, seq);
        lemma_renamed_fields_free(fs, (n - 1) as nat, subst, counter, seq);
        lemma_renamed_free(fs[n - 1].1, p.subst, counter, p.seq);
        let all = renamed_fields(fs, n, subst, counter, seq).fields;
        assert forall|i: int| 0 <= i < all.len() implies ledger_free((#[trigger] all[i]).1) by {
            if i < p.fields.len() {
                assert(all[i] == p.fields[i]);
            }
        }
    }
}

pub(crate) proof fn lemma_helper_body(cx: ContractV, name: Seq<char>, n: nat)
    requires
        ledger_free_helpers(cx),
    ensures
        find_helper(cx.helpers, name, n) matches Some(h) ==> all_ledger_free(h.body),
    decreases n,
{
    if n > 0 && n <= cx.helpers.len() {
        lemma_helper_body(cx, name, (n - 1) as nat);
    }
}

} // verus!
