//! Splicing of helpers: where no helper reaches itself, the nesting that lowering
//! allows is enough for every call.
use crate::containers::{map_kv, set_inner};
use crate::contract::{ContractV, HelperV, ParamV};
use crate::emission::{field_slot, find_helper, fresh_name, renamed, renamed_fields, renamed_list, slot_type};
use crate::emission::{wraps_value, EmitV};
use crate::expr::{AssertV, ExprV};
use crate::helper_graph::{acyclic, call_graph, callees, has_edge, helper_position, lemma_callees_in_range};
use crate::helper_graph::lemma_finishing_order;
use crate::lowering::{close_branch, else_guard, enter_branch, evaluation_order, lower, lower_all, lower_arg};
use crate::lowering::{lower_branch, lower_cell_method, lower_fields, lower_helper, lower_map_method};
use crate::lowering::{lower_merkle_method, lower_params, lower_path_root, lower_run, lower_seq, lower_set_method};
use crate::lowering::{param_names, then_guard};
use crate::reading::{nodes, nodes_of, nodes_of_fields};
use crate::text::{dec, digit_char};
use vstd::prelude::*;

verus! {

// ---- ranks of helpers

/// Whether a node calls only helpers of a rank below `bound`.
pub open spec fn node_below(hs: Seq<HelperV>, rank: Seq<nat>, e: ExprV, bound: nat) -> bool {
    match e {
        ExprV::FnCall { name, .. } => helper_position(hs, name, hs.len()) matches Some(i) ==> rank[i] < bound,
        _ => true,
    }
}

/// Whether an expression calls only helpers of a rank below `bound`.
pub open spec fn calls_below(hs: Seq<HelperV>, rank: Seq<nat>, e: ExprV, bound: nat) -> bool
    decreases e, 0nat,
{
    node_below(hs, rank, e, bound) && match e {
        ExprV::LedgerAccess { args, .. } => all_below(hs, rank, args, bound),
        ExprV::WitnessCall { args, .. } => all_below(hs, rank, args, bound),
        ExprV::FnCall { args, .. } => all_below(hs, rank, args, bound),
        ExprV::MethodCall { receiver, args, .. } => calls_below(hs, rank, *receiver, bound) && all_below(
            hs,
            rank,
            args,
            bound,
        ),
        ExprV::BinaryOp { lhs, rhs, .. } => calls_below(hs, rank, *lhs, bound) && calls_below(hs, rank, *rhs, bound),
        ExprV::UnaryOp { expr, .. } => calls_below(hs, rank, *expr, bound),
        ExprV::Reference { expr, .. } => calls_below(hs, rank, *expr, bound),
        ExprV::Disclose { value, .. } => calls_below(hs, rank, *value, bound),
        ExprV::Let { value, .. } => calls_below(hs, rank, *value, bound),
        ExprV::Block { stmts, .. } => all_below(hs, rank, stmts, bound),
        ExprV::Assert { kind, .. } => match kind {
            AssertV::Assert(c) => calls_below(hs, rank, *c, bound),
            AssertV::AssertEq(l, r) => calls_below(hs, rank, *l, bound) && calls_below(hs, rank, *r, bound),
        },
        ExprV::If { cond, then_branch, else_branch, .. } => calls_below(hs, rank, *cond, bound) && all_below(
            hs,
            rank,
            then_branch,
            bound,
        ) && (match else_branch {
            Some(eb) => all_below(hs, rank, eb, bound),
            None => true,
        }),
        ExprV::EnumPayload { scrutinee, .. } => calls_below(hs, rank, *scrutinee, bound),
        ExprV::Index { array, .. } => calls_below(hs, rank, *array, bound),
        ExprV::Tuple { elements, .. } => all_below(hs, rank, elements, bound),
        ExprV::ArrayLit { elements, .. } => all_below(hs, rank, elements, bound),
        ExprV::StructInit { fields, .. } => fields_below(hs, rank, fields, bound),
        ExprV::Return { value, .. } => match value {
            Some(v) => calls_below(hs, rank, *v, bound),
            None => true,
        },
        _ => true,
    }
}

pub open spec fn all_below(hs: Seq<HelperV>, rank: Seq<nat>, es: Seq<ExprV>, bound: nat) -> bool
    decreases es, 0nat,
{
    forall|i: int| 0 <= i < es.len() ==> calls_below(hs, rank, #[trigger] es[i], bound)
}

pub open spec fn fields_below(hs: Seq<HelperV>, rank: Seq<nat>, fs: Seq<(Seq<char>, ExprV)>, bound: nat) -> bool
    decreases fs, 0nat,
{
    forall|i: int| 0 <= i < fs.len() ==> calls_below(hs, rank, (#[trigger] fs[i]).1, bound)
}

/// Ranks below the number of helpers, such that every helper calls only
/// helpers of a lower rank.
pub open spec fn is_ranking(hs: Seq<HelperV>, rank: Seq<nat>) -> bool {
    &&& rank.len() == hs.len()
    &&& forall|i: int| 0 <= i < hs.len() ==> #[trigger] rank[i] < hs.len()
    &&& forall|i: int| 0 <= i < hs.len() ==> all_below(hs, rank, (#[trigger] hs[i]).body, rank[i])
}

proof fn lemma_cat(a: Seq<ExprV>, b: Seq<ExprV>)
    ensures
        forall|x: ExprV| a.contains(x) ==> #[trigger] (a + b).contains(x),
        forall|x: ExprV| b.contains(x) ==> #[trigger] (a + b).contains(x),
{
    assert forall|x: ExprV| a.contains(x) implies #[trigger] (a + b).contains(x) by {
        let i = a.index_of(x);
        assert((a + b)[i] == x);
    }
    assert forall|x: ExprV| b.contains(x) implies #[trigger] (a + b).contains(x) by {
        let i = b.index_of(x);
        assert((a + b)[a.len() + i] == x);
    }
}

/// Every node of a list calls only helpers below `bound`.
pub open spec fn nodes_below(hs: Seq<HelperV>, rank: Seq<nat>, ns: Seq<ExprV>, bound: nat) -> bool {
    forall|x: ExprV| #[trigger] ns.contains(x) ==> node_below(hs, rank, x, bound)
}

proof fn lemma_split(hs: Seq<HelperV>, rank: Seq<nat>, a: Seq<ExprV>, b: Seq<ExprV>, bound: nat)
    requires
        nodes_below(hs, rank, a + b, bound),
    ensures
        nodes_below(hs, rank, a, bound),
        nodes_below(hs, rank, b, bound),
{
    lemma_cat(a, b);
    assert forall|x: ExprV| #[trigger] a.contains(x) implies node_below(hs, rank, x, bound) by {
        assert((a + b).contains(x));
    }
    assert forall|x: ExprV| #[trigger] b.contains(x) implies node_below(hs, rank, x, bound) by {
        assert((a + b).contains(x));
    }
}

/// An expression whose nodes all stay below `bound` does so itself.
proof fn lemma_from_nodes(hs: Seq<HelperV>, rank: Seq<nat>, e: ExprV, bound: nat)
    requires
        nodes_below(hs, rank, nodes(e), bound),
    ensures
        calls_below(hs, rank, e, bound),
    decreases e, 0nat,
{
    let none = Seq::<ExprV>::empty();
    assert(nodes(e)[0] == e);
    assert(nodes(e).contains(e));
    let rest = nodes(e).skip(1);
    assert(nodes(e) =~= seq![e] + rest);
    lemma_split(hs, rank, seq![e], rest, bound);
    match e {
        ExprV::LedgerAccess { args, .. } => {
            assert(rest =~= nodes_of(args, args.len()));
            lemma_from_list(hs, rank, args, args.len(), bound);
        }
        ExprV::WitnessCall { args, .. } => {
            assert(rest =~= nodes_of(args, args.len()));
            lemma_from_list(hs, rank, args, args.len(), bound);
        }
        ExprV::FnCall { args, .. } => {
            assert(rest =~= nodes_of(args, args.len()));
            lemma_from_list(hs, rank, args, args.len(), bound);
        }
        ExprV::MethodCall { receiver, args, .. } => {
            assert(rest =~= nodes(*receiver) + nodes_of(args, args.len()));
            lemma_split(hs, rank, nodes(*receiver), nodes_of(args, args.len()), bound);
            lemma_from_nodes(hs, rank, *receiver, bound);
            lemma_from_list(hs, rank, args, args.len(), bound);
        }
        ExprV::BinaryOp { lhs, rhs, .. } => {
            assert(rest =~= nodes(*lhs) + nodes(*rhs));
            lemma_split(hs, rank, nodes(*lhs), nodes(*rhs), bound);
            lemma_from_nodes(hs, rank, *lhs, bound);
            lemma_from_nodes(hs, rank, *rhs, bound);
        }
        ExprV::UnaryOp { expr, .. } => {
            assert(rest =~= nodes(*expr));
            lemma_from_nodes(hs, rank, *expr, bound);
        }
        ExprV::Reference { expr, .. } => {
            assert(rest =~= nodes(*expr));
            lemma_from_nodes(hs, rank, *expr, bound);
        }
        ExprV::Disclose { value, .. } => {
            assert(rest =~= nodes(*value));
            lemma_from_nodes(hs, rank, *value, bound);
        }
        ExprV::Let { value, .. } => {
            assert(rest =~= nodes(*value));
            lemma_from_nodes(hs, rank, *value, bound);
        }
        ExprV::Block { stmts, .. } => {
            assert(rest =~= nodes_of(stmts, stmts.len()));
            lemma_from_list(hs, rank, stmts, stmts.len(), bound);
        }
        ExprV::Assert { kind, .. } => match kind {
            AssertV::Assert(c) => {
                assert(rest =~= nodes(*c));
                lemma_from_nodes(hs, rank, *c, bound);
            }
            AssertV::AssertEq(l, r) => {
                assert(rest =~= nodes(*l) + nodes(*r));
                lemma_split(hs, rank, nodes(*l), nodes(*r), bound);
                lemma_from_nodes(hs, rank, *l, bound);
                lemma_from_nodes(hs, rank, *r, bound);
            }
        },
        ExprV::If { cond, then_branch, else_branch, .. } => {
            let front = nodes(*cond) + nodes_of(then_branch, then_branch.len());
            let back = match else_branch {
                Some(b) => nodes_of(b, b.len()),
                None => none,
            };
            assert(rest =~= front + back);
            lemma_split(hs, rank, front, back, bound);
            lemma_split(hs, rank, nodes(*cond), nodes_of(then_branch, then_branch.len()), bound);
            lemma_from_nodes(hs, rank, *cond, bound);
            lemma_from_list(hs, rank, then_branch, then_branch.len(), bound);
            match else_branch {
                Some(b) => lemma_from_list(hs, rank, b, b.len(), bound),
                None => {}
            }
        }
        ExprV::EnumPayload { scrutinee, .. } => {
            assert(rest =~= nodes(*scrutinee));
            lemma_from_nodes(hs, rank, *scrutinee, bound);
        }
        ExprV::Index { array, .. } => {
            assert(rest =~= nodes(*array));
            lemma_from_nodes(hs, rank, *array, bound);
        }
        ExprV::Tuple { elements, .. } => {
            assert(rest =~= nodes_of(elements, elements.len()));
            lemma_from_list(hs, rank, elements, elements.len(), bound);
        }
        ExprV::ArrayLit { elements, .. } => {
            assert(rest =~= nodes_of(elements, elements.len()));
            lemma_from_list(hs, rank, elements, elements.len(), bound);
        }
        ExprV::StructInit { fields, .. } => {
            assert(rest =~= nodes_of_fields(fields, fields.len()));
            lemma_from_fields(hs, rank, fields, fields.len(), bound);
        }
        ExprV::Return { value, .. } => match value {
            Some(v) => {
                assert(rest =~= nodes(*v));
                lemma_from_nodes(hs, rank, *v, bound);
            }
            None => {}
        },
        _ => {}
    }
}

proof fn lemma_from_list(hs: Seq<HelperV>, rank: Seq<nat>, es: Seq<ExprV>, n: nat, bound: nat)
    requires
        n <= es.len(),
        nodes_below(hs, rank, nodes_of(es, n), bound),
    ensures
        forall|i: int| 0 <= i < n ==> calls_below(hs, rank, #[trigger] es[i], bound),
        n == es.len() ==> all_below(hs, rank, es, bound),
    decreases es, n,
{
    if n > 0 {
        lemma_split(hs, rank, nodes_of(es, (n - 1) as nat), nodes(es[n - 1]), bound);
        lemma_from_list(hs, rank, es, (n - 1) as nat, bound);
        lemma_from_nodes(hs, rank, es[n - 1], bound);
    }
}

proof fn lemma_from_fields(hs: Seq<HelperV>, rank: Seq<nat>, fs: Seq<(Seq<char>, ExprV)>, n: nat, bound: nat)
    requires
        n <= fs.len(),
        nodes_below(hs, rank, nodes_of_fields(fs, n), bound),
    ensures
        forall|i: int| 0 <= i < n ==> calls_below(hs, rank, (#[trigger] fs[i]).1, bound),
        n == fs.len() ==> fields_below(hs, rank, fs, bound),
    decreases fs, n,
{
    if n > 0 {
        lemma_split(hs, rank, nodes_of_fields(fs, (n - 1) as nat), nodes(fs[n - 1].1), bound);
        lemma_from_fields(hs, rank, fs, (n - 1) as nat, bound);
        lemma_from_nodes(hs, rank, fs[n - 1].1, bound);
    }
}

/// A call among the nodes is an edge.
proof fn lemma_callee(hs: Seq<HelperV>, ns: Seq<ExprV>, n: nat, k: int)
    requires
        0 <= k < n <= ns.len(),
    ensures
        ns[k] matches ExprV::FnCall { name, .. } ==> (helper_position(hs, name, hs.len()) matches Some(i)
            ==> callees(hs, ns, n).contains(i)),
    decreases n,
{
    match ns[k] {
        ExprV::FnCall { name, .. } => match helper_position(hs, name, hs.len()) {
            Some(i) => {
                let before = callees(hs, ns, (n - 1) as nat);
                let after = callees(hs, ns, n);
                if k < n - 1 {
                    lemma_callee(hs, ns, (n - 1) as nat, k);
                    let j = before.index_of(i);
                    assert(after[j] == i);
                } else {
                    assert(after.last() == i);
                }
            }
            None => {}
        },
        _ => {}
    }
}

/// Where `x` first stands in a list that holds it.
pub open spec fn first_at(s: Seq<int>, x: int) -> int
    decreases s.len(),
{
    if s.len() == 0 {
        0
    } else if s.drop_last().contains(x) {
        first_at(s.drop_last(), x)
    } else {
        s.len() - 1
    }
}

proof fn lemma_first_at(s: Seq<int>, x: int)
    requires
        s.contains(x),
    ensures
        0 <= first_at(s, x) < s.len(),
        s[first_at(s, x)] == x,
        forall|p: int| 0 <= p < s.len() && #[trigger] s[p] == x ==> first_at(s, x) <= p,
    decreases s.len(),
{
    let front = s.drop_last();
    if front.contains(x) {
        lemma_first_at(front, x);
        assert(front[first_at(front, x)] == s[first_at(front, x)]);
        assert forall|p: int| 0 <= p < s.len() && #[trigger] s[p] == x implies first_at(s, x) <= p by {
            if p < front.len() {
                assert(front[p] == x);
            }
        }
    } else {
        let i = s.index_of(x);
        if i < front.len() {
            assert(front[i] == x);
        }
        assert forall|p: int| 0 <= p < s.len() && #[trigger] s[p] == x implies first_at(s, x) <= p by {
            if p < front.len() {
                assert(front[p] == x);
            }
        }
    }
}

/// The nodes below `n` that come before `i` in a finishing order.
pub open spec fn ahead_of(done: Seq<int>, n: nat, i: int) -> Set<int> {
    vstd::set_lib::set_int_range(0, n as int).filter(|j: int| first_at(done, j) < first_at(done, i))
}

proof fn lemma_ahead(done: Seq<int>, n: nat, i: int)
    requires
        0 <= i < n,
    ensures
        ahead_of(done, n, i).finite(),
        ahead_of(done, n, i).len() < n,
{
    let all = vstd::set_lib::set_int_range(0, n as int);
    let s = ahead_of(done, n, i);
    vstd::set_lib::lemma_int_range(0, n as int);
    vstd::set_lib::lemma_len_subset(s, all);
    assert(s.insert(i).subset_of(all));
    vstd::set_lib::lemma_len_subset(s.insert(i), all);
}

proof fn lemma_ahead_grows(done: Seq<int>, n: nat, j: int, i: int)
    requires
        0 <= i < n,
        0 <= j < n,
        first_at(done, j) < first_at(done, i),
    ensures
        ahead_of(done, n, j).len() < ahead_of(done, n, i).len(),
{
    let a = ahead_of(done, n, j);
    let b = ahead_of(done, n, i);
    lemma_ahead(done, n, j);
    lemma_ahead(done, n, i);
    assert(a.insert(j).subset_of(b));
    vstd::set_lib::lemma_len_subset(a.insert(j), b);
}

/// Helpers that do not reach themselves can be ranked.
pub proof fn acyclic_helpers_are_ranked(hs: Seq<HelperV>) -> (rank: Seq<nat>)
    requires
        acyclic(call_graph(hs)),
    ensures
        is_ranking(hs, rank),
{
    let g = call_graph(hs);
    let n = hs.len();
    let done = lemma_finishing_order(hs);
    let rank = Seq::new(n, |i: int| ahead_of(done, n, i).len());
    assert forall|i: int| 0 <= i < hs.len() implies #[trigger] rank[i] < hs.len() by {
        lemma_ahead(done, n, i);
    }
    assert forall|i: int| 0 <= i < hs.len() implies all_below(hs, rank, (#[trigger] hs[i]).body, rank[i]) by {
        let body = hs[i].body;
        let ns = nodes_of(body, body.len());
        let at = first_at(done, i);
        assert(done.contains(i));
        lemma_first_at(done, i);
        assert forall|x: ExprV| #[trigger] ns.contains(x) implies node_below(hs, rank, x, rank[i]) by {
            let k = ns.index_of(x);
            lemma_callee(hs, ns, ns.len(), k);
            match x {
                ExprV::FnCall { name, .. } => match helper_position(hs, name, hs.len()) {
                    Some(j) => {
                        assert(g[i] == callees(hs, ns, ns.len()));
                        assert(has_edge(g, done[at], j));
                        assert(done.take(at).contains(j));
                        let p = done.take(at).index_of(j);
                        assert(done[p] == j);
                        assert(done.contains(j));
                        lemma_first_at(done, j);
                        lemma_callees_in_range(hs, ns, ns.len());
                        let q = callees(hs, ns, ns.len()).index_of(j);
                        assert(0 <= callees(hs, ns, ns.len())[q] < hs.len());
                        lemma_ahead_grows(done, n, j, i);
                    }
                    None => {}
                },
                _ => {}
            }
        }
        lemma_from_list(hs, rank, body, body.len(), rank[i]);
    }
    rank
}

// ---- renaming keeps the calls

proof fn lemma_renamed_below(
    hs: Seq<HelperV>,
    rank: Seq<nat>,
    bound: nat,
    e: ExprV,
    subst: Map<Seq<char>, Seq<char>>,
    counter: u32,
    seq: u32,
)
    requires
        calls_below(hs, rank, e, bound),
    ensures
        calls_below(hs, rank, renamed(e, subst, counter, seq).expr, bound),
    decreases e, 0nat,
{
    match e {
        ExprV::LedgerAccess { args, .. } => lemma_renamed_list_below(hs, rank, bound, args, args.len(), subst, counter, seq),
        ExprV::WitnessCall { args, .. } => lemma_renamed_list_below(hs, rank, bound, args, args.len(), subst, counter, seq),
        ExprV::FnCall { args, .. } => lemma_renamed_list_below(hs, rank, bound, args, args.len(), subst, counter, seq),
        ExprV::MethodCall { receiver, args, .. } => {
            let v = renamed(*receiver, subst, counter, seq);
            lemma_renamed_below(hs, rank, bound, *receiver, subst, counter, seq);
            lemma_renamed_list_below(hs, rank, bound, args, args.len(), v.subst, counter, v.seq);
        }
        ExprV::BinaryOp { lhs, rhs, .. } => {
            let l = renamed(*lhs, subst, counter, seq);
            lemma_renamed_below(hs, rank, bound, *lhs, subst, counter, seq);
            lemma_renamed_below(hs, rank, bound, *rhs, l.subst, counter, l.seq);
        }
        ExprV::UnaryOp { expr, .. } => lemma_renamed_below(hs, rank, bound, *expr, subst, counter, seq),
        ExprV::Reference { expr, .. } => lemma_renamed_below(hs, rank, bound, *expr, subst, counter, seq),
        ExprV::Disclose { value, .. } => lemma_renamed_below(hs, rank, bound, *value, subst, counter, seq),
        ExprV::Let { value, .. } => lemma_renamed_below(hs, rank, bound, *value, subst, counter, seq),
        ExprV::Block { stmts, .. } => lemma_renamed_list_below(hs, rank, bound, stmts, stmts.len(), subst, counter, seq),
        ExprV::Assert { kind, .. } => match kind {
            AssertV::Assert(c) => lemma_renamed_below(hs, rank, bound, *c, subst, counter, seq),
            AssertV::AssertEq(lhs, rhs) => {
                let l = renamed(*lhs, subst, counter, seq);
                lemma_renamed_below(hs, rank, bound, *lhs, subst, counter, seq);
                lemma_renamed_below(hs, rank, bound, *rhs, l.subst, counter, l.seq);
            }
        },
        ExprV::If { cond, then_branch, else_branch, .. } => {
            let c = renamed(*cond, subst, counter, seq);
            let t = renamed_list(then_branch, then_branch.len(), c.subst, counter, c.seq);
            lemma_renamed_below(hs, rank, bound, *cond, subst, counter, seq);
            lemma_renamed_list_below(hs, rank, bound, then_branch, then_branch.len(), c.subst, counter, c.seq);
            match else_branch {
                Some(b) => lemma_renamed_list_below(hs, rank, bound, b, b.len(), c.subst, counter, t.seq),
                None => {}
            }
        }
        ExprV::EnumPayload { scrutinee, .. } => lemma_renamed_below(hs, rank, bound, *scrutinee, subst, counter, seq),
        ExprV::Index { array, .. } => lemma_renamed_below(hs, rank, bound, *array, subst, counter, seq),
        ExprV::Tuple { elements, .. } => {
            lemma_renamed_list_below(hs, rank, bound, elements, elements.len(), subst, counter, seq);
        }
        ExprV::ArrayLit { elements, .. } => {
            lemma_renamed_list_below(hs, rank, bound, elements, elements.len(), subst, counter, seq);
        }
        ExprV::StructInit { fields, .. } => {
            lemma_renamed_fields_below(hs, rank, bound, fields, fields.len(), subst, counter, seq);
        }
        ExprV::Return { value, .. } => match value {
            Some(v) => lemma_renamed_below(hs, rank, bound, *v, subst, counter, seq),
            None => {}
        },
        _ => {}
    }
}

proof fn lemma_renamed_list_below(
    hs: Seq<HelperV>,
    rank: Seq<nat>,
    bound: nat,
    es: Seq<ExprV>,
    n: nat,
    subst: Map<Seq<char>, Seq<char>>,
    counter: u32,
    seq: u32,
)
    requires
        n <= es.len(),
        all_below(hs, rank, es, bound),
    ensures
        all_below(hs, rank, renamed_list(es, n, subst, counter, seq).exprs, bound),
    decreases es, n,
{
    if n > 0 {
        let p = renamed_list(es, (n - 1) as nat, subst, counter, seq);
        lemma_renamed_list_below(hs, rank, bound, es, (n - 1) as nat, subst, counter, seq);
        lemma_renamed_below(hs, rank, bound, es[n - 1], p.subst, counter, p.seq);
        let all = renamed_list(es, n, subst, counter, seq).exprs;
        assert forall|i: int| 0 <= i < all.len() implies calls_below(hs, rank, #[trigger] all[i], bound) by {
            if i < p.exprs.len() {
                assert(all[i] == p.exprs[i]);
            }
        }
    }
}

proof fn lemma_renamed_fields_below(
    hs: Seq<HelperV>,
    rank: Seq<nat>,
    bound: nat,
    fs: Seq<(Seq<char>, ExprV)>,
    n: nat,
    subst: Map<Seq<char>, Seq<char>>,
    counter: u32,
    seq: u32,
)
    requires
        n <= fs.len(),
        fields_below(hs, rank, fs, bound),
    ensures
        fields_below(hs, rank, renamed_fields(fs, n, subst, counter, seq).fields, bound),
    decreases fs, n,
{
    if n > 0 {
        let p = renamed_fields(fs, (n - 1) as nat, subst, counter, seq);
        lemma_renamed_fields_below(hs, rank, bound, fs, (n - 1) as nat, subst, counter, seq);
        lemma_renamed_below(hs, rank, bound, fs[n - 1].1, p.subst, counter, p.seq);
        let all = renamed_fields(fs, n, subst, counter, seq).fields;
        assert forall|i: int| 0 <= i < all.len() implies calls_below(hs, rank, (#[trigger] all[i]).1, bound) by {
            if i < p.fields.len() {
                assert(all[i] == p.fields[i]);
            }
        }
    }
}

// ---- lowering does not depend on a sufficient depth

/// What is asked of an expression: that it calls only helpers below `bound`,
/// which any expression does once `bound` is the number of helpers.
pub open spec fn within(hs: Seq<HelperV>, rank: Seq<nat>, e: ExprV, bound: nat) -> bool {
    bound >= hs.len() || calls_below(hs, rank, e, bound)
}

pub open spec fn all_within(hs: Seq<HelperV>, rank: Seq<nat>, es: Seq<ExprV>, bound: nat) -> bool {
    bound >= hs.len() || all_below(hs, rank, es, bound)
}

pub open spec fn fields_within(hs: Seq<HelperV>, rank: Seq<nat>, fs: Seq<(Seq<char>, ExprV)>, bound: nat) -> bool {
    bound >= hs.len() || fields_below(hs, rank, fs, bound)
}

proof fn lemma_found(hs: Seq<HelperV>, name: Seq<char>, n: nat)
    ensures
        match find_helper(hs, name, n) {
            Some(h) => helper_position(hs, name, n) matches Some(i) && 0 <= i < hs.len() && hs[i] == h,
            None => helper_position(hs, name, n) is None,
        },
    decreases n,
{
    if n > 0 && n <= hs.len() {
        lemma_found(hs, name, (n - 1) as nat);
    }
}

proof fn lemma_depth(cx: ContractV, rank: Seq<nat>, s: EmitV, e: ExprV, bound: nat, c: nat, d: nat)
    requires
        is_ranking(cx.helpers, rank),
        within(cx.helpers, rank, e, bound),
        bound <= c,
        bound <= d,
    ensures
        lower(cx, s, e, c) == lower(cx, s, e, d),
    decreases bound, e, 1nat,
{
    match e {
        ExprV::LedgerAccess { .. } => lemma_depth_ledger(cx, rank, s, e, bound, c, d),
        ExprV::WitnessCall { args, .. } => lemma_depth_seq(cx, rank, s, args, args.len(), bound, c, d),
        ExprV::FnCall { .. } => lemma_depth_call(cx, rank, s, e, bound, c, d),
        ExprV::MethodCall { receiver, args, .. } => {
            lemma_depth(cx, rank, s, *receiver, bound, c, d);
            lemma_depth_seq(cx, rank, lower(cx, s, *receiver, c).0, args, args.len(), bound, c, d);
        }
        ExprV::BinaryOp { lhs, rhs, .. } => {
            lemma_depth(cx, rank, s, *lhs, bound, c, d);
            lemma_depth(cx, rank, lower(cx, s, *lhs, c).0, *rhs, bound, c, d);
        }
        ExprV::UnaryOp { expr, .. } => lemma_depth(cx, rank, s, *expr, bound, c, d),
        ExprV::Reference { expr, .. } => lemma_depth(cx, rank, s, *expr, bound, c, d),
        ExprV::Disclose { value, .. } => lemma_depth(cx, rank, s, *value, bound, c, d),
        ExprV::Let { value, .. } => lemma_depth(cx, rank, s, *value, bound, c, d),
        ExprV::Block { stmts, .. } => lemma_depth_seq(cx, rank, s, stmts, stmts.len(), bound, c, d),
        ExprV::Assert { kind, .. } => match kind {
            AssertV::Assert(x) => lemma_depth(cx, rank, s, *x, bound, c, d),
            AssertV::AssertEq(lhs, rhs) => {
                lemma_depth(cx, rank, s, *lhs, bound, c, d);
                lemma_depth(cx, rank, lower(cx, s, *lhs, c).0, *rhs, bound, c, d);
            }
        },
        ExprV::If { cond, then_branch, else_branch, .. } => {
            let (a, w) = lower(cx, s, *cond, c);
            lemma_depth(cx, rank, s, *cond, bound, c, d);
            if w is Some {
                let (b, tg) = then_guard(a, w->0);
                let inside = enter_branch(b, tg);
                lemma_depth_branch(cx, rank, inside, then_branch, then_branch.len(), bound, c, d);
                let (t, _) = lower_branch(cx, inside, then_branch, then_branch.len(), c);
                let closed = close_branch(t, inside.instructions.len());
                match else_branch {
                    Some(eb) => {
                        let (f, eg) = else_guard(closed, w->0, a.in_conditional, a.guard);
                        lemma_depth_branch(cx, rank, EmitV { guard: eg, ..f }, eb, eb.len(), bound, c, d);
                    }
                    None => {}
                }
            }
        }
        ExprV::EnumPayload { scrutinee, .. } => lemma_depth(cx, rank, s, *scrutinee, bound, c, d),
        ExprV::Index { array, .. } => lemma_depth(cx, rank, s, *array, bound, c, d),
        ExprV::Tuple { elements, .. } => {
            lemma_depth_run(cx, rank, s, elements, elements.len(), "tuple literal"@, bound, c, d);
        }
        ExprV::ArrayLit { elements, .. } => {
            lemma_depth_run(cx, rank, s, elements, elements.len(), "array literal"@, bound, c, d);
        }
        ExprV::StructInit { name, fields, .. } => {
            let order = evaluation_order(cx, name, fields);
            lemma_depth_fields(cx, rank, s, fields, order, order.len(), bound, c, d);
        }
        ExprV::Return { value, .. } => match value {
            Some(v) => lemma_depth(cx, rank, s, *v, bound, c, d),
            None => {}
        },
        _ => {}
    }
}

proof fn lemma_depth_seq(
    cx: ContractV,
    rank: Seq<nat>,
    s: EmitV,
    es: Seq<ExprV>,
    n: nat,
    bound: nat,
    c: nat,
    d: nat,
)
    requires
        is_ranking(cx.helpers, rank),
        all_within(cx.helpers, rank, es, bound),
        bound <= c,
        bound <= d,
    ensures
        lower_seq(cx, s, es, n, c) == lower_seq(cx, s, es, n, d),
    decreases bound, es, n,
{
    if n > 0 && n <= es.len() {
        lemma_depth_seq(cx, rank, s, es, (n - 1) as nat, bound, c, d);
        lemma_depth(cx, rank, lower_seq(cx, s, es, (n - 1) as nat, c).0, es[n - 1], bound, c, d);
    }
}

proof fn lemma_depth_branch(
    cx: ContractV,
    rank: Seq<nat>,
    s: EmitV,
    es: Seq<ExprV>,
    n: nat,
    bound: nat,
    c: nat,
    d: nat,
)
    requires
        is_ranking(cx.helpers, rank),
        all_within(cx.helpers, rank, es, bound),
        bound <= c,
        bound <= d,
    ensures
        lower_branch(cx, s, es, n, c) == lower_branch(cx, s, es, n, d),
    decreases bound, es, n,
{
    if n > 0 && n <= es.len() {
        lemma_depth_branch(cx, rank, s, es, (n - 1) as nat, bound, c, d);
        lemma_depth(cx, rank, lower_branch(cx, s, es, (n - 1) as nat, c).0, es[n - 1], bound, c, d);
    }
}

proof fn lemma_depth_all(
    cx: ContractV,
    rank: Seq<nat>,
    s: EmitV,
    es: Seq<ExprV>,
    n: nat,
    bound: nat,
    c: nat,
    d: nat,
)
    requires
        is_ranking(cx.helpers, rank),
        all_within(cx.helpers, rank, es, bound),
        bound <= c,
        bound <= d,
    ensures
        lower_all(cx, s, es, n, c) == lower_all(cx, s, es, n, d),
    decreases bound, es, n,
{
    if n > 0 && n <= es.len() {
        lemma_depth_all(cx, rank, s, es, (n - 1) as nat, bound, c, d);
        lemma_depth(cx, rank, lower_all(cx, s, es, (n - 1) as nat, c).0, es[n - 1], bound, c, d);
    }
}

proof fn lemma_depth_run(
    cx: ContractV,
    rank: Seq<nat>,
    s: EmitV,
    es: Seq<ExprV>,
    n: nat,
    what: Seq<char>,
    bound: nat,
    c: nat,
    d: nat,
)
    requires
        is_ranking(cx.helpers, rank),
        all_within(cx.helpers, rank, es, bound),
        bound <= c,
        bound <= d,
    ensures
        lower_run(cx, s, es, n, what, c) == lower_run(cx, s, es, n, what, d),
    decreases bound, es, n,
{
    if n > 0 && n <= es.len() {
        lemma_depth_run(cx, rank, s, es, (n - 1) as nat, what, bound, c, d);
        lemma_depth(cx, rank, lower_run(cx, s, es, (n - 1) as nat, what, c).0, es[n - 1], bound, c, d);
    }
}

proof fn lemma_depth_fields(
    cx: ContractV,
    rank: Seq<nat>,
    s: EmitV,
    fs: Seq<(Seq<char>, ExprV)>,
    order: Seq<int>,
    n: nat,
    bound: nat,
    c: nat,
    d: nat,
)
    requires
        is_ranking(cx.helpers, rank),
        fields_within(cx.helpers, rank, fs, bound),
        bound <= c,
        bound <= d,
    ensures
        lower_fields(cx, s, fs, order, n, c) == lower_fields(cx, s, fs, order, n, d),
    decreases bound, fs, n,
{
    if n > 0 && n <= order.len() {
        lemma_depth_fields(cx, rank, s, fs, order, (n - 1) as nat, bound, c, d);
        if 0 <= order[n - 1] < fs.len() {
            let a = lower_fields(cx, s, fs, order, (n - 1) as nat, c).0;
            lemma_depth(cx, rank, a, fs[order[n - 1]].1, bound, c, d);
        }
    }
}

proof fn lemma_depth_arg(
    cx: ContractV,
    rank: Seq<nat>,
    s: EmitV,
    args: Seq<ExprV>,
    i: nat,
    bound: nat,
    c: nat,
    d: nat,
)
    requires
        is_ranking(cx.helpers, rank),
        all_within(cx.helpers, rank, args, bound),
        bound <= c,
        bound <= d,
    ensures
        lower_arg(cx, s, args, i, c) == lower_arg(cx, s, args, i, d),
    decreases bound, args, 0nat,
{
    if i < args.len() {
        lemma_depth(cx, rank, s, args[i as int], bound, c, d);
    }
}

proof fn lemma_depth_ledger(cx: ContractV, rank: Seq<nat>, s: EmitV, e: ExprV, bound: nat, c: nat, d: nat)
    requires
        is_ranking(cx.helpers, rank),
        within(cx.helpers, rank, e, bound),
        bound <= c,
        bound <= d,
        e is LedgerAccess,
    ensures
        lower(cx, s, e, c) == lower(cx, s, e, d),
    decreases bound, e, 0nat,
{
    match e {
        ExprV::LedgerAccess { field, method, args, .. } => {
            let a = lower_arg(cx, s, args, 0, c).0;
            lemma_depth_arg(cx, rank, s, args, 0, bound, c, d);
            lemma_depth_arg(cx, rank, a, args, 1, bound, c, d);
            match field_slot(cx, field) {
                None => {}
                Some(slot) => match slot_type(cx, slot) {
                    None => {
                        assert(lower_cell_method(cx, s, slot, None, field, method, args, c) == lower_cell_method(
                            cx,
                            s,
                            slot,
                            None,
                            field,
                            method,
                            args,
                            d,
                        ));
                    }
                    Some(t) => {
                        assert(lower_cell_method(cx, s, slot, Some(t), field, method, args, c) == lower_cell_method(
                            cx,
                            s,
                            slot,
                            Some(t),
                            field,
                            method,
                            args,
                            d,
                        ));
                        assert(lower_merkle_method(cx, s, slot, method, args, c) == lower_merkle_method(
                            cx,
                            s,
                            slot,
                            method,
                            args,
                            d,
                        ));
                        match (map_kv(t), set_inner(t)) {
                            (Some((k, v)), _) => {
                                assert(lower_map_method(cx, s, slot, k, v, method, args, c) == lower_map_method(
                                    cx,
                                    s,
                                    slot,
                                    k,
                                    v,
                                    method,
                                    args,
                                    d,
                                ));
                            }
                            (None, Some(elem)) => {
                                assert(lower_set_method(cx, s, slot, elem, method, args, c) == lower_set_method(
                                    cx,
                                    s,
                                    slot,
                                    elem,
                                    method,
                                    args,
                                    d,
                                ));
                            }
                            _ => {}
                        }
                    }
                },
            }
        }
        _ => {}
    }
}

proof fn lemma_depth_params(
    cx: ContractV,
    rank: Seq<nat>,
    s: EmitV,
    params: Seq<ParamV>,
    args: Seq<ExprV>,
    n: nat,
    counter: u32,
    bound: nat,
    c: nat,
    d: nat,
)
    requires
        is_ranking(cx.helpers, rank),
        all_within(cx.helpers, rank, args, bound),
        bound <= c,
        bound <= d,
    ensures
        lower_params(cx, s, params, args, n, counter, c) == lower_params(cx, s, params, args, n, counter, d),
    decreases bound, args, n,
{
    if n > 0 && n <= args.len() {
        lemma_depth_params(cx, rank, s, params, args, (n - 1) as nat, counter, bound, c, d);
        let a = lower_params(cx, s, params, args, (n - 1) as nat, counter, c).0;
        lemma_depth(cx, rank, a, args[n - 1], bound, c, d);
    }
}

proof fn lemma_depth_call(cx: ContractV, rank: Seq<nat>, s: EmitV, e: ExprV, bound: nat, c: nat, d: nat)
    requires
        is_ranking(cx.helpers, rank),
        within(cx.helpers, rank, e, bound),
        bound <= c,
        bound <= d,
        e is FnCall,
    ensures
        lower(cx, s, e, c) == lower(cx, s, e, d),
    decreases bound, e, 0nat,
{
    match e {
        ExprV::FnCall { name, path, args, .. } => {
            if bound < cx.helpers.len() {
                assert(all_below(cx.helpers, rank, args, bound));
            }
            if name == "merkle_tree_path_root"@ {
                if args.len() > 0 {
                    lemma_depth(cx, rank, s, args[0], bound, c, d);
                }
                assert(lower_path_root(cx, s, args, c) == lower_path_root(cx, s, args, d));
            } else {
                lemma_found(cx.helpers, name, cx.helpers.len());
                match find_helper(cx.helpers, name, cx.helpers.len()) {
                    Some(h) => {
                        let i = helper_position(cx.helpers, name, cx.helpers.len())->0;
                        assert(rank[i] < bound);
                        if h.params.len() == args.len() {
                            let counter = s.helper_counter;
                            let a = EmitV { helper_counter: counter.wrapping_add(1), ..s };
                            lemma_depth_params(cx, rank, a, h.params, args, args.len(), counter, bound, c, d);
                            let b = lower_params(cx, a, h.params, args, args.len(), counter, c).0;
                            let names = param_names(h.params, h.params.len(), counter);
                            let body = renamed_list(h.body, h.body.len(), names, counter, h.params.len() as u32).exprs;
                            assert(all_below(cx.helpers, rank, cx.helpers[i].body, rank[i]));
                            lemma_renamed_list_below(
                                cx.helpers,
                                rank,
                                rank[i],
                                h.body,
                                h.body.len(),
                                names,
                                counter,
                                h.params.len() as u32,
                            );
                            let inner = EmitV { in_helper: true, ..b };
                            lemma_depth_seq(
                                cx,
                                rank,
                                inner,
                                body,
                                body.len(),
                                rank[i],
                                (c - 1) as nat,
                                (d - 1) as nat,
                            );
                        }
                        assert(lower_helper(cx, s, h, args, c) == lower_helper(cx, s, h, args, d));
                    }
                    None => {
                        if args.len() == 1 && wraps_value(path) {
                            lemma_depth(cx, rank, s, args[0], bound, c, d);
                        } else {
                            lemma_depth_all(cx, rank, s, args, args.len(), bound, c, d);
                        }
                    }
                }
            }
        }
        _ => {}
    }
}

// ---- fresh names

proof fn lemma_dec_digits(n: nat)
    ensures
        dec(n).len() > 0,
        forall|i: int| 0 <= i < dec(n).len() ==> #[trigger] dec(n)[i] != '_',
    decreases n,
{
    if n >= 10 {
        lemma_dec_digits(n / 10);
        assert forall|i: int| 0 <= i < dec(n).len() implies #[trigger] dec(n)[i] != '_' by {
            if i < dec(n / 10).len() {
                assert(dec(n)[i] == dec(n / 10)[i]);
            }
        }
    }
}

proof fn lemma_dec_differs(a: nat, b: nat)
    ensures
        dec(a) == dec(b) ==> a == b,
    decreases a,
{
    lemma_dec_digits(a / 10);
    lemma_dec_digits(b / 10);
    if dec(a) == dec(b) {
        if a >= 10 && b >= 10 {
            assert(dec(a).drop_last() =~= dec(a / 10));
            assert(dec(b).drop_last() =~= dec(b / 10));
            lemma_dec_differs(a / 10, b / 10);
            assert(dec(a).last() == digit_char(a % 10));
            assert(dec(b).last() == digit_char(b % 10));
        } else if a < 10 && b < 10 {
            assert(dec(a)[0] == digit_char(a));
            assert(dec(b)[0] == digit_char(b));
        }
    }
}

/// A number and what stands behind the underscore after it can be told apart.
proof fn lemma_numbered(a: nat, x: Seq<char>, b: nat, y: Seq<char>)
    requires
        dec(a) + "_"@ + x == dec(b) + "_"@ + y,
    ensures
        a == b,
        x == y,
{
    reveal_strlit("_");
    lemma_dec_digits(a);
    lemma_dec_digits(b);
    let l = dec(a) + "_"@ + x;
    let r = dec(b) + "_"@ + y;
    assert(l[dec(a).len() as int] == '_');
    assert(r[dec(b).len() as int] == '_');
    if dec(a).len() < dec(b).len() {
        assert(r[dec(a).len() as int] == dec(b)[dec(a).len() as int]);
    } else if dec(b).len() < dec(a).len() {
        assert(l[dec(b).len() as int] == dec(a)[dec(b).len() as int]);
    }
    assert(dec(a) =~= l.take(dec(a).len() as int));
    assert(dec(b) =~= r.take(dec(b).len() as int));
    lemma_dec_differs(a, b);
    assert(x =~= l.skip((dec(a).len() + 1) as int));
    assert(y =~= r.skip((dec(b).len() + 1) as int));
}

// ---- the laws

/// Fresh names of different splices, of different bindings of one splice, or
/// for different source names never collide.
pub proof fn fresh_names_never_collide(c: u32, i: u32, name: Seq<char>, d: u32, j: u32, other: Seq<char>)
    ensures
        fresh_name(c, i, name) == fresh_name(d, j, other) <==> c == d && i == j && name == other,
{
    if fresh_name(c, i, name) == fresh_name(d, j, other) {
        let x = dec(i as nat) + "_"@ + name;
        let y = dec(j as nat) + "_"@ + other;
        let l = dec(c as nat) + "_"@ + x;
        let r = dec(d as nat) + "_"@ + y;
        reveal_strlit("__h");
        assert(fresh_name(c, i, name) =~= "__h"@ + l);
        assert(fresh_name(d, j, other) =~= "__h"@ + r);
        assert(l =~= fresh_name(c, i, name).skip(3));
        assert(r =~= fresh_name(d, j, other).skip(3));
        lemma_numbered(c as nat, x, d as nat, y);
        lemma_numbered(i as nat, name, j as nat, other);
    }
}

/// Where no helper reaches itself, splicing never runs out of the nesting that
/// lowering allows: more of it gives the same result.
pub proof fn splicing_is_never_cut_off(cx: ContractV, s: EmitV, e: ExprV, depth: nat)
    requires
        acyclic(call_graph(cx.helpers)),
        depth >= cx.helpers.len(),
    ensures
        lower(cx, s, e, depth) == lower(cx, s, e, cx.helpers.len()),
{
    let rank = acyclic_helpers_are_ranked(cx.helpers);
    lemma_depth(cx, rank, s, e, cx.helpers.len(), depth, cx.helpers.len());
}

} // verus!
