//! What holds of every walk over private-input events.
use crate::contract::ContractV;
use crate::expr::{AssertV, ExprV};
use crate::lowering::evaluation_order;
use crate::private_events::{walk, walk_fields, walk_list, was_touched, EventV, TrackerV};
use vstd::prelude::*;

verus! {

/// A walk from `t` to `r` ends where it began and reports each field at most
/// once, and none that was touched before.
#[verifier::opaque]
pub open spec fn reports_once(t: TrackerV, r: (TrackerV, Seq<EventV>)) -> bool {
    &&& r.0.in_branch == t.in_branch
    &&& forall|f: Seq<char>| was_touched(t, f) ==> #[trigger] was_touched(r.0, f)
    &&& forall|i: int|
        0 <= i < r.1.len() && (#[trigger] r.1[i]).args is None ==> !was_touched(t, r.1[i].name) && was_touched(
            r.0,
            r.1[i].name,
        )
    &&& forall|i: int, j: int|
        0 <= i < j < r.1.len() && (#[trigger] r.1[i]).args is None && (#[trigger] r.1[j]).args is None ==> r.1[i].name
            != r.1[j].name
}

proof fn lemma_after(t: TrackerV, a: (TrackerV, Seq<EventV>), b: (TrackerV, Seq<EventV>))
    requires
        reports_once(t, a),
        reports_once(a.0, b),
    ensures
        reports_once(t, (b.0, a.1 + b.1)),
{
    reveal(reports_once);
    let r = (b.0, a.1 + b.1);
    assert forall|f: Seq<char>| was_touched(t, f) implies #[trigger] was_touched(r.0, f) by {
        assert(was_touched(a.0, f));
    }
    assert forall|i: int| 0 <= i < r.1.len() && (#[trigger] r.1[i]).args is None implies !was_touched(t, r.1[i].name)
        && was_touched(r.0, r.1[i].name) by {
        if i < a.1.len() {
            assert(r.1[i] == a.1[i]);
        } else {
            assert(r.1[i] == b.1[i - a.1.len()]);
        }
    }
    assert forall|i: int, j: int|
        0 <= i < j < r.1.len() && (#[trigger] r.1[i]).args is None && (#[trigger] r.1[j]).args is None implies r.1[i].name
        != r.1[j].name by {
        if j < a.1.len() {
            assert(r.1[i] == a.1[i] && r.1[j] == a.1[j]);
        } else if i < a.1.len() {
            assert(r.1[i] == a.1[i] && r.1[j] == b.1[j - a.1.len()]);
            assert(was_touched(a.0, a.1[i].name));
        } else {
            assert(r.1[i] == b.1[i - a.1.len()] && r.1[j] == b.1[j - a.1.len()]);
        }
    }
}

proof fn lemma_none(t: TrackerV)
    ensures
        reports_once(t, (t, Seq::<EventV>::empty())),
{
    reveal(reports_once);
}

/// The branch flag has no part in what was touched.
proof fn lemma_inside(c: TrackerV, a: (TrackerV, Seq<EventV>))
    requires
        reports_once(TrackerV { in_branch: true, ..c }, a),
    ensures
        reports_once(c, (TrackerV { in_branch: c.in_branch, ..a.0 }, a.1)),
{
    reveal(reports_once);
    let inside = TrackerV { in_branch: true, ..c };
    let r = (TrackerV { in_branch: c.in_branch, ..a.0 }, a.1);
    assert forall|f: Seq<char>| was_touched(c, f) implies #[trigger] was_touched(r.0, f) by {
        assert(was_touched(inside, f));
        assert(was_touched(a.0, f));
    }
    assert forall|i: int| 0 <= i < r.1.len() && (#[trigger] r.1[i]).args is None implies !was_touched(c, r.1[i].name)
        && was_touched(r.0, r.1[i].name) by {
        assert(a.1[i].args is None);
        assert(!was_touched(inside, a.1[i].name));
        assert(was_touched(a.0, a.1[i].name));
    }
}

/// Walking over an expression leaves the branch flag as it was, and reports
/// each witness field at most once: no field twice, and none that was touched
/// before.
pub proof fn walks_report_each_field_once(cx: ContractV, t: TrackerV, e: ExprV)
    ensures
        reports_once(t, walk(cx, t, e)),
    decreases e, 0nat,
{
    lemma_none(t);
    match e {
        ExprV::WitnessAccess { field, .. } => {
            reveal(reports_once);
        }
        ExprV::WitnessCall { name, args, .. } => {
            lists_report_each_field_once(cx, t, args, args.len());
            let a = walk_list(cx, t, args, args.len());
            let ev = EventV { name, args: Some(args), in_branch: a.0.in_branch };
            let b = (a.0, seq![ev]);
            assert(reports_once(a.0, b)) by {
                reveal(reports_once);
            }
            lemma_after(t, a, b);
            assert(a.1 + seq![ev] =~= a.1.push(ev));
        }
        ExprV::LedgerAccess { args, .. } => lists_report_each_field_once(cx, t, args, args.len()),
        ExprV::FnCall { args, .. } => lists_report_each_field_once(cx, t, args, args.len()),
        ExprV::MethodCall { receiver, args, .. } => {
            let a = walk(cx, t, *receiver);
            walks_report_each_field_once(cx, t, *receiver);
            lists_report_each_field_once(cx, a.0, args, args.len());
            lemma_after(t, a, walk_list(cx, a.0, args, args.len()));
        }
        ExprV::BinaryOp { lhs, rhs, .. } => {
            let a = walk(cx, t, *lhs);
            walks_report_each_field_once(cx, t, *lhs);
            walks_report_each_field_once(cx, a.0, *rhs);
            lemma_after(t, a, walk(cx, a.0, *rhs));
        }
        ExprV::UnaryOp { expr, .. } => walks_report_each_field_once(cx, t, *expr),
        ExprV::Reference { expr, .. } => walks_report_each_field_once(cx, t, *expr),
        ExprV::Disclose { value, .. } => walks_report_each_field_once(cx, t, *value),
        ExprV::Let { value, .. } => walks_report_each_field_once(cx, t, *value),
        ExprV::Block { stmts, .. } => lists_report_each_field_once(cx, t, stmts, stmts.len()),
        ExprV::Assert { kind, .. } => match kind {
            AssertV::Assert(c) => walks_report_each_field_once(cx, t, *c),
            AssertV::AssertEq(l, r) => {
                let a = walk(cx, t, *l);
                walks_report_each_field_once(cx, t, *l);
                walks_report_each_field_once(cx, a.0, *r);
                lemma_after(t, a, walk(cx, a.0, *r));
            }
        },
        ExprV::If { cond, then_branch, else_branch, .. } => {
            let c = walk(cx, t, *cond);
            let inside = TrackerV { in_branch: true, ..c.0 };
            let a = walk_list(cx, inside, then_branch, then_branch.len());
            walks_report_each_field_once(cx, t, *cond);
            lists_report_each_field_once(cx, inside, then_branch, then_branch.len());
            match else_branch {
                Some(eb) => {
                    let b = walk_list(cx, a.0, eb, eb.len());
                    lists_report_each_field_once(cx, a.0, eb, eb.len());
                    lemma_after(inside, a, b);
                    lemma_inside(c.0, (b.0, a.1 + b.1));
                    lemma_after(t, c, (TrackerV { in_branch: c.0.in_branch, ..b.0 }, a.1 + b.1));
                    assert(c.1 + (a.1 + b.1) =~= c.1 + a.1 + b.1);
                }
                None => {
                    lemma_inside(c.0, a);
                    lemma_after(t, c, (TrackerV { in_branch: c.0.in_branch, ..a.0 }, a.1));
                }
            }
        }
        ExprV::EnumPayload { scrutinee, .. } => walks_report_each_field_once(cx, t, *scrutinee),
        ExprV::Index { array, .. } => walks_report_each_field_once(cx, t, *array),
        ExprV::Tuple { elements, .. } => lists_report_each_field_once(cx, t, elements, elements.len()),
        ExprV::ArrayLit { elements, .. } => lists_report_each_field_once(cx, t, elements, elements.len()),
        ExprV::StructInit { name, fields, .. } => {
            let order = evaluation_order(cx, name, fields);
            lemma_fields(cx, t, fields, order, order.len());
        }
        ExprV::Return { value, .. } => match value {
            Some(v) => walks_report_each_field_once(cx, t, *v),
            None => {}
        },
        _ => {}
    }
}

/// The same of the first `n` expressions of a list, such as a circuit's body.
pub proof fn lists_report_each_field_once(cx: ContractV, t: TrackerV, es: Seq<ExprV>, n: nat)
    ensures
        reports_once(t, walk_list(cx, t, es, n)),
    decreases es, n,
{
    if n > 0 && n <= es.len() {
        let a = walk_list(cx, t, es, (n - 1) as nat);
        lists_report_each_field_once(cx, t, es, (n - 1) as nat);
        walks_report_each_field_once(cx, a.0, es[n - 1]);
        lemma_after(t, a, walk(cx, a.0, es[n - 1]));
    } else {
        lemma_none(t);
    }
}

proof fn lemma_fields(cx: ContractV, t: TrackerV, fs: Seq<(Seq<char>, ExprV)>, order: Seq<int>, n: nat)
    ensures
        reports_once(t, walk_fields(cx, t, fs, order, n)),
    decreases fs, n,
{
    if n > 0 && n <= order.len() {
        let a = walk_fields(cx, t, fs, order, (n - 1) as nat);
        lemma_fields(cx, t, fs, order, (n - 1) as nat);
        if 0 <= order[n - 1] < fs.len() {
            walks_report_each_field_once(cx, a.0, fs[order[n - 1]].1);
            lemma_after(t, a, walk(cx, a.0, fs[order[n - 1]].1));
        }
    } else {
        lemma_none(t);
    }
}

} // verus!
