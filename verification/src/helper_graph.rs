//! The call graph of helpers. Splicing a helper into its call sites ends only
//! when no helper reaches itself.
use crate::body::{for_each_of, refs_view};
use crate::contract::{HelperIR, HelperV};
use crate::error::{ErrorV, MidnightResult};
use crate::expr::{expr_view, exprs_view, ExprIR, ExprV};
use crate::reading::{nodes_of, unsupported_error};
use crate::text::{cat2, cat3, same};
use crate::zkir_emitter::ints;
use vstd::prelude::*;

verus! {

/// The position of the last helper of a name among the first `n`.
pub open spec fn helper_position(hs: Seq<HelperV>, name: Seq<char>, n: nat) -> Option<int>
    decreases n,
{
    if n == 0 || n > hs.len() {
        None
    } else if hs[n - 1].name == name {
        Some(n - 1)
    } else {
        helper_position(hs, name, (n - 1) as nat)
    }
}

/// The helpers that the first `n` nodes call, in order.
pub open spec fn callees(hs: Seq<HelperV>, ns: Seq<ExprV>, n: nat) -> Seq<int>
    decreases n,
{
    if n == 0 || n > ns.len() {
        seq![]
    } else {
        let before = callees(hs, ns, (n - 1) as nat);
        match ns[n - 1] {
            ExprV::FnCall { name, .. } => match helper_position(hs, name, hs.len()) {
                Some(i) => before.push(i),
                None => before,
            },
            _ => before,
        }
    }
}

/// The helpers that a helper calls.
pub open spec fn edges_of(hs: Seq<HelperV>, h: HelperV) -> Seq<int> {
    let ns = nodes_of(h.body, h.body.len());
    callees(hs, ns, ns.len())
}

/// The call graph: for each helper, the helpers it calls.
pub open spec fn call_graph(hs: Seq<HelperV>) -> Seq<Seq<int>> {
    Seq::new(hs.len(), |i: int| edges_of(hs, hs[i]))
}

/// Whether every edge leads to a node.
pub open spec fn is_graph(g: Seq<Seq<int>>) -> bool {
    forall|i: int, j: int|
        0 <= i < g.len() && 0 <= j < g[i].len() ==> 0 <= #[trigger] g[i][j] < g.len()
}

pub open spec fn has_edge(g: Seq<Seq<int>>, a: int, b: int) -> bool {
    0 <= a < g.len() && g[a].contains(b)
}

/// Whether each node of `w` calls the next.
pub open spec fn is_walk(g: Seq<Seq<int>>, w: Seq<int>) -> bool {
    forall|i: int| 0 <= i < w.len() - 1 ==> has_edge(g, #[trigger] w[i], w[i + 1])
}

/// A walk back to where it began.
pub open spec fn is_cycle(g: Seq<Seq<int>>, c: Seq<int>) -> bool {
    c.len() >= 2 && is_walk(g, c) && c[0] == c[c.len() - 1]
}

/// Whether no node reaches itself.
pub open spec fn acyclic(g: Seq<Seq<int>>) -> bool {
    forall|c: Seq<int>| !(#[trigger] is_cycle(g, c))
}

/// Visits a node behind `path`: the finished nodes with those that the node
/// reaches and itself added, or the first cycle met.
pub open spec fn visit(g: Seq<Seq<int>>, node: int, done: Seq<int>, path: Seq<int>) -> Result<Seq<int>, Seq<int>>
    decreases g.len() - path.len(), 1nat, 0nat,
{
    if path.len() < g.len() && 0 <= node < g.len() {
        match visit_edges(g, g[node], g[node].len(), done, path.push(node)) {
            Err(c) => Err(c),
            Ok(d) => Ok(d.push(node)),
        }
    } else {
        Ok(done)
    }
}

/// Visits the targets of the first `k` edges. An edge back into the path
/// closes a cycle.
pub open spec fn visit_edges(g: Seq<Seq<int>>, es: Seq<int>, k: nat, done: Seq<int>, path: Seq<int>) -> Result<
    Seq<int>,
    Seq<int>,
>
    decreases g.len() - path.len(), 2nat, k,
{
    if k == 0 || k > es.len() {
        Ok(done)
    } else {
        match visit_edges(g, es, (k - 1) as nat, done, path) {
            Err(c) => Err(c),
            Ok(d) => {
                let next = es[k - 1];
                if path.contains(next) {
                    Err(path.subrange(path.index_of(next), path.len() as int).push(next))
                } else if d.contains(next) {
                    Ok(d)
                } else {
                    visit(g, next, d, path)
                }
            }
        }
    }
}

/// Visits the first `k` nodes: the finished nodes, or the node from which the
/// first cycle was met and the cycle.
pub open spec fn visit_all(g: Seq<Seq<int>>, k: nat) -> Result<Seq<int>, (int, Seq<int>)>
    decreases k,
{
    if k == 0 || k > g.len() {
        Ok(seq![])
    } else {
        match visit_all(g, (k - 1) as nat) {
            Err(x) => Err(x),
            Ok(d) => if d.contains(k - 1) {
                Ok(d)
            } else {
                match visit(g, k - 1, d, seq![]) {
                    Err(c) => Err((k - 1, c)),
                    Ok(d2) => Ok(d2),
                }
            },
        }
    }
}

/// The names of a chain of helpers, joined by arrows.
pub open spec fn chain_text(hs: Seq<HelperV>, c: Seq<int>) -> Seq<char>
    decreases c.len(),
{
    if c.len() == 0 {
        seq![]
    } else if c.len() == 1 {
        hs[c[0]].name
    } else {
        chain_text(hs, c.drop_last()) + " → "@ + hs[c.last()].name
    }
}

/// The error for helpers that reach themselves.
pub open spec fn recursion_error(hs: Seq<HelperV>) -> Option<ErrorV> {
    match visit_all(call_graph(hs), hs.len()) {
        Ok(_) => None,
        Err((root, c)) => Some(unsupported_error(hs[root].span, "recursive helper: "@ + chain_text(hs, c))),
    }
}

// ---- what the visit finds

/// Whether the edges of each finished node lead to nodes finished before it.
pub open spec fn finished_in_order(g: Seq<Seq<int>>, done: Seq<int>) -> bool {
    forall|i: int, b: int|
        0 <= i < done.len() && #[trigger] has_edge(g, done[i], b) ==> done.take(i).contains(b)
}

pub open spec fn in_range(g: Seq<Seq<int>>, s: Seq<int>) -> bool {
    forall|i: int| 0 <= i < s.len() ==> 0 <= #[trigger] s[i] < g.len()
}

proof fn lemma_path_fits(g: Seq<Seq<int>>, path: Seq<int>)
    requires
        path.no_duplicates(),
        in_range(g, path),
    ensures
        path.len() <= g.len(),
{
    path.unique_seq_to_set();
    vstd::set_lib::lemma_int_range(0, g.len() as int);
    assert(path.to_set().subset_of(vstd::set_lib::set_int_range(0, g.len() as int)));
    vstd::set_lib::lemma_len_subset(path.to_set(), vstd::set_lib::set_int_range(0, g.len() as int));
}

/// What holds of every visit behind a walk.
pub open spec fn visited(g: Seq<Seq<int>>, done: Seq<int>, r: Result<Seq<int>, Seq<int>>) -> bool {
    match r {
        Ok(d) => finished_in_order(g, d) && in_range(g, d) && done.len() <= d.len() && d.take(done.len() as int) == done,
        Err(c) => is_cycle(g, c),
    }
}

proof fn lemma_contains_grows(a: Seq<int>, b: Seq<int>, x: int)
    requires
        a.len() <= b.len(),
        b.take(a.len() as int) == a,
        a.contains(x),
    ensures
        b.contains(x),
{
    let i = choose|i: int| 0 <= i < a.len() && a[i] == x;
    assert(b.take(a.len() as int)[i] == x);
    assert(b[i] == x);
}

proof fn lemma_visit(g: Seq<Seq<int>>, node: int, done: Seq<int>, path: Seq<int>)
    requires
        is_graph(g),
        0 <= node < g.len(),
        path.no_duplicates(),
        in_range(g, path),
        !path.contains(node),
        is_walk(g, path.push(node)),
        finished_in_order(g, done),
        in_range(g, done),
    ensures
        visited(g, done, visit(g, node, done, path)),
        visit(g, node, done, path) matches Ok(d) ==> d.contains(node),
    decreases g.len() - path.len(), 1nat, 0nat,
{
    let p = path.push(node);
    lemma_push_fits(g, path, node);
    assert(p[p.len() - 1] == node);
    lemma_visit_edges(g, node, g[node].len(), done, p);
    match visit_edges(g, g[node], g[node].len(), done, p) {
        Err(c) => {}
        Ok(d) => {
            let d2 = d.push(node);
            assert(d2[d.len() as int] == node);
            assert(d2.take(done.len() as int) =~= d.take(done.len() as int));
            assert forall|i: int, b: int| 0 <= i < d2.len() && #[trigger] has_edge(g, d2[i], b) implies d2.take(
                i,
            ).contains(b) by {
                if i < d.len() {
                    assert(d2[i] == d[i]);
                    assert(d2.take(i) =~= d.take(i));
                } else {
                    assert(d2.take(i) =~= d);
                    let j = choose|j: int| 0 <= j < g[node].len() && g[node][j] == b;
                    assert(d.contains(g[node][j]));
                }
            }
            assert forall|i: int| 0 <= i < d2.len() implies 0 <= #[trigger] d2[i] < g.len() by {
                if i < d.len() {
                    assert(d2[i] == d[i]);
                }
            }
        }
    }
}

proof fn lemma_visit_edges(g: Seq<Seq<int>>, node: int, k: nat, done: Seq<int>, path: Seq<int>)
    requires
        is_graph(g),
        0 <= node < g.len(),
        k <= g[node].len(),
        path.len() > 0,
        path[path.len() - 1] == node,
        path.no_duplicates(),
        in_range(g, path),
        path.len() <= g.len(),
        is_walk(g, path),
        finished_in_order(g, done),
        in_range(g, done),
    ensures
        visited(g, done, visit_edges(g, g[node], k, done, path)),
        visit_edges(g, g[node], k, done, path) matches Ok(d) ==> forall|j: int|
            0 <= j < k ==> d.contains(#[trigger] g[node][j]),
    decreases g.len() - path.len(), 2nat, k,
{
    let es = g[node];
    if k > 0 {
        lemma_visit_edges(g, node, (k - 1) as nat, done, path);
        match visit_edges(g, es, (k - 1) as nat, done, path) {
            Err(c) => {}
            Ok(d) => {
                let next = es[k - 1];
                assert(g[node][k - 1] == next);
                assert(has_edge(g, node, next));
                if path.contains(next) {
                    let at = path.index_of(next);
                    let sub = path.subrange(at, path.len() as int);
                    let c = sub.push(next);
                    assert(c[0] == next);
                    assert(c[c.len() - 1] == next);
                    assert forall|i: int| 0 <= i < c.len() - 1 implies has_edge(g, #[trigger] c[i], c[i + 1]) by {
                        assert(c[i] == path[at + i]);
                        if i < sub.len() - 1 {
                            assert(c[i + 1] == path[at + i + 1]);
                            assert(has_edge(g, path[at + i], path[at + i + 1]));
                        }
                    }
                } else if d.contains(next) {
                } else {
                    let p = path.push(next);
                    assert(is_walk(g, p)) by {
                        assert forall|i: int| 0 <= i < p.len() - 1 implies has_edge(g, #[trigger] p[i], p[i + 1]) by {
                            assert(p[i] == path[i]);
                            if i < path.len() - 1 {
                                assert(p[i + 1] == path[i + 1]);
                            }
                        }
                    }
                    lemma_visit(g, next, d, path);
                    match visit(g, next, d, path) {
                        Err(_) => {}
                        Ok(d2) => {
                            assert(d2.take(done.len() as int) =~= d2.take(d.len() as int).take(done.len() as int));
                            assert forall|j: int| 0 <= j < k implies d2.contains(#[trigger] g[node][j]) by {
                                if j < k - 1 {
                                    lemma_contains_grows(d, d2, g[node][j]);
                                }
                            }
                        }
                    }
                }
            }
        }
    } else {
        assert(done.take(done.len() as int) =~= done);
    }
}

proof fn lemma_visit_all(g: Seq<Seq<int>>, k: nat)
    requires
        is_graph(g),
        k <= g.len(),
    ensures
        match visit_all(g, k) {
            Ok(d) => finished_in_order(g, d) && in_range(g, d) && forall|i: int| 0 <= i < k ==> d.contains(i),
            Err((root, c)) => 0 <= root < g.len() && is_cycle(g, c),
        },
    decreases k,
{
    if k > 0 {
        lemma_visit_all(g, (k - 1) as nat);
        match visit_all(g, (k - 1) as nat) {
            Err(_) => {}
            Ok(d) => {
                if !d.contains(k - 1) {
                    let none = Seq::<int>::empty();
                    lemma_visit(g, k - 1, d, none);
                    match visit(g, k - 1, d, none) {
                        Err(_) => {}
                        Ok(d2) => {
                            assert forall|i: int| 0 <= i < k implies d2.contains(i) by {
                                if i < k - 1 {
                                    lemma_contains_grows(d, d2, i);
                                }
                            }
                        }
                    }
                }
            }
        }
    }
}

proof fn lemma_walk_descends(g: Seq<Seq<int>>, done: Seq<int>, w: Seq<int>, n: int)
    requires
        finished_in_order(g, done),
        is_walk(g, w),
        1 <= n < w.len(),
        done.contains(w[0]),
    ensures
        done.contains(w[n]),
        done.index_of_first(w[n]) is Some,
        done.index_of_first(w[0]) is Some,
        done.index_of_first(w[n])->0 < done.index_of_first(w[0])->0,
    decreases n,
{
    if n > 1 {
        lemma_walk_descends(g, done, w, n - 1);
    }
    done.index_of_first_ensures(w[0]);
    done.index_of_first_ensures(w[n - 1]);
    done.index_of_first_ensures(w[n]);
    let i = done.index_of_first(w[n - 1])->0;
    assert(has_edge(g, w[n - 1], w[n - 1 + 1]));
    assert(done[i] == w[n - 1]);
    assert(has_edge(g, done[i], w[n]));
    assert(done.take(i).contains(w[n]));
    let j = choose|j: int| 0 <= j < i && done.take(i)[j] == w[n];
    assert(done[j] == w[n]);
    assert(done.contains(w[n]));
}

/// A graph whose nodes can all be finished with edges leading to earlier ones
/// has no cycle, and one where that fails has the cycle that was met.
pub proof fn visit_all_decides_acyclic(g: Seq<Seq<int>>)
    requires
        is_graph(g),
    ensures
        visit_all(g, g.len()) is Ok <==> acyclic(g),
        visit_all(g, g.len()) matches Err((_, c)) ==> is_cycle(g, c),
{
    lemma_visit_all(g, g.len());
    match visit_all(g, g.len()) {
        Err((_, c)) => {
            assert(is_cycle(g, c));
        }
        Ok(d) => {
            assert forall|c: Seq<int>| !(#[trigger] is_cycle(g, c)) by {
                if is_cycle(g, c) {
                    assert(has_edge(g, c[0int], c[0int + 1]));
                    assert(d.contains(c[0]));
                    lemma_walk_descends(g, d, c, c.len() - 1);
                }
            }
        }
    }
}

pub proof fn lemma_callees_in_range(hs: Seq<HelperV>, ns: Seq<ExprV>, n: nat)
    ensures
        forall|j: int| 0 <= j < callees(hs, ns, n).len() ==> 0 <= #[trigger] callees(hs, ns, n)[j] < hs.len(),
    decreases n,
{
    if 0 < n <= ns.len() {
        lemma_callees_in_range(hs, ns, (n - 1) as nat);
        match ns[n - 1] {
            ExprV::FnCall { name, .. } => {
                lemma_position_in_range(hs, name, hs.len());
            }
            _ => {}
        }
        let before = callees(hs, ns, (n - 1) as nat);
        let after = callees(hs, ns, n);
        assert forall|j: int| 0 <= j < after.len() implies 0 <= #[trigger] after[j] < hs.len() by {
            if j < before.len() {
                assert(after[j] == before[j]);
            }
        }
    }
}

proof fn lemma_position_in_range(hs: Seq<HelperV>, name: Seq<char>, n: nat)
    ensures
        helper_position(hs, name, n) matches Some(i) ==> 0 <= i < n && i < hs.len() && hs[i].name == name,
    decreases n,
{
    if 0 < n <= hs.len() {
        lemma_position_in_range(hs, name, (n - 1) as nat);
    }
}

// ---- execution

pub open spec fn graph_view(s: Seq<Vec<usize>>) -> Seq<Seq<int>> {
    Seq::new(s.len(), |i: int| ints(s[i]@))
}

proof fn lemma_position_stop(hs: Seq<HelperV>, name: Seq<char>, a: nat, b: nat)
    requires
        a <= b <= hs.len(),
        forall|j: int| a <= j < b ==> (#[trigger] hs[j]).name != name,
    ensures
        helper_position(hs, name, b) == helper_position(hs, name, a),
    decreases b,
{
    if a < b {
        lemma_position_stop(hs, name, a, (b - 1) as nat);
    }
}

fn find_helper_index(hs: &Vec<HelperIR>, name: &str) -> (r: Option<usize>)
    ensures
        match r {
            Some(i) => i < hs@.len() && helper_position(hs.deep_view(), name@, hs@.len()) == Some(i as int),
            None => helper_position(hs.deep_view(), name@, hs@.len()) is None,
        },
{
    let ghost v = hs.deep_view();
    let mut i: usize = hs.len();
    while i > 0
        invariant
            i <= hs@.len(),
            v == hs.deep_view(),
            v.len() == hs@.len(),
            forall|j: int| i <= j < v.len() ==> (#[trigger] v[j]).name != name@,
        decreases i,
    {
        i -= 1;
        assert(v[i as int] == hs@[i as int].deep_view());
        if same(hs[i].name.as_str(), name) {
            proof {
                lemma_position_stop(v, name@, (i + 1) as nat, v.len());
            }
            return Some(i);
        }
    }
    proof {
        lemma_position_stop(v, name@, 0, v.len());
    }
    None
}

fn collect_edges(hs: &Vec<HelperIR>, h: &HelperIR) -> (r: Vec<usize>)
    ensures
        ints(r@) == edges_of(hs.deep_view(), h.deep_view()),
{
    let ghost v = hs.deep_view();
    let ghost ns = nodes_of(exprs_view(h.body@), h.body@.len());
    let mut all: Vec<&ExprIR> = Vec::new();
    for_each_of(&h.body, &mut all);
    assert(refs_view(all@) =~= ns);
    let mut out: Vec<usize> = Vec::new();
    assert(ints(out@) =~= seq![]);
    let mut i: usize = 0;
    while i < all.len()
        invariant
            i <= all@.len(),
            v == hs.deep_view(),
            v.len() == hs@.len(),
            refs_view(all@) == ns,
            ints(out@) == callees(v, ns, i as nat),
        decreases all@.len() - i,
    {
        assert(ns[i as int] == expr_view(*all@[i as int]));
        match all[i] {
            ExprIR::FnCall { name, .. } => match find_helper_index(hs, name.as_str()) {
                Some(k) => {
                    let ghost before = out@;
                    out.push(k);
                    assert(ints(out@) =~= ints(before).push(k as int));
                }
                None => {}
            },
            _ => {}
        }
        i += 1;
    }
    out
}

fn find_index(s: &Vec<usize>, x: usize) -> (r: Option<usize>)
    ensures
        match r {
            Some(i) => i < s@.len() && s@[i as int] == x && ints(s@).contains(x as int),
            None => !ints(s@).contains(x as int),
        },
{
    let mut i: usize = 0;
    while i < s.len()
        invariant
            i <= s@.len(),
            forall|j: int| 0 <= j < i ==> s@[j] != x,
        decreases s@.len() - i,
    {
        if s[i] == x {
            assert(ints(s@)[i as int] == x as int);
            return Some(i);
        }
        i += 1;
    }
    None
}

pub open spec fn visit_res(r: Option<Vec<usize>>, done: Seq<usize>) -> Result<Seq<int>, Seq<int>> {
    match r {
        Some(c) => Err(ints(c@)),
        None => Ok(ints(done)),
    }
}

/// Visits a node; the cycle met, if any.
fn dfs(g: &Vec<Vec<usize>>, node: usize, done: &mut Vec<usize>, path: &mut Vec<usize>) -> (r: Option<Vec<usize>>)
    requires
        is_graph(graph_view(g@)),
        node < g@.len(),
        ints(old(path)@).no_duplicates(),
        in_range(graph_view(g@), ints(old(path)@)),
        !ints(old(path)@).contains(node as int),
    ensures
        visit_res(r, final(done)@) == visit(graph_view(g@), node as int, ints(old(done)@), ints(old(path)@)),
        r is None ==> final(path)@ == old(path)@,
    decreases g@.len() - old(path)@.len(), 1nat,
{
    let ghost gv = graph_view(g@);
    let ghost before = path@;
    let ghost start = done@;
    path.push(node);
    let ghost p = path@;
    proof {
        assert(ints(p) =~= ints(before).push(node as int));
        lemma_push_fits(gv, ints(before), node as int);
    }
    let es = &g[node];
    assert(gv[node as int] == ints(es@));
    let mut i: usize = 0;
    while i < es.len()
        invariant
            i <= es@.len(),
            gv == graph_view(g@),
            is_graph(gv),
            node < g@.len(),
            *es == g@[node as int],
            gv[node as int] == ints(es@),
            before == old(path)@,
            start == old(done)@,
            path@ == p,
            p == before.push(node),
            ints(p) == ints(before).push(node as int),
            ints(p).no_duplicates(),
            in_range(gv, ints(p)),
            p.len() <= g@.len(),
            gv.len() == g@.len(),
            visit_edges(gv, ints(es@), i as nat, ints(start), ints(p)) == Ok::<Seq<int>, Seq<int>>(ints(done@)),
            visit(gv, node as int, ints(start), ints(before)) == (match visit_edges(
                gv,
                ints(es@),
                es@.len(),
                ints(start),
                ints(p),
            ) {
                Err(c) => Err::<Seq<int>, Seq<int>>(c),
                Ok(d) => Ok(d.push(node as int)),
            }),
        decreases es@.len() - i,
    {
        let next: usize = es[i];
        assert(gv[node as int][i as int] == next as int);
        match find_index(path, next) {
            Some(at) => {
                let mut cycle: Vec<usize> = Vec::new();
                let mut k: usize = at;
                while k < path.len()
                    invariant
                        at <= k <= path@.len(),
                        path@ == p,
                        cycle@ == p.subrange(at as int, k as int),
                    decreases path@.len() - k,
                {
                    cycle.push(path[k]);
                    assert(cycle@ =~= p.subrange(at as int, k + 1));
                    k += 1;
                }
                cycle.push(next);
                proof {
                    let pv = ints(p);
                    assert(pv[at as int] == next as int);
                    assert(pv.index_of(next as int) == at as int);
                    assert(ints(cycle@) =~= pv.subrange(at as int, pv.len() as int).push(next as int));
                    lemma_edges_stop(gv, ints(es@), (i + 1) as nat, es@.len(), ints(start), pv);
                }
                return Some(cycle);
            }
            None => {
                if find_index(done, next).is_none() {
                    match dfs(g, next, done, path) {
                        Some(c) => {
                            proof {
                                lemma_edges_stop(gv, ints(es@), (i + 1) as nat, es@.len(), ints(start), ints(p));
                            }
                            return Some(c);
                        }
                        None => {}
                    }
                }
            }
        }
        i += 1;
    }
    path.pop();
    let ghost d = done@;
    done.push(node);
    proof {
        assert(ints(done@) =~= ints(d).push(node as int));
        assert(path@ =~= before);
    }
    None
}

proof fn lemma_push_fits(g: Seq<Seq<int>>, path: Seq<int>, node: int)
    requires
        path.no_duplicates(),
        in_range(g, path),
        !path.contains(node),
        0 <= node < g.len(),
    ensures
        path.push(node).no_duplicates(),
        in_range(g, path.push(node)),
        path.len() < g.len(),
{
    let p = path.push(node);
    assert forall|i: int, j: int| 0 <= i < p.len() && 0 <= j < p.len() && i != j implies p[i] != p[j] by {
        if i == path.len() {
            assert(path[j] == p[j]);
            assert(path.contains(path[j]));
        } else if j == path.len() {
            assert(path[i] == p[i]);
            assert(path.contains(path[i]));
        } else {
            assert(path[i] == p[i] && path[j] == p[j]);
        }
    }
    assert forall|i: int| 0 <= i < p.len() implies 0 <= #[trigger] p[i] < g.len() by {
        if i < path.len() {
            assert(p[i] == path[i]);
        }
    }
    lemma_path_fits(g, p);
}

proof fn lemma_edges_stop(g: Seq<Seq<int>>, es: Seq<int>, a: nat, b: nat, done: Seq<int>, path: Seq<int>)
    requires
        a <= b <= es.len(),
        visit_edges(g, es, a, done, path) is Err,
    ensures
        visit_edges(g, es, b, done, path) == visit_edges(g, es, a, done, path),
    decreases b,
{
    if a < b {
        lemma_edges_stop(g, es, a, (b - 1) as nat, done, path);
    }
}

proof fn lemma_all_stop(g: Seq<Seq<int>>, a: nat, b: nat)
    requires
        a <= b <= g.len(),
        visit_all(g, a) is Err,
    ensures
        visit_all(g, b) == visit_all(g, a),
    decreases b,
{
    if a < b {
        lemma_all_stop(g, a, (b - 1) as nat);
    }
}

fn show_chain(hs: &Vec<HelperIR>, c: &Vec<usize>) -> (r: String)
    requires
        c@.len() > 0,
        forall|i: int| 0 <= i < c@.len() ==> #[trigger] c@[i] < hs@.len(),
    ensures
        r@ == chain_text(hs.deep_view(), ints(c@)),
{
    let ghost v = hs.deep_view();
    let ghost cv = ints(c@);
    let first: usize = c[0];
    let mut out: String = hs[first].name.clone();
    let mut i: usize = 1;
    proof {
        assert(v[first as int] == hs@[first as int].deep_view());
        assert(cv.take(1)[0] == first as int);
    }
    while i < c.len()
        invariant
            1 <= i <= c@.len(),
            v == hs.deep_view(),
            v.len() == hs@.len(),
            cv == ints(c@),
            forall|k: int| 0 <= k < c@.len() ==> #[trigger] c@[k] < hs@.len(),
            out@ == chain_text(v, cv.take(i as int)),
        decreases c@.len() - i,
    {
        let next: usize = c[i];
        proof {
            assert(cv.take(i + 1).drop_last() =~= cv.take(i as int));
            assert(cv.take(i + 1).last() == next as int);
            assert(v[next as int] == hs@[next as int].deep_view());
        }
        out = cat3(out.as_str(), " → ", hs[next].name.as_str());
        i += 1;
    }
    assert(cv.take(i as int) =~= cv);
    out
}

/// Refuses helpers that reach themselves, showing the cycle met first.
pub(crate) fn validate_helpers_acyclic(hs: &Vec<HelperIR>) -> (r: MidnightResult<()>)
    ensures
        match r {
            Ok(_) => recursion_error(hs.deep_view()) is None,
            Err(e) => recursion_error(hs.deep_view()) == Some(e@),
        },
{
    let ghost v = hs.deep_view();
    let mut g: Vec<Vec<usize>> = Vec::new();
    let mut k: usize = 0;
    while k < hs.len()
        invariant
            k <= hs@.len(),
            v == hs.deep_view(),
            v.len() == hs@.len(),
            g@.len() == k,
            forall|i: int| 0 <= i < k ==> ints((#[trigger] g@[i])@) == edges_of(v, v[i]),
        decreases hs@.len() - k,
    {
        assert(v[k as int] == hs@[k as int].deep_view());
        g.push(collect_edges(hs, &hs[k]));
        k += 1;
    }
    let ghost gv = call_graph(v);
    proof {
        assert(graph_view(g@) =~= gv);
        lemma_call_graph(v);
        visit_all_decides_acyclic(gv);
        lemma_visit_all(gv, gv.len());
    }
    let mut done: Vec<usize> = Vec::new();
    assert(ints(done@) =~= seq![]);
    let mut i: usize = 0;
    while i < hs.len()
        invariant
            i <= hs@.len(),
            v == hs.deep_view(),
            v.len() == hs@.len(),
            g@.len() == hs@.len(),
            gv == call_graph(v),
            graph_view(g@) == gv,
            is_graph(gv),
            visit_all(gv, i as nat) == Ok::<Seq<int>, (int, Seq<int>)>(ints(done@)),
        decreases hs@.len() - i,
    {
        if find_index(&done, i).is_none() {
            let mut path: Vec<usize> = Vec::new();
            assert(ints(path@) =~= seq![]);
            match dfs(&g, i, &mut done, &mut path) {
                Some(c) => {
                    proof {
                        lemma_all_stop(gv, (i + 1) as nat, gv.len());
                        lemma_visit_all(gv, (i + 1) as nat);
                        lemma_cycle_in_range(gv, ints(c@));
                        assert forall|j: int| 0 <= j < c@.len() implies #[trigger] c@[j] < hs@.len() by {
                            assert(ints(c@)[j] == c@[j] as int);
                        }
                        assert(v[i as int] == hs@[i as int].deep_view());
                    }
                    let chain = show_chain(hs, &c);
                    return Err(crate::body::refused(hs[i].span, cat2("recursive helper: ", chain.as_str())));
                }
                None => {}
            }
        }
        i += 1;
    }
    Ok(())
}

proof fn lemma_cycle_in_range(g: Seq<Seq<int>>, c: Seq<int>)
    requires
        is_cycle(g, c),
    ensures
        in_range(g, c),
{
    assert forall|i: int| 0 <= i < c.len() implies 0 <= #[trigger] c[i] < g.len() by {
        if i < c.len() - 1 {
            assert(has_edge(g, c[i], c[i + 1]));
        } else {
            assert(has_edge(g, c[0int], c[0int + 1]));
        }
    }
}

// ---- laws

/// Helpers are accepted exactly when none of them reaches itself through the
/// calls in helper bodies.
pub proof fn accepted_iff_acyclic(hs: Seq<HelperV>)
    ensures
        recursion_error(hs) is None <==> acyclic(call_graph(hs)),
{
    let g = call_graph(hs);
    lemma_call_graph(hs);
    visit_all_decides_acyclic(g);
}

/// Helpers that are accepted can be put in an order in which each stands behind
/// those that it calls.
pub proof fn lemma_finishing_order(hs: Seq<HelperV>) -> (done: Seq<int>)
    requires
        acyclic(call_graph(hs)),
    ensures
        finished_in_order(call_graph(hs), done),
        forall|i: int| 0 <= i < hs.len() ==> done.contains(i),
{
    let g = call_graph(hs);
    lemma_call_graph(hs);
    visit_all_decides_acyclic(g);
    lemma_visit_all(g, g.len());
    visit_all(g, g.len())->Ok_0
}

proof fn lemma_call_graph(hs: Seq<HelperV>)
    ensures
        is_graph(call_graph(hs)),
{
    let g = call_graph(hs);
    assert forall|i: int, j: int| 0 <= i < g.len() && 0 <= j < g[i].len() implies 0 <= #[trigger] g[i][j] < g.len() by {
        let ns = nodes_of(hs[i].body, hs[i].body.len());
        lemma_callees_in_range(hs, ns, ns.len());
        assert(g[i][j] == callees(hs, ns, ns.len())[j]);
    }
}

} // verus!
