//! The order of a module's items: items of different kinds can stand in any
//! order, and what functions come to is the sum of what each item gives.
use crate::attrs::MidnightAttr;
use crate::contract::{CircuitV, ConstructorV, ContractV, HelperV, QueryV, WitnessV};
use crate::declaring::{add_fns, add_item, attr_of, bodies, contract_of, decl_of, declare_item, declared, helper_of};
use crate::declaring::{impl_targets, methods_of_fns, resolution_errors, resolve_body, resolve_circuits};
use crate::declaring::{resolve_constructors, resolve_helpers, resolve_nodes, resolve_queries, with_methods};
use crate::declaring::{witness_methods, BodiesV, FoundV, MethodsV};
use crate::error::ErrorV;
use crate::expr::ExprV;
use crate::helper_graph::{accepted_iff_acyclic, acyclic, call_graph, callees, has_edge, helper_position, is_cycle};
use crate::helper_graph::recursion_error;
use crate::reading::{nodes_of, DeclV};
use crate::syntax::{ty_view, FnItem, Item, ItemMod};
use vstd::multiset::Multiset;
use vstd::prelude::*;
use vstd::seq_lib::lemma_fold_left_permutation;

verus! {

/// The kinds of item that a contract is made of.
pub enum ItemKind {
    Ledger,
    Witnesses,
    Struct,
    Enum,
    Impl,
    Function,
    Other,
}

pub open spec fn kind_of_item(item: Item) -> ItemKind {
    match item {
        Item::Struct { attrs, .. } => match attr_of(attrs@) {
            Ok(Some((MidnightAttr::Ledger, _))) => ItemKind::Ledger,
            Ok(Some((MidnightAttr::Witnesses, _))) => ItemKind::Witnesses,
            _ => ItemKind::Struct,
        },
        Item::Enum { .. } => ItemKind::Enum,
        Item::Impl { .. } => ItemKind::Impl,
        Item::Fn(_) => ItemKind::Function,
        _ => ItemKind::Other,
    }
}

/// Those of the first `n` items that are of a kind, in their order.
pub open spec fn only(items: Seq<Item>, n: nat, kind: ItemKind) -> Seq<Item>
    decreases n,
{
    if n == 0 || n > items.len() {
        seq![]
    } else if kind_of_item(items[n - 1]) == kind {
        only(items, (n - 1) as nat, kind).push(items[n - 1])
    } else {
        only(items, (n - 1) as nat, kind)
    }
}

// ---- folds over a prefix

proof fn lemma_declared_prefix(a: Seq<Item>, x: Item, n: nat)
    requires
        n <= a.len(),
    ensures
        declared(a.push(x), n) == declared(a, n),
    decreases n,
{
    if n > 0 {
        lemma_declared_prefix(a, x, (n - 1) as nat);
        assert(a.push(x)[n - 1] == a[n - 1]);
    }
}

proof fn lemma_methods_prefix(a: Seq<Item>, x: Item, name: Seq<char>, n: nat)
    requires
        n <= a.len(),
    ensures
        witness_methods(a.push(x), name, seq![], n) == witness_methods(a, name, seq![], n),
    decreases n,
{
    if n > 0 {
        lemma_methods_prefix(a, x, name, (n - 1) as nat);
        assert(a.push(x)[n - 1] == a[n - 1]);
    }
}

proof fn lemma_bodies_prefix(cx: DeclV, a: Seq<Item>, x: Item, n: nat)
    requires
        n <= a.len(),
    ensures
        bodies(cx, a.push(x), seq![], n) == bodies(cx, a, seq![], n),
    decreases n,
{
    if n > 0 {
        lemma_bodies_prefix(cx, a, x, (n - 1) as nat);
        assert(a.push(x)[n - 1] == a[n - 1]);
    }
}

/// What the items of one kind declare by themselves.
pub open spec fn declared_by(items: Seq<Item>, n: nat, kind: ItemKind) -> FoundV {
    let own = only(items, n, kind);
    declared(own, own.len())
}

pub(crate) proof fn lemma_declared_push(items: Seq<Item>, n: nat)
    requires
        0 < n <= items.len(),
    ensures
        declared_by(items, n, kind_of_item(items[n - 1])) == declare_item(
            declared_by(items, (n - 1) as nat, kind_of_item(items[n - 1])),
            items[n - 1],
        ),
{
    let kind = kind_of_item(items[n - 1]);
    let before = only(items, (n - 1) as nat, kind);
    lemma_declared_prefix(before, items[n - 1], before.len());
    assert(before.push(items[n - 1])[before.len() as int] == items[n - 1]);
}

/// Each kind of declaration depends on the items of that kind alone.
pub(crate) proof fn lemma_declared(items: Seq<Item>, n: nat)
    requires
        n <= items.len(),
    ensures
        ({
            let s = declared(items, n);
            let l = declared_by(items, n, ItemKind::Ledger);
            let w = declared_by(items, n, ItemKind::Witnesses);
            let t = declared_by(items, n, ItemKind::Struct);
            let e = declared_by(items, n, ItemKind::Enum);
            &&& s.ledger_seen == l.ledger_seen && s.ledger == l.ledger
            &&& s.witnesses_seen == w.witnesses_seen && s.witnesses == w.witnesses
            &&& s.structs == t.structs
            &&& s.enums == e.enums
            &&& s.errors.len() == l.errors.len() + w.errors.len() + t.errors.len() + e.errors.len()
        }),
    decreases n,
{
    if n > 0 {
        lemma_declared(items, (n - 1) as nat);
        lemma_declared_push(items, n);
    }
}

proof fn lemma_methods_of_fns(a: MethodsV, b: MethodsV, fns: Seq<FnItem>, n: nat)
    requires
        a.methods == b.methods,
    ensures
        methods_of_fns(a, fns, n).methods == methods_of_fns(b, fns, n).methods,
        methods_of_fns(a, fns, n).errors.len() - a.errors.len() == methods_of_fns(b, fns, n).errors.len()
            - b.errors.len(),
    decreases n,
{
    if n > 0 && n <= fns.len() {
        lemma_methods_of_fns(a, b, fns, (n - 1) as nat);
    }
}

/// The witness methods that the impl blocks give by themselves.
pub open spec fn methods_by(items: Seq<Item>, n: nat, name: Seq<char>) -> MethodsV {
    let own = only(items, n, ItemKind::Impl);
    witness_methods(own, name, seq![], own.len())
}

proof fn lemma_methods(items: Seq<Item>, name: Seq<char>, errors: Seq<ErrorV>, n: nat)
    requires
        n <= items.len(),
    ensures
        witness_methods(items, name, errors, n).methods == methods_by(items, n, name).methods,
        witness_methods(items, name, errors, n).errors.len() == errors.len() + methods_by(items, n, name).errors.len(),
    decreases n,
{
    if n > 0 {
        lemma_methods(items, name, errors, (n - 1) as nat);
        if kind_of_item(items[n - 1]) == ItemKind::Impl {
            let before = only(items, (n - 1) as nat, ItemKind::Impl);
            lemma_methods_prefix(before, items[n - 1], name, before.len());
            assert(before.push(items[n - 1])[before.len() as int] == items[n - 1]);
            let a = witness_methods(items, name, errors, (n - 1) as nat);
            let b = methods_by(items, (n - 1) as nat, name);
            match items[n - 1] {
                Item::Impl { fns, .. } => lemma_methods_of_fns(a, b, fns@, fns@.len()),
                _ => {}
            }
        }
    }
}

/// The same constructors, circuits and queries.
pub open spec fn same_functions(a: BodiesV, b: BodiesV) -> bool {
    &&& a.constructors == b.constructors
    &&& a.circuits == b.circuits
    &&& a.queries == b.queries
}

proof fn lemma_add_fns(cx: DeclV, a: BodiesV, b: BodiesV, fns: Seq<FnItem>, n: nat)
    requires
        same_functions(a, b),
    ensures
        same_functions(add_fns(cx, a, fns, n), add_fns(cx, b, fns, n)),
        add_fns(cx, a, fns, n).helpers == a.helpers,
        add_fns(cx, b, fns, n).helpers == b.helpers,
        add_fns(cx, a, fns, n).errors.len() - a.errors.len() == add_fns(cx, b, fns, n).errors.len() - b.errors.len(),
    decreases n,
{
    if n > 0 && n <= fns.len() {
        lemma_add_fns(cx, a, b, fns, (n - 1) as nat);
    }
}

/// The bodies that the items of one kind give by themselves.
pub open spec fn bodies_by(cx: DeclV, items: Seq<Item>, n: nat, kind: ItemKind) -> BodiesV {
    let own = only(items, n, kind);
    bodies(cx, own, seq![], own.len())
}

pub(crate) proof fn lemma_bodies(cx: DeclV, items: Seq<Item>, errors: Seq<ErrorV>, n: nat)
    requires
        n <= items.len(),
    ensures
        same_functions(bodies(cx, items, errors, n), bodies_by(cx, items, n, ItemKind::Impl)),
        bodies(cx, items, errors, n).helpers == bodies_by(cx, items, n, ItemKind::Function).helpers,
        bodies(cx, items, errors, n).errors.len() == errors.len() + bodies_by(cx, items, n, ItemKind::Impl).errors.len(),
    decreases n,
{
    if n > 0 {
        lemma_bodies(cx, items, errors, (n - 1) as nat);
        let kind = kind_of_item(items[n - 1]);
        let before = only(items, (n - 1) as nat, kind);
        lemma_bodies_prefix(cx, before, items[n - 1], before.len());
        assert(before.push(items[n - 1])[before.len() as int] == items[n - 1]);
        let a = bodies(cx, items, errors, (n - 1) as nat);
        match items[n - 1] {
            Item::Impl { fns, .. } => lemma_add_fns(cx, a, bodies(cx, before, seq![], before.len()), fns@, fns@.len()),
            _ => {}
        }
    }
}

// ---- errors of resolution

proof fn lemma_nodes_count(w: Option<WitnessV>, ns: Seq<ExprV>, a: Seq<ErrorV>, b: Seq<ErrorV>, n: nat)
    requires
        a.len() == b.len(),
    ensures
        resolve_nodes(w, ns, a, n).len() == resolve_nodes(w, ns, b, n).len(),
    decreases n,
{
    if n > 0 && n <= ns.len() {
        lemma_nodes_count(w, ns, a, b, (n - 1) as nat);
    }
}

proof fn lemma_body_count(w: Option<WitnessV>, body: Seq<ExprV>, a: Seq<ErrorV>, b: Seq<ErrorV>)
    requires
        a.len() == b.len(),
    ensures
        resolve_body(w, body, a).len() == resolve_body(w, body, b).len(),
{
    reveal(resolve_body);
    let ns = nodes_of(body, body.len());
    lemma_nodes_count(w, ns, a, b, ns.len());
}

proof fn lemma_constructors_count(w: Option<WitnessV>, s: Seq<ConstructorV>, a: Seq<ErrorV>, b: Seq<ErrorV>, n: nat)
    requires
        a.len() == b.len(),
    ensures
        resolve_constructors(w, s, a, n).len() == resolve_constructors(w, s, b, n).len(),
    decreases n,
{
    if n > 0 && n <= s.len() {
        let m = (n - 1) as nat;
        lemma_constructors_count(w, s, a, b, m);
        lemma_body_count(w, s[n - 1].body, resolve_constructors(w, s, a, m), resolve_constructors(w, s, b, m));
    }
}

proof fn lemma_circuits_count(w: Option<WitnessV>, s: Seq<CircuitV>, a: Seq<ErrorV>, b: Seq<ErrorV>, n: nat)
    requires
        a.len() == b.len(),
    ensures
        resolve_circuits(w, s, a, n).len() == resolve_circuits(w, s, b, n).len(),
    decreases n,
{
    if n > 0 && n <= s.len() {
        let m = (n - 1) as nat;
        lemma_circuits_count(w, s, a, b, m);
        lemma_body_count(w, s[n - 1].body, resolve_circuits(w, s, a, m), resolve_circuits(w, s, b, m));
    }
}

proof fn lemma_queries_count(w: Option<WitnessV>, s: Seq<QueryV>, a: Seq<ErrorV>, b: Seq<ErrorV>, n: nat)
    requires
        a.len() == b.len(),
    ensures
        resolve_queries(w, s, a, n).len() == resolve_queries(w, s, b, n).len(),
    decreases n,
{
    if n > 0 && n <= s.len() {
        let m = (n - 1) as nat;
        lemma_queries_count(w, s, a, b, m);
        lemma_body_count(w, s[n - 1].body, resolve_queries(w, s, a, m), resolve_queries(w, s, b, m));
    }
}

proof fn lemma_helpers_count(w: Option<WitnessV>, s: Seq<HelperV>, a: Seq<ErrorV>, b: Seq<ErrorV>, n: nat)
    requires
        a.len() == b.len(),
    ensures
        resolve_helpers(w, s, a, n).len() == resolve_helpers(w, s, b, n).len(),
    decreases n,
{
    if n > 0 && n <= s.len() {
        let m = (n - 1) as nat;
        lemma_helpers_count(w, s, a, b, m);
        lemma_body_count(w, s[n - 1].body, resolve_helpers(w, s, a, m), resolve_helpers(w, s, b, m));
    }
}

proof fn lemma_resolution_count(w: Option<WitnessV>, a: BodiesV, b: BodiesV)
    requires
        same_functions(a, b),
        a.helpers == b.helpers,
        a.errors.len() == b.errors.len(),
    ensures
        resolution_errors(w, a).len() == resolution_errors(w, b).len(),
{
    let a1 = resolve_constructors(w, a.constructors, a.errors, a.constructors.len());
    let b1 = resolve_constructors(w, b.constructors, b.errors, b.constructors.len());
    lemma_constructors_count(w, a.constructors, a.errors, b.errors, a.constructors.len());
    let a2 = resolve_circuits(w, a.circuits, a1, a.circuits.len());
    let b2 = resolve_circuits(w, b.circuits, b1, b.circuits.len());
    lemma_circuits_count(w, a.circuits, a1, b1, a.circuits.len());
    let a3 = resolve_queries(w, a.queries, a2, a.queries.len());
    let b3 = resolve_queries(w, b.queries, b2, b.queries.len());
    lemma_queries_count(w, a.queries, a2, b2, a.queries.len());
    lemma_helpers_count(w, a.helpers, a3, b3, a.helpers.len());
}

// ---- the law

/// Whether two modules differ only in how items of different kinds alternate:
/// of each kind they hold the same items in the same order.
pub open spec fn same_items(a: ItemMod, b: ItemMod) -> bool {
    &&& a.ident == b.ident
    &&& match (a.items, b.items) {
        (None, None) => true,
        (Some(x), Some(y)) => forall|kind: ItemKind|
            kind != ItemKind::Other ==> #[trigger] only(x@, x@.len(), kind) == only(y@, y@.len(), kind),
        _ => false,
    }
}

/// Two contracts are the same, but for which items of the module are left as
/// they stand.
pub open spec fn same_contract(a: ContractV, b: ContractV) -> bool {
    b == (ContractV { other_items: b.other_items, ..a })
}

/// The order of items of different kinds does not matter: the ledger, the
/// witnesses, structs, enums, impl blocks and functions can stand in any order
/// among each other. Such modules are accepted together, and as the same
/// contract; or they are refused together, with as many errors.
pub proof fn order_of_kinds_does_not_matter(a: ItemMod, b: ItemMod)
    requires
        same_items(a, b),
    ensures
        match (contract_of(a), contract_of(b)) {
            (Ok(x), Ok(y)) => same_contract(x, y),
            (Err(x), Err(y)) => x.len() == y.len(),
            _ => false,
        },
{
    match (a.items, b.items) {
        (Some(x), Some(y)) => {
            assert forall|kind: ItemKind| kind != ItemKind::Other implies #[trigger] declared_by(x@, x@.len(), kind)
                == declared_by(y@, y@.len(), kind) by {
                assert(only(x@, x@.len(), kind) == only(y@, y@.len(), kind));
            }
            lemma_declared(x@, x@.len());
            lemma_declared(y@, y@.len());
            let dx = declared(x@, x@.len());
            let dy = declared(y@, y@.len());
            assert(declared_by(x@, x@.len(), ItemKind::Ledger) == declared_by(y@, y@.len(), ItemKind::Ledger));
            assert(declared_by(x@, x@.len(), ItemKind::Witnesses) == declared_by(y@, y@.len(), ItemKind::Witnesses));
            assert(declared_by(x@, x@.len(), ItemKind::Struct) == declared_by(y@, y@.len(), ItemKind::Struct));
            assert(declared_by(x@, x@.len(), ItemKind::Enum) == declared_by(y@, y@.len(), ItemKind::Enum));
            let sx = with_methods(dx, x@);
            let sy = with_methods(dy, y@);
            assert(only(x@, x@.len(), ItemKind::Impl) == only(y@, y@.len(), ItemKind::Impl));
            assert(only(x@, x@.len(), ItemKind::Function) == only(y@, y@.len(), ItemKind::Function));
            if dx.witnesses is Some {
                lemma_methods(x@, dx.witnesses->0.name, dx.errors, x@.len());
                lemma_methods(y@, dy.witnesses->0.name, dy.errors, y@.len());
            }
            assert(decl_of(sx) == decl_of(sy));
            assert(sx.errors.len() == sy.errors.len());
            let cx = decl_of(sx);
            lemma_bodies(cx, x@, sx.errors, x@.len());
            lemma_bodies(cx, y@, sy.errors, y@.len());
            let bx = bodies(cx, x@, sx.errors, x@.len());
            let by = bodies(cx, y@, sy.errors, y@.len());
            lemma_resolution_count(sx.witnesses, bx, by);
        }
        _ => {}
    }
}

// ---- functions in any order

/// What impl blocks and functions give, whatever their order: the functions,
/// the errors in them, and how many of their witness reads nothing declares.
#[verifier::ext_equal]
pub struct EntriesV {
    pub constructors: Multiset<ConstructorV>,
    pub circuits: Multiset<CircuitV>,
    pub queries: Multiset<QueryV>,
    pub helpers: Multiset<HelperV>,
    pub errors: nat,
    pub unresolved: nat,
}

pub open spec fn no_bodies() -> BodiesV {
    BodiesV {
        constructors: seq![],
        circuits: seq![],
        queries: seq![],
        helpers: seq![],
        other_items: seq![],
        errors: seq![],
    }
}

/// How many witness reads in functions nothing declares.
pub open spec fn unresolved_count(w: Option<WitnessV>, b: BodiesV) -> nat {
    resolve_constructors(w, b.constructors, seq![], b.constructors.len()).len() + resolve_circuits(
        w,
        b.circuits,
        seq![],
        b.circuits.len(),
    ).len() + resolve_queries(w, b.queries, seq![], b.queries.len()).len() + resolve_helpers(
        w,
        b.helpers,
        seq![],
        b.helpers.len(),
    ).len()
}

pub open spec fn entries_of(w: Option<WitnessV>, b: BodiesV) -> EntriesV {
    EntriesV {
        constructors: b.constructors.to_multiset(),
        circuits: b.circuits.to_multiset(),
        queries: b.queries.to_multiset(),
        helpers: b.helpers.to_multiset(),
        errors: b.errors.len(),
        unresolved: unresolved_count(w, b),
    }
}

pub open spec fn sum(a: EntriesV, b: EntriesV) -> EntriesV {
    EntriesV {
        constructors: a.constructors.add(b.constructors),
        circuits: a.circuits.add(b.circuits),
        queries: a.queries.add(b.queries),
        helpers: a.helpers.add(b.helpers),
        errors: a.errors + b.errors,
        unresolved: a.unresolved + b.unresolved,
    }
}

/// The functions in one item. The impl of the witnesses struct holds methods
/// and no entry.
pub open spec fn bodies_in(cx: DeclV, item: Item) -> BodiesV {
    match item {
        Item::Impl { has_trait, self_ty, fns } => if cx.witnesses is Some && impl_targets(
            has_trait,
            ty_view(self_ty),
            cx.witnesses->0.name,
        ) {
            no_bodies()
        } else {
            add_fns(cx, no_bodies(), fns@, fns@.len())
        },
        Item::Fn(f) => match helper_of(cx, f) {
            Some(h) => BodiesV { helpers: seq![h], ..no_bodies() },
            None => no_bodies(),
        },
        _ => no_bodies(),
    }
}

pub open spec fn entries(cx: DeclV, w: Option<WitnessV>, errors: Seq<ErrorV>, items: Seq<Item>) -> EntriesV {
    items.fold_left(
        entries_of(w, BodiesV { errors, ..no_bodies() }),
        |acc: EntriesV, item: Item| sum(acc, entries_of(w, bodies_in(cx, item))),
    )
}

pub(crate) proof fn lemma_entries_permuted(
    cx: DeclV,
    w: Option<WitnessV>,
    e: Seq<ErrorV>,
    f: Seq<ErrorV>,
    a: Seq<Item>,
    b: Seq<Item>,
)
    requires
        a.to_multiset() == b.to_multiset(),
        e.len() == f.len(),
    ensures
        entries(cx, w, e, a) == entries(cx, w, f, b),
{
    let step = |acc: EntriesV, item: Item| sum(acc, entries_of(w, bodies_in(cx, item)));
    assert forall|x: Item, y: Item, v: EntriesV| #[trigger] step(step(v, x), y) == step(step(v, y), x) by {
        let p = entries_of(w, bodies_in(cx, x));
        let q = entries_of(w, bodies_in(cx, y));
        assert(sum(sum(v, p), q) =~= sum(sum(v, q), p));
    }
    lemma_fold_left_permutation(a, b, step, entries_of(w, BodiesV { errors: e, ..no_bodies() }));
    assert(entries_of(w, BodiesV { errors: e, ..no_bodies() }) =~= entries_of(w, BodiesV { errors: f, ..no_bodies() }));
}

proof fn lemma_body_sum(w: Option<WitnessV>, body: Seq<ExprV>, e: Seq<ErrorV>)
    ensures
        resolve_body(w, body, e).len() == e.len() + resolve_body(w, body, seq![]).len(),
{
    reveal(resolve_body);
    let ns = nodes_of(body, body.len());
    lemma_nodes_sum(w, ns, e, ns.len());
}

proof fn lemma_nodes_sum(w: Option<WitnessV>, ns: Seq<ExprV>, e: Seq<ErrorV>, n: nat)
    ensures
        resolve_nodes(w, ns, e, n).len() == e.len() + resolve_nodes(w, ns, seq![], n).len(),
    decreases n,
{
    if n > 0 && n <= ns.len() {
        lemma_nodes_sum(w, ns, e, (n - 1) as nat);
    }
}

proof fn lemma_constructors_sum(w: Option<WitnessV>, a: Seq<ConstructorV>, b: Seq<ConstructorV>, e: Seq<ErrorV>, n: nat)
    requires
        n <= b.len(),
    ensures
        resolve_constructors(w, a + b, e, a.len() + n).len() == e.len() + resolve_constructors(w, a, seq![], a.len()).len()
            + resolve_constructors(w, b, seq![], n).len(),
    decreases a.len() + n,
{
    let c = a + b;
    if n > 0 {
        let m = (n - 1) as nat;
        lemma_constructors_sum(w, a, b, e, m);
        assert(c[a.len() + n - 1] == b[n - 1]);
        lemma_body_sum(w, b[n - 1].body, resolve_constructors(w, c, e, a.len() + m));
        lemma_body_sum(w, b[n - 1].body, resolve_constructors(w, b, seq![], m));
    } else {
        lemma_constructors_prefix(w, a, b, e, a.len());
    }
}

proof fn lemma_constructors_prefix(w: Option<WitnessV>, a: Seq<ConstructorV>, b: Seq<ConstructorV>, e: Seq<ErrorV>, n: nat)
    requires
        n <= a.len(),
    ensures
        resolve_constructors(w, a + b, e, n).len() == e.len() + resolve_constructors(w, a, seq![], n).len(),
    decreases n,
{
    if n > 0 {
        let m = (n - 1) as nat;
        lemma_constructors_prefix(w, a, b, e, m);
        assert((a + b)[n - 1] == a[n - 1]);
        lemma_body_sum(w, a[n - 1].body, resolve_constructors(w, a + b, e, m));
        lemma_body_sum(w, a[n - 1].body, resolve_constructors(w, a, seq![], m));
    }
}

proof fn lemma_circuits_sum(w: Option<WitnessV>, a: Seq<CircuitV>, b: Seq<CircuitV>, e: Seq<ErrorV>, n: nat)
    requires
        n <= b.len(),
    ensures
        resolve_circuits(w, a + b, e, a.len() + n).len() == e.len() + resolve_circuits(w, a, seq![], a.len()).len()
            + resolve_circuits(w, b, seq![], n).len(),
    decreases a.len() + n,
{
    let c = a + b;
    if n > 0 {
        let m = (n - 1) as nat;
        lemma_circuits_sum(w, a, b, e, m);
        assert(c[a.len() + n - 1] == b[n - 1]);
        lemma_body_sum(w, b[n - 1].body, resolve_circuits(w, c, e, a.len() + m));
        lemma_body_sum(w, b[n - 1].body, resolve_circuits(w, b, seq![], m));
    } else {
        lemma_circuits_prefix(w, a, b, e, a.len());
    }
}

proof fn lemma_circuits_prefix(w: Option<WitnessV>, a: Seq<CircuitV>, b: Seq<CircuitV>, e: Seq<ErrorV>, n: nat)
    requires
        n <= a.len(),
    ensures
        resolve_circuits(w, a + b, e, n).len() == e.len() + resolve_circuits(w, a, seq![], n).len(),
    decreases n,
{
    if n > 0 {
        let m = (n - 1) as nat;
        lemma_circuits_prefix(w, a, b, e, m);
        assert((a + b)[n - 1] == a[n - 1]);
        lemma_body_sum(w, a[n - 1].body, resolve_circuits(w, a + b, e, m));
        lemma_body_sum(w, a[n - 1].body, resolve_circuits(w, a, seq![], m));
    }
}

proof fn lemma_queries_sum(w: Option<WitnessV>, a: Seq<QueryV>, b: Seq<QueryV>, e: Seq<ErrorV>, n: nat)
    requires
        n <= b.len(),
    ensures
        resolve_queries(w, a + b, e, a.len() + n).len() == e.len() + resolve_queries(w, a, seq![], a.len()).len()
            + resolve_queries(w, b, seq![], n).len(),
    decreases a.len() + n,
{
    let c = a + b;
    if n > 0 {
        let m = (n - 1) as nat;
        lemma_queries_sum(w, a, b, e, m);
        assert(c[a.len() + n - 1] == b[n - 1]);
        lemma_body_sum(w, b[n - 1].body, resolve_queries(w, c, e, a.len() + m));
        lemma_body_sum(w, b[n - 1].body, resolve_queries(w, b, seq![], m));
    } else {
        lemma_queries_prefix(w, a, b, e, a.len());
    }
}

proof fn lemma_queries_prefix(w: Option<WitnessV>, a: Seq<QueryV>, b: Seq<QueryV>, e: Seq<ErrorV>, n: nat)
    requires
        n <= a.len(),
    ensures
        resolve_queries(w, a + b, e, n).len() == e.len() + resolve_queries(w, a, seq![], n).len(),
    decreases n,
{
    if n > 0 {
        let m = (n - 1) as nat;
        lemma_queries_prefix(w, a, b, e, m);
        assert((a + b)[n - 1] == a[n - 1]);
        lemma_body_sum(w, a[n - 1].body, resolve_queries(w, a + b, e, m));
        lemma_body_sum(w, a[n - 1].body, resolve_queries(w, a, seq![], m));
    }
}

proof fn lemma_helpers_sum(w: Option<WitnessV>, a: Seq<HelperV>, b: Seq<HelperV>, e: Seq<ErrorV>, n: nat)
    requires
        n <= b.len(),
    ensures
        resolve_helpers(w, a + b, e, a.len() + n).len() == e.len() + resolve_helpers(w, a, seq![], a.len()).len()
            + resolve_helpers(w, b, seq![], n).len(),
    decreases a.len() + n,
{
    let c = a + b;
    if n > 0 {
        let m = (n - 1) as nat;
        lemma_helpers_sum(w, a, b, e, m);
        assert(c[a.len() + n - 1] == b[n - 1]);
        lemma_body_sum(w, b[n - 1].body, resolve_helpers(w, c, e, a.len() + m));
        lemma_body_sum(w, b[n - 1].body, resolve_helpers(w, b, seq![], m));
    } else {
        lemma_helpers_prefix(w, a, b, e, a.len());
    }
}

proof fn lemma_helpers_prefix(w: Option<WitnessV>, a: Seq<HelperV>, b: Seq<HelperV>, e: Seq<ErrorV>, n: nat)
    requires
        n <= a.len(),
    ensures
        resolve_helpers(w, a + b, e, n).len() == e.len() + resolve_helpers(w, a, seq![], n).len(),
    decreases n,
{
    if n > 0 {
        let m = (n - 1) as nat;
        lemma_helpers_prefix(w, a, b, e, m);
        assert((a + b)[n - 1] == a[n - 1]);
        lemma_body_sum(w, a[n - 1].body, resolve_helpers(w, a + b, e, m));
        lemma_body_sum(w, a[n - 1].body, resolve_helpers(w, a, seq![], m));
    }
}

/// Adding functions appends them, in order.
proof fn lemma_appended(cx: DeclV, s: BodiesV, fns: Seq<FnItem>, n: nat)
    ensures
        ({
            let r = add_fns(cx, s, fns, n);
            let own = add_fns(cx, no_bodies(), fns, n);
            &&& r.constructors == s.constructors + own.constructors
            &&& r.circuits == s.circuits + own.circuits
            &&& r.queries == s.queries + own.queries
            &&& r.helpers == s.helpers && own.helpers == Seq::<HelperV>::empty()
            &&& r.errors.len() == s.errors.len() + own.errors.len()
        }),
    decreases n,
{
    if n > 0 && n <= fns.len() {
        lemma_appended(cx, s, fns, (n - 1) as nat);
        let r = add_fns(cx, s, fns, n);
        let own = add_fns(cx, no_bodies(), fns, n);
        assert(r.constructors =~= s.constructors + own.constructors);
        assert(r.circuits =~= s.circuits + own.circuits);
        assert(r.queries =~= s.queries + own.queries);
    } else {
        assert(s.constructors + Seq::<ConstructorV>::empty() =~= s.constructors);
        assert(s.circuits + Seq::<CircuitV>::empty() =~= s.circuits);
        assert(s.queries + Seq::<QueryV>::empty() =~= s.queries);
    }
}

/// `r` holds what `s` and `t` hold, after each other.
pub open spec fn is_appended(r: BodiesV, s: BodiesV, t: BodiesV) -> bool {
    &&& r.constructors == s.constructors + t.constructors
    &&& r.circuits == s.circuits + t.circuits
    &&& r.queries == s.queries + t.queries
    &&& r.helpers == s.helpers + t.helpers
    &&& r.errors.len() == s.errors.len() + t.errors.len()
}

proof fn lemma_sum(w: Option<WitnessV>, r: BodiesV, s: BodiesV, t: BodiesV)
    requires
        is_appended(r, s, t),
    ensures
        entries_of(w, r) == sum(entries_of(w, s), entries_of(w, t)),
{
    broadcast use vstd::seq_lib::lemma_multiset_commutative;

    lemma_constructors_sum(w, s.constructors, t.constructors, seq![], t.constructors.len());
    lemma_circuits_sum(w, s.circuits, t.circuits, seq![], t.circuits.len());
    lemma_queries_sum(w, s.queries, t.queries, seq![], t.queries.len());
    lemma_helpers_sum(w, s.helpers, t.helpers, seq![], t.helpers.len());
    assert(entries_of(w, r) =~= sum(entries_of(w, s), entries_of(w, t)));
}

proof fn lemma_item_appended(cx: DeclV, s: BodiesV, item: Item, i: usize)
    ensures
        is_appended(add_item(cx, s, item, i), s, bodies_in(cx, item)),
{
    assert(s.constructors + Seq::<ConstructorV>::empty() =~= s.constructors);
    assert(s.circuits + Seq::<CircuitV>::empty() =~= s.circuits);
    assert(s.queries + Seq::<QueryV>::empty() =~= s.queries);
    assert(s.helpers + Seq::<HelperV>::empty() =~= s.helpers);
    match item {
        Item::Impl { fns, .. } => lemma_appended(cx, s, fns@, fns@.len()),
        Item::Fn(f) => match helper_of(cx, f) {
            Some(h) => {
                assert(s.helpers.push(h) =~= s.helpers + seq![h]);
            }
            None => {}
        },
        _ => {}
    }
}

/// The bodies of a module are the sum of what each item gives.
pub(crate) proof fn lemma_entries(cx: DeclV, w: Option<WitnessV>, items: Seq<Item>, errors: Seq<ErrorV>, n: nat)
    requires
        n <= items.len(),
    ensures
        entries_of(w, bodies(cx, items, errors, n)) == entries(cx, w, errors, items.take(n as int)),
    decreases n,
{
    if n == 0 {
        assert(items.take(0) =~= seq![]);
        assert(entries_of(w, bodies(cx, items, errors, 0)) =~= entries_of(w, BodiesV { errors, ..no_bodies() }));
    } else {
        lemma_entries(cx, w, items, errors, (n - 1) as nat);
        assert(items.take(n as int).drop_last() =~= items.take(n - 1));
        let before = bodies(cx, items, errors, (n - 1) as nat);
        lemma_item_appended(cx, before, items[n - 1], (n - 1) as usize);
        lemma_sum(w, bodies(cx, items, errors, n), before, bodies_in(cx, items[n - 1]));
    }
}

pub(crate) proof fn lemma_resolution_sum(w: Option<WitnessV>, b: BodiesV)
    ensures
        resolution_errors(w, b).len() == b.errors.len() + unresolved_count(w, b),
{
    let e1 = resolve_constructors(w, b.constructors, b.errors, b.constructors.len());
    let e2 = resolve_circuits(w, b.circuits, e1, b.circuits.len());
    let e3 = resolve_queries(w, b.queries, e2, b.queries.len());
    assert(Seq::<ConstructorV>::empty() + b.constructors =~= b.constructors);
    assert(Seq::<CircuitV>::empty() + b.circuits =~= b.circuits);
    assert(Seq::<QueryV>::empty() + b.queries =~= b.queries);
    assert(Seq::<HelperV>::empty() + b.helpers =~= b.helpers);
    lemma_constructors_sum(w, seq![], b.constructors, b.errors, b.constructors.len());
    lemma_circuits_sum(w, seq![], b.circuits, e1, b.circuits.len());
    lemma_queries_sum(w, seq![], b.queries, e2, b.queries.len());
    lemma_helpers_sum(w, seq![], b.helpers, e3, b.helpers.len());
}

// ---- recursion of helpers in any order

/// Whether no two helpers share a name.
pub open spec fn distinct_helpers(hs: Seq<HelperV>) -> bool {
    forall|i: int, j: int| 0 <= i < j < hs.len() ==> (#[trigger] hs[i]).name != (#[trigger] hs[j]).name
}

/// Whether no two functions of a module share a name.
pub open spec fn distinct_functions(items: Seq<Item>) -> bool {
    forall|i: int, j: int|
        0 <= i < j < items.len() && (#[trigger] items[i]) is Fn && (#[trigger] items[j]) is Fn ==> fn_name(items[i])
            != fn_name(items[j])
}

pub open spec fn fn_name(item: Item) -> Seq<char> {
    match item {
        Item::Fn(f) => f.sig.ident.name@,
        _ => seq![],
    }
}

pub(crate) proof fn lemma_helper_names(cx: DeclV, items: Seq<Item>, errors: Seq<ErrorV>, n: nat)
    requires
        n <= items.len(),
        distinct_functions(items),
    ensures
        forall|k: int|
            0 <= k < bodies(cx, items, errors, n).helpers.len() ==> exists|i: int|
                0 <= i < n && (#[trigger] items[i]) is Fn && fn_name(items[i]) == (#[trigger] bodies(
                    cx,
                    items,
                    errors,
                    n,
                ).helpers[k]).name,
        distinct_helpers(bodies(cx, items, errors, n).helpers),
    decreases n,
{
    if n > 0 {
        let m = (n - 1) as nat;
        lemma_helper_names(cx, items, errors, m);
        let before = bodies(cx, items, errors, m);
        let after = bodies(cx, items, errors, n);
        let item = items[n - 1];
        lemma_item_appended(cx, before, item, m as usize);
        reveal(helper_of);
        match item {
            Item::Impl { fns, .. } => lemma_appended(cx, no_bodies(), fns@, fns@.len()),
            _ => {}
        }
        assert forall|k: int| 0 <= k < after.helpers.len() implies exists|i: int|
            0 <= i < n && (#[trigger] items[i]) is Fn && fn_name(items[i]) == (#[trigger] after.helpers[k]).name by {
            if k < before.helpers.len() {
                assert(after.helpers[k] == before.helpers[k]);
                let i = choose|i: int|
                    0 <= i < m && (#[trigger] items[i]) is Fn && fn_name(items[i]) == before.helpers[k].name;
                assert(items[i] is Fn);
            } else {
                assert(items[n - 1] is Fn);
            }
        }
        assert forall|i: int, j: int| 0 <= i < j < after.helpers.len() implies (#[trigger] after.helpers[i]).name != (
        #[trigger] after.helpers[j]).name by {
            assert(after.helpers[i] == before.helpers[i]);
            if j < before.helpers.len() {
                assert(after.helpers[j] == before.helpers[j]);
            } else {
                let p = choose|p: int|
                    0 <= p < m && (#[trigger] items[p]) is Fn && fn_name(items[p]) == before.helpers[i].name;
                assert(items[p] is Fn && items[n - 1] is Fn);
            }
        }
    }
}

/// Where the helper at `x` of `b` stands in `a`.
pub open spec fn moved(a: Seq<HelperV>, b: Seq<HelperV>, x: int) -> int {
    helper_position(a, b[x].name, a.len())->0
}

proof fn lemma_position(hs: Seq<HelperV>, i: int, n: nat)
    requires
        distinct_helpers(hs),
        0 <= i < n <= hs.len(),
    ensures
        helper_position(hs, hs[i].name, n) == Some(i),
    decreases n,
{
    if i < n - 1 {
        lemma_position(hs, i, (n - 1) as nat);
    }
}

proof fn lemma_moved(a: Seq<HelperV>, b: Seq<HelperV>, x: int)
    requires
        distinct_helpers(a),
        a.to_multiset() == b.to_multiset(),
        0 <= x < b.len(),
    ensures
        0 <= moved(a, b, x) < a.len(),
        a[moved(a, b, x)] == b[x],
        helper_position(a, b[x].name, a.len()) == Some(moved(a, b, x)),
{
    broadcast use vstd::seq_lib::group_to_multiset_ensures;

    assert(b.contains(b[x]));
    assert(b.to_multiset().count(b[x]) > 0);
    assert(a.contains(b[x]));
    let i = a.index_of(b[x]);
    lemma_position(a, i, a.len());
}

proof fn lemma_named(hs: Seq<HelperV>, name: Seq<char>, n: nat)
    ensures
        helper_position(hs, name, n) matches Some(i) ==> 0 <= i < n && i < hs.len() && hs[i].name == name,
    decreases n,
{
    if 0 < n <= hs.len() {
        lemma_named(hs, name, (n - 1) as nat);
    }
}

proof fn lemma_callees_moved(a: Seq<HelperV>, b: Seq<HelperV>, ns: Seq<ExprV>, n: nat, y: int)
    requires
        distinct_helpers(a),
        a.to_multiset() == b.to_multiset(),
        callees(b, ns, n).contains(y),
    ensures
        0 <= y < b.len(),
        callees(a, ns, n).contains(moved(a, b, y)),
    decreases n,
{
    if 0 < n <= ns.len() {
        let before = callees(b, ns, (n - 1) as nat);
        let after = callees(b, ns, n);
        let own = callees(a, ns, n);
        let k = after.index_of(y);
        if k < before.len() {
            assert(before[k] == y);
            lemma_callees_moved(a, b, ns, (n - 1) as nat, y);
            let j = callees(a, ns, (n - 1) as nat).index_of(moved(a, b, y));
            assert(own[j] == moved(a, b, y));
        } else {
            match ns[n - 1] {
                ExprV::FnCall { name, .. } => {
                    lemma_named(b, name, b.len());
                    lemma_moved(a, b, y);
                    assert(own[own.len() - 1] == moved(a, b, y));
                }
                _ => {}
            }
        }
    }
}

proof fn lemma_cycle_moved(a: Seq<HelperV>, b: Seq<HelperV>, c: Seq<int>)
    requires
        distinct_helpers(a),
        a.to_multiset() == b.to_multiset(),
        is_cycle(call_graph(b), c),
    ensures
        !acyclic(call_graph(a)),
{
    let d = Seq::new(c.len(), |i: int| moved(a, b, c[i]));
    let g = call_graph(a);
    let h = call_graph(b);
    assert forall|i: int| 0 <= i < d.len() - 1 implies has_edge(g, #[trigger] d[i], d[i + 1]) by {
        assert(has_edge(h, c[i], c[i + 1]));
        lemma_moved(a, b, c[i]);
        let ns = nodes_of(b[c[i]].body, b[c[i]].body.len());
        assert(h[c[i]] == callees(b, ns, ns.len()));
        lemma_callees_moved(a, b, ns, ns.len(), c[i + 1]);
        assert(g[d[i]] == callees(a, ns, ns.len()));
    }
    assert(is_cycle(g, d));
}

pub(crate) proof fn lemma_recursion_permuted(a: Seq<HelperV>, b: Seq<HelperV>)
    requires
        distinct_helpers(a),
        distinct_helpers(b),
        a.to_multiset() == b.to_multiset(),
    ensures
        recursion_error(a) is None <==> recursion_error(b) is None,
{
    accepted_iff_acyclic(a);
    accepted_iff_acyclic(b);
    if !acyclic(call_graph(a)) {
        let c = choose|c: Seq<int>| #[trigger] is_cycle(call_graph(a), c);
        lemma_cycle_moved(b, a, c);
    }
    if !acyclic(call_graph(b)) {
        let c = choose|c: Seq<int>| #[trigger] is_cycle(call_graph(b), c);
        lemma_cycle_moved(a, b, c);
    }
}

} // verus!
