//! The order of a module's items does not matter: a module with its items in
//! another order is the same contract, its parts in another order.
use crate::contract::{lookup, CircuitV, ConstructorV, ContractV, EnumVariantV, HelperV, QueryV, StructFieldV};
use crate::contract::{WitnessMethodV, WitnessV};
use crate::decl_laws::{bodies_look_up_by_name, same_lookups};
use crate::declaring::{bodies, contract_of, decl_of, declare_item, declared, has_witness_method, impl_targets};
use crate::declaring::{methods_of_fns, nothing_found, resolution_errors, resolve_body, resolve_circuits};
use crate::declaring::{resolve_constructors, resolve_helpers, resolve_nodes, resolve_queries, unresolved};
use crate::declaring::{with_methods, witness_methods, BodiesV, FoundV, MethodsV};
use crate::error::ErrorV;
use crate::expr::ExprV;
use crate::order_laws::{declared_by, distinct_functions, entries_of, kind_of_item, lemma_bodies, lemma_declared};
use crate::order_laws::{lemma_declared_push, lemma_entries, lemma_entries_permuted, lemma_helper_names};
use crate::order_laws::{lemma_recursion_permuted, lemma_resolution_sum, only, ItemKind};
use crate::reading::{first_method, nodes_of};
use crate::syntax::{ty_view, FnItem, Item, ItemMod};
use vstd::multiset::Multiset;
use vstd::prelude::*;
use vstd::seq_lib::lemma_fold_left_permutation;

verus! {

// ---- items of one kind

pub open spec fn is_kind(kind: ItemKind) -> spec_fn(Item) -> bool {
    |item: Item| kind_of_item(item) == kind
}

proof fn lemma_only_multiset(items: Seq<Item>, n: nat, kind: ItemKind)
    requires
        n <= items.len(),
    ensures
        only(items, n, kind).to_multiset() =~= items.take(n as int).to_multiset().filter(is_kind(kind)),
    decreases n,
{
    broadcast use vstd::seq_lib::group_to_multiset_ensures;

    if n == 0 {
        assert(items.take(0) =~= seq![]);
        assert(only(items, 0, kind) =~= seq![]);
    } else {
        lemma_only_multiset(items, (n - 1) as nat, kind);
        assert(items.take(n as int) =~= items.take(n - 1).push(items[n - 1]));
    }
}

proof fn lemma_only_permuted(a: Seq<Item>, b: Seq<Item>, kind: ItemKind)
    requires
        a.to_multiset() == b.to_multiset(),
        only(a, a.len(), kind).len() <= 1,
    ensures
        only(a, a.len(), kind) == only(b, b.len(), kind),
{
    broadcast use vstd::seq_lib::group_to_multiset_ensures;

    lemma_only_multiset(a, a.len(), kind);
    lemma_only_multiset(b, b.len(), kind);
    assert(a.take(a.len() as int) =~= a);
    assert(b.take(b.len() as int) =~= b);
    let x = only(a, a.len(), kind);
    let y = only(b, b.len(), kind);
    assert(x.to_multiset() =~= y.to_multiset());
    assert(x.to_multiset().len() == x.len());
    assert(y.to_multiset().len() == y.len());
    if x.len() == 1 {
        assert(y.contains(y[0]));
        assert(x.to_multiset().count(y[0]) > 0);
        assert(x.contains(y[0]));
        assert(x[0] == y[0]);
    }
    assert(x =~= y);
}

proof fn lemma_only_kind(items: Seq<Item>, n: nat, kind: ItemKind)
    ensures
        forall|i: int| 0 <= i < only(items, n, kind).len() ==> kind_of_item(#[trigger] only(items, n, kind)[i]) == kind,
    decreases n,
{
    if n > 0 && n <= items.len() {
        lemma_only_kind(items, (n - 1) as nat, kind);
    }
}

/// A second ledger struct, or a second witnesses struct, is an error.
proof fn lemma_one_struct(own: Seq<Item>, n: nat, kind: ItemKind)
    requires
        n <= own.len(),
        kind == ItemKind::Ledger || kind == ItemKind::Witnesses,
        forall|i: int| 0 <= i < own.len() ==> kind_of_item(#[trigger] own[i]) == kind,
    ensures
        kind == ItemKind::Ledger ==> declared(own, n).ledger_seen == (n > 0),
        kind == ItemKind::Witnesses ==> declared(own, n).witnesses_seen == (n > 0),
        n >= 2 ==> declared(own, n).errors.len() > 0,
    decreases n,
{
    if n > 0 {
        lemma_one_struct(own, (n - 1) as nat, kind);
        assert(kind_of_item(own[n - 1]) == kind);
    }
}

proof fn lemma_at_most_one(items: Seq<Item>, kind: ItemKind)
    requires
        kind == ItemKind::Ledger || kind == ItemKind::Witnesses,
        declared_by(items, items.len(), kind).errors.len() == 0,
    ensures
        only(items, items.len(), kind).len() <= 1,
{
    let own = only(items, items.len(), kind);
    lemma_only_kind(items, items.len(), kind);
    lemma_one_struct(own, own.len(), kind);
}

// ---- types

/// What structs and enums declare, whatever their order.
#[verifier::ext_equal]
pub struct TypesV {
    pub structs: Multiset<(Seq<char>, Seq<StructFieldV>)>,
    pub enums: Multiset<(Seq<char>, Seq<EnumVariantV>)>,
    pub errors: nat,
}

pub open spec fn no_types() -> TypesV {
    TypesV { structs: Multiset::empty(), enums: Multiset::empty(), errors: 0 }
}

pub open spec fn types_in(item: Item) -> TypesV {
    let d = declare_item(nothing_found(), item);
    if kind_of_item(item) == ItemKind::Struct || kind_of_item(item) == ItemKind::Enum {
        TypesV { structs: d.structs.to_multiset(), enums: d.enums.to_multiset(), errors: d.errors.len() }
    } else {
        no_types()
    }
}

pub open spec fn types_sum(a: TypesV, b: TypesV) -> TypesV {
    TypesV { structs: a.structs.add(b.structs), enums: a.enums.add(b.enums), errors: a.errors + b.errors }
}

pub open spec fn types(items: Seq<Item>) -> TypesV {
    items.fold_left(no_types(), |acc: TypesV, item: Item| types_sum(acc, types_in(item)))
}

proof fn lemma_types_permuted(a: Seq<Item>, b: Seq<Item>)
    requires
        a.to_multiset() == b.to_multiset(),
    ensures
        types(a) == types(b),
{
    let step = |acc: TypesV, item: Item| types_sum(acc, types_in(item));
    assert forall|x: Item, y: Item, v: TypesV| #[trigger] step(step(v, x), y) == step(step(v, y), x) by {
        assert(types_sum(types_sum(v, types_in(x)), types_in(y)) =~= types_sum(types_sum(v, types_in(y)), types_in(x)));
    }
    lemma_fold_left_permutation(a, b, step, no_types());
}

/// What a declaration adds: one more struct, enum or error at most.
proof fn lemma_item_adds(s: FoundV, item: Item)
    ensures
        ({
            let r = declare_item(s, item);
            let d = declare_item(nothing_found(), item);
            &&& kind_of_item(item) == ItemKind::Struct || kind_of_item(item) == ItemKind::Enum ==> {
                &&& r.structs == s.structs + d.structs
                &&& r.enums == s.enums + d.enums
                &&& r.errors.len() == s.errors.len() + d.errors.len()
            }
            &&& kind_of_item(item) != ItemKind::Struct && kind_of_item(item) != ItemKind::Enum ==> {
                &&& r.structs == s.structs
                &&& r.enums == s.enums
            }
        }),
{
    let r = declare_item(s, item);
    let d = declare_item(nothing_found(), item);
    assert(s.structs + Seq::<(Seq<char>, Seq<StructFieldV>)>::empty() =~= s.structs);
    assert(s.enums + Seq::<(Seq<char>, Seq<EnumVariantV>)>::empty() =~= s.enums);
    if kind_of_item(item) == ItemKind::Struct || kind_of_item(item) == ItemKind::Enum {
        assert(r.structs =~= s.structs + d.structs);
        assert(r.enums =~= s.enums + d.enums);
    }
}

proof fn lemma_types(items: Seq<Item>, n: nat)
    requires
        n <= items.len(),
    ensures
        types(items.take(n as int)) == (TypesV {
            structs: declared(items, n).structs.to_multiset(),
            enums: declared(items, n).enums.to_multiset(),
            errors: declared_by(items, n, ItemKind::Struct).errors.len() + declared_by(
                items,
                n,
                ItemKind::Enum,
            ).errors.len(),
        }),
    decreases n,
{
    broadcast use vstd::seq_lib::group_to_multiset_ensures;
    broadcast use vstd::seq_lib::lemma_multiset_commutative;

    if n == 0 {
        assert(items.take(0) =~= seq![]);
        assert(Seq::<(Seq<char>, Seq<StructFieldV>)>::empty().to_multiset() =~= Multiset::empty());
        assert(Seq::<(Seq<char>, Seq<EnumVariantV>)>::empty().to_multiset() =~= Multiset::empty());
    } else {
        let m = (n - 1) as nat;
        let item = items[n - 1];
        lemma_types(items, m);
        assert(items.take(n as int).drop_last() =~= items.take(n - 1));
        lemma_item_adds(declared(items, m), item);
        lemma_declared_push(items, n);
        lemma_item_adds(declared_by(items, m, kind_of_item(item)), item);
        let r = types_sum(types(items.take(m as int)), types_in(item));
        assert(r.structs =~= declared(items, n).structs.to_multiset());
        assert(r.enums =~= declared(items, n).enums.to_multiset());
    }
}

// ---- witness methods

#[verifier::ext_equal]
pub struct MethodSetV {
    pub methods: Multiset<WitnessMethodV>,
    pub errors: nat,
}

pub open spec fn no_methods() -> MethodsV {
    MethodsV { methods: seq![], errors: seq![] }
}

pub open spec fn method_set(s: MethodsV) -> MethodSetV {
    MethodSetV { methods: s.methods.to_multiset(), errors: s.errors.len() }
}

pub open spec fn methods_in(item: Item, name: Seq<char>) -> MethodsV {
    match item {
        Item::Impl { has_trait, self_ty, fns } => if impl_targets(has_trait, ty_view(self_ty), name) {
            methods_of_fns(no_methods(), fns@, fns@.len())
        } else {
            no_methods()
        },
        _ => no_methods(),
    }
}

pub open spec fn methods_sum(a: MethodSetV, b: MethodSetV) -> MethodSetV {
    MethodSetV { methods: a.methods.add(b.methods), errors: a.errors + b.errors }
}

pub open spec fn methods(items: Seq<Item>, name: Seq<char>) -> MethodSetV {
    items.fold_left(
        method_set(no_methods()),
        |acc: MethodSetV, item: Item| methods_sum(acc, method_set(methods_in(item, name))),
    )
}

proof fn lemma_methods_permuted(a: Seq<Item>, b: Seq<Item>, name: Seq<char>)
    requires
        a.to_multiset() == b.to_multiset(),
    ensures
        methods(a, name) == methods(b, name),
{
    let step = |acc: MethodSetV, item: Item| methods_sum(acc, method_set(methods_in(item, name)));
    assert forall|x: Item, y: Item, v: MethodSetV| #[trigger] step(step(v, x), y) == step(step(v, y), x) by {
        let f = method_set(methods_in(x, name));
        let g = method_set(methods_in(y, name));
        assert(methods_sum(methods_sum(v, f), g) =~= methods_sum(methods_sum(v, g), f));
    }
    lemma_fold_left_permutation(a, b, step, method_set(no_methods()));
}

proof fn lemma_methods_append(s: MethodsV, fns: Seq<FnItem>, n: nat)
    ensures
        methods_of_fns(s, fns, n).methods == s.methods + methods_of_fns(no_methods(), fns, n).methods,
        methods_of_fns(s, fns, n).errors.len() == s.errors.len() + methods_of_fns(no_methods(), fns, n).errors.len(),
    decreases n,
{
    assert(s.methods + Seq::<WitnessMethodV>::empty() =~= s.methods);
    if n > 0 && n <= fns.len() {
        lemma_methods_append(s, fns, (n - 1) as nat);
        assert(methods_of_fns(s, fns, n).methods =~= s.methods + methods_of_fns(no_methods(), fns, n).methods);
    }
}

proof fn lemma_methods(items: Seq<Item>, name: Seq<char>, errors: Seq<ErrorV>, n: nat)
    requires
        n <= items.len(),
    ensures
        witness_methods(items, name, errors, n).methods.to_multiset() == methods(items.take(n as int), name).methods,
        witness_methods(items, name, errors, n).errors.len() == errors.len() + methods(
            items.take(n as int),
            name,
        ).errors,
    decreases n,
{
    broadcast use vstd::seq_lib::group_to_multiset_ensures;
    broadcast use vstd::seq_lib::lemma_multiset_commutative;

    if n == 0 {
        assert(items.take(0) =~= seq![]);
    } else {
        lemma_methods(items, name, errors, (n - 1) as nat);
        assert(items.take(n as int).drop_last() =~= items.take(n - 1));
        let before = witness_methods(items, name, errors, (n - 1) as nat);
        assert(before.methods + Seq::<WitnessMethodV>::empty() =~= before.methods);
        match items[n - 1] {
            Item::Impl { fns, .. } => lemma_methods_append(before, fns@, fns@.len()),
            _ => {}
        }
        assert(witness_methods(items, name, errors, n).methods == before.methods + methods_in(
            items[n - 1],
            name,
        ).methods);
    }
}

// ---- lookups by name

/// Whether no two entries of a list share a name.
pub open spec fn distinct_keys<T>(s: Seq<(Seq<char>, T)>) -> bool {
    forall|i: int, j: int| 0 <= i < j < s.len() ==> (#[trigger] s[i]).0 != (#[trigger] s[j]).0
}

proof fn lemma_lookup_found<T>(s: Seq<(Seq<char>, T)>, i: int)
    requires
        distinct_keys(s),
        0 <= i < s.len(),
    ensures
        lookup(s, s[i].0) == Some(s[i].1),
    decreases s.len(),
{
    if i < s.len() - 1 {
        assert(s.drop_last()[i] == s[i]);
        assert(distinct_keys(s.drop_last())) by {
            assert forall|a: int, b: int| 0 <= a < b < s.drop_last().len() implies (#[trigger] s.drop_last()[a]).0 != (
            #[trigger] s.drop_last()[b]).0 by {
                assert(s.drop_last()[a] == s[a] && s.drop_last()[b] == s[b]);
            }
        }
        lemma_lookup_found(s.drop_last(), i);
        assert(s.last() == s[s.len() - 1]);
    }
}

proof fn lemma_lookup_member<T>(s: Seq<(Seq<char>, T)>, key: Seq<char>)
    ensures
        lookup(s, key) matches Some(v) ==> s.contains((key, v)),
    decreases s.len(),
{
    if s.len() > 0 {
        if s.last().0 == key {
            assert(s[s.len() - 1] == (key, s.last().1));
        } else {
            lemma_lookup_member(s.drop_last(), key);
            if lookup(s, key) is Some {
                let i = s.drop_last().index_of((key, lookup(s, key)->0));
                assert(s[i] == s.drop_last()[i]);
            }
        }
    }
}

proof fn lemma_lookup_permuted<T>(a: Seq<(Seq<char>, T)>, b: Seq<(Seq<char>, T)>, key: Seq<char>)
    requires
        a.to_multiset() == b.to_multiset(),
        distinct_keys(a),
        distinct_keys(b),
    ensures
        lookup(a, key) == lookup(b, key),
{
    broadcast use vstd::seq_lib::group_to_multiset_ensures;

    lemma_lookup_member(a, key);
    lemma_lookup_member(b, key);
    if lookup(a, key) is Some {
        let x = (key, lookup(a, key)->0);
        assert(a.to_multiset().count(x) > 0);
        assert(b.contains(x));
        lemma_lookup_found(b, b.index_of(x));
    }
    if lookup(b, key) is Some {
        let x = (key, lookup(b, key)->0);
        assert(b.to_multiset().count(x) > 0);
        assert(a.contains(x));
        lemma_lookup_found(a, a.index_of(x));
    }
}

/// Whether no two methods share a name.
pub open spec fn distinct_methods(ms: Seq<WitnessMethodV>) -> bool {
    forall|i: int, j: int| 0 <= i < j < ms.len() ==> (#[trigger] ms[i]).name != (#[trigger] ms[j]).name
}

proof fn lemma_method_found(ms: Seq<WitnessMethodV>, i: int, n: nat)
    requires
        distinct_methods(ms),
        0 <= i < n <= ms.len(),
    ensures
        first_method(ms, ms[i].name, n) == Some(ms[i].return_type),
    decreases n,
{
    if i < n - 1 {
        lemma_method_found(ms, i, (n - 1) as nat);
    } else {
        lemma_method_missing(ms, ms[i].name, i as nat);
    }
}

proof fn lemma_method_missing(ms: Seq<WitnessMethodV>, name: Seq<char>, n: nat)
    requires
        n <= ms.len(),
        forall|j: int| 0 <= j < n ==> (#[trigger] ms[j]).name != name,
    ensures
        first_method(ms, name, n) is None,
    decreases n,
{
    if n > 0 {
        lemma_method_missing(ms, name, (n - 1) as nat);
    }
}

proof fn lemma_method_permuted(a: Seq<WitnessMethodV>, b: Seq<WitnessMethodV>, name: Seq<char>)
    requires
        a.to_multiset() == b.to_multiset(),
        distinct_methods(a),
        distinct_methods(b),
    ensures
        first_method(a, name, a.len()) == first_method(b, name, b.len()),
{
    broadcast use vstd::seq_lib::group_to_multiset_ensures;

    if exists|i: int| 0 <= i < a.len() && (#[trigger] a[i]).name == name {
        let i = choose|i: int| 0 <= i < a.len() && (#[trigger] a[i]).name == name;
        assert(a.to_multiset().count(a[i]) > 0);
        assert(b.contains(a[i]));
        lemma_method_found(a, i, a.len());
        lemma_method_found(b, b.index_of(a[i]), b.len());
    } else {
        lemma_method_missing(a, name, a.len());
        assert forall|j: int| 0 <= j < b.len() implies (#[trigger] b[j]).name != name by {
            assert(b.to_multiset().count(b[j]) > 0);
            assert(a.contains(b[j]));
            assert(a[a.index_of(b[j])] == b[j]);
        }
        lemma_method_missing(b, name, b.len());
    }
}

// ---- witness resolution

/// Two witnesses structs declare the same, their methods in any order.
pub open spec fn same_witnesses(v: Option<WitnessV>, w: Option<WitnessV>) -> bool {
    match (v, w) {
        (None, None) => true,
        (Some(v), Some(w)) => {
            &&& w == (WitnessV { methods: w.methods, ..v })
            &&& v.methods.to_multiset() == w.methods.to_multiset()
        }
        _ => false,
    }
}

proof fn lemma_unresolved_alike(v: Option<WitnessV>, w: Option<WitnessV>, e: ExprV)
    requires
        same_witnesses(v, w),
    ensures
        unresolved(v, e) == unresolved(w, e),
{
    broadcast use vstd::seq_lib::group_to_multiset_ensures;

    assert forall|name: Seq<char>| #[trigger] has_witness_method(v, name) == has_witness_method(w, name) by {
        match (v, w) {
            (Some(a), Some(b)) => {
                if has_witness_method(v, name) {
                    let i = choose|i: int| 0 <= i < a.methods.len() && (#[trigger] a.methods[i]).name == name;
                    assert(a.methods.to_multiset().count(a.methods[i]) > 0);
                    assert(b.methods.contains(a.methods[i]));
                    let j = b.methods.index_of(a.methods[i]);
                    assert(b.methods[j].name == name);
                }
                if has_witness_method(w, name) {
                    let i = choose|i: int| 0 <= i < b.methods.len() && (#[trigger] b.methods[i]).name == name;
                    assert(b.methods.to_multiset().count(b.methods[i]) > 0);
                    assert(a.methods.contains(b.methods[i]));
                    let j = a.methods.index_of(b.methods[i]);
                    assert(a.methods[j].name == name);
                }
            }
            _ => {}
        }
    }
}

proof fn lemma_body_alike(v: Option<WitnessV>, w: Option<WitnessV>, body: Seq<ExprV>, e: Seq<ErrorV>)
    requires
        same_witnesses(v, w),
    ensures
        resolve_body(v, body, e) == resolve_body(w, body, e),
{
    reveal(resolve_body);
    let ns = nodes_of(body, body.len());
    lemma_nodes_alike(v, w, ns, e, ns.len());
}

proof fn lemma_nodes_alike(v: Option<WitnessV>, w: Option<WitnessV>, ns: Seq<ExprV>, e: Seq<ErrorV>, n: nat)
    requires
        same_witnesses(v, w),
    ensures
        resolve_nodes(v, ns, e, n) == resolve_nodes(w, ns, e, n),
    decreases n,
{
    if n > 0 && n <= ns.len() {
        lemma_nodes_alike(v, w, ns, e, (n - 1) as nat);
        lemma_unresolved_alike(v, w, ns[n - 1]);
    }
}

proof fn lemma_constructors_alike(v: Option<WitnessV>, w: Option<WitnessV>, s: Seq<ConstructorV>, e: Seq<ErrorV>, n: nat)
    requires
        same_witnesses(v, w),
    ensures
        resolve_constructors(v, s, e, n) == resolve_constructors(w, s, e, n),
    decreases n,
{
    if n > 0 && n <= s.len() {
        lemma_constructors_alike(v, w, s, e, (n - 1) as nat);
        lemma_body_alike(v, w, s[n - 1].body, resolve_constructors(v, s, e, (n - 1) as nat));
    }
}

proof fn lemma_circuits_alike(v: Option<WitnessV>, w: Option<WitnessV>, s: Seq<CircuitV>, e: Seq<ErrorV>, n: nat)
    requires
        same_witnesses(v, w),
    ensures
        resolve_circuits(v, s, e, n) == resolve_circuits(w, s, e, n),
    decreases n,
{
    if n > 0 && n <= s.len() {
        lemma_circuits_alike(v, w, s, e, (n - 1) as nat);
        lemma_body_alike(v, w, s[n - 1].body, resolve_circuits(v, s, e, (n - 1) as nat));
    }
}

proof fn lemma_queries_alike(v: Option<WitnessV>, w: Option<WitnessV>, s: Seq<QueryV>, e: Seq<ErrorV>, n: nat)
    requires
        same_witnesses(v, w),
    ensures
        resolve_queries(v, s, e, n) == resolve_queries(w, s, e, n),
    decreases n,
{
    if n > 0 && n <= s.len() {
        lemma_queries_alike(v, w, s, e, (n - 1) as nat);
        lemma_body_alike(v, w, s[n - 1].body, resolve_queries(v, s, e, (n - 1) as nat));
    }
}

proof fn lemma_helpers_alike(v: Option<WitnessV>, w: Option<WitnessV>, s: Seq<HelperV>, e: Seq<ErrorV>, n: nat)
    requires
        same_witnesses(v, w),
    ensures
        resolve_helpers(v, s, e, n) == resolve_helpers(w, s, e, n),
    decreases n,
{
    if n > 0 && n <= s.len() {
        lemma_helpers_alike(v, w, s, e, (n - 1) as nat);
        lemma_body_alike(v, w, s[n - 1].body, resolve_helpers(v, s, e, (n - 1) as nat));
    }
}

proof fn lemma_resolution_alike(v: Option<WitnessV>, w: Option<WitnessV>, b: BodiesV)
    requires
        same_witnesses(v, w),
    ensures
        resolution_errors(v, b) == resolution_errors(w, b),
{
    let e1 = resolve_constructors(v, b.constructors, b.errors, b.constructors.len());
    let e2 = resolve_circuits(v, b.circuits, e1, b.circuits.len());
    let e3 = resolve_queries(v, b.queries, e2, b.queries.len());
    lemma_constructors_alike(v, w, b.constructors, b.errors, b.constructors.len());
    lemma_circuits_alike(v, w, b.circuits, e1, b.circuits.len());
    lemma_queries_alike(v, w, b.queries, e2, b.queries.len());
    lemma_helpers_alike(v, w, b.helpers, e3, b.helpers.len());
}

// ---- names of a module

pub open spec fn enum_name(item: Item) -> Seq<char> {
    match item {
        Item::Enum { ident, .. } => ident.name@,
        _ => seq![],
    }
}

/// Whether a module's functions, its enums, and the methods of each struct
/// have names of their own.
pub open spec fn distinct_names(items: Seq<Item>) -> bool {
    &&& distinct_functions(items)
    &&& forall|i: int, j: int|
        0 <= i < j < items.len() && (#[trigger] items[i]) is Enum && (#[trigger] items[j]) is Enum ==> enum_name(
            items[i],
        ) != enum_name(items[j])
    &&& forall|name: Seq<char>| distinct_methods((#[trigger] witness_methods(items, name, seq![], items.len())).methods)
}

/// Whether one of the first `n` items is an enum of a name.
pub open spec fn names_enum(items: Seq<Item>, n: nat, name: Seq<char>) -> bool {
    exists|i: int| 0 <= i < n && (#[trigger] items[i]) is Enum && enum_name(items[i]) == name
}

proof fn lemma_enum_names(items: Seq<Item>, n: nat)
    requires
        n <= items.len(),
        distinct_names(items),
    ensures
        forall|k: int|
            0 <= k < declared(items, n).enums.len() ==> names_enum(
                items,
                n,
                (#[trigger] declared(items, n).enums[k]).0,
            ),
        distinct_keys(declared(items, n).enums),
    decreases n,
{
    if n > 0 {
        let m = (n - 1) as nat;
        lemma_enum_names(items, m);
        let before = declared(items, m).enums;
        let after = declared(items, n).enums;
        assert forall|k: int| 0 <= k < after.len() implies names_enum(items, n, (#[trigger] after[k]).0) by {
            if k < before.len() {
                assert(after[k] == before[k]);
                assert(names_enum(items, m, before[k].0));
                let i = choose|i: int| 0 <= i < m && (#[trigger] items[i]) is Enum && enum_name(items[i]) == before[k].0;
                assert(items[i] is Enum);
            } else {
                assert(items[n - 1] is Enum);
            }
        }
        assert forall|i: int, j: int| 0 <= i < j < after.len() implies (#[trigger] after[i]).0 != (
        #[trigger] after[j]).0 by {
            assert(after[i] == before[i]);
            assert(names_enum(items, m, before[i].0));
            if j < before.len() {
                assert(after[j] == before[j]);
            } else {
                let p = choose|p: int| 0 <= p < m && (#[trigger] items[p]) is Enum && enum_name(items[p]) == before[i].0;
                assert(items[p] is Enum && items[n - 1] is Enum);
            }
        }
    }
}

proof fn lemma_methods_errors_apart(items: Seq<Item>, name: Seq<char>, errors: Seq<ErrorV>, n: nat)
    ensures
        witness_methods(items, name, errors, n).methods == witness_methods(items, name, seq![], n).methods,
    decreases n,
{
    if n > 0 && n <= items.len() {
        lemma_methods_errors_apart(items, name, errors, (n - 1) as nat);
        let a = witness_methods(items, name, errors, (n - 1) as nat);
        let b = witness_methods(items, name, seq![], (n - 1) as nat);
        match items[n - 1] {
            Item::Impl { fns, .. } => {
                lemma_methods_append(a, fns@, fns@.len());
                lemma_methods_append(b, fns@, fns@.len());
            }
            _ => {}
        }
    }
}

// ---- the law

/// Whether `b` is `a` with its items in another order.
pub open spec fn is_reordered(a: ItemMod, b: ItemMod) -> bool {
    &&& a.ident == b.ident
    &&& match (a.items, b.items) {
        (None, None) => true,
        (Some(x), Some(y)) => x@.to_multiset() == y@.to_multiset() && distinct_names(x@) && distinct_names(y@),
        _ => false,
    }
}

/// Two contracts hold the same: one ledger, one witnesses struct, and the same
/// methods, types and functions in any order.
pub open spec fn same_parts(a: ContractV, b: ContractV) -> bool {
    &&& a.name == b.name && a.span == b.span
    &&& a.ledger == b.ledger
    &&& same_witnesses(a.witnesses, b.witnesses)
    &&& a.constructors.to_multiset() == b.constructors.to_multiset()
    &&& a.circuits.to_multiset() == b.circuits.to_multiset()
    &&& a.queries.to_multiset() == b.queries.to_multiset()
    &&& a.helpers.to_multiset() == b.helpers.to_multiset()
    &&& a.user_structs.to_multiset() == b.user_structs.to_multiset()
    &&& a.user_enums.to_multiset() == b.user_enums.to_multiset()
}

/// The declarations of an accepted module and of one with the items in another
/// order.
proof fn lemma_found(x: Seq<Item>, y: Seq<Item>)
    requires
        x.to_multiset() == y.to_multiset(),
        distinct_names(x),
        distinct_names(y),
        with_methods(declared(x, x.len()), x).errors.len() == 0,
    ensures
        ({
            let s = with_methods(declared(x, x.len()), x);
            let t = with_methods(declared(y, y.len()), y);
            &&& t.errors.len() == 0
            &&& t.ledger_seen == s.ledger_seen && t.ledger == s.ledger
            &&& same_witnesses(s.witnesses, t.witnesses)
            &&& s.structs.to_multiset() == t.structs.to_multiset()
            &&& s.enums.to_multiset() == t.enums.to_multiset()
            &&& same_lookups(decl_of(s), decl_of(t))
        }),
{
    let dx = declared(x, x.len());
    let dy = declared(y, y.len());
    assert(x.take(x.len() as int) =~= x);
    assert(y.take(y.len() as int) =~= y);
    if dx.witnesses is Some {
        lemma_methods(x, dx.witnesses->0.name, dx.errors, x.len());
    }
    assert(dx.errors.len() == 0);
    lemma_declared(x, x.len());
    lemma_declared(y, y.len());
    lemma_at_most_one(x, ItemKind::Ledger);
    lemma_at_most_one(x, ItemKind::Witnesses);
    lemma_only_permuted(x, y, ItemKind::Ledger);
    lemma_only_permuted(x, y, ItemKind::Witnesses);
    lemma_types(x, x.len());
    lemma_types(y, y.len());
    lemma_types_permuted(x, y);
    assert(dy.errors.len() == 0);
    if dx.witnesses is Some {
        let name = dx.witnesses->0.name;
        lemma_methods(y, name, dy.errors, y.len());
        lemma_methods_permuted(x, y, name);
        lemma_methods_errors_apart(x, name, dx.errors, x.len());
        lemma_methods_errors_apart(y, name, dy.errors, y.len());
        let v = witness_methods(x, name, dx.errors, x.len()).methods;
        let w = witness_methods(y, name, dy.errors, y.len()).methods;
        assert(distinct_methods(witness_methods(x, name, seq![], x.len()).methods));
        assert(distinct_methods(witness_methods(y, name, seq![], y.len()).methods));
        assert forall|n: Seq<char>| #[trigger] first_method(v, n, v.len()) == first_method(w, n, w.len()) by {
            lemma_method_permuted(v, w, n);
        }
    }
    lemma_enum_names(x, x.len());
    lemma_enum_names(y, y.len());
    assert forall|n: Seq<char>| #[trigger] lookup(dx.enums, n) == lookup(dy.enums, n) by {
        lemma_lookup_permuted(dx.enums, dy.enums, n);
    }
}

proof fn lemma_accepted(a: ItemMod, b: ItemMod)
    requires
        is_reordered(a, b),
        contract_of(a) is Ok,
    ensures
        contract_of(b) is Ok,
        same_parts(contract_of(a)->Ok_0, contract_of(b)->Ok_0),
{
    broadcast use vstd::seq_lib::group_to_multiset_ensures;

    match (a.items, b.items) {
        (Some(i), Some(j)) => {
            let x = i@;
            let y = j@;
            let s = with_methods(declared(x, x.len()), x);
            let t = with_methods(declared(y, y.len()), y);
            let p = decl_of(s);
            let q = decl_of(t);
            let bx = bodies(p, x, s.errors, x.len());
            lemma_resolution_sum(s.witnesses, bx);
            lemma_bodies(p, x, s.errors, x.len());
            assert(resolution_errors(s.witnesses, bx).len() == 0);
            lemma_found(x, y);
            let by = bodies(q, y, t.errors, y.len());
            bodies_look_up_by_name(p, q, y, t.errors, y.len());
            lemma_entries(p, s.witnesses, x, s.errors, x.len());
            lemma_entries(p, s.witnesses, y, t.errors, y.len());
            assert(x.take(x.len() as int) =~= x);
            assert(y.take(y.len() as int) =~= y);
            lemma_entries_permuted(p, s.witnesses, s.errors, t.errors, x, y);
            assert(entries_of(s.witnesses, bx) == entries_of(s.witnesses, by));
            lemma_resolution_sum(s.witnesses, by);
            lemma_resolution_alike(s.witnesses, t.witnesses, by);
            lemma_helper_names(p, x, s.errors, x.len());
            lemma_helper_names(q, y, t.errors, y.len());
            lemma_recursion_permuted(bx.helpers, by.helpers);
            assert(bx.constructors.to_multiset().len() == bx.constructors.len());
            assert(by.constructors.to_multiset().len() == by.constructors.len());
            assert(bx.circuits.to_multiset().len() == bx.circuits.len());
            assert(by.circuits.to_multiset().len() == by.circuits.len());
        }
        _ => {}
    }
}

/// The order of a module's items does not matter. A module and one with the
/// same items in another order are accepted or refused together; accepted,
/// both have the same ledger and witness fields, and the same witness methods,
/// types, constructors, circuits, queries and helpers, up to their order.
pub proof fn item_order_does_not_matter(a: ItemMod, b: ItemMod)
    requires
        is_reordered(a, b),
    ensures
        contract_of(a) is Ok <==> contract_of(b) is Ok,
        contract_of(a) is Ok ==> same_parts(contract_of(a)->Ok_0, contract_of(b)->Ok_0),
{
    if contract_of(a) is Ok {
        lemma_accepted(a, b);
    }
    if contract_of(b) is Ok {
        lemma_accepted(b, a);
    }
}

} // verus!
