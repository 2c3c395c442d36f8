//! What a contract holds of its declarations: the fields, variants and
//! parameters that the source names, in the order in which it names them.

use vstd::prelude::*;

use crate::attrs::{attr_kind, attribute_kind, found_attr, MidnightAttr};
use crate::contract::{kind_of, ContractV, LedgerKindV, ParamV};
use crate::declaring::{add_fn, add_fns, circuit_of, constructor_of, enum_variants, fn_params, helper_params};
use crate::declaring::{is_witnesses_type, ledger_fields, ledger_struct, marked, query_of, struct_fields};
use crate::declaring::{witness_struct, BodiesV};
use crate::emission::EmitV;
use crate::error::ErrorV;
use crate::expr::ExprV;
use crate::lowering::{lower, lower_params, param_names};
use crate::reading::DeclV;
use crate::syntax::{ty_view, Attribute, FieldDef, Fields, FnArg, FnItem, Ident, PatKind, Variant};

verus! {

// ---- fields and variants

proof fn lemma_ledger_fields(fs: Seq<FieldDef>, n: nat)
    requires
        n <= fs.len(),
    ensures
        ledger_fields(fs, n) matches Ok(out) ==> out.len() == n && forall|i: int|
            0 <= i < n ==> {
                &&& (#[trigger] out[i]).name == fs[i].ident.name@
                &&& out[i].ty == ty_view(fs[i].ty)
                &&& out[i].exported == !marked(fs[i].attrs@, MidnightAttr::Private)
            },
    decreases n,
{
    if n > 0 {
        lemma_ledger_fields(fs, (n - 1) as nat);
    }
}

/// The ledger has the fields of its struct, each under its own name and with
/// its own type, in the order in which they are declared, and hides those that
/// are marked private.
pub proof fn ledger_fields_stand_as_declared(ident: Ident, fs: Vec<FieldDef>)
    ensures
        ledger_struct(ident, Fields::Named(fs)) matches Ok(l) ==> {
            &&& l.name == ident.name@
            &&& l.fields.len() == fs@.len()
            &&& forall|i: int|
                0 <= i < fs@.len() ==> {
                    &&& (#[trigger] l.fields[i]).name == fs@[i].ident.name@
                    &&& l.fields[i].ty == ty_view(fs@[i].ty)
                    &&& l.fields[i].exported == !marked(fs@[i].attrs@, MidnightAttr::Private)
                }
        },
{
    lemma_ledger_fields(fs@, fs@.len());
}

/// The witnesses have the fields of their struct, each under its own name and
/// with its own type, in the order in which they are declared.
pub proof fn witness_fields_stand_as_declared(ident: Ident, fs: Vec<FieldDef>)
    ensures
        witness_struct(ident, Fields::Named(fs)) matches Ok(w) && w.name == ident.name@ && w.fields.len()
            == fs@.len() && forall|i: int|
            0 <= i < fs@.len() ==> (#[trigger] w.fields[i]).name == fs@[i].ident.name@ && w.fields[i].ty
                == ty_view(fs@[i].ty),
{
}

/// A struct has the fields that it declares, in the order in which it declares
/// them.
pub proof fn struct_fields_stand_as_declared(fs: Seq<FieldDef>, i: int)
    requires
        0 <= i < fs.len(),
    ensures
        struct_fields(fs).len() == fs.len(),
        struct_fields(fs)[i].name == fs[i].ident.name@,
        struct_fields(fs)[i].ty == ty_view(fs[i].ty),
{
}

proof fn lemma_variants(vs: Seq<Variant>, n: nat)
    requires
        n <= vs.len(),
    ensures
        enum_variants(vs, n) matches Ok(out) ==> out.len() == n && forall|i: int|
            0 <= i < n ==> {
                &&& (#[trigger] out[i]).name == vs[i].ident.name@
                &&& out[i].payload is None <==> vs[i].fields is Unit
                &&& vs[i].fields matches Fields::Unnamed(ts) ==> out[i].payload == Some(ty_view(ts@[0]))
            },
    decreases n,
{
    if n > 0 {
        lemma_variants(vs, (n - 1) as nat);
    }
}

/// An enum has the variants that it declares, each with its own payload, in
/// the order in which it declares them.
pub proof fn variants_stand_as_declared(vs: Seq<Variant>)
    ensures
        enum_variants(vs, vs.len()) matches Ok(out) ==> out.len() == vs.len() && forall|i: int|
            0 <= i < vs.len() ==> {
                &&& (#[trigger] out[i]).name == vs[i].ident.name@
                &&& out[i].payload is None <==> vs[i].fields is Unit
                &&& vs[i].fields matches Fields::Unnamed(ts) ==> out[i].payload == Some(ty_view(ts@[0]))
            },
{
    lemma_variants(vs, vs.len());
}

/// Each container is known by its own name, and no other type is a container.
pub proof fn containers_are_known_by_name(name: Seq<char>)
    ensures
        kind_of(name) is Counter <==> name == "Counter"@,
        kind_of(name) is Cell <==> name == "Cell"@,
        kind_of(name) is LedgerMap <==> name == "Map"@,
        kind_of(name) is MerkleTree <==> name == "MerkleTree"@,
        kind_of(name) is Array <==> name == "Array"@,
        kind_of(name) is LedgerSet <==> name == "Set"@,
        kind_of(name) matches LedgerKindV::Unknown(shown) ==> shown == name,
{
    reveal_strlit("Counter");
    reveal_strlit("Cell");
    reveal_strlit("Map");
    reveal_strlit("MerkleTree");
    reveal_strlit("Array");
    reveal_strlit("Set");
    assert("Counter"@[0] == 'C' && "Counter"@.len() == 7);
    assert("Cell"@.len() == 4 && "Map"@.len() == 3 && "MerkleTree"@.len() == 10);
    assert("Array"@.len() == 5 && "Set"@.len() == 3);
    assert("Map"@[0] == 'M' && "Set"@[0] == 'S');
}

// ---- parameters

/// An argument that callers hand over: neither the receiver nor the witnesses.
pub open spec fn handed_over(a: FnArg, witnesses: Option<Seq<char>>) -> bool {
    a matches FnArg::Typed { ty, .. } && !(witnesses matches Some(w) && is_witnesses_type(ty_view(ty), w))
}

/// How many of the first `n` arguments callers hand over.
pub open spec fn handed_over_before(inputs: Seq<FnArg>, witnesses: Option<Seq<char>>, n: nat) -> nat
    decreases n,
{
    if n == 0 || n > inputs.len() {
        0
    } else {
        handed_over_before(inputs, witnesses, (n - 1) as nat) + if handed_over(inputs[n - 1], witnesses) {
            1nat
        } else {
            0
        }
    }
}

/// Whether a parameter is an argument: of its name and type.
pub open spec fn is_argument(p: ParamV, a: FnArg) -> bool {
    a matches FnArg::Typed { pat, ty } && (pat.kind matches PatKind::Ident { ident, .. } && p.name == ident.name@)
        && p.ty == ty_view(ty)
}

/// The parameters of a function are the arguments that callers hand over, in
/// the order of its signature: an argument stands behind as many parameters as
/// are handed over before it.
pub proof fn parameters_stand_as_declared(inputs: Seq<FnArg>, witnesses: Option<Seq<char>>, n: nat, i: int)
    requires
        0 <= i < n <= inputs.len(),
    ensures
        fn_params(inputs, witnesses, n) matches Ok(p) ==> {
            &&& p.params.len() == handed_over_before(inputs, witnesses, n)
            &&& handed_over(inputs[i], witnesses) ==> handed_over_before(inputs, witnesses, i as nat)
                < p.params.len() && is_argument(
                p.params[handed_over_before(inputs, witnesses, i as nat) as int],
                inputs[i],
            )
        },
    decreases n,
{
    if n > 1 {
        if i < n - 1 {
            parameters_stand_as_declared(inputs, witnesses, (n - 1) as nat, i);
        } else {
            parameters_stand_as_declared(inputs, witnesses, (n - 1) as nat, i - 1);
        }
    } else {
        assert(handed_over_before(inputs, witnesses, 0) == 0);
        assert(fn_params(inputs, witnesses, 0) is Ok);
        assert(fn_params(inputs, witnesses, 0)->Ok_0.params.len() == 0);
    }
}

/// The parameters of a helper are its arguments, in the order of its
/// signature.
pub proof fn helper_parameters_stand_as_declared(inputs: Seq<FnArg>, n: nat)
    requires
        n <= inputs.len(),
    ensures
        helper_params(inputs, n) matches Some(ps) ==> ps.len() == n && forall|i: int|
            0 <= i < n ==> is_argument(#[trigger] ps[i], inputs[i]),
    decreases n,
{
    if n > 0 {
        helper_parameters_stand_as_declared(inputs, (n - 1) as nat);
    }
}

// ---- splices

proof fn lemma_param_names(params: Seq<ParamV>, n: nat, counter: u32, i: int)
    requires
        0 <= i < n <= params.len(),
        forall|a: int, b: int| 0 <= a < b < params.len() ==> (#[trigger] params[a]).name != (#[trigger] params[b]).name,
    ensures
        param_names(params, n, counter).contains_key(params[i].name),
        param_names(params, n, counter)[params[i].name] == param_names(params, (i + 1) as nat, counter)[params[i].name],
    decreases n,
{
    if i < n - 1 {
        lemma_param_names(params, (n - 1) as nat, counter, i);
    }
}

/// In a spliced body, the name that stands for a parameter is bound to the
/// wire of the argument in its place.
pub proof fn parameters_stand_for_their_arguments(
    cx: ContractV,
    s: EmitV,
    params: Seq<ParamV>,
    args: Seq<ExprV>,
    counter: u32,
    depth: nat,
    i: int,
)
    requires
        0 <= i < params.len() == args.len(),
        forall|a: int, b: int| 0 <= a < b < params.len() ==> (#[trigger] params[a]).name != (#[trigger] params[b]).name,
        lower_params(cx, s, params, args, (i + 1) as nat, counter, depth).1,
    ensures
        ({
            let before = lower_params(cx, s, params, args, i as nat, counter, depth).0;
            let after = lower_params(cx, s, params, args, (i + 1) as nat, counter, depth).0;
            let names = param_names(params, params.len(), counter);
            &&& names.contains_key(params[i].name)
            &&& after.variables.contains_key(names[params[i].name])
            &&& lower(cx, before, args[i], depth).1 == Some(after.variables[names[params[i].name]])
        }),
{
    lemma_param_names(params, params.len(), counter, i);
}

// ---- attributes

/// Each attribute is known by its own name.
pub proof fn attributes_are_known_by_name(name: Seq<char>)
    ensures
        attr_kind(name) == Some(MidnightAttr::Ledger) <==> name == "ledger"@,
        attr_kind(name) == Some(MidnightAttr::Witnesses) <==> name == "witnesses"@,
        attr_kind(name) == Some(MidnightAttr::Circuit) <==> name == "circuit"@,
        attr_kind(name) == Some(MidnightAttr::Constructor) <==> name == "constructor"@,
        attr_kind(name) == Some(MidnightAttr::Query) <==> name == "query"@,
        attr_kind(name) == Some(MidnightAttr::Event) <==> name == "event"@,
        attr_kind(name) == Some(MidnightAttr::Private) <==> name == "private"@,
{
    reveal_strlit("ledger");
    reveal_strlit("witnesses");
    reveal_strlit("circuit");
    reveal_strlit("constructor");
    reveal_strlit("query");
    reveal_strlit("event");
    reveal_strlit("private");
    assert("ledger"@.len() == 6 && "witnesses"@.len() == 9 && "circuit"@.len() == 7 && "constructor"@.len() == 11);
    assert("query"@.len() == 5 && "event"@.len() == 5 && "private"@.len() == 7);
    assert("circuit"@[0] == 'c' && "private"@[0] == 'p' && "query"@[0] == 'q' && "event"@[0] == 'e');
}

proof fn lemma_found(attrs: Seq<Attribute>, n: nat)
    requires
        n <= attrs.len(),
    ensures
        match found_attr(attrs, n) {
            Ok(Some((kind, _))) => exists|i: int|
                0 <= i < n && attribute_kind(#[trigger] attrs[i]) == Ok::<Option<MidnightAttr>, ErrorV>(Some(kind))
                    && forall|j: int|
                    0 <= j < n && j != i ==> attribute_kind(#[trigger] attrs[j]) == Ok::<Option<MidnightAttr>, ErrorV>(
                        None,
                    ),
            Ok(None) => forall|j: int|
                0 <= j < n ==> attribute_kind(#[trigger] attrs[j]) == Ok::<Option<MidnightAttr>, ErrorV>(None),
            Err(_) => true,
        },
    decreases n,
{
    if n > 0 {
        lemma_found(attrs, (n - 1) as nat);
        match found_attr(attrs, n) {
            Ok(Some((kind, _))) => match attribute_kind(attrs[n - 1]) {
                Ok(Some(_)) => {
                    assert(attribute_kind(attrs[n - 1]) == Ok::<Option<MidnightAttr>, ErrorV>(Some(kind)));
                }
                _ => {
                    let i = choose|i: int|
                        0 <= i < n - 1 && attribute_kind(#[trigger] attrs[i]) == Ok::<Option<MidnightAttr>, ErrorV>(
                            Some(kind),
                        ) && forall|j: int|
                            0 <= j < n - 1 && j != i ==> attribute_kind(#[trigger] attrs[j]) == Ok::<
                                Option<MidnightAttr>,
                                ErrorV,
                            >(None);
                    assert(attribute_kind(attrs[i]) == Ok::<Option<MidnightAttr>, ErrorV>(Some(kind)));
                }
            },
            _ => {}
        }
    }
}

/// An item is marked by one attribute of the compiler, which names the mark,
/// and bears no other.
pub proof fn marks_are_a_single_attribute(attrs: Seq<Attribute>, kind: MidnightAttr)
    ensures
        marked(attrs, kind) ==> exists|i: int|
            0 <= i < attrs.len() && attribute_kind(#[trigger] attrs[i]) == Ok::<Option<MidnightAttr>, ErrorV>(Some(kind))
                && forall|j: int|
                0 <= j < attrs.len() && j != i ==> attribute_kind(#[trigger] attrs[j]) == Ok::<
                    Option<MidnightAttr>,
                    ErrorV,
                >(None),
{
    lemma_found(attrs, attrs.len());
}

// ---- entry points

/// How many of the first `n` functions bear a mark.
pub open spec fn marked_before(fns: Seq<FnItem>, kind: MidnightAttr, n: nat) -> nat
    decreases n,
{
    if n == 0 || n > fns.len() {
        0
    } else {
        marked_before(fns, kind, (n - 1) as nat) + if marked(fns[n - 1].attrs@, kind) {
            1nat
        } else {
            0
        }
    }
}

proof fn lemma_errors_stay(cx: DeclV, s: BodiesV, fns: Seq<FnItem>, n: nat)
    requires
        n <= fns.len(),
    ensures
        add_fns(cx, s, fns, n).errors.len() >= s.errors.len(),
    decreases n,
{
    if n > 0 {
        lemma_errors_stay(cx, s, fns, (n - 1) as nat);
    }
}

/// Where no function is refused, each that is marked as a circuit, a
/// constructor or a query becomes one, under its own name and in the order of
/// the source, behind those that were there.
pub proof fn entry_points_stand_as_declared(cx: DeclV, s: BodiesV, fns: Seq<FnItem>, n: nat, i: int)
    requires
        0 <= i < n <= fns.len(),
        add_fns(cx, s, fns, n).errors.len() == s.errors.len(),
    ensures
        ({
            let b = add_fns(cx, s, fns, n);
            let circuits = marked_before(fns, MidnightAttr::Circuit, i as nat);
            let constructors = marked_before(fns, MidnightAttr::Constructor, i as nat);
            let queries = marked_before(fns, MidnightAttr::Query, i as nat);
            &&& b.circuits.len() == s.circuits.len() + marked_before(fns, MidnightAttr::Circuit, n)
            &&& b.constructors.len() == s.constructors.len() + marked_before(fns, MidnightAttr::Constructor, n)
            &&& b.queries.len() == s.queries.len() + marked_before(fns, MidnightAttr::Query, n)
            &&& marked(fns[i].attrs@, MidnightAttr::Circuit) ==> s.circuits.len() + circuits < b.circuits.len()
                && b.circuits[(s.circuits.len() + circuits) as int].name == fns[i].sig.ident.name@
            &&& marked(fns[i].attrs@, MidnightAttr::Constructor) ==> s.constructors.len() + constructors
                < b.constructors.len() && b.constructors[(s.constructors.len() + constructors) as int].name
                == fns[i].sig.ident.name@
            &&& marked(fns[i].attrs@, MidnightAttr::Query) ==> s.queries.len() + queries < b.queries.len()
                && b.queries[(s.queries.len() + queries) as int].name == fns[i].sig.ident.name@
        }),
    decreases n,
{
    reveal(circuit_of);
    reveal(query_of);
    reveal(constructor_of);
    lemma_errors_stay(cx, s, fns, (n - 1) as nat);
    let before = add_fns(cx, s, fns, (n - 1) as nat);
    assert(add_fns(cx, s, fns, n) == add_fn(cx, before, fns[n - 1]));
    assert(before.errors.len() == s.errors.len());
    if n > 1 {
        if i < n - 1 {
            entry_points_stand_as_declared(cx, s, fns, (n - 1) as nat, i);
        } else {
            entry_points_stand_as_declared(cx, s, fns, (n - 1) as nat, i - 1);
        }
    } else {
        assert(add_fns(cx, s, fns, 0) == s);
        assert(marked_before(fns, MidnightAttr::Circuit, 0) == 0);
        assert(marked_before(fns, MidnightAttr::Constructor, 0) == 0);
        assert(marked_before(fns, MidnightAttr::Query, 0) == 0);
    }
}

} // verus!
