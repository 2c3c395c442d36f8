//! The host code of a ledger access does to the ledger what the source asks
//! for, with the source's arguments in their places.

use crate::aligned::accessor_code;
use crate::code::u8_code;
use crate::containers::{cell_inner, map_kv, merkle_leaf, set_inner};
use crate::contract::ContractV;
use crate::emission::{field_slot, is_counter, slot_type, type_ctx};
use crate::expr::{ExprV, LitV};
use crate::host_laws::{argument_code_computes_its_value, code, computes, host_of, source, valued, WorldV};
use crate::operation_laws::{ledger_code_is_its_script, ledger_script};
use crate::snippets::{paren_cast, state_get, state_lookup, value_cast};
use crate::syntax::{Span, TyV};
use crate::text::{dec, no_spaces};
use crate::transcript::{aligned_arg, bound_key, cast_value, host_cast, is_literal, is_read, key_type, live_test};
use crate::transcript::{looked_up, member_steps, ops, range_error, raw, read_value, shaped_value, write_type};
use crate::vm_laws::{effect, increments_add_the_amount, insertions_put_the_value_under_its_key, key_of, on_ledger};
use crate::vm_laws::{reads_see_the_field, removals_take_the_key_out, root_checks_see_the_root, tests_see_the_key};
use crate::vm_laws::{trees_grow_at_their_index, writes_put_the_value, NodeV};
use crate::vm_ops::{check_root_steps, increment_steps, lookup_steps, map_insert_steps, map_remove_steps, read_steps};
use crate::vm_ops::{script, set_insert_steps, tree_insert_steps, write_steps, StepV};
use vstd::prelude::*;

verus! {

/// Whether an argument is handed to the ledger as its plain value, at most
/// cast to the width of the type: it fits the type, whose values have one
/// component.
pub open spec fn plain(cx: ContractV, e: ExprV, t: TyV) -> bool {
    range_error(e, t) is None && shaped_value(cx, raw(e), t) is None && valued(e, true)
}

/// Whether host code is that of an argument: of an expression that computes
/// its value, cast to the width of the type.
pub open spec fn is_code_of(text: Seq<char>, e: ExprV, t: TyV) -> bool {
    let h = code(host_of(e, true));
    match host_cast(no_spaces(t.text)) {
        Some(c) => text == "("@ + h + ") "@ + c || (e is Var && text == "("@ + h + ") . value () "@ + c),
        None => text == h,
    }
}

/// The code of a plain argument is that of a host expression that computes the
/// argument's value.
pub proof fn plain_arguments_are_computed(w: WorldV, cx: ContractV, e: ExprV, t: TyV)
    requires
        plain(cx, e, t),
    ensures
        is_code_of(aligned_arg(cx, e, Some(t)), e, t),
        computes(w, host_of(e, true)) == source(w, e),
{
    argument_code_computes_its_value(w, e);
    reveal(aligned_arg);
    reveal(cast_value);
    reveal(paren_cast);
    reveal(value_cast);
}

proof fn lemma_methods_differ()
    ensures
        "insert"@ != "set"@ && "remove"@ != "set"@ && "remove"@ != "insert"@,
        forall|m: Seq<char>|
            (m == "insert"@ || m == "set"@ || m == "remove"@ || m == "lookup"@) ==> m != "increment"@ && m
                != "increment_by"@ && m != "contains"@ && m != "member"@ && #[trigger] is_read(m)
                == false,
        forall|m: Seq<char>|
            (m == "contains"@ || m == "member"@) ==> m != "increment"@ && m != "increment_by"@
                && #[trigger] is_read(m) == false,
{
    reveal_strlit("set");
    reveal_strlit("get");
    reveal_strlit("value");
    reveal_strlit("remove");
    reveal_strlit("lookup");
    reveal_strlit("increment");
    reveal_strlit("increment_by");
    reveal_strlit("__direct_access");
    reveal_strlit("contains");
    reveal_strlit("member");
    reveal_strlit("insert");
    assert("set"@[0] == 's' && "get"@[0] == 'g');
    assert("remove"@[0] == 'r' && "insert"@[0] == 'i' && "member"@[0] == 'm' && "lookup"@[0] == 'l');
    assert("set"@.len() == 3 && "get"@.len() == 3 && "value"@.len() == 5 && "remove"@.len() == 6);
    assert("insert"@.len() == 6 && "lookup"@.len() == 6 && "member"@.len() == 6 && "contains"@.len() == 8);
    assert("increment"@.len() == 9 && "increment_by"@.len() == 12 && "__direct_access"@.len() == 15);
}

/// The code of a map insertion puts the value of the second argument under the
/// key of the first, in the field's slot.
pub proof fn map_insertions_take_key_and_value(
    w: WorldV,
    cx: ContractV,
    span: Span,
    field: Seq<char>,
    method: Seq<char>,
    args: Seq<ExprV>,
    k: TyV,
    v: TyV,
    below: Seq<NodeV>,
    ledger: Map<Seq<char>, NodeV>,
    seen: Seq<(NodeV, Seq<char>)>,
    entries: Map<Seq<char>, NodeV>,
) -> (out: (Seq<StepV>, Seq<char>, Seq<char>))
    requires
        method == "insert"@ || method == "set"@,
        field_slot(cx, field) is Some,
        slot_type(cx, field_slot(cx, field)->0) matches Some(t) && map_kv(t) == Some((k, v)),
        args.len() >= 2,
        plain(cx, args[0], k),
        plain(cx, args[1], v),
        ledger.contains_key(dec(field_slot(cx, field)->0 as nat) + "u8"@),
        ledger[dec(field_slot(cx, field)->0 as nat) + "u8"@] == NodeV::Branch(entries),
    ensures
        ops(cx, ExprV::LedgerAccess { span, field, method, args }) == script(out.0),
        is_code_of(out.1, args[0], k),
        is_code_of(out.2, args[1], v),
        computes(w, host_of(args[0], true)) == source(w, args[0]),
        computes(w, host_of(args[1], true)) == source(w, args[1]),
        effect(on_ledger(below, ledger, seen), out.0) == on_ledger(
            below,
            ledger.insert(
                dec(field_slot(cx, field)->0 as nat) + "u8"@,
                NodeV::Branch(entries.insert(out.1, NodeV::Code(out.2))),
            ),
            seen,
        ),
{
    let slot = field_slot(cx, field)->0;
    let key = aligned_arg(cx, args[0], Some(k));
    let value = aligned_arg(cx, args[1], Some(v));
    let steps = map_insert_steps(u8_code(slot), key, value);
    lemma_methods_differ();
    assert(!is_read(method));
    assert(ledger_script(cx, field, method, args) == Some(steps));
    ledger_code_is_its_script(cx, span, field, method, args);
    plain_arguments_are_computed(w, cx, args[0], k);
    plain_arguments_are_computed(w, cx, args[1], v);
    insertions_put_the_value_under_its_key(below, ledger, seen, u8_code(slot), entries, key, value);
    (steps, key, value)
}

/// The code of a set insertion puts the argument into the field's set.
pub proof fn set_insertions_take_the_key(
    w: WorldV,
    cx: ContractV,
    span: Span,
    field: Seq<char>,
    args: Seq<ExprV>,
    k: TyV,
    below: Seq<NodeV>,
    ledger: Map<Seq<char>, NodeV>,
    seen: Seq<(NodeV, Seq<char>)>,
    entries: Map<Seq<char>, NodeV>,
) -> (out: (Seq<StepV>, Seq<char>))
    requires
        field_slot(cx, field) is Some,
        slot_type(cx, field_slot(cx, field)->0) matches Some(t) && map_kv(t) is None && set_inner(t) == Some(k),
        args.len() >= 1,
        plain(cx, args[0], k),
        ledger.contains_key(dec(field_slot(cx, field)->0 as nat) + "u8"@),
        ledger[dec(field_slot(cx, field)->0 as nat) + "u8"@] == NodeV::Branch(entries),
    ensures
        ops(cx, ExprV::LedgerAccess { span, field, method: "insert"@, args }) == script(out.0),
        is_code_of(out.1, args[0], k),
        computes(w, host_of(args[0], true)) == source(w, args[0]),
        effect(on_ledger(below, ledger, seen), out.0) == on_ledger(
            below,
            ledger.insert(
                dec(field_slot(cx, field)->0 as nat) + "u8"@,
                NodeV::Branch(entries.insert(out.1, NodeV::Null)),
            ),
            seen,
        ),
{
    let slot = field_slot(cx, field)->0;
    let key = aligned_arg(cx, args[0], Some(k));
    let steps = set_insert_steps(u8_code(slot), key);
    lemma_methods_differ();
    assert(!is_read("insert"@));
    assert(ledger_script(cx, field, "insert"@, args) == Some(steps));
    ledger_code_is_its_script(cx, span, field, "insert"@, args);
    plain_arguments_are_computed(w, cx, args[0], k);
    insertions_put_the_value_under_its_key(below, ledger, seen, u8_code(slot), entries, key, seq![]);
    (steps, key)
}

/// The code of a removal takes the argument out of the field's map or set.
pub proof fn removals_take_the_argument_out(
    w: WorldV,
    cx: ContractV,
    span: Span,
    field: Seq<char>,
    args: Seq<ExprV>,
    k: TyV,
    below: Seq<NodeV>,
    ledger: Map<Seq<char>, NodeV>,
    seen: Seq<(NodeV, Seq<char>)>,
    entries: Map<Seq<char>, NodeV>,
) -> (out: (Seq<StepV>, Seq<char>))
    requires
        field_slot(cx, field) is Some,
        slot_type(cx, field_slot(cx, field)->0) matches Some(t) && (match map_kv(t) {
            Some(kv) => kv.0 == k,
            None => set_inner(t) == Some(k),
        }),
        args.len() >= 1,
        plain(cx, args[0], k),
        ledger.contains_key(dec(field_slot(cx, field)->0 as nat) + "u8"@),
        ledger[dec(field_slot(cx, field)->0 as nat) + "u8"@] == NodeV::Branch(entries),
    ensures
        ops(cx, ExprV::LedgerAccess { span, field, method: "remove"@, args }) == script(out.0),
        is_code_of(out.1, args[0], k),
        computes(w, host_of(args[0], true)) == source(w, args[0]),
        effect(on_ledger(below, ledger, seen), out.0) == on_ledger(
            below,
            ledger.insert(
                dec(field_slot(cx, field)->0 as nat) + "u8"@,
                NodeV::Branch(entries.remove(out.1)),
            ),
            seen,
        ),
{
    let slot = field_slot(cx, field)->0;
    let key = aligned_arg(cx, args[0], Some(k));
    let steps = map_remove_steps(u8_code(slot), key);
    lemma_methods_differ();
    assert(!is_read("remove"@));
    assert(ledger_script(cx, field, "remove"@, args) == Some(steps));
    ledger_code_is_its_script(cx, span, field, "remove"@, args);
    plain_arguments_are_computed(w, cx, args[0], k);
    removals_take_the_key_out(below, ledger, seen, u8_code(slot), entries, key);
    (steps, key)
}

/// The code of a cell write puts the argument into the field's slot.
pub proof fn cell_writes_put_their_argument(
    w: WorldV,
    cx: ContractV,
    span: Span,
    field: Seq<char>,
    method: Seq<char>,
    args: Seq<ExprV>,
    t: TyV,
    below: Seq<NodeV>,
    ledger: Map<Seq<char>, NodeV>,
    seen: Seq<(NodeV, Seq<char>)>,
) -> (out: (Seq<StepV>, Seq<char>))
    requires
        method == "insert"@ || method == "set"@,
        field_slot(cx, field) is Some,
        slot_type(cx, field_slot(cx, field)->0) matches Some(f) && map_kv(f) is None && set_inner(f) is None
            && merkle_leaf(f) is None,
        write_type(slot_type(cx, field_slot(cx, field)->0)) == Some(t),
        args.len() >= 1,
        plain(cx, args[0], t),
    ensures
        ops(cx, ExprV::LedgerAccess { span, field, method, args }) == script(out.0),
        is_code_of(out.1, args[0], t),
        computes(w, host_of(args[0], true)) == source(w, args[0]),
        effect(on_ledger(below, ledger, seen), out.0) == on_ledger(
            below,
            ledger.insert(dec(field_slot(cx, field)->0 as nat) + "u8"@, NodeV::Code(out.1)),
            seen,
        ),
{
    let slot = field_slot(cx, field)->0;
    let value = aligned_arg(cx, args[0], Some(t));
    let steps = write_steps(u8_code(slot), value);
    lemma_methods_differ();
    assert(!is_read(method));
    assert(ledger_script(cx, field, method, args) == Some(steps));
    ledger_code_is_its_script(cx, span, field, method, args);
    plain_arguments_are_computed(w, cx, args[0], t);
    writes_put_the_value(below, ledger, seen, u8_code(slot), value);
    (steps, value)
}

/// The code of an increment adds the amount that is spelled out, or one, to
/// the counter in the field's slot.
pub proof fn increments_add_their_amount(
    cx: ContractV,
    span: Span,
    field: Seq<char>,
    args: Seq<ExprV>,
    below: Seq<NodeV>,
    ledger: Map<Seq<char>, NodeV>,
    seen: Seq<(NodeV, Seq<char>)>,
) -> (out: Seq<StepV>)
    requires
        field_slot(cx, field) is Some,
        args.len() > 0 ==> (args[0] matches ExprV::Literal { value, .. } && (value matches LitV::Int(v) && v
            <= u32::MAX)),
        ledger.contains_key(dec(field_slot(cx, field)->0 as nat) + "u8"@),
    ensures
        ops(cx, ExprV::LedgerAccess { span, field, method: "increment_by"@, args }) == script(out),
        ops(cx, ExprV::LedgerAccess { span, field, method: "increment"@, args }) == script(out),
        effect(on_ledger(below, ledger, seen), out) == on_ledger(
            below,
            ledger.insert(
                dec(field_slot(cx, field)->0 as nat) + "u8"@,
                NodeV::Sum(
                    Box::new(ledger[dec(field_slot(cx, field)->0 as nat) + "u8"@]),
                    if args.len() > 0 {
                        dec(args[0]->Literal_value->Int_0 as nat) + "u32"@
                    } else {
                        "1u32"@
                    },
                ),
            ),
            seen,
        ),
{
    let slot = field_slot(cx, field)->0;
    let amount = if args.len() > 0 {
        dec(args[0]->Literal_value->Int_0 as nat) + "u32"@
    } else {
        "1u32"@
    };
    let steps = increment_steps(u8_code(slot), amount);
    assert(ledger_script(cx, field, "increment_by"@, args) == Some(steps));
    assert(ledger_script(cx, field, "increment"@, args) == Some(steps));
    ledger_code_is_its_script(cx, span, field, "increment_by"@, args);
    ledger_code_is_its_script(cx, span, field, "increment"@, args);
    increments_add_the_amount(below, ledger, seen, u8_code(slot), amount);
    steps
}

/// The code of a membership test looks for its argument, which it binds first,
/// in the field's map or set.
pub proof fn membership_tests_look_for_their_argument(
    w: WorldV,
    cx: ContractV,
    span: Span,
    field: Seq<char>,
    method: Seq<char>,
    args: Seq<ExprV>,
    below: Seq<NodeV>,
    ledger: Map<Seq<char>, NodeV>,
    seen: Seq<(NodeV, Seq<char>)>,
    entries: Map<Seq<char>, NodeV>,
) -> (out: (Seq<StepV>, Seq<char>))
    requires
        method == "contains"@ || method == "member"@,
        field_slot(cx, field) is Some,
        key_type(slot_type(cx, field_slot(cx, field)->0)) is Some,
        args.len() >= 1,
        valued(args[0], false),
        is_literal(args[0]) ==> plain(cx, args[0], key_type(slot_type(cx, field_slot(cx, field)->0))->0),
        ledger.contains_key(dec(field_slot(cx, field)->0 as nat) + "u8"@),
        ledger[dec(field_slot(cx, field)->0 as nat) + "u8"@] == NodeV::Branch(entries),
    ensures
        ops(cx, ExprV::LedgerAccess { span, field, method, args }) == script(out.0),
        out.0.len() > 0,
        out.0[0] == StepV::Host("let _ = { let __key = "@ + code(host_of(args[0], false)) + " ;"@),
        computes(w, host_of(args[0], false)) == source(w, args[0]),
        if is_literal(args[0]) {
            is_code_of(out.1, args[0], key_type(slot_type(cx, field_slot(cx, field)->0))->0)
        } else {
            out.1 == accessor_code(
                type_ctx(cx),
                key_type(slot_type(cx, field_slot(cx, field)->0)),
                "__key . clone ()"@,
            )
        },
        effect(on_ledger(below, ledger, seen), out.0) == on_ledger(
            below,
            ledger,
            seen.push((NodeV::Flag(entries.contains_key(out.1)), "__result"@)),
        ),
{
    let slot = field_slot(cx, field)->0;
    let t = slot_type(cx, slot);
    let key = bound_key(cx, args, key_type(t));
    let steps = member_steps(cx, slot, field, args, t, true);
    lemma_methods_differ();
    assert(!is_read(method));
    assert(ledger_script(cx, field, method, args) == Some(steps));
    ledger_code_is_its_script(cx, span, field, method, args);
    argument_code_computes_its_value(w, args[0]);
    reveal(bound_key);
    if is_literal(args[0]) {
        plain_arguments_are_computed(w, cx, args[0], key_type(t)->0);
    }
    tests_see_the_key(
        below,
        ledger,
        seen,
        u8_code(slot),
        entries,
        key,
        "let _ = { let __key = "@ + raw(args[0]) + " ;"@,
        seq![],
        live_test(field, " . contains (& __key) ;"@),
        "__result } ;"@,
    );
    (steps, key)
}

/// The code of a map lookup looks under its argument, which it binds first, in
/// the field's map, and claims what the live state holds there.
pub proof fn lookups_look_under_their_argument(
    w: WorldV,
    cx: ContractV,
    span: Span,
    field: Seq<char>,
    args: Seq<ExprV>,
    k: TyV,
    v: TyV,
    below: Seq<NodeV>,
    ledger: Map<Seq<char>, NodeV>,
    seen: Seq<(NodeV, Seq<char>)>,
    entries: Map<Seq<char>, NodeV>,
) -> (out: (Seq<StepV>, Seq<char>))
    requires
        field_slot(cx, field) is Some,
        slot_type(cx, field_slot(cx, field)->0) matches Some(t) && map_kv(t) == Some((k, v)),
        args.len() >= 1,
        valued(args[0], false),
        is_literal(args[0]) ==> plain(cx, args[0], k),
        ledger.contains_key(dec(field_slot(cx, field)->0 as nat) + "u8"@),
        ledger[dec(field_slot(cx, field)->0 as nat) + "u8"@] == NodeV::Branch(entries),
    ensures
        ops(cx, ExprV::LedgerAccess { span, field, method: "lookup"@, args }) == script(out.0),
        out.0.len() > 0,
        out.0[0] == StepV::Host("{ let __key = "@ + code(host_of(args[0], false)) + " ;"@),
        computes(w, host_of(args[0], false)) == source(w, args[0]),
        if is_literal(args[0]) {
            is_code_of(out.1, args[0], k)
        } else {
            out.1 == accessor_code(type_ctx(cx), Some(k), "__key . clone ()"@)
        },
        entries.contains_key(out.1) ==> effect(on_ledger(below, ledger, seen), out.0) == on_ledger(
            below,
            ledger,
            seen.push((entries[out.1], looked_up(cx, state_lookup(field, "__key"@), v))),
        ),
{
    let slot = field_slot(cx, field)->0;
    let key = bound_key(cx, args, Some(k));
    let result = looked_up(cx, state_lookup(field, "__key"@), v);
    let steps = lookup_steps(raw(args[0]), u8_code(slot), key, result);
    lemma_methods_differ();
    reveal_strlit("lookup");
    reveal_strlit("remove");
    reveal_strlit("insert");
    reveal_strlit("set");
    assert("lookup"@[0] == 'l' && "remove"@[0] == 'r' && "insert"@[0] == 'i' && "set"@[0] == 's');
    assert(!is_read("lookup"@));
    assert(ledger_script(cx, field, "lookup"@, args) == Some(steps));
    ledger_code_is_its_script(cx, span, field, "lookup"@, args);
    argument_code_computes_its_value(w, args[0]);
    reveal(bound_key);
    if is_literal(args[0]) {
        plain_arguments_are_computed(w, cx, args[0], k);
    }
    tests_see_the_key(below, ledger, seen, u8_code(slot), entries, key, raw(args[0]), result, seq![], seq![]);
    (steps, key)
}

/// The code of a tree insertion puts the hash of its argument, which it binds
/// first, at the tree's next index.
pub proof fn tree_insertions_take_the_leaf(
    w: WorldV,
    cx: ContractV,
    span: Span,
    field: Seq<char>,
    args: Seq<ExprV>,
    below: Seq<NodeV>,
    ledger: Map<Seq<char>, NodeV>,
    seen: Seq<(NodeV, Seq<char>)>,
    tree: Map<Seq<char>, NodeV>,
    leaves: Map<Seq<char>, NodeV>,
) -> (out: Seq<StepV>)
    requires
        field_slot(cx, field) is Some,
        slot_type(cx, field_slot(cx, field)->0) matches Some(t) && map_kv(t) is None && set_inner(t) is None
            && merkle_leaf(t) is Some,
        args.len() >= 1,
        valued(args[0], false),
        ledger.contains_key(dec(field_slot(cx, field)->0 as nat) + "u8"@),
        ledger[dec(field_slot(cx, field)->0 as nat) + "u8"@] == NodeV::Branch(tree),
        tree.contains_key("0u8"@),
        tree.contains_key("1u8"@),
        tree["0u8"@] == NodeV::Branch(leaves),
    ensures
        ops(cx, ExprV::LedgerAccess { span, field, method: "insert"@, args }) == script(out),
        out.len() > 0,
        out[0] == StepV::Host(
            "{ let __leaf = "@ + code(host_of(args[0], false))
                + " ; let __leaf_hash : [u8 ; 32] = nocturne :: runtime :: transient_crypto :: merkle_tree :: leaf_hash (__leaf . as_bytes () . as_slice ()) . 0 ;"@,
        ),
        computes(w, host_of(args[0], false)) == source(w, args[0]),
        effect(on_ledger(below, ledger, seen), out) == on_ledger(
            below,
            ledger.insert(
                dec(field_slot(cx, field)->0 as nat) + "u8"@,
                NodeV::Branch(
                    tree.insert(
                        "0u8"@,
                        NodeV::Branch(leaves.insert(key_of(tree["1u8"@]), NodeV::Code("__leaf_hash"@))),
                    ).insert("1u8"@, NodeV::Sum(Box::new(tree["1u8"@]), "1"@)),
                ),
            ),
            seen,
        ),
{
    let slot = field_slot(cx, field)->0;
    let steps = tree_insert_steps(raw(args[0]), u8_code(slot));
    lemma_methods_differ();
    assert(!is_read("insert"@));
    assert(ledger_script(cx, field, "insert"@, args) == Some(steps));
    ledger_code_is_its_script(cx, span, field, "insert"@, args);
    argument_code_computes_its_value(w, args[0]);
    trees_grow_at_their_index(below, ledger, seen, u8_code(slot), tree, leaves, raw(args[0]));
    steps
}

/// The code of a read holds the field's value against the live state's value
/// of the same field.
pub proof fn reads_claim_their_own_field(
    cx: ContractV,
    span: Span,
    field: Seq<char>,
    method: Seq<char>,
    args: Seq<ExprV>,
    t: TyV,
    below: Seq<NodeV>,
    ledger: Map<Seq<char>, NodeV>,
    seen: Seq<(NodeV, Seq<char>)>,
) -> (out: Seq<StepV>)
    requires
        is_read(method),
        field_slot(cx, field) is Some,
        slot_type(cx, field_slot(cx, field)->0) matches Some(f) && !is_counter(f) && cell_inner(f) == Some(t),
        ledger.contains_key(dec(field_slot(cx, field)->0 as nat) + "u8"@),
    ensures
        ops(cx, ExprV::LedgerAccess { span, field, method, args }) == script(out),
        effect(on_ledger(below, ledger, seen), out) == on_ledger(
            below,
            ledger,
            seen.push(
                (
                    ledger[dec(field_slot(cx, field)->0 as nat) + "u8"@],
                    read_value(cx, "__nocturne_state . "@ + field + " . get ()"@, t),
                ),
            ),
        ),
{
    let slot = field_slot(cx, field)->0;
    let result = read_value(cx, state_get(field), t);
    let steps = read_steps(u8_code(slot), result);
    reveal(state_get);
    reveal_strlit("get");
    reveal_strlit("value");
    reveal_strlit("__direct_access");
    reveal_strlit("increment");
    reveal_strlit("increment_by");
    assert("get"@.len() == 3 && "value"@.len() == 5 && "__direct_access"@.len() == 15 && "increment"@.len() == 9
        && "increment_by"@.len() == 12);
    assert(ledger_script(cx, field, method, args) == Some(steps));
    ledger_code_is_its_script(cx, span, field, method, args);
    reads_see_the_field(below, ledger, seen, u8_code(slot), result);
    steps
}

/// The code of a root check compares the root of the field's tree with its
/// argument, which it binds first.
pub proof fn root_checks_compare_their_argument(
    w: WorldV,
    cx: ContractV,
    span: Span,
    field: Seq<char>,
    args: Seq<ExprV>,
    below: Seq<NodeV>,
    ledger: Map<Seq<char>, NodeV>,
    seen: Seq<(NodeV, Seq<char>)>,
    tree: Map<Seq<char>, NodeV>,
) -> (out: Seq<StepV>)
    requires
        field_slot(cx, field) is Some,
        slot_type(cx, field_slot(cx, field)->0) matches Some(t) && map_kv(t) is None && set_inner(t) is None
            && merkle_leaf(t) is Some,
        args.len() >= 1,
        valued(args[0], false),
        ledger.contains_key(dec(field_slot(cx, field)->0 as nat) + "u8"@),
        ledger[dec(field_slot(cx, field)->0 as nat) + "u8"@] == NodeV::Branch(tree),
        tree.contains_key("0u8"@),
    ensures
        ops(cx, ExprV::LedgerAccess { span, field, method: "check_root"@, args }) == script(out),
        out.len() > 0,
        out[0] == StepV::Host(
            "{ let __digest = "@ + code(host_of(args[0], false))
                + " ; let __digest_fr = Fr :: from_le_bytes (& (& __digest) . as_le_bytes ()) . expect (\"MerkleTreeDigest bytes round-trip through Fr\") ;"@,
        ),
        computes(w, host_of(args[0], false)) == source(w, args[0]),
        effect(on_ledger(below, ledger, seen), out) == on_ledger(
            below,
            ledger,
            seen.push(
                (
                    NodeV::Same(
                        Box::new(NodeV::Root(Box::new(tree["0u8"@]))),
                        Box::new(NodeV::Code("__digest_fr"@)),
                    ),
                    "__result"@,
                ),
            ),
        ),
{
    let slot = field_slot(cx, field)->0;
    let test = live_test(field, " . check_root (& __digest) ;"@);
    let steps = check_root_steps(raw(args[0]), u8_code(slot), test);
    reveal_strlit("check_root");
    reveal_strlit("set");
    reveal_strlit("get");
    reveal_strlit("value");
    reveal_strlit("increment");
    reveal_strlit("increment_by");
    reveal_strlit("__direct_access");
    reveal_strlit("contains");
    reveal_strlit("member");
    reveal_strlit("insert");
    assert("check_root"@.len() == 10 && "set"@.len() == 3 && "get"@.len() == 3 && "value"@.len() == 5);
    assert("increment"@.len() == 9 && "increment_by"@.len() == 12 && "__direct_access"@.len() == 15);
    assert("contains"@.len() == 8 && "member"@.len() == 6 && "insert"@.len() == 6);
    assert(ledger_script(cx, field, "check_root"@, args) == Some(steps));
    ledger_code_is_its_script(cx, span, field, "check_root"@, args);
    argument_code_computes_its_value(w, args[0]);
    root_checks_see_the_root(below, ledger, seen, u8_code(slot), tree, raw(args[0]), test);
    steps
}

} // verus!
