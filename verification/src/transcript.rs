//! What the generated transcript builders say, for each shape of circuit body.
use crate::aligned::{accessor_code, aligned_elements, aligned_fields, aligned_repeat, bound_tuple, enum_of};
use crate::aligned::{first_payload, payload_arms, plain_cast, struct_of, type_depth};
use crate::code::{bool_text, braced, listed, refusal_code, refusal_value, spaced, string_literal, tuple_of, u8_code};
use crate::containers::{args_of, array_parts, cell_inner, map_kv, merkle_leaf, option_payload, set_inner, type_args};
use crate::contract::{lookup, CircuitV, ContractV};
use crate::emission::{field_slot, is_counter, ledger_position, method_type, simple_type, slot_type, type_ctx};
use crate::emission::{variant_position, witness_type};
use crate::expr::{bin_op_text, un_op_text, AssertV, BinOp, ExprV, LitV, UnOp};
use crate::private_events::{fresh_tracker, walk, EventV, TrackerV};
use crate::snippets::{array_code, assert_code, assert_eq_code, bare_call, bytes_of, call_code, call_push_code};
use crate::snippets::{call_value, cast_disc, clone_of, digest_fr, enum_disc, enum_match, field_init, fn_code, fr_of};
use crate::snippets::{if_code, if_else_code, if_value, index_clone, index_value, infix, infix_paren, leaf_of};
use crate::snippets::{let_code, method_code, module_code, nonzero, option_disc, option_match, option_payload_code};
use crate::snippets::{paren, paren_cast, paren_method, paren_value, path_disc, path_push_code, path_root_code};
use crate::snippets::{payload_block, prefix_paren, ref_to, state_get, state_lookup, state_param, state_value};
use crate::snippets::{struct_code, value_cast, value_of, value_push_code, var_disc, witness_call_code, witness_clone};
use crate::snippets::{witness_disc, witness_option_disc, witness_value, witnesses_param};
use crate::syntax::{PathV, TyKindV, TyV};
use crate::text::{dec, no_spaces, without_prefix};
use crate::typing::{angle_u32, transparent, uint_bits, uint_max};
use crate::vm_ops::{check_root_steps, cond_read_steps, contains_steps, increment_steps, lookup_steps};
use crate::vm_ops::{map_insert_steps, map_remove_steps, read_steps, script, set_insert_steps, tree_insert_steps};
use crate::vm_ops::{write_steps, StepV};
use vstd::prelude::*;

verus! {

// ---- values

/// An integer literal: `u64` where the value fits, else `u128`.
pub open spec fn int_text(n: u128) -> Seq<char> {
    if n <= u64::MAX {
        dec(n as nat) + "u64"@
    } else {
        dec(n as nat) + "u128"@
    }
}

pub open spec fn lit_text(l: LitV) -> Seq<char> {
    match l {
        LitV::Bool(b) => bool_text(b),
        LitV::Int(n) => int_text(n),
        LitV::Str(s) => string_literal(s),
    }
}

/// The arithmetic operators that host code computes as written.
pub open spec fn is_arithmetic(op: BinOp) -> bool {
    op == BinOp::Add || op == BinOp::Sub || op == BinOp::Mul || op == BinOp::BitAnd || op == BinOp::BitOr || op
        == BinOp::BitXor
}

/// The code that evaluates to an argument's primitive value.
pub open spec fn val(e: ExprV) -> Seq<char>
    decreases e, 0nat,
{
    match e {
        ExprV::Literal { value, .. } => lit_text(value),
        ExprV::Disclose { value, .. } => val(*value),
        ExprV::WitnessAccess { field, .. } => witness_value(field),
        ExprV::WitnessCall { name, args, .. } => value_of(witness_call_code(name, raw_list(args, args.len()))),
        ExprV::Var { name, .. } => name,
        ExprV::Path { path, .. } => path.text,
        ExprV::MethodCall { receiver, method, .. } => if transparent(method) {
            val(*receiver)
        } else {
            bare_call(val(*receiver), method)
        },
        ExprV::Reference { expr, .. } => val(*expr),
        ExprV::Index { array, index, .. } => index_value(raw(*array), dec(index as nat)),
        ExprV::BinaryOp { op, lhs, rhs, .. } => if is_arithmetic(op) {
            infix_paren(val(*lhs), bin_op_text(op), val(*rhs))
        } else {
            "()"@
        },
        ExprV::Tuple { elements, .. } => tuple_of(val_list(elements, elements.len()), elements.len()),
        ExprV::ArrayLit { elements, .. } => array_code(raw_list(elements, elements.len())),
        ExprV::StructInit { name, fields, .. } => struct_code(name, braced(raw_inits(fields, fields.len()))),
        ExprV::UnaryOp { op, expr, .. } => if op == UnOp::Deref {
            "()"@
        } else {
            prefix_paren(un_op_text(op), val(*expr))
        },
        ExprV::FnCall { path, args, .. } => call_value(path.text, raw_list(args, args.len())),
        _ => "()"@,
    }
}

/// The primitive values of the first `n` of `es`, listed.
pub open spec fn val_list(es: Seq<ExprV>, n: nat) -> Seq<char>
    decreases es, n,
{
    if n == 0 || n > es.len() {
        seq![]
    } else {
        listed(val_list(es, (n - 1) as nat), (n - 1) as nat, val(es[n - 1]))
    }
}

/// The code that evaluates to an argument in its declared type.
pub open spec fn raw(e: ExprV) -> Seq<char>
    decreases e, 1nat,
{
    match e {
        ExprV::Reference { expr, .. } => raw(*expr),
        ExprV::Tuple { elements, .. } => tuple_of(raw_list(elements, elements.len()), elements.len()),
        ExprV::ArrayLit { elements, .. } => array_code(raw_list(elements, elements.len())),
        ExprV::StructInit { name, fields, .. } => struct_code(name, braced(raw_inits(fields, fields.len()))),
        ExprV::WitnessAccess { field, .. } => witness_clone(field),
        ExprV::WitnessCall { name, args, .. } => witness_call_code(name, raw_list(args, args.len())),
        ExprV::Index { array, index, .. } => index_clone(raw(*array), dec(index as nat)),
        ExprV::Disclose { value, .. } => raw(*value),
        ExprV::Var { name, .. } => clone_of(name),
        ExprV::Path { path, .. } => path.text,
        ExprV::MethodCall { receiver, method, args, .. } => if transparent(method) {
            raw(*receiver)
        } else {
            method_code(raw(*receiver), method, raw_list(args, args.len()))
        },
        ExprV::FnCall { name, path, args, .. } => if name == "merkle_tree_path_root"@ {
            if args.len() > 0 {
                path_root_code(raw(args[0]))
            } else {
                path_root_code("()"@)
            }
        } else {
            call_code(path.text, raw_list(args, args.len()))
        },
        _ => val(e),
    }
}

/// The first `n` of `es` in their declared types, listed.
pub open spec fn raw_list(es: Seq<ExprV>, n: nat) -> Seq<char>
    decreases es, n,
{
    if n == 0 || n > es.len() {
        seq![]
    } else {
        listed(raw_list(es, (n - 1) as nat), (n - 1) as nat, raw(es[n - 1]))
    }
}

/// The first `n` field initializers, listed.
pub open spec fn raw_inits(fs: Seq<(Seq<char>, ExprV)>, n: nat) -> Seq<char>
    decreases fs, n,
{
    if n == 0 || n > fs.len() {
        seq![]
    } else {
        listed(raw_inits(fs, (n - 1) as nat), (n - 1) as nat, field_init(fs[n - 1].0, raw(fs[n - 1].1)))
    }
}

/// The first argument in its declared type; `()` when there is none.
pub open spec fn first_raw(args: Seq<ExprV>) -> Seq<char> {
    if args.len() > 0 {
        raw(args[0])
    } else {
        "()"@
    }
}

// ---- literals

/// The integer that an argument spells out, reached through transparent
/// wrappers.
pub open spec fn spelled_int(e: ExprV) -> Option<u128>
    decreases e,
{
    match e {
        ExprV::Literal { value: LitV::Int(n), .. } => Some(n),
        ExprV::Disclose { value, .. } => spelled_int(*value),
        ExprV::Reference { expr, .. } => spelled_int(*expr),
        ExprV::MethodCall { receiver, method, .. } => if transparent(method) {
            spelled_int(*receiver)
        } else {
            None
        },
        _ => None,
    }
}

/// Whether an argument is a literal behind transparent wrappers.
pub open spec fn is_literal(e: ExprV) -> bool
    decreases e,
{
    match e {
        ExprV::Literal { .. } => true,
        ExprV::Disclose { value, .. } => is_literal(*value),
        ExprV::Reference { expr, .. } => is_literal(*expr),
        ExprV::MethodCall { receiver, method, .. } => transparent(method) && is_literal(*receiver),
        _ => false,
    }
}

/// A type without the references around it.
pub open spec fn unreferenced(t: TyV) -> TyV
    decreases t,
{
    match t.kind {
        TyKindV::Reference(inner) => unreferenced(*inner),
        _ => t,
    }
}

/// The largest value of an integer type.
pub open spec fn int_max(t: TyV) -> Option<int> {
    match uint_bits(no_spaces(unreferenced(t).text)) {
        Some(bits) => Some(uint_max(bits)),
        None => None,
    }
}

/// The message for a literal that its type cannot hold.
pub open spec fn range_error(e: ExprV, t: TyV) -> Option<Seq<char>> {
    match spelled_int(e) {
        Some(n) => match int_max(t) {
            Some(max) => if n > max {
                Some(
                    "literal "@ + dec(n as nat) + " exceeds "@ + no_spaces(t.text) + " range (max "@ + dec(max as nat)
                        + ")"@,
                )
            } else {
                None
            },
            None => None,
        },
        None => None,
    }
}

// ---- values in the shape that `AlignedValue::from` accepts

/// The cast that gives an integer its wire width, by the type's space-free
/// text.
#[verifier::opaque]
pub open spec fn host_cast(s: Seq<char>) -> Option<Seq<char>> {
    match angle_u32(s, "Uint<"@) {
        Some(Some(n)) => Some(
            if n <= 8 {
                "as u8"@
            } else if n <= 16 {
                "as u16"@
            } else if n <= 32 {
                "as u32"@
            } else if n <= 64 {
                "as u64"@
            } else {
                "as u128"@
            },
        ),
        Some(None) => None,
        None => plain_cast(s),
    }
}

/// An enum value reached through `acc`: its discriminant, with the payload
/// where the enum carries one. `wrapped` puts a lone discriminant in
/// parentheses.
#[verifier::opaque]
pub open spec fn enum_value(cx: ContractV, acc: Seq<char>, t: TyV, wrapped: bool) -> Option<Seq<char>> {
    match option_payload(t) {
        Some(p) => Some(
            payload_block(
                acc,
                option_match("__e . clone ()"@, p.text),
                option_disc("__e"@),
                accessor_code(type_ctx(cx), Some(p), "__payload"@),
            ),
        ),
        None => match enum_of(type_ctx(cx), t) {
            Some((name, vs)) => match first_payload(vs) {
                None => Some(
                    if wrapped {
                        paren(enum_disc(acc))
                    } else {
                        enum_disc(acc)
                    },
                ),
                Some(p) => Some(
                    payload_block(
                        acc,
                        enum_match("__e . clone ()"@, payload_arms(name, vs, vs.len())),
                        enum_disc("__e"@),
                        accessor_code(type_ctx(cx), Some(p), "__payload"@),
                    ),
                ),
            },
            None => None,
        },
    }
}

/// The components of an array value reached through `acc`.
#[verifier::opaque]
pub open spec fn array_value(cx: ContractV, acc: Seq<char>, t: TyV) -> Option<Seq<char>> {
    match array_parts(t) {
        Some((elem, n)) => Some(
            bound_tuple(
                "__a"@,
                acc,
                aligned_repeat(type_ctx(cx), elem, n as nat, type_depth(type_ctx(cx))),
                n as nat,
            ),
        ),
        None => None,
    }
}

/// A value given in its declared type, for the types whose wire shape needs
/// it that way.
#[verifier::opaque]
pub open spec fn shaped_value(cx: ContractV, given: Seq<char>, t: TyV) -> Option<Seq<char>> {
    match t.kind {
        TyKindV::Tuple(elems) => Some(
            bound_tuple(
                "__t"@,
                given,
                aligned_elements(type_ctx(cx), elems, elems.len(), type_depth(type_ctx(cx))),
                elems.len(),
            ),
        ),
        _ => match array_value(cx, given, t) {
            Some(c) => Some(c),
            None => named_value(cx, given, t),
        },
    }
}

#[verifier::opaque]
pub open spec fn named_value(cx: ContractV, given: Seq<char>, t: TyV) -> Option<Seq<char>> {
    let s = no_spaces(t.text);
    if without_prefix(s, "Bytes<"@) is Some {
        Some(bytes_of(given))
    } else if s == "Field"@ {
        Some(fr_of(given))
    } else if s == "MerkleTreeDigest"@ {
        Some(digest_fr(given))
    } else {
        match struct_of(type_ctx(cx), t) {
            Some(fs) => Some(
                bound_tuple(
                    "__t"@,
                    given,
                    aligned_fields(type_ctx(cx), "__t"@, fs, fs.len(), type_depth(type_ctx(cx))),
                    fs.len(),
                ),
            ),
            None => enum_value(cx, given, t, true),
        }
    }
}

/// An argument's primitive value at its wire width.
#[verifier::opaque]
pub open spec fn cast_value(e: ExprV, t: TyV) -> Seq<char> {
    let s = no_spaces(t.text);
    match host_cast(s) {
        Some(c) => if e is Var && without_prefix(s, "Uint<"@) is Some {
            value_cast(val(e), c)
        } else {
            paren_cast(val(e), c)
        },
        None => val(e),
    }
}

/// An argument of the given type.
#[verifier::opaque]
pub open spec fn aligned_arg(cx: ContractV, e: ExprV, t: Option<TyV>) -> Seq<char> {
    match t {
        Some(t) => match range_error(e, t) {
            Some(m) => refusal_value(m, "0u8"@),
            None => match shaped_value(cx, raw(e), t) {
                Some(c) => c,
                None => cast_value(e, t),
            },
        },
        None => val(e),
    }
}

/// The argument at position `i`; `()` when there is none.
pub open spec fn nth_aligned(cx: ContractV, args: Seq<ExprV>, i: int, t: Option<TyV>) -> Seq<char> {
    if i < args.len() {
        aligned_arg(cx, args[i], t)
    } else {
        "()"@
    }
}

/// The key of a keyed container, taken from the binding `__key`; a literal
/// key stands for itself.
#[verifier::opaque]
pub open spec fn bound_key(cx: ContractV, args: Seq<ExprV>, t: Option<TyV>) -> Seq<char> {
    if args.len() == 0 {
        "()"@
    } else if t is Some && !is_literal(args[0]) {
        accessor_code(type_ctx(cx), t, "__key . clone ()"@)
    } else {
        aligned_arg(cx, args[0], t)
    }
}

// ---- ledger operations

/// `K` of `Map<K, ..>`.
pub open spec fn map_key(t: TyV) -> Option<TyV> {
    match args_of(t, "Map"@) {
        Some(a) => if type_args(a).len() > 0 {
            Some(type_args(a)[0])
        } else {
            None
        },
        None => None,
    }
}

/// The key type of a keyed ledger field.
pub open spec fn key_type(t: Option<TyV>) -> Option<TyV> {
    match t {
        Some(t) => match map_key(t) {
            Some(k) => Some(k),
            None => set_inner(t),
        },
        None => None,
    }
}

/// The type that a cell write takes: `T` of a cell, `u64` of a counter.
pub open spec fn write_type(t: Option<TyV>) -> Option<TyV> {
    match t {
        Some(t) => match cell_inner(t) {
            Some(inner) => Some(inner),
            None => if is_counter(t) {
                Some(simple_type("u64"@))
            } else {
                None
            },
        },
        None => None,
    }
}

/// The test of a ledger field by the live state.
pub open spec fn live_test(field: Seq<char>, test: Seq<char>) -> Seq<char> {
    "let __result : bool = __nocturne_state . "@ + field + test
}

/// A membership test; as a statement its result is dropped.
pub open spec fn member_steps(
    cx: ContractV,
    slot: u8,
    field: Seq<char>,
    args: Seq<ExprV>,
    t: Option<TyV>,
    statement: bool,
) -> Seq<StepV> {
    contains_steps(
        (if statement {
            "let _ = { let __key = "@
        } else {
            "{ let __key = "@
        }) + first_raw(args) + " ;"@,
        u8_code(slot),
        bound_key(cx, args, key_type(t)),
        live_test(field, " . contains (& __key) ;"@),
        if statement {
            "__result } ;"@
        } else {
            "__result }"@
        },
    )
}

/// A membership test and its result.
#[verifier::opaque]
pub open spec fn contains_value(
    cx: ContractV,
    slot: u8,
    field: Seq<char>,
    args: Seq<ExprV>,
    t: Option<TyV>,
    statement: bool,
) -> Seq<char> {
    script(member_steps(cx, slot, field, args, t, statement))
}

#[verifier::opaque]
pub open spec fn cell_write(cx: ContractV, slot: u8, args: Seq<ExprV>, t: Option<TyV>) -> Seq<char> {
    script(write_steps(u8_code(slot), nth_aligned(cx, args, 0, write_type(t))))
}

#[verifier::opaque]
pub open spec fn increment_ops(slot: u8, args: Seq<ExprV>) -> Seq<char> {
    if args.len() == 0 {
        script(increment_steps(u8_code(slot), "1u32"@))
    } else {
        match args[0] {
            ExprV::Literal { value: LitV::Int(v), .. } => if v <= u32::MAX {
                script(increment_steps(u8_code(slot), dec(v as nat) + "u32"@))
            } else {
                refusal_code(increment_error())
            },
            _ => refusal_code(increment_error()),
        }
    }
}

pub open spec fn increment_error() -> Seq<char> {
    "Counter::increment_by(n) currently only supports a const integer literal for n"@
}

/// A value of type `t` read through `acc`.
#[verifier::opaque]
pub open spec fn read_value(cx: ContractV, acc: Seq<char>, t: TyV) -> Seq<char> {
    let s = no_spaces(t.text);
    if without_prefix(s, "Bytes<"@) is Some {
        bytes_of(acc)
    } else {
        match array_value(cx, acc, t) {
            Some(c) => c,
            None => if s == "Field"@ {
                fr_of(acc)
            } else {
                match enum_value(cx, acc, t, false) {
                    Some(c) => c,
                    None => match host_cast(s) {
                        Some(c) => paren_cast(acc, c),
                        None => acc,
                    },
                }
            },
        }
    }
}

/// A cell or counter read.
#[verifier::opaque]
pub open spec fn read_ops(cx: ContractV, slot: u8, field: Seq<char>, t: Option<TyV>) -> Seq<char> {
    match t {
        Some(t) => if is_counter(t) {
            script(read_steps(u8_code(slot), read_value(cx, state_value(field), simple_type("u64"@))))
        } else {
            match cell_inner(t) {
                Some(inner) => script(read_steps(u8_code(slot), read_value(cx, state_get(field), inner))),
                None => refusal_code(read_error(field, t.text)),
            }
        },
        None => refusal_code(read_error(field, "<missing>"@)),
    }
}

pub open spec fn read_error(field: Seq<char>, ty: Seq<char>) -> Seq<char> {
    "nocturne: ledger read on field `"@ + field + "` (type `"@ + ty + "`) — only Counter and Cell<T> are supported"@
}

/// A value of type `t` that a map lookup gave.
#[verifier::opaque]
pub open spec fn looked_up(cx: ContractV, acc: Seq<char>, t: TyV) -> Seq<char> {
    let s = no_spaces(t.text);
    if s == "Boolean"@ {
        paren_value(acc)
    } else if without_prefix(s, "Bytes<"@) is Some {
        bytes_of(acc)
    } else if s == "Field"@ {
        fr_of(acc)
    } else if s == "MerkleTreeDigest"@ {
        digest_fr(acc)
    } else {
        match host_cast(s) {
            Some(c) => if without_prefix(s, "Uint<"@) is Some {
                value_cast(acc, c)
            } else {
                paren_cast(acc, c)
            },
            None => if is_composite(cx, t) {
                refusal_value(composite_error(s), "0u8"@)
            } else {
                acc
            },
        }
    }
}

pub open spec fn is_composite(cx: ContractV, t: TyV) -> bool {
    t.kind is Tuple || struct_of(type_ctx(cx), t) is Some || option_payload(t) is Some || enum_of(type_ctx(cx), t) is Some
}

pub open spec fn composite_error(ty: Seq<char>) -> Seq<char> {
    "nocturne: `Map::lookup` with composite value type `"@ + ty
        + "` is not supported yet — store the components in separate maps or use a `Bytes<N>` encoding"@
}

#[verifier::opaque]
pub open spec fn lookup_ops(
    cx: ContractV,
    slot: u8,
    field: Seq<char>,
    args: Seq<ExprV>,
    k: TyV,
    v: TyV,
) -> Seq<char> {
    script(
        lookup_steps(
            first_raw(args),
            u8_code(slot),
            bound_key(cx, args, Some(k)),
            looked_up(cx, state_lookup(field, "__key"@), v),
        ),
    )
}

#[verifier::opaque]
pub open spec fn map_insert_ops(cx: ContractV, slot: u8, args: Seq<ExprV>, k: TyV, v: TyV) -> Seq<char> {
    script(map_insert_steps(u8_code(slot), nth_aligned(cx, args, 0, Some(k)), nth_aligned(cx, args, 1, Some(v))))
}

#[verifier::opaque]
pub open spec fn remove_ops(cx: ContractV, slot: u8, args: Seq<ExprV>, k: TyV) -> Seq<char> {
    script(map_remove_steps(u8_code(slot), nth_aligned(cx, args, 0, Some(k))))
}

#[verifier::opaque]
pub open spec fn set_insert_ops(cx: ContractV, slot: u8, args: Seq<ExprV>, k: TyV) -> Seq<char> {
    script(set_insert_steps(u8_code(slot), nth_aligned(cx, args, 0, Some(k))))
}

#[verifier::opaque]
pub open spec fn tree_insert_ops(slot: u8, args: Seq<ExprV>) -> Seq<char> {
    script(tree_insert_steps(first_raw(args), u8_code(slot)))
}

#[verifier::opaque]
pub open spec fn check_root_ops(slot: u8, field: Seq<char>, args: Seq<ExprV>) -> Seq<char> {
    script(check_root_steps(first_raw(args), u8_code(slot), live_test(field, " . check_root (& __digest) ;"@)))
}

/// `insert`, by the kind of the field.
#[verifier::opaque]
pub open spec fn insert_ops(cx: ContractV, slot: u8, args: Seq<ExprV>, t: Option<TyV>) -> Seq<char> {
    match t {
        Some(ty) => match map_kv(ty) {
            Some((k, v)) => map_insert_ops(cx, slot, args, k, v),
            None => match set_inner(ty) {
                Some(k) => set_insert_ops(cx, slot, args, k),
                None => if merkle_leaf(ty) is Some {
                    tree_insert_ops(slot, args)
                } else {
                    cell_write(cx, slot, args, t)
                },
            },
        },
        None => cell_write(cx, slot, args, t),
    }
}

/// `set`, by the kind of the field.
#[verifier::opaque]
pub open spec fn set_ops(cx: ContractV, slot: u8, args: Seq<ExprV>, t: Option<TyV>) -> Seq<char> {
    match t {
        Some(ty) => match map_kv(ty) {
            Some((k, v)) => map_insert_ops(cx, slot, args, k, v),
            None => cell_write(cx, slot, args, t),
        },
        None => cell_write(cx, slot, args, t),
    }
}

/// The methods that only some kinds of field have.
#[verifier::opaque]
pub open spec fn keyed_ops(
    cx: ContractV,
    slot: u8,
    field: Seq<char>,
    method: Seq<char>,
    args: Seq<ExprV>,
    t: Option<TyV>,
) -> Seq<
    char,
> {
    match t {
        Some(t) => match map_kv(t) {
            Some((k, v)) => if method == "remove"@ {
                remove_ops(cx, slot, args, k)
            } else if method == "lookup"@ {
                lookup_ops(cx, slot, field, args, k, v)
            } else {
                refusal_code(method_error(field, method))
            },
            None => match set_inner(t) {
                Some(k) => if method == "remove"@ {
                    remove_ops(cx, slot, args, k)
                } else {
                    refusal_code(method_error(field, method))
                },
                None => if method == "check_root"@ && merkle_leaf(t) is Some {
                    check_root_ops(slot, field, args)
                } else {
                    refusal_code(method_error(field, method))
                },
            },
        },
        None => refusal_code(method_error(field, method)),
    }
}

pub open spec fn method_error(field: Seq<char>, method: Seq<char>) -> Seq<char> {
    "nocturne: unknown ledger method `"@ + method + "` on field `"@ + field + "` (or wrong field kind for this method)"@
}

pub open spec fn unknown_field_error(field: Seq<char>) -> Seq<char> {
    "nocturne internal error: ledger field `"@ + field + "` not found"@
}

pub open spec fn is_read(method: Seq<char>) -> bool {
    method == "get"@ || method == "value"@ || method == "__direct_access"@
}

pub open spec fn is_member(method: Seq<char>) -> bool {
    method == "contains"@ || method == "member"@
}

/// The operations of a ledger access.
#[verifier::opaque]
pub open spec fn ledger_ops(cx: ContractV, field: Seq<char>, method: Seq<char>, args: Seq<ExprV>) -> Seq<char> {
    match field_slot(cx, field) {
        None => refusal_code(unknown_field_error(field)),
        Some(slot) => {
            let t = slot_type(cx, slot);
            if method == "increment"@ || method == "increment_by"@ {
                increment_ops(slot, args)
            } else if is_read(method) {
                read_ops(cx, slot, field, t)
            } else if is_member(method) {
                contains_value(cx, slot, field, args, t, true)
            } else if method == "insert"@ {
                insert_ops(cx, slot, args, t)
            } else if method == "set"@ {
                set_ops(cx, slot, args, t)
            } else {
                keyed_ops(cx, slot, field, method, args, t)
            }
        }
    }
}

/// The operations of an expression that is no statement of its own.
pub open spec fn ops(cx: ContractV, e: ExprV) -> Seq<char>
    decreases e, 0nat,
{
    match e {
        ExprV::LedgerAccess { field, method, args, .. } => ledger_ops(cx, field, method, args),
        ExprV::MethodCall { receiver, args, .. } => spaced(ops(cx, *receiver), ops_list(cx, args, args.len())),
        ExprV::FnCall { name, args, .. } => spaced(
            ops_list(cx, args, args.len()),
            if name == "merkle_tree_path_root"@ {
                path_root_code(first_raw(args))
            } else {
                "()"@
            },
        ),
        ExprV::Reference { expr, .. } => ops(cx, *expr),
        ExprV::Disclose { value, .. } => ops(cx, *value),
        ExprV::UnaryOp { expr, .. } => ops(cx, *expr),
        ExprV::BinaryOp { lhs, rhs, .. } => spaced(ops(cx, *lhs), ops(cx, *rhs)),
        ExprV::EnumPayload { scrutinee, .. } => ops(cx, *scrutinee),
        ExprV::Index { array, .. } => ops(cx, *array),
        ExprV::Return { value, .. } => match value {
            Some(v) => ops(cx, *v),
            None => seq![],
        },
        ExprV::Tuple { elements, .. } => ops_list(cx, elements, elements.len()),
        ExprV::ArrayLit { elements, .. } => ops_list(cx, elements, elements.len()),
        ExprV::StructInit { fields, .. } => ops_fields(cx, fields, fields.len()),
        ExprV::Unsupported { description, .. } => refusal_code(unsupported_error(description)),
        _ => seq![],
    }
}

pub open spec fn unsupported_error(description: Seq<char>) -> Seq<char> {
    "nocturne: unsupported expression in circuit body: "@ + description
}

pub open spec fn ops_list(cx: ContractV, es: Seq<ExprV>, n: nat) -> Seq<char>
    decreases es, n,
{
    if n == 0 || n > es.len() {
        seq![]
    } else {
        spaced(ops_list(cx, es, (n - 1) as nat), ops(cx, es[n - 1]))
    }
}

pub open spec fn ops_fields(cx: ContractV, fs: Seq<(Seq<char>, ExprV)>, n: nat) -> Seq<char>
    decreases fs, n,
{
    if n == 0 || n > fs.len() {
        seq![]
    } else {
        spaced(ops_fields(cx, fs, (n - 1) as nat), ops(cx, fs[n - 1].1))
    }
}

// ---- conditions

/// Whether an expression names a variant of a user enum, or of `Option`.
pub open spec fn is_variant(cx: ContractV, e: ExprV) -> bool {
    match e {
        ExprV::Path { path, .. } => names_variant(cx, path),
        _ => false,
    }
}

#[verifier::opaque]
pub open spec fn names_variant(cx: ContractV, path: PathV) -> bool {
    let n = path.segments.len();
    if n == 1 {
        path.segments[0] == "Some"@ || path.segments[0] == "None"@
    } else if n < 2 {
        false
    } else {
        match lookup(cx.user_enums, path.segments[n - 2]) {
            Some(vs) => variant_position(vs, path.segments[n - 1], vs.len()) is Some,
            None => false,
        }
    }
}

/// The discriminant that a path stands for.
#[verifier::opaque]
pub open spec fn path_discriminant(cx: ContractV, path: PathV) -> Seq<char> {
    let n = path.segments.len();
    if n == 1 && path.segments[0] == "Some"@ {
        "1u64"@
    } else if n == 1 && path.segments[0] == "None"@ {
        "0u64"@
    } else if n < 2 {
        path_disc(path.text)
    } else {
        match payload_position(cx, path.segments[n - 2], path.segments[n - 1]) {
            Some(i) => cast_disc(dec(i as nat) + "u64"@),
            None => path_disc(path.text),
        }
    }
}

/// The position of a variant that carries a payload.
pub open spec fn payload_position(cx: ContractV, name: Seq<char>, variant: Seq<char>) -> Option<int> {
    match lookup(cx.user_enums, name) {
        Some(vs) => match variant_position(vs, variant, vs.len()) {
            Some(i) => if 0 <= i < vs.len() && vs[i].payload is Some {
                Some(i)
            } else {
                None
            },
            None => None,
        },
        None => None,
    }
}

#[verifier::opaque]
pub open spec fn witness_discriminant(cx: ContractV, field: Seq<char>) -> Seq<char> {
    match witness_type(cx, field) {
        Some(t) => if option_payload(t) is Some {
            witness_option_disc(field)
        } else {
            witness_disc(field)
        },
        None => witness_disc(field),
    }
}

/// The discriminant of an operand of an enum comparison, as a `u64`.
pub open spec fn disc(cx: ContractV, e: ExprV) -> Seq<char>
    decreases e,
{
    match e {
        ExprV::Path { path, .. } => path_discriminant(cx, path),
        ExprV::WitnessAccess { field, .. } => witness_discriminant(cx, field),
        ExprV::Var { name, .. } => var_disc(name),
        ExprV::Reference { expr, .. } => disc(cx, *expr),
        ExprV::MethodCall { receiver, .. } => disc(cx, *receiver),
        _ => path_disc(raw(e)),
    }
}

/// A ledger access as a condition.
#[verifier::opaque]
pub open spec fn ledger_cond(cx: ContractV, field: Seq<char>, method: Seq<char>, args: Seq<ExprV>) -> Seq<char> {
    match field_slot(cx, field) {
        None => refusal_value(unknown_field_error(field), "true"@),
        Some(slot) => {
            let t = slot_type(cx, slot);
            if is_member(method) {
                contains_value(cx, slot, field, args, t, false)
            } else {
                match bool_read(field, method, t) {
                    Some(r) => script(cond_read_steps(u8_code(slot), r)),
                    None => refusal_value(cond_error(field, method), "true"@),
                }
            }
        }
    }
}

/// The read of a boolean cell.
pub open spec fn bool_read(field: Seq<char>, method: Seq<char>, t: Option<TyV>) -> Option<Seq<char>> {
    match t {
        Some(t) => match cell_inner(t) {
            Some(inner) => if !is_read(method) {
                None
            } else if no_spaces(inner.text) == "Boolean"@ {
                Some(value_of(state_get(field)))
            } else if no_spaces(inner.text) == "bool"@ {
                Some(state_get(field))
            } else {
                None
            },
            None => None,
        },
        None => None,
    }
}

pub open spec fn cond_error(field: Seq<char>, method: Seq<char>) -> Seq<char> {
    "nocturne: ledger method `"@ + method + "` on field `"@ + field
        + "` doesn't return bool — not usable as an `if` condition"@
}

/// The operators that conditions compute as written.
pub open spec fn is_relation(op: BinOp) -> bool {
    op == BinOp::Eq || op == BinOp::Ne || op == BinOp::Lt || op == BinOp::Gt || op == BinOp::Le || op == BinOp::Ge || op
        == BinOp::And || op == BinOp::Or
}

/// How diagnostics name an operator that conditions do not support.
pub open spec fn op_name(op: BinOp) -> Seq<char> {
    match op {
        BinOp::Add => "BinOp::Add(Plus)"@,
        BinOp::Sub => "BinOp::Sub(Minus)"@,
        BinOp::Mul => "BinOp::Mul(Star)"@,
        BinOp::Div => "BinOp::Div(Slash)"@,
        BinOp::Rem => "BinOp::Rem(Percent)"@,
        BinOp::And => "BinOp::And(AndAnd)"@,
        BinOp::Or => "BinOp::Or(OrOr)"@,
        BinOp::BitXor => "BinOp::BitXor(Caret)"@,
        BinOp::BitAnd => "BinOp::BitAnd(And)"@,
        BinOp::BitOr => "BinOp::BitOr(Or)"@,
        BinOp::Shl => "BinOp::Shl(Shl)"@,
        BinOp::Shr => "BinOp::Shr(Shr)"@,
        BinOp::Eq => "BinOp::Eq(EqEq)"@,
        BinOp::Lt => "BinOp::Lt(Lt)"@,
        BinOp::Le => "BinOp::Le(Le)"@,
        BinOp::Ne => "BinOp::Ne(Ne)"@,
        BinOp::Ge => "BinOp::Ge(Ge)"@,
        BinOp::Gt => "BinOp::Gt(Gt)"@,
        BinOp::AddAssign => "BinOp::AddAssign(PlusEq)"@,
        BinOp::SubAssign => "BinOp::SubAssign(MinusEq)"@,
        BinOp::MulAssign => "BinOp::MulAssign(StarEq)"@,
        BinOp::DivAssign => "BinOp::DivAssign(SlashEq)"@,
        BinOp::RemAssign => "BinOp::RemAssign(PercentEq)"@,
        BinOp::BitXorAssign => "BinOp::BitXorAssign(CaretEq)"@,
        BinOp::BitAndAssign => "BinOp::BitAndAssign(AndEq)"@,
        BinOp::BitOrAssign => "BinOp::BitOrAssign(OrEq)"@,
        BinOp::ShlAssign => "BinOp::ShlAssign(ShlEq)"@,
        BinOp::ShrAssign => "BinOp::ShrAssign(ShrEq)"@,
    }
}

pub open spec fn op_error(op: BinOp) -> Seq<char> {
    "nocturne: binary operator `"@ + op_name(op) + "` not supported in `if` conditions"@
}

pub open spec fn deref_error() -> Seq<char> {
    "nocturne: unary operator `UnOp::Deref(Star)` not supported in `if` conditions"@
}

/// The position of an expression's kind among all kinds.
pub open spec fn kind_number(e: ExprV) -> nat {
    match e {
        ExprV::LedgerAccess { .. } => 0,
        ExprV::WitnessAccess { .. } => 1,
        ExprV::WitnessCall { .. } => 2,
        ExprV::BinaryOp { .. } => 3,
        ExprV::UnaryOp { .. } => 4,
        ExprV::FnCall { .. } => 5,
        ExprV::MethodCall { .. } => 6,
        ExprV::Let { .. } => 7,
        ExprV::If { .. } => 8,
        ExprV::Assert { .. } => 9,
        ExprV::Disclose { .. } => 10,
        ExprV::Literal { .. } => 11,
        ExprV::Var { .. } => 12,
        ExprV::Path { .. } => 13,
        ExprV::EnumPayload { .. } => 14,
        ExprV::Index { .. } => 15,
        ExprV::ArrayLit { .. } => 16,
        ExprV::Block { .. } => 17,
        ExprV::StructInit { .. } => 18,
        ExprV::Return { .. } => 19,
        ExprV::Tuple { .. } => 20,
        ExprV::Reference { .. } => 21,
        ExprV::Unsupported { .. } => 22,
    }
}

pub open spec fn shape_error(kind: nat) -> Seq<char> {
    "nocturne: unsupported expression in `if` condition: Discriminant("@ + dec(kind) + ")"@
}

pub open spec fn lit_cond(l: LitV) -> Seq<char> {
    match l {
        LitV::Bool(b) => bool_text(b),
        LitV::Int(n) => nonzero(dec((n as u64) as nat) + "u64"@),
        LitV::Str(_) => "true"@,
    }
}

/// The code that evaluates a condition. A ledger read in it pushes its
/// operations as well.
pub open spec fn cond(cx: ContractV, e: ExprV) -> Seq<char>
    decreases e,
{
    match e {
        ExprV::WitnessAccess { field, .. } => witness_value(field),
        ExprV::LedgerAccess { field, method, args, .. } => ledger_cond(cx, field, method, args),
        ExprV::MethodCall { receiver, method, .. } => if transparent(method) {
            cond(cx, *receiver)
        } else {
            bare_call(cond(cx, *receiver), method)
        },
        ExprV::Var { name, .. } => name,
        ExprV::Path { path, .. } => path.text,
        ExprV::Literal { value, .. } => lit_cond(value),
        ExprV::BinaryOp { op, lhs, rhs, .. } => if (op == BinOp::Eq || op == BinOp::Ne) && (is_variant(cx, *lhs)
            || is_variant(cx, *rhs)) {
            infix(disc(cx, *lhs), bin_op_text(op), disc(cx, *rhs))
        } else if is_relation(op) {
            infix(cond(cx, *lhs), bin_op_text(op), cond(cx, *rhs))
        } else {
            refusal_value(op_error(op), "true"@)
        },
        ExprV::UnaryOp { op, expr, .. } => if op == UnOp::Deref {
            refusal_value(deref_error(), "true"@)
        } else {
            prefix_paren(un_op_text(op), cond(cx, *expr))
        },
        ExprV::Reference { expr, .. } => cond(cx, *expr),
        ExprV::Disclose { value, .. } => cond(cx, *value),
        _ => refusal_value(shape_error(kind_number(e)), "true"@),
    }
}

// ---- bindings

/// The live value behind a ledger read.
#[verifier::opaque]
pub open spec fn ledger_value(cx: ContractV, e: ExprV) -> Option<Seq<char>> {
    match e {
        ExprV::LedgerAccess { field, method, args, .. } => match ledger_position(
            cx.ledger.fields,
            field,
            cx.ledger.fields.len(),
        ) {
            None => None,
            Some(i) => if method == "get"@ {
                Some(state_get(field))
            } else if method == "value"@ || method == "__direct_access"@ {
                if cell_inner(cx.ledger.fields[i].ty) is Some {
                    Some(state_get(field))
                } else {
                    Some(state_value(field))
                }
            } else if method == "lookup"@ && args.len() > 0 {
                Some(state_lookup(field, raw(args[0])))
            } else {
                None
            },
        },
        _ => None,
    }
}

/// The payload of an enum value.
#[verifier::opaque]
pub open spec fn payload_value(cx: ContractV, scrutinee: Option<Seq<char>>, name: Seq<char>) -> Option<Seq<char>> {
    match scrutinee {
        Some(s) => if name == "Option"@ {
            Some(option_payload_code(s))
        } else {
            match lookup(cx.user_enums, name) {
                Some(vs) => Some(enum_match(s, payload_arms(name, vs, vs.len()))),
                None => None,
            }
        },
        None => None,
    }
}

pub open spec fn either(a: Option<Seq<char>>, b: Option<Seq<char>>) -> Option<Seq<char>> {
    match a {
        Some(x) => Some(x),
        None => b,
    }
}

pub open spec fn lit_value(l: LitV) -> Option<Seq<char>> {
    match l {
        LitV::Int(n) => Some(int_text(n)),
        LitV::Bool(b) => Some(bool_text(b)),
        LitV::Str(_) => None,
    }
}

pub open spec fn method_value(r: Option<Seq<char>>, method: Seq<char>, args: Option<Seq<char>>) -> Option<Seq<char>> {
    match (r, args) {
        (Some(r), Some(a)) => Some(paren_method(r, method, a)),
        _ => None,
    }
}

pub open spec fn infix_value(l: Option<Seq<char>>, op: BinOp, r: Option<Seq<char>>) -> Option<Seq<char>> {
    match (l, r) {
        (Some(l), Some(r)) => if is_arithmetic(op) {
            Some(infix(l, bin_op_text(op), r))
        } else {
            None
        },
        _ => None,
    }
}

/// The code that a `let` can bind for an expression, where there is one.
pub open spec fn let_value(cx: ContractV, e: ExprV) -> Option<Seq<char>>
    decreases e, 0nat,
{
    match e {
        ExprV::WitnessAccess { field, .. } => Some(witness_clone(field)),
        ExprV::WitnessCall { name, args, .. } => Some(witness_call_code(name, raw_list(args, args.len()))),
        ExprV::EnumPayload { scrutinee, enum_name, .. } => payload_value(
            cx,
            either(let_value(cx, *scrutinee), ledger_value(cx, *scrutinee)),
            enum_name,
        ),
        ExprV::MethodCall { receiver, method, args, .. } => method_value(
            let_value(cx, *receiver),
            method,
            let_list(cx, args, args.len()),
        ),
        ExprV::Reference { expr, .. } => match let_value(cx, *expr) {
            Some(x) => Some(paren(x)),
            None => None,
        },
        ExprV::BinaryOp { op, lhs, rhs, .. } => infix_value(let_value(cx, *lhs), op, let_value(cx, *rhs)),
        ExprV::Literal { value, .. } => lit_value(value),
        ExprV::Var { name, .. } => Some(clone_of(name)),
        ExprV::Index { array, index, .. } => match let_value(cx, *array) {
            Some(x) => Some(index_clone(x, dec(index as nat))),
            None => None,
        },
        ExprV::If { cond: c, then_branch, else_branch, .. } => match else_branch {
            Some(eb) => match (last_value(cx, then_branch), last_value(cx, eb)) {
                (Some(a), Some(b)) => Some(if_value(cond(cx, *c), a, b)),
                _ => None,
            },
            None => None,
        },
        _ => None,
    }
}

/// The value of the last of `es`.
pub open spec fn last_value(cx: ContractV, es: Seq<ExprV>) -> Option<Seq<char>>
    decreases es, 0nat,
{
    if es.len() > 0 {
        let_value(cx, es[es.len() - 1])
    } else {
        None
    }
}

/// The values of the first `n` of `es`, listed, where all have one.
pub open spec fn let_list(cx: ContractV, es: Seq<ExprV>, n: nat) -> Option<Seq<char>>
    decreases es, n,
{
    if n == 0 || n > es.len() {
        Some(seq![])
    } else {
        match (let_list(cx, es, (n - 1) as nat), let_value(cx, es[n - 1])) {
            (Some(a), Some(b)) => Some(listed(a, (n - 1) as nat, b)),
            _ => None,
        }
    }
}

// ---- the private transcript

/// Whether an `if` stands anywhere in an expression.
pub open spec fn has_if(e: ExprV) -> bool
    decreases e, 0nat,
{
    match e {
        ExprV::If { .. } => true,
        ExprV::LedgerAccess { args, .. } => any_if(args, args.len()),
        ExprV::WitnessCall { args, .. } => any_if(args, args.len()),
        ExprV::FnCall { args, .. } => any_if(args, args.len()),
        ExprV::MethodCall { receiver, args, .. } => has_if(*receiver) || any_if(args, args.len()),
        ExprV::BinaryOp { lhs, rhs, .. } => has_if(*lhs) || has_if(*rhs),
        ExprV::UnaryOp { expr, .. } => has_if(*expr),
        ExprV::Reference { expr, .. } => has_if(*expr),
        ExprV::Disclose { value, .. } => has_if(*value),
        ExprV::Let { value, .. } => has_if(*value),
        ExprV::Block { stmts, .. } => any_if(stmts, stmts.len()),
        ExprV::Assert { kind, .. } => match kind {
            AssertV::Assert(c) => has_if(*c),
            AssertV::AssertEq(a, b) => has_if(*a) || has_if(*b),
        },
        ExprV::EnumPayload { scrutinee, .. } => has_if(*scrutinee),
        ExprV::Index { array, .. } => has_if(*array),
        ExprV::Tuple { elements, .. } => any_if(elements, elements.len()),
        ExprV::ArrayLit { elements, .. } => any_if(elements, elements.len()),
        ExprV::StructInit { fields, .. } => any_field_if(fields, fields.len()),
        ExprV::Return { value, .. } => match value {
            Some(v) => has_if(*v),
            None => false,
        },
        _ => false,
    }
}

pub open spec fn any_if(es: Seq<ExprV>, n: nat) -> bool
    decreases es, n,
{
    if n == 0 || n > es.len() {
        false
    } else {
        any_if(es, (n - 1) as nat) || has_if(es[n - 1])
    }
}

pub open spec fn any_field_if(fs: Seq<(Seq<char>, ExprV)>, n: nat) -> bool
    decreases fs, n,
{
    if n == 0 || n > fs.len() {
        false
    } else {
        any_field_if(fs, (n - 1) as nat) || has_if(fs[n - 1].1)
    }
}

/// The leaf type of `MerkleTreePath<H, T>`: its last type argument.
pub open spec fn path_leaf(t: TyV) -> Option<TyV> {
    match args_of(t, "MerkleTreePath"@) {
        Some(a) => if type_args(a).len() > 0 {
            Some(type_args(a).last())
        } else {
            None
        },
        None => None,
    }
}

/// The push of one witness value.
#[verifier::opaque]
pub open spec fn value_push(cx: ContractV, t: TyV, acc: Seq<char>) -> Seq<char> {
    if without_prefix(no_spaces(t.text), "MerkleTreePath<"@) is Some {
        path_push_code(accessor_code(type_ctx(cx), path_leaf(t), leaf_of(acc)), acc)
    } else {
        value_push_code(accessor_code(type_ctx(cx), Some(t), acc))
    }
}

/// The push for one private-input event.
#[verifier::opaque]
pub open spec fn event_push(cx: ContractV, ev: EventV) -> Seq<char> {
    match ev.args {
        None => match witness_type(cx, ev.name) {
            Some(t) => value_push(cx, t, witness_clone(ev.name)),
            None => refusal_code(
                "nocturne internal error: witness field `"@ + ev.name + "` has no registered type"@,
            ),
        },
        Some(args) => match method_type(cx, ev.name) {
            Some(t) => call_push_code(ev.name, raw_list(args, args.len()), value_push(cx, t, "__wc"@)),
            None => refusal_code(
                "nocturne internal error: witness method `"@ + ev.name + "` has no registered return type"@,
            ),
        },
    }
}

/// The pushes for the first `n` events.
pub open spec fn event_pushes(cx: ContractV, evs: Seq<EventV>, n: nat) -> Seq<char>
    decreases n,
{
    if n == 0 || n > evs.len() {
        seq![]
    } else {
        spaced(event_pushes(cx, evs, (n - 1) as nat), event_push(cx, evs[n - 1]))
    }
}

pub open spec fn if_position_error() -> Seq<char> {
    "nocturne: `if` is not supported in expression position (e.g. `self.x.set(if c { a } else { b })`) — the transcript builder would push private-transcript entries for both branches while the circuit consumes only the active branch's. Use a statement-position `if` instead: `if c { self.x.set(a); } else { self.x.set(b); }`"@
}

/// The pushes for the events of an expression. An `if` inside it is refused:
/// both branches would be pushed.
#[verifier::opaque]
pub open spec fn pushes(cx: ContractV, t: TrackerV, e: ExprV) -> (TrackerV, Seq<char>) {
    if has_if(e) {
        (t, refusal_code(if_position_error()))
    } else {
        let w = walk(cx, t, e);
        (w.0, event_pushes(cx, w.1, w.1.len()))
    }
}

// ---- statements

/// The pushes and operations of an expression statement.
pub open spec fn plain_stmt(cx: ContractV, t: TrackerV, e: ExprV) -> (TrackerV, Seq<char>) {
    let p = pushes(cx, t, e);
    (p.0, spaced(p.1, ops(cx, e)))
}

/// A binding, after the code of its right-hand side.
#[verifier::opaque]
pub open spec fn binding(cx: ContractV, name: Seq<char>, value: ExprV, code: Seq<char>) -> Seq<char> {
    match either(let_value(cx, value), ledger_value(cx, value)) {
        Some(x) => spaced(code, let_code(name, x)),
        None => let_code(name, braced(code)),
    }
}

/// An assertion, evaluated while the transcript is built.
#[verifier::opaque]
pub open spec fn assertion(cx: ContractV, t: TrackerV, k: AssertV) -> (TrackerV, Seq<char>) {
    match k {
        AssertV::Assert(c) => {
            let p = pushes(cx, t, *c);
            (p.0, spaced(p.1, assert_code(cond(cx, *c))))
        }
        AssertV::AssertEq(a, b) => {
            let p = pushes(cx, t, *a);
            let q = pushes(cx, p.0, *b);
            (q.0, spaced(spaced(p.1, q.1), assert_eq_code(cond(cx, *a), cond(cx, *b))))
        }
    }
}

/// The code of a statement, and the tracker after it.
pub open spec fn stmt(cx: ContractV, t: TrackerV, e: ExprV) -> (TrackerV, Seq<char>)
    decreases e, 0nat,
{
    match e {
        ExprV::If { cond: c, then_branch, else_branch, .. } => {
            let p = pushes(cx, t, *c);
            let inside = TrackerV { in_branch: true, ..p.0 };
            let a = stmts(cx, inside, then_branch, then_branch.len());
            match else_branch {
                Some(eb) => {
                    let b = stmts(cx, a.0, eb, eb.len());
                    (
                        TrackerV { in_branch: p.0.in_branch, ..b.0 },
                        spaced(p.1, if_else_code(cond(cx, *c), braced(a.1), braced(b.1))),
                    )
                }
                None => (
                    TrackerV { in_branch: p.0.in_branch, ..a.0 },
                    spaced(p.1, if_code(cond(cx, *c), braced(a.1))),
                ),
            }
        }
        ExprV::Let { name, value, .. } => {
            let v = if *value is If || *value is Block {
                stmt(cx, t, *value)
            } else {
                plain_stmt(cx, t, *value)
            };
            (v.0, binding(cx, name, *value, v.1))
        }
        ExprV::Block { stmts: body, .. } => stmts(cx, t, body, body.len()),
        ExprV::Assert { kind, .. } => assertion(cx, t, kind),
        _ => plain_stmt(cx, t, e),
    }
}

/// The code of the first `n` statements.
pub open spec fn stmts(cx: ContractV, t: TrackerV, es: Seq<ExprV>, n: nat) -> (TrackerV, Seq<char>)
    decreases es, n,
{
    if n == 0 || n > es.len() {
        (t, seq![])
    } else {
        let a = stmts(cx, t, es, (n - 1) as nat);
        let b = stmt(cx, a.0, es[n - 1]);
        (b.0, spaced(a.1, b.1))
    }
}

// ---- functions and the module

/// Whether a ledger method's expected result comes from the live state.
pub open spec fn reads_state(method: Seq<char>) -> bool {
    is_member(method) || is_read(method) || method == "lookup"@ || method == "check_root"@
}

/// Whether an expression reads the live state.
pub open spec fn needs_state(e: ExprV) -> bool
    decreases e, 0nat,
{
    match e {
        ExprV::LedgerAccess { method, args, .. } => reads_state(method) || any_state(args, args.len()),
        ExprV::If { cond: c, then_branch, else_branch, .. } => needs_state(*c) || any_state(then_branch, then_branch.len())
            || match else_branch {
            Some(eb) => any_state(eb, eb.len()),
            None => false,
        },
        ExprV::Block { stmts: body, .. } => any_state(body, body.len()),
        ExprV::Let { value, .. } => needs_state(*value),
        ExprV::MethodCall { receiver, args, .. } => needs_state(*receiver) || any_state(args, args.len()),
        ExprV::BinaryOp { lhs, rhs, .. } => needs_state(*lhs) || needs_state(*rhs),
        ExprV::UnaryOp { expr, .. } => needs_state(*expr),
        ExprV::Reference { expr, .. } => needs_state(*expr),
        ExprV::Disclose { value, .. } => needs_state(*value),
        ExprV::Assert { kind, .. } => match kind {
            AssertV::Assert(c) => needs_state(*c),
            AssertV::AssertEq(a, b) => needs_state(*a) || needs_state(*b),
        },
        ExprV::EnumPayload { scrutinee, .. } => needs_state(*scrutinee),
        ExprV::FnCall { args, .. } => any_state(args, args.len()),
        ExprV::WitnessCall { args, .. } => any_state(args, args.len()),
        ExprV::Tuple { elements, .. } => any_state(elements, elements.len()),
        ExprV::ArrayLit { elements, .. } => any_state(elements, elements.len()),
        ExprV::StructInit { fields, .. } => any_field_state(fields, fields.len()),
        ExprV::Index { array, .. } => needs_state(*array),
        ExprV::Return { value, .. } => match value {
            Some(v) => needs_state(*v),
            None => false,
        },
        _ => false,
    }
}

pub open spec fn any_state(es: Seq<ExprV>, n: nat) -> bool
    decreases es, n,
{
    if n == 0 || n > es.len() {
        false
    } else {
        any_state(es, (n - 1) as nat) || needs_state(es[n - 1])
    }
}

pub open spec fn any_field_state(fs: Seq<(Seq<char>, ExprV)>, n: nat) -> bool
    decreases fs, n,
{
    if n == 0 || n > fs.len() {
        false
    } else {
        any_field_state(fs, (n - 1) as nat) || needs_state(fs[n - 1].1)
    }
}

/// The parameters of a builder: the live state where the body reads it, then
/// the witnesses where the circuit takes them.
#[verifier::opaque]
pub open spec fn builder_params(cx: ContractV, c: CircuitV) -> Seq<char> {
    let w = witnesses_param(
        ref_to(
            match cx.witnesses {
                Some(w) => w.name,
                None => "()"@,
            },
        ),
    );
    let s = state_param(cx.ledger.name);
    if any_state(c.body, c.body.len()) {
        if c.takes_witnesses {
            listed(s, 1, w)
        } else {
            s
        }
    } else if c.takes_witnesses {
        w
    } else {
        seq![]
    }
}

pub open spec fn builder_result() -> Seq<char> {
    "TranscriptResult { ops : __nocturne_ops , private_transcript : __nocturne_private_transcript , private_transcript_outputs : __nocturne_private_transcript_outputs , }"@
}

/// The transcript builder of a circuit.
#[verifier::opaque]
pub open spec fn builder(cx: ContractV, c: CircuitV) -> Seq<char> {
    fn_code(
        string_literal("Build the transcript for the `"@ + c.name + "` circuit."@),
        "build_"@ + c.name + "_transcript"@,
        builder_params(cx, c),
        spaced(stmts(cx, fresh_tracker(), c.body, c.body.len()).1, builder_result()),
    )
}

/// The builders of the first `n` circuits.
pub open spec fn builders(cx: ContractV, n: nat) -> Seq<char>
    decreases n,
{
    if n == 0 || n > cx.circuits.len() {
        seq![]
    } else {
        spaced(builders(cx, (n - 1) as nat), builder(cx, cx.circuits[n - 1]))
    }
}

/// The items that come before the builders.
pub open spec fn module_head() -> Seq<char> {
    "use super :: * ; use nocturne :: runtime :: onchain_vm :: result_mode :: ResultModeVerify ; use nocturne :: runtime :: onchain_vm :: ops :: { Op , Key } ; use nocturne :: runtime :: onchain_state :: state :: StateValue ; use nocturne :: runtime :: transient_crypto :: curve :: Fr ; use nocturne :: runtime :: base_crypto :: fab :: AlignedValue ; use nocturne :: runtime :: storage :: arena :: Sp ; # [doc = r\" Type alias for verify-mode operations.\"] pub type VmOp = Op < ResultModeVerify > ; # [doc = r\" The result of building a transcript for a circuit call.\"] pub struct TranscriptResult { # [doc = r\" VM operations for the transcript.\"] pub ops : Vec < VmOp > , # [doc = r\" Private transcript values (witnesses as field elements),\"] # [doc = r\" in the circuit's `PrivateInput` allocation order. This is\"] # [doc = r\" exactly the `value_only_field_repr` flattening of\"] # [doc = r\" `private_transcript_outputs` — both are built from the\"] # [doc = r\" same pushes.\"] pub private_transcript : Vec < Fr > , # [doc = r\" One `AlignedValue` per witness invocation, in IR order —\"] # [doc = r\" the shape `ContractCallPrototype::private_transcript_outputs`\"] # [doc = r\" expects (the ledger flattens it with\"] # [doc = r\" `value_only_field_repr` when constructing the proof\"] # [doc = r\" preimage; see midnight-ledger `construct.rs`).\"] pub private_transcript_outputs : Vec < AlignedValue > , }"@
}

/// The transcript module of a contract.
pub open spec fn transcript_code(cx: ContractV) -> Seq<char> {
    module_code(spaced(module_head(), builders(cx, cx.circuits.len())))
}

} // verus!
