//! Code for the values that circuit arguments stand for, and for the
//! operations of ledger accesses.
use crate::aligned::{accessor_aligned_value_expr, find_payload, make_bound_tuple, make_elements, make_fields};
use crate::aligned::{make_payload_arms, make_repeat, static_opt};
use crate::code::{make_braced, make_refusal, make_refusal_value, make_tuple_of, put_after, put_listed, quoted};
use crate::code::{show_bool, suffixed, u8_code};
use crate::containers::{extract_array_type, extract_cell_inner_type, extract_map_kv_types, extract_merkle_tree_type};
use crate::containers::{extract_set_inner_type, find_args, nth_type, option_payload_type, plain_last_seg};
use crate::contract::{find_enum, find_struct, ContractIR};
use crate::emission::type_ctx;
use crate::expr::{expr_view, exprs_view, fields_view, BinOp, ExprIR, ExprV, LiteralIR, UnOp};
use crate::nocturne_type::TypeCtx;
use crate::snippets::{make_array_code, make_bare_call, make_bytes_of, make_call_code, make_call_value, make_clone_of};
use crate::snippets::{make_digest_fr, make_enum_disc, make_enum_match, make_field_init, make_fr_of, make_index_clone};
use crate::snippets::{make_index_value, make_infix_paren, make_method_code, make_option_disc, make_option_match};
use crate::snippets::{make_paren, make_paren_cast, make_paren_value, make_path_root_code, make_payload_block};
use crate::snippets::{make_prefix_paren, make_state_get, make_state_lookup, make_state_value, make_struct_code};
use crate::snippets::{make_value_cast, make_value_of, make_witness_call_code, make_witness_clone, make_witness_value};
use crate::syntax::{text_opt, ty_kind_view, ty_ref_opt, Ty, TyKind, TyKindV};
use crate::text::{cat2, cat3, cat5, cat7, number, same, strip_prefix, strip_spaces, txt};
use crate::transcript::{aligned_arg, array_value, bound_key, cast_value, cell_write, check_root_ops, contains_value};
use crate::transcript::{enum_value, first_raw, host_cast, increment_ops, insert_ops, int_max, int_text};
use crate::transcript::{is_arithmetic, is_composite, is_literal, is_member, is_read, key_type, keyed_ops, ledger_ops};
use crate::transcript::{lit_text, live_test, looked_up, lookup_ops, map_insert_ops, map_key, method_error};
use crate::transcript::{named_value, nth_aligned, ops, ops_fields, ops_list, range_error, raw, raw_inits, raw_list};
use crate::transcript::{read_error, read_ops, read_value, remove_ops, set_insert_ops, set_ops, shaped_value};
use crate::transcript::{spelled_int, tree_insert_ops, unknown_field_error, unreferenced, val, val_list, write_type};
use crate::typing::{is_transparent_wrapper, parse_uint_type, read_angle_u32, uint_max_value};
use crate::vm_ops::{make_check_root, make_contains, make_increment, make_lookup, make_map_insert, make_map_remove};
use crate::vm_ops::{make_read, make_set_insert, make_tree_insert, make_write};
use crate::zkir_emitter::{field_index, field_type, is_counter_type, named_type};
use vstd::prelude::*;

verus! {

/// The token text of an integer literal.
pub(crate) fn int_literal_tokens(n: u128) -> (r: String)
    ensures
        r@ == int_text(n),
{
    if n <= u64::MAX as u128 {
        suffixed(n, "u64")
    } else {
        suffixed(n, "u128")
    }
}

fn make_lit(l: &LiteralIR) -> (r: String)
    ensures
        r@ == lit_text(l@),
{
    match l {
        LiteralIR::Bool(b) => txt(show_bool(*b)),
        LiteralIR::Int(n) => int_literal_tokens(*n),
        LiteralIR::Str(s) => quoted(s.as_str()),
    }
}

pub(crate) fn arithmetic(op: BinOp) -> (r: bool)
    ensures
        r == is_arithmetic(op),
{
    match op {
        BinOp::Add | BinOp::Sub | BinOp::Mul | BinOp::BitAnd | BinOp::BitOr | BinOp::BitXor => true,
        _ => false,
    }
}

/// The code that evaluates to an argument's primitive value.
pub(crate) fn arg_to_runtime_expr(e: &ExprIR) -> (r: String)
    ensures
        r@ == val(e@),
    decreases e, 0nat,
{
    match e {
        ExprIR::Literal { value, .. } => make_lit(value),
        ExprIR::Disclose { value, .. } => arg_to_runtime_expr(value),
        ExprIR::WitnessAccess { field, .. } => make_witness_value(field.as_str()),
        ExprIR::WitnessCall { name, args, .. } => {
            let list = make_raw_list(args);
            let call = make_witness_call_code(name.as_str(), list.as_str());
            make_value_of(call.as_str())
        }
        ExprIR::Var { name, .. } => name.clone(),
        ExprIR::Path { path, .. } => path.text.clone(),
        ExprIR::MethodCall { receiver, method, .. } => {
            let r = arg_to_runtime_expr(receiver);
            if is_transparent_wrapper(method.as_str()) {
                r
            } else {
                make_bare_call(r.as_str(), method.as_str())
            }
        }
        ExprIR::Reference { expr, .. } => arg_to_runtime_expr(expr),
        ExprIR::Index { array, index, .. } => {
            let a = arg_to_runtime_raw_expr(array);
            let i = number(*index as u128);
            make_index_value(a.as_str(), i.as_str())
        }
        ExprIR::BinaryOp { op, lhs, rhs, .. } => {
            if arithmetic(*op) {
                let l = arg_to_runtime_expr(lhs);
                let r = arg_to_runtime_expr(rhs);
                make_infix_paren(l.as_str(), op.text(), r.as_str())
            } else {
                txt("()")
            }
        }
        ExprIR::Tuple { elements, .. } => {
            let list = make_val_list(elements);
            make_tuple_of(list.as_str(), elements.len())
        }
        ExprIR::ArrayLit { elements, .. } => {
            let list = make_raw_list(elements);
            make_array_code(list.as_str())
        }
        ExprIR::StructInit { name, fields, .. } => {
            let list = make_raw_inits(fields);
            let b = make_braced(list.as_str());
            make_struct_code(name.as_str(), b.as_str())
        }
        ExprIR::UnaryOp { op, expr, .. } => match op {
            UnOp::Deref => txt("()"),
            _ => {
                let x = arg_to_runtime_expr(expr);
                make_prefix_paren(op.text(), x.as_str())
            }
        },
        ExprIR::FnCall { path, args, .. } => {
            let list = make_raw_list(args);
            make_call_value(path.text.as_str(), list.as_str())
        }
        _ => txt("()"),
    }
}

fn make_val_list(es: &Vec<ExprIR>) -> (r: String)
    ensures
        r@ == val_list(exprs_view(es@), es@.len()),
    decreases es, 0nat,
{
    let ghost v = exprs_view(es@);
    let mut out: String = txt("");
    proof {
        reveal_strlit("");
        assert(out@ =~= val_list(v, 0));
    }
    let mut i: usize = 0;
    while i < es.len()
        invariant
            i <= es@.len(),
            v == exprs_view(es@),
            v.len() == es@.len(),
            out@ == val_list(v, i as nat),
        decreases es@.len() - i,
    {
        assert(v[i as int] == expr_view(es@[i as int]));
        let c = arg_to_runtime_expr(&es[i]);
        out = put_listed(out.as_str(), i, c.as_str());
        i += 1;
    }
    out
}

/// The code that evaluates to an argument in its declared type.
pub(crate) fn arg_to_runtime_raw_expr(e: &ExprIR) -> (r: String)
    ensures
        r@ == raw(e@),
    decreases e, 1nat,
{
    match e {
        ExprIR::Reference { expr, .. } => arg_to_runtime_raw_expr(expr),
        ExprIR::Tuple { elements, .. } => {
            let list = make_raw_list(elements);
            make_tuple_of(list.as_str(), elements.len())
        }
        ExprIR::ArrayLit { elements, .. } => {
            let list = make_raw_list(elements);
            make_array_code(list.as_str())
        }
        ExprIR::StructInit { name, fields, .. } => {
            let list = make_raw_inits(fields);
            let b = make_braced(list.as_str());
            make_struct_code(name.as_str(), b.as_str())
        }
        ExprIR::WitnessAccess { field, .. } => make_witness_clone(field.as_str()),
        ExprIR::WitnessCall { name, args, .. } => {
            let list = make_raw_list(args);
            make_witness_call_code(name.as_str(), list.as_str())
        }
        ExprIR::Index { array, index, .. } => {
            let a = arg_to_runtime_raw_expr(array);
            let i = number(*index as u128);
            make_index_clone(a.as_str(), i.as_str())
        }
        ExprIR::Disclose { value, .. } => arg_to_runtime_raw_expr(value),
        ExprIR::Var { name, .. } => make_clone_of(name.as_str()),
        ExprIR::Path { path, .. } => path.text.clone(),
        ExprIR::MethodCall { receiver, method, args, .. } => {
            let r = arg_to_runtime_raw_expr(receiver);
            if is_transparent_wrapper(method.as_str()) {
                r
            } else {
                let list = make_raw_list(args);
                make_method_code(r.as_str(), method.as_str(), list.as_str())
            }
        }
        ExprIR::FnCall { name, path, args, .. } => {
            if same(name.as_str(), "merkle_tree_path_root") {
                if args.len() > 0 {
                    assert(exprs_view(args@)[0] == expr_view(args@[0]));
                    let a = arg_to_runtime_raw_expr(&args[0]);
                    make_path_root_code(a.as_str())
                } else {
                    make_path_root_code("()")
                }
            } else {
                let list = make_raw_list(args);
                make_call_code(path.text.as_str(), list.as_str())
            }
        }
        _ => arg_to_runtime_expr(e),
    }
}

/// The arguments of a call, in their declared types.
pub(crate) fn make_raw_list(es: &Vec<ExprIR>) -> (r: String)
    ensures
        r@ == raw_list(exprs_view(es@), es@.len()),
        exprs_view(es@).len() == es@.len(),
    decreases es, 0nat,
{
    let ghost v = exprs_view(es@);
    let mut out: String = txt("");
    proof {
        reveal_strlit("");
        assert(out@ =~= raw_list(v, 0));
    }
    let mut i: usize = 0;
    while i < es.len()
        invariant
            i <= es@.len(),
            v == exprs_view(es@),
            v.len() == es@.len(),
            out@ == raw_list(v, i as nat),
        decreases es@.len() - i,
    {
        assert(v[i as int] == expr_view(es@[i as int]));
        let c = arg_to_runtime_raw_expr(&es[i]);
        out = put_listed(out.as_str(), i, c.as_str());
        i += 1;
    }
    out
}

fn make_raw_inits(fs: &Vec<(String, ExprIR)>) -> (r: String)
    ensures
        r@ == raw_inits(fields_view(fs@), fs@.len()),
    decreases fs, 0nat,
{
    let ghost v = fields_view(fs@);
    let mut out: String = txt("");
    proof {
        reveal_strlit("");
        assert(out@ =~= raw_inits(v, 0));
    }
    let mut i: usize = 0;
    while i < fs.len()
        invariant
            i <= fs@.len(),
            v == fields_view(fs@),
            v.len() == fs@.len(),
            out@ == raw_inits(v, i as nat),
        decreases fs@.len() - i,
    {
        let pair = &fs[i];
        assert(v[i as int] == (fs@[i as int].0@, expr_view(fs@[i as int].1)));
        let x = arg_to_runtime_raw_expr(&pair.1);
        let c = make_field_init(pair.0.as_str(), x.as_str());
        out = put_listed(out.as_str(), i, c.as_str());
        i += 1;
    }
    out
}

fn make_first_raw(args: &Vec<ExprIR>) -> (r: String)
    ensures
        r@ == first_raw(exprs_view(args@)),
{
    if args.len() > 0 {
        assert(exprs_view(args@)[0] == expr_view(args@[0]));
        arg_to_runtime_raw_expr(&args[0])
    } else {
        txt("()")
    }
}

/// The integer that an argument spells out.
fn literal_int_value(e: &ExprIR) -> (r: Option<u128>)
    ensures
        r == spelled_int(e@),
    decreases e,
{
    match e {
        ExprIR::Literal { value, .. } => {
            assert(e@ == (ExprV::Literal { span: e->Literal_span, value: value@ }));
            match value {
                LiteralIR::Int(n) => Some(*n),
                _ => None,
            }
        }
        ExprIR::Disclose { value, .. } => literal_int_value(value),
        ExprIR::Reference { expr, .. } => literal_int_value(expr),
        ExprIR::MethodCall { receiver, method, .. } => {
            if is_transparent_wrapper(method.as_str()) {
                literal_int_value(receiver)
            } else {
                None
            }
        }
        _ => None,
    }
}

/// True when an argument is a literal behind transparent wrappers.
fn is_literal_arg(e: &ExprIR) -> (r: bool)
    ensures
        r == is_literal(e@),
    decreases e,
{
    match e {
        ExprIR::Literal { .. } => true,
        ExprIR::Disclose { value, .. } => is_literal_arg(value),
        ExprIR::Reference { expr, .. } => is_literal_arg(expr),
        ExprIR::MethodCall { receiver, method, .. } => is_transparent_wrapper(method.as_str()) && is_literal_arg(receiver),
        _ => false,
    }
}

fn without_references(t: &Ty) -> (r: &Ty)
    ensures
        r@ == unreferenced(t@),
    decreases t,
{
    assert(t@.kind == ty_kind_view(t.kind));
    match &t.kind {
        TyKind::Reference(inner) => without_references(inner),
        _ => t,
    }
}

/// The largest value of an integer type.
fn int_type_max(t: &Ty) -> (r: Option<u128>)
    ensures
        match r {
            Some(m) => int_max(t@) == Some(m as int),
            None => int_max(t@) is None,
        },
{
    let plain = without_references(t);
    let s = strip_spaces(plain.text.as_str());
    match parse_uint_type(s.as_str()) {
        Some(bits) => Some(uint_max_value(bits)),
        None => None,
    }
}

fn find_range_error(e: &ExprIR, t: &Ty) -> (r: Option<String>)
    ensures
        text_opt(r) == range_error(e@, t@),
{
    match literal_int_value(e) {
        Some(n) => match int_type_max(t) {
            Some(max) => {
                if n > max {
                    let shown = strip_spaces(t.text.as_str());
                    let a = number(n);
                    let b = number(max);
                    Some(
                        cat7("literal ", a.as_str(), " exceeds ", shown.as_str(), " range (max ", b.as_str(), ")"),
                    )
                } else {
                    None
                }
            }
            None => None,
        },
        None => None,
    }
}

/// The cast that gives an integer its wire width.
fn primitive_cast_for_type(s: &str) -> (r: Option<&'static str>)
    ensures
        static_opt(r) == host_cast(s@),
{
    proof {
        reveal(host_cast);
    }
    match read_angle_u32(s, "Uint<") {
        Some(Some(n)) => Some(
            if n <= 8 {
                "as u8"
            } else if n <= 16 {
                "as u16"
            } else if n <= 32 {
                "as u32"
            } else if n <= 64 {
                "as u64"
            } else {
                "as u128"
            },
        ),
        Some(None) => None,
        None => crate::aligned::find_plain_cast(s),
    }
}

/// The user-declared types of a contract.
pub(crate) fn types_of<'a>(cx: &'a ContractIR) -> (r: TypeCtx<'a>)
    ensures
        r@ == type_ctx(cx@),
{
    TypeCtx::new(&cx.user_structs, &cx.user_enums)
}

fn definitions(cx: &TypeCtx) -> (r: u128)
    ensures
        r as nat == crate::aligned::type_depth(cx@),
{
    cx.structs.len() as u128 + cx.enums.len() as u128
}

/// An enum value, by discriminant and payload.
fn make_enum_value(cx: &ContractIR, acc: &str, t: &Ty, wrapped: bool) -> (r: Option<String>)
    ensures
        text_opt(r) == enum_value(cx@, acc@, t@, wrapped),
{
    proof {
        reveal(enum_value);
    }
    let tc = types_of(cx);
    match option_payload_type(t) {
        Some(p) => {
            let m = make_option_match("__e . clone ()", p.text.as_str());
            let d = make_option_disc("__e");
            let repr = accessor_aligned_value_expr(&tc, Some(p), "__payload");
            return Some(make_payload_block(acc, m.as_str(), d.as_str(), repr.as_str()));
        }
        None => {}
    }
    match plain_last_seg(t) {
        Some(seg) => match find_enum(tc.enums, seg.ident.as_str()) {
            Some(vs) => match find_payload(vs) {
                None => {
                    let d = make_enum_disc(acc);
                    if wrapped {
                        Some(make_paren(d.as_str()))
                    } else {
                        Some(d)
                    }
                }
                Some(p) => {
                    let arms = make_payload_arms(seg.ident.as_str(), vs);
                    let m = make_enum_match("__e . clone ()", arms.as_str());
                    let d = make_enum_disc("__e");
                    let repr = accessor_aligned_value_expr(&tc, Some(p), "__payload");
                    Some(make_payload_block(acc, m.as_str(), d.as_str(), repr.as_str()))
                }
            },
            None => None,
        },
        None => None,
    }
}

fn make_array_value(cx: &ContractIR, acc: &str, t: &Ty) -> (r: Option<String>)
    ensures
        text_opt(r) == array_value(cx@, acc@, t@),
{
    proof {
        reveal(array_value);
    }
    match extract_array_type(t) {
        Some((elem, n)) => {
            let tc = types_of(cx);
            let depth: u128 = definitions(&tc);
            let list = make_repeat(&tc, elem, n, depth);
            Some(make_bound_tuple("__a", acc, list.as_str(), n as usize))
        }
        None => None,
    }
}

fn make_named_value(cx: &ContractIR, given: &str, t: &Ty) -> (r: Option<String>)
    ensures
        text_opt(r) == named_value(cx@, given@, t@),
{
    proof {
        reveal(named_value);
    }
    let s = strip_spaces(t.text.as_str());
    if strip_prefix(s.as_str(), "Bytes<").is_some() {
        return Some(make_bytes_of(given));
    }
    if same(s.as_str(), "Field") {
        return Some(make_fr_of(given));
    }
    if same(s.as_str(), "MerkleTreeDigest") {
        return Some(make_digest_fr(given));
    }
    let tc = types_of(cx);
    match plain_last_seg(t) {
        Some(seg) => match find_struct(tc.structs, seg.ident.as_str()) {
            Some(fs) => {
                let depth: u128 = definitions(&tc);
                let list = make_fields(&tc, "__t", fs, depth);
                return Some(make_bound_tuple("__t", given, list.as_str(), fs.len()));
            }
            None => {}
        },
        None => {}
    }
    make_enum_value(cx, given, t, true)
}

fn make_shaped_value(cx: &ContractIR, given: &str, t: &Ty) -> (r: Option<String>)
    ensures
        text_opt(r) == shaped_value(cx@, given@, t@),
{
    proof {
        reveal(shaped_value);
        assert(t@.kind == ty_kind_view(t.kind));
    }
    match &t.kind {
        TyKind::Tuple(elems) => {
            assert(t@.kind == TyKindV::Tuple(crate::syntax::tys_view(elems@)));
            let tc = types_of(cx);
            let depth: u128 = definitions(&tc);
            let list = make_elements(&tc, elems, depth);
            Some(make_bound_tuple("__t", given, list.as_str(), elems.len()))
        }
        _ => match make_array_value(cx, given, t) {
            Some(c) => Some(c),
            None => make_named_value(cx, given, t),
        },
    }
}

fn is_var(e: &ExprIR) -> (r: bool)
    ensures
        r == (e@ is Var),
{
    match e {
        ExprIR::Var { .. } => true,
        _ => false,
    }
}

fn make_cast_value(e: &ExprIR, t: &Ty) -> (r: String)
    ensures
        r@ == cast_value(e@, t@),
{
    proof {
        reveal(cast_value);
    }
    let s = strip_spaces(t.text.as_str());
    let v = arg_to_runtime_expr(e);
    match primitive_cast_for_type(s.as_str()) {
        Some(c) => {
            if is_var(e) && strip_prefix(s.as_str(), "Uint<").is_some() {
                make_value_cast(v.as_str(), c)
            } else {
                make_paren_cast(v.as_str(), c)
            }
        }
        None => v,
    }
}

/// The code for an argument of the given type, as `AlignedValue::from` takes
/// it.
pub(crate) fn aligned_value_arg_expr(cx: &ContractIR, e: &ExprIR, t: Option<&Ty>) -> (r: String)
    ensures
        r@ == aligned_arg(cx@, e@, ty_ref_opt(t)),
{
    proof {
        reveal(aligned_arg);
    }
    match t {
        Some(t) => match find_range_error(e, t) {
            Some(m) => make_refusal_value(m.as_str(), "0u8"),
            None => {
                let given = arg_to_runtime_raw_expr(e);
                match make_shaped_value(cx, given.as_str(), t) {
                    Some(c) => c,
                    None => make_cast_value(e, t),
                }
            }
        },
        None => arg_to_runtime_expr(e),
    }
}

fn make_nth_aligned(cx: &ContractIR, args: &Vec<ExprIR>, i: usize, t: Option<&Ty>) -> (r: String)
    ensures
        r@ == nth_aligned(cx@, exprs_view(args@), i as int, ty_ref_opt(t)),
{
    if i < args.len() {
        assert(exprs_view(args@)[i as int] == expr_view(args@[i as int]));
        aligned_value_arg_expr(cx, &args[i], t)
    } else {
        txt("()")
    }
}

/// The key of a keyed container, from the binding `__key`.
fn bound_key_aligned_expr(cx: &ContractIR, args: &Vec<ExprIR>, t: Option<&Ty>) -> (r: String)
    ensures
        r@ == bound_key(cx@, exprs_view(args@), ty_ref_opt(t)),
{
    proof {
        reveal(bound_key);
    }
    if args.len() == 0 {
        return txt("()");
    }
    assert(exprs_view(args@)[0] == expr_view(args@[0]));
    if t.is_some() && !is_literal_arg(&args[0]) {
        let tc = types_of(cx);
        accessor_aligned_value_expr(&tc, t, "__key . clone ()")
    } else {
        aligned_value_arg_expr(cx, &args[0], t)
    }
}

fn extract_map_key_type(t: &Ty) -> (r: Option<&Ty>)
    ensures
        ty_ref_opt(r) == map_key(t@),
{
    match find_args(t, "Map") {
        Some(a) => nth_type(a, 0),
        None => None,
    }
}

fn extract_field_key_type<'a>(t: Option<&'a Ty>) -> (r: Option<&'a Ty>)
    ensures
        ty_ref_opt(r) == key_type(ty_ref_opt(t)),
{
    match t {
        Some(t) => match extract_map_key_type(t) {
            Some(k) => Some(k),
            None => extract_set_inner_type(t),
        },
        None => None,
    }
}

pub(crate) fn slot_text(slot: u8) -> (r: String)
    ensures
        r@ == u8_code(slot),
{
    suffixed(slot as u128, "u8")
}

fn make_live_test(field: &str, test: &str) -> (r: String)
    ensures
        r@ == live_test(field@, test@),
{
    cat3("let __result : bool = __nocturne_state . ", field, test)
}

/// A membership test and its result.
pub(crate) fn generate_map_contains_block(
    cx: &ContractIR,
    slot: u8,
    field: &str,
    args: &Vec<ExprIR>,
    t: Option<&Ty>,
    statement: bool,
) -> (r: String)
    ensures
        r@ == contains_value(cx@, slot, field@, exprs_view(args@), ty_ref_opt(t), statement),
{
    proof {
        reveal(contains_value);
    }
    let given = make_first_raw(args);
    let n = slot_text(slot);
    let key = bound_key_aligned_expr(cx, args, extract_field_key_type(t));
    let test = make_live_test(field, " . contains (& __key) ;");
    if statement {
        let head = cat3("let _ = { let __key = ", given.as_str(), " ;");
        make_contains(head.as_str(), n.as_str(), key.as_str(), test.as_str(), "__result } ;")
    } else {
        let head = cat3("{ let __key = ", given.as_str(), " ;");
        make_contains(head.as_str(), n.as_str(), key.as_str(), test.as_str(), "__result }")
    }
}

fn generate_cell_set(cx: &ContractIR, slot: u8, args: &Vec<ExprIR>, t: Option<&Ty>) -> (r: String)
    ensures
        r@ == cell_write(cx@, slot, exprs_view(args@), ty_ref_opt(t)),
{
    proof {
        reveal(cell_write);
    }
    let n = slot_text(slot);
    let counted = named_type("u64");
    let held: Option<&Ty> = match t {
        Some(ty) => match extract_cell_inner_type(ty) {
            Some(inner) => Some(inner),
            None => {
                if is_counter_type(ty) {
                    Some(&counted)
                } else {
                    None
                }
            }
        },
        None => None,
    };
    assert(ty_ref_opt(held) == write_type(ty_ref_opt(t)));
    let v = make_nth_aligned(cx, args, 0, held);
    make_write(n.as_str(), v.as_str())
}

fn generate_increment(slot: u8, args: &Vec<ExprIR>) -> (r: String)
    ensures
        r@ == increment_ops(slot, exprs_view(args@)),
{
    proof {
        reveal(increment_ops);
    }
    let n = slot_text(slot);
    if args.len() == 0 {
        return make_increment(n.as_str(), "1u32");
    }
    assert(exprs_view(args@)[0] == expr_view(args@[0]));
    let e = &args[0];
    match e {
        ExprIR::Literal { value, .. } => {
            assert(e@ == (ExprV::Literal { span: e->Literal_span, value: value@ }));
            match value {
                LiteralIR::Int(v) => {
                    if *v <= u32::MAX as u128 {
                        let m = suffixed(*v, "u32");
                        make_increment(n.as_str(), m.as_str())
                    } else {
                        make_refusal(
                            "Counter::increment_by(n) currently only supports a const integer literal for n",
                        )
                    }
                }
                _ => make_refusal("Counter::increment_by(n) currently only supports a const integer literal for n"),
            }
        }
        _ => make_refusal("Counter::increment_by(n) currently only supports a const integer literal for n"),
    }
}

fn make_read_value(cx: &ContractIR, acc: &str, t: &Ty) -> (r: String)
    ensures
        r@ == read_value(cx@, acc@, t@),
{
    proof {
        reveal(read_value);
    }
    let s = strip_spaces(t.text.as_str());
    if strip_prefix(s.as_str(), "Bytes<").is_some() {
        return make_bytes_of(acc);
    }
    match make_array_value(cx, acc, t) {
        Some(c) => {
            return c;
        }
        None => {}
    }
    if same(s.as_str(), "Field") {
        return make_fr_of(acc);
    }
    match make_enum_value(cx, acc, t, false) {
        Some(c) => {
            return c;
        }
        None => {}
    }
    match primitive_cast_for_type(s.as_str()) {
        Some(c) => make_paren_cast(acc, c),
        None => txt(acc),
    }
}

fn make_read_error(field: &str, ty: &str) -> (r: String)
    ensures
        r@ == crate::code::refusal_code(read_error(field@, ty@)),
{
    let m = cat5(
        "nocturne: ledger read on field `",
        field,
        "` (type `",
        ty,
        "`) — only Counter and Cell<T> are supported",
    );
    make_refusal(m.as_str())
}

fn generate_read(cx: &ContractIR, slot: u8, field: &str, t: Option<&Ty>) -> (r: String)
    ensures
        r@ == read_ops(cx@, slot, field@, ty_ref_opt(t)),
{
    proof {
        reveal(read_ops);
    }
    let n = slot_text(slot);
    match t {
        Some(t) => {
            if is_counter_type(t) {
                let acc = make_state_value(field);
                let v = make_read_value(cx, acc.as_str(), &named_type("u64"));
                make_read(n.as_str(), v.as_str())
            } else {
                match extract_cell_inner_type(t) {
                    Some(inner) => {
                        let acc = make_state_get(field);
                        let v = make_read_value(cx, acc.as_str(), inner);
                        make_read(n.as_str(), v.as_str())
                    }
                    None => make_read_error(field, t.text.as_str()),
                }
            }
        }
        None => make_read_error(field, "<missing>"),
    }
}

fn composite(cx: &ContractIR, t: &Ty) -> (r: bool)
    ensures
        r == is_composite(cx@, t@),
{
    assert(t@.kind == ty_kind_view(t.kind));
    match &t.kind {
        TyKind::Tuple(_) => {
            return true;
        }
        _ => {}
    }
    if option_payload_type(t).is_some() {
        return true;
    }
    let tc = types_of(cx);
    match plain_last_seg(t) {
        Some(seg) => find_struct(tc.structs, seg.ident.as_str()).is_some() || find_enum(
            tc.enums,
            seg.ident.as_str(),
        ).is_some(),
        None => false,
    }
}

/// A value that a map lookup gave.
fn unwrap_to_aligned_primitive(cx: &ContractIR, acc: &str, t: &Ty) -> (r: String)
    ensures
        r@ == looked_up(cx@, acc@, t@),
{
    proof {
        reveal(looked_up);
    }
    let s = strip_spaces(t.text.as_str());
    if same(s.as_str(), "Boolean") {
        return make_paren_value(acc);
    }
    if strip_prefix(s.as_str(), "Bytes<").is_some() {
        return make_bytes_of(acc);
    }
    if same(s.as_str(), "Field") {
        return make_fr_of(acc);
    }
    if same(s.as_str(), "MerkleTreeDigest") {
        return make_digest_fr(acc);
    }
    match primitive_cast_for_type(s.as_str()) {
        Some(c) => {
            if strip_prefix(s.as_str(), "Uint<").is_some() {
                make_value_cast(acc, c)
            } else {
                make_paren_cast(acc, c)
            }
        }
        None => {
            if composite(cx, t) {
                let m = cat3(
                    "nocturne: `Map::lookup` with composite value type `",
                    s.as_str(),
                    "` is not supported yet — store the components in separate maps or use a `Bytes<N>` encoding",
                );
                make_refusal_value(m.as_str(), "0u8")
            } else {
                txt(acc)
            }
        }
    }
}

fn generate_map_lookup(cx: &ContractIR, slot: u8, field: &str, args: &Vec<ExprIR>, k: &Ty, v: &Ty) -> (r: String)
    ensures
        r@ == lookup_ops(cx@, slot, field@, exprs_view(args@), k@, v@),
{
    proof {
        reveal(lookup_ops);
    }
    let given = make_first_raw(args);
    let n = slot_text(slot);
    let key = bound_key_aligned_expr(cx, args, Some(k));
    let acc = make_state_lookup(field, "__key");
    let value = unwrap_to_aligned_primitive(cx, acc.as_str(), v);
    make_lookup(given.as_str(), n.as_str(), key.as_str(), value.as_str())
}

fn generate_map_insert(cx: &ContractIR, slot: u8, args: &Vec<ExprIR>, k: &Ty, v: &Ty) -> (r: String)
    ensures
        r@ == map_insert_ops(cx@, slot, exprs_view(args@), k@, v@),
{
    proof {
        reveal(map_insert_ops);
    }
    let n = slot_text(slot);
    let key = make_nth_aligned(cx, args, 0, Some(k));
    let value = make_nth_aligned(cx, args, 1, Some(v));
    make_map_insert(n.as_str(), key.as_str(), value.as_str())
}

/// `Map::remove` and `Set::remove`.
fn generate_remove(cx: &ContractIR, slot: u8, args: &Vec<ExprIR>, k: &Ty) -> (r: String)
    ensures
        r@ == remove_ops(cx@, slot, exprs_view(args@), k@),
{
    proof {
        reveal(remove_ops);
    }
    let n = slot_text(slot);
    let key = make_nth_aligned(cx, args, 0, Some(k));
    make_map_remove(n.as_str(), key.as_str())
}

fn generate_set_insert(cx: &ContractIR, slot: u8, args: &Vec<ExprIR>, k: &Ty) -> (r: String)
    ensures
        r@ == set_insert_ops(cx@, slot, exprs_view(args@), k@),
{
    proof {
        reveal(set_insert_ops);
    }
    let n = slot_text(slot);
    let key = make_nth_aligned(cx, args, 0, Some(k));
    make_set_insert(n.as_str(), key.as_str())
}

fn generate_merkle_tree_insert(slot: u8, args: &Vec<ExprIR>) -> (r: String)
    ensures
        r@ == tree_insert_ops(slot, exprs_view(args@)),
{
    proof {
        reveal(tree_insert_ops);
    }
    let given = make_first_raw(args);
    let n = slot_text(slot);
    make_tree_insert(given.as_str(), n.as_str())
}

fn generate_merkle_tree_check_root(slot: u8, field: &str, args: &Vec<ExprIR>) -> (r: String)
    ensures
        r@ == check_root_ops(slot, field@, exprs_view(args@)),
{
    proof {
        reveal(check_root_ops);
    }
    let given = make_first_raw(args);
    let n = slot_text(slot);
    let test = make_live_test(field, " . check_root (& __digest) ;");
    make_check_root(given.as_str(), n.as_str(), test.as_str())
}

fn generate_insert(cx: &ContractIR, slot: u8, args: &Vec<ExprIR>, t: Option<&Ty>) -> (r: String)
    ensures
        r@ == insert_ops(cx@, slot, exprs_view(args@), ty_ref_opt(t)),
{
    proof {
        reveal(insert_ops);
    }
    match t {
        Some(ty) => match extract_map_kv_types(ty) {
            Some((k, v)) => generate_map_insert(cx, slot, args, k, v),
            None => match extract_set_inner_type(ty) {
                Some(k) => generate_set_insert(cx, slot, args, k),
                None => {
                    if extract_merkle_tree_type(ty).is_some() {
                        generate_merkle_tree_insert(slot, args)
                    } else {
                        generate_cell_set(cx, slot, args, t)
                    }
                }
            },
        },
        None => generate_cell_set(cx, slot, args, t),
    }
}

fn generate_set(cx: &ContractIR, slot: u8, args: &Vec<ExprIR>, t: Option<&Ty>) -> (r: String)
    ensures
        r@ == set_ops(cx@, slot, exprs_view(args@), ty_ref_opt(t)),
{
    proof {
        reveal(set_ops);
    }
    match t {
        Some(ty) => match extract_map_kv_types(ty) {
            Some((k, v)) => generate_map_insert(cx, slot, args, k, v),
            None => generate_cell_set(cx, slot, args, t),
        },
        None => generate_cell_set(cx, slot, args, t),
    }
}

fn make_method_error(field: &str, method: &str) -> (r: String)
    ensures
        r@ == crate::code::refusal_code(method_error(field@, method@)),
{
    let m = cat5(
        "nocturne: unknown ledger method `",
        method,
        "` on field `",
        field,
        "` (or wrong field kind for this method)",
    );
    make_refusal(m.as_str())
}

fn generate_keyed(
    cx: &ContractIR,
    slot: u8,
    field: &str,
    method: &str,
    args: &Vec<ExprIR>,
    t: Option<&Ty>,
) -> (r: String)
    ensures
        r@ == keyed_ops(cx@, slot, field@, method@, exprs_view(args@), ty_ref_opt(t)),
{
    proof {
        reveal(keyed_ops);
    }
    match t {
        Some(t) => match extract_map_kv_types(t) {
            Some((k, v)) => {
                if same(method, "remove") {
                    generate_remove(cx, slot, args, k)
                } else if same(method, "lookup") {
                    generate_map_lookup(cx, slot, field, args, k, v)
                } else {
                    make_method_error(field, method)
                }
            }
            None => match extract_set_inner_type(t) {
                Some(k) => {
                    if same(method, "remove") {
                        generate_remove(cx, slot, args, k)
                    } else {
                        make_method_error(field, method)
                    }
                }
                None => {
                    if same(method, "check_root") && extract_merkle_tree_type(t).is_some() {
                        generate_merkle_tree_check_root(slot, field, args)
                    } else {
                        make_method_error(field, method)
                    }
                }
            },
        },
        None => make_method_error(field, method),
    }
}

pub(crate) fn reads(method: &str) -> (r: bool)
    ensures
        r == is_read(method@),
{
    same(method, "get") || same(method, "value") || same(method, "__direct_access")
}

pub(crate) fn tests_membership(method: &str) -> (r: bool)
    ensures
        r == is_member(method@),
{
    same(method, "contains") || same(method, "member")
}

pub(crate) fn make_unknown_field(field: &str) -> (r: String)
    ensures
        r@ == unknown_field_error(field@),
{
    cat3("nocturne internal error: ledger field `", field, "` not found")
}

/// The operations of a ledger access.
pub(crate) fn generate_ledger_ops(cx: &ContractIR, field: &str, method: &str, args: &Vec<ExprIR>) -> (r: String)
    ensures
        r@ == ledger_ops(cx@, field@, method@, exprs_view(args@)),
{
    proof {
        reveal(ledger_ops);
    }
    match field_index(cx, field) {
        None => {
            let m = make_unknown_field(field);
            make_refusal(m.as_str())
        }
        Some(slot) => {
            let t = field_type(cx, slot);
            if same(method, "increment") || same(method, "increment_by") {
                generate_increment(slot, args)
            } else if reads(method) {
                generate_read(cx, slot, field, t)
            } else if tests_membership(method) {
                generate_map_contains_block(cx, slot, field, args, t, true)
            } else if same(method, "insert") {
                generate_insert(cx, slot, args, t)
            } else if same(method, "set") {
                generate_set(cx, slot, args, t)
            } else {
                generate_keyed(cx, slot, field, method, args, t)
            }
        }
    }
}

pub(crate) fn empty() -> (r: String)
    ensures
        r@ == Seq::<char>::empty(),
{
    let r = txt("");
    proof {
        reveal_strlit("");
        assert(r@ =~= Seq::<char>::empty());
    }
    r
}

/// The operations of an expression that is no statement of its own.
pub(crate) fn generate_expr_ops(cx: &ContractIR, e: &ExprIR) -> (r: String)
    ensures
        r@ == ops(cx@, e@),
    decreases e, 0nat,
{
    match e {
        ExprIR::LedgerAccess { field, method, args, .. } => generate_ledger_ops(
            cx,
            field.as_str(),
            method.as_str(),
            args,
        ),
        ExprIR::MethodCall { receiver, args, .. } => {
            let a = generate_expr_ops(cx, receiver);
            let b = make_ops_list(cx, args);
            put_after(a.as_str(), b.as_str())
        }
        ExprIR::FnCall { name, args, .. } => {
            let a = make_ops_list(cx, args);
            let b = if same(name.as_str(), "merkle_tree_path_root") {
                let given = make_first_raw(args);
                make_path_root_code(given.as_str())
            } else {
                txt("()")
            };
            put_after(a.as_str(), b.as_str())
        }
        ExprIR::Reference { expr, .. } => generate_expr_ops(cx, expr),
        ExprIR::Disclose { value, .. } => generate_expr_ops(cx, value),
        ExprIR::UnaryOp { expr, .. } => generate_expr_ops(cx, expr),
        ExprIR::BinaryOp { lhs, rhs, .. } => {
            let a = generate_expr_ops(cx, lhs);
            let b = generate_expr_ops(cx, rhs);
            put_after(a.as_str(), b.as_str())
        }
        ExprIR::EnumPayload { scrutinee, .. } => generate_expr_ops(cx, scrutinee),
        ExprIR::Index { array, .. } => generate_expr_ops(cx, array),
        ExprIR::Return { value, .. } => match value {
            Some(v) => generate_expr_ops(cx, v),
            None => empty(),
        },
        ExprIR::Tuple { elements, .. } => make_ops_list(cx, elements),
        ExprIR::ArrayLit { elements, .. } => make_ops_list(cx, elements),
        ExprIR::StructInit { fields, .. } => make_ops_fields(cx, fields),
        ExprIR::Unsupported { description, .. } => {
            let m = cat2("nocturne: unsupported expression in circuit body: ", description.as_str());
            make_refusal(m.as_str())
        }
        _ => empty(),
    }
}

fn make_ops_list(cx: &ContractIR, es: &Vec<ExprIR>) -> (r: String)
    ensures
        r@ == ops_list(cx@, exprs_view(es@), es@.len()),
        exprs_view(es@).len() == es@.len(),
    decreases es, 0nat,
{
    let ghost v = exprs_view(es@);
    let mut out: String = empty();
    let mut i: usize = 0;
    while i < es.len()
        invariant
            i <= es@.len(),
            v == exprs_view(es@),
            v.len() == es@.len(),
            out@ == ops_list(cx@, v, i as nat),
        decreases es@.len() - i,
    {
        assert(v[i as int] == expr_view(es@[i as int]));
        let c = generate_expr_ops(cx, &es[i]);
        out = put_after(out.as_str(), c.as_str());
        i += 1;
    }
    out
}

fn make_ops_fields(cx: &ContractIR, fs: &Vec<(String, ExprIR)>) -> (r: String)
    ensures
        r@ == ops_fields(cx@, fields_view(fs@), fs@.len()),
        fields_view(fs@).len() == fs@.len(),
    decreases fs, 0nat,
{
    let ghost v = fields_view(fs@);
    let mut out: String = empty();
    let mut i: usize = 0;
    while i < fs.len()
        invariant
            i <= fs@.len(),
            v == fields_view(fs@),
            v.len() == fs@.len(),
            out@ == ops_fields(cx@, v, i as nat),
        decreases fs@.len() - i,
    {
        let pair = &fs[i];
        assert(v[i as int] == (fs@[i as int].0@, expr_view(fs@[i as int].1)));
        let c = generate_expr_ops(cx, &pair.1);
        out = put_after(out.as_str(), c.as_str());
        i += 1;
    }
    out
}

} // verus!
