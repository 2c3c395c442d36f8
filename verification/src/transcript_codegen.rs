//! The transcript builders of a contract: host code that pushes, for each
//! circuit, the ledger operations and the private values that a call of the
//! circuit carries.
use crate::aligned::{accessor_aligned_value_expr, make_payload_arms};
use crate::code::{make_braced, make_refusal, make_refusal_value, put_after, put_listed, quoted, show_bool, suffixed};
use crate::containers::{extract_cell_inner_type, find_args, option_payload_type};
use crate::contract::{find_enum, CircuitIR, ContractIR, UserEnumVariant};
use crate::emission::{ledger_position, variant_position};
use crate::expr::{assert_view, expr_view, exprs_view, fields_view, AssertKind, BinOp, ExprIR, LiteralIR, UnOp};
use crate::private_events::{event_view, events_view, walk, walk_expr_events, FirstTouchTracker, PrivateEvent};
use crate::snippets::{make_assert_code, make_assert_eq_code, make_bare_call, make_call_push_code, make_cast_disc};
use crate::snippets::{make_clone_of, make_enum_match, make_fn_code, make_if_code, make_if_else_code, make_if_value};
use crate::snippets::{make_index_clone, make_infix, make_leaf_of, make_let_code, make_module_code, make_nonzero};
use crate::snippets::{make_option_payload_code, make_paren, make_paren_method, make_path_disc, make_path_push_code};
use crate::snippets::{make_prefix_paren, make_ref_to, make_state_get, make_state_lookup, make_state_param};
use crate::snippets::{make_state_value, make_value_of, make_value_push_code, make_var_disc, make_witness_call_code};
use crate::snippets::{make_witness_clone, make_witness_disc, make_witness_option_disc, make_witness_value};
use crate::snippets::make_witnesses_param;
use crate::syntax::{text_opt, ty_ref_opt, Path, Ty};
use crate::text::{cat3, cat5, number, same, strip_prefix, strip_spaces, txt};
use crate::transcript::{any_field_if, any_field_state, any_if, any_state, assertion, binding, bool_read, builder};
use crate::transcript::{builder_params, builders, cond, disc, event_push, event_pushes, has_if, is_relation};
use crate::transcript::{is_variant, kind_number, last_value, ledger_cond, ledger_value, let_list, let_value};
use crate::transcript::{lit_cond, lit_value, names_variant, needs_state, op_name, path_discriminant, path_leaf};
use crate::transcript::{payload_position, payload_value, plain_stmt, pushes, stmt, stmts, transcript_code};
use crate::transcript::{value_push, witness_discriminant};
use crate::transcript_values::{arg_to_runtime_raw_expr, arithmetic, empty, generate_expr_ops};
use crate::transcript_values::{generate_map_contains_block, int_literal_tokens, make_raw_list, make_unknown_field};
use crate::transcript_values::{reads, slot_text, tests_membership, types_of};
use crate::typing::is_transparent_wrapper;
use crate::vm_ops::make_cond_read;
use crate::zkir_emitter::{field_index, field_type, find_method_type, find_witness_type, lemma_ledger_position};
use crate::zkir_emitter::lemma_variant_position;
use vstd::prelude::*;

verus! {

// ---- conditions

/// The position of the variant with the given name.
fn find_variant(variants: &Vec<UserEnumVariant>, name: &str) -> (r: Option<usize>)
    ensures
        match r {
            Some(i) => i < variants@.len() && variant_position(variants.deep_view(), name@, variants@.len()) == Some(
                i as int,
            ),
            None => variant_position(variants.deep_view(), name@, variants@.len()) is None,
        },
        variants.deep_view().len() == variants@.len(),
{
    let ghost vs = variants.deep_view();
    let mut i: usize = 0;
    while i < variants.len()
        invariant
            i <= variants@.len(),
            vs == variants.deep_view(),
            vs.len() == variants@.len(),
            variant_position(vs, name@, i as nat) is None,
        decreases variants@.len() - i,
    {
        assert(vs[i as int].name == variants@[i as int].name@);
        if same(variants[i].name.as_str(), name) {
            proof {
                lemma_variant_position(vs, name@, (i + 1) as nat, vs.len());
            }
            return Some(i);
        }
        i += 1;
    }
    None
}

fn find_names_variant(cx: &ContractIR, path: &Path) -> (r: bool)
    ensures
        r == names_variant(cx@, path@),
{
    proof {
        reveal(names_variant);
    }
    let n: usize = path.segments.len();
    assert(forall|i: int| 0 <= i < n ==> path@.segments[i] == (#[trigger] path.segments@[i]).name@);
    if n == 1 {
        same(path.segments[0].name.as_str(), "Some") || same(path.segments[0].name.as_str(), "None")
    } else if n < 2 {
        false
    } else {
        match find_enum(&cx.user_enums, path.segments[n - 2].name.as_str()) {
            Some(vs) => find_variant(vs, path.segments[n - 1].name.as_str()).is_some(),
            None => false,
        }
    }
}

/// True if `e` names a variant of a user enum, or of `Option`.
fn is_enum_variant_path_expr(cx: &ContractIR, e: &ExprIR) -> (r: bool)
    ensures
        r == is_variant(cx@, e@),
{
    match e {
        ExprIR::Path { path, .. } => find_names_variant(cx, path),
        _ => false,
    }
}

fn find_payload_position(cx: &ContractIR, name: &str, variant: &str) -> (r: Option<usize>)
    ensures
        match r {
            Some(i) => payload_position(cx@, name@, variant@) == Some(i as int),
            None => payload_position(cx@, name@, variant@) is None,
        },
{
    match find_enum(&cx.user_enums, name) {
        Some(vs) => match find_variant(vs, variant) {
            Some(i) => {
                assert(vs.deep_view()[i as int] == vs@[i as int].deep_view());
                if vs[i].payload.is_some() {
                    Some(i)
                } else {
                    None
                }
            }
            None => None,
        },
        None => None,
    }
}

fn make_path_discriminant(cx: &ContractIR, path: &Path) -> (r: String)
    ensures
        r@ == path_discriminant(cx@, path@),
{
    proof {
        reveal(path_discriminant);
    }
    let n: usize = path.segments.len();
    assert(forall|i: int| 0 <= i < n ==> path@.segments[i] == (#[trigger] path.segments@[i]).name@);
    if n == 1 && same(path.segments[0].name.as_str(), "Some") {
        txt("1u64")
    } else if n == 1 && same(path.segments[0].name.as_str(), "None") {
        txt("0u64")
    } else if n < 2 {
        make_path_disc(path.text.as_str())
    } else {
        match find_payload_position(cx, path.segments[n - 2].name.as_str(), path.segments[n - 1].name.as_str()) {
            Some(i) => {
                let d = suffixed(i as u128, "u64");
                make_cast_disc(d.as_str())
            }
            None => make_path_disc(path.text.as_str()),
        }
    }
}

fn make_witness_discriminant(cx: &ContractIR, field: &str) -> (r: String)
    ensures
        r@ == witness_discriminant(cx@, field@),
{
    proof {
        reveal(witness_discriminant);
    }
    match find_witness_type(cx, field) {
        Some(t) => {
            if option_payload_type(t).is_some() {
                make_witness_option_disc(field)
            } else {
                make_witness_disc(field)
            }
        }
        None => make_witness_disc(field),
    }
}

/// The discriminant of an operand of an enum comparison.
fn runtime_enum_disc_expr(cx: &ContractIR, e: &ExprIR) -> (r: String)
    ensures
        r@ == disc(cx@, e@),
    decreases e,
{
    match e {
        ExprIR::Path { path, .. } => make_path_discriminant(cx, path),
        ExprIR::WitnessAccess { field, .. } => make_witness_discriminant(cx, field.as_str()),
        ExprIR::Var { name, .. } => make_var_disc(name.as_str()),
        ExprIR::Reference { expr, .. } => runtime_enum_disc_expr(cx, expr),
        ExprIR::MethodCall { receiver, .. } => runtime_enum_disc_expr(cx, receiver),
        _ => {
            let x = arg_to_runtime_raw_expr(e);
            make_path_disc(x.as_str())
        }
    }
}

fn make_bool_read(field: &str, method: &str, t: Option<&Ty>) -> (r: Option<String>)
    ensures
        text_opt(r) == bool_read(field@, method@, ty_ref_opt(t)),
{
    match t {
        Some(t) => match extract_cell_inner_type(t) {
            Some(inner) => {
                let s = strip_spaces(inner.text.as_str());
                if !reads(method) {
                    None
                } else if same(s.as_str(), "Boolean") {
                    let g = make_state_get(field);
                    Some(make_value_of(g.as_str()))
                } else if same(s.as_str(), "bool") {
                    Some(make_state_get(field))
                } else {
                    None
                }
            }
            None => None,
        },
        None => None,
    }
}

fn make_ledger_cond(cx: &ContractIR, field: &str, method: &str, args: &Vec<ExprIR>) -> (r: String)
    ensures
        r@ == ledger_cond(cx@, field@, method@, exprs_view(args@)),
{
    proof {
        reveal(ledger_cond);
    }
    match field_index(cx, field) {
        None => {
            let m = make_unknown_field(field);
            make_refusal_value(m.as_str(), "true")
        }
        Some(slot) => {
            let t = field_type(cx, slot);
            if tests_membership(method) {
                generate_map_contains_block(cx, slot, field, args, t, false)
            } else {
                match make_bool_read(field, method, t) {
                    Some(x) => {
                        let n = slot_text(slot);
                        make_cond_read(n.as_str(), x.as_str())
                    }
                    None => {
                        let m = cat5(
                            "nocturne: ledger method `",
                            method,
                            "` on field `",
                            field,
                            "` doesn't return bool — not usable as an `if` condition",
                        );
                        make_refusal_value(m.as_str(), "true")
                    }
                }
            }
        }
    }
}

fn relation(op: BinOp) -> (r: bool)
    ensures
        r == is_relation(op),
{
    match op {
        BinOp::Eq | BinOp::Ne | BinOp::Lt | BinOp::Gt | BinOp::Le | BinOp::Ge | BinOp::And | BinOp::Or => true,
        _ => false,
    }
}

fn show_op(op: BinOp) -> (r: &'static str)
    ensures
        r@ == op_name(op),
{
    match op {
        BinOp::Add => "BinOp::Add(Plus)",
        BinOp::Sub => "BinOp::Sub(Minus)",
        BinOp::Mul => "BinOp::Mul(Star)",
        BinOp::Div => "BinOp::Div(Slash)",
        BinOp::Rem => "BinOp::Rem(Percent)",
        BinOp::And => "BinOp::And(AndAnd)",
        BinOp::Or => "BinOp::Or(OrOr)",
        BinOp::BitXor => "BinOp::BitXor(Caret)",
        BinOp::BitAnd => "BinOp::BitAnd(And)",
        BinOp::BitOr => "BinOp::BitOr(Or)",
        BinOp::Shl => "BinOp::Shl(Shl)",
        BinOp::Shr => "BinOp::Shr(Shr)",
        BinOp::Eq => "BinOp::Eq(EqEq)",
        BinOp::Lt => "BinOp::Lt(Lt)",
        BinOp::Le => "BinOp::Le(Le)",
        BinOp::Ne => "BinOp::Ne(Ne)",
        BinOp::Ge => "BinOp::Ge(Ge)",
        BinOp::Gt => "BinOp::Gt(Gt)",
        BinOp::AddAssign => "BinOp::AddAssign(PlusEq)",
        BinOp::SubAssign => "BinOp::SubAssign(MinusEq)",
        BinOp::MulAssign => "BinOp::MulAssign(StarEq)",
        BinOp::DivAssign => "BinOp::DivAssign(SlashEq)",
        BinOp::RemAssign => "BinOp::RemAssign(PercentEq)",
        BinOp::BitXorAssign => "BinOp::BitXorAssign(CaretEq)",
        BinOp::BitAndAssign => "BinOp::BitAndAssign(AndEq)",
        BinOp::BitOrAssign => "BinOp::BitOrAssign(OrEq)",
        BinOp::ShlAssign => "BinOp::ShlAssign(ShlEq)",
        BinOp::ShrAssign => "BinOp::ShrAssign(ShrEq)",
    }
}

fn kind_of_expr(e: &ExprIR) -> (r: u8)
    ensures
        r as nat == kind_number(e@),
{
    match e {
        ExprIR::LedgerAccess { .. } => 0,
        ExprIR::WitnessAccess { .. } => 1,
        ExprIR::WitnessCall { .. } => 2,
        ExprIR::BinaryOp { .. } => 3,
        ExprIR::UnaryOp { .. } => 4,
        ExprIR::FnCall { .. } => 5,
        ExprIR::MethodCall { .. } => 6,
        ExprIR::Let { .. } => 7,
        ExprIR::If { .. } => 8,
        ExprIR::Assert { .. } => 9,
        ExprIR::Disclose { .. } => 10,
        ExprIR::Literal { .. } => 11,
        ExprIR::Var { .. } => 12,
        ExprIR::Path { .. } => 13,
        ExprIR::EnumPayload { .. } => 14,
        ExprIR::Index { .. } => 15,
        ExprIR::ArrayLit { .. } => 16,
        ExprIR::Block { .. } => 17,
        ExprIR::StructInit { .. } => 18,
        ExprIR::Return { .. } => 19,
        ExprIR::Tuple { .. } => 20,
        ExprIR::Reference { .. } => 21,
        ExprIR::Unsupported { .. } => 22,
    }
}

fn make_lit_cond(l: &LiteralIR) -> (r: String)
    ensures
        r@ == lit_cond(l@),
{
    match l {
        LiteralIR::Bool(b) => txt(show_bool(*b)),
        LiteralIR::Int(n) => {
            let low: u64 = *n as u64;
            let d = suffixed(low as u128, "u64");
            make_nonzero(d.as_str())
        }
        LiteralIR::Str(_) => txt("true"),
    }
}

fn is_equality(op: BinOp) -> (r: bool)
    ensures
        r == (op == BinOp::Eq || op == BinOp::Ne),
{
    match op {
        BinOp::Eq | BinOp::Ne => true,
        _ => false,
    }
}

/// The code that evaluates a condition.
pub(crate) fn generate_runtime_cond(cx: &ContractIR, e: &ExprIR) -> (r: String)
    ensures
        r@ == cond(cx@, e@),
    decreases e,
{
    match e {
        ExprIR::WitnessAccess { field, .. } => make_witness_value(field.as_str()),
        ExprIR::LedgerAccess { field, method, args, .. } => make_ledger_cond(cx, field.as_str(), method.as_str(), args),
        ExprIR::MethodCall { receiver, method, .. } => {
            let x = generate_runtime_cond(cx, receiver);
            if is_transparent_wrapper(method.as_str()) {
                x
            } else {
                make_bare_call(x.as_str(), method.as_str())
            }
        }
        ExprIR::Var { name, .. } => name.clone(),
        ExprIR::Path { path, .. } => path.text.clone(),
        ExprIR::Literal { value, .. } => make_lit_cond(value),
        ExprIR::BinaryOp { op, lhs, rhs, .. } => {
            if is_equality(*op) && (is_enum_variant_path_expr(cx, lhs) || is_enum_variant_path_expr(cx, rhs)) {
                let a = runtime_enum_disc_expr(cx, lhs);
                let b = runtime_enum_disc_expr(cx, rhs);
                make_infix(a.as_str(), op.text(), b.as_str())
            } else if relation(*op) {
                let a = generate_runtime_cond(cx, lhs);
                let b = generate_runtime_cond(cx, rhs);
                make_infix(a.as_str(), op.text(), b.as_str())
            } else {
                let m = cat3("nocturne: binary operator `", show_op(*op), "` not supported in `if` conditions");
                make_refusal_value(m.as_str(), "true")
            }
        }
        ExprIR::UnaryOp { op, expr, .. } => match op {
            UnOp::Deref => make_refusal_value(
                "nocturne: unary operator `UnOp::Deref(Star)` not supported in `if` conditions",
                "true",
            ),
            _ => {
                let x = generate_runtime_cond(cx, expr);
                make_prefix_paren(op.text(), x.as_str())
            }
        },
        ExprIR::Reference { expr, .. } => generate_runtime_cond(cx, expr),
        ExprIR::Disclose { value, .. } => generate_runtime_cond(cx, value),
        _ => {
            let k = number(kind_of_expr(e) as u128);
            let m = cat3("nocturne: unsupported expression in `if` condition: Discriminant(", k.as_str(), ")");
            make_refusal_value(m.as_str(), "true")
        }
    }
}

// ---- bindings

/// The position of the first ledger field with the given name.
fn find_ledger_field(cx: &ContractIR, name: &str) -> (r: Option<usize>)
    ensures
        match r {
            Some(i) => i < cx.ledger.fields@.len() && ledger_position(
                cx@.ledger.fields,
                name@,
                cx@.ledger.fields.len(),
            ) == Some(i as int),
            None => ledger_position(cx@.ledger.fields, name@, cx@.ledger.fields.len()) is None,
        },
{
    let ghost fs = cx@.ledger.fields;
    let mut i: usize = 0;
    while i < cx.ledger.fields.len()
        invariant
            i <= cx.ledger.fields@.len(),
            fs == cx@.ledger.fields,
            fs.len() == cx.ledger.fields@.len(),
            ledger_position(fs, name@, i as nat) is None,
        decreases cx.ledger.fields@.len() - i,
    {
        assert(fs[i as int].name == cx.ledger.fields@[i as int].name@);
        if same(cx.ledger.fields[i].name.as_str(), name) {
            proof {
                lemma_ledger_position(fs, name@, (i + 1) as nat, fs.len());
            }
            return Some(i);
        }
        i += 1;
    }
    None
}

/// The live value behind a ledger read.
fn let_binding_value_for_ledger_read(cx: &ContractIR, e: &ExprIR) -> (r: Option<String>)
    ensures
        text_opt(r) == ledger_value(cx@, e@),
{
    proof {
        reveal(ledger_value);
    }
    match e {
        ExprIR::LedgerAccess { field, method, args, .. } => match find_ledger_field(cx, field.as_str()) {
            None => None,
            Some(i) => {
                assert(cx@.ledger.fields[i as int] == cx.ledger.fields@[i as int].deep_view());
                let m = method.as_str();
                if same(m, "get") {
                    Some(make_state_get(field.as_str()))
                } else if same(m, "value") || same(m, "__direct_access") {
                    if extract_cell_inner_type(&cx.ledger.fields[i].ty).is_some() {
                        Some(make_state_get(field.as_str()))
                    } else {
                        Some(make_state_value(field.as_str()))
                    }
                } else if same(m, "lookup") && args.len() > 0 {
                    assert(exprs_view(args@)[0] == expr_view(args@[0]));
                    let key = arg_to_runtime_raw_expr(&args[0]);
                    Some(make_state_lookup(field.as_str(), key.as_str()))
                } else {
                    None
                }
            }
        },
        _ => None,
    }
}

fn make_payload_value(cx: &ContractIR, scrutinee: Option<String>, name: &str) -> (r: Option<String>)
    ensures
        text_opt(r) == payload_value(cx@, text_opt(scrutinee), name@),
{
    proof {
        reveal(payload_value);
    }
    match scrutinee {
        Some(s) => {
            if same(name, "Option") {
                Some(make_option_payload_code(s.as_str()))
            } else {
                match find_enum(&cx.user_enums, name) {
                    Some(vs) => {
                        let arms = make_payload_arms(name, vs);
                        Some(make_enum_match(s.as_str(), arms.as_str()))
                    }
                    None => None,
                }
            }
        }
        None => None,
    }
}

fn make_lit_value(l: &LiteralIR) -> (r: Option<String>)
    ensures
        text_opt(r) == lit_value(l@),
{
    match l {
        LiteralIR::Int(n) => Some(int_literal_tokens(*n)),
        LiteralIR::Bool(b) => Some(txt(show_bool(*b))),
        LiteralIR::Str(_) => None,
    }
}

/// The code that a `let` can bind for an expression.
pub(crate) fn let_binding_runtime_value(cx: &ContractIR, e: &ExprIR) -> (r: Option<String>)
    ensures
        text_opt(r) == let_value(cx@, e@),
    decreases e, 0nat,
{
    match e {
        ExprIR::WitnessAccess { field, .. } => Some(make_witness_clone(field.as_str())),
        ExprIR::WitnessCall { name, args, .. } => {
            let list = make_raw_list(args);
            Some(make_witness_call_code(name.as_str(), list.as_str()))
        }
        ExprIR::EnumPayload { scrutinee, enum_name, .. } => {
            let s = match let_binding_runtime_value(cx, scrutinee) {
                Some(x) => Some(x),
                None => let_binding_value_for_ledger_read(cx, scrutinee),
            };
            make_payload_value(cx, s, enum_name.as_str())
        }
        ExprIR::MethodCall { receiver, method, args, .. } => {
            let x = let_binding_runtime_value(cx, receiver);
            let list = make_let_list(cx, args);
            match (x, list) {
                (Some(x), Some(list)) => Some(make_paren_method(x.as_str(), method.as_str(), list.as_str())),
                _ => None,
            }
        }
        ExprIR::Reference { expr, .. } => match let_binding_runtime_value(cx, expr) {
            Some(x) => Some(make_paren(x.as_str())),
            None => None,
        },
        ExprIR::BinaryOp { op, lhs, rhs, .. } => {
            let a = let_binding_runtime_value(cx, lhs);
            let b = let_binding_runtime_value(cx, rhs);
            match (a, b) {
                (Some(a), Some(b)) => {
                    if arithmetic(*op) {
                        Some(make_infix(a.as_str(), op.text(), b.as_str()))
                    } else {
                        None
                    }
                }
                _ => None,
            }
        }
        ExprIR::Literal { value, .. } => make_lit_value(value),
        ExprIR::Var { name, .. } => Some(make_clone_of(name.as_str())),
        ExprIR::Index { array, index, .. } => match let_binding_runtime_value(cx, array) {
            Some(x) => {
                let i = number(*index as u128);
                Some(make_index_clone(x.as_str(), i.as_str()))
            }
            None => None,
        },
        ExprIR::If { cond: c, then_branch, else_branch, .. } => match else_branch {
            Some(eb) => {
                let a = make_last_value(cx, then_branch);
                let b = make_last_value(cx, eb);
                match (a, b) {
                    (Some(a), Some(b)) => {
                        let test = generate_runtime_cond(cx, c);
                        Some(make_if_value(test.as_str(), a.as_str(), b.as_str()))
                    }
                    _ => None,
                }
            }
            None => None,
        },
        _ => None,
    }
}

fn make_last_value(cx: &ContractIR, es: &Vec<ExprIR>) -> (r: Option<String>)
    ensures
        text_opt(r) == last_value(cx@, exprs_view(es@)),
    decreases es, 0nat,
{
    let n: usize = es.len();
    if n > 0 {
        assert(exprs_view(es@)[n - 1] == expr_view(es@[n - 1]));
        let_binding_runtime_value(cx, &es[n - 1])
    } else {
        None
    }
}

fn make_let_list(cx: &ContractIR, es: &Vec<ExprIR>) -> (r: Option<String>)
    ensures
        text_opt(r) == let_list(cx@, exprs_view(es@), es@.len()),
        exprs_view(es@).len() == es@.len(),
    decreases es, 0nat,
{
    let ghost v = exprs_view(es@);
    let mut out: Option<String> = Some(empty());
    let mut i: usize = 0;
    while i < es.len()
        invariant
            i <= es@.len(),
            v == exprs_view(es@),
            v.len() == es@.len(),
            text_opt(out) == let_list(cx@, v, i as nat),
        decreases es@.len() - i,
    {
        assert(v[i as int] == expr_view(es@[i as int]));
        let x = let_binding_runtime_value(cx, &es[i]);
        out = match (out, x) {
            (Some(a), Some(b)) => Some(put_listed(a.as_str(), i, b.as_str())),
            _ => None,
        };
        i += 1;
    }
    out
}

// ---- the private transcript

/// Whether an `if` stands anywhere in an expression.
fn find_expression_position_if(e: &ExprIR) -> (r: bool)
    ensures
        r == has_if(e@),
    decreases e, 0nat,
{
    match e {
        ExprIR::If { .. } => true,
        ExprIR::LedgerAccess { args, .. } => find_any_if(args),
        ExprIR::WitnessCall { args, .. } => find_any_if(args),
        ExprIR::FnCall { args, .. } => find_any_if(args),
        ExprIR::MethodCall { receiver, args, .. } => find_expression_position_if(receiver) || find_any_if(args),
        ExprIR::BinaryOp { lhs, rhs, .. } => find_expression_position_if(lhs) || find_expression_position_if(rhs),
        ExprIR::UnaryOp { expr, .. } => find_expression_position_if(expr),
        ExprIR::Reference { expr, .. } => find_expression_position_if(expr),
        ExprIR::Disclose { value, .. } => find_expression_position_if(value),
        ExprIR::Let { value, .. } => find_expression_position_if(value),
        ExprIR::Block { stmts, .. } => find_any_if(stmts),
        ExprIR::Assert { kind, .. } => match kind {
            AssertKind::Assert(c) => {
                assert(assert_view(*kind) is Assert);
                find_expression_position_if(c)
            }
            AssertKind::AssertEq(a, b) => {
                assert(assert_view(*kind) is AssertEq);
                find_expression_position_if(a) || find_expression_position_if(b)
            }
        },
        ExprIR::EnumPayload { scrutinee, .. } => find_expression_position_if(scrutinee),
        ExprIR::Index { array, .. } => find_expression_position_if(array),
        ExprIR::Tuple { elements, .. } => find_any_if(elements),
        ExprIR::ArrayLit { elements, .. } => find_any_if(elements),
        ExprIR::StructInit { fields, .. } => find_any_field_if(fields),
        ExprIR::Return { value, .. } => match value {
            Some(v) => find_expression_position_if(v),
            None => false,
        },
        _ => false,
    }
}

fn find_any_if(es: &Vec<ExprIR>) -> (r: bool)
    ensures
        r == any_if(exprs_view(es@), es@.len()),
        exprs_view(es@).len() == es@.len(),
    decreases es, 0nat,
{
    let mut found: bool = false;
    let mut i: usize = 0;
    while i < es.len()
        invariant
            i <= es@.len(),
            found == any_if(exprs_view(es@), i as nat),
        decreases es@.len() - i,
    {
        assert(exprs_view(es@)[i as int] == expr_view(es@[i as int]));
        let here: bool = find_expression_position_if(&es[i]);
        found = found || here;
        i += 1;
    }
    found
}

fn find_any_field_if(fs: &Vec<(String, ExprIR)>) -> (r: bool)
    ensures
        r == any_field_if(fields_view(fs@), fs@.len()),
        fields_view(fs@).len() == fs@.len(),
    decreases fs, 0nat,
{
    let mut found: bool = false;
    let mut i: usize = 0;
    while i < fs.len()
        invariant
            i <= fs@.len(),
            found == any_field_if(fields_view(fs@), i as nat),
        decreases fs@.len() - i,
    {
        let pair = &fs[i];
        assert(fields_view(fs@)[i as int] == (fs@[i as int].0@, expr_view(fs@[i as int].1)));
        let here: bool = find_expression_position_if(&pair.1);
        found = found || here;
        i += 1;
    }
    found
}

/// The leaf type of `MerkleTreePath<H, T>`.
fn extract_merkle_tree_path_leaf_type(t: &Ty) -> (r: Option<&Ty>)
    ensures
        ty_ref_opt(r) == path_leaf(t@),
{
    match find_args(t, "MerkleTreePath") {
        Some(a) => crate::containers::last_type(a),
        None => None,
    }
}

/// The push of one witness value.
fn private_value_push(cx: &ContractIR, t: &Ty, acc: &str) -> (r: String)
    ensures
        r@ == value_push(cx@, t@, acc@),
{
    proof {
        reveal(value_push);
    }
    let s = strip_spaces(t.text.as_str());
    let tc = types_of(cx);
    if strip_prefix(s.as_str(), "MerkleTreePath<").is_some() {
        let leaf = make_leaf_of(acc);
        let repr = accessor_aligned_value_expr(&tc, extract_merkle_tree_path_leaf_type(t), leaf.as_str());
        make_path_push_code(repr.as_str(), acc)
    } else {
        let repr = accessor_aligned_value_expr(&tc, Some(t), acc);
        make_value_push_code(repr.as_str())
    }
}

/// The push for one private-input event.
fn make_event_push(cx: &ContractIR, ev: &PrivateEvent) -> (r: String)
    ensures
        r@ == event_push(cx@, event_view(*ev)),
{
    proof {
        reveal(event_push);
    }
    match ev {
        PrivateEvent::FieldTouch { field, .. } => match find_witness_type(cx, field.as_str()) {
            Some(t) => {
                let acc = make_witness_clone(field.as_str());
                private_value_push(cx, t, acc.as_str())
            }
            None => {
                let m = cat3(
                    "nocturne internal error: witness field `",
                    field.as_str(),
                    "` has no registered type",
                );
                make_refusal(m.as_str())
            }
        },
        PrivateEvent::Call { name, args, .. } => match find_method_type(cx, name.as_str()) {
            Some(t) => {
                let push = private_value_push(cx, t, "__wc");
                let list = make_raw_list(args);
                make_call_push_code(name.as_str(), list.as_str(), push.as_str())
            }
            None => {
                let m = cat3(
                    "nocturne internal error: witness method `",
                    name.as_str(),
                    "` has no registered return type",
                );
                make_refusal(m.as_str())
            }
        },
    }
}

/// The pushes for the private-input events of an expression.
fn private_event_pushes(cx: &ContractIR, tracker: &mut FirstTouchTracker, e: &ExprIR) -> (r: String)
    ensures
        (final(tracker)@, r@) == pushes(cx@, old(tracker)@, e@),
{
    proof {
        reveal(pushes);
    }
    if find_expression_position_if(e) {
        return make_refusal(
            "nocturne: `if` is not supported in expression position (e.g. `self.x.set(if c { a } else { b })`) — the transcript builder would push private-transcript entries for both branches while the circuit consumes only the active branch's. Use a statement-position `if` instead: `if c { self.x.set(a); } else { self.x.set(b); }`",
        );
    }
    let ghost w = walk(cx@, tracker@, e@);
    let mut events: Vec<PrivateEvent> = Vec::new();
    walk_expr_events(cx, tracker, e, &mut events);
    assert(events_view(events@) =~= w.1);
    let mut out: String = empty();
    let mut i: usize = 0;
    while i < events.len()
        invariant
            i <= events@.len(),
            w.1 == events_view(events@),
            w.1.len() == events@.len(),
            out@ == event_pushes(cx@, w.1, i as nat),
        decreases events@.len() - i,
    {
        assert(w.1[i as int] == event_view(events@[i as int]));
        let c = make_event_push(cx, &events[i]);
        out = put_after(out.as_str(), c.as_str());
        i += 1;
    }
    out
}

// ---- statements

fn generate_plain_stmt(cx: &ContractIR, tracker: &mut FirstTouchTracker, e: &ExprIR) -> (r: String)
    ensures
        (final(tracker)@, r@) == plain_stmt(cx@, old(tracker)@, e@),
{
    let p = private_event_pushes(cx, tracker, e);
    let o = generate_expr_ops(cx, e);
    put_after(p.as_str(), o.as_str())
}

fn make_binding(cx: &ContractIR, name: &str, value: &ExprIR, code: &str) -> (r: String)
    ensures
        r@ == binding(cx@, name@, value@, code@),
{
    proof {
        reveal(binding);
    }
    let bound = match let_binding_runtime_value(cx, value) {
        Some(x) => Some(x),
        None => let_binding_value_for_ledger_read(cx, value),
    };
    match bound {
        Some(x) => {
            let l = make_let_code(name, x.as_str());
            put_after(code, l.as_str())
        }
        None => {
            let b = make_braced(code);
            make_let_code(name, b.as_str())
        }
    }
}

fn generate_assertion(cx: &ContractIR, tracker: &mut FirstTouchTracker, kind: &AssertKind) -> (r: String)
    ensures
        (final(tracker)@, r@) == assertion(cx@, old(tracker)@, assert_view(*kind)),
{
    proof {
        reveal(assertion);
    }
    match kind {
        AssertKind::Assert(c) => {
            assert(assert_view(*kind) is Assert);
            let p = private_event_pushes(cx, tracker, c);
            let x = generate_runtime_cond(cx, c);
            let a = make_assert_code(x.as_str());
            put_after(p.as_str(), a.as_str())
        }
        AssertKind::AssertEq(a, b) => {
            assert(assert_view(*kind) is AssertEq);
            let p = private_event_pushes(cx, tracker, a);
            let q = private_event_pushes(cx, tracker, b);
            let x = generate_runtime_cond(cx, a);
            let y = generate_runtime_cond(cx, b);
            let pq = put_after(p.as_str(), q.as_str());
            let c = make_assert_eq_code(x.as_str(), y.as_str());
            put_after(pq.as_str(), c.as_str())
        }
    }
}

fn is_compound(e: &ExprIR) -> (r: bool)
    ensures
        r == (e@ is If || e@ is Block),
{
    match e {
        ExprIR::If { .. } => true,
        ExprIR::Block { .. } => true,
        _ => false,
    }
}

/// The code of a statement.
fn generate_op_stmt(cx: &ContractIR, tracker: &mut FirstTouchTracker, e: &ExprIR) -> (r: String)
    ensures
        (final(tracker)@, r@) == stmt(cx@, old(tracker)@, e@),
    decreases e, 0nat,
{
    match e {
        ExprIR::If { cond: c, then_branch, else_branch, .. } => {
            let p = private_event_pushes(cx, tracker, c);
            let test = generate_runtime_cond(cx, c);
            let outer = tracker.set_branch(true);
            let a = generate_stmts(cx, tracker, then_branch);
            let yes = make_braced(a.as_str());
            match else_branch {
                Some(eb) => {
                    let b = generate_stmts(cx, tracker, eb);
                    let _ = tracker.set_branch(outer);
                    let no = make_braced(b.as_str());
                    let code = make_if_else_code(test.as_str(), yes.as_str(), no.as_str());
                    put_after(p.as_str(), code.as_str())
                }
                None => {
                    let _ = tracker.set_branch(outer);
                    let code = make_if_code(test.as_str(), yes.as_str());
                    put_after(p.as_str(), code.as_str())
                }
            }
        }
        ExprIR::Let { name, value, .. } => {
            let v = if is_compound(value) {
                generate_op_stmt(cx, tracker, value)
            } else {
                generate_plain_stmt(cx, tracker, value)
            };
            make_binding(cx, name.as_str(), value, v.as_str())
        }
        ExprIR::Block { stmts: body, .. } => generate_stmts(cx, tracker, body),
        ExprIR::Assert { kind, .. } => generate_assertion(cx, tracker, kind),
        _ => generate_plain_stmt(cx, tracker, e),
    }
}

fn generate_stmts(cx: &ContractIR, tracker: &mut FirstTouchTracker, es: &Vec<ExprIR>) -> (r: String)
    ensures
        (final(tracker)@, r@) == stmts(cx@, old(tracker)@, exprs_view(es@), es@.len()),
        exprs_view(es@).len() == es@.len(),
    decreases es, 0nat,
{
    let ghost v = exprs_view(es@);
    let ghost t = tracker@;
    let mut out: String = empty();
    let mut i: usize = 0;
    while i < es.len()
        invariant
            i <= es@.len(),
            v == exprs_view(es@),
            v.len() == es@.len(),
            t == old(tracker)@,
            (tracker@, out@) == stmts(cx@, t, v, i as nat),
        decreases es@.len() - i,
    {
        assert(v[i as int] == expr_view(es@[i as int]));
        let c = generate_op_stmt(cx, tracker, &es[i]);
        out = put_after(out.as_str(), c.as_str());
        i += 1;
    }
    out
}

// ---- functions and the module

/// Whether an expression reads the live state.
fn expr_needs_state(e: &ExprIR) -> (r: bool)
    ensures
        r == needs_state(e@),
    decreases e, 0nat,
{
    match e {
        ExprIR::LedgerAccess { method, args, .. } => {
            let m = method.as_str();
            tests_membership(m) || reads(m) || same(m, "lookup") || same(m, "check_root") || circuit_needs_state(args)
        }
        ExprIR::If { cond: c, then_branch, else_branch, .. } => {
            expr_needs_state(c) || circuit_needs_state(then_branch) || match else_branch {
                Some(eb) => circuit_needs_state(eb),
                None => false,
            }
        }
        ExprIR::Block { stmts: body, .. } => circuit_needs_state(body),
        ExprIR::Let { value, .. } => expr_needs_state(value),
        ExprIR::MethodCall { receiver, args, .. } => expr_needs_state(receiver) || circuit_needs_state(args),
        ExprIR::BinaryOp { lhs, rhs, .. } => expr_needs_state(lhs) || expr_needs_state(rhs),
        ExprIR::UnaryOp { expr, .. } => expr_needs_state(expr),
        ExprIR::Reference { expr, .. } => expr_needs_state(expr),
        ExprIR::Disclose { value, .. } => expr_needs_state(value),
        ExprIR::Assert { kind, .. } => match kind {
            AssertKind::Assert(c) => {
                assert(assert_view(*kind) is Assert);
                expr_needs_state(c)
            }
            AssertKind::AssertEq(a, b) => {
                assert(assert_view(*kind) is AssertEq);
                expr_needs_state(a) || expr_needs_state(b)
            }
        },
        ExprIR::EnumPayload { scrutinee, .. } => expr_needs_state(scrutinee),
        ExprIR::FnCall { args, .. } => circuit_needs_state(args),
        ExprIR::WitnessCall { args, .. } => circuit_needs_state(args),
        ExprIR::Tuple { elements, .. } => circuit_needs_state(elements),
        ExprIR::ArrayLit { elements, .. } => circuit_needs_state(elements),
        ExprIR::StructInit { fields, .. } => fields_need_state(fields),
        ExprIR::Index { array, .. } => expr_needs_state(array),
        ExprIR::Return { value, .. } => match value {
            Some(v) => expr_needs_state(v),
            None => false,
        },
        _ => false,
    }
}

fn circuit_needs_state(es: &Vec<ExprIR>) -> (r: bool)
    ensures
        r == any_state(exprs_view(es@), es@.len()),
        exprs_view(es@).len() == es@.len(),
    decreases es, 0nat,
{
    let mut found: bool = false;
    let mut i: usize = 0;
    while i < es.len()
        invariant
            i <= es@.len(),
            found == any_state(exprs_view(es@), i as nat),
        decreases es@.len() - i,
    {
        assert(exprs_view(es@)[i as int] == expr_view(es@[i as int]));
        let here: bool = expr_needs_state(&es[i]);
        found = found || here;
        i += 1;
    }
    found
}

fn fields_need_state(fs: &Vec<(String, ExprIR)>) -> (r: bool)
    ensures
        r == any_field_state(fields_view(fs@), fs@.len()),
        fields_view(fs@).len() == fs@.len(),
    decreases fs, 0nat,
{
    let mut found: bool = false;
    let mut i: usize = 0;
    while i < fs.len()
        invariant
            i <= fs@.len(),
            found == any_field_state(fields_view(fs@), i as nat),
        decreases fs@.len() - i,
    {
        let pair = &fs[i];
        assert(fields_view(fs@)[i as int] == (fs@[i as int].0@, expr_view(fs@[i as int].1)));
        let here: bool = expr_needs_state(&pair.1);
        found = found || here;
        i += 1;
    }
    found
}

fn make_builder_params(cx: &ContractIR, c: &CircuitIR) -> (r: String)
    ensures
        r@ == builder_params(cx@, c@),
{
    proof {
        reveal(builder_params);
    }
    let held = match &cx.witnesses {
        Some(w) => make_ref_to(w.name.as_str()),
        None => make_ref_to("()"),
    };
    let w = make_witnesses_param(held.as_str());
    let s = make_state_param(cx.ledger.name.as_str());
    if circuit_needs_state(&c.body) {
        if c.takes_witnesses {
            put_listed(s.as_str(), 1, w.as_str())
        } else {
            s
        }
    } else if c.takes_witnesses {
        w
    } else {
        empty()
    }
}

/// The transcript builder of a circuit.
fn generate_circuit_transcript_fn(cx: &ContractIR, c: &CircuitIR) -> (r: String)
    ensures
        r@ == builder(cx@, c@),
{
    proof {
        reveal(builder);
    }
    let about = cat3("Build the transcript for the `", c.name.as_str(), "` circuit.");
    let doc = quoted(about.as_str());
    let name = cat3("build_", c.name.as_str(), "_transcript");
    let params = make_builder_params(cx, c);
    let mut tracker = FirstTouchTracker::new();
    let body = generate_stmts(cx, &mut tracker, &c.body);
    let rest = put_after(
        body.as_str(),
        "TranscriptResult { ops : __nocturne_ops , private_transcript : __nocturne_private_transcript , private_transcript_outputs : __nocturne_private_transcript_outputs , }",
    );
    make_fn_code(doc.as_str(), name.as_str(), params.as_str(), rest.as_str())
}

/// The transcript builder module of a contract.
pub fn generate_transcript_module(contract: &ContractIR) -> (r: String)
    ensures
        r@ == transcript_code(contract@),
{
    let ghost cs = contract@.circuits;
    let mut fns: String = empty();
    let mut i: usize = 0;
    while i < contract.circuits.len()
        invariant
            i <= contract.circuits@.len(),
            cs == contract@.circuits,
            cs.len() == contract.circuits@.len(),
            fns@ == builders(contract@, i as nat),
        decreases contract.circuits@.len() - i,
    {
        assert(cs[i as int] == contract.circuits@[i as int].deep_view());
        let f = generate_circuit_transcript_fn(contract, &contract.circuits[i]);
        fns = put_after(fns.as_str(), f.as_str());
        i += 1;
    }
    let inner = put_after(
        "use super :: * ; use nocturne :: runtime :: onchain_vm :: result_mode :: ResultModeVerify ; use nocturne :: runtime :: onchain_vm :: ops :: { Op , Key } ; use nocturne :: runtime :: onchain_state :: state :: StateValue ; use nocturne :: runtime :: transient_crypto :: curve :: Fr ; use nocturne :: runtime :: base_crypto :: fab :: AlignedValue ; use nocturne :: runtime :: storage :: arena :: Sp ; # [doc = r\" Type alias for verify-mode operations.\"] pub type VmOp = Op < ResultModeVerify > ; # [doc = r\" The result of building a transcript for a circuit call.\"] pub struct TranscriptResult { # [doc = r\" VM operations for the transcript.\"] pub ops : Vec < VmOp > , # [doc = r\" Private transcript values (witnesses as field elements),\"] # [doc = r\" in the circuit's `PrivateInput` allocation order. This is\"] # [doc = r\" exactly the `value_only_field_repr` flattening of\"] # [doc = r\" `private_transcript_outputs` — both are built from the\"] # [doc = r\" same pushes.\"] pub private_transcript : Vec < Fr > , # [doc = r\" One `AlignedValue` per witness invocation, in IR order —\"] # [doc = r\" the shape `ContractCallPrototype::private_transcript_outputs`\"] # [doc = r\" expects (the ledger flattens it with\"] # [doc = r\" `value_only_field_repr` when constructing the proof\"] # [doc = r\" preimage; see midnight-ledger `construct.rs`).\"] pub private_transcript_outputs : Vec < AlignedValue > , }",
        fns.as_str(),
    );
    make_module_code(inner.as_str())
}

} // verus!
