//! Which expressions have a wire when they are lowered without an error.
use crate::circuit_laws::{lemma_lower, lemma_lower_all, lemma_lower_fields, lemma_lower_params, lemma_lower_run};
use crate::circuit_laws::lemma_lower_seq;
use crate::containers::{map_kv, merkle_leaf, set_inner};
use crate::contract::{ContractV, HelperV, ParamV};
use crate::emission::{counter_increment, field_slot, find_helper, ledger_write, method_type, op, renamed};
use crate::emission::{renamed_fields, renamed_list, slot_type, type_ctx, value_encoding, wires, witness_layout};
use crate::emission::{wraps_value, written_wires, EmitV};
use crate::emission_laws::{continues, grows, sound_names};
use crate::expr::ExprV;
use crate::lowering::{evaluation_order, lower, lower_all, lower_arg, lower_cell_method, lower_fields, lower_helper};
use crate::lowering::{lower_map_method, lower_merkle_method, lower_params, lower_path_root, lower_run, lower_seq};
use crate::lowering::{lower_set_method, param_names, path_argument};
use crate::private_inputs::{lemma_private_block, lemma_quiet_binary, lemma_quiet_check_root, lemma_quiet_ledger_read};
use crate::private_inputs::{lemma_quiet_map_lookup, lemma_quiet_map_member};
use crate::syntax::TyV;
use vstd::prelude::*;

verus! {

/// Whether an access of a cell or counter has a wire: a write has that of the
/// value written, if it takes one.
pub open spec fn cell_yields(cx: ContractV, slot: u8, method: Seq<char>, given: bool) -> bool {
    method == "set"@ || method == "insert"@ ==> given && written_wires(cx, slot, Some(0)).len() > 0
}

/// Whether a ledger access has a wire; `given` tells whether its first
/// argument has one.
pub open spec fn ledger_yields(cx: ContractV, field: Seq<char>, method: Seq<char>, given: bool) -> bool {
    match field_slot(cx, field) {
        None => true,
        Some(slot) => match slot_type(cx, slot) {
            None => cell_yields(cx, slot, method, given),
            Some(t) => match map_kv(t) {
                Some((_, v)) => if method == "contains"@ {
                    given
                } else if method == "lookup"@ {
                    given && (value_encoding(type_ctx(cx), v) matches Some(e) ==> e.value_field_count > 0)
                } else {
                    method != "insert"@ && method != "set"@ && method != "remove"@
                },
                None => match set_inner(t) {
                    Some(_) => if method == "contains"@ || method == "member"@ {
                        given
                    } else {
                        method != "insert"@ && method != "remove"@
                    },
                    None => if merkle_leaf(t) is Some {
                        if method == "check_root"@ {
                            given
                        } else {
                            method != "insert"@
                        }
                    } else {
                        cell_yields(cx, slot, method, given)
                    },
                },
            },
        },
    }
}

/// Whether an expression, lowered without an error, has a wire.
pub open spec fn yields(cx: ContractV, e: ExprV, depth: nat) -> bool
    decreases depth, e, 0nat,
{
    match e {
        ExprV::WitnessCall { name, .. } => method_type(cx, name) matches Some(t) ==> witness_layout(
            type_ctx(cx),
            t,
        ).len() > 0,
        ExprV::BinaryOp { lhs, rhs, .. } => yields(cx, *lhs, depth) && yields(cx, *rhs, depth),
        ExprV::UnaryOp { expr, .. } => yields(cx, *expr, depth),
        ExprV::Disclose { value, .. } => yields(cx, *value, depth),
        ExprV::Reference { expr, .. } => yields(cx, *expr, depth),
        ExprV::EnumPayload { scrutinee, .. } => yields(cx, *scrutinee, depth),
        ExprV::Index { array, .. } => yields(cx, *array, depth),
        ExprV::MethodCall { receiver, .. } => yields(cx, *receiver, depth),
        ExprV::LedgerAccess { field, method, args, .. } => ledger_yields(cx, field, method, yields_first(cx, args, depth)),
        ExprV::FnCall { name, path, args, .. } => if name == "merkle_tree_path_root"@ {
            args.len() == 0 || yields_first(cx, args, depth)
        } else {
            match find_helper(cx.helpers, name, cx.helpers.len()) {
                Some(h) => yields_all(cx, args, depth) && (depth > 0 ==> yields_last(cx, h.body, (depth - 1) as nat)),
                None => yields_all(cx, args, depth),
            }
        },
        ExprV::If { cond, .. } => yields(cx, *cond, depth),
        ExprV::Block { stmts, .. } => yields_last(cx, stmts, depth),
        ExprV::Tuple { elements, .. } => elements.len() > 0 && yields_all(cx, elements, depth),
        ExprV::ArrayLit { elements, .. } => elements.len() > 0 && yields_all(cx, elements, depth),
        ExprV::StructInit { name, fields, .. } => evaluation_order(cx, name, fields).len() > 0 && yields_fields(
            cx,
            fields,
            depth,
        ),
        ExprV::Return { value, .. } => match value {
            Some(v) => yields(cx, *v, depth),
            None => false,
        },
        ExprV::Assert { .. } => false,
        _ => true,
    }
}

pub open spec fn yields_first(cx: ContractV, es: Seq<ExprV>, depth: nat) -> bool
    decreases depth, es, 0nat,
{
    es.len() > 0 && yields(cx, es[0], depth)
}

pub open spec fn yields_last(cx: ContractV, es: Seq<ExprV>, depth: nat) -> bool
    decreases depth, es, 0nat,
{
    es.len() > 0 && yields(cx, es[es.len() - 1], depth)
}

pub open spec fn yields_all(cx: ContractV, es: Seq<ExprV>, depth: nat) -> bool
    decreases depth, es, 0nat,
{
    forall|i: int| 0 <= i < es.len() ==> yields(cx, #[trigger] es[i], depth)
}

pub open spec fn yields_fields(cx: ContractV, fs: Seq<(Seq<char>, ExprV)>, depth: nat) -> bool
    decreases depth, fs, 0nat,
{
    forall|i: int| 0 <= i < fs.len() ==> yields(cx, (#[trigger] fs[i]).1, depth)
}

/// Renaming keeps which expressions have wires.
pub(crate) proof fn lemma_renamed_yields(
    cx: ContractV,
    e: ExprV,
    subst: Map<Seq<char>, Seq<char>>,
    counter: u32,
    seq: u32,
    depth: nat,
)
    ensures
        yields(cx, renamed(e, subst, counter, seq).expr, depth) == yields(cx, e, depth),
    decreases e, 0nat,
{
    let r = renamed(e, subst, counter, seq).expr;
    match e {
        ExprV::BinaryOp { lhs, rhs, .. } => {
            let l = renamed(*lhs, subst, counter, seq);
            lemma_renamed_yields(cx, *lhs, subst, counter, seq, depth);
            lemma_renamed_yields(cx, *rhs, l.subst, counter, l.seq, depth);
        }
        ExprV::UnaryOp { expr, .. } => lemma_renamed_yields(cx, *expr, subst, counter, seq, depth),
        ExprV::Disclose { value, .. } => lemma_renamed_yields(cx, *value, subst, counter, seq, depth),
        ExprV::Reference { expr, .. } => lemma_renamed_yields(cx, *expr, subst, counter, seq, depth),
        ExprV::EnumPayload { scrutinee, .. } => lemma_renamed_yields(cx, *scrutinee, subst, counter, seq, depth),
        ExprV::Index { array, .. } => lemma_renamed_yields(cx, *array, subst, counter, seq, depth),
        ExprV::MethodCall { receiver, .. } => lemma_renamed_yields(cx, *receiver, subst, counter, seq, depth),
        ExprV::LedgerAccess { args, .. } => {
            lemma_renamed_list_yields(cx, args, args.len(), subst, counter, seq, depth);
            let b = renamed_list(args, args.len(), subst, counter, seq).exprs;
            lemma_same_yields(cx, args, b, depth);
        }
        ExprV::FnCall { args, .. } => {
            lemma_renamed_list_yields(cx, args, args.len(), subst, counter, seq, depth);
            let b = renamed_list(args, args.len(), subst, counter, seq).exprs;
            lemma_same_yields(cx, args, b, depth);
        }
        ExprV::If { cond, .. } => lemma_renamed_yields(cx, *cond, subst, counter, seq, depth),
        ExprV::Block { stmts, .. } => {
            lemma_renamed_list_yields(cx, stmts, stmts.len(), subst, counter, seq, depth);
            let b = renamed_list(stmts, stmts.len(), subst, counter, seq).exprs;
            lemma_same_yields(cx, stmts, b, depth);
        }
        ExprV::Tuple { elements, .. } => {
            lemma_renamed_list_yields(cx, elements, elements.len(), subst, counter, seq, depth);
            let b = renamed_list(elements, elements.len(), subst, counter, seq).exprs;
            lemma_same_yields(cx, elements, b, depth);
        }
        ExprV::ArrayLit { elements, .. } => {
            lemma_renamed_list_yields(cx, elements, elements.len(), subst, counter, seq, depth);
            let b = renamed_list(elements, elements.len(), subst, counter, seq).exprs;
            lemma_same_yields(cx, elements, b, depth);
        }
        ExprV::StructInit { name, fields, .. } => {
            lemma_renamed_fields_yields(cx, fields, fields.len(), subst, counter, seq, depth);
            let b = renamed_fields(fields, fields.len(), subst, counter, seq).fields;
            lemma_same_order(cx, name, fields, b);
            lemma_same_fields_yield(cx, fields, b, depth);
        }
        ExprV::Return { value, .. } => match value {
            Some(v) => lemma_renamed_yields(cx, *v, subst, counter, seq, depth),
            None => {}
        },
        _ => {}
    }
}

pub(crate) proof fn lemma_same_yields(cx: ContractV, a: Seq<ExprV>, b: Seq<ExprV>, depth: nat)
    requires
        a.len() == b.len(),
        forall|i: int| 0 <= i < a.len() ==> yields(cx, #[trigger] b[i], depth) == yields(cx, a[i], depth),
    ensures
        yields_all(cx, a, depth) == yields_all(cx, b, depth),
        yields_first(cx, a, depth) == yields_first(cx, b, depth),
        yields_last(cx, a, depth) == yields_last(cx, b, depth),
{
    if a.len() > 0 {
        assert(yields(cx, b[0], depth) == yields(cx, a[0], depth));
        assert(yields(cx, b[b.len() - 1], depth) == yields(cx, a[a.len() - 1], depth));
    }
    if yields_all(cx, b, depth) {
        assert forall|i: int| 0 <= i < a.len() implies yields(cx, #[trigger] a[i], depth) by {
            assert(yields(cx, b[i], depth));
        }
    }
}

pub(crate) proof fn lemma_same_fields_yield(
    cx: ContractV,
    a: Seq<(Seq<char>, ExprV)>,
    b: Seq<(Seq<char>, ExprV)>,
    depth: nat,
)
    requires
        a.len() == b.len(),
        forall|i: int| 0 <= i < a.len() ==> yields(cx, (#[trigger] b[i]).1, depth) == yields(cx, a[i].1, depth),
    ensures
        yields_fields(cx, a, depth) == yields_fields(cx, b, depth),
{
    if yields_fields(cx, b, depth) {
        assert forall|i: int| 0 <= i < a.len() implies yields(cx, (#[trigger] a[i]).1, depth) by {
            assert(yields(cx, b[i].1, depth));
        }
    }
}

pub(crate) proof fn lemma_same_position(
    a: Seq<(Seq<char>, ExprV)>,
    b: Seq<(Seq<char>, ExprV)>,
    name: Seq<char>,
    n: nat,
)
    requires
        a.len() == b.len(),
        forall|i: int| 0 <= i < a.len() ==> (#[trigger] b[i]).0 == a[i].0,
    ensures
        crate::lowering::field_position(a, name, n) == crate::lowering::field_position(b, name, n),
    decreases n,
{
    if n > 0 && n <= a.len() {
        lemma_same_position(a, b, name, (n - 1) as nat);
        assert(b[n - 1].0 == a[n - 1].0);
    }
}

pub(crate) proof fn lemma_same_declared(
    decl: Seq<crate::contract::StructFieldV>,
    n: nat,
    a: Seq<(Seq<char>, ExprV)>,
    b: Seq<(Seq<char>, ExprV)>,
)
    requires
        a.len() == b.len(),
        forall|i: int| 0 <= i < a.len() ==> (#[trigger] b[i]).0 == a[i].0,
    ensures
        crate::lowering::declared_order(decl, n, a) == crate::lowering::declared_order(decl, n, b),
    decreases n,
{
    if n > 0 && n <= decl.len() {
        lemma_same_declared(decl, (n - 1) as nat, a, b);
        lemma_same_position(a, b, decl[n - 1].name, a.len());
    }
}

pub(crate) proof fn lemma_same_order(
    cx: ContractV,
    name: Seq<char>,
    a: Seq<(Seq<char>, ExprV)>,
    b: Seq<(Seq<char>, ExprV)>,
)
    requires
        a.len() == b.len(),
        forall|i: int| 0 <= i < a.len() ==> (#[trigger] b[i]).0 == a[i].0,
    ensures
        evaluation_order(cx, name, a) == evaluation_order(cx, name, b),
{
    match crate::contract::lookup(cx.user_structs, name) {
        Some(decl) => lemma_same_declared(decl, decl.len(), a, b),
        None => {}
    }
}

pub(crate) proof fn lemma_renamed_list_yields(
    cx: ContractV,
    es: Seq<ExprV>,
    n: nat,
    subst: Map<Seq<char>, Seq<char>>,
    counter: u32,
    seq: u32,
    depth: nat,
)
    requires
        n <= es.len(),
    ensures
        renamed_list(es, n, subst, counter, seq).exprs.len() == n,
        forall|i: int|
            0 <= i < n ==> yields(cx, #[trigger] renamed_list(es, n, subst, counter, seq).exprs[i], depth) == yields(
                cx,
                es[i],
                depth,
            ),
    decreases es, n,
{
    if n > 0 {
        let p = renamed_list(es, (n - 1) as nat, subst, counter, seq);
        lemma_renamed_list_yields(cx, es, (n - 1) as nat, subst, counter, seq, depth);
        lemma_renamed_yields(cx, es[n - 1], p.subst, counter, p.seq, depth);
        assert forall|i: int| 0 <= i < n implies yields(
            cx,
            #[trigger] renamed_list(es, n, subst, counter, seq).exprs[i],
            depth,
        ) == yields(cx, es[i], depth) by {
            if i < n - 1 {
                assert(renamed_list(es, n, subst, counter, seq).exprs[i] == p.exprs[i]);
            }
        }
    }
}

pub(crate) proof fn lemma_renamed_fields_yields(
    cx: ContractV,
    fs: Seq<(Seq<char>, ExprV)>,
    n: nat,
    subst: Map<Seq<char>, Seq<char>>,
    counter: u32,
    seq: u32,
    depth: nat,
)
    requires
        n <= fs.len(),
    ensures
        renamed_fields(fs, n, subst, counter, seq).fields.len() == n,
        forall|i: int|
            0 <= i < n ==> (#[trigger] renamed_fields(fs, n, subst, counter, seq).fields[i]).0 == fs[i].0 && yields(
                cx,
                renamed_fields(fs, n, subst, counter, seq).fields[i].1,
                depth,
            ) == yields(cx, fs[i].1, depth),
    decreases fs, n,
{
    if n > 0 {
        let p = renamed_fields(fs, (n - 1) as nat, subst, counter, seq);
        lemma_renamed_fields_yields(cx, fs, (n - 1) as nat, subst, counter, seq, depth);
        lemma_renamed_yields(cx, fs[n - 1].1, p.subst, counter, p.seq, depth);
        assert forall|i: int| 0 <= i < n implies (#[trigger] renamed_fields(fs, n, subst, counter, seq).fields[i]).0
            == fs[i].0 && yields(cx, renamed_fields(fs, n, subst, counter, seq).fields[i].1, depth) == yields(
            cx,
            fs[i].1,
            depth,
        ) by {
            if i < n - 1 {
                assert(renamed_fields(fs, n, subst, counter, seq).fields[i] == p.fields[i]);
            }
        }
    }
}

/// What a later state without errors says of an earlier one.
pub(crate) proof fn lemma_no_errors(s: EmitV, t: EmitV)
    requires
        grows(false, s, t, 0),
        t.errors.len() == 0,
    ensures
        s.errors.len() == 0,
        sound_names(s) ==> sound_names(t),
{
    reveal(continues);
}

/// Every position of an evaluation order is one of the initializers.
pub(crate) proof fn lemma_order_in_range(cx: ContractV, name: Seq<char>, fs: Seq<(Seq<char>, ExprV)>)
    ensures
        forall|i: int|
            0 <= i < evaluation_order(cx, name, fs).len() ==> 0 <= #[trigger] evaluation_order(cx, name, fs)[i]
                < fs.len(),
{
    match crate::contract::lookup(cx.user_structs, name) {
        Some(decl) => lemma_declared_in_range(decl, decl.len(), fs),
        None => {}
    }
}

pub(crate) proof fn lemma_declared_in_range(
    decl: Seq<crate::contract::StructFieldV>,
    n: nat,
    fs: Seq<(Seq<char>, ExprV)>,
)
    ensures
        forall|i: int|
            0 <= i < crate::lowering::declared_order(decl, n, fs).len() ==> 0
                <= #[trigger] crate::lowering::declared_order(decl, n, fs)[i] < fs.len(),
    decreases n,
{
    if n > 0 && n <= decl.len() {
        lemma_declared_in_range(decl, (n - 1) as nat, fs);
        lemma_position_in_range(fs, decl[n - 1].name, fs.len());
        let p = crate::lowering::declared_order(decl, (n - 1) as nat, fs);
        let all = crate::lowering::declared_order(decl, n, fs);
        assert forall|i: int| 0 <= i < all.len() implies 0 <= #[trigger] all[i] < fs.len() by {
            if i < p.len() {
                assert(all[i] == p[i]);
            }
        }
    }
}

pub(crate) proof fn lemma_position_in_range(fs: Seq<(Seq<char>, ExprV)>, name: Seq<char>, n: nat)
    ensures
        crate::lowering::field_position(fs, name, n) matches Some(i) ==> 0 <= i < fs.len(),
    decreases n,
{
    if n > 0 && n <= fs.len() {
        lemma_position_in_range(fs, name, (n - 1) as nat);
    }
}

pub(crate) proof fn lemma_wire(cx: ContractV, s: EmitV, e: ExprV, depth: nat)
    requires
        sound_names(s),
        yields(cx, e, depth),
        lower(cx, s, e, depth).0.errors.len() == 0,
    ensures
        lower(cx, s, e, depth).1 is Some,
    decreases depth, e, 1nat,
{
    let r = lower(cx, s, e, depth).0;
    lemma_lower(false, cx, s, e, depth);
    lemma_no_errors(s, r);
    match e {
        ExprV::WitnessAccess { field, .. } => {}
        ExprV::WitnessCall { name, args, .. } => match method_type(cx, name) {
            Some(t) => {
                let layout = witness_layout(type_ctx(cx), t);
                lemma_private_block(lower_seq(cx, s, args, args.len(), depth).0, layout, layout.len());
            }
            None => {}
        },
        ExprV::EnumPayload { scrutinee, .. } => lemma_wire(cx, s, *scrutinee, depth),
        ExprV::BinaryOp { op, lhs, rhs, .. } => {
            let (a, l) = lower(cx, s, *lhs, depth);
            lemma_lower(false, cx, s, *lhs, depth);
            if l is Some {
                let (b, w) = lower(cx, a, *rhs, depth);
                lemma_lower(false, cx, a, *rhs, depth);
                if w is Some {
                    lemma_quiet_binary(b, op, l->0, w->0, crate::emission::common_width(cx, s, *lhs, *rhs));
                } else {
                    lemma_no_errors(a, b);
                    lemma_no_errors(s, a);
                    lemma_wire(cx, a, *rhs, depth);
                }
            } else {
                lemma_wire(cx, s, *lhs, depth);
            }
        }
        ExprV::UnaryOp { op, expr, .. } => {
            if lower(cx, s, *expr, depth).1 is None {
                lemma_wire(cx, s, *expr, depth);
            }
        }
        ExprV::Let { value, .. } => {}
        ExprV::If { cond, .. } => {
            if lower(cx, s, *cond, depth).1 is None {
                lemma_wire(cx, s, *cond, depth);
            }
        }
        ExprV::LedgerAccess { field, method, args, .. } => lemma_ledger_wire(cx, s, e, depth),
        ExprV::FnCall { .. } => lemma_call_wire(cx, s, e, depth),
        ExprV::Disclose { value, .. } => lemma_wire(cx, s, *value, depth),
        ExprV::MethodCall { receiver, args, .. } => {
            let a = lower(cx, s, *receiver, depth).0;
            lemma_lower_seq(false, cx, a, args, args.len(), depth);
            lemma_no_errors(a, r);
            lemma_wire(cx, s, *receiver, depth);
        }
        ExprV::Block { stmts, .. } => lemma_seq_wire(cx, s, stmts, depth),
        ExprV::Return { value, .. } => match value {
            Some(v) => {
                if !s.in_helper {
                    lemma_wire(cx, s, *v, depth);
                }
            }
            None => {}
        },
        ExprV::Tuple { elements, .. } => {
            assert(yields_all(cx, elements, depth));
            lemma_run_wire(cx, s, elements, elements.len(), "tuple literal"@, depth);
        }
        ExprV::ArrayLit { elements, .. } => {
            assert(yields_all(cx, elements, depth));
            lemma_run_wire(cx, s, elements, elements.len(), "array literal"@, depth);
        }
        ExprV::Reference { expr, .. } => lemma_wire(cx, s, *expr, depth),
        ExprV::Index { array, .. } => {
            if lower(cx, s, *array, depth).1 is None {
                lemma_wire(cx, s, *array, depth);
            }
        }
        ExprV::StructInit { name, fields, .. } => {
            let order = evaluation_order(cx, name, fields);
            lemma_order_in_range(cx, name, fields);
            assert(yields_fields(cx, fields, depth));
            lemma_fields_wire(cx, s, fields, order, order.len(), depth);
        }
        _ => {}
    }
}

pub(crate) proof fn lemma_seq_wire(cx: ContractV, s: EmitV, es: Seq<ExprV>, depth: nat)
    requires
        sound_names(s),
        yields_last(cx, es, depth),
        lower_seq(cx, s, es, es.len(), depth).0.errors.len() == 0,
    ensures
        lower_seq(cx, s, es, es.len(), depth).1 is Some,
    decreases depth, es, 1nat,
{
    let a = lower_seq(cx, s, es, (es.len() - 1) as nat, depth).0;
    lemma_lower_seq(false, cx, s, es, (es.len() - 1) as nat, depth);
    lemma_lower(false, cx, a, es[es.len() - 1], depth);
    lemma_no_errors(a, lower_seq(cx, s, es, es.len(), depth).0);
    lemma_no_errors(s, a);
    lemma_wire(cx, a, es[es.len() - 1], depth);
}

pub(crate) proof fn lemma_all_wires(cx: ContractV, s: EmitV, es: Seq<ExprV>, n: nat, depth: nat)
    requires
        sound_names(s),
        n <= es.len(),
        forall|i: int| 0 <= i < n ==> yields(cx, #[trigger] es[i], depth),
        lower_all(cx, s, es, n, depth).0.errors.len() == 0,
    ensures
        lower_all(cx, s, es, n, depth).1 is Some,
    decreases depth, es, n,
{
    if n > 0 {
        let (a, ws) = lower_all(cx, s, es, (n - 1) as nat, depth);
        lemma_lower_all(false, cx, s, es, (n - 1) as nat, depth);
        lemma_lower(false, cx, a, es[n - 1], depth);
        if ws is Some {
            lemma_no_errors(a, lower(cx, a, es[n - 1], depth).0);
            lemma_no_errors(s, a);
            lemma_wire(cx, a, es[n - 1], depth);
        } else {
            lemma_all_wires(cx, s, es, (n - 1) as nat, depth);
        }
    }
}

pub(crate) proof fn lemma_run_wire(cx: ContractV, s: EmitV, es: Seq<ExprV>, n: nat, what: Seq<char>, depth: nat)
    requires
        sound_names(s),
        n <= es.len(),
        forall|i: int| 0 <= i < n ==> yields(cx, #[trigger] es[i], depth),
        lower_run(cx, s, es, n, what, depth).0.errors.len() == 0,
    ensures
        lower_run(cx, s, es, n, what, depth).1 is Some,
        n > 0 ==> lower_run(cx, s, es, n, what, depth).1->0 is Some,
    decreases depth, es, n,
{
    if n > 0 {
        let (a, run) = lower_run(cx, s, es, (n - 1) as nat, what, depth);
        lemma_lower_run(false, cx, s, es, (n - 1) as nat, what, depth);
        lemma_lower(false, cx, a, es[n - 1], depth);
        if run is Some {
            lemma_no_errors(a, lower(cx, a, es[n - 1], depth).0);
            lemma_no_errors(s, a);
            lemma_wire(cx, a, es[n - 1], depth);
        } else {
            lemma_run_wire(cx, s, es, (n - 1) as nat, what, depth);
        }
    }
}

pub(crate) proof fn lemma_fields_wire(
    cx: ContractV,
    s: EmitV,
    fs: Seq<(Seq<char>, ExprV)>,
    order: Seq<int>,
    n: nat,
    depth: nat,
)
    requires
        sound_names(s),
        n <= order.len(),
        forall|i: int| 0 <= i < order.len() ==> 0 <= #[trigger] order[i] < fs.len(),
        forall|i: int| 0 <= i < n ==> yields(cx, fs[#[trigger] order[i]].1, depth),
        lower_fields(cx, s, fs, order, n, depth).0.errors.len() == 0,
    ensures
        lower_fields(cx, s, fs, order, n, depth).1 is Some,
        n > 0 ==> lower_fields(cx, s, fs, order, n, depth).1->0 is Some,
    decreases depth, fs, n,
{
    if n > 0 {
        let (a, run) = lower_fields(cx, s, fs, order, (n - 1) as nat, depth);
        lemma_lower_fields(false, cx, s, fs, order, (n - 1) as nat, depth);
        let e = fs[order[n - 1]].1;
        lemma_lower(false, cx, a, e, depth);
        if run is Some {
            lemma_no_errors(a, lower(cx, a, e, depth).0);
            lemma_no_errors(s, a);
            lemma_wire(cx, a, e, depth);
        } else {
            lemma_fields_wire(cx, s, fs, order, (n - 1) as nat, depth);
        }
    }
}

pub(crate) proof fn lemma_arg_wire(cx: ContractV, s: EmitV, args: Seq<ExprV>, depth: nat)
    requires
        sound_names(s),
        yields_first(cx, args, depth),
        lower_arg(cx, s, args, 0, depth).0.errors.len() == 0,
    ensures
        lower_arg(cx, s, args, 0, depth).1 is Some,
    decreases depth, args, 1nat,
{
    lemma_wire(cx, s, args[0], depth);
}

pub(crate) proof fn lemma_ledger_wire(cx: ContractV, s: EmitV, e: ExprV, depth: nat)
    requires
        e is LedgerAccess,
        sound_names(s),
        yields(cx, e, depth),
        lower(cx, s, e, depth).0.errors.len() == 0,
    ensures
        lower(cx, s, e, depth).1 is Some,
    decreases depth, e, 0nat,
{
    match e {
        ExprV::LedgerAccess { field, method, args, .. } => match field_slot(cx, field) {
            None => {}
            Some(slot) => {
                reveal_strlit("contains");
                reveal_strlit("lookup");
                reveal_strlit("insert");
                reveal_strlit("set");
                reveal_strlit("remove");
                assert("lookup"@[0] == 'l' && "insert"@[0] == 'i' && "remove"@[0] == 'r');
                match slot_type(cx, slot) {
                None => lemma_cell_wire(cx, s, slot, None, field, method, args, depth),
                Some(t) => match map_kv(t) {
                    Some((k, v)) => lemma_map_wire(cx, s, slot, k, v, method, args, depth),
                    None => match set_inner(t) {
                        Some(elem) => lemma_set_wire(cx, s, slot, elem, method, args, depth),
                        None => if merkle_leaf(t) is Some {
                            lemma_tree_wire(cx, s, slot, method, args, depth);
                        } else {
                            lemma_cell_wire(cx, s, slot, Some(t), field, method, args, depth);
                        },
                    },
                },
                }
            }
        },
        _ => {}
    }
}

pub(crate) proof fn lemma_cell_wire(
    cx: ContractV,
    s: EmitV,
    slot: u8,
    ty: Option<TyV>,
    field: Seq<char>,
    method: Seq<char>,
    args: Seq<ExprV>,
    depth: nat,
)
    requires
        sound_names(s),
        cell_yields(cx, slot, method, yields_first(cx, args, depth)),
        lower_cell_method(cx, s, slot, ty, field, method, args, depth).0.errors.len() == 0,
    ensures
        lower_cell_method(cx, s, slot, ty, field, method, args, depth).1 is Some,
    decreases depth, args, 2nat,
{
    if method == "set"@ || method == "insert"@ {
        reveal_strlit("set");
        reveal_strlit("insert");
        reveal_strlit("get");
        reveal_strlit("value");
        reveal_strlit("__direct_access");
        reveal_strlit("increment");
        reveal_strlit("increment_by");
        assert("set"@[0] == 's' && "get"@[0] == 'g');
        assert("set"@.len() == 3 && "insert"@.len() == 6 && "value"@.len() == 5);
        assert("__direct_access"@.len() == 15 && "increment"@.len() == 9 && "increment_by"@.len() == 12);
        let (a, first) = lower_arg(cx, s, args, 0, depth);
        let vars = written_wires(cx, slot, first);
        crate::emission_laws::lemma_ledger_write(false, cx, a, slot, vars);
        assert(a.errors.len() <= ledger_write(cx, a, slot, vars).0.errors.len()) by {
            reveal(continues);
        }
        lemma_arg_wire(cx, s, args, depth);
        assert(vars.len() == written_wires(cx, slot, Some(0)).len());
        reveal(ledger_write);
    }
    reveal(counter_increment);
    lemma_quiet_ledger_read(
        cx,
        s,
        slot,
        match ty {
            Some(t) => crate::emission::read_type(t),
            None => None,
        },
    );
}

pub(crate) proof fn lemma_map_wire(
    cx: ContractV,
    s: EmitV,
    slot: u8,
    k: TyV,
    v: TyV,
    method: Seq<char>,
    args: Seq<ExprV>,
    depth: nat,
)
    requires
        sound_names(s),
        method == "contains"@ || method == "lookup"@ ==> yields_first(cx, args, depth),
        method == "lookup"@ ==> (value_encoding(type_ctx(cx), v) matches Some(e) ==> e.value_field_count > 0),
        method == "contains"@ || (method != "insert"@ && method != "set"@ && method != "remove"@),
        lower_map_method(cx, s, slot, k, v, method, args, depth).0.errors.len() == 0,
    ensures
        lower_map_method(cx, s, slot, k, v, method, args, depth).1 is Some,
    decreases depth, args, 2nat,
{
    if value_encoding(type_ctx(cx), k) is Some && (method == "contains"@ || method == "lookup"@) {
        let ke = value_encoding(type_ctx(cx), k)->0;
        let (a, first) = lower_arg(cx, s, args, 0, depth);
        if first is None {
            if method == "contains"@ || value_encoding(type_ctx(cx), v) is Some {
                lemma_arg_wire(cx, s, args, depth);
            }
        } else {
            let key = wires(first->0, ke.value_field_count);
            lemma_quiet_map_member(a, slot, key, ke);
            if value_encoding(type_ctx(cx), v) is Some {
                lemma_quiet_map_lookup(cx, a, slot, key, ke, v, value_encoding(type_ctx(cx), v)->0);
            }
        }
    }
}

pub(crate) proof fn lemma_set_wire(
    cx: ContractV,
    s: EmitV,
    slot: u8,
    elem: TyV,
    method: Seq<char>,
    args: Seq<ExprV>,
    depth: nat,
)
    requires
        sound_names(s),
        method == "contains"@ || method == "member"@ ==> yields_first(cx, args, depth),
        method == "contains"@ || method == "member"@ || (method != "insert"@ && method != "remove"@),
        lower_set_method(cx, s, slot, elem, method, args, depth).0.errors.len() == 0,
    ensures
        lower_set_method(cx, s, slot, elem, method, args, depth).1 is Some,
    decreases depth, args, 2nat,
{
    if value_encoding(type_ctx(cx), elem) is Some && (method == "contains"@ || method == "member"@) {
        let ke = value_encoding(type_ctx(cx), elem)->0;
        let (a, first) = lower_arg(cx, s, args, 0, depth);
        if first is None {
            lemma_arg_wire(cx, s, args, depth);
        } else {
            lemma_quiet_map_member(a, slot, wires(first->0, ke.value_field_count), ke);
        }
    }
}

pub(crate) proof fn lemma_tree_wire(
    cx: ContractV,
    s: EmitV,
    slot: u8,
    method: Seq<char>,
    args: Seq<ExprV>,
    depth: nat,
)
    requires
        sound_names(s),
        method == "check_root"@ ==> yields_first(cx, args, depth),
        method == "check_root"@ || method != "insert"@,
        lower_merkle_method(cx, s, slot, method, args, depth).0.errors.len() == 0,
    ensures
        lower_merkle_method(cx, s, slot, method, args, depth).1 is Some,
    decreases depth, args, 2nat,
{
    if method == "check_root"@ {
        let (a, first) = lower_arg(cx, s, args, 0, depth);
        if first is None {
            lemma_arg_wire(cx, s, args, depth);
        } else {
            lemma_quiet_check_root(a, slot, first->0);
        }
    }
}

pub(crate) proof fn lemma_call_wire(cx: ContractV, s: EmitV, e: ExprV, depth: nat)
    requires
        e is FnCall,
        sound_names(s),
        yields(cx, e, depth),
        lower(cx, s, e, depth).0.errors.len() == 0,
    ensures
        lower(cx, s, e, depth).1 is Some,
    decreases depth, e, 0nat,
{
    match e {
        ExprV::FnCall { name, path, args, .. } => {
            if name == "merkle_tree_path_root"@ {
                assert(lower(cx, s, e, depth) == lower_path_root(cx, s, args, depth));
                if args.len() > 0 && path_argument(cx, args[0]) is Ok && lower(cx, s, args[0], depth).1 is None {
                    assert(yields_first(cx, args, depth));
                    lemma_wire(cx, s, args[0], depth);
                }
            } else {
                match find_helper(cx.helpers, name, cx.helpers.len()) {
                    Some(h) => lemma_helper_wire(cx, s, h, args, depth),
                    None => {
                        assert(yields_all(cx, args, depth));
                        if args.len() == 1 && wraps_value(path) {
                            lemma_wire(cx, s, args[0], depth);
                        } else if name == "persistent_hash"@ || name == "transient_hash"@ {
                            let (a, inputs) = lower_all(cx, s, args, args.len(), depth);
                            if inputs is None {
                                lemma_all_wires(cx, s, args, args.len(), depth);
                            }
                        }
                    }
                }
            }
        }
        _ => {}
    }
}

pub(crate) proof fn lemma_params_wire(
    cx: ContractV,
    s: EmitV,
    params: Seq<ParamV>,
    args: Seq<ExprV>,
    n: nat,
    counter: u32,
    depth: nat,
)
    requires
        sound_names(s),
        n <= args.len(),
        forall|i: int| 0 <= i < n ==> yields(cx, #[trigger] args[i], depth),
        lower_params(cx, s, params, args, n, counter, depth).0.errors.len() == 0,
    ensures
        lower_params(cx, s, params, args, n, counter, depth).1,
    decreases depth, args, n,
{
    if n > 0 {
        let (a, good) = lower_params(cx, s, params, args, (n - 1) as nat, counter, depth);
        lemma_lower_params(false, cx, s, params, args, (n - 1) as nat, counter, depth);
        lemma_lower(false, cx, a, args[n - 1], depth);
        if good {
            lemma_no_errors(a, lower(cx, a, args[n - 1], depth).0);
            lemma_no_errors(s, a);
            lemma_wire(cx, a, args[n - 1], depth);
        } else {
            lemma_params_wire(cx, s, params, args, (n - 1) as nat, counter, depth);
        }
    }
}

pub(crate) proof fn lemma_helper_wire(cx: ContractV, s: EmitV, h: HelperV, args: Seq<ExprV>, depth: nat)
    requires
        sound_names(s),
        yields_all(cx, args, depth),
        depth > 0 ==> yields_last(cx, h.body, (depth - 1) as nat),
        lower_helper(cx, s, h, args, depth).0.errors.len() == 0,
    ensures
        lower_helper(cx, s, h, args, depth).1 is Some,
    decreases depth, args, args.len() + 1,
{
    if h.params.len() == args.len() {
        let counter = s.helper_counter;
        let a = EmitV { helper_counter: counter.wrapping_add(1), ..s };
        let (b, good) = lower_params(cx, a, h.params, args, args.len(), counter, depth);
        lemma_lower_params(false, cx, a, h.params, args, args.len(), counter, depth);
        if !good {
            lemma_params_wire(cx, a, h.params, args, args.len(), counter, depth);
        } else if depth > 0 {
            let body = renamed_list(
                h.body,
                h.body.len(),
                param_names(h.params, h.params.len(), counter),
                counter,
                h.params.len() as u32,
            ).exprs;
            let inner = EmitV { in_helper: true, ..b };
            let names = param_names(h.params, h.params.len(), counter);
            lemma_renamed_list_yields(
                cx,
                h.body,
                h.body.len(),
                names,
                counter,
                h.params.len() as u32,
                (depth - 1) as nat,
            );
            assert(yields(cx, body[body.len() - 1], (depth - 1) as nat) == yields(
                cx,
                h.body[h.body.len() - 1],
                (depth - 1) as nat,
            ));
            lemma_lower_seq(false, cx, inner, body, body.len(), (depth - 1) as nat);
            lemma_no_errors(inner, lower_seq(cx, inner, body, body.len(), (depth - 1) as nat).0);
            lemma_no_errors(a, b);
            lemma_seq_wire(cx, inner, body, (depth - 1) as nat);
        }
    }
}

} // verus!
