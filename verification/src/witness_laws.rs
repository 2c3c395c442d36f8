//! The private inputs of a circuit against the walk over its body: both sides
//! of the private transcript draw the same values in the same order.
use crate::circuit_laws::{guarded_start, instructions_of, lemma_lower, lemma_lower_all, lemma_lower_branch};
use crate::circuit_laws::{lemma_lower_fields, lemma_lower_params, lemma_lower_run, lemma_lower_seq};
use crate::containers::{map_kv, merkle_leaf, set_inner};
use crate::contract::{CircuitV, ContractV, HelperV, ParamV};
use crate::emission::{common_width, emit, field_slot, find_helper, fresh_name, leaf_hash, ledger_write, map_insert};
use crate::emission::{map_lookup, map_member, map_remove, merkle_check_root, merkle_insert, method_type, path_fold};
use crate::emission::{private_block, put, renamed_list, set_insert, slot_type, start_state, type_ctx, value_encoding};
use crate::emission::{wires, witness_layout, witness_type, wraps_value, written_wires, EmitV};
use crate::emission_laws::{continues, grows, sound_names};
use crate::expr::{AssertV, BinOp, ExprV, UnOp};
use crate::lowering::{binary, circuit_prologue, close_branch, else_guard, enter_branch, evaluation_order};
use crate::lowering::{increment_amount, leave_if, lower, lower_all, lower_arg, lower_branch, lower_cell_method};
use crate::lowering::{lower_fields, lower_helper, lower_map_method, lower_merkle_method, lower_params};
use crate::lowering::{lower_path_root, lower_run, lower_seq, lower_set_method, lowered_circuit, param_names};
use crate::lowering::{path_argument, path_root, slot_leaf_len, then_guard, unary, with_constraints, with_params};
use crate::lowering::{witness_key, witness_read};
use crate::nocturne_type::{EncodingV, FrLayout};
use crate::private_events::{fresh_tracker, touch_events, touched, walk, walk_fields, walk_list, was_touched, EventV};
use crate::private_events::TrackerV;
use crate::private_inputs::{lemma_private_block, lemma_quiet_binary, lemma_quiet_check_root};
use crate::private_inputs::{lemma_quiet_counter_increment, lemma_quiet_ledger_read, lemma_quiet_ledger_write};
use crate::private_inputs::{lemma_quiet_map_insert, lemma_quiet_map_lookup, lemma_quiet_map_member};
use crate::private_inputs::{lemma_quiet_map_remove, lemma_quiet_merkle_insert, lemma_quiet_path_root};
use crate::private_inputs::{lemma_quiet_set_insert, private_inputs, quiet};
use crate::syntax::TyV;
use crate::witness_free::{all_witness_free, fields_witness_free, lemma_fresh_is_plain, lemma_helper_body};
use crate::witness_free::{lemma_keys_differ, lemma_renamed_list_free, lemma_walk_fields_free, lemma_walk_free};
use crate::witness_free::{lemma_walk_list_free, ordinary_name, witness_free, witness_free_helpers};
use crate::yields::{lemma_all_wires, lemma_arg_wire, lemma_fields_wire, lemma_no_errors, lemma_order_in_range};
use crate::yields::{lemma_params_wire, lemma_run_wire, lemma_wire, yields, yields_first};
use vstd::prelude::*;

verus! {

// ---- the events of a walk as private inputs

/// How many private inputs an event draws.
pub open spec fn event_width(cx: ContractV, ev: EventV) -> nat {
    let ty = match ev.args {
        None => witness_type(cx, ev.name),
        Some(_) => method_type(cx, ev.name),
    };
    match ty {
        Some(t) => witness_layout(type_ctx(cx), t).len(),
        None => 0,
    }
}

/// The private inputs that a list of events draws, each by whether it is
/// guarded.
pub open spec fn expanded(cx: ContractV, evs: Seq<EventV>) -> Seq<bool>
    decreases evs.len(),
{
    if evs.len() == 0 {
        seq![]
    } else {
        expanded(cx, evs.drop_last()) + Seq::new(event_width(cx, evs.last()), |i: int| evs.last().in_branch)
    }
}

proof fn lemma_expanded(cx: ContractV, a: Seq<EventV>, b: Seq<EventV>)
    ensures
        expanded(cx, a + b) =~= expanded(cx, a) + expanded(cx, b),
    decreases b.len(),
{
    if b.len() == 0 {
        assert(a + b =~= a);
    } else {
        lemma_expanded(cx, a, b.drop_last());
        assert((a + b).drop_last() =~= a + b.drop_last());
        assert((a + b).last() == b.last());
    }
}

proof fn lemma_one_event(cx: ContractV, ev: EventV)
    ensures
        expanded(cx, seq![ev]) =~= Seq::new(event_width(cx, ev), |i: int| ev.in_branch),
{
    assert(seq![ev].drop_last() =~= Seq::<EventV>::empty());
    assert(expanded(cx, Seq::<EventV>::empty()) =~= Seq::<bool>::empty());
}

// ---- an emitter state against a tracker

/// The emitter remembers the witness fields that the tracker does.
#[verifier::opaque]
pub open spec fn mirrors(s: EmitV, t: TrackerV) -> bool {
    &&& forall|f: Seq<char>| s.variables.contains_key(#[trigger] witness_key(f)) <==> t.seen.contains(f)
    &&& s.guarded_witness_fields =~= t.guarded
    &&& s.in_conditional == t.in_branch
}

/// The private inputs between `s` and `r` are those of the events.
#[verifier::opaque]
pub open spec fn draws(cx: ContractV, s: EmitV, r: EmitV, evs: Seq<EventV>) -> bool {
    private_inputs(r.instructions) =~= private_inputs(s.instructions) + expanded(cx, evs)
}

/// What lowering from `s` to `r` and a walk with the outcome `w` agree on.
pub open spec fn follows(cx: ContractV, s: EmitV, r: EmitV, w: (TrackerV, Seq<EventV>)) -> bool {
    mirrors(r, w.0) && draws(cx, s, r, w.1)
}

proof fn lemma_still(cx: ContractV, s: EmitV, r: EmitV, t: TrackerV)
    requires
        mirrors(s, t),
        quiet(s, r),
    ensures
        follows(cx, s, r, (t, Seq::<EventV>::empty())),
{
    reveal(mirrors);
    reveal(draws);
}

proof fn lemma_on(cx: ContractV, s: EmitV, a: EmitV, r: EmitV, w: (TrackerV, Seq<EventV>))
    requires
        follows(cx, s, a, w),
        quiet(a, r),
    ensures
        follows(cx, s, r, w),
{
    reveal(mirrors);
    reveal(draws);
}

proof fn lemma_both(
    cx: ContractV,
    s: EmitV,
    a: EmitV,
    b: EmitV,
    v: (TrackerV, Seq<EventV>),
    w: (TrackerV, Seq<EventV>),
)
    requires
        follows(cx, s, a, v),
        follows(cx, a, b, w),
    ensures
        follows(cx, s, b, (w.0, v.1 + w.1)),
{
    reveal(draws);
    lemma_expanded(cx, v.1, w.1);
}

/// Binding a plain name changes nothing for witnesses.
proof fn lemma_bind(cx: ContractV, s: EmitV, a: EmitV, r: EmitV, w: (TrackerV, Seq<EventV>), name: Seq<char>)
    requires
        follows(cx, s, a, w),
        ordinary_name(name),
        forall|n: Seq<char>| n != name ==> #[trigger] r.variables.contains_key(n) == a.variables.contains_key(n),
        r.guarded_witness_fields == a.guarded_witness_fields,
        r.in_conditional == a.in_conditional,
        r.instructions == a.instructions,
    ensures
        follows(cx, s, r, w),
{
    reveal(mirrors);
    reveal(draws);
}

proof fn lemma_read(cx: ContractV, s: EmitV, t: TrackerV, field: Seq<char>)
    requires
        mirrors(s, t),
        witness_read(cx, s, field).0.errors.len() == 0,
    ensures
        follows(cx, s, witness_read(cx, s, field).0, (touched(t, field), touch_events(t, field))),
{
    reveal(mirrors);
    reveal(draws);
    let r = witness_read(cx, s, field).0;
    assert(s.variables.contains_key(witness_key(field)) <==> t.seen.contains(field));
    if !was_touched(t, field) && witness_type(cx, field) is Some {
        let layout = witness_layout(type_ctx(cx), witness_type(cx, field)->0);
        lemma_private_block(s, layout, layout.len());
        let ev = EventV { name: field, args: None, in_branch: t.in_branch };
        lemma_one_event(cx, ev);
        assert(private_inputs(r.instructions) =~= private_inputs(s.instructions) + expanded(cx, seq![ev]));
        assert forall|f: Seq<char>| r.variables.contains_key(#[trigger] witness_key(f)) <==> touched(
            t,
            field,
        ).seen.contains(f) by {
            lemma_keys_differ(f, field);
            assert(s.variables.contains_key(witness_key(f)) <==> t.seen.contains(f));
        }
    }
}

proof fn lemma_call_event(cx: ContractV, a: EmitV, r: EmitV, t: TrackerV, name: Seq<char>, args: Seq<ExprV>)
    requires
        mirrors(a, t),
        method_type(cx, name) is Some,
        r == private_block(
            a,
            witness_layout(type_ctx(cx), method_type(cx, name)->0),
            witness_layout(type_ctx(cx), method_type(cx, name)->0).len(),
        ).0,
    ensures
        follows(cx, a, r, (t, seq![EventV { name, args: Some(args), in_branch: t.in_branch }])),
{
    reveal(mirrors);
    reveal(draws);
    let layout = witness_layout(type_ctx(cx), method_type(cx, name)->0);
    lemma_private_block(a, layout, layout.len());
    lemma_one_event(cx, EventV { name, args: Some(args), in_branch: t.in_branch });
}

// ---- expressions on which both agree

/// How many arguments the emitter evaluates of a ledger method.
pub open spec fn evaluated(cx: ContractV, field: Seq<char>, method: Seq<char>) -> nat {
    let of_map = match field_slot(cx, field) {
        Some(slot) => match slot_type(cx, slot) {
            Some(t) => map_kv(t) is Some,
            None => false,
        },
        None => false,
    };
    if method == "get"@ || method == "value"@ || method == "__direct_access"@ {
        0
    } else if of_map && (method == "insert"@ || method == "set"@) {
        2
    } else {
        1
    }
}

/// Behind the first `k` operands none draws a witness value.
pub open spec fn free_behind(es: Seq<ExprV>, k: nat, plain: bool) -> bool {
    forall|j: int| k <= j < es.len() ==> witness_free(#[trigger] es[j], plain)
}

/// Behind an operand without a wire none draws a witness value.
pub open spec fn in_turn(cx: ContractV, es: Seq<ExprV>, depth: nat, plain: bool) -> bool {
    forall|i: int, j: int|
        0 <= i < j < es.len() ==> yields(cx, #[trigger] es[i], depth) || witness_free(#[trigger] es[j], plain)
}

/// The same of a struct's fields in the order of their evaluation.
pub open spec fn fields_in_turn(
    cx: ContractV,
    fs: Seq<(Seq<char>, ExprV)>,
    order: Seq<int>,
    depth: nat,
    plain: bool,
) -> bool {
    forall|i: int, j: int|
        0 <= i < j < order.len() ==> yields(cx, fs[#[trigger] order[i]].1, depth) || witness_free(
            fs[#[trigger] order[j]].1,
            plain,
        )
}

/// The emitter evaluates all that a walk visits: no operand in front of
/// another is without a wire, unless what follows draws no witness value.
/// With `plain`, every name that is bound is an ordinary one.
pub open spec fn regular(cx: ContractV, e: ExprV, depth: nat, plain: bool) -> bool
    decreases e, 0nat,
{
    witness_free(e, plain) || match e {
        ExprV::LedgerAccess { field, method, args, .. } => all_regular(cx, args, depth, plain) && free_behind(
            args,
            evaluated(cx, field, method),
            plain,
        ) && in_turn(cx, args, depth, plain),
        ExprV::WitnessCall { args, .. } => all_regular(cx, args, depth, plain),
        ExprV::BinaryOp { lhs, rhs, .. } => regular(cx, *lhs, depth, plain) && regular(cx, *rhs, depth, plain) && (yields(
            cx,
            *lhs,
            depth,
        ) || witness_free(*rhs, plain)),
        ExprV::UnaryOp { expr, .. } => regular(cx, *expr, depth, plain),
        ExprV::Reference { expr, .. } => regular(cx, *expr, depth, plain),
        ExprV::Disclose { value, .. } => regular(cx, *value, depth, plain),
        ExprV::EnumPayload { scrutinee, .. } => regular(cx, *scrutinee, depth, plain),
        ExprV::Index { array, .. } => regular(cx, *array, depth, plain),
        ExprV::MethodCall { receiver, args, .. } => regular(cx, *receiver, depth, plain) && all_regular(cx, args, depth, plain),
        ExprV::Let { name, value, .. } => regular(cx, *value, depth, plain) && (plain ==> ordinary_name(name)),
        ExprV::Block { stmts, .. } => all_regular(cx, stmts, depth, plain),
        ExprV::Assert { kind, .. } => match kind {
            AssertV::Assert(c) => regular(cx, *c, depth, plain),
            AssertV::AssertEq(l, r) => regular(cx, *l, depth, plain) && regular(cx, *r, depth, plain) && (yields(cx, *l, depth)
                || witness_free(*r, plain)),
        },
        ExprV::If { cond, then_branch, else_branch, .. } => {
            &&& regular(cx, *cond, depth, plain)
            &&& all_regular(cx, then_branch, depth, plain)
            &&& match else_branch {
                Some(eb) => all_regular(cx, eb, depth, plain),
                None => true,
            }
            &&& yields(cx, *cond, depth) || (all_witness_free(then_branch, plain) && match else_branch {
                Some(eb) => all_witness_free(eb, plain),
                None => true,
            })
        }
        ExprV::FnCall { name, args, .. } => all_regular(cx, args, depth, plain) && if name == "merkle_tree_path_root"@ {
            free_behind(args, 1, plain)
        } else {
            in_turn(cx, args, depth, plain)
        },
        ExprV::Tuple { elements, .. } => all_regular(cx, elements, depth, plain) && in_turn(
            cx,
            elements,
            depth,
            plain,
        ),
        ExprV::ArrayLit { elements, .. } => all_regular(cx, elements, depth, plain) && in_turn(
            cx,
            elements,
            depth,
            plain,
        ),
        ExprV::StructInit { name, fields, .. } => fields_regular(cx, fields, depth, plain) && fields_in_turn(
            cx,
            fields,
            evaluation_order(cx, name, fields),
            depth,
            plain,
        ),
        ExprV::Return { value, .. } => match value {
            Some(v) => regular(cx, *v, depth, plain),
            None => true,
        },
        _ => true,
    }
}

pub open spec fn all_regular(cx: ContractV, es: Seq<ExprV>, depth: nat, plain: bool) -> bool
    decreases es, 0nat,
{
    forall|i: int| 0 <= i < es.len() ==> regular(cx, #[trigger] es[i], depth, plain)
}

pub open spec fn fields_regular(cx: ContractV, fs: Seq<(Seq<char>, ExprV)>, depth: nat, plain: bool) -> bool
    decreases fs, 0nat,
{
    forall|i: int| 0 <= i < fs.len() ==> regular(cx, (#[trigger] fs[i]).1, depth, plain)
}

/// What is asked of an expression and of what lowering it gives: that it draws
/// no witness value, or that both sides visit the same and nothing fails.
pub open spec fn fit(free: bool, cx: ContractV, s: EmitV, r: EmitV, e: ExprV, depth: nat) -> bool {
    if free {
        witness_free(e, true)
    } else {
        regular(cx, e, depth, true) && sound_names(s) && r.errors.len() == 0
    }
}

pub open spec fn all_fit(free: bool, cx: ContractV, s: EmitV, r: EmitV, es: Seq<ExprV>, depth: nat) -> bool {
    if free {
        all_witness_free(es, true)
    } else {
        all_regular(cx, es, depth, true) && sound_names(s) && r.errors.len() == 0
    }
}

pub open spec fn fields_fit(
    free: bool,
    cx: ContractV,
    s: EmitV,
    r: EmitV,
    fs: Seq<(Seq<char>, ExprV)>,
    depth: nat,
) -> bool {
    if free {
        fields_witness_free(fs, true)
    } else {
        fields_regular(cx, fs, depth, true) && sound_names(s) && r.errors.len() == 0
    }
}

// ---- the induction

/// An operand without a wire stands in front of nothing that draws a witness.
proof fn lemma_stop(cx: ContractV, s: EmitV, t: TrackerV, lhs: ExprV, rhs: ExprV, depth: nat)
    requires
        lower(cx, s, lhs, depth).1 is None,
        witness_free(rhs, true) || (yields(cx, lhs, depth) && sound_names(s) && lower(
            cx,
            s,
            lhs,
            depth,
        ).0.errors.len() == 0),
    ensures
        walk(cx, walk(cx, t, lhs).0, rhs).0 == walk(cx, t, lhs).0,
        walk(cx, t, lhs).1 + walk(cx, walk(cx, t, lhs).0, rhs).1 == walk(cx, t, lhs).1,
{
    if witness_free(rhs, true) {
        lemma_walk_free(cx, walk(cx, t, lhs).0, rhs, true);
        assert(walk(cx, t, lhs).1 + Seq::<EventV>::empty() =~= walk(cx, t, lhs).1);
    } else {
        lemma_wire(cx, s, lhs, depth);
    }
}

proof fn lemma_block_errors(s: EmitV, layout: Seq<FrLayout>, n: nat)
    ensures
        private_block(s, layout, n).0.errors == s.errors,
    decreases n,
{
    if n > 0 && n <= layout.len() {
        reveal(emit);
        reveal(put);
        lemma_block_errors(s, layout, (n - 1) as nat);
    }
}

proof fn lemma_binary_errors(s: EmitV, op: BinOp, a: u32, b: u32, bits: Option<u32>)
    ensures
        s.errors.len() <= binary(s, op, a, b, bits).0.errors.len(),
{
    reveal(emit);
}

proof fn lemma_unary_errors(s: EmitV, op: UnOp, a: u32)
    ensures
        s.errors.len() <= unary(s, op, a).0.errors.len(),
        quiet(s, unary(s, op, a).0),
{
    broadcast use crate::private_inputs::single;

    reveal(emit);
}

proof fn lemma_follow(free: bool, cx: ContractV, s: EmitV, t: TrackerV, e: ExprV, depth: nat)
    requires
        witness_free_helpers(cx),
        mirrors(s, t),
        fit(free, cx, s, lower(cx, s, e, depth).0, e, depth),
    ensures
        follows(cx, s, lower(cx, s, e, depth).0, walk(cx, t, e)),
    decreases depth, e, 3nat,
{
    let r = lower(cx, s, e, depth).0;
    match e {
        ExprV::Literal { value, .. } => {
            broadcast use crate::private_inputs::single;

            lemma_still(cx, s, r, t);
        }
        ExprV::Var { .. } => lemma_still(cx, s, r, t),
        ExprV::Path { .. } => {
            broadcast use crate::private_inputs::single;

            lemma_still(cx, s, r, t);
        }
        ExprV::Unsupported { .. } => lemma_still(cx, s, r, t),
        _ => lemma_follow_parts(free || witness_free(e, true), cx, s, t, e, depth),
    }
}

proof fn lemma_follow_parts(free: bool, cx: ContractV, s: EmitV, t: TrackerV, e: ExprV, depth: nat)
    requires
        witness_free_helpers(cx),
        mirrors(s, t),
        fit(free, cx, s, lower(cx, s, e, depth).0, e, depth),
        free || !witness_free(e, true),
        !(e is Literal),
        !(e is Var),
        !(e is Path),
        !(e is Unsupported),
    ensures
        follows(cx, s, lower(cx, s, e, depth).0, walk(cx, t, e)),
    decreases depth, e, 2nat,
{
    let r = lower(cx, s, e, depth).0;
    match e {
        ExprV::LedgerAccess { .. } => lemma_follow_ledger(free, cx, s, t, e, depth),
        ExprV::WitnessAccess { field, .. } => lemma_read(cx, s, t, field),
        ExprV::WitnessCall { name, args, .. } => {
            let a = lower_seq(cx, s, args, args.len(), depth).0;
            let v = walk_list(cx, t, args, args.len());
            if method_type(cx, name) is Some {
                let layout = witness_layout(type_ctx(cx), method_type(cx, name)->0);
                lemma_block_errors(a, layout, layout.len());
                lemma_follow_seq(free, cx, s, t, args, args.len(), depth);
                lemma_call_event(cx, a, r, v.0, name, args);
                let evs = seq![EventV { name, args: Some(args), in_branch: v.0.in_branch }];
                lemma_both(cx, s, a, r, v, (v.0, evs));
                assert(v.1 + evs =~= walk(cx, t, e).1);
            }
        }
        ExprV::EnumPayload { scrutinee, .. } => lemma_follow(free, cx, s, t, *scrutinee, depth),
        ExprV::BinaryOp { op, lhs, rhs, .. } => {
            let (a, l) = lower(cx, s, *lhs, depth);
            let v = walk(cx, t, *lhs);
            lemma_lower(false, cx, s, *lhs, depth);
            if l is Some {
                let (b, w) = lower(cx, a, *rhs, depth);
                lemma_lower(false, cx, a, *rhs, depth);
                if w is Some {
                    let bits = common_width(cx, s, *lhs, *rhs);
                    lemma_quiet_binary(b, op, l->0, w->0, bits);
                    lemma_binary_errors(b, op, l->0, w->0, bits);
                }
                lemma_halves(free, s, a, b);
                lemma_follow(free, cx, s, t, *lhs, depth);
                lemma_follow(free, cx, a, v.0, *rhs, depth);
                lemma_both(cx, s, a, b, v, walk(cx, v.0, *rhs));
                lemma_on(cx, s, b, r, walk(cx, t, e));
            } else {
                lemma_follow(free, cx, s, t, *lhs, depth);
                lemma_stop(cx, s, t, *lhs, *rhs, depth);
            }
        }
        ExprV::UnaryOp { op, expr, .. } => {
            let (a, w) = lower(cx, s, *expr, depth);
            if w is Some {
                lemma_unary_errors(a, op, w->0);
            }
            lemma_follow(free, cx, s, t, *expr, depth);
            lemma_on(cx, s, a, r, walk(cx, t, e));
        }
        ExprV::Let { name, value, .. } => {
            let (a, w) = lower(cx, s, *value, depth);
            lemma_follow(free, cx, s, t, *value, depth);
            lemma_bind(cx, s, a, r, walk(cx, t, e), name);
        }
        ExprV::Assert { .. } => lemma_follow_assert(free, cx, s, t, e, depth),
        ExprV::If { .. } => lemma_follow_if(free, cx, s, t, e, depth),
        ExprV::FnCall { .. } => lemma_follow_call(free, cx, s, t, e, depth),
        ExprV::Disclose { value, .. } => lemma_follow(free, cx, s, t, *value, depth),
        ExprV::MethodCall { receiver, args, .. } => {
            let a = lower(cx, s, *receiver, depth).0;
            let v = walk(cx, t, *receiver);
            lemma_lower(false, cx, s, *receiver, depth);
            lemma_lower_seq(false, cx, a, args, args.len(), depth);
            lemma_halves(free, s, a, r);
            lemma_follow(free, cx, s, t, *receiver, depth);
            lemma_follow_seq(free, cx, a, v.0, args, args.len(), depth);
            lemma_both(cx, s, a, r, v, walk_list(cx, v.0, args, args.len()));
        }
        ExprV::Block { stmts, .. } => lemma_follow_seq(free, cx, s, t, stmts, stmts.len(), depth),
        ExprV::Return { value, .. } => {
            if s.in_helper {
                if free {
                    lemma_walk_free(cx, t, e, true);
                    lemma_still(cx, s, r, t);
                }
            } else {
                match value {
                    Some(v) => lemma_follow(free, cx, s, t, *v, depth),
                    None => lemma_still(cx, s, r, t),
                }
            }
        }
        ExprV::Tuple { elements, .. } => {
            lemma_follow_run(free, cx, s, t, elements, elements.len(), "tuple literal"@, depth);
        }
        ExprV::ArrayLit { elements, .. } => {
            lemma_follow_run(free, cx, s, t, elements, elements.len(), "array literal"@, depth);
        }
        ExprV::Reference { expr, .. } => lemma_follow(free, cx, s, t, *expr, depth),
        ExprV::Index { array, .. } => {
            let a = lower(cx, s, *array, depth).0;
            lemma_follow(free, cx, s, t, *array, depth);
            lemma_on(cx, s, a, r, walk(cx, t, e));
        }
        ExprV::StructInit { name, fields, .. } => {
            let order = evaluation_order(cx, name, fields);
            lemma_order_in_range(cx, name, fields);
            lemma_follow_fields(free, cx, s, t, fields, order, order.len(), depth);
        }
        _ => {}
    }
}

proof fn lemma_halves(free: bool, s: EmitV, a: EmitV, b: EmitV)
    requires
        grows(false, s, a, 0),
        grows(false, a, b, 0),
        free || (sound_names(s) && b.errors.len() == 0),
    ensures
        free || (sound_names(a) && s.errors.len() == 0 && a.errors.len() == 0),
{
    if !free {
        lemma_no_errors(a, b);
        lemma_no_errors(s, a);
    }
}

proof fn lemma_follow_assert(free: bool, cx: ContractV, s: EmitV, t: TrackerV, e: ExprV, depth: nat)
    requires
        witness_free_helpers(cx),
        mirrors(s, t),
        fit(free, cx, s, lower(cx, s, e, depth).0, e, depth),
        free || !witness_free(e, true),
        e is Assert,
    ensures
        follows(cx, s, lower(cx, s, e, depth).0, walk(cx, t, e)),
    decreases depth, e, 1nat,
{
    broadcast use crate::private_inputs::single;

    let r = lower(cx, s, e, depth).0;
    match e {
        ExprV::Assert { kind, .. } => match kind {
            AssertV::Assert(c) => {
                let (a, w) = lower(cx, s, *c, depth);
                reveal(put);
                lemma_follow(free, cx, s, t, *c, depth);
                lemma_on(cx, s, a, r, walk(cx, t, e));
            }
            AssertV::AssertEq(lhs, rhs) => {
                let (a, l) = lower(cx, s, *lhs, depth);
                let v = walk(cx, t, *lhs);
                lemma_lower(false, cx, s, *lhs, depth);
                if l is Some {
                    let (b, w) = lower(cx, a, *rhs, depth);
                    reveal(put);
                    lemma_lower(false, cx, a, *rhs, depth);
                    lemma_halves(free, s, a, b);
                    lemma_follow(free, cx, s, t, *lhs, depth);
                    lemma_follow(free, cx, a, v.0, *rhs, depth);
                    lemma_both(cx, s, a, b, v, walk(cx, v.0, *rhs));
                    lemma_on(cx, s, b, r, walk(cx, t, e));
                } else {
                    lemma_follow(free, cx, s, t, *lhs, depth);
                    lemma_stop(cx, s, t, *lhs, *rhs, depth);
                }
            }
        },
        _ => {}
    }
}

/// Entering or leaving a branch.
proof fn lemma_turn(cx: ContractV, s: EmitV, a: EmitV, r: EmitV, w: (TrackerV, Seq<EventV>), in_branch: bool)
    requires
        follows(cx, s, a, w),
        r.variables == a.variables,
        r.guarded_witness_fields == a.guarded_witness_fields,
        r.in_conditional == in_branch,
        private_inputs(r.instructions) == private_inputs(a.instructions),
    ensures
        follows(cx, s, r, (TrackerV { in_branch, ..w.0 }, w.1)),
{
    reveal(mirrors);
    reveal(draws);
}

/// The step from `s` to `r` reports nothing.
pub open spec fn steady(s: EmitV, r: EmitV) -> bool {
    r.errors == s.errors && r.poisoned == s.poisoned
}

proof fn lemma_guards(s: EmitV, cond: u32, nested: bool, outer: u32)
    ensures
        quiet(s, then_guard(s, cond).0),
        steady(s, then_guard(s, cond).0),
        quiet(s, else_guard(s, cond, nested, outer).0),
        steady(s, else_guard(s, cond, nested, outer).0),
{
    broadcast use crate::private_inputs::single;

    reveal(emit);
}

proof fn lemma_left(s: EmitV, cond: u32, guard: u32, in_conditional: bool, tw: Option<u32>, ew: Option<u32>)
    ensures
        steady(s, leave_if(s, cond, guard, in_conditional, tw, ew).0),
        quiet(
            EmitV { guard, in_conditional, ..s },
            leave_if(s, cond, guard, in_conditional, tw, ew).0,
        ),
{
    broadcast use crate::private_inputs::single;

    reveal(emit);
}

proof fn lemma_follow_if(free: bool, cx: ContractV, s: EmitV, t: TrackerV, e: ExprV, depth: nat)
    requires
        witness_free_helpers(cx),
        mirrors(s, t),
        fit(free, cx, s, lower(cx, s, e, depth).0, e, depth),
        free || !witness_free(e, true),
        e is If,
    ensures
        follows(cx, s, lower(cx, s, e, depth).0, walk(cx, t, e)),
    decreases depth, e, 1nat,
{
    let r = lower(cx, s, e, depth).0;
    match e {
        ExprV::If { cond, then_branch, else_branch, .. } => {
            let (a, c) = lower(cx, s, *cond, depth);
            let v = walk(cx, t, *cond);
            lemma_lower(false, cx, s, *cond, depth);
            if c is None {
                if free {
                    lemma_follow(free, cx, s, t, *cond, depth);
                    lemma_walk_free(cx, t, *cond, true);
                    lemma_walk_free(cx, t, e, true);
                } else {
                    if yields(cx, *cond, depth) {
                        lemma_wire(cx, s, *cond, depth);
                    }
                    lemma_follow(free, cx, s, t, *cond, depth);
                    let start = TrackerV { in_branch: true, ..v.0 };
                    lemma_walk_list_free(cx, start, then_branch, then_branch.len(), true);
                    match else_branch {
                        Some(eb) => lemma_walk_list_free(cx, start, eb, eb.len(), true),
                        None => {}
                    }
                    assert(walk(cx, t, e).1 =~= v.1);
                    assert(follows(cx, s, a, walk(cx, t, e))) by {
                        reveal(mirrors);
                    }
                }
            } else {
                let cw = c->0;
                let (b, tg) = then_guard(a, cw);
                let inside = enter_branch(b, tg);
                let (th, then_wire) = lower_branch(cx, inside, then_branch, then_branch.len(), depth);
                let closed = close_branch(th, inside.instructions.len());
                lemma_guards(a, cw, a.in_conditional, a.guard);
                lemma_lower_branch(false, cx, inside, then_branch, then_branch.len(), depth);
                let start = TrackerV { in_branch: true, ..v.0 };
                let x = walk_list(cx, start, then_branch, then_branch.len());
                match else_branch {
                    None => {
                        lemma_left(closed, cw, a.guard, a.in_conditional, then_wire, None);
                        lemma_into(free, s, a, inside, th);
                        lemma_follow(free, cx, s, t, *cond, depth);
                        lemma_turn(cx, s, a, inside, v, true);
                        lemma_follow_branch(free, cx, inside, start, then_branch, then_branch.len(), depth);
                        lemma_both(cx, s, inside, th, (start, v.1), x);
                        reveal(mirrors);
                        lemma_turn(cx, s, th, r, (x.0, v.1 + x.1), a.in_conditional);
                    }
                    Some(eb) => {
                        let (d, eg) = else_guard(closed, cw, a.in_conditional, a.guard);
                        let other = EmitV { guard: eg, ..d };
                        let (f, else_wire) = lower_branch(cx, other, eb, eb.len(), depth);
                        let shut = close_branch(f, other.instructions.len());
                        lemma_guards(closed, cw, a.in_conditional, a.guard);
                        lemma_lower_branch(false, cx, other, eb, eb.len(), depth);
                        lemma_left(shut, cw, a.guard, a.in_conditional, then_wire, else_wire);
                        if !free {
                            assert(f.errors.len() == 0);
                            assert(f.errors.len() >= other.errors.len()) by {
                                reveal(continues);
                            }
                        }
                        lemma_into(free, s, a, inside, th);
                        lemma_follow(free, cx, s, t, *cond, depth);
                        lemma_turn(cx, s, a, inside, v, true);
                        lemma_follow_branch(free, cx, inside, start, then_branch, then_branch.len(), depth);
                        lemma_both(cx, s, inside, th, (start, v.1), x);
                        lemma_on(cx, s, th, other, (x.0, v.1 + x.1));
                        lemma_follow_branch(free, cx, other, x.0, eb, eb.len(), depth);
                        let y = walk_list(cx, x.0, eb, eb.len());
                        lemma_both(cx, s, other, f, (x.0, v.1 + x.1), y);
                        reveal(mirrors);
                        lemma_turn(cx, s, f, r, (y.0, v.1 + x.1 + y.1), a.in_conditional);
                    }
                }
            }
        }
        _ => {}
    }
}

proof fn lemma_into(free: bool, s: EmitV, a: EmitV, inside: EmitV, th: EmitV)
    requires
        grows(false, s, a, 0),
        steady(a, inside),
        grows(false, inside, th, 0),
        free || (sound_names(s) && th.errors.len() == 0),
    ensures
        free || (sound_names(inside) && sound_names(th) && a.errors.len() == 0),
{
    if !free {
        lemma_no_errors(inside, th);
        lemma_no_errors(s, a);
        lemma_no_errors(inside, th);
    }
}

proof fn lemma_follow_seq(free: bool, cx: ContractV, s: EmitV, t: TrackerV, es: Seq<ExprV>, n: nat, depth: nat)
    requires
        witness_free_helpers(cx),
        mirrors(s, t),
        all_fit(free, cx, s, lower_seq(cx, s, es, n, depth).0, es, depth),
    ensures
        follows(cx, s, lower_seq(cx, s, es, n, depth).0, walk_list(cx, t, es, n)),
    decreases depth, es, n,
{
    if n == 0 || n > es.len() {
        lemma_still(cx, s, s, t);
    } else {
        let a = lower_seq(cx, s, es, (n - 1) as nat, depth).0;
        let b = lower(cx, a, es[n - 1], depth).0;
        let v = walk_list(cx, t, es, (n - 1) as nat);
        lemma_lower_seq(false, cx, s, es, (n - 1) as nat, depth);
        lemma_lower(false, cx, a, es[n - 1], depth);
        lemma_halves(free, s, a, b);
        lemma_follow_seq(free, cx, s, t, es, (n - 1) as nat, depth);
        lemma_follow(free, cx, a, v.0, es[n - 1], depth);
        lemma_both(cx, s, a, b, v, walk(cx, v.0, es[n - 1]));
    }
}

proof fn lemma_follow_branch(free: bool, cx: ContractV, s: EmitV, t: TrackerV, es: Seq<ExprV>, n: nat, depth: nat)
    requires
        witness_free_helpers(cx),
        mirrors(s, t),
        all_fit(free, cx, s, lower_branch(cx, s, es, n, depth).0, es, depth),
    ensures
        follows(cx, s, lower_branch(cx, s, es, n, depth).0, walk_list(cx, t, es, n)),
    decreases depth, es, n,
{
    if n == 0 || n > es.len() {
        lemma_still(cx, s, s, t);
    } else {
        let a = lower_branch(cx, s, es, (n - 1) as nat, depth).0;
        let b = lower(cx, a, es[n - 1], depth).0;
        let v = walk_list(cx, t, es, (n - 1) as nat);
        lemma_lower_branch(false, cx, s, es, (n - 1) as nat, depth);
        lemma_lower(false, cx, a, es[n - 1], depth);
        lemma_halves(free, s, a, b);
        lemma_follow_branch(free, cx, s, t, es, (n - 1) as nat, depth);
        lemma_follow(free, cx, a, v.0, es[n - 1], depth);
        lemma_both(cx, s, a, b, v, walk(cx, v.0, es[n - 1]));
    }
}

/// The last of `n` elements reports nothing.
proof fn lemma_silent(cx: ContractV, t: TrackerV, es: Seq<ExprV>, n: nat)
    requires
        0 < n <= es.len(),
        witness_free(es[n - 1], true),
    ensures
        walk_list(cx, t, es, n) == walk_list(cx, t, es, (n - 1) as nat),
{
    let v = walk_list(cx, t, es, (n - 1) as nat);
    lemma_walk_free(cx, v.0, es[n - 1], true);
    assert(v.1 + Seq::<EventV>::empty() =~= v.1);
}

/// The elements behind the first `k` report nothing.
proof fn lemma_silent_behind(cx: ContractV, t: TrackerV, es: Seq<ExprV>, k: nat, n: nat)
    requires
        k <= n <= es.len(),
        free_behind(es, k, true),
    ensures
        walk_list(cx, t, es, n) == walk_list(cx, t, es, k),
    decreases n,
{
    if k < n {
        lemma_silent(cx, t, es, n);
        lemma_silent_behind(cx, t, es, k, (n - 1) as nat);
    }
}

/// A list whose evaluation stops at the first element without a wire: behind
/// it none draws a witness value.
proof fn lemma_follow_all(free: bool, cx: ContractV, s: EmitV, t: TrackerV, es: Seq<ExprV>, n: nat, depth: nat)
    requires
        witness_free_helpers(cx),
        mirrors(s, t),
        n <= es.len(),
        all_fit(free, cx, s, lower_all(cx, s, es, n, depth).0, es, depth),
        free || in_turn(cx, es, depth, true),
    ensures
        follows(cx, s, lower_all(cx, s, es, n, depth).0, walk_list(cx, t, es, n)),
    decreases depth, es, n,
{
    if n == 0 {
        lemma_still(cx, s, s, t);
    } else {
        let (a, ws) = lower_all(cx, s, es, (n - 1) as nat, depth);
        let v = walk_list(cx, t, es, (n - 1) as nat);
        lemma_lower_all(false, cx, s, es, (n - 1) as nat, depth);
        if ws is None {
            if free {
                lemma_follow_all(free, cx, s, t, es, (n - 1) as nat, depth);
                lemma_walk_list_free(cx, t, es, (n - 1) as nat, true);
                lemma_walk_list_free(cx, t, es, n, true);
            } else {
                let m = (n - 1) as nat;
                if forall|i: int| 0 <= i < m ==> yields(cx, #[trigger] es[i], depth) {
                    lemma_all_wires(cx, s, es, m, depth);
                }
                lemma_follow_all(free, cx, s, t, es, m, depth);
                assert(witness_free(es[n - 1], true));
                lemma_silent(cx, t, es, n);
            }
        } else {
            let b = lower(cx, a, es[n - 1], depth).0;
            lemma_lower(false, cx, a, es[n - 1], depth);
            lemma_halves(free, s, a, b);
            lemma_follow_all(free, cx, s, t, es, (n - 1) as nat, depth);
            lemma_follow(free, cx, a, v.0, es[n - 1], depth);
            lemma_both(cx, s, a, b, v, walk(cx, v.0, es[n - 1]));
        }
    }
}

proof fn lemma_follow_run(
    free: bool,
    cx: ContractV,
    s: EmitV,
    t: TrackerV,
    es: Seq<ExprV>,
    n: nat,
    what: Seq<char>,
    depth: nat,
)
    requires
        witness_free_helpers(cx),
        mirrors(s, t),
        n <= es.len(),
        all_fit(free, cx, s, lower_run(cx, s, es, n, what, depth).0, es, depth),
        free || in_turn(cx, es, depth, true),
    ensures
        follows(cx, s, lower_run(cx, s, es, n, what, depth).0, walk_list(cx, t, es, n)),
    decreases depth, es, n,
{
    if n == 0 {
        lemma_still(cx, s, s, t);
    } else {
        let (a, run) = lower_run(cx, s, es, (n - 1) as nat, what, depth);
        let v = walk_list(cx, t, es, (n - 1) as nat);
        lemma_lower_run(false, cx, s, es, (n - 1) as nat, what, depth);
        if run is None {
            if free {
                lemma_follow_run(free, cx, s, t, es, (n - 1) as nat, what, depth);
                lemma_walk_list_free(cx, t, es, (n - 1) as nat, true);
                lemma_walk_list_free(cx, t, es, n, true);
            } else {
                let m = (n - 1) as nat;
                if forall|i: int| 0 <= i < m ==> yields(cx, #[trigger] es[i], depth) {
                    lemma_run_wire(cx, s, es, m, what, depth);
                }
                lemma_follow_run(free, cx, s, t, es, m, what, depth);
                assert(witness_free(es[n - 1], true));
                lemma_silent(cx, t, es, n);
            }
        } else {
            let b = lower(cx, a, es[n - 1], depth).0;
            lemma_lower(false, cx, a, es[n - 1], depth);
            lemma_halves(free, s, a, b);
            lemma_follow_run(free, cx, s, t, es, (n - 1) as nat, what, depth);
            lemma_follow(free, cx, a, v.0, es[n - 1], depth);
            lemma_both(cx, s, a, b, v, walk(cx, v.0, es[n - 1]));
            lemma_on(cx, s, b, lower_run(cx, s, es, n, what, depth).0, walk_list(cx, t, es, n));
        }
    }
}

proof fn lemma_follow_fields(
    free: bool,
    cx: ContractV,
    s: EmitV,
    t: TrackerV,
    fs: Seq<(Seq<char>, ExprV)>,
    order: Seq<int>,
    n: nat,
    depth: nat,
)
    requires
        witness_free_helpers(cx),
        mirrors(s, t),
        n <= order.len(),
        forall|i: int| 0 <= i < order.len() ==> 0 <= #[trigger] order[i] < fs.len(),
        fields_fit(free, cx, s, lower_fields(cx, s, fs, order, n, depth).0, fs, depth),
        free || fields_in_turn(cx, fs, order, depth, true),
    ensures
        follows(cx, s, lower_fields(cx, s, fs, order, n, depth).0, walk_fields(cx, t, fs, order, n)),
    decreases depth, fs, n,
{
    if n == 0 {
        lemma_still(cx, s, s, t);
    } else {
        let (a, run) = lower_fields(cx, s, fs, order, (n - 1) as nat, depth);
        let v = walk_fields(cx, t, fs, order, (n - 1) as nat);
        let e = fs[order[n - 1]].1;
        lemma_lower_fields(false, cx, s, fs, order, (n - 1) as nat, depth);
        if run is None {
            if free {
                lemma_follow_fields(free, cx, s, t, fs, order, (n - 1) as nat, depth);
                lemma_walk_fields_free(cx, t, fs, order, (n - 1) as nat, true);
                lemma_walk_fields_free(cx, t, fs, order, n, true);
            } else {
                let m = (n - 1) as nat;
                if forall|i: int| 0 <= i < m ==> yields(cx, fs[#[trigger] order[i]].1, depth) {
                    lemma_fields_wire(cx, s, fs, order, m, depth);
                }
                lemma_follow_fields(free, cx, s, t, fs, order, m, depth);
                let i = choose|i: int| 0 <= i < m && !yields(cx, fs[#[trigger] order[i]].1, depth);
                assert(yields(cx, fs[order[i]].1, depth) || witness_free(fs[order[n - 1]].1, true));
                lemma_walk_free(cx, v.0, e, true);
                assert(v.1 + Seq::<EventV>::empty() =~= v.1);
            }
        } else {
            let b = lower(cx, a, e, depth).0;
            lemma_lower(false, cx, a, e, depth);
            lemma_halves(free, s, a, b);
            lemma_follow_fields(free, cx, s, t, fs, order, (n - 1) as nat, depth);
            lemma_follow(free, cx, a, v.0, e, depth);
            lemma_both(cx, s, a, b, v, walk(cx, v.0, e));
            lemma_on(cx, s, b, lower_fields(cx, s, fs, order, n, depth).0, walk_fields(cx, t, fs, order, n));
        }
    }
}

proof fn lemma_follow_params(
    free: bool,
    cx: ContractV,
    s: EmitV,
    t: TrackerV,
    params: Seq<ParamV>,
    args: Seq<ExprV>,
    n: nat,
    counter: u32,
    depth: nat,
)
    requires
        witness_free_helpers(cx),
        mirrors(s, t),
        n <= args.len(),
        all_fit(free, cx, s, lower_params(cx, s, params, args, n, counter, depth).0, args, depth),
        free || in_turn(cx, args, depth, true),
    ensures
        follows(cx, s, lower_params(cx, s, params, args, n, counter, depth).0, walk_list(cx, t, args, n)),
    decreases depth, args, n,
{
    if n == 0 {
        lemma_still(cx, s, s, t);
    } else {
        let (a, good) = lower_params(cx, s, params, args, (n - 1) as nat, counter, depth);
        let v = walk_list(cx, t, args, (n - 1) as nat);
        lemma_lower_params(false, cx, s, params, args, (n - 1) as nat, counter, depth);
        if !good {
            if free {
                lemma_follow_params(free, cx, s, t, params, args, (n - 1) as nat, counter, depth);
                lemma_walk_list_free(cx, t, args, (n - 1) as nat, true);
                lemma_walk_list_free(cx, t, args, n, true);
            } else {
                let m = (n - 1) as nat;
                if forall|i: int| 0 <= i < m ==> yields(cx, #[trigger] args[i], depth) {
                    lemma_params_wire(cx, s, params, args, m, counter, depth);
                }
                lemma_follow_params(free, cx, s, t, params, args, m, counter, depth);
                assert(witness_free(args[n - 1], true));
                lemma_silent(cx, t, args, n);
            }
        } else {
            let (b, w) = lower(cx, a, args[n - 1], depth);
            let r = lower_params(cx, s, params, args, n, counter, depth).0;
            lemma_lower(false, cx, a, args[n - 1], depth);
            lemma_halves(free, s, a, b);
            lemma_follow_params(free, cx, s, t, params, args, (n - 1) as nat, counter, depth);
            lemma_follow(free, cx, a, v.0, args[n - 1], depth);
            lemma_both(cx, s, a, b, v, walk(cx, v.0, args[n - 1]));
            let fresh = fresh_name(counter, (n - 1) as u32, params[n - 1].name);
            lemma_fresh_is_plain(counter, (n - 1) as u32, params[n - 1].name);
            lemma_bind(cx, s, b, r, walk_list(cx, t, args, n), fresh);
        }
    }
}

proof fn lemma_follow_helper(
    free: bool,
    cx: ContractV,
    s: EmitV,
    t: TrackerV,
    h: HelperV,
    args: Seq<ExprV>,
    depth: nat,
)
    requires
        witness_free_helpers(cx),
        mirrors(s, t),
        all_witness_free(h.body, false),
        all_fit(free, cx, s, lower_helper(cx, s, h, args, depth).0, args, depth),
        free || in_turn(cx, args, depth, true),
    ensures
        follows(cx, s, lower_helper(cx, s, h, args, depth).0, walk_list(cx, t, args, args.len())),
    decreases depth, args, args.len() + 1,
{
    let r = lower_helper(cx, s, h, args, depth).0;
    if h.params.len() != args.len() {
        if free {
            lemma_walk_list_free(cx, t, args, args.len(), true);
            lemma_still(cx, s, r, t);
        }
    } else {
        let counter = s.helper_counter;
        let a = EmitV { helper_counter: counter.wrapping_add(1), ..s };
        let (b, good) = lower_params(cx, a, h.params, args, args.len(), counter, depth);
        let v = walk_list(cx, t, args, args.len());
        lemma_still(cx, s, a, t);
        if !good || depth == 0 {
            lemma_follow_params(free, cx, a, t, h.params, args, args.len(), counter, depth);
        } else {
            let names = param_names(h.params, h.params.len(), counter);
            let body = renamed_list(h.body, h.body.len(), names, counter, h.params.len() as u32).exprs;
            let inner = EmitV { in_helper: true, ..b };
            let c = lower_seq(cx, inner, body, body.len(), (depth - 1) as nat).0;
            lemma_lower_seq(false, cx, inner, body, body.len(), (depth - 1) as nat);
            if !free {
                assert(inner.errors.len() <= c.errors.len()) by {
                    reveal(continues);
                }
            }
            lemma_follow_params(free, cx, a, t, h.params, args, args.len(), counter, depth);
            lemma_renamed_list_free(h.body, h.body.len(), names, counter, h.params.len() as u32);
            assert(mirrors(inner, v.0)) by {
                reveal(mirrors);
            }
            lemma_follow_seq(true, cx, inner, v.0, body, body.len(), (depth - 1) as nat);
            lemma_walk_list_free(cx, v.0, body, body.len(), true);
        }
        reveal(mirrors);
        reveal(draws);
        assert(expanded(cx, Seq::<EventV>::empty()) =~= Seq::<bool>::empty());
    }
}

proof fn lemma_follow_call(free: bool, cx: ContractV, s: EmitV, t: TrackerV, e: ExprV, depth: nat)
    requires
        witness_free_helpers(cx),
        mirrors(s, t),
        fit(free, cx, s, lower(cx, s, e, depth).0, e, depth),
        free || !witness_free(e, true),
        e is FnCall,
    ensures
        follows(cx, s, lower(cx, s, e, depth).0, walk(cx, t, e)),
    decreases depth, e, 1nat,
{
    broadcast use crate::private_inputs::single;

    let r = lower(cx, s, e, depth).0;
    match e {
        ExprV::FnCall { name, path, args, .. } => {
            let v = walk_list(cx, t, args, args.len());
            assert(walk(cx, t, e) == v);
            if free {
                assert(all_witness_free(args, true));
                lemma_walk_list_free(cx, t, args, args.len(), true);
            } else {
                assert(all_regular(cx, args, depth, true));
            }
            if name == "merkle_tree_path_root"@ {
                assert(lower(cx, s, e, depth) == lower_path_root(cx, s, args, depth));
                if args.len() == 0 || path_argument(cx, args[0]) is Err {
                    lemma_still(cx, s, r, t);
                } else {
                    let (h, n) = path_argument(cx, args[0])->Ok_0;
                    let (a, first) = lower(cx, s, args[0], depth);
                    if first is Some {
                        lemma_quiet_path_root(a, first->0, h, n);
                        lemma_root_errors(a, first->0, h, n);
                    }
                    lemma_follow(free, cx, s, t, args[0], depth);
                    lemma_on(cx, s, a, r, walk(cx, t, args[0]));
                    if free {
                        lemma_walk_free(cx, t, args[0], true);
                    } else {
                        lemma_walk_one(cx, t, args);
                    }
                }
            } else {
                lemma_helper_body(cx, name, cx.helpers.len());
                match find_helper(cx.helpers, name, cx.helpers.len()) {
                    Some(h) => lemma_follow_helper(free, cx, s, t, h, args, depth),
                    None => {
                        if args.len() == 1 && wraps_value(path) {
                            lemma_follow(free, cx, s, t, args[0], depth);
                            lemma_walk_one(cx, t, args);
                        } else if name == "persistent_hash"@ || name == "transient_hash"@ {
                            let (a, inputs) = lower_all(cx, s, args, args.len(), depth);
                            reveal(emit);
                            lemma_follow_all(free, cx, s, t, args, args.len(), depth);
                            lemma_on(cx, s, a, r, v);
                        } else {
                            lemma_still(cx, s, r, t);
                        }
                    }
                }
            }
        }
        _ => {}
    }
}

proof fn lemma_walk_one(cx: ContractV, t: TrackerV, args: Seq<ExprV>)
    requires
        args.len() >= 1,
        free_behind(args, 1, true),
    ensures
        walk_list(cx, t, args, args.len()) == walk(cx, t, args[0]),
{
    lemma_silent_behind(cx, t, args, 1, args.len());
    assert(walk_list(cx, t, args, 0) == (t, Seq::<EventV>::empty()));
    assert(Seq::<EventV>::empty() + walk(cx, t, args[0]).1 =~= walk(cx, t, args[0]).1);
}

proof fn lemma_root_errors(s: EmitV, first: u32, h: u32, n: u32)
    ensures
        path_root(s, first, h, n).0.errors == s.errors,
{
    reveal(leaf_hash);
    reveal(emit);
    let (a, hash) = leaf_hash(s, first, n);
    lemma_fold_errors(a, hash.wrapping_add(1), first.wrapping_add(crate::nocturne_type::chunks(n) as u32), h as nat);
}

proof fn lemma_fold_errors(s: EmitV, start: u32, base: u32, n: nat)
    ensures
        path_fold(s, start, base, n).0.errors == s.errors,
    decreases n,
{
    reveal(emit);
    if n > 0 {
        lemma_fold_errors(s, start, base, (n - 1) as nat);
    }
}

// ---- ledger accesses

/// The single argument of a ledger method, or the first of several.
proof fn lemma_follow_arg(free: bool, cx: ContractV, s: EmitV, t: TrackerV, args: Seq<ExprV>, depth: nat)
    requires
        witness_free_helpers(cx),
        mirrors(s, t),
        all_fit(free, cx, s, lower_arg(cx, s, args, 0, depth).0, args, depth),
        free || free_behind(args, 1, true),
    ensures
        follows(cx, s, lower_arg(cx, s, args, 0, depth).0, walk_list(cx, t, args, args.len())),
    decreases depth, args, 0nat,
{
    if args.len() == 0 {
        lemma_still(cx, s, s, t);
    } else {
        lemma_follow(free, cx, s, t, args[0], depth);
        if free {
            lemma_walk_free(cx, t, args[0], true);
            lemma_walk_list_free(cx, t, args, args.len(), true);
        } else {
            lemma_walk_one(cx, t, args);
        }
    }
}

/// A key and a value.
proof fn lemma_follow_pair(free: bool, cx: ContractV, s: EmitV, t: TrackerV, args: Seq<ExprV>, depth: nat)
    requires
        witness_free_helpers(cx),
        mirrors(s, t),
        all_fit(
            free,
            cx,
            s,
            lower_arg(cx, lower_arg(cx, s, args, 0, depth).0, args, 1, depth).0,
            args,
            depth,
        ),
        free || free_behind(args, 2, true),
    ensures
        follows(
            cx,
            s,
            lower_arg(cx, lower_arg(cx, s, args, 0, depth).0, args, 1, depth).0,
            walk_list(cx, t, args, args.len()),
        ),
    decreases depth, args, 0nat,
{
    let a = lower_arg(cx, s, args, 0, depth).0;
    let b = lower_arg(cx, a, args, 1, depth).0;
    if args.len() == 0 {
        lemma_still(cx, s, s, t);
    } else {
        let v = walk(cx, t, args[0]);
        lemma_lower(false, cx, s, args[0], depth);
        if args.len() == 1 {
            lemma_follow(free, cx, s, t, args[0], depth);
            lemma_walk_one(cx, t, args);
        } else {
            lemma_lower(false, cx, a, args[1], depth);
            lemma_halves(free, s, a, b);
            lemma_follow(free, cx, s, t, args[0], depth);
            lemma_follow(free, cx, a, v.0, args[1], depth);
            lemma_both(cx, s, a, b, v, walk(cx, v.0, args[1]));
            if free {
                lemma_walk_free(cx, t, args[0], true);
                lemma_walk_free(cx, t, args[1], true);
                lemma_walk_list_free(cx, t, args, args.len(), true);
                assert(Seq::<EventV>::empty() + Seq::<EventV>::empty() =~= Seq::<EventV>::empty());
            } else {
                assert(walk_list(cx, t, args, 0) == (t, Seq::<EventV>::empty()));
                assert(walk_list(cx, t, args, 1).0 == v.0);
                assert(walk_list(cx, t, args, 1).1 =~= v.1);
                lemma_silent_behind(cx, t, args, 2, args.len());
            }
        }
    }
}

proof fn lemma_follow_ledger(free: bool, cx: ContractV, s: EmitV, t: TrackerV, e: ExprV, depth: nat)
    requires
        witness_free_helpers(cx),
        mirrors(s, t),
        fit(free, cx, s, lower(cx, s, e, depth).0, e, depth),
        free || !witness_free(e, true),
        e is LedgerAccess,
    ensures
        follows(cx, s, lower(cx, s, e, depth).0, walk(cx, t, e)),
    decreases depth, e, 1nat,
{
    let r = lower(cx, s, e, depth).0;
    match e {
        ExprV::LedgerAccess { field, method, args, .. } => {
            assert(walk(cx, t, e) == walk_list(cx, t, args, args.len()));
            if free {
                assert(all_witness_free(args, true));
                lemma_walk_list_free(cx, t, args, args.len(), true);
            } else {
                assert(all_regular(cx, args, depth, true));
            }
            match field_slot(cx, field) {
                None => lemma_still(cx, s, r, t),
                Some(slot) => match slot_type(cx, slot) {
                    None => lemma_follow_cell(free, cx, s, t, slot, None, field, method, args, depth),
                    Some(ty) => match map_kv(ty) {
                        Some((k, v)) => lemma_follow_map(free, cx, s, t, slot, k, v, method, args, depth),
                        None => match set_inner(ty) {
                            Some(elem) => lemma_follow_set(free, cx, s, t, slot, elem, method, args, depth),
                            None => {
                                if merkle_leaf(ty) is Some {
                                    lemma_follow_tree(free, cx, s, t, slot, method, args, depth);
                                } else {
                                    lemma_follow_cell(free, cx, s, t, slot, Some(ty), field, method, args, depth);
                                }
                            }
                        },
                    },
                },
            }
        }
        _ => {}
    }
}

proof fn lemma_follow_cell(
    free: bool,
    cx: ContractV,
    s: EmitV,
    t: TrackerV,
    slot: u8,
    ty: Option<TyV>,
    field: Seq<char>,
    method: Seq<char>,
    args: Seq<ExprV>,
    depth: nat,
)
    requires
        witness_free_helpers(cx),
        mirrors(s, t),
        all_fit(free, cx, s, lower_cell_method(cx, s, slot, ty, field, method, args, depth).0, args, depth),
        free || free_behind(args, 1, true),
        free || (method == "get"@ || method == "value"@ || method == "__direct_access"@ ==> free_behind(args, 0, true)),
    ensures
        follows(
            cx,
            s,
            lower_cell_method(cx, s, slot, ty, field, method, args, depth).0,
            walk_list(cx, t, args, args.len()),
        ),
    decreases depth, args, 1nat,
{
    let r = lower_cell_method(cx, s, slot, ty, field, method, args, depth).0;
    if free {
        lemma_walk_list_free(cx, t, args, args.len(), true);
    }
    if method == "increment"@ || method == "increment_by"@ {
        match increment_amount(args) {
            Some(n) => {
                lemma_quiet_counter_increment(s, slot, n);
                if !free && args.len() >= 1 {
                    lemma_walk_one(cx, t, args);
                }
                lemma_still(cx, s, r, t);
            }
            None => lemma_still(cx, s, r, t),
        }
    } else if method == "get"@ || method == "value"@ || method == "__direct_access"@ {
        lemma_quiet_ledger_read(
            cx,
            s,
            slot,
            match ty {
                Some(x) => crate::emission::read_type(x),
                None => None,
            },
        );
        if !free {
            lemma_silent_behind(cx, t, args, 0, args.len());
        }
        lemma_still(cx, s, r, t);
    } else if method == "set"@ || method == "insert"@ {
        let (a, first) = lower_arg(cx, s, args, 0, depth);
        let vars = written_wires(cx, slot, first);
        lemma_quiet_ledger_write(cx, a, slot, vars);
        lemma_write_errors(cx, a, slot, vars);
        lemma_follow_arg(free, cx, s, t, args, depth);
        lemma_on(cx, s, a, r, walk_list(cx, t, args, args.len()));
    } else {
        lemma_still(cx, s, r, t);
    }
}

proof fn lemma_write_errors(cx: ContractV, s: EmitV, slot: u8, vars: Seq<u32>)
    ensures
        s.errors.len() <= ledger_write(cx, s, slot, vars).0.errors.len(),
{
    crate::emission_laws::lemma_ledger_write(false, cx, s, slot, vars);
    reveal(continues);
}

proof fn lemma_follow_map(
    free: bool,
    cx: ContractV,
    s: EmitV,
    t: TrackerV,
    slot: u8,
    k: TyV,
    v: TyV,
    method: Seq<char>,
    args: Seq<ExprV>,
    depth: nat,
)
    requires
        witness_free_helpers(cx),
        mirrors(s, t),
        all_fit(free, cx, s, lower_map_method(cx, s, slot, k, v, method, args, depth).0, args, depth),
        free || free_behind(
            args,
            if method == "insert"@ || method == "set"@ {
                2
            } else {
                1
            },
            true,
        ),
        free || in_turn(cx, args, depth, true),
    ensures
        follows(
            cx,
            s,
            lower_map_method(cx, s, slot, k, v, method, args, depth).0,
            walk_list(cx, t, args, args.len()),
        ),
    decreases depth, args, 2nat,
{
    let r = lower_map_method(cx, s, slot, k, v, method, args, depth).0;
    let w = walk_list(cx, t, args, args.len());
    if free {
        lemma_walk_list_free(cx, t, args, args.len(), true);
    }
    if value_encoding(type_ctx(cx), k) is None {
        lemma_still(cx, s, r, t);
    } else {
        let ke = value_encoding(type_ctx(cx), k)->0;
        let (a, first) = lower_arg(cx, s, args, 0, depth);
        let key = wires(first->0, ke.value_field_count);
        if method == "contains"@ {
            assert("contains"@ != "insert"@ && "contains"@ != "set"@) by {
                reveal_strlit("contains");
                reveal_strlit("insert");
                reveal_strlit("set");
                assert("contains"@.len() == 8 && "insert"@.len() == 6 && "set"@.len() == 3);
            }
            if first is Some {
                lemma_quiet_map_member(a, slot, key, ke);
                lemma_member_errors(a, slot, key, ke);
            }
            lemma_follow_arg(free, cx, s, t, args, depth);
            lemma_on(cx, s, a, r, w);
        } else if method == "insert"@ || method == "set"@ {
            lemma_follow_put(free, cx, s, t, slot, k, v, method, args, depth);
        } else if method == "remove"@ {
            if first is Some {
                lemma_quiet_map_remove(a, slot, key, ke);
                lemma_member_errors(a, slot, key, ke);
            }
            lemma_follow_arg(free, cx, s, t, args, depth);
            lemma_on(cx, s, a, r, w);
        } else if method == "lookup"@ && value_encoding(type_ctx(cx), v) is Some {
            let ve = value_encoding(type_ctx(cx), v)->0;
            if first is Some {
                lemma_quiet_map_lookup(cx, a, slot, key, ke, v, ve);
                lemma_lookup_errors(cx, a, slot, key, ke, v, ve);
            }
            lemma_follow_arg(free, cx, s, t, args, depth);
            lemma_on(cx, s, a, r, w);
        } else {
            lemma_still(cx, s, r, t);
        }
    }
}

proof fn lemma_follow_put(
    free: bool,
    cx: ContractV,
    s: EmitV,
    t: TrackerV,
    slot: u8,
    k: TyV,
    v: TyV,
    method: Seq<char>,
    args: Seq<ExprV>,
    depth: nat,
)
    requires
        witness_free_helpers(cx),
        mirrors(s, t),
        all_fit(free, cx, s, lower_map_method(cx, s, slot, k, v, method, args, depth).0, args, depth),
        value_encoding(type_ctx(cx), k) is Some,
        method != "contains"@,
        method == "insert"@ || method == "set"@,
        free || free_behind(args, 2, true),
        free || in_turn(cx, args, depth, true),
    ensures
        follows(
            cx,
            s,
            lower_map_method(cx, s, slot, k, v, method, args, depth).0,
            walk_list(cx, t, args, args.len()),
        ),
    decreases depth, args, 1nat,
{
    let r = lower_map_method(cx, s, slot, k, v, method, args, depth).0;
    let w = walk_list(cx, t, args, args.len());
    let ke = value_encoding(type_ctx(cx), k)->0;
    let (a, first) = lower_arg(cx, s, args, 0, depth);
    if free {
        lemma_walk_list_free(cx, t, args, args.len(), true);
    }
    if value_encoding(type_ctx(cx), v) is None {
        lemma_still(cx, s, r, t);
    } else if first is Some {
        let ve = value_encoding(type_ctx(cx), v)->0;
        let (b, vf) = lower_arg(cx, a, args, 1, depth);
        if vf is Some {
            let key = wires(first->0, ke.value_field_count);
            let val = wires(vf->0, ve.value_field_count);
            lemma_quiet_map_insert(b, slot, key, ke, val, ve);
            lemma_insert_errors(b, slot, key, ke, val, ve);
        }
        lemma_follow_pair(free, cx, s, t, args, depth);
        lemma_on(cx, s, b, r, w);
    } else {
        if !free && args.len() >= 2 {
            if yields_first(cx, args, depth) {
                lemma_arg_wire(cx, s, args, depth);
            }
            assert(yields(cx, args[0], depth) || witness_free(args[1], true));
        }
        lemma_follow_arg(free, cx, s, t, args, depth);
    }
}

proof fn lemma_follow_set(
    free: bool,
    cx: ContractV,
    s: EmitV,
    t: TrackerV,
    slot: u8,
    elem: TyV,
    method: Seq<char>,
    args: Seq<ExprV>,
    depth: nat,
)
    requires
        witness_free_helpers(cx),
        mirrors(s, t),
        all_fit(free, cx, s, lower_set_method(cx, s, slot, elem, method, args, depth).0, args, depth),
        free || free_behind(args, 1, true),
    ensures
        follows(
            cx,
            s,
            lower_set_method(cx, s, slot, elem, method, args, depth).0,
            walk_list(cx, t, args, args.len()),
        ),
    decreases depth, args, 1nat,
{
    let r = lower_set_method(cx, s, slot, elem, method, args, depth).0;
    if free {
        lemma_walk_list_free(cx, t, args, args.len(), true);
    }
    if value_encoding(type_ctx(cx), elem) is Some && (method == "contains"@ || method == "member"@ || method
        == "insert"@ || method == "remove"@) {
        let ke = value_encoding(type_ctx(cx), elem)->0;
        let (a, first) = lower_arg(cx, s, args, 0, depth);
        if first is Some {
            let key = wires(first->0, ke.value_field_count);
            lemma_quiet_map_member(a, slot, key, ke);
            lemma_quiet_map_remove(a, slot, key, ke);
            lemma_quiet_set_insert(a, slot, key, ke);
            lemma_member_errors(a, slot, key, ke);
        }
        lemma_follow_arg(free, cx, s, t, args, depth);
        lemma_on(cx, s, a, r, walk_list(cx, t, args, args.len()));
    } else {
        lemma_still(cx, s, r, t);
    }
}

proof fn lemma_follow_tree(
    free: bool,
    cx: ContractV,
    s: EmitV,
    t: TrackerV,
    slot: u8,
    method: Seq<char>,
    args: Seq<ExprV>,
    depth: nat,
)
    requires
        witness_free_helpers(cx),
        mirrors(s, t),
        all_fit(free, cx, s, lower_merkle_method(cx, s, slot, method, args, depth).0, args, depth),
        free || free_behind(args, 1, true),
    ensures
        follows(
            cx,
            s,
            lower_merkle_method(cx, s, slot, method, args, depth).0,
            walk_list(cx, t, args, args.len()),
        ),
    decreases depth, args, 1nat,
{
    let r = lower_merkle_method(cx, s, slot, method, args, depth).0;
    if free {
        lemma_walk_list_free(cx, t, args, args.len(), true);
    }
    if method == "check_root"@ || (method == "insert"@ && slot_leaf_len(cx, slot) is Some) {
        let (a, first) = lower_arg(cx, s, args, 0, depth);
        if first is Some {
            lemma_quiet_check_root(a, slot, first->0);
            lemma_tree_errors(a, slot, first->0, slot_leaf_len(cx, slot)->0);
            lemma_quiet_merkle_insert(a, slot, first->0, slot_leaf_len(cx, slot)->0);
        }
        lemma_follow_arg(free, cx, s, t, args, depth);
        lemma_on(cx, s, a, r, walk_list(cx, t, args, args.len()));
    } else {
        lemma_still(cx, s, r, t);
    }
}

proof fn lemma_member_errors(s: EmitV, slot: u8, key: Seq<u32>, ke: EncodingV)
    ensures
        s.errors.len() <= map_member(s, slot, key, ke).0.errors.len(),
        s.errors.len() <= map_remove(s, slot, key, ke).errors.len(),
        s.errors.len() <= set_insert(s, slot, key, ke).errors.len(),
{
    crate::emission_laws::lemma_map_member(false, s, slot, key, ke);
    crate::emission_laws::lemma_map_remove(false, s, slot, key, ke);
    crate::emission_laws::lemma_set_insert(false, s, slot, key, ke);
    reveal(continues);
}

proof fn lemma_lookup_errors(cx: ContractV, s: EmitV, slot: u8, key: Seq<u32>, ke: EncodingV, vt: TyV, ve: EncodingV)
    ensures
        s.errors.len() <= map_lookup(cx, s, slot, key, ke, vt, ve).0.errors.len(),
{
    crate::emission_laws::lemma_map_lookup(false, cx, s, slot, key, ke, vt, ve);
    reveal(continues);
}

proof fn lemma_insert_errors(s: EmitV, slot: u8, key: Seq<u32>, ke: EncodingV, val: Seq<u32>, ve: EncodingV)
    ensures
        s.errors.len() <= map_insert(s, slot, key, ke, val, ve).errors.len(),
{
    crate::emission_laws::lemma_map_insert(false, s, slot, key, ke, val, ve);
    reveal(continues);
}

proof fn lemma_tree_errors(s: EmitV, slot: u8, digest: u32, n: u32)
    ensures
        s.errors.len() <= merkle_check_root(s, slot, digest).0.errors.len(),
        s.errors.len() <= merkle_insert(s, slot, digest, n).errors.len(),
{
    crate::emission_laws::lemma_merkle_check_root(false, s, slot, digest);
    crate::emission_laws::lemma_merkle_insert(false, s, slot, digest, n);
    reveal(continues);
}

// ---- the laws

proof fn lemma_bound_params(params: Seq<ParamV>, n: nat)
    requires
        forall|i: int| 0 <= i < params.len() ==> ordinary_name((#[trigger] params[i]).name),
    ensures
        mirrors(with_params(start_state(), params, n), fresh_tracker()),
        with_params(start_state(), params, n).instructions.len() == 0,
        with_params(start_state(), params, n).poisoned == Set::<Seq<char>>::empty(),
    decreases n,
{
    reveal(mirrors);
    if n > 0 && n <= params.len() {
        lemma_bound_params(params, (n - 1) as nat);
    }
}

proof fn lemma_constrained(cx: ContractV, s: EmitV, params: Seq<ParamV>, n: nat)
    ensures
        quiet(s, with_constraints(cx, s, params, n)),
        with_constraints(cx, s, params, n).poisoned == s.poisoned,
    decreases n,
{
    broadcast use crate::private_inputs::single;

    reveal(put);

    if n > 0 && n <= params.len() {
        lemma_constrained(cx, s, params, (n - 1) as nat);
    }
}

/// A circuit draws its private inputs in the order of the walk over its body:
/// for each event as many as the witness value has elements, guarded where the
/// event lies in a branch.
pub proof fn private_inputs_follow_the_walk(cx: ContractV, c: CircuitV)
    requires
        lowered_circuit(cx, c).errors.len() == 0,
        witness_free_helpers(cx),
        all_regular(cx, c.body, cx.helpers.len(), true),
        forall|i: int| 0 <= i < c.params.len() ==> ordinary_name((#[trigger] c.params[i]).name),
    ensures
        private_inputs(instructions_of(cx, c)) == expanded(
            cx,
            walk_list(cx, fresh_tracker(), c.body, c.body.len()).1,
        ),
{
    broadcast use crate::private_inputs::single;

    let s = with_params(start_state(), c.params, c.params.len());
    let p = circuit_prologue(cx, c);
    let g = guarded_start(c);
    let r = lower_seq(cx, p, c.body, c.body.len(), cx.helpers.len()).0;
    lemma_bound_params(c.params, c.params.len());
    lemma_constrained(cx, g, c.params, c.params.len());
    assert(private_inputs(s.instructions) =~= Seq::<bool>::empty());
    assert(mirrors(p, fresh_tracker())) by {
        reveal(mirrors);
    }
    assert(sound_names(p)) by {
        reveal(emit);
    }
    assert(r.errors.len() == 0) by {
        reveal(put);
    }
    lemma_follow_seq(false, cx, p, fresh_tracker(), c.body, c.body.len(), cx.helpers.len());
    reveal(draws);
}

} // verus!
