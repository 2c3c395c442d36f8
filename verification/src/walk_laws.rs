//! The circuits of parsed contracts draw their private inputs as the walk over
//! their bodies reports them.
use crate::circuit_laws::instructions_of;
use crate::contract::{CircuitV, ContractV};
use crate::declaring::contract_of;
use crate::expr::{AssertV, ExprV};
use crate::lowering::{evaluation_order, lowered_circuit, witness_key};
use crate::parse_laws::accepted_helpers_draw_no_witness;
use crate::private_events::{fresh_tracker, walk_list};
use crate::private_inputs::private_inputs;
use crate::renaming_laws::{bound, bound_fields, bound_list};
use crate::syntax::ItemMod;
use crate::witness_free::{all_witness_free, fields_witness_free, ordinary_name, witness_free};
use crate::witness_laws::{all_regular, expanded, fields_in_turn, fields_regular, free_behind, in_turn};
use crate::witness_laws::{private_inputs_follow_the_walk, regular};
use crate::yields::{lemma_order_in_range, yields};
use vstd::prelude::*;

verus! {

/// Whether a name has no dot in it, as no identifier has.
pub open spec fn dotless(name: Seq<char>) -> bool {
    !name.contains('.')
}

/// Whether no name of a list has a dot in it.
pub open spec fn all_dotless(names: Seq<Seq<char>>) -> bool {
    forall|i: int| 0 <= i < names.len() ==> dotless(#[trigger] names[i])
}

proof fn lemma_ordinary(name: Seq<char>)
    requires
        dotless(name),
    ensures
        ordinary_name(name),
{
    reveal_strlit("witness.");
    assert forall|f: Seq<char>| name != #[trigger] witness_key(f) by {
        assert(witness_key(f)[7] == '.');
        assert(witness_key(f).contains('.'));
    }
}

proof fn lemma_parts(a: Seq<Seq<char>>, b: Seq<Seq<char>>)
    requires
        all_dotless(a + b),
    ensures
        all_dotless(a),
        all_dotless(b),
{
    assert forall|i: int| 0 <= i < a.len() implies dotless(#[trigger] a[i]) by {
        assert((a + b)[i] == a[i]);
    }
    assert forall|i: int| 0 <= i < b.len() implies dotless(#[trigger] b[i]) by {
        assert((a + b)[a.len() + i] == b[i]);
    }
}

/// What holds of an expression whatever its names holds of it with ordinary
/// names.
pub open spec fn lifts(cx: ContractV, e: ExprV, depth: nat) -> bool {
    &&& witness_free(e, false) ==> witness_free(e, true)
    &&& regular(cx, e, depth, false) ==> regular(cx, e, depth, true)
}

proof fn lemma_plain(cx: ContractV, e: ExprV, depth: nat)
    requires
        all_dotless(bound(e)),
    ensures
        lifts(cx, e, depth),
    decreases e, 0nat,
{
    match e {
        ExprV::LedgerAccess { args, .. } => lemma_plain_list(cx, args, args.len(), depth),
        ExprV::WitnessCall { args, .. } => lemma_plain_list(cx, args, args.len(), depth),
        ExprV::FnCall { args, .. } => lemma_plain_list(cx, args, args.len(), depth),
        ExprV::MethodCall { receiver, args, .. } => {
            lemma_parts(bound(*receiver), bound_list(args, args.len()));
            lemma_plain(cx, *receiver, depth);
            lemma_plain_list(cx, args, args.len(), depth);
        }
        ExprV::BinaryOp { lhs, rhs, .. } => {
            lemma_parts(bound(*lhs), bound(*rhs));
            lemma_plain(cx, *lhs, depth);
            lemma_plain(cx, *rhs, depth);
        }
        ExprV::UnaryOp { expr, .. } => lemma_plain(cx, *expr, depth),
        ExprV::Reference { expr, .. } => lemma_plain(cx, *expr, depth),
        ExprV::Disclose { value, .. } => lemma_plain(cx, *value, depth),
        ExprV::Block { stmts, .. } => lemma_plain_list(cx, stmts, stmts.len(), depth),
        ExprV::EnumPayload { scrutinee, .. } => lemma_plain(cx, *scrutinee, depth),
        ExprV::Index { array, .. } => lemma_plain(cx, *array, depth),
        ExprV::Tuple { elements, .. } => lemma_plain_list(cx, elements, elements.len(), depth),
        ExprV::ArrayLit { elements, .. } => lemma_plain_list(cx, elements, elements.len(), depth),
        ExprV::StructInit { name, fields, .. } => {
            let order = evaluation_order(cx, name, fields);
            lemma_plain_fields(cx, fields, fields.len(), depth);
            lemma_order_in_range(cx, name, fields);
            if fields_in_turn(cx, fields, order, depth, false) {
                assert forall|i: int, j: int| 0 <= i < j < order.len() implies yields(
                    cx,
                    fields[#[trigger] order[i]].1,
                    depth,
                ) || witness_free(fields[#[trigger] order[j]].1, true) by {
                    assert(lifts(cx, fields[order[j]].1, depth));
                }
            }
        }
        ExprV::Let { name, value, .. } => {
            assert(bound(e) =~= bound(*value) + seq![name]);
            lemma_parts(bound(*value), seq![name]);
            assert(seq![name][0] == name);
            lemma_ordinary(name);
            lemma_plain(cx, *value, depth);
        }
        ExprV::Assert { kind, .. } => match kind {
            AssertV::Assert(c) => lemma_plain(cx, *c, depth),
            AssertV::AssertEq(l, r) => {
                lemma_parts(bound(*l), bound(*r));
                lemma_plain(cx, *l, depth);
                lemma_plain(cx, *r, depth);
            }
        },
        ExprV::If { cond, then_branch, else_branch, .. } => {
            let first = bound(*cond) + bound_list(then_branch, then_branch.len());
            match else_branch {
                Some(b) => {
                    lemma_parts(first, bound_list(b, b.len()));
                    lemma_plain_list(cx, b, b.len(), depth);
                }
                None => {}
            }
            lemma_parts(bound(*cond), bound_list(then_branch, then_branch.len()));
            lemma_plain(cx, *cond, depth);
            lemma_plain_list(cx, then_branch, then_branch.len(), depth);
        }
        ExprV::Return { value, .. } => match value {
            Some(v) => lemma_plain(cx, *v, depth),
            None => {}
        },
        _ => {}
    }
}

proof fn lemma_plain_list(cx: ContractV, es: Seq<ExprV>, n: nat, depth: nat)
    requires
        n <= es.len(),
        all_dotless(bound_list(es, n)),
    ensures
        forall|i: int| 0 <= i < n ==> lifts(cx, #[trigger] es[i], depth),
        n == es.len() && all_witness_free(es, false) ==> all_witness_free(es, true),
        n == es.len() && all_regular(cx, es, depth, false) ==> all_regular(cx, es, depth, true),
        n == es.len() && in_turn(cx, es, depth, false) ==> in_turn(cx, es, depth, true),
        forall|k: nat| n == es.len() && #[trigger] free_behind(es, k, false) ==> free_behind(es, k, true),
    decreases es, n,
{
    if n > 0 {
        lemma_parts(bound_list(es, (n - 1) as nat), bound(es[n - 1]));
        lemma_plain_list(cx, es, (n - 1) as nat, depth);
        lemma_plain(cx, es[n - 1], depth);
    }
}

proof fn lemma_plain_fields(cx: ContractV, fs: Seq<(Seq<char>, ExprV)>, n: nat, depth: nat)
    requires
        n <= fs.len(),
        all_dotless(bound_fields(fs, n)),
    ensures
        forall|i: int| 0 <= i < n ==> lifts(cx, (#[trigger] fs[i]).1, depth),
        n == fs.len() && fields_witness_free(fs, false) ==> fields_witness_free(fs, true),
        n == fs.len() && fields_regular(cx, fs, depth, false) ==> fields_regular(cx, fs, depth, true),
    decreases fs, n,
{
    if n > 0 {
        lemma_parts(bound_fields(fs, (n - 1) as nat), bound(fs[n - 1].1));
        lemma_plain_fields(cx, fs, (n - 1) as nat, depth);
        lemma_plain(cx, fs[n - 1].1, depth);
    }
}

/// Whether the parameters and bindings of a circuit have identifiers as names.
pub open spec fn has_identifiers(c: CircuitV) -> bool {
    &&& forall|i: int| 0 <= i < c.params.len() ==> dotless((#[trigger] c.params[i]).name)
    &&& all_dotless(bound_list(c.body, c.body.len()))
}

/// A circuit of an accepted contract, lowered without an error, draws its
/// private inputs in the order of the walk over its body. Besides identifiers
/// as names, the one thing asked is that lowering evaluates all that the walk
/// visits: no operand without a wire stands in front of one that draws a
/// witness value.
pub proof fn parsed_circuits_follow_the_walk(m: ItemMod, cx: ContractV, i: int)
    requires
        contract_of(m) matches Ok(c) && c == cx,
        0 <= i < cx.circuits.len(),
        has_identifiers(cx.circuits[i]),
        lowered_circuit(cx, cx.circuits[i]).errors.len() == 0,
        all_regular(cx, cx.circuits[i].body, cx.helpers.len(), false),
    ensures
        private_inputs(instructions_of(cx, cx.circuits[i])) == expanded(
            cx,
            walk_list(cx, fresh_tracker(), cx.circuits[i].body, cx.circuits[i].body.len()).1,
        ),
{
    let c = cx.circuits[i];
    accepted_helpers_draw_no_witness(m);
    lemma_plain_list(cx, c.body, c.body.len(), cx.helpers.len());
    assert forall|j: int| 0 <= j < c.params.len() implies ordinary_name((#[trigger] c.params[j]).name) by {
        lemma_ordinary(c.params[j].name);
    }
    private_inputs_follow_the_walk(cx, c);
}

} // verus!
