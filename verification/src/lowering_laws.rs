//! What lowering one expression does to the state: what it appends, what a
//! witness read allocates, and which markers leave no trace.
use crate::circuit_laws::{lemma_lower, lemma_lower_seq};
use crate::contract::{CircuitV, ContractV};
use crate::emission::{io_guard, private_block, type_ctx, value_encoding, witness_layout, witness_type, EmitV};
use crate::emission_laws::{cells, continues, covered, guard_of, is_io, placed};
use crate::expr::ExprV;
use crate::lowering::{any_return, checked_list, checked_returns, circuit_prologue, has_return, lower, lower_seq};
use crate::lowering::{lowered_circuit, param_constraint, witness_key};
use crate::nocturne_type::{bytes_len, layout_matches_encoding, resolution, FR_BYTES_STORED};
use crate::private_inputs::{lemma_private_block, private_inputs};
use crate::syntax::{Span, TyV};
use crate::text::{no_spaces, without_prefix};
use crate::typing::uint_bits;
use crate::zkir::InstructionV;
use vstd::prelude::*;

verus! {

proof fn lemma_cells_add(a: Seq<InstructionV>, b: Seq<InstructionV>)
    ensures
        cells(a + b) == cells(a) + cells(b),
    decreases b.len(),
{
    if b.len() == 0 {
        assert(a + b =~= a);
    } else {
        lemma_cells_add(a, b.drop_last());
        assert((a + b).drop_last() =~= a + b.drop_last());
    }
}

/// What lowering appends to a list of instructions.
pub open spec fn appended(s: EmitV, t: EmitV) -> Seq<InstructionV> {
    t.instructions.skip(s.instructions.len() as int)
}

/// Lowering an expression only appends: the instructions so far stay in front,
/// and the wire counter moves by the cells of what is new, in 32-bit
/// arithmetic.
pub proof fn lowering_appends(cx: ContractV, s: EmitV, e: ExprV, depth: nat)
    ensures
        s.instructions.len() <= lower(cx, s, e, depth).0.instructions.len(),
        lower(cx, s, e, depth).0.instructions.take(s.instructions.len() as int) =~= s.instructions,
        lower(cx, s, e, depth).0.next_index == (s.next_index + cells(appended(s, lower(cx, s, e, depth).0)))
            % 0x1_0000_0000,
{
    lemma_lower(false, cx, s, e, depth);
    lemma_appends(s, lower(cx, s, e, depth).0);
}

proof fn lemma_appends(s: EmitV, t: EmitV)
    requires
        continues(false, s, t, 0),
    ensures
        s.instructions.len() <= t.instructions.len(),
        t.instructions.take(s.instructions.len() as int) =~= s.instructions,
        t.next_index == (s.next_index + cells(appended(s, t))) % 0x1_0000_0000,
{
    reveal(continues);
    let new = appended(s, t);
    assert(t.instructions =~= s.instructions + new);
    lemma_cells_add(s.instructions, new);
}

/// The first read of a witness field takes one private input per element of
/// its type, under the guard of the place: none outside branches.
pub proof fn first_read_takes_the_whole_value(cx: ContractV, s: EmitV, span: Span, field: Seq<char>, depth: nat)
    requires
        witness_type(cx, field) is Some,
        !s.variables.contains_key(witness_key(field)),
        !s.guarded_witness_fields.contains(field),
        witness_layout(type_ctx(cx), witness_type(cx, field)->0).len() > 0,
    ensures
        ({
            let (t, wire) = lower(cx, s, ExprV::WitnessAccess { span, field }, depth);
            let width = witness_layout(type_ctx(cx), witness_type(cx, field)->0).len();
            &&& wire is Some
            &&& t.errors == s.errors
            &&& private_inputs(t.instructions) == private_inputs(s.instructions) + Seq::new(
                width,
                |i: int| s.in_conditional,
            )
            &&& forall|p: int|
                s.instructions.len() <= p < t.instructions.len() && is_io(#[trigger] t.instructions[p]) ==> guard_of(
                    t.instructions[p],
                ) == io_guard(s)
        }),
{
    let e = ExprV::WitnessAccess { span, field };
    let t = lower(cx, s, e, depth).0;
    let layout = witness_layout(type_ctx(cx), witness_type(cx, field)->0);
    lemma_private_block(s, layout, layout.len());
    lemma_block_spans(s, layout, layout.len());
    lemma_lower(false, cx, s, e, depth);
    assert forall|p: int|
        s.instructions.len() <= p < t.instructions.len() && is_io(#[trigger] t.instructions[p]) implies guard_of(
        t.instructions[p],
    ) == io_guard(s) by {
        reveal(continues);
        assert(placed(s, t, p));
        assert(!covered(s, t, p));
    }
}

proof fn lemma_block_spans(s: EmitV, layout: Seq<crate::nocturne_type::FrLayout>, n: nat)
    ensures
        private_block(s, layout, n).0.branch_spans == s.branch_spans,
        private_block(s, layout, n).0.errors == s.errors,
    decreases n,
{
    reveal(crate::emission::emit);
    reveal(crate::emission::put);
    if n > 0 && n <= layout.len() {
        lemma_block_spans(s, layout, (n - 1) as nat);
    }
}

/// A second read of a witness field: behind a first read outside branches it
/// has the same wire and adds nothing; behind a first read inside a branch it
/// is an error and adds no instruction.
pub proof fn second_read_is_cached_or_refused(
    cx: ContractV,
    s: EmitV,
    span: Span,
    again: Span,
    field: Seq<char>,
    depth: nat,
)
    requires
        witness_type(cx, field) is Some,
        !s.variables.contains_key(witness_key(field)),
        !s.guarded_witness_fields.contains(field),
        witness_layout(type_ctx(cx), witness_type(cx, field)->0).len() > 0,
    ensures
        ({
            let (t, wire) = lower(cx, s, ExprV::WitnessAccess { span, field }, depth);
            let (u, second) = lower(cx, t, ExprV::WitnessAccess { span: again, field }, depth);
            &&& !s.in_conditional ==> u == t && second == wire
            &&& s.in_conditional ==> second is None && u.instructions == t.instructions && u.errors.len()
                == t.errors.len() + 1
        }),
{
    let layout = witness_layout(type_ctx(cx), witness_type(cx, field)->0);
    lemma_private_block(s, layout, layout.len());
}

/// A reference adds nothing to the circuit: `&x` lowers as `x`.
pub proof fn reference_is_transparent(cx: ContractV, s: EmitV, span: Span, value: ExprV, depth: nat)
    ensures
        lower(cx, s, ExprV::Reference { span, expr: Box::new(value) }, depth) == lower(cx, s, value, depth),
{
}

// ---- trailing returns

/// Whatever holds no `return` gives no complaint about one.
proof fn lemma_no_complaint(errors: Seq<Seq<char>>, e: ExprV, tail: bool)
    requires
        !has_return(e),
    ensures
        checked_returns(errors, e, tail) == errors,
    decreases e, 0nat,
{
    match e {
        ExprV::Block { stmts, .. } => lemma_no_complaints(errors, stmts, stmts.len(), tail),
        ExprV::If { then_branch, else_branch, .. } => {
            lemma_no_complaints(errors, then_branch, then_branch.len(), tail);
            match else_branch {
                Some(eb) => lemma_no_complaints(errors, eb, eb.len(), tail),
                None => {}
            }
        }
        _ => {}
    }
}

proof fn lemma_no_complaints(errors: Seq<Seq<char>>, es: Seq<ExprV>, n: nat, tail: bool)
    requires
        !any_return(es, n),
    ensures
        checked_list(errors, es, n, tail) == errors,
    decreases es, n,
{
    if n > 0 && n <= es.len() {
        lemma_no_complaints(errors, es, (n - 1) as nat, tail);
        lemma_no_complaint(errors, es[n - 1], tail && n == es.len());
    }
}

proof fn lemma_checked_alike(errors: Seq<Seq<char>>, body: Seq<ExprV>, x: ExprV, y: ExprV, n: nat)
    requires
        n <= body.len(),
    ensures
        checked_list(errors, body.push(x), n, true) == checked_list(errors, body.push(y), n, true),
    decreases n,
{
    if n > 0 {
        lemma_checked_alike(errors, body, x, y, (n - 1) as nat);
        assert(body.push(x)[n - 1] == body.push(y)[n - 1]);
    }
}

proof fn lemma_lowered_alike(cx: ContractV, s: EmitV, body: Seq<ExprV>, x: ExprV, y: ExprV, n: nat, depth: nat)
    requires
        n <= body.len(),
    ensures
        lower_seq(cx, s, body.push(x), n, depth) == lower_seq(cx, s, body.push(y), n, depth),
    decreases n,
{
    if n > 0 {
        lemma_lowered_alike(cx, s, body, x, y, (n - 1) as nat, depth);
        assert(body.push(x)[n - 1] == body.push(y)[n - 1]);
    }
}

/// A trailing `return x` and a trailing `x` give the same circuit, with the
/// same errors.
pub proof fn trailing_return_is_its_value(cx: ContractV, c: CircuitV, span: Span, x: ExprV)
    requires
        !has_return(x),
    ensures
        lowered_circuit(
            cx,
            CircuitV { body: c.body.push(ExprV::Return { span, value: Some(Box::new(x)) }), ..c },
        ) == lowered_circuit(cx, CircuitV { body: c.body.push(x), ..c }),
{
    let y = ExprV::Return { span, value: Some(Box::new(x)) };
    let (cx1, cy) = (CircuitV { body: c.body.push(x), ..c }, CircuitV { body: c.body.push(y), ..c });
    let n = c.body.len();
    let depth = cx.helpers.len();
    let p = circuit_prologue(cx, cx1);
    let base = circuit_prologue(cx, CircuitV { body: seq![], ..c });
    lemma_checked_alike(base.errors, c.body, x, y, n);
    let before = checked_list(base.errors, c.body.push(x), n, true);
    lemma_no_complaint(before, x, true);
    assert(c.body.push(x)[n as int] == x && c.body.push(y)[n as int] == y);
    assert(checked_list(base.errors, c.body.push(x), n + 1, true) == before);
    assert(checked_returns(before, y, true) == before);
    assert(checked_list(base.errors, c.body.push(y), n, true) == before);
    assert(checked_list(base.errors, c.body.push(y), n + 1, true) == before);
    assert(circuit_prologue(cx, cx1) == circuit_prologue(cx, cy));
    lemma_lowered_alike(cx, p, c.body, x, y, n, depth);
    let (s, _) = lower_seq(cx, p, c.body.push(x), n, depth);
    lemma_lower_seq(false, cx, p, c.body.push(x), n, depth);
    assert(!p.in_helper) by {
        lemma_outside_helpers(cx, cx1);
    }
    assert(!s.in_helper);
    assert(lower(cx, s, y, depth) == lower(cx, s, x, depth));
}

proof fn lemma_outside_helpers(cx: ContractV, c: CircuitV)
    ensures
        !circuit_prologue(cx, c).in_helper,
{
    crate::circuit_laws::lemma_prologue_frame(cx, c);
}

/// Whether a type is written as a boolean or an integer, whose constraint goes
/// by the text.
pub open spec fn is_scalar_text(text: Seq<char>) -> bool {
    text == "Boolean"@ || text == "bool"@ || without_prefix(text, "Uint<"@) is Some || uint_bits(text) is Some
}

/// A public parameter is one wire: a type of two or more field elements is
/// refused with one error, and adds no instruction. Byte strings are refused
/// above the bytes that one element holds.
pub proof fn wide_parameters_are_refused(cx: ContractV, s: EmitV, var: u32, t: TyV)
    requires
        !is_scalar_text(no_spaces(t.text)),
        without_prefix(no_spaces(t.text), "Bytes<"@) is Some ==> (bytes_len(no_spaces(t.text)) matches Some(n) && n
            > FR_BYTES_STORED),
        value_encoding(type_ctx(cx), t) matches Some(e) && e.value_field_count >= 2,
    ensures
        param_constraint(cx, s, var, t).errors.len() == s.errors.len() + 1,
        param_constraint(cx, s, var, t).instructions == s.instructions,
{
    layout_matches_encoding(resolution(type_ctx(cx), t)->0);
}

} // verus!
