//! The shapes of values: parts stand one behind the other, in order, and
//! widths hold what they are the widths of.
use crate::aligned::{aligned_code, aligned_elements, aligned_fields, aligned_repeat};
use crate::contract::{CircuitV, ContractV, StructFieldV};
use crate::deploy_laws::{lemma_one_more, stand_in_order};
use crate::emission::{common_width, comparison_width, put, EmitV};
use crate::expr::ExprV;
use crate::lowering::{circuit_prologue, lower_seq, lowered_circuit};
use crate::nocturne_type::{chunks, composed, encoding_of, layout_of, layout_times, layouts, NocturneTypeV, TypeCtxV};
use crate::syntax::TyV;
use crate::text::dec;
use crate::typing::{bit_length, lemma_bit_length_bound, lemma_pow2_128, literal_width};
use crate::zkir::InstructionV;
use vstd::arithmetic::power2::pow2;
use vstd::prelude::*;

verus! {

// ---- layouts

/// The layout of a tuple or struct is that of its components, one behind the
/// other: the result holds where each begins, and the end.
pub proof fn components_follow_each_other(comps: Seq<NocturneTypeV>, n: nat) -> (starts: Seq<int>)
    requires
        n <= comps.len(),
    ensures
        starts.len() == n + 1,
        starts[0] == 0,
        starts[n as int] == layouts(comps, n).len(),
        forall|i: int|
            0 <= i < n ==> 0 <= #[trigger] starts[i] && starts[i + 1] == starts[i] + layout_of(comps[i]).len() && starts[i
                + 1] <= layouts(comps, n).len() && layouts(comps, n).subrange(starts[i], starts[i + 1]) == layout_of(
                comps[i],
            ),
    decreases n,
{
    if n == 0 {
        seq![0int]
    } else {
        let before = components_follow_each_other(comps, (n - 1) as nat);
        let fewer = layouts(comps, (n - 1) as nat);
        let last = layout_of(comps[n - 1]);
        let all = layouts(comps, n);
        let starts = before.push((fewer.len() + last.len()) as int);
        assert forall|i: int| 0 <= i < n implies 0 <= #[trigger] starts[i] && starts[i + 1] == starts[i] + layout_of(
            comps[i],
        ).len() && starts[i + 1] <= all.len() && all.subrange(starts[i], starts[i + 1]) == layout_of(comps[i]) by {
            if i < n - 1 {
                assert(starts[i] == before[i] && starts[i + 1] == before[i + 1]);
                assert(all.subrange(starts[i], starts[i + 1]) =~= fewer.subrange(before[i], before[i + 1]));
            } else {
                assert(all.subrange(starts[i], starts[i + 1]) =~= last);
            }
        }
        starts
    }
}

/// The layout of an array is that of its element at every multiple of the
/// element's length.
pub proof fn array_elements_follow_each_other(l: Seq<crate::nocturne_type::FrLayout>, n: nat, i: int, k: int)
    requires
        0 <= i < n,
        0 <= k < l.len(),
    ensures
        layout_times(l, n).len() == n * l.len(),
        i * l.len() + k < layout_times(l, n).len(),
        layout_times(l, n)[i * l.len() + k] == l[k],
    decreases n,
{
    let len = l.len() as int;
    lemma_times_len(l, n);
    lemma_times_len(l, (n - 1) as nat);
    assert((n - 1) * len + len == n * len) by (nonlinear_arith);
    if i < n - 1 {
        array_elements_follow_each_other(l, (n - 1) as nat, i, k);
        assert(i * len + k < (n - 1) * len) by (nonlinear_arith)
            requires
                i < n - 1,
                0 <= k < len,
        ;
    } else {
        assert(i * len == (n - 1) * len);
    }
    assert(0 <= i * len) by (nonlinear_arith)
        requires
            0 <= i,
            0 <= len,
    ;
}

proof fn lemma_times_len(l: Seq<crate::nocturne_type::FrLayout>, n: nat)
    ensures
        layout_times(l, n).len() == n * l.len(),
    decreases n,
{
    let len = l.len() as int;
    if n > 0 {
        lemma_times_len(l, (n - 1) as nat);
        assert((n - 1) * len + len == n * len) by (nonlinear_arith);
    } else {
        assert(0 * len == 0);
    }
}

/// Bytes are stored 31 to an element, in as few elements as hold them.
pub proof fn bytes_fill_their_elements(n: u32)
    ensures
        n <= 31 * chunks(n),
        n > 0 ==> 31 * (chunks(n) - 1) < n,
        n == 0 ==> chunks(n) == 0,
{
}

/// The elements of a composed value count together: as many as its components
/// have.
pub proof fn components_count_together(comps: Seq<NocturneTypeV>, n: nat)
    requires
        0 < n <= comps.len(),
        composed(comps, n) is Some,
    ensures
        composed(comps, (n - 1) as nat) is Some,
        encoding_of(comps[n - 1]) is Some,
        composed(comps, n)->0.count == composed(comps, (n - 1) as nat)->0.count + encoding_of(
            comps[n - 1],
        )->0.value_field_count,
        composed(comps, n)->0.atoms == composed(comps, (n - 1) as nat)->0.atoms + encoding_of(
            comps[n - 1],
        )->0.alignment_atoms.skip(1),
{
}

// ---- widths

/// Two operands are compared at a width that neither exceeds.
pub proof fn comparisons_are_wide_enough(cx: ContractV, s: EmitV, l: ExprV, r: ExprV)
    ensures
        match common_width(cx, s, l, r) {
            Some(w) => comparison_width(cx, s, l) is Some && comparison_width(cx, s, r) is Some && comparison_width(
                cx,
                s,
                l,
            )->0 <= w && comparison_width(cx, s, r)->0 <= w && (comparison_width(cx, s, l)->0 == w || comparison_width(
                cx,
                s,
                r,
            )->0 == w),
            None => comparison_width(cx, s, l) is None || comparison_width(cx, s, r) is None,
        },
{
}

proof fn lemma_digits(n: nat)
    ensures
        n < pow2(bit_length(n)),
        n > 0 ==> bit_length(n) > 0 && pow2((bit_length(n) - 1) as nat) <= n,
    decreases n,
{
    if n == 0 {
        vstd::arithmetic::power2::lemma2_to64();
    } else {
        lemma_digits(n / 2);
        let k = bit_length(n / 2);
        vstd::arithmetic::power2::lemma_pow2_unfold(k + 1);
        if k > 0 {
            vstd::arithmetic::power2::lemma_pow2_unfold(k);
        } else {
            vstd::arithmetic::power2::lemma2_to64();
        }
    }
}

/// A literal fits its width, and no smaller one.
pub proof fn literals_fit_their_width(n: u128)
    ensures
        literal_width(n) >= 1,
        n < pow2(literal_width(n) as nat),
        n > 1 ==> pow2((literal_width(n) - 1) as nat) <= n,
{
    lemma_digits(n as nat);
    lemma_pow2_128();
    lemma_bit_length_bound(n as nat, 128);
    vstd::arithmetic::power2::lemma2_to64();
}

// ---- outputs

/// A circuit with a return type outputs the value of its last statement.
pub proof fn circuits_output_their_last_value(cx: ContractV, c: CircuitV)
    requires
        c.return_type is Some,
        lowered_circuit(cx, c).errors.len() == 0,
    ensures
        ({
            let last = lower_seq(cx, circuit_prologue(cx, c), c.body, c.body.len(), cx.helpers.len()).1;
            last is Some && lowered_circuit(cx, c).instructions.last() == InstructionV::Output { var: last->0 }
        }),
{
    reveal(put);
}

// ---- host values of many parts

/// The parts of a struct's host value are those of its fields, in order, each
/// read from its own field.
pub proof fn struct_parts_stand_in_order(
    cx: TypeCtxV,
    var: Seq<char>,
    fs: Seq<StructFieldV>,
    n: nat,
    depth: nat,
) -> (at: Seq<int>)
    requires
        n <= fs.len(),
    ensures
        stand_in_order(
            aligned_fields(cx, var, fs, n, depth),
            Seq::new(n, |i: int| aligned_code(cx, fs[i].ty, var + " . "@ + fs[i].name, depth)),
            at,
        ),
    decreases n,
{
    let f = |i: int| aligned_code(cx, fs[i].ty, var + " . "@ + fs[i].name, depth);
    if n == 0 {
        let at: Seq<int> = seq![];
        at
    } else {
        let before = struct_parts_stand_in_order(cx, var, fs, (n - 1) as nat, depth);
        let text = aligned_fields(cx, var, fs, (n - 1) as nat, depth);
        let gap = if n == 1 {
            seq![]
        } else {
            " , "@
        };
        lemma_one_more(text, Seq::new((n - 1) as nat, f), before, gap, f(n - 1));
        assert(Seq::new((n - 1) as nat, f).push(f(n - 1)) =~= Seq::new(n, f));
        assert(text + gap + f(n - 1) =~= aligned_fields(cx, var, fs, n, depth));
        before.push((text + gap).len() as int)
    }
}

/// The same of a tuple's components.
pub proof fn tuple_parts_stand_in_order(cx: TypeCtxV, ts: Seq<TyV>, n: nat, depth: nat) -> (at: Seq<int>)
    requires
        n <= ts.len(),
    ensures
        stand_in_order(
            aligned_elements(cx, ts, n, depth),
            Seq::new(n, |i: int| aligned_code(cx, ts[i], "__t . "@ + dec(i as nat), depth)),
            at,
        ),
    decreases n,
{
    let f = |i: int| aligned_code(cx, ts[i], "__t . "@ + dec(i as nat), depth);
    if n == 0 {
        let at: Seq<int> = seq![];
        at
    } else {
        let before = tuple_parts_stand_in_order(cx, ts, (n - 1) as nat, depth);
        let text = aligned_elements(cx, ts, (n - 1) as nat, depth);
        let gap = if n == 1 {
            seq![]
        } else {
            " , "@
        };
        lemma_one_more(text, Seq::new((n - 1) as nat, f), before, gap, f(n - 1));
        assert(Seq::new((n - 1) as nat, f).push(f(n - 1)) =~= Seq::new(n, f));
        assert(text + gap + f(n - 1) =~= aligned_elements(cx, ts, n, depth));
        before.push((text + gap).len() as int)
    }
}

/// The same of an array's elements.
pub proof fn array_parts_stand_in_order(cx: TypeCtxV, t: TyV, n: nat, depth: nat) -> (at: Seq<int>)
    ensures
        stand_in_order(
            aligned_repeat(cx, t, n, depth),
            Seq::new(n, |i: int| aligned_code(cx, t, "__a ["@ + dec(i as nat) + "]"@, depth)),
            at,
        ),
    decreases n,
{
    let f = |i: int| aligned_code(cx, t, "__a ["@ + dec(i as nat) + "]"@, depth);
    if n == 0 {
        let at: Seq<int> = seq![];
        at
    } else {
        let before = array_parts_stand_in_order(cx, t, (n - 1) as nat, depth);
        let text = aligned_repeat(cx, t, (n - 1) as nat, depth);
        let gap = if n == 1 {
            seq![]
        } else {
            " , "@
        };
        lemma_one_more(text, Seq::new((n - 1) as nat, f), before, gap, f(n - 1));
        assert(Seq::new((n - 1) as nat, f).push(f(n - 1)) =~= Seq::new(n, f));
        assert(text + gap + f(n - 1) =~= aligned_repeat(cx, t, n, depth));
        before.push((text + gap).len() as int)
    }
}

} // verus!
