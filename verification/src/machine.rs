//! What circuit instructions compute: a run over memory cells, given the
//! circuit's arguments, the transcripts and the hash functions.
use crate::circuit_laws::lemma_lower;
use crate::contract::ContractV;
use crate::emission::{emit, put, EmitV};
use crate::emission_laws::{cells, continues, lemma_sums_push, slack};
use crate::expr::ExprV;
use crate::lowering::lower;
use crate::zkir::{output_count, AlignmentAtom, Imm, InstructionV};
use vstd::prelude::*;

verus! {

/// What a run depends on besides the instructions.
pub struct MachineV {
    /// The order of the scalar field.
    pub modulus: int,
    /// The circuit's arguments.
    pub inputs: Seq<int>,
    pub transient: spec_fn(Seq<int>) -> int,
    pub persistent: spec_fn(Seq<AlignmentAtom>, Seq<int>) -> (int, int),
    /// The outputs of the public transcript.
    pub public: spec_fn(nat) -> int,
    /// The outputs of the private transcript.
    pub private: spec_fn(nat) -> int,
    /// The cells that an instruction without a meaning here fills.
    pub other: spec_fn(InstructionV, Seq<int>) -> (int, int),
}

/// A run so far.
pub struct RunV {
    pub cells: Seq<int>,
    /// The outputs taken from the public and from the private transcript.
    pub read: nat,
    pub drawn: nat,
    /// The public inputs declared.
    pub declared: Seq<int>,
    /// Whether every constraint is met.
    pub holds: bool,
}

/// A truth value as a field element.
pub open spec fn bit(b: bool) -> int {
    if b {
        1
    } else {
        0
    }
}

/// The integer of a constant.
pub open spec fn imm_value(i: Imm) -> int {
    if i.negative {
        -(i.magnitude as int)
    } else {
        i.magnitude as int
    }
}

/// The values of wires.
pub open spec fn at_all(cells: Seq<int>, ws: Seq<u32>) -> Seq<int> {
    Seq::new(ws.len(), |i: int| cells[ws[i] as int])
}

/// Whether a guard is met; none is always met.
pub open spec fn active(cells: Seq<int>, guard: Option<u32>) -> bool {
    match guard {
        Some(g) => cells[g as int] == 1,
        None => true,
    }
}

/// The value of the cell that an instruction over earlier cells fills; of two
/// cells the first.
pub open spec fn computed(m: MachineV, cells: Seq<int>, i: InstructionV) -> int {
    match i {
        InstructionV::CondSelect { bit, a, b } => if cells[bit as int] == 1 {
            cells[a as int]
        } else {
            cells[b as int]
        },
        InstructionV::Copy { var } => cells[var as int],
        InstructionV::LoadImm { imm } => imm_value(imm) % m.modulus,
        InstructionV::TransientHash { inputs } => (m.transient)(at_all(cells, inputs)),
        InstructionV::PersistentHash { alignment, inputs } => (m.persistent)(alignment, at_all(cells, inputs)).0,
        InstructionV::TestEq { a, b } => bit(cells[a as int] == cells[b as int]),
        InstructionV::Add { a, b } => (cells[a as int] + cells[b as int]) % m.modulus,
        InstructionV::Mul { a, b } => (cells[a as int] * cells[b as int]) % m.modulus,
        InstructionV::Neg { a } => (-cells[a as int]) % m.modulus,
        InstructionV::Not { a } => bit(cells[a as int] == 0),
        InstructionV::LessThan { a, b, .. } => bit(cells[a as int] < cells[b as int]),
        _ => (m.other)(i, cells).0,
    }
}

/// The second of two cells.
pub open spec fn computed_second(m: MachineV, cells: Seq<int>, i: InstructionV) -> int {
    match i {
        InstructionV::PersistentHash { alignment, inputs } => (m.persistent)(alignment, at_all(cells, inputs)).1,
        _ => (m.other)(i, cells).1,
    }
}

/// The constraint that an instruction is.
pub open spec fn met(m: MachineV, cells: Seq<int>, i: InstructionV) -> bool {
    match i {
        InstructionV::Assert { cond } => cells[cond as int] == 1,
        InstructionV::ConstrainEq { a, b } => cells[a as int] == cells[b as int],
        InstructionV::ConstrainToBoolean { var } => cells[var as int] == 0 || cells[var as int] == 1,
        InstructionV::ConstrainBits { var, bits } => cells[var as int] < vstd::arithmetic::power2::pow2(bits as nat),
        InstructionV::LessThan { a, b, bits } => cells[a as int] < vstd::arithmetic::power2::pow2(bits as nat)
            && cells[b as int] < vstd::arithmetic::power2::pow2(bits as nat),
        _ => true,
    }
}

/// One instruction. A transcript read whose guard is not met gives zero and
/// takes nothing.
pub open spec fn step(m: MachineV, r: RunV, i: InstructionV) -> RunV {
    let holds = r.holds && met(m, r.cells, i);
    match i {
        InstructionV::PublicInput { guard } => if active(r.cells, guard) {
            RunV { cells: r.cells.push((m.public)(r.read)), read: r.read + 1, ..r }
        } else {
            RunV { cells: r.cells.push(0), ..r }
        },
        InstructionV::PrivateInput { guard } => if active(r.cells, guard) {
            RunV { cells: r.cells.push((m.private)(r.drawn)), drawn: r.drawn + 1, ..r }
        } else {
            RunV { cells: r.cells.push(0), ..r }
        },
        InstructionV::DeclarePubInput { var } => RunV { declared: r.declared.push(r.cells[var as int]), ..r },
        _ => if output_count(i) == 0 {
            RunV { holds, ..r }
        } else if output_count(i) == 1 {
            RunV { cells: r.cells.push(computed(m, r.cells, i)), holds, ..r }
        } else {
            RunV { cells: r.cells.push(computed(m, r.cells, i)).push(computed_second(m, r.cells, i)), holds, ..r }
        },
    }
}

/// A run of a list of instructions.
pub open spec fn run(m: MachineV, is: Seq<InstructionV>) -> RunV
    decreases is.len(),
{
    if is.len() == 0 {
        RunV { cells: m.inputs, read: 0, drawn: 0, declared: seq![], holds: true }
    } else {
        step(m, run(m, is.drop_last()), is.last())
    }
}

/// The run of what has been lowered so far.
pub open spec fn run_of(m: MachineV, s: EmitV) -> RunV {
    run(m, s.instructions)
}

/// The value that a wire carries.
pub open spec fn carried(m: MachineV, s: EmitV, w: u32) -> int {
    run_of(m, s).cells[w as int]
}

/// Every cell has its own wire: the wires have not wrapped around.
pub open spec fn fits(m: MachineV, s: EmitV) -> bool {
    run_of(m, s).cells.len() == s.next_index
}

/// `t` continues `s`: the same instructions, and more.
#[verifier::opaque]
pub open spec fn comes_before(s: EmitV, t: EmitV) -> bool {
    &&& s.instructions.len() <= t.instructions.len()
    &&& t.instructions.take(s.instructions.len() as int) == s.instructions
    &&& slack(s) == slack(t)
}

// ---- runs that continue

pub(crate) broadcast proof fn lemma_emit_run(m: MachineV, s: EmitV, i: InstructionV)
    ensures
        #[trigger] run_of(m, emit(s, i).0) == step(m, run_of(m, s), i),
        emit(s, i).0.next_index == s.next_index.wrapping_add(output_count(i)),
        emit(s, i).1 == s.next_index,
{
    reveal(emit);
    assert(s.instructions.push(i).drop_last() =~= s.instructions);
}

pub(crate) broadcast proof fn lemma_put_run(m: MachineV, s: EmitV, i: InstructionV)
    ensures
        #[trigger] run_of(m, put(s, i)) == step(m, run_of(m, s), i),
        put(s, i).next_index == s.next_index,
{
    reveal(put);
    assert(s.instructions.push(i).drop_last() =~= s.instructions);
}

pub(crate) broadcast group runs {
    lemma_emit_run,
    lemma_put_run,
}

proof fn lemma_run_len(m: MachineV, is: Seq<InstructionV>)
    ensures
        run(m, is).cells.len() == m.inputs.len() + cells(is),
    decreases is.len(),
{
    if is.len() > 0 {
        lemma_run_len(m, is.drop_last());
    }
}

/// Cells keep their values as a run goes on.
pub(crate) proof fn lemma_run_prefix(m: MachineV, is: Seq<InstructionV>, n: int)
    requires
        0 <= n <= is.len(),
    ensures
        run(m, is.take(n)).cells.len() <= run(m, is).cells.len(),
        forall|k: int|
            0 <= k < run(m, is.take(n)).cells.len() ==> #[trigger] run(m, is).cells[k] == run(m, is.take(n)).cells[k],
        cells(is.take(n)) <= cells(is),
    decreases is.len(),
{
    if n == is.len() {
        assert(is.take(n) =~= is);
    } else {
        lemma_run_prefix(m, is.drop_last(), n);
        assert(is.drop_last().take(n) =~= is.take(n));
    }
}

/// A wire keeps its value.
pub proof fn wires_keep_their_values(m: MachineV, s: EmitV, t: EmitV, w: u32)
    requires
        comes_before(s, t),
        fits(m, t),
    ensures
        fits(m, s),
        s.next_index <= t.next_index,
        w < s.next_index ==> carried(m, t, w) == carried(m, s, w),
{
    reveal(comes_before);
    let n = s.instructions.len() as int;
    lemma_run_prefix(m, t.instructions, n);
    lemma_run_len(m, s.instructions);
    lemma_run_len(m, t.instructions);
    assert(run_of(m, s).cells.len() == s.next_index) by {
        let a: int = s.next_index as int;
        let b: int = t.next_index as int;
        let c: int = cells(s.instructions);
        let d: int = cells(t.instructions);
        let k: int = m.inputs.len() as int;
        assert((a - c) % 0x1_0000_0000 == (b - d) % 0x1_0000_0000);
        assert(b == k + d);
        assert(k + c <= b);
        assert(c >= 0) by {
            lemma_cells_nonneg(s.instructions);
        }
        assert(a == k + c);
    }
}

proof fn lemma_cells_nonneg(is: Seq<InstructionV>)
    ensures
        cells(is) >= 0,
    decreases is.len(),
{
    if is.len() > 0 {
        lemma_cells_nonneg(is.drop_last());
    }
}

pub(crate) proof fn lemma_before_trans(s: EmitV, t: EmitV, u: EmitV)
    requires
        comes_before(s, t),
        comes_before(t, u),
    ensures
        comes_before(s, u),
{
    reveal(comes_before);
    let n = s.instructions.len() as int;
    let k = t.instructions.len() as int;
    assert(u.instructions.take(k).take(n) =~= u.instructions.take(n));
}

pub(crate) broadcast proof fn lemma_emit_before(s: EmitV, i: InstructionV)
    ensures
        #[trigger] comes_before(s, emit(s, i).0),
{
    reveal(comes_before);
    reveal(emit);
    lemma_sums_push(s.instructions, i);
    assert(s.instructions.push(i).take(s.instructions.len() as int) =~= s.instructions);
    let a: int = s.next_index as int;
    let c: int = cells(s.instructions);
    let o: int = output_count(i) as int;
    let b: int = s.next_index.wrapping_add(output_count(i)) as int;
    assert(b == a + o || b == a + o - 0x1_0000_0000);
    assert((b - (c + o)) % 0x1_0000_0000 == (a - c) % 0x1_0000_0000);
}

pub(crate) broadcast proof fn lemma_put_before(s: EmitV, i: InstructionV)
    requires
        output_count(i) == 0,
    ensures
        #[trigger] comes_before(s, put(s, i)),
{
    reveal(comes_before);
    reveal(put);
    lemma_sums_push(s.instructions, i);
    assert(s.instructions.push(i).take(s.instructions.len() as int) =~= s.instructions);
}

/// Lowering an expression continues what was lowered.
pub(crate) proof fn lemma_lower_before(cx: ContractV, s: EmitV, e: ExprV, depth: nat)
    ensures
        comes_before(s, lower(cx, s, e, depth).0),
{
    reveal(comes_before);
    lemma_lower(false, cx, s, e, depth);
    reveal(continues);
    let t = lower(cx, s, e, depth).0;
    assert(t.instructions.take(s.instructions.len() as int) =~= s.instructions);
}

/// A cell filled by one instruction, seen from any later point of the run.
pub(crate) proof fn lemma_cell(m: MachineV, s: EmitV, i: InstructionV, u: EmitV)
    requires
        comes_before(emit(s, i).0, u),
        fits(m, u),
        output_count(i) > 0,
        !(i is PublicInput) && !(i is PrivateInput),
    ensures
        fits(m, s),
        s.next_index < emit(s, i).0.next_index <= u.next_index,
        carried(m, u, s.next_index) == computed(m, run_of(m, s).cells, i),
        output_count(i) == 2 ==> s.next_index + 1 < emit(s, i).0.next_index && carried(
            m,
            u,
            (s.next_index + 1) as u32,
        ) == computed_second(m, run_of(m, s).cells, i),
{
    broadcast use runs;

    let t = emit(s, i).0;
    wires_keep_their_values(m, t, u, s.next_index);
    lemma_emit_before(s, i);
    wires_keep_their_values(m, s, t, 0);
    if output_count(i) == 2 {
        wires_keep_their_values(m, t, u, (s.next_index + 1) as u32);
    }
}

} // verus!
