//! Circuit instructions.
use vstd::prelude::*;

verus! {

/// A position in circuit memory.
pub type Index = u32;

/// A field constant, by sign and magnitude.
#[derive(Clone, Copy, PartialEq, Eq, Structural, Debug)]
pub struct Imm {
    pub negative: bool,
    pub magnitude: u128,
}

/// The constant for an integer of at most 128 bits.
pub open spec fn imm(n: int) -> Imm {
    if n < 0 {
        Imm { negative: true, magnitude: (-n) as u128 }
    } else {
        Imm { negative: false, magnitude: n as u128 }
    }
}

impl Imm {
    /// The constant `n`.
    pub fn from_u128(n: u128) -> (r: Imm)
        ensures
            r == imm(n as int),
    {
        Imm { negative: false, magnitude: n }
    }

    /// The constant `n`.
    pub fn from_i32(n: i32) -> (r: Imm)
        ensures
            r == imm(n as int),
    {
        if n < 0 {
            Imm { negative: true, magnitude: (-(n as i64)) as u128 }
        } else {
            Imm { negative: false, magnitude: n as u128 }
        }
    }
}

/// One atom of a hash input's alignment.
#[derive(Clone, Copy, PartialEq, Eq, Structural, Debug)]
pub enum AlignmentAtom {
    Field,
    Bytes { length: u32 },
}

/// One circuit instruction.
#[derive(Debug, Clone, PartialEq, Eq)]
#[allow(inconsistent_fields)]
pub enum Instruction {
    /// Asserts that `cond` is one.
    Assert { cond: Index },
    /// `a` where `bit` is one, else `b`.
    CondSelect { bit: Index, a: Index, b: Index },
    /// Constrains a value to a number of bits.
    ConstrainBits { var: Index, bits: u32 },
    /// Constrains two values to be equal.
    ConstrainEq { a: Index, b: Index },
    /// Constrains a value to zero or one.
    ConstrainToBoolean { var: Index },
    /// A copy of a value.
    Copy { var: Index },
    /// Declares a value as the next public input.
    DeclarePubInput { var: Index },
    /// Closes a group of `count` public inputs that is active under `guard`.
    PiSkip { guard: Option<Index>, count: u32 },
    /// Adds two curve points.
    EcAdd { a_x: Index, a_y: Index, b_x: Index, b_y: Index },
    /// Multiplies a curve point by a scalar.
    EcMul { a_x: Index, a_y: Index, scalar: Index },
    /// Multiplies the generator by a scalar.
    EcMulGenerator { scalar: Index },
    /// Hashes to a curve point.
    HashToCurve { inputs: Vec<Index> },
    /// Loads a constant.
    LoadImm { imm: Imm },
    /// Quotient and remainder by a power of two.
    DivModPowerOfTwo { var: Index, bits: u32 },
    /// The inverse of `DivModPowerOfTwo`.
    ReconstituteField { divisor: Index, modulus: Index, bits: u32 },
    /// Outputs a value from the circuit.
    Output { var: Index },
    /// Circuit-friendly hash.
    TransientHash { inputs: Vec<Index> },
    /// Long-term hash of inputs with the given alignment.
    PersistentHash { alignment: Vec<AlignmentAtom>, inputs: Vec<Index> },
    /// Whether two values are equal.
    TestEq { a: Index, b: Index },
    /// Field addition.
    Add { a: Index, b: Index },
    /// Field multiplication.
    Mul { a: Index, b: Index },
    /// Field negation.
    Neg { a: Index },
    /// Boolean negation.
    Not { a: Index },
    /// Whether `a < b`, as integers of `bits` bits.
    LessThan { a: Index, b: Index, bits: u32 },
    /// The next public transcript output, or zero where `guard` fails.
    PublicInput { guard: Option<Index> },
    /// The next private transcript output, or zero where `guard` fails.
    PrivateInput { guard: Option<Index> },
}

#[allow(inconsistent_fields)]
pub enum InstructionV {
    Assert { cond: Index },
    CondSelect { bit: Index, a: Index, b: Index },
    ConstrainBits { var: Index, bits: u32 },
    ConstrainEq { a: Index, b: Index },
    ConstrainToBoolean { var: Index },
    Copy { var: Index },
    DeclarePubInput { var: Index },
    PiSkip { guard: Option<Index>, count: u32 },
    EcAdd { a_x: Index, a_y: Index, b_x: Index, b_y: Index },
    EcMul { a_x: Index, a_y: Index, scalar: Index },
    EcMulGenerator { scalar: Index },
    HashToCurve { inputs: Seq<Index> },
    LoadImm { imm: Imm },
    DivModPowerOfTwo { var: Index, bits: u32 },
    ReconstituteField { divisor: Index, modulus: Index, bits: u32 },
    Output { var: Index },
    TransientHash { inputs: Seq<Index> },
    PersistentHash { alignment: Seq<AlignmentAtom>, inputs: Seq<Index> },
    TestEq { a: Index, b: Index },
    Add { a: Index, b: Index },
    Mul { a: Index, b: Index },
    Neg { a: Index },
    Not { a: Index },
    LessThan { a: Index, b: Index, bits: u32 },
    PublicInput { guard: Option<Index> },
    PrivateInput { guard: Option<Index> },
}

impl View for Instruction {
    type V = InstructionV;

    open spec fn view(&self) -> InstructionV {
        match *self {
            Instruction::Assert { cond } => InstructionV::Assert { cond },
            Instruction::CondSelect { bit, a, b } => InstructionV::CondSelect { bit, a, b },
            Instruction::ConstrainBits { var, bits } => InstructionV::ConstrainBits { var, bits },
            Instruction::ConstrainEq { a, b } => InstructionV::ConstrainEq { a, b },
            Instruction::ConstrainToBoolean { var } => InstructionV::ConstrainToBoolean { var },
            Instruction::Copy { var } => InstructionV::Copy { var },
            Instruction::DeclarePubInput { var } => InstructionV::DeclarePubInput { var },
            Instruction::PiSkip { guard, count } => InstructionV::PiSkip { guard, count },
            Instruction::EcAdd { a_x, a_y, b_x, b_y } => InstructionV::EcAdd { a_x, a_y, b_x, b_y },
            Instruction::EcMul { a_x, a_y, scalar } => InstructionV::EcMul { a_x, a_y, scalar },
            Instruction::EcMulGenerator { scalar } => InstructionV::EcMulGenerator { scalar },
            Instruction::HashToCurve { inputs } => InstructionV::HashToCurve { inputs: inputs@ },
            Instruction::LoadImm { imm } => InstructionV::LoadImm { imm },
            Instruction::DivModPowerOfTwo { var, bits } => InstructionV::DivModPowerOfTwo { var, bits },
            Instruction::ReconstituteField { divisor, modulus, bits } => InstructionV::ReconstituteField { divisor, modulus, bits },
            Instruction::Output { var } => InstructionV::Output { var },
            Instruction::TransientHash { inputs } => InstructionV::TransientHash { inputs: inputs@ },
            Instruction::PersistentHash { alignment, inputs } => InstructionV::PersistentHash { alignment: alignment@, inputs: inputs@ },
            Instruction::TestEq { a, b } => InstructionV::TestEq { a, b },
            Instruction::Add { a, b } => InstructionV::Add { a, b },
            Instruction::Mul { a, b } => InstructionV::Mul { a, b },
            Instruction::Neg { a } => InstructionV::Neg { a },
            Instruction::Not { a } => InstructionV::Not { a },
            Instruction::LessThan { a, b, bits } => InstructionV::LessThan { a, b, bits },
            Instruction::PublicInput { guard } => InstructionV::PublicInput { guard },
            Instruction::PrivateInput { guard } => InstructionV::PrivateInput { guard },
        }
    }
}

impl DeepView for Instruction {
    type V = InstructionV;

    open spec fn deep_view(&self) -> InstructionV {
        self.view()
    }
}

/// The number of memory cells that an instruction fills.
pub open spec fn output_count(i: InstructionV) -> u32 {
    match i {
        InstructionV::Assert { .. } => 0,
        InstructionV::ConstrainBits { .. } => 0,
        InstructionV::ConstrainEq { .. } => 0,
        InstructionV::ConstrainToBoolean { .. } => 0,
        InstructionV::DeclarePubInput { .. } => 0,
        InstructionV::PiSkip { .. } => 0,
        InstructionV::Output { .. } => 0,
        InstructionV::EcAdd { .. } => 2,
        InstructionV::EcMul { .. } => 2,
        InstructionV::EcMulGenerator { .. } => 2,
        InstructionV::HashToCurve { .. } => 2,
        InstructionV::DivModPowerOfTwo { .. } => 2,
        InstructionV::PersistentHash { .. } => 2,
        _ => 1,
    }
}

/// The number of memory cells that an instruction fills.
pub fn instruction_output_count(instruction: &Instruction) -> (r: u32)
    ensures
        r == output_count(instruction@),
{
    match instruction {
        Instruction::Assert { .. } => 0,
        Instruction::ConstrainBits { .. } => 0,
        Instruction::ConstrainEq { .. } => 0,
        Instruction::ConstrainToBoolean { .. } => 0,
        Instruction::DeclarePubInput { .. } => 0,
        Instruction::PiSkip { .. } => 0,
        Instruction::Output { .. } => 0,
        Instruction::EcAdd { .. } => 2,
        Instruction::EcMul { .. } => 2,
        Instruction::EcMulGenerator { .. } => 2,
        Instruction::HashToCurve { .. } => 2,
        Instruction::DivModPowerOfTwo { .. } => 2,
        Instruction::PersistentHash { .. } => 2,
        _ => 1,
    }
}

/// A circuit: the first `num_inputs` cells are its arguments.
#[derive(Debug, Clone, PartialEq, Eq)]
pub struct IrSource {
    pub num_inputs: u32,
    pub do_communications_commitment: bool,
    pub instructions: Vec<Instruction>,
}

pub struct IrSourceV {
    pub num_inputs: u32,
    pub do_communications_commitment: bool,
    pub instructions: Seq<InstructionV>,
}

impl View for IrSource {
    type V = IrSourceV;

    open spec fn view(&self) -> IrSourceV {
        IrSourceV {
            num_inputs: self.num_inputs,
            do_communications_commitment: self.do_communications_commitment,
            instructions: self.instructions.deep_view(),
        }
    }
}

impl DeepView for IrSource {
    type V = IrSourceV;

    open spec fn deep_view(&self) -> IrSourceV {
        self@
    }
}

} // verus!
