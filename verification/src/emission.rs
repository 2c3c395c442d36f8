//! What the circuit emitter produces: circuit lowering as a function from
//! emitter state and expression to the next state and the wire of the result.
use crate::containers::{array_parts, cell_inner, last_segment};
use crate::contract::{lookup, ContractV, EnumVariantV, HelperV, LedgerFieldV, WitnessFieldV, WitnessMethodV};
use crate::expr::{AssertV, ExprV, LitV};
use crate::nocturne_type::{bytes_layout, bytes_len, chunks, encoding_of, layout_of, layout_times, resolution};
use crate::nocturne_type::{EncodingV, FrLayout, TypeCtxV};
use crate::syntax::{PathV, TyKindV, TyV};
use crate::text::{dec, first_index, no_spaces, trimmed_end, trimmed_start, u32_of, without_prefix, without_suffix};
use crate::typing::{literal_width, transparent, uint_bits};
use crate::zkir::{imm, output_count, AlignmentAtom, InstructionV};
use vstd::prelude::*;

verus! {

/// The state of lowering one circuit.
#[verifier::ext_equal]
pub struct EmitV {
    pub instructions: Seq<InstructionV>,
    pub next_index: u32,
    /// Wires of bound names; witness fields are bound as `witness.<field>`.
    pub variables: Map<Seq<char>, u32>,
    pub variable_types: Map<Seq<char>, TyV>,
    pub num_inputs: u32,
    /// The wire that tells whether the code being emitted is active.
    pub guard: u32,
    pub in_conditional: bool,
    pub zero_var: Option<u32>,
    pub helper_counter: u32,
    pub errors: Seq<Seq<char>>,
    /// Names whose initializer failed.
    pub poisoned: Set<Seq<char>>,
    /// Witness fields first read inside a branch.
    pub guarded_witness_fields: Set<Seq<char>>,
    pub in_helper: bool,
    /// Instruction ranges of branch bodies, end exclusive.
    pub branch_spans: Seq<(nat, nat)>,
}

/// The state before anything is emitted.
pub open spec fn start_state() -> EmitV {
    EmitV {
        instructions: seq![],
        next_index: 0,
        variables: Map::empty(),
        variable_types: Map::empty(),
        num_inputs: 0,
        guard: 0,
        in_conditional: false,
        zero_var: None,
        helper_counter: 0,
        errors: seq![],
        poisoned: Set::empty(),
        guarded_witness_fields: Set::empty(),
        in_helper: false,
        branch_spans: seq![],
    }
}

// ---- single instructions

/// Appends an instruction that fills no cell.
#[verifier::opaque]
pub open spec fn put(s: EmitV, i: InstructionV) -> EmitV {
    EmitV { instructions: s.instructions.push(i), ..s }
}

/// Appends an instruction and allocates its cells; the result is the first.
#[verifier::opaque]
pub open spec fn emit(s: EmitV, i: InstructionV) -> (EmitV, u32) {
    (
        EmitV {
            instructions: s.instructions.push(i),
            next_index: s.next_index.wrapping_add(output_count(i)),
            ..s
        },
        s.next_index,
    )
}

/// Records an error; the expression has no wire.
pub open spec fn fail(s: EmitV, message: Seq<char>) -> (EmitV, Option<u32>) {
    (EmitV { errors: s.errors.push(message), ..s }, None)
}

/// Loads a constant.
pub open spec fn load(s: EmitV, n: int) -> (EmitV, u32) {
    emit(s, InstructionV::LoadImm { imm: imm(n) })
}

/// The constant zero, loaded at most once.
pub open spec fn load_zero(s: EmitV) -> (EmitV, u32) {
    match s.zero_var {
        Some(z) => (s, z),
        None => {
            let (a, z) = load(s, 0);
            (EmitV { zero_var: Some(z), ..a }, z)
        }
    }
}

/// Declares a public input, zeroed where the surrounding branch is inactive.
#[verifier::opaque]
pub open spec fn declare(s: EmitV, value: u32) -> EmitV {
    if s.in_conditional {
        let (a, zero) = load_zero(s);
        let (b, v) = emit(a, InstructionV::CondSelect { bit: s.guard, a: value, b: zero });
        put(b, InstructionV::DeclarePubInput { var: v })
    } else {
        put(s, InstructionV::DeclarePubInput { var: value })
    }
}

/// Closes a group of public inputs.
pub open spec fn skip(s: EmitV, guard: u32, count: u32) -> EmitV {
    put(s, InstructionV::PiSkip { guard: Some(guard), count })
}

/// The guard of transcript reads: the branch's, inside a branch.
pub open spec fn io_guard(s: EmitV) -> Option<u32> {
    if s.in_conditional {
        Some(s.guard)
    } else {
        None
    }
}

/// `n` consecutive wires.
pub open spec fn wires(first: u32, n: nat) -> Seq<u32> {
    Seq::new((n as u32) as nat, |i: int| first.wrapping_add(i as u32))
}

// ---- groups of public inputs, one per VM operation

/// The alignment and value of a one-byte key.
#[verifier::opaque]
pub open spec fn key_repr(s: EmitV, key: u8) -> EmitV {
    let (a, k) = load(s, key as int);
    declare(declare(declare(a, s.guard), s.guard), k)
}

/// An operation that is only its opcode.
#[verifier::opaque]
pub open spec fn op(s: EmitV, code: int) -> EmitV {
    let (a, o) = load(s, code);
    skip(declare(a, o), s.guard, 1)
}

/// An `Idx` operation by a one-byte key.
#[verifier::opaque]
pub open spec fn idx_op(s: EmitV, code: int, key: u8) -> EmitV {
    let (a, o) = load(s, code);
    skip(key_repr(declare(a, o), key), s.guard, 4)
}

/// An `Addi` operation; the result is the wire of the addend.
#[verifier::opaque]
pub open spec fn addi_op(s: EmitV, n: int) -> (EmitV, u32) {
    let (a, o) = load(s, 0x0e);
    let (b, v) = load(a, n);
    (skip(declare(declare(b, o), v), s.guard, 2), v)
}

/// Declares the first `n` of `vars`.
pub open spec fn declare_all(s: EmitV, vars: Seq<u32>, n: nat) -> EmitV
    decreases n,
{
    if n == 0 || n > vars.len() {
        s
    } else {
        declare(declare_all(s, vars, (n - 1) as nat), vars[n - 1])
    }
}

/// Loads and declares the first `n` of `atoms`.
pub open spec fn declare_atoms(s: EmitV, atoms: Seq<i32>, n: nat) -> EmitV
    decreases n,
{
    if n == 0 || n > atoms.len() {
        s
    } else {
        let (a, v) = load(declare_atoms(s, atoms, (n - 1) as nat), atoms[n - 1] as int);
        declare(a, v)
    }
}

/// A `Push` of a cell holding a value. A value without a known encoding is
/// pushed as its first element alone.
#[verifier::opaque]
pub open spec fn push_cell(s: EmitV, vars: Seq<u32>, enc: Option<EncodingV>, storage: bool) -> EmitV {
    let (a, o) = load(s, if storage { 0x11 } else { 0x10 });
    let b = declare(a, o);
    match enc {
        Some(e) => if vars.len() == e.value_field_count {
            let (c, disc) = load(b, 1);
            let d = declare_atoms(declare(c, disc), e.alignment_atoms, e.alignment_atoms.len());
            skip(
                declare_all(d, vars, vars.len()),
                s.guard,
                (2 + e.alignment_atoms.len() + vars.len()) as u32,
            )
        } else {
            push_first(b, vars, s.guard)
        },
        None => push_first(b, vars, s.guard),
    }
}

pub open spec fn push_first(s: EmitV, vars: Seq<u32>, guard: u32) -> EmitV {
    skip(if vars.len() > 0 { declare(s, vars[0]) } else { s }, guard, 2)
}

/// A `Push` of the null value.
#[verifier::opaque]
pub open spec fn push_null(s: EmitV, storage: bool) -> EmitV {
    let (a, o) = load(s, if storage { 0x11 } else { 0x10 });
    let (b, n) = load(a, 0);
    skip(declare(declare(b, o), n), s.guard, 2)
}

/// A `Popeq` of a boolean read from the transcript.
#[verifier::opaque]
pub open spec fn popeq_bool(s: EmitV) -> (EmitV, u32) {
    let (a, o) = load(s, 0x0d);
    let (b, v) = emit(a, InstructionV::PublicInput { guard: io_guard(s) });
    let (c, one) = load(declare(b, o), 1);
    let d = skip(declare(declare(declare(c, one), one), v), s.guard, 4);
    (put(d, InstructionV::ConstrainToBoolean { var: v }), v)
}

/// Reads and declares the first `n` elements of a value from the transcript.
pub open spec fn read_elements(s: EmitV, layout: Seq<Option<u32>>, n: nat) -> (EmitV, Option<u32>)
    decreases n,
{
    if n == 0 || n > layout.len() {
        (s, None)
    } else {
        let (a, first) = read_elements(s, layout, (n - 1) as nat);
        let (b, v) = emit(a, InstructionV::PublicInput { guard: io_guard(s) });
        let c = match layout[n - 1] {
            Some(bits) => put(b, InstructionV::ConstrainBits { var: v, bits }),
            None => b,
        };
        (
            declare(c, v),
            match first {
                Some(f) => Some(f),
                None => Some(v),
            },
        )
    }
}

// ---- type questions

pub open spec fn type_ctx(cx: ContractV) -> TypeCtxV {
    TypeCtxV { structs: cx.user_structs, enums: cx.user_enums }
}

/// The on-chain encoding of a contract type.
pub open spec fn value_encoding(cx: TypeCtxV, t: TyV) -> Option<EncodingV> {
    match resolution(cx, t) {
        Some(r) => encoding_of(r),
        None => None,
    }
}

/// `(H, T)` of the space-free text `MerkleTreePath<H,T>`.
pub open spec fn merkle_path(s: Seq<char>) -> Option<(u32, Seq<char>)> {
    match without_prefix(s, "MerkleTreePath<"@) {
        Some(rest) => match without_suffix(rest, ">"@) {
            Some(inner) => match first_index(inner, ',') {
                Some(i) => match u32_of(trimmed_end(trimmed_start(inner.take(i)))) {
                    Some(h) => Some((h, trimmed_end(trimmed_start(inner.skip(i + 1))))),
                    None => None,
                },
                None => None,
            },
            None => None,
        },
        None => None,
    }
}

/// The layout of a Merkle leaf of the given type text.
pub open spec fn leaf_layout(s: Seq<char>) -> Seq<FrLayout> {
    match bytes_len(s) {
        Some(n) => bytes_layout(n),
        None => seq![FrLayout::Field],
    }
}

/// The elements of a witness of type `t`: those of its encoding, or of the
/// witness-only Merkle path types; any other type is one free element.
pub open spec fn witness_layout(cx: TypeCtxV, t: TyV) -> Seq<FrLayout> {
    match resolution(cx, t) {
        Some(r) => layout_of(r),
        None => match merkle_path(no_spaces(t.text)) {
            Some((h, leaf)) => leaf_layout(leaf) + layout_times(seq![FrLayout::Field, FrLayout::Boolean], h as nat),
            None => if no_spaces(t.text) == "MerkleTreePathEntry"@ {
                seq![FrLayout::Field, FrLayout::Boolean]
            } else {
                seq![FrLayout::Field]
            },
        },
    }
}

pub open spec fn read_bits(l: FrLayout) -> Option<u32> {
    match l {
        FrLayout::Bits(b) => Some(b),
        FrLayout::Boolean => Some(1),
        FrLayout::Field => None,
    }
}

/// The bit widths of the elements of a value read from the ledger.
pub open spec fn read_layout(cx: TypeCtxV, t: TyV) -> Seq<Option<u32>> {
    Seq::new(witness_layout(cx, t).len(), |i: int| read_bits(witness_layout(cx, t)[i]))
}

/// The type `name` alone.
pub open spec fn simple_type(name: Seq<char>) -> TyV {
    TyV {
        text: name,
        kind: TyKindV::Path { qself: false, segments: seq![crate::syntax::TySegmentV { ident: name, args: None }] },
    }
}

/// The type read from a ledger field: `u64` of a counter, `T` of a cell.
pub open spec fn read_type(t: TyV) -> Option<TyV> {
    match last_segment(t) {
        Some(seg) => if seg.ident == "Counter"@ {
            Some(simple_type("u64"@))
        } else {
            cell_inner(t)
        },
        None => None,
    }
}

pub open spec fn is_counter(t: TyV) -> bool {
    match last_segment(t) {
        Some(seg) => seg.ident == "Counter"@,
        None => false,
    }
}

// ---- names

/// The first of the leading `n` ledger fields with the given name.
pub open spec fn ledger_position(fields: Seq<LedgerFieldV>, name: Seq<char>, n: nat) -> Option<int>
    decreases n,
{
    if n == 0 || n > fields.len() {
        None
    } else {
        match ledger_position(fields, name, (n - 1) as nat) {
            Some(i) => Some(i),
            None => if fields[n - 1].name == name {
                Some(n - 1)
            } else {
                None
            },
        }
    }
}

/// The on-chain slot of a ledger field.
pub open spec fn field_slot(cx: ContractV, name: Seq<char>) -> Option<u8> {
    match ledger_position(cx.ledger.fields, name, cx.ledger.fields.len()) {
        Some(i) => Some(i as u8),
        None => None,
    }
}

/// The type of the ledger field in a slot.
pub open spec fn slot_type(cx: ContractV, slot: u8) -> Option<TyV> {
    if slot < cx.ledger.fields.len() {
        Some(cx.ledger.fields[slot as int].ty)
    } else {
        None
    }
}

/// The type of the last of the leading `n` witness fields with the name.
pub open spec fn witness_field_type(fields: Seq<WitnessFieldV>, name: Seq<char>, n: nat) -> Option<TyV>
    decreases n,
{
    if n == 0 || n > fields.len() {
        None
    } else if fields[n - 1].name == name {
        Some(fields[n - 1].ty)
    } else {
        witness_field_type(fields, name, (n - 1) as nat)
    }
}

pub open spec fn witness_type(cx: ContractV, name: Seq<char>) -> Option<TyV> {
    match cx.witnesses {
        Some(w) => witness_field_type(w.fields, name, w.fields.len()),
        None => None,
    }
}

/// The return type of the last of the leading `n` methods with the name.
pub open spec fn witness_method_type(methods: Seq<WitnessMethodV>, name: Seq<char>, n: nat) -> Option<TyV>
    decreases n,
{
    if n == 0 || n > methods.len() {
        None
    } else if methods[n - 1].name == name {
        Some(methods[n - 1].return_type)
    } else {
        witness_method_type(methods, name, (n - 1) as nat)
    }
}

pub open spec fn method_type(cx: ContractV, name: Seq<char>) -> Option<TyV> {
    match cx.witnesses {
        Some(w) => witness_method_type(w.methods, name, w.methods.len()),
        None => None,
    }
}

/// The last of the leading `n` helpers with the given name.
pub open spec fn find_helper(helpers: Seq<HelperV>, name: Seq<char>, n: nat) -> Option<HelperV>
    decreases n,
{
    if n == 0 || n > helpers.len() {
        None
    } else if helpers[n - 1].name == name {
        Some(helpers[n - 1])
    } else {
        find_helper(helpers, name, (n - 1) as nat)
    }
}

/// The position of the first of the leading `n` variants with the name.
pub open spec fn variant_position(variants: Seq<EnumVariantV>, name: Seq<char>, n: nat) -> Option<int>
    decreases n,
{
    if n == 0 || n > variants.len() {
        None
    } else {
        match variant_position(variants, name, (n - 1) as nat) {
            Some(i) => Some(i),
            None => if variants[n - 1].name == name {
                Some(n - 1)
            } else {
                None
            },
        }
    }
}

/// The discriminant that a path names: `None`, `Some`, or a variant of a user
/// enum by its last two segments.
pub open spec fn discriminant(enums: Seq<(Seq<char>, Seq<EnumVariantV>)>, path: PathV) -> Option<u8> {
    let n = path.segments.len();
    if n == 1 {
        if path.segments[0] == "None"@ {
            Some(0u8)
        } else if path.segments[0] == "Some"@ {
            Some(1u8)
        } else {
            None
        }
    } else if n < 2 {
        None
    } else {
        match lookup(enums, path.segments[n - 2]) {
            Some(variants) => match variant_position(variants, path.segments[n - 1], variants.len()) {
                Some(i) => Some(i as u8),
                None => None,
            },
            None => None,
        }
    }
}

/// Whether a path is `Uint::<N>::from`, `Field::from` or another wrapper
/// constructor, which leave the value as it is.
pub open spec fn wraps_value(path: PathV) -> bool {
    let n = path.segments.len();
    n >= 2 && path.segments[n - 1] == "from"@ && {
        let q = path.segments[n - 2];
        q == "Uint"@ || q == "Field"@ || q == "Boolean"@ || q == "Bytes"@ || q == "u8"@ || q == "u16"@ || q == "u32"@
            || q == "u64"@ || q == "u128"@
    }
}

/// The witness field behind any number of references.
pub open spec fn referenced_witness(e: ExprV) -> Option<Seq<char>>
    decreases e,
{
    match e {
        ExprV::WitnessAccess { field, .. } => Some(field),
        ExprV::Reference { expr, .. } => referenced_witness(*expr),
        _ => None,
    }
}

/// The type of an expression, where its shape alone tells it.
pub open spec fn inferred_type(cx: ContractV, s: EmitV, e: ExprV) -> Option<TyV>
    decreases e,
{
    match e {
        ExprV::WitnessAccess { field, .. } => witness_type(cx, field),
        ExprV::Var { name, .. } => if s.variable_types.contains_key(name) {
            Some(s.variable_types[name])
        } else {
            None
        },
        ExprV::LedgerAccess { field, method, .. } => if method == "get"@ || method == "value"@ || method
            == "__direct_access"@ {
            match field_slot(cx, field) {
                Some(slot) => match slot_type(cx, slot) {
                    Some(t) => cell_inner(t),
                    None => None,
                },
                None => None,
            }
        } else {
            None
        },
        ExprV::Index { array, .. } => match inferred_type(cx, s, *array) {
            Some(t) => match array_parts(t) {
                Some((elem, _)) => Some(elem),
                None => None,
            },
            None => None,
        },
        _ => None,
    }
}

/// The bit width of one operand of an ordered comparison.
pub open spec fn comparison_width(cx: ContractV, s: EmitV, e: ExprV) -> Option<u32>
    decreases e,
{
    match e {
        ExprV::Literal { value, .. } => match value {
            LitV::Int(n) => Some(literal_width(n)),
            LitV::Bool(_) => Some(1),
            LitV::Str(_) => None,
        },
        ExprV::MethodCall { receiver, method, .. } => if transparent(method) {
            comparison_width(cx, s, *receiver)
        } else {
            None
        },
        ExprV::Reference { expr, .. } => comparison_width(cx, s, *expr),
        _ => match inferred_type(cx, s, e) {
            Some(t) => {
                let text = no_spaces(t.text);
                if text == "Boolean"@ || text == "bool"@ {
                    Some(1)
                } else {
                    uint_bits(text)
                }
            }
            None => None,
        },
    }
}

/// The width at which two operands are compared: the larger of both.
pub open spec fn common_width(cx: ContractV, s: EmitV, lhs: ExprV, rhs: ExprV) -> Option<u32> {
    match (comparison_width(cx, s, lhs), comparison_width(cx, s, rhs)) {
        (Some(l), Some(r)) => Some(if l >= r { l } else { r }),
        _ => None,
    }
}

// ---- ledger operations

#[verifier::opaque]
pub open spec fn counter_increment(s: EmitV, slot: u8, n: u32) -> (EmitV, Option<u32>) {
    let (a, v) = addi_op(idx_op(s, 0x70, slot), n as int);
    (op(a, 0xa1), Some(v))
}

/// `Dup`, `Idx`, `Popeq` of a ledger field.
#[verifier::opaque]
pub open spec fn ledger_read(cx: ContractV, s: EmitV, slot: u8, ty: Option<TyV>) -> (EmitV, Option<u32>) {
    let (a, o) = load(idx_op(op(s, 0x30), 0x50, slot), 0x0d);
    let b = declare(a, o);
    let enc = match ty {
        Some(t) => value_encoding(type_ctx(cx), t),
        None => None,
    };
    match enc {
        Some(e) => if e.value_field_count >= 1 {
            let layout = read_layout(type_ctx(cx), ty->0);
            if layout.len() != e.value_field_count {
                fail(
                    b,
                    "ledger read result wire layout ("@ + dec(layout.len()) + " Frs) disagrees with its value encoding ("@
                        + dec(e.value_field_count) + " Frs); this type cannot be read soundly"@,
                )
            } else {
                let (c, first) = read_elements(
                    declare_atoms(b, e.alignment_atoms, e.alignment_atoms.len()),
                    layout,
                    layout.len(),
                );
                (skip(c, s.guard, (1 + e.alignment_atoms.len() + e.value_field_count) as u32), first)
            }
        } else {
            read_untyped(b, s.guard)
        },
        None => read_untyped(b, s.guard),
    }
}

/// The read of a value of unknown type: one element.
pub open spec fn read_untyped(s: EmitV, guard: u32) -> (EmitV, Option<u32>) {
    let (a, v) = emit(s, InstructionV::PublicInput { guard: io_guard(s) });
    (skip(a, guard, 1), Some(v))
}

#[verifier::opaque]
pub open spec fn map_insert(s: EmitV, slot: u8, key: Seq<u32>, ke: EncodingV, val: Seq<u32>, ve: EncodingV) -> EmitV {
    op(op(push_cell(push_cell(idx_op(s, 0x70, slot), key, Some(ke), false), val, Some(ve), true), 0x91), 0xa1)
}

#[verifier::opaque]
pub open spec fn map_member(s: EmitV, slot: u8, key: Seq<u32>, ke: EncodingV) -> (EmitV, Option<u32>) {
    let (a, v) = popeq_bool(op(push_cell(idx_op(op(s, 0x30), 0x50, slot), key, Some(ke), false), 0x18));
    (a, Some(v))
}

#[verifier::opaque]
pub open spec fn map_lookup(
    cx: ContractV,
    s: EmitV,
    slot: u8,
    key: Seq<u32>,
    ke: EncodingV,
    vt: TyV,
    ve: EncodingV,
) -> (EmitV, Option<u32>) {
    let (a, o) = load(idx_op(op(s, 0x30), 0x50, slot), 0x50);
    let b = declare_all(declare_atoms(declare(a, o), ke.alignment_atoms, ke.alignment_atoms.len()), key, key.len());
    let c = skip(b, s.guard, (1 + ke.alignment_atoms.len() + key.len()) as u32);
    let layout = read_layout(type_ctx(cx), vt);
    if layout.len() != ve.value_field_count {
        fail(
            c,
            "Map lookup value wire layout ("@ + dec(layout.len()) + " Frs) disagrees with its value encoding ("@
                + dec(ve.value_field_count) + " Frs); this value type cannot be read soundly"@,
        )
    } else {
        let (d, o2) = load(c, 0x0c);
        let (f, first) = read_elements(
            declare_atoms(declare(d, o2), ve.alignment_atoms, ve.alignment_atoms.len()),
            layout,
            layout.len(),
        );
        (skip(f, s.guard, (1 + ve.alignment_atoms.len() + ve.value_field_count) as u32), first)
    }
}

#[verifier::opaque]
pub open spec fn map_remove(s: EmitV, slot: u8, key: Seq<u32>, ke: EncodingV) -> EmitV {
    op(op(push_cell(idx_op(s, 0x70, slot), key, Some(ke), false), 0x19), 0xa1)
}

#[verifier::opaque]
pub open spec fn set_insert(s: EmitV, slot: u8, key: Seq<u32>, ke: EncodingV) -> EmitV {
    op(op(push_null(push_cell(idx_op(s, 0x70, slot), key, Some(ke), false), true), 0x91), 0xa1)
}

/// The bytes of `mdn:lh`, little endian: the domain separator of leaf hashes.
pub open spec fn leaf_domain() -> int {
    0x686c_3a6e_646d
}

/// The hash of a leaf of `n` bytes; the result is the first of two wires.
#[verifier::opaque]
pub open spec fn leaf_hash(s: EmitV, leaf_first: u32, n: u32) -> (EmitV, u32) {
    let (a, d) = load(s, leaf_domain());
    emit(
        a,
        InstructionV::PersistentHash {
            alignment: seq![AlignmentAtom::Bytes { length: 6 }, AlignmentAtom::Bytes { length: n }],
            inputs: seq![d] + wires(leaf_first, chunks(n)),
        },
    )
}

/// Climbs the first `n` entries of a Merkle path.
pub open spec fn path_fold(s: EmitV, start: u32, base: u32, n: nat) -> (EmitV, u32)
    decreases n,
{
    if n == 0 {
        (s, start)
    } else {
        let (a, acc) = path_fold(s, start, base, (n - 1) as nat);
        let sibling = base.wrapping_add(2u32.wrapping_mul((n - 1) as u32));
        let goes_left = sibling.wrapping_add(1);
        let (b, left) = emit(a, InstructionV::CondSelect { bit: goes_left, a: acc, b: sibling });
        let (c, right) = emit(b, InstructionV::CondSelect { bit: goes_left, a: sibling, b: acc });
        emit(c, InstructionV::TransientHash { inputs: seq![left, right] })
    }
}

#[verifier::opaque]
pub open spec fn merkle_insert(s: EmitV, slot: u8, leaf_first: u32, n: u32) -> EmitV {
    let a = idx_op(op(idx_op(idx_op(s, 0x70, slot), 0x70, 0), 0x32), 0x50, 1);
    let (b, h) = leaf_hash(a, leaf_first, n);
    let (c, o) = load(b, 0x11);
    let (d, disc) = load(c, 1);
    let (e, len) = load(d, 32);
    let f = declare(declare(declare(declare(e, o), disc), disc), len);
    let g = skip(declare(declare(f, h), h.wrapping_add(1)), s.guard, 6);
    let (i, _) = addi_op(idx_op(op(op(g, 0x91), 0xa1), 0x70, 1), 1);
    op(i, 0xa2)
}

#[verifier::opaque]
pub open spec fn merkle_check_root(s: EmitV, slot: u8, digest: u32) -> (EmitV, Option<u32>) {
    let a = op(idx_op(idx_op(op(s, 0x30), 0x50, slot), 0x50, 0), 0x0a);
    let enc = EncodingV { alignment_atoms: seq![1i32, -2i32 as i32], value_field_count: 1 };
    let (b, v) = popeq_bool(op(push_cell(a, seq![digest], Some(enc), false), 0x02));
    (b, Some(v))
}

/// The wires of a value written to a cell.
pub open spec fn written_wires(cx: ContractV, slot: u8, first: Option<u32>) -> Seq<u32> {
    match first {
        Some(f) => {
            let inner = match slot_type(cx, slot) {
                Some(t) => cell_inner(t),
                None => None,
            };
            let n = match inner {
                Some(t) => match value_encoding(type_ctx(cx), t) {
                    Some(e) => e.value_field_count,
                    None => 1,
                },
                None => 1,
            };
            wires(f, n)
        }
        None => seq![],
    }
}

/// The type of the value that a cell-like slot holds.
pub open spec fn held_type(cx: ContractV, slot: u8) -> Option<TyV> {
    match slot_type(cx, slot) {
        Some(t) => match cell_inner(t) {
            Some(inner) => Some(inner),
            None => if is_counter(t) {
                Some(simple_type("u64"@))
            } else {
                None
            },
        },
        None => None,
    }
}

#[verifier::opaque]
pub open spec fn ledger_write(cx: ContractV, s: EmitV, slot: u8, vars: Seq<u32>) -> (EmitV, Option<u32>) {
    let (a, k) = load(s, slot as int);
    let key_enc = EncodingV { alignment_atoms: seq![1i32, 1i32], value_field_count: 1 };
    let b = push_cell(a, seq![k], Some(key_enc), false);
    let enc = match held_type(cx, slot) {
        Some(t) => value_encoding(type_ctx(cx), t),
        None => None,
    };
    let c = if vars.len() > 0 { push_cell(b, vars, enc, true) } else { b };
    (op(c, 0x91), if vars.len() > 0 { Some(vars[0]) } else { None })
}

/// The transcript reads of the first `n` elements of a witness value.
pub open spec fn private_block(s: EmitV, layout: Seq<FrLayout>, n: nat) -> (EmitV, Option<u32>)
    decreases n,
{
    if n == 0 || n > layout.len() {
        (s, None)
    } else {
        let (a, first) = private_block(s, layout, (n - 1) as nat);
        let (b, v) = emit(a, InstructionV::PrivateInput { guard: io_guard(s) });
        (
            match layout[n - 1] {
                FrLayout::Bits(bits) => put(b, InstructionV::ConstrainBits { var: v, bits }),
                FrLayout::Boolean => put(b, InstructionV::ConstrainToBoolean { var: v }),
                FrLayout::Field => b,
            },
            match first {
                Some(f) => Some(f),
                None => Some(v),
            },
        )
    }
}

// ---- renaming of spliced helper bodies

/// A name no source uses: the `seq`-th binding of the `counter`-th splice.
pub open spec fn fresh_name(counter: u32, seq: u32, name: Seq<char>) -> Seq<char> {
    "__h"@ + dec(counter as nat) + "_"@ + dec(seq as nat) + "_"@ + name
}

/// What renaming leaves: the renamed expression, the names in force behind it,
/// and the next binding number.
pub struct RenamedV {
    pub expr: ExprV,
    pub subst: Map<Seq<char>, Seq<char>>,
    pub seq: u32,
}

pub struct RenamedListV {
    pub exprs: Seq<ExprV>,
    pub subst: Map<Seq<char>, Seq<char>>,
    pub seq: u32,
}

pub struct RenamedFieldsV {
    pub fields: Seq<(Seq<char>, ExprV)>,
    pub subst: Map<Seq<char>, Seq<char>>,
    pub seq: u32,
}

/// Renames the free names of `e` by `subst` and every binding to a fresh name.
/// Bindings of a block or branch end with it.
pub open spec fn renamed(e: ExprV, subst: Map<Seq<char>, Seq<char>>, counter: u32, seq: u32) -> RenamedV
    decreases e, 0nat,
{
    match e {
        ExprV::Var { span, name } => RenamedV {
            expr: ExprV::Var { span, name: if subst.contains_key(name) { subst[name] } else { name } },
            subst,
            seq,
        },
        ExprV::Let { span, name, value } => {
            let v = renamed(*value, subst, counter, seq);
            let fresh = fresh_name(counter, v.seq, name);
            RenamedV {
                expr: ExprV::Let { span, name: fresh, value: Box::new(v.expr) },
                subst: v.subst.insert(name, fresh),
                seq: v.seq.wrapping_add(1),
            }
        }
        ExprV::BinaryOp { span, op, lhs, rhs } => {
            let l = renamed(*lhs, subst, counter, seq);
            let r = renamed(*rhs, l.subst, counter, l.seq);
            RenamedV {
                expr: ExprV::BinaryOp { span, op, lhs: Box::new(l.expr), rhs: Box::new(r.expr) },
                subst: r.subst,
                seq: r.seq,
            }
        }
        ExprV::UnaryOp { span, op, expr } => {
            let r = renamed(*expr, subst, counter, seq);
            RenamedV { expr: ExprV::UnaryOp { span, op, expr: Box::new(r.expr) }, ..r }
        }
        ExprV::FnCall { span, name, path, args } => {
            let r = renamed_list(args, args.len(), subst, counter, seq);
            RenamedV { expr: ExprV::FnCall { span, name, path, args: r.exprs }, subst: r.subst, seq: r.seq }
        }
        ExprV::MethodCall { span, receiver, method, args } => {
            let v = renamed(*receiver, subst, counter, seq);
            let r = renamed_list(args, args.len(), v.subst, counter, v.seq);
            RenamedV {
                expr: ExprV::MethodCall { span, receiver: Box::new(v.expr), method, args: r.exprs },
                subst: r.subst,
                seq: r.seq,
            }
        }
        ExprV::If { span, cond, then_branch, else_branch } => {
            let c = renamed(*cond, subst, counter, seq);
            let t = renamed_list(then_branch, then_branch.len(), c.subst, counter, c.seq);
            match else_branch {
                Some(b) => {
                    let f = renamed_list(b, b.len(), c.subst, counter, t.seq);
                    RenamedV {
                        expr: ExprV::If {
                            span,
                            cond: Box::new(c.expr),
                            then_branch: t.exprs,
                            else_branch: Some(f.exprs),
                        },
                        subst: c.subst,
                        seq: f.seq,
                    }
                }
                None => RenamedV {
                    expr: ExprV::If { span, cond: Box::new(c.expr), then_branch: t.exprs, else_branch: None },
                    subst: c.subst,
                    seq: t.seq,
                },
            }
        }
        ExprV::Assert { span, kind } => match kind {
            AssertV::Assert(a) => {
                let r = renamed(*a, subst, counter, seq);
                RenamedV { expr: ExprV::Assert { span, kind: AssertV::Assert(Box::new(r.expr)) }, ..r }
            }
            AssertV::AssertEq(a, b) => {
                let l = renamed(*a, subst, counter, seq);
                let r = renamed(*b, l.subst, counter, l.seq);
                RenamedV {
                    expr: ExprV::Assert { span, kind: AssertV::AssertEq(Box::new(l.expr), Box::new(r.expr)) },
                    ..r
                }
            }
        },
        ExprV::Disclose { span, value } => {
            let r = renamed(*value, subst, counter, seq);
            RenamedV { expr: ExprV::Disclose { span, value: Box::new(r.expr) }, ..r }
        }
        ExprV::EnumPayload { span, scrutinee, enum_name } => {
            let r = renamed(*scrutinee, subst, counter, seq);
            RenamedV { expr: ExprV::EnumPayload { span, scrutinee: Box::new(r.expr), enum_name }, ..r }
        }
        ExprV::ArrayLit { span, elements } => {
            let r = renamed_list(elements, elements.len(), subst, counter, seq);
            RenamedV { expr: ExprV::ArrayLit { span, elements: r.exprs }, subst: r.subst, seq: r.seq }
        }
        ExprV::Index { span, array, index } => {
            let r = renamed(*array, subst, counter, seq);
            RenamedV { expr: ExprV::Index { span, array: Box::new(r.expr), index }, ..r }
        }
        ExprV::Block { span, stmts } => {
            let r = renamed_list(stmts, stmts.len(), subst, counter, seq);
            RenamedV { expr: ExprV::Block { span, stmts: r.exprs }, subst, seq: r.seq }
        }
        ExprV::StructInit { span, name, fields } => {
            let r = renamed_fields(fields, fields.len(), subst, counter, seq);
            RenamedV { expr: ExprV::StructInit { span, name, fields: r.fields }, subst: r.subst, seq: r.seq }
        }
        ExprV::Return { span, value } => match value {
            Some(v) => {
                let r = renamed(*v, subst, counter, seq);
                RenamedV { expr: ExprV::Return { span, value: Some(Box::new(r.expr)) }, ..r }
            }
            None => RenamedV { expr: e, subst, seq },
        },
        ExprV::Tuple { span, elements } => {
            let r = renamed_list(elements, elements.len(), subst, counter, seq);
            RenamedV { expr: ExprV::Tuple { span, elements: r.exprs }, subst: r.subst, seq: r.seq }
        }
        ExprV::Reference { span, expr } => {
            let r = renamed(*expr, subst, counter, seq);
            RenamedV { expr: ExprV::Reference { span, expr: Box::new(r.expr) }, ..r }
        }
        ExprV::LedgerAccess { span, field, method, args } => {
            let r = renamed_list(args, args.len(), subst, counter, seq);
            RenamedV {
                expr: ExprV::LedgerAccess { span, field, method, args: r.exprs },
                subst: r.subst,
                seq: r.seq,
            }
        }
        ExprV::WitnessCall { span, name, args } => {
            let r = renamed_list(args, args.len(), subst, counter, seq);
            RenamedV { expr: ExprV::WitnessCall { span, name, args: r.exprs }, subst: r.subst, seq: r.seq }
        }
        ExprV::Literal { .. } => RenamedV { expr: e, subst, seq },
        ExprV::Path { .. } => RenamedV { expr: e, subst, seq },
        ExprV::WitnessAccess { .. } => RenamedV { expr: e, subst, seq },
        ExprV::Unsupported { .. } => RenamedV { expr: e, subst, seq },
    }
}

/// Renames the first `n` of `es`, each under the names its predecessors left.
pub open spec fn renamed_list(
    es: Seq<ExprV>,
    n: nat,
    subst: Map<Seq<char>, Seq<char>>,
    counter: u32,
    seq: u32,
) -> RenamedListV
    decreases es, n,
{
    if n == 0 || n > es.len() {
        RenamedListV { exprs: seq![], subst, seq }
    } else {
        let p = renamed_list(es, (n - 1) as nat, subst, counter, seq);
        let r = renamed(es[n - 1], p.subst, counter, p.seq);
        RenamedListV { exprs: p.exprs.push(r.expr), subst: r.subst, seq: r.seq }
    }
}

pub open spec fn renamed_fields(
    fs: Seq<(Seq<char>, ExprV)>,
    n: nat,
    subst: Map<Seq<char>, Seq<char>>,
    counter: u32,
    seq: u32,
) -> RenamedFieldsV
    decreases fs, n,
{
    if n == 0 || n > fs.len() {
        RenamedFieldsV { fields: seq![], subst, seq }
    } else {
        let p = renamed_fields(fs, (n - 1) as nat, subst, counter, seq);
        let r = renamed(fs[n - 1].1, p.subst, counter, p.seq);
        RenamedFieldsV { fields: p.fields.push((fs[n - 1].0, r.expr)), subst: r.subst, seq: r.seq }
    }
}

} // verus!
