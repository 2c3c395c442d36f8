//! Circuit emitter: lowers circuit bodies to circuit instructions.
//!
//! A circuit does not compute on the ledger. It declares, as public inputs,
//! the VM operations that the host's transcript holds, and proves that the
//! private computation agrees with them. Each VM operation is a group of
//! `DeclarePubInput`s closed by a `PiSkip`.
use crate::containers::{extract_array_type, extract_cell_inner_type, extract_map_kv_types, extract_merkle_tree_type};
use crate::containers::{extract_set_inner_type, last_seg, plain_last_seg};
use crate::contract::{enums_view, find_enum, find_struct, CircuitIR, ContractIR, ContractV, EnumVariantV, HelperIR};
use crate::contract::{ParamIR, ParamV, UserEnumVariant};
use crate::emission::{addi_op, common_width, comparison_width, counter_increment, declare, declare_all};
use crate::emission::{declare_atoms, discriminant, emit, fail, field_slot, find_helper, fresh_name, held_type};
use crate::emission::{idx_op, inferred_type, io_guard, is_counter, key_repr, leaf_domain, leaf_hash, leaf_layout};
use crate::emission::{ledger_position, ledger_read, ledger_write, load, load_zero, map_insert, map_lookup};
use crate::emission::{map_member, map_remove, merkle_check_root, merkle_insert, merkle_path, method_type, op};
use crate::emission::{path_fold, popeq_bool, private_block, push_cell, push_null, put, read_bits, read_elements};
use crate::emission::{read_layout, read_type, referenced_witness, renamed, renamed_fields, renamed_list, set_insert};
use crate::emission::{simple_type, skip, slot_type, start_state, type_ctx, value_encoding, variant_position, wires};
use crate::emission::{witness_field_type, witness_layout, witness_method_type, witness_type, wraps_value};
use crate::emission::{written_wires, EmitV};
use crate::expr::{assert_view, bin_op_text, exprs_view, fields_view, AssertKind, BinOp, ExprIR, ExprV, LiteralIR};
use crate::expr::UnOp;
use crate::lowering::{any_field_return, any_return, binary, bound, checked_list, checked_returns, circuit_output};
use crate::lowering::{circuit_prologue, close_branch, complain, contract_errors, declared_order, element, else_guard};
use crate::lowering::{enter_branch, evaluation_order, field_position, has_return, increment_amount, leave_if};
use crate::lowering::{literal, lower, lower_all, lower_arg, lower_branch, lower_cell_method, lower_fields};
use crate::lowering::{lower_helper, lower_map_method, lower_merkle_method, lower_params, lower_path_root, lower_run};
use crate::lowering::{lower_seq, lower_set_method, lowered_circuit, param_constraint, param_names, path_argument};
use crate::lowering::{path_constant, path_root, return_message, run_step, slot_leaf_len, some_wire, subtract};
use crate::lowering::{then_guard, unary, variable, with_constraints, with_params, witness_key, witness_read};
use crate::lowering::ZkirOutputV;
use crate::names::{NameMap, NameSet};
use crate::nocturne_type::{bytes_n_layout, chunk_count, encoding_opt, layout_times, parse_bytes_n_type, resolve};
use crate::nocturne_type::{FR_BYTES_STORED, AlignedEncoding, EncodingV, FrLayout, TypeCtx};
use crate::syntax::{segments_view, ty_kind_view, ty_opt, ty_ref_opt, Path, Ty, TyKind, TySegment};
use crate::text::{cat2, cat3, cat4, cat5, cat6, cat7, find_char, number, parse_u32, same, strip_prefix, strip_spaces};
use crate::text::{strip_suffix, trim, txt};
use crate::typing::{int_literal_width, is_transparent_wrapper, parse_uint_type};
use crate::zkir::{imm, instruction_output_count, AlignmentAtom, Imm, Index, Instruction, IrSource, IrSourceV};
use vstd::prelude::*;

verus! {

/// Format version `(major, minor)` of the emitted circuits.
pub const ZKIR_VERSION_MAJOR: u64 = 2;

/// See [`ZKIR_VERSION_MAJOR`].
pub const ZKIR_VERSION_MINOR: u64 = 0;

/// The instructions of one conditional branch body, end exclusive.
#[derive(Debug, Clone, Copy, PartialEq, Eq, Structural)]
pub struct BranchSpan {
    pub start: usize,
    pub end: usize,
}

pub open spec fn spans_view(s: Seq<BranchSpan>) -> Seq<(nat, nat)> {
    Seq::new(s.len(), |i: int| (s[i].start as nat, s[i].end as nat))
}

/// The state of lowering one circuit.
pub struct ZkirEmitter {
    instructions: Vec<Instruction>,
    next_index: Index,
    variables: NameMap<u32>,
    variable_types: NameMap<Ty>,
    num_inputs: u32,
    guard: Index,
    in_conditional: bool,
    zero_var: Option<Index>,
    helper_counter: u32,
    errors: Vec<String>,
    poisoned: NameSet,
    guarded_witness_fields: NameSet,
    in_helper: bool,
    branch_spans: Vec<BranchSpan>,
}

impl View for ZkirEmitter {
    type V = EmitV;

    closed spec fn view(&self) -> EmitV {
        EmitV {
            instructions: self.instructions.deep_view(),
            next_index: self.next_index,
            variables: self.variables@,
            variable_types: self.variable_types@,
            num_inputs: self.num_inputs,
            guard: self.guard,
            in_conditional: self.in_conditional,
            zero_var: self.zero_var,
            helper_counter: self.helper_counter,
            errors: self.errors.deep_view(),
            poisoned: self.poisoned@,
            guarded_witness_fields: self.guarded_witness_fields@,
            in_helper: self.in_helper,
            branch_spans: spans_view(self.branch_spans@),
        }
    }
}

fn wires_exec(first: u32, n: u32) -> (r: Vec<u32>)
    ensures
        r@ =~= Seq::new(n as nat, |i: int| first.wrapping_add(i as u32)),
{
    let mut out: Vec<u32> = Vec::new();
    let mut i: u32 = 0;
    while i < n
        invariant
            i <= n,
            out@ =~= Seq::new(i as nat, |j: int| first.wrapping_add(j as u32)),
        decreases n - i,
    {
        out.push(first.wrapping_add(i));
        i += 1;
    }
    out
}

/// The `n` wires from `first` on.
pub fn gather_n_vars(first: Index, n: usize) -> (r: Vec<Index>)
    ensures
        r@ == wires(first, n as nat),
{
    let r = wires_exec(first, n as u32);
    assert(r@ =~= wires(first, n as nat));
    r
}

impl ZkirEmitter {
    /// An emitter that has emitted nothing.
    pub fn new() -> (r: Self)
        ensures
            r@ == start_state(),
    {
        let r = ZkirEmitter {
            instructions: Vec::new(),
            next_index: 0,
            variables: NameMap::new(),
            variable_types: NameMap::new(),
            num_inputs: 0,
            guard: 0,
            in_conditional: false,
            zero_var: None,
            helper_counter: 0,
            errors: Vec::new(),
            poisoned: NameSet::new(),
            guarded_witness_fields: NameSet::new(),
            in_helper: false,
            branch_spans: Vec::new(),
        };
        assert(r@ =~= start_state());
        r
    }

    /// Records an emission error; the expression at hand has no wire.
    fn unsupported(&mut self, what: String) -> (r: Option<Index>)
        ensures
            final(self)@ == fail(old(self)@, what@).0,
            r is None,
    {
        let ghost before = self@;
        self.errors.push(what);
        assert(self@ =~= fail(before, what@).0);
        None
    }

    /// Appends an instruction that fills no cell.
    fn append(&mut self, instruction: Instruction)
        ensures
            final(self)@ == put(old(self)@, instruction@),
    {
        let ghost before = self@;
        self.instructions.push(instruction);
        proof {
            reveal(put);
            assert(self@.instructions =~= before.instructions.push(instruction@));
            assert(self@ =~= put(before, instruction@));
        }
    }

    /// Appends an instruction and allocates its cells.
    fn emit_instruction(&mut self, instruction: Instruction) -> (r: Index)
        ensures
            (final(self)@, r) == emit(old(self)@, instruction@),
    {
        let ghost before = self@;
        let idx: Index = self.next_index;
        let outputs: u32 = instruction_output_count(&instruction);
        self.next_index = self.next_index.wrapping_add(outputs);
        self.instructions.push(instruction);
        proof {
            reveal(emit);
            assert(self@.instructions =~= before.instructions.push(instruction@));
            assert(self@ =~= emit(before, instruction@).0);
        }
        idx
    }

    fn emit_load_imm(&mut self, n: u128) -> (r: Index)
        ensures
            (final(self)@, r) == load(old(self)@, n as int),
    {
        self.emit_instruction(Instruction::LoadImm { imm: Imm::from_u128(n) })
    }

    fn emit_load_signed(&mut self, n: i32) -> (r: Index)
        ensures
            (final(self)@, r) == load(old(self)@, n as int),
    {
        self.emit_instruction(Instruction::LoadImm { imm: Imm::from_i32(n) })
    }

    /// Emits, or reuses, the constant zero.
    fn emit_load_zero(&mut self) -> (r: Index)
        ensures
            (final(self)@, r) == load_zero(old(self)@),
    {
        match self.zero_var {
            Some(z) => z,
            None => {
                let z: Index = self.emit_load_imm(0);
                let ghost mid = self@;
                self.zero_var = Some(z);
                assert(self@ =~= (EmitV { zero_var: Some(z), ..mid }));
                z
            }
        }
    }

    /// The guard of transcript reads at this point.
    fn current_io_guard(&self) -> (r: Option<Index>)
        ensures
            r == io_guard(self@),
    {
        if self.in_conditional {
            Some(self.guard)
        } else {
            None
        }
    }

    /// Declares a public input, zeroed where the branch is inactive.
    fn push_declare_pub_input(&mut self, value: Index)
        ensures
            final(self)@ == declare(old(self)@, value),
    {
        proof {
            reveal(declare);
        }
        if self.in_conditional {
            let guard: Index = self.guard;
            let zero: Index = self.emit_load_zero();
            let v: Index = self.emit_instruction(Instruction::CondSelect { bit: guard, a: value, b: zero });
            self.append(Instruction::DeclarePubInput { var: v });
        } else {
            self.append(Instruction::DeclarePubInput { var: value });
        }
    }

    fn pi_skip(&mut self, guard: Index, count: u32)
        ensures
            final(self)@ == skip(old(self)@, guard, count),
    {
        self.append(Instruction::PiSkip { guard: Some(guard), count });
    }

    /// The field representation of a one-byte key.
    fn emit_key_field_repr(&mut self, field_idx: u8)
        ensures
            final(self)@ == key_repr(old(self)@, field_idx),
    {
        proof {
            reveal(key_repr);
        }
        let g: Index = self.guard;
        let key_val: Index = self.emit_load_imm(field_idx as u128);
        self.push_declare_pub_input(g);
        self.push_declare_pub_input(g);
        self.push_declare_pub_input(key_val);
    }

    /// A VM operation that is only its opcode.
    fn emit_op(&mut self, code: u128)
        ensures
            final(self)@ == op(old(self)@, code as int),
    {
        proof {
            reveal(op);
        }
        let g: Index = self.guard;
        let o: Index = self.emit_load_imm(code);
        self.push_declare_pub_input(o);
        self.pi_skip(g, 1);
    }

    /// An `Idx` operation by a one-byte key.
    fn emit_idx(&mut self, code: u128, key: u8)
        ensures
            final(self)@ == idx_op(old(self)@, code as int, key),
    {
        proof {
            reveal(idx_op);
        }
        let g: Index = self.guard;
        let o: Index = self.emit_load_imm(code);
        self.push_declare_pub_input(o);
        self.emit_key_field_repr(key);
        self.pi_skip(g, 4);
    }

    /// An `Addi` operation.
    fn emit_addi(&mut self, n: u32) -> (r: Index)
        ensures
            (final(self)@, r) == addi_op(old(self)@, n as int),
    {
        proof {
            reveal(addi_op);
        }
        let g: Index = self.guard;
        let o: Index = self.emit_load_imm(0x0e);
        let v: Index = self.emit_load_imm(n as u128);
        self.push_declare_pub_input(o);
        self.push_declare_pub_input(v);
        self.pi_skip(g, 2);
        v
    }

    fn declare_list(&mut self, vars: &Vec<Index>)
        ensures
            final(self)@ == declare_all(old(self)@, vars@, vars@.len()),
    {
        let ghost before = self@;
        let mut i: usize = 0;
        while i < vars.len()
            invariant
                i <= vars@.len(),
                self@ == declare_all(before, vars@, i as nat),
            decreases vars@.len() - i,
        {
            self.push_declare_pub_input(vars[i]);
            i += 1;
        }
    }

    fn declare_atom_list(&mut self, atoms: &Vec<i32>)
        ensures
            final(self)@ == declare_atoms(old(self)@, atoms@, atoms@.len()),
    {
        let ghost before = self@;
        let mut i: usize = 0;
        while i < atoms.len()
            invariant
                i <= atoms@.len(),
                self@ == declare_atoms(before, atoms@, i as nat),
            decreases atoms@.len() - i,
        {
            let v: Index = self.emit_load_signed(atoms[i]);
            self.push_declare_pub_input(v);
            i += 1;
        }
    }

    /// A `Push` of a cell: opcode, cell discriminant, alignment, value.
    fn emit_push_cell(&mut self, value_vars: &Vec<Index>, encoding: Option<&AlignedEncoding>, storage: bool)
        ensures
            final(self)@ == push_cell(
                old(self)@,
                value_vars@,
                match encoding {
                    Some(e) => Some(e@),
                    None => None,
                },
                storage,
            ),
    {
        proof {
            reveal(push_cell);
        }
        let g: Index = self.guard;
        let code: u128 = if storage { 0x11 } else { 0x10 };
        let push_op: Index = self.emit_load_imm(code);
        self.push_declare_pub_input(push_op);
        match encoding {
            Some(enc) => {
                if value_vars.len() == enc.value_field_count {
                    let disc: Index = self.emit_load_imm(1);
                    self.push_declare_pub_input(disc);
                    self.declare_atom_list(&enc.alignment_atoms);
                    self.declare_list(value_vars);
                    let count: u128 = 2 + enc.alignment_atoms.len() as u128 + value_vars.len() as u128;
                    self.pi_skip(g, count as u32);
                    return;
                }
            }
            None => {}
        }
        if value_vars.len() > 0 {
            self.push_declare_pub_input(value_vars[0]);
        }
        self.pi_skip(g, 2);
    }

    /// A `Push` of the null value.
    fn emit_push_null(&mut self, storage: bool)
        ensures
            final(self)@ == push_null(old(self)@, storage),
    {
        proof {
            reveal(push_null);
        }
        let g: Index = self.guard;
        let code: u128 = if storage { 0x11 } else { 0x10 };
        let push_op: Index = self.emit_load_imm(code);
        let null_disc: Index = self.emit_load_imm(0);
        self.push_declare_pub_input(push_op);
        self.push_declare_pub_input(null_disc);
        self.pi_skip(g, 2);
    }

    /// A `Popeq` of a boolean.
    fn emit_popeq_bool(&mut self) -> (r: Index)
        ensures
            (final(self)@, r) == popeq_bool(old(self)@),
    {
        proof {
            reveal(popeq_bool);
        }
        let g: Index = self.guard;
        let io: Option<Index> = self.current_io_guard();
        let popeq_op: Index = self.emit_load_imm(0x0d);
        let result_var: Index = self.emit_instruction(Instruction::PublicInput { guard: io });
        self.push_declare_pub_input(popeq_op);
        let align_one: Index = self.emit_load_imm(1);
        self.push_declare_pub_input(align_one);
        self.push_declare_pub_input(align_one);
        self.push_declare_pub_input(result_var);
        self.pi_skip(g, 4);
        self.append(Instruction::ConstrainToBoolean { var: result_var });
        result_var
    }

    /// Reads a value's elements from the transcript and declares them.
    fn emit_read_elements(&mut self, layout: &Vec<Option<u32>>) -> (r: Option<Index>)
        ensures
            (final(self)@, r) == read_elements(old(self)@, layout@, layout@.len()),
    {
        let ghost before = self@;
        let io: Option<Index> = self.current_io_guard();
        let mut first: Option<Index> = None;
        let mut i: usize = 0;
        while i < layout.len()
            invariant
                i <= layout@.len(),
                io == io_guard(before),
                (self@, first) == read_elements(before, layout@, i as nat),
            decreases layout@.len() - i,
        {
            let pi: Index = self.emit_instruction(Instruction::PublicInput { guard: io });
            if first.is_none() {
                first = Some(pi);
            }
            match layout[i] {
                Some(bits) => {
                    self.append(Instruction::ConstrainBits { var: pi, bits });
                }
                None => {}
            }
            self.push_declare_pub_input(pi);
            i += 1;
        }
        first
    }

    /// Allocates the transcript reads of a witness value.
    fn emit_private_block(&mut self, layout: &Vec<FrLayout>) -> (r: Option<Index>)
        ensures
            (final(self)@, r) == private_block(old(self)@, layout@, layout@.len()),
    {
        let ghost before = self@;
        let io: Option<Index> = self.current_io_guard();
        let mut first: Option<Index> = None;
        let mut i: usize = 0;
        while i < layout.len()
            invariant
                i <= layout@.len(),
                io == io_guard(before),
                (self@, first) == private_block(before, layout@, i as nat),
            decreases layout@.len() - i,
        {
            let var: Index = self.emit_instruction(Instruction::PrivateInput { guard: io });
            if first.is_none() {
                first = Some(var);
            }
            match layout[i] {
                FrLayout::Bits(bits) => {
                    self.append(Instruction::ConstrainBits { var, bits });
                }
                FrLayout::Boolean => {
                    self.append(Instruction::ConstrainToBoolean { var });
                }
                FrLayout::Field => {}
            }
            i += 1;
        }
        first
    }

    /// `Counter::increment_by(n)`: `Idx`, `Addi`, `Ins`.
    fn emit_counter_increment(&mut self, field_idx: u8, n: u32) -> (r: Option<Index>)
        ensures
            (final(self)@, r) == counter_increment(old(self)@, field_idx, n),
    {
        proof {
            reveal(counter_increment);
        }
        self.emit_idx(0x70, field_idx);
        let n_var: Index = self.emit_addi(n);
        self.emit_op(0xa1);
        Some(n_var)
    }

    /// A read of a ledger field: `Dup`, `Idx`, `Popeq`.
    fn emit_ledger_read(&mut self, cx: &ContractIR, field_idx: u8, result_ty: Option<&Ty>) -> (r: Option<Index>)
        ensures
            (final(self)@, r) == ledger_read(cx@, old(self)@, field_idx, ty_ref_opt(result_ty)),
    {
        proof {
            reveal(ledger_read);
        }
        let g: Index = self.guard;
        self.emit_op(0x30);
        self.emit_idx(0x50, field_idx);
        let popeq_op: Index = self.emit_load_imm(0x0d);
        self.push_declare_pub_input(popeq_op);
        match result_ty {
            Some(t) => match aligned_value_encoding(t, cx) {
                Some(enc) => {
                    if enc.value_field_count >= 1 {
                        let layout: Vec<Option<u32>> = read_result_fr_layout(t, cx);
                        if layout.len() != enc.value_field_count {
                            return self.unsupported(
                                cat5(
                                    "ledger read result wire layout (",
                                    number(layout.len() as u128).as_str(),
                                    " Frs) disagrees with its value encoding (",
                                    number(enc.value_field_count as u128).as_str(),
                                    " Frs); this type cannot be read soundly",
                                ),
                            );
                        }
                        self.declare_atom_list(&enc.alignment_atoms);
                        let first: Option<Index> = self.emit_read_elements(&layout);
                        let count: u128 = 1 + enc.alignment_atoms.len() as u128 + enc.value_field_count as u128;
                        self.pi_skip(g, count as u32);
                        return first;
                    }
                }
                None => {}
            },
            None => {}
        }
        let io: Option<Index> = self.current_io_guard();
        let pi: Index = self.emit_instruction(Instruction::PublicInput { guard: io });
        self.pi_skip(g, 1);
        Some(pi)
    }

    /// `Map::insert(k, v)`: `Idx`, `Push` key, `Push` value, `Ins`, `Ins`.
    fn emit_map_insert(
        &mut self,
        field_idx: u8,
        key_vars: &Vec<Index>,
        key_encoding: &AlignedEncoding,
        val_vars: &Vec<Index>,
        val_encoding: &AlignedEncoding,
    )
        ensures
            final(self)@ == map_insert(
                old(self)@,
                field_idx,
                key_vars@,
                key_encoding@,
                val_vars@,
                val_encoding@,
            ),
    {
        proof {
            reveal(map_insert);
        }
        self.emit_idx(0x70, field_idx);
        self.emit_push_cell(key_vars, Some(key_encoding), false);
        self.emit_push_cell(val_vars, Some(val_encoding), true);
        self.emit_op(0x91);
        self.emit_op(0xa1);
    }

    /// `Map::contains(k)`: `Dup`, `Idx`, `Push` key, `Member`, `Popeq`.
    fn emit_map_member(
        &mut self,
        field_idx: u8,
        key_vars: &Vec<Index>,
        key_encoding: &AlignedEncoding,
    ) -> (r: Option<Index>)
        ensures
            (final(self)@, r) == map_member(old(self)@, field_idx, key_vars@, key_encoding@),
    {
        proof {
            reveal(map_member);
        }
        self.emit_op(0x30);
        self.emit_idx(0x50, field_idx);
        self.emit_push_cell(key_vars, Some(key_encoding), false);
        self.emit_op(0x18);
        let v: Index = self.emit_popeq_bool();
        Some(v)
    }

    /// `Map::lookup(k)`: `Dup`, `Idx` to the map, `Idx` by key, `Popeq`.
    fn emit_map_lookup(
        &mut self,
        cx: &ContractIR,
        field_idx: u8,
        key_vars: &Vec<Index>,
        key_encoding: &AlignedEncoding,
        v_ty: &Ty,
        val_encoding: &AlignedEncoding,
    ) -> (r: Option<Index>)
        ensures
            (final(self)@, r) == map_lookup(
                cx@,
                old(self)@,
                field_idx,
                key_vars@,
                key_encoding@,
                v_ty@,
                val_encoding@,
            ),
    {
        proof {
            reveal(map_lookup);
        }
        let g: Index = self.guard;
        self.emit_op(0x30);
        self.emit_idx(0x50, field_idx);
        let idx_op2: Index = self.emit_load_imm(0x50);
        self.push_declare_pub_input(idx_op2);
        self.declare_atom_list(&key_encoding.alignment_atoms);
        self.declare_list(key_vars);
        let count2: u128 = 1 + key_encoding.alignment_atoms.len() as u128 + key_vars.len() as u128;
        self.pi_skip(g, count2 as u32);
        let layout: Vec<Option<u32>> = read_result_fr_layout(v_ty, cx);
        if layout.len() != val_encoding.value_field_count {
            return self.unsupported(
                cat5(
                    "Map lookup value wire layout (",
                    number(layout.len() as u128).as_str(),
                    " Frs) disagrees with its value encoding (",
                    number(val_encoding.value_field_count as u128).as_str(),
                    " Frs); this value type cannot be read soundly",
                ),
            );
        }
        let popeq_op: Index = self.emit_load_imm(0x0c);
        self.push_declare_pub_input(popeq_op);
        self.declare_atom_list(&val_encoding.alignment_atoms);
        let first: Option<Index> = self.emit_read_elements(&layout);
        let count3: u128 = 1 + val_encoding.alignment_atoms.len() as u128 + val_encoding.value_field_count as u128;
        self.pi_skip(g, count3 as u32);
        first
    }

    /// `Map::remove(k)`: `Idx`, `Push` key, `Rem`, `Ins`.
    fn emit_map_remove(&mut self, field_idx: u8, key_vars: &Vec<Index>, key_encoding: &AlignedEncoding)
        ensures
            final(self)@ == map_remove(old(self)@, field_idx, key_vars@, key_encoding@),
    {
        proof {
            reveal(map_remove);
        }
        self.emit_idx(0x70, field_idx);
        self.emit_push_cell(key_vars, Some(key_encoding), false);
        self.emit_op(0x19);
        self.emit_op(0xa1);
    }

    /// `Set::insert(k)`: a map insertion of the null value.
    fn emit_set_insert(&mut self, field_idx: u8, key_vars: &Vec<Index>, key_encoding: &AlignedEncoding)
        ensures
            final(self)@ == set_insert(old(self)@, field_idx, key_vars@, key_encoding@),
    {
        proof {
            reveal(set_insert);
        }
        self.emit_idx(0x70, field_idx);
        self.emit_push_cell(key_vars, Some(key_encoding), false);
        self.emit_push_null(true);
        self.emit_op(0x91);
        self.emit_op(0xa1);
    }

    /// The domain-separated hash of a leaf of `leaf_n` bytes.
    fn emit_leaf_hash(&mut self, leaf_first: Index, leaf_n: u32) -> (r: Index)
        ensures
            (final(self)@, r) == leaf_hash(old(self)@, leaf_first, leaf_n),
    {
        proof {
            reveal(leaf_hash);
        }
        let domain_sep: Index = self.emit_load_imm(domain_sep_mdn_lh());
        let mut inputs: Vec<Index> = Vec::new();
        inputs.push(domain_sep);
        let mut leaf: Vec<Index> = gather_n_vars(leaf_first, chunk_count(leaf_n) as usize);
        inputs.append(&mut leaf);
        let mut alignment: Vec<AlignmentAtom> = Vec::new();
        alignment.push(AlignmentAtom::Bytes { length: 6 });
        alignment.push(AlignmentAtom::Bytes { length: leaf_n });
        proof {
            assert(alignment@ =~= seq![AlignmentAtom::Bytes { length: 6 }, AlignmentAtom::Bytes { length: leaf_n }]);
            assert(inputs@ =~= seq![domain_sep] + wires(leaf_first, crate::nocturne_type::chunks(leaf_n)));
        }
        self.emit_instruction(Instruction::PersistentHash { alignment, inputs })
    }

    /// Climbs a Merkle path of `height` entries.
    fn emit_path_fold(&mut self, start: Index, base: Index, height: u32) -> (r: Index)
        ensures
            (final(self)@, r) == path_fold(old(self)@, start, base, height as nat),
    {
        let ghost before = self@;
        let mut acc: Index = start;
        let mut i: u32 = 0;
        while i < height
            invariant
                i <= height,
                (self@, acc) == path_fold(before, start, base, i as nat),
            decreases height - i,
        {
            let sibling: Index = base.wrapping_add(2u32.wrapping_mul(i));
            let goes_left: Index = sibling.wrapping_add(1);
            let left: Index = self.emit_instruction(Instruction::CondSelect { bit: goes_left, a: acc, b: sibling });
            let right: Index = self.emit_instruction(Instruction::CondSelect { bit: goes_left, a: sibling, b: acc });
            let mut inputs: Vec<Index> = Vec::new();
            inputs.push(left);
            inputs.push(right);
            assert(inputs@ =~= seq![left, right]);
            acc = self.emit_instruction(Instruction::TransientHash { inputs });
            i += 1;
        }
        acc
    }

    /// `MerkleTree::insert(leaf)`.
    fn emit_merkle_tree_insert(&mut self, field_idx: u8, leaf_first: Index, leaf_n: u32)
        ensures
            final(self)@ == merkle_insert(old(self)@, field_idx, leaf_first, leaf_n),
    {
        proof {
            reveal(merkle_insert);
        }
        let g: Index = self.guard;
        self.emit_idx(0x70, field_idx);
        self.emit_idx(0x70, 0);
        self.emit_op(0x32);
        self.emit_idx(0x50, 1);
        let hash_first: Index = self.emit_leaf_hash(leaf_first, leaf_n);
        let push_op: Index = self.emit_load_imm(0x11);
        let cell_disc: Index = self.emit_load_imm(1);
        let bytes32_atom: Index = self.emit_load_imm(32);
        self.push_declare_pub_input(push_op);
        self.push_declare_pub_input(cell_disc);
        self.push_declare_pub_input(cell_disc);
        self.push_declare_pub_input(bytes32_atom);
        self.push_declare_pub_input(hash_first);
        self.push_declare_pub_input(hash_first.wrapping_add(1));
        self.pi_skip(g, 6);
        self.emit_op(0x91);
        self.emit_op(0xa1);
        self.emit_idx(0x70, 1);
        self.emit_addi(1);
        self.emit_op(0xa2);
    }

    /// `MerkleTree::check_root(digest)`.
    fn emit_merkle_tree_check_root(&mut self, field_idx: u8, digest_var: Index) -> (r: Option<Index>)
        ensures
            (final(self)@, r) == merkle_check_root(old(self)@, field_idx, digest_var),
    {
        proof {
            reveal(merkle_check_root);
        }
        self.emit_op(0x30);
        self.emit_idx(0x50, field_idx);
        self.emit_idx(0x50, 0);
        self.emit_op(0x0a);
        let mut atoms: Vec<i32> = Vec::new();
        atoms.push(1);
        atoms.push(-2);
        assert(atoms@ =~= seq![1i32, -2i32 as i32]);
        let enc = AlignedEncoding { alignment_atoms: atoms, value_field_count: 1 };
        let mut vars: Vec<Index> = Vec::new();
        vars.push(digest_var);
        assert(vars@ =~= seq![digest_var]);
        self.emit_push_cell(&vars, Some(&enc), false);
        self.emit_op(0x02);
        let v: Index = self.emit_popeq_bool();
        Some(v)
    }

    /// `Cell::set(value)`: `Push` key, `Push` value, `Ins`.
    fn emit_ledger_write(&mut self, cx: &ContractIR, field_idx: u8, value_vars: &Vec<Index>) -> (r: Option<Index>)
        ensures
            (final(self)@, r) == ledger_write(cx@, old(self)@, field_idx, value_vars@),
    {
        proof {
            reveal(ledger_write);
        }
        let key_var: Index = self.emit_load_imm(field_idx as u128);
        let key_encoding = aligned_value_encoding_bytes(1);
        let mut key_vars: Vec<Index> = Vec::new();
        key_vars.push(key_var);
        assert(key_vars@ =~= seq![key_var]);
        self.emit_push_cell(&key_vars, Some(&key_encoding), false);
        if value_vars.len() > 0 {
            let enc: Option<AlignedEncoding> = held_encoding(cx, field_idx);
            self.emit_push_cell(value_vars, enc.as_ref(), true);
        }
        self.emit_op(0x91);
        if value_vars.len() > 0 {
            Some(value_vars[0])
        } else {
            None
        }
    }
}

/// The domain separator of leaf hashes: the bytes of `mdn:lh`, little endian.
fn domain_sep_mdn_lh() -> (r: u128)
    ensures
        r == leaf_domain(),
{
    0x686c_3a6e_646d
}

/// Encoding of a one-element `Bytes<N>` value.
pub fn aligned_value_encoding_bytes(n: u32) -> (r: AlignedEncoding)
    ensures
        r@ == (EncodingV { alignment_atoms: seq![1i32, n as i32], value_field_count: 1 }),
{
    let mut atoms: Vec<i32> = Vec::new();
    atoms.push(1);
    atoms.push(n as i32);
    assert(atoms@ =~= seq![1i32, n as i32]);
    AlignedEncoding { alignment_atoms: atoms, value_field_count: 1 }
}

/// The on-chain encoding of a contract type.
pub fn aligned_value_encoding(ty: &Ty, cx: &ContractIR) -> (r: Option<AlignedEncoding>)
    ensures
        encoding_opt(r) == value_encoding(type_ctx(cx@), ty@),
{
    let ctx = TypeCtx::new(&cx.user_structs, &cx.user_enums);
    match resolve(ty, &ctx) {
        Some(t) => t.aligned_encoding(),
        None => None,
    }
}

/// `(H, T)` of `MerkleTreePath<H, T>`.
pub fn parse_merkle_tree_path_type(ty_str: &str) -> (r: Option<(u32, String)>)
    ensures
        match r {
            Some((h, t)) => merkle_path(ty_str@) == Some((h, t@)),
            None => merkle_path(ty_str@) is None,
        },
{
    let rest = match strip_prefix(ty_str, "MerkleTreePath<") {
        Some(rest) => rest,
        None => {
            return None;
        }
    };
    let inner = match strip_suffix(rest, ">") {
        Some(inner) => inner,
        None => {
            return None;
        }
    };
    let comma: usize = match find_char(inner, ',') {
        Some(i) => i,
        None => {
            return None;
        }
    };
    let n: usize = inner.unicode_len();
    proof {
        assert(inner@.subrange(0, comma as int) =~= inner@.take(comma as int));
        assert(inner@.subrange(comma + 1, n as int) =~= inner@.skip(comma + 1));
    }
    match parse_u32(trim(inner.substring_char(0, comma))) {
        Some(h) => Some((h, txt(trim(inner.substring_char(comma + 1, n))))),
        None => None,
    }
}

/// Layout of a Merkle leaf of the given type text.
pub fn witness_fr_layout_for_leaf_type(t_str: &str) -> (r: Vec<FrLayout>)
    ensures
        r@ == leaf_layout(t_str@),
{
    match parse_bytes_n_type(t_str) {
        Some(n) => bytes_n_layout(n),
        None => {
            let mut out: Vec<FrLayout> = Vec::new();
            out.push(FrLayout::Field);
            assert(out@ =~= seq![FrLayout::Field]);
            out
        }
    }
}

/// Per-element layout of a witness type, in the order its transcript entries
/// are read.
pub fn witness_fr_layout(ty: &Ty, cx: &ContractIR) -> (r: Vec<FrLayout>)
    ensures
        r@ == witness_layout(type_ctx(cx@), ty@),
{
    let ctx = TypeCtx::new(&cx.user_structs, &cx.user_enums);
    match resolve(ty, &ctx) {
        Some(t) => {
            return t.fr_layout();
        }
        None => {}
    }
    let ty_str = strip_spaces(ty.text.as_str());
    match parse_merkle_tree_path_type(ty_str.as_str()) {
        Some((h, t)) => {
            let mut layout: Vec<FrLayout> = witness_fr_layout_for_leaf_type(t.as_str());
            let ghost leaf = layout@;
            let ghost pair = seq![FrLayout::Field, FrLayout::Boolean];
            let mut i: u32 = 0;
            proof {
                assert(layout@ =~= leaf + layout_times(pair, 0));
            }
            while i < h
                invariant
                    i <= h,
                    pair == seq![FrLayout::Field, FrLayout::Boolean],
                    layout@ == leaf + layout_times(pair, i as nat),
                decreases h - i,
            {
                layout.push(FrLayout::Field);
                layout.push(FrLayout::Boolean);
                i += 1;
                assert(layout@ =~= leaf + layout_times(pair, i as nat));
            }
            return layout;
        }
        None => {}
    }
    let mut layout: Vec<FrLayout> = Vec::new();
    layout.push(FrLayout::Field);
    if same(ty_str.as_str(), "MerkleTreePathEntry") {
        layout.push(FrLayout::Boolean);
    }
    assert(layout@ =~= witness_layout(type_ctx(cx@), ty@));
    layout
}

/// Bit widths of the elements of a value read from the ledger.
pub fn read_result_fr_layout(ty: &Ty, cx: &ContractIR) -> (r: Vec<Option<u32>>)
    ensures
        r@ == read_layout(type_ctx(cx@), ty@),
{
    let layout: Vec<FrLayout> = witness_fr_layout(ty, cx);
    let mut out: Vec<Option<u32>> = Vec::new();
    let mut i: usize = 0;
    while i < layout.len()
        invariant
            i <= layout@.len(),
            out@.len() == i,
            forall|j: int| 0 <= j < i ==> #[trigger] out@[j] == read_bits(layout@[j]),
        decreases layout@.len() - i,
    {
        let bits: Option<u32> = match layout[i] {
            FrLayout::Bits(b) => Some(b),
            FrLayout::Boolean => Some(1),
            FrLayout::Field => None,
        };
        out.push(bits);
        i += 1;
    }
    assert(out@ =~= read_layout(type_ctx(cx@), ty@));
    out
}

/// The type `name` alone.
pub(crate) fn named_type(name: &str) -> (r: Ty)
    ensures
        r@ == simple_type(name@),
{
    let mut segments: Vec<TySegment> = Vec::new();
    segments.push(TySegment { ident: txt(name), args: None });
    proof {
        assert(segments_view(segments@) =~= seq![crate::syntax::TySegmentV { ident: name@, args: None }]);
    }
    let kind = TyKind::Path { qself: false, segments };
    let r = Ty { text: txt(name), kind };
    assert(ty_kind_view(r.kind) == r@.kind);
    r
}

/// True if `ty` is the counter type.
pub(crate) fn is_counter_type(ty: &Ty) -> (r: bool)
    ensures
        r == is_counter(ty@),
{
    match last_seg(ty) {
        Some(seg) => same(seg.ident.as_str(), "Counter"),
        None => false,
    }
}

/// The encoding of the value that a cell-like slot holds.
fn held_encoding(cx: &ContractIR, slot: u8) -> (r: Option<AlignedEncoding>)
    ensures
        encoding_opt(r) == (match held_type(cx@, slot) {
            Some(t) => value_encoding(type_ctx(cx@), t),
            None => None,
        }),
{
    match field_type(cx, slot) {
        Some(t) => match extract_cell_inner_type(t) {
            Some(inner) => aligned_value_encoding(inner, cx),
            None => {
                if is_counter_type(t) {
                    aligned_value_encoding(&named_type("u64"), cx)
                } else {
                    None
                }
            }
        },
        None => None,
    }
}

/// The type of the ledger field in a slot.
pub(crate) fn field_type(cx: &ContractIR, slot: u8) -> (r: Option<&Ty>)
    ensures
        ty_ref_opt(r) == slot_type(cx@, slot),
{
    if (slot as usize) < cx.ledger.fields.len() {
        Some(&cx.ledger.fields[slot as usize].ty)
    } else {
        None
    }
}

/// The on-chain slot of a ledger field, by the first field of that name.
pub(crate) fn field_index(cx: &ContractIR, field_name: &str) -> (r: Option<u8>)
    ensures
        r == field_slot(cx@, field_name@),
{
    let ghost fs = cx@.ledger.fields;
    let mut i: usize = 0;
    while i < cx.ledger.fields.len()
        invariant
            i <= cx.ledger.fields@.len(),
            fs == cx@.ledger.fields,
            fs.len() == cx.ledger.fields@.len(),
            ledger_position(fs, field_name@, i as nat) is None,
        decreases cx.ledger.fields@.len() - i,
    {
        assert(fs[i as int].name == cx.ledger.fields@[i as int].name@);
        if same(cx.ledger.fields[i].name.as_str(), field_name) {
            proof {
                lemma_ledger_position(fs, field_name@, (i + 1) as nat, fs.len());
            }
            return Some(i as u8);
        }
        i += 1;
    }
    None
}

pub proof fn lemma_ledger_position(fs: Seq<crate::contract::LedgerFieldV>, name: Seq<char>, a: nat, b: nat)
    requires
        a <= b <= fs.len(),
        ledger_position(fs, name, a) is Some,
    ensures
        ledger_position(fs, name, b) == ledger_position(fs, name, a),
    decreases b,
{
    if a < b {
        lemma_ledger_position(fs, name, a, (b - 1) as nat);
    }
}

/// The declared type of a witness field.
pub(crate) fn find_witness_type<'a>(cx: &'a ContractIR, name: &str) -> (r: Option<&'a Ty>)
    ensures
        ty_ref_opt(r) == witness_type(cx@, name@),
{
    match &cx.witnesses {
        Some(w) => {
            let ghost fs = w.fields.deep_view();
            let mut i: usize = w.fields.len();
            while i > 0
                invariant
                    i <= w.fields@.len(),
                    fs == w.fields.deep_view(),
                    witness_type(cx@, name@) == witness_field_type(fs, name@, i as nat),
                decreases i,
            {
                i -= 1;
                assert(fs[i as int].name == w.fields@[i as int].name@);
                if same(w.fields[i].name.as_str(), name) {
                    return Some(&w.fields[i].ty);
                }
            }
            None
        }
        None => None,
    }
}

/// The return type of a parametric witness method.
pub(crate) fn find_method_type<'a>(cx: &'a ContractIR, name: &str) -> (r: Option<&'a Ty>)
    ensures
        ty_ref_opt(r) == method_type(cx@, name@),
{
    match &cx.witnesses {
        Some(w) => {
            let ghost ms = w.methods.deep_view();
            let mut i: usize = w.methods.len();
            while i > 0
                invariant
                    i <= w.methods@.len(),
                    ms == w.methods.deep_view(),
                    method_type(cx@, name@) == witness_method_type(ms, name@, i as nat),
                decreases i,
            {
                i -= 1;
                assert(ms[i as int].name == w.methods@[i as int].name@);
                if same(w.methods[i].name.as_str(), name) {
                    return Some(&w.methods[i].return_type);
                }
            }
            None
        }
        None => None,
    }
}

/// The helper of that name.
fn find_helper_ir<'a>(cx: &'a ContractIR, name: &str) -> (r: Option<&'a HelperIR>)
    ensures
        match r {
            Some(h) => find_helper(cx@.helpers, name@, cx@.helpers.len()) == Some(h@),
            None => find_helper(cx@.helpers, name@, cx@.helpers.len()) is None,
        },
{
    let ghost hs = cx@.helpers;
    let mut i: usize = cx.helpers.len();
    while i > 0
        invariant
            i <= cx.helpers@.len(),
            hs == cx@.helpers,
            hs.len() == cx.helpers@.len(),
            find_helper(hs, name@, hs.len()) == find_helper(hs, name@, i as nat),
        decreases i,
    {
        i -= 1;
        assert(hs[i as int] == cx.helpers@[i as int]@);
        if same(cx.helpers[i].name.as_str(), name) {
            return Some(&cx.helpers[i]);
        }
    }
    None
}

pub proof fn lemma_variant_position(vs: Seq<EnumVariantV>, name: Seq<char>, a: nat, b: nat)
    requires
        a <= b <= vs.len(),
        variant_position(vs, name, a) is Some,
    ensures
        variant_position(vs, name, b) == variant_position(vs, name, a),
    decreases b,
{
    if a < b {
        lemma_variant_position(vs, name, a, (b - 1) as nat);
    }
}

/// The discriminant that a path names.
pub(crate) fn resolve_enum_variant_discriminant(
    user_enums: &Vec<(String, Vec<UserEnumVariant>)>,
    path: &Path,
) -> (r: Option<u8>)
    ensures
        r == discriminant(enums_view(user_enums@), path@),
{
    let n: usize = path.segments.len();
    assert(forall|i: int| 0 <= i < n ==> path@.segments[i] == (#[trigger] path.segments@[i]).name@);
    if n == 1 {
        return if same(path.segments[0].name.as_str(), "None") {
            Some(0)
        } else if same(path.segments[0].name.as_str(), "Some") {
            Some(1)
        } else {
            None
        };
    }
    if n < 2 {
        return None;
    }
    match find_enum(user_enums, path.segments[n - 2].name.as_str()) {
        Some(variants) => {
            let name = path.segments[n - 1].name.as_str();
            let ghost vs = variants.deep_view();
            let mut i: usize = 0;
            while i < variants.len()
                invariant
                    i <= variants@.len(),
                    vs == variants.deep_view(),
                    variant_position(vs, name@, i as nat) is None,
                    discriminant(enums_view(user_enums@), path@) == (match variant_position(vs, name@, vs.len()) {
                        Some(p) => Some(p as u8),
                        None => None,
                    }),
                decreases variants@.len() - i,
            {
                assert(vs[i as int].name == variants@[i as int].name@);
                if same(variants[i].name.as_str(), name) {
                    proof {
                        lemma_variant_position(vs, name@, (i + 1) as nat, vs.len());
                    }
                    return Some(i as u8);
                }
                i += 1;
            }
            None
        }
        None => None,
    }
}

/// True for the wrapper constructors, which leave the value as it is.
pub(crate) fn is_wrapper_from_call(path: &Path) -> (r: bool)
    ensures
        r == wraps_value(path@),
{
    let n: usize = path.segments.len();
    assert(forall|i: int| 0 <= i < n ==> path@.segments[i] == (#[trigger] path.segments@[i]).name@);
    if n < 2 || !same(path.segments[n - 1].name.as_str(), "from") {
        return false;
    }
    let q = path.segments[n - 2].name.as_str();
    same(q, "Uint") || same(q, "Field") || same(q, "Boolean") || same(q, "Bytes") || same(q, "u8") || same(q, "u16")
        || same(q, "u32") || same(q, "u64") || same(q, "u128")
}

/// The witness field behind any number of references.
pub fn find_witness_field(expr: &ExprIR) -> (r: Option<&String>)
    ensures
        match r {
            Some(s) => referenced_witness(expr@) == Some(s@),
            None => referenced_witness(expr@) is None,
        },
    decreases expr,
{
    match expr {
        ExprIR::WitnessAccess { field, .. } => Some(field),
        ExprIR::Reference { expr, .. } => find_witness_field(expr),
        _ => None,
    }
}

// ---- renaming

fn fresh(counter: u32, seq: u32, name: &str) -> (r: String)
    ensures
        r@ == fresh_name(counter, seq, name@),
{
    cat6("__h", number(counter as u128).as_str(), "_", number(seq as u128).as_str(), "_", name)
}

/// Renames an expression of a spliced helper body: free names by `subst`, every
/// binding to a fresh name.
pub fn alpha_rename(expr: &ExprIR, subst: &mut NameMap<String>, counter: u32, seq: &mut u32) -> (r: ExprIR)
    ensures
        ({
            let spec = renamed(expr@, old(subst)@, counter, *old(seq));
            &&& r@ == spec.expr
            &&& final(subst)@ == spec.subst
            &&& *final(seq) == spec.seq
        }),
    decreases expr, 1nat,
{
    match expr {
        ExprIR::Var { span, name } => {
            let new_name = match subst.get(name.as_str()) {
                Some(n) => n.clone(),
                None => name.clone(),
            };
            ExprIR::Var { span: *span, name: new_name }
        }
        ExprIR::Let { span, name, value } => {
            let new_value = alpha_rename(value, subst, counter, seq);
            let new_name = fresh(counter, *seq, name.as_str());
            *seq = seq.wrapping_add(1);
            subst.insert(name.clone(), new_name.clone());
            ExprIR::Let { span: *span, name: new_name, value: Box::new(new_value) }
        }
        ExprIR::BinaryOp { span, op, lhs, rhs } => {
            let l = alpha_rename(lhs, subst, counter, seq);
            let r = alpha_rename(rhs, subst, counter, seq);
            ExprIR::BinaryOp { span: *span, op: *op, lhs: Box::new(l), rhs: Box::new(r) }
        }
        ExprIR::UnaryOp { span, op, expr } => {
            let r = alpha_rename(expr, subst, counter, seq);
            ExprIR::UnaryOp { span: *span, op: *op, expr: Box::new(r) }
        }
        ExprIR::FnCall { span, name, path, args } => {
            let r = rename_list(args, subst, counter, seq);
            ExprIR::FnCall { span: *span, name: name.clone(), path: path.clone(), args: r }
        }
        ExprIR::MethodCall { span, receiver, method, args } => {
            let v = alpha_rename(receiver, subst, counter, seq);
            let r = rename_list(args, subst, counter, seq);
            ExprIR::MethodCall { span: *span, receiver: Box::new(v), method: method.clone(), args: r }
        }
        ExprIR::If { .. } => rename_if(expr, subst, counter, seq),
        ExprIR::Assert { span, kind } => match kind {
            AssertKind::Assert(e) => {
                let r = alpha_rename(e, subst, counter, seq);
                let new_kind = AssertKind::Assert(Box::new(r));
                assert(assert_view(*kind) is Assert && assert_view(new_kind) is Assert);
                ExprIR::Assert { span: *span, kind: new_kind }
            }
            AssertKind::AssertEq(a, b) => {
                let l = alpha_rename(a, subst, counter, seq);
                let r = alpha_rename(b, subst, counter, seq);
                let new_kind = AssertKind::AssertEq(Box::new(l), Box::new(r));
                assert(assert_view(*kind) is AssertEq && assert_view(new_kind) is AssertEq);
                ExprIR::Assert { span: *span, kind: new_kind }
            }
        },
        ExprIR::Disclose { span, value } => {
            let r = alpha_rename(value, subst, counter, seq);
            ExprIR::Disclose { span: *span, value: Box::new(r) }
        }
        ExprIR::EnumPayload { span, scrutinee, enum_name } => {
            let r = alpha_rename(scrutinee, subst, counter, seq);
            ExprIR::EnumPayload { span: *span, scrutinee: Box::new(r), enum_name: enum_name.clone() }
        }
        ExprIR::ArrayLit { span, elements } => {
            let r = rename_list(elements, subst, counter, seq);
            ExprIR::ArrayLit { span: *span, elements: r }
        }
        ExprIR::Index { span, array, index } => {
            let r = alpha_rename(array, subst, counter, seq);
            ExprIR::Index { span: *span, array: Box::new(r), index: *index }
        }
        ExprIR::Block { span, stmts } => {
            let mut inner = subst.duplicate();
            let r = rename_list(stmts, &mut inner, counter, seq);
            ExprIR::Block { span: *span, stmts: r }
        }
        ExprIR::StructInit { span, name, fields } => {
            let r = rename_fields(fields, subst, counter, seq);
            ExprIR::StructInit { span: *span, name: name.clone(), fields: r }
        }
        ExprIR::Return { span, value } => match value {
            Some(v) => {
                let r = alpha_rename(v, subst, counter, seq);
                ExprIR::Return { span: *span, value: Some(Box::new(r)) }
            }
            None => ExprIR::Return { span: *span, value: None },
        },
        ExprIR::Tuple { span, elements } => {
            let r = rename_list(elements, subst, counter, seq);
            ExprIR::Tuple { span: *span, elements: r }
        }
        ExprIR::Reference { span, expr } => {
            let r = alpha_rename(expr, subst, counter, seq);
            ExprIR::Reference { span: *span, expr: Box::new(r) }
        }
        ExprIR::LedgerAccess { span, field, method, args } => {
            let r = rename_list(args, subst, counter, seq);
            ExprIR::LedgerAccess { span: *span, field: field.clone(), method: method.clone(), args: r }
        }
        ExprIR::WitnessCall { span, name, args } => {
            let r = rename_list(args, subst, counter, seq);
            ExprIR::WitnessCall { span: *span, name: name.clone(), args: r }
        }
        ExprIR::Literal { .. } => expr.clone(),
        ExprIR::Path { .. } => expr.clone(),
        ExprIR::WitnessAccess { .. } => expr.clone(),
        ExprIR::Unsupported { .. } => expr.clone(),
    }
}

fn rename_if(expr: &ExprIR, subst: &mut NameMap<String>, counter: u32, seq: &mut u32) -> (r: ExprIR)
    requires
        expr is If,
    ensures
        ({
            let spec = renamed(expr@, old(subst)@, counter, *old(seq));
            &&& r@ == spec.expr
            &&& final(subst)@ == spec.subst
            &&& *final(seq) == spec.seq
        }),
    decreases expr, 0nat,
{
    match expr {
        ExprIR::If { span, cond, then_branch, else_branch } => {
            let c = alpha_rename(cond, subst, counter, seq);
            let mut in_then = subst.duplicate();
            let t = rename_list(then_branch, &mut in_then, counter, seq);
            let f = match else_branch {
                Some(b) => {
                    let mut in_else = subst.duplicate();
                    Some(rename_list(b, &mut in_else, counter, seq))
                }
                None => None,
            };
            ExprIR::If { span: *span, cond: Box::new(c), then_branch: t, else_branch: f }
        }
        _ => expr.clone(),
    }
}

fn rename_list(es: &Vec<ExprIR>, subst: &mut NameMap<String>, counter: u32, seq: &mut u32) -> (r: Vec<ExprIR>)
    ensures
        ({
            let spec = renamed_list(exprs_view(es@), es@.len(), old(subst)@, counter, *old(seq));
            &&& exprs_view(r@) == spec.exprs
            &&& final(subst)@ == spec.subst
            &&& *final(seq) == spec.seq
        }),
    decreases es, 0nat,
{
    broadcast use crate::expr::lemma_exprs_view_push;

    let ghost subst0 = subst@;
    let ghost seq0 = *seq;
    let mut out: Vec<ExprIR> = Vec::new();
    let mut i: usize = 0;
    assert(exprs_view(out@) =~= seq![]);
    while i < es.len()
        invariant
            i <= es@.len(),
            ({
                let spec = renamed_list(exprs_view(es@), i as nat, subst0, counter, seq0);
                &&& exprs_view(out@) == spec.exprs
                &&& subst@ == spec.subst
                &&& *seq == spec.seq
            }),
        decreases es@.len() - i,
    {
        let r = alpha_rename(&es[i], subst, counter, seq);
        out.push(r);
        i += 1;
    }
    out
}

fn rename_fields(
    fs: &Vec<(String, ExprIR)>,
    subst: &mut NameMap<String>,
    counter: u32,
    seq: &mut u32,
) -> (r: Vec<(String, ExprIR)>)
    ensures
        ({
            let spec = renamed_fields(fields_view(fs@), fs@.len(), old(subst)@, counter, *old(seq));
            &&& fields_view(r@) == spec.fields
            &&& final(subst)@ == spec.subst
            &&& *final(seq) == spec.seq
        }),
    decreases fs, 0nat,
{
    let ghost subst0 = subst@;
    let ghost seq0 = *seq;
    let mut out: Vec<(String, ExprIR)> = Vec::new();
    let mut i: usize = 0;
    assert(fields_view(out@) =~= seq![]);
    while i < fs.len()
        invariant
            i <= fs@.len(),
            ({
                let spec = renamed_fields(fields_view(fs@), i as nat, subst0, counter, seq0);
                &&& fields_view(out@) == spec.fields
                &&& subst@ == spec.subst
                &&& *seq == spec.seq
            }),
        decreases fs@.len() - i,
    {
        let r = alpha_rename(&fs[i].1, subst, counter, seq);
        let ghost before = out@;
        out.push((fs[i].0.clone(), r));
        proof {
            assert(fields_view(out@) =~= fields_view(before).push((fs@[i as int].0@, r@)));
        }
        i += 1;
    }
    out
}

// ---- types and widths of expressions

impl ZkirEmitter {
    /// The type of an expression, where its shape alone tells it.
    fn infer_expr_type(&self, cx: &ContractIR, expr: &ExprIR) -> (r: Option<Ty>)
        ensures
            ty_opt(r) == inferred_type(cx@, self@, expr@),
        decreases expr,
    {
        match expr {
            ExprIR::WitnessAccess { field, .. } => match find_witness_type(cx, field.as_str()) {
                Some(t) => Some(t.clone()),
                None => None,
            },
            ExprIR::Var { name, .. } => match self.variable_types.get(name.as_str()) {
                Some(t) => Some(t.clone()),
                None => None,
            },
            ExprIR::LedgerAccess { field, method, .. } => {
                let m = method.as_str();
                if same(m, "get") || same(m, "value") || same(m, "__direct_access") {
                    match field_index(cx, field.as_str()) {
                        Some(slot) => match field_type(cx, slot) {
                            Some(t) => match extract_cell_inner_type(t) {
                                Some(inner) => Some(inner.clone()),
                                None => None,
                            },
                            None => None,
                        },
                        None => None,
                    }
                } else {
                    None
                }
            }
            ExprIR::Index { array, .. } => match self.infer_expr_type(cx, array) {
                Some(t) => match extract_array_type(&t) {
                    Some((elem, _)) => Some(elem.clone()),
                    None => None,
                },
                None => None,
            },
            _ => None,
        }
    }

    /// Bit width of one operand of an ordered comparison.
    fn expr_comparison_width(&self, cx: &ContractIR, expr: &ExprIR) -> (r: Option<u32>)
        ensures
            r == comparison_width(cx@, self@, expr@),
        decreases expr,
    {
        match expr {
            ExprIR::Literal { value, .. } => match value {
                LiteralIR::Int(n) => Some(int_literal_width(*n)),
                LiteralIR::Bool(_) => Some(1),
                LiteralIR::Str(_) => None,
            },
            ExprIR::MethodCall { receiver, method, .. } => {
                if is_transparent_wrapper(method.as_str()) {
                    self.expr_comparison_width(cx, receiver)
                } else {
                    None
                }
            }
            ExprIR::Reference { expr, .. } => self.expr_comparison_width(cx, expr),
            _ => match self.infer_expr_type(cx, expr) {
                Some(t) => {
                    let text = strip_spaces(t.text.as_str());
                    if same(text.as_str(), "Boolean") || same(text.as_str(), "bool") {
                        Some(1)
                    } else {
                        parse_uint_type(text.as_str())
                    }
                }
                None => None,
            },
        }
    }

    /// The width at which two operands are compared: the larger of both.
    fn comparison_bits(&self, cx: &ContractIR, lhs: &ExprIR, rhs: &ExprIR) -> (r: Option<u32>)
        ensures
            r == common_width(cx@, self@, lhs@, rhs@),
    {
        match self.expr_comparison_width(cx, lhs) {
            Some(l) => match self.expr_comparison_width(cx, rhs) {
                Some(r) => Some(if l >= r { l } else { r }),
                None => None,
            },
            None => None,
        }
    }

    /// The wires of a value written to a cell.
    fn gather_value_vars(&self, cx: &ContractIR, field_idx: u8, first: Option<Index>) -> (r: Vec<Index>)
        ensures
            r@ == written_wires(cx@, field_idx, first),
    {
        let f: Index = match first {
            Some(f) => f,
            None => {
                let r: Vec<Index> = Vec::new();
                assert(r@ =~= seq![]);
                return r;
            }
        };
        let mut n: usize = 1;
        match field_type(cx, field_idx) {
            Some(t) => match extract_cell_inner_type(t) {
                Some(inner) => match aligned_value_encoding(inner, cx) {
                    Some(e) => {
                        n = e.value_field_count;
                    }
                    None => {}
                },
                None => {}
            },
            None => {}
        }
        gather_n_vars(f, n)
    }
}

// ---- lowering

impl ZkirEmitter {
    fn some_instruction(&mut self, instruction: Instruction) -> (r: Option<Index>)
        ensures
            (final(self)@, r) == some_wire(emit(old(self)@, instruction@)),
    {
        let w: Index = self.emit_instruction(instruction);
        Some(w)
    }

    fn emit_subtract(&mut self, a: Index, b: Index) -> (r: Option<Index>)
        ensures
            (final(self)@, r) == subtract(old(self)@, a, b),
    {
        let neg: Index = self.emit_instruction(Instruction::Neg { a: b });
        self.some_instruction(Instruction::Add { a, b: neg })
    }

    fn no_width(&mut self, op: BinOp) -> (r: Option<Index>)
        ensures
            (final(self)@, r) == fail(
                old(self)@,
                "cannot infer a bit width for the comparison `"@ + bin_op_text(op)
                    + "` — Field-typed or untyped operands have no sound `LessThan` width; compare typed `Uint`s instead"@,
            ),
    {
        self.unsupported(
            cat3(
                "cannot infer a bit width for the comparison `",
                op.text(),
                "` — Field-typed or untyped operands have no sound `LessThan` width; compare typed `Uint`s instead",
            ),
        )
    }

    fn emit_less_than(&mut self, op: BinOp, a: Index, b: Index, bits: Option<u32>) -> (r: Option<Index>)
        requires
            op == BinOp::Lt || op == BinOp::Gt || op == BinOp::Le || op == BinOp::Ge,
        ensures
            (final(self)@, r) == binary(old(self)@, op, a, b, bits),
    {
        match bits {
            Some(bits) => {
                if op == BinOp::Lt {
                    self.some_instruction(Instruction::LessThan { a, b, bits })
                } else if op == BinOp::Gt {
                    self.some_instruction(Instruction::LessThan { a: b, b: a, bits })
                } else if op == BinOp::Le {
                    let gt: Index = self.emit_instruction(Instruction::LessThan { a: b, b: a, bits });
                    self.some_instruction(Instruction::Not { a: gt })
                } else {
                    let lt: Index = self.emit_instruction(Instruction::LessThan { a, b, bits });
                    self.some_instruction(Instruction::Not { a: lt })
                }
            }
            None => self.no_width(op),
        }
    }

    /// A binary operation on two wires.
    fn emit_binary(&mut self, op: BinOp, a: Index, b: Index, bits: Option<u32>) -> (r: Option<Index>)
        ensures
            (final(self)@, r) == binary(old(self)@, op, a, b, bits),
    {
        match op {
            BinOp::Add => self.some_instruction(Instruction::Add { a, b }),
            BinOp::AddAssign => self.some_instruction(Instruction::Add { a, b }),
            BinOp::Sub => self.emit_subtract(a, b),
            BinOp::SubAssign => self.emit_subtract(a, b),
            BinOp::Mul => self.some_instruction(Instruction::Mul { a, b }),
            BinOp::MulAssign => self.some_instruction(Instruction::Mul { a, b }),
            BinOp::And => self.some_instruction(Instruction::Mul { a, b }),
            BinOp::Eq => self.some_instruction(Instruction::TestEq { a, b }),
            BinOp::Ne => {
                let eq: Index = self.emit_instruction(Instruction::TestEq { a, b });
                self.some_instruction(Instruction::Not { a: eq })
            }
            BinOp::Lt => self.emit_less_than(op, a, b, bits),
            BinOp::Gt => self.emit_less_than(op, a, b, bits),
            BinOp::Le => self.emit_less_than(op, a, b, bits),
            BinOp::Ge => self.emit_less_than(op, a, b, bits),
            BinOp::Or => {
                let ab: Index = self.emit_instruction(Instruction::Mul { a, b });
                let sum: Index = self.emit_instruction(Instruction::Add { a, b });
                let neg_ab: Index = self.emit_instruction(Instruction::Neg { a: ab });
                self.some_instruction(Instruction::Add { a: sum, b: neg_ab })
            }
            _ => self.unsupported(cat3("unsupported binary operator `", op.text(), "` in circuit")),
        }
    }

    fn emit_unary(&mut self, op: UnOp, a: Index) -> (r: Option<Index>)
        ensures
            (final(self)@, r) == unary(old(self)@, op, a),
    {
        match op {
            UnOp::Neg => self.some_instruction(Instruction::Neg { a }),
            UnOp::Not => self.some_instruction(Instruction::Not { a }),
            UnOp::Deref => self.unsupported(cat3("unsupported unary operator `", op.text(), "` in circuit")),
        }
    }

    fn emit_literal(&mut self, value: &LiteralIR) -> (r: Option<Index>)
        ensures
            (final(self)@, r) == literal(old(self)@, value@),
    {
        match value {
            LiteralIR::Int(n) => {
                let w: Index = self.emit_load_imm(*n);
                Some(w)
            }
            LiteralIR::Bool(b) => {
                let n: u128 = if *b { 1 } else { 0 };
                let w: Index = self.emit_load_imm(n);
                Some(w)
            }
            LiteralIR::Str(_) => self.unsupported(txt("string literals have no circuit representation")),
        }
    }

    fn emit_variable(&mut self, name: &str) -> (r: Option<Index>)
        ensures
            (final(self)@, r) == variable(old(self)@, name@),
    {
        let known: Option<Index> = match self.variables.get(name) {
            Some(w) => Some(*w),
            None => None,
        };
        match known {
            Some(w) => Some(w),
            None => {
                if self.poisoned.contains(name) {
                    None
                } else {
                    self.unsupported(
                        cat3(
                            "variable `",
                            name,
                            "` has no circuit wire (binding shape not supported by the ZKIR emitter)",
                        ),
                    )
                }
            }
        }
    }

    fn emit_path_constant(&mut self, cx: &ContractIR, path: &Path) -> (r: Option<Index>)
        ensures
            (final(self)@, r) == path_constant(cx@, old(self)@, path@),
    {
        match resolve_enum_variant_discriminant(&cx.user_enums, path) {
            Some(d) => {
                let w: Index = self.emit_load_imm(d as u128);
                Some(w)
            }
            None => self.unsupported(
                cat3("path expression `", path.text.as_str(), "` does not name a known enum variant"),
            ),
        }
    }

    /// Binds the name of a `let` to the wire of its initializer.
    fn bind(&mut self, name: &String, wire: Option<Index>, ty: Option<Ty>) -> (r: Option<Index>)
        ensures
            (final(self)@, r) == bound(old(self)@, name@, wire, ty_opt(ty)),
    {
        let ghost before = self@;
        match wire {
            Some(w) => {
                self.variables.insert(name.clone(), w);
                self.poisoned.remove(name.as_str());
                match ty {
                    Some(t) => {
                        self.variable_types.insert(name.clone(), t);
                    }
                    None => {}
                }
            }
            None => {
                if self.errors.len() == 0 {
                    self.errors.push(cat3("let binding `", name.as_str(), "`'s initializer produces no circuit value"));
                }
                self.poisoned.insert(name.clone());
                self.variables.remove(name.as_str());
                self.variable_types.remove(name.as_str());
            }
        }
        assert(self@ =~= bound(before, name@, wire, ty_opt(ty)).0);
        wire
    }

    /// A read of a witness field.
    fn emit_witness_read(&mut self, cx: &ContractIR, field: &String) -> (r: Option<Index>)
        ensures
            (final(self)@, r) == witness_read(cx@, old(self)@, field@),
    {
        let key = cat2("witness.", field.as_str());
        let known: Option<Index> = match self.variables.get(key.as_str()) {
            Some(w) => Some(*w),
            None => None,
        };
        match known {
            Some(w) => {
                return Some(w);
            }
            None => {}
        }
        if self.guarded_witness_fields.contains(field.as_str()) {
            return self.unsupported(
                cat3(
                    "witness field `",
                    field.as_str(),
                    "` is first read inside a conditional branch and used again elsewhere; hoist it to a `let` before the `if`",
                ),
            );
        }
        match find_witness_type(cx, field.as_str()) {
            Some(t) => {
                let conditional: bool = self.in_conditional;
                let layout: Vec<FrLayout> = witness_fr_layout(t, cx);
                let first: Option<Index> = self.emit_private_block(&layout);
                let ghost mid = self@;
                match first {
                    Some(f) => {
                        if conditional {
                            self.guarded_witness_fields.insert(field.clone());
                            assert(self@ =~= (EmitV {
                                guarded_witness_fields: mid.guarded_witness_fields.insert(field@),
                                ..mid
                            }));
                        } else {
                            self.variables.insert(key, f);
                            assert(self@ =~= (EmitV { variables: mid.variables.insert(witness_key(field@), f), ..mid }));
                        }
                        Some(f)
                    }
                    None => self.unsupported(cat3("witness field `", field.as_str(), "` occupies no circuit wire")),
                }
            }
            None => self.unsupported(
                cat3(
                    "witness field `",
                    field.as_str(),
                    "` has no registered type at ZKIR emit time; its wire layout cannot be determined",
                ),
            ),
        }
    }

    /// The wire of `array[index]`, given the wire of the array.
    fn emit_element(&mut self, cx: &ContractIR, ty: Option<Ty>, first: Index, index: u32) -> (r: Option<Index>)
        ensures
            (final(self)@, r) == element(cx@, old(self)@, ty_opt(ty), first, index),
    {
        match ty {
            None => self.unsupported(
                txt(
                    "cannot infer the element type of an indexed expression; only witness arrays and typed let-bound arrays support indexing",
                ),
            ),
            Some(t) => match extract_array_type(&t) {
                None => self.unsupported(cat3("indexed expression has non-array type `", t.text.as_str(), "`")),
                Some((elem, len)) => {
                    if index >= len {
                        self.unsupported(
                            cat5(
                                "array index ",
                                number(index as u128).as_str(),
                                " out of bounds for `[_; ",
                                number(len as u128).as_str(),
                                "]`",
                            ),
                        )
                    } else {
                        let stride: u32 = witness_fr_layout(elem, cx).len() as u32;
                        Some(first.wrapping_add(index.wrapping_mul(stride)))
                    }
                }
            },
        }
    }

    /// The root of a Merkle path whose elements start at `first`.
    fn emit_path_root(&mut self, first: Index, height: u32, leaf_n: u32) -> (r: Option<Index>)
        ensures
            (final(self)@, r) == path_root(old(self)@, first, height, leaf_n),
    {
        let hash: Index = self.emit_leaf_hash(first, leaf_n);
        let w: Index = self.emit_path_fold(
            hash.wrapping_add(1),
            first.wrapping_add(chunk_count(leaf_n)),
            height,
        );
        Some(w)
    }

    fn emit_then_guard(&mut self, cond: Index) -> (r: Index)
        ensures
            (final(self)@, r) == then_guard(old(self)@, cond),
    {
        if self.in_conditional {
            let outer: Index = self.guard;
            let zero: Index = self.emit_load_zero();
            self.emit_instruction(Instruction::CondSelect { bit: cond, a: outer, b: zero })
        } else {
            cond
        }
    }

    fn emit_else_guard(&mut self, cond: Index, nested: bool, outer: Index) -> (r: Index)
        ensures
            (final(self)@, r) == else_guard(old(self)@, cond, nested, outer),
    {
        if nested {
            let zero: Index = self.emit_load_zero();
            self.emit_instruction(Instruction::CondSelect { bit: cond, a: zero, b: outer })
        } else {
            self.emit_instruction(Instruction::Not { a: cond })
        }
    }

    fn enter(&mut self, guard: Index)
        ensures
            final(self)@ == enter_branch(old(self)@, guard),
    {
        let ghost before = self@;
        self.guard = guard;
        self.in_conditional = true;
        assert(self@ =~= enter_branch(before, guard));
    }

    fn set_guard(&mut self, guard: Index)
        ensures
            final(self)@ == (EmitV { guard, ..old(self)@ }),
    {
        let ghost before = self@;
        self.guard = guard;
        assert(self@ =~= (EmitV { guard, ..before }));
    }

    fn close(&mut self, start: usize)
        ensures
            final(self)@ == close_branch(old(self)@, start as nat),
    {
        let ghost before = self@;
        let ghost spans = self.branch_spans@;
        let end: usize = self.instructions.len();
        self.branch_spans.push(BranchSpan { start, end });
        proof {
            assert(spans_view(self.branch_spans@) =~= spans_view(spans).push((start as nat, end as nat)));
            assert(self@ =~= close_branch(before, start as nat));
        }
    }

    fn leave(
        &mut self,
        cond: Index,
        outer_guard: Index,
        outer_conditional: bool,
        then_wire: Option<Index>,
        else_wire: Option<Index>,
    ) -> (r: Option<Index>)
        ensures
            (final(self)@, r) == leave_if(old(self)@, cond, outer_guard, outer_conditional, then_wire, else_wire),
    {
        let ghost before = self@;
        self.guard = outer_guard;
        self.in_conditional = outer_conditional;
        assert(self@ =~= (EmitV { guard: outer_guard, in_conditional: outer_conditional, ..before }));
        match then_wire {
            Some(t) => match else_wire {
                Some(f) => {
                    return self.some_instruction(Instruction::CondSelect { bit: cond, a: t, b: f });
                }
                None => {}
            },
            None => {}
        }
        Some(cond)
    }

    fn set_in_helper(&mut self, in_helper: bool)
        ensures
            final(self)@ == (EmitV { in_helper, ..old(self)@ }),
    {
        let ghost before = self@;
        self.in_helper = in_helper;
        assert(self@ =~= (EmitV { in_helper, ..before }));
    }

    /// One step of a run of fresh wires.
    fn run_check(
        &mut self,
        before: Index,
        wire: Option<Index>,
        first: Option<Index>,
        what: &str,
    ) -> (r: Option<Option<Index>>)
        ensures
            (final(self)@, r) == run_step(before, (old(self)@, wire), first, what@),
    {
        match wire {
            None => None,
            Some(w) => {
                if w != before {
                    self.unsupported(
                        cat2(
                            what,
                            " element does not allocate fresh contiguous wires (it is a repeated witness read, an earlier binding, or a computed value); the multi-Fr encoding would read the wrong wires — use each witness element at most once per literal",
                        ),
                    );
                    None
                } else {
                    match first {
                        Some(f) => Some(Some(f)),
                        None => Some(Some(w)),
                    }
                }
            }
        }
    }
}

impl ZkirEmitter {
    /// Lowers an expression and returns the wire of its value, if it has one.
    /// `depth` bounds the nesting of spliced helpers.
    fn emit_expr(&mut self, cx: &ContractIR, expr: &ExprIR, depth: usize) -> (r: Option<Index>)
        ensures
            (final(self)@, r) == lower(cx@, old(self)@, expr@, depth as nat),
        decreases depth, expr, 2nat,
    {
        match expr {
            ExprIR::LedgerAccess { .. } => self.emit_ledger_access(cx, expr, depth),
            ExprIR::WitnessAccess { field, .. } => self.emit_witness_read(cx, field),
            ExprIR::WitnessCall { .. } => self.emit_witness_call(cx, expr, depth),
            ExprIR::Literal { value, .. } => self.emit_literal(value),
            ExprIR::Var { name, .. } => self.emit_variable(name.as_str()),
            ExprIR::Path { path, .. } => self.emit_path_constant(cx, path),
            ExprIR::EnumPayload { scrutinee, .. } => match self.emit_expr(cx, scrutinee, depth) {
                Some(first) => Some(first.wrapping_add(1)),
                None => None,
            },
            ExprIR::BinaryOp { .. } => self.emit_binary_expr(cx, expr, depth),
            ExprIR::UnaryOp { op, expr, .. } => match self.emit_expr(cx, expr, depth) {
                Some(w) => self.emit_unary(*op, w),
                None => None,
            },
            ExprIR::Let { name, value, .. } => {
                let ty = self.infer_expr_type(cx, value);
                let wire: Option<Index> = self.emit_expr(cx, value, depth);
                self.bind(name, wire, ty)
            }
            ExprIR::Assert { .. } => self.emit_assert(cx, expr, depth),
            ExprIR::If { .. } => self.emit_if(cx, expr, depth),
            ExprIR::FnCall { .. } => self.emit_call(cx, expr, depth),
            ExprIR::Disclose { value, .. } => self.emit_expr(cx, value, depth),
            ExprIR::MethodCall { receiver, args, .. } => {
                let recv: Option<Index> = self.emit_expr(cx, receiver, depth);
                self.emit_seq(cx, args, depth);
                recv
            }
            ExprIR::Block { stmts, .. } => self.emit_seq(cx, stmts, depth),
            ExprIR::Return { value, .. } => {
                if self.in_helper {
                    self.unsupported(
                        txt(
                            "`return` inside an inlined helper is not supported; make the returned value the helper's final expression instead",
                        ),
                    )
                } else {
                    match value {
                        Some(v) => self.emit_expr(cx, v, depth),
                        None => None,
                    }
                }
            }
            ExprIR::Tuple { elements, .. } => match self.emit_contiguous_elements(cx, elements, "tuple literal", depth) {
                Some(first) => first,
                None => None,
            },
            ExprIR::ArrayLit { elements, .. } => {
                match self.emit_contiguous_elements(cx, elements, "array literal", depth) {
                    Some(first) => first,
                    None => None,
                }
            }
            ExprIR::Reference { expr, .. } => self.emit_expr(cx, expr, depth),
            ExprIR::Index { array, index, .. } => match self.emit_expr(cx, array, depth) {
                Some(first) => {
                    let ty = self.infer_expr_type(cx, array);
                    self.emit_element(cx, ty, first, *index)
                }
                None => None,
            },
            ExprIR::StructInit { name, fields, .. } => {
                let order: Vec<usize> = field_order(cx, name.as_str(), fields);
                match self.emit_contiguous_fields(cx, fields, &order, depth) {
                    Some(first) => first,
                    None => None,
                }
            }
            ExprIR::Unsupported { description, .. } => self.unsupported(
                cat2("unsupported expression: ", description.as_str()),
            ),
        }
    }

    /// A method call on a ledger field, dispatched by the field's type.
    fn emit_ledger_access(&mut self, cx: &ContractIR, expr: &ExprIR, depth: usize) -> (r: Option<Index>)
        requires
            expr is LedgerAccess,
        ensures
            (final(self)@, r) == lower(cx@, old(self)@, expr@, depth as nat),
        decreases depth, expr, 1nat,
    {
        match expr {
            ExprIR::LedgerAccess { field, method, args, .. } => {
                let slot: u8 = match field_index(cx, field.as_str()) {
                    Some(slot) => slot,
                    None => {
                        return self.unsupported(cat3("ledger field `", field.as_str(), "` not found"));
                    }
                };
                match field_type(cx, slot) {
                    None => self.emit_cell_method(cx, slot, None, field.as_str(), method.as_str(), args, depth),
                    Some(t) => match extract_map_kv_types(t) {
                        Some((k, v)) => self.emit_map_method(cx, slot, k, v, method.as_str(), args, depth),
                        None => match extract_set_inner_type(t) {
                            Some(elem) => self.emit_set_method(cx, slot, elem, method.as_str(), args, depth),
                            None => match extract_merkle_tree_type(t) {
                                Some(_) => self.emit_merkle_tree_method(cx, slot, method.as_str(), args, depth),
                                None => self.emit_cell_method(
                                    cx,
                                    slot,
                                    Some(t),
                                    field.as_str(),
                                    method.as_str(),
                                    args,
                                    depth,
                                ),
                            },
                        },
                    },
                }
            }
            _ => None,
        }
    }

    /// A parametric witness call: its arguments, then a fresh block of
    /// transcript reads sized by the return type.
    fn emit_witness_call(&mut self, cx: &ContractIR, expr: &ExprIR, depth: usize) -> (r: Option<Index>)
        requires
            expr is WitnessCall,
        ensures
            (final(self)@, r) == lower(cx@, old(self)@, expr@, depth as nat),
        decreases depth, expr, 1nat,
    {
        match expr {
            ExprIR::WitnessCall { name, args, .. } => {
                self.emit_seq(cx, args, depth);
                match find_method_type(cx, name.as_str()) {
                    Some(t) => {
                        let layout: Vec<FrLayout> = witness_fr_layout(t, cx);
                        self.emit_private_block(&layout)
                    }
                    None => self.unsupported(
                        cat3(
                            "witness method `",
                            name.as_str(),
                            "` has no registered return type at ZKIR emit time; its wire layout cannot be determined",
                        ),
                    ),
                }
            }
            _ => None,
        }
    }

    fn emit_binary_expr(&mut self, cx: &ContractIR, expr: &ExprIR, depth: usize) -> (r: Option<Index>)
        requires
            expr is BinaryOp,
        ensures
            (final(self)@, r) == lower(cx@, old(self)@, expr@, depth as nat),
        decreases depth, expr, 1nat,
    {
        match expr {
            ExprIR::BinaryOp { op, lhs, rhs, .. } => {
                let bits: Option<u32> = self.comparison_bits(cx, lhs, rhs);
                match self.emit_expr(cx, lhs, depth) {
                    Some(a) => match self.emit_expr(cx, rhs, depth) {
                        Some(b) => self.emit_binary(*op, a, b, bits),
                        None => None,
                    },
                    None => None,
                }
            }
            _ => None,
        }
    }

    fn emit_assert(&mut self, cx: &ContractIR, expr: &ExprIR, depth: usize) -> (r: Option<Index>)
        requires
            expr is Assert,
        ensures
            (final(self)@, r) == lower(cx@, old(self)@, expr@, depth as nat),
        decreases depth, expr, 1nat,
    {
        match expr {
            ExprIR::Assert { kind, .. } => {
                proof {
                    assert(expr@->kind == assert_view(*kind));
                }
                match kind {
                    AssertKind::Assert(cond) => {
                        assert(assert_view(*kind) is Assert);
                        match self.emit_expr(cx, cond, depth) {
                            Some(w) => {
                                self.append(Instruction::Assert { cond: w });
                            }
                            None => {}
                        }
                    }
                    AssertKind::AssertEq(a, b) => {
                        assert(assert_view(*kind) is AssertEq);
                        match self.emit_expr(cx, a, depth) {
                            Some(l) => match self.emit_expr(cx, b, depth) {
                                Some(r) => {
                                    self.append(Instruction::ConstrainEq { a: l, b: r });
                                }
                                None => {}
                            },
                            None => {}
                        }
                    }
                }
                None
            }
            _ => None,
        }
    }

    /// An `if`: both branches are emitted, each under its own guard.
    fn emit_if(&mut self, cx: &ContractIR, expr: &ExprIR, depth: usize) -> (r: Option<Index>)
        requires
            expr is If,
        ensures
            (final(self)@, r) == lower(cx@, old(self)@, expr@, depth as nat),
        decreases depth, expr, 1nat,
    {
        match expr {
            ExprIR::If { cond, then_branch, else_branch, .. } => {
                let c: Index = match self.emit_expr(cx, cond, depth) {
                    Some(c) => c,
                    None => {
                        return None;
                    }
                };
                let outer_guard: Index = self.guard;
                let outer_conditional: bool = self.in_conditional;
                let tg: Index = self.emit_then_guard(c);
                self.enter(tg);
                let then_start: usize = self.instructions.len();
                let then_wire: Option<Index> = self.emit_branch(cx, then_branch, depth);
                self.close(then_start);
                match else_branch {
                    None => self.leave(c, outer_guard, outer_conditional, then_wire, None),
                    Some(eb) => {
                        let eg: Index = self.emit_else_guard(c, outer_conditional, outer_guard);
                        self.set_guard(eg);
                        let else_start: usize = self.instructions.len();
                        let else_wire: Option<Index> = self.emit_branch(cx, eb, depth);
                        self.close(else_start);
                        self.leave(c, outer_guard, outer_conditional, then_wire, else_wire)
                    }
                }
            }
            _ => None,
        }
    }

    /// A function call: a builtin, a spliced helper, or a wrapper constructor.
    fn emit_call(&mut self, cx: &ContractIR, expr: &ExprIR, depth: usize) -> (r: Option<Index>)
        requires
            expr is FnCall,
        ensures
            (final(self)@, r) == lower(cx@, old(self)@, expr@, depth as nat),
        decreases depth, expr, 1nat,
    {
        match expr {
            ExprIR::FnCall { name, path, args, .. } => {
                if same(name.as_str(), "merkle_tree_path_root") {
                    return self.emit_merkle_tree_path_root(cx, args, depth);
                }
                match find_helper_ir(cx, name.as_str()) {
                    Some(h) => {
                        return self.emit_inlined_helper(cx, h, args, depth);
                    }
                    None => {}
                }
                if args.len() == 1 && is_wrapper_from_call(path) {
                    assert(exprs_view(args@)[0] == args@[0]@);
                    return self.emit_expr(cx, &args[0], depth);
                }
                if same(name.as_str(), "persistent_hash") {
                    match self.emit_builtin_args(cx, args, depth) {
                        Some(inputs) => {
                            let mut alignment: Vec<AlignmentAtom> = Vec::new();
                            alignment.push(AlignmentAtom::Field);
                            assert(alignment@ =~= seq![AlignmentAtom::Field]);
                            self.some_instruction(Instruction::PersistentHash { alignment, inputs })
                        }
                        None => None,
                    }
                } else if same(name.as_str(), "transient_hash") {
                    match self.emit_builtin_args(cx, args, depth) {
                        Some(inputs) => self.some_instruction(Instruction::TransientHash { inputs }),
                        None => None,
                    }
                } else {
                    self.unsupported(
                        cat3(
                            "call to `",
                            name.as_str(),
                            "` cannot be lowered to circuit instructions: it is neither a ZKIR builtin (`persistent_hash`, `transient_hash`, `merkle_tree_path_root`) nor an inlinable helper (helpers must be free `fn`s in the contract module with owned parameters, a return type, and no generics)",
                        ),
                    )
                }
            }
            _ => None,
        }
    }

    /// `merkle_tree_path_root(&witnesses.path)`: hashes the leaf, then climbs.
    fn emit_merkle_tree_path_root(&mut self, cx: &ContractIR, args: &Vec<ExprIR>, depth: usize) -> (r: Option<Index>)
        ensures
            (final(self)@, r) == lower_path_root(cx@, old(self)@, exprs_view(args@), depth as nat),
        decreases depth, args, 0nat,
    {
        if args.len() == 0 {
            return self.unsupported(
                txt(
                    "merkle_tree_path_root takes exactly one argument (`&witnesses.<field>` of type `MerkleTreePath<H, Bytes<N>>`)",
                ),
            );
        }
        assert(exprs_view(args@)[0] == args@[0]@);
        match merkle_path_argument(cx, &args[0]) {
            Err(m) => self.unsupported(m),
            Ok((height, leaf_n)) => match self.emit_expr(cx, &args[0], depth) {
                Some(first) => self.emit_path_root(first, height, leaf_n),
                None => None,
            },
        }
    }

    /// Lowers statements in order; the result is the last one's wire.
    fn emit_seq(&mut self, cx: &ContractIR, es: &Vec<ExprIR>, depth: usize) -> (r: Option<Index>)
        ensures
            (final(self)@, r) == lower_seq(cx@, old(self)@, exprs_view(es@), es@.len(), depth as nat),
        decreases depth, es, 0nat,
    {
        let ghost before = self@;
        let mut last: Option<Index> = None;
        let mut i: usize = 0;
        while i < es.len()
            invariant
                i <= es@.len(),
                (self@, last) == lower_seq(cx@, before, exprs_view(es@), i as nat, depth as nat),
            decreases es@.len() - i,
        {
            last = self.emit_expr(cx, &es[i], depth);
            i += 1;
        }
        last
    }

    /// Lowers a branch; the result is the last wire that any statement had.
    fn emit_branch(&mut self, cx: &ContractIR, es: &Vec<ExprIR>, depth: usize) -> (r: Option<Index>)
        ensures
            (final(self)@, r) == lower_branch(cx@, old(self)@, exprs_view(es@), es@.len(), depth as nat),
        decreases depth, es, 0nat,
    {
        let ghost before = self@;
        let mut last: Option<Index> = None;
        let mut i: usize = 0;
        while i < es.len()
            invariant
                i <= es@.len(),
                (self@, last) == lower_branch(cx@, before, exprs_view(es@), i as nat, depth as nat),
            decreases es@.len() - i,
        {
            match self.emit_expr(cx, &es[i], depth) {
                Some(w) => {
                    last = Some(w);
                }
                None => {}
            }
            i += 1;
        }
        last
    }

    /// Lowers a builtin's arguments, all of which must have a wire.
    fn emit_builtin_args(&mut self, cx: &ContractIR, es: &Vec<ExprIR>, depth: usize) -> (r: Option<Vec<Index>>)
        ensures
            ({
                let spec = lower_all(cx@, old(self)@, exprs_view(es@), es@.len(), depth as nat);
                &&& final(self)@ == spec.0
                &&& match r {
                    Some(ws) => spec.1 == Some(ws@),
                    None => spec.1 is None,
                }
            }),
        decreases depth, es, 0nat,
    {
        let ghost before = self@;
        let mut ws: Vec<Index> = Vec::new();
        let mut i: usize = 0;
        assert(ws@ =~= seq![]);
        while i < es.len()
            invariant
                i <= es@.len(),
                before == old(self)@,
                (self@, Some(ws@)) == lower_all(cx@, before, exprs_view(es@), i as nat, depth as nat),
            decreases es@.len() - i,
        {
            match self.emit_expr(cx, &es[i], depth) {
                Some(w) => {
                    ws.push(w);
                }
                None => {
                    proof {
                        lemma_lower_all_stuck(cx@, before, exprs_view(es@), (i + 1) as nat, es@.len(), depth as nat);
                    }
                    return None;
                }
            }
            i += 1;
        }
        Some(ws)
    }

    /// Lowers the elements of a composite literal, each of which must start at
    /// the next fresh wire.
    fn emit_contiguous_elements(&mut self, cx: &ContractIR, es: &Vec<ExprIR>, what: &str, depth: usize) -> (r: Option<
        Option<Index>,
    >)
        ensures
            (final(self)@, r) == lower_run(cx@, old(self)@, exprs_view(es@), es@.len(), what@, depth as nat),
        decreases depth, es, 0nat,
    {
        let ghost before = self@;
        let mut first: Option<Index> = None;
        let mut i: usize = 0;
        while i < es.len()
            invariant
                i <= es@.len(),
                before == old(self)@,
                (self@, Some(first)) == lower_run(cx@, before, exprs_view(es@), i as nat, what@, depth as nat),
            decreases es@.len() - i,
        {
            let next: Index = self.next_index;
            let wire: Option<Index> = self.emit_expr(cx, &es[i], depth);
            match self.run_check(next, wire, first, what) {
                Some(f) => {
                    first = f;
                }
                None => {
                    proof {
                        lemma_lower_run_stuck(cx@, before, exprs_view(es@), (i + 1) as nat, es@.len(), what@, depth as nat);
                    }
                    return None;
                }
            }
            i += 1;
        }
        Some(first)
    }

    /// Lowers struct literal fields in the given order.
    fn emit_contiguous_fields(
        &mut self,
        cx: &ContractIR,
        fs: &Vec<(String, ExprIR)>,
        order: &Vec<usize>,
        depth: usize,
    ) -> (r: Option<Option<Index>>)
        requires
            forall|i: int| 0 <= i < order@.len() ==> #[trigger] order@[i] < fs@.len(),
        ensures
            (final(self)@, r) == lower_fields(
                cx@,
                old(self)@,
                fields_view(fs@),
                ints(order@),
                order@.len(),
                depth as nat,
            ),
        decreases depth, fs, 0nat,
    {
        let ghost before = self@;
        let mut first: Option<Index> = None;
        let mut i: usize = 0;
        while i < order.len()
            invariant
                i <= order@.len(),
                forall|i: int| 0 <= i < order@.len() ==> #[trigger] order@[i] < fs@.len(),
                before == old(self)@,
                (self@, Some(first)) == lower_fields(
                    cx@,
                    before,
                    fields_view(fs@),
                    ints(order@),
                    i as nat,
                    depth as nat,
                ),
            decreases order@.len() - i,
        {
            let at: usize = order[i];
            assert(fields_view(fs@)[at as int].1 == fs@[at as int].1@);
            assert(ints(order@)[i as int] == at as int);
            let next: Index = self.next_index;
            let wire: Option<Index> = self.emit_expr(cx, &fs[at].1, depth);
            match self.run_check(next, wire, first, "struct literal") {
                Some(f) => {
                    first = f;
                }
                None => {
                    proof {
                        lemma_lower_fields_stuck(
                            cx@,
                            before,
                            fields_view(fs@),
                            ints(order@),
                            (i + 1) as nat,
                            order@.len(),
                            depth as nat,
                        );
                    }
                    return None;
                }
            }
            i += 1;
        }
        Some(first)
    }

    fn emit_arg(&mut self, cx: &ContractIR, args: &Vec<ExprIR>, i: usize, depth: usize) -> (r: Option<Index>)
        ensures
            (final(self)@, r) == lower_arg(cx@, old(self)@, exprs_view(args@), i as nat, depth as nat),
        decreases depth, args, 0nat,
    {
        if i < args.len() {
            self.emit_expr(cx, &args[i], depth)
        } else {
            None
        }
    }

    /// A method of a counter or cell.
    fn emit_cell_method(
        &mut self,
        cx: &ContractIR,
        slot: u8,
        ty: Option<&Ty>,
        field: &str,
        method: &str,
        args: &Vec<ExprIR>,
        depth: usize,
    ) -> (r: Option<Index>)
        ensures
            (final(self)@, r) == lower_cell_method(
                cx@,
                old(self)@,
                slot,
                ty_ref_opt(ty),
                field@,
                method@,
                exprs_view(args@),
                depth as nat,
            ),
        decreases depth, args, 1nat,
    {
        if same(method, "increment") || same(method, "increment_by") {
            match amount_of(args) {
                Some(n) => self.emit_counter_increment(slot, n),
                None => self.unsupported(
                    cat3("`", field, ".increment_by(n)` requires a const integer literal `n` fitting u32"),
                ),
            }
        } else if same(method, "get") || same(method, "value") || same(method, "__direct_access") {
            match ty {
                Some(t) => match extract_ledger_read_result_type(t) {
                    Some(rt) => self.emit_ledger_read(cx, slot, Some(&rt)),
                    None => self.emit_ledger_read(cx, slot, None),
                },
                None => self.emit_ledger_read(cx, slot, None),
            }
        } else if same(method, "set") || same(method, "insert") {
            let first: Option<Index> = self.emit_arg(cx, args, 0, depth);
            let vars: Vec<Index> = self.gather_value_vars(cx, slot, first);
            self.emit_ledger_write(cx, slot, &vars)
        } else {
            self.unsupported(cat5("unsupported ledger method `", method, "` on field `", field, "`"))
        }
    }

    fn no_map_value(&mut self, v: &Ty) -> (r: Option<Index>)
        ensures
            (final(self)@, r) == fail(
                old(self)@,
                "Map value type `"@ + v@.text + "` has no supported on-chain encoding"@,
            ),
    {
        self.unsupported(cat3("Map value type `", v.text.as_str(), "` has no supported on-chain encoding"))
    }

    /// A method of a map.
    #[verifier::rlimit(60)]
    #[verifier::spinoff_prover]
    fn emit_map_method(
        &mut self,
        cx: &ContractIR,
        slot: u8,
        k: &Ty,
        v: &Ty,
        method: &str,
        args: &Vec<ExprIR>,
        depth: usize,
    ) -> (r: Option<Index>)
        ensures
            (final(self)@, r) == lower_map_method(
                cx@,
                old(self)@,
                slot,
                k@,
                v@,
                method@,
                exprs_view(args@),
                depth as nat,
            ),
        decreases depth, args, 1nat,
    {
        let ke = match aligned_value_encoding(k, cx) {
            Some(e) => e,
            None => {
                return self.unsupported(
                    cat3("Map key type `", k.text.as_str(), "` has no supported on-chain encoding"),
                );
            }
        };
        if same(method, "contains") {
            match self.emit_arg(cx, args, 0, depth) {
                Some(f) => {
                    let key: Vec<Index> = gather_n_vars(f, ke.value_field_count);
                    self.emit_map_member(slot, &key, &ke)
                }
                None => None,
            }
        } else if same(method, "insert") || same(method, "set") {
            let ve = match aligned_value_encoding(v, cx) {
                Some(e) => e,
                None => {
                    return self.no_map_value(v);
                }
            };
            match self.emit_arg(cx, args, 0, depth) {
                Some(kf) => match self.emit_arg(cx, args, 1, depth) {
                    Some(vf) => {
                        let key: Vec<Index> = gather_n_vars(kf, ke.value_field_count);
                        let val: Vec<Index> = gather_n_vars(vf, ve.value_field_count);
                        self.emit_map_insert(slot, &key, &ke, &val, &ve);
                        None
                    }
                    None => None,
                },
                None => None,
            }
        } else if same(method, "remove") {
            match self.emit_arg(cx, args, 0, depth) {
                Some(f) => {
                    let key: Vec<Index> = gather_n_vars(f, ke.value_field_count);
                    self.emit_map_remove(slot, &key, &ke);
                    None
                }
                None => None,
            }
        } else if same(method, "lookup") {
            let ve = match aligned_value_encoding(v, cx) {
                Some(e) => e,
                None => {
                    return self.no_map_value(v);
                }
            };
            match self.emit_arg(cx, args, 0, depth) {
                Some(f) => {
                    let key: Vec<Index> = gather_n_vars(f, ke.value_field_count);
                    self.emit_map_lookup(cx, slot, &key, &ke, v, &ve)
                }
                None => None,
            }
        } else {
            self.unsupported(
                cat3(
                    "unsupported Map method `",
                    method,
                    "` (use the `if let Some(v) = map.get(&k)` form for optional reads)",
                ),
            )
        }
    }

    /// A method of a set.
    fn emit_set_method(
        &mut self,
        cx: &ContractIR,
        slot: u8,
        elem: &Ty,
        method: &str,
        args: &Vec<ExprIR>,
        depth: usize,
    ) -> (r: Option<Index>)
        ensures
            (final(self)@, r) == lower_set_method(
                cx@,
                old(self)@,
                slot,
                elem@,
                method@,
                exprs_view(args@),
                depth as nat,
            ),
        decreases depth, args, 1nat,
    {
        let ke = match aligned_value_encoding(elem, cx) {
            Some(e) => e,
            None => {
                return self.unsupported(
                    cat3("Set element type `", elem.text.as_str(), "` has no supported on-chain encoding"),
                );
            }
        };
        if same(method, "contains") || same(method, "member") {
            match self.emit_arg(cx, args, 0, depth) {
                Some(f) => {
                    let key: Vec<Index> = gather_n_vars(f, ke.value_field_count);
                    self.emit_map_member(slot, &key, &ke)
                }
                None => None,
            }
        } else if same(method, "insert") {
            match self.emit_arg(cx, args, 0, depth) {
                Some(f) => {
                    let key: Vec<Index> = gather_n_vars(f, ke.value_field_count);
                    self.emit_set_insert(slot, &key, &ke);
                    None
                }
                None => None,
            }
        } else if same(method, "remove") {
            match self.emit_arg(cx, args, 0, depth) {
                Some(f) => {
                    let key: Vec<Index> = gather_n_vars(f, ke.value_field_count);
                    self.emit_map_remove(slot, &key, &ke);
                    None
                }
                None => None,
            }
        } else {
            self.unsupported(cat3("unsupported Set method `", method, "`"))
        }
    }

    /// A method of a Merkle tree.
    fn emit_merkle_tree_method(
        &mut self,
        cx: &ContractIR,
        slot: u8,
        method: &str,
        args: &Vec<ExprIR>,
        depth: usize,
    ) -> (r:
        Option<Index>)
        ensures
            (final(self)@, r) == lower_merkle_method(
                cx@,
                old(self)@,
                slot,
                method@,
                exprs_view(args@),
                depth as nat,
            ),
        decreases depth, args, 1nat,
    {
        if same(method, "check_root") {
            match self.emit_arg(cx, args, 0, depth) {
                Some(d) => self.emit_merkle_tree_check_root(slot, d),
                None => None,
            }
        } else if same(method, "insert") {
            match leaf_len(cx, slot) {
                Some(n) => match self.emit_arg(cx, args, 0, depth) {
                    Some(f) => {
                        self.emit_merkle_tree_insert(slot, f, n);
                        None
                    }
                    None => None,
                },
                None => self.unsupported(txt("MerkleTree::insert leaf type must be `Bytes<N>`")),
            }
        } else {
            self.unsupported(cat3("unsupported MerkleTree method `", method, "`"))
        }
    }

    /// Binds the parameters of a splice to the wires of its arguments.
    fn emit_params(
        &mut self,
        cx: &ContractIR,
        params: &Vec<ParamIR>,
        args: &Vec<ExprIR>,
        counter: u32,
        depth: usize,
    ) -> (r:
        bool)
        requires
            params@.len() == args@.len(),
        ensures
            (final(self)@, r) == lower_params(
                cx@,
                old(self)@,
                params.deep_view(),
                exprs_view(args@),
                args@.len(),
                counter,
                depth as nat,
            ),
        decreases depth, args, 0nat,
    {
        let ghost before = self@;
        let mut i: usize = 0;
        while i < args.len()
            invariant
                i <= args@.len(),
                params@.len() == args@.len(),
                before == old(self)@,
                (self@, true) == lower_params(
                    cx@,
                    before,
                    params.deep_view(),
                    exprs_view(args@),
                    i as nat,
                    counter,
                    depth as nat,
                ),
            decreases args@.len() - i,
        {
            assert(params.deep_view()[i as int].name == params@[i as int].name@);
            let name = fresh(counter, i as u32, params[i].name.as_str());
            let ty = self.infer_expr_type(cx, &args[i]);
            match self.emit_expr(cx, &args[i], depth) {
                Some(w) => {
                    let ghost mid = self@;
                    match ty {
                        Some(t) => {
                            self.variable_types.insert(name.clone(), t);
                        }
                        None => {}
                    }
                    self.variables.insert(name, w);
                    proof {
                        assert(self@ =~= lower_params(
                            cx@,
                            before,
                            params.deep_view(),
                            exprs_view(args@),
                            (i + 1) as nat,
                            counter,
                            depth as nat,
                        ).0);
                    }
                }
                None => {
                    proof {
                        lemma_lower_params_stuck(
                            cx@,
                            before,
                            params.deep_view(),
                            exprs_view(args@),
                            (i + 1) as nat,
                            args@.len(),
                            counter,
                            depth as nat,
                        );
                    }
                    return false;
                }
            }
            i += 1;
        }
        true
    }

    /// Splices a helper's body into its call site.
    fn emit_inlined_helper(
        &mut self,
        cx: &ContractIR,
        helper: &HelperIR,
        args: &Vec<ExprIR>,
        depth: usize,
    ) -> (r: Option<
        Index,
    >)
        ensures
            (final(self)@, r) == lower_helper(cx@, old(self)@, helper@, exprs_view(args@), depth as nat),
        decreases depth, args, 1nat,
    {
        if helper.params.len() != args.len() {
            return self.unsupported(
                cat7(
                    "helper `",
                    helper.name.as_str(),
                    "` called with ",
                    number(args.len() as u128).as_str(),
                    " argument(s) but declares ",
                    number(helper.params.len() as u128).as_str(),
                    " parameter(s)",
                ),
            );
        }
        let ghost before = self@;
        let outer: bool = self.in_helper;
        let counter: u32 = self.helper_counter;
        self.helper_counter = counter.wrapping_add(1);
        assert(self@ =~= (EmitV { helper_counter: counter.wrapping_add(1), ..before }));
        if !self.emit_params(cx, &helper.params, args, counter, depth) {
            return None;
        }
        if depth == 0 {
            return self.unsupported(cat3("helper `", helper.name.as_str(), "` calls itself"));
        }
        let mut subst: NameMap<String> = fresh_params(&helper.params, counter);
        let mut seq: u32 = helper.params.len() as u32;
        let body: Vec<ExprIR> = rename_list(&helper.body, &mut subst, counter, &mut seq);
        self.set_in_helper(true);
        let last: Option<Index> = self.emit_seq(cx, &body, depth - 1);
        self.set_in_helper(outer);
        last
    }
}

/// The names that a splice gives to its parameters.
fn fresh_params(params: &Vec<ParamIR>, counter: u32) -> (r: NameMap<String>)
    ensures
        r@ == param_names(params.deep_view(), params@.len(), counter),
{
    let mut subst: NameMap<String> = NameMap::new();
    let mut i: usize = 0;
    while i < params.len()
        invariant
            i <= params@.len(),
            subst@ == param_names(params.deep_view(), i as nat, counter),
        decreases params@.len() - i,
    {
        assert(params.deep_view()[i as int].name == params@[i as int].name@);
        subst.insert(params[i].name.clone(), fresh(counter, i as u32, params[i].name.as_str()));
        i += 1;
    }
    subst
}

/// The amount of an increment.
fn amount_of(args: &Vec<ExprIR>) -> (r: Option<u32>)
    ensures
        r == increment_amount(exprs_view(args@)),
{
    if args.len() == 0 {
        return Some(1);
    }
    assert(exprs_view(args@)[0] == args@[0]@);
    match &args[0] {
        ExprIR::Literal { value, .. } => match value {
            LiteralIR::Int(v) => {
                if *v <= u32::MAX as u128 {
                    Some(*v as u32)
                } else {
                    None
                }
            }
            _ => None,
        },
        _ => None,
    }
}

/// The type read from a ledger field.
fn extract_ledger_read_result_type(ty: &Ty) -> (r: Option<Ty>)
    ensures
        ty_opt(r) == read_type(ty@),
{
    match last_seg(ty) {
        Some(seg) => {
            if same(seg.ident.as_str(), "Counter") {
                Some(named_type("u64"))
            } else {
                match extract_cell_inner_type(ty) {
                    Some(t) => Some(t.clone()),
                    None => None,
                }
            }
        }
        None => None,
    }
}

/// The leaf length of a Merkle tree slot.
fn leaf_len(cx: &ContractIR, slot: u8) -> (r: Option<u32>)
    ensures
        r == slot_leaf_len(cx@, slot),
{
    match field_type(cx, slot) {
        Some(t) => match extract_merkle_tree_type(t) {
            Some(leaf) => parse_bytes_n_type(strip_spaces(leaf.text.as_str()).as_str()),
            None => None,
        },
        None => None,
    }
}

/// Height and leaf length of the Merkle path that an argument names.
fn merkle_path_argument(cx: &ContractIR, arg: &ExprIR) -> (r: Result<(u32, u32), String>)
    ensures
        match r {
            Ok(p) => path_argument(cx@, arg@) == Ok::<(u32, u32), Seq<char>>(p),
            Err(m) => path_argument(cx@, arg@) == Err::<(u32, u32), Seq<char>>(m@),
        },
{
    let path: Option<(u32, String)> = match find_witness_field(arg) {
        Some(field) => match find_witness_type(cx, field.as_str()) {
            Some(t) => parse_merkle_tree_path_type(strip_spaces(t.text.as_str()).as_str()),
            None => None,
        },
        None => None,
    };
    match path {
        None => Err(
            txt("merkle_tree_path_root's argument must be a witness field of type `MerkleTreePath<H, Bytes<N>>`"),
        ),
        Some((h, leaf)) => match parse_bytes_n_type(leaf.as_str()) {
            None => Err(txt("merkle_tree_path_root currently supports `Bytes<N>` leaves only")),
            Some(n) => Ok((h, n)),
        },
    }
}

pub open spec fn ints(s: Seq<usize>) -> Seq<int> {
    Seq::new(s.len(), |i: int| s[i] as int)
}

proof fn lemma_field_position(fs: Seq<(Seq<char>, ExprV)>, name: Seq<char>, a: nat, b: nat)
    requires
        a <= b <= fs.len(),
        field_position(fs, name, a) is Some,
    ensures
        field_position(fs, name, b) == field_position(fs, name, a),
    decreases b,
{
    if a < b {
        lemma_field_position(fs, name, a, (b - 1) as nat);
    }
}

fn find_field(fs: &Vec<(String, ExprIR)>, name: &str) -> (r: Option<usize>)
    ensures
        match r {
            Some(i) => field_position(fields_view(fs@), name@, fs@.len()) == Some(i as int) && i < fs@.len(),
            None => field_position(fields_view(fs@), name@, fs@.len()) is None,
        },
{
    let ghost v = fields_view(fs@);
    let mut i: usize = 0;
    while i < fs.len()
        invariant
            i <= fs@.len(),
            v == fields_view(fs@),
            field_position(v, name@, i as nat) is None,
        decreases fs@.len() - i,
    {
        assert(v[i as int].0 == fs@[i as int].0@);
        if same(fs[i].0.as_str(), name) {
            proof {
                lemma_field_position(v, name@, (i + 1) as nat, v.len());
            }
            return Some(i);
        }
        i += 1;
    }
    None
}

/// The order in which the fields of a struct literal are evaluated.
pub(crate) fn field_order(cx: &ContractIR, name: &str, fs: &Vec<(String, ExprIR)>) -> (r: Vec<usize>)
    ensures
        ints(r@) == evaluation_order(cx@, name@, fields_view(fs@)),
        forall|i: int| 0 <= i < r@.len() ==> #[trigger] r@[i] < fs@.len(),
{
    let mut order: Vec<usize> = Vec::new();
    let mut i: usize = 0;
    match find_struct(&cx.user_structs, name) {
        Some(decl) => {
            assert(ints(order@) =~= declared_order(decl.deep_view(), 0, fields_view(fs@)));
            while i < decl.len()
                invariant
                    i <= decl@.len(),
                    ints(order@) == declared_order(decl.deep_view(), i as nat, fields_view(fs@)),
                    forall|i: int| 0 <= i < order@.len() ==> #[trigger] order@[i] < fs@.len(),
                decreases decl@.len() - i,
            {
                assert(decl.deep_view()[i as int].name == decl@[i as int].name@);
                match find_field(fs, decl[i].name.as_str()) {
                    Some(at) => {
                        let ghost before = order@;
                        order.push(at);
                        assert(ints(order@) =~= ints(before).push(at as int));
                    }
                    None => {}
                }
                i += 1;
            }
        }
        None => {
            while i < fs.len()
                invariant
                    i <= fs@.len(),
                    order@.len() == i,
                    forall|j: int| 0 <= j < i ==> #[trigger] order@[j] == j,
                decreases fs@.len() - i,
            {
                order.push(i);
                i += 1;
            }
            assert(ints(order@) =~= Seq::new(fields_view(fs@).len(), |i: int| i));
        }
    }
    order
}

proof fn lemma_lower_all_stuck(cx: ContractV, s: EmitV, es: Seq<ExprV>, a: nat, b: nat, depth: nat)
    requires
        a <= b <= es.len(),
        lower_all(cx, s, es, a, depth).1 is None,
    ensures
        lower_all(cx, s, es, b, depth) == lower_all(cx, s, es, a, depth),
    decreases b,
{
    if a < b {
        lemma_lower_all_stuck(cx, s, es, a, (b - 1) as nat, depth);
    }
}

proof fn lemma_lower_run_stuck(cx: ContractV, s: EmitV, es: Seq<ExprV>, a: nat, b: nat, what: Seq<char>, depth: nat)
    requires
        a <= b <= es.len(),
        lower_run(cx, s, es, a, what, depth).1 is None,
    ensures
        lower_run(cx, s, es, b, what, depth) == lower_run(cx, s, es, a, what, depth),
    decreases b,
{
    if a < b {
        lemma_lower_run_stuck(cx, s, es, a, (b - 1) as nat, what, depth);
    }
}

proof fn lemma_lower_fields_stuck(
    cx: ContractV,
    s: EmitV,
    fs: Seq<(Seq<char>, ExprV)>,
    order: Seq<int>,
    a: nat,
    b: nat,
    depth: nat,
)
    requires
        a <= b <= order.len(),
        lower_fields(cx, s, fs, order, a, depth).1 is None,
    ensures
        lower_fields(cx, s, fs, order, b, depth) == lower_fields(cx, s, fs, order, a, depth),
    decreases b,
{
    if a < b {
        lemma_lower_fields_stuck(cx, s, fs, order, a, (b - 1) as nat, depth);
    }
}

proof fn lemma_lower_params_stuck(
    cx: ContractV,
    s: EmitV,
    params: Seq<ParamV>,
    args: Seq<ExprV>,
    a: nat,
    b: nat,
    counter: u32,
    depth: nat,
)
    requires
        a <= b <= args.len(),
        !lower_params(cx, s, params, args, a, counter, depth).1,
    ensures
        lower_params(cx, s, params, args, b, counter, depth) == lower_params(cx, s, params, args, a, counter, depth),
    decreases b,
{
    if a < b {
        lemma_lower_params_stuck(cx, s, params, args, a, (b - 1) as nat, counter, depth);
    }
}

// ---- circuits and contracts

/// True if a `return` stands anywhere in the expression.
pub(crate) fn contains_return(expr: &ExprIR) -> (r: bool)
    ensures
        r == has_return(expr@),
    decreases expr,
{
    match expr {
        ExprIR::Return { .. } => true,
        ExprIR::Let { value, .. } => contains_return(value),
        ExprIR::BinaryOp { lhs, rhs, .. } => contains_return(lhs) || contains_return(rhs),
        ExprIR::UnaryOp { expr, .. } => contains_return(expr),
        ExprIR::Reference { expr, .. } => contains_return(expr),
        ExprIR::Disclose { value, .. } => contains_return(value),
        ExprIR::Assert { kind, .. } => match kind {
            AssertKind::Assert(c) => {
                assert(assert_view(*kind) is Assert);
                contains_return(c)
            }
            AssertKind::AssertEq(a, b) => {
                assert(assert_view(*kind) is AssertEq);
                contains_return(a) || contains_return(b)
            }
        },
        ExprIR::If { cond, then_branch, else_branch, .. } => {
            contains_return(cond) || any_contains_return(then_branch) || match else_branch {
                Some(b) => any_contains_return(b),
                None => false,
            }
        }
        ExprIR::Block { stmts, .. } => any_contains_return(stmts),
        ExprIR::FnCall { args, .. } => any_contains_return(args),
        ExprIR::WitnessCall { args, .. } => any_contains_return(args),
        ExprIR::MethodCall { receiver, args, .. } => contains_return(receiver) || any_contains_return(args),
        ExprIR::LedgerAccess { args, .. } => any_contains_return(args),
        ExprIR::Tuple { elements, .. } => any_contains_return(elements),
        ExprIR::ArrayLit { elements, .. } => any_contains_return(elements),
        ExprIR::StructInit { fields, .. } => any_field_contains_return(fields),
        ExprIR::Index { array, .. } => contains_return(array),
        ExprIR::EnumPayload { scrutinee, .. } => contains_return(scrutinee),
        ExprIR::Literal { .. } => false,
        ExprIR::Var { .. } => false,
        ExprIR::Path { .. } => false,
        ExprIR::WitnessAccess { .. } => false,
        ExprIR::Unsupported { .. } => false,
    }
}

fn any_contains_return(es: &Vec<ExprIR>) -> (r: bool)
    ensures
        r == any_return(exprs_view(es@), es@.len()),
    decreases es,
{
    let mut found: bool = false;
    let mut i: usize = 0;
    while i < es.len()
        invariant
            i <= es@.len(),
            found == any_return(exprs_view(es@), i as nat),
        decreases es@.len() - i,
    {
        let here: bool = contains_return(&es[i]);
        found = found || here;
        i += 1;
    }
    found
}

fn any_field_contains_return(fs: &Vec<(String, ExprIR)>) -> (r: bool)
    ensures
        r == any_field_return(fields_view(fs@), fs@.len()),
    decreases fs,
{
    let mut found: bool = false;
    let mut i: usize = 0;
    while i < fs.len()
        invariant
            i <= fs@.len(),
            found == any_field_return(fields_view(fs@), i as nat),
        decreases fs@.len() - i,
    {
        let here: bool = contains_return(&fs[i].1);
        found = found || here;
        i += 1;
    }
    found
}

fn complain_if(errors: &mut Vec<String>, misplaced: bool)
    ensures
        final(errors).deep_view() == complain(old(errors).deep_view(), misplaced),
{
    let ghost before = errors.deep_view();
    if misplaced {
        errors.push(
            txt(
                "`return` is only supported as the final statement of a circuit body (or the tail of the final statement's branches)",
            ),
        );
        assert(errors.deep_view() =~= before.push(return_message()));
    }
}

/// Reports every `return` that is not in tail position. A `return` elsewhere
/// would not cut the rest of the body short: in a circuit both paths run.
pub(crate) fn check_return_positions(expr: &ExprIR, tail: bool, errors: &mut Vec<String>)
    ensures
        final(errors).deep_view() == checked_returns(old(errors).deep_view(), expr@, tail),
    decreases expr,
{
    match expr {
        ExprIR::Return { value, .. } => {
            complain_if(errors, !tail);
            let nested: bool = match value {
                Some(v) => contains_return(v),
                None => false,
            };
            complain_if(errors, nested);
        }
        ExprIR::Block { stmts, .. } => {
            check_return_list(stmts, tail, errors);
        }
        ExprIR::If { cond, then_branch, else_branch, .. } => {
            let nested: bool = contains_return(cond);
            complain_if(errors, nested);
            check_return_list(then_branch, tail, errors);
            match else_branch {
                Some(b) => {
                    check_return_list(b, tail, errors);
                }
                None => {}
            }
        }
        _ => {
            let nested: bool = contains_return(expr);
            complain_if(errors, nested);
        }
    }
}

fn check_return_list(es: &Vec<ExprIR>, tail: bool, errors: &mut Vec<String>)
    ensures
        final(errors).deep_view() == checked_list(old(errors).deep_view(), exprs_view(es@), es@.len(), tail),
    decreases es,
{
    let ghost before = errors.deep_view();
    let mut i: usize = 0;
    while i < es.len()
        invariant
            i <= es@.len(),
            errors.deep_view() == checked_list(before, exprs_view(es@), i as nat, tail),
        decreases es@.len() - i,
    {
        check_return_positions(&es[i], tail && i + 1 == es.len(), errors);
        i += 1;
    }
}

impl ZkirEmitter {
    /// Constrains a public circuit parameter, which is a single wire; types
    /// that do not fit one are errors.
    fn emit_type_constraint(&mut self, cx: &ContractIR, var: Index, ty: &Ty)
        ensures
            final(self)@ == param_constraint(cx@, old(self)@, var, ty@),
    {
        assert(ty@.kind == ty_kind_view(ty.kind));
        let text = strip_spaces(ty.text.as_str());
        match &ty.kind {
            TyKind::Tuple(_) => {
                self.unsupported(
                    cat3("tuple-typed public circuit parameters are not supported yet (`", text.as_str(), "`)"),
                );
                return;
            }
            _ => {}
        }
        match plain_last_seg(ty) {
            Some(seg) => {
                if find_struct(&cx.user_structs, seg.ident.as_str()).is_some() {
                    self.unsupported(
                        cat3("struct-typed public circuit parameters are not supported yet (`", text.as_str(), "`)"),
                    );
                    return;
                }
            }
            None => {}
        }
        if same(text.as_str(), "Boolean") || same(text.as_str(), "bool") {
            self.append(Instruction::ConstrainToBoolean { var });
            return;
        }
        let width: Option<u32> = parse_uint_type(text.as_str());
        if strip_prefix(text.as_str(), "Uint<").is_some() || width.is_some() {
            match width {
                None => {
                    self.unsupported(
                        cat3("cannot parse the bit width of public parameter type `", text.as_str(), "`"),
                    );
                }
                Some(bits) => {
                    if bits == 0 || bits > 253 {
                        self.unsupported(
                            cat3(
                                "public parameter type `",
                                text.as_str(),
                                "` does not fit one field element (max 253 bits)",
                            ),
                        );
                    } else {
                        self.append(Instruction::ConstrainBits { var, bits });
                    }
                }
            }
        } else if strip_prefix(text.as_str(), "Bytes<").is_some() {
            match parse_bytes_n_type(text.as_str()) {
                None => {
                    self.unsupported(
                        cat3("cannot parse the byte length of public parameter type `", text.as_str(), "`"),
                    );
                }
                Some(n) => {
                    if n > FR_BYTES_STORED {
                        self.unsupported(
                            cat3(
                                "multi-Fr public parameter type `",
                                text.as_str(),
                                "` is not supported yet (Bytes<N> parameters require N ≤ 31)",
                            ),
                        );
                    } else {
                        self.append(Instruction::ConstrainBits { var, bits: n * 8 });
                    }
                }
            }
        } else {
            let layout: Vec<FrLayout> = witness_fr_layout(ty, cx);
            if layout.len() >= 2 {
                self.unsupported(
                    cat3("multi-Fr public parameter type `", text.as_str(), "` is not supported yet"),
                );
            }
        }
    }

    /// Assigns the public parameters their input wires.
    fn assign_params(&mut self, params: &Vec<ParamIR>)
        ensures
            final(self)@ == with_params(old(self)@, params.deep_view(), params@.len()),
    {
        let ghost before = self@;
        let mut i: usize = 0;
        while i < params.len()
            invariant
                i <= params@.len(),
                self@ == with_params(before, params.deep_view(), i as nat),
            decreases params@.len() - i,
        {
            assert(params.deep_view()[i as int].name == params@[i as int].name@);
            let idx: Index = self.next_index;
            self.next_index = idx.wrapping_add(1);
            self.num_inputs = self.num_inputs.wrapping_add(1);
            self.variables.insert(params[i].name.clone(), idx);
            assert(self@ =~= with_params(before, params.deep_view(), (i + 1) as nat));
            i += 1;
        }
    }

    /// Lowers a circuit: its parameters, the always-true guard, the parameter
    /// constraints, the body, and one `Output` where it returns a value.
    pub fn emit_circuit(&mut self, cx: &ContractIR, circuit: &CircuitIR)
        requires
            old(self)@ == start_state(),
        ensures
            final(self)@ == lowered_circuit(cx@, circuit@),
    {
        self.assign_params(&circuit.params);
        let guard: Index = self.emit_load_imm(1);
        self.set_guard(guard);
        let ghost params = circuit.params.deep_view();
        let ghost before = self@;
        let mut i: usize = 0;
        while i < circuit.params.len()
            invariant
                i <= circuit.params@.len(),
                params == circuit.params.deep_view(),
                self@ == with_constraints(cx@, before, params, i as nat),
            decreases circuit.params@.len() - i,
        {
            assert(params[i as int].ty == circuit.params@[i as int].ty@);
            self.emit_type_constraint(cx, i as u32, &circuit.params[i].ty);
            i += 1;
        }
        let ghost mid = self@;
        check_return_list(&circuit.body, true, &mut self.errors);
        assert(self@ =~= circuit_prologue(cx@, circuit@));
        let last: Option<Index> = self.emit_seq(cx, &circuit.body, cx.helpers.len());
        if circuit.return_type.is_some() {
            match last {
                Some(var) => {
                    self.append(Instruction::Output { var });
                }
                None => {
                    if self.errors.len() == 0 {
                        self.unsupported(
                            txt("circuit declares a return type but its final statement produces no value"),
                        );
                    }
                }
            }
        }
    }

    /// The circuit and the errors of a finished emission.
    fn finish(self, name: &String) -> (r: (ZkirOutput, Vec<String>))
        ensures
            r.0@ == (ZkirOutputV {
                circuit_name: name@,
                ir_source: IrSourceV {
                    num_inputs: self@.num_inputs,
                    do_communications_commitment: true,
                    instructions: self@.instructions,
                },
                branch_spans: self@.branch_spans,
            }),
            r.1.deep_view() == self@.errors,
    {
        let ir_source = IrSource {
            num_inputs: self.num_inputs,
            do_communications_commitment: true,
            instructions: self.instructions,
        };
        (
            ZkirOutput { circuit_name: name.clone(), ir_source, branch_spans: self.branch_spans },
            self.errors,
        )
    }
}

/// The artifact of one circuit. Branch spans are not part of the circuit: an
/// instruction was emitted inside a conditional iff one of them holds it.
#[derive(Debug)]
pub struct ZkirOutput {
    pub circuit_name: String,
    pub ir_source: IrSource,
    pub branch_spans: Vec<BranchSpan>,
}

impl View for ZkirOutput {
    type V = ZkirOutputV;

    open spec fn view(&self) -> ZkirOutputV {
        ZkirOutputV {
            circuit_name: self.circuit_name@,
            ir_source: self.ir_source@,
            branch_spans: spans_view(self.branch_spans@),
        }
    }
}

impl DeepView for ZkirOutput {
    type V = ZkirOutputV;

    open spec fn deep_view(&self) -> ZkirOutputV {
        self.view()
    }
}

/// The circuits of a contract. With any error, at least one circuit lacks a
/// construct of its source: callers must not use the circuits.
#[derive(Debug)]
pub struct ContractZkirOutput {
    pub circuits: Vec<ZkirOutput>,
    pub errors: Vec<String>,
}

/// Lowers every circuit of a contract.
pub fn emit_contract(contract: &ContractIR) -> (r: ContractZkirOutput)
    ensures
        r.circuits.deep_view() == Seq::new(
            contract@.circuits.len(),
            |i: int| circuit_output(contract@, contract@.circuits[i]),
        ),
        r.errors.deep_view() == contract_errors(contract@, contract@.circuits.len()),
{
    let ghost cx = contract@;
    let mut circuits: Vec<ZkirOutput> = Vec::new();
    let mut errors: Vec<String> = Vec::new();
    let mut i: usize = 0;
    assert(errors.deep_view() =~= seq![]);
    while i < contract.circuits.len()
        invariant
            i <= contract.circuits@.len(),
            cx == contract@,
            circuits@.len() == i,
            forall|j: int| 0 <= j < i ==> (#[trigger] circuits@[j])@ == circuit_output(cx, cx.circuits[j]),
            errors.deep_view() == contract_errors(cx, i as nat),
        decreases contract.circuits@.len() - i,
    {
        assert(cx.circuits[i as int] == contract.circuits@[i as int]@);
        let mut emitter = ZkirEmitter::new();
        emitter.emit_circuit(contract, &contract.circuits[i]);
        let (output, found) = emitter.finish(&contract.circuits[i].name);
        circuits.push(output);
        label_errors(&mut errors, &found, contract.circuits[i].name.as_str());
        proof {
            assert(errors.deep_view() =~= contract_errors(cx, (i + 1) as nat));
        }
        i += 1;
    }
    assert(circuits.deep_view() =~= Seq::new(cx.circuits.len(), |i: int| circuit_output(cx, cx.circuits[i])));
    ContractZkirOutput { circuits, errors }
}

fn label_errors(errors: &mut Vec<String>, found: &Vec<String>, circuit: &str)
    ensures
        final(errors).deep_view() == old(errors).deep_view() + Seq::new(
            found@.len(),
            |i: int| "circuit `"@ + circuit@ + "`: "@ + found.deep_view()[i],
        ),
{
    let ghost before = errors.deep_view();
    let mut i: usize = 0;
    while i < found.len()
        invariant
            i <= found@.len(),
            errors.deep_view() =~= before + Seq::new(
                i as nat,
                |i: int| "circuit `"@ + circuit@ + "`: "@ + found.deep_view()[i],
            ),
        decreases found@.len() - i,
    {
        let ghost so_far = errors.deep_view();
        let message = cat4("circuit `", circuit, "`: ", found[i].as_str());
        errors.push(message);
        proof {
            assert(found.deep_view()[i as int] == found@[i as int]@);
            assert(errors.deep_view() =~= so_far.push(message@));
        }
        i += 1;
    }
}

} // verus!
