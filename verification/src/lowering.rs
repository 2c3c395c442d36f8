//! Lowering of expressions, circuits and contracts, as functions on emitter
//! states.
use crate::containers::{array_parts, map_kv, merkle_leaf, plain_last_segment, set_inner};
use crate::contract::{lookup, CircuitV, ContractV, HelperV, ParamV, StructFieldV};
use crate::emission::{common_width, counter_increment, discriminant, emit, fail, field_slot, find_helper, fresh_name};
use crate::emission::{inferred_type, leaf_hash, ledger_read, ledger_write, load, load_zero, map_insert, map_lookup};
use crate::emission::{map_member, map_remove, merkle_check_root, merkle_insert, merkle_path, method_type, path_fold};
use crate::emission::{private_block, put, read_type, referenced_witness, renamed_list, set_insert, slot_type};
use crate::emission::{start_state, type_ctx, value_encoding, wires, witness_layout, witness_type, wraps_value};
use crate::emission::{written_wires, EmitV};
use crate::expr::{bin_op_text, un_op_text, AssertV, BinOp, ExprV, LitV, UnOp};
use crate::nocturne_type::{bytes_len, chunks, FR_BYTES_STORED};
use crate::syntax::{PathV, TyV};
use crate::text::{dec, no_spaces, without_prefix};
use crate::typing::uint_bits;
use crate::zkir::{AlignmentAtom, InstructionV, IrSourceV};
use vstd::prelude::*;

verus! {

/// The wire of an expression that was lowered to one instruction.
pub open spec fn some_wire(r: (EmitV, u32)) -> (EmitV, Option<u32>) {
    (r.0, Some(r.1))
}

/// Which binary operators have a lowering, given the operands' wires and the
/// width of an ordered comparison.
pub open spec fn binary(s: EmitV, op: BinOp, a: u32, b: u32, bits: Option<u32>) -> (EmitV, Option<u32>) {
    let less = |s: EmitV, a: u32, b: u32, bits: u32| emit(s, InstructionV::LessThan { a, b, bits });
    let no_width = fail(
        s,
        "cannot infer a bit width for the comparison `"@ + bin_op_text(op)
            + "` — Field-typed or untyped operands have no sound `LessThan` width; compare typed `Uint`s instead"@,
    );
    match op {
        BinOp::Add => some_wire(emit(s, InstructionV::Add { a, b })),
        BinOp::AddAssign => some_wire(emit(s, InstructionV::Add { a, b })),
        BinOp::Sub => subtract(s, a, b),
        BinOp::SubAssign => subtract(s, a, b),
        BinOp::Mul => some_wire(emit(s, InstructionV::Mul { a, b })),
        BinOp::MulAssign => some_wire(emit(s, InstructionV::Mul { a, b })),
        BinOp::And => some_wire(emit(s, InstructionV::Mul { a, b })),
        BinOp::Eq => some_wire(emit(s, InstructionV::TestEq { a, b })),
        BinOp::Ne => negated(emit(s, InstructionV::TestEq { a, b })),
        BinOp::Lt => match bits {
            Some(n) => some_wire(less(s, a, b, n)),
            None => no_width,
        },
        BinOp::Gt => match bits {
            Some(n) => some_wire(less(s, b, a, n)),
            None => no_width,
        },
        BinOp::Le => match bits {
            Some(n) => negated(less(s, b, a, n)),
            None => no_width,
        },
        BinOp::Ge => match bits {
            Some(n) => negated(less(s, a, b, n)),
            None => no_width,
        },
        BinOp::Or => {
            let (t, ab) = emit(s, InstructionV::Mul { a, b });
            let (u, sum) = emit(t, InstructionV::Add { a, b });
            let (v, neg) = emit(u, InstructionV::Neg { a: ab });
            some_wire(emit(v, InstructionV::Add { a: sum, b: neg }))
        }
        _ => fail(s, "unsupported binary operator `"@ + bin_op_text(op) + "` in circuit"@),
    }
}

pub open spec fn subtract(s: EmitV, a: u32, b: u32) -> (EmitV, Option<u32>) {
    let (t, neg) = emit(s, InstructionV::Neg { a: b });
    some_wire(emit(t, InstructionV::Add { a, b: neg }))
}

pub open spec fn negated(r: (EmitV, u32)) -> (EmitV, Option<u32>) {
    some_wire(emit(r.0, InstructionV::Not { a: r.1 }))
}

pub open spec fn unary(s: EmitV, op: UnOp, a: u32) -> (EmitV, Option<u32>) {
    match op {
        UnOp::Neg => some_wire(emit(s, InstructionV::Neg { a })),
        UnOp::Not => some_wire(emit(s, InstructionV::Not { a })),
        UnOp::Deref => fail(s, "unsupported unary operator `"@ + un_op_text(op) + "` in circuit"@),
    }
}

pub open spec fn literal(s: EmitV, value: LitV) -> (EmitV, Option<u32>) {
    match value {
        LitV::Int(n) => some_wire(load(s, n as int)),
        LitV::Bool(b) => some_wire(load(s, if b { 1 } else { 0 })),
        LitV::Str(_) => fail(s, "string literals have no circuit representation"@),
    }
}

/// Binds the name of a `let` to the wire of its initializer.
pub open spec fn bound(s: EmitV, name: Seq<char>, wire: Option<u32>, ty: Option<TyV>) -> (EmitV, Option<u32>) {
    match wire {
        Some(w) => (
            EmitV {
                variables: s.variables.insert(name, w),
                poisoned: s.poisoned.remove(name),
                variable_types: match ty {
                    Some(t) => s.variable_types.insert(name, t),
                    None => s.variable_types,
                },
                ..s
            },
            Some(w),
        ),
        None => (
            EmitV {
                errors: if s.errors.len() == 0 {
                    s.errors.push("let binding `"@ + name + "`'s initializer produces no circuit value"@)
                } else {
                    s.errors
                },
                poisoned: s.poisoned.insert(name),
                variables: s.variables.remove(name),
                variable_types: s.variable_types.remove(name),
                ..s
            },
            None,
        ),
    }
}

/// The name under which a witness field's wire is kept.
pub open spec fn witness_key(field: Seq<char>) -> Seq<char> {
    "witness."@ + field
}

/// A read of a witness field. An unguarded first read is remembered; a guarded
/// one is not, and any further read of its field is an error.
pub open spec fn witness_read(cx: ContractV, s: EmitV, field: Seq<char>) -> (EmitV, Option<u32>) {
    let key = witness_key(field);
    if s.variables.contains_key(key) {
        (s, Some(s.variables[key]))
    } else if s.guarded_witness_fields.contains(field) {
        fail(
            s,
            "witness field `"@ + field
                + "` is first read inside a conditional branch and used again elsewhere; hoist it to a `let` before the `if`"@,
        )
    } else {
        match witness_type(cx, field) {
            Some(t) => {
                let layout = witness_layout(type_ctx(cx), t);
                let (a, first) = private_block(s, layout, layout.len());
                match first {
                    Some(f) => (
                        if s.in_conditional {
                            EmitV { guarded_witness_fields: a.guarded_witness_fields.insert(field), ..a }
                        } else {
                            EmitV { variables: a.variables.insert(key, f), ..a }
                        },
                        Some(f),
                    ),
                    None => fail(a, "witness field `"@ + field + "` occupies no circuit wire"@),
                }
            }
            None => fail(
                s,
                "witness field `"@ + field
                    + "` has no registered type at ZKIR emit time; its wire layout cannot be determined"@,
            ),
        }
    }
}

pub open spec fn variable(s: EmitV, name: Seq<char>) -> (EmitV, Option<u32>) {
    if s.variables.contains_key(name) {
        (s, Some(s.variables[name]))
    } else if s.poisoned.contains(name) {
        (s, None)
    } else {
        fail(
            s,
            "variable `"@ + name + "` has no circuit wire (binding shape not supported by the ZKIR emitter)"@,
        )
    }
}

pub open spec fn path_constant(cx: ContractV, s: EmitV, path: PathV) -> (EmitV, Option<u32>) {
    match discriminant(cx.user_enums, path) {
        Some(d) => some_wire(load(s, d as int)),
        None => fail(s, "path expression `"@ + path.text + "` does not name a known enum variant"@),
    }
}

/// The outcome of lowering the elements of a composite literal: the first
/// element's wire, or nothing once an element broke the run of fresh wires.
pub type Run = Option<Option<u32>>;

pub open spec fn run_step(before: u32, r: (EmitV, Option<u32>), first: Option<u32>, what: Seq<char>) -> (EmitV, Run) {
    match r.1 {
        None => (r.0, None),
        Some(w) => if w != before {
            (
                fail(
                    r.0,
                    what
                        + " element does not allocate fresh contiguous wires (it is a repeated witness read, an earlier binding, or a computed value); the multi-Fr encoding would read the wrong wires — use each witness element at most once per literal"@,
                ).0,
                None,
            )
        } else {
            (
                r.0,
                Some(match first {
                    Some(f) => Some(f),
                    None => Some(w),
                }),
            )
        },
    }
}

pub open spec fn run_result(r: (EmitV, Run)) -> (EmitV, Option<u32>) {
    match r.1 {
        Some(first) => (r.0, first),
        None => (r.0, None),
    }
}

/// The first of the leading `n` fields with the given name.
pub open spec fn field_position(fs: Seq<(Seq<char>, ExprV)>, name: Seq<char>, n: nat) -> Option<int>
    decreases n,
{
    if n == 0 || n > fs.len() {
        None
    } else {
        match field_position(fs, name, (n - 1) as nat) {
            Some(i) => Some(i),
            None => if fs[n - 1].0 == name {
                Some(n - 1)
            } else {
                None
            },
        }
    }
}

/// Where the initializers of the first `n` declared fields stand.
pub open spec fn declared_order(decl: Seq<StructFieldV>, n: nat, fs: Seq<(Seq<char>, ExprV)>) -> Seq<int>
    decreases n,
{
    if n == 0 || n > decl.len() {
        seq![]
    } else {
        let p = declared_order(decl, (n - 1) as nat, fs);
        match field_position(fs, decl[n - 1].name, fs.len()) {
            Some(i) => p.push(i),
            None => p,
        }
    }
}

/// The order in which the fields of a struct literal are evaluated: declared
/// order, or textual order for a struct that is not registered.
pub open spec fn evaluation_order(cx: ContractV, name: Seq<char>, fs: Seq<(Seq<char>, ExprV)>) -> Seq<int> {
    match lookup(cx.user_structs, name) {
        Some(decl) => declared_order(decl, decl.len(), fs),
        None => Seq::new(fs.len(), |i: int| i),
    }
}

/// The amount of an increment: one, or an integer literal that fits `u32`.
pub open spec fn increment_amount(args: Seq<ExprV>) -> Option<u32> {
    if args.len() == 0 {
        Some(1)
    } else {
        match args[0] {
            ExprV::Literal { value: LitV::Int(v), .. } => if v <= u32::MAX {
                Some(v as u32)
            } else {
                None
            },
            _ => None,
        }
    }
}

/// The wire of `array[index]`, given the wire of the array.
pub open spec fn element(cx: ContractV, s: EmitV, ty: Option<TyV>, first: u32, index: u32) -> (EmitV, Option<u32>) {
    match ty {
        None => fail(
            s,
            "cannot infer the element type of an indexed expression; only witness arrays and typed let-bound arrays support indexing"@,
        ),
        Some(t) => match array_parts(t) {
            None => fail(s, "indexed expression has non-array type `"@ + t.text + "`"@),
            Some((elem, len)) => if index >= len {
                fail(
                    s,
                    "array index "@ + dec(index as nat) + " out of bounds for `[_; "@ + dec(len as nat) + "]`"@,
                )
            } else {
                (
                    s,
                    Some(first.wrapping_add(index.wrapping_mul(witness_layout(type_ctx(cx), elem).len() as u32))),
                )
            },
        },
    }
}

/// The leaf length of a Merkle tree slot.
pub open spec fn slot_leaf_len(cx: ContractV, slot: u8) -> Option<u32> {
    match slot_type(cx, slot) {
        Some(t) => match merkle_leaf(t) {
            Some(leaf) => bytes_len(no_spaces(leaf.text)),
            None => None,
        },
        None => None,
    }
}

/// What `merkle_tree_path_root`'s argument is: a path height and leaf length,
/// or the reason why it is none.
pub open spec fn path_argument(cx: ContractV, arg: ExprV) -> Result<(u32, u32), Seq<char>> {
    let path = match referenced_witness(arg) {
        Some(field) => match witness_type(cx, field) {
            Some(t) => merkle_path(no_spaces(t.text)),
            None => None,
        },
        None => None,
    };
    match path {
        None => Err(
            "merkle_tree_path_root's argument must be a witness field of type `MerkleTreePath<H, Bytes<N>>`"@,
        ),
        Some((h, leaf)) => match bytes_len(leaf) {
            None => Err("merkle_tree_path_root currently supports `Bytes<N>` leaves only"@),
            Some(n) => Ok((h, n)),
        },
    }
}

/// The root of a Merkle path whose elements start at `first`.
pub open spec fn path_root(s: EmitV, first: u32, h: u32, n: u32) -> (EmitV, Option<u32>) {
    let (a, hash) = leaf_hash(s, first, n);
    some_wire(path_fold(a, hash.wrapping_add(1), first.wrapping_add(chunks(n) as u32), h as nat))
}

pub open spec fn unknown_callee(s: EmitV, name: Seq<char>) -> (EmitV, Option<u32>) {
    fail(
        s,
        "call to `"@ + name
            + "` cannot be lowered to circuit instructions: it is neither a ZKIR builtin (`persistent_hash`, `transient_hash`, `merkle_tree_path_root`) nor an inlinable helper (helpers must be free `fn`s in the contract module with owned parameters, a return type, and no generics)"@,
    )
}

/// The names that a splice gives to the first `n` parameters.
pub open spec fn param_names(params: Seq<ParamV>, n: nat, counter: u32) -> Map<Seq<char>, Seq<char>>
    decreases n,
{
    if n == 0 || n > params.len() {
        Map::empty()
    } else {
        param_names(params, (n - 1) as nat, counter).insert(
            params[n - 1].name,
            fresh_name(counter, (n - 1) as u32, params[n - 1].name),
        )
    }
}

/// Enters a branch body: `guard` is the branch's own.
pub open spec fn enter_branch(s: EmitV, guard: u32) -> EmitV {
    EmitV { guard, in_conditional: true, ..s }
}

/// Records the branch body that began at `start`.
pub open spec fn close_branch(s: EmitV, start: nat) -> EmitV {
    EmitV { branch_spans: s.branch_spans.push((start, s.instructions.len())), ..s }
}

/// The guard of a `then` branch: the condition, and the outer guard inside
/// another branch.
pub open spec fn then_guard(s: EmitV, cond: u32) -> (EmitV, u32) {
    if s.in_conditional {
        let (a, zero) = load_zero(s);
        emit(a, InstructionV::CondSelect { bit: cond, a: s.guard, b: zero })
    } else {
        (s, cond)
    }
}

/// The guard of an `else` branch under the outer guard `outer`.
pub open spec fn else_guard(s: EmitV, cond: u32, nested: bool, outer: u32) -> (EmitV, u32) {
    if nested {
        let (a, zero) = load_zero(s);
        emit(a, InstructionV::CondSelect { bit: cond, a: zero, b: outer })
    } else {
        emit(s, InstructionV::Not { a: cond })
    }
}

/// Leaves the branches of an `if`; two values become one by selection.
pub open spec fn leave_if(
    s: EmitV,
    cond: u32,
    outer_guard: u32,
    outer_conditional: bool,
    then_wire: Option<u32>,
    else_wire: Option<u32>,
) -> (EmitV, Option<u32>) {
    let a = EmitV { guard: outer_guard, in_conditional: outer_conditional, ..s };
    match (then_wire, else_wire) {
        (Some(t), Some(f)) => some_wire(emit(a, InstructionV::CondSelect { bit: cond, a: t, b: f })),
        _ => (a, Some(cond)),
    }
}

/// Lowers an expression. `depth` bounds the nesting of spliced helpers.
pub open spec fn lower(cx: ContractV, s: EmitV, e: ExprV, depth: nat) -> (EmitV, Option<u32>)
    decreases depth, e, 0nat,
{
    match e {
        ExprV::LedgerAccess { field, method, args, .. } => match field_slot(cx, field) {
            None => fail(s, "ledger field `"@ + field + "` not found"@),
            Some(slot) => match slot_type(cx, slot) {
                None => lower_cell_method(cx, s, slot, None, field, method, args, depth),
                Some(t) => match map_kv(t) {
                    Some((k, v)) => lower_map_method(cx, s, slot, k, v, method, args, depth),
                    None => match set_inner(t) {
                        Some(elem) => lower_set_method(cx, s, slot, elem, method, args, depth),
                        None => if merkle_leaf(t) is Some {
                            lower_merkle_method(cx, s, slot, method, args, depth)
                        } else {
                            lower_cell_method(cx, s, slot, Some(t), field, method, args, depth)
                        },
                    },
                },
            },
        },
        ExprV::WitnessAccess { field, .. } => witness_read(cx, s, field),
        ExprV::WitnessCall { name, args, .. } => {
            let (a, _) = lower_seq(cx, s, args, args.len(), depth);
            match method_type(cx, name) {
                Some(t) => {
                    let layout = witness_layout(type_ctx(cx), t);
                    private_block(a, layout, layout.len())
                }
                None => fail(
                    a,
                    "witness method `"@ + name
                        + "` has no registered return type at ZKIR emit time; its wire layout cannot be determined"@,
                ),
            }
        }
        ExprV::Literal { value, .. } => literal(s, value),
        ExprV::Var { name, .. } => variable(s, name),
        ExprV::Path { path, .. } => path_constant(cx, s, path),
        ExprV::EnumPayload { scrutinee, .. } => {
            let (a, first) = lower(cx, s, *scrutinee, depth);
            match first {
                Some(f) => (a, Some(f.wrapping_add(1))),
                None => (a, None),
            }
        }
        ExprV::BinaryOp { op, lhs, rhs, .. } => {
            let bits = common_width(cx, s, *lhs, *rhs);
            let (a, l) = lower(cx, s, *lhs, depth);
            match l {
                None => (a, None),
                Some(lw) => {
                    let (b, r) = lower(cx, a, *rhs, depth);
                    match r {
                        None => (b, None),
                        Some(rw) => binary(b, op, lw, rw, bits),
                    }
                }
            }
        }
        ExprV::UnaryOp { op, expr, .. } => {
            let (a, w) = lower(cx, s, *expr, depth);
            match w {
                None => (a, None),
                Some(w) => unary(a, op, w),
            }
        }
        ExprV::Let { name, value, .. } => {
            let ty = inferred_type(cx, s, *value);
            let (a, w) = lower(cx, s, *value, depth);
            bound(a, name, w, ty)
        }
        ExprV::Assert { kind, .. } => match kind {
            AssertV::Assert(cond) => {
                let (a, w) = lower(cx, s, *cond, depth);
                match w {
                    None => (a, None),
                    Some(w) => (put(a, InstructionV::Assert { cond: w }), None),
                }
            }
            AssertV::AssertEq(lhs, rhs) => {
                let (a, l) = lower(cx, s, *lhs, depth);
                match l {
                    None => (a, None),
                    Some(lw) => {
                        let (b, r) = lower(cx, a, *rhs, depth);
                        match r {
                            None => (b, None),
                            Some(rw) => (put(b, InstructionV::ConstrainEq { a: lw, b: rw }), None),
                        }
                    }
                }
            }
        },
        ExprV::If { cond, then_branch, else_branch, .. } => {
            let (a, c) = lower(cx, s, *cond, depth);
            match c {
                None => (a, None),
                Some(cw) => {
                    let (b, tg) = then_guard(a, cw);
                    let inside = enter_branch(b, tg);
                    let (t, then_wire) = lower_branch(cx, inside, then_branch, then_branch.len(), depth);
                    let closed = close_branch(t, inside.instructions.len());
                    match else_branch {
                        None => leave_if(closed, cw, a.guard, a.in_conditional, then_wire, None),
                        Some(eb) => {
                            let (d, eg) = else_guard(closed, cw, a.in_conditional, a.guard);
                            let other = EmitV { guard: eg, ..d };
                            let (f, else_wire) = lower_branch(cx, other, eb, eb.len(), depth);
                            leave_if(
                                close_branch(f, other.instructions.len()),
                                cw,
                                a.guard,
                                a.in_conditional,
                                then_wire,
                                else_wire,
                            )
                        }
                    }
                }
            }
        }
        ExprV::FnCall { name, path, args, .. } => if name == "merkle_tree_path_root"@ {
            lower_path_root(cx, s, args, depth)
        } else {
            match find_helper(cx.helpers, name, cx.helpers.len()) {
                Some(h) => lower_helper(cx, s, h, args, depth),
                None => if args.len() == 1 && wraps_value(path) {
                    lower(cx, s, args[0], depth)
                } else if name == "persistent_hash"@ {
                    let (a, inputs) = lower_all(cx, s, args, args.len(), depth);
                    match inputs {
                        None => (a, None),
                        Some(ws) => some_wire(
                            emit(a, InstructionV::PersistentHash { alignment: seq![AlignmentAtom::Field], inputs: ws }),
                        ),
                    }
                } else if name == "transient_hash"@ {
                    let (a, inputs) = lower_all(cx, s, args, args.len(), depth);
                    match inputs {
                        None => (a, None),
                        Some(ws) => some_wire(emit(a, InstructionV::TransientHash { inputs: ws })),
                    }
                } else {
                    unknown_callee(s, name)
                },
            }
        },
        ExprV::Disclose { value, .. } => lower(cx, s, *value, depth),
        ExprV::MethodCall { receiver, args, .. } => {
            let (a, recv) = lower(cx, s, *receiver, depth);
            let (b, _) = lower_seq(cx, a, args, args.len(), depth);
            (b, recv)
        }
        ExprV::Block { stmts, .. } => lower_seq(cx, s, stmts, stmts.len(), depth),
        ExprV::Return { value, .. } => if s.in_helper {
            fail(
                s,
                "`return` inside an inlined helper is not supported; make the returned value the helper's final expression instead"@,
            )
        } else {
            match value {
                Some(v) => lower(cx, s, *v, depth),
                None => (s, None),
            }
        },
        ExprV::Tuple { elements, .. } => run_result(
            lower_run(cx, s, elements, elements.len(), "tuple literal"@, depth),
        ),
        ExprV::ArrayLit { elements, .. } => run_result(
            lower_run(cx, s, elements, elements.len(), "array literal"@, depth),
        ),
        ExprV::Reference { expr, .. } => lower(cx, s, *expr, depth),
        ExprV::Index { array, index, .. } => {
            let (a, first) = lower(cx, s, *array, depth);
            match first {
                None => (a, None),
                Some(f) => element(cx, a, inferred_type(cx, a, *array), f, index),
            }
        }
        ExprV::StructInit { name, fields, .. } => {
            let order = evaluation_order(cx, name, fields);
            run_result(lower_fields(cx, s, fields, order, order.len(), depth))
        }
        ExprV::Unsupported { description, .. } => fail(s, "unsupported expression: "@ + description),
    }
}

/// Lowers the first `n` of `es`; the result is the last one's wire.
pub open spec fn lower_seq(cx: ContractV, s: EmitV, es: Seq<ExprV>, n: nat, depth: nat) -> (EmitV, Option<u32>)
    decreases depth, es, n,
{
    if n == 0 || n > es.len() {
        (s, None)
    } else {
        lower(cx, lower_seq(cx, s, es, (n - 1) as nat, depth).0, es[n - 1], depth)
    }
}

/// Lowers the first `n` statements of a branch; the result is the last wire
/// that any of them had.
pub open spec fn lower_branch(cx: ContractV, s: EmitV, es: Seq<ExprV>, n: nat, depth: nat) -> (EmitV, Option<u32>)
    decreases depth, es, n,
{
    if n == 0 || n > es.len() {
        (s, None)
    } else {
        let (a, last) = lower_branch(cx, s, es, (n - 1) as nat, depth);
        let (b, w) = lower(cx, a, es[n - 1], depth);
        (
            b,
            match w {
                Some(w) => Some(w),
                None => last,
            },
        )
    }
}

/// Lowers the first `n` of `es`, all of which must have a wire.
pub open spec fn lower_all(cx: ContractV, s: EmitV, es: Seq<ExprV>, n: nat, depth: nat) -> (EmitV, Option<Seq<u32>>)
    decreases depth, es, n,
{
    if n == 0 || n > es.len() {
        (s, Some(seq![]))
    } else {
        let (a, ws) = lower_all(cx, s, es, (n - 1) as nat, depth);
        match ws {
            None => (a, None),
            Some(ws) => {
                let (b, w) = lower(cx, a, es[n - 1], depth);
                match w {
                    None => (b, None),
                    Some(w) => (b, Some(ws.push(w))),
                }
            }
        }
    }
}

/// Lowers the first `n` of `es`, each of which must start at the next fresh
/// wire.
pub open spec fn lower_run(
    cx: ContractV,
    s: EmitV,
    es: Seq<ExprV>,
    n: nat,
    what: Seq<char>,
    depth: nat,
) -> (EmitV, Run)
    decreases depth, es, n,
{
    if n == 0 || n > es.len() {
        (s, Some(None))
    } else {
        let (a, run) = lower_run(cx, s, es, (n - 1) as nat, what, depth);
        match run {
            None => (a, None),
            Some(first) => run_step(a.next_index, lower(cx, a, es[n - 1], depth), first, what),
        }
    }
}

/// Lowers the initializers at the first `n` positions of `order`.
pub open spec fn lower_fields(
    cx: ContractV,
    s: EmitV,
    fs: Seq<(Seq<char>, ExprV)>,
    order: Seq<int>,
    n: nat,
    depth: nat,
) -> (EmitV, Run)
    decreases depth, fs, n,
{
    if n == 0 || n > order.len() {
        (s, Some(None))
    } else {
        let (a, run) = lower_fields(cx, s, fs, order, (n - 1) as nat, depth);
        match run {
            None => (a, None),
            Some(first) => if 0 <= order[n - 1] < fs.len() {
                run_step(
                    a.next_index,
                    lower(cx, a, fs[order[n - 1]].1, depth),
                    first,
                    "struct literal"@,
                )
            } else {
                (a, None)
            },
        }
    }
}

/// The builtin `merkle_tree_path_root`.
pub open spec fn lower_path_root(cx: ContractV, s: EmitV, args: Seq<ExprV>, depth: nat) -> (EmitV, Option<u32>)
    decreases depth, args, 0nat,
{
    if args.len() == 0 {
        fail(
            s,
            "merkle_tree_path_root takes exactly one argument (`&witnesses.<field>` of type `MerkleTreePath<H, Bytes<N>>`)"@,
        )
    } else {
        match path_argument(cx, args[0]) {
            Err(m) => fail(s, m),
            Ok((h, n)) => {
                let (a, first) = lower(cx, s, args[0], depth);
                match first {
                    None => (a, None),
                    Some(f) => path_root(a, f, h, n),
                }
            }
        }
    }
}

/// Lowers argument `i`, if there is one.
pub open spec fn lower_arg(cx: ContractV, s: EmitV, args: Seq<ExprV>, i: nat, depth: nat) -> (EmitV, Option<u32>)
    decreases depth, args, 0nat,
{
    if i < args.len() {
        lower(cx, s, args[i as int], depth)
    } else {
        (s, None)
    }
}

/// A method of a counter or cell.
pub open spec fn lower_cell_method(
    cx: ContractV,
    s: EmitV,
    slot: u8,
    ty: Option<TyV>,
    field: Seq<char>,
    method: Seq<char>,
    args: Seq<ExprV>,
    depth: nat,
) -> (EmitV, Option<u32>)
    decreases depth, args, 1nat,
{
    if method == "increment"@ || method == "increment_by"@ {
        match increment_amount(args) {
            Some(n) => counter_increment(s, slot, n),
            None => fail(
                s,
                "`"@ + field + ".increment_by(n)` requires a const integer literal `n` fitting u32"@,
            ),
        }
    } else if method == "get"@ || method == "value"@ || method == "__direct_access"@ {
        ledger_read(
            cx,
            s,
            slot,
            match ty {
                Some(t) => read_type(t),
                None => None,
            },
        )
    } else if method == "set"@ || method == "insert"@ {
        let (a, first) = lower_arg(cx, s, args, 0, depth);
        ledger_write(cx, a, slot, written_wires(cx, slot, first))
    } else {
        fail(s, "unsupported ledger method `"@ + method + "` on field `"@ + field + "`"@)
    }
}

/// A method of a map.
pub open spec fn lower_map_method(
    cx: ContractV,
    s: EmitV,
    slot: u8,
    k: TyV,
    v: TyV,
    method: Seq<char>,
    args: Seq<ExprV>,
    depth: nat,
) -> (EmitV, Option<u32>)
    decreases depth, args, 1nat,
{
    let no_value = fail(s, "Map value type `"@ + v.text + "` has no supported on-chain encoding"@);
    match value_encoding(type_ctx(cx), k) {
        None => fail(s, "Map key type `"@ + k.text + "` has no supported on-chain encoding"@),
        Some(ke) => if method == "contains"@ {
            let (a, first) = lower_arg(cx, s, args, 0, depth);
            match first {
                None => (a, None),
                Some(f) => map_member(a, slot, wires(f, ke.value_field_count), ke),
            }
        } else if method == "insert"@ || method == "set"@ {
            match value_encoding(type_ctx(cx), v) {
                None => no_value,
                Some(ve) => {
                    let (a, kf) = lower_arg(cx, s, args, 0, depth);
                    match kf {
                        None => (a, None),
                        Some(kf) => {
                            let (b, vf) = lower_arg(cx, a, args, 1, depth);
                            match vf {
                                None => (b, None),
                                Some(vf) => (
                                    map_insert(
                                        b,
                                        slot,
                                        wires(kf, ke.value_field_count),
                                        ke,
                                        wires(vf, ve.value_field_count),
                                        ve,
                                    ),
                                    None,
                                ),
                            }
                        }
                    }
                }
            }
        } else if method == "remove"@ {
            let (a, first) = lower_arg(cx, s, args, 0, depth);
            match first {
                None => (a, None),
                Some(f) => (map_remove(a, slot, wires(f, ke.value_field_count), ke), None),
            }
        } else if method == "lookup"@ {
            match value_encoding(type_ctx(cx), v) {
                None => no_value,
                Some(ve) => {
                    let (a, first) = lower_arg(cx, s, args, 0, depth);
                    match first {
                        None => (a, None),
                        Some(f) => map_lookup(cx, a, slot, wires(f, ke.value_field_count), ke, v, ve),
                    }
                }
            }
        } else {
            fail(
                s,
                "unsupported Map method `"@ + method
                    + "` (use the `if let Some(v) = map.get(&k)` form for optional reads)"@,
            )
        },
    }
}

/// A method of a set.
pub open spec fn lower_set_method(
    cx: ContractV,
    s: EmitV,
    slot: u8,
    elem: TyV,
    method: Seq<char>,
    args: Seq<ExprV>,
    depth: nat,
) -> (EmitV, Option<u32>)
    decreases depth, args, 1nat,
{
    match value_encoding(type_ctx(cx), elem) {
        None => fail(s, "Set element type `"@ + elem.text + "` has no supported on-chain encoding"@),
        Some(ke) => if method == "contains"@ || method == "member"@ {
            let (a, first) = lower_arg(cx, s, args, 0, depth);
            match first {
                None => (a, None),
                Some(f) => map_member(a, slot, wires(f, ke.value_field_count), ke),
            }
        } else if method == "insert"@ {
            let (a, first) = lower_arg(cx, s, args, 0, depth);
            match first {
                None => (a, None),
                Some(f) => (set_insert(a, slot, wires(f, ke.value_field_count), ke), None),
            }
        } else if method == "remove"@ {
            let (a, first) = lower_arg(cx, s, args, 0, depth);
            match first {
                None => (a, None),
                Some(f) => (map_remove(a, slot, wires(f, ke.value_field_count), ke), None),
            }
        } else {
            fail(s, "unsupported Set method `"@ + method + "`"@)
        },
    }
}

/// A method of a Merkle tree.
pub open spec fn lower_merkle_method(
    cx: ContractV,
    s: EmitV,
    slot: u8,
    method: Seq<char>,
    args: Seq<ExprV>,
    depth: nat,
) -> (EmitV, Option<u32>)
    decreases depth, args, 1nat,
{
    if method == "check_root"@ {
        let (a, digest) = lower_arg(cx, s, args, 0, depth);
        match digest {
            None => (a, None),
            Some(d) => merkle_check_root(a, slot, d),
        }
    } else if method == "insert"@ {
        match slot_leaf_len(cx, slot) {
            None => fail(s, "MerkleTree::insert leaf type must be `Bytes<N>`"@),
            Some(n) => {
                let (a, first) = lower_arg(cx, s, args, 0, depth);
                match first {
                    None => (a, None),
                    Some(f) => (merkle_insert(a, slot, f, n), None),
                }
            }
        }
    } else {
        fail(s, "unsupported MerkleTree method `"@ + method + "`"@)
    }
}

/// Binds the first `n` parameters of a splice to the wires of its arguments;
/// false once an argument has no wire.
pub open spec fn lower_params(
    cx: ContractV,
    s: EmitV,
    params: Seq<ParamV>,
    args: Seq<ExprV>,
    n: nat,
    counter: u32,
    depth: nat,
) -> (EmitV, bool)
    decreases depth, args, n,
{
    if n == 0 || n > args.len() {
        (s, true)
    } else {
        let (a, ok) = lower_params(cx, s, params, args, (n - 1) as nat, counter, depth);
        if !ok {
            (a, false)
        } else {
            let fresh = fresh_name(counter, (n - 1) as u32, params[n - 1].name);
            let ty = inferred_type(cx, a, args[n - 1]);
            let (b, w) = lower(cx, a, args[n - 1], depth);
            match w {
                None => (b, false),
                Some(w) => (
                    EmitV {
                        variables: b.variables.insert(fresh, w),
                        variable_types: match ty {
                            Some(t) => b.variable_types.insert(fresh, t),
                            None => b.variable_types,
                        },
                        ..b
                    },
                    true,
                ),
            }
        }
    }
}

/// Splices a helper's body into its call site.
pub open spec fn lower_helper(
    cx: ContractV,
    s: EmitV,
    h: HelperV,
    args: Seq<ExprV>,
    depth: nat,
) -> (EmitV, Option<u32>)
    decreases depth, args, args.len() + 1,
{
    if h.params.len() != args.len() {
        fail(
            s,
            "helper `"@ + h.name + "` called with "@ + dec(args.len()) + " argument(s) but declares "@ + dec(
                h.params.len(),
            ) + " parameter(s)"@,
        )
    } else {
        let counter = s.helper_counter;
        let a = EmitV { helper_counter: counter.wrapping_add(1), ..s };
        let (b, ok) = lower_params(cx, a, h.params, args, args.len(), counter, depth);
        if !ok {
            (b, None)
        } else if depth == 0 {
            fail(b, "helper `"@ + h.name + "` calls itself"@)
        } else {
            let body = renamed_list(
                h.body,
                h.body.len(),
                param_names(h.params, h.params.len(), counter),
                counter,
                h.params.len() as u32,
            ).exprs;
            let (c, w) = lower_seq(cx, EmitV { in_helper: true, ..b }, body, body.len(), (depth - 1) as nat);
            (EmitV { in_helper: s.in_helper, ..c }, w)
        }
    }
}

// ---- circuits and contracts

/// Assigns the first `n` parameters their input wires.
pub open spec fn with_params(s: EmitV, params: Seq<ParamV>, n: nat) -> EmitV
    decreases n,
{
    if n == 0 || n > params.len() {
        s
    } else {
        let p = with_params(s, params, (n - 1) as nat);
        EmitV {
            next_index: p.next_index.wrapping_add(1),
            num_inputs: p.num_inputs.wrapping_add(1),
            variables: p.variables.insert(params[n - 1].name, p.next_index),
            ..p
        }
    }
}

/// The constraint on a public parameter, which is a single wire: a type of more
/// than one field element is an error.
pub open spec fn param_constraint(cx: ContractV, s: EmitV, var: u32, t: TyV) -> EmitV {
    let text = no_spaces(t.text);
    let is_struct = match plain_last_segment(t) {
        Some(seg) => lookup(cx.user_structs, seg.ident) is Some,
        None => false,
    };
    if t.kind is Tuple {
        fail(s, "tuple-typed public circuit parameters are not supported yet (`"@ + text + "`)"@).0
    } else if is_struct {
        fail(s, "struct-typed public circuit parameters are not supported yet (`"@ + text + "`)"@).0
    } else if text == "Boolean"@ || text == "bool"@ {
        put(s, InstructionV::ConstrainToBoolean { var })
    } else if without_prefix(text, "Uint<"@) is Some || uint_bits(text) is Some {
        match uint_bits(text) {
            None => fail(s, "cannot parse the bit width of public parameter type `"@ + text + "`"@).0,
            Some(bits) => if bits == 0 || bits > 253 {
                fail(
                    s,
                    "public parameter type `"@ + text + "` does not fit one field element (max 253 bits)"@,
                ).0
            } else {
                put(s, InstructionV::ConstrainBits { var, bits })
            },
        }
    } else if without_prefix(text, "Bytes<"@) is Some {
        match bytes_len(text) {
            None => fail(s, "cannot parse the byte length of public parameter type `"@ + text + "`"@).0,
            Some(n) => if n > FR_BYTES_STORED {
                fail(
                    s,
                    "multi-Fr public parameter type `"@ + text
                        + "` is not supported yet (Bytes<N> parameters require N ≤ 31)"@,
                ).0
            } else {
                put(s, InstructionV::ConstrainBits { var, bits: (n * 8) as u32 })
            },
        }
    } else if witness_layout(type_ctx(cx), t).len() >= 2 {
        fail(s, "multi-Fr public parameter type `"@ + text + "` is not supported yet"@).0
    } else {
        s
    }
}

/// Constrains the first `n` parameters.
pub open spec fn with_constraints(cx: ContractV, s: EmitV, params: Seq<ParamV>, n: nat) -> EmitV
    decreases n,
{
    if n == 0 || n > params.len() {
        s
    } else {
        param_constraint(cx, with_constraints(cx, s, params, (n - 1) as nat), (n - 1) as u32, params[n - 1].ty)
    }
}

/// Whether a `return` stands anywhere in an expression.
pub open spec fn has_return(e: ExprV) -> bool
    decreases e, 0nat,
{
    match e {
        ExprV::Return { .. } => true,
        ExprV::Let { value, .. } => has_return(*value),
        ExprV::BinaryOp { lhs, rhs, .. } => has_return(*lhs) || has_return(*rhs),
        ExprV::UnaryOp { expr, .. } => has_return(*expr),
        ExprV::Reference { expr, .. } => has_return(*expr),
        ExprV::Disclose { value, .. } => has_return(*value),
        ExprV::Assert { kind, .. } => match kind {
            AssertV::Assert(c) => has_return(*c),
            AssertV::AssertEq(a, b) => has_return(*a) || has_return(*b),
        },
        ExprV::If { cond, then_branch, else_branch, .. } => has_return(*cond) || any_return(
            then_branch,
            then_branch.len(),
        ) || match else_branch {
            Some(b) => any_return(b, b.len()),
            None => false,
        },
        ExprV::Block { stmts, .. } => any_return(stmts, stmts.len()),
        ExprV::FnCall { args, .. } => any_return(args, args.len()),
        ExprV::WitnessCall { args, .. } => any_return(args, args.len()),
        ExprV::MethodCall { receiver, args, .. } => has_return(*receiver) || any_return(args, args.len()),
        ExprV::LedgerAccess { args, .. } => any_return(args, args.len()),
        ExprV::Tuple { elements, .. } => any_return(elements, elements.len()),
        ExprV::ArrayLit { elements, .. } => any_return(elements, elements.len()),
        ExprV::StructInit { fields, .. } => any_field_return(fields, fields.len()),
        ExprV::Index { array, .. } => has_return(*array),
        ExprV::EnumPayload { scrutinee, .. } => has_return(*scrutinee),
        _ => false,
    }
}

pub open spec fn any_return(es: Seq<ExprV>, n: nat) -> bool
    decreases es, n,
{
    if n == 0 || n > es.len() {
        false
    } else {
        any_return(es, (n - 1) as nat) || has_return(es[n - 1])
    }
}

pub open spec fn any_field_return(fs: Seq<(Seq<char>, ExprV)>, n: nat) -> bool
    decreases fs, n,
{
    if n == 0 || n > fs.len() {
        false
    } else {
        any_field_return(fs, (n - 1) as nat) || has_return(fs[n - 1].1)
    }
}

pub open spec fn return_message() -> Seq<char> {
    "`return` is only supported as the final statement of a circuit body (or the tail of the final statement's branches)"@
}

pub open spec fn complain(errors: Seq<Seq<char>>, misplaced: bool) -> Seq<Seq<char>> {
    if misplaced {
        errors.push(return_message())
    } else {
        errors
    }
}

/// Reports every `return` that is not in tail position.
pub open spec fn checked_returns(errors: Seq<Seq<char>>, e: ExprV, tail: bool) -> Seq<Seq<char>>
    decreases e, 0nat,
{
    match e {
        ExprV::Return { value, .. } => complain(
            complain(errors, !tail),
            match value {
                Some(v) => has_return(*v),
                None => false,
            },
        ),
        ExprV::Block { stmts, .. } => checked_list(errors, stmts, stmts.len(), tail),
        ExprV::If { cond, then_branch, else_branch, .. } => {
            let a = complain(errors, has_return(*cond));
            let b = checked_list(a, then_branch, then_branch.len(), tail);
            match else_branch {
                Some(eb) => checked_list(b, eb, eb.len(), tail),
                None => b,
            }
        }
        _ => complain(errors, has_return(e)),
    }
}

/// Checks the first `n` statements of a list whose last is in tail position
/// when `tail` holds.
pub open spec fn checked_list(errors: Seq<Seq<char>>, es: Seq<ExprV>, n: nat, tail: bool) -> Seq<Seq<char>>
    decreases es, n,
{
    if n == 0 || n > es.len() {
        errors
    } else {
        checked_returns(checked_list(errors, es, (n - 1) as nat, tail), es[n - 1], tail && n == es.len())
    }
}

/// The output of a circuit with a return type.
pub open spec fn with_output(s: EmitV, returns: bool, last: Option<u32>) -> EmitV {
    if !returns {
        s
    } else {
        match last {
            Some(var) => put(s, InstructionV::Output { var }),
            None => if s.errors.len() == 0 {
                fail(s, "circuit declares a return type but its final statement produces no value"@).0
            } else {
                s
            },
        }
    }
}

/// The state before a circuit's body: its parameters bound, constrained, and
/// the always-true guard loaded behind them.
pub open spec fn circuit_prologue(cx: ContractV, c: CircuitV) -> EmitV {
    let (a, guard) = load(with_params(start_state(), c.params, c.params.len()), 1);
    let b = with_constraints(cx, EmitV { guard, ..a }, c.params, c.params.len());
    EmitV { errors: checked_list(b.errors, c.body, c.body.len(), true), ..b }
}

/// The state after a whole circuit.
pub open spec fn lowered_circuit(cx: ContractV, c: CircuitV) -> EmitV {
    let (s, last) = lower_seq(cx, circuit_prologue(cx, c), c.body, c.body.len(), cx.helpers.len());
    with_output(s, c.return_type is Some, last)
}

/// One circuit's artifact.
pub struct ZkirOutputV {
    pub circuit_name: Seq<char>,
    pub ir_source: IrSourceV,
    pub branch_spans: Seq<(nat, nat)>,
}

pub open spec fn circuit_output(cx: ContractV, c: CircuitV) -> ZkirOutputV {
    let s = lowered_circuit(cx, c);
    ZkirOutputV {
        circuit_name: c.name,
        ir_source: IrSourceV {
            num_inputs: s.num_inputs,
            do_communications_commitment: true,
            instructions: s.instructions,
        },
        branch_spans: s.branch_spans,
    }
}

/// A circuit's errors, each naming the circuit.
pub open spec fn circuit_errors(cx: ContractV, c: CircuitV) -> Seq<Seq<char>> {
    let errors = lowered_circuit(cx, c).errors;
    Seq::new(errors.len(), |i: int| "circuit `"@ + c.name + "`: "@ + errors[i])
}

/// The errors of the first `n` circuits.
pub open spec fn contract_errors(cx: ContractV, n: nat) -> Seq<Seq<char>>
    decreases n,
{
    if n == 0 || n > cx.circuits.len() {
        seq![]
    } else {
        contract_errors(cx, (n - 1) as nat) + circuit_errors(cx, cx.circuits[n - 1])
    }
}

} // verus!
