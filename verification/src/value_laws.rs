//! The values that wires carry are the values of the source expressions.
use crate::contract::ContractV;
use crate::emission::{emit, find_helper, load_zero, private_block, type_ctx, witness_layout, witness_type};
use crate::emission::{wraps_value, EmitV};
use crate::expr::{AssertV, BinOp, ExprV, LitV, UnOp};
use crate::lowering::{binary, close_branch, else_guard, leave_if, lower, lower_all, lower_branch, lower_seq, negated};
use crate::lowering::{then_guard, unary, witness_key};
use crate::machine::{at_all, bit, carried, comes_before, computed, fits, lemma_before_trans, lemma_cell};
use crate::machine::{lemma_emit_before, lemma_lower_before, run_of, wires_keep_their_values, MachineV};
use crate::program_laws::{else_state, then_state};
use crate::typing::transparent;
use crate::zkir::{imm, output_count, AlignmentAtom, InstructionV};
use vstd::prelude::*;

verus! {

// ---- the meaning of source expressions

/// What names and hashes stand for, and how results of arithmetic are reduced.
pub struct EnvV {
    /// The values of names; a witness field `f` is named `witness.f`.
    pub names: spec_fn(Seq<char>) -> int,
    pub reduced: spec_fn(int) -> int,
    pub transient: spec_fn(Seq<int>) -> int,
}

/// The environment in which a circuit's run computes.
pub open spec fn field_env(m: MachineV, names: spec_fn(Seq<char>) -> int) -> EnvV {
    EnvV { names, reduced: |n: int| n % m.modulus, transient: m.transient }
}

/// The value of a binary operation.
pub open spec fn operation(env: EnvV, op: BinOp, l: int, r: int) -> int {
    match op {
        BinOp::Add => (env.reduced)(l + r),
        BinOp::Sub => (env.reduced)(l - r),
        BinOp::Mul => (env.reduced)(l * r),
        BinOp::And => bit(l == 1 && r == 1),
        BinOp::Or => bit(l == 1 || r == 1),
        BinOp::Eq => bit(l == r),
        BinOp::Ne => bit(l != r),
        BinOp::Lt => bit(l < r),
        BinOp::Le => bit(l <= r),
        BinOp::Gt => bit(l > r),
        BinOp::Ge => bit(l >= r),
        _ => 0,
    }
}

/// The value of an expression.
pub open spec fn meaning(env: EnvV, e: ExprV) -> int
    decreases e,
{
    match e {
        ExprV::Literal { value, .. } => match value {
            LitV::Int(n) => (env.reduced)(n as int),
            LitV::Bool(b) => bit(b),
            LitV::Str(_) => 0,
        },
        ExprV::Var { name, .. } => (env.names)(name),
        ExprV::WitnessAccess { field, .. } => (env.names)(witness_key(field)),
        ExprV::BinaryOp { op, lhs, rhs, .. } => operation(env, op, meaning(env, *lhs), meaning(env, *rhs)),
        ExprV::UnaryOp { op, expr, .. } => match op {
            UnOp::Neg => (env.reduced)(-meaning(env, *expr)),
            UnOp::Not => bit(meaning(env, *expr) == 0),
            UnOp::Deref => meaning(env, *expr),
        },
        ExprV::Disclose { value, .. } => meaning(env, *value),
        ExprV::Reference { expr, .. } => meaning(env, *expr),
        ExprV::MethodCall { receiver, .. } => meaning(env, *receiver),
        ExprV::If { cond, then_branch, else_branch, .. } => if meaning(env, *cond) == 1 {
            last_meaning(env, then_branch)
        } else {
            match else_branch {
                Some(eb) => last_meaning(env, eb),
                None => 0,
            }
        },
        ExprV::Block { stmts, .. } => last_meaning(env, stmts),
        _ => 0,
    }
}

/// The value of the last of a list of expressions.
pub open spec fn last_meaning(env: EnvV, es: Seq<ExprV>) -> int
    decreases es,
{
    if es.len() == 0 {
        0
    } else {
        meaning(env, es[es.len() - 1])
    }
}

/// Whether an expression is computed from literals, names and witness fields
/// alone.
pub open spec fn pure(e: ExprV) -> bool
    decreases e,
{
    match e {
        ExprV::Literal { value, .. } => !(value is Str),
        ExprV::Var { .. } => true,
        ExprV::WitnessAccess { .. } => true,
        ExprV::BinaryOp { op, lhs, rhs, .. } => pure(*lhs) && pure(*rhs) && (op == BinOp::Add || op == BinOp::Sub || op
            == BinOp::Mul || op == BinOp::And || op == BinOp::Or || op == BinOp::Eq || op == BinOp::Ne || op
            == BinOp::Lt || op == BinOp::Le || op == BinOp::Gt || op == BinOp::Ge),
        ExprV::UnaryOp { op, expr, .. } => op != UnOp::Deref && pure(*expr),
        ExprV::Disclose { value, .. } => pure(*value),
        ExprV::Reference { expr, .. } => pure(*expr),
        ExprV::MethodCall { receiver, method, args, .. } => transparent(method) && args.len() == 0 && pure(*receiver),
        ExprV::If { cond, then_branch, else_branch, .. } => pure(*cond) && pure_one(then_branch) && (match else_branch {
            Some(eb) => pure_one(eb),
            None => false,
        }),
        ExprV::Block { stmts, .. } => pure_one(stmts),
        _ => false,
    }
}

pub open spec fn pure_one(es: Seq<ExprV>) -> bool
    decreases es,
{
    es.len() == 1 && pure(es[0])
}

/// Whether the operands of logical operators are truth values.
pub open spec fn logical(env: EnvV, e: ExprV) -> bool
    decreases e,
{
    let truth = |x: ExprV| meaning(env, x) == 0 || meaning(env, x) == 1;
    match e {
        ExprV::BinaryOp { op, lhs, rhs, .. } => {
            &&& logical(env, *lhs)
            &&& logical(env, *rhs)
            &&& op == BinOp::And || op == BinOp::Or ==> truth(*lhs) && truth(*rhs)
        }
        ExprV::UnaryOp { op, expr, .. } => logical(env, *expr) && (op == UnOp::Not ==> truth(*expr)),
        ExprV::Disclose { value, .. } => logical(env, *value),
        ExprV::Reference { expr, .. } => logical(env, *expr),
        ExprV::MethodCall { receiver, .. } => logical(env, *receiver),
        ExprV::If { cond, then_branch, else_branch, .. } => logical(env, *cond) && truth(*cond) && logical_last(
            env,
            then_branch,
        ) && (match else_branch {
            Some(eb) => logical_last(env, eb),
            None => true,
        }),
        ExprV::Block { stmts, .. } => logical_last(env, stmts),
        _ => true,
    }
}

pub open spec fn logical_last(env: EnvV, es: Seq<ExprV>) -> bool
    decreases es,
{
    es.len() > 0 ==> logical(env, es[es.len() - 1])
}

// ---- states of lowering

/// Every bound name has a wire that is filled.
pub open spec fn filled(s: EmitV) -> bool {
    forall|n: Seq<char>| #[trigger] s.variables.contains_key(n) ==> s.variables[n] < s.next_index
}

/// The names bound in `s` have the same wires in `t`.
pub open spec fn keeps_names(s: EmitV, t: EmitV) -> bool {
    forall|n: Seq<char>|
        #[trigger] s.variables.contains_key(n) ==> t.variables.contains_key(n) && t.variables[n] == s.variables[n]
}

/// The wires of bound names carry the values of the names.
pub open spec fn agrees(m: MachineV, s: EmitV, names: spec_fn(Seq<char>) -> int) -> bool {
    forall|n: Seq<char>| #[trigger] s.variables.contains_key(n) ==> carried(m, s, s.variables[n]) == names(n)
}

/// A witness field that is read in a branch was read in front of it, and each
/// branch has a value.
pub open spec fn drawn_before(cx: ContractV, s: EmitV, e: ExprV, depth: nat) -> bool
    decreases e,
{
    match e {
        ExprV::WitnessAccess { field, .. } => s.in_conditional ==> s.variables.contains_key(witness_key(field)),
        ExprV::BinaryOp { lhs, rhs, .. } => drawn_before(cx, s, *lhs, depth) && drawn_before(
            cx,
            lower(cx, s, *lhs, depth).0,
            *rhs,
            depth,
        ),
        ExprV::UnaryOp { expr, .. } => drawn_before(cx, s, *expr, depth),
        ExprV::Disclose { value, .. } => drawn_before(cx, s, *value, depth),
        ExprV::Reference { expr, .. } => drawn_before(cx, s, *expr, depth),
        ExprV::MethodCall { receiver, .. } => drawn_before(cx, s, *receiver, depth),
        ExprV::If { cond, then_branch, else_branch, .. } => {
            let (a, c) = lower(cx, s, *cond, depth);
            &&& drawn_before(cx, s, *cond, depth)
            &&& c matches Some(c) ==> {
                let inside = then_state(a, c);
                let other = else_state(a, c, lower_seq(cx, inside, then_branch, then_branch.len(), depth).0);
                &&& one_drawn_before(cx, inside, then_branch, depth)
                &&& else_branch matches Some(eb) ==> one_drawn_before(cx, other, eb, depth)
            }
        }
        ExprV::Block { stmts, .. } => one_drawn_before(cx, s, stmts, depth),
        _ => true,
    }
}

pub open spec fn one_drawn_before(cx: ContractV, s: EmitV, es: Seq<ExprV>, depth: nat) -> bool
    decreases es,
{
    es.len() > 0 ==> drawn_before(cx, s, es[0], depth) && lower(cx, s, es[0], depth).1 is Some
}

// ---- lowering keeps what it has

proof fn lemma_loaded_zero(m: MachineV, s: EmitV, u: EmitV)
    requires
        comes_before(load_zero(s).0, u),
        fits(m, u),
    ensures
        comes_before(s, load_zero(s).0),
        load_zero(s).0.variables == s.variables,
        s.next_index <= load_zero(s).0.next_index,
{
    reveal(comes_before);
    reveal(emit);
    let i = InstructionV::LoadImm { imm: imm(0) };
    lemma_emit_before(s, i);
    if s.zero_var is None {
        assert(comes_before(s, load_zero(s).0));
        wires_keep_their_values(m, load_zero(s).0, u, 0);
        wires_keep_their_values(m, s, load_zero(s).0, 0);
    } else {
        assert(s.instructions.take(s.instructions.len() as int) =~= s.instructions);
    }
}

proof fn lemma_private(m: MachineV, s: EmitV, layout: Seq<crate::nocturne_type::FrLayout>, n: nat, u: EmitV)
    requires
        comes_before(private_block(s, layout, n).0, u),
        fits(m, u),
    ensures
        comes_before(s, private_block(s, layout, n).0),
        private_block(s, layout, n).0.variables == s.variables,
        s.next_index <= private_block(s, layout, n).0.next_index,
        private_block(s, layout, n).1 matches Some(f) ==> f < private_block(s, layout, n).0.next_index,
    decreases n,
{
    reveal(comes_before);
    if n > 0 && n <= layout.len() {
        reveal(emit);
        reveal(crate::emission::put);
        let (a, first) = private_block(s, layout, (n - 1) as nat);
        let i = InstructionV::PrivateInput { guard: crate::emission::io_guard(s) };
        let (b, v) = emit(a, i);
        let r = private_block(s, layout, n).0;
        lemma_emit_before(a, i);
        match layout[n - 1] {
            crate::nocturne_type::FrLayout::Bits(bits) => {
                crate::machine::lemma_put_before(b, InstructionV::ConstrainBits { var: v, bits });
            }
            crate::nocturne_type::FrLayout::Boolean => {
                crate::machine::lemma_put_before(b, InstructionV::ConstrainToBoolean { var: v });
            }
            crate::nocturne_type::FrLayout::Field => {
                assert(b.instructions.take(b.instructions.len() as int) =~= b.instructions);
            }
        }
        assert(comes_before(b, r));
        lemma_before_trans(b, r, u);
        lemma_before_trans(a, b, u);
        lemma_before_trans(a, b, r);
        lemma_private(m, s, layout, (n - 1) as nat, u);
        lemma_before_trans(s, a, r);
        wires_keep_their_values(m, b, u, 0);
        wires_keep_their_values(m, a, b, 0);
        crate::machine::lemma_emit_run(m, a, i);
    } else {
        assert(s.instructions.take(s.instructions.len() as int) =~= s.instructions);
    }
}

/// The instructions of an operator, on operands with filled wires.
proof fn lemma_binary(
    m: MachineV,
    names: spec_fn(Seq<char>) -> int,
    s: EmitV,
    op: BinOp,
    l: u32,
    r: u32,
    bits: Option<u32>,
    u: EmitV,
)
    requires
        comes_before(binary(s, op, l, r, bits).0, u),
        fits(m, u),
        l < s.next_index,
        r < s.next_index,
        m.modulus > 1,
        binary(s, op, l, r, bits).1 is Some,
    ensures
        binary(s, op, l, r, bits).0.variables == s.variables,
        comes_before(s, binary(s, op, l, r, bits).0),
        s.next_index <= binary(s, op, l, r, bits).0.next_index,
        binary(s, op, l, r, bits).1->0 < binary(s, op, l, r, bits).0.next_index,
        ({
            let x = carried(m, u, l);
            let y = carried(m, u, r);
            let truth = (x == 0 || x == 1) && (y == 0 || y == 1);
            (op == BinOp::And || op == BinOp::Or ==> truth) && (op == BinOp::Add || op == BinOp::Sub || op
                == BinOp::Mul || op == BinOp::And || op == BinOp::Or || op == BinOp::Eq || op == BinOp::Ne || op
                == BinOp::Lt || op == BinOp::Le || op == BinOp::Gt || op == BinOp::Ge) ==> carried(
                m,
                u,
                binary(s, op, l, r, bits).1->0,
            ) == operation(field_env(m, names), op, x, y)
        }),
{
    let t = binary(s, op, l, r, bits).0;
    match op {
        BinOp::Add | BinOp::AddAssign => lemma_one(m, s, InstructionV::Add { a: l, b: r }, l, r, u),
        BinOp::Mul | BinOp::MulAssign => lemma_one(m, s, InstructionV::Mul { a: l, b: r }, l, r, u),
        BinOp::And => {
            lemma_one(m, s, InstructionV::Mul { a: l, b: r }, l, r, u);
            let x = carried(m, u, l);
            let y = carried(m, u, r);
            if (x == 0 || x == 1) && (y == 0 || y == 1) {
                assert(x * y == bit(x == 1 && y == 1)) by (nonlinear_arith)
                    requires
                        x == 0 || x == 1,
                        y == 0 || y == 1,
                ;
                vstd::arithmetic::div_mod::lemma_small_mod(bit(x == 1 && y == 1) as nat, m.modulus as nat);
            }
        }
        BinOp::Eq => lemma_one(m, s, InstructionV::TestEq { a: l, b: r }, l, r, u),
        BinOp::Lt => lemma_one(m, s, InstructionV::LessThan { a: l, b: r, bits: bits->0 }, l, r, u),
        BinOp::Gt => lemma_one(m, s, InstructionV::LessThan { a: r, b: l, bits: bits->0 }, r, l, u),
        BinOp::Ne => lemma_not(m, s, InstructionV::TestEq { a: l, b: r }, l, r, u),
        BinOp::Le => lemma_not(m, s, InstructionV::LessThan { a: r, b: l, bits: bits->0 }, r, l, u),
        BinOp::Ge => lemma_not(m, s, InstructionV::LessThan { a: l, b: r, bits: bits->0 }, l, r, u),
        BinOp::Sub | BinOp::SubAssign => {
            let i = InstructionV::Neg { a: r };
            let (a, neg) = emit(s, i);
            let j = InstructionV::Add { a: l, b: neg };
            lemma_emit_before(s, i);
            lemma_emit_before(a, j);
            lemma_before_trans(a, t, u);
            lemma_one(m, s, i, r, r, u);
            lemma_one(m, a, j, l, neg, u);
            lemma_before_trans(s, a, t);
            let x = carried(m, u, l);
            let y = carried(m, u, r);
            vstd::arithmetic::div_mod::lemma_add_mod_noop_right(x, -y, m.modulus);
        }
        BinOp::Or => {
            let i = InstructionV::Mul { a: l, b: r };
            let (b1, ab) = emit(s, i);
            let j = InstructionV::Add { a: l, b: r };
            let (b2, sum) = emit(b1, j);
            let k = InstructionV::Neg { a: ab };
            let (b3, neg) = emit(b2, k);
            let q = InstructionV::Add { a: sum, b: neg };
            lemma_emit_before(s, i);
            lemma_emit_before(b1, j);
            lemma_emit_before(b2, k);
            lemma_emit_before(b3, q);
            lemma_before_trans(b3, t, u);
            lemma_before_trans(b2, b3, u);
            lemma_before_trans(b1, b2, u);
            lemma_one(m, s, i, l, r, u);
            lemma_one(m, b1, j, l, r, u);
            lemma_one(m, b2, k, ab, ab, u);
            lemma_one(m, b3, q, sum, neg, u);
            lemma_before_trans(b2, b3, t);
            lemma_before_trans(b1, b2, t);
            lemma_before_trans(s, b1, t);
            let x = carried(m, u, l);
            let y = carried(m, u, r);
            let p = m.modulus;
            if (x == 0 || x == 1) && (y == 0 || y == 1) {
                vstd::arithmetic::div_mod::lemma_sub_mod_noop_right(0, x * y, p);
                assert((-((x * y) % p)) % p == (-(x * y)) % p);
                vstd::arithmetic::div_mod::lemma_add_mod_noop(x + y, -(x * y), p);
                assert(x + y - x * y == bit(x == 1 || y == 1)) by (nonlinear_arith)
                    requires
                        x == 0 || x == 1,
                        y == 0 || y == 1,
                ;
                vstd::arithmetic::div_mod::lemma_small_mod(bit(x == 1 || y == 1) as nat, p as nat);
            }
        }
        _ => {}
    }
}

/// One instruction on two filled wires.
pub(crate) proof fn lemma_one(m: MachineV, s: EmitV, i: InstructionV, l: u32, r: u32, u: EmitV)
    requires
        comes_before(emit(s, i).0, u),
        fits(m, u),
        l < s.next_index,
        r < s.next_index,
        output_count(i) == 1,
        !(i is PublicInput) && !(i is PrivateInput),
    ensures
        emit(s, i).0.variables == s.variables,
        comes_before(s, emit(s, i).0),
        comes_before(s, u),
        emit(s, i).1 == s.next_index,
        emit(s, i).0.next_index == s.next_index + 1,
        carried(m, u, s.next_index) == computed(m, run_of(m, s).cells, i),
        run_of(m, s).cells[l as int] == carried(m, u, l),
        run_of(m, s).cells[r as int] == carried(m, u, r),
{
    lemma_cell(m, s, i, u);
    lemma_emit_before(s, i);
    lemma_before_trans(s, emit(s, i).0, u);
    wires_keep_their_values(m, s, u, l);
    wires_keep_their_values(m, s, u, r);
    reveal(emit);
}

proof fn lemma_not(m: MachineV, s: EmitV, i: InstructionV, l: u32, r: u32, u: EmitV)
    requires
        comes_before(negated(emit(s, i)).0, u),
        fits(m, u),
        l < s.next_index,
        r < s.next_index,
        output_count(i) == 1,
        !(i is PublicInput) && !(i is PrivateInput),
    ensures
        negated(emit(s, i)).0.variables == s.variables,
        comes_before(s, negated(emit(s, i)).0),
        negated(emit(s, i)).1 == Some((s.next_index + 1) as u32),
        negated(emit(s, i)).0.next_index == s.next_index + 2,
        carried(m, u, (s.next_index + 1) as u32) == bit(computed(m, run_of(m, s).cells, i) == 0),
        run_of(m, s).cells[l as int] == carried(m, u, l),
        run_of(m, s).cells[r as int] == carried(m, u, r),
{
    let (a, v) = emit(s, i);
    let j = InstructionV::Not { a: v };
    let t = emit(a, j).0;
    lemma_emit_before(s, i);
    lemma_emit_before(a, j);
    lemma_before_trans(a, t, u);
    lemma_before_trans(s, a, t);
    lemma_one(m, s, i, l, r, u);
    lemma_one(m, a, j, v, v, u);
}

proof fn lemma_unary(m: MachineV, s: EmitV, op: UnOp, x: u32, u: EmitV)
    requires
        comes_before(unary(s, op, x).0, u),
        fits(m, u),
        x < s.next_index,
        op != UnOp::Deref,
    ensures
        unary(s, op, x).0.variables == s.variables,
        comes_before(s, unary(s, op, x).0),
        s.next_index <= unary(s, op, x).0.next_index,
        unary(s, op, x).1 is Some,
        unary(s, op, x).1->0 < unary(s, op, x).0.next_index,
        carried(m, u, unary(s, op, x).1->0) == (if op == UnOp::Neg {
            (-carried(m, u, x)) % m.modulus
        } else {
            bit(carried(m, u, x) == 0)
        }),
{
    match op {
        UnOp::Neg => lemma_one(m, s, InstructionV::Neg { a: x }, x, x, u),
        UnOp::Not => lemma_one(m, s, InstructionV::Not { a: x }, x, x, u),
        UnOp::Deref => {}
    }
}

// ---- branches

pub(crate) proof fn lemma_self_before(s: EmitV, t: EmitV)
    requires
        s.instructions == t.instructions,
        s.next_index == t.next_index,
    ensures
        comes_before(s, t),
{
    reveal(comes_before);
    assert(t.instructions.take(s.instructions.len() as int) =~= s.instructions);
}

/// Entering a `then` branch.
proof fn lemma_then_state(m: MachineV, a: EmitV, cond: u32, u: EmitV)
    requires
        comes_before(then_state(a, cond), u),
        fits(m, u),
    ensures
        comes_before(a, then_state(a, cond)),
        then_state(a, cond).variables == a.variables,
        a.next_index <= then_state(a, cond).next_index,
{
    reveal(emit);
    let (g, guard) = then_guard(a, cond);
    let inside = then_state(a, cond);
    lemma_self_before(g, inside);
    lemma_before_trans(g, inside, u);
    if a.in_conditional {
        let (z, zero) = load_zero(a);
        let i = InstructionV::CondSelect { bit: cond, a: a.guard, b: zero };
        lemma_emit_before(z, i);
        lemma_before_trans(z, g, u);
        lemma_loaded_zero(m, a, u);
        lemma_before_trans(a, z, g);
        lemma_before_trans(a, g, inside);
        wires_keep_their_values(m, g, u, 0);
        wires_keep_their_values(m, z, g, 0);
    }
}

/// Entering an `else` branch behind the state `t`.
proof fn lemma_else_state(m: MachineV, a: EmitV, cond: u32, t: EmitV, u: EmitV)
    requires
        comes_before(else_state(a, cond, t), u),
        fits(m, u),
    ensures
        comes_before(t, else_state(a, cond, t)),
        else_state(a, cond, t).variables == t.variables,
        t.next_index <= else_state(a, cond, t).next_index,
{
    reveal(emit);
    let shut = close_branch(t, then_state(a, cond).instructions.len());
    let (f, guard) = else_guard(shut, cond, a.in_conditional, a.guard);
    let other = else_state(a, cond, t);
    lemma_self_before(f, other);
    lemma_self_before(t, shut);
    lemma_before_trans(f, other, u);
    if a.in_conditional {
        let (z, zero) = load_zero(shut);
        let i = InstructionV::CondSelect { bit: cond, a: zero, b: a.guard };
        lemma_emit_before(z, i);
        lemma_before_trans(z, f, u);
        lemma_loaded_zero(m, shut, u);
        lemma_before_trans(shut, z, f);
    } else {
        lemma_emit_before(shut, InstructionV::Not { a: cond });
    }
    lemma_before_trans(t, shut, f);
    lemma_before_trans(t, f, other);
    wires_keep_their_values(m, f, u, 0);
    wires_keep_their_values(m, shut, f, 0);
}

/// Lowering a branch continues what was lowered.
proof fn lemma_branch_before(cx: ContractV, s: EmitV, es: Seq<ExprV>, n: nat, depth: nat)
    ensures
        comes_before(s, lower_branch(cx, s, es, n, depth).0),
        lower_branch(cx, s, es, n, depth).0 == lower_seq(cx, s, es, n, depth).0,
    decreases n,
{
    if n == 0 || n > es.len() {
        lemma_self_before(s, s);
    } else {
        let a = lower_branch(cx, s, es, (n - 1) as nat, depth).0;
        lemma_branch_before(cx, s, es, (n - 1) as nat, depth);
        lemma_lower_before(cx, a, es[n - 1], depth);
        lemma_before_trans(s, a, lower(cx, a, es[n - 1], depth).0);
    }
}

/// An `if` whose branches both have a value has the value of the branch that
/// its condition picks: where the wire of the condition carries one, the wire
/// of the whole carries what the wire of the `then` branch carries, and
/// otherwise what the wire of the `else` branch carries.
pub proof fn if_carries_the_branch_picked(
    m: MachineV,
    cx: ContractV,
    s: EmitV,
    span: crate::syntax::Span,
    cond: ExprV,
    then_branch: Seq<ExprV>,
    else_branch: Seq<ExprV>,
    depth: nat,
)
    requires
        fits(
            m,
            lower(
                cx,
                s,
                ExprV::If { span, cond: Box::new(cond), then_branch, else_branch: Some(else_branch) },
                depth,
            ).0,
        ),
    ensures
        ({
            let e = ExprV::If { span, cond: Box::new(cond), then_branch, else_branch: Some(else_branch) };
            let (a, c) = lower(cx, s, cond, depth);
            let (r, w) = lower(cx, s, e, depth);
            c matches Some(c) ==> {
                let (t, x) = lower_branch(cx, then_state(a, c), then_branch, then_branch.len(), depth);
                let (f, y) = lower_branch(cx, else_state(a, c, t), else_branch, else_branch.len(), depth);
                x is Some && y is Some && c < f.next_index && x->0 < f.next_index && y->0 < f.next_index ==> {
                    &&& w is Some
                    &&& w->0 < r.next_index
                    &&& carried(m, r, c) == 1 ==> carried(m, r, w->0) == carried(m, r, x->0)
                    &&& carried(m, r, c) != 1 ==> carried(m, r, w->0) == carried(m, r, y->0)
                }
            }
        }),
{
    let e = ExprV::If { span, cond: Box::new(cond), then_branch, else_branch: Some(else_branch) };
    let (a, c) = lower(cx, s, cond, depth);
    let r = lower(cx, s, e, depth).0;
    if c is Some {
        let (t, x) = lower_branch(cx, then_state(a, c->0), then_branch, then_branch.len(), depth);
        let other = else_state(a, c->0, t);
        let (f, y) = lower_branch(cx, other, else_branch, else_branch.len(), depth);
        lemma_self_before(r, r);
        if x is Some && y is Some && c->0 < f.next_index && x->0 < f.next_index && y->0 < f.next_index {
            lemma_select(m, a, f, other, c->0, x->0, y->0, r, r);
        }
    }
}

/// The selection behind two branches.
proof fn lemma_select(m: MachineV, a: EmitV, f: EmitV, other: EmitV, c: u32, x: u32, y: u32, r: EmitV, u: EmitV)
    requires
        r == leave_if(
            close_branch(f, other.instructions.len()),
            c,
            a.guard,
            a.in_conditional,
            Some(x),
            Some(y),
        ).0,
        comes_before(r, u),
        fits(m, u),
        c < f.next_index,
        x < f.next_index,
        y < f.next_index,
    ensures
        comes_before(f, r),
        r.variables == f.variables,
        r.next_index == f.next_index + 1,
        leave_if(
            close_branch(f, other.instructions.len()),
            c,
            a.guard,
            a.in_conditional,
            Some(x),
            Some(y),
        ).1 == Some(f.next_index),
        carried(m, u, c) == 1 ==> carried(m, u, f.next_index) == carried(m, u, x),
        carried(m, u, c) != 1 ==> carried(m, u, f.next_index) == carried(m, u, y),
{
    let shut = close_branch(f, other.instructions.len());
    let outside = EmitV { guard: a.guard, in_conditional: a.in_conditional, ..shut };
    let i = InstructionV::CondSelect { bit: c, a: x, b: y };
    lemma_self_before(f, outside);
    lemma_one(m, outside, i, x, y, u);
    lemma_one(m, outside, i, c, c, u);
    lemma_before_trans(f, outside, r);
    wires_keep_their_values(m, outside, u, x);
    wires_keep_their_values(m, outside, u, y);
}

// ---- whole expressions

/// What lowering a pure expression keeps.
spec fn kept(s: EmitV, r: (EmitV, Option<u32>)) -> bool {
    &&& keeps_names(s, r.0)
    &&& filled(r.0)
    &&& s.next_index <= r.0.next_index
    &&& r.1 matches Some(w) ==> w < r.0.next_index
}

proof fn lemma_names_trans(s: EmitV, t: EmitV, u: EmitV)
    requires
        keeps_names(s, t),
        keeps_names(t, u),
    ensures
        keeps_names(s, u),
{
}

proof fn lemma_kept_witness(m: MachineV, cx: ContractV, s: EmitV, e: ExprV, depth: nat, u: EmitV)
    requires
        e is WitnessAccess,
        drawn_before(cx, s, e, depth),
        filled(s),
        comes_before(lower(cx, s, e, depth).0, u),
        fits(m, u),
    ensures
        kept(s, lower(cx, s, e, depth)),
        lower(cx, s, e, depth).1 matches Some(w) ==> lower(cx, s, e, depth).0.variables.contains_key(
            witness_key(e->WitnessAccess_field),
        ) && lower(cx, s, e, depth).0.variables[witness_key(e->WitnessAccess_field)] == w,
{
    let field = e->WitnessAccess_field;
    let key = witness_key(field);
    let r = lower(cx, s, e, depth).0;
    if !s.variables.contains_key(key) && !s.guarded_witness_fields.contains(field) {
        match witness_type(cx, field) {
            Some(t) => {
                let layout = witness_layout(type_ctx(cx), t);
                let a = private_block(s, layout, layout.len()).0;
                lemma_self_before(a, r);
                lemma_before_trans(a, r, u);
                lemma_private(m, s, layout, layout.len(), u);
                assert(kept(s, lower(cx, s, e, depth)));
            }
            None => {}
        }
    }
}

proof fn lemma_kept(m: MachineV, cx: ContractV, s: EmitV, e: ExprV, depth: nat, u: EmitV)
    requires
        pure(e),
        drawn_before(cx, s, e, depth),
        filled(s),
        m.modulus > 1,
        comes_before(lower(cx, s, e, depth).0, u),
        fits(m, u),
    ensures
        kept(s, lower(cx, s, e, depth)),
    decreases e, 1nat,
{
    let r = lower(cx, s, e, depth);
    match e {
        ExprV::Literal { value, .. } => {
            let n: int = match value {
                LitV::Int(n) => n as int,
                LitV::Bool(b) => bit(b),
                LitV::Str(_) => 0,
            };
            lemma_cell(m, s, InstructionV::LoadImm { imm: imm(n) }, u);
            reveal(emit);
        }
        ExprV::Var { .. } => {}
        ExprV::WitnessAccess { .. } => lemma_kept_witness(m, cx, s, e, depth, u),
        ExprV::BinaryOp { .. } => lemma_kept_binary(m, cx, s, e, depth, u),
        ExprV::UnaryOp { .. } => lemma_kept_unary(m, cx, s, e, depth, u),
        ExprV::Disclose { value, .. } => lemma_kept(m, cx, s, *value, depth, u),
        ExprV::Reference { expr, .. } => lemma_kept(m, cx, s, *expr, depth, u),
        ExprV::MethodCall { receiver, args, .. } => {
            assert(lower_seq(cx, lower(cx, s, *receiver, depth).0, args, args.len(), depth).0 == lower(
                cx,
                s,
                *receiver,
                depth,
            ).0);
            lemma_kept(m, cx, s, *receiver, depth, u);
        }
        ExprV::Block { stmts, .. } => {
            assert(pure_one(stmts) && one_drawn_before(cx, s, stmts, depth));
            lemma_single(cx, s, stmts, depth);
            lemma_kept(m, cx, s, stmts[0], depth, u);
        }
        ExprV::If { .. } => lemma_kept_if(m, cx, s, e, depth, u),
        _ => {}
    }
}

proof fn lemma_kept_binary(m: MachineV, cx: ContractV, s: EmitV, e: ExprV, depth: nat, u: EmitV)
    requires
        pure(e),
        e is BinaryOp,
        drawn_before(cx, s, e, depth),
        filled(s),
        m.modulus > 1,
        comes_before(lower(cx, s, e, depth).0, u),
        fits(m, u),
    ensures
        kept(s, lower(cx, s, e, depth)),
    decreases e, 0nat,
{
    let r = lower(cx, s, e, depth);
    match e {
        ExprV::BinaryOp { op, lhs, rhs, .. } => {
            let bits = crate::emission::common_width(cx, s, *lhs, *rhs);
            let (a, l) = lower(cx, s, *lhs, depth);
            if l is Some {
                let (b, x) = lower(cx, a, *rhs, depth);
                lemma_lower_before(cx, a, *rhs, depth);
                if x is Some {
                    lemma_binary_before(b, op, l->0, x->0, bits);
                    lemma_before_trans(b, r.0, u);
                }
                lemma_before_trans(a, b, u);
                lemma_kept(m, cx, s, *lhs, depth, u);
                lemma_kept(m, cx, a, *rhs, depth, u);
                lemma_names_trans(s, a, b);
                if x is Some && r.1 is Some {
                    lemma_binary(m, |n: Seq<char>| 0, b, op, l->0, x->0, bits, u);
                } else if x is Some {
                    assert(r.0.variables == b.variables && r.0.next_index == b.next_index);
                }
            } else {
                lemma_kept(m, cx, s, *lhs, depth, u);
            }
        }
        _ => {}
    }
}

proof fn lemma_kept_unary(m: MachineV, cx: ContractV, s: EmitV, e: ExprV, depth: nat, u: EmitV)
    requires
        pure(e),
        e is UnaryOp,
        drawn_before(cx, s, e, depth),
        filled(s),
        m.modulus > 1,
        comes_before(lower(cx, s, e, depth).0, u),
        fits(m, u),
    ensures
        kept(s, lower(cx, s, e, depth)),
    decreases e, 0nat,
{
    let r = lower(cx, s, e, depth);
    match e {
        ExprV::UnaryOp { op, expr, .. } => {
            let (a, x) = lower(cx, s, *expr, depth);
            if x is Some {
                lemma_emit_before(a, InstructionV::Neg { a: x->0 });
                lemma_emit_before(a, InstructionV::Not { a: x->0 });
                lemma_before_trans(a, r.0, u);
                lemma_kept(m, cx, s, *expr, depth, u);
                lemma_unary(m, a, op, x->0, u);
            } else {
                lemma_kept(m, cx, s, *expr, depth, u);
            }
        }
        _ => {}
    }
}

/// A list of one expression is lowered as that expression.
proof fn lemma_single(cx: ContractV, s: EmitV, es: Seq<ExprV>, depth: nat)
    requires
        es.len() == 1,
    ensures
        lower_seq(cx, s, es, 1, depth) == lower(cx, s, es[0], depth),
        lower_branch(cx, s, es, 1, depth) == lower(cx, s, es[0], depth),
{
    reveal_with_fuel(lower_seq, 2);
    reveal_with_fuel(lower_branch, 2);
}

proof fn lemma_binary_before(s: EmitV, op: BinOp, l: u32, r: u32, bits: Option<u32>)
    ensures
        comes_before(s, binary(s, op, l, r, bits).0),
{
    reveal(comes_before);
    crate::circuit_laws::lemma_binary(false, s, op, l, r, bits);
    reveal(crate::emission_laws::continues);
    let t = binary(s, op, l, r, bits).0;
    assert(t.instructions.take(s.instructions.len() as int) =~= s.instructions);
}

/// The states that an `if` passes through, all in front of `u`.
proof fn lemma_if_states(m: MachineV, cx: ContractV, s: EmitV, e: ExprV, depth: nat, u: EmitV)
    requires
        pure(e),
        e is If,
        comes_before(lower(cx, s, e, depth).0, u),
        fits(m, u),
    ensures
        ({
            let c = e->If_cond;
            let tb = e->If_then_branch;
            let eb = e->If_else_branch->0;
            let (a, bit) = lower(cx, s, *c, depth);
            let r = lower(cx, s, e, depth);
            &&& comes_before(a, u)
            &&& bit matches Some(bit) ==> {
                let inside = then_state(a, bit);
                let (t, x) = lower(cx, inside, tb[0], depth);
                let other = else_state(a, bit, t);
                let (f, y) = lower(cx, other, eb[0], depth);
                &&& t == lower_seq(cx, inside, tb, tb.len(), depth).0
                &&& r == leave_if(
                    close_branch(f, other.instructions.len()),
                    bit,
                    a.guard,
                    a.in_conditional,
                    x,
                    y,
                )
                &&& comes_before(inside, u)
                &&& comes_before(t, u)
                &&& comes_before(other, u)
                &&& comes_before(f, u)
                &&& inside.variables == a.variables
                &&& other.variables == t.variables
                &&& a.next_index <= inside.next_index
                &&& t.next_index <= other.next_index
            }
        }),
{
    let c = e->If_cond;
    let tb = e->If_then_branch;
    let eb = e->If_else_branch->0;
    assert(pure_one(tb) && pure_one(eb));
    let (a, bit) = lower(cx, s, *c, depth);
    let r = lower(cx, s, e, depth).0;
    if bit is Some {
        let inside = then_state(a, bit->0);
        let (t, x) = lower(cx, inside, tb[0], depth);
        lemma_single(cx, inside, tb, depth);
        let other = else_state(a, bit->0, t);
        let (f, y) = lower(cx, other, eb[0], depth);
        lemma_single(cx, other, eb, depth);
        let shut = close_branch(f, other.instructions.len());
        let outside = EmitV { guard: a.guard, in_conditional: a.in_conditional, ..shut };
        lemma_self_before(f, outside);
        if x is Some && y is Some {
            lemma_emit_before(outside, InstructionV::CondSelect { bit: bit->0, a: x->0, b: y->0 });
        } else {
            lemma_self_before(outside, r);
        }
        lemma_before_trans(f, outside, r);
        lemma_before_trans(f, r, u);
        lemma_lower_before(cx, other, eb[0], depth);
        lemma_before_trans(other, f, u);
        lemma_else_state(m, a, bit->0, t, u);
        lemma_before_trans(t, other, u);
        lemma_lower_before(cx, inside, tb[0], depth);
        lemma_before_trans(inside, t, u);
        lemma_then_state(m, a, bit->0, u);
        lemma_before_trans(a, inside, u);
    }
}

proof fn lemma_kept_if(m: MachineV, cx: ContractV, s: EmitV, e: ExprV, depth: nat, u: EmitV)
    requires
        pure(e),
        e is If,
        drawn_before(cx, s, e, depth),
        filled(s),
        m.modulus > 1,
        comes_before(lower(cx, s, e, depth).0, u),
        fits(m, u),
    ensures
        kept(s, lower(cx, s, e, depth)),
    decreases e, 0nat,
{
    let c = e->If_cond;
    let tb = e->If_then_branch;
    let eb = e->If_else_branch->0;
    assert(pure_one(tb) && pure_one(eb));
    let (a, bit) = lower(cx, s, *c, depth);
    let r = lower(cx, s, e, depth).0;
    lemma_if_states(m, cx, s, e, depth, u);
    lemma_kept(m, cx, s, *c, depth, u);
    if bit is Some {
        let inside = then_state(a, bit->0);
        let (t, x) = lower(cx, inside, tb[0], depth);
        let other = else_state(a, bit->0, t);
        let (f, y) = lower(cx, other, eb[0], depth);
        assert(one_drawn_before(cx, inside, tb, depth));
        assert(one_drawn_before(cx, other, eb, depth));
        lemma_kept(m, cx, inside, tb[0], depth, u);
        lemma_kept(m, cx, other, eb[0], depth, u);
        lemma_names_trans(s, inside, t);
        lemma_names_trans(s, other, f);
        if x is Some && y is Some {
            lemma_select(m, a, f, other, bit->0, x->0, y->0, r, u);
        }
    }
}

/// Seen from a later point `u` of the run, the wire of a pure expression
/// carries the expression's value.
proof fn lemma_value(
    m: MachineV,
    names: spec_fn(Seq<char>) -> int,
    cx: ContractV,
    s: EmitV,
    e: ExprV,
    depth: nat,
    u: EmitV,
)
    requires
        pure(e),
        drawn_before(cx, s, e, depth),
        logical(field_env(m, names), e),
        filled(s),
        m.modulus > 1,
        comes_before(lower(cx, s, e, depth).0, u),
        keeps_names(lower(cx, s, e, depth).0, u),
        agrees(m, u, names),
        fits(m, u),
    ensures
        lower(cx, s, e, depth).1 matches Some(w) ==> carried(m, u, w) == meaning(field_env(m, names), e),
    decreases e, 1nat,
{
    let env = field_env(m, names);
    let r = lower(cx, s, e, depth);
    lemma_kept(m, cx, s, e, depth, u);
    if r.1 is Some {
        match e {
            ExprV::Literal { value, .. } => {
                let n: int = match value {
                    LitV::Int(n) => n as int,
                    LitV::Bool(b) => bit(b),
                    LitV::Str(_) => 0,
                };
                lemma_cell(m, s, InstructionV::LoadImm { imm: imm(n) }, u);
                reveal(emit);
                vstd::arithmetic::div_mod::lemma_small_mod(0nat, m.modulus as nat);
                vstd::arithmetic::div_mod::lemma_small_mod(1nat, m.modulus as nat);
            }
            ExprV::Var { name, .. } => {
                assert(u.variables.contains_key(name));
            }
            ExprV::WitnessAccess { field, .. } => {
                lemma_kept_witness(m, cx, s, e, depth, u);
                assert(u.variables.contains_key(witness_key(field)));
            }
            ExprV::BinaryOp { .. } => lemma_value_binary(m, names, cx, s, e, depth, u),
            ExprV::UnaryOp { .. } => lemma_value_unary(m, names, cx, s, e, depth, u),
            ExprV::Disclose { value, .. } => lemma_value(m, names, cx, s, *value, depth, u),
            ExprV::Reference { expr, .. } => lemma_value(m, names, cx, s, *expr, depth, u),
            ExprV::MethodCall { receiver, args, .. } => {
                assert(lower_seq(cx, lower(cx, s, *receiver, depth).0, args, args.len(), depth).0 == lower(
                    cx,
                    s,
                    *receiver,
                    depth,
                ).0);
                lemma_value(m, names, cx, s, *receiver, depth, u);
            }
            ExprV::Block { stmts, .. } => {
                assert(pure_one(stmts) && one_drawn_before(cx, s, stmts, depth) && logical_last(env, stmts));
                assert(last_meaning(env, stmts) == meaning(env, stmts[0]));
                lemma_single(cx, s, stmts, depth);
                lemma_value(m, names, cx, s, stmts[0], depth, u);
            }
            ExprV::If { .. } => lemma_value_if(m, names, cx, s, e, depth, u),
            _ => {}
        }
    }
}

proof fn lemma_value_binary(
    m: MachineV,
    names: spec_fn(Seq<char>) -> int,
    cx: ContractV,
    s: EmitV,
    e: ExprV,
    depth: nat,
    u: EmitV,
)
    requires
        pure(e),
        e is BinaryOp,
        drawn_before(cx, s, e, depth),
        logical(field_env(m, names), e),
        filled(s),
        m.modulus > 1,
        comes_before(lower(cx, s, e, depth).0, u),
        keeps_names(lower(cx, s, e, depth).0, u),
        agrees(m, u, names),
        fits(m, u),
        lower(cx, s, e, depth).1 is Some,
    ensures
        carried(m, u, lower(cx, s, e, depth).1->0) == meaning(field_env(m, names), e),
    decreases e, 0nat,
{
    let r = lower(cx, s, e, depth);
    match e {
        ExprV::BinaryOp { op, lhs, rhs, .. } => {
            let bits = crate::emission::common_width(cx, s, *lhs, *rhs);
            let (a, l) = lower(cx, s, *lhs, depth);
            let (b, x) = lower(cx, a, *rhs, depth);
            lemma_lower_before(cx, a, *rhs, depth);
            lemma_binary_before(b, op, l->0, x->0, bits);
            lemma_before_trans(b, r.0, u);
            lemma_before_trans(a, b, u);
            lemma_kept(m, cx, s, *lhs, depth, u);
            lemma_kept(m, cx, a, *rhs, depth, u);
            lemma_binary(m, names, b, op, l->0, x->0, bits, u);
            lemma_names_trans(b, r.0, u);
            lemma_names_trans(a, b, u);
            lemma_value(m, names, cx, s, *lhs, depth, u);
            lemma_value(m, names, cx, a, *rhs, depth, u);
        }
        _ => {}
    }
}

proof fn lemma_value_unary(
    m: MachineV,
    names: spec_fn(Seq<char>) -> int,
    cx: ContractV,
    s: EmitV,
    e: ExprV,
    depth: nat,
    u: EmitV,
)
    requires
        pure(e),
        e is UnaryOp,
        drawn_before(cx, s, e, depth),
        logical(field_env(m, names), e),
        filled(s),
        m.modulus > 1,
        comes_before(lower(cx, s, e, depth).0, u),
        keeps_names(lower(cx, s, e, depth).0, u),
        agrees(m, u, names),
        fits(m, u),
        lower(cx, s, e, depth).1 is Some,
    ensures
        carried(m, u, lower(cx, s, e, depth).1->0) == meaning(field_env(m, names), e),
    decreases e, 0nat,
{
    let r = lower(cx, s, e, depth);
    match e {
        ExprV::UnaryOp { op, expr, .. } => {
            let (a, x) = lower(cx, s, *expr, depth);
            lemma_emit_before(a, InstructionV::Neg { a: x->0 });
            lemma_emit_before(a, InstructionV::Not { a: x->0 });
            lemma_before_trans(a, r.0, u);
            lemma_kept(m, cx, s, *expr, depth, u);
            lemma_unary(m, a, op, x->0, u);
            lemma_names_trans(a, r.0, u);
            lemma_value(m, names, cx, s, *expr, depth, u);
        }
        _ => {}
    }
}

proof fn lemma_value_if(
    m: MachineV,
    names: spec_fn(Seq<char>) -> int,
    cx: ContractV,
    s: EmitV,
    e: ExprV,
    depth: nat,
    u: EmitV,
)
    requires
        pure(e),
        e is If,
        drawn_before(cx, s, e, depth),
        logical(field_env(m, names), e),
        filled(s),
        m.modulus > 1,
        comes_before(lower(cx, s, e, depth).0, u),
        keeps_names(lower(cx, s, e, depth).0, u),
        agrees(m, u, names),
        fits(m, u),
    ensures
        lower(cx, s, e, depth).1 matches Some(w) ==> (lower(cx, s, *e->If_cond, depth).1 is Some && carried(m, u, w)
            == meaning(field_env(m, names), e)),
    decreases e, 0nat,
{
    let c = e->If_cond;
    let tb = e->If_then_branch;
    let eb = e->If_else_branch->0;
    assert(pure_one(tb) && pure_one(eb));
    let (a, bit) = lower(cx, s, *c, depth);
    let r = lower(cx, s, e, depth).0;
    lemma_if_states(m, cx, s, e, depth, u);
    lemma_kept(m, cx, s, *c, depth, u);
    if bit is Some {
        let inside = then_state(a, bit->0);
        let (t, x) = lower(cx, inside, tb[0], depth);
        let other = else_state(a, bit->0, t);
        let (f, y) = lower(cx, other, eb[0], depth);
        assert(one_drawn_before(cx, inside, tb, depth));
        assert(one_drawn_before(cx, other, eb, depth));
        lemma_kept(m, cx, inside, tb[0], depth, u);
        lemma_kept(m, cx, other, eb[0], depth, u);
        if x is Some && y is Some {
            lemma_select(m, a, f, other, bit->0, x->0, y->0, r, u);
        }
        lemma_names_trans(f, r, u);
        lemma_names_trans(other, f, u);
        lemma_names_trans(inside, t, u);
        lemma_value(m, names, cx, s, *c, depth, u);
        let env = field_env(m, names);
        assert(logical_last(env, tb) && logical_last(env, eb));
        assert(last_meaning(env, tb) == meaning(env, tb[0]) && last_meaning(env, eb) == meaning(env, eb[0]));
        lemma_value(m, names, cx, inside, tb[0], depth, u);
        lemma_value(m, names, cx, other, eb[0], depth, u);
    }
}

/// Circuits compute what the source says: the wire of an expression over
/// literals, names and witness fields carries the expression's value, where
/// names stand for what their wires carry. Arithmetic is that of the field.
pub proof fn wires_carry_source_values(
    m: MachineV,
    names: spec_fn(Seq<char>) -> int,
    cx: ContractV,
    s: EmitV,
    e: ExprV,
    depth: nat,
)
    requires
        m.modulus > 1,
        pure(e),
        drawn_before(cx, s, e, depth),
        logical(field_env(m, names), e),
        filled(s),
        fits(m, lower(cx, s, e, depth).0),
        agrees(m, lower(cx, s, e, depth).0, names),
    ensures
        filled(lower(cx, s, e, depth).0),
        lower(cx, s, e, depth).1 matches Some(w) ==> carried(m, lower(cx, s, e, depth).0, w) == meaning(
            field_env(m, names),
            e,
        ),
{
    let r = lower(cx, s, e, depth).0;
    lemma_self_before(r, r);
    lemma_kept(m, cx, s, e, depth, r);
    lemma_value(m, names, cx, s, e, depth, r);
}

/// Names with one of them bound anew.
pub open spec fn with_name(names: spec_fn(Seq<char>) -> int, name: Seq<char>, value: int) -> spec_fn(Seq<char>) -> int {
    |n: Seq<char>| if n == name { value } else { names(n) }
}

/// Behind `let x = e`, `x` stands for the value of `e`, and every other name
/// for what it stood for.
pub proof fn let_binds_the_value(
    m: MachineV,
    names: spec_fn(Seq<char>) -> int,
    cx: ContractV,
    s: EmitV,
    span: crate::syntax::Span,
    name: Seq<char>,
    value: ExprV,
    depth: nat,
)
    requires
        m.modulus > 1,
        pure(value),
        drawn_before(cx, s, value, depth),
        logical(field_env(m, names), value),
        filled(s),
        fits(m, lower(cx, s, value, depth).0),
        agrees(m, lower(cx, s, value, depth).0, names),
        lower(cx, s, value, depth).1 is Some,
    ensures
        ({
            let r = lower(cx, s, ExprV::Let { span, name, value: Box::new(value) }, depth).0;
            &&& filled(r)
            &&& r.variables.contains_key(name)
            &&& agrees(m, r, with_name(names, name, meaning(field_env(m, names), value)))
        }),
{
    wires_carry_source_values(m, names, cx, s, value, depth);
    let (a, w) = lower(cx, s, value, depth);
    let r = lower(cx, s, ExprV::Let { span, name, value: Box::new(value) }, depth).0;
    lemma_self_before(a, a);
    lemma_kept(m, cx, s, value, depth, a);
    assert(run_of(m, r) == run_of(m, a));
    assert forall|n: Seq<char>| #[trigger] r.variables.contains_key(n) implies carried(m, r, r.variables[n])
        == with_name(names, name, meaning(field_env(m, names), value))(n) by {
        if n != name {
            assert(a.variables.contains_key(n));
        }
    }
    assert forall|n: Seq<char>| #[trigger] r.variables.contains_key(n) implies r.variables[n] < r.next_index by {
        if n != name {
            assert(a.variables.contains_key(n));
        }
    }
}

/// A run meets `assert!(e)` just where `e` is true.
pub proof fn assertions_hold_where_true(
    m: MachineV,
    names: spec_fn(Seq<char>) -> int,
    cx: ContractV,
    s: EmitV,
    span: crate::syntax::Span,
    e: ExprV,
    depth: nat,
)
    requires
        m.modulus > 1,
        pure(e),
        drawn_before(cx, s, e, depth),
        logical(field_env(m, names), e),
        filled(s),
        fits(m, lower(cx, s, e, depth).0),
        agrees(m, lower(cx, s, e, depth).0, names),
        lower(cx, s, e, depth).1 is Some,
    ensures
        ({
            let r = lower(cx, s, ExprV::Assert { span, kind: AssertV::Assert(Box::new(e)) }, depth).0;
            run_of(m, r).holds <==> run_of(m, lower(cx, s, e, depth).0).holds && meaning(field_env(m, names), e) == 1
        }),
{
    broadcast use crate::machine::runs;

    wires_carry_source_values(m, names, cx, s, e, depth);
    let (a, w) = lower(cx, s, e, depth);
    let r = lower(cx, s, ExprV::Assert { span, kind: AssertV::Assert(Box::new(e)) }, depth).0;
    assert(run_of(m, r) == crate::machine::step(m, run_of(m, a), InstructionV::Assert { cond: w->0 }));
}

/// A run meets `assert_eq!(l, r)` just where both sides have one value.
pub proof fn equalities_hold_where_equal(
    m: MachineV,
    names: spec_fn(Seq<char>) -> int,
    cx: ContractV,
    s: EmitV,
    span: crate::syntax::Span,
    l: ExprV,
    r: ExprV,
    depth: nat,
)
    requires
        m.modulus > 1,
        pure(l),
        pure(r),
        drawn_before(cx, s, l, depth),
        drawn_before(cx, lower(cx, s, l, depth).0, r, depth),
        logical(field_env(m, names), l),
        logical(field_env(m, names), r),
        filled(s),
        lower(cx, s, l, depth).1 is Some,
        lower(cx, lower(cx, s, l, depth).0, r, depth).1 is Some,
        fits(m, lower(cx, lower(cx, s, l, depth).0, r, depth).0),
        agrees(m, lower(cx, lower(cx, s, l, depth).0, r, depth).0, names),
    ensures
        ({
            let b = lower(cx, lower(cx, s, l, depth).0, r, depth).0;
            let u = lower(cx, s, ExprV::Assert { span, kind: AssertV::AssertEq(Box::new(l), Box::new(r)) }, depth).0;
            run_of(m, u).holds <==> run_of(m, b).holds && meaning(field_env(m, names), l) == meaning(
                field_env(m, names),
                r,
            )
        }),
{
    broadcast use crate::machine::runs;

    let (a, x) = lower(cx, s, l, depth);
    let (b, y) = lower(cx, a, r, depth);
    lemma_self_before(b, b);
    lemma_lower_before(cx, a, r, depth);
    lemma_kept(m, cx, s, l, depth, b);
    lemma_kept(m, cx, a, r, depth, b);
    lemma_value(m, names, cx, s, l, depth, b);
    lemma_value(m, names, cx, a, r, depth, b);
    let i = InstructionV::ConstrainEq { a: x->0, b: y->0 };
    let u = lower(cx, s, ExprV::Assert { span, kind: AssertV::AssertEq(Box::new(l), Box::new(r)) }, depth).0;
    assert(run_of(m, u) == crate::machine::step(m, run_of(m, b), i));
}

// ---- hashes

/// The arguments of a call are lowered one by one, in order: the result holds
/// the states in between.
pub proof fn arguments_are_lowered_in_order(
    cx: ContractV,
    s: EmitV,
    es: Seq<ExprV>,
    n: nat,
    depth: nat,
) -> (states: Seq<EmitV>)
    requires
        n <= es.len(),
    ensures
        lower_all(cx, s, es, n, depth).1 matches Some(ws) ==> {
            &&& ws.len() == n
            &&& states.len() == n + 1
            &&& states[0] == s
            &&& states[n as int] == lower_all(cx, s, es, n, depth).0
            &&& forall|i: int|
                0 <= i < n ==> lower(cx, #[trigger] states[i], es[i], depth) == (states[i + 1], Some(ws[i]))
        },
    decreases n,
{
    if n == 0 {
        seq![s]
    } else {
        let before = arguments_are_lowered_in_order(cx, s, es, (n - 1) as nat, depth);
        let p = lower_all(cx, s, es, (n - 1) as nat, depth);
        let r = lower_all(cx, s, es, n, depth);
        let states = before.push(r.0);
        if p.1 is Some && r.1 is Some {
            let ws = r.1->0;
            assert forall|i: int| 0 <= i < n implies lower(cx, #[trigger] states[i], es[i], depth) == (
                states[i + 1],
                Some(ws[i]),
            ) by {
                if i < n - 1 {
                    assert(before[i] == states[i] && before[i + 1] == states[i + 1]);
                }
            }
        }
        states
    }
}

/// A hash call computes the hash of its arguments' values, in order.
pub proof fn hash_calls_hash_their_arguments(
    m: MachineV,
    cx: ContractV,
    s: EmitV,
    span: crate::syntax::Span,
    path: crate::syntax::PathV,
    args: Seq<ExprV>,
    depth: nat,
)
    requires
        find_helper(cx.helpers, "transient_hash"@, cx.helpers.len()) is None,
        find_helper(cx.helpers, "persistent_hash"@, cx.helpers.len()) is None,
        !wraps_value(path),
        fits(m, lower(cx, s, ExprV::FnCall { span, name: "transient_hash"@, path, args }, depth).0),
        fits(m, lower(cx, s, ExprV::FnCall { span, name: "persistent_hash"@, path, args }, depth).0),
    ensures
        ({
            let (a, inputs) = lower_all(cx, s, args, args.len(), depth);
            let (t, v) = lower(cx, s, ExprV::FnCall { span, name: "transient_hash"@, path, args }, depth);
            let (p, x) = lower(cx, s, ExprV::FnCall { span, name: "persistent_hash"@, path, args }, depth);
            inputs matches Some(ws) ==> ((forall|i: int| 0 <= i < ws.len() ==> (#[trigger] ws[i]) < a.next_index) ==> {
                &&& v is Some && carried(m, t, v->0) == (m.transient)(
                    Seq::new(ws.len(), |i: int| carried(m, t, ws[i])),
                )
                &&& x is Some && carried(m, p, x->0) == (m.persistent)(
                    seq![AlignmentAtom::Field],
                    Seq::new(ws.len(), |i: int| carried(m, p, ws[i])),
                ).0
            })
        }),
{
    reveal_strlit("transient_hash");
    reveal_strlit("persistent_hash");
    reveal_strlit("merkle_tree_path_root");
    assert("transient_hash"@.len() == 14 && "persistent_hash"@.len() == 15 && "merkle_tree_path_root"@.len() == 21);
    let (a, inputs) = lower_all(cx, s, args, args.len(), depth);
    let t = lower(cx, s, ExprV::FnCall { span, name: "transient_hash"@, path, args }, depth).0;
    let p = lower(cx, s, ExprV::FnCall { span, name: "persistent_hash"@, path, args }, depth).0;
    if inputs is Some {
        let ws = inputs->0;
        let i = InstructionV::TransientHash { inputs: ws };
        let j = InstructionV::PersistentHash { alignment: seq![AlignmentAtom::Field], inputs: ws };
        assert(t == emit(a, i).0);
        assert(p == emit(a, j).0);
        lemma_self_before(t, t);
        lemma_self_before(p, p);
        if forall|i: int| 0 <= i < ws.len() ==> (#[trigger] ws[i]) < a.next_index {
            lemma_cell(m, a, i, t);
            lemma_cell(m, a, j, p);
            lemma_emit_before(a, i);
            lemma_emit_before(a, j);
            assert forall|k: int| 0 <= k < ws.len() implies run_of(m, a).cells[ws[k] as int] == carried(
                m,
                t,
                #[trigger] ws[k],
            ) && run_of(m, a).cells[ws[k] as int] == carried(m, p, ws[k]) by {
                wires_keep_their_values(m, a, t, ws[k]);
                wires_keep_their_values(m, a, p, ws[k]);
            }
            assert(at_all(run_of(m, a).cells, ws) =~= Seq::new(ws.len(), |i: int| carried(m, t, ws[i])));
            assert(at_all(run_of(m, a).cells, ws) =~= Seq::new(ws.len(), |i: int| carried(m, p, ws[i])));
            reveal(emit);
        }
    }
}

} // verus!
