//! The host code of a value computes the value of the source expression.
use crate::code::string_literal;
use crate::expr::{bin_op_text, un_op_text, BinOp, ExprV, LitV, UnOp};
use crate::snippets::{array_code, bare_call, call_code, call_value, clone_of, field_init, index_clone, index_value};
use crate::snippets::{infix_paren, method_code, prefix_paren, struct_code, value_of, witness_call_code};
use crate::snippets::{witness_clone, witness_value};
use crate::text::dec;
use crate::transcript::{cond, is_arithmetic, lit_text, raw, raw_inits, raw_list, val, val_list};
use crate::typing::transparent;
use vstd::prelude::*;

verus! {

// ---- values

/// A value, in whichever type it is held.
pub enum DatumV {
    Int(int),
    Text(Seq<char>),
    List(Seq<DatumV>),
    Record(Seq<(Seq<char>, DatumV)>),
}

/// What the names, functions and methods of host code stand for, and how
/// results of arithmetic are reduced.
pub struct WorldV {
    pub names: spec_fn(Seq<char>) -> DatumV,
    pub paths: spec_fn(Seq<char>) -> DatumV,
    pub fields: spec_fn(Seq<char>) -> DatumV,
    pub draws: spec_fn(Seq<char>, Seq<DatumV>) -> DatumV,
    pub calls: spec_fn(Seq<char>, Seq<DatumV>) -> DatumV,
    pub methods: spec_fn(Seq<char>, DatumV, Seq<DatumV>) -> DatumV,
    pub reduced: spec_fn(int) -> int,
    pub bitwise: spec_fn(BinOp, int, int) -> int,
}

pub open spec fn flag(b: bool) -> DatumV {
    DatumV::Int(
        if b {
            1
        } else {
            0
        },
    )
}

pub open spec fn number(d: DatumV) -> int {
    match d {
        DatumV::Int(n) => n,
        _ => 0,
    }
}

/// The value of `l op r`.
pub open spec fn combined(w: WorldV, op: BinOp, l: DatumV, r: DatumV) -> DatumV {
    let a = number(l);
    let b = number(r);
    match op {
        BinOp::Add => DatumV::Int((w.reduced)(a + b)),
        BinOp::Sub => DatumV::Int((w.reduced)(a - b)),
        BinOp::Mul => DatumV::Int((w.reduced)(a * b)),
        BinOp::Eq => flag(l == r),
        BinOp::Ne => flag(l != r),
        BinOp::Lt => flag(a < b),
        BinOp::Le => flag(a <= b),
        BinOp::Gt => flag(a > b),
        BinOp::Ge => flag(a >= b),
        BinOp::And => flag(a == 1 && b == 1),
        BinOp::Or => flag(a == 1 || b == 1),
        _ => DatumV::Int((w.bitwise)(op, a, b)),
    }
}

/// The value of `op x`.
pub open spec fn inverted(w: WorldV, op: UnOp, x: DatumV) -> DatumV {
    match op {
        UnOp::Neg => DatumV::Int((w.reduced)(-number(x))),
        UnOp::Not => flag(number(x) == 0),
        UnOp::Deref => x,
    }
}

/// The element of a list at a position.
pub open spec fn nth(d: DatumV, k: int) -> DatumV {
    match d {
        DatumV::List(ds) => ds[k],
        _ => d,
    }
}

/// The value of a source expression.
pub open spec fn source(w: WorldV, e: ExprV) -> DatumV
    decreases e, 0nat,
{
    match e {
        ExprV::Literal { value, .. } => match value {
            LitV::Int(n) => DatumV::Int(n as int),
            LitV::Bool(b) => flag(b),
            LitV::Str(s) => DatumV::Text(s),
        },
        ExprV::Disclose { value, .. } => source(w, *value),
        ExprV::Reference { expr, .. } => source(w, *expr),
        ExprV::WitnessAccess { field, .. } => (w.fields)(field),
        ExprV::WitnessCall { name, args, .. } => (w.draws)(name, sources(w, args, args.len())),
        ExprV::Var { name, .. } => (w.names)(name),
        ExprV::Path { path, .. } => (w.paths)(path.text),
        ExprV::MethodCall { receiver, method, args, .. } => if transparent(method) {
            source(w, *receiver)
        } else {
            (w.methods)(method, source(w, *receiver), sources(w, args, args.len()))
        },
        ExprV::Index { array, index, .. } => nth(source(w, *array), index as int),
        ExprV::BinaryOp { op, lhs, rhs, .. } => combined(w, op, source(w, *lhs), source(w, *rhs)),
        ExprV::UnaryOp { op, expr, .. } => inverted(w, op, source(w, *expr)),
        ExprV::Tuple { elements, .. } => DatumV::List(sources(w, elements, elements.len())),
        ExprV::ArrayLit { elements, .. } => DatumV::List(sources(w, elements, elements.len())),
        ExprV::StructInit { fields, .. } => DatumV::Record(field_sources(w, fields, fields.len())),
        ExprV::FnCall { path, args, .. } => (w.calls)(path.text, sources(w, args, args.len())),
        ExprV::If { cond, then_branch, else_branch, .. } => if number(source(w, *cond)) == 1 {
            last_source(w, then_branch)
        } else {
            match else_branch {
                Some(eb) => last_source(w, eb),
                None => DatumV::List(seq![]),
            }
        },
        _ => DatumV::List(seq![]),
    }
}

/// The values of the first `n` of `es`, in order.
pub open spec fn sources(w: WorldV, es: Seq<ExprV>, n: nat) -> Seq<DatumV>
    decreases es, n,
{
    if n == 0 || n > es.len() {
        seq![]
    } else {
        sources(w, es, (n - 1) as nat).push(source(w, es[n - 1]))
    }
}

pub open spec fn field_sources(w: WorldV, fs: Seq<(Seq<char>, ExprV)>, n: nat) -> Seq<(Seq<char>, DatumV)>
    decreases fs, n,
{
    if n == 0 || n > fs.len() {
        seq![]
    } else {
        field_sources(w, fs, (n - 1) as nat).push((fs[n - 1].0, source(w, fs[n - 1].1)))
    }
}

pub open spec fn last_source(w: WorldV, es: Seq<ExprV>) -> DatumV
    decreases es, 0nat,
{
    if es.len() > 0 {
        source(w, es[es.len() - 1])
    } else {
        DatumV::List(seq![])
    }
}

// ---- host expressions

/// An expression of host code.
pub enum HostV {
    Int(u128),
    Bool(bool),
    Text(Seq<char>),
    Name(Seq<char>),
    Path(Seq<char>),
    /// `witnesses . f`
    Field(Seq<char>),
    /// `witnesses . m (..)`
    Draw(Seq<char>, Seq<HostV>),
    /// `x . value ()`: the primitive value of a wrapper.
    Value(Box<HostV>),
    /// `x . clone ()`
    Copy(Box<HostV>),
    /// `x . into ()`: the same value in another type.
    Into(Box<HostV>),
    /// `x . m (..)`
    Method(Box<HostV>, Seq<char>, Seq<HostV>),
    /// `f (..)`
    Call(Seq<char>, Seq<HostV>),
    /// `(x) [k]`
    Nth(Box<HostV>, u32),
    /// `l op r`
    Infix(Box<HostV>, BinOp, Box<HostV>),
    /// `op x`
    Prefix(UnOp, Box<HostV>),
    /// `(x)`
    Group(Box<HostV>),
    Tuple(Seq<HostV>),
    Array(Seq<HostV>),
    /// `S { f : x , .. }`
    Struct(Seq<char>, Seq<(Seq<char>, HostV)>),
    /// `if c { x } else { y }`
    Either(Box<HostV>, Box<HostV>, Box<HostV>),
}

/// How an operator is spelled.
pub open spec fn spelled(op: BinOp) -> Seq<char> {
    match op {
        BinOp::Add => "+"@,
        BinOp::Sub => "-"@,
        BinOp::Mul => "*"@,
        BinOp::BitAnd => "&"@,
        BinOp::BitOr => "|"@,
        BinOp::BitXor => "^"@,
        BinOp::Eq => "=="@,
        BinOp::Ne => "!="@,
        BinOp::Lt => "<"@,
        BinOp::Le => "<="@,
        BinOp::Gt => ">"@,
        BinOp::Ge => ">="@,
        BinOp::And => "&&"@,
        BinOp::Or => "||"@,
        _ => "?"@,
    }
}

/// The code of a host expression.
pub open spec fn code(h: HostV) -> Seq<char>
    decreases h, 0nat,
{
    match h {
        HostV::Int(n) => if n <= u64::MAX {
            dec(n as nat) + "u64"@
        } else {
            dec(n as nat) + "u128"@
        },
        HostV::Bool(b) => if b {
            "true"@
        } else {
            "false"@
        },
        HostV::Text(s) => string_literal(s),
        HostV::Name(n) => n,
        HostV::Path(t) => t,
        HostV::Field(f) => "witnesses . "@ + f,
        HostV::Draw(m, hs) => "witnesses . "@ + m + " ("@ + codes(hs, hs.len()) + ")"@,
        HostV::Value(x) => code(*x) + " . value ()"@,
        HostV::Copy(x) => code(*x) + " . clone ()"@,
        HostV::Into(x) => code(*x) + " . into ()"@,
        HostV::Method(x, m, hs) => code(*x) + " . "@ + m + " ("@ + codes(hs, hs.len()) + ")"@,
        HostV::Call(p, hs) => p + " ("@ + codes(hs, hs.len()) + ")"@,
        HostV::Nth(x, k) => "("@ + code(*x) + ") ["@ + dec(k as nat) + "]"@,
        HostV::Infix(l, op, r) => code(*l) + " "@ + spelled(op) + " "@ + code(*r),
        HostV::Prefix(op, x) => (match op {
            UnOp::Neg => "-"@,
            UnOp::Not => "!"@,
            UnOp::Deref => "*"@,
        }) + " "@ + code(*x),
        HostV::Group(x) => "("@ + code(*x) + ")"@,
        HostV::Tuple(hs) => if hs.len() == 1 {
            "("@ + codes(hs, hs.len()) + " ,)"@
        } else {
            "("@ + codes(hs, hs.len()) + ")"@
        },
        HostV::Array(hs) => "["@ + codes(hs, hs.len()) + "]"@,
        HostV::Struct(s, fs) => if field_codes(fs, fs.len()).len() == 0 {
            s + " { }"@
        } else {
            s + " { "@ + field_codes(fs, fs.len()) + " }"@
        },
        HostV::Either(c, x, y) => "if "@ + code(*c) + " { "@ + code(*x) + " } else { "@ + code(*y) + " }"@,
    }
}

/// The first `n` expressions, between commas.
pub open spec fn codes(hs: Seq<HostV>, n: nat) -> Seq<char>
    decreases hs, n,
{
    if n == 0 || n > hs.len() {
        seq![]
    } else if n == 1 {
        code(hs[0])
    } else {
        codes(hs, (n - 1) as nat) + " , "@ + code(hs[n - 1])
    }
}

pub open spec fn field_codes(fs: Seq<(Seq<char>, HostV)>, n: nat) -> Seq<char>
    decreases fs, n,
{
    if n == 0 || n > fs.len() {
        seq![]
    } else if n == 1 {
        fs[0].0 + " : "@ + code(fs[0].1)
    } else {
        field_codes(fs, (n - 1) as nat) + " , "@ + (fs[n - 1].0 + " : "@ + code(fs[n - 1].1))
    }
}

/// The value of a host expression.
pub open spec fn computes(w: WorldV, h: HostV) -> DatumV
    decreases h, 0nat,
{
    match h {
        HostV::Int(n) => DatumV::Int(n as int),
        HostV::Bool(b) => flag(b),
        HostV::Text(s) => DatumV::Text(s),
        HostV::Name(n) => (w.names)(n),
        HostV::Path(t) => (w.paths)(t),
        HostV::Field(f) => (w.fields)(f),
        HostV::Draw(m, hs) => (w.draws)(m, compute_all(w, hs, hs.len())),
        HostV::Value(x) => computes(w, *x),
        HostV::Copy(x) => computes(w, *x),
        HostV::Into(x) => computes(w, *x),
        HostV::Method(x, m, hs) => (w.methods)(m, computes(w, *x), compute_all(w, hs, hs.len())),
        HostV::Call(p, hs) => (w.calls)(p, compute_all(w, hs, hs.len())),
        HostV::Nth(x, k) => nth(computes(w, *x), k as int),
        HostV::Infix(l, op, r) => combined(w, op, computes(w, *l), computes(w, *r)),
        HostV::Prefix(op, x) => inverted(w, op, computes(w, *x)),
        HostV::Group(x) => computes(w, *x),
        HostV::Tuple(hs) => DatumV::List(compute_all(w, hs, hs.len())),
        HostV::Array(hs) => DatumV::List(compute_all(w, hs, hs.len())),
        HostV::Struct(_, fs) => DatumV::Record(compute_fields(w, fs, fs.len())),
        HostV::Either(c, x, y) => if number(computes(w, *c)) == 1 {
            computes(w, *x)
        } else {
            computes(w, *y)
        },
    }
}

pub open spec fn compute_all(w: WorldV, hs: Seq<HostV>, n: nat) -> Seq<DatumV>
    decreases hs, n,
{
    if n == 0 || n > hs.len() {
        seq![]
    } else {
        compute_all(w, hs, (n - 1) as nat).push(computes(w, hs[n - 1]))
    }
}

pub open spec fn compute_fields(w: WorldV, fs: Seq<(Seq<char>, HostV)>, n: nat) -> Seq<(Seq<char>, DatumV)>
    decreases fs, n,
{
    if n == 0 || n > fs.len() {
        seq![]
    } else {
        compute_fields(w, fs, (n - 1) as nat).push((fs[n - 1].0, computes(w, fs[n - 1].1)))
    }
}

// ---- the host expressions of arguments

/// Whether an expression has a value in argument position. Host code drops the
/// arguments of a method on a primitive value, so there are none.
pub open spec fn valued(e: ExprV, primitive: bool) -> bool
    decreases e, 0nat,
{
    match e {
        ExprV::Literal { .. } => true,
        ExprV::Disclose { value, .. } => valued(*value, primitive),
        ExprV::Reference { expr, .. } => valued(*expr, primitive),
        ExprV::WitnessAccess { .. } => true,
        ExprV::WitnessCall { args, .. } => all_valued(args, args.len(), false),
        ExprV::Var { .. } => true,
        ExprV::Path { .. } => true,
        ExprV::MethodCall { receiver, method, args, .. } => valued(*receiver, primitive) && (transparent(method)
            || all_valued(args, args.len(), false) && (primitive ==> args.len() == 0)),
        ExprV::Index { array, .. } => valued(*array, false),
        ExprV::BinaryOp { op, lhs, rhs, .. } => is_arithmetic(op) && valued(*lhs, true) && valued(*rhs, true),
        ExprV::UnaryOp { op, expr, .. } => op != UnOp::Deref && valued(*expr, true),
        ExprV::Tuple { elements, .. } => all_valued(elements, elements.len(), primitive),
        ExprV::ArrayLit { elements, .. } => all_valued(elements, elements.len(), false),
        ExprV::StructInit { fields, .. } => fields_valued(fields, fields.len()),
        ExprV::FnCall { name, args, .. } => name != "merkle_tree_path_root"@ && all_valued(args, args.len(), false),
        _ => false,
    }
}

pub open spec fn all_valued(es: Seq<ExprV>, n: nat, primitive: bool) -> bool
    decreases es, n,
{
    n == 0 || n > es.len() || (all_valued(es, (n - 1) as nat, primitive) && valued(es[n - 1], primitive))
}

pub open spec fn fields_valued(fs: Seq<(Seq<char>, ExprV)>, n: nat) -> bool
    decreases fs, n,
{
    n == 0 || n > fs.len() || (fields_valued(fs, (n - 1) as nat) && valued(fs[n - 1].1, false))
}

/// The host expression of an argument: as a primitive value, or in its
/// declared type.
pub open spec fn host_of(e: ExprV, primitive: bool) -> HostV
    decreases e, 0nat,
{
    match e {
        ExprV::Literal { value, .. } => match value {
            LitV::Int(n) => HostV::Int(n),
            LitV::Bool(b) => HostV::Bool(b),
            LitV::Str(s) => HostV::Text(s),
        },
        ExprV::Disclose { value, .. } => host_of(*value, primitive),
        ExprV::Reference { expr, .. } => host_of(*expr, primitive),
        ExprV::WitnessAccess { field, .. } => if primitive {
            HostV::Value(Box::new(HostV::Field(field)))
        } else {
            HostV::Copy(Box::new(HostV::Field(field)))
        },
        ExprV::WitnessCall { name, args, .. } => {
            let h = HostV::Draw(name, hosts_of(args, args.len(), false));
            if primitive {
                HostV::Value(Box::new(h))
            } else {
                h
            }
        }
        ExprV::Var { name, .. } => if primitive {
            HostV::Name(name)
        } else {
            HostV::Copy(Box::new(HostV::Name(name)))
        },
        ExprV::Path { path, .. } => HostV::Path(path.text),
        ExprV::MethodCall { receiver, method, args, .. } => if transparent(method) {
            host_of(*receiver, primitive)
        } else {
            HostV::Method(Box::new(host_of(*receiver, primitive)), method, hosts_of(args, args.len(), false))
        },
        ExprV::Index { array, index, .. } => {
            let h = HostV::Nth(Box::new(host_of(*array, false)), index);
            if primitive {
                HostV::Value(Box::new(h))
            } else {
                HostV::Copy(Box::new(h))
            }
        }
        ExprV::BinaryOp { op, lhs, rhs, .. } => HostV::Group(
            Box::new(HostV::Infix(Box::new(host_of(*lhs, true)), op, Box::new(host_of(*rhs, true)))),
        ),
        ExprV::UnaryOp { op, expr, .. } => HostV::Group(
            Box::new(HostV::Prefix(op, Box::new(host_of(*expr, true)))),
        ),
        ExprV::Tuple { elements, .. } => HostV::Tuple(hosts_of(elements, elements.len(), primitive)),
        ExprV::ArrayLit { elements, .. } => HostV::Array(hosts_of(elements, elements.len(), false)),
        ExprV::StructInit { name, fields, .. } => HostV::Struct(name, field_hosts(fields, fields.len())),
        ExprV::FnCall { path, args, .. } => {
            let h = HostV::Call(path.text, hosts_of(args, args.len(), false));
            if primitive {
                HostV::Value(Box::new(h))
            } else {
                h
            }
        }
        _ => HostV::Tuple(seq![]),
    }
}

pub open spec fn hosts_of(es: Seq<ExprV>, n: nat, primitive: bool) -> Seq<HostV>
    decreases es, n,
{
    if n == 0 || n > es.len() {
        seq![]
    } else {
        hosts_of(es, (n - 1) as nat, primitive).push(host_of(es[n - 1], primitive))
    }
}

pub open spec fn field_hosts(fs: Seq<(Seq<char>, ExprV)>, n: nat) -> Seq<(Seq<char>, HostV)>
    decreases fs, n,
{
    if n == 0 || n > fs.len() {
        seq![]
    } else {
        field_hosts(fs, (n - 1) as nat).push((fs[n - 1].0, host_of(fs[n - 1].1, false)))
    }
}

proof fn lemma_prefix_codes(a: Seq<HostV>, b: Seq<HostV>, n: nat)
    requires
        n <= a.len(),
        n <= b.len(),
        forall|i: int| 0 <= i < n ==> a[i] == b[i],
    ensures
        codes(a, n) == codes(b, n),
        forall|w: WorldV| #[trigger] compute_all(w, a, n) == compute_all(w, b, n),
    decreases n,
{
    if n > 0 {
        lemma_prefix_codes(a, b, (n - 1) as nat);
        assert forall|w: WorldV| #[trigger] compute_all(w, a, n) == compute_all(w, b, n) by {
            assert(compute_all(w, a, (n - 1) as nat) == compute_all(w, b, (n - 1) as nat));
        }
    }
}

proof fn lemma_prefix_fields(a: Seq<(Seq<char>, HostV)>, b: Seq<(Seq<char>, HostV)>, n: nat)
    requires
        n <= a.len(),
        n <= b.len(),
        forall|i: int| 0 <= i < n ==> a[i] == b[i],
    ensures
        field_codes(a, n) == field_codes(b, n),
        forall|w: WorldV| #[trigger] compute_fields(w, a, n) == compute_fields(w, b, n),
    decreases n,
{
    if n > 0 {
        lemma_prefix_fields(a, b, (n - 1) as nat);
        assert forall|w: WorldV| #[trigger] compute_fields(w, a, n) == compute_fields(w, b, n) by {
            assert(compute_fields(w, a, (n - 1) as nat) == compute_fields(w, b, (n - 1) as nat));
        }
    }
}

// ---- the values computed

proof fn lemma_values(w: WorldV, e: ExprV, primitive: bool)
    requires
        valued(e, primitive),
    ensures
        computes(w, host_of(e, primitive)) == source(w, e),
    decreases e, 0nat,
{
    reveal_with_fuel(computes, 3);
    match e {
        ExprV::Disclose { value, .. } => lemma_values(w, *value, primitive),
        ExprV::Reference { expr, .. } => lemma_values(w, *expr, primitive),
        ExprV::WitnessCall { args, .. } => lemma_all_values(w, args, args.len(), false),
        ExprV::MethodCall { receiver, method, args, .. } => {
            lemma_values(w, *receiver, primitive);
            if !transparent(method) {
                lemma_all_values(w, args, args.len(), false);
            }
        }
        ExprV::Index { array, .. } => lemma_values(w, *array, false),
        ExprV::BinaryOp { lhs, rhs, .. } => {
            lemma_values(w, *lhs, true);
            lemma_values(w, *rhs, true);
        }
        ExprV::UnaryOp { expr, .. } => lemma_values(w, *expr, true),
        ExprV::Tuple { elements, .. } => lemma_all_values(w, elements, elements.len(), primitive),
        ExprV::ArrayLit { elements, .. } => lemma_all_values(w, elements, elements.len(), false),
        ExprV::StructInit { fields, .. } => lemma_field_values(w, fields, fields.len()),
        ExprV::FnCall { args, .. } => lemma_all_values(w, args, args.len(), false),
        _ => {}
    }
}

pub(crate) proof fn lemma_all_values(w: WorldV, es: Seq<ExprV>, n: nat, primitive: bool)
    requires
        n <= es.len(),
        all_valued(es, n, primitive),
    ensures
        hosts_of(es, n, primitive).len() == n,
        compute_all(w, hosts_of(es, n, primitive), n) == sources(w, es, n),
    decreases es, n,
{
    if n > 0 {
        let fewer = hosts_of(es, (n - 1) as nat, primitive);
        lemma_all_values(w, es, (n - 1) as nat, primitive);
        lemma_values(w, es[n - 1], primitive);
        lemma_prefix_codes(fewer, hosts_of(es, n, primitive), (n - 1) as nat);
        assert(compute_all(w, fewer, (n - 1) as nat) == compute_all(w, hosts_of(es, n, primitive), (n - 1) as nat));
    }
}

proof fn lemma_field_values(w: WorldV, fs: Seq<(Seq<char>, ExprV)>, n: nat)
    requires
        n <= fs.len(),
        fields_valued(fs, n),
    ensures
        field_hosts(fs, n).len() == n,
        compute_fields(w, field_hosts(fs, n), n) == field_sources(w, fs, n),
    decreases fs, n,
{
    if n > 0 {
        let fewer = field_hosts(fs, (n - 1) as nat);
        lemma_field_values(w, fs, (n - 1) as nat);
        lemma_values(w, fs[n - 1].1, false);
        lemma_prefix_fields(fewer, field_hosts(fs, n), (n - 1) as nat);
        assert(compute_fields(w, fewer, (n - 1) as nat) == compute_fields(w, field_hosts(fs, n), (n - 1) as nat));
    }
}

// ---- the text of host code

pub(crate) proof fn lemma_literals()
    ensures
        " ()"@ == " ("@ + ")"@,
        "] . value ()"@ == "]"@ + " . value ()"@,
        "] . clone ()"@ == "]"@ + " . clone ()"@,
        ") . value ()"@ == ")"@ + " . value ()"@,
        " { }"@ == " "@ + "{ }"@,
        " { "@ == " "@ + "{ "@,
        ") . "@ == ")"@ + " . "@,
{
    reveal_strlit(" ()");
    reveal_strlit(" (");
    reveal_strlit(")");
    reveal_strlit("]");
    reveal_strlit(" . value ()");
    reveal_strlit(" . clone ()");
    reveal_strlit("] . value ()");
    reveal_strlit("] . clone ()");
    reveal_strlit(") . value ()");
    reveal_strlit(" { }");
    reveal_strlit("{ }");
    reveal_strlit(" ");
    reveal_strlit(" { ");
    reveal_strlit("{ ");
    reveal_strlit(") . ");
    reveal_strlit(" . ");
    assert(" ()"@ =~= " ("@ + ")"@);
    assert("] . value ()"@ =~= "]"@ + " . value ()"@);
    assert("] . clone ()"@ =~= "]"@ + " . clone ()"@);
    assert(") . value ()"@ =~= ")"@ + " . value ()"@);
    assert(" { }"@ =~= " "@ + "{ }"@);
    assert(" { "@ =~= " "@ + "{ "@);
    assert(") . "@ =~= ")"@ + " . "@);
}

/// The text of an argument as host code holds it.
pub open spec fn argument_text(e: ExprV, primitive: bool) -> Seq<char> {
    if primitive {
        val(e)
    } else {
        raw(e)
    }
}

pub open spec fn list_text(es: Seq<ExprV>, n: nat, primitive: bool) -> Seq<char> {
    if primitive {
        val_list(es, n)
    } else {
        raw_list(es, n)
    }
}

proof fn lemma_infix_text(e: ExprV, primitive: bool)
    requires
        valued(e, primitive),
        e is BinaryOp,
        code(host_of(*e->BinaryOp_lhs, true)) == val(*e->BinaryOp_lhs),
        code(host_of(*e->BinaryOp_rhs, true)) == val(*e->BinaryOp_rhs),
    ensures
        code(host_of(e, primitive)) == argument_text(e, primitive),
{
    reveal(infix_paren);
    reveal_with_fuel(code, 3);
    let l = val(*e->BinaryOp_lhs);
    let r = val(*e->BinaryOp_rhs);
    let op = e->BinaryOp_op;
    assert(spelled(op) == bin_op_text(op));
    assert("("@ + (l + " "@ + spelled(op) + " "@ + r) + ")"@ =~= infix_paren(l, bin_op_text(op), r));
    assert(raw(e) == val(e));
}

proof fn lemma_prefix_text(e: ExprV, primitive: bool)
    requires
        valued(e, primitive),
        e is UnaryOp,
        code(host_of(*e->UnaryOp_expr, true)) == val(*e->UnaryOp_expr),
    ensures
        code(host_of(e, primitive)) == argument_text(e, primitive),
{
    reveal(prefix_paren);
    reveal_with_fuel(code, 3);
    let x = val(*e->UnaryOp_expr);
    let o = un_op_text(e->UnaryOp_op);
    assert("("@ + (o + " "@ + x) + ")"@ =~= prefix_paren(o, x));
    assert(raw(e) == val(e));
}

proof fn lemma_call_text(e: ExprV, primitive: bool)
    requires
        valued(e, primitive),
        e is FnCall || e is WitnessCall,
        e is FnCall ==> hosts_of(e->FnCall_args, e->FnCall_args.len(), false).len() == e->FnCall_args.len() && codes(
            hosts_of(e->FnCall_args, e->FnCall_args.len(), false),
            e->FnCall_args.len(),
        ) == raw_list(e->FnCall_args, e->FnCall_args.len()),
        e is WitnessCall ==> hosts_of(e->WitnessCall_args, e->WitnessCall_args.len(), false).len()
            == e->WitnessCall_args.len() && codes(
            hosts_of(e->WitnessCall_args, e->WitnessCall_args.len(), false),
            e->WitnessCall_args.len(),
        ) == raw_list(e->WitnessCall_args, e->WitnessCall_args.len()),
    ensures
        code(host_of(e, primitive)) == argument_text(e, primitive),
{
    lemma_literals();
    reveal(call_code);
    reveal(call_value);
    reveal(witness_call_code);
    reveal(value_of);
    reveal_with_fuel(code, 3);
    match e {
        ExprV::FnCall { path, args, .. } => {
            let list = raw_list(args, args.len());
            assert(path.text + " ("@ + list + ")"@ + " . value ()"@ =~= call_value(path.text, list));
        }
        _ => {}
    }
}

proof fn lemma_method_text(e: ExprV, primitive: bool)
    requires
        valued(e, primitive),
        e is MethodCall,
        code(host_of(*e->MethodCall_receiver, primitive)) == argument_text(*e->MethodCall_receiver, primitive),
        !transparent(e->MethodCall_method) ==> hosts_of(e->MethodCall_args, e->MethodCall_args.len(), false).len()
            == e->MethodCall_args.len() && codes(
            hosts_of(e->MethodCall_args, e->MethodCall_args.len(), false),
            e->MethodCall_args.len(),
        ) == raw_list(e->MethodCall_args, e->MethodCall_args.len()),
    ensures
        code(host_of(e, primitive)) == argument_text(e, primitive),
{
    lemma_literals();
    reveal(bare_call);
    reveal(method_code);
    reveal_with_fuel(code, 2);
    match e {
        ExprV::MethodCall { receiver, method, args, .. } => {
            if !transparent(method) && primitive {
                let r = val(*receiver);
                assert(codes(hosts_of(args, args.len(), false), args.len()) =~= seq![]);
                assert(r + " . "@ + method + " ("@ + seq![] + ")"@ =~= bare_call(r, method));
            }
        }
        _ => {}
    }
}

proof fn lemma_element_text(e: ExprV, primitive: bool)
    requires
        e is Index,
        code(host_of(*e->Index_array, false)) == raw(*e->Index_array),
    ensures
        code(host_of(e, primitive)) == argument_text(e, primitive),
{
    lemma_literals();
    reveal(index_value);
    reveal(index_clone);
    reveal_with_fuel(code, 3);
    match e {
        ExprV::Index { array, index, .. } => {
            let a = raw(*array);
            let k = dec(index as nat);
            assert("("@ + a + ") ["@ + k + "]"@ + " . value ()"@ =~= index_value(a, k));
            assert("("@ + a + ") ["@ + k + "]"@ + " . clone ()"@ =~= index_clone(a, k));
        }
        _ => {}
    }
}

proof fn lemma_struct_text(e: ExprV, primitive: bool)
    requires
        e is StructInit,
        field_hosts(e->StructInit_fields, e->StructInit_fields.len()).len() == e->StructInit_fields.len(),
        field_codes(
            field_hosts(e->StructInit_fields, e->StructInit_fields.len()),
            e->StructInit_fields.len(),
        ) == raw_inits(e->StructInit_fields, e->StructInit_fields.len()),
    ensures
        code(host_of(e, primitive)) == argument_text(e, primitive),
{
    lemma_literals();
    reveal(struct_code);
    reveal_with_fuel(code, 2);
    match e {
        ExprV::StructInit { name, fields, .. } => {
            let list = raw_inits(fields, fields.len());
            assert(name + " { }"@ =~= struct_code(name, "{ }"@));
            assert(name + " { "@ + list + " }"@ =~= struct_code(name, "{ "@ + list + " }"@));
        }
        _ => {}
    }
}

proof fn lemma_text(e: ExprV, primitive: bool)
    requires
        valued(e, primitive),
    ensures
        code(host_of(e, primitive)) == argument_text(e, primitive),
    decreases e, 0nat,
{
    reveal(witness_value);
    reveal(witness_clone);
    reveal(clone_of);
    match e {
        ExprV::Literal { value, .. } => {
            assert(raw(e) == val(e));
            assert(val(e) == lit_text(value));
        }
        ExprV::Disclose { value, .. } => lemma_text(*value, primitive),
        ExprV::Reference { expr, .. } => lemma_text(*expr, primitive),
        ExprV::WitnessAccess { .. } => {
            reveal_with_fuel(code, 2);
        }
        ExprV::WitnessCall { args, .. } => {
            lemma_list_text(args, args.len(), false);
            lemma_call_text(e, primitive);
        }
        ExprV::Var { .. } => {
            reveal_with_fuel(code, 2);
        }
        ExprV::Path { .. } => {}
        ExprV::MethodCall { receiver, method, args, .. } => {
            lemma_text(*receiver, primitive);
            if !transparent(method) {
                lemma_list_text(args, args.len(), false);
            }
            lemma_method_text(e, primitive);
        }
        ExprV::Index { array, .. } => {
            lemma_text(*array, false);
            lemma_element_text(e, primitive);
        }
        ExprV::BinaryOp { lhs, rhs, .. } => {
            lemma_text(*lhs, true);
            lemma_text(*rhs, true);
            lemma_infix_text(e, primitive);
        }
        ExprV::UnaryOp { expr, .. } => {
            lemma_text(*expr, true);
            lemma_prefix_text(e, primitive);
        }
        ExprV::Tuple { elements, .. } => {
            lemma_list_text(elements, elements.len(), primitive);
        }
        ExprV::ArrayLit { elements, .. } => {
            reveal(array_code);
            lemma_list_text(elements, elements.len(), false);
        }
        ExprV::StructInit { fields, .. } => {
            lemma_inits_text(fields, fields.len());
            lemma_struct_text(e, primitive);
        }
        ExprV::FnCall { args, .. } => {
            lemma_list_text(args, args.len(), false);
            lemma_call_text(e, primitive);
        }
        _ => {}
    }
}

pub(crate) proof fn lemma_list_text(es: Seq<ExprV>, n: nat, primitive: bool)
    requires
        n <= es.len(),
        all_valued(es, n, primitive),
    ensures
        hosts_of(es, n, primitive).len() == n,
        codes(hosts_of(es, n, primitive), n) == list_text(es, n, primitive),
    decreases es, n,
{
    if n > 0 {
        let fewer = hosts_of(es, (n - 1) as nat, primitive);
        let all = hosts_of(es, n, primitive);
        lemma_list_text(es, (n - 1) as nat, primitive);
        lemma_text(es[n - 1], primitive);
        lemma_prefix_codes(fewer, all, (n - 1) as nat);
        assert(all[n - 1] == host_of(es[n - 1], primitive));
    }
}

proof fn lemma_inits_text(fs: Seq<(Seq<char>, ExprV)>, n: nat)
    requires
        n <= fs.len(),
        fields_valued(fs, n),
    ensures
        field_hosts(fs, n).len() == n,
        field_codes(field_hosts(fs, n), n) == raw_inits(fs, n),
    decreases fs, n,
{
    reveal(field_init);
    if n > 0 {
        let fewer = field_hosts(fs, (n - 1) as nat);
        let all = field_hosts(fs, n);
        lemma_inits_text(fs, (n - 1) as nat);
        lemma_text(fs[n - 1].1, false);
        lemma_prefix_fields(fewer, all, (n - 1) as nat);
        assert(all[n - 1] == (fs[n - 1].0, host_of(fs[n - 1].1, false)));
    }
}

/// The code of an argument computes the argument's value: it is the text of a
/// host expression whose value, whatever names and functions stand for, is that
/// of the source. This holds of the primitive value and of the value in its
/// declared type.
pub proof fn argument_code_computes_its_value(w: WorldV, e: ExprV)
    ensures
        valued(e, true) ==> code(host_of(e, true)) == val(e) && computes(w, host_of(e, true)) == source(w, e),
        valued(e, false) ==> code(host_of(e, false)) == raw(e) && computes(w, host_of(e, false)) == source(w, e),
{
    if valued(e, true) {
        lemma_text(e, true);
        lemma_values(w, e, true);
    }
    if valued(e, false) {
        lemma_text(e, false);
        lemma_values(w, e, false);
    }
}

} // verus!
