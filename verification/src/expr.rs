//! Expression IR for circuit, constructor and query bodies.
use crate::syntax::{Lit, Path, PathV, Span};
use vstd::prelude::*;

verus! {

/// Binary operators.
#[derive(Clone, Copy, PartialEq, Eq, Structural, Debug)]
pub enum BinOp {
    Add,
    Sub,
    Mul,
    Div,
    Rem,
    And,
    Or,
    BitXor,
    BitAnd,
    BitOr,
    Shl,
    Shr,
    Eq,
    Lt,
    Le,
    Ne,
    Ge,
    Gt,
    AddAssign,
    SubAssign,
    MulAssign,
    DivAssign,
    RemAssign,
    BitXorAssign,
    BitAndAssign,
    BitOrAssign,
    ShlAssign,
    ShrAssign,
}

/// Unary operators.
#[derive(Clone, Copy, PartialEq, Eq, Structural, Debug)]
pub enum UnOp {
    Deref,
    Not,
    Neg,
}

/// The token of a binary operator.
pub open spec fn bin_op_text(op: BinOp) -> Seq<char> {
    match op {
        BinOp::Add => "+"@,
        BinOp::Sub => "-"@,
        BinOp::Mul => "*"@,
        BinOp::Div => "/"@,
        BinOp::Rem => "%"@,
        BinOp::And => "&&"@,
        BinOp::Or => "||"@,
        BinOp::BitXor => "^"@,
        BinOp::BitAnd => "&"@,
        BinOp::BitOr => "|"@,
        BinOp::Shl => "<<"@,
        BinOp::Shr => ">>"@,
        BinOp::Eq => "=="@,
        BinOp::Lt => "<"@,
        BinOp::Le => "<="@,
        BinOp::Ne => "!="@,
        BinOp::Ge => ">="@,
        BinOp::Gt => ">"@,
        BinOp::AddAssign => "+="@,
        BinOp::SubAssign => "-="@,
        BinOp::MulAssign => "*="@,
        BinOp::DivAssign => "/="@,
        BinOp::RemAssign => "%="@,
        BinOp::BitXorAssign => "^="@,
        BinOp::BitAndAssign => "&="@,
        BinOp::BitOrAssign => "|="@,
        BinOp::ShlAssign => "<<="@,
        BinOp::ShrAssign => ">>="@,
    }
}

/// The token of a unary operator.
pub open spec fn un_op_text(op: UnOp) -> Seq<char> {
    match op {
        UnOp::Deref => "*"@,
        UnOp::Not => "!"@,
        UnOp::Neg => "-"@,
    }
}

impl BinOp {
    /// The operator's token.
    pub fn text(self) -> (r: &'static str)
        ensures
            r@ == bin_op_text(self),
    {
        match self {
            BinOp::Add => "+",
            BinOp::Sub => "-",
            BinOp::Mul => "*",
            BinOp::Div => "/",
            BinOp::Rem => "%",
            BinOp::And => "&&",
            BinOp::Or => "||",
            BinOp::BitXor => "^",
            BinOp::BitAnd => "&",
            BinOp::BitOr => "|",
            BinOp::Shl => "<<",
            BinOp::Shr => ">>",
            BinOp::Eq => "==",
            BinOp::Lt => "<",
            BinOp::Le => "<=",
            BinOp::Ne => "!=",
            BinOp::Ge => ">=",
            BinOp::Gt => ">",
            BinOp::AddAssign => "+=",
            BinOp::SubAssign => "-=",
            BinOp::MulAssign => "*=",
            BinOp::DivAssign => "/=",
            BinOp::RemAssign => "%=",
            BinOp::BitXorAssign => "^=",
            BinOp::BitAndAssign => "&=",
            BinOp::BitOrAssign => "|=",
            BinOp::ShlAssign => "<<=",
            BinOp::ShrAssign => ">>=",
        }
    }
}

impl UnOp {
    /// The operator's token.
    pub fn text(self) -> (r: &'static str)
        ensures
            r@ == un_op_text(self),
    {
        match self {
            UnOp::Deref => "*",
            UnOp::Not => "!",
            UnOp::Neg => "-",
        }
    }
}

/// Literal values in the IR.
#[derive(Debug)]
pub enum LiteralIR {
    Int(u128),
    Bool(bool),
    Str(String),
}

pub enum LitV {
    Int(u128),
    Bool(bool),
    Str(Seq<char>),
}

pub open spec fn lit_view(l: LiteralIR) -> LitV {
    match l {
        LiteralIR::Int(n) => LitV::Int(n),
        LiteralIR::Bool(b) => LitV::Bool(b),
        LiteralIR::Str(s) => LitV::Str(s@),
    }
}

impl View for LiteralIR {
    type V = LitV;

    open spec fn view(&self) -> LitV {
        lit_view(*self)
    }
}

/// The value of an integer literal token such as `42`, `0xff` or `5u64`,
/// when it is an integer literal that fits `u128`.
pub uninterp spec fn int_literal_value(text: Seq<char>) -> Option<u128>;

/// `syn::parse_str` to a `syn::LitInt` and its `base10_parse::<u128>`. What
/// comes back, a value or none, depends on the text alone; which text has which
/// value is left to `syn`.
#[verifier::external_body]
pub(crate) fn int_literal(text: &str) -> (r: Option<u128>)
    ensures
        r == int_literal_value(text@),
{
    let literal = syn::parse_str::<syn::LitInt>(text).ok()?;
    literal.base10_parse::<u128>().ok()
}

/// `v` as a `u64`, when it fits.
pub open spec fn narrow_u64(v: Option<u128>) -> Option<u64> {
    match v {
        Some(n) => if n <= u64::MAX {
            Some(n as u64)
        } else {
            None
        },
        None => None,
    }
}

/// `v` as a `u32`, when it fits.
pub open spec fn narrow_u32(v: Option<u128>) -> Option<u32> {
    match v {
        Some(n) => if n <= u32::MAX {
            Some(n as u32)
        } else {
            None
        },
        None => None,
    }
}

/// `v` as a `u8`, when it fits.
pub open spec fn narrow_u8(v: Option<u128>) -> Option<u8> {
    match v {
        Some(n) => if n <= u8::MAX {
            Some(n as u8)
        } else {
            None
        },
        None => None,
    }
}

/// Narrows a literal value to `u64`.
pub fn fit_u64(v: Option<u128>) -> (r: Option<u64>)
    ensures
        r == narrow_u64(v),
{
    match v {
        Some(n) => if n <= u64::MAX as u128 {
            Some(n as u64)
        } else {
            None
        },
        None => None,
    }
}

/// Narrows a literal value to `u32`.
pub fn fit_u32(v: Option<u128>) -> (r: Option<u32>)
    ensures
        r == narrow_u32(v),
{
    match v {
        Some(n) => if n <= u32::MAX as u128 {
            Some(n as u32)
        } else {
            None
        },
        None => None,
    }
}

/// Narrows a literal value to `u8`.
pub fn fit_u8(v: Option<u128>) -> (r: Option<u8>)
    ensures
        r == narrow_u8(v),
{
    match v {
        Some(n) => if n <= u8::MAX as u128 {
            Some(n as u8)
        } else {
            None
        },
        None => None,
    }
}

/// The IR value of a literal token, given the value of its integer text.
pub open spec fn literal_of(lit: Lit) -> Option<LitV> {
    match lit {
        Lit::Int(text) => match int_literal_value(text@) {
            Some(n) => Some(LitV::Int(n)),
            None => None,
        },
        Lit::Bool(b) => Some(LitV::Bool(b)),
        Lit::Str(s) => Some(LitV::Str(s@)),
        Lit::Other => None,
    }
}

pub open spec fn lit_opt(o: Option<LiteralIR>) -> Option<LitV> {
    match o {
        Some(l) => Some(lit_view(l)),
        None => None,
    }
}

impl LiteralIR {
    /// The IR value of a literal token; `None` for literals that have none.
    pub fn from_lit(lit: &Lit) -> (r: Option<Self>)
        ensures
            lit_opt(r) == literal_of(*lit),
    {
        match lit {
            Lit::Int(text) => match int_literal(text.as_str()) {
                Some(n) => Some(LiteralIR::Int(n)),
                None => None,
            },
            Lit::Bool(b) => Some(LiteralIR::Bool(*b)),
            Lit::Str(s) => Some(LiteralIR::Str(s.clone())),
            Lit::Other => None,
        }
    }
}

/// Classification of assert expressions.
#[derive(Debug)]
pub enum AssertKind {
    /// `assert!(cond)`
    Assert(Box<ExprIR>),
    /// `assert_eq!(a, b)`
    AssertEq(Box<ExprIR>, Box<ExprIR>),
}

pub enum AssertV {
    Assert(Box<ExprV>),
    AssertEq(Box<ExprV>, Box<ExprV>),
}

/// Expression IR. Every node carries the position it came from.
#[derive(Debug)]
#[allow(inconsistent_fields)]
pub enum ExprIR {
    /// Access a ledger field's method: `self.field.method(args)`.
    LedgerAccess { span: Span, field: String, method: String, args: Vec<ExprIR> },
    /// Read a witness field: `witnesses.field`.
    WitnessAccess { span: Span, field: String },
    /// A parametric witness call: `witnesses.name(args)`. Every evaluation
    /// draws a fresh witness value.
    WitnessCall { span: Span, name: String, args: Vec<ExprIR> },
    /// Binary operation: `a + b`, `a == b`, ...
    BinaryOp { span: Span, op: BinOp, lhs: Box<ExprIR>, rhs: Box<ExprIR> },
    /// Unary operation: `-a`, `!a`.
    UnaryOp { span: Span, op: UnOp, expr: Box<ExprIR> },
    /// Function call. `name` is the last segment of the callee path, `path`
    /// the whole of it.
    FnCall { span: Span, name: String, path: Path, args: Vec<ExprIR> },
    /// Method call on a value other than `self`.
    MethodCall { span: Span, receiver: Box<ExprIR>, method: String, args: Vec<ExprIR> },
    /// Let binding: `let x = expr`.
    Let { span: Span, name: String, value: Box<ExprIR> },
    /// `if cond { then } else { otherwise }`.
    If { span: Span, cond: Box<ExprIR>, then_branch: Vec<ExprIR>, else_branch: Option<Vec<ExprIR>> },
    /// `assert!(cond)` or `assert_eq!(a, b)`.
    Assert { span: Span, kind: AssertKind },
    /// `disclose(value)`.
    Disclose { span: Span, value: Box<ExprIR> },
    /// A literal value.
    Literal { span: Span, value: LiteralIR },
    /// A local variable reference.
    Var { span: Span, name: String },
    /// A multi-segment path such as `Status::Open`.
    Path { span: Span, path: Path },
    /// The payload of an enum value whose variants all carry one type.
    EnumPayload { span: Span, scrutinee: Box<ExprIR>, enum_name: String },
    /// `array[index]` with a constant index.
    Index { span: Span, array: Box<ExprIR>, index: u32 },
    /// An array literal `[a, b]`.
    ArrayLit { span: Span, elements: Vec<ExprIR> },
    /// A block of statements.
    Block { span: Span, stmts: Vec<ExprIR> },
    /// Struct construction: `Name { field: value, ... }`.
    StructInit { span: Span, name: String, fields: Vec<(String, ExprIR)> },
    /// A return expression.
    Return { span: Span, value: Option<Box<ExprIR>> },
    /// Tuple expression: `(a, b)`.
    Tuple { span: Span, elements: Vec<ExprIR> },
    /// A reference: `&expr`.
    Reference { span: Span, expr: Box<ExprIR> },
    /// Source with no meaning in a circuit, kept for error reporting.
    Unsupported { span: Span, description: String },
}

/// What an expression says, free of representation.
#[allow(inconsistent_fields)]
pub enum ExprV {
    LedgerAccess { span: Span, field: Seq<char>, method: Seq<char>, args: Seq<ExprV> },
    WitnessAccess { span: Span, field: Seq<char> },
    WitnessCall { span: Span, name: Seq<char>, args: Seq<ExprV> },
    BinaryOp { span: Span, op: BinOp, lhs: Box<ExprV>, rhs: Box<ExprV> },
    UnaryOp { span: Span, op: UnOp, expr: Box<ExprV> },
    FnCall { span: Span, name: Seq<char>, path: PathV, args: Seq<ExprV> },
    MethodCall { span: Span, receiver: Box<ExprV>, method: Seq<char>, args: Seq<ExprV> },
    Let { span: Span, name: Seq<char>, value: Box<ExprV> },
    If { span: Span, cond: Box<ExprV>, then_branch: Seq<ExprV>, else_branch: Option<Seq<ExprV>> },
    Assert { span: Span, kind: AssertV },
    Disclose { span: Span, value: Box<ExprV> },
    Literal { span: Span, value: LitV },
    Var { span: Span, name: Seq<char> },
    Path { span: Span, path: PathV },
    EnumPayload { span: Span, scrutinee: Box<ExprV>, enum_name: Seq<char> },
    Index { span: Span, array: Box<ExprV>, index: u32 },
    ArrayLit { span: Span, elements: Seq<ExprV> },
    Block { span: Span, stmts: Seq<ExprV> },
    StructInit { span: Span, name: Seq<char>, fields: Seq<(Seq<char>, ExprV)> },
    Return { span: Span, value: Option<Box<ExprV>> },
    Tuple { span: Span, elements: Seq<ExprV> },
    Reference { span: Span, expr: Box<ExprV> },
    Unsupported { span: Span, description: Seq<char> },
}

pub open spec fn assert_view(k: AssertKind) -> AssertV
    decreases k,
{
    match k {
        AssertKind::Assert(e) => AssertV::Assert(Box::new(expr_view(*e))),
        AssertKind::AssertEq(a, b) => AssertV::AssertEq(Box::new(expr_view(*a)), Box::new(expr_view(*b))),
    }
}

pub open spec fn expr_view(e: ExprIR) -> ExprV
    decreases e,
{
    match e {
        ExprIR::LedgerAccess { span, field, method, args } => ExprV::LedgerAccess {
            span,
            field: field@,
            method: method@,
            args: exprs_view(args@),
        },
        ExprIR::WitnessAccess { span, field } => ExprV::WitnessAccess {
            span,
            field: field@,
        },
        ExprIR::WitnessCall { span, name, args } => ExprV::WitnessCall {
            span,
            name: name@,
            args: exprs_view(args@),
        },
        ExprIR::BinaryOp { span, op, lhs, rhs } => ExprV::BinaryOp {
            span,
            op,
            lhs: Box::new(expr_view(*lhs)),
            rhs: Box::new(expr_view(*rhs)),
        },
        ExprIR::UnaryOp { span, op, expr } => ExprV::UnaryOp {
            span,
            op,
            expr: Box::new(expr_view(*expr)),
        },
        ExprIR::FnCall { span, name, path, args } => ExprV::FnCall {
            span,
            name: name@,
            path: path@,
            args: exprs_view(args@),
        },
        ExprIR::MethodCall { span, receiver, method, args } => ExprV::MethodCall {
            span,
            receiver: Box::new(expr_view(*receiver)),
            method: method@,
            args: exprs_view(args@),
        },
        ExprIR::Let { span, name, value } => ExprV::Let {
            span,
            name: name@,
            value: Box::new(expr_view(*value)),
        },
        ExprIR::If { span, cond, then_branch, else_branch } => ExprV::If {
            span,
            cond: Box::new(expr_view(*cond)),
            then_branch: exprs_view(then_branch@),
            else_branch: match else_branch {
                Some(b) => Some(exprs_view(b@)),
                None => None,
            },
        },
        ExprIR::Assert { span, kind } => ExprV::Assert {
            span,
            kind: assert_view(kind),
        },
        ExprIR::Disclose { span, value } => ExprV::Disclose {
            span,
            value: Box::new(expr_view(*value)),
        },
        ExprIR::Literal { span, value } => ExprV::Literal {
            span,
            value: lit_view(value),
        },
        ExprIR::Var { span, name } => ExprV::Var {
            span,
            name: name@,
        },
        ExprIR::Path { span, path } => ExprV::Path {
            span,
            path: path@,
        },
        ExprIR::EnumPayload { span, scrutinee, enum_name } => ExprV::EnumPayload {
            span,
            scrutinee: Box::new(expr_view(*scrutinee)),
            enum_name: enum_name@,
        },
        ExprIR::Index { span, array, index } => ExprV::Index {
            span,
            array: Box::new(expr_view(*array)),
            index,
        },
        ExprIR::ArrayLit { span, elements } => ExprV::ArrayLit {
            span,
            elements: exprs_view(elements@),
        },
        ExprIR::Block { span, stmts } => ExprV::Block {
            span,
            stmts: exprs_view(stmts@),
        },
        ExprIR::StructInit { span, name, fields } => ExprV::StructInit {
            span,
            name: name@,
            fields: fields_view(fields@),
        },
        ExprIR::Return { span, value } => ExprV::Return {
            span,
            value: match value {
                Some(b) => Some(Box::new(expr_view(*b))),
                None => None,
            },
        },
        ExprIR::Tuple { span, elements } => ExprV::Tuple {
            span,
            elements: exprs_view(elements@),
        },
        ExprIR::Reference { span, expr } => ExprV::Reference {
            span,
            expr: Box::new(expr_view(*expr)),
        },
        ExprIR::Unsupported { span, description } => ExprV::Unsupported {
            span,
            description: description@,
        },
    }
}

pub open spec fn exprs_view(s: Seq<ExprIR>) -> Seq<ExprV>
    decreases s,
{
    Seq::new(s.len(), |i: int| if 0 <= i < s.len() { expr_view(s[i]) } else { arbitrary() })
}

pub open spec fn fields_view(s: Seq<(String, ExprIR)>) -> Seq<(Seq<char>, ExprV)>
    decreases s,
{
    Seq::new(s.len(), |i: int| if 0 <= i < s.len() { (s[i].0@, expr_view(s[i].1)) } else { arbitrary() })
}

/// Appending an expression appends its view.
pub broadcast proof fn lemma_exprs_view_push(s: Seq<ExprIR>, e: ExprIR)
    ensures
        #[trigger] exprs_view(s.push(e)) == exprs_view(s).push(expr_view(e)),
{
    assert(exprs_view(s.push(e)) =~= exprs_view(s).push(expr_view(e)));
}

impl View for ExprIR {
    type V = ExprV;

    open spec fn view(&self) -> ExprV {
        expr_view(*self)
    }
}

impl DeepView for ExprIR {
    type V = ExprV;

    open spec fn deep_view(&self) -> ExprV {
        expr_view(*self)
    }
}

fn copy_lit(l: &LiteralIR) -> (r: LiteralIR)
    ensures
        lit_view(r) == lit_view(*l),
{
    match l {
        LiteralIR::Int(n) => LiteralIR::Int(*n),
        LiteralIR::Bool(b) => LiteralIR::Bool(*b),
        LiteralIR::Str(s) => LiteralIR::Str(s.clone()),
    }
}

fn copy_assert(k: &AssertKind) -> (r: AssertKind)
    ensures
        assert_view(r) == assert_view(*k),
    decreases k,
{
    match k {
        AssertKind::Assert(e) => AssertKind::Assert(Box::new(copy_expr(e))),
        AssertKind::AssertEq(a, b) => AssertKind::AssertEq(Box::new(copy_expr(a)), Box::new(copy_expr(b))),
    }
}

fn copy_expr(e: &ExprIR) -> (r: ExprIR)
    ensures
        expr_view(r) == expr_view(*e),
    decreases e,
{
    match e {
        ExprIR::LedgerAccess { span, field, method, args } => ExprIR::LedgerAccess {
            span: *span,
            field: field.clone(),
            method: method.clone(),
            args: copy_exprs(args),
        },
        ExprIR::WitnessAccess { span, field } => ExprIR::WitnessAccess {
            span: *span,
            field: field.clone(),
        },
        ExprIR::WitnessCall { span, name, args } => ExprIR::WitnessCall {
            span: *span,
            name: name.clone(),
            args: copy_exprs(args),
        },
        ExprIR::BinaryOp { span, op, lhs, rhs } => ExprIR::BinaryOp {
            span: *span,
            op: *op,
            lhs: Box::new(copy_expr(lhs)),
            rhs: Box::new(copy_expr(rhs)),
        },
        ExprIR::UnaryOp { span, op, expr } => ExprIR::UnaryOp {
            span: *span,
            op: *op,
            expr: Box::new(copy_expr(expr)),
        },
        ExprIR::FnCall { span, name, path, args } => ExprIR::FnCall {
            span: *span,
            name: name.clone(),
            path: path.clone(),
            args: copy_exprs(args),
        },
        ExprIR::MethodCall { span, receiver, method, args } => ExprIR::MethodCall {
            span: *span,
            receiver: Box::new(copy_expr(receiver)),
            method: method.clone(),
            args: copy_exprs(args),
        },
        ExprIR::Let { span, name, value } => ExprIR::Let {
            span: *span,
            name: name.clone(),
            value: Box::new(copy_expr(value)),
        },
        ExprIR::If { span, cond, then_branch, else_branch } => ExprIR::If {
            span: *span,
            cond: Box::new(copy_expr(cond)),
            then_branch: copy_exprs(then_branch),
            else_branch: match else_branch {
                Some(b) => Some(copy_exprs(b)),
                None => None,
            },
        },
        ExprIR::Assert { span, kind } => ExprIR::Assert {
            span: *span,
            kind: copy_assert(kind),
        },
        ExprIR::Disclose { span, value } => ExprIR::Disclose {
            span: *span,
            value: Box::new(copy_expr(value)),
        },
        ExprIR::Literal { span, value } => ExprIR::Literal {
            span: *span,
            value: copy_lit(value),
        },
        ExprIR::Var { span, name } => ExprIR::Var {
            span: *span,
            name: name.clone(),
        },
        ExprIR::Path { span, path } => ExprIR::Path {
            span: *span,
            path: path.clone(),
        },
        ExprIR::EnumPayload { span, scrutinee, enum_name } => ExprIR::EnumPayload {
            span: *span,
            scrutinee: Box::new(copy_expr(scrutinee)),
            enum_name: enum_name.clone(),
        },
        ExprIR::Index { span, array, index } => ExprIR::Index {
            span: *span,
            array: Box::new(copy_expr(array)),
            index: *index,
        },
        ExprIR::ArrayLit { span, elements } => ExprIR::ArrayLit {
            span: *span,
            elements: copy_exprs(elements),
        },
        ExprIR::Block { span, stmts } => ExprIR::Block {
            span: *span,
            stmts: copy_exprs(stmts),
        },
        ExprIR::StructInit { span, name, fields } => ExprIR::StructInit {
            span: *span,
            name: name.clone(),
            fields: copy_fields(fields),
        },
        ExprIR::Return { span, value } => ExprIR::Return {
            span: *span,
            value: match value {
                Some(b) => Some(Box::new(copy_expr(b))),
                None => None,
            },
        },
        ExprIR::Tuple { span, elements } => ExprIR::Tuple {
            span: *span,
            elements: copy_exprs(elements),
        },
        ExprIR::Reference { span, expr } => ExprIR::Reference {
            span: *span,
            expr: Box::new(copy_expr(expr)),
        },
        ExprIR::Unsupported { span, description } => ExprIR::Unsupported {
            span: *span,
            description: description.clone(),
        },
    }
}

/// A copy of an expression list.
pub(crate) fn copy_exprs(v: &Vec<ExprIR>) -> (r: Vec<ExprIR>)
    ensures
        exprs_view(r@) == exprs_view(v@),
    decreases v,
{
    let mut out: Vec<ExprIR> = Vec::new();
    let mut i: usize = 0;
    while i < v.len()
        invariant
            i <= v@.len(),
            out@.len() == i,
            forall|j: int| 0 <= j < i ==> expr_view(#[trigger] out@[j]) == expr_view(v@[j]),
        decreases v@.len() - i,
    {
        out.push(copy_expr(&v[i]));
        i += 1;
    }
    assert(exprs_view(out@) =~= exprs_view(v@));
    out
}

fn copy_fields(v: &Vec<(String, ExprIR)>) -> (r: Vec<(String, ExprIR)>)
    ensures
        fields_view(r@) == fields_view(v@),
    decreases v,
{
    let mut out: Vec<(String, ExprIR)> = Vec::new();
    let mut i: usize = 0;
    while i < v.len()
        invariant
            i <= v@.len(),
            out@.len() == i,
            forall|j: int| 0 <= j < i ==> (#[trigger] out@[j]).0@ == v@[j].0@ && expr_view(out@[j].1) == expr_view(v@[j].1),
        decreases v@.len() - i,
    {
        out.push((v[i].0.clone(), copy_expr(&v[i].1)));
        i += 1;
    }
    assert(fields_view(out@) =~= fields_view(v@));
    out
}

impl Clone for ExprIR {
    fn clone(&self) -> (r: ExprIR)
        ensures
            r@ == self@,
    {
        copy_expr(self)
    }
}

} // verus!
