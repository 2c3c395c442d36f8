//! What contract source means: expressions, statements and patterns to
//! expression IR.
use crate::containers::{args_of, type_args};
use crate::contract::{lookup, EnumVariantV, LedgerKindV, LedgerV, ParamV, WitnessFieldV, WitnessMethodV, WitnessV};
use crate::error::{ErrorCode, ErrorV};
use crate::expr::{int_literal_value, literal_of, narrow_u32, narrow_u64, AssertV, BinOp, ExprV, LitV, UnOp};
use crate::syntax::{spec_call_site, ty_view, Arm, Block, Expr, ExprKind, FieldValue, Ident, Lit, MacroCall, Member};
use crate::syntax::{Pat, PatKind, Path, Piece, Span, Stmt, TyKindV, TyV};
use crate::text::{dec, no_spaces, without_suffix};
use crate::typing::{angle_u32, literal_width};
use vstd::prelude::*;

verus! {

/// The declarations that bodies are read against.
pub struct DeclV {
    pub ledger: Option<LedgerV>,
    pub witnesses: Option<WitnessV>,
    pub enums: Seq<(Seq<char>, Seq<EnumVariantV>)>,
}

/// What is in scope at a point of a function body.
#[verifier::ext_equal]
pub struct ScopeV {
    /// The parameter that holds the witnesses.
    pub witnesses_param: Option<Seq<char>>,
    pub params: Seq<ParamV>,
    /// Names bound again since the parameters were.
    pub shadowed: Set<Seq<char>>,
    /// Loop variables and their values, outermost first.
    pub unrolled: Seq<(Seq<char>, u64)>,
}

/// The result of reading, and the number of the next synthetic scrutinee name.
pub type Read = (Result<ExprV, ErrorV>, u32);

pub type ReadAll = (Result<Seq<ExprV>, ErrorV>, u32);

pub open spec fn unsupported_error(span: Span, message: Seq<char>) -> ErrorV {
    ErrorV { span, code: ErrorCode::UnsupportedExpression, message }
}

pub open spec fn no_meaning(span: Span, description: Seq<char>) -> ExprV {
    ExprV::Unsupported { span, description }
}

/// `name` bound again.
pub open spec fn shadow(sc: ScopeV, name: Seq<char>) -> ScopeV {
    ScopeV { shadowed: sc.shadowed.insert(name), ..sc }
}

/// A loop variable with its value.
pub open spec fn unroll(sc: ScopeV, name: Seq<char>, value: u64) -> ScopeV {
    ScopeV { unrolled: sc.unrolled.push((name, value)), ..sc }
}

/// The scope of a macro's arguments, which unrolling does not reach.
pub open spec fn macro_scope(sc: ScopeV) -> ScopeV {
    ScopeV { unrolled: seq![], ..sc }
}

/// The value of a loop variable: that of the outermost loop that binds it.
pub open spec fn loop_value(s: Seq<(Seq<char>, u64)>, name: Seq<char>) -> Option<u64>
    decreases s.len(),
{
    if s.len() == 0 {
        None
    } else {
        match loop_value(s.drop_last(), name) {
            Some(v) => Some(v),
            None => if s.last().0 == name {
                Some(s.last().1)
            } else {
                None
            },
        }
    }
}

/// The single name that a path is.
pub open spec fn path_name(p: Path) -> Option<Seq<char>> {
    if p.is_ident && p.segments@.len() > 0 {
        Some(p.segments@[0].name@)
    } else {
        None
    }
}

/// The name that an expression is, when no loop replaced it.
pub open spec fn plain_name(sc: ScopeV, e: Expr) -> Option<Seq<char>> {
    match e.kind {
        ExprKind::Path(p) => match path_name(p) {
            Some(name) => if loop_value(sc.unrolled, name) is Some {
                None
            } else {
                Some(name)
            },
            None => None,
        },
        _ => None,
    }
}

/// The loop value that an expression is.
pub open spec fn replaced(sc: ScopeV, e: Expr) -> Option<u64> {
    match e.kind {
        ExprKind::Path(p) => match path_name(p) {
            Some(name) => loop_value(sc.unrolled, name),
            None => None,
        },
        _ => None,
    }
}

pub open spec fn is_self(sc: ScopeV, e: Expr) -> bool {
    plain_name(sc, e) == Some("self"@)
}

pub open spec fn is_witnesses(sc: ScopeV, e: Expr) -> bool {
    sc.witnesses_param is Some && plain_name(sc, e) == sc.witnesses_param
}

/// The position of an expression; a replaced loop variable has none of its own.
pub open spec fn span_of(sc: ScopeV, e: Expr) -> Span {
    if replaced(sc, e) is Some {
        spec_call_site()
    } else {
        e.span
    }
}

/// The integer literal that an expression is.
pub open spec fn int_of(sc: ScopeV, e: Expr) -> Option<u128> {
    match replaced(sc, e) {
        Some(v) => Some(v as u128),
        None => match e.kind {
            ExprKind::Lit(Lit::Int(text)) => int_literal_value(text@),
            _ => None,
        },
    }
}

/// An expression's token text with loop variables replaced.
pub open spec fn rendered(sc: ScopeV, pieces: Seq<Piece>) -> Seq<char>
    decreases pieces.len(),
{
    if pieces.len() == 0 {
        seq![]
    } else {
        rendered(sc, pieces.drop_last()) + match pieces.last() {
            Piece::Fixed(s) => s@,
            Piece::Name(s) => match loop_value(sc.unrolled, s@) {
                Some(v) => dec(v as nat) + "u64"@,
                None => s@,
            },
        }
    }
}

pub open spec fn member_name(m: Member) -> Seq<char> {
    match m {
        Member::Named(i) => i.name@,
        Member::Unnamed { index, .. } => "_"@ + dec(index as nat),
    }
}

pub open spec fn member_span(m: Member) -> Span {
    match m {
        Member::Named(i) => i.span,
        Member::Unnamed { span, .. } => span,
    }
}

/// `field` of `self.field`.
pub open spec fn self_field(sc: ScopeV, e: Expr) -> Option<Ident> {
    match e.kind {
        ExprKind::Field { base, member } => match member {
            Member::Named(i) => if is_self(sc, *base) {
                Some(i)
            } else {
                None
            },
            _ => None,
        },
        _ => None,
    }
}

pub open spec fn is_compound(op: BinOp) -> bool {
    match op {
        BinOp::AddAssign => true,
        BinOp::SubAssign => true,
        BinOp::MulAssign => true,
        BinOp::DivAssign => true,
        BinOp::RemAssign => true,
        BinOp::BitXorAssign => true,
        BinOp::BitAndAssign => true,
        BinOp::BitOrAssign => true,
        BinOp::ShlAssign => true,
        BinOp::ShrAssign => true,
        _ => false,
    }
}

pub open spec fn last_name(p: Path) -> Option<Ident> {
    if p.segments@.len() > 0 {
        Some(p.segments@[p.segments@.len() - 1])
    } else {
        None
    }
}

/// `v` of the pattern `Some(v)`.
pub open spec fn some_binding(p: Pat) -> Option<Ident> {
    match p.kind {
        PatKind::TupleStruct { path, elems } => match last_name(path) {
            Some(last) => if last.name@ == "Some"@ && elems@.len() == 1 {
                match elems@[0].kind {
                    PatKind::Ident { ident, .. } => Some(ident),
                    _ => None,
                }
            } else {
                None
            },
            None => None,
        },
        _ => None,
    }
}

/// Whether a pattern is `None` or `_`.
pub open spec fn is_none_pattern(p: Pat) -> bool {
    match p.kind {
        PatKind::Path(path) => match last_name(path) {
            Some(last) => last.name@ == "None"@,
            None => false,
        },
        PatKind::Ident { ident, .. } => ident.name@ == "None"@,
        PatKind::Wild => true,
        _ => false,
    }
}

/// The field and key of `self.field.get(key)`.
pub open spec fn get_call(sc: ScopeV, e: Expr) -> Option<(Ident, Expr)> {
    match e.kind {
        ExprKind::MethodCall { receiver, method, args } => if method.name@ == "get"@ && args@.len() == 1 {
            match self_field(sc, *receiver) {
                Some(field) => Some((field, args@[0])),
                None => None,
            }
        } else {
            None
        },
        _ => None,
    }
}

/// The binding, field and key of `let Some(v) = self.field.get(key)`.
pub open spec fn let_get(sc: ScopeV, e: Expr) -> Option<(Ident, Ident, Expr)> {
    match e.kind {
        ExprKind::Let { pat, expr } => match some_binding(pat) {
            Some(v) => match get_call(sc, *expr) {
                Some((field, key)) => Some((v, field, key)),
                None => None,
            },
            None => None,
        },
        _ => None,
    }
}

/// How the two arms of a match on `self.field.get(key)` bind: the binding, and
/// which arm is the `Some` one.
pub open spec fn get_arms(arms: Seq<Arm>) -> Option<(Ident, bool)> {
    if arms.len() != 2 || arms[0].has_guard || arms[1].has_guard {
        None
    } else if some_binding(arms[0].pat) is Some && is_none_pattern(arms[1].pat) {
        Some((some_binding(arms[0].pat)->0, true))
    } else if is_none_pattern(arms[0].pat) && some_binding(arms[1].pat) is Some {
        Some((some_binding(arms[1].pat)->0, false))
    } else {
        None
    }
}

pub proof fn lemma_get_key_smaller(sc: ScopeV, e: Expr)
    ensures
        get_call(sc, e) matches Some((_, key)) ==> decreases_to!(e => key),
        let_get(sc, e) matches Some((_, _, key)) ==> decreases_to!(e => key),
{
    if get_call(sc, e) is Some {
        assert(decreases_to!(e => e.kind));
        let args = e.kind->MethodCall_args;
        assert(decreases_to!(e.kind => args));
        assert(decreases_to!(args => args@));
        assert(decreases_to!(args@ => args@[0]));
    }
    if let_get(sc, e) is Some {
        let inner = e.kind->Let_expr;
        assert(decreases_to!(e => e.kind));
        assert(decreases_to!(e.kind => inner));
        assert(decreases_to!(*inner => (*inner).kind));
        let args = (*inner).kind->MethodCall_args;
        assert(decreases_to!((*inner).kind => args));
        assert(decreases_to!(args => args@));
        assert(decreases_to!(args@ => args@[0]));
    }
}

// ---- widths

/// A type behind any number of references.
pub open spec fn unreferenced(t: TyV) -> TyV
    decreases t,
{
    match t.kind {
        TyKindV::Reference(inner) => {
            proof {
                assert(decreases_to!(t => t.kind));
                assert(decreases_to!(t.kind => inner));
            }
            unreferenced(*inner)
        }
        _ => t,
    }
}

/// The bit width of a type that is an unsigned integer on the wire.
pub open spec fn type_width(t: TyV) -> Option<u32> {
    let s = no_spaces(unreferenced(t).text);
    if s == "bool"@ || s == "Boolean"@ {
        Some(1)
    } else if s == "u8"@ {
        Some(8)
    } else if s == "u16"@ {
        Some(16)
    } else if s == "u32"@ {
        Some(32)
    } else if s == "u64"@ {
        Some(64)
    } else if s == "u128"@ {
        Some(128)
    } else {
        match angle_u32(s, "Uint<"@) {
            Some(n) => n,
            None => None,
        }
    }
}

/// The first type argument of `Cell<..>`.
pub open spec fn cell_type(t: TyV) -> Option<TyV> {
    match args_of(t, "Cell"@) {
        Some(a) => if type_args(a).len() >= 1 {
            Some(type_args(a)[0])
        } else {
            None
        },
        None => None,
    }
}

pub open spec fn first_field(fs: Seq<WitnessFieldV>, name: Seq<char>, n: nat) -> Option<TyV>
    decreases n,
{
    if n == 0 || n > fs.len() {
        None
    } else {
        match first_field(fs, name, (n - 1) as nat) {
            Some(t) => Some(t),
            None => if fs[n - 1].name == name {
                Some(fs[n - 1].ty)
            } else {
                None
            },
        }
    }
}

pub open spec fn first_method(ms: Seq<WitnessMethodV>, name: Seq<char>, n: nat) -> Option<TyV>
    decreases n,
{
    if n == 0 || n > ms.len() {
        None
    } else {
        match first_method(ms, name, (n - 1) as nat) {
            Some(t) => Some(t),
            None => if ms[n - 1].name == name {
                Some(ms[n - 1].return_type)
            } else {
                None
            },
        }
    }
}

/// The type of the last of the leading `n` parameters with the name.
pub open spec fn param_type(ps: Seq<ParamV>, name: Seq<char>, n: nat) -> Option<TyV>
    decreases n,
{
    if n == 0 || n > ps.len() {
        None
    } else if ps[n - 1].name == name {
        Some(ps[n - 1].ty)
    } else {
        param_type(ps, name, (n - 1) as nat)
    }
}

pub open spec fn opt_width(t: Option<TyV>) -> Option<u32> {
    match t {
        Some(t) => type_width(t),
        None => None,
    }
}

/// The width of a value read from a ledger field.
pub open spec fn ledger_width(l: LedgerV, field: Seq<char>) -> Option<u32> {
    match crate::emission::ledger_position(l.fields, field, l.fields.len()) {
        Some(i) => match l.fields[i].type_kind {
            LedgerKindV::Counter => Some(64),
            LedgerKindV::Cell => opt_width(cell_type(l.fields[i].ty)),
            _ => None,
        },
        None => None,
    }
}

/// The bit width of an expression, where declared types tell it. A parameter
/// whose name was bound again tells nothing.
pub open spec fn width_of(cx: DeclV, sc: ScopeV, e: ExprV) -> Option<u32>
    decreases e,
{
    match e {
        ExprV::Literal { value, .. } => match value {
            LitV::Int(n) => Some(literal_width(n)),
            LitV::Bool(_) => Some(1),
            LitV::Str(_) => None,
        },
        ExprV::WitnessAccess { field, .. } => match cx.witnesses {
            Some(w) => opt_width(first_field(w.fields, field, w.fields.len())),
            None => None,
        },
        ExprV::WitnessCall { name, .. } => match cx.witnesses {
            Some(w) => opt_width(first_method(w.methods, name, w.methods.len())),
            None => None,
        },
        ExprV::Var { name, .. } => if sc.shadowed.contains(name) {
            None
        } else {
            opt_width(param_type(sc.params, name, sc.params.len()))
        },
        ExprV::MethodCall { receiver, method, args, .. } => if args.len() == 0 && (method == "value"@ || method
            == "clone"@ || method == "into"@) {
            width_of(cx, sc, *receiver)
        } else {
            None
        },
        ExprV::LedgerAccess { field, method, .. } => if method == "value"@ || method == "get"@ || method
            == "__direct_access"@ {
            match cx.ledger {
                Some(l) => ledger_width(l, field),
                None => None,
            }
        } else {
            None
        },
        ExprV::Reference { expr, .. } => width_of(cx, sc, *expr),
        ExprV::Disclose { value, .. } => width_of(cx, sc, *value),
        _ => None,
    }
}

/// A cast is transparent when it cannot narrow; anything else is refused.
#[verifier::opaque]
pub open spec fn cast(cx: DeclV, sc: ScopeV, r: Result<ExprV, ErrorV>, ty: TyV, span: Span) -> Result<ExprV, ErrorV> {
    let target = no_spaces(ty.text);
    match r {
        Err(x) => Err(x),
        Ok(inner) => match (width_of(cx, sc, inner), type_width(ty)) {
            (Some(s), Some(t)) => if s <= t {
                Ok(inner)
            } else {
                Err(
                    unsupported_error(
                        span,
                        "narrowing `as` cast: the source is "@ + dec(s as nat) + " bits wide but `"@ + target
                            + "` is only "@ + dec(t as nat)
                            + " bits. Nocturne casts are transparent on the wire, so the circuit would not perform the truncation the Rust code performs"@,
                    ),
                )
            },
            (None, Some(t)) => if t >= 128 {
                Ok(inner)
            } else {
                Err(
                    unsupported_error(
                        span,
                        "cannot prove this `as "@ + target
                            + "` cast is non-narrowing: the source expression's bit width is not inferable. Bind the value with a typed source (witness field, typed param, literal) or cast to u128"@,
                    ),
                )
            },
            (_, None) => Err(
                unsupported_error(
                    span,
                    "unsupported `as` cast target `"@ + target
                        + "`; only u8, u16, u32, u64, and u128 are supported"@,
                ),
            ),
        },
    }
}

// ---- every node of an expression

/// Every node of an expression, parents before children, left to right.
pub open spec fn nodes(e: ExprV) -> Seq<ExprV>
    decreases e, 0nat,
{
    seq![e] + match e {
        ExprV::BinaryOp { lhs, rhs, .. } => nodes(*lhs) + nodes(*rhs),
        ExprV::UnaryOp { expr, .. } => nodes(*expr),
        ExprV::Reference { expr, .. } => nodes(*expr),
        ExprV::FnCall { args, .. } => nodes_of(args, args.len()),
        ExprV::LedgerAccess { args, .. } => nodes_of(args, args.len()),
        ExprV::WitnessCall { args, .. } => nodes_of(args, args.len()),
        ExprV::MethodCall { receiver, args, .. } => nodes(*receiver) + nodes_of(args, args.len()),
        ExprV::Let { value, .. } => nodes(*value),
        ExprV::Disclose { value, .. } => nodes(*value),
        ExprV::If { cond, then_branch, else_branch, .. } => nodes(*cond) + nodes_of(then_branch, then_branch.len())
            + match else_branch {
            Some(b) => nodes_of(b, b.len()),
            None => seq![],
        },
        ExprV::Assert { kind, .. } => match kind {
            AssertV::Assert(a) => nodes(*a),
            AssertV::AssertEq(a, b) => nodes(*a) + nodes(*b),
        },
        ExprV::EnumPayload { scrutinee, .. } => nodes(*scrutinee),
        ExprV::Block { stmts, .. } => nodes_of(stmts, stmts.len()),
        ExprV::StructInit { fields, .. } => nodes_of_fields(fields, fields.len()),
        ExprV::Return { value, .. } => match value {
            Some(v) => nodes(*v),
            None => seq![],
        },
        ExprV::Tuple { elements, .. } => nodes_of(elements, elements.len()),
        ExprV::ArrayLit { elements, .. } => nodes_of(elements, elements.len()),
        ExprV::Index { array, .. } => nodes(*array),
        _ => seq![],
    }
}

pub open spec fn nodes_of(es: Seq<ExprV>, n: nat) -> Seq<ExprV>
    decreases es, n,
{
    if n == 0 || n > es.len() {
        seq![]
    } else {
        nodes_of(es, (n - 1) as nat) + nodes(es[n - 1])
    }
}

pub open spec fn nodes_of_fields(fs: Seq<(Seq<char>, ExprV)>, n: nat) -> Seq<ExprV>
    decreases fs, n,
{
    if n == 0 || n > fs.len() {
        seq![]
    } else {
        nodes_of_fields(fs, (n - 1) as nat) + nodes(fs[n - 1].1)
    }
}

/// Whether an expression draws a witness value by a call.
pub open spec fn draws_witness(e: ExprV) -> bool {
    exists|i: int| 0 <= i < nodes(e).len() && (#[trigger] nodes(e)[i]) is WitnessCall
}

// ---- match arms

/// What an arm of an enum match matches.
pub enum Shape {
    Variant { path: Path, payload: Option<Ident> },
    Wild,
}

/// Whether a path can name a variant: qualified, or `Some` or `None`.
pub open spec fn names_variant(p: Path) -> bool {
    p.segments@.len() >= 2 || (p.segments@.len() == 1 && (p.segments@[0].name@ == "Some"@ || p.segments@[0].name@
        == "None"@))
}

/// The path that an arm's pattern matches a variant by.
pub open spec fn variant_path(p: Pat) -> Option<Path> {
    match p.kind {
        PatKind::Path(path) => if names_variant(path) {
            Some(path)
        } else {
            None
        },
        PatKind::TupleStruct { path, elems } => if names_variant(path) && elems@.len() == 1 {
            Some(path)
        } else {
            None
        },
        _ => None,
    }
}

/// The enum that a qualified arm names.
pub open spec fn arm_enum(a: Arm) -> Option<Seq<char>> {
    match variant_path(a.pat) {
        Some(p) => if p.segments@.len() >= 2 {
            Some(p.segments@[p.segments@.len() - 2].name@)
        } else {
            None
        },
        None => None,
    }
}

pub open spec fn has_variant(vs: Seq<EnumVariantV>, name: Seq<char>) -> bool {
    exists|i: int| 0 <= i < vs.len() && (#[trigger] vs[i]).name == name
}

/// The first enum, among those that the leading `n` arms name, with a variant
/// of the given name.
pub open spec fn named_enum_with(cx: DeclV, arms: Seq<Arm>, name: Seq<char>, n: nat) -> Option<Seq<char>>
    decreases n,
{
    if n == 0 || n > arms.len() {
        None
    } else {
        match named_enum_with(cx, arms, name, (n - 1) as nat) {
            Some(e) => Some(e),
            None => match arm_enum(arms[n - 1]) {
                Some(e) => match lookup(cx.enums, e) {
                    Some(vs) => if has_variant(vs, name) {
                        Some(e)
                    } else {
                        None
                    },
                    None => None,
                },
                None => None,
            },
        }
    }
}

/// The shapes of match arms: none when a pattern is no enum pattern, an error
/// when a bare name hides a variant.
pub enum Shapes {
    NotEnum,
    Refused(ErrorV),
    All(Seq<Shape>),
}

pub open spec fn shapes(cx: DeclV, arms: Seq<Arm>, n: nat) -> Shapes
    decreases n,
{
    if n == 0 || n > arms.len() {
        Shapes::All(seq![])
    } else {
        match shapes(cx, arms, (n - 1) as nat) {
            Shapes::All(before) => match arm_shape(cx, arms, arms[n - 1]) {
                ArmShape::NotEnum => Shapes::NotEnum,
                ArmShape::Refused(e) => Shapes::Refused(e),
                ArmShape::Is(s) => Shapes::All(before.push(s)),
            },
            other => other,
        }
    }
}

pub enum ArmShape {
    NotEnum,
    Refused(ErrorV),
    Is(Shape),
}

pub open spec fn arm_shape(cx: DeclV, arms: Seq<Arm>, arm: Arm) -> ArmShape {
    if arm.has_guard {
        ArmShape::NotEnum
    } else {
        match arm.pat.kind {
            PatKind::Path(path) => if names_variant(path) {
                ArmShape::Is(Shape::Variant { path, payload: None })
            } else {
                ArmShape::NotEnum
            },
            PatKind::TupleStruct { path, elems } => if names_variant(path) && elems@.len() == 1 {
                match elems@[0].kind {
                    PatKind::Wild => ArmShape::Is(Shape::Variant { path, payload: None }),
                    PatKind::Ident { ident, by_ref, subpat } => if subpat || by_ref {
                        ArmShape::NotEnum
                    } else {
                        ArmShape::Is(Shape::Variant { path, payload: Some(ident) })
                    },
                    _ => ArmShape::NotEnum,
                }
            } else {
                ArmShape::NotEnum
            },
            PatKind::Wild => ArmShape::Is(Shape::Wild),
            PatKind::Ident { ident, subpat, .. } => if subpat {
                ArmShape::NotEnum
            } else {
                let name = ident.name@;
                let hidden = if name == "Some"@ || name == "None"@ {
                    None
                } else {
                    named_enum_with(cx, arms, name, arms.len())
                };
                match hidden {
                    Some(e) => ArmShape::Refused(
                        ErrorV {
                            span: ident.span,
                            code: ErrorCode::UnsupportedExpression,
                            message: "match arm pattern `"@ + name
                                + "` is a bare identifier and would lower to a catch-all, but `"@ + e + "::"@ + name
                                + "` is an enum variant; qualify it as `"@ + e + "::"@ + name + "`"@,
                        },
                    ),
                    None => ArmShape::Is(Shape::Wild),
                }
            },
            _ => ArmShape::NotEnum,
        }
    }
}

/// The first catch-all among the leading `n` shapes.
pub open spec fn first_wild(ss: Seq<Shape>, n: nat) -> Option<int>
    decreases n,
{
    if n == 0 || n > ss.len() {
        None
    } else {
        match first_wild(ss, (n - 1) as nat) {
            Some(i) => Some(i),
            None => if ss[n - 1] is Wild {
                Some(n - 1)
            } else {
                None
            },
        }
    }
}

pub open spec fn any_variant(ss: Seq<Shape>) -> bool {
    exists|i: int| 0 <= i < ss.len() && (#[trigger] ss[i]) is Variant
}

pub open spec fn scrutinee_name(n: u32) -> Seq<char> {
    "__nocturne_scrutinee_"@ + dec(n as nat)
}

/// The enum that a variant path belongs to; `Option` for `Some` and `None`.
pub open spec fn path_enum(p: Path) -> Seq<char> {
    if p.segments@.len() >= 2 {
        p.segments@[p.segments@.len() - 2].name@
    } else {
        "Option"@
    }
}

/// One link of an enum match's chain of conditions.
#[verifier::opaque]
pub open spec fn variant_link(
    match_span: Span,
    path: Path,
    payload: Option<Ident>,
    scrutinee: ExprV,
    body: Seq<ExprV>,
    otherwise: Option<Seq<ExprV>>,
) -> ExprV {
    let binding = match payload {
        Some(b) => seq![
            ExprV::Let {
                span: b.span,
                name: b.name@,
                value: Box::new(
                    ExprV::EnumPayload { span: b.span, scrutinee: Box::new(scrutinee), enum_name: path_enum(path) },
                ),
            },
        ],
        None => seq![],
    };
    ExprV::If {
        span: match_span,
        cond: Box::new(
            ExprV::BinaryOp {
                span: path.span,
                op: BinOp::Eq,
                lhs: Box::new(scrutinee),
                rhs: Box::new(ExprV::Path { span: path.span, path: path@ }),
            },
        ),
        then_branch: binding + body,
        else_branch: otherwise,
    }
}

/// The `contains` and `lookup` that a `get` of a map stands for.
pub open spec fn get_access(span: Span, field: Ident, method: Seq<char>, key: ExprV) -> ExprV {
    ExprV::LedgerAccess { span, field: field.name@, method, args: seq![key] }
}

/// An `if` over the presence of a map key, binding its value.
#[verifier::opaque]
pub open spec fn get_if(
    span: Span,
    access_span: Span,
    v: Ident,
    field: Ident,
    key: ExprV,
    then_body: Seq<ExprV>,
    else_branch: Option<Seq<ExprV>>,
) -> ExprV {
    ExprV::If {
        span,
        cond: Box::new(get_access(access_span, field, "contains"@, key)),
        then_branch: seq![
            ExprV::Let {
                span: v.span,
                name: v.name@,
                value: Box::new(get_access(access_span, field, "lookup"@, key)),
            },
        ] + then_body,
        else_branch,
    }
}

// ---- loops

/// The values a `for` loop over literal bounds takes: first and last, or why
/// it takes none.
pub enum Bounds {
    /// A loop with no meaning in a circuit.
    Shapeless(Span, Seq<char>),
    Refused(ErrorV),
    Empty,
    /// The loop variable, and its first and last value.
    Values(Seq<char>, u64, u64),
}

/// The most iterations a loop may unroll to.
pub const MAX_UNROLL: u64 = 1024;

#[verifier::opaque]
pub open spec fn bounds(sc: ScopeV, for_span: Span, pat: Pat, e: Expr) -> Bounds {
    match pat.kind {
        PatKind::Ident { ident, .. } => match e.kind {
            ExprKind::Range { start, end, closed } => match (start, end) {
                (None, _) => Bounds::Shapeless(e.span, "for-loop range must have an explicit lower bound"@),
                (Some(_), None) => Bounds::Shapeless(e.span, "for-loop range must have an explicit upper bound"@),
                (Some(a), Some(b)) => match (narrow_u64(int_of(sc, *a)), narrow_u64(int_of(sc, *b))) {
                    (None, _) => Bounds::Refused(
                        ErrorV {
                            span: span_of(sc, *a),
                            code: ErrorCode::UnsupportedExpression,
                            message: "for-loop lower bound must be an integer literal"@,
                        },
                    ),
                    (Some(_), None) => Bounds::Refused(
                        ErrorV {
                            span: span_of(sc, *b),
                            code: ErrorCode::UnsupportedExpression,
                            message: "for-loop upper bound must be an integer literal"@,
                        },
                    ),
                    (Some(first), Some(stop)) => if (closed && stop < first) || (!closed && stop <= first) {
                        Bounds::Empty
                    } else {
                        let last: int = if closed { stop as int } else { stop - 1 };
                        let count: int = if last - first + 1 > u64::MAX { u64::MAX as int } else { last - first + 1 };
                        if count > MAX_UNROLL {
                            Bounds::Refused(
                                ErrorV {
                                    span: for_span,
                                    code: ErrorCode::UnsupportedLoop,
                                    message: "for-loop unrolls to "@ + dec(count as nat)
                                        + " iterations, exceeding the 1024-iteration cap; restructure the circuit to do less work per proof"@,
                                },
                            )
                        } else {
                            Bounds::Values(ident.name@, first, last as u64)
                        }
                    },
                },
            },
            _ => Bounds::Shapeless(span_of(sc, e), "for-loop iterator must be a literal `<lit>..<lit>` range"@),
        },
        _ => Bounds::Shapeless(pat.span, "for-loop pattern must be a single identifier"@),
    }
}

/// The name that a `let` statement binds.
pub open spec fn let_name(p: Pat) -> Result<Ident, Span> {
    match p.kind {
        PatKind::Ident { ident, .. } => Ok(ident),
        PatKind::Typed(inner) => match inner.kind {
            PatKind::Ident { ident, .. } => Ok(ident),
            _ => Err(inner.span),
        },
        _ => Err(p.span),
    }
}

/// The name a statement binds for those behind it.
pub open spec fn after_stmt(sc: ScopeV, s: Stmt) -> ScopeV {
    match s {
        Stmt::Local { pat, .. } => match let_name(pat) {
            Ok(i) => shadow(sc, i.name@),
            Err(_) => sc,
        },
        _ => sc,
    }
}

/// The scope behind the first `n` statements.
pub open spec fn after_stmts(sc: ScopeV, ss: Seq<Stmt>, n: nat) -> ScopeV
    decreases n,
{
    if n == 0 || n > ss.len() {
        sc
    } else {
        after_stmt(after_stmts(sc, ss, (n - 1) as nat), ss[n - 1])
    }
}

/// Whether a macro's space-free path is `name` or ends in `::name`.
pub open spec fn is_macro(path: Seq<char>, name: Seq<char>) -> bool {
    path == name || without_suffix(path, "::"@ + name) is Some
}

// ---- one node over what its parts read as

#[verifier::opaque]
pub open spec fn literal_expr(span: Span, lit: Lit) -> ExprV {
    match literal_of(lit) {
        Some(value) => ExprV::Literal { span, value },
        None => no_meaning(span, "unsupported literal type"@),
    }
}

/// A path: a loop value, a variable, or a longer path as it stands.
#[verifier::opaque]
pub open spec fn path_expr(sc: ScopeV, p: Path) -> ExprV {
    match path_name(p) {
        Some(name) => match loop_value(sc.unrolled, name) {
            Some(v) => ExprV::Literal { span: spec_call_site(), value: LitV::Int(v as u128) },
            None => ExprV::Var { span: p.segments@[0].span, name },
        },
        None => ExprV::Path { span: p.span, path: p@ },
    }
}

#[verifier::opaque]
pub open spec fn compound_error(span: Span) -> ErrorV {
    unsupported_error(
        span,
        "compound assignment operators are not supported in circuits; rebind with `let x = x + y;` or use ledger methods like `increment_by`"@,
    )
}

#[verifier::opaque]
pub open spec fn binary(span: Span, op: BinOp, lhs: ExprV, r: Result<ExprV, ErrorV>) -> Result<ExprV, ErrorV> {
    match r {
        Err(x) => Err(x),
        Ok(rhs) => Ok(ExprV::BinaryOp { span, op, lhs: Box::new(lhs), rhs: Box::new(rhs) }),
    }
}

#[verifier::opaque]
pub open spec fn unary(span: Span, op: UnOp, r: Result<ExprV, ErrorV>) -> Result<ExprV, ErrorV> {
    match r {
        Err(x) => Err(x),
        Ok(inner) => Ok(ExprV::UnaryOp { span, op, expr: Box::new(inner) }),
    }
}

/// `self.field.method(args)` reads or writes the ledger, and a method of the
/// witnesses parameter draws a witness value.
#[verifier::opaque]
pub open spec fn direct_call(sc: ScopeV, receiver: Expr, method: Ident, args: Seq<ExprV>) -> Option<ExprV> {
    match self_field(sc, receiver) {
        Some(field) => Some(
            ExprV::LedgerAccess { span: method.span, field: field.name@, method: method.name@, args },
        ),
        None => if is_witnesses(sc, receiver) {
            Some(ExprV::WitnessCall { span: method.span, name: method.name@, args })
        } else {
            None
        },
    }
}

#[verifier::opaque]
pub open spec fn method_call(method: Ident, args: Seq<ExprV>, r: Result<ExprV, ErrorV>) -> Result<ExprV, ErrorV> {
    match r {
        Err(x) => Err(x),
        Ok(receiver) => Ok(
            ExprV::MethodCall { span: method.span, receiver: Box::new(receiver), method: method.name@, args },
        ),
    }
}

/// A named field of the witnesses parameter or of `self`.
#[verifier::opaque]
pub open spec fn direct_field(sc: ScopeV, base: Expr, member: Member) -> Option<ExprV> {
    if !(member is Named) {
        None
    } else if is_witnesses(sc, base) {
        Some(ExprV::WitnessAccess { span: member_span(member), field: member_name(member) })
    } else if is_self(sc, base) {
        Some(
            ExprV::LedgerAccess {
                span: member_span(member),
                field: member_name(member),
                method: "__direct_access"@,
                args: seq![],
            },
        )
    } else {
        None
    }
}

/// Any other field access, as a method call without arguments.
#[verifier::opaque]
pub open spec fn field_access(member: Member, r: Result<ExprV, ErrorV>) -> Result<ExprV, ErrorV> {
    match r {
        Err(x) => Err(x),
        Ok(base) => Ok(
            ExprV::MethodCall {
                span: member_span(member),
                receiver: Box::new(base),
                method: member_name(member),
                args: seq![],
            },
        ),
    }
}

/// A call by path. Only `disclose` and `nocturne::disclose` themselves are the
/// disclosure builtin.
#[verifier::opaque]
pub open spec fn called(sc: ScopeV, span: Span, func: Expr, r: Result<Seq<ExprV>, ErrorV>) -> Result<ExprV, ErrorV> {
    match r {
        Err(x) => Err(x),
        Ok(args) => match (func.kind, replaced(sc, func)) {
            (ExprKind::Path(path), None) => {
                let at = match last_name(path) {
                    Some(i) => i.span,
                    None => spec_call_site(),
                };
                let name = match last_name(path) {
                    Some(i) => i.name@,
                    None => "unknown"@,
                };
                let full = no_spaces(path.text@);
                if full == "disclose"@ || full == "nocturne::disclose"@ {
                    if args.len() != 1 {
                        Err(
                            unsupported_error(
                                at,
                                "disclose() takes exactly one argument, got "@ + dec(args.len()),
                            ),
                        )
                    } else {
                        Ok(ExprV::Disclose { span: at, value: Box::new(args[0]) })
                    }
                } else {
                    Ok(ExprV::FnCall { span: at, name, path: path@, args })
                }
            }
            _ => Ok(no_meaning(span, "complex function call expression"@)),
        },
    }
}

#[verifier::opaque]
pub open spec fn branch(
    span: Span,
    cond: ExprV,
    body: Seq<ExprV>,
    r: Result<Option<Seq<ExprV>>, ErrorV>,
) -> Result<ExprV, ErrorV> {
    match r {
        Err(x) => Err(x),
        Ok(else_branch) => Ok(ExprV::If { span, cond: Box::new(cond), then_branch: body, else_branch }),
    }
}

/// A branch on the presence of a map key.
#[verifier::opaque]
pub open spec fn get_branch(
    span: Span,
    access_span: Span,
    v: Ident,
    field: Ident,
    key: ExprV,
    body: Seq<ExprV>,
    r: Result<Option<Seq<ExprV>>, ErrorV>,
) -> Result<ExprV, ErrorV> {
    match r {
        Err(x) => Err(x),
        Ok(else_branch) => Ok(get_if(span, access_span, v, field, key, body, else_branch)),
    }
}

#[verifier::opaque]
pub open spec fn block(span: Span, r: Result<Seq<ExprV>, ErrorV>) -> Result<ExprV, ErrorV> {
    match r {
        Err(x) => Err(x),
        Ok(stmts) => Ok(ExprV::Block { span, stmts }),
    }
}

#[verifier::opaque]
pub open spec fn struct_init(
    span: Span,
    path: Path,
    r: Result<Seq<(Seq<char>, ExprV)>, ErrorV>,
) -> Result<ExprV, ErrorV> {
    let name = match last_name(path) {
        Some(i) => i.name@,
        None => "Unknown"@,
    };
    match r {
        Err(x) => Err(x),
        Ok(fields) => Ok(ExprV::StructInit { span, name, fields }),
    }
}

#[verifier::opaque]
pub open spec fn returned(span: Span, r: Result<ExprV, ErrorV>) -> Result<ExprV, ErrorV> {
    match r {
        Err(x) => Err(x),
        Ok(v) => Ok(ExprV::Return { span, value: Some(Box::new(v)) }),
    }
}

#[verifier::opaque]
pub open spec fn tuple(span: Span, r: Result<Seq<ExprV>, ErrorV>) -> Result<ExprV, ErrorV> {
    match r {
        Err(x) => Err(x),
        Ok(elements) => Ok(ExprV::Tuple { span, elements }),
    }
}

#[verifier::opaque]
pub open spec fn array(span: Span, r: Result<Seq<ExprV>, ErrorV>) -> Result<ExprV, ErrorV> {
    match r {
        Err(x) => Err(x),
        Ok(elements) => Ok(ExprV::ArrayLit { span, elements }),
    }
}

#[verifier::opaque]
pub open spec fn reference(span: Span, r: Result<ExprV, ErrorV>) -> Result<ExprV, ErrorV> {
    match r {
        Err(x) => Err(x),
        Ok(inner) => Ok(ExprV::Reference { span, expr: Box::new(inner) }),
    }
}

/// An array element at an index known when the source is read.
#[verifier::opaque]
pub open spec fn element(sc: ScopeV, span: Span, index: Expr, r: Result<ExprV, ErrorV>) -> Result<ExprV, ErrorV> {
    match r {
        Err(x) => Err(x),
        Ok(array) => match narrow_u32(int_of(sc, index)) {
            Some(i) => Ok(ExprV::Index { span, array: Box::new(array), index: i }),
            None => Ok(
                no_meaning(
                    span_of(sc, index),
                    "array index must be a compile-time integer literal (got `"@ + rendered(sc, index.text@)
                        + "`); use a `for i in 0..N` loop so the index unrolls to a literal"@,
                ),
            ),
        },
    }
}

#[verifier::opaque]
pub open spec fn loop_expr(span: Span) -> ExprV {
    no_meaning(span, "while/loop not supported in circuits (use for with const bounds)"@)
}

#[verifier::opaque]
pub open spec fn other_expr(sc: ScopeV, e: Expr) -> ExprV {
    no_meaning(e.span, "unsupported expression: "@ + rendered(sc, e.text@))
}

#[verifier::opaque]
pub open spec fn no_match(span: Span) -> ExprV {
    no_meaning(
        span,
        "unsupported match shape (only `match self.<map>.get(&k) { Some(v) => ..., None => ... }`, unit-variant enums, and homogeneous-payload enums / Option<T> are supported)"@,
    )
}

#[verifier::opaque]
pub open spec fn binding(name: Ident, r: Result<ExprV, ErrorV>) -> Result<ExprV, ErrorV> {
    match r {
        Err(x) => Err(x),
        Ok(v) => Ok(ExprV::Let { span: name.span, name: name.name@, value: Box::new(v) }),
    }
}

#[verifier::opaque]
pub open spec fn uninitialized(name: Ident) -> ExprV {
    ExprV::Let {
        span: name.span,
        name: name.name@,
        value: Box::new(no_meaning(name.span, "let binding without initializer"@)),
    }
}

/// A scrutinee that draws a witness value is drawn once, under a name of its
/// own; `None` leaves the scrutinee in place.
pub open spec fn drawn_once(scrutinee: ExprV, span: Span, n: u32) -> Option<(ExprV, ExprV)> {
    if draws_witness(scrutinee) {
        Some(
            (
                ExprV::Let { span, name: scrutinee_name(n), value: Box::new(scrutinee) },
                ExprV::Var { span, name: scrutinee_name(n) },
            ),
        )
    } else {
        None
    }
}

/// The expression that an enum match becomes: its chain, after the scrutinee's
/// binding if it has one.
#[verifier::opaque]
pub open spec fn match_expr(span: Span, drawn: Option<(ExprV, ExprV)>, chain: Option<Seq<ExprV>>) -> ExprV {
    match chain {
        Some(links) => if links.len() == 0 {
            no_match(span)
        } else {
            match drawn {
                Some((draw, _)) => ExprV::Block { span, stmts: seq![draw, links[links.len() - 1]] },
                None => links[links.len() - 1],
            }
        },
        None => no_match(span),
    }
}

pub open spec fn opt_result(r: Result<Seq<ExprV>, ErrorV>) -> Result<Option<Seq<ExprV>>, ErrorV> {
    match r {
        Err(x) => Err(x),
        Ok(v) => Ok(Some(v)),
    }
}

// ---- expressions

/// Reads an expression.
pub open spec fn read(cx: DeclV, sc: ScopeV, e: Expr, n: u32) -> Read
    decreases e, 1nat,
{
    match e.kind {
        ExprKind::Lit(lit) => (Ok(literal_expr(e.span, lit)), n),
        ExprKind::Path(p) => (Ok(path_expr(sc, p)), n),
        ExprKind::Binary { op, op_span, left, right } => if is_compound(op) {
            (Err(compound_error(op_span)), n)
        } else {
            let l = read(cx, sc, *left, n);
            match l.0 {
                Err(x) => (Err(x), l.1),
                Ok(lhs) => {
                    let r = read(cx, sc, *right, l.1);
                    (binary(op_span, op, lhs, r.0), r.1)
                }
            }
        },
        ExprKind::Unary { op, expr } => {
            let r = read(cx, sc, *expr, n);
            (unary(e.span, op, r.0), r.1)
        }
        ExprKind::MethodCall { receiver, method, args } => {
            let a = read_all(cx, sc, args@, args@.len(), n);
            match a.0 {
                Err(x) => (Err(x), a.1),
                Ok(parsed) => match direct_call(sc, *receiver, method, parsed) {
                    Some(v) => (Ok(v), a.1),
                    None => {
                        let r = read(cx, sc, *receiver, a.1);
                        (method_call(method, parsed, r.0), r.1)
                    }
                },
            }
        }
        ExprKind::Field { base, member } => match direct_field(sc, *base, member) {
            Some(v) => (Ok(v), n),
            None => {
                let r = read(cx, sc, *base, n);
                (field_access(member, r.0), r.1)
            }
        },
        ExprKind::Call { func, args } => {
            let a = read_all(cx, sc, args@, args@.len(), n);
            (called(sc, e.span, *func, a.0), a.1)
        }
        ExprKind::If { .. } => read_if(cx, sc, e, n),
        ExprKind::Block(b) => {
            let r = read_block(cx, sc, b.stmts@, b.stmts@.len(), n);
            (block(e.span, r.0), r.1)
        }
        ExprKind::Match { .. } => read_match(cx, sc, e, n),
        ExprKind::Struct { path, fields } => {
            let r = read_fields(cx, sc, fields@, fields@.len(), n);
            (struct_init(e.span, path, r.0), r.1)
        }
        ExprKind::Return(value) => match value {
            Some(v) => {
                let r = read(cx, sc, *v, n);
                (returned(e.span, r.0), r.1)
            }
            None => (Ok(ExprV::Return { span: e.span, value: None }), n),
        },
        ExprKind::Tuple(elems) => {
            let r = read_all(cx, sc, elems@, elems@.len(), n);
            (tuple(e.span, r.0), r.1)
        }
        ExprKind::Array(elems) => {
            let r = read_all(cx, sc, elems@, elems@.len(), n);
            (array(e.span, r.0), r.1)
        }
        ExprKind::Reference(inner) => {
            let r = read(cx, sc, *inner, n);
            (reference(e.span, r.0), r.1)
        }
        ExprKind::Paren(inner) => read(cx, sc, *inner, n),
        ExprKind::Macro(m) => read_macro(cx, sc, m, n),
        ExprKind::Loop => (Ok(loop_expr(e.span)), n),
        ExprKind::ForLoop { for_span, pat, expr, body } => match bounds(sc, for_span, pat, *expr) {
            Bounds::Shapeless(span, d) => (Ok(no_meaning(span, d)), n),
            Bounds::Refused(x) => (Err(x), n),
            Bounds::Empty => (block(for_span, Ok(seq![])), n),
            Bounds::Values(name, first, last) => {
                let r = read_iterations(
                    cx,
                    sc,
                    for_span,
                    name,
                    first,
                    body.stmts@,
                    (last - first + 1) as nat,
                    n,
                );
                (block(for_span, r.0), r.1)
            }
        },
        ExprKind::Cast { expr, as_span, ty } => {
            let r = read(cx, sc, *expr, n);
            (cast(cx, sc, r.0, ty_view(ty), as_span), r.1)
        }
        ExprKind::Index { expr, index } => {
            let r = read(cx, sc, *expr, n);
            (element(sc, e.span, *index, r.0), r.1)
        }
        ExprKind::Let { .. } => (Ok(other_expr(sc, e)), n),
        ExprKind::Range { .. } => (Ok(other_expr(sc, e)), n),
        ExprKind::Other => (Ok(other_expr(sc, e)), n),
    }
}

/// Reads an `if`; `if let Some(v) = self.map.get(k)` becomes a branch on
/// `contains` that binds `v` to the `lookup`.
pub open spec fn read_if(cx: DeclV, sc: ScopeV, e: Expr, n: u32) -> Read
    decreases e, 0nat,
{
    match e.kind {
        ExprKind::If { if_span, cond, then_branch, else_branch } => match let_get(sc, *cond) {
            Some((v, field, key)) => {
                proof {
                    lemma_get_key_smaller(sc, *cond);
                }
                let k = read(cx, sc, key, n);
                match k.0 {
                    Err(x) => (Err(x), k.1),
                    Ok(key) => {
                        let t = read_block(cx, shadow(sc, v.name@), then_branch.stmts@, then_branch.stmts@.len(), k.1);
                        match t.0 {
                            Err(x) => (Err(x), t.1),
                            Ok(body) => {
                                let f = read_else(cx, sc, else_branch, t.1);
                                (get_branch(if_span, cond.span, v, field, key, body, f.0), f.1)
                            }
                        }
                    }
                }
            }
            None => {
                let c = read(cx, sc, *cond, n);
                match c.0 {
                    Err(x) => (Err(x), c.1),
                    Ok(cv) => {
                        let t = read_block(cx, sc, then_branch.stmts@, then_branch.stmts@.len(), c.1);
                        match t.0 {
                            Err(x) => (Err(x), t.1),
                            Ok(body) => {
                                let f = read_else(cx, sc, else_branch, t.1);
                                (branch(if_span, cv, body, f.0), f.1)
                            }
                        }
                    }
                }
            }
        },
        _ => (Ok(other_expr(sc, e)), n),
    }
}

/// Reads a `match`: one on `self.map.get(k)` like the `if let`, one on enum
/// patterns as a chain of discriminant comparisons.
pub open spec fn read_match(cx: DeclV, sc: ScopeV, e: Expr, n: u32) -> Read
    decreases e, 0nat,
{
    match e.kind {
        ExprKind::Match { match_span, expr, arms } => match (get_call(sc, *expr), get_arms(arms@)) {
            (Some((field, key)), Some((v, some_first))) => {
                proof {
                    lemma_get_key_smaller(sc, *expr);
                }
                let k = read(cx, sc, key, n);
                match k.0 {
                    Err(x) => (Err(x), k.1),
                    Ok(key) => {
                        let si: int = if some_first { 0 } else { 1 };
                        let t = read_arm(cx, shadow(sc, v.name@), arms@, si, k.1);
                        match t.0 {
                            Err(x) => (Err(x), t.1),
                            Ok(body) => {
                                let f = read_arm(cx, sc, arms@, 1 - si, t.1);
                                (get_branch(match_span, expr.span, v, field, key, body, opt_result(f.0)), f.1)
                            }
                        }
                    }
                }
            }
            _ => match arm_shapes(cx, arms@) {
                Shapes::NotEnum => (Ok(no_match(match_span)), n),
                Shapes::Refused(x) => (Err(x), n),
                Shapes::All(ss) => {
                    let r = read(cx, sc, *expr, n);
                    match r.0 {
                        Err(x) => (Err(x), r.1),
                        Ok(scrutinee) => read_enum_match(
                            cx,
                            sc,
                            match_span,
                            span_of(sc, *expr),
                            arms@,
                            ss,
                            scrutinee,
                            r.1,
                        ),
                    }
                }
            },
        },
        _ => (Ok(other_expr(sc, e)), n),
    }
}

/// The shapes of a match's arms; a match without arms has none.
#[verifier::opaque]
pub open spec fn arm_shapes(cx: DeclV, arms: Seq<Arm>) -> Shapes {
    if arms.len() == 0 {
        Shapes::NotEnum
    } else {
        shapes(cx, arms, arms.len())
    }
}

/// Reads the first `k` of `es`.
pub open spec fn read_all(cx: DeclV, sc: ScopeV, es: Seq<Expr>, k: nat, n: u32) -> ReadAll
    decreases es, k,
{
    if k == 0 || k > es.len() {
        (Ok(seq![]), n)
    } else {
        let p = read_all(cx, sc, es, (k - 1) as nat, n);
        match p.0 {
            Err(x) => p,
            Ok(before) => {
                let r = read(cx, sc, es[k - 1], p.1);
                (appended(before, r.0), r.1)
            }
        }
    }
}

pub open spec fn appended(before: Seq<ExprV>, r: Result<ExprV, ErrorV>) -> Result<Seq<ExprV>, ErrorV> {
    match r {
        Err(x) => Err(x),
        Ok(v) => Ok(before.push(v)),
    }
}

/// Reads the first `k` fields of a struct literal.
pub open spec fn read_fields(cx: DeclV, sc: ScopeV, fs: Seq<FieldValue>, k: nat, n: u32) -> (Result<
    Seq<(Seq<char>, ExprV)>,
    ErrorV,
>, u32)
    decreases fs, k,
{
    if k == 0 || k > fs.len() {
        (Ok(seq![]), n)
    } else {
        let p = read_fields(cx, sc, fs, (k - 1) as nat, n);
        match p.0 {
            Err(x) => p,
            Ok(before) => {
                proof {
                    assert(decreases_to!(fs => fs[k - 1]));
                }
                let r = read(cx, sc, fs[k - 1].expr, p.1);
                match r.0 {
                    Err(x) => (Err(x), r.1),
                    Ok(v) => (Ok(before.push((member_name(fs[k - 1].member), v))), r.1),
                }
            }
        }
    }
}

/// Reads an `else`: a block's statements, or one expression.
pub open spec fn read_else(
    cx: DeclV,
    sc: ScopeV,
    e: Option<Box<Expr>>,
    n: u32,
) -> (Result<Option<Seq<ExprV>>, ErrorV>, u32)
    decreases e, 0nat,
{
    match e {
        None => (Ok(None), n),
        Some(b) => {
            let r = read_body(cx, sc, *b, n);
            (opt_result(r.0), r.1)
        }
    }
}

/// Reads a branch body: a block's statements, or one expression.
pub open spec fn read_body(cx: DeclV, sc: ScopeV, e: Expr, n: u32) -> ReadAll
    decreases e, 2nat,
{
    match e.kind {
        ExprKind::Block(b) => read_block(cx, sc, b.stmts@, b.stmts@.len(), n),
        _ => {
            let r = read(cx, sc, e, n);
            (appended(seq![], r.0), r.1)
        }
    }
}

/// Reads the body of arm `i`.
pub open spec fn read_arm(cx: DeclV, sc: ScopeV, arms: Seq<Arm>, i: int, n: u32) -> ReadAll
    decreases arms, 0nat,
{
    if 0 <= i < arms.len() {
        proof {
            assert(decreases_to!(arms => arms[i]));
        }
        read_body(cx, sc, arms[i].body, n)
    } else {
        (Ok(seq![]), n)
    }
}

/// Reads the first `k` statements.
pub open spec fn read_block(cx: DeclV, sc: ScopeV, ss: Seq<Stmt>, k: nat, n: u32) -> ReadAll
    decreases ss, k,
{
    if k == 0 || k > ss.len() {
        (Ok(seq![]), n)
    } else {
        let p = read_block(cx, sc, ss, (k - 1) as nat, n);
        match p.0 {
            Err(x) => p,
            Ok(before) => {
                let r = read_stmt(cx, after_stmts(sc, ss, (k - 1) as nat), ss[k - 1], p.1);
                (appended(before, r.0), r.1)
            }
        }
    }
}

pub open spec fn read_stmt(cx: DeclV, sc: ScopeV, s: Stmt, n: u32) -> Read
    decreases s, 0nat,
{
    match s {
        Stmt::Local { pat, init } => match let_name(pat) {
            Err(span) => (Ok(no_meaning(span, "complex pattern in let binding"@)), n),
            Ok(name) => match init {
                Some(value) => {
                    let r = read(cx, sc, value, n);
                    (binding(name, r.0), r.1)
                }
                None => (Ok(uninitialized(name)), n),
            },
        },
        Stmt::Expr(e) => read(cx, sc, e, n),
        Stmt::Item(span) => (Ok(no_meaning(span, "item inside function body"@)), n),
        Stmt::Macro(m) => read_macro(cx, sc, m, n),
    }
}

/// What a macro call asks to be asserted.
pub enum Claim {
    One(Expr),
    Two(Expr, Expr),
    Refused(ErrorV),
    Nothing(ExprV),
}

#[verifier::opaque]
pub open spec fn claim(m: MacroCall) -> Claim {
    let path = no_spaces(m.path.text@);
    let span = m.path.span;
    if is_macro(path, "assert"@) {
        match m.args {
            Err(why) => Claim::Refused(unsupported_error(span, "failed to parse assert arguments: "@ + why@)),
            Ok(args) => if args@.len() == 0 {
                Claim::Refused(unsupported_error(span, "assert! requires a condition argument"@))
            } else {
                Claim::One(args@[0])
            },
        }
    } else if is_macro(path, "assert_eq"@) {
        match m.args {
            Err(why) => Claim::Refused(unsupported_error(span, "failed to parse assert_eq arguments: "@ + why@)),
            Ok(args) => if args@.len() < 2 {
                Claim::Refused(unsupported_error(span, "assert_eq! requires two arguments"@))
            } else {
                Claim::Two(args@[0], args@[1])
            },
        }
    } else {
        Claim::Nothing(no_meaning(span, "unsupported macro: "@ + path))
    }
}

pub proof fn lemma_claim_smaller(m: MacroCall)
    ensures
        claim(m) matches Claim::One(e) ==> decreases_to!(m => e),
        claim(m) matches Claim::Two(a, b) ==> decreases_to!(m => a) && decreases_to!(m => b),
{
    reveal(claim);
    if m.args is Ok {
        let args = m.args->Ok_0;
        assert(decreases_to!(m => m.args));
        assert(decreases_to!(m.args => args));
        assert(decreases_to!(args => args@));
        if args@.len() > 0 {
            assert(decreases_to!(args@ => args@[0]));
        }
        if args@.len() > 1 {
            assert(decreases_to!(args@ => args@[1]));
        }
    }
}

#[verifier::opaque]
pub open spec fn asserted(span: Span, r: Result<ExprV, ErrorV>) -> Result<ExprV, ErrorV> {
    match r {
        Err(x) => Err(x),
        Ok(c) => Ok(ExprV::Assert { span, kind: AssertV::Assert(Box::new(c)) }),
    }
}

#[verifier::opaque]
pub open spec fn asserted_equal(span: Span, a: ExprV, r: Result<ExprV, ErrorV>) -> Result<ExprV, ErrorV> {
    match r {
        Err(x) => Err(x),
        Ok(b) => Ok(ExprV::Assert { span, kind: AssertV::AssertEq(Box::new(a), Box::new(b)) }),
    }
}

/// Reads a macro call: `assert!` and `assert_eq!`, whose messages are dropped.
pub open spec fn read_macro(cx: DeclV, sc: ScopeV, m: MacroCall, n: u32) -> Read
    decreases m, 0nat,
{
    proof {
        lemma_claim_smaller(m);
    }
    match claim(m) {
        Claim::Refused(x) => (Err(x), n),
        Claim::Nothing(e) => (Ok(e), n),
        Claim::One(cond) => {
            let r = read(cx, macro_scope(sc), cond, n);
            (asserted(m.path.span, r.0), r.1)
        }
        Claim::Two(left, right) => {
            let a = read(cx, macro_scope(sc), left, n);
            match a.0 {
                Err(x) => (Err(x), a.1),
                Ok(l) => {
                    let b = read(cx, macro_scope(sc), right, a.1);
                    (asserted_equal(m.path.span, l, b.0), b.1)
                }
            }
        }
    }
}

/// Reads the first `k` iterations of a loop body.
pub open spec fn read_iterations(
    cx: DeclV,
    sc: ScopeV,
    span: Span,
    name: Seq<char>,
    first: u64,
    body: Seq<Stmt>,
    k: nat,
    n: u32,
) -> ReadAll
    decreases body, body.len() + 1 + k,
{
    if k == 0 {
        (Ok(seq![]), n)
    } else {
        let p = read_iterations(cx, sc, span, name, first, body, (k - 1) as nat, n);
        match p.0 {
            Err(x) => p,
            Ok(before) => {
                let r = read_block(cx, unroll(sc, name, (first + k - 1) as u64), body, body.len(), p.1);
                (appended(before, block(span, r.0)), r.1)
            }
        }
    }
}

/// Reads an enum match over arms of the given shapes. The catch-all's body is
/// read first, then the variants' from the last to the first.
pub open spec fn read_enum_match(
    cx: DeclV,
    sc: ScopeV,
    match_span: Span,
    scrutinee_span: Span,
    arms: Seq<Arm>,
    ss: Seq<Shape>,
    scrutinee: ExprV,
    n: u32,
) -> Read
    decreases arms, arms.len() + 2,
{
    let drawn = drawn_once(scrutinee, scrutinee_span, n);
    let subject = match drawn {
        Some((_, v)) => v,
        None => scrutinee,
    };
    let n1 = match drawn {
        Some(_) => n.wrapping_add(1),
        None => n,
    };
    let d = match first_wild(ss, ss.len()) {
        Some(i) => {
            let w = read_arm(cx, sc, arms, i, n1);
            (opt_result(w.0), w.1)
        }
        None => (Ok(None), n1),
    };
    match d.0 {
        Err(x) => (Err(x), d.1),
        Ok(default) => if !any_variant(ss) {
            (Ok(no_match(match_span)), d.1)
        } else {
            let c = read_chain(cx, sc, match_span, arms, ss, subject, arms.len(), default, d.1);
            match c.0 {
                Err(x) => (Err(x), c.1),
                Ok(chain) => (Ok(match_expr(match_span, drawn, chain)), c.1),
            }
        },
    }
}

/// Adds the links of the first `k` arms, the last of them first.
pub open spec fn read_chain(
    cx: DeclV,
    sc: ScopeV,
    match_span: Span,
    arms: Seq<Arm>,
    ss: Seq<Shape>,
    subject: ExprV,
    k: nat,
    otherwise: Option<Seq<ExprV>>,
    n: u32,
) -> (Result<Option<Seq<ExprV>>, ErrorV>, u32)
    decreases arms, k + 1,
{
    if k == 0 || k > ss.len() {
        (Ok(otherwise), n)
    } else {
        match ss[k - 1] {
            Shape::Wild => read_chain(cx, sc, match_span, arms, ss, subject, (k - 1) as nat, otherwise, n),
            Shape::Variant { path, payload } => {
                let r = read_arm(cx, payload_scope(sc, payload), arms, k - 1, n);
                match r.0 {
                    Err(x) => (Err(x), r.1),
                    Ok(body) => read_chain(
                        cx,
                        sc,
                        match_span,
                        arms,
                        ss,
                        subject,
                        (k - 1) as nat,
                        Some(seq![variant_link(match_span, path, payload, subject, body, otherwise)]),
                        r.1,
                    ),
                }
            }
        }
    }
}

pub open spec fn payload_scope(sc: ScopeV, payload: Option<Ident>) -> ScopeV {
    match payload {
        Some(b) => shadow(sc, b.name@),
        None => sc,
    }
}

} // verus!
