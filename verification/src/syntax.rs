//! Contract source as the compiler reads it: types, paths, patterns,
//! expressions and items, with positions as plain numbers.
use vstd::prelude::*;

verus! {

/// A source position, numbered by whoever read the source. Position 0 is
/// the place of code that has no source of its own.
#[derive(Clone, Copy, PartialEq, Eq, Structural, Debug)]
pub struct Span {
    pub id: usize,
}

impl Span {
    /// The position of synthesized code.
    pub fn call_site() -> (r: Span)
        ensures
            r == spec_call_site(),
    {
        Span { id: 0 }
    }
}

/// The position of synthesized code.
pub open spec fn spec_call_site() -> Span {
    Span { id: 0 }
}

/// A name with its position.
#[derive(Clone, Debug)]
pub struct Ident {
    pub name: String,
    pub span: Span,
}

/// A path such as `Status::Open` or `Uint::<64>::from`.
#[derive(Debug)]
pub struct Path {
    /// The path as token text, tokens separated by spaces.
    pub text: String,
    pub segments: Vec<Ident>,
    /// A single name with no arguments and no leading `::`.
    pub is_ident: bool,
    pub span: Span,
}

/// What a path says, apart from positions.
#[verifier::ext_equal]
pub struct PathV {
    pub text: Seq<char>,
    pub segments: Seq<Seq<char>>,
}

/// The names of a segment list.
pub open spec fn idents_view(s: Seq<Ident>) -> Seq<Seq<char>> {
    Seq::new(s.len(), |i: int| s[i].name@)
}

impl View for Path {
    type V = PathV;

    open spec fn view(&self) -> PathV {
        PathV { text: self.text@, segments: idents_view(self.segments@) }
    }
}

impl Clone for Path {
    fn clone(&self) -> (r: Path)
        ensures
            r@ == self@,
    {
        let mut segments: Vec<Ident> = Vec::new();
        let mut i: usize = 0;
        while i < self.segments.len()
            invariant
                i <= self.segments@.len(),
                segments@.len() == i,
                forall|j: int| 0 <= j < i ==> (#[trigger] segments@[j]).name@ == self.segments@[j].name@,
            decreases self.segments@.len() - i,
        {
            segments.push(Ident { name: self.segments[i].name.clone(), span: self.segments[i].span });
            i += 1;
        }
        assert(idents_view(segments@) =~= idents_view(self.segments@));
        Path { text: self.text.clone(), segments, is_ident: self.is_ident, span: self.span }
    }
}

/// A type as written in the contract.
#[derive(Debug)]
pub struct Ty {
    /// The type as token text, tokens separated by spaces.
    pub text: String,
    pub kind: TyKind,
}

/// The shape of a type.
#[derive(Debug)]
pub enum TyKind {
    /// `a::b<..>`; `qself` marks `<T as Trait>::..`.
    Path { qself: bool, segments: Vec<TySegment> },
    Tuple(Vec<Ty>),
    /// `[T; N]`; `len` is the length's text when it is an integer literal.
    Array { elem: Box<Ty>, len: Option<String> },
    Reference(Box<Ty>),
    Other,
}

/// One segment of a type path; `args` are its angle-bracketed arguments.
#[derive(Debug)]
pub struct TySegment {
    pub ident: String,
    pub args: Option<Vec<GenericArg>>,
}

/// A generic argument; `Const` carries an integer literal's text.
#[derive(Debug)]
pub enum GenericArg {
    Type(Ty),
    Const(Option<String>),
    Other,
}

/// What a type says.
pub struct TyV {
    pub text: Seq<char>,
    pub kind: TyKindV,
}

pub enum TyKindV {
    Path { qself: bool, segments: Seq<TySegmentV> },
    Tuple(Seq<TyV>),
    Array { elem: Box<TyV>, len: Option<Seq<char>> },
    Reference(Box<TyV>),
    Other,
}

pub struct TySegmentV {
    pub ident: Seq<char>,
    pub args: Option<Seq<GenericArgV>>,
}

pub enum GenericArgV {
    Type(TyV),
    Const(Option<Seq<char>>),
    Other,
}

/// The view of an optional text.
pub open spec fn text_opt(o: Option<String>) -> Option<Seq<char>> {
    match o {
        Some(s) => Some(s@),
        None => None,
    }
}

pub open spec fn ty_view(t: Ty) -> TyV
    decreases t,
{
    TyV { text: t.text@, kind: ty_kind_view(t.kind) }
}

pub open spec fn ty_kind_view(k: TyKind) -> TyKindV
    decreases k,
{
    match k {
        TyKind::Path { qself, segments } => TyKindV::Path { qself, segments: segments_view(segments@) },
        TyKind::Tuple(elems) => TyKindV::Tuple(tys_view(elems@)),
        TyKind::Array { elem, len } => TyKindV::Array { elem: Box::new(ty_view(*elem)), len: text_opt(len) },
        TyKind::Reference(inner) => TyKindV::Reference(Box::new(ty_view(*inner))),
        TyKind::Other => TyKindV::Other,
    }
}

pub open spec fn tys_view(s: Seq<Ty>) -> Seq<TyV>
    decreases s,
{
    Seq::new(s.len(), |i: int| if 0 <= i < s.len() { ty_view(s[i]) } else { arbitrary() })
}

pub open spec fn segment_view(s: TySegment) -> TySegmentV
    decreases s,
{
    TySegmentV {
        ident: s.ident@,
        args: match s.args {
            Some(a) => Some(args_view(a@)),
            None => None,
        },
    }
}

pub open spec fn segments_view(s: Seq<TySegment>) -> Seq<TySegmentV>
    decreases s,
{
    Seq::new(s.len(), |i: int| if 0 <= i < s.len() { segment_view(s[i]) } else { arbitrary() })
}

pub open spec fn arg_view(a: GenericArg) -> GenericArgV
    decreases a,
{
    match a {
        GenericArg::Type(t) => GenericArgV::Type(ty_view(t)),
        GenericArg::Const(c) => GenericArgV::Const(text_opt(c)),
        GenericArg::Other => GenericArgV::Other,
    }
}

pub open spec fn args_view(s: Seq<GenericArg>) -> Seq<GenericArgV>
    decreases s,
{
    Seq::new(s.len(), |i: int| if 0 <= i < s.len() { arg_view(s[i]) } else { arbitrary() })
}

impl View for Ty {
    type V = TyV;

    open spec fn view(&self) -> TyV {
        ty_view(*self)
    }
}

impl DeepView for Ty {
    type V = TyV;

    open spec fn deep_view(&self) -> TyV {
        ty_view(*self)
    }
}

/// The view of an optional type.
pub open spec fn ty_opt(o: Option<Ty>) -> Option<TyV> {
    match o {
        Some(t) => Some(ty_view(t)),
        None => None,
    }
}

/// The view of an optional borrowed type.
pub open spec fn ty_ref_opt(o: Option<&Ty>) -> Option<TyV> {
    match o {
        Some(t) => Some(ty_view(*t)),
        None => None,
    }
}

pub(crate) fn copy_text_opt(o: &Option<String>) -> (r: Option<String>)
    ensures
        text_opt(r) == text_opt(*o),
{
    match o {
        Some(s) => Some(s.clone()),
        None => None,
    }
}

fn copy_ty(t: &Ty) -> (r: Ty)
    ensures
        ty_view(r) == ty_view(*t),
    decreases t,
{
    Ty { text: t.text.clone(), kind: copy_ty_kind(&t.kind) }
}

fn copy_ty_kind(k: &TyKind) -> (r: TyKind)
    ensures
        ty_kind_view(r) == ty_kind_view(*k),
    decreases k,
{
    match k {
        TyKind::Path { qself, segments } => TyKind::Path { qself: *qself, segments: copy_segments(segments) },
        TyKind::Tuple(elems) => TyKind::Tuple(copy_tys(elems)),
        TyKind::Array { elem, len } => TyKind::Array { elem: Box::new(copy_ty(elem)), len: copy_text_opt(len) },
        TyKind::Reference(inner) => TyKind::Reference(Box::new(copy_ty(inner))),
        TyKind::Other => TyKind::Other,
    }
}

fn copy_tys(v: &Vec<Ty>) -> (r: Vec<Ty>)
    ensures
        tys_view(r@) == tys_view(v@),
    decreases v,
{
    let mut out: Vec<Ty> = Vec::new();
    let mut i: usize = 0;
    while i < v.len()
        invariant
            i <= v@.len(),
            out@.len() == i,
            forall|j: int| 0 <= j < i ==> ty_view(#[trigger] out@[j]) == ty_view(v@[j]),
        decreases v@.len() - i,
    {
        out.push(copy_ty(&v[i]));
        i += 1;
    }
    assert(tys_view(out@) =~= tys_view(v@));
    out
}

fn copy_segments(v: &Vec<TySegment>) -> (r: Vec<TySegment>)
    ensures
        segments_view(r@) == segments_view(v@),
    decreases v,
{
    let mut out: Vec<TySegment> = Vec::new();
    let mut i: usize = 0;
    while i < v.len()
        invariant
            i <= v@.len(),
            out@.len() == i,
            forall|j: int| 0 <= j < i ==> segment_view(#[trigger] out@[j]) == segment_view(v@[j]),
        decreases v@.len() - i,
    {
        out.push(copy_segment(&v[i]));
        i += 1;
    }
    assert(segments_view(out@) =~= segments_view(v@));
    out
}

fn copy_segment(s: &TySegment) -> (r: TySegment)
    ensures
        segment_view(r) == segment_view(*s),
    decreases s,
{
    let args = match &s.args {
        Some(a) => Some(copy_args(a)),
        None => None,
    };
    TySegment { ident: s.ident.clone(), args }
}

fn copy_arg(a: &GenericArg) -> (r: GenericArg)
    ensures
        arg_view(r) == arg_view(*a),
    decreases a,
{
    match a {
        GenericArg::Type(t) => GenericArg::Type(copy_ty(t)),
        GenericArg::Const(c) => GenericArg::Const(copy_text_opt(c)),
        GenericArg::Other => GenericArg::Other,
    }
}

fn copy_args(v: &Vec<GenericArg>) -> (r: Vec<GenericArg>)
    ensures
        args_view(r@) == args_view(v@),
    decreases v,
{
    let mut out: Vec<GenericArg> = Vec::new();
    let mut i: usize = 0;
    while i < v.len()
        invariant
            i <= v@.len(),
            out@.len() == i,
            forall|j: int| 0 <= j < i ==> arg_view(#[trigger] out@[j]) == arg_view(v@[j]),
        decreases v@.len() - i,
    {
        out.push(copy_arg(&v[i]));
        i += 1;
    }
    assert(args_view(out@) =~= args_view(v@));
    out
}

impl Clone for Ty {
    fn clone(&self) -> (r: Ty)
        ensures
            r@ == self@,
    {
        copy_ty(self)
    }
}

/// A literal token.
#[derive(Clone, Debug)]
pub enum Lit {
    /// An integer literal, as written.
    Int(String),
    Bool(bool),
    /// A string literal's value.
    Str(String),
    Other,
}

/// A piece of an expression's token text. `Name` is an expression that is a
/// single name; loop unrolling replaces those.
#[derive(Debug)]
pub enum Piece {
    Fixed(String),
    Name(String),
}

/// A pattern.
#[derive(Debug)]
pub struct Pat {
    pub span: Span,
    pub kind: PatKind,
}

#[derive(Debug)]
pub enum PatKind {
    /// `x`, `ref x`, `x @ sub`.
    Ident { ident: Ident, by_ref: bool, subpat: bool },
    /// `pat: T`.
    Typed(Box<Pat>),
    Wild,
    Path(Path),
    TupleStruct { path: Path, elems: Vec<Pat> },
    Other,
}

/// A field name or position.
#[derive(Debug)]
pub enum Member {
    Named(Ident),
    Unnamed { index: u32, span: Span },
}

/// A macro call; `args` are its comma-separated expressions, or why its tokens
/// are none.
#[derive(Debug)]
pub struct MacroCall {
    pub path: Path,
    pub args: Result<Vec<Expr>, String>,
}

/// A match arm.
#[derive(Debug)]
pub struct Arm {
    pub pat: Pat,
    pub has_guard: bool,
    pub body: Expr,
}

/// One field of a struct literal.
#[derive(Debug)]
pub struct FieldValue {
    pub member: Member,
    pub expr: Expr,
}

/// An expression as written.
#[derive(Debug)]
pub struct Expr {
    pub span: Span,
    pub text: Vec<Piece>,
    pub kind: ExprKind,
}

#[derive(Debug)]
#[allow(inconsistent_fields)]
pub enum ExprKind {
    Lit(Lit),
    Path(Path),
    Binary { op: crate::expr::BinOp, op_span: Span, left: Box<Expr>, right: Box<Expr> },
    Unary { op: crate::expr::UnOp, expr: Box<Expr> },
    MethodCall { receiver: Box<Expr>, method: Ident, args: Vec<Expr> },
    Field { base: Box<Expr>, member: Member },
    Call { func: Box<Expr>, args: Vec<Expr> },
    If { if_span: Span, cond: Box<Expr>, then_branch: Block, else_branch: Option<Box<Expr>> },
    Block(Block),
    Match { match_span: Span, expr: Box<Expr>, arms: Vec<Arm> },
    Struct { path: Path, fields: Vec<FieldValue> },
    Return(Option<Box<Expr>>),
    Tuple(Vec<Expr>),
    Array(Vec<Expr>),
    Reference(Box<Expr>),
    Paren(Box<Expr>),
    Macro(MacroCall),
    /// `while` and `loop`.
    Loop,
    ForLoop { for_span: Span, pat: Pat, expr: Box<Expr>, body: Block },
    Cast { expr: Box<Expr>, as_span: Span, ty: Ty },
    Index { expr: Box<Expr>, index: Box<Expr> },
    /// `let pat = expr` as a condition.
    Let { pat: Pat, expr: Box<Expr> },
    Range { start: Option<Box<Expr>>, end: Option<Box<Expr>>, closed: bool },
    Other,
}

/// A block's statements.
#[derive(Debug)]
pub struct Block {
    pub stmts: Vec<Stmt>,
}

/// A statement.
#[derive(Debug)]
#[allow(inconsistent_fields)]
pub enum Stmt {
    Local { pat: Pat, init: Option<Expr> },
    Expr(Expr),
    Item(Span),
    Macro(MacroCall),
}

/// One token between the parentheses of an attribute.
#[derive(Debug)]
pub enum AttrToken {
    Ident(Ident),
    /// A reserved word, which is no identifier.
    Keyword(Ident),
    Comma(Span),
    Other(Span),
}

/// What follows an attribute's path.
#[derive(Debug)]
pub enum AttrArgs {
    /// `(..)`, with the position of the closing parenthesis.
    List { tokens: Vec<AttrToken>, close: Span },
    /// Nothing, or `= value`.
    Bare,
}

/// An attribute; `path` is its name when that is a single identifier.
#[derive(Debug)]
pub struct Attribute {
    pub path: Option<String>,
    pub args: AttrArgs,
    /// The position of what stands between the brackets.
    pub meta_span: Span,
    pub span: Span,
}

/// A named field of a struct.
#[derive(Debug)]
pub struct FieldDef {
    pub attrs: Vec<Attribute>,
    pub ident: Ident,
    pub ty: Ty,
}

/// The fields of a struct or variant.
#[derive(Debug)]
pub enum Fields {
    Named(Vec<FieldDef>),
    Unnamed(Vec<Ty>),
    Unit,
}

/// A variant of an enum.
#[derive(Debug)]
pub struct Variant {
    pub ident: Ident,
    pub fields: Fields,
}

/// A function argument.
#[derive(Debug)]
#[allow(inconsistent_fields)]
pub enum FnArg {
    Receiver { mutable: bool },
    Typed { pat: Pat, ty: Ty },
}

/// A function signature.
#[derive(Debug)]
pub struct Signature {
    pub ident: Ident,
    pub is_async: bool,
    pub is_const: bool,
    pub is_unsafe: bool,
    pub has_generics: bool,
    pub has_where: bool,
    pub inputs: Vec<FnArg>,
    pub output: Option<Ty>,
}

/// A function of a module or an impl block.
#[derive(Debug)]
pub struct FnItem {
    pub attrs: Vec<Attribute>,
    pub sig: Signature,
    pub block: Block,
}

/// An item of the contract module.
#[derive(Debug)]
#[allow(inconsistent_fields)]
pub enum Item {
    Struct { attrs: Vec<Attribute>, ident: Ident, fields: Fields },
    Enum { ident: Ident, variants: Vec<Variant> },
    /// An impl block and its functions.
    Impl { has_trait: bool, self_ty: Ty, fns: Vec<FnItem> },
    Fn(FnItem),
    Other,
}

/// A contract module; `items` is absent for `mod name;`.
#[derive(Debug)]
pub struct ItemMod {
    pub ident: Ident,
    pub items: Option<Vec<Item>>,
}

} // verus!
