//! Contracts written as Rust source, through the whole compiler.
use midnight_base_crypto::fab;
use midnight_transient_crypto::curve::Fr;
use midnight_transient_crypto::hash::transient_commit;
use midnight_transient_crypto::proofs::{KeyLocation, ProofPreimage, Zkir};
use midnight_zkir::{Instruction, IrSource};
use nocturne_compiler::body::for_each_expr;
use nocturne_compiler::bundle::build_bundle;
use nocturne_compiler::codegen::generate_artifacts;
use nocturne_compiler::contract::{ContractIR, LedgerTypeKind, UserEnumVariant, UserStructField};
use nocturne_compiler::deploy_codegen::{generate_deploy_module, try_generate_deploy_module};
use nocturne_compiler::error::{Diagnostics, ErrorCode};
use nocturne_compiler::expr::{AssertKind, BinOp, ExprIR, UnOp};
use nocturne_compiler::nocturne_type::{resolve, NocturneType, TypeCtx};
use nocturne_compiler::parse::parse_contract;
use nocturne_compiler::private_events::body_private_events;
use nocturne_compiler::syntax::{Arm, AttrArgs, AttrToken, Attribute, Block, Expr, ExprKind, FieldDef, FieldValue};
use nocturne_compiler::syntax::{Fields, FnArg, FnItem, GenericArg, Ident, Item, ItemMod, Lit, MacroCall, Member, Pat};
use nocturne_compiler::syntax::{PatKind, Path, Piece, Signature, Span, Stmt, Ty, TyKind, TySegment, Variant};
use nocturne_compiler::transcript_codegen::generate_transcript_module;
use nocturne_compiler::zkir::{instruction_output_count, AlignmentAtom, Imm, Instruction as LibraryInstruction, IrSource as LibraryIr};
use nocturne_compiler::zkir_emitter::{emit_contract, witness_fr_layout, BranchSpan};
use quote::ToTokens;
use std::collections::HashMap;
use syn::punctuated::Punctuated;
use syn::spanned::Spanned;
use syn::visit_mut::{self, VisitMut};

/// Reads parsed Rust source into the compiler's own syntax, numbering the
/// positions it meets.
struct Reader {
    spans: Vec<proc_macro2::Span>,
}

/// Replaces every expression that is a single name by a placeholder, and
/// keeps the names.
struct NameMarker {
    names: Vec<String>,
}

impl VisitMut for NameMarker {
    fn visit_expr_mut(&mut self, e: &mut syn::Expr) {
        if let syn::Expr::Path(p) = e {
            if p.qself.is_none() {
                if let Some(name) = p.path.get_ident().cloned() {
                    let mark = format!("__piece_{}__", self.names.len());
                    self.names.push(name.to_string());
                    p.path = syn::Path::from(syn::Ident::new(&mark, name.span()));
                    return;
                }
            }
        }
        visit_mut::visit_expr_mut(self, e);
    }
}

/// An expression's token text, with its single names apart.
fn pieces(e: &syn::Expr) -> Vec<Piece> {
    let mut marked = e.clone();
    let mut marker = NameMarker { names: Vec::new() };
    marker.visit_expr_mut(&mut marked);
    let text = marked.to_token_stream().to_string();
    let mut rest: &str = &text;
    let mut out: Vec<Piece> = Vec::new();
    for (i, name) in marker.names.iter().enumerate() {
        let mark = format!("__piece_{i}__");
        if let Some((before, after)) = rest.split_once(mark.as_str()) {
            if !before.is_empty() {
                out.push(Piece::Fixed(before.to_string()));
            }
            out.push(Piece::Name(name.clone()));
            rest = after;
        }
    }
    if !rest.is_empty() {
        out.push(Piece::Fixed(rest.to_string()));
    }
    out
}

fn bin_op(op: &syn::BinOp) -> Option<BinOp> {
    Some(match op {
        syn::BinOp::Add(_) => BinOp::Add,
        syn::BinOp::Sub(_) => BinOp::Sub,
        syn::BinOp::Mul(_) => BinOp::Mul,
        syn::BinOp::Div(_) => BinOp::Div,
        syn::BinOp::Rem(_) => BinOp::Rem,
        syn::BinOp::And(_) => BinOp::And,
        syn::BinOp::Or(_) => BinOp::Or,
        syn::BinOp::BitXor(_) => BinOp::BitXor,
        syn::BinOp::BitAnd(_) => BinOp::BitAnd,
        syn::BinOp::BitOr(_) => BinOp::BitOr,
        syn::BinOp::Shl(_) => BinOp::Shl,
        syn::BinOp::Shr(_) => BinOp::Shr,
        syn::BinOp::Eq(_) => BinOp::Eq,
        syn::BinOp::Lt(_) => BinOp::Lt,
        syn::BinOp::Le(_) => BinOp::Le,
        syn::BinOp::Ne(_) => BinOp::Ne,
        syn::BinOp::Ge(_) => BinOp::Ge,
        syn::BinOp::Gt(_) => BinOp::Gt,
        syn::BinOp::AddAssign(_) => BinOp::AddAssign,
        syn::BinOp::SubAssign(_) => BinOp::SubAssign,
        syn::BinOp::MulAssign(_) => BinOp::MulAssign,
        syn::BinOp::DivAssign(_) => BinOp::DivAssign,
        syn::BinOp::RemAssign(_) => BinOp::RemAssign,
        syn::BinOp::BitXorAssign(_) => BinOp::BitXorAssign,
        syn::BinOp::BitAndAssign(_) => BinOp::BitAndAssign,
        syn::BinOp::BitOrAssign(_) => BinOp::BitOrAssign,
        syn::BinOp::ShlAssign(_) => BinOp::ShlAssign,
        syn::BinOp::ShrAssign(_) => BinOp::ShrAssign,
        _ => return None,
    })
}

fn un_op(op: &syn::UnOp) -> Option<UnOp> {
    Some(match op {
        syn::UnOp::Deref(_) => UnOp::Deref,
        syn::UnOp::Not(_) => UnOp::Not,
        syn::UnOp::Neg(_) => UnOp::Neg,
        _ => return None,
    })
}

fn literal(l: &syn::Lit) -> Lit {
    match l {
        syn::Lit::Int(n) => Lit::Int(n.to_string()),
        syn::Lit::Bool(b) => Lit::Bool(b.value),
        syn::Lit::Str(s) => Lit::Str(s.value()),
        _ => Lit::Other,
    }
}

/// The text of an integer-literal expression.
fn int_text(e: &syn::Expr) -> Option<String> {
    match e {
        syn::Expr::Lit(l) => match &l.lit {
            syn::Lit::Int(n) => Some(n.to_string()),
            _ => None,
        },
        _ => None,
    }
}

fn read_type(t: &syn::Type) -> Ty {
    let kind = match t {
        syn::Type::Path(p) => TyKind::Path {
            qself: p.qself.is_some(),
            segments: p.path.segments.iter().map(read_segment).collect(),
        },
        syn::Type::Tuple(t) => TyKind::Tuple(t.elems.iter().map(read_type).collect()),
        syn::Type::Array(a) => TyKind::Array { elem: Box::new(read_type(&a.elem)), len: int_text(&a.len) },
        syn::Type::Reference(r) => TyKind::Reference(Box::new(read_type(&r.elem))),
        _ => TyKind::Other,
    };
    Ty { text: t.to_token_stream().to_string(), kind }
}

fn read_segment(s: &syn::PathSegment) -> TySegment {
    let args = match &s.arguments {
        syn::PathArguments::AngleBracketed(a) => Some(
            a.args
                .iter()
                .map(|g| match g {
                    syn::GenericArgument::Type(t) => GenericArg::Type(read_type(t)),
                    syn::GenericArgument::Const(e) => GenericArg::Const(int_text(e)),
                    _ => GenericArg::Other,
                })
                .collect(),
        ),
        _ => None,
    };
    TySegment { ident: s.ident.to_string(), args }
}

impl Reader {
    fn new() -> Self {
        Reader { spans: Vec::new() }
    }

    fn span(&mut self, s: proc_macro2::Span) -> Span {
        self.spans.push(s);
        Span { id: self.spans.len() }
    }

    fn ident(&mut self, i: &proc_macro2::Ident) -> Ident {
        Ident { name: i.to_string(), span: self.span(i.span()) }
    }

    fn path(&mut self, p: &syn::Path) -> Path {
        Path {
            text: p.to_token_stream().to_string(),
            segments: p.segments.iter().map(|s| self.ident(&s.ident)).collect(),
            is_ident: p.get_ident().is_some(),
            span: self.span(p.span()),
        }
    }

    fn pat(&mut self, p: &syn::Pat) -> Pat {
        let kind = match p {
            syn::Pat::Ident(i) => PatKind::Ident {
                ident: self.ident(&i.ident),
                by_ref: i.by_ref.is_some(),
                subpat: i.subpat.is_some(),
            },
            syn::Pat::Type(t) => PatKind::Typed(Box::new(self.pat(&t.pat))),
            syn::Pat::Wild(_) => PatKind::Wild,
            syn::Pat::Path(p) => PatKind::Path(self.path(&p.path)),
            syn::Pat::TupleStruct(t) => PatKind::TupleStruct {
                path: self.path(&t.path),
                elems: t.elems.iter().map(|e| self.pat(e)).collect(),
            },
            _ => PatKind::Other,
        };
        Pat { span: self.span(p.span()), kind }
    }

    fn member(&mut self, m: &syn::Member) -> Member {
        match m {
            syn::Member::Named(i) => Member::Named(self.ident(i)),
            syn::Member::Unnamed(i) => Member::Unnamed { index: i.index, span: self.span(i.span) },
        }
    }

    fn macro_call(&mut self, m: &syn::Macro) -> MacroCall {
        let args = match m.parse_body_with(Punctuated::<syn::Expr, syn::token::Comma>::parse_terminated) {
            Ok(list) => Ok(list.iter().map(|e| self.expr(e)).collect()),
            Err(e) => Err(e.to_string()),
        };
        MacroCall { path: self.path(&m.path), args }
    }

    fn block(&mut self, b: &syn::Block) -> Block {
        Block { stmts: b.stmts.iter().map(|s| self.stmt(s)).collect() }
    }

    fn stmt(&mut self, s: &syn::Stmt) -> Stmt {
        match s {
            syn::Stmt::Local(l) => Stmt::Local {
                pat: self.pat(&l.pat),
                init: l.init.as_ref().map(|i| self.expr(&i.expr)),
            },
            syn::Stmt::Item(i) => Stmt::Item(self.span(i.span())),
            syn::Stmt::Expr(e, _) => Stmt::Expr(self.expr(e)),
            syn::Stmt::Macro(m) => Stmt::Macro(self.macro_call(&m.mac)),
        }
    }

    fn exprs(&mut self, es: &Punctuated<syn::Expr, syn::token::Comma>) -> Vec<Expr> {
        es.iter().map(|e| self.expr(e)).collect()
    }

    fn boxed(&mut self, e: &syn::Expr) -> Box<Expr> {
        Box::new(self.expr(e))
    }

    fn expr(&mut self, e: &syn::Expr) -> Expr {
        let kind = self.expr_kind(e);
        Expr { span: self.span(e.span()), text: pieces(e), kind }
    }

    fn expr_kind(&mut self, e: &syn::Expr) -> ExprKind {
        match e {
            syn::Expr::Lit(l) => ExprKind::Lit(literal(&l.lit)),
            syn::Expr::Path(p) => ExprKind::Path(self.path(&p.path)),
            syn::Expr::Binary(b) => match bin_op(&b.op) {
                Some(op) => ExprKind::Binary {
                    op,
                    op_span: self.span(b.op.span()),
                    left: self.boxed(&b.left),
                    right: self.boxed(&b.right),
                },
                None => ExprKind::Other,
            },
            syn::Expr::Unary(u) => match un_op(&u.op) {
                Some(op) => ExprKind::Unary { op, expr: self.boxed(&u.expr) },
                None => ExprKind::Other,
            },
            syn::Expr::MethodCall(m) => ExprKind::MethodCall {
                receiver: self.boxed(&m.receiver),
                method: self.ident(&m.method),
                args: self.exprs(&m.args),
            },
            syn::Expr::Field(f) => ExprKind::Field { base: self.boxed(&f.base), member: self.member(&f.member) },
            syn::Expr::Call(c) => ExprKind::Call { func: self.boxed(&c.func), args: self.exprs(&c.args) },
            syn::Expr::If(i) => ExprKind::If {
                if_span: self.span(i.if_token.span),
                cond: self.boxed(&i.cond),
                then_branch: self.block(&i.then_branch),
                else_branch: i.else_branch.as_ref().map(|(_, e)| self.boxed(e)),
            },
            syn::Expr::Block(b) => ExprKind::Block(self.block(&b.block)),
            syn::Expr::Match(m) => ExprKind::Match {
                match_span: self.span(m.match_token.span),
                expr: self.boxed(&m.expr),
                arms: m
                    .arms
                    .iter()
                    .map(|a| Arm { pat: self.pat(&a.pat), has_guard: a.guard.is_some(), body: self.expr(&a.body) })
                    .collect(),
            },
            syn::Expr::Struct(s) => ExprKind::Struct {
                path: self.path(&s.path),
                fields: s
                    .fields
                    .iter()
                    .map(|f| FieldValue { member: self.member(&f.member), expr: self.expr(&f.expr) })
                    .collect(),
            },
            syn::Expr::Return(r) => ExprKind::Return(r.expr.as_ref().map(|e| self.boxed(e))),
            syn::Expr::Tuple(t) => ExprKind::Tuple(self.exprs(&t.elems)),
            syn::Expr::Array(a) => ExprKind::Array(self.exprs(&a.elems)),
            syn::Expr::Reference(r) => ExprKind::Reference(self.boxed(&r.expr)),
            syn::Expr::Paren(p) => ExprKind::Paren(self.boxed(&p.expr)),
            syn::Expr::Macro(m) => ExprKind::Macro(self.macro_call(&m.mac)),
            syn::Expr::While(_) | syn::Expr::Loop(_) => ExprKind::Loop,
            syn::Expr::ForLoop(f) => ExprKind::ForLoop {
                for_span: self.span(f.for_token.span),
                pat: self.pat(&f.pat),
                expr: self.boxed(&f.expr),
                body: self.block(&f.body),
            },
            syn::Expr::Cast(c) => ExprKind::Cast {
                expr: self.boxed(&c.expr),
                as_span: self.span(c.as_token.span),
                ty: read_type(&c.ty),
            },
            syn::Expr::Index(i) => ExprKind::Index { expr: self.boxed(&i.expr), index: self.boxed(&i.index) },
            syn::Expr::Let(l) => ExprKind::Let { pat: self.pat(&l.pat), expr: self.boxed(&l.expr) },
            syn::Expr::Range(r) => ExprKind::Range {
                start: r.start.as_ref().map(|e| self.boxed(e)),
                end: r.end.as_ref().map(|e| self.boxed(e)),
                closed: matches!(r.limits, syn::RangeLimits::Closed(_)),
            },
            _ => ExprKind::Other,
        }
    }

    fn attr(&mut self, a: &syn::Attribute) -> Attribute {
        let args = match &a.meta {
            syn::Meta::List(l) => {
                let tokens = l
                    .tokens
                    .clone()
                    .into_iter()
                    .map(|t| match &t {
                        proc_macro2::TokenTree::Ident(i) => {
                            let word = self.ident(i);
                            if syn::parse_str::<syn::Ident>(&word.name).is_ok() {
                                AttrToken::Ident(word)
                            } else {
                                AttrToken::Keyword(word)
                            }
                        }
                        proc_macro2::TokenTree::Punct(p) if p.as_char() == ',' => AttrToken::Comma(self.span(p.span())),
                        other => AttrToken::Other(self.span(other.span())),
                    })
                    .collect();
                AttrArgs::List { tokens, close: self.span(l.delimiter.span().close()) }
            }
            _ => AttrArgs::Bare,
        };
        Attribute {
            path: a.path().get_ident().map(|i| i.to_string()),
            args,
            meta_span: self.span(a.meta.span()),
            span: self.span(a.bracket_token.span.join()),
        }
    }

    fn attrs(&mut self, list: &[syn::Attribute]) -> Vec<Attribute> {
        list.iter().map(|a| self.attr(a)).collect()
    }

    fn fields(&mut self, f: &syn::Fields) -> Fields {
        match f {
            syn::Fields::Named(n) => {
                let mut out: Vec<FieldDef> = Vec::new();
                for d in &n.named {
                    if let Some(i) = &d.ident {
                        out.push(FieldDef { attrs: self.attrs(&d.attrs), ident: self.ident(i), ty: read_type(&d.ty) });
                    }
                }
                Fields::Named(out)
            }
            syn::Fields::Unnamed(u) => Fields::Unnamed(u.unnamed.iter().map(|d| read_type(&d.ty)).collect()),
            syn::Fields::Unit => Fields::Unit,
        }
    }

    fn signature(&mut self, s: &syn::Signature) -> Signature {
        Signature {
            ident: self.ident(&s.ident),
            is_async: s.asyncness.is_some(),
            is_const: s.constness.is_some(),
            is_unsafe: s.unsafety.is_some(),
            has_generics: !s.generics.params.is_empty(),
            has_where: s.generics.where_clause.is_some(),
            inputs: s
                .inputs
                .iter()
                .map(|a| match a {
                    syn::FnArg::Receiver(r) => FnArg::Receiver { mutable: r.mutability.is_some() },
                    syn::FnArg::Typed(t) => FnArg::Typed { pat: self.pat(&t.pat), ty: read_type(&t.ty) },
                })
                .collect(),
            output: match &s.output {
                syn::ReturnType::Default => None,
                syn::ReturnType::Type(_, t) => Some(read_type(t)),
            },
        }
    }

    fn function(&mut self, attrs: &[syn::Attribute], sig: &syn::Signature, block: &syn::Block) -> FnItem {
        FnItem { attrs: self.attrs(attrs), sig: self.signature(sig), block: self.block(block) }
    }

    fn item(&mut self, i: &syn::Item) -> Item {
        match i {
            syn::Item::Struct(s) => Item::Struct {
                attrs: self.attrs(&s.attrs),
                ident: self.ident(&s.ident),
                fields: self.fields(&s.fields),
            },
            syn::Item::Enum(e) => Item::Enum {
                ident: self.ident(&e.ident),
                variants: e
                    .variants
                    .iter()
                    .map(|v| Variant { ident: self.ident(&v.ident), fields: self.fields(&v.fields) })
                    .collect(),
            },
            syn::Item::Impl(b) => {
                let mut fns: Vec<FnItem> = Vec::new();
                for i in &b.items {
                    if let syn::ImplItem::Fn(f) = i {
                        fns.push(self.function(&f.attrs, &f.sig, &f.block));
                    }
                }
                Item::Impl { has_trait: b.trait_.is_some(), self_ty: read_type(&b.self_ty), fns }
            }
            syn::Item::Fn(f) => Item::Fn(self.function(&f.attrs, &f.sig, &f.block)),
            _ => Item::Other,
        }
    }

    fn module(&mut self, m: &syn::ItemMod) -> ItemMod {
        ItemMod {
            ident: self.ident(&m.ident),
            items: m.content.as_ref().map(|(_, items)| items.iter().map(|i| self.item(i)).collect()),
        }
    }
}

fn read_module(m: &syn::ItemMod) -> ItemMod {
    Reader::new().module(m)
}

/// The type that a text spells.
fn ty(text: &str) -> Ty {
    read_type(&syn::parse_str(text).expect("parse type"))
}

fn ranges(spans: &[BranchSpan]) -> Vec<std::ops::Range<usize>> {
    spans.iter().map(|s| s.start..s.end).collect()
}

/// A field constant.
fn field_element(imm: &Imm) -> Fr {
    let magnitude = Fr::from(imm.magnitude);
    if imm.negative {
        Fr::from(0u64) - magnitude
    } else {
        magnitude
    }
}

/// A hash input's alignment.
fn zkir_alignment(atoms: &[AlignmentAtom]) -> fab::Alignment {
    fab::Alignment(
        atoms
            .iter()
            .map(|a| {
                fab::AlignmentSegment::Atom(match a {
                    AlignmentAtom::Field => fab::AlignmentAtom::Field,
                    AlignmentAtom::Bytes { length } => fab::AlignmentAtom::Bytes { length: *length },
                })
            })
            .collect(),
    )
}

/// An instruction as the proof system's crate holds it.
fn zkir_instruction(i: &LibraryInstruction) -> Instruction {

    match i {
        LibraryInstruction::Assert { cond } => Instruction::Assert { cond: *cond },
        LibraryInstruction::CondSelect { bit, a, b } => Instruction::CondSelect { bit: *bit, a: *a, b: *b },
        LibraryInstruction::ConstrainBits { var, bits } => Instruction::ConstrainBits { var: *var, bits: *bits },
        LibraryInstruction::ConstrainEq { a, b } => Instruction::ConstrainEq { a: *a, b: *b },
        LibraryInstruction::ConstrainToBoolean { var } => Instruction::ConstrainToBoolean { var: *var },
        LibraryInstruction::Copy { var } => Instruction::Copy { var: *var },
        LibraryInstruction::DeclarePubInput { var } => Instruction::DeclarePubInput { var: *var },
        LibraryInstruction::PiSkip { guard, count } => Instruction::PiSkip { guard: *guard, count: *count },
        LibraryInstruction::EcAdd { a_x, a_y, b_x, b_y } => Instruction::EcAdd { a_x: *a_x, a_y: *a_y, b_x: *b_x, b_y: *b_y },
        LibraryInstruction::EcMul { a_x, a_y, scalar } => Instruction::EcMul { a_x: *a_x, a_y: *a_y, scalar: *scalar },
        LibraryInstruction::EcMulGenerator { scalar } => Instruction::EcMulGenerator { scalar: *scalar },
        LibraryInstruction::HashToCurve { inputs } => Instruction::HashToCurve { inputs: inputs.clone() },
        LibraryInstruction::LoadImm { imm } => Instruction::LoadImm { imm: field_element(imm) },
        LibraryInstruction::DivModPowerOfTwo { var, bits } => Instruction::DivModPowerOfTwo { var: *var, bits: *bits },
        LibraryInstruction::ReconstituteField { divisor, modulus, bits } => {
            Instruction::ReconstituteField { divisor: *divisor, modulus: *modulus, bits: *bits }
        }
        LibraryInstruction::Output { var } => Instruction::Output { var: *var },
        LibraryInstruction::TransientHash { inputs } => Instruction::TransientHash { inputs: inputs.clone() },
        LibraryInstruction::PersistentHash { alignment, inputs } => {
            Instruction::PersistentHash { alignment: zkir_alignment(alignment), inputs: inputs.clone() }
        }
        LibraryInstruction::TestEq { a, b } => Instruction::TestEq { a: *a, b: *b },
        LibraryInstruction::Add { a, b } => Instruction::Add { a: *a, b: *b },
        LibraryInstruction::Mul { a, b } => Instruction::Mul { a: *a, b: *b },
        LibraryInstruction::Neg { a } => Instruction::Neg { a: *a },
        LibraryInstruction::Not { a } => Instruction::Not { a: *a },
        LibraryInstruction::LessThan { a, b, bits } => Instruction::LessThan { a: *a, b: *b, bits: *bits },
        LibraryInstruction::PublicInput { guard } => Instruction::PublicInput { guard: *guard },
        LibraryInstruction::PrivateInput { guard } => Instruction::PrivateInput { guard: *guard },
    }
}

/// A circuit as the proof system's crate holds it.
fn zkir_source(ir: &LibraryIr) -> IrSource {
    IrSource {
        num_inputs: ir.num_inputs,
        do_communications_commitment: ir.do_communications_commitment,
        instructions: std::sync::Arc::new(ir.instructions.iter().map(zkir_instruction).collect()),
    }
}

// ---- types

fn empty_ctx() -> (
    Vec<(String, Vec<UserStructField>)>,
    Vec<(String, Vec<UserEnumVariant>)>,
) {
    (Vec::new(), Vec::new())
}

fn resolved(ty: Ty) -> NocturneType {
    let (s, e) = empty_ctx();
    resolve(&ty, &TypeCtx::new(&s, &e)).expect("resolves")
}

#[test]
fn primitives_resolve() {
    assert_eq!(resolved(ty("bool")), NocturneType::Bool);
    assert_eq!(resolved(ty("Boolean")), NocturneType::Bool);
    assert_eq!(resolved(ty("Field")), NocturneType::Field);
    assert_eq!(
        resolved(ty("MerkleTreeDigest")),
        NocturneType::MerkleTreeDigest
    );
    assert_eq!(resolved(ty("u64")), NocturneType::Uint(64));
    assert_eq!(
        resolved(ty("Uint<32>")),
        NocturneType::Uint(32)
    );
    assert_eq!(
        resolved(ty("Bytes<32>")),
        NocturneType::Bytes(32)
    );
}

#[test]
fn composites_resolve() {
    assert_eq!(
        resolved(ty("Option<u64>")),
        NocturneType::Optional(Box::new(NocturneType::Uint(64)))
    );
    assert_eq!(
        resolved(ty("(u64, Bytes<32>)")),
        NocturneType::Tuple(vec![NocturneType::Uint(64), NocturneType::Bytes(32)])
    );
    assert_eq!(
        resolved(ty("[u8; 3]")),
        NocturneType::Array(Box::new(NocturneType::Uint(8)), 3)
    );
}

#[test]
fn user_struct_resolves_to_field_tuple() {
    let mut structs: Vec<(String, Vec<UserStructField>)> = Vec::new();
    structs.push((
        "MyKey".to_string(),
        vec![
            UserStructField {
                name: "a".to_string(),
                ty: ty("u64"),
            },
            UserStructField {
                name: "b".to_string(),
                ty: ty("Bytes<32>"),
            },
        ],
    ));
    let enums: Vec<(String, Vec<UserEnumVariant>)> = Vec::new();
    let t = resolve(&ty("MyKey"), &TypeCtx::new(&structs, &enums)).unwrap();
    assert_eq!(
        t,
        NocturneType::Struct(vec![NocturneType::Uint(64), NocturneType::Bytes(32)])
    );
}

#[test]
fn unit_and_payload_enums_resolve() {
    let structs: Vec<(String, Vec<UserStructField>)> = Vec::new();
    let mut enums: Vec<(String, Vec<UserEnumVariant>)> = Vec::new();
    enums.push((
        "Phase".to_string(),
        vec![
            UserEnumVariant {
                name: "A".to_string(),
                payload: None,
            },
            UserEnumVariant {
                name: "B".to_string(),
                payload: None,
            },
        ],
    ));
    enums.push((
        "Wrapped".to_string(),
        vec![UserEnumVariant {
            name: "V".to_string(),
            payload: Some(ty("u64")),
        }],
    ));
    let ctx = TypeCtx::new(&structs, &enums);
    assert_eq!(
        resolve(&ty("Phase"), &ctx).unwrap(),
        NocturneType::EnumUnit
    );
    assert_eq!(
        resolve(&ty("Wrapped"), &ctx).unwrap(),
        NocturneType::EnumPayload(Box::new(NocturneType::Uint(64)))
    );
}

#[test]
fn witness_only_and_unknown_types_do_not_resolve() {
    let (s, e) = empty_ctx();
    let ctx = TypeCtx::new(&s, &e);
    assert!(resolve(&ty("MerkleTreePath<8, Bytes<32>>"), &ctx).is_none());
    assert!(resolve(&ty("MerkleTreePathEntry"), &ctx).is_none());
    assert!(resolve(&ty("SomethingUnknown"), &ctx).is_none());
}

/// For every resolvable type, the Fr-layout length
/// equals the aligned encoding's value_field_count.
#[test]
fn fr_layout_len_matches_value_field_count() {
    let (s, e) = empty_ctx();
    let ctx = TypeCtx::new(&s, &e);
    let cases: Vec<Ty> = vec![
        ty("bool"),
        ty("Field"),
        ty("u64"),
        ty("Uint<128>"),
        ty("Bytes<32>"),
        ty("Bytes<64>"),
        ty("Option<u64>"),
        ty("Option<Bytes<32>>"),
        ty("(u64, u64)"),
        ty("(u64, Bytes<48>, bool)"),
        ty("[u8; 3]"),
        ty("[Bytes<32>; 2]"),
    ];
    for ty in cases {
        let t = resolve(&ty, &ctx).unwrap();
        if let Some(enc) = t.aligned_encoding() {
            assert_eq!(
                t.fr_layout().len(),
                enc.value_field_count,
                "fr_layout/value_field_count disagree for {}",
                ty.text
            );
        }
    }
}

// ---- reading contracts

fn parse(input: &str) -> Result<ContractIR, Diagnostics> {
    let module: syn::ItemMod = syn::parse_str(input).expect("failed to parse module");
    parse_contract(read_module(&module))
}

#[test]
fn parse_counter_contract() {
    let ir = parse(r##"
        mod counter {
            use nocturne::types::*;

            #[nocturne(ledger)]
            pub struct CounterState {
                count: Counter,
            }

            impl CounterState {
                #[nocturne(constructor)]
                pub fn new() -> Self {
                    Self { count: Counter::zero() }
                }

                #[nocturne(circuit)]
                pub fn increment(&mut self) {
                    self.count.increment();
                }
            }
        }
"##)
    .expect("failed to parse counter contract");

    assert_eq!(ir.name.to_string(), "counter");

    assert_eq!(ir.ledger.name.to_string(), "CounterState");
    assert_eq!(ir.ledger.fields.len(), 1);
    assert_eq!(ir.ledger.fields[0].name.to_string(), "count");
    assert_eq!(ir.ledger.fields[0].type_kind, LedgerTypeKind::Counter);

    assert!(ir.witnesses.is_none());

    assert_eq!(ir.constructors.len(), 1);
    assert_eq!(ir.constructors[0].name.to_string(), "new");

    assert_eq!(ir.circuits.len(), 1);
    assert_eq!(ir.circuits[0].name.to_string(), "increment");
    assert!(ir.circuits[0].mutates_ledger);
    assert!(!ir.circuits[0].takes_witnesses);

    assert_eq!(ir.circuits[0].body.len(), 1);
    match &ir.circuits[0].body[0] {
        ExprIR::LedgerAccess { field, method, .. } => {
            assert_eq!(field.to_string(), "count");
            assert_eq!(method.to_string(), "increment");
        }
        other => panic!("expected LedgerAccess, got: {other:?}"),
    }
}

#[test]
fn parse_voting_contract_with_witnesses() {
    let ir = parse(r##"
        mod ballot {
            use nocturne::types::*;

            #[nocturne(ledger)]
            pub struct Ballot {
                votes_for: Counter,
                votes_against: Counter,
                merkle_voters: MerkleTree,
            }

            #[nocturne(witnesses)]
            pub struct BallotWitnesses {
                voter_secret: Field,
                vote_choice: Boolean,
            }

            impl Ballot {
                #[nocturne(constructor)]
                pub fn new() -> Self {
                    Self {
                        votes_for: Counter::zero(),
                        votes_against: Counter::zero(),
                        merkle_voters: MerkleTree::empty(),
                    }
                }

                #[nocturne(circuit)]
                pub fn cast_vote(&mut self, witnesses: &BallotWitnesses) {
                    let commitment = persistent_hash(&witnesses.voter_secret);
                    if witnesses.vote_choice.into() {
                        self.votes_for.increment();
                    } else {
                        self.votes_against.increment();
                    }
                }

                #[nocturne(query)]
                pub fn get_tally(&self) -> (u64, u64) {
                    (self.votes_for.value(), self.votes_against.value())
                }
            }
        }
"##)
    .expect("failed to parse voting contract");

    assert_eq!(ir.name.to_string(), "ballot");

    assert_eq!(ir.ledger.fields.len(), 3);
    assert_eq!(ir.ledger.fields[0].type_kind, LedgerTypeKind::Counter);
    assert_eq!(ir.ledger.fields[2].type_kind, LedgerTypeKind::MerkleTree);

    let witnesses = ir.witnesses.as_ref().expect("should have witnesses");
    assert_eq!(witnesses.name.to_string(), "BallotWitnesses");
    assert_eq!(witnesses.fields.len(), 2);
    assert_eq!(witnesses.fields[0].name.to_string(), "voter_secret");
    assert_eq!(witnesses.fields[1].name.to_string(), "vote_choice");

    assert_eq!(ir.circuits.len(), 1);
    let circuit = &ir.circuits[0];
    assert_eq!(circuit.name.to_string(), "cast_vote");
    assert!(circuit.takes_witnesses);
    assert!(circuit.mutates_ledger);

    assert!(circuit.body.len() >= 2);

    match &circuit.body[0] {
        ExprIR::Let { name, value, .. } => {
            assert_eq!(name.to_string(), "commitment");
            match &**value {
                ExprIR::FnCall { name, .. } => {
                    assert_eq!(name.to_string(), "persistent_hash");
                }
                other => panic!("expected FnCall, got: {other:?}"),
            }
        }
        other => panic!("expected Let, got: {other:?}"),
    }

    match &circuit.body[1] {
        ExprIR::If {
            then_branch,
            else_branch,
            ..
        } => {
            assert!(!then_branch.is_empty());
            assert!(else_branch.is_some());
        }
        other => panic!("expected If, got: {other:?}"),
    }

    assert_eq!(ir.queries.len(), 1);
    assert_eq!(ir.queries[0].name.to_string(), "get_tally");
}

#[test]
fn missing_ledger_is_error() {
    let result = parse(r##"
        mod bad {
            impl Foo {
                #[nocturne(circuit)]
                pub fn do_thing(&mut self) {}
            }
        }
"##);

    assert!(result.is_err());
    let err = result.unwrap_err().into_first_error();
    assert_eq!(err.code, ErrorCode::MissingLedger);
}

#[test]
fn query_with_mut_self_is_error() {
    let result = parse(r##"
        mod bad {
            #[nocturne(ledger)]
            pub struct State {
                x: Counter,
            }

            impl State {
                #[nocturne(constructor)]
                pub fn new() -> Self {
                    Self { x: Counter::zero() }
                }

                #[nocturne(query)]
                pub fn bad_query(&mut self) -> u64 {
                    0
                }
            }
        }
"##);

    assert!(result.is_err());
    let err = result.unwrap_err().into_first_error();
    assert_eq!(err.code, ErrorCode::QueryMustBeImmutable);
}

#[test]
fn parse_assert_expressions() {
    let ir = parse(r##"
        mod asserting {
            #[nocturne(ledger)]
            pub struct State {
                x: Counter,
            }

            impl State {
                #[nocturne(constructor)]
                pub fn new() -> Self {
                    Self { x: Counter::zero() }
                }

                #[nocturne(circuit)]
                pub fn check(&mut self) {
                    assert!(self.x.value() > 0);
                    assert_eq!(self.x.value(), 42);
                }
            }
        }
"##)
    .expect("failed to parse");

    let circuit = &ir.circuits[0];
    assert_eq!(circuit.body.len(), 2);

    match &circuit.body[0] {
        ExprIR::Assert {
            kind: AssertKind::Assert(_),
            ..
        } => {}
        other => panic!("expected Assert, got: {other:?}"),
    }

    match &circuit.body[1] {
        ExprIR::Assert {
            kind: AssertKind::AssertEq(_, _),
            ..
        } => {}
        other => panic!("expected AssertEq, got: {other:?}"),
    }
}

#[test]
fn parse_disclose_expression() {
    let ir = parse(r##"
        mod disclosing {
            #[nocturne(ledger)]
            pub struct State {
                threshold: Cell,
            }

            impl State {
                #[nocturne(constructor)]
                pub fn new() -> Self {
                    Self { threshold: Cell::new(0) }
                }

                #[nocturne(circuit)]
                pub fn reveal(&mut self) {
                    self.threshold.set(nocturne::disclose(42));
                }
            }
        }
"##)
    .expect("failed to parse");

    let circuit = &ir.circuits[0];
    assert_eq!(circuit.body.len(), 1);
    match &circuit.body[0] {
        ExprIR::LedgerAccess {
            field,
            method,
            args,
            ..
        } => {
            assert_eq!(field.to_string(), "threshold");
            assert_eq!(method.to_string(), "set");
            assert_eq!(args.len(), 1);
            match &args[0] {
                ExprIR::Disclose { .. } => {}
                other => panic!("expected Disclose, got: {other:?}"),
            }
        }
        other => panic!("expected LedgerAccess, got: {other:?}"),
    }
}

#[test]
fn parse_multiple_ledger_types() {
    let ir = parse(r##"
        mod complex {
            #[nocturne(ledger)]
            pub struct State {
                counter: Counter,
                data: Cell,
                store: Map,
                tree: MerkleTree,
                items: Array,
                members: Set,
            }

            impl State {
                #[nocturne(constructor)]
                pub fn new() -> Self {
                    Self {
                        counter: Counter::zero(),
                        data: Cell::new(0),
                        store: Map::empty(),
                        tree: MerkleTree::empty(),
                        items: Array::new(),
                        members: Set::empty(),
                    }
                }

                #[nocturne(circuit)]
                pub fn noop(&mut self) {}
            }
        }
"##)
    .expect("failed to parse");

    let fields = &ir.ledger.fields;
    assert_eq!(fields.len(), 6);
    assert_eq!(fields[0].type_kind, LedgerTypeKind::Counter);
    assert_eq!(fields[1].type_kind, LedgerTypeKind::Cell);
    assert_eq!(fields[2].type_kind, LedgerTypeKind::LedgerMap);
    assert_eq!(fields[3].type_kind, LedgerTypeKind::MerkleTree);
    assert_eq!(fields[4].type_kind, LedgerTypeKind::Array);
    assert_eq!(fields[5].type_kind, LedgerTypeKind::LedgerSet);
}

#[test]
fn payload_enum_surfaces_diagnostic_at_offending_variant() {
    let err = parse(r##"
        mod bad {
            #[derive(Clone)]
            pub enum Action {
                Mint,
                Burn(u64),
            }

            #[nocturne(ledger)]
            pub struct State {
                seen: Counter,
            }

            impl State {
                #[nocturne(constructor)]
                pub fn new() -> Self { Self { seen: Counter::zero() } }
                #[nocturne(circuit)]
                pub fn noop(&mut self) {}
            }
        }
"##)
    .expect_err("payload-carrying enum variant must produce a parse error");
    let msg = format!("{err:?}");
    assert!(
        msg.contains("Burn") && msg.contains("payload"),
        "diagnostic must name the offending variant + cite payload as the reason; got: {msg}"
    );
}

#[test]
fn free_fn_with_primitive_params_registers_as_helper() {
    let ir = parse(r##"
        mod with_helper {
            #[nocturne(ledger)]
            pub struct State { count: Counter }
            impl State {
                #[nocturne(constructor)]
                pub fn new() -> Self { Self { count: Counter::zero() } }
                #[nocturne(circuit)]
                pub fn noop(&mut self) {}
            }
            pub fn double(x: u64) -> u64 { x + x }
        }
"##)
    .expect("contract with a helper must parse");
    assert_eq!(ir.helpers.len(), 1, "exactly one helper expected");
    assert_eq!(ir.helpers[0].name.to_string(), "double");
    assert_eq!(ir.helpers[0].params.len(), 1);
    assert_eq!(ir.helpers[0].params[0].name.to_string(), "x");
    assert!(!ir.helpers[0].body.is_empty(), "body must be parsed");
}

#[test]
fn free_fn_with_reference_param_is_not_a_helper() {
    let ir = parse(r##"
        mod rejected_helper {
            #[nocturne(ledger)]
            pub struct State { count: Counter }
            impl State {
                #[nocturne(constructor)]
                pub fn new() -> Self { Self { count: Counter::zero() } }
                #[nocturne(circuit)]
                pub fn noop(&mut self) {}
            }
            pub fn peek(_x: &u64) -> u64 { 0 }
        }
"##)
    .expect("non-inlinable free fns must NOT error the parse");
    assert!(
        ir.helpers.is_empty(),
        "ref-taking fn must NOT be registered"
    );
}

#[test]
fn free_fn_shadowing_builtin_is_not_a_helper() {
    let ir = parse(r##"
        mod shadowing {
            #[nocturne(ledger)]
            pub struct State { count: Counter }
            impl State {
                #[nocturne(constructor)]
                pub fn new() -> Self { Self { count: Counter::zero() } }
                #[nocturne(circuit)]
                pub fn noop(&mut self) {}
            }
            pub fn persistent_hash(x: u64) -> u64 { x }
        }
"##)
    .expect("builtin-named fn must NOT error the parse");
    assert!(
        ir.helpers.is_empty(),
        "fn shadowing a builtin name must NOT be registered"
    );
}

#[test]
fn witness_param_with_custom_name_is_detected_by_type() {
    let ir = parse(r##"
        mod custom_name {
            #[nocturne(ledger)]
            pub struct State { count: Counter }

            #[nocturne(witnesses)]
            pub struct BallotWitnesses {
                voter_secret: Field,
            }

            impl State {
                #[nocturne(constructor)]
                pub fn new() -> Self { Self { count: Counter::zero() } }

                #[nocturne(circuit)]
                pub fn cast(&mut self, w: &BallotWitnesses) {
                    let commitment = persistent_hash(&w.voter_secret);
                    self.count.increment();
                }
            }
        }
"##)
    .expect("param `w: &BallotWitnesses` must parse");

    let circuit = &ir.circuits[0];
    assert!(circuit.takes_witnesses, "must detect witnesses by type");
    assert_eq!(
        circuit.witnesses_param_name.as_ref().unwrap().to_string(),
        "w"
    );
    assert!(
        circuit.params.is_empty(),
        "witness param must not be public"
    );
    match &circuit.body[0] {
        ExprIR::Let { value, .. } => match &**value {
            ExprIR::FnCall { args, .. } => match &args[0] {
                ExprIR::Reference { expr, .. } => match &**expr {
                    ExprIR::WitnessAccess { field, .. } => {
                        assert_eq!(field.to_string(), "voter_secret");
                    }
                    other => panic!("expected WitnessAccess, got: {other:?}"),
                },
                other => panic!("expected Reference, got: {other:?}"),
            },
            other => panic!("expected FnCall, got: {other:?}"),
        },
        other => panic!("expected Let, got: {other:?}"),
    }
}

#[test]
fn param_named_num_witnesses_is_a_public_param() {
    let ir = parse(r##"
        mod misleading_name {
            #[nocturne(ledger)]
            pub struct State { count: Counter }

            impl State {
                #[nocturne(constructor)]
                pub fn new() -> Self { Self { count: Counter::zero() } }

                #[nocturne(circuit)]
                pub fn bump(&mut self, num_witnesses: u64) {
                    self.count.increment();
                }
            }
        }
"##)
    .expect("u64 param named num_witnesses must parse");

    let circuit = &ir.circuits[0];
    assert!(!circuit.takes_witnesses);
    assert_eq!(circuit.params.len(), 1, "num_witnesses must stay public");
    assert_eq!(circuit.params[0].name.to_string(), "num_witnesses");
}

#[test]
fn local_var_named_eyewitnesses_is_not_a_witness_receiver() {
    let ir = parse(r##"
        mod local_name {
            #[nocturne(ledger)]
            pub struct State { count: Counter }

            #[nocturne(witnesses)]
            pub struct W { secret: Field }

            impl State {
                #[nocturne(constructor)]
                pub fn new() -> Self { Self { count: Counter::zero() } }

                #[nocturne(circuit)]
                pub fn run(&mut self, witnesses: &W) {
                    let eyewitnesses = 1u64;
                    let y = eyewitnesses.wrapping_add(2);
                    self.count.increment();
                }
            }
        }
"##)
    .expect("local named eyewitnesses must parse");

    let circuit = &ir.circuits[0];
    match &circuit.body[1] {
        ExprIR::Let { value, .. } => match &**value {
            ExprIR::MethodCall { method, .. } => {
                assert_eq!(method.to_string(), "wrapping_add");
            }
            other => {
                panic!("expected MethodCall (not WitnessCall) on local var, got: {other:?}")
            }
        },
        other => panic!("expected Let, got: {other:?}"),
    }
}

#[test]
fn impl_before_witnesses_struct_registers_methods() {
    let ir = parse(r##"
        mod impl_first {
            #[nocturne(ledger)]
            pub struct State { stored: Cell<Field> }

            impl W {
                pub fn derive(&self) -> Field {
                    Field::default()
                }
            }

            #[nocturne(witnesses)]
            pub struct W;

            impl State {
                #[nocturne(constructor)]
                pub fn new() -> Self { Self { stored: Cell::new(Field::default()) } }

                #[nocturne(circuit)]
                pub fn store(&mut self, witnesses: &W) {
                    self.stored.set(witnesses.derive());
                }
            }
        }
"##)
    .expect("impl-before-struct must parse");

    let w = ir.witnesses.as_ref().expect("witnesses registered");
    assert_eq!(w.methods.len(), 1, "method from impl-before-struct");
    assert_eq!(w.methods[0].name.to_string(), "derive");
    match &ir.circuits[0].body[0] {
        ExprIR::LedgerAccess { args, .. } => match &args[0] {
            ExprIR::WitnessCall { name, .. } => {
                assert_eq!(name.to_string(), "derive");
            }
            other => panic!("expected WitnessCall, got: {other:?}"),
        },
        other => panic!("expected LedgerAccess, got: {other:?}"),
    }
}

#[test]
fn unknown_witness_field_is_rejected() {
    let err = parse(r##"
        mod typo_field {
            #[nocturne(ledger)]
            pub struct State { count: Counter }

            #[nocturne(witnesses)]
            pub struct W { secret: Field }

            impl State {
                #[nocturne(constructor)]
                pub fn new() -> Self { Self { count: Counter::zero() } }

                #[nocturne(circuit)]
                pub fn run(&mut self, witnesses: &W) {
                    let x = witnesses.sekret;
                    self.count.increment();
                }
            }
        }
"##)
    .expect_err("typo'd witness field must be rejected");
    let msg = format!("{err:?}");
    assert!(
        msg.contains("sekret"),
        "diagnostic must name the unknown field; got: {msg}"
    );
}

#[test]
fn unknown_witness_method_is_rejected() {
    let err = parse(r##"
        mod typo_method {
            #[nocturne(ledger)]
            pub struct State { stored: Cell<Field> }

            #[nocturne(witnesses)]
            pub struct W;

            impl W {
                pub fn derive(&self) -> Field { Field::default() }
            }

            impl State {
                #[nocturne(constructor)]
                pub fn new() -> Self { Self { stored: Cell::new(Field::default()) } }

                #[nocturne(circuit)]
                pub fn run(&mut self, witnesses: &W) {
                    self.stored.set(witnesses.derve());
                }
            }
        }
"##)
    .expect_err("typo'd witness method must be rejected");
    let msg = format!("{err:?}");
    assert!(
        msg.contains("derve"),
        "diagnostic must name the unknown method; got: {msg}"
    );
}

#[test]
fn non_registered_method_on_witnesses_receiver_is_rejected() {
    let err = parse(r##"
        mod clone_call {
            #[nocturne(ledger)]
            pub struct State { count: Counter }

            #[nocturne(witnesses)]
            pub struct W { secret: Field }

            impl State {
                #[nocturne(constructor)]
                pub fn new() -> Self { Self { count: Counter::zero() } }

                #[nocturne(circuit)]
                pub fn run(&mut self, witnesses: &W) {
                    let w2 = witnesses.clone();
                    self.count.increment();
                }
            }
        }
"##)
    .expect_err("witnesses.clone() must error, not become a WitnessCall");
    let msg = format!("{err:?}");
    assert!(
        msg.contains("clone"),
        "diagnostic must name the method; got: {msg}"
    );
}

#[test]
fn misspelled_nocturne_attr_is_rejected() {
    let err = parse(r##"
        mod typo_attr {
            #[nocturne(ledger)]
            pub struct State { count: Counter }

            impl State {
                #[nocturne(constructor)]
                pub fn new() -> Self { Self { count: Counter::zero() } }

                #[nocturne(circut)]
                pub fn bump(&mut self) {
                    self.count.increment();
                }
            }
        }
"##)
    .expect_err("#[nocturne(circut)] must be a spanned error, not silently ignored");
    let msg = format!("{err:?}");
    assert!(
        msg.contains("circut") && msg.contains("circuit"),
        "diagnostic must name the typo and list valid attrs; got: {msg}"
    );
}

#[test]
fn bare_nocturne_attr_is_rejected() {
    let err = parse(r##"
        mod bare_attr {
            #[nocturne]
            pub struct State { count: Counter }

            impl State {
                #[nocturne(constructor)]
                pub fn new() -> Self { Self { count: Counter::zero() } }
                #[nocturne(circuit)]
                pub fn noop(&mut self) {}
            }
        }
"##)
    .expect_err("#[nocturne] without arguments must error");
    let err = err.into_first_error();
    assert_eq!(err.code, ErrorCode::InvalidAttribute);
}

#[test]
fn duplicate_nocturne_attrs_on_one_item_are_rejected() {
    let err = parse(r##"
        mod dup_attr {
            #[nocturne(ledger)]
            pub struct State { count: Counter }

            impl State {
                #[nocturne(constructor)]
                pub fn new() -> Self { Self { count: Counter::zero() } }

                #[nocturne(circuit)]
                #[nocturne(query)]
                pub fn confused(&mut self) {
                    self.count.increment();
                }
            }
        }
"##)
    .expect_err("two #[nocturne(...)] attrs on one item must error, not first-wins");
    let msg = format!("{err:?}");
    assert!(
        msg.contains("duplicate"),
        "diagnostic must say duplicate; got: {msg}"
    );
}

#[test]
fn trailing_comma_in_nocturne_attr_is_tolerated() {
    let ir = parse(r##"
        mod trailing_comma {
            #[nocturne(ledger,)]
            pub struct State { count: Counter }

            impl State {
                #[nocturne(constructor)]
                pub fn new() -> Self { Self { count: Counter::zero() } }
                #[nocturne(circuit,)]
                pub fn bump(&mut self) {
                    self.count.increment();
                }
            }
        }
"##)
    .expect("trailing comma in attr args must parse");
    assert_eq!(ir.circuits.len(), 1);
}

#[test]
fn multiple_errors_are_all_collected() {
    let err = parse(r##"
        mod two_bad {
            #[nocturne(ledger)]
            pub struct State { count: Counter }

            #[nocturne(witnesses)]
            pub struct W { secret: Field }

            impl State {
                #[nocturne(constructor)]
                pub fn new() -> Self { Self { count: Counter::zero() } }

                #[nocturne(circuit)]
                pub fn a(&mut self, witnesses: &W) {
                    let x = witnesses.sekret;
                    self.count.increment();
                }

                #[nocturne(circuit)]
                pub fn b(&mut self, witnesses: &W) {
                    let y = witnesses.also_wrong;
                    self.count.increment();
                }
            }
        }
"##)
    .expect_err("both bad circuits must error");
    assert_eq!(
        err.errors().len(),
        2,
        "both errors must be collected, not just the first; got: {err:?}"
    );
    let msg = format!("{err:?}");
    assert!(msg.contains("sekret") && msg.contains("also_wrong"));
}

fn count_witness_calls(body: &[ExprIR]) -> usize {
    let mut n = 0;
    for stmt in body {
        let mut nodes: Vec<&ExprIR> = Vec::new();
        for_each_expr(stmt, &mut nodes);
        n += nodes.iter().filter(|e| matches!(e, ExprIR::WitnessCall { .. })).count();
    }
    n
}

#[test]
fn match_on_witness_call_scrutinee_draws_once() {
    let ir = parse(r##"
        mod scrutinee_once {
            pub enum Vote { For, Against, Abstain }

            #[nocturne(ledger)]
            pub struct State { a: Counter, b: Counter }

            #[nocturne(witnesses)]
            pub struct W;

            impl W {
                pub fn choice(&self) -> Vote { Vote::For }
            }

            impl State {
                #[nocturne(constructor)]
                pub fn new() -> Self {
                    Self { a: Counter::zero(), b: Counter::zero() }
                }

                #[nocturne(circuit)]
                pub fn cast(&mut self, witnesses: &W) {
                    match witnesses.choice() {
                        Vote::For => { self.a.increment(); }
                        Vote::Against => { self.b.increment(); }
                        _ => { self.a.increment(); }
                    }
                }
            }
        }
"##)
    .expect("match on a WitnessCall scrutinee must parse");

    let body = &ir.circuits[0].body;
    assert_eq!(
        count_witness_calls(body),
        1,
        "an effectful scrutinee must be drawn exactly once, not once per arm; body: {body:?}"
    );
}

#[test]
fn helper_named_disclose_amount_is_not_hijacked() {
    let ir = parse(r##"
        mod not_disclose {
            #[nocturne(ledger)]
            pub struct State { total: Cell<u64> }

            impl State {
                #[nocturne(constructor)]
                pub fn new() -> Self { Self { total: Cell::new(0) } }

                #[nocturne(circuit)]
                pub fn run(&mut self, a: u64, b: u64) {
                    self.total.set(disclose_amount(a, b));
                }
            }

            pub fn disclose_amount(a: u64, b: u64) -> u64 { a + b }
        }
"##)
    .expect("disclose_amount must parse as a regular helper call");

    match &ir.circuits[0].body[0] {
        ExprIR::LedgerAccess { args, .. } => match &args[0] {
            ExprIR::FnCall { name, args, .. } => {
                assert_eq!(name.to_string(), "disclose_amount");
                assert_eq!(args.len(), 2, "both args must be preserved");
            }
            other => panic!("expected FnCall, got: {other:?}"),
        },
        other => panic!("expected LedgerAccess, got: {other:?}"),
    }
}

#[test]
fn disclose_with_two_args_is_rejected() {
    let err = parse(r##"
        mod bad_disclose {
            #[nocturne(ledger)]
            pub struct State { total: Cell<u64> }

            impl State {
                #[nocturne(constructor)]
                pub fn new() -> Self { Self { total: Cell::new(0) } }

                #[nocturne(circuit)]
                pub fn run(&mut self, a: u64, b: u64) {
                    self.total.set(nocturne::disclose(a, b));
                }
            }
        }
"##)
    .expect_err("disclose with two args must error");
    let msg = format!("{err:?}");
    assert!(msg.contains("disclose"), "got: {msg}");
}

#[test]
fn for_loop_over_unroll_cap_is_rejected() {
    let err = parse(r##"
        mod big_loop {
            #[nocturne(ledger)]
            pub struct State { count: Counter }

            impl State {
                #[nocturne(constructor)]
                pub fn new() -> Self { Self { count: Counter::zero() } }

                #[nocturne(circuit)]
                pub fn run(&mut self) {
                    for _i in 0..2000 {
                        self.count.increment();
                    }
                }
            }
        }
"##)
    .expect_err("2000-iteration unroll must be rejected");
    let err = err.into_first_error();
    assert_eq!(err.code, ErrorCode::UnsupportedLoop);
    assert!(
        err.message.contains("2000") && err.message.contains("1024"),
        "message must include the count and the cap; got: {}",
        err.message
    );
}

#[test]
fn for_loop_at_unroll_cap_parses() {
    let ir = parse(r##"
        mod max_loop {
            #[nocturne(ledger)]
            pub struct State { count: Counter }

            impl State {
                #[nocturne(constructor)]
                pub fn new() -> Self { Self { count: Counter::zero() } }

                #[nocturne(circuit)]
                pub fn run(&mut self) {
                    for _i in 0..1024 {
                        self.count.increment();
                    }
                }
            }
        }
"##)
    .expect("1024 iterations is exactly at the cap and must parse");
    assert_eq!(ir.circuits.len(), 1);
}

#[test]
fn width_equal_witness_cast_keeps_parsing() {
    let ir = parse(r##"
        mod counter_set {
            #[nocturne(ledger)]
            pub struct State { count: Counter }

            #[nocturne(witnesses)]
            pub struct W { pub target: Uint<64> }

            impl State {
                #[nocturne(constructor)]
                pub fn new() -> Self { Self { count: Counter::zero() } }

                #[nocturne(circuit)]
                pub fn assign(&mut self, witnesses: &W) {
                    self.count.set(witnesses.target.value() as u64);
                }
            }
        }
"##)
    .expect("width-equal cast must keep parsing");
    match &ir.circuits[0].body[0] {
        ExprIR::LedgerAccess { args, .. } => match &args[0] {
            ExprIR::MethodCall { method, .. } => {
                assert_eq!(method.to_string(), "value");
            }
            other => panic!("expected MethodCall, got: {other:?}"),
        },
        other => panic!("expected LedgerAccess, got: {other:?}"),
    }
}

#[test]
fn narrowing_witness_cast_is_rejected() {
    let err = parse(r##"
        mod narrows {
            #[nocturne(ledger)]
            pub struct State { count: Counter }

            #[nocturne(witnesses)]
            pub struct W { pub target: Uint<64> }

            impl State {
                #[nocturne(constructor)]
                pub fn new() -> Self { Self { count: Counter::zero() } }

                #[nocturne(circuit)]
                pub fn assign(&mut self, witnesses: &W) {
                    self.count.set(witnesses.target.value() as u32);
                }
            }
        }
"##)
    .expect_err("Uint<64> -> u32 cast must be rejected as narrowing");
    let msg = format!("{err:?}");
    assert!(
        msg.contains("narrow"),
        "diagnostic must explain narrowing; got: {msg}"
    );
}

#[test]
fn widening_param_cast_parses_and_narrowing_param_cast_errors() {
    let ok = parse(r##"
        mod widens {
            #[nocturne(ledger)]
            pub struct State { total: Cell<u64> }

            impl State {
                #[nocturne(constructor)]
                pub fn new() -> Self { Self { total: Cell::new(0) } }

                #[nocturne(circuit)]
                pub fn run(&mut self, x: u32) {
                    self.total.set(x as u64);
                }
            }
        }
"##);
    assert!(ok.is_ok(), "u32 -> u64 param cast must parse: {ok:?}");

    let err = parse(r##"
        mod narrows_param {
            #[nocturne(ledger)]
            pub struct State { total: Cell<u64> }

            impl State {
                #[nocturne(constructor)]
                pub fn new() -> Self { Self { total: Cell::new(0) } }

                #[nocturne(circuit)]
                pub fn run(&mut self, x: u64) {
                    self.total.set(x as u32);
                }
            }
        }
"##);
    assert!(err.is_err(), "u64 -> u32 param cast must be rejected");
}

#[test]
fn let_shadowing_a_param_blocks_param_width_inference() {
    let err = parse(r##"
        mod shadows {
            #[nocturne(ledger)]
            pub struct State { big: Cell<u64>, total: Cell<u64> }

            impl State {
                #[nocturne(constructor)]
                pub fn new() -> Self {
                    Self { big: Cell::new(0), total: Cell::new(0) }
                }

                #[nocturne(circuit)]
                pub fn run(&mut self, x: u32) {
                    let x = self.big.get();
                    self.total.set(x as u32);
                }
            }
        }
"##)
    .expect_err("cast of a let-shadowed param must not use the param's width");
    let msg = format!("{err:?}");
    assert!(
        msg.contains("not inferable"),
        "diagnostic must say the width is not inferable; got: {msg}"
    );
}

#[test]
fn uninferable_cast_to_u128_is_allowed() {
    let ir = parse(r##"
        mod widest {
            #[nocturne(ledger)]
            pub struct State { total: Cell<u128> }

            impl State {
                #[nocturne(constructor)]
                pub fn new() -> Self { Self { total: Cell::new(0) } }

                #[nocturne(circuit)]
                pub fn run(&mut self) {
                    let v = self.total.get();
                    self.total.set(v as u128);
                }
            }
        }
"##)
    .expect("cast to u128 can never narrow and must parse");
    assert_eq!(ir.circuits.len(), 1);
}

#[test]
fn compound_assignment_is_rejected() {
    let err = parse(r##"
        mod plus_eq {
            #[nocturne(ledger)]
            pub struct State { total: Cell<u64> }

            impl State {
                #[nocturne(constructor)]
                pub fn new() -> Self { Self { total: Cell::new(0) } }

                #[nocturne(circuit)]
                pub fn run(&mut self, x: u64) {
                    let mut acc = 1u64;
                    acc += x;
                    self.total.set(acc);
                }
            }
        }
"##)
    .expect_err("+= must be a hard error, not a silent miscompile");
    let msg = format!("{err:?}");
    assert!(
        msg.contains("let"),
        "diagnostic must suggest rebinding; got: {msg}"
    );
}

#[test]
fn tuple_pattern_param_is_rejected() {
    let err = parse(r##"
        mod tuple_param {
            #[nocturne(ledger)]
            pub struct State { total: Cell<u64> }

            impl State {
                #[nocturne(constructor)]
                pub fn new() -> Self { Self { total: Cell::new(0) } }

                #[nocturne(circuit)]
                pub fn run(&mut self, (a, b): (u64, u64)) {
                    self.total.set(a + b);
                }
            }
        }
"##)
    .expect_err("tuple-pattern param must be a hard error, not silently dropped");
    let msg = format!("{err:?}");
    assert!(
        msg.contains("identifier"),
        "diagnostic must explain the restriction; got: {msg}"
    );
}

#[test]
fn constructor_with_wrong_return_type_is_rejected() {
    let err = parse(r##"
        mod bad_ctor {
            #[nocturne(ledger)]
            pub struct State { count: Counter }

            impl State {
                #[nocturne(constructor)]
                pub fn new() -> u64 { 0 }

                #[nocturne(circuit)]
                pub fn noop(&mut self) {}
            }
        }
"##)
    .expect_err("constructor returning u64 must be rejected");
    let err = err.into_first_error();
    assert_eq!(err.code, ErrorCode::InvalidConstructorReturn);
}

#[test]
fn constructor_returning_ledger_name_parses() {
    let ir = parse(r##"
        mod named_ctor {
            #[nocturne(ledger)]
            pub struct State { count: Counter }

            impl State {
                #[nocturne(constructor)]
                pub fn new() -> State {
                    State { count: Counter::zero() }
                }

                #[nocturne(circuit)]
                pub fn noop(&mut self) {}
            }
        }
"##)
    .expect("constructor returning the ledger struct name must parse");
    assert_eq!(ir.constructors.len(), 1);
}

#[test]
fn generic_free_fn_is_not_a_helper() {
    let ir = parse(r##"
        mod generic_helper {
            #[nocturne(ledger)]
            pub struct State { count: Counter }

            impl State {
                #[nocturne(constructor)]
                pub fn new() -> Self { Self { count: Counter::zero() } }
                #[nocturne(circuit)]
                pub fn noop(&mut self) {}
            }

            pub fn id<T>(x: T) -> T { x }
        }
"##)
    .expect("generic free fn must not error the parse");
    assert!(
        ir.helpers.is_empty(),
        "generic fns can't be inlined and must not register as helpers"
    );
}

#[test]
fn glob_imported_variant_pattern_is_rejected() {
    let err = parse(r##"
        mod glob_variant {
            pub enum Status { Open, Closed }

            #[nocturne(ledger)]
            pub struct State { a: Counter, b: Counter }

            #[nocturne(witnesses)]
            pub struct W { pub status: Status }

            impl State {
                #[nocturne(circuit)]
                pub fn run(&mut self, witnesses: &W) {
                    match witnesses.status {
                        Status::Open => { self.a.increment(); }
                        Closed => { self.b.increment(); }
                    }
                }

                #[nocturne(constructor)]
                pub fn new() -> Self {
                    Self { a: Counter::zero(), b: Counter::zero() }
                }
            }
        }
"##)
    .expect_err("bare `Closed` arm silently becomes a wildcard; must error");
    let msg = format!("{err:?}");
    assert!(
        msg.contains("Closed") && msg.contains("Status"),
        "diagnostic must tell the user to qualify; got: {msg}"
    );
}

#[test]
fn binding_arm_colliding_with_unrelated_enum_variant_is_allowed() {
    let ir = parse(r##"
        mod unrelated_collision {
            pub enum Status { Open, Closed }
            pub enum Levels { low, high }

            #[nocturne(ledger)]
            pub struct State { a: Counter, b: Counter }

            #[nocturne(witnesses)]
            pub struct W { pub status: Status }

            impl State {
                #[nocturne(circuit)]
                pub fn run(&mut self, witnesses: &W) {
                    match witnesses.status {
                        Status::Open => { self.a.increment(); }
                        low => { self.b.increment(); }
                    }
                }

                #[nocturne(constructor)]
                pub fn new() -> Self {
                    Self { a: Counter::zero(), b: Counter::zero() }
                }
            }
        }
"##)
    .expect("binding arm colliding with an unrelated enum's variant must parse");
    assert_eq!(ir.circuits.len(), 1);
}

#[test]
fn mod_without_inline_content_is_rejected() {
    let err = parse(r##"
        mod external;
"##)
    .expect_err("`mod foo;` must get a dedicated error");
    let err = err.into_first_error();
    assert_eq!(err.code, ErrorCode::EmptyContractModule);
}

#[test]
fn recursive_helper_is_rejected() {
    let err = parse(r##"
        mod recursive {
            #[nocturne(ledger)]
            pub struct State { count: Counter }
            impl State {
                #[nocturne(constructor)]
                pub fn new() -> Self { Self { count: Counter::zero() } }
                #[nocturne(circuit)]
                pub fn noop(&mut self) {}
            }
            pub fn loops(x: u64) -> u64 { loops(x) }
        }
"##)
    .expect_err("self-recursive helper must be rejected");
    let msg = format!("{err:?}");
    assert!(
        msg.contains("recursive helper") && msg.contains("loops"),
        "diagnostic must name the offending helper; got: {msg}"
    );
}

#[test]
fn mutually_recursive_helpers_are_rejected() {
    let err = parse(r##"
        mod mutual_recursion {
            #[nocturne(ledger)]
            pub struct State { count: Counter }
            impl State {
                #[nocturne(constructor)]
                pub fn new() -> Self { Self { count: Counter::zero() } }
                #[nocturne(circuit)]
                pub fn noop(&mut self) {}
            }
            pub fn a(x: u64) -> u64 { b(x) }
            pub fn b(x: u64) -> u64 { a(x) }
        }
"##)
    .expect_err("a → b → a must be rejected");
    let msg = format!("{err:?}");
    assert!(
        msg.contains("recursive helper") && msg.contains("a") && msg.contains("b"),
        "diagnostic must name the cycle; got: {msg}"
    );
}

// ---- circuits

fn compile_circuits(input: &str) -> Vec<(String, IrSource)> {
    compile_circuits_with_spans(input)
        .into_iter()
        .map(|(name, ir, _)| (name, ir))
        .collect()
}

type CircuitWithSpans = (String, IrSource, Vec<std::ops::Range<usize>>);

/// Like `compile_circuits` but keeps the emitter's recorded
/// conditional branch spans alongside each circuit — the ground
/// truth `assert_structural_invariants` uses to decide which
/// instructions were emitted inside a conditional.
fn compile_circuits_with_spans(input: &str) -> Vec<CircuitWithSpans> {
    let module: syn::ItemMod = syn::parse_str(input).expect("parse module");
    let contract = parse_contract(read_module(&module)).expect("parse contract");
    let output = emit_contract(&contract);
    assert!(
        output.errors.is_empty(),
        "circuit emission recorded unexpected errors: {:?}",
        output.errors
    );
    output
        .circuits
        .into_iter()
        .map(|c| (c.circuit_name, zkir_source(&c.ir_source), ranges(&c.branch_spans)))
        .collect()
}

/// Emit a contract and return ONLY the recorded emission errors.
fn emit_errors(input: &str) -> Vec<String> {
    let module: syn::ItemMod = syn::parse_str(input).expect("parse module");
    let contract = parse_contract(read_module(&module)).expect("parse contract");
    emit_contract(&contract).errors
}

/// Wire index produced by the instruction at `position`, computed
/// by replaying allocation the same way the emitter does (inputs
/// first, then one block of indices per instruction's outputs).
fn wire_of(ir: &IrSource, position: usize) -> u32 {
    let mut next = ir.num_inputs;
    for (i, instr) in ir.instructions.iter().enumerate() {
        if i == position {
            return next;
        }
        next += test_output_count(instr);
    }
    panic!("instruction position {position} out of range");
}

/// Mirror of the emitter's `instruction_output_count` for tests.
fn test_output_count(instruction: &Instruction) -> u32 {
    match instruction {
        Instruction::Assert { .. }
        | Instruction::ConstrainBits { .. }
        | Instruction::ConstrainEq { .. }
        | Instruction::ConstrainToBoolean { .. }
        | Instruction::DeclarePubInput { .. }
        | Instruction::PiSkip { .. }
        | Instruction::Output { .. } => 0,
        Instruction::EcAdd { .. }
        | Instruction::EcMul { .. }
        | Instruction::EcMulGenerator { .. }
        | Instruction::HashToCurve { .. }
        | Instruction::DivModPowerOfTwo { .. }
        | Instruction::PersistentHash { .. } => 2,
        _ => 1,
    }
}

#[test]
fn counter_increment_encodes_transcript_ops() {
    let circuits = compile_circuits(r##"
        mod counter {
            #[nocturne(ledger)]
            pub struct CounterState {
                count: Counter,
            }

            impl CounterState {
                #[nocturne(constructor)]
                pub fn new() -> Self {
                    Self { count: Counter::zero() }
                }

                #[nocturne(circuit)]
                pub fn increment(&mut self) {
                    self.count.increment();
                }
            }
        }
"##);

    let (name, ir) = &circuits[0];
    assert_eq!(name, "increment");
    assert!(ir.do_communications_commitment);

    let instrs = ir.instructions.as_ref();

    assert!(matches!(&instrs[0], Instruction::LoadImm { .. }));

    let pub_input_count = instrs
        .iter()
        .filter(|i| matches!(i, Instruction::DeclarePubInput { .. }))
        .count();
    assert!(
        pub_input_count > 0,
        "should emit DeclarePubInput for transcript ops"
    );

    let pi_skip_count = instrs
        .iter()
        .filter(|i| matches!(i, Instruction::PiSkip { .. }))
        .count();
    assert!(pi_skip_count > 0, "should emit PiSkip to group ops");

    let load_imms: Vec<&Instruction> = instrs
        .iter()
        .filter(|i| matches!(i, Instruction::LoadImm { .. }))
        .collect();
    assert!(
        load_imms.len() >= 5,
        "should have LoadImm for guard + 4 VM opcodes, got {}",
        load_imms.len()
    );
}

#[test]
fn print_counter_zkir() {
    let circuits = compile_circuits(r##"
        mod counter {
            #[nocturne(ledger)]
            pub struct CounterState {
                count: Counter,
            }
            impl CounterState {
                #[nocturne(constructor)]
                pub fn new() -> Self { Self { count: Counter::zero() } }
                #[nocturne(circuit)]
                pub fn increment(&mut self) { self.count.increment(); }
            }
        }
"##);
    let (_, ir) = &circuits[0];
    let json = serde_json::to_string_pretty(ir).expect("serialize");
    println!("=== Counter increment ZKIR ===\n{json}");
}

#[test]
fn zkir_roundtrip_json() {
    let circuits = compile_circuits(r##"
        mod counter {
            #[nocturne(ledger)]
            pub struct CounterState {
                count: Counter,
            }

            impl CounterState {
                #[nocturne(constructor)]
                pub fn new() -> Self {
                    Self { count: Counter::zero() }
                }

                #[nocturne(circuit)]
                pub fn increment(&mut self) {
                    self.count.increment();
                }
            }
        }
"##);

    let (_, ir) = &circuits[0];
    let json = serde_json::to_string_pretty(ir).expect("serialize");
    let parsed: serde_json::Value = serde_json::from_str(&json).expect("parse JSON");

    assert_eq!(parsed["do_communications_commitment"], true);

    let instrs = parsed["instructions"].as_array().unwrap();
    assert_eq!(instrs[0]["op"], "load_imm");

    let roundtripped: IrSource = serde_json::from_str(&json).expect("roundtrip");
    assert_eq!(roundtripped.instructions.len(), ir.instructions.len());
}

#[test]
fn witness_access_emits_private_input() {
    let circuits = compile_circuits(r##"
        mod secret {
            #[nocturne(ledger)]
            pub struct State {
                value: Cell,
            }

            #[nocturne(witnesses)]
            pub struct Witnesses {
                secret: Field,
            }

            impl State {
                #[nocturne(constructor)]
                pub fn new() -> Self {
                    Self { value: Cell::new(0) }
                }

                #[nocturne(circuit)]
                pub fn use_secret(&mut self, witnesses: &Witnesses) {
                    let s = witnesses.secret;
                    self.value.set(s);
                }
            }
        }
"##);

    let (_, ir) = &circuits[0];
    let instrs = ir.instructions.as_ref();

    let has_private_input = instrs
        .iter()
        .any(|i| matches!(i, Instruction::PrivateInput { .. }));
    assert!(has_private_input, "witness access should emit PrivateInput");
}

#[test]
fn assert_eq_emits_constrain_eq() {
    let circuits = compile_circuits(r##"
        mod constrained {
            #[nocturne(ledger)]
            pub struct State {
                x: Counter,
            }

            impl State {
                #[nocturne(constructor)]
                pub fn new() -> Self {
                    Self { x: Counter::zero() }
                }

                #[nocturne(circuit)]
                pub fn check(&mut self) {
                    let a = 42;
                    let b = 42;
                    assert_eq!(a, b);
                }
            }
        }
"##);

    let (_, ir) = &circuits[0];
    let instrs = ir.instructions.as_ref();

    let has_constrain_eq = instrs
        .iter()
        .any(|i| matches!(i, Instruction::ConstrainEq { .. }));
    assert!(has_constrain_eq, "assert_eq! should emit ConstrainEq");
}

#[test]
fn persistent_hash_emits_instruction() {
    let circuits = compile_circuits(r##"
        mod hashing {
            #[nocturne(ledger)]
            pub struct State {
                commitment: Cell,
            }

            #[nocturne(witnesses)]
            pub struct Witnesses {
                secret: Field,
            }

            impl State {
                #[nocturne(constructor)]
                pub fn new() -> Self {
                    Self { commitment: Cell::new(0) }
                }

                #[nocturne(circuit)]
                pub fn commit(&mut self, witnesses: &Witnesses) {
                    let hash = persistent_hash(witnesses.secret);
                    self.commitment.set(hash);
                }
            }
        }
"##);

    let (_, ir) = &circuits[0];
    let instrs = ir.instructions.as_ref();

    let has_persistent_hash = instrs
        .iter()
        .any(|i| matches!(i, Instruction::PersistentHash { .. }));
    assert!(has_persistent_hash, "should emit PersistentHash");
}

#[test]
fn ledger_read_emits_public_input() {
    let circuits = compile_circuits(r##"
        mod reader {
            #[nocturne(ledger)]
            pub struct State {
                value: Cell,
            }

            impl State {
                #[nocturne(constructor)]
                pub fn new() -> Self {
                    Self { value: Cell::new(0) }
                }

                #[nocturne(circuit)]
                pub fn read_it(&mut self) {
                    let v = self.value.get();
                }
            }
        }
"##);

    let (_, ir) = &circuits[0];
    let instrs = ir.instructions.as_ref();

    let has_public_input = instrs
        .iter()
        .any(|i| matches!(i, Instruction::PublicInput { .. }));
    assert!(has_public_input, "ledger read should emit PublicInput");

    let has_declare = instrs
        .iter()
        .any(|i| matches!(i, Instruction::DeclarePubInput { .. }));
    assert!(
        has_declare,
        "ledger read should emit DeclarePubInput for VM ops"
    );
}

/// `disclose(v)` is a marker, not an emission: the disclosed value
/// reaches the public view through the ledger op that consumes it.
/// A disclose-emitted DeclarePubInput group has no backing
/// transcript op, so the ledger-reconstructed verifier PIs would
/// never contain it and any active-path disclose would fail at
/// prove time. The circuit must be IDENTICAL with and without the
/// marker.
#[test]
fn disclose_is_transparent_in_zkir() {
    let with_disclose = compile_circuits(r##"
        mod disclosing {
            #[nocturne(ledger)]
            pub struct State { threshold: Cell<u64> }
            impl State {
                #[nocturne(constructor)]
                pub fn new() -> Self { Self { threshold: Cell::new(0u64) } }
                #[nocturne(circuit)]
                pub fn reveal(&mut self) {
                    self.threshold.set(nocturne::disclose(42));
                }
            }
        }
"##);
    let without_disclose = compile_circuits(r##"
        mod disclosing {
            #[nocturne(ledger)]
            pub struct State { threshold: Cell<u64> }
            impl State {
                #[nocturne(constructor)]
                pub fn new() -> Self { Self { threshold: Cell::new(0u64) } }
                #[nocturne(circuit)]
                pub fn reveal(&mut self) {
                    self.threshold.set(42);
                }
            }
        }
"##);

    let a = serde_json::to_string(&with_disclose[0].1).expect("serialize");
    let b = serde_json::to_string(&without_disclose[0].1).expect("serialize");
    assert_eq!(
        a, b,
        "disclose must not add any instruction (DeclarePubInput/PiSkip) to the circuit"
    );
}

/// End-to-end pin for the bind-once match-scrutinee fix.
///
/// `match witnesses.choice() { ... }` lowers to a synthetic
/// `let __nocturne_scrutinee_N = witnesses.choice();` followed by an
/// if-chain comparing the bound Var against each variant. Each
/// `WitnessCall` the emitter sees allocates a fresh PrivateInput
/// block (no cache key), so if the scrutinee were cloned into every
/// arm's comparison the circuit would draw one witness PER ARM —
/// the arms could each see a different value. A unit-only enum
/// return is exactly one Fr (the 8-bit discriminant), so the whole
/// circuit must allocate exactly one PrivateInput.
#[test]
fn match_on_witness_call_allocates_one_private_input_block() {
    let circuits = compile_circuits(r##"
        mod scrutinee_once {
            pub enum Vote { For, Against, Abstain }

            #[nocturne(ledger)]
            pub struct State { a: Counter, b: Counter }

            #[nocturne(witnesses)]
            pub struct W;

            impl W {
                pub fn choice(&self) -> Vote { Vote::For }
            }

            impl State {
                #[nocturne(constructor)]
                pub fn new() -> Self {
                    Self { a: Counter::zero(), b: Counter::zero() }
                }

                #[nocturne(circuit)]
                pub fn cast(&mut self, witnesses: &W) {
                    match witnesses.choice() {
                        Vote::For => { self.a.increment(); }
                        Vote::Against => { self.b.increment(); }
                        _ => { self.a.increment(); }
                    }
                }
            }
        }
"##);

    let (name, ir) = &circuits[0];
    assert_eq!(name, "cast");
    let instrs = ir.instructions.as_ref();

    let private_input_count = instrs
        .iter()
        .filter(|i| matches!(i, Instruction::PrivateInput { .. }))
        .count();
    assert_eq!(
        private_input_count, 1,
        "one witness call behind a synthetic scrutinee binding must \
         allocate exactly one PrivateInput, not one per match arm"
    );
}

/// Regression guard for the on-chain public-input layout.
///
/// `midnight_ledger::verify::ContractCall::public_inputs` unconditionally
/// pushes `[binding_input, communication_commitment, ..transcript]`. If a
/// circuit is emitted with `do_communications_commitment = false`, its
/// verifier key only reserves a slot for `binding_input`, and the ledger's
/// extra commitment input causes a Plonk PI-count mismatch at verify time.
///
/// Every Nocturne-emitted circuit must therefore opt in to the commitment
/// slot — including circuits without a return value.
#[test]
fn every_circuit_emits_communications_commitment_slot() {
    let circuits = compile_circuits(r##"
        mod shapes {
            #[nocturne(ledger)]
            pub struct State {
                count: Counter,
                flag: Cell<bool>,
            }

            #[nocturne(witnesses)]
            pub struct Witnesses {
                pub choice: Boolean,
            }

            impl State {
                #[nocturne(constructor)]
                pub fn new() -> Self {
                    Self { count: Counter::zero(), flag: Cell::new(false) }
                }

                #[nocturne(circuit)]
                pub fn increment(&mut self) {
                    self.count.increment();
                }

                #[nocturne(circuit)]
                pub fn cast(&mut self, witnesses: &Witnesses) {
                    if witnesses.choice.value() {
                        self.count.increment();
                    } else {
                        self.flag.set(true);
                    }
                }

                #[nocturne(circuit)]
                pub fn get_count(&self) -> u64 {
                    self.count.value()
                }
            }
        }
"##);

    assert!(!circuits.is_empty(), "test contract must produce circuits");
    for (name, ir) in &circuits {
        assert!(
            ir.do_communications_commitment,
            "circuit '{name}' has do_communications_commitment=false; \
             this would fail on-chain verify due to ledger PI count mismatch"
        );
    }
}

#[test]
fn unsupported_div_fails_artifact_generation() {
    let module: syn::ItemMod = syn::parse_str(r##"
        mod divider {
            #[nocturne(ledger)]
            pub struct State { x: Counter }
            #[nocturne(witnesses)]
            pub struct W { a: Uint<64>, b: Uint<64>, c: Uint<64> }
            impl State {
                #[nocturne(constructor)]
                pub fn new() -> Self { Self { x: Counter::zero() } }
                #[nocturne(circuit)]
                pub fn check(&mut self, witnesses: &W) {
                    assert!(witnesses.a / witnesses.b == witnesses.c);
                }
            }
        }
"##)
    .expect("parse module");
    let contract = parse_contract(read_module(&module)).expect("parse contract");

    let errors = generate_artifacts(&contract, String::new())
        .err()
        .expect("an unsupported Div inside assert! must fail artifact generation");
    assert!(
        errors.iter().any(|e| e.contains('/')),
        "error must mention the unsupported operator, got: {errors:?}"
    );
}

/// A trailing cache-hit expression (a let-bound witness
/// re-reference) must drive `Output` with the WITNESS wire, not
/// whatever wire happened to be allocated last by the preceding
/// ledger write.
#[test]
fn trailing_cache_hit_var_outputs_witness_wire() {
    let circuits = compile_circuits(r##"
        mod ret_cache {
            #[nocturne(ledger)]
            pub struct State { cell: Cell<Field> }
            #[nocturne(witnesses)]
            pub struct W { secret: Field }
            impl State {
                #[nocturne(constructor)]
                pub fn new() -> Self { Self { cell: Cell::new(Field::from(0u64)) } }
                #[nocturne(circuit)]
                pub fn store(&mut self, witnesses: &W) -> Field {
                    let s = witnesses.secret;
                    self.cell.set(s);
                    s
                }
            }
        }
"##);

    let (_, ir) = &circuits[0];
    let instrs = ir.instructions.as_ref();

    let private_input_pos = instrs
        .iter()
        .position(|i| matches!(i, Instruction::PrivateInput { .. }))
        .expect("witness allocates a PrivateInput");
    let witness_wire = wire_of(ir, private_input_pos);

    let outputs: Vec<u32> = instrs
        .iter()
        .filter_map(|i| match i {
            Instruction::Output { var } => Some(*var),
            _ => None,
        })
        .collect();
    assert_eq!(outputs.len(), 1, "exactly one Output expected");
    assert_eq!(
        outputs[0], witness_wire,
        "Output must reference the cached witness wire, not the last-allocated wire"
    );
}

/// An explicit trailing `return x;` must emit exactly one Output
/// (previously the Return arm AND the epilogue both emitted one).
#[test]
fn explicit_final_return_emits_single_output() {
    let circuits = compile_circuits(r##"
        mod ret_explicit {
            #[nocturne(ledger)]
            pub struct State { count: Counter }
            impl State {
                #[nocturne(constructor)]
                pub fn new() -> Self { Self { count: Counter::zero() } }
                #[nocturne(circuit)]
                pub fn get_count(&self) -> u64 {
                    return self.count.value();
                }
            }
        }
"##);

    let (_, ir) = &circuits[0];
    let output_count = ir
        .instructions
        .iter()
        .filter(|i| matches!(i, Instruction::Output { .. }))
        .count();
    assert_eq!(
        output_count, 1,
        "trailing `return x;` must emit exactly one Output"
    );
}

#[test]
fn return_inside_helper_errors() {
    let errors = emit_errors(r##"
        mod helper_ret {
            #[nocturne(ledger)]
            pub struct State { cell: Cell<Uint<64>> }
            #[nocturne(witnesses)]
            pub struct W { a: Uint<64> }

            fn pass_through(v: Uint<64>) -> Uint<64> {
                return v;
            }

            impl State {
                #[nocturne(constructor)]
                pub fn new() -> Self { Self { cell: Cell::new(Uint::<64>::from(0u64)) } }
                #[nocturne(circuit)]
                pub fn run(&mut self, witnesses: &W) {
                    let d = pass_through(witnesses.a);
                    self.cell.set(d);
                }
            }
        }
"##);
    assert!(
        errors.iter().any(|e| e.contains("inlined helper")),
        "`return` inside an inlined helper must be rejected, got: {errors:?}"
    );
}

#[test]
fn non_tail_return_errors() {
    let errors = emit_errors(r##"
        mod ret_mid {
            #[nocturne(ledger)]
            pub struct State { count: Counter }
            impl State {
                #[nocturne(constructor)]
                pub fn new() -> Self { Self { count: Counter::zero() } }
                #[nocturne(circuit)]
                pub fn early(&mut self) -> u64 {
                    return self.count.value();
                    self.count.increment();
                }
            }
        }
"##);
    assert!(
        errors.iter().any(|e| e.contains("final statement")),
        "non-tail `return` must be rejected, got: {errors:?}"
    );
}

#[test]
fn comparison_widens_to_max_operand_width() {
    let circuits = compile_circuits(r##"
        mod widths {
            #[nocturne(ledger)]
            pub struct State { x: Counter }
            #[nocturne(witnesses)]
            pub struct W { small: Uint<8>, big: Uint<128> }
            impl State {
                #[nocturne(constructor)]
                pub fn new() -> Self { Self { x: Counter::zero() } }
                #[nocturne(circuit)]
                pub fn check(&mut self, witnesses: &W) {
                    assert!(witnesses.small < witnesses.big);
                }
            }
        }
"##);

    let (_, ir) = &circuits[0];
    let less_than_bits: Vec<u32> = ir
        .instructions
        .iter()
        .filter_map(|i| match i {
            Instruction::LessThan { bits, .. } => Some(*bits),
            _ => None,
        })
        .collect();
    assert_eq!(
        less_than_bits,
        vec![128],
        "Uint<8> vs Uint<128> comparison must constrain at the MAX width (128)"
    );
}

#[test]
fn comparison_with_field_witness_errors() {
    let errors = emit_errors(r##"
        mod field_cmp {
            #[nocturne(ledger)]
            pub struct State { x: Counter }
            #[nocturne(witnesses)]
            pub struct W { f: Field, b: Uint<64> }
            impl State {
                #[nocturne(constructor)]
                pub fn new() -> Self { Self { x: Counter::zero() } }
                #[nocturne(circuit)]
                pub fn check(&mut self, witnesses: &W) {
                    assert!(witnesses.b < witnesses.f);
                }
            }
        }
"##);
    assert!(
        errors.iter().any(|e| e.contains("bit width")),
        "comparison against a Field-typed witness must error, got: {errors:?}"
    );
}

#[test]
fn u128_literal_loads_full_value() {
    let big: u128 = 18446744073709551617;

    let circuits = compile_circuits(r##"
        mod big_lit {
            #[nocturne(ledger)]
            pub struct State { big: Cell<Uint<128>> }
            impl State {
                #[nocturne(constructor)]
                pub fn new() -> Self { Self { big: Cell::new(Uint::<128>::from(0u64)) } }
                #[nocturne(circuit)]
                pub fn set_big(&mut self) {
                    self.big.set(18446744073709551617u128);
                }
            }
        }
"##);

    let (_, ir) = &circuits[0];
    let has_full_value = ir
        .instructions
        .iter()
        .any(|i| matches!(i, Instruction::LoadImm { imm } if *imm == Fr::from(big)));
    assert!(
        has_full_value,
        "a literal above u64::MAX must LoadImm its full 128-bit value, \
         not a u64 truncation"
    );
}

#[test]
fn cell_tuple_read_emits_one_public_input_per_fr() {
    let circuits = compile_circuits(r##"
        mod pair_reader {
            #[nocturne(ledger)]
            pub struct State { pair: Cell<(u64, u64)> }
            impl State {
                #[nocturne(constructor)]
                pub fn new() -> Self { Self { pair: Cell::new((0u64, 0u64)) } }
                #[nocturne(circuit)]
                pub fn read_pair(&self) {
                    let _p = self.pair.get();
                }
            }
        }
"##);

    let (_, ir) = &circuits[0];
    let public_inputs = ir
        .instructions
        .iter()
        .filter(|i| matches!(i, Instruction::PublicInput { .. }))
        .count();
    assert_eq!(
        public_inputs, 2,
        "Cell<(u64, u64)> read must emit one PublicInput per value Fr"
    );

    let has_popeq_skip = ir
        .instructions
        .iter()
        .any(|i| matches!(i, Instruction::PiSkip { count: 6, .. }));
    assert!(
        has_popeq_skip,
        "Popeq PiSkip must claim 1 + alignment atoms + value Frs = 6"
    );
}

#[test]
fn witness_first_read_in_branch_reused_errors() {
    let errors = emit_errors(r##"
        mod cond_reuse {
            #[nocturne(ledger)]
            pub struct State { a: Cell<Uint<64>>, b: Cell<Uint<64>> }
            #[nocturne(witnesses)]
            pub struct W { c: Boolean, x: Uint<64> }
            impl State {
                #[nocturne(constructor)]
                pub fn new() -> Self {
                    Self {
                        a: Cell::new(Uint::<64>::from(0u64)),
                        b: Cell::new(Uint::<64>::from(0u64)),
                    }
                }
                #[nocturne(circuit)]
                pub fn pick(&mut self, witnesses: &W) {
                    if witnesses.c.value() {
                        self.a.set(witnesses.x);
                    } else {
                        self.b.set(witnesses.x);
                    }
                }
            }
        }
"##);
    assert!(
        errors.iter().any(|e| e.contains("hoist")),
        "a witness field first read inside a branch and reused in the sibling \
         must be rejected with the hoist message, got: {errors:?}"
    );
}

#[test]
fn let_hoisted_witness_in_branches_is_allowed() {
    let circuits = compile_circuits(r##"
        mod cond_hoisted {
            #[nocturne(ledger)]
            pub struct State { a: Cell<Uint<64>>, b: Cell<Uint<64>> }
            #[nocturne(witnesses)]
            pub struct W { c: Boolean, x: Uint<64> }
            impl State {
                #[nocturne(constructor)]
                pub fn new() -> Self {
                    Self {
                        a: Cell::new(Uint::<64>::from(0u64)),
                        b: Cell::new(Uint::<64>::from(0u64)),
                    }
                }
                #[nocturne(circuit)]
                pub fn pick(&mut self, witnesses: &W) {
                    let x = witnesses.x;
                    if witnesses.c.value() {
                        self.a.set(x);
                    } else {
                        self.b.set(x);
                    }
                }
            }
        }
"##);
    let (_, ir) = &circuits[0];
    let private_inputs = ir
        .instructions
        .iter()
        .filter(|i| matches!(i, Instruction::PrivateInput { .. }))
        .count();
    assert_eq!(private_inputs, 2, "x (hoisted, shared) + c (condition)");
}

/// The condition-read shape stays allowed: the read happens before
/// the branch guard activates (unguarded, cached) and the branch
/// body reuses the cached wire.
#[test]
fn condition_read_reused_in_body_is_allowed() {
    let circuits = compile_circuits(r##"
        mod cond_self {
            #[nocturne(ledger)]
            pub struct State { flag: Cell<Boolean> }
            #[nocturne(witnesses)]
            pub struct W { flag: Boolean }
            impl State {
                #[nocturne(constructor)]
                pub fn new() -> Self { Self { flag: Cell::new(Boolean::from(false)) } }
                #[nocturne(circuit)]
                pub fn maybe_store(&mut self, witnesses: &W) {
                    if witnesses.flag.value() {
                        self.flag.set(witnesses.flag);
                    }
                }
            }
        }
"##);
    let (_, ir) = &circuits[0];
    let private_inputs = ir
        .instructions
        .iter()
        .filter(|i| matches!(i, Instruction::PrivateInput { .. }))
        .count();
    assert_eq!(
        private_inputs, 1,
        "condition read is cached and reused in the body"
    );
}

#[test]
fn array_index_out_of_bounds_errors() {
    let errors = emit_errors(r##"
        mod oob {
            #[nocturne(ledger)]
            pub struct State { cell: Cell<Uint<64>> }
            #[nocturne(witnesses)]
            pub struct W { arr: [Uint<64>; 4] }
            impl State {
                #[nocturne(constructor)]
                pub fn new() -> Self { Self { cell: Cell::new(Uint::<64>::from(0u64)) } }
                #[nocturne(circuit)]
                pub fn read(&mut self, witnesses: &W) {
                    let _v = witnesses.arr[7];
                }
            }
        }
"##);
    assert!(
        errors.iter().any(|e| e.contains("out of bounds")),
        "constant index past the array length must error, got: {errors:?}"
    );
}

#[test]
fn multi_fr_public_param_errors() {
    let errors = emit_errors(r##"
        mod wide_param {
            #[nocturne(ledger)]
            pub struct State { x: Counter }
            impl State {
                #[nocturne(constructor)]
                pub fn new() -> Self { Self { x: Counter::zero() } }
                #[nocturne(circuit)]
                pub fn take(&mut self, data: Bytes<64>) {
                    self.x.increment();
                }
            }
        }
"##);
    assert!(
        errors.iter().any(|e| e.contains("multi-Fr")),
        "Bytes<64> public param (2 Frs) must be rejected, got: {errors:?}"
    );
}

#[test]
fn repeated_witness_in_array_literal_errors() {
    let errors = emit_errors(r##"
        mod repeat_lit {
            #[nocturne(ledger)]
            pub struct State { pair: Cell<[Uint<64>; 2]> }
            #[nocturne(witnesses)]
            pub struct W { a: Uint<64> }
            impl State {
                #[nocturne(constructor)]
                pub fn new() -> Self {
                    Self { pair: Cell::new([Uint::<64>::from(0u64), Uint::<64>::from(0u64)]) }
                }
                #[nocturne(circuit)]
                pub fn store(&mut self, witnesses: &W) {
                    self.pair.set([witnesses.a, witnesses.a]);
                }
            }
        }
"##);
    assert!(
        errors.iter().any(|e| e.contains("contiguous")),
        "repeating the same witness element in one literal must error, got: {errors:?}"
    );
}

/// Check the per-circuit structural invariants:
/// (a) #DeclarePubInput == Σ PiSkip.count — every declared PI
///     belongs to exactly one transcript-op group;
/// (b) inside a conditional declare group (PiSkip guard != the
///     top-level guard wire), every PublicInput carries the group's
///     guard and every DeclarePubInput value is produced by a
///     CondSelect (the inactive-path zeroing mux);
/// (c) EVERY `PrivateInput`/`PublicInput` emitted inside a
///     conditional branch carries `guard: Some(_)`, and every one
///     emitted outside carries `guard: None`. "Inside" comes from
///     `branch_spans`, the emitter's record of the instruction
///     ranges it emitted while a branch guard was active — the
///     instruction stream alone can't recover branch extents (a
///     branch whose condition was hoisted to a `let` and whose body
///     only reads a witness leaves no other trace), so the spans
///     are the ground truth.
fn assert_structural_invariants(
    name: &str,
    ir: &IrSource,
    branch_spans: &[std::ops::Range<usize>],
) {
    let instrs = ir.instructions.as_ref();

    let mut producer: std::collections::HashMap<u32, usize> = std::collections::HashMap::new();
    let mut next = ir.num_inputs;
    for (pos, instr) in instrs.iter().enumerate() {
        for k in 0..test_output_count(instr) {
            producer.insert(next + k, pos);
        }
        next += test_output_count(instr);
    }

    let top_guard = ir.num_inputs;

    let declares = instrs
        .iter()
        .filter(|i| matches!(i, Instruction::DeclarePubInput { .. }))
        .count() as u64;
    let skip_sum: u64 = instrs
        .iter()
        .filter_map(|i| match i {
            Instruction::PiSkip { count, .. } => Some(*count as u64),
            _ => None,
        })
        .sum();
    assert_eq!(
        declares, skip_sum,
        "circuit '{name}': DeclarePubInput count must equal the sum of PiSkip counts"
    );

    let mut group: Vec<usize> = Vec::new();
    for (pos, instr) in instrs.iter().enumerate() {
        match instr {
            Instruction::PiSkip { guard, .. } => {
                let conditional = *guard != Some(top_guard);
                if conditional {
                    for &p in &group {
                        match &instrs[p] {
                            Instruction::DeclarePubInput { var } => {
                                let producer_pos = producer.get(var).unwrap_or_else(|| {
                                    panic!(
                                        "circuit '{name}': DeclarePubInput references \
                                         wire {var} with no producer"
                                    )
                                });
                                assert!(
                                    matches!(
                                        instrs[*producer_pos],
                                        Instruction::CondSelect { .. }
                                    ),
                                    "circuit '{name}': conditional DeclarePubInput (wire \
                                     {var}) must be zeroed via CondSelect"
                                );
                            }
                            Instruction::PublicInput { guard: g } => {
                                assert_eq!(
                                    *g, *guard,
                                    "circuit '{name}': PublicInput inside a conditional \
                                     group must carry the group guard"
                                );
                            }
                            _ => {}
                        }
                    }
                }
                group.clear();
            }
            _ => group.push(pos),
        }
    }

    for (pos, instr) in instrs.iter().enumerate() {
        let (kind, g) = match instr {
            Instruction::PrivateInput { guard } => ("PrivateInput", guard),
            Instruction::PublicInput { guard } => ("PublicInput", guard),
            _ => continue,
        };
        let in_branch = branch_spans.iter().any(|s| s.contains(&pos));
        if in_branch {
            assert!(
                g.is_some(),
                "circuit '{name}': {kind} at instruction {pos} was emitted inside a \
                 conditional branch but carries no guard — the zkir VM would consume \
                 a transcript entry even when the branch is inactive"
            );
        } else {
            assert!(
                g.is_none(),
                "circuit '{name}': {kind} at instruction {pos} was emitted outside \
                 any conditional branch but carries guard {g:?}"
            );
        }
    }
}

#[test]
fn structural_invariants_hold_for_representative_circuits() {
    let cond_map_read = compile_circuits_with_spans(r##"
        mod cond_read {
            #[nocturne(ledger)]
            pub struct State { members: Map<Uint<64>, Boolean> }
            #[nocturne(witnesses)]
            pub struct W { flag: Boolean, user_id: Uint<64> }
            impl State {
                #[nocturne(constructor)]
                pub fn new() -> Self { Self { members: Map::empty() } }
                #[nocturne(circuit)]
                pub fn maybe_check(&self, witnesses: &W) {
                    if witnesses.flag.value() {
                        let _exists = self.members.contains(&witnesses.user_id);
                    }
                }
            }
        }
"##);

    let nested_if = compile_circuits_with_spans(r##"
        mod nested {
            #[nocturne(ledger)]
            pub struct State { count: Counter }
            #[nocturne(witnesses)]
            pub struct W { a: Boolean, b: Boolean }
            impl State {
                #[nocturne(constructor)]
                pub fn new() -> Self { Self { count: Counter::zero() } }
                #[nocturne(circuit)]
                pub fn tick(&mut self, witnesses: &W) {
                    if witnesses.a.value() {
                        self.count.increment();
                        if witnesses.b.value() {
                            self.count.increment();
                        }
                    } else {
                        self.count.increment();
                    }
                }
            }
        }
"##);

    let multi_fr_bytes = compile_circuits_with_spans(r##"
        mod wide_bytes {
            #[nocturne(ledger)]
            pub struct State { digest: Cell<Bytes<48>> }
            #[nocturne(witnesses)]
            pub struct W { new_digest: Bytes<48> }
            impl State {
                #[nocturne(constructor)]
                pub fn new() -> Self { Self { digest: Cell::new(Bytes::<48>::zeroed()) } }
                #[nocturne(circuit)]
                pub fn rotate(&mut self, witnesses: &W) {
                    self.digest.set(witnesses.new_digest);
                }
                #[nocturne(circuit)]
                pub fn peek(&self) {
                    let _d = self.digest.get();
                }
            }
        }
"##);

    let enum_cell_read = compile_circuits_with_spans(r##"
        mod enum_cell {
            pub enum Action { Mint(Uint<64>), Burn(Uint<64>) }
            #[nocturne(ledger)]
            pub struct State { last: Cell<Action>, amount: Cell<Uint<64>> }
            impl State {
                #[nocturne(constructor)]
                pub fn new() -> Self {
                    Self {
                        last: Cell::new(Action::Mint(Uint::<64>::from(0u64))),
                        amount: Cell::new(Uint::<64>::from(0u64)),
                    }
                }
                #[nocturne(circuit)]
                pub fn apply(&mut self) {
                    let action = self.last.get();
                    match action {
                        Action::Mint(amount) => { self.amount.set(amount); }
                        Action::Burn(amount) => { self.amount.set(amount); }
                    }
                }
            }
        }
"##);

    assert!(
        cond_map_read.iter().all(|(_, _, spans)| !spans.is_empty()),
        "cond_map_read must record at least one conditional branch span"
    );

    for (name, ir, spans) in cond_map_read
        .iter()
        .chain(nested_if.iter())
        .chain(multi_fr_bytes.iter())
        .chain(enum_cell_read.iter())
    {
        assert_structural_invariants(name, ir, spans);
    }
}

// ---- satisfiable circuits

/// Compute a valid (commitment, opening) pair over `inputs ++ outputs`.
/// Mirrors the check in `ir_vm.rs::preprocess` so check() accepts it.
fn comm_for(inputs: &[Fr], outputs: &[Fr]) -> (Fr, Fr) {
    let opening = Fr::from(0u64);
    let mut preimage = inputs.to_vec();
    preimage.extend_from_slice(outputs);
    (transient_commit::<[Fr]>(&preimage, opening), opening)
}

fn compile_first_circuit(input: &str) -> (String, IrSource) {
    let module: syn::ItemMod = syn::parse_str(input).expect("parse");
    let contract = parse_contract(read_module(&module)).expect("contract");
    let output = emit_contract(&contract);
    let c = &output.circuits[0];
    (c.circuit_name.clone(), zkir_source(&c.ir_source))
}

fn print_zkir(name: &str, ir: &IrSource) {
    let json = serde_json::to_string_pretty(ir).unwrap();
    println!("=== {name} ZKIR ===\n{json}\n");
}

#[test]
fn counter_increment_is_satisfiable() {
    let module: syn::ItemMod = syn::parse_str(r##"
        mod counter {
            #[midnight(ledger)]
            pub struct CounterState {
                count: Counter,
            }
            impl CounterState {
                #[midnight(constructor)]
                pub fn new() -> Self { Self { count: Counter::zero() } }
                #[midnight(circuit)]
                pub fn increment(&mut self) { self.count.increment(); }
            }
        }
"##)
    .expect("parse");
    let contract = parse_contract(read_module(&module)).expect("contract");
    let output = emit_contract(&contract);
    let circuit = &output.circuits[0];
    let ir = &zkir_source(&circuit.ir_source);

    //
    let public_transcript_inputs: Vec<Fr> = vec![
        Fr::from(0x70u64),
        Fr::from(0x01u64),
        Fr::from(0x01u64),
        Fr::from(0x00u64),
        Fr::from(0x0eu64),
        Fr::from(0x01u64),
        Fr::from(0xa1u64),
    ];

    let preimage = ProofPreimage {
        inputs: vec![],
        private_transcript: vec![],
        public_transcript_inputs,
        public_transcript_outputs: vec![],
        binding_input: Fr::from(42u64),
        communications_commitment: if ir.do_communications_commitment {
            Some(comm_for(&[], &[]))
        } else {
            None
        },
        key_location: KeyLocation(std::borrow::Cow::Borrowed("test")),
    };

    match ir.check(&preimage) {
        Ok(pi_skips) => {
            println!(
                "✓ Circuit '{}' satisfiable! pi_skips: {:?}",
                circuit.circuit_name, pi_skips
            );
        }
        Err(e) => {
            let json = serde_json::to_string_pretty(ir).unwrap_or_default();
            panic!(
                "Circuit '{}' check failed: {}\n\nZKIR:\n{}",
                circuit.circuit_name, e, json
            );
        }
    }
}

#[test]
fn ledger_read_is_satisfiable() {
    let (name, ir) = compile_first_circuit(r##"
        mod reader {
            #[midnight(ledger)]
            pub struct State {
                value: Cell<u64>,
            }
            impl State {
                #[midnight(constructor)]
                pub fn new() -> Self { Self { value: Cell::new(0u64) } }
                #[midnight(circuit)]
                pub fn read_value(&mut self) {
                    let _v = self.value.get();
                }
            }
        }
"##);
    print_zkir(&name, &ir);

    //
    let read_value = Fr::from(99u64);
    let public_transcript_inputs: Vec<Fr> = vec![
        Fr::from(0x30u64),
        Fr::from(0x50u64),
        Fr::from(0x01u64),
        Fr::from(0x01u64),
        Fr::from(0x00u64),
        Fr::from(0x0du64),
        Fr::from(0x01u64),
        Fr::from(0x08u64),
        read_value,
    ];

    let public_transcript_outputs: Vec<Fr> = vec![read_value];

    let preimage = ProofPreimage {
        inputs: vec![],
        private_transcript: vec![],
        public_transcript_inputs,
        public_transcript_outputs,
        binding_input: Fr::from(42u64),
        communications_commitment: if ir.do_communications_commitment {
            Some(comm_for(&[], &[]))
        } else {
            None
        },
        key_location: KeyLocation(std::borrow::Cow::Borrowed("test")),
    };

    match ir.check(&preimage) {
        Ok(pi_skips) => {
            println!("✓ Circuit '{name}' satisfiable! pi_skips: {pi_skips:?}");
        }
        Err(e) => {
            panic!("Circuit '{name}' check failed: {e}");
        }
    }
}

#[test]
fn witness_circuit_is_satisfiable() {
    let (name, ir) = compile_first_circuit(r##"
        mod secret {
            #[midnight(ledger)]
            pub struct State {
                stored: Cell,
            }
            #[midnight(witnesses)]
            pub struct W {
                secret: Field,
            }
            impl State {
                #[midnight(constructor)]
                pub fn new() -> Self { Self { stored: Cell::new(0) } }
                #[midnight(circuit)]
                pub fn store_secret(&mut self, witnesses: &W) {
                    let s = witnesses.secret;
                    self.stored.set(s);
                }
            }
        }
"##);
    print_zkir(&name, &ir);

    //
    //
    let secret_value = Fr::from(777u64);

    let public_transcript_inputs: Vec<Fr> = vec![
        Fr::from(0x10u64),
        Fr::from(0x01u64),
        Fr::from(0x01u64),
        Fr::from(0x01u64),
        Fr::from(0x00u64),
        Fr::from(0x11u64),
        secret_value,
        Fr::from(0x91u64),
    ];

    let preimage = ProofPreimage {
        inputs: vec![],
        private_transcript: vec![secret_value],
        public_transcript_inputs,
        public_transcript_outputs: vec![],
        binding_input: Fr::from(42u64),
        communications_commitment: if ir.do_communications_commitment {
            Some(comm_for(&[], &[]))
        } else {
            None
        },
        key_location: KeyLocation(std::borrow::Cow::Borrowed("test")),
    };

    match ir.check(&preimage) {
        Ok(pi_skips) => {
            println!("✓ Circuit '{name}' satisfiable! pi_skips: {pi_skips:?}");
        }
        Err(e) => {
            panic!("Circuit '{name}' check failed: {e}");
        }
    }
}

#[test]
fn map_lookup_is_satisfiable() {
    let (name, ir) = compile_first_circuit(r##"
        mod records {
            #[midnight(ledger)]
            pub struct State {
                records: Map<Uint<64>, Uint<64>>,
            }
            #[midnight(witnesses)]
            pub struct W {
                user_id: Uint<64>,
            }
            impl State {
                #[midnight(constructor)]
                pub fn new() -> Self { Self { records: Map::empty() } }
                #[midnight(circuit)]
                pub fn fetch(&self, witnesses: &W) {
                    let _v = self.records.lookup(&witnesses.user_id);
                }
            }
        }
"##);
    print_zkir(&name, &ir);

    let key_val = Fr::from(7u64);
    let stored_val = Fr::from(42u64);

    let public_transcript_inputs: Vec<Fr> = vec![
        Fr::from(0x30u64),
        Fr::from(0x50u64),
        Fr::from(0x01u64),
        Fr::from(0x01u64),
        Fr::from(0x00u64),
        Fr::from(0x50u64),
        Fr::from(0x01u64),
        Fr::from(0x08u64),
        key_val,
        Fr::from(0x0cu64),
        Fr::from(0x01u64),
        Fr::from(0x08u64),
        stored_val,
    ];

    let preimage = ProofPreimage {
        inputs: vec![],
        private_transcript: vec![key_val],
        public_transcript_inputs,
        public_transcript_outputs: vec![stored_val],
        binding_input: Fr::from(42u64),
        communications_commitment: if ir.do_communications_commitment {
            Some(comm_for(&[], &[]))
        } else {
            None
        },
        key_location: KeyLocation(std::borrow::Cow::Borrowed("test")),
    };

    match ir.check(&preimage) {
        Ok(pi_skips) => {
            println!("✓ Circuit '{name}' satisfiable! pi_skips: {pi_skips:?}");
        }
        Err(e) => {
            let json = serde_json::to_string_pretty(&ir).unwrap_or_default();
            panic!("Circuit '{name}' check failed: {e}\n\nZKIR:\n{json}");
        }
    }
}

#[test]
fn map_remove_is_satisfiable() {
    let (name, ir) = compile_first_circuit(r##"
        mod records {
            #[midnight(ledger)]
            pub struct State {
                records: Map<Uint<64>, Uint<64>>,
            }
            #[midnight(witnesses)]
            pub struct W {
                user_id: Uint<64>,
            }
            impl State {
                #[midnight(constructor)]
                pub fn new() -> Self { Self { records: Map::empty() } }
                #[midnight(circuit)]
                pub fn erase(&mut self, witnesses: &W) {
                    self.records.remove(&witnesses.user_id);
                }
            }
        }
"##);
    print_zkir(&name, &ir);

    let key_val = Fr::from(0xCCCCu64);

    let public_transcript_inputs: Vec<Fr> = vec![
        Fr::from(0x70u64),
        Fr::from(0x01u64),
        Fr::from(0x01u64),
        Fr::from(0x00u64),
        Fr::from(0x10u64),
        Fr::from(0x01u64),
        Fr::from(0x01u64),
        Fr::from(0x08u64),
        key_val,
        Fr::from(0x19u64),
        Fr::from(0xa1u64),
    ];

    let preimage = ProofPreimage {
        inputs: vec![],
        private_transcript: vec![key_val],
        public_transcript_inputs,
        public_transcript_outputs: vec![],
        binding_input: Fr::from(42u64),
        communications_commitment: if ir.do_communications_commitment {
            Some(comm_for(&[], &[]))
        } else {
            None
        },
        key_location: KeyLocation(std::borrow::Cow::Borrowed("test")),
    };

    match ir.check(&preimage) {
        Ok(pi_skips) => {
            println!("✓ Circuit '{name}' satisfiable! pi_skips: {pi_skips:?}");
        }
        Err(e) => {
            let json = serde_json::to_string_pretty(&ir).unwrap_or_default();
            panic!("Circuit '{name}' check failed: {e}\n\nZKIR:\n{json}");
        }
    }
}

#[test]
fn map_insert_is_satisfiable() {
    let (name, ir) = compile_first_circuit(r##"
        mod records {
            #[midnight(ledger)]
            pub struct State {
                records: Map<Uint<64>, Uint<64>>,
            }
            #[midnight(witnesses)]
            pub struct W {
                user_id: Uint<64>,
                amount: Uint<64>,
            }
            impl State {
                #[midnight(constructor)]
                pub fn new() -> Self { Self { records: Map::empty() } }
                #[midnight(circuit)]
                pub fn record(&mut self, witnesses: &W) {
                    self.records.insert(witnesses.user_id, witnesses.amount);
                }
            }
        }
"##);
    print_zkir(&name, &ir);

    let key_val = Fr::from(0xAAAAu64);
    let amt_val = Fr::from(0xBBBBu64);

    let public_transcript_inputs: Vec<Fr> = vec![
        Fr::from(0x70u64),
        Fr::from(0x01u64),
        Fr::from(0x01u64),
        Fr::from(0x00u64),
        Fr::from(0x10u64),
        Fr::from(0x01u64),
        Fr::from(0x01u64),
        Fr::from(0x08u64),
        key_val,
        Fr::from(0x11u64),
        Fr::from(0x01u64),
        Fr::from(0x01u64),
        Fr::from(0x08u64),
        amt_val,
        Fr::from(0x91u64),
        Fr::from(0xa1u64),
    ];

    let preimage = ProofPreimage {
        inputs: vec![],
        private_transcript: vec![key_val, amt_val],
        public_transcript_inputs,
        public_transcript_outputs: vec![],
        binding_input: Fr::from(42u64),
        communications_commitment: if ir.do_communications_commitment {
            Some(comm_for(&[], &[]))
        } else {
            None
        },
        key_location: KeyLocation(std::borrow::Cow::Borrowed("test")),
    };

    match ir.check(&preimage) {
        Ok(pi_skips) => {
            println!("✓ Circuit '{name}' satisfiable! pi_skips: {pi_skips:?}");
        }
        Err(e) => {
            let json = serde_json::to_string_pretty(&ir).unwrap_or_default();
            panic!("Circuit '{name}' check failed: {e}\n\nZKIR:\n{json}");
        }
    }
}

#[test]
fn map_contains_is_satisfiable() {
    //
    let (name, ir) = compile_first_circuit(r##"
        mod membership {
            #[midnight(ledger)]
            pub struct State {
                members: Map<u64, bool>,
            }
            #[midnight(witnesses)]
            pub struct W {
                user_id: Uint<64>,
            }
            impl State {
                #[midnight(constructor)]
                pub fn new() -> Self { Self { members: Map::empty() } }
                #[midnight(circuit)]
                pub fn check_member(&mut self, witnesses: &W) {
                    let _exists = self.members.contains(&witnesses.user_id);
                }
            }
        }
"##);
    print_zkir(&name, &ir);

    let user_id_val = Fr::from(12345u64);
    let bool_result = Fr::from(true);

    let public_transcript_inputs: Vec<Fr> = vec![
        Fr::from(0x30u64),
        Fr::from(0x50u64),
        Fr::from(0x01u64),
        Fr::from(0x01u64),
        Fr::from(0x00u64),
        Fr::from(0x10u64),
        Fr::from(0x01u64),
        Fr::from(0x01u64),
        Fr::from(0x08u64),
        user_id_val,
        Fr::from(0x18u64),
        Fr::from(0x0du64),
        Fr::from(0x01u64),
        Fr::from(0x01u64),
        bool_result,
    ];

    let preimage = ProofPreimage {
        inputs: vec![],
        private_transcript: vec![user_id_val],
        public_transcript_inputs,
        public_transcript_outputs: vec![bool_result],
        binding_input: Fr::from(42u64),
        communications_commitment: if ir.do_communications_commitment {
            Some(comm_for(&[], &[]))
        } else {
            None
        },
        key_location: KeyLocation(std::borrow::Cow::Borrowed("test")),
    };

    match ir.check(&preimage) {
        Ok(pi_skips) => {
            println!("✓ Circuit '{name}' satisfiable! pi_skips: {pi_skips:?}");
        }
        Err(e) => {
            let json = serde_json::to_string_pretty(&ir).unwrap_or_default();
            panic!("Circuit '{name}' check failed: {e}\n\nZKIR:\n{json}");
        }
    }
}

#[test]
fn voting_cast_vote_is_satisfiable() {
    let module: syn::ItemMod = syn::parse_str(r##"
        mod ballot {
            #[midnight(ledger)]
            pub struct Ballot {
                votes_for: Counter,
                votes_against: Counter,
            }
            #[midnight(witnesses)]
            pub struct W {
                choice: Boolean,
            }
            impl Ballot {
                #[midnight(constructor)]
                pub fn new() -> Self {
                    Self { votes_for: Counter::zero(), votes_against: Counter::zero() }
                }
                #[midnight(circuit)]
                pub fn cast_vote(&mut self, witnesses: &W) {
                    if witnesses.choice.into() {
                        self.votes_for.increment();
                    } else {
                        self.votes_against.increment();
                    }
                }
            }
        }
"##)
    .expect("parse");
    let contract = parse_contract(read_module(&module)).expect("contract");
    let output = emit_contract(&contract);
    let circuit = &output.circuits[0];
    let ir = &zkir_source(&circuit.ir_source);
    print_zkir(&circuit.circuit_name, ir);

    //
    let choice = Fr::from(true);

    let public_transcript_inputs: Vec<Fr> = vec![
        Fr::from(0x70u64),
        Fr::from(1u64),
        Fr::from(1u64),
        Fr::from(0u64),
        Fr::from(0x0eu64),
        Fr::from(1u64),
        Fr::from(0xa1u64),
    ];

    let preimage = ProofPreimage {
        inputs: vec![],
        private_transcript: vec![choice],
        public_transcript_inputs,
        public_transcript_outputs: vec![],
        binding_input: Fr::from(42u64),
        communications_commitment: if ir.do_communications_commitment {
            Some(comm_for(&[], &[]))
        } else {
            None
        },
        key_location: KeyLocation(std::borrow::Cow::Borrowed("test")),
    };

    match ir.check(&preimage) {
        Ok(pi_skips) => {
            println!(
                "✓ Circuit '{}' satisfiable! pi_skips: {:?}",
                circuit.circuit_name, pi_skips
            );
        }
        Err(e) => {
            let json = serde_json::to_string_pretty(ir).unwrap_or_default();
            panic!(
                "Circuit '{}' check failed: {}\n\nZKIR:\n{}",
                circuit.circuit_name, e, json
            );
        }
    }
}

#[test]
fn circuit_with_public_arg_has_num_inputs() {
    let (name, ir) = compile_first_circuit(r##"
        mod setter {
            #[midnight(ledger)]
            pub struct State {
                value: Counter,
            }
            impl State {
                #[midnight(constructor)]
                pub fn new() -> Self { Self { value: Counter::zero() } }
                #[midnight(circuit)]
                pub fn set_value(&mut self, amount: u64) {
                    self.value.increment();
                }
            }
        }
"##);

    assert_eq!(
        ir.num_inputs, 1,
        "circuit with 1 public arg should have num_inputs=1"
    );
    println!("✓ Circuit '{name}' has num_inputs={}", ir.num_inputs);

    let public_transcript_inputs: Vec<Fr> = vec![
        Fr::from(0x70u64),
        Fr::from(1u64),
        Fr::from(1u64),
        Fr::from(0u64),
        Fr::from(0x0eu64),
        Fr::from(1u64),
        Fr::from(0xa1u64),
    ];

    let preimage = ProofPreimage {
        inputs: vec![Fr::from(42u64)],
        private_transcript: vec![],
        public_transcript_inputs,
        public_transcript_outputs: vec![],
        binding_input: Fr::from(1u64),
        communications_commitment: if ir.do_communications_commitment {
            Some(comm_for(&[Fr::from(42u64)], &[]))
        } else {
            None
        },
        key_location: KeyLocation(std::borrow::Cow::Borrowed("test")),
    };

    match ir.check(&preimage) {
        Ok(pi_skips) => {
            println!("✓ Circuit '{name}' with arg satisfiable! pi_skips: {pi_skips:?}");
        }
        Err(e) => panic!("Circuit '{name}' check failed: {e}"),
    }
}

#[test]
fn circuit_with_return_value_has_output() {
    let (name, ir) = compile_first_circuit(r##"
        mod reader {
            #[midnight(ledger)]
            pub struct State {
                count: Counter,
            }
            impl State {
                #[midnight(constructor)]
                pub fn new() -> Self { Self { count: Counter::zero() } }
                #[midnight(circuit)]
                pub fn get_count(&self) -> u64 {
                    self.count.value()
                }
            }
        }
"##);

    assert!(
        ir.do_communications_commitment,
        "circuit with return value should have do_communications_commitment=true"
    );

    let has_output = ir
        .instructions
        .iter()
        .any(|i| matches!(i, Instruction::Output { .. }));
    assert!(
        has_output,
        "circuit with return value should have Output instruction"
    );

    println!("✓ Circuit '{name}' has output + communications commitment");
}

#[test]
fn typed_params_emit_constraints() {
    let (name, ir) = compile_first_circuit(r##"
        mod typed {
            #[midnight(ledger)]
            pub struct State { x: Counter }
            impl State {
                #[midnight(constructor)]
                pub fn new() -> Self { Self { x: Counter::zero() } }
                #[midnight(circuit)]
                pub fn with_u64(&mut self, amount: u64) {
                    self.x.increment();
                }
            }
        }
"##);

    assert_eq!(ir.num_inputs, 1);

    let has_constrain_bits = ir.instructions.iter().any(|i| {
        matches!(
            i,
            Instruction::ConstrainBits { bits: 64, .. }
        )
    });
    assert!(
        has_constrain_bits,
        "u64 param should emit ConstrainBits(64)"
    );
    println!("✓ Circuit '{name}': u64 param has ConstrainBits(64)");
}

#[test]
fn boolean_witness_constrained() {
    let (name, ir) = compile_first_circuit(r##"
        mod boolw {
            #[midnight(ledger)]
            pub struct State { x: Counter }
            #[midnight(witnesses)]
            pub struct W { flag: Boolean }
            impl State {
                #[midnight(constructor)]
                pub fn new() -> Self { Self { x: Counter::zero() } }
                #[midnight(circuit)]
                pub fn check(&mut self, witnesses: &W) {
                    let _f = witnesses.flag;
                }
            }
        }
"##);

    let has_constrain_bool = ir
        .instructions
        .iter()
        .any(|i| matches!(i, Instruction::ConstrainToBoolean { .. }));
    assert!(
        has_constrain_bool,
        "Boolean witness should emit ConstrainToBoolean"
    );
    println!("✓ Circuit '{name}': Boolean witness has ConstrainToBoolean");
}

#[test]
fn assert_eq_circuit_is_satisfiable() {
    let (name, ir) = compile_first_circuit(r##"
        mod asserting {
            #[midnight(ledger)]
            pub struct State {
                x: Counter,
            }
            impl State {
                #[midnight(constructor)]
                pub fn new() -> Self { Self { x: Counter::zero() } }
                #[midnight(circuit)]
                pub fn check_eq(&mut self) {
                    let a = 42;
                    let b = 42;
                    assert_eq!(a, b);
                }
            }
        }
"##);
    print_zkir(&name, &ir);

    let preimage = ProofPreimage {
        inputs: vec![],
        private_transcript: vec![],
        public_transcript_inputs: vec![],
        public_transcript_outputs: vec![],
        binding_input: Fr::from(42u64),
        communications_commitment: if ir.do_communications_commitment {
            Some(comm_for(&[], &[]))
        } else {
            None
        },
        key_location: KeyLocation(std::borrow::Cow::Borrowed("test")),
    };

    match ir.check(&preimage) {
        Ok(pi_skips) => {
            println!("✓ Circuit '{name}' satisfiable! pi_skips: {pi_skips:?}");
        }
        Err(e) => {
            panic!("Circuit '{name}' check failed: {e}");
        }
    }
}

// ---- private inputs

/// For every circuit in `input`, assert the emitter's PrivateInput
/// sequence == the canonical event walk expanded by Fr widths.
fn assert_private_input_parity(input: &str) {
    let module: syn::ItemMod = syn::parse_str(input).expect("parse module");
    let contract = parse_contract(read_module(&module)).expect("parse contract");

    let witness_fields: HashMap<String, Ty> = contract
        .witnesses
        .as_ref()
        .map(|w| {
            w.fields
                .iter()
                .map(|f| (f.name.to_string(), f.ty.clone()))
                .collect()
        })
        .unwrap_or_default();
    let witness_methods: HashMap<String, Ty> = contract
        .witnesses
        .as_ref()
        .map(|w| {
            w.methods
                .iter()
                .map(|m| (m.name.to_string(), m.return_type.clone()))
                .collect()
        })
        .unwrap_or_default();

    let output = emit_contract(&contract);
    assert!(
        output.errors.is_empty(),
        "emission recorded unexpected errors: {:?}",
        output.errors
    );

    for circuit in &contract.circuits {
        let events = body_private_events(&contract, &circuit.body);

        let mut expected_guards: Vec<bool> = Vec::new();
        for ev in &events {
            let ty = if ev.is_call {
                witness_methods.get(&ev.name)
            } else {
                witness_fields.get(&ev.name)
            }
            .unwrap_or_else(|| {
                panic!(
                    "event `{}` (is_call={}) has no registered type",
                    ev.name, ev.is_call
                )
            });
            let width = witness_fr_layout(ty, &contract).len();
            assert!(width > 0, "witness type must occupy at least one Fr");
            expected_guards.extend(std::iter::repeat_n(ev.in_branch, width));
        }

        let emitted = output
            .circuits
            .iter()
            .find(|c| circuit.name == c.circuit_name)
            .unwrap_or_else(|| panic!("circuit `{}` not emitted", circuit.name));
        let actual_guards: Vec<bool> = emitted
            .ir_source
            .instructions
            .iter()
            .map(zkir_instruction)
            .filter_map(|i| match i {
                Instruction::PrivateInput { guard } => Some(guard.is_some()),
                _ => None,
            })
            .collect();

        assert_eq!(
            actual_guards, expected_guards,
            "circuit `{}`: emitter PrivateInput sequence (guard-ness, in order) \
             diverges from the canonical private-event walk; events = {:?}",
            circuit.name, events
        );
    }
}

/// Direct ledger-method arg: `self.cell.set(witnesses.v)` — the
/// shape the old per-occurrence push logic missed entirely.
#[test]
fn direct_arg_cell_set_matches_walk() {
    assert_private_input_parity(r##"
        mod direct_arg {
            #[nocturne(ledger)]
            pub struct State { value: Cell<Uint<64>> }
            #[nocturne(witnesses)]
            pub struct W { pub v: Uint<64> }
            impl State {
                #[nocturne(constructor)]
                pub fn new() -> Self { Self { value: Cell::new(Uint::<64>::from(0u64)) } }
                #[nocturne(circuit)]
                pub fn store(&mut self, witnesses: &W) {
                    self.value.set(witnesses.v);
                }
            }
        }
"##);
}

/// Same field in the `if` condition (unguarded first touch, cached)
/// and in the branch body (cache hit — no second PrivateInput, no
/// second push).
#[test]
fn cond_then_body_reuse_matches_walk() {
    assert_private_input_parity(r##"
        mod cond_reuse {
            #[nocturne(ledger)]
            pub struct State { flag_cell: Cell<Boolean> }
            #[nocturne(witnesses)]
            pub struct W { pub flag: Boolean }
            impl State {
                #[nocturne(constructor)]
                pub fn new() -> Self { Self { flag_cell: Cell::new(Boolean::from(false)) } }
                #[nocturne(circuit)]
                pub fn maybe_store(&mut self, witnesses: &W) {
                    if witnesses.flag.value() {
                        self.flag_cell.set(witnesses.flag);
                    }
                }
            }
        }
"##);
}

/// Map insert with two witnesses: key event before value event,
/// matching the emitter's left-to-right arg evaluation. The key is
/// multi-Fr (`Bytes<32>` → 2 PrivateInputs).
#[test]
fn map_insert_key_value_order_matches_walk() {
    assert_private_input_parity(r##"
        mod kv_order {
            #[nocturne(ledger)]
            pub struct State { records: Map<Bytes<32>, Uint<64>> }
            #[nocturne(witnesses)]
            pub struct W { pub digest: Bytes<32>, pub amount: Uint<64> }
            impl State {
                #[nocturne(constructor)]
                pub fn new() -> Self { Self { records: Map::empty() } }
                #[nocturne(circuit)]
                pub fn record(&mut self, witnesses: &W) {
                    self.records.insert(witnesses.digest.clone(), witnesses.amount);
                }
            }
        }
"##);
}

/// Parametric witness call inside a branch: the call's PrivateInput
/// is guarded; the condition's field read is not.
#[test]
fn witness_call_in_branch_matches_walk() {
    assert_private_input_parity(r##"
        mod call_in_branch {
            #[nocturne(ledger)]
            pub struct State { value: Cell<Uint<64>> }
            #[nocturne(witnesses)]
            pub struct W { pub flag: Boolean }
            impl W {
                pub fn next_nonce(&self) -> Uint<64> { Uint::<64>::from(7u64) }
            }
            impl State {
                #[nocturne(constructor)]
                pub fn new() -> Self { Self { value: Cell::new(Uint::<64>::from(0u64)) } }
                #[nocturne(circuit)]
                pub fn maybe_roll(&mut self, witnesses: &W) {
                    if witnesses.flag.value() {
                        self.value.set(witnesses.next_nonce());
                    }
                }
            }
        }
"##);
}

/// Witness nested in a ledger-method arg inside an `if` condition
/// (`if self.m.contains(&witnesses.k)`): the key's event fires
/// before the branch guard activates.
#[test]
fn contains_cond_key_matches_walk() {
    assert_private_input_parity(r##"
        mod contains_cond {
            #[nocturne(ledger)]
            pub struct State { members: Map<Uint<64>, Boolean>, hits: Counter }
            #[nocturne(witnesses)]
            pub struct W { pub k: Uint<64> }
            impl State {
                #[nocturne(constructor)]
                pub fn new() -> Self {
                    Self { members: Map::empty(), hits: Counter::zero() }
                }
                #[nocturne(circuit)]
                pub fn tally(&mut self, witnesses: &W) {
                    if self.members.contains(&witnesses.k) {
                        self.hits.increment();
                    }
                }
            }
        }
"##);
}

/// Let-hoisted witness reused across both branches: one unguarded
/// PrivateInput, later uses are cache hits.
#[test]
fn hoisted_witness_reuse_matches_walk() {
    assert_private_input_parity(r##"
        mod hoisted {
            #[nocturne(ledger)]
            pub struct State { a: Cell<Uint<64>>, b: Cell<Uint<64>> }
            #[nocturne(witnesses)]
            pub struct W { pub flag: Boolean, pub x: Uint<64> }
            impl State {
                #[nocturne(constructor)]
                pub fn new() -> Self {
                    Self {
                        a: Cell::new(Uint::<64>::from(0u64)),
                        b: Cell::new(Uint::<64>::from(0u64)),
                    }
                }
                #[nocturne(circuit)]
                pub fn route(&mut self, witnesses: &W) {
                    let x = witnesses.x;
                    if witnesses.flag.value() {
                        self.a.set(x);
                    } else {
                        self.b.set(x);
                    }
                }
            }
        }
"##);
}

// ---- transcript builders

/// Parse a contract module and render the generated transcript
/// module to a token string for content assertions.
fn transcript_tokens(input: &str) -> String {
    let module: syn::ItemMod = syn::parse_str(input).expect("parse module");
    let contract = parse_contract(read_module(&module)).expect("parse contract");
    generate_transcript_module(&contract)
}

/// a literal exceeding the target type's range must fail
/// at compile time. Without the check, the circuit's LoadImm
/// carries the full literal while the runtime transcript builder
/// truncates through `as u32` — a prove-time mismatch at best, a
/// silently-wrong on-chain write at worst.
#[test]
fn over_range_cell_set_literal_emits_compile_error() {
    let tokens = transcript_tokens(r##"
        mod over_range {
            #[nocturne(ledger)]
            pub struct State { limit: Cell<Uint<32>> }
            impl State {
                #[nocturne(constructor)]
                pub fn new() -> Self { Self { limit: Cell::new(Uint::<32>::from(0u32)) } }
                #[nocturne(circuit)]
                pub fn set_limit(&mut self) {
                    self.limit.set(5_000_000_000u64);
                }
            }
        }
"##);
    assert!(
        tokens.contains("compile_error"),
        "over-range Cell::set literal must generate a compile_error, got: {tokens}"
    );
    assert!(
        tokens.contains("literal 5000000000 exceeds Uint<32> range"),
        "compile_error message must name the literal and the target type, got: {tokens}"
    );
}

/// Same check at Map key and value positions: both flow through the
/// `aligned_value_arg_expr` chokepoint.
#[test]
fn over_range_map_insert_literals_emit_compile_error() {
    let tokens = transcript_tokens(r##"
        mod over_range_map {
            #[nocturne(ledger)]
            pub struct State { scores: Map<Uint<8>, Uint<16>> }
            impl State {
                #[nocturne(constructor)]
                pub fn new() -> Self { Self { scores: Map::empty() } }
                #[nocturne(circuit)]
                pub fn seed(&mut self) {
                    self.scores.insert(300u64, 70_000u64);
                }
            }
        }
"##);
    assert!(
        tokens.contains("literal 300 exceeds Uint<8> range"),
        "over-range Map key literal must generate a compile_error, got: {tokens}"
    );
    assert!(
        tokens.contains("literal 70000 exceeds Uint<16> range"),
        "over-range Map value literal must generate a compile_error, got: {tokens}"
    );
}

/// Negative case: in-range literals stay clean. The boundary value
/// (`u32::MAX` for `Uint<32>`) must NOT trip the check.
#[test]
fn in_range_literals_do_not_emit_compile_error() {
    let tokens = transcript_tokens(r##"
        mod in_range {
            #[nocturne(ledger)]
            pub struct State { limit: Cell<Uint<32>>, scores: Map<Uint<8>, Uint<16>> }
            impl State {
                #[nocturne(constructor)]
                pub fn new() -> Self {
                    Self { limit: Cell::new(Uint::<32>::from(0u32)), scores: Map::empty() }
                }
                #[nocturne(circuit)]
                pub fn set_limit(&mut self) {
                    self.limit.set(4_294_967_295u64);
                }
                #[nocturne(circuit)]
                pub fn seed(&mut self) {
                    self.scores.insert(255u64, 65_535u64);
                }
            }
        }
"##);
    assert!(
        !tokens.contains("compile_error"),
        "in-range literals must not generate a compile_error, got: {tokens}"
    );
}

/// the generated transcript fn's parameter is ALWAYS named
/// `witnesses`, regardless of the user's circuit param name — every
/// helper emits `witnesses.<field>` accessors.
#[test]
fn witnesses_param_name_is_normalized() {
    let tokens = transcript_tokens(r##"
        mod renamed_param {
            #[nocturne(ledger)]
            pub struct State { value: Cell<Uint<64>> }
            #[nocturne(witnesses)]
            pub struct W { pub v: Uint<64> }
            impl State {
                #[nocturne(constructor)]
                pub fn new() -> Self { Self { value: Cell::new(Uint::<64>::from(0u64)) } }
                #[nocturne(circuit)]
                pub fn store(&mut self, my_witnesses: &W) {
                    self.value.set(my_witnesses.v);
                }
            }
        }
"##);
    assert!(
        tokens.contains("witnesses : & W"),
        "generated fn must take a param named `witnesses`, got: {tokens}"
    );
    assert!(
        !tokens.contains("my_witnesses"),
        "the user's param name must not leak into the generated builder, got: {tokens}"
    );
}

/// generated locals use reserved `__nocturne_*` idents so
/// user `let` bindings can't shadow them.
#[test]
fn generated_internals_use_reserved_idents() {
    let tokens = transcript_tokens(r##"
        mod internals {
            #[nocturne(ledger)]
            pub struct State { count: Counter }
            impl State {
                #[nocturne(constructor)]
                pub fn new() -> Self { Self { count: Counter::zero() } }
                #[nocturne(circuit)]
                pub fn bump(&mut self) { self.count.increment(); }
            }
        }
"##);
    assert!(
        tokens.contains("__nocturne_ops"),
        "generated op vec must be named __nocturne_ops, got: {tokens}"
    );
    assert!(
        tokens.contains("__nocturne_private_transcript"),
        "generated private transcript vec must use the reserved ident, got: {tokens}"
    );
}

// ---- what holds of whole contracts

/// The errors of a contract that is refused.
fn refused(input: &str) -> Vec<(ErrorCode, String)> {
    let errors = parse(input).expect_err("the contract must be refused");
    errors.errors().iter().map(|e| (e.code, e.message.clone())).collect()
}

const WALKED: &str = r##"
    mod walked {
        #[nocturne(ledger)]
        pub struct State { total: Cell<Uint<64>>, seen: Counter }
        #[nocturne(witnesses)]
        pub struct W { pub flag: Boolean, pub key: Bytes<32>, pub v: Uint<64> }
        impl W {
            pub fn pick(&self, n: u64) -> u64 { n }
        }
        impl State {
            #[nocturne(constructor)]
            pub fn new() -> Self { Self { total: Cell::new(Uint::<64>::from(0u64)), seen: Counter::zero() } }
            #[nocturne(circuit)]
            pub fn run(&mut self, witnesses: &W) {
                let v = witnesses.v;
                if witnesses.flag {
                    let k = witnesses.key;
                    self.total.set(v);
                } else {
                    let p = witnesses.pick(3u64);
                    self.seen.increment();
                }
                let again = witnesses.v;
            }
        }
    }
"##;

/// Private inputs come in the order of the walk, as many as each value has
/// elements, and guarded inside the branches only.
#[test]
fn private_inputs_come_in_walk_order() {
    let ir = parse(WALKED).expect("parses");
    let circuit = &ir.circuits[0];
    let mut expected: Vec<bool> = Vec::new();
    for event in body_private_events(&ir, &circuit.body) {
        let width = match event.name.as_str() {
            "v" | "flag" | "pick" => 1,
            "key" => 2,
            other => panic!("unexpected event {other}"),
        };
        expected.extend(std::iter::repeat(event.in_branch).take(width));
    }
    assert_eq!(expected, vec![false, false, true, true, true]);
    let out = emit_contract(&ir);
    assert!(out.errors.is_empty(), "{:?}", out.errors);
    let drawn: Vec<bool> = out.circuits[0]
        .ir_source
        .instructions
        .iter()
        .filter_map(|i| match i {
            LibraryInstruction::PrivateInput { guard } => Some(guard.is_some()),
            _ => None,
        })
        .collect();
    assert_eq!(drawn, expected);
}

/// The builder pushes a field once, at its first touch.
#[test]
fn builder_pushes_each_field_once() {
    let code = transcript_tokens(WALKED);
    assert_eq!(code.matches("witnesses . flag . clone ()").count(), 1, "{code}");
    assert_eq!(code.matches("witnesses . pick").count(), 2, "one push, one binding: {code}");
}

#[test]
fn if_inside_an_expression_is_refused_by_the_builder() {
    let code = transcript_tokens(r##"
        mod inside {
            #[nocturne(ledger)]
            pub struct State { value: Cell<Uint<64>> }
            #[nocturne(witnesses)]
            pub struct W { pub c: Boolean, pub a: Uint<64>, pub b: Uint<64> }
            impl State {
                #[nocturne(constructor)]
                pub fn new() -> Self { Self { value: Cell::new(Uint::<64>::from(0u64)) } }
                #[nocturne(circuit)]
                pub fn pick(&mut self, witnesses: &W) {
                    self.value.set(if witnesses.c { witnesses.a } else { witnesses.b });
                }
            }
        }
"##);
    assert!(code.contains("`if` is not supported in expression position"), "{code}");
}

/// Generated text quotes its strings.
#[test]
fn builders_are_documented() {
    let code = transcript_tokens(WALKED);
    assert!(code.contains("\"Build the transcript for the `run` circuit.\""), "{code}");
}

const TWO_CIRCUITS: &str = r##"
    mod two {
        #[nocturne(ledger)]
        pub struct State { count: Counter, tree: MerkleTree<4, Bytes<32>> }
        impl State {
            #[nocturne(constructor)]
            pub fn new(start: Uint<64>) -> Self { Self { count: Counter::zero(), tree: MerkleTree::new() } }
            #[nocturne(circuit)]
            pub fn up(&mut self) { self.count.increment(); }
            #[nocturne(circuit)]
            pub fn read(&mut self) -> u64 { self.count.value() }
        }
    }
"##;

#[test]
fn bundles_hold_a_circuit_per_entry_point() {
    let ir = parse(TWO_CIRCUITS).expect("parses");
    let bundle = build_bundle(&ir, "{}".to_string()).ok().expect("lowers");
    assert_eq!(bundle.name, "two");
    assert_eq!(bundle.entry_points, vec!["up", "read"]);
    assert_eq!(bundle.contract_info_json, "{}");
    for name in &bundle.entry_points {
        assert!(bundle.circuits.contains_key(name), "{name}");
    }
    assert!(!bundle.circuits.contains_key("new"));
}

#[test]
fn bundles_fail_with_the_emission_errors() {
    let ir = parse(r##"
        mod bad {
            #[nocturne(ledger)]
            pub struct State { count: Counter }
            impl State {
                #[nocturne(constructor)]
                pub fn new() -> Self { Self { count: Counter::zero() } }
                #[nocturne(circuit)]
                pub fn run(&mut self) { self.count.increment(); unknown_thing(1u64); }
            }
        }
"##).expect("parses");
    let errors = match build_bundle(&ir, "{}".to_string()) {
        Ok(_) => panic!("an unknown callee cannot lower"),
        Err(errors) => errors,
    };
    assert_eq!(errors.len(), 1);
    assert!(errors[0].starts_with("circuit `run`: call to `unknown_thing`"), "{errors:?}");
}

#[test]
fn deploy_modules_forward_the_constructor() {
    let ir = parse(TWO_CIRCUITS).expect("parses");
    let code = generate_deploy_module(&ir);
    assert!(code.contains("pub fn initial_state (start : Uint < 64 >) -> StateValue"), "{code}");
    assert!(code.contains("super :: State :: new (start)"), "{code}");
    assert!(code.contains("Vec :: with_capacity (2usize)"), "{code}");
    assert_eq!(try_generate_deploy_module(&ir), Some(code));
}

#[test]
fn trees_without_a_literal_height_have_no_deploy_module() {
    let ir = parse(r##"
        mod tall {
            #[nocturne(ledger)]
            pub struct State { tree: MerkleTree<HEIGHT, Bytes<32>> }
            impl State {
                #[nocturne(constructor)]
                pub fn new() -> Self { Self { tree: MerkleTree::new() } }
            }
        }
"##).expect("parses");
    assert_eq!(try_generate_deploy_module(&ir), None);
}

/// Outside any branch a group of public inputs is always active; the output
/// stands last.
#[test]
fn circuits_without_branches_guard_nothing() {
    let ir = parse(TWO_CIRCUITS).expect("parses");
    let out = emit_contract(&ir);
    for circuit in &out.circuits {
        assert!(circuit.branch_spans.is_empty());
        assert!(circuit.ir_source.do_communications_commitment);
        for i in &circuit.ir_source.instructions {
            match i {
                LibraryInstruction::PublicInput { guard } => assert_eq!(*guard, None),
                LibraryInstruction::PrivateInput { guard } => assert_eq!(*guard, None),
                LibraryInstruction::PiSkip { guard, .. } => assert_eq!(*guard, Some(0)),
                _ => {}
            }
        }
    }
    let read = &out.circuits[1].ir_source.instructions;
    assert!(matches!(read.last(), Some(LibraryInstruction::Output { .. })));
}

#[test]
fn acyclic_helpers_are_spliced() {
    let ir = parse(r##"
        mod spliced {
            fn inner(x: u64) -> u64 { let y = x; y }
            fn outer(x: u64) -> u64 { inner(inner(x)) }
            #[nocturne(ledger)]
            pub struct State { value: Cell<Uint<64>> }
            #[nocturne(witnesses)]
            pub struct W { pub v: u64 }
            impl State {
                #[nocturne(constructor)]
                pub fn new() -> Self { Self { value: Cell::new(Uint::<64>::from(0u64)) } }
                #[nocturne(circuit)]
                pub fn run(&mut self, witnesses: &W) { self.value.set(outer(witnesses.v)); }
            }
        }
"##).expect("helpers that call no circle are accepted");
    assert_eq!(ir.helpers.len(), 2);
    let out = emit_contract(&ir);
    assert!(out.errors.is_empty(), "{:?}", out.errors);
}

// ---- one contract per error code

#[test]
fn duplicate_ledger_is_refused() {
    let errors = refused(r##"
        mod m {
            #[nocturne(ledger)]
            pub struct A { a: Counter }
            #[nocturne(ledger)]
            pub struct B { b: Counter }
            impl A {
                #[nocturne(constructor)]
                pub fn new() -> Self { Self { a: Counter::zero() } }
                #[nocturne(circuit)]
                pub fn up(&mut self) { self.a.increment(); }
            }
        }
"##);
    assert!(errors.iter().any(|(code, _)| *code == ErrorCode::DuplicateLedger), "{errors:?}");
}

#[test]
fn duplicate_witnesses_are_refused() {
    let errors = refused(r##"
        mod m {
            #[nocturne(ledger)]
            pub struct A { a: Counter }
            #[nocturne(witnesses)]
            pub struct W { w: Field }
            #[nocturne(witnesses)]
            pub struct V { v: Field }
            impl A {
                #[nocturne(constructor)]
                pub fn new() -> Self { Self { a: Counter::zero() } }
                #[nocturne(circuit)]
                pub fn up(&mut self) { self.a.increment(); }
            }
        }
"##);
    assert!(errors.iter().any(|(code, _)| *code == ErrorCode::DuplicateWitnesses), "{errors:?}");
}

#[test]
fn contract_without_functions_is_refused() {
    let errors = refused(r##"
        mod m {
            #[nocturne(ledger)]
            pub struct A { a: Counter }
        }
"##);
    assert!(errors.iter().any(|(code, _)| *code == ErrorCode::MissingCircuit), "{errors:?}");
}

#[test]
fn every_kind_of_refusal_carries_its_code() {
    let cases = [
        (ErrorCode::MissingLedger, "mod m { pub struct A; }"),
        (ErrorCode::EmptyContractModule, "mod m;"),
        (
            ErrorCode::InvalidConstructorReturn,
            "mod m { #[nocturne(ledger)] pub struct A { a: Counter } impl A { #[nocturne(constructor)] pub fn new() -> u64 { 1 } #[nocturne(circuit)] pub fn up(&mut self) { self.a.increment(); } } }",
        ),
        (
            ErrorCode::QueryMustBeImmutable,
            "mod m { #[nocturne(ledger)] pub struct A { a: Counter } impl A { #[nocturne(constructor)] pub fn new() -> Self { Self { a: Counter::zero() } } #[nocturne(circuit)] pub fn up(&mut self) { self.a.increment(); } #[nocturne(query)] pub fn q(&mut self) -> u64 { self.a.value() } } }",
        ),
        (
            ErrorCode::InvalidAttribute,
            "mod m { #[nocturne(leger)] pub struct A { a: Counter } }",
        ),
        (
            ErrorCode::WitnessTypeMismatch,
            "mod m { #[nocturne(ledger)] pub struct A { a: Counter } #[nocturne(witnesses)] pub struct W { w: Field } impl A { #[nocturne(constructor)] pub fn new() -> Self { Self { a: Counter::zero() } } #[nocturne(circuit)] pub fn up(&mut self, witnesses: &W) { let x = witnesses.y; self.a.increment(); } } }",
        ),
        (
            ErrorCode::UnsupportedExpression,
            "mod m { #[nocturne(ledger)] pub struct A { a: Counter } impl A { #[nocturne(constructor)] pub fn new() -> Self { Self { a: Counter::zero() } } #[nocturne(circuit)] pub fn up(&mut self) { let mut x = 1u64; x += 1u64; self.a.increment(); } } }",
        ),
        (
            ErrorCode::UnsupportedLoop,
            "mod m { #[nocturne(ledger)] pub struct A { a: Counter } impl A { #[nocturne(constructor)] pub fn new() -> Self { Self { a: Counter::zero() } } #[nocturne(circuit)] pub fn up(&mut self) { for i in 0..100000 { self.a.increment(); } } } }",
        ),
    ];
    for (code, source) in cases {
        let errors = refused(source);
        assert!(errors.iter().any(|(c, _)| *c == code), "{code:?}: {errors:?}");
    }
}

// ---- host operations and circuit groups

/// A contract with one field of each kind and one circuit.
fn one_of_each(params: &str, body: &str) -> String {
    format!(
        r##"
        mod kinds {{
            #[nocturne(ledger)]
            pub struct State {{
                count: Counter,
                cell: Cell<Uint<64>>,
                flag: Cell<Boolean>,
                map: Map<Uint<64>, Uint<64>>,
                set: Set<Uint<64>>,
                tree: MerkleTree<4, Bytes<32>>,
            }}
            #[nocturne(witnesses)]
            pub struct W {{ pub a: Uint<64>, pub b: Uint<64>, pub leaf: Bytes<32>, pub digest: Field }}
            impl State {{
                #[nocturne(constructor)]
                pub fn new() -> Self {{
                    Self {{
                        count: Counter::zero(),
                        cell: Cell::new(Uint::<64>::from(0u64)),
                        flag: Cell::new(Boolean::from(false)),
                        map: Map::new(),
                        set: Set::new(),
                        tree: MerkleTree::new(),
                    }}
                }}
                #[nocturne(circuit)]
                pub fn run(&mut self, witnesses: &W{params}) {{ {body} }}
            }}
        }}
"##
    )
}

/// The constants that a circuit's groups open with.
fn group_opcodes(source: &str) -> Vec<String> {
    let ir = parse(source).expect("parses");
    let out = emit_contract(&ir);
    assert!(out.errors.is_empty(), "{:?}", out.errors);
    let circuit = &out.circuits[0].ir_source;
    let mut loaded: HashMap<u32, String> = HashMap::new();
    let mut next = circuit.num_inputs;
    let mut first: Option<String> = None;
    let mut codes = Vec::new();
    for i in &circuit.instructions {
        match i {
            LibraryInstruction::LoadImm { imm } => {
                loaded.insert(next, format!("{imm:?}"));
            }
            LibraryInstruction::DeclarePubInput { var } => {
                if first.is_none() {
                    first = Some(loaded.get(var).cloned().unwrap_or_default());
                }
            }
            LibraryInstruction::PiSkip { .. } => codes.push(first.take().expect("a group declares its opcode")),
            _ => {}
        }
        next += instruction_output_count(i);
    }
    codes
}

/// The guard of each group of public inputs, and the number of branches.
fn group_guards(source: &str) -> (Vec<Option<u32>>, usize) {
    let ir = parse(source).expect("parses");
    let out = emit_contract(&ir);
    assert!(out.errors.is_empty(), "{:?}", out.errors);
    let guards = out.circuits[0]
        .ir_source
        .instructions
        .iter()
        .filter_map(|i| match i {
            LibraryInstruction::PiSkip { guard, .. } => Some(*guard),
            _ => None,
        })
        .collect();
    (guards, out.circuits[0].branch_spans.len())
}

/// The opcodes as the library's constants print.
fn constants(codes: &[u8]) -> Vec<String> {
    codes.iter().map(|c| format!("{:?}", Imm::from_u128(u128::from(*c)))).collect()
}

/// The operations that the builder pushes, in order.
fn pushed(source: &str) -> Vec<String> {
    let code = transcript_tokens(source);
    code.split("__nocturne_ops . push (Op :: ")
        .skip(1)
        .map(|rest| rest.chars().take_while(|c| c.is_alphanumeric()).collect())
        .collect()
}

#[test]
fn groups_match_the_pushed_operations() {
    let insert: &[u8] = &[0x70, 0x10, 0x11, 0x91, 0xa1];
    let member: &[u8] = &[0x30, 0x50, 0x10, 0x18, 0x0d];
    let cases: Vec<(&str, &[u8], &[&str])> = vec![
        ("self.count.increment();", &[0x70, 0x0e, 0xa1], &["Idx", "Addi", "Ins"]),
        ("self.count.increment_by(3);", &[0x70, 0x0e, 0xa1], &["Idx", "Addi", "Ins"]),
        ("let x = self.cell.get();", &[0x30, 0x50, 0x0d], &["Dup", "Idx", "Popeq"]),
        ("self.cell.set(witnesses.a);", &[0x10, 0x11, 0x91], &["Push", "Push", "Ins"]),
        ("self.map.contains(&witnesses.a);", member, &["Dup", "Idx", "Push", "Member", "Popeq"]),
        ("self.map.insert(witnesses.a, witnesses.b);", insert, &["Idx", "Push", "Push", "Ins", "Ins"]),
        ("self.map.remove(&witnesses.a);", &[0x70, 0x10, 0x19, 0xa1], &["Idx", "Push", "Rem", "Ins"]),
        ("let x = self.map.lookup(&witnesses.a);", &[0x30, 0x50, 0x50, 0x0c], &["Dup", "Idx", "Idx", "Popeq"]),
        ("self.set.contains(&witnesses.a);", member, &["Dup", "Idx", "Push", "Member", "Popeq"]),
        ("self.set.insert(witnesses.a);", insert, &["Idx", "Push", "Push", "Ins", "Ins"]),
        ("self.set.remove(&witnesses.a);", &[0x70, 0x10, 0x19, 0xa1], &["Idx", "Push", "Rem", "Ins"]),
        (
            "self.tree.insert(witnesses.leaf);",
            &[0x70, 0x70, 0x32, 0x50, 0x11, 0x91, 0xa1, 0x70, 0x0e, 0xa2],
            &["Idx", "Idx", "Dup", "Idx", "Push", "Ins", "Ins", "Idx", "Addi", "Ins"],
        ),
        (
            "self.tree.check_root(witnesses.digest);",
            &[0x30, 0x50, 0x50, 0x0a, 0x10, 0x02, 0x0d],
            &["Dup", "Idx", "Idx", "Root", "Push", "Eq", "Popeq"],
        ),
    ];
    for (body, codes, ops) in cases {
        let source = one_of_each("", body);
        assert_eq!(group_opcodes(&source), constants(codes), "{body}");
        assert_eq!(pushed(&source), ops.to_vec(), "{body}");
    }
}

#[test]
fn conditions_push_what_the_circuit_groups() {
    let source = one_of_each("", "if self.set.contains(&witnesses.a) { self.count.increment(); }");
    assert_eq!(group_opcodes(&source).len(), 8);
    assert_eq!(pushed(&source).len(), 8);
}

#[test]
fn groups_count_their_own_inputs() {
    let ir = parse(&one_of_each("", "self.map.insert(witnesses.a, witnesses.b); if self.flag.get() { self.cell.set(witnesses.a); }"))
        .expect("parses");
    let out = emit_contract(&ir);
    assert!(out.errors.is_empty(), "{:?}", out.errors);
    let mut declared = 0u32;
    for i in &out.circuits[0].ir_source.instructions {
        match i {
            LibraryInstruction::DeclarePubInput { .. } => declared += 1,
            LibraryInstruction::PiSkip { count, .. } => {
                assert_eq!(*count, declared);
                declared = 0;
            }
            _ => {}
        }
    }
    assert_eq!(declared, 0);
}

/// What a circuit lowers to.
fn lowered(source: &str) -> String {
    let ir = parse(source).expect("parses");
    let out = emit_contract(&ir);
    assert!(out.errors.is_empty(), "{:?}", out.errors);
    format!("{:?}", out.circuits[0].ir_source.instructions)
}

#[test]
fn a_body_pushes_its_groups_in_order() {
    let body = "let x = self.cell.get(); \
                if !self.map.contains(&witnesses.a) { self.count.increment(); self.set.insert(witnesses.b); } \
                else { self.map.remove(&witnesses.a); } \
                assert!(self.flag.get()); \
                self.cell.set(x);";
    let source = one_of_each("", body);
    let names = [
        "Dup", "Idx", "Popeq", "Dup", "Idx", "Push", "Member", "Popeq", "Idx", "Addi", "Ins", "Idx", "Push", "Push",
        "Ins", "Ins", "Idx", "Push", "Rem", "Ins", "Dup", "Idx", "Popeq", "Push", "Push", "Ins",
    ];
    assert_eq!(pushed(&source), names.to_vec());
    let (guards, branches) = group_guards(&source);
    assert_eq!(guards.len(), names.len());
    assert_eq!(branches, 2);
    let always = guards[0];
    let (then_guard, else_guard) = (guards[8], guards[16]);
    assert!(always.is_some() && then_guard.is_some() && else_guard.is_some());
    assert!(always != then_guard && always != else_guard && then_guard != else_guard);
    for (i, guard) in guards.iter().enumerate() {
        let place = match i {
            8..=15 => then_guard,
            16..=19 => else_guard,
            _ => always,
        };
        assert_eq!(*guard, place, "group {i}");
    }
}

#[test]
fn a_bound_value_follows_a_condition_of_the_ledger() {
    let source = one_of_each("", "if self.flag.get() { let y = self.map.lookup(&witnesses.a); self.cell.set(y); }");
    let names = ["Dup", "Idx", "Popeq", "Dup", "Idx", "Idx", "Popeq", "Push", "Push", "Ins"];
    assert_eq!(pushed(&source), names.to_vec());
    let (guards, branches) = group_guards(&source);
    assert_eq!(branches, 1);
    assert_eq!(guards.len(), names.len());
    assert!(guards[..3].iter().all(|g| *g == guards[0]));
    assert!(guards[3..].iter().all(|g| *g == guards[3]));
    assert_ne!(guards[0], guards[3]);
}

#[test]
fn references_lower_as_their_value() {
    assert_eq!(
        lowered(&one_of_each("", "self.set.insert(witnesses.a);")),
        lowered(&one_of_each("", "self.set.insert(&witnesses.a);")),
    );
}

#[test]
fn a_trailing_return_lowers_as_its_value() {
    let plain = one_of_each("", "self.cell.get()").replace("&W)", "&W) -> Uint<64>");
    let returned = one_of_each("", "return self.cell.get();").replace("&W)", "&W) -> Uint<64>");
    assert_eq!(lowered(&plain), lowered(&returned));
}

#[test]
fn optional_reads_lower_alike() {
    let forms = [
        "if let Some(v) = self.map.get(&witnesses.a) { self.cell.set(v); } else { self.count.increment(); }",
        "match self.map.get(&witnesses.a) { Some(v) => { self.cell.set(v); } None => { self.count.increment(); } }",
        "match self.map.get(&witnesses.a) { None => { self.count.increment(); } Some(v) => { self.cell.set(v); } }",
    ];
    let first = lowered(&one_of_each("", forms[0]));
    for form in forms {
        assert_eq!(lowered(&one_of_each("", form)), first, "{form}");
    }
}

#[test]
fn repeated_witness_reads_share_a_wire() {
    let ir = parse(&one_of_each("", "self.set.insert(witnesses.a); self.set.insert(witnesses.a);")).expect("parses");
    let out = emit_contract(&ir);
    assert!(out.errors.is_empty(), "{:?}", out.errors);
    let drawn = out.circuits[0]
        .ir_source
        .instructions
        .iter()
        .filter(|i| matches!(i, LibraryInstruction::PrivateInput { .. }))
        .count();
    assert_eq!(drawn, 1);
}

// ---- parameters, helpers and strings

#[test]
fn parameters_of_many_elements_are_refused() {
    for ty in ["[u64; 2]", "Option<u64>", "Option<Bytes<32>>"] {
        let errors = emit_errors(&one_of_each(&format!(", p: {ty}"), "self.count.increment();"));
        assert_eq!(errors.len(), 1, "{ty}: {errors:?}");
        assert!(errors[0].contains("multi-Fr public parameter type"), "{ty}: {errors:?}");
        assert!(errors[0].contains("is not supported yet"), "{ty}: {errors:?}");
    }
}

#[test]
fn helpers_with_an_unmodelled_receiver_stay_plain_functions() {
    let source = |helper: &str| {
        one_of_each("", "self.count.increment();").replace("mod kinds {", &format!("mod kinds {{ {helper}"))
    };
    let plain = parse(&source("fn twice(x: u64) -> u64 { x.add(x) }")).expect("parses");
    assert_eq!(plain.helpers.len(), 1);
    let odd = parse(&source("fn odd(x: u64) -> u64 { (|| x).pick() }")).expect("parses");
    assert_eq!(odd.helpers.len(), 0);
}

#[test]
fn strings_are_quoted_as_rust_literals() {
    for text in ["plain", "say \"hi\"", "back\\slash", "two\nlines", "tab\t", "cr\r", "nul\0", "it's", "caf\u{e9}"] {
        let source = one_of_each("", &format!("self.cell.set({text:?});"));
        let code = transcript_tokens(&source);
        let token = proc_macro2::Literal::string(text).to_string();
        assert!(code.contains(&token), "{token} in {code}");
    }
}

#[test]
fn the_order_of_items_does_not_matter() {
    let ledger = "#[nocturne(ledger)] pub struct A { a: Counter, b: Cell<Uint<64>> }";
    let witnesses = "#[nocturne(witnesses)] pub struct W { pub w: Uint<64> }";
    let functions = "impl A { #[nocturne(constructor)] pub fn new() -> Self { Self { a: Counter::zero(), b: Cell::new(Uint::<64>::from(0u64)) } } #[nocturne(circuit)] pub fn up(&mut self, witnesses: &W) { self.b.set(pick(witnesses.w)); } }";
    let helper = "fn pick(x: Uint<64>) -> Uint<64> { inner(x) }";
    let inner = "fn inner(x: Uint<64>) -> Uint<64> { x }";
    let types = "pub enum Color { Red, Green } pub struct Pair { pub x: u64 }";
    let swapped = "pub struct Pair { pub x: u64 } pub enum Color { Red, Green }";
    let first = lowered(&format!("mod m {{ {ledger} {witnesses} {types} {functions} {helper} {inner} }}"));
    for order in [
        format!("mod m {{ {inner} {helper} {functions} {swapped} {witnesses} {ledger} }}"),
        format!("mod m {{ {functions} {ledger} {helper} {types} {witnesses} {inner} }}"),
        format!("mod m {{ {witnesses} {swapped} {inner} {ledger} {functions} {helper} }}"),
    ] {
        assert_eq!(lowered(&order), first, "{order}");
        let ir = parse(&order).expect("parses");
        assert_eq!((ir.circuits.len(), ir.helpers.len(), ir.user_enums.len(), ir.user_structs.len()), (1, 2, 1, 1));
    }
}
