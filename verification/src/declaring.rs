//! What a contract module declares: its ledger, witnesses, types, functions
//! and helpers, and every diagnostic on the way.
use crate::attrs::{found_attr, MidnightAttr};
use crate::containers::last_segment;
use crate::contract::{kind_of, CircuitV, ConstructorV, ContractV, EnumVariantV, HelperV, LedgerFieldV, LedgerKindV};
use crate::contract::{LedgerV, ParamV, QueryV, StructFieldV, WitnessFieldV, WitnessMethodV, WitnessV};
use crate::error::{ErrorCode, ErrorV};
use crate::expr::{AssertV, ExprV};
use crate::helper_graph::recursion_error;
use crate::reading::{nodes_of, read_block, unreferenced, unsupported_error, DeclV, ScopeV};
use crate::syntax::{ty_opt, ty_view, Attribute, FieldDef, Fields, FnArg, FnItem, Ident, Item, ItemMod, PatKind};
use crate::syntax::{Signature, Span, TyKindV, TyV, Variant};
use crate::text::no_spaces;
use vstd::prelude::*;

verus! {

pub open spec fn type_error(span: Span, message: Seq<char>) -> ErrorV {
    ErrorV { span, code: ErrorCode::InvalidType, message }
}

pub open spec fn attr_of(attrs: Seq<Attribute>) -> Result<Option<(MidnightAttr, Span)>, ErrorV> {
    found_attr(attrs, attrs.len())
}

/// Whether attributes name one kind and are well formed.
pub open spec fn marked(attrs: Seq<Attribute>, kind: MidnightAttr) -> bool {
    match attr_of(attrs) {
        Ok(Some((k, _))) => k == kind,
        _ => false,
    }
}

// ---- structs and enums

/// The kind of container a ledger field's type is.
pub open spec fn type_kind(t: TyV) -> LedgerKindV {
    match t.kind {
        TyKindV::Path { .. } => match last_segment(t) {
            Some(s) => kind_of(s.ident),
            None => LedgerKindV::Unknown("empty path"@),
        },
        _ => LedgerKindV::Unknown(t.text),
    }
}

/// The first `n` ledger fields.
pub open spec fn ledger_fields(fs: Seq<FieldDef>, n: nat) -> Result<Seq<LedgerFieldV>, ErrorV>
    decreases n,
{
    if n == 0 || n > fs.len() {
        Ok(seq![])
    } else {
        match ledger_fields(fs, (n - 1) as nat) {
            Err(x) => Err(x),
            Ok(before) => match attr_of(fs[n - 1].attrs@) {
                Err(x) => Err(x),
                Ok(_) => Ok(
                    before.push(
                        LedgerFieldV {
                            span: fs[n - 1].ident.span,
                            name: fs[n - 1].ident.name@,
                            ty: ty_view(fs[n - 1].ty),
                            type_kind: type_kind(ty_view(fs[n - 1].ty)),
                            exported: !marked(fs[n - 1].attrs@, MidnightAttr::Private),
                        },
                    ),
                ),
            },
        }
    }
}

pub open spec fn ledger_struct(ident: Ident, fields: Fields) -> Result<LedgerV, ErrorV> {
    match fields {
        Fields::Named(fs) => match ledger_fields(fs@, fs@.len()) {
            Err(x) => Err(x),
            Ok(v) => Ok(LedgerV { span: ident.span, name: ident.name@, fields: v }),
        },
        _ => Err(type_error(ident.span, "ledger struct must have named fields"@)),
    }
}

pub open spec fn witness_fields(fs: Seq<FieldDef>) -> Seq<WitnessFieldV> {
    Seq::new(
        fs.len(),
        |i: int| WitnessFieldV { span: fs[i].ident.span, name: fs[i].ident.name@, ty: ty_view(fs[i].ty) },
    )
}

pub open spec fn witness_struct(ident: Ident, fields: Fields) -> Result<WitnessV, ErrorV> {
    match fields {
        Fields::Named(fs) => Ok(
            WitnessV { span: ident.span, name: ident.name@, fields: witness_fields(fs@), methods: seq![] },
        ),
        Fields::Unit => Ok(WitnessV { span: ident.span, name: ident.name@, fields: seq![], methods: seq![] }),
        Fields::Unnamed(_) => Err(
            type_error(ident.span, "witnesses struct must use named fields or be a unit struct"@),
        ),
    }
}

pub open spec fn struct_fields(fs: Seq<FieldDef>) -> Seq<StructFieldV> {
    Seq::new(fs.len(), |i: int| StructFieldV { name: fs[i].ident.name@, ty: ty_view(fs[i].ty) })
}

/// A payload as diagnostics show it.
pub open spec fn payload_text(p: Option<TyV>) -> Seq<char> {
    match p {
        Some(t) => no_spaces(t.text),
        None => "unit"@,
    }
}

pub open spec fn same_payload(a: Option<TyV>, b: Option<TyV>) -> bool {
    match (a, b) {
        (Some(s), Some(t)) => no_spaces(s.text) == no_spaces(t.text),
        (None, None) => true,
        _ => false,
    }
}

/// The payload a variant may carry, or why the variant is none that circuits
/// can hold.
pub open spec fn payload_of(v: Variant) -> Result<Option<TyV>, Seq<char>> {
    match v.fields {
        Fields::Unit => Ok(None),
        Fields::Unnamed(ts) => if ts@.len() == 1 {
            Ok(Some(ty_view(ts@[0])))
        } else {
            Err("multi-field tuple variants"@)
        },
        Fields::Named(_) => Err("named-field variants"@),
    }
}

/// The first `n` variants: all without payload, or all with the same one. An
/// error names the first variant that breaks this.
pub open spec fn enum_variants(vs: Seq<Variant>, n: nat) -> Result<Seq<EnumVariantV>, (Ident, Seq<char>)>
    decreases n,
{
    if n == 0 || n > vs.len() {
        Ok(seq![])
    } else {
        match enum_variants(vs, (n - 1) as nat) {
            Err(x) => Err(x),
            Ok(before) => match payload_of(vs[n - 1]) {
                Err(why) => Err((vs[n - 1].ident, why)),
                Ok(payload) => if before.len() > 0 && !same_payload(before[0].payload, payload) {
                    Err(
                        (
                            vs[n - 1].ident,
                            "heterogeneous payloads (expected `"@ + payload_text(before[0].payload) + "`, found `"@
                                + payload_text(payload) + "`)"@,
                        ),
                    )
                } else {
                    Ok(before.push(EnumVariantV { name: vs[n - 1].ident.name@, payload }))
                },
            },
        }
    }
}

/// The declarations found so far.
#[verifier::ext_equal]
pub struct FoundV {
    pub ledger_seen: bool,
    pub ledger: Option<LedgerV>,
    pub witnesses_seen: bool,
    pub witnesses: Option<WitnessV>,
    pub structs: Seq<(Seq<char>, Seq<StructFieldV>)>,
    pub enums: Seq<(Seq<char>, Seq<EnumVariantV>)>,
    pub errors: Seq<ErrorV>,
}

pub open spec fn nothing_found() -> FoundV {
    FoundV {
        ledger_seen: false,
        ledger: None,
        witnesses_seen: false,
        witnesses: None,
        structs: seq![],
        enums: seq![],
        errors: seq![],
    }
}

pub open spec fn declare_ledger(s: FoundV, ident: Ident, fields: Fields) -> FoundV {
    if s.ledger_seen {
        FoundV {
            errors: s.errors.push(
                ErrorV {
                    span: ident.span,
                    code: ErrorCode::DuplicateLedger,
                    message: "only one #[nocturne(ledger)] struct is allowed per contract"@,
                },
            ),
            ..s
        }
    } else {
        match ledger_struct(ident, fields) {
            Ok(l) => FoundV { ledger_seen: true, ledger: Some(l), ..s },
            Err(x) => FoundV { ledger_seen: true, errors: s.errors.push(x), ..s },
        }
    }
}

pub open spec fn declare_witnesses(s: FoundV, ident: Ident, fields: Fields) -> FoundV {
    if s.witnesses_seen {
        FoundV {
            errors: s.errors.push(
                ErrorV {
                    span: ident.span,
                    code: ErrorCode::DuplicateWitnesses,
                    message: "only one #[nocturne(witnesses)] struct is allowed per contract"@,
                },
            ),
            ..s
        }
    } else {
        match witness_struct(ident, fields) {
            Ok(w) => FoundV { witnesses_seen: true, witnesses: Some(w), ..s },
            Err(x) => FoundV { witnesses_seen: true, errors: s.errors.push(x), ..s },
        }
    }
}

pub open spec fn declare_struct(s: FoundV, ident: Ident, fields: Fields) -> FoundV {
    match fields {
        Fields::Named(fs) => FoundV { structs: s.structs.push((ident.name@, struct_fields(fs@))), ..s },
        _ => s,
    }
}

pub open spec fn declare_enum(s: FoundV, ident: Ident, variants: Seq<Variant>) -> FoundV {
    match enum_variants(variants, variants.len()) {
        Ok(vs) => if vs.len() > 0 {
            FoundV { enums: s.enums.push((ident.name@, vs)), ..s }
        } else {
            s
        },
        Err((bad, why)) => FoundV {
            errors: s.errors.push(
                unsupported_error(
                    bad.span,
                    "enum `"@ + ident.name@ + "` variant `"@ + bad.name@ + "` rejected: "@ + why
                        + ". Only homogeneous single-payload or all-unit enums are supported. See memories/scope-blockers.md."@,
                ),
            ),
            ..s
        },
    }
}

pub open spec fn declare_item(s: FoundV, item: Item) -> FoundV {
    match item {
        Item::Struct { attrs, ident, fields } => match attr_of(attrs@) {
            Err(x) => FoundV { errors: s.errors.push(x), ..s },
            Ok(Some((MidnightAttr::Ledger, _))) => declare_ledger(s, ident, fields),
            Ok(Some((MidnightAttr::Witnesses, _))) => declare_witnesses(s, ident, fields),
            Ok(_) => declare_struct(s, ident, fields),
        },
        Item::Enum { ident, variants } => declare_enum(s, ident, variants@),
        _ => s,
    }
}

/// What the first `n` items declare. Declarations are collected before any
/// body is read, so the order of items does not matter to bodies.
pub open spec fn declared(items: Seq<Item>, n: nat) -> FoundV
    decreases n,
{
    if n == 0 || n > items.len() {
        nothing_found()
    } else {
        declare_item(declared(items, (n - 1) as nat), items[n - 1])
    }
}

// ---- signatures

/// Whether a type is the witnesses struct, behind any number of references.
pub open spec fn is_witnesses_type(t: TyV, witnesses: Seq<char>) -> bool {
    match last_segment(unreferenced(t)) {
        Some(s) => s.ident == witnesses,
        None => false,
    }
}

pub struct ParamsV {
    pub witnesses_param: Option<Seq<char>>,
    pub params: Seq<ParamV>,
}

/// The first `n` arguments: the witnesses parameter apart from the public
/// ones.
pub open spec fn fn_params(inputs: Seq<FnArg>, witnesses: Option<Seq<char>>, n: nat) -> Result<ParamsV, ErrorV>
    decreases n,
{
    if n == 0 || n > inputs.len() {
        Ok(ParamsV { witnesses_param: None, params: seq![] })
    } else {
        match fn_params(inputs, witnesses, (n - 1) as nat) {
            Err(x) => Err(x),
            Ok(before) => match inputs[n - 1] {
                FnArg::Receiver { .. } => Ok(before),
                FnArg::Typed { pat, ty } => match pat.kind {
                    PatKind::Ident { ident, .. } => if witnesses is Some && is_witnesses_type(
                        ty_view(ty),
                        witnesses->0,
                    ) {
                        Ok(ParamsV { witnesses_param: Some(ident.name@), ..before })
                    } else {
                        Ok(
                            ParamsV {
                                params: before.params.push(
                                    ParamV { span: ident.span, name: ident.name@, ty: ty_view(ty) },
                                ),
                                ..before
                            },
                        )
                    },
                    _ => Err(
                        unsupported_error(
                            pat.span,
                            "parameter patterns must be plain identifiers; destructuring patterns are not supported in nocturne functions"@,
                        ),
                    ),
                },
            },
        }
    }
}

pub open spec fn signature_params(sig: Signature, witnesses: Option<Seq<char>>) -> Result<ParamsV, ErrorV> {
    fn_params(sig.inputs@, witnesses, sig.inputs@.len())
}

pub open spec fn witnesses_name(cx: DeclV) -> Option<Seq<char>> {
    match cx.witnesses {
        Some(w) => Some(w.name),
        None => None,
    }
}

/// The scope at the start of a body.
pub open spec fn body_scope(p: ParamsV) -> ScopeV {
    ScopeV {
        witnesses_param: p.witnesses_param,
        params: p.params,
        shadowed: Set::empty(),
        unrolled: seq![],
    }
}

pub open spec fn fn_body(cx: DeclV, f: FnItem, p: ParamsV) -> Result<Seq<ExprV>, ErrorV> {
    read_block(cx, body_scope(p), f.block.stmts@, f.block.stmts@.len(), 0).0
}

// ---- witness methods

/// Whether an impl block adds methods to the named struct.
pub open spec fn impl_targets(has_trait: bool, self_ty: TyV, name: Seq<char>) -> bool {
    !has_trait && match last_segment(self_ty) {
        Some(s) => s.ident == name,
        None => false,
    }
}

pub open spec fn witness_method(f: FnItem) -> Result<WitnessMethodV, ErrorV> {
    match signature_params(f.sig, None) {
        Err(x) => Err(x),
        Ok(p) => match f.sig.output {
            None => Err(
                type_error(f.sig.ident.span, "parametric witness method must declare a return type"@),
            ),
            Some(ty) => Ok(
                WitnessMethodV {
                    span: f.sig.ident.span,
                    name: f.sig.ident.name@,
                    params: p.params,
                    return_type: ty_view(ty),
                },
            ),
        },
    }
}

#[verifier::ext_equal]
pub struct MethodsV {
    pub methods: Seq<WitnessMethodV>,
    pub errors: Seq<ErrorV>,
}

pub open spec fn methods_of_fns(s: MethodsV, fns: Seq<FnItem>, n: nat) -> MethodsV
    decreases n,
{
    if n == 0 || n > fns.len() {
        s
    } else {
        let before = methods_of_fns(s, fns, (n - 1) as nat);
        match witness_method(fns[n - 1]) {
            Ok(m) => MethodsV { methods: before.methods.push(m), ..before },
            Err(x) => MethodsV { errors: before.errors.push(x), ..before },
        }
    }
}

/// The witness methods of the first `n` items, and what is wrong with them.
pub open spec fn witness_methods(items: Seq<Item>, name: Seq<char>, errors: Seq<ErrorV>, n: nat) -> MethodsV
    decreases n,
{
    if n == 0 || n > items.len() {
        MethodsV { methods: seq![], errors }
    } else {
        let before = witness_methods(items, name, errors, (n - 1) as nat);
        match items[n - 1] {
            Item::Impl { has_trait, self_ty, fns } => if impl_targets(has_trait, ty_view(self_ty), name) {
                methods_of_fns(before, fns@, fns@.len())
            } else {
                before
            },
            _ => before,
        }
    }
}

/// The declarations with the witness methods registered.
pub open spec fn with_methods(s: FoundV, items: Seq<Item>) -> FoundV {
    match s.witnesses {
        None => s,
        Some(w) => {
            let m = witness_methods(items, w.name, s.errors, items.len());
            FoundV { witnesses: Some(WitnessV { methods: m.methods, ..w }), errors: m.errors, ..s }
        }
    }
}

// ---- functions

/// Whether a return type is `Self` or the ledger struct.
pub open spec fn returns_ledger(output: Option<TyV>, ledger: Seq<char>) -> bool {
    match output {
        Some(t) => match last_segment(t) {
            Some(s) => s.ident == "Self"@ || s.ident == ledger,
            None => false,
        },
        None => false,
    }
}

#[verifier::opaque]
pub open spec fn constructor_of(cx: DeclV, f: FnItem) -> Result<ConstructorV, ErrorV> {
    let name = f.sig.ident;
    if cx.ledger is Some && !returns_ledger(ty_opt(f.sig.output), cx.ledger->0.name) {
        Err(
            ErrorV {
                span: name.span,
                code: ErrorCode::InvalidConstructorReturn,
                message: "constructor `"@ + name.name@ + "` must return `Self` or `"@ + cx.ledger->0.name
                    + "` (the ledger struct)"@,
            },
        )
    } else {
        match signature_params(f.sig, witnesses_name(cx)) {
            Err(x) => Err(x),
            Ok(p) => match fn_body(cx, f, p) {
                Err(x) => Err(x),
                Ok(body) => Ok(ConstructorV { span: name.span, name: name.name@, params: p.params, body }),
            },
        }
    }
}

/// Whether the last receiver among the first `n` arguments is mutable.
pub open spec fn mutable_receiver(inputs: Seq<FnArg>, n: nat) -> bool
    decreases n,
{
    if n == 0 || n > inputs.len() {
        false
    } else {
        match inputs[n - 1] {
            FnArg::Receiver { mutable } => mutable,
            _ => mutable_receiver(inputs, (n - 1) as nat),
        }
    }
}

#[verifier::opaque]
pub open spec fn circuit_of(cx: DeclV, f: FnItem) -> Result<CircuitV, ErrorV> {
    let name = f.sig.ident;
    match signature_params(f.sig, witnesses_name(cx)) {
        Err(x) => Err(x),
        Ok(p) => match fn_body(cx, f, p) {
            Err(x) => Err(x),
            Ok(body) => Ok(
                CircuitV {
                    span: name.span,
                    name: name.name@,
                    params: p.params,
                    takes_witnesses: p.witnesses_param is Some,
                    witnesses_param_name: p.witnesses_param,
                    mutates_ledger: mutable_receiver(f.sig.inputs@, f.sig.inputs@.len()),
                    body,
                    return_type: ty_opt(f.sig.output),
                },
            ),
        },
    }
}

pub open spec fn starts_mutable(inputs: Seq<FnArg>) -> bool {
    inputs.len() > 0 && match inputs[0] {
        FnArg::Receiver { mutable } => mutable,
        _ => false,
    }
}

#[verifier::opaque]
pub open spec fn query_of(cx: DeclV, f: FnItem) -> Result<QueryV, ErrorV> {
    let name = f.sig.ident;
    if starts_mutable(f.sig.inputs@) {
        Err(
            ErrorV {
                span: name.span,
                code: ErrorCode::QueryMustBeImmutable,
                message: "query functions must take &self, not &mut self"@,
            },
        )
    } else {
        match signature_params(f.sig, witnesses_name(cx)) {
            Err(x) => Err(x),
            Ok(p) => match fn_body(cx, f, p) {
                Err(x) => Err(x),
                Ok(body) => Ok(
                    QueryV {
                        span: name.span,
                        name: name.name@,
                        params: p.params,
                        return_type: ty_opt(f.sig.output),
                        body,
                    },
                ),
            },
        }
    }
}

// ---- helpers

/// Whether an expression holds, anywhere in it, a node that has no meaning in
/// a circuit.
pub open spec fn unmodelled(e: ExprV) -> bool
    decreases e, 0nat,
{
    match e {
        ExprV::Unsupported { .. } => true,
        ExprV::BinaryOp { lhs, rhs, .. } => unmodelled(*lhs) || unmodelled(*rhs),
        ExprV::UnaryOp { expr, .. } => unmodelled(*expr),
        ExprV::Reference { expr, .. } => unmodelled(*expr),
        ExprV::FnCall { args, .. } => any_unmodelled(args, args.len()),
        ExprV::MethodCall { receiver, args, .. } => unmodelled(*receiver) || any_unmodelled(args, args.len()),
        ExprV::Let { value, .. } => unmodelled(*value),
        ExprV::If { cond, then_branch, else_branch, .. } => unmodelled(*cond) || any_unmodelled(
            then_branch,
            then_branch.len(),
        ) || match else_branch {
            Some(b) => any_unmodelled(b, b.len()),
            None => false,
        },
        ExprV::Assert { kind, .. } => match kind {
            AssertV::Assert(a) => unmodelled(*a),
            AssertV::AssertEq(a, b) => unmodelled(*a) || unmodelled(*b),
        },
        ExprV::Disclose { value, .. } => unmodelled(*value),
        ExprV::EnumPayload { scrutinee, .. } => unmodelled(*scrutinee),
        ExprV::Block { stmts, .. } => any_unmodelled(stmts, stmts.len()),
        ExprV::StructInit { fields, .. } => any_field_unmodelled(fields, fields.len()),
        ExprV::Return { value, .. } => match value {
            Some(v) => unmodelled(*v),
            None => false,
        },
        ExprV::Tuple { elements, .. } => any_unmodelled(elements, elements.len()),
        ExprV::ArrayLit { elements, .. } => any_unmodelled(elements, elements.len()),
        ExprV::Index { array, .. } => unmodelled(*array),
        ExprV::LedgerAccess { args, .. } => any_unmodelled(args, args.len()),
        ExprV::WitnessCall { args, .. } => any_unmodelled(args, args.len()),
        ExprV::Literal { .. } => false,
        ExprV::Var { .. } => false,
        ExprV::Path { .. } => false,
        ExprV::WitnessAccess { .. } => false,
    }
}

pub open spec fn any_unmodelled(es: Seq<ExprV>, n: nat) -> bool
    decreases es, n,
{
    if n == 0 || n > es.len() {
        false
    } else {
        any_unmodelled(es, (n - 1) as nat) || unmodelled(es[n - 1])
    }
}

pub open spec fn any_field_unmodelled(fs: Seq<(Seq<char>, ExprV)>, n: nat) -> bool
    decreases fs, n,
{
    if n == 0 || n > fs.len() {
        false
    } else {
        any_field_unmodelled(fs, (n - 1) as nat) || unmodelled(fs[n - 1].1)
    }
}

/// The first `n` parameters of a helper: owned values under plain names.
pub open spec fn helper_params(inputs: Seq<FnArg>, n: nat) -> Option<Seq<ParamV>>
    decreases n,
{
    if n == 0 || n > inputs.len() {
        Some(seq![])
    } else {
        match helper_params(inputs, (n - 1) as nat) {
            None => None,
            Some(before) => match inputs[n - 1] {
                FnArg::Receiver { .. } => None,
                FnArg::Typed { pat, ty } => match (ty_view(ty).kind, pat.kind) {
                    (TyKindV::Reference(_), _) => None,
                    (_, PatKind::Ident { ident, .. }) => Some(
                        before.push(ParamV { span: ident.span, name: ident.name@, ty: ty_view(ty) }),
                    ),
                    _ => None,
                },
            },
        }
    }
}

pub open spec fn is_builtin(name: Seq<char>) -> bool {
    name == "persistent_hash"@ || name == "transient_hash"@ || name == "merkle_tree_path_root"@ || name
        == "disclose"@
}

pub open spec fn owned_output(output: Option<TyV>) -> Option<TyV> {
    match output {
        Some(t) => if t.kind is Reference {
            None
        } else {
            Some(t)
        },
        None => None,
    }
}

/// A free function as a helper, if circuits can splice it in. Others stay
/// plain functions.
#[verifier::opaque]
pub open spec fn helper_of(cx: DeclV, f: FnItem) -> Option<HelperV> {
    let sig = f.sig;
    let name = sig.ident;
    if sig.is_async || sig.is_const || sig.is_unsafe || sig.has_generics || sig.has_where || is_builtin(name.name@) {
        None
    } else {
        match (helper_params(sig.inputs@, sig.inputs@.len()), owned_output(ty_opt(sig.output))) {
            (Some(params), Some(return_type)) => match fn_body(
                cx,
                f,
                ParamsV { witnesses_param: None, params },
            ) {
                Err(_) => None,
                Ok(body) => if any_unmodelled(body, body.len()) {
                    None
                } else {
                    Some(HelperV { span: name.span, name: name.name@, params, return_type, body })
                },
            },
            _ => None,
        }
    }
}

// ---- bodies

#[verifier::ext_equal]
pub struct BodiesV {
    pub constructors: Seq<ConstructorV>,
    pub circuits: Seq<CircuitV>,
    pub queries: Seq<QueryV>,
    pub helpers: Seq<HelperV>,
    pub other_items: Seq<usize>,
    pub errors: Seq<ErrorV>,
}

/// Adds the function that an attribute marks.
pub open spec fn add_fn(cx: DeclV, s: BodiesV, f: FnItem) -> BodiesV {
    match attr_of(f.attrs@) {
        Err(x) => BodiesV { errors: s.errors.push(x), ..s },
        Ok(Some((MidnightAttr::Constructor, _))) => match constructor_of(cx, f) {
            Ok(c) => BodiesV { constructors: s.constructors.push(c), ..s },
            Err(x) => BodiesV { errors: s.errors.push(x), ..s },
        },
        Ok(Some((MidnightAttr::Circuit, _))) => match circuit_of(cx, f) {
            Ok(c) => BodiesV { circuits: s.circuits.push(c), ..s },
            Err(x) => BodiesV { errors: s.errors.push(x), ..s },
        },
        Ok(Some((MidnightAttr::Query, _))) => match query_of(cx, f) {
            Ok(q) => BodiesV { queries: s.queries.push(q), ..s },
            Err(x) => BodiesV { errors: s.errors.push(x), ..s },
        },
        Ok(_) => s,
    }
}

pub open spec fn is_entry(f: FnItem) -> bool {
    marked(f.attrs@, MidnightAttr::Constructor) || marked(f.attrs@, MidnightAttr::Circuit) || marked(
        f.attrs@,
        MidnightAttr::Query,
    )
}

pub open spec fn add_fns(cx: DeclV, s: BodiesV, fns: Seq<FnItem>, n: nat) -> BodiesV
    decreases n,
{
    if n == 0 || n > fns.len() {
        s
    } else {
        add_fn(cx, add_fns(cx, s, fns, (n - 1) as nat), fns[n - 1])
    }
}

pub open spec fn any_entry(fns: Seq<FnItem>) -> bool {
    exists|i: int| 0 <= i < fns.len() && is_entry(#[trigger] fns[i])
}

/// Whether an item is a ledger or witnesses struct, which declarations
/// consume.
pub open spec fn is_declaration(item: Item) -> bool {
    match item {
        Item::Struct { attrs, .. } => marked(attrs@, MidnightAttr::Ledger) || marked(attrs@, MidnightAttr::Witnesses),
        _ => false,
    }
}

pub open spec fn kept(s: BodiesV, i: usize) -> BodiesV {
    BodiesV { other_items: s.other_items.push(i), ..s }
}

pub open spec fn add_item(cx: DeclV, s: BodiesV, item: Item, i: usize) -> BodiesV {
    match item {
        Item::Impl { has_trait, self_ty, fns } => if cx.witnesses is Some && impl_targets(
            has_trait,
            ty_view(self_ty),
            cx.witnesses->0.name,
        ) {
            kept(s, i)
        } else {
            let after = add_fns(cx, s, fns@, fns@.len());
            if any_entry(fns@) {
                after
            } else {
                kept(after, i)
            }
        },
        Item::Fn(f) => match helper_of(cx, f) {
            Some(h) => kept(BodiesV { helpers: s.helpers.push(h), ..s }, i),
            None => kept(s, i),
        },
        _ => if is_declaration(item) {
            s
        } else {
            kept(s, i)
        },
    }
}

/// The functions of the first `n` items.
pub open spec fn bodies(cx: DeclV, items: Seq<Item>, errors: Seq<ErrorV>, n: nat) -> BodiesV
    decreases n,
{
    if n == 0 || n > items.len() {
        BodiesV {
            constructors: seq![],
            circuits: seq![],
            queries: seq![],
            helpers: seq![],
            other_items: seq![],
            errors,
        }
    } else {
        add_item(cx, bodies(cx, items, errors, (n - 1) as nat), items[n - 1], (n - 1) as usize)
    }
}

// ---- witness resolution

pub open spec fn struct_name(w: Option<WitnessV>) -> Seq<char> {
    match w {
        Some(w) => w.name,
        None => "<witnesses>"@,
    }
}

pub open spec fn has_witness_field(w: Option<WitnessV>, name: Seq<char>) -> bool {
    match w {
        Some(w) => exists|i: int| 0 <= i < w.fields.len() && (#[trigger] w.fields[i]).name == name,
        None => false,
    }
}

pub open spec fn has_witness_method(w: Option<WitnessV>, name: Seq<char>) -> bool {
    match w {
        Some(w) => exists|i: int| 0 <= i < w.methods.len() && (#[trigger] w.methods[i]).name == name,
        None => false,
    }
}

/// What is wrong with a node that reads a witness the struct does not declare.
pub open spec fn unresolved(w: Option<WitnessV>, e: ExprV) -> Option<ErrorV> {
    match e {
        ExprV::WitnessAccess { span, field } => if has_witness_field(w, field) {
            None
        } else {
            Some(
                ErrorV {
                    span,
                    code: ErrorCode::WitnessTypeMismatch,
                    message: "unknown witness field `"@ + field + "` — `"@ + struct_name(w)
                        + "` declares no such field"@,
                },
            )
        },
        ExprV::WitnessCall { span, name, .. } => if has_witness_method(w, name) {
            None
        } else {
            Some(
                ErrorV {
                    span,
                    code: ErrorCode::WitnessTypeMismatch,
                    message: "`"@ + name + "` is not a parametric witness method on `"@ + struct_name(w)
                        + "`; only methods declared in `impl "@ + struct_name(w)
                        + "` can be called on the witnesses parameter"@,
                },
            )
        },
        _ => None,
    }
}

/// The errors so far and those of the first `n` nodes.
pub open spec fn resolve_nodes(w: Option<WitnessV>, ns: Seq<ExprV>, errors: Seq<ErrorV>, n: nat) -> Seq<ErrorV>
    decreases n,
{
    if n == 0 || n > ns.len() {
        errors
    } else {
        let before = resolve_nodes(w, ns, errors, (n - 1) as nat);
        match unresolved(w, ns[n - 1]) {
            Some(x) => before.push(x),
            None => before,
        }
    }
}

#[verifier::opaque]
pub open spec fn resolve_body(w: Option<WitnessV>, body: Seq<ExprV>, errors: Seq<ErrorV>) -> Seq<ErrorV> {
    let ns = nodes_of(body, body.len());
    resolve_nodes(w, ns, errors, ns.len())
}

pub open spec fn resolve_constructors(
    w: Option<WitnessV>,
    s: Seq<ConstructorV>,
    errors: Seq<ErrorV>,
    n: nat,
) -> Seq<ErrorV>
    decreases n,
{
    if n == 0 || n > s.len() {
        errors
    } else {
        resolve_body(w, s[n - 1].body, resolve_constructors(w, s, errors, (n - 1) as nat))
    }
}

pub open spec fn resolve_circuits(w: Option<WitnessV>, s: Seq<CircuitV>, errors: Seq<ErrorV>, n: nat) -> Seq<ErrorV>
    decreases n,
{
    if n == 0 || n > s.len() {
        errors
    } else {
        resolve_body(w, s[n - 1].body, resolve_circuits(w, s, errors, (n - 1) as nat))
    }
}

pub open spec fn resolve_queries(w: Option<WitnessV>, s: Seq<QueryV>, errors: Seq<ErrorV>, n: nat) -> Seq<ErrorV>
    decreases n,
{
    if n == 0 || n > s.len() {
        errors
    } else {
        resolve_body(w, s[n - 1].body, resolve_queries(w, s, errors, (n - 1) as nat))
    }
}

pub open spec fn resolve_helpers(w: Option<WitnessV>, s: Seq<HelperV>, errors: Seq<ErrorV>, n: nat) -> Seq<ErrorV>
    decreases n,
{
    if n == 0 || n > s.len() {
        errors
    } else {
        resolve_body(w, s[n - 1].body, resolve_helpers(w, s, errors, (n - 1) as nat))
    }
}

/// The errors so far and one for each witness read or call, in any body, that
/// the witnesses struct does not declare.
pub open spec fn resolution_errors(w: Option<WitnessV>, b: BodiesV) -> Seq<ErrorV> {
    let e1 = resolve_constructors(w, b.constructors, b.errors, b.constructors.len());
    let e2 = resolve_circuits(w, b.circuits, e1, b.circuits.len());
    let e3 = resolve_queries(w, b.queries, e2, b.queries.len());
    resolve_helpers(w, b.helpers, e3, b.helpers.len())
}

// ---- the contract

pub open spec fn decl_of(s: FoundV) -> DeclV {
    DeclV { ledger: s.ledger, witnesses: s.witnesses, enums: s.enums }
}

pub open spec fn with_recursion(errors: Seq<ErrorV>, helpers: Seq<HelperV>) -> Seq<ErrorV> {
    match recursion_error(helpers) {
        Some(x) => errors.push(x),
        None => errors,
    }
}

/// The bodies with the errors of witness resolution and of recursive helpers.
pub open spec fn validated(s: FoundV, b: BodiesV) -> BodiesV {
    BodiesV { errors: with_recursion(resolution_errors(s.witnesses, b), b.helpers), ..b }
}

/// The contract that declarations and bodies make up, or every error found.
pub open spec fn assembled(name: Ident, s: FoundV, b: BodiesV) -> Result<ContractV, Seq<ErrorV>> {
    let errors = b.errors;
    match s.ledger {
        None => Err(
            if s.ledger_seen {
                errors
            } else {
                errors.push(
                    ErrorV {
                        span: name.span,
                        code: ErrorCode::MissingLedger,
                        message: "contract must contain exactly one #[nocturne(ledger)] struct"@,
                    },
                )
            },
        ),
        Some(ledger) => {
            let all = if b.constructors.len() == 0 && b.circuits.len() == 0 {
                errors.push(
                    ErrorV {
                        span: name.span,
                        code: ErrorCode::MissingCircuit,
                        message: "contract must contain at least one #[nocturne(circuit)] or #[nocturne(constructor)] function"@,
                    },
                )
            } else {
                errors
            };
            if all.len() > 0 {
                Err(all)
            } else {
                Ok(
                    ContractV {
                        name: name.name@,
                        span: name.span,
                        ledger,
                        witnesses: s.witnesses,
                        constructors: b.constructors,
                        circuits: b.circuits,
                        queries: b.queries,
                        other_items: b.other_items,
                        user_structs: s.structs,
                        user_enums: s.enums,
                        helpers: b.helpers,
                    },
                )
            }
        }
    }
}

/// The contract that a module declares, or every error in it.
pub open spec fn contract_of(m: ItemMod) -> Result<ContractV, Seq<ErrorV>> {
    match m.items {
        None => Err(
            seq![
                ErrorV {
                    span: m.ident.span,
                    code: ErrorCode::EmptyContractModule,
                    message: "contract module must have inline content (`mod foo { ... }`); `mod foo;` out-of-line modules are not supported by #[nocturne::contract]"@,
                },
            ],
        ),
        Some(items) => {
            let s = with_methods(declared(items@, items@.len()), items@);
            assembled(m.ident, s, validated(s, bodies(decl_of(s), items@, s.errors, items@.len())))
        }
    }
}

} // verus!
