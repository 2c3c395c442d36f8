//! Parsing of contract modules into contract IR.
use crate::attrs::{find_midnight_attr, MidnightAttr};
use crate::body::{exprs_res, for_each_of, refs_view, refused, without_references, ContractCtx, Scope};
use crate::containers::last_seg;
use crate::contract::{enums_view, kind_view, opt_deep, structs_view, CircuitIR, ConstructorIR, ContractIR, ContractV};
use crate::contract::{EnumVariantV, HelperIR, LedgerFieldIR, LedgerFieldV, LedgerIR, LedgerTypeKind, ParamIR};
use crate::contract::{QueryIR, UserEnumVariant, UserStructField, WitnessFieldIR, WitnessIR, WitnessMethodIR};
use crate::declaring::{add_fn, add_fns, add_item, any_entry, any_field_unmodelled, any_unmodelled, assembled, bodies};
use crate::declaring::{body_scope, circuit_of, constructor_of, contract_of, decl_of, declare_enum, declare_item};
use crate::declaring::{declare_ledger, declare_struct, declare_witnesses, declared, enum_variants, fn_body};
use crate::declaring::{fn_params, has_witness_field, has_witness_method, helper_of, helper_params, impl_targets};
use crate::declaring::{is_builtin, is_entry, is_witnesses_type, ledger_fields, ledger_struct, methods_of_fns};
use crate::declaring::{mutable_receiver, nothing_found, payload_of, payload_text, query_of, resolution_errors};
use crate::declaring::{resolve_body, resolve_circuits, resolve_constructors, resolve_helpers, resolve_nodes};
use crate::declaring::{resolve_queries, returns_ledger, same_payload, signature_params, starts_mutable};
use crate::declaring::{struct_fields, struct_name, type_kind, unmodelled, unresolved, with_methods, witness_fields};
use crate::declaring::{witness_method, witness_methods, witness_struct, witnesses_name, BodiesV, FoundV, MethodsV};
use crate::declaring::ParamsV;
use crate::error::{Diagnostics, ErrorCode, ErrorV, MidnightError, MidnightResult};
use crate::expr::{assert_view, expr_view, exprs_view, fields_view, AssertKind, ExprIR, ExprV};
use crate::helper_graph::validate_helpers_acyclic;
use crate::parse_body::parse_block_stmts;
use crate::reading::nodes_of;
use crate::syntax::{text_opt, ty_opt, FieldDef, Fields, FnArg, FnItem, Ident, Item, ItemMod, PatKind, Signature, Ty};
use crate::syntax::{TyKind, Variant};
use crate::text::{cat5, cat7, same, strip_spaces, txt};
use vstd::prelude::*;

verus! {

pub open spec fn deep_res<T: DeepView>(r: Result<T, MidnightError>) -> Result<T::V, ErrorV> {
    match r {
        Ok(v) => Ok(v.deep_view()),
        Err(e) => Err(e@),
    }
}

// ---- structs and enums

/// The kind of container a ledger field's type is.
fn extract_type_kind(ty: &Ty) -> (r: LedgerTypeKind)
    ensures
        kind_view(r) == type_kind(ty@),
{
    match &ty.kind {
        TyKind::Path { .. } => match last_seg(ty) {
            Some(s) => LedgerTypeKind::from_type_name(s.ident.as_str()),
            None => LedgerTypeKind::Unknown(txt("empty path")),
        },
        _ => LedgerTypeKind::Unknown(ty.text.clone()),
    }
}

proof fn lemma_ledger_fields_stop(fs: Seq<FieldDef>, a: nat, b: nat)
    requires
        a <= b <= fs.len(),
        ledger_fields(fs, a) is Err,
    ensures
        ledger_fields(fs, b) == ledger_fields(fs, a),
    decreases b,
{
    if a < b {
        lemma_ledger_fields_stop(fs, a, (b - 1) as nat);
    }
}

fn parse_ledger_struct(ident: &Ident, fields: &Fields) -> (r: MidnightResult<LedgerIR>)
    ensures
        deep_res(r) == ledger_struct(*ident, *fields),
{
    let fs = match fields {
        Fields::Named(fs) => fs,
        _ => {
            return Err(
                MidnightError::new(ident.span, ErrorCode::InvalidType, txt("ledger struct must have named fields")),
            );
        }
    };
    let mut out: Vec<LedgerFieldIR> = Vec::new();
    assert(out.deep_view() =~= seq![]);
    let mut i: usize = 0;
    while i < fs.len()
        invariant
            i <= fs@.len(),
            *fields == Fields::Named(*fs),
            ledger_fields(fs@, i as nat) == Ok::<Seq<LedgerFieldV>, ErrorV>(out.deep_view()),
        decreases fs@.len() - i,
    {
        let f = &fs[i];
        let type_kind = extract_type_kind(&f.ty);
        match find_midnight_attr(&f.attrs) {
            Err(x) => {
                proof {
                    lemma_ledger_fields_stop(fs@, (i + 1) as nat, fs@.len());
                }
                return Err(x);
            }
            Ok(found) => {
                let exported = match found {
                    Some((MidnightAttr::Private, _)) => false,
                    _ => true,
                };
                let field = LedgerFieldIR {
                    span: f.ident.span,
                    name: f.ident.name.clone(),
                    ty: f.ty.clone(),
                    type_kind,
                    exported,
                };
                let ghost before = out.deep_view();
                out.push(field);
                assert(out.deep_view() =~= before.push(field.deep_view()));
            }
        }
        i += 1;
    }
    Ok(LedgerIR { span: ident.span, name: ident.name.clone(), fields: out })
}

fn parse_witnesses_struct(ident: &Ident, fields: &Fields) -> (r: MidnightResult<WitnessIR>)
    ensures
        deep_res(r) == witness_struct(*ident, *fields),
{
    let mut out: Vec<WitnessFieldIR> = Vec::new();
    let methods: Vec<WitnessMethodIR> = Vec::new();
    assert(out.deep_view() =~= seq![]);
    assert(methods.deep_view() =~= seq![]);
    match fields {
        Fields::Named(fs) => {
            let mut i: usize = 0;
            while i < fs.len()
                invariant
                    i <= fs@.len(),
                    out.deep_view() =~= witness_fields(fs@).take(i as int),
                decreases fs@.len() - i,
            {
                let f = &fs[i];
                let field = WitnessFieldIR { span: f.ident.span, name: f.ident.name.clone(), ty: f.ty.clone() };
                let ghost before = out.deep_view();
                out.push(field);
                assert(out.deep_view() =~= before.push(field.deep_view()));
                assert(witness_fields(fs@)[i as int] == field.deep_view());
                i += 1;
            }
            assert(out.deep_view() =~= witness_fields(fs@));
        }
        Fields::Unit => {}
        Fields::Unnamed(_) => {
            return Err(
                MidnightError::new(
                    ident.span,
                    ErrorCode::InvalidType,
                    txt("witnesses struct must use named fields or be a unit struct"),
                ),
            );
        }
    }
    Ok(WitnessIR { span: ident.span, name: ident.name.clone(), fields: out, methods })
}

fn collect_struct_fields(fs: &Vec<FieldDef>) -> (r: Vec<UserStructField>)
    ensures
        r.deep_view() == struct_fields(fs@),
{
    let mut out: Vec<UserStructField> = Vec::new();
    assert(out.deep_view() =~= seq![]);
    let mut i: usize = 0;
    while i < fs.len()
        invariant
            i <= fs@.len(),
            out.deep_view() =~= struct_fields(fs@).take(i as int),
        decreases fs@.len() - i,
    {
        let f = &fs[i];
        let field = UserStructField { name: f.ident.name.clone(), ty: f.ty.clone() };
        let ghost before = out.deep_view();
        out.push(field);
        assert(out.deep_view() =~= before.push(field.deep_view()));
        assert(struct_fields(fs@)[i as int] == field.deep_view());
        i += 1;
    }
    assert(out.deep_view() =~= struct_fields(fs@));
    out
}

fn show_payload(p: &Option<Ty>) -> (r: String)
    ensures
        r@ == payload_text(ty_opt(*p)),
{
    match p {
        Some(t) => strip_spaces(t.text.as_str()),
        None => txt("unit"),
    }
}

fn payloads_agree(a: &Option<Ty>, b: &Option<Ty>) -> (r: bool)
    ensures
        r == same_payload(ty_opt(*a), ty_opt(*b)),
{
    match (a, b) {
        (Some(s), Some(t)) => {
            let x = strip_spaces(s.text.as_str());
            let y = strip_spaces(t.text.as_str());
            same(x.as_str(), y.as_str())
        }
        (None, None) => true,
        _ => false,
    }
}

fn variant_payload(v: &Variant) -> (r: Result<Option<Ty>, String>)
    ensures
        match r {
            Ok(p) => payload_of(*v) == Ok::<Option<crate::syntax::TyV>, Seq<char>>(ty_opt(p)),
            Err(why) => payload_of(*v) == Err::<Option<crate::syntax::TyV>, Seq<char>>(why@),
        },
{
    match &v.fields {
        Fields::Unit => Ok(None),
        Fields::Unnamed(ts) => if ts.len() == 1 {
            Ok(Some(ts[0].clone()))
        } else {
            Err(txt("multi-field tuple variants"))
        },
        Fields::Named(_) => Err(txt("named-field variants")),
    }
}

pub open spec fn variants_res(r: Result<Vec<UserEnumVariant>, (&Ident, String)>) -> Result<
    Seq<EnumVariantV>,
    (Ident, Seq<char>),
> {
    match r {
        Ok(v) => Ok(v.deep_view()),
        Err((i, why)) => Err((*i, why@)),
    }
}

proof fn lemma_variants_stop(vs: Seq<Variant>, a: nat, b: nat)
    requires
        a <= b <= vs.len(),
        enum_variants(vs, a) is Err,
    ensures
        enum_variants(vs, b) == enum_variants(vs, a),
    decreases b,
{
    if a < b {
        lemma_variants_stop(vs, a, (b - 1) as nat);
    }
}

fn parse_enum_variants(vs: &Vec<Variant>) -> (r: Result<Vec<UserEnumVariant>, (&Ident, String)>)
    ensures
        variants_res(r) == enum_variants(vs@, vs@.len()),
{
    let mut out: Vec<UserEnumVariant> = Vec::new();
    assert(out.deep_view() =~= seq![]);
    let mut i: usize = 0;
    while i < vs.len()
        invariant
            i <= vs@.len(),
            enum_variants(vs@, i as nat) == Ok::<Seq<EnumVariantV>, (Ident, Seq<char>)>(out.deep_view()),
        decreases vs@.len() - i,
    {
        let v = &vs[i];
        match variant_payload(v) {
            Err(why) => {
                proof {
                    lemma_variants_stop(vs@, (i + 1) as nat, vs@.len());
                }
                return Err((&v.ident, why));
            }
            Ok(payload) => {
                if out.len() > 0 {
                    assert(out.deep_view()[0] == out@[0].deep_view());
                    if !payloads_agree(&out[0].payload, &payload) {
                        let want = show_payload(&out[0].payload);
                        let got = show_payload(&payload);
                        let why = cat5(
                            "heterogeneous payloads (expected `",
                            want.as_str(),
                            "`, found `",
                            got.as_str(),
                            "`)",
                        );
                        proof {
                            lemma_variants_stop(vs@, (i + 1) as nat, vs@.len());
                        }
                        return Err((&v.ident, why));
                    }
                }
                let variant = UserEnumVariant { name: v.ident.name.clone(), payload };
                let ghost before = out.deep_view();
                out.push(variant);
                assert(out.deep_view() =~= before.push(variant.deep_view()));
            }
        }
        i += 1;
    }
    Ok(out)
}

// ---- declarations

/// The declarations found so far.
struct Found {
    ledger_seen: bool,
    ledger: Option<LedgerIR>,
    witnesses_seen: bool,
    witnesses: Option<WitnessIR>,
    structs: Vec<(String, Vec<UserStructField>)>,
    enums: Vec<(String, Vec<UserEnumVariant>)>,
    errors: Diagnostics,
}

impl View for Found {
    type V = FoundV;

    closed spec fn view(&self) -> FoundV {
        FoundV {
            ledger_seen: self.ledger_seen,
            ledger: opt_deep(self.ledger),
            witnesses_seen: self.witnesses_seen,
            witnesses: opt_deep(self.witnesses),
            structs: structs_view(self.structs@),
            enums: enums_view(self.enums@),
            errors: self.errors@,
        }
    }
}

impl Found {
    fn new() -> (r: Found)
        ensures
            r@ == nothing_found(),
    {
        let r = Found {
            ledger_seen: false,
            ledger: None,
            witnesses_seen: false,
            witnesses: None,
            structs: Vec::new(),
            enums: Vec::new(),
            errors: Diagnostics::new(),
        };
        assert(r@ =~= nothing_found());
        r
    }

    fn add_ledger(&mut self, ident: &Ident, fields: &Fields)
        ensures
            final(self)@ == declare_ledger(old(self)@, *ident, *fields),
    {
        if self.ledger_seen {
            self.errors.push(
                MidnightError::new(
                    ident.span,
                    ErrorCode::DuplicateLedger,
                    txt("only one #[nocturne(ledger)] struct is allowed per contract"),
                ),
            );
        } else {
            self.ledger_seen = true;
            match parse_ledger_struct(ident, fields) {
                Ok(l) => {
                    self.ledger = Some(l);
                }
                Err(e) => self.errors.push(e),
            }
        }
    }

    fn add_witnesses(&mut self, ident: &Ident, fields: &Fields)
        ensures
            final(self)@ == declare_witnesses(old(self)@, *ident, *fields),
    {
        if self.witnesses_seen {
            self.errors.push(
                MidnightError::new(
                    ident.span,
                    ErrorCode::DuplicateWitnesses,
                    txt("only one #[nocturne(witnesses)] struct is allowed per contract"),
                ),
            );
        } else {
            self.witnesses_seen = true;
            match parse_witnesses_struct(ident, fields) {
                Ok(w) => {
                    self.witnesses = Some(w);
                }
                Err(e) => self.errors.push(e),
            }
        }
    }

    fn add_struct(&mut self, ident: &Ident, fields: &Fields)
        ensures
            final(self)@ == declare_struct(old(self)@, *ident, *fields),
    {
        match fields {
            Fields::Named(fs) => {
                let ghost before = self.structs@;
                let entry = (ident.name.clone(), collect_struct_fields(fs));
                self.structs.push(entry);
                assert(structs_view(self.structs@) =~= structs_view(before).push((ident.name@, struct_fields(fs@))));
            }
            _ => {}
        }
    }

    fn add_enum(&mut self, ident: &Ident, variants: &Vec<Variant>)
        ensures
            final(self)@ == declare_enum(old(self)@, *ident, variants@),
    {
        match parse_enum_variants(variants) {
            Ok(vs) => {
                if vs.len() > 0 {
                    let ghost before = self.enums@;
                    let ghost v = vs.deep_view();
                    self.enums.push((ident.name.clone(), vs));
                    assert(enums_view(self.enums@) =~= enums_view(before).push((ident.name@, v)));
                }
            }
            Err((bad, why)) => self.errors.push(
                refused(
                    bad.span,
                    cat7(
                        "enum `",
                        ident.name.as_str(),
                        "` variant `",
                        bad.name.as_str(),
                        "` rejected: ",
                        why.as_str(),
                        ". Only homogeneous single-payload or all-unit enums are supported. See memories/scope-blockers.md.",
                    ),
                ),
            ),
        }
    }

    fn add_item(&mut self, item: &Item)
        ensures
            final(self)@ == declare_item(old(self)@, *item),
    {
        match item {
            Item::Struct { attrs, ident, fields } => match find_midnight_attr(attrs) {
                Err(e) => self.errors.push(e),
                Ok(Some((MidnightAttr::Ledger, _))) => self.add_ledger(ident, fields),
                Ok(Some((MidnightAttr::Witnesses, _))) => self.add_witnesses(ident, fields),
                Ok(_) => self.add_struct(ident, fields),
            },
            Item::Enum { ident, variants } => self.add_enum(ident, variants),
            _ => {}
        }
    }
}

fn collect_declarations(items: &Vec<Item>) -> (r: Found)
    ensures
        r@ == declared(items@, items@.len()),
{
    let mut found = Found::new();
    let mut i: usize = 0;
    while i < items.len()
        invariant
            i <= items@.len(),
            found@ == declared(items@, i as nat),
        decreases items@.len() - i,
    {
        found.add_item(&items[i]);
        i += 1;
    }
    found
}

// ---- signatures

fn has_witnesses_type(ty: &Ty, witnesses: &str) -> (r: bool)
    ensures
        r == is_witnesses_type(ty@, witnesses@),
{
    match last_seg(without_references(ty)) {
        Some(s) => same(s.ident.as_str(), witnesses),
        None => false,
    }
}

struct Params {
    witnesses_param: Option<String>,
    params: Vec<ParamIR>,
}

impl DeepView for Params {
    type V = ParamsV;

    closed spec fn deep_view(&self) -> ParamsV {
        ParamsV { witnesses_param: text_opt(self.witnesses_param), params: self.params.deep_view() }
    }
}

proof fn lemma_params_stop(inputs: Seq<FnArg>, w: Option<Seq<char>>, a: nat, b: nat)
    requires
        a <= b <= inputs.len(),
        fn_params(inputs, w, a) is Err,
    ensures
        fn_params(inputs, w, b) == fn_params(inputs, w, a),
    decreases b,
{
    if a < b {
        lemma_params_stop(inputs, w, a, (b - 1) as nat);
    }
}

pub open spec fn name_opt(o: Option<&String>) -> Option<Seq<char>> {
    match o {
        Some(s) => Some(s@),
        None => None,
    }
}

/// Parses function parameters, skipping `self`. A parameter of the witnesses
/// struct's type stands apart from the public ones.
fn parse_fn_params(sig: &Signature, witnesses: Option<&String>) -> (r: MidnightResult<Params>)
    ensures
        deep_res(r) == signature_params(*sig, name_opt(witnesses)),
{
    let ghost w = name_opt(witnesses);
    let inputs = &sig.inputs;
    let mut out = Params { witnesses_param: None, params: Vec::new() };
    assert(out.params.deep_view() =~= seq![]);
    let mut i: usize = 0;
    while i < inputs.len()
        invariant
            i <= inputs@.len(),
            *inputs == sig.inputs,
            w == name_opt(witnesses),
            fn_params(inputs@, w, i as nat) == Ok::<ParamsV, ErrorV>(out.deep_view()),
        decreases inputs@.len() - i,
    {
        match &inputs[i] {
            FnArg::Receiver { .. } => {}
            FnArg::Typed { pat, ty } => match &pat.kind {
                PatKind::Ident { ident, .. } => {
                    let apart = match witnesses {
                        Some(n) => has_witnesses_type(ty, n.as_str()),
                        None => false,
                    };
                    if apart {
                        out.witnesses_param = Some(ident.name.clone());
                    } else {
                        let ghost before = out.params.deep_view();
                        let p = ParamIR { span: ident.span, name: ident.name.clone(), ty: ty.clone() };
                        out.params.push(p);
                        assert(out.params.deep_view() =~= before.push(p.deep_view()));
                    }
                }
                _ => {
                    proof {
                        lemma_params_stop(inputs@, w, (i + 1) as nat, inputs@.len());
                    }
                    return Err(
                        refused(
                            pat.span,
                            txt(
                                "parameter patterns must be plain identifiers; destructuring patterns are not supported in nocturne functions",
                            ),
                        ),
                    );
                }
            },
        }
        i += 1;
    }
    Ok(out)
}

fn parse_body(cx: &ContractCtx, f: &FnItem, p: &Params) -> (r: MidnightResult<Vec<ExprIR>>)
    ensures
        exprs_res(r) == fn_body(cx@, *f, p.deep_view()),
{
    let witnesses_param = match &p.witnesses_param {
        Some(s) => Some(s.as_str()),
        None => None,
    };
    let sc = Scope { witnesses_param, params: &p.params, shadowed: Vec::new(), unrolled: Vec::new() };
    proof {
        assert(sc@.shadowed =~= Set::<Seq<char>>::empty());
        assert(sc@.unrolled =~= seq![]);
        assert(sc@ == body_scope(p.deep_view()));
    }
    let mut n: u32 = 0;
    parse_block_stmts(cx, &sc, &f.block.stmts, &mut n)
}

// ---- witness methods

fn impl_targets_ident(has_trait: bool, self_ty: &Ty, name: &str) -> (r: bool)
    ensures
        r == impl_targets(has_trait, self_ty@, name@),
{
    if has_trait {
        return false;
    }
    match last_seg(self_ty) {
        Some(s) => same(s.ident.as_str(), name),
        None => false,
    }
}

fn parse_witness_method(f: &FnItem) -> (r: MidnightResult<WitnessMethodIR>)
    ensures
        deep_res(r) == witness_method(*f),
{
    match parse_fn_params(&f.sig, None) {
        Err(x) => Err(x),
        Ok(p) => match &f.sig.output {
            None => Err(
                MidnightError::new(
                    f.sig.ident.span,
                    ErrorCode::InvalidType,
                    txt("parametric witness method must declare a return type"),
                ),
            ),
            Some(ty) => Ok(
                WitnessMethodIR {
                    span: f.sig.ident.span,
                    name: f.sig.ident.name.clone(),
                    params: p.params,
                    return_type: ty.clone(),
                },
            ),
        },
    }
}

fn collect_methods(fns: &Vec<FnItem>, methods: &mut Vec<WitnessMethodIR>, errors: &mut Diagnostics)
    ensures
        (MethodsV { methods: final(methods).deep_view(), errors: final(errors)@ }) == methods_of_fns(
            MethodsV { methods: old(methods).deep_view(), errors: old(errors)@ },
            fns@,
            fns@.len(),
        ),
{
    let ghost start = MethodsV { methods: methods.deep_view(), errors: errors@ };
    let mut i: usize = 0;
    while i < fns.len()
        invariant
            i <= fns@.len(),
            start == (MethodsV { methods: old(methods).deep_view(), errors: old(errors)@ }),
            (MethodsV { methods: methods.deep_view(), errors: errors@ }) == methods_of_fns(start, fns@, i as nat),
        decreases fns@.len() - i,
    {
        match parse_witness_method(&fns[i]) {
            Ok(m) => {
                let ghost before = methods.deep_view();
                methods.push(m);
                assert(methods.deep_view() =~= before.push(m.deep_view()));
            }
            Err(e) => errors.push(e),
        }
        i += 1;
    }
}

fn register_methods(found: &mut Found, items: &Vec<Item>)
    ensures
        final(found)@ == with_methods(old(found)@, items@),
{
    let ghost before = found@;
    let name: String = match &found.witnesses {
        Some(w) => w.name.clone(),
        None => {
            return;
        }
    };
    let mut methods: Vec<WitnessMethodIR> = Vec::new();
    assert(methods.deep_view() =~= seq![]);
    let mut i: usize = 0;
    while i < items.len()
        invariant
            i <= items@.len(),
            found@ == (FoundV { errors: found.errors@, ..before }),
            before == old(found)@,
            (MethodsV { methods: methods.deep_view(), errors: found.errors@ }) == witness_methods(
                items@,
                name@,
                before.errors,
                i as nat,
            ),
        decreases items@.len() - i,
    {
        match &items[i] {
            Item::Impl { has_trait, self_ty, fns } => {
                if impl_targets_ident(*has_trait, self_ty, name.as_str()) {
                    collect_methods(fns, &mut methods, &mut found.errors);
                }
            }
            _ => {}
        }
        i += 1;
    }
    let mut taken: Option<WitnessIR> = None;
    std::mem::swap(&mut taken, &mut found.witnesses);
    match taken {
        Some(w) => {
            found.witnesses = Some(WitnessIR { span: w.span, name: w.name, fields: w.fields, methods });
        }
        None => {}
    }
}

// ---- functions

fn witnesses_struct_name<'a>(cx: &ContractCtx<'a>) -> (r: Option<&'a String>)
    ensures
        name_opt(r) == witnesses_name(cx@),
{
    match cx.witnesses {
        Some(w) => Some(&w.name),
        None => None,
    }
}

fn is_ledger_output(output: &Option<Ty>, ledger: &str) -> (r: bool)
    ensures
        r == returns_ledger(ty_opt(*output), ledger@),
{
    match output {
        Some(t) => match last_seg(t) {
            Some(s) => same(s.ident.as_str(), "Self") || same(s.ident.as_str(), ledger),
            None => false,
        },
        None => false,
    }
}

fn copy_output(o: &Option<Ty>) -> (r: Option<Ty>)
    ensures
        ty_opt(r) == ty_opt(*o),
{
    match o {
        Some(t) => Some(t.clone()),
        None => None,
    }
}

fn parse_constructor(cx: &ContractCtx, f: &FnItem) -> (r: MidnightResult<ConstructorIR>)
    ensures
        deep_res(r) == constructor_of(cx@, *f),
{
    proof {
        reveal(constructor_of);
    }
    let name = &f.sig.ident;
    match cx.ledger {
        Some(l) => {
            if !is_ledger_output(&f.sig.output, l.name.as_str()) {
                return Err(
                    MidnightError::new(
                        name.span,
                        ErrorCode::InvalidConstructorReturn,
                        cat5(
                            "constructor `",
                            name.name.as_str(),
                            "` must return `Self` or `",
                            l.name.as_str(),
                            "` (the ledger struct)",
                        ),
                    ),
                );
            }
        }
        None => {}
    }
    match parse_fn_params(&f.sig, witnesses_struct_name(cx)) {
        Err(x) => Err(x),
        Ok(p) => match parse_body(cx, f, &p) {
            Err(x) => Err(x),
            Ok(body) => Ok(ConstructorIR { span: name.span, name: name.name.clone(), params: p.params, body }),
        },
    }
}

proof fn lemma_receiver(inputs: Seq<FnArg>, a: nat, b: nat)
    requires
        a <= b <= inputs.len(),
        forall|j: int| a <= j < b ==> !((#[trigger] inputs[j]) is Receiver),
    ensures
        mutable_receiver(inputs, b) == mutable_receiver(inputs, a),
    decreases b,
{
    if a < b {
        lemma_receiver(inputs, a, (b - 1) as nat);
    }
}

fn has_mutable_receiver(inputs: &Vec<FnArg>) -> (r: bool)
    ensures
        r == mutable_receiver(inputs@, inputs@.len()),
{
    let mut i: usize = inputs.len();
    while i > 0
        invariant
            i <= inputs@.len(),
            forall|j: int| i <= j < inputs@.len() ==> !((#[trigger] inputs@[j]) is Receiver),
        decreases i,
    {
        i -= 1;
        match &inputs[i] {
            FnArg::Receiver { mutable } => {
                proof {
                    lemma_receiver(inputs@, (i + 1) as nat, inputs@.len());
                }
                return *mutable;
            }
            _ => {}
        }
    }
    proof {
        lemma_receiver(inputs@, 0, inputs@.len());
    }
    false
}

fn parse_circuit(cx: &ContractCtx, f: &FnItem) -> (r: MidnightResult<CircuitIR>)
    ensures
        deep_res(r) == circuit_of(cx@, *f),
{
    proof {
        reveal(circuit_of);
    }
    let name = &f.sig.ident;
    match parse_fn_params(&f.sig, witnesses_struct_name(cx)) {
        Err(x) => Err(x),
        Ok(p) => match parse_body(cx, f, &p) {
            Err(x) => Err(x),
            Ok(body) => Ok(
                CircuitIR {
                    span: name.span,
                    name: name.name.clone(),
                    params: p.params,
                    takes_witnesses: p.witnesses_param.is_some(),
                    witnesses_param_name: p.witnesses_param,
                    mutates_ledger: has_mutable_receiver(&f.sig.inputs),
                    body,
                    return_type: copy_output(&f.sig.output),
                },
            ),
        },
    }
}

fn first_is_mutable(inputs: &Vec<FnArg>) -> (r: bool)
    ensures
        r == starts_mutable(inputs@),
{
    if inputs.len() == 0 {
        return false;
    }
    match &inputs[0] {
        FnArg::Receiver { mutable } => *mutable,
        _ => false,
    }
}

fn parse_query(cx: &ContractCtx, f: &FnItem) -> (r: MidnightResult<QueryIR>)
    ensures
        deep_res(r) == query_of(cx@, *f),
{
    proof {
        reveal(query_of);
    }
    let name = &f.sig.ident;
    if first_is_mutable(&f.sig.inputs) {
        return Err(
            MidnightError::new(
                name.span,
                ErrorCode::QueryMustBeImmutable,
                txt("query functions must take &self, not &mut self"),
            ),
        );
    }
    match parse_fn_params(&f.sig, witnesses_struct_name(cx)) {
        Err(x) => Err(x),
        Ok(p) => match parse_body(cx, f, &p) {
            Err(x) => Err(x),
            Ok(body) => Ok(
                QueryIR {
                    span: name.span,
                    name: name.name.clone(),
                    params: p.params,
                    return_type: copy_output(&f.sig.output),
                    body,
                },
            ),
        },
    }
}

// ---- helpers

/// Whether an expression holds a node that has no meaning in a circuit.
fn contains_unsupported(e: &ExprIR) -> (r: bool)
    ensures
        r == unmodelled(e@),
    decreases e, 0nat,
{
    match e {
        ExprIR::Unsupported { .. } => true,
        ExprIR::BinaryOp { lhs, rhs, .. } => contains_unsupported(lhs) || contains_unsupported(rhs),
        ExprIR::UnaryOp { expr, .. } => contains_unsupported(expr),
        ExprIR::Reference { expr, .. } => contains_unsupported(expr),
        ExprIR::FnCall { args, .. } => any_unsupported(args),
        ExprIR::MethodCall { receiver, args, .. } => contains_unsupported(receiver) || any_unsupported(args),
        ExprIR::Let { value, .. } => contains_unsupported(value),
        ExprIR::If { cond, then_branch, else_branch, .. } => contains_unsupported(cond) || any_unsupported(then_branch)
            || match else_branch {
            Some(b) => any_unsupported(b),
            None => false,
        },
        ExprIR::Assert { kind, .. } => match kind {
            AssertKind::Assert(a) => {
                assert(assert_view(*kind) is Assert);
                contains_unsupported(a)
            }
            AssertKind::AssertEq(a, b) => {
                assert(assert_view(*kind) is AssertEq);
                contains_unsupported(a) || contains_unsupported(b)
            }
        },
        ExprIR::Disclose { value, .. } => contains_unsupported(value),
        ExprIR::EnumPayload { scrutinee, .. } => contains_unsupported(scrutinee),
        ExprIR::Block { stmts, .. } => any_unsupported(stmts),
        ExprIR::StructInit { fields, .. } => any_field_unsupported(fields),
        ExprIR::Return { value, .. } => match value {
            Some(v) => contains_unsupported(v),
            None => false,
        },
        ExprIR::Tuple { elements, .. } => any_unsupported(elements),
        ExprIR::ArrayLit { elements, .. } => any_unsupported(elements),
        ExprIR::Index { array, .. } => contains_unsupported(array),
        ExprIR::LedgerAccess { args, .. } => any_unsupported(args),
        ExprIR::WitnessCall { args, .. } => any_unsupported(args),
        ExprIR::Literal { .. } => false,
        ExprIR::Var { .. } => false,
        ExprIR::Path { .. } => false,
        ExprIR::WitnessAccess { .. } => false,
    }
}

proof fn lemma_unmodelled_stays(es: Seq<ExprV>, a: nat, b: nat)
    requires
        a <= b <= es.len(),
        any_unmodelled(es, a),
    ensures
        any_unmodelled(es, b),
    decreases b,
{
    if a < b {
        lemma_unmodelled_stays(es, a, (b - 1) as nat);
    }
}

fn any_unsupported(es: &Vec<ExprIR>) -> (r: bool)
    ensures
        r == any_unmodelled(exprs_view(es@), es@.len()),
        exprs_view(es@).len() == es@.len(),
    decreases es, 0nat,
{
    let ghost v = exprs_view(es@);
    let mut i: usize = 0;
    while i < es.len()
        invariant
            i <= es@.len(),
            v == exprs_view(es@),
            v.len() == es@.len(),
            !any_unmodelled(v, i as nat),
        decreases es@.len() - i,
    {
        assert(v[i as int] == expr_view(es@[i as int]));
        if contains_unsupported(&es[i]) {
            proof {
                lemma_unmodelled_stays(v, (i + 1) as nat, v.len());
            }
            return true;
        }
        i += 1;
    }
    false
}

proof fn lemma_field_unmodelled_stays(fs: Seq<(Seq<char>, ExprV)>, a: nat, b: nat)
    requires
        a <= b <= fs.len(),
        any_field_unmodelled(fs, a),
    ensures
        any_field_unmodelled(fs, b),
    decreases b,
{
    if a < b {
        lemma_field_unmodelled_stays(fs, a, (b - 1) as nat);
    }
}

fn any_field_unsupported(fs: &Vec<(String, ExprIR)>) -> (r: bool)
    ensures
        r == any_field_unmodelled(fields_view(fs@), fs@.len()),
        fields_view(fs@).len() == fs@.len(),
    decreases fs, 0nat,
{
    let ghost v = fields_view(fs@);
    let mut i: usize = 0;
    while i < fs.len()
        invariant
            i <= fs@.len(),
            v == fields_view(fs@),
            v.len() == fs@.len(),
            !any_field_unmodelled(v, i as nat),
        decreases fs@.len() - i,
    {
        assert(v[i as int] == (fs@[i as int].0@, expr_view(fs@[i as int].1)));
        let pair = &fs[i];
        if contains_unsupported(&pair.1) {
            proof {
                lemma_field_unmodelled_stays(v, (i + 1) as nat, v.len());
            }
            return true;
        }
        i += 1;
    }
    false
}

proof fn lemma_helper_params_stop(inputs: Seq<FnArg>, a: nat, b: nat)
    requires
        a <= b <= inputs.len(),
        helper_params(inputs, a) is None,
    ensures
        helper_params(inputs, b) is None,
    decreases b,
{
    if a < b {
        lemma_helper_params_stop(inputs, a, (b - 1) as nat);
    }
}

fn is_reference(t: &Ty) -> (r: bool)
    ensures
        r == (t@.kind is Reference),
{
    match &t.kind {
        TyKind::Reference(_) => true,
        _ => false,
    }
}

fn parse_helper_params(inputs: &Vec<FnArg>) -> (r: Option<Vec<ParamIR>>)
    ensures
        match r {
            Some(p) => helper_params(inputs@, inputs@.len()) == Some(p.deep_view()),
            None => helper_params(inputs@, inputs@.len()) is None,
        },
{
    let mut out: Vec<ParamIR> = Vec::new();
    assert(out.deep_view() =~= seq![]);
    let mut i: usize = 0;
    while i < inputs.len()
        invariant
            i <= inputs@.len(),
            helper_params(inputs@, i as nat) == Some(out.deep_view()),
        decreases inputs@.len() - i,
    {
        let mut fine = false;
        match &inputs[i] {
            FnArg::Receiver { .. } => {}
            FnArg::Typed { pat, ty } => if !is_reference(ty) {
                match &pat.kind {
                    PatKind::Ident { ident, .. } => {
                        let ghost before = out.deep_view();
                        let p = ParamIR { span: ident.span, name: ident.name.clone(), ty: ty.clone() };
                        out.push(p);
                        assert(out.deep_view() =~= before.push(p.deep_view()));
                        fine = true;
                    }
                    _ => {}
                }
            },
        }
        if !fine {
            proof {
                lemma_helper_params_stop(inputs@, (i + 1) as nat, inputs@.len());
            }
            return None;
        }
        i += 1;
    }
    Some(out)
}

fn names_builtin(n: &str) -> (r: bool)
    ensures
        r == is_builtin(n@),
{
    same(n, "persistent_hash") || same(n, "transient_hash") || same(n, "merkle_tree_path_root") || same(n, "disclose")
}

/// A free function as a helper, when circuits can splice it in.
fn try_parse_helper(cx: &ContractCtx, f: &FnItem) -> (r: Option<HelperIR>)
    ensures
        match r {
            Some(h) => helper_of(cx@, *f) == Some(h.deep_view()),
            None => helper_of(cx@, *f) is None,
        },
{
    proof {
        reveal(helper_of);
    }
    let sig = &f.sig;
    let name = &sig.ident;
    if sig.is_async || sig.is_const || sig.is_unsafe || sig.has_generics || sig.has_where || names_builtin(
        name.name.as_str(),
    ) {
        return None;
    }
    let params = match parse_helper_params(&sig.inputs) {
        Some(p) => p,
        None => {
            return None;
        }
    };
    let return_type = match &sig.output {
        Some(t) => {
            if is_reference(t) {
                return None;
            }
            t.clone()
        }
        None => {
            return None;
        }
    };
    let p = Params { witnesses_param: None, params };
    match parse_body(cx, f, &p) {
        Err(_) => None,
        Ok(body) => {
            if any_unsupported(&body) {
                return None;
            }
            Some(HelperIR { span: name.span, name: name.name.clone(), params: p.params, return_type, body })
        }
    }
}

// ---- bodies

struct Bodies {
    constructors: Vec<ConstructorIR>,
    circuits: Vec<CircuitIR>,
    queries: Vec<QueryIR>,
    helpers: Vec<HelperIR>,
    other_items: Vec<usize>,
    errors: Diagnostics,
}

impl View for Bodies {
    type V = BodiesV;

    closed spec fn view(&self) -> BodiesV {
        BodiesV {
            constructors: self.constructors.deep_view(),
            circuits: self.circuits.deep_view(),
            queries: self.queries.deep_view(),
            helpers: self.helpers.deep_view(),
            other_items: self.other_items@,
            errors: self.errors@,
        }
    }
}

impl Bodies {
    fn add_fn(&mut self, cx: &ContractCtx, f: &FnItem) -> (entry: bool)
        ensures
            final(self)@ == add_fn(cx@, old(self)@, *f),
            entry == is_entry(*f),
    {
        match find_midnight_attr(&f.attrs) {
            Err(e) => {
                self.errors.push(e);
                false
            }
            Ok(Some((MidnightAttr::Constructor, _))) => {
                match parse_constructor(cx, f) {
                    Ok(c) => {
                        let ghost before = self.constructors.deep_view();
                        self.constructors.push(c);
                        assert(self.constructors.deep_view() =~= before.push(c.deep_view()));
                    }
                    Err(e) => self.errors.push(e),
                }
                true
            }
            Ok(Some((MidnightAttr::Circuit, _))) => {
                match parse_circuit(cx, f) {
                    Ok(c) => {
                        let ghost before = self.circuits.deep_view();
                        self.circuits.push(c);
                        assert(self.circuits.deep_view() =~= before.push(c.deep_view()));
                    }
                    Err(e) => self.errors.push(e),
                }
                true
            }
            Ok(Some((MidnightAttr::Query, _))) => {
                match parse_query(cx, f) {
                    Ok(q) => {
                        let ghost before = self.queries.deep_view();
                        self.queries.push(q);
                        assert(self.queries.deep_view() =~= before.push(q.deep_view()));
                    }
                    Err(e) => self.errors.push(e),
                }
                true
            }
            Ok(_) => false,
        }
    }

    /// Adds the marked functions of an impl block; whether there are any.
    fn add_impl(&mut self, cx: &ContractCtx, fns: &Vec<FnItem>) -> (r: bool)
        ensures
            final(self)@ == add_fns(cx@, old(self)@, fns@, fns@.len()),
            r == any_entry(fns@),
    {
        let ghost start = self@;
        let mut found = false;
        let mut i: usize = 0;
        while i < fns.len()
            invariant
                i <= fns@.len(),
                start == old(self)@,
                self@ == add_fns(cx@, start, fns@, i as nat),
                found == exists|j: int| 0 <= j < i && is_entry(#[trigger] fns@[j]),
            decreases fns@.len() - i,
        {
            let ghost was = found;
            if self.add_fn(cx, &fns[i]) {
                assert(is_entry(fns@[i as int]));
                found = true;
            }
            proof {
                if was {
                    let j = choose|j: int| 0 <= j < i && is_entry(#[trigger] fns@[j]);
                    assert(0 <= j < i + 1 && is_entry(fns@[j]));
                }
            }
            i += 1;
        }
        found
    }

    fn add_item(&mut self, cx: &ContractCtx, item: &Item, i: usize)
        ensures
            final(self)@ == add_item(cx@, old(self)@, *item, i),
    {
        match item {
            Item::Impl { has_trait, self_ty, fns } => {
                let declares = match cx.witnesses {
                    Some(w) => impl_targets_ident(*has_trait, self_ty, w.name.as_str()),
                    None => false,
                };
                if declares {
                    self.other_items.push(i);
                } else if !self.add_impl(cx, fns) {
                    self.other_items.push(i);
                }
            }
            Item::Fn(f) => {
                match try_parse_helper(cx, f) {
                    Some(h) => {
                        let ghost before = self.helpers.deep_view();
                        self.helpers.push(h);
                        assert(self.helpers.deep_view() =~= before.push(h.deep_view()));
                    }
                    None => {}
                }
                self.other_items.push(i);
            }
            Item::Struct { attrs, .. } => {
                let consumed = match find_midnight_attr(attrs) {
                    Ok(Some((MidnightAttr::Ledger, _))) => true,
                    Ok(Some((MidnightAttr::Witnesses, _))) => true,
                    _ => false,
                };
                if !consumed {
                    self.other_items.push(i);
                }
            }
            _ => self.other_items.push(i),
        }
    }
}

fn collect_bodies(cx: &ContractCtx, items: &Vec<Item>, errors: Diagnostics) -> (r: Bodies)
    ensures
        r@ == bodies(cx@, items@, errors@, items@.len()),
{
    let ghost start = errors@;
    let mut out = Bodies {
        constructors: Vec::new(),
        circuits: Vec::new(),
        queries: Vec::new(),
        helpers: Vec::new(),
        other_items: Vec::new(),
        errors,
    };
    assert(out@ =~= bodies(cx@, items@, start, 0));
    let mut i: usize = 0;
    while i < items.len()
        invariant
            i <= items@.len(),
            out@ == bodies(cx@, items@, start, i as nat),
        decreases items@.len() - i,
    {
        out.add_item(cx, &items[i], i);
        i += 1;
    }
    out
}

// ---- witness resolution

fn show_struct_name(w: &Option<WitnessIR>) -> (r: String)
    ensures
        r@ == struct_name(opt_deep(*w)),
{
    match w {
        Some(w) => w.name.clone(),
        None => txt("<witnesses>"),
    }
}

fn declares_field(w: &Option<WitnessIR>, name: &str) -> (r: bool)
    ensures
        r == has_witness_field(opt_deep(*w), name@),
{
    match w {
        Some(w) => struct_has_field(w, name),
        None => false,
    }
}

fn struct_has_field(w: &WitnessIR, name: &str) -> (r: bool)
    ensures
        r == has_witness_field(Some(w.deep_view()), name@),
{
    let ghost v = w.deep_view();
    let mut i: usize = 0;
    while i < w.fields.len()
        invariant
            i <= w.fields@.len(),
            v == w.deep_view(),
            v.fields.len() == w.fields@.len(),
            forall|j: int| 0 <= j < i ==> (#[trigger] v.fields[j]).name != name@,
        decreases w.fields@.len() - i,
    {
        assert(v.fields[i as int] == w.fields@[i as int].deep_view());
        if same(w.fields[i].name.as_str(), name) {
            return true;
        }
        i += 1;
    }
    false
}

fn declares_method(w: &Option<WitnessIR>, name: &str) -> (r: bool)
    ensures
        r == has_witness_method(opt_deep(*w), name@),
{
    match w {
        Some(w) => struct_has_method(w, name),
        None => false,
    }
}

fn struct_has_method(w: &WitnessIR, name: &str) -> (r: bool)
    ensures
        r == has_witness_method(Some(w.deep_view()), name@),
{
    let ghost v = w.deep_view();
    let mut i: usize = 0;
    while i < w.methods.len()
        invariant
            i <= w.methods@.len(),
            v == w.deep_view(),
            v.methods.len() == w.methods@.len(),
            forall|j: int| 0 <= j < i ==> (#[trigger] v.methods[j]).name != name@,
        decreases w.methods@.len() - i,
    {
        assert(v.methods[i as int] == w.methods@[i as int].deep_view());
        if same(w.methods[i].name.as_str(), name) {
            return true;
        }
        i += 1;
    }
    false
}

fn find_unresolved(w: &Option<WitnessIR>, e: &ExprIR) -> (r: Option<MidnightError>)
    ensures
        match r {
            Some(x) => unresolved(opt_deep(*w), e@) == Some(x@),
            None => unresolved(opt_deep(*w), e@) is None,
        },
{
    match e {
        ExprIR::WitnessAccess { span, field } => if declares_field(w, field.as_str()) {
            None
        } else {
            let name = show_struct_name(w);
            Some(
                MidnightError::new(
                    *span,
                    ErrorCode::WitnessTypeMismatch,
                    cat5(
                        "unknown witness field `",
                        field.as_str(),
                        "` — `",
                        name.as_str(),
                        "` declares no such field",
                    ),
                ),
            )
        },
        ExprIR::WitnessCall { span, name, .. } => if declares_method(w, name.as_str()) {
            None
        } else {
            let wname = show_struct_name(w);
            Some(
                MidnightError::new(
                    *span,
                    ErrorCode::WitnessTypeMismatch,
                    cat7(
                        "`",
                        name.as_str(),
                        "` is not a parametric witness method on `",
                        wname.as_str(),
                        "`; only methods declared in `impl ",
                        wname.as_str(),
                        "` can be called on the witnesses parameter",
                    ),
                ),
            )
        },
        _ => None,
    }
}

fn check_body(w: &Option<WitnessIR>, body: &Vec<ExprIR>, errors: &mut Diagnostics)
    ensures
        final(errors)@ == resolve_body(opt_deep(*w), exprs_view(body@), old(errors)@),
{
    proof {
        reveal(resolve_body);
    }
    let ghost wv = opt_deep(*w);
    let ghost start = errors@;
    let ghost ns = nodes_of(exprs_view(body@), body@.len());
    let mut all: Vec<&ExprIR> = Vec::new();
    for_each_of(body, &mut all);
    assert(refs_view(all@) =~= ns);
    let mut i: usize = 0;
    while i < all.len()
        invariant
            i <= all@.len(),
            start == old(errors)@,
            wv == opt_deep(*w),
            refs_view(all@) == ns,
            errors@ == resolve_nodes(wv, ns, start, i as nat),
        decreases all@.len() - i,
    {
        assert(ns[i as int] == expr_view(*all@[i as int]));
        match find_unresolved(w, all[i]) {
            Some(e) => errors.push(e),
            None => {}
        }
        i += 1;
    }
    assert(exprs_view(body@).len() == body@.len());
}

fn check_constructors(w: &Option<WitnessIR>, s: &Vec<ConstructorIR>, errors: &mut Diagnostics)
    ensures
        final(errors)@ == resolve_constructors(opt_deep(*w), s.deep_view(), old(errors)@, s@.len()),
        s.deep_view().len() == s@.len(),
{
    let ghost wv = opt_deep(*w);
    let ghost start = errors@;
    let ghost v = s.deep_view();
    let mut i: usize = 0;
    while i < s.len()
        invariant
            i <= s@.len(),
            wv == opt_deep(*w),
            v == s.deep_view(),
            v.len() == s@.len(),
            start == old(errors)@,
            errors@ == resolve_constructors(wv, v, start, i as nat),
        decreases s@.len() - i,
    {
        assert(v[i as int] == s@[i as int].deep_view());
        check_body(w, &s[i].body, errors);
        i += 1;
    }
}

fn check_circuits(w: &Option<WitnessIR>, s: &Vec<CircuitIR>, errors: &mut Diagnostics)
    ensures
        final(errors)@ == resolve_circuits(opt_deep(*w), s.deep_view(), old(errors)@, s@.len()),
        s.deep_view().len() == s@.len(),
{
    let ghost wv = opt_deep(*w);
    let ghost start = errors@;
    let ghost v = s.deep_view();
    let mut i: usize = 0;
    while i < s.len()
        invariant
            i <= s@.len(),
            wv == opt_deep(*w),
            v == s.deep_view(),
            v.len() == s@.len(),
            start == old(errors)@,
            errors@ == resolve_circuits(wv, v, start, i as nat),
        decreases s@.len() - i,
    {
        assert(v[i as int] == s@[i as int].deep_view());
        check_body(w, &s[i].body, errors);
        i += 1;
    }
}

fn check_queries(w: &Option<WitnessIR>, s: &Vec<QueryIR>, errors: &mut Diagnostics)
    ensures
        final(errors)@ == resolve_queries(opt_deep(*w), s.deep_view(), old(errors)@, s@.len()),
        s.deep_view().len() == s@.len(),
{
    let ghost wv = opt_deep(*w);
    let ghost start = errors@;
    let ghost v = s.deep_view();
    let mut i: usize = 0;
    while i < s.len()
        invariant
            i <= s@.len(),
            wv == opt_deep(*w),
            v == s.deep_view(),
            v.len() == s@.len(),
            start == old(errors)@,
            errors@ == resolve_queries(wv, v, start, i as nat),
        decreases s@.len() - i,
    {
        assert(v[i as int] == s@[i as int].deep_view());
        check_body(w, &s[i].body, errors);
        i += 1;
    }
}

fn check_helpers(w: &Option<WitnessIR>, s: &Vec<HelperIR>, errors: &mut Diagnostics)
    ensures
        final(errors)@ == resolve_helpers(opt_deep(*w), s.deep_view(), old(errors)@, s@.len()),
        s.deep_view().len() == s@.len(),
{
    let ghost wv = opt_deep(*w);
    let ghost start = errors@;
    let ghost v = s.deep_view();
    let mut i: usize = 0;
    while i < s.len()
        invariant
            i <= s@.len(),
            wv == opt_deep(*w),
            v == s.deep_view(),
            v.len() == s@.len(),
            start == old(errors)@,
            errors@ == resolve_helpers(wv, v, start, i as nat),
        decreases s@.len() - i,
    {
        assert(v[i as int] == s@[i as int].deep_view());
        check_body(w, &s[i].body, errors);
        i += 1;
    }
}

/// Adds an error for each witness read or call that the witnesses struct does
/// not declare.
fn validate_witness_resolution(w: &Option<WitnessIR>, b: &mut Bodies)
    ensures
        final(b)@ == (BodiesV { errors: resolution_errors(opt_deep(*w), old(b)@), ..old(b)@ }),
{
    check_constructors(w, &b.constructors, &mut b.errors);
    check_circuits(w, &b.circuits, &mut b.errors);
    check_queries(w, &b.queries, &mut b.errors);
    check_helpers(w, &b.helpers, &mut b.errors);
}

// ---- the contract

pub open spec fn contract_res(r: Result<ContractIR, Diagnostics>) -> Result<ContractV, Seq<ErrorV>> {
    match r {
        Ok(c) => Ok(c.deep_view()),
        Err(d) => Err(d@),
    }
}

fn assemble(name: Ident, found: Found, b: Bodies) -> (r: Result<ContractIR, Diagnostics>)
    ensures
        contract_res(r) == assembled(name, found@, b@),
{
    let span = name.span;
    let mut errors = b.errors;
    match found.ledger {
        None => {
            if !found.ledger_seen {
                errors.push(
                    MidnightError::new(
                        span,
                        ErrorCode::MissingLedger,
                        txt("contract must contain exactly one #[nocturne(ledger)] struct"),
                    ),
                );
            }
            Err(errors)
        }
        Some(ledger) => {
            if b.constructors.len() == 0 && b.circuits.len() == 0 {
                errors.push(
                    MidnightError::new(
                        span,
                        ErrorCode::MissingCircuit,
                        txt(
                            "contract must contain at least one #[nocturne(circuit)] or #[nocturne(constructor)] function",
                        ),
                    ),
                );
            }
            if errors.has_errors() {
                return Err(errors);
            }
            Ok(
                ContractIR {
                    name: name.name,
                    span,
                    ledger,
                    witnesses: found.witnesses,
                    constructors: b.constructors,
                    circuits: b.circuits,
                    queries: b.queries,
                    other_items: b.other_items,
                    user_structs: found.structs,
                    user_enums: found.enums,
                    helpers: b.helpers,
                },
            )
        }
    }
}

/// Parses a contract module. On failure every diagnostic is returned, so that
/// all problems show at once.
pub fn parse_contract(module: ItemMod) -> (r: Result<ContractIR, Diagnostics>)
    ensures
        contract_res(r) == contract_of(module),
{
    let name = module.ident;
    let items = match module.items {
        Some(items) => items,
        None => {
            let mut errors = Diagnostics::new();
            errors.push(
                MidnightError::new(
                    name.span,
                    ErrorCode::EmptyContractModule,
                    txt(
                        "contract module must have inline content (`mod foo { ... }`); `mod foo;` out-of-line modules are not supported by #[nocturne::contract]",
                    ),
                ),
            );
            return Err(errors);
        }
    };
    let mut found = collect_declarations(&items);
    register_methods(&mut found, &items);
    let ghost s = found@;
    let mut errors = Diagnostics::new();
    std::mem::swap(&mut errors, &mut found.errors);
    let cx = ContractCtx {
        ledger: match &found.ledger {
            Some(l) => Some(l),
            None => None,
        },
        witnesses: match &found.witnesses {
            Some(w) => Some(w),
            None => None,
        },
        user_enums: &found.enums,
    };
    assert(cx@ == decl_of(s));
    let mut b = collect_bodies(&cx, &items, errors);
    validate_witness_resolution(&found.witnesses, &mut b);
    match validate_helpers_acyclic(&b.helpers) {
        Err(e) => b.errors.push(e),
        Ok(_) => {}
    }
    assemble(name, found, b)
}

} // verus!
