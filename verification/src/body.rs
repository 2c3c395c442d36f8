//! Reading of function bodies into expression IR.
use crate::containers::{find_args, nth_type};
use crate::contract::{enums_view, find_enum, LedgerFieldV, LedgerIR, LedgerTypeKind, ParamIR, ParamV};
use crate::contract::{UserEnumVariant, WitnessFieldV, WitnessIR, WitnessMethodV};
use crate::emission::ledger_position;
use crate::error::{ErrorCode, ErrorV, MidnightError};
use crate::expr::{assert_view, expr_view, exprs_view, fields_view, fit_u32, fit_u64, int_literal, AssertKind, BinOp};
use crate::expr::{ExprIR, ExprV, LiteralIR, UnOp};
use crate::reading::{any_variant, arm_enum, arm_shape, arm_shapes, array, asserted, asserted_equal, binary, binding};
use crate::reading::{block, bounds, branch, called, cast, cell_type, claim, compound_error, direct_call};
use crate::reading::{direct_field, drawn_once, draws_witness, element, field_access, first_field, first_method};
use crate::reading::{first_wild, get_access, get_arms, get_branch, get_call, get_if, has_variant, int_of};
use crate::reading::{is_compound, is_macro, is_none_pattern, is_self, is_witnesses, last_name, ledger_width, let_get};
use crate::reading::{let_name, literal_expr, loop_expr, loop_value, macro_scope, match_expr, member_name};
use crate::reading::{member_span, method_call, named_enum_with, names_variant, no_match, nodes, nodes_of};
use crate::reading::{nodes_of_fields, other_expr, param_type, path_expr, path_name, reference, rendered, replaced};
use crate::reading::{returned, self_field, shadow, shapes, some_binding, span_of, struct_init, tuple, type_width};
use crate::reading::{unary, uninitialized, unreferenced, unroll, variant_link, width_of, MAX_UNROLL, ArmShape};
use crate::reading::{Bounds, Claim, DeclV, ScopeV, Shape, Shapes};
use crate::syntax::{ty_ref_opt, Arm, Expr, ExprKind, Ident, Lit, MacroCall, Member, Pat, PatKind, Path, Piece, Span};
use crate::syntax::{Ty, TyKind};
use crate::text::{cat2, cat3, cat7, number, same, strip_spaces, strip_suffix, txt};
use crate::typing::{int_literal_width, read_angle_u32};
use vstd::prelude::*;

verus! {

/// Contract-level declarations available while function bodies are read.
pub struct ContractCtx<'a> {
    pub ledger: Option<&'a LedgerIR>,
    pub witnesses: Option<&'a WitnessIR>,
    pub user_enums: &'a Vec<(String, Vec<UserEnumVariant>)>,
}

impl<'a> View for ContractCtx<'a> {
    type V = DeclV;

    open spec fn view(&self) -> DeclV {
        DeclV {
            ledger: match self.ledger {
                Some(l) => Some(l.deep_view()),
                None => None,
            },
            witnesses: match self.witnesses {
                Some(w) => Some(w.deep_view()),
                None => None,
            },
            enums: enums_view(self.user_enums@),
        }
    }
}

/// What is in scope at a point of a function body.
pub struct Scope<'a> {
    pub witnesses_param: Option<&'a str>,
    pub params: &'a Vec<ParamIR>,
    pub shadowed: Vec<&'a str>,
    pub unrolled: Vec<(&'a str, u64)>,
}

pub open spec fn str_opt(o: Option<&str>) -> Option<Seq<char>> {
    match o {
        Some(s) => Some(s@),
        None => None,
    }
}

pub open spec fn names_in(s: Seq<&str>) -> Set<Seq<char>> {
    Set::new(|n: Seq<char>| exists|i: int| 0 <= i < s.len() && (#[trigger] s[i])@ == n)
}

pub open spec fn values_view(s: Seq<(&str, u64)>) -> Seq<(Seq<char>, u64)> {
    Seq::new(s.len(), |i: int| (s[i].0@, s[i].1))
}

impl<'a> View for Scope<'a> {
    type V = ScopeV;

    open spec fn view(&self) -> ScopeV {
        ScopeV {
            witnesses_param: str_opt(self.witnesses_param),
            params: self.params.deep_view(),
            shadowed: names_in(self.shadowed@),
            unrolled: values_view(self.unrolled@),
        }
    }
}

impl<'a> Scope<'a> {
    pub(crate) fn copy(&self) -> (r: Scope<'a>)
        ensures
            r@ == self@,
            r.shadowed@ == self.shadowed@,
            r.unrolled@ == self.unrolled@,
            r.params == self.params,
            r.witnesses_param == self.witnesses_param,
    {
        let mut shadowed: Vec<&'a str> = Vec::new();
        let mut i: usize = 0;
        while i < self.shadowed.len()
            invariant
                i <= self.shadowed@.len(),
                shadowed@ == self.shadowed@.take(i as int),
            decreases self.shadowed@.len() - i,
        {
            shadowed.push(self.shadowed[i]);
            assert(self.shadowed@.take(i + 1) =~= self.shadowed@.take(i as int).push(self.shadowed@[i as int]));
            i += 1;
        }
        assert(shadowed@ =~= self.shadowed@);
        let mut unrolled: Vec<(&'a str, u64)> = Vec::new();
        let mut k: usize = 0;
        while k < self.unrolled.len()
            invariant
                k <= self.unrolled@.len(),
                unrolled@ == self.unrolled@.take(k as int),
            decreases self.unrolled@.len() - k,
        {
            unrolled.push((self.unrolled[k].0, self.unrolled[k].1));
            assert(self.unrolled@.take(k + 1) =~= self.unrolled@.take(k as int).push(self.unrolled@[k as int]));
            k += 1;
        }
        assert(unrolled@ =~= self.unrolled@);
        Scope { witnesses_param: self.witnesses_param, params: self.params, shadowed, unrolled }
    }

    /// The scope with `name` bound again.
    pub(crate) fn with_shadowed(&self, name: &'a str) -> (r: Scope<'a>)
        ensures
            r@ == shadow(self@, name@),
    {
        let mut r = self.copy();
        r.shadow(name);
        r
    }

    pub(crate) fn shadow(&mut self, name: &'a str)
        ensures
            final(self)@ == shadow(old(self)@, name@),
    {
        let ghost before = self.shadowed@;
        self.shadowed.push(name);
        proof {
            let after = self.shadowed@;
            assert(names_in(after) =~= names_in(before).insert(name@)) by {
                assert forall|n: Seq<char>| names_in(after).contains(n) == names_in(before).insert(name@).contains(n) by {
                    if names_in(before).contains(n) {
                        let i = choose|i: int| 0 <= i < before.len() && (#[trigger] before[i])@ == n;
                        assert(after[i]@ == n);
                    }
                    if n == name@ {
                        assert(after[before.len() as int]@ == n);
                    }
                    if names_in(after).contains(n) {
                        let i = choose|i: int| 0 <= i < after.len() && (#[trigger] after[i])@ == n;
                        if i < before.len() {
                            assert(before[i]@ == n);
                        }
                    }
                }
            }
        }
    }

    /// The scope with a loop variable's value.
    pub(crate) fn with_value(&self, name: &'a str, value: u64) -> (r: Scope<'a>)
        ensures
            r@ == unroll(self@, name@, value),
    {
        let mut r = self.copy();
        let ghost before = r.unrolled@;
        r.unrolled.push((name, value));
        assert(values_view(r.unrolled@) =~= values_view(before).push((name@, value)));
        r
    }

    /// The scope of macro arguments.
    pub(crate) fn for_macro(&self) -> (r: Scope<'a>)
        ensures
            r@ == macro_scope(self@),
    {
        let mut r = self.copy();
        r.unrolled = Vec::new();
        assert(values_view(r.unrolled@) =~= seq![]);
        r
    }

    fn is_shadowed(&self, name: &str) -> (r: bool)
        ensures
            r == self@.shadowed.contains(name@),
    {
        let mut i: usize = 0;
        while i < self.shadowed.len()
            invariant
                i <= self.shadowed@.len(),
                forall|j: int| 0 <= j < i ==> (#[trigger] self.shadowed@[j])@ != name@,
            decreases self.shadowed@.len() - i,
        {
            if same(self.shadowed[i], name) {
                assert(self.shadowed@[i as int]@ == name@);
                return true;
            }
            i += 1;
        }
        false
    }

    /// The value that loops gave a name.
    fn value_of(&self, name: &str) -> (r: Option<u64>)
        ensures
            r == loop_value(self@.unrolled, name@),
    {
        let ghost all = self@.unrolled;
        let mut i: usize = 0;
        while i < self.unrolled.len()
            invariant
                i <= self.unrolled@.len(),
                all == values_view(self.unrolled@),
                loop_value(all.take(i as int), name@) is None,
            decreases self.unrolled@.len() - i,
        {
            let (n, v) = &self.unrolled[i];
            assert(all.take(i + 1).drop_last() =~= all.take(i as int));
            if same(n, name) {
                proof {
                    lemma_loop_value_kept(all, i + 1, name@);
                }
                return Some(*v);
            }
            i += 1;
        }
        assert(all.take(i as int) =~= all);
        None
    }
}

proof fn lemma_loop_value_kept(s: Seq<(Seq<char>, u64)>, i: int, name: Seq<char>)
    requires
        0 <= i <= s.len(),
        loop_value(s.take(i), name) is Some,
    ensures
        loop_value(s, name) == loop_value(s.take(i), name),
    decreases s.len(),
{
    if i < s.len() {
        assert(s.drop_last().take(i) =~= s.take(i));
        lemma_loop_value_kept(s.drop_last(), i, name);
    } else {
        assert(s.take(i) =~= s);
    }
}

pub open spec fn expr_res(r: Result<ExprIR, MidnightError>) -> Result<ExprV, ErrorV> {
    match r {
        Ok(e) => Ok(expr_view(e)),
        Err(e) => Err(e@),
    }
}

pub open spec fn exprs_res(r: Result<Vec<ExprIR>, MidnightError>) -> Result<Seq<ExprV>, ErrorV> {
    match r {
        Ok(es) => Ok(exprs_view(es@)),
        Err(e) => Err(e@),
    }
}

pub open spec fn ident_opt(o: Option<&Ident>) -> Option<Ident> {
    match o {
        Some(i) => Some(*i),
        None => None,
    }
}

// ---- names and shapes

fn path_ident(p: &Path) -> (r: Option<&Ident>)
    ensures
        match r {
            Some(i) => path_name(*p) == Some(i.name@) && *i == p.segments@[0],
            None => path_name(*p) is None,
        },
{
    if p.is_ident && p.segments.len() > 0 {
        Some(&p.segments[0])
    } else {
        None
    }
}

fn replaced_by(sc: &Scope, e: &Expr) -> (r: Option<u64>)
    ensures
        r == replaced(sc@, *e),
{
    match &e.kind {
        ExprKind::Path(p) => match path_ident(p) {
            Some(i) => sc.value_of(i.name.as_str()),
            None => None,
        },
        _ => None,
    }
}

fn is_self_expr(sc: &Scope, e: &Expr) -> (r: bool)
    ensures
        r == is_self(sc@, *e),
{
    match &e.kind {
        ExprKind::Path(p) => match path_ident(p) {
            Some(i) => same(i.name.as_str(), "self") && sc.value_of(i.name.as_str()).is_none(),
            None => false,
        },
        _ => false,
    }
}

fn is_witnesses_receiver(sc: &Scope, e: &Expr) -> (r: bool)
    ensures
        r == is_witnesses(sc@, *e),
{
    match &e.kind {
        ExprKind::Path(p) => match path_ident(p) {
            Some(i) => match sc.witnesses_param {
                Some(w) => same(i.name.as_str(), w) && sc.value_of(i.name.as_str()).is_none(),
                None => false,
            },
            None => false,
        },
        _ => false,
    }
}

pub(crate) fn expr_span(sc: &Scope, e: &Expr) -> (r: Span)
    ensures
        r == span_of(sc@, *e),
{
    if replaced_by(sc, e).is_some() {
        Span::call_site()
    } else {
        e.span
    }
}

/// The integer literal that an expression is.
fn parse_int_literal(sc: &Scope, e: &Expr) -> (r: Option<u128>)
    ensures
        r == int_of(sc@, *e),
{
    match replaced_by(sc, e) {
        Some(v) => Some(v as u128),
        None => match &e.kind {
            ExprKind::Lit(Lit::Int(text)) => int_literal(text.as_str()),
            _ => None,
        },
    }
}

/// An expression's token text.
fn render(sc: &Scope, pieces: &Vec<Piece>) -> (r: String)
    ensures
        r@ == rendered(sc@, pieces@),
{
    let mut out: String = txt("");
    proof {
        reveal_strlit("");
        assert(out@ =~= rendered(sc@, pieces@.take(0)));
    }
    let mut i: usize = 0;
    while i < pieces.len()
        invariant
            i <= pieces@.len(),
            out@ == rendered(sc@, pieces@.take(i as int)),
        decreases pieces@.len() - i,
    {
        assert(pieces@.take(i + 1).drop_last() =~= pieces@.take(i as int));
        match &pieces[i] {
            Piece::Fixed(s) => {
                out = cat2(out.as_str(), s.as_str());
            }
            Piece::Name(s) => match sc.value_of(s.as_str()) {
                Some(v) => {
                    let n = number(v as u128);
                    let t = cat2(n.as_str(), "u64");
                    out = cat2(out.as_str(), t.as_str());
                }
                None => {
                    out = cat2(out.as_str(), s.as_str());
                }
            },
        }
        i += 1;
    }
    assert(pieces@.take(i as int) =~= pieces@);
    out
}

pub(crate) fn member_ident(m: &Member) -> (r: String)
    ensures
        r@ == member_name(*m),
{
    match m {
        Member::Named(i) => i.name.clone(),
        Member::Unnamed { index, .. } => {
            let n = number(*index as u128);
            cat2("_", n.as_str())
        }
    }
}

fn span_of_member(m: &Member) -> (r: Span)
    ensures
        r == member_span(*m),
{
    match m {
        Member::Named(i) => i.span,
        Member::Unnamed { span, .. } => *span,
    }
}

fn find_self_field<'e>(sc: &Scope, e: &'e Expr) -> (r: Option<&'e Ident>)
    ensures
        ident_opt(r) == self_field(sc@, *e),
{
    match &e.kind {
        ExprKind::Field { base, member } => match member {
            Member::Named(i) => if is_self_expr(sc, base) {
                Some(i)
            } else {
                None
            },
            _ => None,
        },
        _ => None,
    }
}

pub(crate) fn is_compound_assignment(op: BinOp) -> (r: bool)
    ensures
        r == is_compound(op),
{
    match op {
        BinOp::AddAssign => true,
        BinOp::SubAssign => true,
        BinOp::MulAssign => true,
        BinOp::DivAssign => true,
        BinOp::RemAssign => true,
        BinOp::BitXorAssign => true,
        BinOp::BitAndAssign => true,
        BinOp::BitOrAssign => true,
        BinOp::ShlAssign => true,
        BinOp::ShrAssign => true,
        _ => false,
    }
}

fn last_ident(p: &Path) -> (r: Option<&Ident>)
    ensures
        ident_opt(r) == last_name(*p),
{
    if p.segments.len() > 0 {
        Some(&p.segments[p.segments.len() - 1])
    } else {
        None
    }
}

fn match_some_binding(p: &Pat) -> (r: Option<&Ident>)
    ensures
        ident_opt(r) == some_binding(*p),
{
    match &p.kind {
        PatKind::TupleStruct { path, elems } => match last_ident(path) {
            Some(last) => if same(last.name.as_str(), "Some") && elems.len() == 1 {
                match &elems[0].kind {
                    PatKind::Ident { ident, .. } => Some(ident),
                    _ => None,
                }
            } else {
                None
            },
            None => None,
        },
        _ => None,
    }
}

fn match_none_or_wild(p: &Pat) -> (r: bool)
    ensures
        r == is_none_pattern(*p),
{
    match &p.kind {
        PatKind::Path(path) => match last_ident(path) {
            Some(last) => same(last.name.as_str(), "None"),
            None => false,
        },
        PatKind::Ident { ident, .. } => same(ident.name.as_str(), "None"),
        PatKind::Wild => true,
        _ => false,
    }
}

pub open spec fn get_opt(o: Option<(&Ident, &Expr)>) -> Option<(Ident, Expr)> {
    match o {
        Some((i, e)) => Some((*i, *e)),
        None => None,
    }
}

/// The field and key of `self.<field>.get(<key>)`.
pub(crate) fn match_self_field_get_scrutinee<'e>(sc: &Scope, e: &'e Expr) -> (r: Option<(&'e Ident, &'e Expr)>)
    ensures
        get_opt(r) == get_call(sc@, *e),
{
    match &e.kind {
        ExprKind::MethodCall { receiver, method, args } => if same(method.name.as_str(), "get") && args.len() == 1 {
            match find_self_field(sc, receiver) {
                Some(field) => Some((field, &args[0])),
                None => None,
            }
        } else {
            None
        },
        _ => None,
    }
}

pub open spec fn let_get_opt(o: Option<(&Ident, &Ident, &Expr)>) -> Option<(Ident, Ident, Expr)> {
    match o {
        Some((v, i, e)) => Some((*v, *i, *e)),
        None => None,
    }
}

/// The binding, field and key of `let Some(v) = self.<field>.get(<key>)`.
pub(crate) fn match_if_let_some_get<'e>(sc: &Scope, e: &'e Expr) -> (r: Option<(&'e Ident, &'e Ident, &'e Expr)>)
    ensures
        let_get_opt(r) == let_get(sc@, *e),
{
    match &e.kind {
        ExprKind::Let { pat, expr } => match match_some_binding(pat) {
            Some(v) => match match_self_field_get_scrutinee(sc, expr) {
                Some((field, key)) => Some((v, field, key)),
                None => None,
            },
            None => None,
        },
        _ => None,
    }
}

pub open spec fn arms_opt(o: Option<(&Ident, bool)>) -> Option<(Ident, bool)> {
    match o {
        Some((v, b)) => Some((*v, b)),
        None => None,
    }
}

/// How the two arms of a match on a `get` bind.
pub(crate) fn match_get_arms(arms: &Vec<Arm>) -> (r: Option<(&Ident, bool)>)
    ensures
        arms_opt(r) == get_arms(arms@),
{
    if arms.len() != 2 || arms[0].has_guard || arms[1].has_guard {
        return None;
    }
    let first = match_some_binding(&arms[0].pat);
    let second = match_some_binding(&arms[1].pat);
    match first {
        Some(v) => if match_none_or_wild(&arms[1].pat) {
            return Some((v, true));
        },
        None => {}
    }
    match second {
        Some(v) => if match_none_or_wild(&arms[0].pat) {
            return Some((v, false));
        },
        None => {}
    }
    None
}

// ---- widths

pub(crate) fn without_references(t: &Ty) -> (r: &Ty)
    ensures
        r@ == unreferenced(t@),
    decreases t,
{
    match &t.kind {
        TyKind::Reference(inner) => without_references(inner),
        _ => t,
    }
}

/// Bit width of a type modelled as an unsigned integer wire.
fn type_bit_width(t: &Ty) -> (r: Option<u32>)
    ensures
        r == type_width(t@),
{
    let bare = without_references(t);
    let s = strip_spaces(bare.text.as_str());
    let s = s.as_str();
    if same(s, "bool") || same(s, "Boolean") {
        Some(1)
    } else if same(s, "u8") {
        Some(8)
    } else if same(s, "u16") {
        Some(16)
    } else if same(s, "u32") {
        Some(32)
    } else if same(s, "u64") {
        Some(64)
    } else if same(s, "u128") {
        Some(128)
    } else {
        match read_angle_u32(s, "Uint<") {
            Some(n) => n,
            None => None,
        }
    }
}

/// The `T` of `Cell<T>`.
fn cell_inner_type(t: &Ty) -> (r: Option<&Ty>)
    ensures
        ty_ref_opt(r) == cell_type(t@),
{
    match find_args(t, "Cell") {
        Some(a) => nth_type(a, 0),
        None => None,
    }
}

proof fn lemma_ledger_position(fs: Seq<LedgerFieldV>, name: Seq<char>, a: nat, b: nat)
    requires
        a <= b <= fs.len(),
        ledger_position(fs, name, a) is Some,
    ensures
        ledger_position(fs, name, b) == ledger_position(fs, name, a),
    decreases b,
{
    if a < b {
        lemma_ledger_position(fs, name, a, (b - 1) as nat);
    }
}

fn ledger_read_width(l: &LedgerIR, field: &str) -> (r: Option<u32>)
    ensures
        r == ledger_width(l.deep_view(), field@),
{
    let ghost fs = l.deep_view().fields;
    let mut i: usize = 0;
    while i < l.fields.len()
        invariant
            i <= l.fields@.len(),
            fs == l.deep_view().fields,
            fs.len() == l.fields@.len(),
            ledger_position(fs, field@, i as nat) is None,
        decreases l.fields@.len() - i,
    {
        assert(fs[i as int] == l.fields@[i as int].deep_view());
        if same(l.fields[i].name.as_str(), field) {
            proof {
                lemma_ledger_position(fs, field@, (i + 1) as nat, fs.len());
            }
            return match &l.fields[i].type_kind {
                LedgerTypeKind::Counter => Some(64),
                LedgerTypeKind::Cell => match cell_inner_type(&l.fields[i].ty) {
                    Some(t) => type_bit_width(t),
                    None => None,
                },
                _ => None,
            };
        }
        i += 1;
    }
    None
}

proof fn lemma_first_field(fs: Seq<WitnessFieldV>, name: Seq<char>, a: nat, b: nat)
    requires
        a <= b <= fs.len(),
        first_field(fs, name, a) is Some,
    ensures
        first_field(fs, name, b) == first_field(fs, name, a),
    decreases b,
{
    if a < b {
        lemma_first_field(fs, name, a, (b - 1) as nat);
    }
}

fn witness_field_type<'w>(w: &'w WitnessIR, name: &str) -> (r: Option<&'w Ty>)
    ensures
        ty_ref_opt(r) == first_field(w.deep_view().fields, name@, w.deep_view().fields.len()),
{
    let ghost fs = w.deep_view().fields;
    let mut i: usize = 0;
    while i < w.fields.len()
        invariant
            i <= w.fields@.len(),
            fs == w.deep_view().fields,
            fs.len() == w.fields@.len(),
            first_field(fs, name@, i as nat) is None,
        decreases w.fields@.len() - i,
    {
        assert(fs[i as int] == w.fields@[i as int].deep_view());
        if same(w.fields[i].name.as_str(), name) {
            proof {
                lemma_first_field(fs, name@, (i + 1) as nat, fs.len());
            }
            return Some(&w.fields[i].ty);
        }
        i += 1;
    }
    None
}

proof fn lemma_first_method(ms: Seq<WitnessMethodV>, name: Seq<char>, a: nat, b: nat)
    requires
        a <= b <= ms.len(),
        first_method(ms, name, a) is Some,
    ensures
        first_method(ms, name, b) == first_method(ms, name, a),
    decreases b,
{
    if a < b {
        lemma_first_method(ms, name, a, (b - 1) as nat);
    }
}

fn witness_method_type<'w>(w: &'w WitnessIR, name: &str) -> (r: Option<&'w Ty>)
    ensures
        ty_ref_opt(r) == first_method(w.deep_view().methods, name@, w.deep_view().methods.len()),
{
    let ghost ms = w.deep_view().methods;
    let mut i: usize = 0;
    while i < w.methods.len()
        invariant
            i <= w.methods@.len(),
            ms == w.deep_view().methods,
            ms.len() == w.methods@.len(),
            first_method(ms, name@, i as nat) is None,
        decreases w.methods@.len() - i,
    {
        assert(ms[i as int] == w.methods@[i as int].deep_view());
        if same(w.methods[i].name.as_str(), name) {
            proof {
                lemma_first_method(ms, name@, (i + 1) as nat, ms.len());
            }
            return Some(&w.methods[i].return_type);
        }
        i += 1;
    }
    None
}

proof fn lemma_param_type(ps: Seq<ParamV>, name: Seq<char>, a: nat, b: nat)
    requires
        a <= b <= ps.len(),
        forall|j: int| a <= j < b ==> (#[trigger] ps[j]).name != name,
    ensures
        param_type(ps, name, b) == param_type(ps, name, a),
    decreases b,
{
    if a < b {
        lemma_param_type(ps, name, a, (b - 1) as nat);
    }
}

fn find_param_type<'p>(params: &'p Vec<ParamIR>, name: &str) -> (r: Option<&'p Ty>)
    ensures
        ty_ref_opt(r) == param_type(params.deep_view(), name@, params@.len()),
{
    let ghost ps = params.deep_view();
    let mut i: usize = params.len();
    while i > 0
        invariant
            i <= params@.len(),
            ps == params.deep_view(),
            ps.len() == params@.len(),
            forall|j: int| i <= j < ps.len() ==> (#[trigger] ps[j]).name != name@,
        decreases i,
    {
        i -= 1;
        assert(ps[i as int] == params@[i as int].deep_view());
        if same(params[i].name.as_str(), name) {
            proof {
                lemma_param_type(ps, name@, (i + 1) as nat, ps.len());
            }
            return Some(&params[i].ty);
        }
    }
    proof {
        lemma_param_type(ps, name@, 0, ps.len());
    }
    None
}

fn opt_bit_width(t: Option<&Ty>) -> (r: Option<u32>)
    ensures
        r == crate::reading::opt_width(ty_ref_opt(t)),
{
    match t {
        Some(t) => type_bit_width(t),
        None => None,
    }
}

/// The bit width of an already parsed expression, where declared types tell
/// it.
fn infer_expr_width(cx: &ContractCtx, sc: &Scope, e: &ExprIR) -> (r: Option<u32>)
    ensures
        r == width_of(cx@, sc@, e@),
    decreases e,
{
    match e {
        ExprIR::Literal { value, .. } => match value {
            LiteralIR::Int(n) => Some(int_literal_width(*n)),
            LiteralIR::Bool(_) => Some(1),
            LiteralIR::Str(_) => None,
        },
        ExprIR::WitnessAccess { field, .. } => match cx.witnesses {
            Some(w) => opt_bit_width(witness_field_type(w, field.as_str())),
            None => None,
        },
        ExprIR::WitnessCall { name, .. } => match cx.witnesses {
            Some(w) => opt_bit_width(witness_method_type(w, name.as_str())),
            None => None,
        },
        ExprIR::Var { name, .. } => if sc.is_shadowed(name.as_str()) {
            None
        } else {
            opt_bit_width(find_param_type(sc.params, name.as_str()))
        },
        ExprIR::MethodCall { receiver, method, args, .. } => {
            assert(exprs_view(args@).len() == args@.len());
            if args.len() == 0 && (same(method.as_str(), "value") || same(method.as_str(), "clone") || same(
                method.as_str(),
                "into",
            )) {
                infer_expr_width(cx, sc, receiver)
            } else {
                None
            }
        }
        ExprIR::LedgerAccess { field, method, .. } => if same(method.as_str(), "value") || same(method.as_str(), "get")
            || same(method.as_str(), "__direct_access") {
            match cx.ledger {
                Some(l) => ledger_read_width(l, field.as_str()),
                None => None,
            }
        } else {
            None
        },
        ExprIR::Reference { expr, .. } => infer_expr_width(cx, sc, expr),
        ExprIR::Disclose { value, .. } => infer_expr_width(cx, sc, value),
        _ => None,
    }
}

pub(crate) fn refused(span: Span, message: String) -> (r: MidnightError)
    ensures
        r@ == (ErrorV { span, code: ErrorCode::UnsupportedExpression, message: message@ }),
{
    MidnightError::new(span, ErrorCode::UnsupportedExpression, message)
}

pub(crate) fn unsupported(span: Span, description: &str) -> (r: ExprIR)
    ensures
        r@ == (ExprV::Unsupported { span, description: description@ }),
{
    ExprIR::Unsupported { span, description: txt(description) }
}

pub(crate) fn parse_cast(
    cx: &ContractCtx,
    sc: &Scope,
    r: Result<ExprIR, MidnightError>,
    ty: &Ty,
    span: Span,
) -> (o: Result<
    ExprIR,
    MidnightError,
>)
    ensures
        expr_res(o) == cast(cx@, sc@, expr_res(r), ty@, span),
{
    proof {
        reveal(cast);
    }
    let inner = match r {
        Ok(e) => e,
        Err(x) => {
            return Err(x);
        }
    };
    let target = strip_spaces(ty.text.as_str());
    let source = infer_expr_width(cx, sc, &inner);
    match type_bit_width(ty) {
        Some(t) => match source {
            Some(s) => if s <= t {
                Ok(inner)
            } else {
                Err(
                    refused(
                        span,
                        cat7(
                            "narrowing `as` cast: the source is ",
                            number(s as u128).as_str(),
                            " bits wide but `",
                            target.as_str(),
                            "` is only ",
                            number(t as u128).as_str(),
                            " bits. Nocturne casts are transparent on the wire, so the circuit would not perform the truncation the Rust code performs",
                        ),
                    ),
                )
            },
            None => if t >= 128 {
                Ok(inner)
            } else {
                Err(
                    refused(
                        span,
                        cat3(
                            "cannot prove this `as ",
                            target.as_str(),
                            "` cast is non-narrowing: the source expression's bit width is not inferable. Bind the value with a typed source (witness field, typed param, literal) or cast to u128",
                        ),
                    ),
                )
            },
        },
        None => Err(
            refused(
                span,
                cat3(
                    "unsupported `as` cast target `",
                    target.as_str(),
                    "`; only u8, u16, u32, u64, and u128 are supported",
                ),
            ),
        ),
    }
}

// ---- every node of an expression

pub open spec fn refs_view(s: Seq<&ExprIR>) -> Seq<ExprV> {
    Seq::new(s.len(), |i: int| expr_view(*s[i]))
}

/// Appends every node of `e`, parents before children.
pub fn for_each_expr<'e>(e: &'e ExprIR, out: &mut Vec<&'e ExprIR>)
    ensures
        refs_view(final(out)@) == refs_view(old(out)@) + nodes(e@),
    decreases e, 0nat,
{
    let ghost start = refs_view(out@);
    out.push(e);
    assert(refs_view(out@) =~= start + seq![e@]);
    let ghost root = refs_view(out@);
    match e {
        ExprIR::BinaryOp { lhs, rhs, .. } => {
            for_each_expr(lhs, out);
            for_each_expr(rhs, out);
            assert(refs_view(out@) =~= start + nodes(e@));
        }
        ExprIR::UnaryOp { expr, .. } => {
            for_each_expr(expr, out);
            assert(refs_view(out@) =~= start + nodes(e@));
        }
        ExprIR::Reference { expr, .. } => {
            for_each_expr(expr, out);
            assert(refs_view(out@) =~= start + nodes(e@));
        }
        ExprIR::FnCall { args, .. } => {
            for_each_of(args, out);
            assert(refs_view(out@) =~= start + nodes(e@));
        }
        ExprIR::LedgerAccess { args, .. } => {
            for_each_of(args, out);
            assert(refs_view(out@) =~= start + nodes(e@));
        }
        ExprIR::WitnessCall { args, .. } => {
            for_each_of(args, out);
            assert(refs_view(out@) =~= start + nodes(e@));
        }
        ExprIR::MethodCall { receiver, args, .. } => {
            for_each_expr(receiver, out);
            for_each_of(args, out);
            assert(refs_view(out@) =~= start + nodes(e@));
        }
        ExprIR::Let { value, .. } => {
            for_each_expr(value, out);
            assert(refs_view(out@) =~= start + nodes(e@));
        }
        ExprIR::Disclose { value, .. } => {
            for_each_expr(value, out);
            assert(refs_view(out@) =~= start + nodes(e@));
        }
        ExprIR::If { cond, then_branch, else_branch, .. } => {
            for_each_expr(cond, out);
            for_each_of(then_branch, out);
            match else_branch {
                Some(b) => for_each_of(b, out),
                None => {}
            }
            assert(refs_view(out@) =~= start + nodes(e@));
        }
        ExprIR::Assert { kind, .. } => {
            match kind {
                AssertKind::Assert(a) => {
                    for_each_expr(a, out);
                    assert(assert_view(*kind) is Assert);
                }
                AssertKind::AssertEq(a, b) => {
                    for_each_expr(a, out);
                    for_each_expr(b, out);
                    assert(assert_view(*kind) is AssertEq);
                }
            }
            assert(refs_view(out@) =~= start + nodes(e@));
        }
        ExprIR::EnumPayload { scrutinee, .. } => {
            for_each_expr(scrutinee, out);
            assert(refs_view(out@) =~= start + nodes(e@));
        }
        ExprIR::Block { stmts, .. } => {
            for_each_of(stmts, out);
            assert(refs_view(out@) =~= start + nodes(e@));
        }
        ExprIR::StructInit { fields, .. } => {
            for_each_of_fields(fields, out);
            assert(refs_view(out@) =~= start + nodes(e@));
        }
        ExprIR::Return { value, .. } => {
            match value {
                Some(v) => for_each_expr(v, out),
                None => {}
            }
            assert(refs_view(out@) =~= start + nodes(e@));
        }
        ExprIR::Tuple { elements, .. } => {
            for_each_of(elements, out);
            assert(refs_view(out@) =~= start + nodes(e@));
        }
        ExprIR::ArrayLit { elements, .. } => {
            for_each_of(elements, out);
            assert(refs_view(out@) =~= start + nodes(e@));
        }
        ExprIR::Index { array, .. } => {
            for_each_expr(array, out);
            assert(refs_view(out@) =~= start + nodes(e@));
        }
        _ => {
            assert(refs_view(out@) =~= start + nodes(e@));
        }
    }
}

pub(crate) fn for_each_of<'e>(es: &'e Vec<ExprIR>, out: &mut Vec<&'e ExprIR>)
    ensures
        refs_view(final(out)@) == refs_view(old(out)@) + nodes_of(exprs_view(es@), es@.len()),
    decreases es, 0nat,
{
    let ghost start = refs_view(out@);
    let ghost v = exprs_view(es@);
    let mut i: usize = 0;
    while i < es.len()
        invariant
            i <= es@.len(),
            v == exprs_view(es@),
            v.len() == es@.len(),
            refs_view(out@) =~= start + nodes_of(v, i as nat),
        decreases es@.len() - i,
    {
        for_each_expr(&es[i], out);
        assert(v[i as int] == expr_view(es@[i as int]));
        i += 1;
    }
}

fn for_each_of_fields<'e>(fs: &'e Vec<(String, ExprIR)>, out: &mut Vec<&'e ExprIR>)
    ensures
        refs_view(final(out)@) == refs_view(old(out)@) + nodes_of_fields(fields_view(fs@), fs@.len()),
    decreases fs, 0nat,
{
    let ghost start = refs_view(out@);
    let ghost v = fields_view(fs@);
    let mut i: usize = 0;
    while i < fs.len()
        invariant
            i <= fs@.len(),
            v == fields_view(fs@),
            v.len() == fs@.len(),
            refs_view(out@) =~= start + nodes_of_fields(v, i as nat),
        decreases fs@.len() - i,
    {
        let pair = &fs[i];
        for_each_expr(&pair.1, out);
        assert(v[i as int] == (fs@[i as int].0@, expr_view(fs@[i as int].1)));
        i += 1;
    }
}

/// Whether an expression holds a parametric witness call, the one node whose
/// every evaluation draws a fresh value.
fn contains_witness_call(e: &ExprIR) -> (r: bool)
    ensures
        r == draws_witness(e@),
{
    let mut all: Vec<&ExprIR> = Vec::new();
    for_each_expr(e, &mut all);
    assert(refs_view(all@) =~= nodes(e@));
    let mut i: usize = 0;
    while i < all.len()
        invariant
            i <= all@.len(),
            refs_view(all@) == nodes(e@),
            forall|j: int| 0 <= j < i ==> !((#[trigger] nodes(e@)[j]) is WitnessCall),
        decreases all@.len() - i,
    {
        assert(nodes(e@)[i as int] == expr_view(*all@[i as int]));
        match all[i] {
            ExprIR::WitnessCall { .. } => {
                return true;
            }
            _ => {}
        }
        i += 1;
    }
    false
}

// ---- match arms

fn can_name_variant(p: &Path) -> (r: bool)
    ensures
        r == names_variant(*p),
{
    p.segments.len() >= 2 || (p.segments.len() == 1 && (same(p.segments[0].name.as_str(), "Some") || same(
        p.segments[0].name.as_str(),
        "None",
    )))
}

fn find_arm_enum(a: &Arm) -> (r: Option<&str>)
    ensures
        str_opt(r) == arm_enum(*a),
{
    match &a.pat.kind {
        PatKind::Path(path) => if can_name_variant(path) && path.segments.len() >= 2 {
            Some(path.segments[path.segments.len() - 2].name.as_str())
        } else {
            None
        },
        PatKind::TupleStruct { path, elems } => if can_name_variant(path) && elems.len() == 1 && path.segments.len() >= 2 {
            Some(path.segments[path.segments.len() - 2].name.as_str())
        } else {
            None
        },
        _ => None,
    }
}

pub(crate) fn declares_variant(vs: &Vec<UserEnumVariant>, name: &str) -> (r: bool)
    ensures
        r == has_variant(vs.deep_view(), name@),
{
    let ghost v = vs.deep_view();
    let mut i: usize = 0;
    while i < vs.len()
        invariant
            i <= vs@.len(),
            v == vs.deep_view(),
            v.len() == vs@.len(),
            forall|j: int| 0 <= j < i ==> (#[trigger] v[j]).name != name@,
        decreases vs@.len() - i,
    {
        assert(v[i as int] == vs@[i as int].deep_view());
        if same(vs[i].name.as_str(), name) {
            return true;
        }
        i += 1;
    }
    false
}

proof fn lemma_named_enum(cx: DeclV, arms: Seq<Arm>, name: Seq<char>, a: nat, b: nat)
    requires
        a <= b <= arms.len(),
        named_enum_with(cx, arms, name, a) is Some,
    ensures
        named_enum_with(cx, arms, name, b) == named_enum_with(cx, arms, name, a),
    decreases b,
{
    if a < b {
        lemma_named_enum(cx, arms, name, a, (b - 1) as nat);
    }
}

/// The enum, among those the arms name, that has a variant `name`.
fn find_hidden_variant<'e>(cx: &ContractCtx, arms: &'e Vec<Arm>, name: &str) -> (r: Option<&'e str>)
    ensures
        str_opt(r) == named_enum_with(cx@, arms@, name@, arms@.len()),
{
    let mut i: usize = 0;
    while i < arms.len()
        invariant
            i <= arms@.len(),
            named_enum_with(cx@, arms@, name@, i as nat) is None,
        decreases arms@.len() - i,
    {
        match find_arm_enum(&arms[i]) {
            Some(e) => match find_enum(cx.user_enums, e) {
                Some(vs) => if declares_variant(vs, name) {
                    proof {
                        lemma_named_enum(cx@, arms@, name@, (i + 1) as nat, arms@.len());
                    }
                    return Some(e);
                },
                None => {}
            },
            None => {}
        }
        i += 1;
    }
    None
}

/// What an arm of an enum match matches.
pub(crate) enum ArmPattern<'e> {
    Variant { path: &'e Path, payload: Option<&'e Ident> },
    Wild,
}

pub(crate) open spec fn pattern_view(p: ArmPattern) -> Shape {
    match p {
        ArmPattern::Variant { path, payload } => Shape::Variant { path: *path, payload: ident_opt(payload) },
        ArmPattern::Wild => Shape::Wild,
    }
}

pub(crate) enum Classified<'e> {
    NotEnum,
    Refused(MidnightError),
    Is(ArmPattern<'e>),
}

pub(crate) open spec fn classified_view(c: Classified) -> ArmShape {
    match c {
        Classified::NotEnum => ArmShape::NotEnum,
        Classified::Refused(e) => ArmShape::Refused(e@),
        Classified::Is(p) => ArmShape::Is(pattern_view(p)),
    }
}

fn classify_arm<'e>(cx: &ContractCtx, arms: &'e Vec<Arm>, arm: &'e Arm) -> (r: Classified<'e>)
    ensures
        classified_view(r) == arm_shape(cx@, arms@, *arm),
{
    if arm.has_guard {
        return Classified::NotEnum;
    }
    match &arm.pat.kind {
        PatKind::Path(path) => if can_name_variant(path) {
            Classified::Is(ArmPattern::Variant { path, payload: None })
        } else {
            Classified::NotEnum
        },
        PatKind::TupleStruct { path, elems } => if can_name_variant(path) && elems.len() == 1 {
            match &elems[0].kind {
                PatKind::Wild => Classified::Is(ArmPattern::Variant { path, payload: None }),
                PatKind::Ident { ident, by_ref, subpat } => if *subpat || *by_ref {
                    Classified::NotEnum
                } else {
                    Classified::Is(ArmPattern::Variant { path, payload: Some(ident) })
                },
                _ => Classified::NotEnum,
            }
        } else {
            Classified::NotEnum
        },
        PatKind::Wild => Classified::Is(ArmPattern::Wild),
        PatKind::Ident { ident, subpat, .. } => if *subpat {
            Classified::NotEnum
        } else {
            let name = ident.name.as_str();
            if same(name, "Some") || same(name, "None") {
                return Classified::Is(ArmPattern::Wild);
            }
            match find_hidden_variant(cx, arms, name) {
                Some(e) => {
                    let head = cat7(
                        "match arm pattern `",
                        name,
                        "` is a bare identifier and would lower to a catch-all, but `",
                        e,
                        "::",
                        name,
                        "` is an enum variant; qualify it as `",
                    );
                    let tail = cat3(e, "::", name);
                    let message = cat3(head.as_str(), tail.as_str(), "`");
                    proof {
                        assert(message@ =~= "match arm pattern `"@ + name@
                            + "` is a bare identifier and would lower to a catch-all, but `"@ + e@ + "::"@ + name@
                            + "` is an enum variant; qualify it as `"@ + e@ + "::"@ + name@ + "`"@);
                    }
                    Classified::Refused(refused(ident.span, message))
                }
                None => Classified::Is(ArmPattern::Wild),
            }
        },
        _ => Classified::NotEnum,
    }
}

pub(crate) open spec fn patterns_view(s: Seq<ArmPattern>) -> Seq<Shape> {
    Seq::new(s.len(), |i: int| pattern_view(s[i]))
}

pub(crate) enum ClassifiedAll<'e> {
    NotEnum,
    Refused(MidnightError),
    All(Vec<ArmPattern<'e>>),
}

pub(crate) open spec fn all_view(c: ClassifiedAll) -> Shapes {
    match c {
        ClassifiedAll::NotEnum => Shapes::NotEnum,
        ClassifiedAll::Refused(e) => Shapes::Refused(e@),
        ClassifiedAll::All(p) => Shapes::All(patterns_view(p@)),
    }
}

proof fn lemma_shapes_stop(cx: DeclV, arms: Seq<Arm>, a: nat, b: nat)
    requires
        a <= b <= arms.len(),
        !(shapes(cx, arms, a) is All),
    ensures
        shapes(cx, arms, b) == shapes(cx, arms, a),
    decreases b,
{
    if a < b {
        lemma_shapes_stop(cx, arms, a, (b - 1) as nat);
    }
}

pub(crate) fn classify_arms<'e>(cx: &ContractCtx, arms: &'e Vec<Arm>) -> (r: ClassifiedAll<'e>)
    ensures
        all_view(r) == arm_shapes(cx@, arms@),
        r matches ClassifiedAll::All(p) ==> p@.len() == arms@.len(),
{
    proof {
        reveal(arm_shapes);
    }
    if arms.len() == 0 {
        return ClassifiedAll::NotEnum;
    }
    let mut out: Vec<ArmPattern<'e>> = Vec::new();
    let mut i: usize = 0;
    assert(patterns_view(out@) =~= seq![]);
    while i < arms.len()
        invariant
            i <= arms@.len(),
            out@.len() == i,
            arm_shapes(cx@, arms@) == shapes(cx@, arms@, arms@.len()),
            shapes(cx@, arms@, i as nat) == Shapes::All(patterns_view(out@)),
        decreases arms@.len() - i,
    {
        match classify_arm(cx, arms, &arms[i]) {
            Classified::NotEnum => {
                proof {
                    lemma_shapes_stop(cx@, arms@, (i + 1) as nat, arms@.len());
                }
                return ClassifiedAll::NotEnum;
            }
            Classified::Refused(e) => {
                proof {
                    lemma_shapes_stop(cx@, arms@, (i + 1) as nat, arms@.len());
                }
                return ClassifiedAll::Refused(e);
            }
            Classified::Is(p) => {
                let ghost before = out@;
                out.push(p);
                assert(patterns_view(out@) =~= patterns_view(before).push(pattern_view(p)));
            }
        }
        i += 1;
    }
    ClassifiedAll::All(out)
}

proof fn lemma_first_wild(ss: Seq<Shape>, a: nat, b: nat)
    requires
        a <= b <= ss.len(),
        first_wild(ss, a) is Some,
    ensures
        first_wild(ss, b) == first_wild(ss, a),
    decreases b,
{
    if a < b {
        lemma_first_wild(ss, a, (b - 1) as nat);
    }
}

/// The position of the first catch-all arm.
pub(crate) fn find_wild(ss: &Vec<ArmPattern>) -> (r: Option<usize>)
    ensures
        match r {
            Some(i) => i < ss@.len() && first_wild(patterns_view(ss@), ss@.len()) == Some(i as int),
            None => first_wild(patterns_view(ss@), ss@.len()) is None,
        },
{
    let ghost v = patterns_view(ss@);
    let mut i: usize = 0;
    while i < ss.len()
        invariant
            i <= ss@.len(),
            v == patterns_view(ss@),
            v.len() == ss@.len(),
            first_wild(v, i as nat) is None,
        decreases ss@.len() - i,
    {
        assert(v[i as int] == pattern_view(ss@[i as int]));
        match &ss[i] {
            ArmPattern::Wild => {
                proof {
                    lemma_first_wild(v, (i + 1) as nat, v.len());
                }
                return Some(i);
            }
            _ => {}
        }
        i += 1;
    }
    None
}

pub(crate) fn has_variant_arm(ss: &Vec<ArmPattern>) -> (r: bool)
    ensures
        r == any_variant(patterns_view(ss@)),
{
    let ghost v = patterns_view(ss@);
    let mut i: usize = 0;
    while i < ss.len()
        invariant
            i <= ss@.len(),
            v == patterns_view(ss@),
            v.len() == ss@.len(),
            forall|j: int| 0 <= j < i ==> !((#[trigger] v[j]) is Variant),
        decreases ss@.len() - i,
    {
        assert(v[i as int] == pattern_view(ss@[i as int]));
        match &ss[i] {
            ArmPattern::Variant { .. } => {
                return true;
            }
            _ => {}
        }
        i += 1;
    }
    false
}

// ---- one node over what its parts parsed to

pub(crate) fn make_literal(span: Span, lit: &Lit) -> (r: ExprIR)
    ensures
        r@ == literal_expr(span, *lit),
{
    proof {
        reveal(literal_expr);
    }
    match LiteralIR::from_lit(lit) {
        Some(value) => ExprIR::Literal { span, value },
        None => unsupported(span, "unsupported literal type"),
    }
}

pub(crate) fn make_path(sc: &Scope, p: &Path) -> (r: ExprIR)
    ensures
        r@ == path_expr(sc@, *p),
{
    proof {
        reveal(path_expr);
    }
    match path_ident(p) {
        Some(i) => match sc.value_of(i.name.as_str()) {
            Some(v) => ExprIR::Literal { span: Span::call_site(), value: LiteralIR::Int(v as u128) },
            None => ExprIR::Var { span: i.span, name: i.name.clone() },
        },
        None => ExprIR::Path { span: p.span, path: p.clone() },
    }
}

pub(crate) fn make_compound_error(span: Span) -> (r: MidnightError)
    ensures
        r@ == compound_error(span),
{
    proof {
        reveal(compound_error);
    }
    refused(
        span,
        txt(
            "compound assignment operators are not supported in circuits; rebind with `let x = x + y;` or use ledger methods like `increment_by`",
        ),
    )
}

pub(crate) fn make_binary(
    span: Span,
    op: BinOp,
    lhs: ExprIR,
    r: Result<ExprIR, MidnightError>,
) -> (o: Result<ExprIR, MidnightError>)
    ensures
        expr_res(o) == binary(span, op, lhs@, expr_res(r)),
{
    proof {
        reveal(binary);
    }
    match r {
        Err(x) => Err(x),
        Ok(v) => {
            Ok(ExprIR::BinaryOp { span, op, lhs: Box::new(lhs), rhs: Box::new(v) })
        }
    }
}

pub(crate) fn make_unary(span: Span, op: UnOp, r: Result<ExprIR, MidnightError>) -> (o: Result<ExprIR, MidnightError>)
    ensures
        expr_res(o) == unary(span, op, expr_res(r)),
{
    proof {
        reveal(unary);
    }
    match r {
        Err(x) => Err(x),
        Ok(v) => {
            Ok(ExprIR::UnaryOp { span, op, expr: Box::new(v) })
        }
    }
}

/// A call whose receiver makes it a ledger operation or a witness draw;
/// hands the arguments back otherwise.
pub(crate) fn make_direct_call(sc: &Scope, receiver: &Expr, method: &Ident, args: Vec<ExprIR>) -> (r: Result<
    ExprIR,
    Vec<ExprIR>,
>)
    ensures
        match r {
            Ok(e) => direct_call(sc@, *receiver, *method, exprs_view(args@)) == Some(e@),
            Err(a) => direct_call(sc@, *receiver, *method, exprs_view(args@)) is None && exprs_view(a@) == exprs_view(
                args@,
            ),
        },
{
    proof {
        reveal(direct_call);
    }
    match find_self_field(sc, receiver) {
        Some(field) => {
            return Ok(
                ExprIR::LedgerAccess {
                    span: method.span,
                    field: field.name.clone(),
                    method: method.name.clone(),
                    args,
                },
            );
        }
        None => {}
    }
    if is_witnesses_receiver(sc, receiver) {
        return Ok(ExprIR::WitnessCall { span: method.span, name: method.name.clone(), args });
    }
    Err(args)
}

pub(crate) fn make_method_call(
    method: &Ident,
    args: Vec<ExprIR>,
    r: Result<ExprIR, MidnightError>,
) -> (o: Result<ExprIR, MidnightError>)
    ensures
        expr_res(o) == method_call(*method, exprs_view(args@), expr_res(r)),
{
    proof {
        reveal(method_call);
    }
    match r {
        Err(x) => Err(x),
        Ok(v) => {
            Ok(ExprIR::MethodCall { span: method.span, receiver: Box::new(v), method: method.name.clone(), args })
        }
    }
}

pub(crate) fn make_direct_field(sc: &Scope, base: &Expr, member: &Member) -> (r: Option<ExprIR>)
    ensures
        match r {
            Some(e) => direct_field(sc@, *base, *member) == Some(e@),
            None => direct_field(sc@, *base, *member) is None,
        },
{
    proof {
        reveal(direct_field);
    }
    match member {
        Member::Named(_) => {}
        _ => {
            return None;
        }
    }
    let name = member_ident(member);
    let span = span_of_member(member);
    if is_witnesses_receiver(sc, base) {
        return Some(ExprIR::WitnessAccess { span, field: name });
    }
    if is_self_expr(sc, base) {
        let args: Vec<ExprIR> = Vec::new();
        assert(exprs_view(args@) =~= seq![]);
        return Some(ExprIR::LedgerAccess { span, field: name, method: txt("__direct_access"), args });
    }
    None
}

pub(crate) fn make_field_access(
    member: &Member,
    r: Result<ExprIR, MidnightError>,
) -> (o: Result<ExprIR, MidnightError>)
    ensures
        expr_res(o) == field_access(*member, expr_res(r)),
{
    proof {
        reveal(field_access);
    }
    match r {
        Err(x) => Err(x),
        Ok(v) => {
            let args: Vec<ExprIR> = Vec::new();
            assert(exprs_view(args@) =~= seq![]);
            Ok(
                ExprIR::MethodCall {
                    span: span_of_member(member),
                    receiver: Box::new(v),
                    method: member_ident(member),
                    args,
                },
            )
        }
    }
}

pub(crate) fn make_called(sc: &Scope, span: Span, func: &Expr, r: Result<Vec<ExprIR>, MidnightError>) -> (o: Result<
    ExprIR,
    MidnightError,
>)
    ensures
        expr_res(o) == called(sc@, span, *func, exprs_res(r)),
{
    proof {
        reveal(called);
    }
    let mut args = match r {
        Ok(a) => a,
        Err(x) => {
            return Err(x);
        }
    };
    let gone = replaced_by(sc, func).is_some();
    match &func.kind {
        ExprKind::Path(path) => {
            if gone {
                return Ok(unsupported(span, "complex function call expression"));
            }
            let (at, name) = match last_ident(path) {
                Some(i) => (i.span, i.name.clone()),
                None => (Span::call_site(), txt("unknown")),
            };
            let full = strip_spaces(path.text.as_str());
            if same(full.as_str(), "disclose") || same(full.as_str(), "nocturne::disclose") {
                let count: usize = args.len();
                if count != 1 {
                    return Err(
                        refused(
                            at,
                            cat2("disclose() takes exactly one argument, got ", number(count as u128).as_str()),
                        ),
                    );
                }
                assert(exprs_view(args@)[0] == expr_view(args@[0]));
                let value = args.remove(0);
                return Ok(ExprIR::Disclose { span: at, value: Box::new(value) });
            }
            Ok(ExprIR::FnCall { span: at, name, path: path.clone(), args })
        }
        _ => Ok(unsupported(span, "complex function call expression")),
    }
}

pub open spec fn opt_exprs(o: Option<Vec<ExprIR>>) -> Option<Seq<ExprV>> {
    match o {
        Some(v) => Some(exprs_view(v@)),
        None => None,
    }
}

pub open spec fn opt_exprs_res(r: Result<Option<Vec<ExprIR>>, MidnightError>) -> Result<Option<Seq<ExprV>>, ErrorV> {
    match r {
        Ok(o) => Ok(opt_exprs(o)),
        Err(e) => Err(e@),
    }
}

pub(crate) fn make_branch(
    span: Span,
    cond: ExprIR,
    body: Vec<ExprIR>,
    r: Result<Option<Vec<ExprIR>>, MidnightError>,
) -> (o: Result<ExprIR, MidnightError>)
    ensures
        expr_res(o) == branch(span, cond@, exprs_view(body@), opt_exprs_res(r)),
{
    proof {
        reveal(branch);
    }
    match r {
        Err(x) => Err(x),
        Ok(else_branch) => Ok(ExprIR::If { span, cond: Box::new(cond), then_branch: body, else_branch }),
    }
}

/// The `if` over a map key's presence that a `get` stands for.
fn lower_get(
    span: Span,
    access_span: Span,
    v: &Ident,
    field: &Ident,
    key: ExprIR,
    body: Vec<ExprIR>,
    else_branch: Option<Vec<ExprIR>>,
) -> (r: ExprIR)
    ensures
        r@ == get_if(span, access_span, *v, *field, key@, exprs_view(body@), opt_exprs(else_branch)),
{
    proof {
        reveal(get_if);
    }
    let mut body = body;
    let ghost tail = exprs_view(body@);
    let mut first: Vec<ExprIR> = Vec::new();
    first.push(key.clone());
    assert(exprs_view(first@) =~= seq![key@]);
    let contains = ExprIR::LedgerAccess {
        span: access_span,
        field: field.name.clone(),
        method: txt("contains"),
        args: first,
    };
    let mut second: Vec<ExprIR> = Vec::new();
    second.push(key);
    assert(exprs_view(second@) =~= seq![key@]);
    let lookup = ExprIR::LedgerAccess {
        span: access_span,
        field: field.name.clone(),
        method: txt("lookup"),
        args: second,
    };
    let binding = ExprIR::Let { span: v.span, name: v.name.clone(), value: Box::new(lookup) };
    body.insert(0, binding);
    proof {
        assert(exprs_view(body@) =~= seq![binding@] + tail) by {
            assert(body@[0] == binding);
        }
    }
    proof {
        assert(contains@ == get_access(access_span, *field, "contains"@, key@));
        assert(lookup@ == get_access(access_span, *field, "lookup"@, key@));
        assert(binding@ is Let);
    }
    ExprIR::If { span, cond: Box::new(contains), then_branch: body, else_branch }
}

pub(crate) fn make_get_branch(
    span: Span,
    access_span: Span,
    v: &Ident,
    field: &Ident,
    key: ExprIR,
    body: Vec<ExprIR>,
    r: Result<Option<Vec<ExprIR>>, MidnightError>,
) -> (o: Result<ExprIR, MidnightError>)
    ensures
        expr_res(o) == get_branch(span, access_span, *v, *field, key@, exprs_view(body@), opt_exprs_res(r)),
{
    proof {
        reveal(get_branch);
    }
    match r {
        Err(x) => Err(x),
        Ok(else_branch) => Ok(lower_get(span, access_span, v, field, key, body, else_branch)),
    }
}

pub(crate) fn make_block(span: Span, r: Result<Vec<ExprIR>, MidnightError>) -> (o: Result<ExprIR, MidnightError>)
    ensures
        expr_res(o) == block(span, exprs_res(r)),
{
    proof {
        reveal(block);
    }
    match r {
        Err(x) => Err(x),
        Ok(v) => Ok(ExprIR::Block { span, stmts: v }),
    }
}

pub(crate) fn make_tuple(span: Span, r: Result<Vec<ExprIR>, MidnightError>) -> (o: Result<ExprIR, MidnightError>)
    ensures
        expr_res(o) == tuple(span, exprs_res(r)),
{
    proof {
        reveal(tuple);
    }
    match r {
        Err(x) => Err(x),
        Ok(v) => Ok(ExprIR::Tuple { span, elements: v }),
    }
}

pub(crate) fn make_array(span: Span, r: Result<Vec<ExprIR>, MidnightError>) -> (o: Result<ExprIR, MidnightError>)
    ensures
        expr_res(o) == array(span, exprs_res(r)),
{
    proof {
        reveal(array);
    }
    match r {
        Err(x) => Err(x),
        Ok(v) => Ok(ExprIR::ArrayLit { span, elements: v }),
    }
}

pub open spec fn fields_res(
    r: Result<Vec<(String, ExprIR)>, MidnightError>,
) -> Result<Seq<(Seq<char>, ExprV)>, ErrorV> {
    match r {
        Ok(fs) => Ok(fields_view(fs@)),
        Err(e) => Err(e@),
    }
}

pub(crate) fn make_struct_init(
    span: Span,
    path: &Path,
    r: Result<Vec<(String, ExprIR)>, MidnightError>,
) -> (o: Result<
    ExprIR,
    MidnightError,
>)
    ensures
        expr_res(o) == struct_init(span, *path, fields_res(r)),
{
    proof {
        reveal(struct_init);
    }
    match r {
        Err(x) => Err(x),
        Ok(fields) => {
            let name = match last_ident(path) {
                Some(i) => i.name.clone(),
                None => txt("Unknown"),
            };
            Ok(ExprIR::StructInit { span, name, fields })
        }
    }
}

pub(crate) fn make_return(span: Span, r: Result<ExprIR, MidnightError>) -> (o: Result<ExprIR, MidnightError>)
    ensures
        expr_res(o) == returned(span, expr_res(r)),
{
    proof {
        reveal(returned);
    }
    match r {
        Err(x) => Err(x),
        Ok(v) => {
            Ok(ExprIR::Return { span, value: Some(Box::new(v)) })
        }
    }
}

pub(crate) fn make_reference(span: Span, r: Result<ExprIR, MidnightError>) -> (o: Result<ExprIR, MidnightError>)
    ensures
        expr_res(o) == reference(span, expr_res(r)),
{
    proof {
        reveal(reference);
    }
    match r {
        Err(x) => Err(x),
        Ok(v) => {
            Ok(ExprIR::Reference { span, expr: Box::new(v) })
        }
    }
}

pub(crate) fn make_element(
    sc: &Scope,
    span: Span,
    index: &Expr,
    r: Result<ExprIR, MidnightError>,
) -> (o: Result<ExprIR, MidnightError>)
    ensures
        expr_res(o) == element(sc@, span, *index, expr_res(r)),
{
    proof {
        reveal(element);
    }
    match r {
        Err(x) => Err(x),
        Ok(v) => {
            match fit_u32(parse_int_literal(sc, index)) {
                Some(i) => Ok(ExprIR::Index { span, array: Box::new(v), index: i }),
                None => {
                    let shown = render(sc, &index.text);
                    let description = cat3(
                        "array index must be a compile-time integer literal (got `",
                        shown.as_str(),
                        "`); use a `for i in 0..N` loop so the index unrolls to a literal",
                    );
                    Ok(unsupported(expr_span(sc, index), description.as_str()))
                }
            }
        }
    }
}

pub(crate) fn make_loop(span: Span) -> (r: ExprIR)
    ensures
        r@ == loop_expr(span),
{
    proof {
        reveal(loop_expr);
    }
    unsupported(span, "while/loop not supported in circuits (use for with const bounds)")
}

pub(crate) fn make_other(sc: &Scope, e: &Expr) -> (r: ExprIR)
    ensures
        r@ == other_expr(sc@, *e),
{
    proof {
        reveal(other_expr);
    }
    let shown = render(sc, &e.text);
    let description = cat2("unsupported expression: ", shown.as_str());
    unsupported(e.span, description.as_str())
}

pub(crate) fn make_no_match(span: Span) -> (r: ExprIR)
    ensures
        r@ == no_match(span),
{
    proof {
        reveal(no_match);
    }
    unsupported(
        span,
        "unsupported match shape (only `match self.<map>.get(&k) { Some(v) => ..., None => ... }`, unit-variant enums, and homogeneous-payload enums / Option<T> are supported)",
    )
}

pub(crate) fn make_binding(name: &Ident, r: Result<ExprIR, MidnightError>) -> (o: Result<ExprIR, MidnightError>)
    ensures
        expr_res(o) == binding(*name, expr_res(r)),
{
    proof {
        reveal(binding);
    }
    match r {
        Err(x) => Err(x),
        Ok(v) => {
            Ok(ExprIR::Let { span: name.span, name: name.name.clone(), value: Box::new(v) })
        }
    }
}

pub(crate) fn make_uninitialized(name: &Ident) -> (r: ExprIR)
    ensures
        r@ == uninitialized(*name),
{
    proof {
        reveal(uninitialized);
    }
    let nothing = unsupported(name.span, "let binding without initializer");
    ExprIR::Let { span: name.span, name: name.name.clone(), value: Box::new(nothing) }
}

/// One link of an enum match's chain of conditions.
pub(crate) fn variant_if(
    match_span: Span,
    path: &Path,
    payload: Option<&Ident>,
    scrutinee: &ExprIR,
    body: Vec<ExprIR>,
    otherwise: Option<Vec<ExprIR>>,
) -> (r: ExprIR)
    ensures
        r@ == variant_link(
            match_span,
            *path,
            ident_opt(payload),
            scrutinee@,
            exprs_view(body@),
            opt_exprs(otherwise),
        ),
{
    proof {
        reveal(variant_link);
    }
    let mut body = body;
    let ghost tail = exprs_view(body@);
    match payload {
        Some(b) => {
            let n: usize = path.segments.len();
            let enum_name = if n >= 2 {
                path.segments[n - 2].name.clone()
            } else {
                txt("Option")
            };
            let value = ExprIR::EnumPayload { span: b.span, scrutinee: Box::new(scrutinee.clone()), enum_name };
            let binding = ExprIR::Let { span: b.span, name: b.name.clone(), value: Box::new(value) };
            body.insert(0, binding);
            proof {
                assert(value@ is EnumPayload);
                assert(binding@ is Let);
                assert(exprs_view(body@) =~= seq![binding@] + tail) by {
                    assert(body@[0] == binding);
                }
            }
        }
        None => {
            assert(exprs_view(body@) =~= Seq::<ExprV>::empty() + tail);
        }
    }
    let rhs = ExprIR::Path { span: path.span, path: path.clone() };
    let cond = ExprIR::BinaryOp {
        span: path.span,
        op: BinOp::Eq,
        lhs: Box::new(scrutinee.clone()),
        rhs: Box::new(rhs),
    };
    assert(rhs@ is Path);
    assert(cond@ is BinaryOp);
    ExprIR::If { span: match_span, cond: Box::new(cond), then_branch: body, else_branch: otherwise }
}

/// The binding of a scrutinee that draws a witness value, and the name that
/// stands for it; hands any other scrutinee back.
pub(crate) fn draw_once(scrutinee: ExprIR, span: Span, n: u32) -> (r: Result<(ExprIR, ExprIR), ExprIR>)
    ensures
        match r {
            Ok((draw, var)) => drawn_once(scrutinee@, span, n) == Some((draw@, var@)),
            Err(e) => drawn_once(scrutinee@, span, n) is None && e@ == scrutinee@,
        },
{
    if contains_witness_call(&scrutinee) {
        let num = number(n as u128);
        let fresh = cat2("__nocturne_scrutinee_", num.as_str());
        let draw = ExprIR::Let { span, name: fresh.clone(), value: Box::new(scrutinee) };
        let var = ExprIR::Var { span, name: fresh };
        assert(draw@ is Let);
        assert(var@ is Var);
        Ok((draw, var))
    } else {
        Err(scrutinee)
    }
}

pub(crate) fn make_match(
    span: Span,
    draw: Option<ExprIR>,
    var: Ghost<ExprV>,
    chain: Option<Vec<ExprIR>>,
) -> (r: ExprIR)
    ensures
        r@ == match_expr(
            span,
            match draw {
                Some(d) => Some((d@, var@)),
                None => None,
            },
            opt_exprs(chain),
        ),
{
    proof {
        reveal(match_expr);
    }
    match chain {
        Some(links) => {
            let mut links = links;
            let ghost all = links@;
            assert(exprs_view(all).len() == all.len());
            match links.pop() {
                Some(last) => {
                    assert(exprs_view(all)[all.len() - 1] == expr_view(last));
                    match draw {
                        Some(d) => {
                            let mut stmts: Vec<ExprIR> = Vec::new();
                            stmts.push(d);
                            stmts.push(last);
                            assert(exprs_view(stmts@) =~= seq![d@, last@]);
                            ExprIR::Block { span, stmts }
                        }
                        None => last,
                    }
                }
                None => make_no_match(span),
            }
        }
        None => make_no_match(span),
    }
}

fn names_macro(path: &str, name: &str) -> (r: bool)
    ensures
        r == is_macro(path@, name@),
{
    let suffix = cat2("::", name);
    same(path, name) || strip_suffix(path, suffix.as_str()).is_some()
}

pub(crate) enum MacroClaim<'e> {
    One(&'e Expr),
    Two(&'e Expr, &'e Expr),
    Refused(MidnightError),
    Nothing(ExprIR),
}

pub(crate) open spec fn claim_view(c: MacroClaim) -> Claim {
    match c {
        MacroClaim::One(e) => Claim::One(*e),
        MacroClaim::Two(a, b) => Claim::Two(*a, *b),
        MacroClaim::Refused(x) => Claim::Refused(x@),
        MacroClaim::Nothing(e) => Claim::Nothing(e@),
    }
}

/// What a macro call asks to be asserted.
pub(crate) fn read_claim(m: &MacroCall) -> (r: MacroClaim<'_>)
    ensures
        claim_view(r) == claim(*m),
{
    proof {
        reveal(claim);
    }
    let path = strip_spaces(m.path.text.as_str());
    let span = m.path.span;
    if names_macro(path.as_str(), "assert") {
        match &m.args {
            Err(why) => MacroClaim::Refused(refused(span, cat2("failed to parse assert arguments: ", why.as_str()))),
            Ok(args) => {
                if args.len() == 0 {
                    return MacroClaim::Refused(refused(span, txt("assert! requires a condition argument")));
                }
                MacroClaim::One(&args[0])
            }
        }
    } else if names_macro(path.as_str(), "assert_eq") {
        match &m.args {
            Err(why) => MacroClaim::Refused(refused(span, cat2("failed to parse assert_eq arguments: ", why.as_str()))),
            Ok(args) => {
                if args.len() < 2 {
                    return MacroClaim::Refused(refused(span, txt("assert_eq! requires two arguments")));
                }
                MacroClaim::Two(&args[0], &args[1])
            }
        }
    } else {
        let description = cat2("unsupported macro: ", path.as_str());
        MacroClaim::Nothing(unsupported(span, description.as_str()))
    }
}

pub(crate) fn make_assert(span: Span, r: Result<ExprIR, MidnightError>) -> (o: Result<ExprIR, MidnightError>)
    ensures
        expr_res(o) == asserted(span, expr_res(r)),
{
    proof {
        reveal(asserted);
    }
    match r {
        Err(x) => Err(x),
        Ok(v) => {
            let kind = AssertKind::Assert(Box::new(v));
            assert(assert_view(kind) is Assert);
            Ok(ExprIR::Assert { span, kind })
        }
    }
}

pub(crate) fn make_assert_eq(
    span: Span,
    a: ExprIR,
    r: Result<ExprIR, MidnightError>,
) -> (o: Result<ExprIR, MidnightError>)
    ensures
        expr_res(o) == asserted_equal(span, a@, expr_res(r)),
{
    proof {
        reveal(asserted_equal);
    }
    match r {
        Err(x) => Err(x),
        Ok(v) => {
            let kind = AssertKind::AssertEq(Box::new(a), Box::new(v));
            assert(assert_view(kind) is AssertEq);
            Ok(ExprIR::Assert { span, kind })
        }
    }
}

/// The name that a `let` statement binds.
pub(crate) fn let_binding(p: &Pat) -> (r: Result<&Ident, Span>)
    ensures
        match r {
            Ok(i) => let_name(*p) == Ok::<Ident, Span>(*i),
            Err(s) => let_name(*p) == Err::<Ident, Span>(s),
        },
{
    match &p.kind {
        PatKind::Ident { ident, .. } => Ok(ident),
        PatKind::Typed(inner) => match &inner.kind {
            PatKind::Ident { ident, .. } => Ok(ident),
            _ => Err(inner.span),
        },
        _ => Err(p.span),
    }
}

// ---- loops

pub(crate) enum LoopBounds<'e> {
    Shapeless(Span, String),
    Refused(MidnightError),
    Empty,
    Values(&'e str, u64, u64),
}

pub(crate) open spec fn bounds_view(b: LoopBounds) -> Bounds {
    match b {
        LoopBounds::Shapeless(s, d) => Bounds::Shapeless(s, d@),
        LoopBounds::Refused(e) => Bounds::Refused(e@),
        LoopBounds::Empty => Bounds::Empty,
        LoopBounds::Values(x, a, b) => Bounds::Values(x@, a, b),
    }
}

/// The values that a `for` loop takes.
pub(crate) fn loop_bounds<'e>(sc: &Scope, for_span: Span, pat: &'e Pat, e: &Expr) -> (r: LoopBounds<'e>)
    ensures
        bounds_view(r) == bounds(sc@, for_span, *pat, *e),
        r matches LoopBounds::Values(_, a, b) ==> a <= b && b - a < MAX_UNROLL,
{
    proof {
        reveal(bounds);
    }
    let name = match &pat.kind {
        PatKind::Ident { ident, .. } => ident.name.as_str(),
        _ => {
            return LoopBounds::Shapeless(pat.span, txt("for-loop pattern must be a single identifier"));
        }
    };
    match &e.kind {
        ExprKind::Range { start, end, closed } => {
            let a = match start {
                Some(a) => a,
                None => {
                    return LoopBounds::Shapeless(e.span, txt("for-loop range must have an explicit lower bound"));
                }
            };
            let b = match end {
                Some(b) => b,
                None => {
                    return LoopBounds::Shapeless(e.span, txt("for-loop range must have an explicit upper bound"));
                }
            };
            let first: u64 = match fit_u64(parse_int_literal(sc, a)) {
                Some(v) => v,
                None => {
                    return LoopBounds::Refused(
                        refused(expr_span(sc, a), txt("for-loop lower bound must be an integer literal")),
                    );
                }
            };
            let stop: u64 = match fit_u64(parse_int_literal(sc, b)) {
                Some(v) => v,
                None => {
                    return LoopBounds::Refused(
                        refused(expr_span(sc, b), txt("for-loop upper bound must be an integer literal")),
                    );
                }
            };
            if (*closed && stop < first) || (!*closed && stop <= first) {
                return LoopBounds::Empty;
            }
            let last: u64 = if *closed { stop } else { stop - 1 };
            let count: u64 = (last - first).saturating_add(1);
            if count > MAX_UNROLL {
                return LoopBounds::Refused(
                    MidnightError::new(
                        for_span,
                        ErrorCode::UnsupportedLoop,
                        cat3(
                            "for-loop unrolls to ",
                            number(count as u128).as_str(),
                            " iterations, exceeding the 1024-iteration cap; restructure the circuit to do less work per proof",
                        ),
                    ),
                );
            }
            LoopBounds::Values(name, first, last)
        }
        _ => LoopBounds::Shapeless(
            expr_span(sc, e),
            txt("for-loop iterator must be a literal `<lit>..<lit>` range"),
        ),
    }
}


} // verus!
