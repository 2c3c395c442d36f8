//! The contract IR.
use crate::expr::{exprs_view, ExprIR, ExprV};
use crate::syntax::{text_opt, ty_opt, ty_view, Span, Ty, TyV};
use crate::text::{same, txt};
use vstd::prelude::*;

verus! {

/// Classification of ledger field types.
#[derive(Debug, Clone, PartialEq, Eq)]
pub enum LedgerTypeKind {
    Counter,
    Cell,
    LedgerMap,
    MerkleTree,
    Array,
    LedgerSet,
    /// Any other type, by name.
    Unknown(String),
}

pub enum LedgerKindV {
    Counter,
    Cell,
    LedgerMap,
    MerkleTree,
    Array,
    LedgerSet,
    Unknown(Seq<char>),
}

pub open spec fn kind_view(k: LedgerTypeKind) -> LedgerKindV {
    match k {
        LedgerTypeKind::Counter => LedgerKindV::Counter,
        LedgerTypeKind::Cell => LedgerKindV::Cell,
        LedgerTypeKind::LedgerMap => LedgerKindV::LedgerMap,
        LedgerTypeKind::MerkleTree => LedgerKindV::MerkleTree,
        LedgerTypeKind::Array => LedgerKindV::Array,
        LedgerTypeKind::LedgerSet => LedgerKindV::LedgerSet,
        LedgerTypeKind::Unknown(s) => LedgerKindV::Unknown(s@),
    }
}

/// The kind that a type name stands for.
pub open spec fn kind_of(name: Seq<char>) -> LedgerKindV {
    if name == "Counter"@ {
        LedgerKindV::Counter
    } else if name == "Cell"@ {
        LedgerKindV::Cell
    } else if name == "Map"@ {
        LedgerKindV::LedgerMap
    } else if name == "MerkleTree"@ {
        LedgerKindV::MerkleTree
    } else if name == "Array"@ {
        LedgerKindV::Array
    } else if name == "Set"@ {
        LedgerKindV::LedgerSet
    } else {
        LedgerKindV::Unknown(name)
    }
}

impl LedgerTypeKind {
    /// The kind that a type name stands for.
    pub fn from_type_name(name: &str) -> (r: Self)
        ensures
            kind_view(r) == kind_of(name@),
    {
        if same(name, "Counter") {
            LedgerTypeKind::Counter
        } else if same(name, "Cell") {
            LedgerTypeKind::Cell
        } else if same(name, "Map") {
            LedgerTypeKind::LedgerMap
        } else if same(name, "MerkleTree") {
            LedgerTypeKind::MerkleTree
        } else if same(name, "Array") {
            LedgerTypeKind::Array
        } else if same(name, "Set") {
            LedgerTypeKind::LedgerSet
        } else {
            LedgerTypeKind::Unknown(txt(name))
        }
    }
}

/// The deep view of an optional value.
pub open spec fn opt_deep<T: DeepView>(o: Option<T>) -> Option<T::V> {
    match o {
        Some(t) => Some(t.deep_view()),
        None => None,
    }
}

pub open spec fn structs_view(s: Seq<(String, Vec<UserStructField>)>) -> Seq<(Seq<char>, Seq<StructFieldV>)> {
    Seq::new(s.len(), |i: int| (s[i].0@, s[i].1.deep_view()))
}

pub open spec fn enums_view(s: Seq<(String, Vec<UserEnumVariant>)>) -> Seq<(Seq<char>, Seq<EnumVariantV>)> {
    Seq::new(s.len(), |i: int| (s[i].0@, s[i].1.deep_view()))
}

/// One field of a user-defined struct usable as a Map or Set key.
#[derive(Debug)]
pub struct UserStructField {
    pub name: String,
    pub ty: Ty,
}

pub struct StructFieldV {
    pub name: Seq<char>,
    pub ty: TyV,
}

impl DeepView for UserStructField {
    type V = StructFieldV;

    open spec fn deep_view(&self) -> StructFieldV {
        StructFieldV {
            name: self.name@,
            ty: ty_view(self.ty),
        }
    }
}

impl View for UserStructField {
    type V = StructFieldV;

    open spec fn view(&self) -> StructFieldV {
        self.deep_view()
    }
}

/// One variant of a user-defined enum. Its discriminant is its position in
/// declaration order; `payload` is the type of its single unnamed field.
#[derive(Debug)]
pub struct UserEnumVariant {
    pub name: String,
    pub payload: Option<Ty>,
}

pub struct EnumVariantV {
    pub name: Seq<char>,
    pub payload: Option<TyV>,
}

impl DeepView for UserEnumVariant {
    type V = EnumVariantV;

    open spec fn deep_view(&self) -> EnumVariantV {
        EnumVariantV {
            name: self.name@,
            payload: ty_opt(self.payload),
        }
    }
}

impl View for UserEnumVariant {
    type V = EnumVariantV;

    open spec fn view(&self) -> EnumVariantV {
        self.deep_view()
    }
}

/// A single field of the ledger struct. `exported` is false for fields marked
/// private.
#[derive(Debug)]
pub struct LedgerFieldIR {
    pub span: Span,
    pub name: String,
    pub ty: Ty,
    pub type_kind: LedgerTypeKind,
    pub exported: bool,
}

pub struct LedgerFieldV {
    pub span: Span,
    pub name: Seq<char>,
    pub ty: TyV,
    pub type_kind: LedgerKindV,
    pub exported: bool,
}

impl DeepView for LedgerFieldIR {
    type V = LedgerFieldV;

    open spec fn deep_view(&self) -> LedgerFieldV {
        LedgerFieldV {
            span: self.span,
            name: self.name@,
            ty: ty_view(self.ty),
            type_kind: kind_view(self.type_kind),
            exported: self.exported,
        }
    }
}

impl View for LedgerFieldIR {
    type V = LedgerFieldV;

    open spec fn view(&self) -> LedgerFieldV {
        self.deep_view()
    }
}

/// The ledger struct: public on-chain state.
#[derive(Debug)]
pub struct LedgerIR {
    pub span: Span,
    pub name: String,
    pub fields: Vec<LedgerFieldIR>,
}

pub struct LedgerV {
    pub span: Span,
    pub name: Seq<char>,
    pub fields: Seq<LedgerFieldV>,
}

impl DeepView for LedgerIR {
    type V = LedgerV;

    open spec fn deep_view(&self) -> LedgerV {
        LedgerV {
            span: self.span,
            name: self.name@,
            fields: self.fields.deep_view(),
        }
    }
}

impl View for LedgerIR {
    type V = LedgerV;

    open spec fn view(&self) -> LedgerV {
        self.deep_view()
    }
}

/// A function parameter.
#[derive(Debug)]
pub struct ParamIR {
    pub span: Span,
    pub name: String,
    pub ty: Ty,
}

pub struct ParamV {
    pub span: Span,
    pub name: Seq<char>,
    pub ty: TyV,
}

impl DeepView for ParamIR {
    type V = ParamV;

    open spec fn deep_view(&self) -> ParamV {
        ParamV {
            span: self.span,
            name: self.name@,
            ty: ty_view(self.ty),
        }
    }
}

impl View for ParamIR {
    type V = ParamV;

    open spec fn view(&self) -> ParamV {
        self.deep_view()
    }
}

/// A single field of the witnesses struct.
#[derive(Debug)]
pub struct WitnessFieldIR {
    pub span: Span,
    pub name: String,
    pub ty: Ty,
}

pub struct WitnessFieldV {
    pub span: Span,
    pub name: Seq<char>,
    pub ty: TyV,
}

impl DeepView for WitnessFieldIR {
    type V = WitnessFieldV;

    open spec fn deep_view(&self) -> WitnessFieldV {
        WitnessFieldV {
            span: self.span,
            name: self.name@,
            ty: ty_view(self.ty),
        }
    }
}

impl View for WitnessFieldIR {
    type V = WitnessFieldV;

    open spec fn view(&self) -> WitnessFieldV {
        self.deep_view()
    }
}

/// A parametric witness method. Only its signature is known here; the body
/// stays in user code.
#[derive(Debug)]
pub struct WitnessMethodIR {
    pub span: Span,
    pub name: String,
    pub params: Vec<ParamIR>,
    pub return_type: Ty,
}

pub struct WitnessMethodV {
    pub span: Span,
    pub name: Seq<char>,
    pub params: Seq<ParamV>,
    pub return_type: TyV,
}

impl DeepView for WitnessMethodIR {
    type V = WitnessMethodV;

    open spec fn deep_view(&self) -> WitnessMethodV {
        WitnessMethodV {
            span: self.span,
            name: self.name@,
            params: self.params.deep_view(),
            return_type: ty_view(self.return_type),
        }
    }
}

impl View for WitnessMethodIR {
    type V = WitnessMethodV;

    open spec fn view(&self) -> WitnessMethodV {
        self.deep_view()
    }
}

/// The witnesses struct: private off-chain state.
#[derive(Debug)]
pub struct WitnessIR {
    pub span: Span,
    pub name: String,
    pub fields: Vec<WitnessFieldIR>,
    pub methods: Vec<WitnessMethodIR>,
}

pub struct WitnessV {
    pub span: Span,
    pub name: Seq<char>,
    pub fields: Seq<WitnessFieldV>,
    pub methods: Seq<WitnessMethodV>,
}

impl DeepView for WitnessIR {
    type V = WitnessV;

    open spec fn deep_view(&self) -> WitnessV {
        WitnessV {
            span: self.span,
            name: self.name@,
            fields: self.fields.deep_view(),
            methods: self.methods.deep_view(),
        }
    }
}

impl View for WitnessIR {
    type V = WitnessV;

    open spec fn view(&self) -> WitnessV {
        self.deep_view()
    }
}

/// A free function of the contract module that is spliced into its call sites.
#[derive(Debug)]
pub struct HelperIR {
    pub span: Span,
    pub name: String,
    pub params: Vec<ParamIR>,
    pub return_type: Ty,
    pub body: Vec<ExprIR>,
}

pub struct HelperV {
    pub span: Span,
    pub name: Seq<char>,
    pub params: Seq<ParamV>,
    pub return_type: TyV,
    pub body: Seq<ExprV>,
}

impl DeepView for HelperIR {
    type V = HelperV;

    open spec fn deep_view(&self) -> HelperV {
        HelperV {
            span: self.span,
            name: self.name@,
            params: self.params.deep_view(),
            return_type: ty_view(self.return_type),
            body: exprs_view(self.body@),
        }
    }
}

impl View for HelperIR {
    type V = HelperV;

    open spec fn view(&self) -> HelperV {
        self.deep_view()
    }
}

/// A constructor function.
#[derive(Debug)]
pub struct ConstructorIR {
    pub span: Span,
    pub name: String,
    pub params: Vec<ParamIR>,
    pub body: Vec<ExprIR>,
}

pub struct ConstructorV {
    pub span: Span,
    pub name: Seq<char>,
    pub params: Seq<ParamV>,
    pub body: Seq<ExprV>,
}

impl DeepView for ConstructorIR {
    type V = ConstructorV;

    open spec fn deep_view(&self) -> ConstructorV {
        ConstructorV {
            span: self.span,
            name: self.name@,
            params: self.params.deep_view(),
            body: exprs_view(self.body@),
        }
    }
}

impl View for ConstructorIR {
    type V = ConstructorV;

    open spec fn view(&self) -> ConstructorV {
        self.deep_view()
    }
}

/// A circuit (transition) function. `params` are the public inputs; the
/// witnesses parameter stands apart.
#[derive(Debug)]
pub struct CircuitIR {
    pub span: Span,
    pub name: String,
    pub params: Vec<ParamIR>,
    pub takes_witnesses: bool,
    pub witnesses_param_name: Option<String>,
    pub mutates_ledger: bool,
    pub body: Vec<ExprIR>,
    pub return_type: Option<Ty>,
}

pub struct CircuitV {
    pub span: Span,
    pub name: Seq<char>,
    pub params: Seq<ParamV>,
    pub takes_witnesses: bool,
    pub witnesses_param_name: Option<Seq<char>>,
    pub mutates_ledger: bool,
    pub body: Seq<ExprV>,
    pub return_type: Option<TyV>,
}

impl DeepView for CircuitIR {
    type V = CircuitV;

    open spec fn deep_view(&self) -> CircuitV {
        CircuitV {
            span: self.span,
            name: self.name@,
            params: self.params.deep_view(),
            takes_witnesses: self.takes_witnesses,
            witnesses_param_name: text_opt(self.witnesses_param_name),
            mutates_ledger: self.mutates_ledger,
            body: exprs_view(self.body@),
            return_type: ty_opt(self.return_type),
        }
    }
}

impl View for CircuitIR {
    type V = CircuitV;

    open spec fn view(&self) -> CircuitV {
        self.deep_view()
    }
}

/// A read-only query function.
#[derive(Debug)]
pub struct QueryIR {
    pub span: Span,
    pub name: String,
    pub params: Vec<ParamIR>,
    pub return_type: Option<Ty>,
    pub body: Vec<ExprIR>,
}

pub struct QueryV {
    pub span: Span,
    pub name: Seq<char>,
    pub params: Seq<ParamV>,
    pub return_type: Option<TyV>,
    pub body: Seq<ExprV>,
}

impl DeepView for QueryIR {
    type V = QueryV;

    open spec fn deep_view(&self) -> QueryV {
        QueryV {
            span: self.span,
            name: self.name@,
            params: self.params.deep_view(),
            return_type: ty_opt(self.return_type),
            body: exprs_view(self.body@),
        }
    }
}

impl View for QueryIR {
    type V = QueryV;

    open spec fn view(&self) -> QueryV {
        self.deep_view()
    }
}

/// An entire contract. `other_items` are the positions, in the module, of the
/// items that pass through unchanged.
#[derive(Debug)]
pub struct ContractIR {
    pub name: String,
    pub span: Span,
    pub ledger: LedgerIR,
    pub witnesses: Option<WitnessIR>,
    pub constructors: Vec<ConstructorIR>,
    pub circuits: Vec<CircuitIR>,
    pub queries: Vec<QueryIR>,
    pub other_items: Vec<usize>,
    pub user_structs: Vec<(String, Vec<UserStructField>)>,
    pub user_enums: Vec<(String, Vec<UserEnumVariant>)>,
    pub helpers: Vec<HelperIR>,
}

pub struct ContractV {
    pub name: Seq<char>,
    pub span: Span,
    pub ledger: LedgerV,
    pub witnesses: Option<WitnessV>,
    pub constructors: Seq<ConstructorV>,
    pub circuits: Seq<CircuitV>,
    pub queries: Seq<QueryV>,
    pub other_items: Seq<usize>,
    pub user_structs: Seq<(Seq<char>, Seq<StructFieldV>)>,
    pub user_enums: Seq<(Seq<char>, Seq<EnumVariantV>)>,
    pub helpers: Seq<HelperV>,
}

impl DeepView for ContractIR {
    type V = ContractV;

    open spec fn deep_view(&self) -> ContractV {
        ContractV {
            name: self.name@,
            span: self.span,
            ledger: self.ledger.deep_view(),
            witnesses: opt_deep(self.witnesses),
            constructors: self.constructors.deep_view(),
            circuits: self.circuits.deep_view(),
            queries: self.queries.deep_view(),
            other_items: self.other_items@,
            user_structs: structs_view(self.user_structs@),
            user_enums: enums_view(self.user_enums@),
            helpers: self.helpers.deep_view(),
        }
    }
}

impl View for ContractIR {
    type V = ContractV;

    open spec fn view(&self) -> ContractV {
        self.deep_view()
    }
}

/// The entry for `key` in a list of named values; a later entry replaces an
/// earlier one.
pub open spec fn lookup<T>(s: Seq<(Seq<char>, T)>, key: Seq<char>) -> Option<T>
    decreases s.len(),
{
    if s.len() == 0 {
        None
    } else if s.last().0 == key {
        Some(s.last().1)
    } else {
        lookup(s.drop_last(), key)
    }
}

proof fn lemma_lookup_take<T>(s: Seq<(Seq<char>, T)>, i: int, key: Seq<char>)
    requires
        0 <= i <= s.len(),
        forall|j: int| i <= j < s.len() ==> (#[trigger] s[j]).0 != key,
    ensures
        lookup(s, key) == lookup(s.take(i), key),
    decreases s.len() - i,
{
    if i < s.len() {
        lemma_lookup_take(s.drop_last(), i, key);
        assert(s.drop_last().take(i) =~= s.take(i));
    } else {
        assert(s.take(i) =~= s);
    }
}

/// The definition registered under `key`.
pub(crate) fn find_struct<'a>(
    table: &'a Vec<(String, Vec<UserStructField>)>,
    key: &str,
) -> (r: Option<&'a Vec<UserStructField>>)
    ensures
        match r {
            Some(v) => lookup(structs_view(table@), key@) == Some(v.deep_view()),
            None => lookup(structs_view(table@), key@) is None,
        },
{
    let mut i: usize = table.len();
    let ghost s = structs_view(table@);
    while i > 0
        invariant
            i <= table@.len(),
            s == structs_view(table@),
            forall|j: int| i <= j < s.len() ==> (#[trigger] s[j]).0 != key@,
        decreases i,
    {
        i -= 1;
        assert(s[i as int].0 == table@[i as int].0@);
        if same(table[i].0.as_str(), key) {
            proof {
                lemma_lookup_take(s, i + 1, key@);
                assert(s.take(i + 1).last() == s[i as int]);
            }
            return Some(&table[i].1);
        }
    }
    proof {
        lemma_lookup_take(s, 0, key@);
    }
    None
}

/// The definition registered under `key`.
pub(crate) fn find_enum<'a>(
    table: &'a Vec<(String, Vec<UserEnumVariant>)>,
    key: &str,
) -> (r: Option<&'a Vec<UserEnumVariant>>)
    ensures
        match r {
            Some(v) => lookup(enums_view(table@), key@) == Some(v.deep_view()),
            None => lookup(enums_view(table@), key@) is None,
        },
{
    let mut i: usize = table.len();
    let ghost s = enums_view(table@);
    while i > 0
        invariant
            i <= table@.len(),
            s == enums_view(table@),
            forall|j: int| i <= j < s.len() ==> (#[trigger] s[j]).0 != key@,
        decreases i,
    {
        i -= 1;
        assert(s[i as int].0 == table@[i as int].0@);
        if same(table[i].0.as_str(), key) {
            proof {
                lemma_lookup_take(s, i + 1, key@);
                assert(s.take(i + 1).last() == s[i as int]);
            }
            return Some(&table[i].1);
        }
    }
    proof {
        lemma_lookup_take(s, 0, key@);
    }
    None
}

} // verus!
