//! The code that builds a contract's initial on-chain state: it calls the
//! user's constructor and encodes each ledger field by its declared type.
use crate::aligned::{accessor_aligned_value_expr, accessor_code};
use crate::code::{listed, put_after, put_listed, quoted, spaced, string_literal, suffixed};
use crate::containers::{cell_inner, extract_cell_inner_type, last_seg, last_segment};
use crate::contract::{ConstructorV, ContractIR, ContractV, LedgerFieldIR, LedgerFieldV, LedgerKindV, LedgerTypeKind};
use crate::contract::{ParamIR, ParamV};
use crate::emission::type_ctx;
use crate::expr::{fit_u8, int_literal, int_literal_value, narrow_u8};
use crate::nocturne_type::{TypeCtx, TypeCtxV};
use crate::syntax::{arg_view, args_view, GenericArg, GenericArgV, Ty, TyV};
use crate::text::{cat3, cat5, cat7, dec, number, parse_u32, txt, u32_of};
use vstd::prelude::*;

verus! {

/// The height `H` of `MerkleTree<H, T>`, when it is written as a number that
/// fits a byte.
pub open spec fn tree_height(t: TyV) -> Option<u8> {
    match last_segment(t) {
        Some(s) => if s.ident == "MerkleTree"@ {
            match s.args {
                Some(args) => if args.len() > 0 {
                    match args[0] {
                        GenericArgV::Const(text) => match text {
                            Some(n) => narrow_u8(int_literal_value(n)),
                            None => None,
                        },
                        GenericArgV::Type(inner) => match last_segment(inner) {
                            Some(seg) => match u32_of(seg.ident) {
                                Some(n) => if n <= u8::MAX {
                                    Some(n as u8)
                                } else {
                                    None
                                },
                                None => None,
                            },
                            None => None,
                        },
                        GenericArgV::Other => None,
                    }
                } else {
                    None
                },
                None => None,
            }
        } else {
            None
        },
        None => None,
    }
}

fn parse_merkle_tree_height(ty: &Ty) -> (r: Option<u8>)
    ensures
        r == tree_height(ty@),
{
    match last_seg(ty) {
        Some(s) => {
            if !crate::text::same(s.ident.as_str(), "MerkleTree") {
                return None;
            }
            match &s.args {
                Some(args) => {
                    if args.len() == 0 {
                        return None;
                    }
                    assert(args_view(args@)[0] == arg_view(args@[0]));
                    match &args[0] {
                        GenericArg::Const(text) => match text {
                            Some(n) => fit_u8(int_literal(n.as_str())),
                            None => None,
                        },
                        GenericArg::Type(inner) => match last_seg(inner) {
                            Some(seg) => match parse_u32(seg.ident.as_str()) {
                                Some(n) => if n <= 255 {
                                    Some(n as u8)
                                } else {
                                    None
                                },
                                None => None,
                            },
                            None => None,
                        },
                        GenericArg::Other => None,
                    }
                }
                None => None,
            }
        }
        None => None,
    }
}

/// The first `n` parameters as declarations.
pub open spec fn param_decls(ps: Seq<ParamV>, n: nat) -> Seq<char>
    decreases n,
{
    if n == 0 || n > ps.len() {
        seq![]
    } else {
        listed(param_decls(ps, (n - 1) as nat), (n - 1) as nat, ps[n - 1].name + " : "@ + ps[n - 1].ty.text)
    }
}

/// The first `n` parameters as arguments.
pub open spec fn param_args(ps: Seq<ParamV>, n: nat) -> Seq<char>
    decreases n,
{
    if n == 0 || n > ps.len() {
        seq![]
    } else {
        listed(param_args(ps, (n - 1) as nat), (n - 1) as nat, ps[n - 1].name)
    }
}

fn make_param_decls(ps: &Vec<ParamIR>) -> (r: String)
    ensures
        r@ == param_decls(ps.deep_view(), ps@.len()),
{
    let ghost v = ps.deep_view();
    let mut out: String = txt("");
    proof {
        reveal_strlit("");
        assert(out@ =~= param_decls(v, 0));
    }
    let mut i: usize = 0;
    while i < ps.len()
        invariant
            i <= ps@.len(),
            v == ps.deep_view(),
            v.len() == ps@.len(),
            out@ == param_decls(v, i as nat),
        decreases ps@.len() - i,
    {
        assert(v[i as int] == ps@[i as int].deep_view());
        let d = cat3(ps[i].name.as_str(), " : ", ps[i].ty.text.as_str());
        out = put_listed(out.as_str(), i, d.as_str());
        i += 1;
    }
    out
}

fn make_param_args(ps: &Vec<ParamIR>) -> (r: String)
    ensures
        r@ == param_args(ps.deep_view(), ps@.len()),
{
    let ghost v = ps.deep_view();
    let mut out: String = txt("");
    proof {
        reveal_strlit("");
        assert(out@ =~= param_args(v, 0));
    }
    let mut i: usize = 0;
    while i < ps.len()
        invariant
            i <= ps@.len(),
            v == ps.deep_view(),
            v.len() == ps@.len(),
            out@ == param_args(v, i as nat),
        decreases ps@.len() - i,
    {
        assert(v[i as int] == ps@[i as int].deep_view());
        out = put_listed(out.as_str(), i, ps[i].name.as_str());
        i += 1;
    }
    out
}

pub open spec fn encoding_imports() -> Seq<char> {
    "use nocturne :: runtime :: base_crypto :: fab :: AlignedValue ; use nocturne :: runtime :: onchain_state :: state :: StateValue ; use nocturne :: runtime :: storage :: arena :: Sp ;"@
}

/// A field that must start empty.
pub open spec fn empty_field(name: Seq<char>, what: Seq<char>, value: Seq<char>) -> Seq<char> {
    "assert ! (__state . "@ + name + " . is_empty () , "@ + string_literal(
        "nocturne: constructor-populated "@ + what + " fields are not yet encoded into deploy state; field `"@ + name
            + "` must start empty"@,
    ) + ") ; fields . push (StateValue :: "@ + value + " (Default :: default ())) ;"@
}

fn make_empty_field(name: &str, what: &str, value: &str) -> (r: String)
    ensures
        r@ == empty_field(name@, what@, value@),
{
    let msg = cat5(
        "nocturne: constructor-populated ",
        what,
        " fields are not yet encoded into deploy state; field `",
        name,
        "` must start empty",
    );
    let q = quoted(msg.as_str());
    cat7(
        "assert ! (__state . ",
        name,
        " . is_empty () , ",
        q.as_str(),
        ") ; fields . push (StateValue :: ",
        value,
        " (Default :: default ())) ;",
    )
}

/// The code that encodes one ledger field.
pub open spec fn field_code(cx: TypeCtxV, f: LedgerFieldV) -> Seq<char> {
    match f.type_kind {
        LedgerKindV::Counter => "fields . push (StateValue :: from (__state . "@ + f.name + " . value ())) ;"@,
        LedgerKindV::Cell => "{ "@ + encoding_imports()
            + " fields . push (StateValue :: Cell (Sp :: new (AlignedValue :: from ("@ + accessor_code(
            cx,
            cell_inner(f.ty),
            "__state . "@ + f.name + " . get ()"@,
        ) + ")))) ; }"@,
        LedgerKindV::LedgerMap => empty_field(f.name, "Map/Set"@, "Map"@),
        LedgerKindV::LedgerSet => empty_field(f.name, "Map/Set"@, "Map"@),
        LedgerKindV::MerkleTree => match tree_height(f.ty) {
            Some(h) => "{ "@ + encoding_imports()
                + " let blank_tree = nocturne :: runtime :: transient_crypto :: merkle_tree :: MerkleTree :: < () > :: blank ("@
                + dec(h as nat)
                + "u8) . rehash () ; let inner : Vec < StateValue > = vec ! [StateValue :: BoundedMerkleTree (blank_tree) , StateValue :: Cell (Sp :: new (AlignedValue :: from (0u64))) ,] ; fields . push (StateValue :: Array (inner . into_iter () . collect ())) ; }"@,
            None => seq![],
        },
        LedgerKindV::Array => empty_field(f.name, "Array"@, "Array"@),
        LedgerKindV::Unknown(_) => "fields . push (StateValue :: Null) ;"@,
    }
}

/// Whether a field's deploy code exists: a Merkle tree needs a literal height.
pub open spec fn can_deploy(f: LedgerFieldV) -> bool {
    f.type_kind is MerkleTree ==> tree_height(f.ty) is Some
}

fn make_field(cx: &TypeCtx, f: &LedgerFieldIR) -> (r: String)
    requires
        can_deploy(f.deep_view()),
    ensures
        r@ == field_code(cx@, f.deep_view()),
{
    let imports = "use nocturne :: runtime :: base_crypto :: fab :: AlignedValue ; use nocturne :: runtime :: onchain_state :: state :: StateValue ; use nocturne :: runtime :: storage :: arena :: Sp ;";
    let name = f.name.as_str();
    match &f.type_kind {
        LedgerTypeKind::Counter => cat3(
            "fields . push (StateValue :: from (__state . ",
            name,
            " . value ())) ;",
        ),
        LedgerTypeKind::Cell => {
            let acc = cat3("__state . ", name, " . get ()");
            let value = accessor_aligned_value_expr(cx, extract_cell_inner_type(&f.ty), acc.as_str());
            cat5(
                "{ ",
                imports,
                " fields . push (StateValue :: Cell (Sp :: new (AlignedValue :: from (",
                value.as_str(),
                ")))) ; }",
            )
        }
        LedgerTypeKind::LedgerMap => make_empty_field(name, "Map/Set", "Map"),
        LedgerTypeKind::LedgerSet => make_empty_field(name, "Map/Set", "Map"),
        LedgerTypeKind::MerkleTree => match parse_merkle_tree_height(&f.ty) {
            Some(h) => {
                let d = number(h as u128);
                cat5(
                    "{ ",
                    imports,
                    " let blank_tree = nocturne :: runtime :: transient_crypto :: merkle_tree :: MerkleTree :: < () > :: blank (",
                    d.as_str(),
                    "u8) . rehash () ; let inner : Vec < StateValue > = vec ! [StateValue :: BoundedMerkleTree (blank_tree) , StateValue :: Cell (Sp :: new (AlignedValue :: from (0u64))) ,] ; fields . push (StateValue :: Array (inner . into_iter () . collect ())) ; }",
                )
            }
            None => txt(""),
        },
        LedgerTypeKind::Array => make_empty_field(name, "Array", "Array"),
        LedgerTypeKind::Unknown(_) => txt("fields . push (StateValue :: Null) ;"),
    }
}

/// The code for the first `n` ledger fields, in declaration order.
pub open spec fn fields_code(cx: TypeCtxV, fs: Seq<LedgerFieldV>, n: nat) -> Seq<char>
    decreases n,
{
    if n == 0 || n > fs.len() {
        seq![]
    } else {
        spaced(fields_code(cx, fs, (n - 1) as nat), field_code(cx, fs[n - 1]))
    }
}

pub open spec fn constructor_name(cs: Seq<ConstructorV>) -> Seq<char> {
    if cs.len() > 0 {
        cs[0].name
    } else {
        "new"@
    }
}

pub open spec fn constructor_params(cs: Seq<ConstructorV>) -> Seq<ParamV> {
    if cs.len() > 0 {
        cs[0].params
    } else {
        seq![]
    }
}

/// The deployment module of a contract.
pub open spec fn deploy_code(c: ContractV) -> Seq<char> {
    let ps = constructor_params(c.constructors);
    let fs = c.ledger.fields;
    let body = spaced(
        spaced(
            "let __state = super :: "@ + c.ledger.name + " :: "@ + constructor_name(c.constructors) + " ("@ + param_args(
                ps,
                ps.len(),
            ) + ") ; let mut fields : Vec < StateValue > = Vec :: with_capacity ("@ + dec(fs.len()) + "usize) ;"@,
            fields_code(type_ctx(c), fs, fs.len()),
        ),
        "StateValue :: Array (fields . into_iter () . collect ())"@,
    );
    "# [doc = r\" Generated deployment helpers.\"] pub mod deploy { # [allow (unused_imports)] use nocturne :: types :: * ; # [allow (unused_imports)] use super :: * ; use nocturne :: runtime :: onchain_state :: state :: StateValue ; # [doc = r\" Construct the initial contract state by calling the user\"] # [doc = r\" constructor and encoding each ledger field as a\"] # [doc = r\" `StateValue::Array` entry, in declaration order. The\"] # [doc = r\" constructor's own parameters are forwarded verbatim so\"] # [doc = r\" deploy-time inputs (admin address, fee, ...) plumb through.\"] pub fn initial_state ("@
        + param_decls(ps, ps.len()) + ") -> StateValue { "@ + body + " } }"@
}

/// Generates the deployment module of a contract.
pub fn generate_deploy_module(contract: &ContractIR) -> (r: String)
    requires
        deployable(contract@),
    ensures
        r@ == deploy_code(contract@),
{
    let ghost c = contract@;
    let tcx = TypeCtx { structs: &contract.user_structs, enums: &contract.user_enums };
    assert(tcx@ == type_ctx(c));
    let none: Vec<ParamIR> = Vec::new();
    assert(none.deep_view() =~= seq![]);
    let name: String;
    let decls: String;
    let args: String;
    if contract.constructors.len() > 0 {
        assert(c.constructors[0] == contract.constructors@[0].deep_view());
        name = contract.constructors[0].name.clone();
        decls = make_param_decls(&contract.constructors[0].params);
        args = make_param_args(&contract.constructors[0].params);
    } else {
        name = txt("new");
        decls = make_param_decls(&none);
        args = make_param_args(&none);
    }
    let fs = &contract.ledger.fields;
    let ghost v = c.ledger.fields;
    let mut pushes: String = txt("");
    proof {
        reveal_strlit("");
        assert(pushes@ =~= fields_code(tcx@, v, 0));
    }
    let mut i: usize = 0;
    while i < fs.len()
        invariant
            i <= fs@.len(),
            *fs == contract.ledger.fields,
            v == contract@.ledger.fields,
            v.len() == fs@.len(),
            forall|i: int| 0 <= i < v.len() ==> can_deploy(#[trigger] v[i]),
            pushes@ == fields_code(tcx@, v, i as nat),
        decreases fs@.len() - i,
    {
        assert(v[i as int] == fs@[i as int].deep_view());
        assert(can_deploy(v[i as int]));
        let f = make_field(&tcx, &fs[i]);
        pushes = put_after(pushes.as_str(), f.as_str());
        i += 1;
    }
    let count = suffixed(fs.len() as u128, "usize");
    let head = cat7(
        "let __state = super :: ",
        contract.ledger.name.as_str(),
        " :: ",
        name.as_str(),
        " (",
        args.as_str(),
        ") ; let mut fields : Vec < StateValue > = Vec :: with_capacity (",
    );
    let start = cat3(head.as_str(), count.as_str(), ") ;");
    proof {
        assert(start@ =~= "let __state = super :: "@ + c.ledger.name + " :: "@ + constructor_name(c.constructors) + " ("@
            + param_args(constructor_params(c.constructors), constructor_params(c.constructors).len())
            + ") ; let mut fields : Vec < StateValue > = Vec :: with_capacity ("@ + dec(v.len()) + "usize) ;"@) by {
            reveal_strlit("usize");
            reveal_strlit(") ;");
            reveal_strlit("usize) ;");
            assert("usize"@ + ") ;"@ =~= "usize) ;"@);
        }
    }
    let some = put_after(start.as_str(), pushes.as_str());
    let body = put_after(some.as_str(), "StateValue :: Array (fields . into_iter () . collect ())");
    cat5(
        "# [doc = r\" Generated deployment helpers.\"] pub mod deploy { # [allow (unused_imports)] use nocturne :: types :: * ; # [allow (unused_imports)] use super :: * ; use nocturne :: runtime :: onchain_state :: state :: StateValue ; # [doc = r\" Construct the initial contract state by calling the user\"] # [doc = r\" constructor and encoding each ledger field as a\"] # [doc = r\" `StateValue::Array` entry, in declaration order. The\"] # [doc = r\" constructor's own parameters are forwarded verbatim so\"] # [doc = r\" deploy-time inputs (admin address, fee, ...) plumb through.\"] pub fn initial_state (",
        decls.as_str(),
        ") -> StateValue { ",
        body.as_str(),
        " } }",
    )
}


/// Whether every ledger field of a contract has deploy code.
pub open spec fn deployable(c: ContractV) -> bool {
    forall|i: int| 0 <= i < c.ledger.fields.len() ==> can_deploy(#[trigger] c.ledger.fields[i])
}

/// The deployment module of a contract whose Merkle trees all declare their
/// height as a literal; `None` for any other contract.
pub fn try_generate_deploy_module(contract: &ContractIR) -> (r: Option<String>)
    ensures
        match r {
            Some(code) => deployable(contract@) && code@ == deploy_code(contract@),
            None => !deployable(contract@),
        },
{
    let fields = &contract.ledger.fields;
    let ghost fs = contract@.ledger.fields;
    let mut i: usize = 0;
    while i < fields.len()
        invariant
            i <= fields@.len(),
            fs == contract@.ledger.fields,
            fs.len() == fields@.len(),
            forall|j: int| 0 <= j < fields@.len() ==> #[trigger] fs[j] == fields@[j].deep_view(),
            forall|j: int| 0 <= j < i ==> can_deploy(#[trigger] fs[j]),
        decreases fields@.len() - i,
    {
        assert(fs[i as int] == fields@[i as int].deep_view());
        match &fields[i].type_kind {
            LedgerTypeKind::MerkleTree => {
                if parse_merkle_tree_height(&fields[i].ty).is_none() {
                    assert(!can_deploy(fs[i as int]));
                    return None;
                }
            }
            _ => {}
        }
        i += 1;
    }
    Some(generate_deploy_module(contract))
}

} // verus!
