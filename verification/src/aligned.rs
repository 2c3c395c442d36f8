//! The code that turns a runtime value of a contract type into what
//! `AlignedValue::from` accepts, in the wire shape that circuits declare.
use crate::code::{listed, make_tuple_of, put_listed, tuple_of};
use crate::containers::{array_parts, extract_array_type, option_payload, option_payload_type, plain_last_seg};
use crate::containers::plain_last_segment;
use crate::contract::{find_enum, find_struct, lookup, EnumVariantV, StructFieldV, UserEnumVariant, UserStructField};
use crate::nocturne_type::{TypeCtx, TypeCtxV};
use crate::syntax::{ty_kind_view, ty_ref_opt, ty_view, tys_view, Ty, TyKind, TyKindV, TyV};
use crate::text::{cat2, cat3, cat4, cat5, cat7, dec, no_spaces, number, parse_u32, same, strip_prefix, strip_spaces};
use crate::text::{strip_suffix, txt, u32_of, without_prefix, without_suffix};
use vstd::prelude::*;

verus! {

/// The cast that gives a fixed-width integer its wire width, by the type's
/// space-free text.
#[verifier::opaque]
pub open spec fn width_cast(s: Seq<char>) -> Option<Seq<char>> {
    match without_prefix(s, "Uint<"@) {
        Some(rest) => match without_suffix(rest, ">"@) {
            Some(inner) => match u32_of(inner) {
                Some(bits) => Some(
                    if 1 <= bits <= 8 {
                        "as u8"@
                    } else if 9 <= bits <= 16 {
                        "as u16"@
                    } else if 17 <= bits <= 32 {
                        "as u32"@
                    } else if 33 <= bits <= 64 {
                        "as u64"@
                    } else {
                        "as u128"@
                    },
                ),
                None => None,
            },
            None => plain_cast(s),
        },
        None => plain_cast(s),
    }
}

pub open spec fn plain_cast(s: Seq<char>) -> Option<Seq<char>> {
    if s == "u8"@ {
        Some("as u8"@)
    } else if s == "u16"@ {
        Some("as u16"@)
    } else if s == "u32"@ {
        Some("as u32"@)
    } else if s == "u64"@ {
        Some("as u64"@)
    } else if s == "u128"@ {
        Some("as u128"@)
    } else {
        None
    }
}

pub open spec fn static_opt(o: Option<&'static str>) -> Option<Seq<char>> {
    match o {
        Some(s) => Some(s@),
        None => None,
    }
}

pub(crate) fn find_plain_cast(s: &str) -> (r: Option<&'static str>)
    ensures
        static_opt(r) == plain_cast(s@),
{
    if same(s, "u8") {
        Some("as u8")
    } else if same(s, "u16") {
        Some("as u16")
    } else if same(s, "u32") {
        Some("as u32")
    } else if same(s, "u64") {
        Some("as u64")
    } else if same(s, "u128") {
        Some("as u128")
    } else {
        None
    }
}

/// The cast that gives a fixed-width integer its wire width.
pub(crate) fn primitive_cast_for_type(s: &str) -> (r: Option<&'static str>)
    ensures
        static_opt(r) == width_cast(s@),
{
    proof {
        reveal(width_cast);
    }
    match strip_prefix(s, "Uint<") {
        Some(rest) => match strip_suffix(rest, ">") {
            Some(inner) => match parse_u32(inner) {
                Some(bits) => Some(
                    if 1 <= bits && bits <= 8 {
                        "as u8"
                    } else if 9 <= bits && bits <= 16 {
                        "as u16"
                    } else if 17 <= bits && bits <= 32 {
                        "as u32"
                    } else if 33 <= bits && bits <= 64 {
                        "as u64"
                    } else {
                        "as u128"
                    },
                ),
                None => None,
            },
            None => find_plain_cast(s),
        },
        None => find_plain_cast(s),
    }
}

/// The match arms that take the payload out of an enum value: the first `n`.
pub open spec fn payload_arms(name: Seq<char>, vs: Seq<EnumVariantV>, n: nat) -> Seq<char>
    decreases n,
{
    if n == 0 || n > vs.len() {
        seq![]
    } else {
        listed(
            payload_arms(name, vs, (n - 1) as nat),
            (n - 1) as nat,
            name + " :: "@ + vs[n - 1].name + " (__p) => __p"@,
        )
    }
}

pub(crate) fn make_payload_arms(name: &str, vs: &Vec<UserEnumVariant>) -> (r: String)
    ensures
        r@ == payload_arms(name@, vs.deep_view(), vs@.len()),
        vs.deep_view().len() == vs@.len(),
{
    let ghost v = vs.deep_view();
    let mut out: String = txt("");
    proof {
        reveal_strlit("");
        assert(out@ =~= payload_arms(name@, v, 0));
    }
    let mut i: usize = 0;
    while i < vs.len()
        invariant
            i <= vs@.len(),
            v == vs.deep_view(),
            v.len() == vs@.len(),
            out@ == payload_arms(name@, v, i as nat),
        decreases vs@.len() - i,
    {
        assert(v[i as int] == vs@[i as int].deep_view());
        let arm = cat4(name, " :: ", vs[i].name.as_str(), " (__p) => __p");
        out = put_listed(out.as_str(), i, arm.as_str());
        i += 1;
    }
    out
}

/// `Option<T>`: a discriminant and a payload, defaulted when absent.
#[verifier::opaque]
pub open spec fn option_code(acc: Seq<char>, payload: TyV, repr: Seq<char>) -> Seq<char> {
    "{ let __e = "@ + acc + " ; let __payload = match __e { :: core :: option :: Option :: Some (__p) => __p , :: core :: option :: Option :: None => < "@
        + payload.text
        + " as :: core :: default :: Default > :: default () , } ; let __disc : u8 = match __e { :: core :: option :: Option :: Some (_) => 1 , :: core :: option :: Option :: None => 0 , } ; (__disc , "@
        + repr + ") }"@
}

/// An enum with a payload: its discriminant and the payload.
#[verifier::opaque]
pub open spec fn enum_code(acc: Seq<char>, arms: Seq<char>, repr: Seq<char>) -> Seq<char> {
    "{ let __e = "@ + acc + " ; let __payload = match __e . clone () { "@ + arms
        + " } ; (__e . discriminant () , "@ + repr + ") }"@
}

/// A value bound under a name and taken apart into a tuple.
#[verifier::opaque]
pub open spec fn bound_tuple(name: Seq<char>, acc: Seq<char>, list: Seq<char>, n: nat) -> Seq<char> {
    "{ let "@ + name + " = "@ + acc + " ; "@ + tuple_of(list, n) + " }"@
}

pub(crate) fn make_bound_tuple(name: &str, acc: &str, list: &str, n: usize) -> (r: String)
    ensures
        r@ == bound_tuple(name@, acc@, list@, n as nat),
{
    proof {
        reveal(bound_tuple);
    }
    let t = make_tuple_of(list, n);
    cat7("{ let ", name, " = ", acc, " ; ", t.as_str(), " }")
}

/// A type that needs nothing but its text to tell how its value is taken.
#[verifier::opaque]
pub open spec fn leaf_code(s: Seq<char>, acc: Seq<char>) -> Option<Seq<char>> {
    if without_prefix(s, "Bytes<"@) is Some {
        Some("* ("@ + acc + ") . as_bytes ()"@)
    } else if s == "Field"@ {
        Some(
            "nocturne :: runtime :: transient_crypto :: curve :: Fr :: from (("@ + acc + ") . value ())"@,
        )
    } else if s == "MerkleTreeDigest"@ {
        Some(
            "nocturne :: runtime :: transient_crypto :: curve :: Fr :: from_le_bytes (& ("@ + acc
                + ") . as_le_bytes ()) . expect (\"MerkleTreeDigest bytes round-trip through Fr\")"@,
        )
    } else if s == "Boolean"@ {
        Some("("@ + acc + ") . value ()"@)
    } else if s == "bool"@ {
        Some("("@ + acc + ")"@)
    } else {
        None
    }
}

/// An integer, by the type's space-free text.
#[verifier::opaque]
pub open spec fn integer_code(s: Seq<char>, acc: Seq<char>) -> Option<Seq<char>> {
    if without_prefix(s, "Uint<"@) is Some {
        match width_cast(s) {
            Some(c) => Some("(("@ + acc + ") . value () "@ + c + ")"@),
            None => Some("("@ + acc + ") . value ()"@),
        }
    } else if s == "u8"@ || s == "u16"@ || s == "u32"@ || s == "u64"@ || s == "u128"@ {
        match width_cast(s) {
            Some(c) => Some("(("@ + acc + ") "@ + c + ")"@),
            None => Some("("@ + acc + ")"@),
        }
    } else {
        None
    }
}

/// The variants of the enum that a type names.
pub open spec fn enum_of(cx: TypeCtxV, t: TyV) -> Option<(Seq<char>, Seq<EnumVariantV>)> {
    match plain_last_segment(t) {
        Some(seg) => match lookup(cx.enums, seg.ident) {
            Some(vs) => Some((seg.ident, vs)),
            None => None,
        },
        None => None,
    }
}

/// The fields of the struct that a type names.
pub open spec fn struct_of(cx: TypeCtxV, t: TyV) -> Option<Seq<StructFieldV>> {
    match plain_last_segment(t) {
        Some(seg) => lookup(cx.structs, seg.ident),
        None => None,
    }
}

pub open spec fn first_payload(vs: Seq<EnumVariantV>) -> Option<TyV> {
    if vs.len() > 0 {
        vs[0].payload
    } else {
        None
    }
}

/// The code for a value of type `t` reached through `acc`. `depth` bounds the
/// nesting of user-defined types; a definition that contains itself is cut off
/// there.
pub open spec fn aligned_code(cx: TypeCtxV, t: TyV, acc: Seq<char>, depth: nat) -> Seq<char>
    decreases 2 * depth, t, 1nat,
{
    let s = no_spaces(t.text);
    match leaf_code(s, acc) {
        Some(c) => c,
        None => match option_payload(t) {
            Some(p) => {
                proof {
                    crate::nocturne_type::lemma_option_payload_smaller(t);
                }
                option_code(acc, p, aligned_code(cx, p, "__payload"@, depth))
            }
            None => match enum_of(cx, t) {
                Some((name, vs)) => match first_payload(vs) {
                    None => "("@ + acc + ") . discriminant ()"@,
                    Some(p) => if depth == 0 {
                        "("@ + acc + ")"@
                    } else {
                        enum_code(
                            acc,
                            payload_arms(name, vs, vs.len()),
                            aligned_code(cx, p, "__payload"@, (depth - 1) as nat),
                        )
                    },
                },
                None => match struct_of(cx, t) {
                    Some(fs) => if depth == 0 {
                        "("@ + acc + ")"@
                    } else {
                        bound_tuple("__s"@, acc, aligned_fields(cx, "__s"@, fs, fs.len(), (depth - 1) as nat), fs.len())
                    },
                    None => match t.kind {
                        TyKindV::Tuple(elems) => bound_tuple(
                            "__t"@,
                            acc,
                            aligned_elements(cx, elems, elems.len(), depth),
                            elems.len(),
                        ),
                        _ => match integer_code(s, acc) {
                            Some(c) => c,
                            None => match (t.kind, array_parts(t)) {
                                (TyKindV::Array { elem, .. }, Some((_, n))) => bound_tuple(
                                    "__a"@,
                                    acc,
                                    aligned_repeat(cx, *elem, n as nat, depth),
                                    n as nat,
                                ),
                                _ => "("@ + acc + ")"@,
                            },
                        },
                    },
                },
            },
        },
    }
}

/// The first `n` fields of a struct bound as `var`.
pub open spec fn aligned_fields(cx: TypeCtxV, var: Seq<char>, fs: Seq<StructFieldV>, n: nat, depth: nat) -> Seq<char>
    decreases 2 * depth + 1, fs, n,
{
    if n == 0 || n > fs.len() {
        seq![]
    } else {
        listed(
            aligned_fields(cx, var, fs, (n - 1) as nat, depth),
            (n - 1) as nat,
            aligned_code(cx, fs[n - 1].ty, var + " . "@ + fs[n - 1].name, depth),
        )
    }
}

/// The first `n` components of a tuple bound as `__t`.
pub open spec fn aligned_elements(cx: TypeCtxV, ts: Seq<TyV>, n: nat, depth: nat) -> Seq<char>
    decreases 2 * depth, ts, n,
{
    if n == 0 || n > ts.len() {
        seq![]
    } else {
        listed(
            aligned_elements(cx, ts, (n - 1) as nat, depth),
            (n - 1) as nat,
            aligned_code(cx, ts[n - 1], "__t . "@ + dec((n - 1) as nat), depth),
        )
    }
}

/// The first `n` elements of an array bound as `__a`.
pub open spec fn aligned_repeat(cx: TypeCtxV, t: TyV, n: nat, depth: nat) -> Seq<char>
    decreases 2 * depth, t, 2 + n,
{
    if n == 0 {
        seq![]
    } else {
        listed(
            aligned_repeat(cx, t, (n - 1) as nat, depth),
            (n - 1) as nat,
            aligned_code(cx, t, "__a ["@ + dec((n - 1) as nat) + "]"@, depth),
        )
    }
}

/// The number of user definitions, which bounds how deep types nest.
pub open spec fn type_depth(cx: TypeCtxV) -> nat {
    cx.structs.len() + cx.enums.len()
}

/// The code for a value whose type may be unknown.
pub open spec fn accessor_code(cx: TypeCtxV, t: Option<TyV>, acc: Seq<char>) -> Seq<char> {
    match t {
        None => "("@ + acc + ")"@,
        Some(t) => aligned_code(cx, t, acc, type_depth(cx)),
    }
}

// ---- execution

fn make_leaf(s: &str, acc: &str) -> (r: Option<String>)
    ensures
        crate::syntax::text_opt(r) == leaf_code(s@, acc@),
{
    proof {
        reveal(leaf_code);
    }
    if strip_prefix(s, "Bytes<").is_some() {
        Some(cat3("* (", acc, ") . as_bytes ()"))
    } else if same(s, "Field") {
        Some(
            cat3("nocturne :: runtime :: transient_crypto :: curve :: Fr :: from ((", acc, ") . value ())"),
        )
    } else if same(s, "MerkleTreeDigest") {
        Some(
            cat3(
                "nocturne :: runtime :: transient_crypto :: curve :: Fr :: from_le_bytes (& (",
                acc,
                ") . as_le_bytes ()) . expect (\"MerkleTreeDigest bytes round-trip through Fr\")",
            ),
        )
    } else if same(s, "Boolean") {
        Some(cat3("(", acc, ") . value ()"))
    } else if same(s, "bool") {
        Some(cat3("(", acc, ")"))
    } else {
        None
    }
}

fn make_integer(s: &str, acc: &str) -> (r: Option<String>)
    ensures
        crate::syntax::text_opt(r) == integer_code(s@, acc@),
{
    proof {
        reveal(integer_code);
    }
    if strip_prefix(s, "Uint<").is_some() {
        match primitive_cast_for_type(s) {
            Some(c) => Some(cat5("((", acc, ") . value () ", c, ")")),
            None => Some(cat3("(", acc, ") . value ()")),
        }
    } else if same(s, "u8") || same(s, "u16") || same(s, "u32") || same(s, "u64") || same(s, "u128") {
        match primitive_cast_for_type(s) {
            Some(c) => Some(cat5("((", acc, ") ", c, ")")),
            None => Some(cat3("(", acc, ")")),
        }
    } else {
        None
    }
}

fn make_option(acc: &str, payload: &Ty, repr: &str) -> (r: String)
    ensures
        r@ == option_code(acc@, payload@, repr@),
{
    proof {
        reveal(option_code);
    }
    cat7(
        "{ let __e = ",
        acc,
        " ; let __payload = match __e { :: core :: option :: Option :: Some (__p) => __p , :: core :: option :: Option :: None => < ",
        payload.text.as_str(),
        " as :: core :: default :: Default > :: default () , } ; let __disc : u8 = match __e { :: core :: option :: Option :: Some (_) => 1 , :: core :: option :: Option :: None => 0 , } ; (__disc , ",
        repr,
        ") }",
    )
}

fn make_enum(acc: &str, arms: &str, repr: &str) -> (r: String)
    ensures
        r@ == enum_code(acc@, arms@, repr@),
{
    proof {
        reveal(enum_code);
    }
    cat7(
        "{ let __e = ",
        acc,
        " ; let __payload = match __e . clone () { ",
        arms,
        " } ; (__e . discriminant () , ",
        repr,
        ") }",
    )
}

pub(crate) fn find_payload(vs: &Vec<UserEnumVariant>) -> (r: Option<&Ty>)
    ensures
        ty_ref_opt(r) == first_payload(vs.deep_view()),
{
    if vs.len() > 0 {
        assert(vs.deep_view()[0] == vs@[0].deep_view());
        match &vs[0].payload {
            Some(t) => Some(t),
            None => None,
        }
    } else {
        None
    }
}

fn make_aligned(cx: &TypeCtx, t: &Ty, acc: &str, depth: u128) -> (r: String)
    ensures
        r@ == aligned_code(cx@, t@, acc@, depth as nat),
    decreases 2 * depth, t@, 1nat,
{
    let s = strip_spaces(t.text.as_str());
    match make_leaf(s.as_str(), acc) {
        Some(c) => {
            return c;
        }
        None => {}
    }
    match option_payload_type(t) {
        Some(p) => {
            proof {
                crate::nocturne_type::lemma_option_payload_smaller(t@);
            }
            let repr = make_aligned(cx, p, "__payload", depth);
            return make_option(acc, p, repr.as_str());
        }
        None => {}
    }
    match plain_last_seg(t) {
        Some(seg) => {
            let name = seg.ident.as_str();
            match find_enum(cx.enums, name) {
                Some(vs) => {
                    return match find_payload(vs) {
                        None => cat3("(", acc, ") . discriminant ()"),
                        Some(p) => {
                            if depth == 0 {
                                cat3("(", acc, ")")
                            } else {
                                let arms = make_payload_arms(name, vs);
                                let repr = make_aligned(cx, p, "__payload", depth - 1);
                                make_enum(acc, arms.as_str(), repr.as_str())
                            }
                        }
                    };
                }
                None => {}
            }
            match find_struct(cx.structs, name) {
                Some(fs) => {
                    if depth == 0 {
                        return cat3("(", acc, ")");
                    }
                    let list = make_fields(cx, "__s", fs, depth - 1);
                    return make_bound_tuple("__s", acc, list.as_str(), fs.len());
                }
                None => {}
            }
        }
        None => {}
    }
    proof {
        assert(t@.kind == ty_kind_view(t.kind));
        assert(decreases_to!(t@ => t@.kind));
    }
    match &t.kind {
        TyKind::Tuple(elems) => {
            proof {
                assert(t@.kind == TyKindV::Tuple(tys_view(elems@)));
                assert(decreases_to!(t@.kind => t@.kind->Tuple_0));
            }
            let list = make_elements(cx, elems, depth);
            return make_bound_tuple("__t", acc, list.as_str(), elems.len());
        }
        _ => {}
    }
    match make_integer(s.as_str(), acc) {
        Some(c) => {
            return c;
        }
        None => {}
    }
    match (&t.kind, extract_array_type(t)) {
        (TyKind::Array { elem, .. }, Some((_, n))) => {
            proof {
                assert(*t@.kind->elem == ty_view(**elem));
                assert(decreases_to!(t@.kind => t@.kind->elem));
            }
            let list = make_repeat(cx, elem, n, depth);
            make_bound_tuple("__a", acc, list.as_str(), n as usize)
        }
        _ => cat3("(", acc, ")"),
    }
}

pub(crate) fn make_fields(cx: &TypeCtx, var: &str, fs: &Vec<UserStructField>, depth: u128) -> (r: String)
    ensures
        r@ == aligned_fields(cx@, var@, fs.deep_view(), fs@.len(), depth as nat),
        fs.deep_view().len() == fs@.len(),
    decreases 2 * depth + 1, fs.deep_view(), 0nat,
{
    let ghost v = fs.deep_view();
    let mut out: String = txt("");
    proof {
        reveal_strlit("");
        assert(out@ =~= aligned_fields(cx@, var@, v, 0, depth as nat));
    }
    let mut i: usize = 0;
    while i < fs.len()
        invariant
            i <= fs@.len(),
            v == fs.deep_view(),
            v.len() == fs@.len(),
            out@ == aligned_fields(cx@, var@, v, i as nat, depth as nat),
        decreases fs@.len() - i,
    {
        assert(v[i as int] == fs@[i as int].deep_view());
        let acc = cat3(var, " . ", fs[i].name.as_str());
        let c = make_aligned(cx, &fs[i].ty, acc.as_str(), depth);
        out = put_listed(out.as_str(), i, c.as_str());
        i += 1;
    }
    out
}

pub(crate) fn make_elements(cx: &TypeCtx, ts: &Vec<Ty>, depth: u128) -> (r: String)
    ensures
        r@ == aligned_elements(cx@, tys_view(ts@), ts@.len(), depth as nat),
        tys_view(ts@).len() == ts@.len(),
    decreases 2 * depth, tys_view(ts@), 0nat,
{
    let ghost v = tys_view(ts@);
    let mut out: String = txt("");
    proof {
        reveal_strlit("");
        assert(out@ =~= aligned_elements(cx@, v, 0, depth as nat));
    }
    let mut i: usize = 0;
    while i < ts.len()
        invariant
            i <= ts@.len(),
            v == tys_view(ts@),
            v.len() == ts@.len(),
            out@ == aligned_elements(cx@, v, i as nat, depth as nat),
        decreases ts@.len() - i,
    {
        assert(v[i as int] == ty_view(ts@[i as int]));
        let n = number(i as u128);
        let acc = cat2("__t . ", n.as_str());
        let c = make_aligned(cx, &ts[i], acc.as_str(), depth);
        out = put_listed(out.as_str(), i, c.as_str());
        i += 1;
    }
    out
}

pub(crate) fn make_repeat(cx: &TypeCtx, t: &Ty, n: u32, depth: u128) -> (r: String)
    ensures
        r@ == aligned_repeat(cx@, t@, n as nat, depth as nat),
    decreases 2 * depth, t@, 2nat,
{
    let mut out: String = txt("");
    proof {
        reveal_strlit("");
        assert(out@ =~= aligned_repeat(cx@, t@, 0, depth as nat));
    }
    let mut i: u32 = 0;
    while i < n
        invariant
            i <= n,
            out@ == aligned_repeat(cx@, t@, i as nat, depth as nat),
        decreases n - i,
    {
        let d = number(i as u128);
        let acc = cat3("__a [", d.as_str(), "]");
        let c = make_aligned(cx, t, acc.as_str(), depth);
        out = put_listed(out.as_str(), i as usize, c.as_str());
        i += 1;
    }
    out
}

/// The expression passed to `AlignedValue::from` for a value reached through
/// `accessor`.
pub(crate) fn accessor_aligned_value_expr(cx: &TypeCtx, inner: Option<&Ty>, accessor: &str) -> (r: String)
    ensures
        r@ == accessor_code(cx@, ty_ref_opt(inner), accessor@),
{
    match inner {
        None => cat3("(", accessor, ")"),
        Some(t) => {
            let depth: u128 = cx.structs.len() as u128 + cx.enums.len() as u128;
            make_aligned(cx, t, accessor, depth)
        }
    }
}

} // verus!
