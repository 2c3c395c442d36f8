//! The pieces of generated transcript code, each with the holes that callers
//! fill.
use crate::text::{cat2, cat3, cat4, cat5, cat6, cat7, cat9};
use vstd::prelude::*;

verus! {

/// A witness field as a primitive.
#[verifier::opaque]
pub open spec fn witness_value(f: Seq<char>) -> Seq<char> {
    "witnesses . "@
        + f
        + " . value ()"@
}

pub(crate) fn make_witness_value(f: &str) -> (out: String)
    ensures
        out@ == witness_value(f@),
{
    proof {
        reveal(witness_value);
    }
    cat3(
        "witnesses . ",
        f,
        " . value ()",
    )
}

/// A witness field as a value of its own.
#[verifier::opaque]
pub open spec fn witness_clone(f: Seq<char>) -> Seq<char> {
    "witnesses . "@
        + f
        + " . clone ()"@
}

pub(crate) fn make_witness_clone(f: &str) -> (out: String)
    ensures
        out@ == witness_clone(f@),
{
    proof {
        reveal(witness_clone);
    }
    cat3(
        "witnesses . ",
        f,
        " . clone ()",
    )
}

/// A call of a witness method.
#[verifier::opaque]
pub open spec fn witness_call_code(m: Seq<char>, args: Seq<char>) -> Seq<char> {
    "witnesses . "@
        + m
        + " ("@
        + args
        + ")"@
}

pub(crate) fn make_witness_call_code(m: &str, args: &str) -> (out: String)
    ensures
        out@ == witness_call_code(m@, args@),
{
    proof {
        reveal(witness_call_code);
    }
    cat5(
        "witnesses . ",
        m,
        " (",
        args,
        ")",
    )
}

#[verifier::opaque]
pub open spec fn value_of(x: Seq<char>) -> Seq<char> {
    x
        + " . value ()"@
}

pub(crate) fn make_value_of(x: &str) -> (out: String)
    ensures
        out@ == value_of(x@),
{
    proof {
        reveal(value_of);
    }
    cat2(
        x,
        " . value ()",
    )
}

#[verifier::opaque]
pub open spec fn clone_of(x: Seq<char>) -> Seq<char> {
    x
        + " . clone ()"@
}

pub(crate) fn make_clone_of(x: &str) -> (out: String)
    ensures
        out@ == clone_of(x@),
{
    proof {
        reveal(clone_of);
    }
    cat2(
        x,
        " . clone ()",
    )
}

#[verifier::opaque]
pub open spec fn bare_call(r: Seq<char>, m: Seq<char>) -> Seq<char> {
    r
        + " . "@
        + m
        + " ()"@
}

pub(crate) fn make_bare_call(r: &str, m: &str) -> (out: String)
    ensures
        out@ == bare_call(r@, m@),
{
    proof {
        reveal(bare_call);
    }
    cat4(
        r,
        " . ",
        m,
        " ()",
    )
}

#[verifier::opaque]
pub open spec fn method_code(r: Seq<char>, m: Seq<char>, args: Seq<char>) -> Seq<char> {
    r
        + " . "@
        + m
        + " ("@
        + args
        + ")"@
}

pub(crate) fn make_method_code(r: &str, m: &str, args: &str) -> (out: String)
    ensures
        out@ == method_code(r@, m@, args@),
{
    proof {
        reveal(method_code);
    }
    cat6(
        r,
        " . ",
        m,
        " (",
        args,
        ")",
    )
}

#[verifier::opaque]
pub open spec fn paren_method(r: Seq<char>, m: Seq<char>, args: Seq<char>) -> Seq<char> {
    "("@
        + r
        + ") . "@
        + m
        + " ("@
        + args
        + ")"@
}

pub(crate) fn make_paren_method(r: &str, m: &str, args: &str) -> (out: String)
    ensures
        out@ == paren_method(r@, m@, args@),
{
    proof {
        reveal(paren_method);
    }
    cat7(
        "(",
        r,
        ") . ",
        m,
        " (",
        args,
        ")",
    )
}

#[verifier::opaque]
pub open spec fn index_value(a: Seq<char>, i: Seq<char>) -> Seq<char> {
    "("@
        + a
        + ") ["@
        + i
        + "] . value ()"@
}

pub(crate) fn make_index_value(a: &str, i: &str) -> (out: String)
    ensures
        out@ == index_value(a@, i@),
{
    proof {
        reveal(index_value);
    }
    cat5(
        "(",
        a,
        ") [",
        i,
        "] . value ()",
    )
}

#[verifier::opaque]
pub open spec fn index_clone(a: Seq<char>, i: Seq<char>) -> Seq<char> {
    "("@
        + a
        + ") ["@
        + i
        + "] . clone ()"@
}

pub(crate) fn make_index_clone(a: &str, i: &str) -> (out: String)
    ensures
        out@ == index_clone(a@, i@),
{
    proof {
        reveal(index_clone);
    }
    cat5(
        "(",
        a,
        ") [",
        i,
        "] . clone ()",
    )
}

#[verifier::opaque]
pub open spec fn infix(l: Seq<char>, o: Seq<char>, r: Seq<char>) -> Seq<char> {
    l
        + " "@
        + o
        + " "@
        + r
}

pub(crate) fn make_infix(l: &str, o: &str, r: &str) -> (out: String)
    ensures
        out@ == infix(l@, o@, r@),
{
    proof {
        reveal(infix);
    }
    cat5(
        l,
        " ",
        o,
        " ",
        r,
    )
}

#[verifier::opaque]
pub open spec fn infix_paren(l: Seq<char>, o: Seq<char>, r: Seq<char>) -> Seq<char> {
    "("@
        + l
        + " "@
        + o
        + " "@
        + r
        + ")"@
}

pub(crate) fn make_infix_paren(l: &str, o: &str, r: &str) -> (out: String)
    ensures
        out@ == infix_paren(l@, o@, r@),
{
    proof {
        reveal(infix_paren);
    }
    cat7(
        "(",
        l,
        " ",
        o,
        " ",
        r,
        ")",
    )
}

#[verifier::opaque]
pub open spec fn prefix_paren(o: Seq<char>, x: Seq<char>) -> Seq<char> {
    "("@
        + o
        + " "@
        + x
        + ")"@
}

pub(crate) fn make_prefix_paren(o: &str, x: &str) -> (out: String)
    ensures
        out@ == prefix_paren(o@, x@),
{
    proof {
        reveal(prefix_paren);
    }
    cat5(
        "(",
        o,
        " ",
        x,
        ")",
    )
}

#[verifier::opaque]
pub open spec fn array_code(list: Seq<char>) -> Seq<char> {
    "["@
        + list
        + "]"@
}

pub(crate) fn make_array_code(list: &str) -> (out: String)
    ensures
        out@ == array_code(list@),
{
    proof {
        reveal(array_code);
    }
    cat3(
        "[",
        list,
        "]",
    )
}

#[verifier::opaque]
pub open spec fn field_init(f: Seq<char>, v: Seq<char>) -> Seq<char> {
    f
        + " : "@
        + v
}

pub(crate) fn make_field_init(f: &str, v: &str) -> (out: String)
    ensures
        out@ == field_init(f@, v@),
{
    proof {
        reveal(field_init);
    }
    cat3(
        f,
        " : ",
        v,
    )
}

/// A struct literal; the initializers stand in braces.
#[verifier::opaque]
pub open spec fn struct_code(n: Seq<char>, inits: Seq<char>) -> Seq<char> {
    n
        + " "@
        + inits
}

pub(crate) fn make_struct_code(n: &str, inits: &str) -> (out: String)
    ensures
        out@ == struct_code(n@, inits@),
{
    proof {
        reveal(struct_code);
    }
    cat3(
        n,
        " ",
        inits,
    )
}

#[verifier::opaque]
pub open spec fn call_code(p: Seq<char>, args: Seq<char>) -> Seq<char> {
    p
        + " ("@
        + args
        + ")"@
}

pub(crate) fn make_call_code(p: &str, args: &str) -> (out: String)
    ensures
        out@ == call_code(p@, args@),
{
    proof {
        reveal(call_code);
    }
    cat4(
        p,
        " (",
        args,
        ")",
    )
}

#[verifier::opaque]
pub open spec fn call_value(p: Seq<char>, args: Seq<char>) -> Seq<char> {
    p
        + " ("@
        + args
        + ") . value ()"@
}

pub(crate) fn make_call_value(p: &str, args: &str) -> (out: String)
    ensures
        out@ == call_value(p@, args@),
{
    proof {
        reveal(call_value);
    }
    cat4(
        p,
        " (",
        args,
        ") . value ()",
    )
}

#[verifier::opaque]
pub open spec fn path_root_code(arg: Seq<char>) -> Seq<char> {
    "nocturne :: types :: merkle_tree_path_root (& "@
        + arg
        + ")"@
}

pub(crate) fn make_path_root_code(arg: &str) -> (out: String)
    ensures
        out@ == path_root_code(arg@),
{
    proof {
        reveal(path_root_code);
    }
    cat3(
        "nocturne :: types :: merkle_tree_path_root (& ",
        arg,
        ")",
    )
}

#[verifier::opaque]
pub open spec fn paren(x: Seq<char>) -> Seq<char> {
    "("@
        + x
        + ")"@
}

pub(crate) fn make_paren(x: &str) -> (out: String)
    ensures
        out@ == paren(x@),
{
    proof {
        reveal(paren);
    }
    cat3(
        "(",
        x,
        ")",
    )
}

#[verifier::opaque]
pub open spec fn bytes_of(x: Seq<char>) -> Seq<char> {
    "* ("@
        + x
        + ") . as_bytes ()"@
}

pub(crate) fn make_bytes_of(x: &str) -> (out: String)
    ensures
        out@ == bytes_of(x@),
{
    proof {
        reveal(bytes_of);
    }
    cat3(
        "* (",
        x,
        ") . as_bytes ()",
    )
}

#[verifier::opaque]
pub open spec fn fr_of(x: Seq<char>) -> Seq<char> {
    "Fr :: from (("@
        + x
        + ") . value ())"@
}

pub(crate) fn make_fr_of(x: &str) -> (out: String)
    ensures
        out@ == fr_of(x@),
{
    proof {
        reveal(fr_of);
    }
    cat3(
        "Fr :: from ((",
        x,
        ") . value ())",
    )
}

#[verifier::opaque]
pub open spec fn digest_fr(x: Seq<char>) -> Seq<char> {
    "Fr :: from_le_bytes (& ("@
        + x
        + ") . as_le_bytes ()) . expect (\"MerkleTreeDigest bytes round-trip through Fr\")"@
}

pub(crate) fn make_digest_fr(x: &str) -> (out: String)
    ensures
        out@ == digest_fr(x@),
{
    proof {
        reveal(digest_fr);
    }
    cat3(
        "Fr :: from_le_bytes (& (",
        x,
        ") . as_le_bytes ()) . expect (\"MerkleTreeDigest bytes round-trip through Fr\")",
    )
}

#[verifier::opaque]
pub open spec fn value_cast(x: Seq<char>, c: Seq<char>) -> Seq<char> {
    "("@
        + x
        + ") . value () "@
        + c
}

pub(crate) fn make_value_cast(x: &str, c: &str) -> (out: String)
    ensures
        out@ == value_cast(x@, c@),
{
    proof {
        reveal(value_cast);
    }
    cat4(
        "(",
        x,
        ") . value () ",
        c,
    )
}

#[verifier::opaque]
pub open spec fn paren_cast(x: Seq<char>, c: Seq<char>) -> Seq<char> {
    "("@
        + x
        + ") "@
        + c
}

pub(crate) fn make_paren_cast(x: &str, c: &str) -> (out: String)
    ensures
        out@ == paren_cast(x@, c@),
{
    proof {
        reveal(paren_cast);
    }
    cat4(
        "(",
        x,
        ") ",
        c,
    )
}

#[verifier::opaque]
pub open spec fn paren_value(x: Seq<char>) -> Seq<char> {
    "("@
        + x
        + ") . value ()"@
}

pub(crate) fn make_paren_value(x: &str) -> (out: String)
    ensures
        out@ == paren_value(x@),
{
    proof {
        reveal(paren_value);
    }
    cat3(
        "(",
        x,
        ") . value ()",
    )
}

/// The discriminant of an option.
#[verifier::opaque]
pub open spec fn option_disc(a: Seq<char>) -> Seq<char> {
    "match "@
        + a
        + " { :: core :: option :: Option :: Some (_) => 1u8 , :: core :: option :: Option :: None => 0u8 }"@
}

pub(crate) fn make_option_disc(a: &str) -> (out: String)
    ensures
        out@ == option_disc(a@),
{
    proof {
        reveal(option_disc);
    }
    cat3(
        "match ",
        a,
        " { :: core :: option :: Option :: Some (_) => 1u8 , :: core :: option :: Option :: None => 0u8 }",
    )
}

/// The discriminant of a user enum.
#[verifier::opaque]
pub open spec fn enum_disc(a: Seq<char>) -> Seq<char> {
    "("@
        + a
        + ") . discriminant ()"@
}

pub(crate) fn make_enum_disc(a: &str) -> (out: String)
    ensures
        out@ == enum_disc(a@),
{
    proof {
        reveal(enum_disc);
    }
    cat3(
        "(",
        a,
        ") . discriminant ()",
    )
}

/// A discriminant and payload taken from one value.
#[verifier::opaque]
pub open spec fn payload_block(raw: Seq<char>, pm: Seq<char>, disc: Seq<char>, repr: Seq<char>) -> Seq<char> {
    "{ let __e = "@
        + raw
        + " ; let __payload = "@
        + pm
        + " ; ("@
        + disc
        + " , "@
        + repr
        + ") }"@
}

pub(crate) fn make_payload_block(raw: &str, pm: &str, disc: &str, repr: &str) -> (out: String)
    ensures
        out@ == payload_block(raw@, pm@, disc@, repr@),
{
    proof {
        reveal(payload_block);
    }
    cat9(
        "{ let __e = ",
        raw,
        " ; let __payload = ",
        pm,
        " ; (",
        disc,
        " , ",
        repr,
        ") }",
    )
}

#[verifier::opaque]
pub open spec fn option_match(s: Seq<char>, ty: Seq<char>) -> Seq<char> {
    "match "@
        + s
        + " { Some (__p) => __p , None => < "@
        + ty
        + " as :: core :: default :: Default > :: default () , }"@
}

pub(crate) fn make_option_match(s: &str, ty: &str) -> (out: String)
    ensures
        out@ == option_match(s@, ty@),
{
    proof {
        reveal(option_match);
    }
    cat5(
        "match ",
        s,
        " { Some (__p) => __p , None => < ",
        ty,
        " as :: core :: default :: Default > :: default () , }",
    )
}

#[verifier::opaque]
pub open spec fn enum_match(s: Seq<char>, arms: Seq<char>) -> Seq<char> {
    "match "@
        + s
        + " { "@
        + arms
        + " }"@
}

pub(crate) fn make_enum_match(s: &str, arms: &str) -> (out: String)
    ensures
        out@ == enum_match(s@, arms@),
{
    proof {
        reveal(enum_match);
    }
    cat5(
        "match ",
        s,
        " { ",
        arms,
        " }",
    )
}

#[verifier::opaque]
pub open spec fn state_get(f: Seq<char>) -> Seq<char> {
    "__nocturne_state . "@
        + f
        + " . get ()"@
}

pub(crate) fn make_state_get(f: &str) -> (out: String)
    ensures
        out@ == state_get(f@),
{
    proof {
        reveal(state_get);
    }
    cat3(
        "__nocturne_state . ",
        f,
        " . get ()",
    )
}

#[verifier::opaque]
pub open spec fn state_value(f: Seq<char>) -> Seq<char> {
    "__nocturne_state . "@
        + f
        + " . value ()"@
}

pub(crate) fn make_state_value(f: &str) -> (out: String)
    ensures
        out@ == state_value(f@),
{
    proof {
        reveal(state_value);
    }
    cat3(
        "__nocturne_state . ",
        f,
        " . value ()",
    )
}

#[verifier::opaque]
pub open spec fn state_lookup(f: Seq<char>, key: Seq<char>) -> Seq<char> {
    "__nocturne_state . "@
        + f
        + " . lookup (& "@
        + key
        + ")"@
}

pub(crate) fn make_state_lookup(f: &str, key: &str) -> (out: String)
    ensures
        out@ == state_lookup(f@, key@),
{
    proof {
        reveal(state_lookup);
    }
    cat5(
        "__nocturne_state . ",
        f,
        " . lookup (& ",
        key,
        ")",
    )
}

#[verifier::opaque]
pub open spec fn if_value(c: Seq<char>, a: Seq<char>, b: Seq<char>) -> Seq<char> {
    "if "@
        + c
        + " { "@
        + a
        + " } else { "@
        + b
        + " }"@
}

pub(crate) fn make_if_value(c: &str, a: &str, b: &str) -> (out: String)
    ensures
        out@ == if_value(c@, a@, b@),
{
    proof {
        reveal(if_value);
    }
    cat7(
        "if ",
        c,
        " { ",
        a,
        " } else { ",
        b,
        " }",
    )
}

#[verifier::opaque]
pub open spec fn let_code(n: Seq<char>, x: Seq<char>) -> Seq<char> {
    "# [allow (non_snake_case , unused_variables)] let "@
        + n
        + " = "@
        + x
        + " ;"@
}

pub(crate) fn make_let_code(n: &str, x: &str) -> (out: String)
    ensures
        out@ == let_code(n@, x@),
{
    proof {
        reveal(let_code);
    }
    cat5(
        "# [allow (non_snake_case , unused_variables)] let ",
        n,
        " = ",
        x,
        " ;",
    )
}

#[verifier::opaque]
pub open spec fn if_code(c: Seq<char>, t: Seq<char>) -> Seq<char> {
    "if "@
        + c
        + " "@
        + t
}

pub(crate) fn make_if_code(c: &str, t: &str) -> (out: String)
    ensures
        out@ == if_code(c@, t@),
{
    proof {
        reveal(if_code);
    }
    cat4(
        "if ",
        c,
        " ",
        t,
    )
}

#[verifier::opaque]
pub open spec fn if_else_code(c: Seq<char>, t: Seq<char>, e: Seq<char>) -> Seq<char> {
    "if "@
        + c
        + " "@
        + t
        + " else "@
        + e
}

pub(crate) fn make_if_else_code(c: &str, t: &str, e: &str) -> (out: String)
    ensures
        out@ == if_else_code(c@, t@, e@),
{
    proof {
        reveal(if_else_code);
    }
    cat6(
        "if ",
        c,
        " ",
        t,
        " else ",
        e,
    )
}

#[verifier::opaque]
pub open spec fn assert_code(c: Seq<char>) -> Seq<char> {
    "assert ! ("@
        + c
        + " , \"nocturne: circuit assertion failed\") ;"@
}

pub(crate) fn make_assert_code(c: &str) -> (out: String)
    ensures
        out@ == assert_code(c@),
{
    proof {
        reveal(assert_code);
    }
    cat3(
        "assert ! (",
        c,
        " , \"nocturne: circuit assertion failed\") ;",
    )
}

#[verifier::opaque]
pub open spec fn assert_eq_code(a: Seq<char>, b: Seq<char>) -> Seq<char> {
    "assert_eq ! ("@
        + a
        + " , "@
        + b
        + " , \"nocturne: circuit assert_eq! failed\") ;"@
}

pub(crate) fn make_assert_eq_code(a: &str, b: &str) -> (out: String)
    ensures
        out@ == assert_eq_code(a@, b@),
{
    proof {
        reveal(assert_eq_code);
    }
    cat5(
        "assert_eq ! (",
        a,
        " , ",
        b,
        " , \"nocturne: circuit assert_eq! failed\") ;",
    )
}

#[verifier::opaque]
pub open spec fn call_push_code(m: Seq<char>, args: Seq<char>, push: Seq<char>) -> Seq<char> {
    "{ let __wc = witnesses . "@
        + m
        + " ("@
        + args
        + ") ; "@
        + push
        + " }"@
}

pub(crate) fn make_call_push_code(m: &str, args: &str, push: &str) -> (out: String)
    ensures
        out@ == call_push_code(m@, args@, push@),
{
    proof {
        reveal(call_push_code);
    }
    cat7(
        "{ let __wc = witnesses . ",
        m,
        " (",
        args,
        ") ; ",
        push,
        " }",
    )
}

/// A witness value, pushed whole and as field elements.
#[verifier::opaque]
pub open spec fn value_push_code(c: Seq<char>) -> Seq<char> {
    "{ use nocturne :: runtime :: transient_crypto :: fab :: AlignedValueExt ; let __av = AlignedValue :: from ("@
        + c
        + ") ; __av . value_only_field_repr (& mut __nocturne_private_transcript) ; __nocturne_private_transcript_outputs . push (__av) ; }"@
}

pub(crate) fn make_value_push_code(c: &str) -> (out: String)
    ensures
        out@ == value_push_code(c@),
{
    proof {
        reveal(value_push_code);
    }
    cat3(
        "{ use nocturne :: runtime :: transient_crypto :: fab :: AlignedValueExt ; let __av = AlignedValue :: from (",
        c,
        ") ; __av . value_only_field_repr (& mut __nocturne_private_transcript) ; __nocturne_private_transcript_outputs . push (__av) ; }",
    )
}

/// A Merkle path: the leaf, and each sibling with its side.
#[verifier::opaque]
pub open spec fn path_push_code(leaf: Seq<char>, acc: Seq<char>) -> Seq<char> {
    "{ use nocturne :: runtime :: transient_crypto :: fab :: AlignedValueExt ; let __av = AlignedValue :: from ("@
        + leaf
        + ") ; __av . value_only_field_repr (& mut __nocturne_private_transcript) ; __nocturne_private_transcript_outputs . push (__av) ; for __entry in ("@
        + acc
        + ") . path . iter () { let __sib = AlignedValue :: from (Fr :: from_le_bytes (& __entry . sibling . as_le_bytes ()) . expect (\"MerkleTreeDigest bytes round-trip through Fr\") ,) ; __sib . value_only_field_repr (& mut __nocturne_private_transcript) ; __nocturne_private_transcript_outputs . push (__sib) ; let __gl = AlignedValue :: from (__entry . goes_left . value ()) ; __gl . value_only_field_repr (& mut __nocturne_private_transcript) ; __nocturne_private_transcript_outputs . push (__gl) ; } }"@
}

pub(crate) fn make_path_push_code(leaf: &str, acc: &str) -> (out: String)
    ensures
        out@ == path_push_code(leaf@, acc@),
{
    proof {
        reveal(path_push_code);
    }
    cat5(
        "{ use nocturne :: runtime :: transient_crypto :: fab :: AlignedValueExt ; let __av = AlignedValue :: from (",
        leaf,
        ") ; __av . value_only_field_repr (& mut __nocturne_private_transcript) ; __nocturne_private_transcript_outputs . push (__av) ; for __entry in (",
        acc,
        ") . path . iter () { let __sib = AlignedValue :: from (Fr :: from_le_bytes (& __entry . sibling . as_le_bytes ()) . expect (\"MerkleTreeDigest bytes round-trip through Fr\") ,) ; __sib . value_only_field_repr (& mut __nocturne_private_transcript) ; __nocturne_private_transcript_outputs . push (__sib) ; let __gl = AlignedValue :: from (__entry . goes_left . value ()) ; __gl . value_only_field_repr (& mut __nocturne_private_transcript) ; __nocturne_private_transcript_outputs . push (__gl) ; } }",
    )
}

#[verifier::opaque]
pub open spec fn leaf_of(acc: Seq<char>) -> Seq<char> {
    "("@
        + acc
        + ") . leaf"@
}

pub(crate) fn make_leaf_of(acc: &str) -> (out: String)
    ensures
        out@ == leaf_of(acc@),
{
    proof {
        reveal(leaf_of);
    }
    cat3(
        "(",
        acc,
        ") . leaf",
    )
}

#[verifier::opaque]
pub open spec fn cast_disc(d: Seq<char>) -> Seq<char> {
    "("@
        + d
        + " as u64)"@
}

pub(crate) fn make_cast_disc(d: &str) -> (out: String)
    ensures
        out@ == cast_disc(d@),
{
    proof {
        reveal(cast_disc);
    }
    cat3(
        "(",
        d,
        " as u64)",
    )
}

#[verifier::opaque]
pub open spec fn path_disc(p: Seq<char>) -> Seq<char> {
    "(("@
        + p
        + ") . discriminant () as u64)"@
}

pub(crate) fn make_path_disc(p: &str) -> (out: String)
    ensures
        out@ == path_disc(p@),
{
    proof {
        reveal(path_disc);
    }
    cat3(
        "((",
        p,
        ") . discriminant () as u64)",
    )
}

#[verifier::opaque]
pub open spec fn witness_option_disc(f: Seq<char>) -> Seq<char> {
    "(match witnesses . "@
        + f
        + " { :: core :: option :: Option :: Some (_) => 1u64 , :: core :: option :: Option :: None => 0u64 , })"@
}

pub(crate) fn make_witness_option_disc(f: &str) -> (out: String)
    ensures
        out@ == witness_option_disc(f@),
{
    proof {
        reveal(witness_option_disc);
    }
    cat3(
        "(match witnesses . ",
        f,
        " { :: core :: option :: Option :: Some (_) => 1u64 , :: core :: option :: Option :: None => 0u64 , })",
    )
}

#[verifier::opaque]
pub open spec fn witness_disc(f: Seq<char>) -> Seq<char> {
    "(witnesses . "@
        + f
        + " . discriminant () as u64)"@
}

pub(crate) fn make_witness_disc(f: &str) -> (out: String)
    ensures
        out@ == witness_disc(f@),
{
    proof {
        reveal(witness_disc);
    }
    cat3(
        "(witnesses . ",
        f,
        " . discriminant () as u64)",
    )
}

#[verifier::opaque]
pub open spec fn var_disc(n: Seq<char>) -> Seq<char> {
    "("@
        + n
        + " . discriminant () as u64)"@
}

pub(crate) fn make_var_disc(n: &str) -> (out: String)
    ensures
        out@ == var_disc(n@),
{
    proof {
        reveal(var_disc);
    }
    cat3(
        "(",
        n,
        " . discriminant () as u64)",
    )
}

#[verifier::opaque]
pub open spec fn option_payload_code(s: Seq<char>) -> Seq<char> {
    "match "@
        + s
        + " { :: core :: option :: Option :: Some (__p) => __p , :: core :: option :: Option :: None => :: core :: default :: Default :: default () , }"@
}

pub(crate) fn make_option_payload_code(s: &str) -> (out: String)
    ensures
        out@ == option_payload_code(s@),
{
    proof {
        reveal(option_payload_code);
    }
    cat3(
        "match ",
        s,
        " { :: core :: option :: Option :: Some (__p) => __p , :: core :: option :: Option :: None => :: core :: default :: Default :: default () , }",
    )
}

#[verifier::opaque]
pub open spec fn nonzero(n: Seq<char>) -> Seq<char> {
    n
        + " != 0"@
}

pub(crate) fn make_nonzero(n: &str) -> (out: String)
    ensures
        out@ == nonzero(n@),
{
    proof {
        reveal(nonzero);
    }
    cat2(
        n,
        " != 0",
    )
}

#[verifier::opaque]
pub open spec fn state_param(l: Seq<char>) -> Seq<char> {
    "__nocturne_state : & "@
        + l
}

pub(crate) fn make_state_param(l: &str) -> (out: String)
    ensures
        out@ == state_param(l@),
{
    proof {
        reveal(state_param);
    }
    cat2(
        "__nocturne_state : & ",
        l,
    )
}

#[verifier::opaque]
pub open spec fn witnesses_param(w: Seq<char>) -> Seq<char> {
    "witnesses : "@
        + w
}

pub(crate) fn make_witnesses_param(w: &str) -> (out: String)
    ensures
        out@ == witnesses_param(w@),
{
    proof {
        reveal(witnesses_param);
    }
    cat2(
        "witnesses : ",
        w,
    )
}

#[verifier::opaque]
pub open spec fn ref_to(w: Seq<char>) -> Seq<char> {
    "& "@
        + w
}

pub(crate) fn make_ref_to(w: &str) -> (out: String)
    ensures
        out@ == ref_to(w@),
{
    proof {
        reveal(ref_to);
    }
    cat2(
        "& ",
        w,
    )
}

/// A transcript builder function.
#[verifier::opaque]
pub open spec fn fn_code(doc: Seq<char>, name: Seq<char>, params: Seq<char>, rest: Seq<char>) -> Seq<char> {
    "# [doc = "@
        + doc
        + "] pub fn "@
        + name
        + " ("@
        + params
        + ") -> TranscriptResult { let mut __nocturne_ops : Vec < VmOp > = Vec :: new () ; let mut __nocturne_private_transcript : Vec < Fr > = Vec :: new () ; let mut __nocturne_private_transcript_outputs : Vec < AlignedValue > = Vec :: new () ; "@
        + rest
        + " }"@
}

pub(crate) fn make_fn_code(doc: &str, name: &str, params: &str, rest: &str) -> (out: String)
    ensures
        out@ == fn_code(doc@, name@, params@, rest@),
{
    proof {
        reveal(fn_code);
    }
    cat9(
        "# [doc = ",
        doc,
        "] pub fn ",
        name,
        " (",
        params,
        ") -> TranscriptResult { let mut __nocturne_ops : Vec < VmOp > = Vec :: new () ; let mut __nocturne_private_transcript : Vec < Fr > = Vec :: new () ; let mut __nocturne_private_transcript_outputs : Vec < AlignedValue > = Vec :: new () ; ",
        rest,
        " }",
    )
}

/// The transcript module.
#[verifier::opaque]
pub open spec fn module_code(inner: Seq<char>) -> Seq<char> {
    "# [doc = r\" Generated transcript builders for contract circuits.\"] pub mod transcript { "@
        + inner
        + " }"@
}

pub(crate) fn make_module_code(inner: &str) -> (out: String)
    ensures
        out@ == module_code(inner@),
{
    proof {
        reveal(module_code);
    }
    cat3(
        "# [doc = r\" Generated transcript builders for contract circuits.\"] pub mod transcript { ",
        inner,
        " }",
    )
}

} // verus!
