//! Peeling the ledger container types: `Cell<T>`, `Map<K, V>`, `Set<T>`,
//! `MerkleTree<H, T>` and `[T; N]`.
use crate::expr::{fit_u32, int_literal, int_literal_value, narrow_u32};
use crate::syntax::{arg_view, args_view, segment_view, segments_view, ty_kind_view, ty_ref_opt, ty_view, GenericArg};
use crate::syntax::{GenericArgV, Ty, TyKind, TyKindV, TySegment, TySegmentV, TyV};
use crate::text::same;
use vstd::prelude::*;

verus! {

/// The last segment of a path type.
pub open spec fn last_segment(t: TyV) -> Option<TySegmentV> {
    match t.kind {
        TyKindV::Path { segments, .. } => if segments.len() > 0 {
            Some(segments.last())
        } else {
            None
        },
        _ => None,
    }
}

/// The last segment of a path type with no `<T as Trait>` qualifier.
pub open spec fn plain_last_segment(t: TyV) -> Option<TySegmentV> {
    match t.kind {
        TyKindV::Path { qself, .. } => if qself {
            None
        } else {
            last_segment(t)
        },
        _ => None,
    }
}

pub open spec fn segment_opt(o: Option<&TySegment>) -> Option<TySegmentV> {
    match o {
        Some(s) => Some(segment_view(*s)),
        None => None,
    }
}

/// The last segment of a path type.
pub(crate) fn last_seg(ty: &Ty) -> (r: Option<&TySegment>)
    ensures
        segment_opt(r) == last_segment(ty@),
{
    match &ty.kind {
        TyKind::Path { segments, .. } => {
            let n: usize = segments.len();
            proof {
                assert(ty@.kind == ty_kind_view(ty.kind));
                assert(ty@.kind->segments == segments_view(segments@));
            }
            if n > 0 {
                Some(&segments[n - 1])
            } else {
                None
            }
        }
        _ => None,
    }
}

/// The last segment of a path type with no qualifier.
pub(crate) fn plain_last_seg(ty: &Ty) -> (r: Option<&TySegment>)
    ensures
        segment_opt(r) == plain_last_segment(ty@),
{
    match &ty.kind {
        TyKind::Path { qself, .. } => {
            if *qself {
                None
            } else {
                last_seg(ty)
            }
        }
        _ => None,
    }
}

/// The arguments of the last segment, when it is named `name`.
pub open spec fn args_of(t: TyV, name: Seq<char>) -> Option<Seq<GenericArgV>> {
    match last_segment(t) {
        Some(s) => if s.ident == name {
            s.args
        } else {
            None
        },
        None => None,
    }
}

pub(crate) fn find_args<'a>(ty: &'a Ty, name: &str) -> (r: Option<&'a Vec<GenericArg>>)
    ensures
        match r {
            Some(a) => args_of(ty@, name@) == Some(args_view(a@)),
            None => args_of(ty@, name@) is None,
        },
{
    match last_seg(ty) {
        Some(s) => {
            if same(s.ident.as_str(), name) {
                match &s.args {
                    Some(a) => Some(a),
                    None => None,
                }
            } else {
                None
            }
        }
        None => None,
    }
}

/// The type in the first argument position, if a type stands there.
pub open spec fn leading_type(args: Seq<GenericArgV>) -> Option<TyV> {
    if args.len() > 0 {
        match args[0] {
            GenericArgV::Type(t) => Some(t),
            _ => None,
        }
    } else {
        None
    }
}

fn find_leading_type(args: &Vec<GenericArg>) -> (r: Option<&Ty>)
    ensures
        ty_ref_opt(r) == leading_type(args_view(args@)),
{
    if args.len() > 0 {
        match &args[0] {
            GenericArg::Type(t) => Some(t),
            _ => None,
        }
    } else {
        None
    }
}

/// The arguments that are types, in order.
pub open spec fn type_args(args: Seq<GenericArgV>) -> Seq<TyV>
    decreases args.len(),
{
    if args.len() == 0 {
        seq![]
    } else {
        match args.last() {
            GenericArgV::Type(t) => type_args(args.drop_last()).push(t),
            _ => type_args(args.drop_last()),
        }
    }
}

proof fn lemma_type_args_take(args: Seq<GenericArgV>, k: int)
    requires
        0 <= k <= args.len(),
    ensures
        type_args(args.take(k)).len() <= type_args(args).len(),
        forall|i: int|
            0 <= i < type_args(args.take(k)).len() ==> #[trigger] type_args(args)[i] == type_args(args.take(k))[i],
    decreases args.len() - k,
{
    if k < args.len() {
        lemma_type_args_take(args, k + 1);
        assert(args.take(k + 1).drop_last() =~= args.take(k));
        assert forall|i: int| 0 <= i < type_args(args.take(k)).len() implies #[trigger] type_args(args)[i]
            == type_args(args.take(k))[i] by {
            assert(type_args(args)[i] == type_args(args.take(k + 1))[i]);
        }
    } else {
        assert(args.take(k) =~= args);
    }
}

/// The type argument with `which` type arguments before it.
pub(crate) fn nth_type(args: &Vec<GenericArg>, which: usize) -> (r: Option<&Ty>)
    ensures
        match r {
            Some(t) => which < type_args(args_view(args@)).len() && type_args(args_view(args@))[which as int] == ty_view(*t),
            None => which >= type_args(args_view(args@)).len(),
        },
{
    let ghost a = args_view(args@);
    let mut seen: usize = 0;
    let mut i: usize = 0;
    while i < args.len()
        invariant
            i <= args@.len(),
            a == args_view(args@),
            seen == type_args(a.take(i as int)).len(),
            seen <= which,
            seen <= i,
        decreases args@.len() - i,
    {
        proof {
            assert(a.take(i + 1).drop_last() =~= a.take(i as int));
            assert(a[i as int] == arg_view(args@[i as int]));
        }
        match &args[i] {
            GenericArg::Type(t) => {
                if seen == which {
                    proof {
                        lemma_type_args_take(a, i + 1);
                        assert(type_args(a.take(i + 1))[which as int] == ty_view(*t));
                    }
                    return Some(t);
                }
                seen += 1;
            }
            _ => {}
        }
        i += 1;
    }
    proof {
        assert(a.take(args@.len() as int) =~= a);
    }
    None
}

/// The last argument that is a type.
pub(crate) fn last_type(args: &Vec<GenericArg>) -> (r: Option<&Ty>)
    ensures
        match r {
            Some(t) => type_args(args_view(args@)).len() > 0 && type_args(args_view(args@)).last() == ty_view(*t),
            None => type_args(args_view(args@)).len() == 0,
        },
{
    let ghost a = args_view(args@);
    let mut i: usize = args.len();
    assert(a.take(i as int) =~= a);
    while i > 0
        invariant
            i <= args@.len(),
            a == args_view(args@),
            type_args(a) == type_args(a.take(i as int)),
        decreases i,
    {
        i -= 1;
        proof {
            assert(a.take(i + 1).drop_last() =~= a.take(i as int));
            assert(a[i as int] == arg_view(args@[i as int]));
        }
        match &args[i] {
            GenericArg::Type(t) => {
                return Some(t);
            }
            _ => {}
        }
    }
    None
}

/// `T` of `Cell<T>`.
pub open spec fn cell_inner(t: TyV) -> Option<TyV> {
    match args_of(t, "Cell"@) {
        Some(a) => leading_type(a),
        None => None,
    }
}

/// If `ty` is `Cell<T>`, return `T`.
pub fn extract_cell_inner_type(ty: &Ty) -> (r: Option<&Ty>)
    ensures
        ty_ref_opt(r) == cell_inner(ty@),
{
    match find_args(ty, "Cell") {
        Some(a) => find_leading_type(a),
        None => None,
    }
}

/// `(K, V)` of `Map<K, V>`.
pub open spec fn map_kv(t: TyV) -> Option<(TyV, TyV)> {
    match args_of(t, "Map"@) {
        Some(a) => if type_args(a).len() >= 2 {
            Some((type_args(a)[0], type_args(a)[1]))
        } else {
            None
        },
        None => None,
    }
}

/// If `ty` is `Map<K, V>`, return `(K, V)`.
pub fn extract_map_kv_types(ty: &Ty) -> (r: Option<(&Ty, &Ty)>)
    ensures
        match r {
            Some((k, v)) => map_kv(ty@) == Some((ty_view(*k), ty_view(*v))),
            None => map_kv(ty@) is None,
        },
{
    match find_args(ty, "Map") {
        Some(a) => match nth_type(a, 0) {
            Some(k) => match nth_type(a, 1) {
                Some(v) => Some((k, v)),
                None => None,
            },
            None => None,
        },
        None => None,
    }
}

/// `T` of `Set<T>`.
pub open spec fn set_inner(t: TyV) -> Option<TyV> {
    match args_of(t, "Set"@) {
        Some(a) => leading_type(a),
        None => None,
    }
}

/// If `ty` is `Set<T>`, return `T`.
pub fn extract_set_inner_type(ty: &Ty) -> (r: Option<&Ty>)
    ensures
        ty_ref_opt(r) == set_inner(ty@),
{
    match find_args(ty, "Set") {
        Some(a) => find_leading_type(a),
        None => None,
    }
}

/// The leaf type of `MerkleTree<H, T>`: its first type argument.
pub open spec fn merkle_leaf(t: TyV) -> Option<TyV> {
    match args_of(t, "MerkleTree"@) {
        Some(a) => if type_args(a).len() >= 1 {
            Some(type_args(a)[0])
        } else {
            None
        },
        None => None,
    }
}

/// If `ty` is `MerkleTree<H, T>`, return the leaf type `T`.
pub fn extract_merkle_tree_type(ty: &Ty) -> (r: Option<&Ty>)
    ensures
        ty_ref_opt(r) == merkle_leaf(ty@),
{
    match find_args(ty, "MerkleTree") {
        Some(a) => nth_type(a, 0),
        None => None,
    }
}

/// `(T, N)` of `[T; N]` with an integer-literal length that fits `u32`.
pub open spec fn array_parts(t: TyV) -> Option<(TyV, u32)> {
    match t.kind {
        TyKindV::Array { elem, len } => match len {
            Some(text) => match narrow_u32(int_literal_value(text)) {
                Some(n) => Some((*elem, n)),
                None => None,
            },
            None => None,
        },
        _ => None,
    }
}

/// If `ty` is `[T; N]` with an integer-literal length, return `(T, N)`.
pub fn extract_array_type(ty: &Ty) -> (r: Option<(&Ty, u32)>)
    ensures
        match r {
            Some((t, n)) => array_parts(ty@) == Some((ty_view(*t), n)),
            None => array_parts(ty@) is None,
        },
{
    match &ty.kind {
        TyKind::Array { elem, len } => match len {
            Some(text) => match fit_u32(int_literal(text.as_str())) {
                Some(n) => Some((&**elem, n)),
                None => None,
            },
            None => None,
        },
        _ => None,
    }
}

/// `T` of `Option<T>`, for any unqualified path that ends in `Option`.
pub open spec fn option_payload(t: TyV) -> Option<TyV> {
    match plain_last_segment(t) {
        Some(s) => match s.args {
            Some(a) => if s.ident == "Option"@ && a.len() == 1 {
                leading_type(a)
            } else {
                None
            },
            None => None,
        },
        None => None,
    }
}

/// If `ty` is `Option<T>`, return `T`.
pub fn option_payload_type(ty: &Ty) -> (r: Option<&Ty>)
    ensures
        ty_ref_opt(r) == option_payload(ty@),
{
    match plain_last_seg(ty) {
        Some(s) => match &s.args {
            Some(a) => {
                if same(s.ident.as_str(), "Option") && a.len() == 1 {
                    find_leading_type(a)
                } else {
                    None
                }
            }
            None => None,
        },
        None => None,
    }
}

} // verus!
