//! A resolved, type-only view of a contract value type.
//!
//! Two things are computed from a value type and have to agree: its on-chain
//! encoding (alignment atoms and number of field elements) and the per-element
//! constraint layout. `resolve` walks a type once into a `NocturneType`; both
//! are then computed from that, and `layout_matches_encoding` proves that they
//! never disagree on the number of elements.
use crate::containers::{array_parts, extract_array_type, option_payload, option_payload_type, plain_last_seg};
use crate::containers::plain_last_segment;
use crate::contract::{enums_view, find_enum, find_struct, lookup, structs_view, EnumVariantV, StructFieldV};
use crate::contract::{UserEnumVariant, UserStructField};
use crate::syntax::{ty_kind_view, tys_view, Ty, TyKind, TyKindV, TyV};
use crate::text::{no_spaces, same, strip_spaces};
use crate::typing::{angle_u32, parse_uint_type, read_angle_u32, uint_bits};
use vstd::prelude::*;

verus! {

/// Bytes that fit in one field element's representation.
pub const FR_BYTES_STORED: u32 = 31;

/// Constraint of one field element of a value.
#[derive(Debug, Clone, Copy, PartialEq, Eq, Structural)]
pub enum FrLayout {
    /// Constrained to a number of bits.
    Bits(u32),
    /// Constrained to zero or one.
    Boolean,
    /// Unconstrained: a native field element.
    Field,
}

/// On-chain shape of a value.
#[derive(Debug, Clone, PartialEq, Eq)]
pub struct AlignedEncoding {
    /// The first atom is the number of atoms behind it; those are byte
    /// lengths, or `-2` for a native field element.
    pub alignment_atoms: Vec<i32>,
    /// Number of field elements the value occupies.
    pub value_field_count: usize,
}

#[verifier::ext_equal]
pub struct EncodingV {
    pub alignment_atoms: Seq<i32>,
    pub value_field_count: nat,
}

impl View for AlignedEncoding {
    type V = EncodingV;

    open spec fn view(&self) -> EncodingV {
        EncodingV { alignment_atoms: self.alignment_atoms@, value_field_count: self.value_field_count as nat }
    }
}

pub open spec fn encoding_opt(o: Option<AlignedEncoding>) -> Option<EncodingV> {
    match o {
        Some(e) => Some(e@),
        None => None,
    }
}

/// The user-declared types that named types resolve against.
pub struct TypeCtx<'a> {
    pub structs: &'a Vec<(String, Vec<UserStructField>)>,
    pub enums: &'a Vec<(String, Vec<UserEnumVariant>)>,
}

pub struct TypeCtxV {
    pub structs: Seq<(Seq<char>, Seq<StructFieldV>)>,
    pub enums: Seq<(Seq<char>, Seq<EnumVariantV>)>,
}

impl<'a> View for TypeCtx<'a> {
    type V = TypeCtxV;

    open spec fn view(&self) -> TypeCtxV {
        TypeCtxV { structs: structs_view(self.structs@), enums: enums_view(self.enums@) }
    }
}

impl<'a> TypeCtx<'a> {
    /// A context over the given definitions.
    pub fn new(
        structs: &'a Vec<(String, Vec<UserStructField>)>,
        enums: &'a Vec<(String, Vec<UserEnumVariant>)>,
    ) -> (r: Self)
        ensures
            r@ == (TypeCtxV { structs: structs_view(structs@), enums: enums_view(enums@) }),
    {
        TypeCtx { structs, enums }
    }
}

/// A resolved contract value type: one that has an on-chain encoding.
#[derive(Debug, PartialEq, Eq)]
pub enum NocturneType {
    /// `Boolean` or `bool`, encoded as one byte.
    Bool,
    /// A native field element.
    Field,
    /// A Merkle root, with the wire shape of a field element.
    MerkleTreeDigest,
    /// `Uint<N>` or `uN`, by bit width.
    Uint(u32),
    /// `Bytes<N>`.
    Bytes(u32),
    /// `Option<T>`: a one-byte discriminant, then `T`.
    Optional(Box<NocturneType>),
    /// A tuple: its components one after the other.
    Tuple(Vec<NocturneType>),
    /// `[T; N]`: `N` times `T`.
    Array(Box<NocturneType>, u32),
    /// A user struct: its fields one after the other.
    Struct(Vec<NocturneType>),
    /// A user enum of unit variants: a one-byte discriminant.
    EnumUnit,
    /// A user enum whose variants carry one type: discriminant, then payload.
    EnumPayload(Box<NocturneType>),
}

pub enum NocturneTypeV {
    Bool,
    Field,
    MerkleTreeDigest,
    Uint(u32),
    Bytes(u32),
    Optional(Box<NocturneTypeV>),
    Tuple(Seq<NocturneTypeV>),
    Array(Box<NocturneTypeV>, u32),
    Struct(Seq<NocturneTypeV>),
    EnumUnit,
    EnumPayload(Box<NocturneTypeV>),
}

pub open spec fn nt_view(t: NocturneType) -> NocturneTypeV
    decreases t,
{
    match t {
        NocturneType::Bool => NocturneTypeV::Bool,
        NocturneType::Field => NocturneTypeV::Field,
        NocturneType::MerkleTreeDigest => NocturneTypeV::MerkleTreeDigest,
        NocturneType::Uint(n) => NocturneTypeV::Uint(n),
        NocturneType::Bytes(n) => NocturneTypeV::Bytes(n),
        NocturneType::Optional(t) => NocturneTypeV::Optional(Box::new(nt_view(*t))),
        NocturneType::Tuple(ts) => NocturneTypeV::Tuple(nts_view(ts@)),
        NocturneType::Array(t, n) => NocturneTypeV::Array(Box::new(nt_view(*t)), n),
        NocturneType::Struct(ts) => NocturneTypeV::Struct(nts_view(ts@)),
        NocturneType::EnumUnit => NocturneTypeV::EnumUnit,
        NocturneType::EnumPayload(t) => NocturneTypeV::EnumPayload(Box::new(nt_view(*t))),
    }
}

pub open spec fn nts_view(s: Seq<NocturneType>) -> Seq<NocturneTypeV>
    decreases s,
{
    Seq::new(s.len(), |i: int| if 0 <= i < s.len() { nt_view(s[i]) } else { arbitrary() })
}

impl View for NocturneType {
    type V = NocturneTypeV;

    open spec fn view(&self) -> NocturneTypeV {
        nt_view(*self)
    }
}

pub open spec fn nt_opt(o: Option<NocturneType>) -> Option<NocturneTypeV> {
    match o {
        Some(t) => Some(nt_view(t)),
        None => None,
    }
}

pub open spec fn nts_opt(o: Option<Vec<NocturneType>>) -> Option<Seq<NocturneTypeV>> {
    match o {
        Some(t) => Some(nts_view(t@)),
        None => None,
    }
}

/// The type that a space-free type text names on its own.
pub open spec fn primitive_of(s: Seq<char>) -> Option<NocturneTypeV> {
    if s == "Boolean"@ || s == "bool"@ {
        Some(NocturneTypeV::Bool)
    } else if s == "Field"@ {
        Some(NocturneTypeV::Field)
    } else if s == "MerkleTreeDigest"@ {
        Some(NocturneTypeV::MerkleTreeDigest)
    } else {
        match uint_bits(s) {
            Some(bits) => Some(NocturneTypeV::Uint(bits)),
            None => match bytes_len(s) {
                Some(n) => Some(NocturneTypeV::Bytes(n)),
                None => None,
            },
        }
    }
}

/// The positive `N` of the space-free text `Bytes<N>`.
pub open spec fn bytes_len(s: Seq<char>) -> Option<u32> {
    match angle_u32(s, "Bytes<"@) {
        Some(Some(n)) => if n > 0 {
            Some(n)
        } else {
            None
        },
        _ => None,
    }
}

/// The positive `N` of `Bytes<N>`.
pub fn parse_bytes_n_type(ty_str: &str) -> (r: Option<u32>)
    ensures
        r == bytes_len(ty_str@),
{
    match read_angle_u32(ty_str, "Bytes<") {
        Some(Some(n)) => if n > 0 {
            Some(n)
        } else {
            None
        },
        _ => None,
    }
}

/// What a type resolves to, looking through at most `depth` nested user
/// definitions. The precedence is option, user enum, tuple, array, user
/// struct, then the primitives by text.
pub open spec fn resolved(cx: TypeCtxV, t: TyV, depth: nat) -> Option<NocturneTypeV>
    decreases depth, 0nat, t, 0nat,
{
    let named = plain_last_segment(t);
    let as_enum = match named {
        Some(s) => lookup(cx.enums, s.ident),
        None => None,
    };
    let as_struct = match named {
        Some(s) => lookup(cx.structs, s.ident),
        None => None,
    };
    match option_payload(t) {
        Some(p) => {
            proof {
                lemma_option_payload_smaller(t);
            }
            match resolved(cx, p, depth) {
                Some(r) => Some(NocturneTypeV::Optional(Box::new(r))),
                None => None,
            }
        }
        None => match as_enum {
            Some(variants) => if variants.len() > 0 && variants[0].payload is Some {
                if depth == 0 {
                    None
                } else {
                    match resolved(cx, variants[0].payload->0, (depth - 1) as nat) {
                        Some(r) => Some(NocturneTypeV::EnumPayload(Box::new(r))),
                        None => None,
                    }
                }
            } else {
                Some(NocturneTypeV::EnumUnit)
            },
            None => match (t.kind, array_parts(t)) {
                (TyKindV::Tuple(elems), _) => {
                    proof {
                        assert(decreases_to!(t => t.kind));
                        assert(decreases_to!(t.kind => elems));
                    }
                    match resolved_all(cx, elems, elems.len(), depth) {
                        Some(rs) => Some(NocturneTypeV::Tuple(rs)),
                        None => None,
                    }
                }
                (TyKindV::Array { elem, .. }, Some((_, n))) => {
                    proof {
                        assert(decreases_to!(t => t.kind));
                        assert(decreases_to!(t.kind => elem));
                    }
                    match resolved(cx, *elem, depth) {
                        Some(r) => Some(NocturneTypeV::Array(Box::new(r), n)),
                        None => None,
                    }
                }
                _ => match as_struct {
                    Some(fields) => if depth == 0 {
                        None
                    } else {
                        match resolved_fields(cx, fields, fields.len(), (depth - 1) as nat) {
                            Some(rs) => Some(NocturneTypeV::Struct(rs)),
                            None => None,
                        }
                    },
                    None => primitive_of(no_spaces(t.text)),
                },
            },
        },
    }
}

/// The first `n` types of `ts`, all resolved.
pub open spec fn resolved_all(cx: TypeCtxV, ts: Seq<TyV>, n: nat, depth: nat) -> Option<Seq<NocturneTypeV>>
    decreases depth, 0nat, ts, n,
{
    if n == 0 || n > ts.len() {
        Some(seq![])
    } else {
        match resolved_all(cx, ts, (n - 1) as nat, depth) {
            Some(rs) => match resolved(cx, ts[n - 1], depth) {
                Some(r) => Some(rs.push(r)),
                None => None,
            },
            None => None,
        }
    }
}

/// The types of the first `n` fields, all resolved.
pub open spec fn resolved_fields(
    cx: TypeCtxV,
    fs: Seq<StructFieldV>,
    n: nat,
    depth: nat,
) -> Option<Seq<NocturneTypeV>>
    decreases depth, 1nat, fs, n,
{
    if n == 0 || n > fs.len() {
        Some(seq![])
    } else {
        match resolved_fields(cx, fs, (n - 1) as nat, depth) {
            Some(rs) => match resolved(cx, fs[n - 1].ty, depth) {
                Some(r) => Some(rs.push(r)),
                None => None,
            },
            None => None,
        }
    }
}

/// The payload of an option type is a proper part of it.
pub proof fn lemma_option_payload_smaller(t: TyV)
    ensures
        option_payload(t) is Some ==> decreases_to!(t => option_payload(t)->0),
{
    if option_payload(t) is Some {
        assert(decreases_to!(t => t.kind));
        let segments = t.kind->segments;
        assert(decreases_to!(t.kind => segments));
        assert(decreases_to!(segments => segments[segments.len() - 1]));
        let s = segments.last();
        assert(decreases_to!(s => s.args));
        assert(decreases_to!(s.args => s.args->0));
        assert(decreases_to!(s.args->0 => s.args->0[0]));
        assert(decreases_to!(s.args->0[0] => s.args->0[0]->Type_0));
    }
}

/// What a contract type resolves to. User definitions nest no deeper than
/// there are of them; a type whose definitions never end has no encoding.
pub open spec fn resolution(cx: TypeCtxV, t: TyV) -> Option<NocturneTypeV> {
    resolved(cx, t, cx.structs.len() + cx.enums.len())
}

/// Walks a type into a `NocturneType`; `None` for types with no on-chain
/// encoding (witness-only and unsupported types).
pub fn resolve(ty: &Ty, ctx: &TypeCtx) -> (r: Option<NocturneType>)
    ensures
        nt_opt(r) == resolution(ctx@, ty@),
{
    let depth: u128 = ctx.structs.len() as u128 + ctx.enums.len() as u128;
    resolve_within(ty, ctx, depth)
}

fn resolve_within(ty: &Ty, ctx: &TypeCtx, depth: u128) -> (r: Option<NocturneType>)
    ensures
        nt_opt(r) == resolved(ctx@, ty@, depth as nat),
    decreases depth, 0nat, ty@, 0nat,
{
    proof {
        lemma_option_payload_smaller(ty@);
        assert(ty@.kind == ty_kind_view(ty.kind));
    }
    match option_payload_type(ty) {
        Some(p) => {
            return match resolve_within(p, ctx, depth) {
                Some(r) => Some(NocturneType::Optional(Box::new(r))),
                None => None,
            };
        }
        None => {}
    }
    let named = plain_last_seg(ty);
    match named {
        Some(s) => match find_enum(ctx.enums, s.ident.as_str()) {
            Some(variants) => {
                if variants.len() > 0 {
                    match &variants[0].payload {
                        Some(p) => {
                            if depth == 0 {
                                return None;
                            }
                            return match resolve_within(p, ctx, depth - 1) {
                                Some(r) => Some(NocturneType::EnumPayload(Box::new(r))),
                                None => None,
                            };
                        }
                        None => {}
                    }
                }
                return Some(NocturneType::EnumUnit);
            }
            None => {}
        },
        None => {}
    }
    match &ty.kind {
        TyKind::Tuple(elems) => {
            proof {
                assert(decreases_to!(ty@ => ty@.kind));
                assert(ty@.kind == TyKindV::Tuple(tys_view(elems@)));
                assert(decreases_to!(ty@.kind => ty@.kind->Tuple_0));
            }
            return match resolve_list(elems, ctx, depth) {
                Some(rs) => Some(NocturneType::Tuple(rs)),
                None => None,
            };
        }
        TyKind::Array { elem, .. } => match extract_array_type(ty) {
            Some((_, n)) => {
                proof {
                    assert(decreases_to!(ty@ => ty@.kind));
                    assert(decreases_to!(ty@.kind => ty@.kind->elem));
                }
                return match resolve_within(elem, ctx, depth) {
                    Some(r) => Some(NocturneType::Array(Box::new(r), n)),
                    None => None,
                };
            }
            None => {}
        },
        _ => {}
    }
    match named {
        Some(s) => match find_struct(ctx.structs, s.ident.as_str()) {
            Some(fields) => {
                if depth == 0 {
                    return None;
                }
                return match resolve_fields(fields, ctx, depth - 1) {
                    Some(rs) => Some(NocturneType::Struct(rs)),
                    None => None,
                };
            }
            None => {}
        },
        None => {}
    }
    resolve_primitive(strip_spaces(ty.text.as_str()).as_str())
}

fn resolve_primitive(s: &str) -> (r: Option<NocturneType>)
    ensures
        nt_opt(r) == primitive_of(s@),
{
    if same(s, "Boolean") || same(s, "bool") {
        Some(NocturneType::Bool)
    } else if same(s, "Field") {
        Some(NocturneType::Field)
    } else if same(s, "MerkleTreeDigest") {
        Some(NocturneType::MerkleTreeDigest)
    } else {
        match parse_uint_type(s) {
            Some(bits) => Some(NocturneType::Uint(bits)),
            None => match parse_bytes_n_type(s) {
                Some(n) => Some(NocturneType::Bytes(n)),
                None => None,
            },
        }
    }
}

fn resolve_list(tys: &Vec<Ty>, ctx: &TypeCtx, depth: u128) -> (r: Option<Vec<NocturneType>>)
    ensures
        nts_opt(r) == resolved_all(ctx@, tys_view(tys@), tys@.len(), depth as nat),
    decreases depth, 0nat, tys_view(tys@), tys@.len(),
{
    let mut out: Vec<NocturneType> = Vec::new();
    let mut i: usize = 0;
    proof {
        assert(nts_view(out@) =~= seq![]);
    }
    while i < tys.len()
        invariant
            i <= tys@.len(),
            resolved_all(ctx@, tys_view(tys@), i as nat, depth as nat) == Some(nts_view(out@)),
        decreases tys@.len() - i,
    {
        proof {
            assert(decreases_to!(tys_view(tys@) => tys_view(tys@)[i as int]));
        }
        match resolve_within(&tys[i], ctx, depth) {
            Some(r) => {
                let ghost before = out@;
                out.push(r);
                proof {
                    assert(nts_view(out@) =~= nts_view(before).push(nt_view(r)));
                }
            }
            None => {
                proof {
                    lemma_resolved_all_none(ctx@, tys_view(tys@), (i + 1) as nat, tys@.len(), depth as nat);
                }
                return None;
            }
        }
        i += 1;
    }
    Some(out)
}

fn resolve_fields(fields: &Vec<UserStructField>, ctx: &TypeCtx, depth: u128) -> (r: Option<Vec<NocturneType>>)
    ensures
        nts_opt(r) == resolved_fields(ctx@, fields.deep_view(), fields@.len(), depth as nat),
    decreases depth, 1nat, fields.deep_view(), fields@.len(),
{
    let mut out: Vec<NocturneType> = Vec::new();
    let mut i: usize = 0;
    proof {
        assert(nts_view(out@) =~= seq![]);
    }
    while i < fields.len()
        invariant
            i <= fields@.len(),
            resolved_fields(ctx@, fields.deep_view(), i as nat, depth as nat) == Some(nts_view(out@)),
        decreases fields@.len() - i,
    {
        match resolve_within(&fields[i].ty, ctx, depth) {
            Some(r) => {
                let ghost before = out@;
                out.push(r);
                proof {
                    assert(nts_view(out@) =~= nts_view(before).push(nt_view(r)));
                }
            }
            None => {
                proof {
                    lemma_resolved_fields_none(ctx@, fields.deep_view(), (i + 1) as nat, fields@.len(), depth as nat);
                }
                return None;
            }
        }
        i += 1;
    }
    Some(out)
}

proof fn lemma_resolved_all_none(cx: TypeCtxV, ts: Seq<TyV>, a: nat, b: nat, depth: nat)
    requires
        a <= b <= ts.len(),
        resolved_all(cx, ts, a, depth) is None,
    ensures
        resolved_all(cx, ts, b, depth) is None,
    decreases b,
{
    if a < b {
        lemma_resolved_all_none(cx, ts, a, (b - 1) as nat, depth);
    }
}

proof fn lemma_resolved_fields_none(cx: TypeCtxV, fs: Seq<StructFieldV>, a: nat, b: nat, depth: nat)
    requires
        a <= b <= fs.len(),
        resolved_fields(cx, fs, a, depth) is None,
    ensures
        resolved_fields(cx, fs, b, depth) is None,
    decreases b,
{
    if a < b {
        lemma_resolved_fields_none(cx, fs, a, (b - 1) as nat, depth);
    }
}

/// The number of field elements that `n` bytes occupy.
pub open spec fn chunks(n: u32) -> nat {
    if n % FR_BYTES_STORED == 0 {
        (n / FR_BYTES_STORED) as nat
    } else {
        (n / FR_BYTES_STORED + 1) as nat
    }
}

/// The number of field elements that `n` bytes occupy: `n / 31`, rounded up.
pub fn chunk_count(n: u32) -> (r: u32)
    ensures
        r == chunks(n),
{
    if n % FR_BYTES_STORED == 0 {
        n / FR_BYTES_STORED
    } else {
        n / FR_BYTES_STORED + 1
    }
}

/// The atoms and element count of several values one after the other, without
/// the leading atom count.
pub struct BodyV {
    pub atoms: Seq<i32>,
    pub count: nat,
}

/// The encoding that a body has as a value of its own; none when no machine
/// could count its elements.
pub open spec fn sealed(b: BodyV) -> Option<EncodingV> {
    if b.count <= usize::MAX {
        Some(EncodingV { alignment_atoms: seq![b.atoms.len() as i32] + b.atoms, value_field_count: b.count })
    } else {
        None
    }
}

/// A value's atoms without their count.
pub open spec fn body_of(e: EncodingV) -> BodyV {
    BodyV { atoms: e.alignment_atoms.skip(1), count: e.value_field_count }
}

/// `b`, `n` times over.
pub open spec fn repeated(b: BodyV, n: nat) -> BodyV
    decreases n,
{
    if n == 0 {
        BodyV { atoms: seq![], count: 0 }
    } else {
        joined(repeated(b, (n - 1) as nat), b)
    }
}

pub open spec fn joined(a: BodyV, b: BodyV) -> BodyV {
    BodyV { atoms: a.atoms + b.atoms, count: a.count + b.count }
}

/// The encoding of one atom and `count` elements.
pub open spec fn atom(length: int, count: nat) -> Option<EncodingV> {
    Some(EncodingV { alignment_atoms: seq![1i32, length as i32], value_field_count: count })
}

/// The on-chain shape of a resolved type; none for integers that do not fit
/// one field element.
pub open spec fn encoding_of(t: NocturneTypeV) -> Option<EncodingV>
    decreases t, 0nat,
{
    match t {
        NocturneTypeV::Bool => atom(1, 1),
        NocturneTypeV::Field => atom(-2, 1),
        NocturneTypeV::MerkleTreeDigest => atom(-2, 1),
        NocturneTypeV::Uint(bits) => if 0 < bits && bits <= 253 {
            atom((bits + 7) / 8, 1)
        } else {
            None
        },
        NocturneTypeV::Bytes(n) => atom(n as int, chunks(n)),
        NocturneTypeV::Optional(inner) => tagged(encoding_of(*inner)),
        NocturneTypeV::EnumPayload(inner) => tagged(encoding_of(*inner)),
        NocturneTypeV::EnumUnit => atom(1, 1),
        NocturneTypeV::Tuple(comps) => match composed(comps, comps.len()) {
            Some(b) => sealed(b),
            None => None,
        },
        NocturneTypeV::Struct(comps) => match composed(comps, comps.len()) {
            Some(b) => sealed(b),
            None => None,
        },
        NocturneTypeV::Array(elem, n) => if n == 0 {
            sealed(BodyV { atoms: seq![], count: 0 })
        } else {
            match encoding_of(*elem) {
                Some(e) => sealed(repeated(body_of(e), n as nat)),
                None => None,
            }
        },
    }
}

/// A one-byte discriminant in front of a value.
pub open spec fn tagged(e: Option<EncodingV>) -> Option<EncodingV> {
    match e {
        Some(e) => sealed(joined(BodyV { atoms: seq![1i32], count: 1 }, body_of(e))),
        None => None,
    }
}

/// The first `n` components one after the other.
pub open spec fn composed(comps: Seq<NocturneTypeV>, n: nat) -> Option<BodyV>
    decreases comps, n,
{
    if n == 0 || n > comps.len() {
        Some(BodyV { atoms: seq![], count: 0 })
    } else {
        match composed(comps, (n - 1) as nat) {
            Some(b) => match encoding_of(comps[n - 1]) {
                Some(e) => Some(joined(b, body_of(e))),
                None => None,
            },
            None => None,
        }
    }
}

/// The constraint of each field element of a value, in wire order.
pub open spec fn layout_of(t: NocturneTypeV) -> Seq<FrLayout>
    decreases t, 0nat,
{
    match t {
        NocturneTypeV::Bool => seq![FrLayout::Boolean],
        NocturneTypeV::Field => seq![FrLayout::Field],
        NocturneTypeV::MerkleTreeDigest => seq![FrLayout::Field],
        NocturneTypeV::Uint(bits) => seq![FrLayout::Bits(bits)],
        NocturneTypeV::Bytes(n) => bytes_layout(n),
        NocturneTypeV::Optional(inner) => seq![FrLayout::Bits(8)] + layout_of(*inner),
        NocturneTypeV::EnumPayload(inner) => seq![FrLayout::Bits(8)] + layout_of(*inner),
        NocturneTypeV::EnumUnit => seq![FrLayout::Bits(8)],
        NocturneTypeV::Tuple(comps) => layouts(comps, comps.len()),
        NocturneTypeV::Struct(comps) => layouts(comps, comps.len()),
        NocturneTypeV::Array(elem, n) => layout_times(layout_of(*elem), n as nat),
    }
}

pub open spec fn layouts(comps: Seq<NocturneTypeV>, n: nat) -> Seq<FrLayout>
    decreases comps, n,
{
    if n == 0 || n > comps.len() {
        seq![]
    } else {
        layouts(comps, (n - 1) as nat) + layout_of(comps[n - 1])
    }
}

pub open spec fn layout_times(l: Seq<FrLayout>, n: nat) -> Seq<FrLayout>
    decreases n,
{
    if n == 0 {
        seq![]
    } else {
        layout_times(l, (n - 1) as nat) + l
    }
}

/// The layout of `n` bytes, one entry per chunk: the first takes what does not
/// fill a whole one, every other is full.
pub open spec fn bytes_layout(n: u32) -> Seq<FrLayout> {
    let first = if n % FR_BYTES_STORED == 0 { FR_BYTES_STORED as int } else { (n % FR_BYTES_STORED) as int };
    Seq::new(chunks(n), |i: int| if i == 0 { FrLayout::Bits((first * 8) as u32) } else { FrLayout::Bits((FR_BYTES_STORED * 8) as u32) })
}

/// Multi-element layout for a `Bytes<N>` value.
pub fn bytes_n_layout(n: u32) -> (r: Vec<FrLayout>)
    ensures
        r@ == bytes_layout(n),
{
    let total: u32 = chunk_count(n);
    let rest: u32 = n % FR_BYTES_STORED;
    let first: u32 = if rest == 0 { FR_BYTES_STORED } else { rest };
    let mut layout: Vec<FrLayout> = Vec::new();
    if total == 0 {
        assert(layout@ =~= bytes_layout(n));
        return layout;
    }
    layout.push(FrLayout::Bits(first * 8));
    let mut i: u32 = 1;
    while i < total
        invariant
            1 <= i <= total,
            total == chunks(n),
            layout@.len() == i,
            layout@ =~= Seq::new(i as nat, |j: int| if j == 0 { FrLayout::Bits((first * 8) as u32) } else { FrLayout::Bits((FR_BYTES_STORED * 8) as u32) }),
        decreases total - i,
    {
        layout.push(FrLayout::Bits(FR_BYTES_STORED * 8));
        i += 1;
    }
    assert(layout@ =~= bytes_layout(n));
    layout
}

fn one_atom(length: i32, count: usize) -> (r: Option<AlignedEncoding>)
    ensures
        encoding_opt(r) == atom(length as int, count as nat),
{
    let mut atoms: Vec<i32> = Vec::new();
    atoms.push(1);
    atoms.push(length);
    let r = AlignedEncoding { alignment_atoms: atoms, value_field_count: count };
    assert(r@.alignment_atoms =~= seq![1i32, length]);
    Some(r)
}

/// Appends the atoms behind the leading count.
fn append_body(atoms: &mut Vec<i32>, enc: &AlignedEncoding)
    requires
        enc.alignment_atoms@.len() >= 1,
    ensures
        final(atoms)@ == old(atoms)@ + body_of(enc@).atoms,
{
    let ghost before = atoms@;
    let mut i: usize = 1;
    while i < enc.alignment_atoms.len()
        invariant
            1 <= i <= enc.alignment_atoms@.len(),
            atoms@ =~= before + enc.alignment_atoms@.subrange(1, i as int),
        decreases enc.alignment_atoms@.len() - i,
    {
        atoms.push(enc.alignment_atoms[i]);
        i += 1;
    }
    assert(enc.alignment_atoms@.subrange(1, enc.alignment_atoms@.len() as int) =~= enc.alignment_atoms@.skip(1));
}

/// Puts the atom count in front.
fn seal(atoms: &Vec<i32>, count: usize) -> (r: Option<AlignedEncoding>)
    ensures
        encoding_opt(r) == sealed(BodyV { atoms: atoms@, count: count as nat }),
{
    let mut out: Vec<i32> = Vec::new();
    out.push(atoms.len() as i32);
    let mut i: usize = 0;
    while i < atoms.len()
        invariant
            i <= atoms@.len(),
            out@ =~= seq![atoms@.len() as i32] + atoms@.take(i as int),
        decreases atoms@.len() - i,
    {
        out.push(atoms[i]);
        i += 1;
    }
    assert(atoms@.take(atoms@.len() as int) =~= atoms@);
    Some(AlignedEncoding { alignment_atoms: out, value_field_count: count })
}

proof fn lemma_encoding_nonempty(t: NocturneTypeV)
    ensures
        encoding_of(t) matches Some(e) ==> e.alignment_atoms.len() >= 1 && e.value_field_count <= usize::MAX,
    decreases t,
{
    match t {
        NocturneTypeV::Bytes(n) => {
            assert(chunks(n) <= n);
        }
        _ => {}
    }
}

proof fn lemma_composed_none(comps: Seq<NocturneTypeV>, a: nat, b: nat)
    requires
        a <= b <= comps.len(),
        composed(comps, a) is None,
    ensures
        composed(comps, b) is None,
    decreases b,
{
    if a < b {
        lemma_composed_none(comps, a, (b - 1) as nat);
    }
}

proof fn lemma_composed_grows(comps: Seq<NocturneTypeV>, a: nat, b: nat)
    requires
        a <= b <= comps.len(),
        composed(comps, b) is Some,
    ensures
        composed(comps, a) is Some,
        composed(comps, a)->0.count <= composed(comps, b)->0.count,
    decreases b,
{
    if a < b {
        lemma_composed_grows(comps, a, (b - 1) as nat);
    }
}

proof fn lemma_repeated_grows(b: BodyV, n: nat, m: nat)
    requires
        n <= m,
    ensures
        repeated(b, n).count <= repeated(b, m).count,
    decreases m,
{
    if n < m {
        lemma_repeated_grows(b, n, (m - 1) as nat);
    }
}

/// Flat encoding of an ordered component list; shared by tuples and structs.
pub fn compose(comps: &Vec<NocturneType>) -> (r: Option<AlignedEncoding>)
    ensures
        encoding_opt(r) == (match composed(nts_view(comps@), comps@.len()) {
            Some(b) => sealed(b),
            None => None,
        }),
    decreases nts_view(comps@), comps@.len() + 1,
{
    let ghost cs = nts_view(comps@);
    let mut atoms: Vec<i32> = Vec::new();
    let mut count: usize = 0;
    let mut i: usize = 0;
    proof {
        assert(atoms@ =~= seq![]);
    }
    while i < comps.len()
        invariant
            i <= comps@.len(),
            cs == nts_view(comps@),
            composed(cs, i as nat) == Some(BodyV { atoms: atoms@, count: count as nat }),
        decreases comps@.len() - i,
    {
        proof {
            assert(decreases_to!(cs => cs[i as int]));
            assert(cs[i as int] == nt_view(comps@[i as int]));
            lemma_encoding_nonempty(cs[i as int]);
        }
        match comps[i].aligned_encoding() {
            Some(enc) => {
                append_body(&mut atoms, &enc);
                match count.checked_add(enc.value_field_count) {
                    Some(total) => {
                        count = total;
                    }
                    None => {
                        proof {
                            if composed(cs, cs.len()) is Some {
                                lemma_composed_grows(cs, (i + 1) as nat, cs.len());
                            }
                        }
                        return None;
                    }
                }
            }
            None => {
                proof {
                    lemma_composed_none(cs, (i + 1) as nat, cs.len());
                }
                return None;
            }
        }
        i += 1;
    }
    seal(&atoms, count)
}

/// `enc`'s body, `n` times over, as a value of its own.
fn repeat_encoding(enc: &AlignedEncoding, n: u32) -> (r: Option<AlignedEncoding>)
    requires
        enc.alignment_atoms@.len() >= 1,
    ensures
        encoding_opt(r) == sealed(repeated(body_of(enc@), n as nat)),
{
    let ghost b = body_of(enc@);
    let mut atoms: Vec<i32> = Vec::new();
    let mut count: usize = 0;
    let mut i: u32 = 0;
    proof {
        assert(atoms@ =~= seq![]);
    }
    while i < n
        invariant
            i <= n,
            b == body_of(enc@),
            enc.alignment_atoms@.len() >= 1,
            repeated(b, i as nat) == (BodyV { atoms: atoms@, count: count as nat }),
        decreases n - i,
    {
        append_body(&mut atoms, enc);
        match count.checked_add(enc.value_field_count) {
            Some(total) => {
                count = total;
            }
            None => {
                proof {
                    lemma_repeated_grows(b, (i + 1) as nat, n as nat);
                }
                return None;
            }
        }
        i += 1;
    }
    seal(&atoms, count)
}

fn tag(inner: Option<AlignedEncoding>) -> (r: Option<AlignedEncoding>)
    requires
        inner matches Some(e) ==> e.alignment_atoms@.len() >= 1,
    ensures
        encoding_opt(r) == tagged(encoding_opt(inner)),
{
    match inner {
        Some(enc) => {
            let mut atoms: Vec<i32> = Vec::new();
            atoms.push(1);
            assert(atoms@ =~= seq![1i32]);
            append_body(&mut atoms, &enc);
            match enc.value_field_count.checked_add(1) {
                Some(count) => seal(&atoms, count),
                None => None,
            }
        }
        None => None,
    }
}

impl NocturneType {
    /// The on-chain shape. `None` for integer widths above what one field
    /// element holds, and for values with more elements than `usize` counts.
    pub fn aligned_encoding(&self) -> (r: Option<AlignedEncoding>)
        ensures
            encoding_opt(r) == encoding_of(self@),
        decreases self@, 0nat,
    {
        match self {
            NocturneType::Bool => one_atom(1, 1),
            NocturneType::Field => one_atom(-2, 1),
            NocturneType::MerkleTreeDigest => one_atom(-2, 1),
            NocturneType::Uint(bits) => {
                if *bits > 0 && *bits <= 253 {
                    one_atom(((*bits + 7) / 8) as i32, 1)
                } else {
                    None
                }
            }
            NocturneType::Bytes(n) => {
                let r = one_atom(*n as i32, chunk_count(*n) as usize);
                assert(r->0@.alignment_atoms =~= seq![1i32, (*n as int) as i32]);
                r
            }
            NocturneType::Optional(inner) => {
                proof {
                    lemma_encoding_nonempty(inner@);
                }
                tag(inner.aligned_encoding())
            }
            NocturneType::EnumPayload(inner) => {
                proof {
                    lemma_encoding_nonempty(inner@);
                }
                tag(inner.aligned_encoding())
            }
            NocturneType::EnumUnit => one_atom(1, 1),
            NocturneType::Tuple(comps) => compose(comps),
            NocturneType::Struct(comps) => compose(comps),
            NocturneType::Array(elem, n) => {
                if *n == 0 {
                    let atoms: Vec<i32> = Vec::new();
                    assert(atoms@ =~= seq![]);
                    return seal(&atoms, 0);
                }
                proof {
                    lemma_encoding_nonempty(elem@);
                }
                match elem.aligned_encoding() {
                    Some(enc) => repeat_encoding(&enc, *n),
                    None => None,
                }
            }
        }
    }

    /// Per-element constraint layout, in wire order.
    pub fn fr_layout(&self) -> (r: Vec<FrLayout>)
        ensures
            r@ == layout_of(self@),
        decreases self,
    {
        let mut layout: Vec<FrLayout> = Vec::new();
        match self {
            NocturneType::Bool => {
                layout.push(FrLayout::Boolean);
            }
            NocturneType::Field => {
                layout.push(FrLayout::Field);
            }
            NocturneType::MerkleTreeDigest => {
                layout.push(FrLayout::Field);
            }
            NocturneType::Uint(bits) => {
                layout.push(FrLayout::Bits(*bits));
            }
            NocturneType::Bytes(n) => {
                layout = bytes_n_layout(*n);
            }
            NocturneType::Optional(inner) => {
                layout.push(FrLayout::Bits(8));
                let mut rest: Vec<FrLayout> = inner.fr_layout();
                layout.append(&mut rest);
            }
            NocturneType::EnumPayload(inner) => {
                layout.push(FrLayout::Bits(8));
                let mut rest: Vec<FrLayout> = inner.fr_layout();
                layout.append(&mut rest);
            }
            NocturneType::EnumUnit => {
                layout.push(FrLayout::Bits(8));
            }
            NocturneType::Tuple(comps) => {
                layout = layout_list(comps);
            }
            NocturneType::Struct(comps) => {
                layout = layout_list(comps);
            }
            NocturneType::Array(elem, n) => {
                let one: Vec<FrLayout> = elem.fr_layout();
                let mut i: u32 = 0;
                assert(layout@ =~= seq![]);
                while i < *n
                    invariant
                        i <= *n,
                        layout@ == layout_times(one@, i as nat),
                    decreases *n - i,
                {
                    append_layout(&mut layout, &one);
                    i += 1;
                }
            }
        }
        assert(layout@ =~= layout_of(self@));
        layout
    }
}

fn append_layout(layout: &mut Vec<FrLayout>, more: &Vec<FrLayout>)
    ensures
        final(layout)@ == old(layout)@ + more@,
{
    let ghost before = layout@;
    let mut i: usize = 0;
    while i < more.len()
        invariant
            i <= more@.len(),
            layout@ =~= before + more@.take(i as int),
        decreases more@.len() - i,
    {
        layout.push(more[i]);
        i += 1;
    }
    assert(more@.take(more@.len() as int) =~= more@);
}

fn layout_list(comps: &Vec<NocturneType>) -> (r: Vec<FrLayout>)
    ensures
        r@ == layouts(nts_view(comps@), comps@.len()),
    decreases comps,
{
    let ghost cs = nts_view(comps@);
    let mut layout: Vec<FrLayout> = Vec::new();
    let mut i: usize = 0;
    assert(layout@ =~= seq![]);
    while i < comps.len()
        invariant
            i <= comps@.len(),
            cs == nts_view(comps@),
            layout@ == layouts(cs, i as nat),
        decreases comps@.len() - i,
    {
        proof {
            assert(decreases_to!(cs => cs[i as int]));
            assert(cs[i as int] == nt_view(comps@[i as int]));
        }
        let mut more: Vec<FrLayout> = comps[i].fr_layout();
        layout.append(&mut more);
        i += 1;
    }
    layout
}

/// Whether every byte string in `t` is at least one byte long, as in every
/// type that `resolve` gives.
pub open spec fn no_empty_bytes(t: NocturneTypeV) -> bool
    decreases t, 0nat,
{
    match t {
        NocturneTypeV::Bytes(n) => n > 0,
        NocturneTypeV::Optional(inner) => no_empty_bytes(*inner),
        NocturneTypeV::EnumPayload(inner) => no_empty_bytes(*inner),
        NocturneTypeV::Array(elem, _) => no_empty_bytes(*elem),
        NocturneTypeV::Tuple(comps) => none_empty(comps, comps.len()),
        NocturneTypeV::Struct(comps) => none_empty(comps, comps.len()),
        _ => true,
    }
}

pub open spec fn none_empty(comps: Seq<NocturneTypeV>, n: nat) -> bool
    decreases comps, n,
{
    if n == 0 || n > comps.len() {
        true
    } else {
        none_empty(comps, (n - 1) as nat) && no_empty_bytes(comps[n - 1])
    }
}

/// A value's layout has as many entries as its encoding counts elements.
pub proof fn layout_matches_encoding(t: NocturneTypeV)
    ensures
        encoding_of(t) matches Some(e) ==> layout_of(t).len() == e.value_field_count,
    decreases t, 0nat,
{
    match t {
        NocturneTypeV::Optional(inner) => layout_matches_encoding(*inner),
        NocturneTypeV::EnumPayload(inner) => layout_matches_encoding(*inner),
        NocturneTypeV::Array(elem, n) => {
            layout_matches_encoding(*elem);
            if n > 0 && encoding_of(*elem) is Some {
                lemma_times(layout_of(*elem), body_of(encoding_of(*elem)->0), n as nat);
            }
        }
        NocturneTypeV::Tuple(comps) => lemma_layouts_match(comps, comps.len()),
        NocturneTypeV::Struct(comps) => lemma_layouts_match(comps, comps.len()),
        _ => {}
    }
}

proof fn lemma_layouts_match(comps: Seq<NocturneTypeV>, n: nat)
    requires
        n <= comps.len(),
    ensures
        composed(comps, n) matches Some(b) ==> layouts(comps, n).len() == b.count,
    decreases comps, n,
{
    if n > 0 {
        lemma_layouts_match(comps, (n - 1) as nat);
        layout_matches_encoding(comps[n - 1]);
    }
}

proof fn lemma_times(l: Seq<FrLayout>, b: BodyV, n: nat)
    requires
        l.len() == b.count,
    ensures
        layout_times(l, n).len() == repeated(b, n).count,
    decreases n,
{
    if n > 0 {
        lemma_times(l, b, (n - 1) as nat);
    }
}

proof fn lemma_composed_prefix(a: Seq<NocturneTypeV>, b: Seq<NocturneTypeV>, n: nat)
    requires
        n <= a.len(),
    ensures
        composed(a + b, n) == composed(a, n),
    decreases n,
{
    if n > 0 {
        lemma_composed_prefix(a, b, (n - 1) as nat);
        assert((a + b)[n - 1] == a[n - 1]);
    }
}

proof fn lemma_composed_join(a: Seq<NocturneTypeV>, b: Seq<NocturneTypeV>, n: nat)
    requires
        n <= b.len(),
    ensures
        composed(a + b, a.len() + n) == (match (composed(a, a.len()), composed(b, n)) {
            (Some(x), Some(y)) => Some(joined(x, y)),
            _ => None::<BodyV>,
        }),
    decreases n,
{
    if n == 0 {
        lemma_composed_prefix(a, b, a.len());
        match composed(a, a.len()) {
            Some(x) => {
                assert(joined(x, BodyV { atoms: seq![], count: 0 }).atoms =~= x.atoms);
            }
            None => {}
        }
    } else {
        lemma_composed_join(a, b, (n - 1) as nat);
        assert((a + b)[a.len() + n - 1] == b[n - 1]);
        match (composed(a, a.len()), composed(b, (n - 1) as nat), encoding_of(b[n - 1])) {
            (Some(x), Some(y), Some(e)) => {
                let z = body_of(e);
                assert(joined(joined(x, y), z).atoms =~= joined(x, joined(y, z)).atoms);
            }
            _ => {}
        }
    }
}

proof fn lemma_sealed(p: BodyV)
    ensures
        sealed(p) is Some <==> p.count <= usize::MAX,
        sealed(p) is Some ==> body_of(sealed(p)->0) == p,
{
    if p.count <= usize::MAX {
        assert(body_of(sealed(p)->0).atoms =~= p.atoms);
    }
}

proof fn lemma_pair(x: NocturneTypeV, y: NocturneTypeV)
    ensures
        composed(seq![x, y], 2) == (match (encoding_of(x), encoding_of(y)) {
            (Some(e), Some(f)) => Some(joined(body_of(e), body_of(f))),
            _ => None::<BodyV>,
        }),
{
    let halves = seq![x, y];
    let none = BodyV { atoms: seq![], count: 0 };
    assert(composed(halves, 0) == Some(none));
    assert(halves[0] == x && halves[1] == y);
    match encoding_of(x) {
        Some(e) => {
            assert(joined(none, body_of(e)).atoms =~= body_of(e).atoms);
            assert(composed(halves, 1) == Some(body_of(e)));
        }
        None => {
            assert(composed(halves, 1) is None);
        }
    }
}

/// A list of components encodes as its halves do, put together as tuples:
/// nesting adds nothing.
#[verifier::rlimit(30)]
pub proof fn halves_compose_like_the_whole(a: Seq<NocturneTypeV>, b: Seq<NocturneTypeV>)
    ensures
        encoding_of(NocturneTypeV::Tuple(a + b)) == encoding_of(
            NocturneTypeV::Tuple(seq![NocturneTypeV::Tuple(a), NocturneTypeV::Tuple(b)]),
        ),
{
    let (x, y) = (NocturneTypeV::Tuple(a), NocturneTypeV::Tuple(b));
    lemma_composed_join(a, b, b.len());
    assert((a + b).len() == a.len() + b.len());
    lemma_pair(x, y);
    match (composed(a, a.len()), composed(b, b.len())) {
        (Some(p), Some(q)) => {
            lemma_sealed(p);
            lemma_sealed(q);
            lemma_sealed(joined(p, q));
        }
        _ => {}
    }
}

/// Every type that resolves is free of empty byte strings.
pub proof fn resolved_has_no_empty_bytes(cx: TypeCtxV, t: TyV, depth: nat)
    ensures
        resolved(cx, t, depth) matches Some(r) ==> no_empty_bytes(r),
    decreases depth, 0nat, t, 0nat,
{
    lemma_option_payload_smaller(t);
    if option_payload(t) is Some {
        resolved_has_no_empty_bytes(cx, option_payload(t)->0, depth);
    } else {
        assert(decreases_to!(t => t.kind));
        match t.kind {
            TyKindV::Tuple(elems) => {
                assert(decreases_to!(t.kind => elems));
                lemma_all_no_empty(cx, elems, elems.len(), depth);
            }
            TyKindV::Array { elem, .. } => {
                assert(decreases_to!(t.kind => elem));
                resolved_has_no_empty_bytes(cx, *elem, depth);
            }
            _ => {}
        }
        if depth > 0 {
            match plain_last_segment(t) {
                Some(s) => {
                    match lookup(cx.enums, s.ident) {
                        Some(variants) => {
                            if variants.len() > 0 && variants[0].payload is Some {
                                resolved_has_no_empty_bytes(cx, variants[0].payload->0, (depth - 1) as nat);
                            }
                        }
                        None => {}
                    }
                    match lookup(cx.structs, s.ident) {
                        Some(fields) => lemma_fields_no_empty(cx, fields, fields.len(), (depth - 1) as nat),
                        None => {}
                    }
                }
                None => {}
            }
        }
    }
}

proof fn lemma_none_empty_push(s: Seq<NocturneTypeV>, t: NocturneTypeV, n: nat)
    requires
        n <= s.len(),
        none_empty(s, n),
    ensures
        none_empty(s.push(t), n),
    decreases n,
{
    if n > 0 {
        lemma_none_empty_push(s, t, (n - 1) as nat);
    }
}

proof fn lemma_all_no_empty(cx: TypeCtxV, ts: Seq<TyV>, n: nat, depth: nat)
    requires
        n <= ts.len(),
    ensures
        resolved_all(cx, ts, n, depth) matches Some(rs) ==> none_empty(rs, rs.len()),
    decreases depth, 0nat, ts, n,
{
    if n > 0 {
        lemma_all_no_empty(cx, ts, (n - 1) as nat, depth);
        resolved_has_no_empty_bytes(cx, ts[n - 1], depth);
        match resolved_all(cx, ts, n, depth) {
            Some(rs) => {
                let before = resolved_all(cx, ts, (n - 1) as nat, depth)->0;
                lemma_none_empty_push(before, rs.last(), before.len());
            }
            None => {}
        }
    }
}

proof fn lemma_fields_no_empty(cx: TypeCtxV, fs: Seq<StructFieldV>, n: nat, depth: nat)
    requires
        n <= fs.len(),
    ensures
        resolved_fields(cx, fs, n, depth) matches Some(rs) ==> none_empty(rs, rs.len()),
    decreases depth, 1nat, fs, n,
{
    if n > 0 {
        lemma_fields_no_empty(cx, fs, (n - 1) as nat, depth);
        resolved_has_no_empty_bytes(cx, fs[n - 1].ty, depth);
        match resolved_fields(cx, fs, n, depth) {
            Some(rs) => {
                let before = resolved_fields(cx, fs, (n - 1) as nat, depth)->0;
                lemma_none_empty_push(before, rs.last(), before.len());
            }
            None => {}
        }
    }
}

} // verus!
