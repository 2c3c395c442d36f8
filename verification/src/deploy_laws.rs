//! The initial state that the deployment module builds: one value for each
//! ledger field, in the order of the slots that circuits use.
use crate::code::spaced;
use crate::contract::{ContractV, LedgerFieldV, LedgerKindV, ParamV};
use crate::deploy_codegen::{constructor_name, constructor_params, deploy_code, field_code, fields_code, param_args};
use crate::deploy_codegen::tree_height;
use crate::emission::{field_slot, ledger_position, type_ctx};
use crate::nocturne_type::TypeCtxV;
use crate::text::dec;
use vstd::prelude::*;

verus! {

/// Whether `piece` stands in `text` at position `k`.
pub open spec fn stands_at(text: Seq<char>, piece: Seq<char>, k: int) -> bool {
    0 <= k && k + piece.len() <= text.len() && text.subrange(k, k + piece.len()) == piece
}

/// Whether the pieces stand in `text` at the given positions, one behind the
/// other.
pub open spec fn stand_in_order(text: Seq<char>, pieces: Seq<Seq<char>>, at: Seq<int>) -> bool {
    &&& at.len() == pieces.len()
    &&& forall|i: int| 0 <= i < at.len() ==> stands_at(text, #[trigger] pieces[i], at[i])
    &&& forall|i: int, j: int|
        0 <= i < j < at.len() ==> #[trigger] at[i] + (#[trigger] pieces[i]).len() <= #[trigger] at[j]
}

/// The encodings of the ledger fields, by slot.
pub open spec fn encodings(c: ContractV) -> Seq<Seq<char>> {
    Seq::new(c.ledger.fields.len(), |i: int| field_code(type_ctx(c), c.ledger.fields[i]))
}

proof fn lemma_shift(text: Seq<char>, piece: Seq<char>, k: int, before: Seq<char>, after: Seq<char>)
    requires
        stands_at(text, piece, k),
    ensures
        stands_at(before + text + after, piece, before.len() + k),
{
    let all = before + text + after;
    assert(all.subrange(before.len() + k, before.len() + k + piece.len()) =~= text.subrange(k, k + piece.len()));
}

proof fn lemma_in_order_shift(text: Seq<char>, pieces: Seq<Seq<char>>, at: Seq<int>, before: Seq<char>, after: Seq<char>)
    requires
        stand_in_order(text, pieces, at),
    ensures
        stand_in_order(before + text + after, pieces, Seq::new(at.len(), |i: int| before.len() + at[i])),
{
    let moved = Seq::new(at.len(), |i: int| before.len() + at[i]);
    assert forall|i: int| 0 <= i < moved.len() implies stands_at(
        before + text + after,
        #[trigger] pieces[i],
        moved[i],
    ) by {
        lemma_shift(text, pieces[i], at[i], before, after);
    }
}

/// One more piece behind those that stand in order.
pub(crate) proof fn lemma_one_more(text: Seq<char>, pieces: Seq<Seq<char>>, at: Seq<int>, gap: Seq<char>, last: Seq<char>)
    requires
        stand_in_order(text, pieces, at),
    ensures
        stand_in_order(text + gap + last, pieces.push(last), at.push((text + gap).len() as int)),
{
    let all = text + gap + last;
    let more = pieces.push(last);
    let places = at.push((text + gap).len() as int);
    assert forall|i: int| 0 <= i < places.len() implies stands_at(all, #[trigger] more[i], places[i]) by {
        if i < at.len() {
            assert(more[i] == pieces[i]);
            lemma_shift(text, pieces[i], at[i], seq![], gap + last);
            assert(seq![] + text + (gap + last) =~= all);
        } else {
            assert(all.subrange(places[i], places[i] + last.len()) =~= last);
        }
    }
    assert forall|i: int, j: int| 0 <= i < j < places.len() implies #[trigger] places[i] + (#[trigger] more[i]).len()
        <= #[trigger] places[j] by {
        assert(more[i] == pieces[i]);
        assert(stands_at(text, pieces[i], at[i]));
    }
}

proof fn lemma_fields_in_order(cx: TypeCtxV, fs: Seq<LedgerFieldV>, n: nat) -> (at: Seq<int>)
    requires
        n <= fs.len(),
    ensures
        stand_in_order(fields_code(cx, fs, n), Seq::new(n, |i: int| field_code(cx, fs[i])), at),
    decreases n,
{
    let pieces = Seq::new(n, |i: int| field_code(cx, fs[i]));
    if n == 0 {
        let at: Seq<int> = seq![];
        at
    } else {
        let before = lemma_fields_in_order(cx, fs, (n - 1) as nat);
        let text = fields_code(cx, fs, (n - 1) as nat);
        let last = field_code(cx, fs[n - 1]);
        let gap = if text.len() == 0 || last.len() == 0 {
            seq![]
        } else {
            " "@
        };
        let fewer = Seq::new((n - 1) as nat, |i: int| field_code(cx, fs[i]));
        lemma_one_more(text, fewer, before, gap, last);
        assert(fewer.push(last) =~= pieces);
        assert(text + gap + last =~= fields_code(cx, fs, n));
        before.push((text + gap).len() as int)
    }
}

proof fn lemma_spaced(a: Seq<char>, b: Seq<char>)
    ensures
        exists|x: Seq<char>| #[trigger] (a + x + b) == spaced(a, b),
{
    if a.len() == 0 || b.len() == 0 {
        assert(a + seq![] + b =~= spaced(a, b));
    } else {
        assert(a + " "@ + b == spaced(a, b));
    }
}

/// The deployment code holds the encoding of every ledger field, each whole and
/// in the order of declaration: that of a field stands in front of those of all
/// later fields.
pub proof fn fields_are_pushed_in_order(c: ContractV) -> (at: Seq<int>)
    ensures
        stand_in_order(deploy_code(c), encodings(c), at),
{
    let ps = constructor_params(c.constructors);
    let fs = c.ledger.fields;
    let code = fields_code(type_ctx(c), fs, fs.len());
    let head = "let __state = super :: "@ + c.ledger.name + " :: "@ + constructor_name(c.constructors) + " ("@
        + param_args(ps, ps.len()) + ") ; let mut fields : Vec < StateValue > = Vec :: with_capacity ("@ + dec(fs.len())
        + "usize) ;"@;
    let tail = "StateValue :: Array (fields . into_iter () . collect ())"@;
    let body = spaced(spaced(head, code), tail);
    lemma_spaced(head, code);
    let x = choose|x: Seq<char>| #[trigger] (head + x + code) == spaced(head, code);
    lemma_spaced(spaced(head, code), tail);
    let y = choose|y: Seq<char>| #[trigger] (spaced(head, code) + y + tail) == body;
    let all = deploy_code(c);
    let start = all.len() - " } }"@.len() - body.len();
    let front = all.take(start) + head + x;
    let back = y + tail + " } }"@;
    assert(start >= 0);
    assert(all =~= all.take(start) + body + " } }"@);
    assert(all =~= front + code + back);
    let at = lemma_fields_in_order(type_ctx(c), fs, fs.len());
    assert(encodings(c) =~= Seq::new(fs.len(), |i: int| field_code(type_ctx(c), fs[i])));
    lemma_in_order_shift(code, encodings(c), at, front, back);
    Seq::new(at.len(), |i: int| front.len() + at[i])
}

proof fn lemma_position(fields: Seq<LedgerFieldV>, i: int, n: nat)
    requires
        0 <= i < fields.len(),
        n <= fields.len(),
        forall|a: int, b: int|
            0 <= a < b < fields.len() ==> (#[trigger] fields[a]).name != (#[trigger] fields[b]).name,
    ensures
        ledger_position(fields, fields[i].name, n) == (if i < n {
            Some(i)
        } else {
            None::<int>
        }),
    decreases n,
{
    if n > 0 {
        lemma_position(fields, i, (n - 1) as nat);
    }
}

/// The encoding at position `i` is that of the field whose slot in circuits is
/// `i`.
pub proof fn encodings_stand_in_their_slots(c: ContractV, i: int)
    requires
        0 <= i < c.ledger.fields.len() <= 256,
        forall|a: int, b: int|
            0 <= a < b < c.ledger.fields.len() ==> (#[trigger] c.ledger.fields[a]).name
                != (#[trigger] c.ledger.fields[b]).name,
    ensures
        field_slot(c, c.ledger.fields[i].name) == Some(i as u8),
        encodings(c)[i] == field_code(type_ctx(c), c.ledger.fields[i]),
{
    lemma_position(c.ledger.fields, i, c.ledger.fields.len());
}

/// The value of a counter, and the emptiness of a container, are asked of the
/// field itself; a tree starts blank, with its own height.
pub proof fn encodings_read_their_own_field(cx: TypeCtxV, f: LedgerFieldV)
    ensures
        f.type_kind is Counter ==> exists|k: int| #[trigger]
            stands_at(field_code(cx, f), "__state . "@ + f.name + " . value ()"@, k),
        f.type_kind is LedgerMap || f.type_kind is LedgerSet || f.type_kind is Array ==> exists|k: int| #[trigger]
            stands_at(field_code(cx, f), "__state . "@ + f.name + " . is_empty ()"@, k),
        f.type_kind is MerkleTree && tree_height(f.ty) is Some ==> exists|k: int| #[trigger]
            stands_at(field_code(cx, f), dec(tree_height(f.ty)->0 as nat) + "u8) . rehash () ;"@, k),
{
    let code = field_code(cx, f);
    match f.type_kind {
        LedgerKindV::Counter => {
            reveal_strlit("fields . push (StateValue :: from (__state . ");
            reveal_strlit("__state . ");
            reveal_strlit("fields . push (StateValue :: from (");
            reveal_strlit(" . value ())) ;");
            reveal_strlit(" . value ()");
            let piece = "__state . "@ + f.name + " . value ()"@;
            let k = "fields . push (StateValue :: from ("@.len() as int;
            assert(code.subrange(k, k + piece.len()) =~= piece);
            assert(stands_at(code, piece, k));
        }
        LedgerKindV::LedgerMap | LedgerKindV::LedgerSet | LedgerKindV::Array => {
            reveal_strlit("assert ! (__state . ");
            reveal_strlit("__state . ");
            reveal_strlit("assert ! (");
            reveal_strlit(" . is_empty () , ");
            reveal_strlit(" . is_empty ()");
            let piece = "__state . "@ + f.name + " . is_empty ()"@;
            let k = "assert ! ("@.len() as int;
            assert(code.subrange(k, k + piece.len()) =~= piece);
            assert(stands_at(code, piece, k));
        }
        LedgerKindV::MerkleTree => if tree_height(f.ty) is Some {
            let tail = "u8) . rehash () ; let inner : Vec < StateValue > = vec ! [StateValue :: BoundedMerkleTree (blank_tree) , StateValue :: Cell (Sp :: new (AlignedValue :: from (0u64))) ,] ; fields . push (StateValue :: Array (inner . into_iter () . collect ())) ; }"@;
            reveal_strlit("u8) . rehash () ; let inner : Vec < StateValue > = vec ! [StateValue :: BoundedMerkleTree (blank_tree) , StateValue :: Cell (Sp :: new (AlignedValue :: from (0u64))) ,] ; fields . push (StateValue :: Array (inner . into_iter () . collect ())) ; }");
            reveal_strlit("u8) . rehash () ;");
            let d = dec(tree_height(f.ty)->0 as nat);
            let piece = d + "u8) . rehash () ;"@;
            let k = code.len() - tail.len() - d.len();
            assert(code.subrange(k, k + piece.len()) =~= piece);
            assert(stands_at(code, piece, k));
        },
        _ => {}
    }
}

// ---- the constructor's parameters

proof fn lemma_args_in_order(ps: Seq<ParamV>, n: nat) -> (at: Seq<int>)
    requires
        n <= ps.len(),
    ensures
        stand_in_order(param_args(ps, n), Seq::new(n, |i: int| ps[i].name), at),
    decreases n,
{
    let pieces = Seq::new(n, |i: int| ps[i].name);
    if n == 0 {
        let at: Seq<int> = seq![];
        at
    } else {
        let before = lemma_args_in_order(ps, (n - 1) as nat);
        let text = param_args(ps, (n - 1) as nat);
        let last = ps[n - 1].name;
        let gap = if n == 1 {
            seq![]
        } else {
            " , "@
        };
        let fewer = Seq::new((n - 1) as nat, |i: int| ps[i].name);
        lemma_one_more(text, fewer, before, gap, last);
        assert(fewer.push(last) =~= pieces);
        assert(text + gap + last =~= param_args(ps, n));
        before.push((text + gap).len() as int)
    }
}

/// The deployment code hands the constructor its own parameters in their
/// order.
pub proof fn constructor_gets_its_parameters_in_order(c: ContractV) -> (at: Seq<int>)
    ensures
        ({
            let ps = constructor_params(c.constructors);
            stand_in_order(param_args(ps, ps.len()), Seq::new(ps.len(), |i: int| ps[i].name), at)
        }),
        exists|k: int| #[trigger]
            stands_at(
                deploy_code(c),
                "super :: "@ + c.ledger.name + " :: "@ + constructor_name(c.constructors) + " ("@ + param_args(
                    constructor_params(c.constructors),
                    constructor_params(c.constructors).len(),
                ) + ")"@,
                k,
            ),
{
    let ps = constructor_params(c.constructors);
    let fs = c.ledger.fields;
    let code = fields_code(type_ctx(c), fs, fs.len());
    let call = "super :: "@ + c.ledger.name + " :: "@ + constructor_name(c.constructors) + " ("@ + param_args(
        ps,
        ps.len(),
    ) + ")"@;
    let head = "let __state = super :: "@ + c.ledger.name + " :: "@ + constructor_name(c.constructors) + " ("@
        + param_args(ps, ps.len()) + ") ; let mut fields : Vec < StateValue > = Vec :: with_capacity ("@ + dec(fs.len())
        + "usize) ;"@;
    reveal_strlit("let __state = super :: ");
    reveal_strlit("let __state = ");
    reveal_strlit("super :: ");
    reveal_strlit(") ; let mut fields : Vec < StateValue > = Vec :: with_capacity (");
    reveal_strlit(")");
    let k = "let __state = "@.len() as int;
    assert(head.subrange(k, k + call.len()) =~= call);
    assert(stands_at(head, call, k));
    let tail = "StateValue :: Array (fields . into_iter () . collect ())"@;
    let body = spaced(spaced(head, code), tail);
    lemma_spaced(head, code);
    let x = choose|x: Seq<char>| #[trigger] (head + x + code) == spaced(head, code);
    lemma_spaced(spaced(head, code), tail);
    let y = choose|y: Seq<char>| #[trigger] (spaced(head, code) + y + tail) == body;
    let all = deploy_code(c);
    let start = all.len() - " } }"@.len() - body.len();
    let back = x + code + y + tail + " } }"@;
    assert(start >= 0);
    assert(all =~= all.take(start) + body + " } }"@);
    assert(all =~= all.take(start) + head + back);
    lemma_shift(head, call, k, all.take(start), back);
    lemma_args_in_order(ps, ps.len())
}

} // verus!
