//! The VM operations that a transcript builder pushes: each operation's code
//! and opcode, and for each ledger access the script that pushes them.
use crate::code::{bool_text, idx_code, make_idx, make_popeq, make_push, popeq_code, push_code, show_bool};
use crate::text::{cat3, cat5, dec, number, txt};
use vstd::prelude::*;

verus! {

/// One VM operation, with its operands as code.
pub enum OpV {
    Dup { n: nat },
    Idx { push_path: bool, key: Seq<char> },
    Push { storage: bool, value: Seq<char> },
    PushNull,
    Popeq { cached: bool, result: Seq<char> },
    Addi { immediate: Seq<char> },
    Ins { cached: bool, n: nat },
    Rem,
    Member,
    Root,
    Eq,
}

pub open spec fn dup_code(n: nat) -> Seq<char> {
    "__nocturne_ops . push (Op :: Dup { n : "@ + dec(n) + " }) ;"@
}

pub open spec fn ins_code(cached: bool, n: nat) -> Seq<char> {
    "__nocturne_ops . push (Op :: Ins { cached : "@ + bool_text(cached) + " , n : "@ + dec(n) + " }) ;"@
}

pub open spec fn addi_code(immediate: Seq<char>) -> Seq<char> {
    "__nocturne_ops . push (Op :: Addi { immediate : "@ + immediate + " }) ;"@
}

/// The statement that pushes an operation.
pub open spec fn op_code(o: OpV) -> Seq<char> {
    match o {
        OpV::Dup { n } => dup_code(n),
        OpV::Idx { push_path, key } => idx_code(push_path, key),
        OpV::Push { storage, value } => push_code(storage, value),
        OpV::PushNull =>
            "__nocturne_ops . push (Op :: Push { storage : true , value : StateValue :: Null , }) ;"@,
        OpV::Popeq { cached, result } => popeq_code(cached, result),
        OpV::Addi { immediate } => addi_code(immediate),
        OpV::Ins { cached, n } => ins_code(cached, n),
        OpV::Rem => "__nocturne_ops . push (Op :: Rem { cached : false }) ;"@,
        OpV::Member => "__nocturne_ops . push (Op :: Member) ;"@,
        OpV::Root => "__nocturne_ops . push (Op :: Root) ;"@,
        OpV::Eq => "__nocturne_ops . push (Op :: Eq) ;"@,
    }
}

/// The opcode by which a circuit declares an operation.
pub open spec fn opcode(o: OpV) -> int {
    match o {
        OpV::Dup { n } => 0x30 + n as int,
        OpV::Idx { push_path, .. } => if push_path {
            0x70
        } else {
            0x50
        },
        OpV::Push { storage, .. } => if storage {
            0x11
        } else {
            0x10
        },
        OpV::PushNull => 0x11,
        OpV::Popeq { cached, .. } => if cached {
            0x0d
        } else {
            0x0c
        },
        OpV::Addi { .. } => 0x0e,
        OpV::Ins { cached, n } => if cached {
            0xa0 + n as int
        } else {
            0x90 + n as int
        },
        OpV::Rem => 0x19,
        OpV::Member => 0x18,
        OpV::Root => 0x0a,
        OpV::Eq => 0x02,
    }
}

/// One line of a script: the push of an operation, or host code around it.
pub enum StepV {
    Op(OpV),
    Host(Seq<char>),
}

pub open spec fn step_code(s: StepV) -> Seq<char> {
    match s {
        StepV::Op(o) => op_code(o),
        StepV::Host(text) => text,
    }
}

/// Lines of code after each other.
pub open spec fn lined(ts: Seq<Seq<char>>) -> Seq<char>
    decreases ts.len(),
{
    if ts.len() == 0 {
        seq![]
    } else if ts.len() == 1 {
        ts[0]
    } else {
        lined(ts.drop_last()) + " "@ + ts.last()
    }
}

pub open spec fn step_codes(steps: Seq<StepV>) -> Seq<Seq<char>> {
    Seq::new(steps.len(), |i: int| step_code(steps[i]))
}

/// The code of a script.
pub open spec fn script(steps: Seq<StepV>) -> Seq<char> {
    lined(step_codes(steps))
}

/// The operations that a script pushes, in order.
pub open spec fn operations(steps: Seq<StepV>) -> Seq<OpV>
    decreases steps.len(),
{
    if steps.len() == 0 {
        seq![]
    } else {
        match steps.last() {
            StepV::Op(o) => operations(steps.drop_last()).push(o),
            StepV::Host(_) => operations(steps.drop_last()),
        }
    }
}

/// The opcodes of operations, in order.
pub open spec fn opcodes(os: Seq<OpV>) -> Seq<int> {
    Seq::new(os.len(), |i: int| opcode(os[i]))
}

pub(crate) fn join_lines(parts: &Vec<String>) -> (r: String)
    ensures
        r@ == lined(parts.deep_view()),
{
    let mut out = String::new();
    let mut i: usize = 0;
    proof {
        assert(parts.deep_view().take(0) =~= seq![]);
    }
    while i < parts.len()
        invariant
            i <= parts@.len(),
            out@ == lined(parts.deep_view().take(i as int)),
        decreases parts@.len() - i,
    {
        proof {
            let before = parts.deep_view().take(i as int);
            let after = parts.deep_view().take(i + 1);
            assert(after.drop_last() =~= before);
            assert(after.last() == parts@[i as int]@);
            assert(after.len() == i + 1);
        }
        if i > 0 {
            out.append(" ");
        }
        out.append(parts[i].as_str());
        proof {
            if i == 0 {
                assert(out@ =~= parts@[0]@);
            }
        }
        i += 1;
    }
    proof {
        assert(parts.deep_view().take(i as int) =~= parts.deep_view());
    }
    out
}

fn make_dup(n: u8) -> (r: String)
    ensures
        r@ == dup_code(n as nat),
{
    let d = number(n as u128);
    cat3("__nocturne_ops . push (Op :: Dup { n : ", d.as_str(), " }) ;")
}

fn make_ins(cached: bool, n: u8) -> (r: String)
    ensures
        r@ == ins_code(cached, n as nat),
{
    let d = number(n as u128);
    cat5(
        "__nocturne_ops . push (Op :: Ins { cached : ",
        show_bool(cached),
        " , n : ",
        d.as_str(),
        " }) ;",
    )
}

fn make_addi(immediate: &str) -> (r: String)
    ensures
        r@ == addi_code(immediate@),
{
    cat3("__nocturne_ops . push (Op :: Addi { immediate : ", immediate, " }) ;")
}

/// A cell write.
pub open spec fn write_steps(at: Seq<char>, value: Seq<char>) -> Seq<StepV> {
    seq![
        StepV::Op(OpV::Push { storage: false, value: at }),
        StepV::Op(OpV::Push { storage: true, value: value }),
        StepV::Op(OpV::Ins { cached: false, n: 1 }),
    ]
}

pub(crate) fn make_write(at: &str, value: &str) -> (r: String)
    ensures
        r@ == script(write_steps(at@, value@)),
{
    let mut parts: Vec<String> = Vec::new();
    parts.push(make_push(false, at));
    parts.push(make_push(true, value));
    parts.push(make_ins(false, 1));
    assert(parts.deep_view() =~= step_codes(write_steps(at@, value@)));
    join_lines(&parts)
}

/// A ledger read.
pub open spec fn read_steps(at: Seq<char>, result: Seq<char>) -> Seq<StepV> {
    seq![
        StepV::Op(OpV::Dup { n: 0 }),
        StepV::Op(OpV::Idx { push_path: false, key: at }),
        StepV::Op(OpV::Popeq { cached: true, result: result }),
    ]
}

pub(crate) fn make_read(at: &str, result: &str) -> (r: String)
    ensures
        r@ == script(read_steps(at@, result@)),
{
    let mut parts: Vec<String> = Vec::new();
    parts.push(make_dup(0));
    parts.push(make_idx(false, at));
    parts.push(make_popeq(true, result));
    assert(parts.deep_view() =~= step_codes(read_steps(at@, result@)));
    join_lines(&parts)
}

/// A counter increment.
pub open spec fn increment_steps(at: Seq<char>, amount: Seq<char>) -> Seq<StepV> {
    seq![
        StepV::Op(OpV::Idx { push_path: true, key: at }),
        StepV::Op(OpV::Addi { immediate: amount }),
        StepV::Op(OpV::Ins { cached: true, n: 1 }),
    ]
}

pub(crate) fn make_increment(at: &str, amount: &str) -> (r: String)
    ensures
        r@ == script(increment_steps(at@, amount@)),
{
    let mut parts: Vec<String> = Vec::new();
    parts.push(make_idx(true, at));
    parts.push(make_addi(amount));
    parts.push(make_ins(true, 1));
    assert(parts.deep_view() =~= step_codes(increment_steps(at@, amount@)));
    join_lines(&parts)
}

/// A map insertion.
pub open spec fn map_insert_steps(at: Seq<char>, key: Seq<char>, value: Seq<char>) -> Seq<StepV> {
    seq![
        StepV::Op(OpV::Idx { push_path: true, key: at }),
        StepV::Op(OpV::Push { storage: false, value: key }),
        StepV::Op(OpV::Push { storage: true, value: value }),
        StepV::Op(OpV::Ins { cached: false, n: 1 }),
        StepV::Op(OpV::Ins { cached: true, n: 1 }),
    ]
}

pub(crate) fn make_map_insert(at: &str, key: &str, value: &str) -> (r: String)
    ensures
        r@ == script(map_insert_steps(at@, key@, value@)),
{
    let mut parts: Vec<String> = Vec::new();
    parts.push(make_idx(true, at));
    parts.push(make_push(false, key));
    parts.push(make_push(true, value));
    parts.push(make_ins(false, 1));
    parts.push(make_ins(true, 1));
    assert(parts.deep_view() =~= step_codes(map_insert_steps(at@, key@, value@)));
    join_lines(&parts)
}

/// A removal from a map or set.
pub open spec fn map_remove_steps(at: Seq<char>, key: Seq<char>) -> Seq<StepV> {
    seq![
        StepV::Op(OpV::Idx { push_path: true, key: at }),
        StepV::Op(OpV::Push { storage: false, value: key }),
        StepV::Op(OpV::Rem),
        StepV::Op(OpV::Ins { cached: true, n: 1 }),
    ]
}

pub(crate) fn make_map_remove(at: &str, key: &str) -> (r: String)
    ensures
        r@ == script(map_remove_steps(at@, key@)),
{
    let mut parts: Vec<String> = Vec::new();
    parts.push(make_idx(true, at));
    parts.push(make_push(false, key));
    parts.push(txt("__nocturne_ops . push (Op :: Rem { cached : false }) ;"));
    parts.push(make_ins(true, 1));
    assert(parts.deep_view() =~= step_codes(map_remove_steps(at@, key@)));
    join_lines(&parts)
}

/// A set insertion.
pub open spec fn set_insert_steps(at: Seq<char>, key: Seq<char>) -> Seq<StepV> {
    seq![
        StepV::Op(OpV::Idx { push_path: true, key: at }),
        StepV::Op(OpV::Push { storage: false, value: key }),
        StepV::Op(OpV::PushNull),
        StepV::Op(OpV::Ins { cached: false, n: 1 }),
        StepV::Op(OpV::Ins { cached: true, n: 1 }),
    ]
}

pub(crate) fn make_set_insert(at: &str, key: &str) -> (r: String)
    ensures
        r@ == script(set_insert_steps(at@, key@)),
{
    let mut parts: Vec<String> = Vec::new();
    parts.push(make_idx(true, at));
    parts.push(make_push(false, key));
    parts.push(txt("__nocturne_ops . push (Op :: Push { storage : true , value : StateValue :: Null , }) ;"));
    parts.push(make_ins(false, 1));
    parts.push(make_ins(true, 1));
    assert(parts.deep_view() =~= step_codes(set_insert_steps(at@, key@)));
    join_lines(&parts)
}

/// A map lookup.
pub open spec fn lookup_steps(raw: Seq<char>, at: Seq<char>, key: Seq<char>, result: Seq<char>) -> Seq<StepV> {
    seq![
        StepV::Host("{ let __key = "@ + raw + " ;"@),
        StepV::Op(OpV::Dup { n: 0 }),
        StepV::Op(OpV::Idx { push_path: false, key: at }),
        StepV::Op(OpV::Idx { push_path: false, key: key }),
        StepV::Op(OpV::Popeq { cached: false, result: result }),
        StepV::Host("}"@),
    ]
}

pub(crate) fn make_lookup(raw: &str, at: &str, key: &str, result: &str) -> (r: String)
    ensures
        r@ == script(lookup_steps(raw@, at@, key@, result@)),
{
    let mut parts: Vec<String> = Vec::new();
    parts.push(cat3("{ let __key = ", raw, " ;"));
    parts.push(make_dup(0));
    parts.push(make_idx(false, at));
    parts.push(make_idx(false, key));
    parts.push(make_popeq(false, result));
    parts.push(txt("}"));
    assert(parts.deep_view() =~= step_codes(lookup_steps(raw@, at@, key@, result@)));
    join_lines(&parts)
}

/// A membership test: host code before it, and behind its result.
pub open spec fn contains_steps(head: Seq<char>, at: Seq<char>, key: Seq<char>, test: Seq<char>, tail: Seq<char>) -> Seq<StepV> {
    seq![
        StepV::Host(head),
        StepV::Op(OpV::Dup { n: 0 }),
        StepV::Op(OpV::Idx { push_path: false, key: at }),
        StepV::Op(OpV::Push { storage: false, value: key }),
        StepV::Op(OpV::Member),
        StepV::Host(test),
        StepV::Op(OpV::Popeq { cached: true, result: "__result"@ }),
        StepV::Host(tail),
    ]
}

pub(crate) fn make_contains(head: &str, at: &str, key: &str, test: &str, tail: &str) -> (r: String)
    ensures
        r@ == script(contains_steps(head@, at@, key@, test@, tail@)),
{
    let mut parts: Vec<String> = Vec::new();
    parts.push(txt(head));
    parts.push(make_dup(0));
    parts.push(make_idx(false, at));
    parts.push(make_push(false, key));
    parts.push(txt("__nocturne_ops . push (Op :: Member) ;"));
    parts.push(txt(test));
    parts.push(make_popeq(true, "__result"));
    parts.push(txt(tail));
    assert(parts.deep_view() =~= step_codes(contains_steps(head@, at@, key@, test@, tail@)));
    join_lines(&parts)
}

/// A boolean ledger read as a condition.
pub open spec fn cond_read_steps(at: Seq<char>, result: Seq<char>) -> Seq<StepV> {
    seq![
        StepV::Host("{"@),
        StepV::Op(OpV::Dup { n: 0 }),
        StepV::Op(OpV::Idx { push_path: false, key: at }),
        StepV::Host("let __result : bool = "@ + result + " ;"@),
        StepV::Op(OpV::Popeq { cached: true, result: "__result"@ }),
        StepV::Host("__result }"@),
    ]
}

pub(crate) fn make_cond_read(at: &str, result: &str) -> (r: String)
    ensures
        r@ == script(cond_read_steps(at@, result@)),
{
    let mut parts: Vec<String> = Vec::new();
    parts.push(txt("{"));
    parts.push(make_dup(0));
    parts.push(make_idx(false, at));
    parts.push(cat3("let __result : bool = ", result, " ;"));
    parts.push(make_popeq(true, "__result"));
    parts.push(txt("__result }"));
    assert(parts.deep_view() =~= step_codes(cond_read_steps(at@, result@)));
    join_lines(&parts)
}

/// A Merkle root check.
pub open spec fn check_root_steps(raw: Seq<char>, at: Seq<char>, test: Seq<char>) -> Seq<StepV> {
    seq![
        StepV::Host("{ let __digest = "@ + raw + " ; let __digest_fr = Fr :: from_le_bytes (& (& __digest) . as_le_bytes ()) . expect (\"MerkleTreeDigest bytes round-trip through Fr\") ;"@),
        StepV::Op(OpV::Dup { n: 0 }),
        StepV::Op(OpV::Idx { push_path: false, key: at }),
        StepV::Op(OpV::Idx { push_path: false, key: "0u8"@ }),
        StepV::Op(OpV::Root),
        StepV::Op(OpV::Push { storage: false, value: "__digest_fr"@ }),
        StepV::Op(OpV::Eq),
        StepV::Host(test),
        StepV::Op(OpV::Popeq { cached: true, result: "__result"@ }),
        StepV::Host("}"@),
    ]
}

pub(crate) fn make_check_root(raw: &str, at: &str, test: &str) -> (r: String)
    ensures
        r@ == script(check_root_steps(raw@, at@, test@)),
{
    let mut parts: Vec<String> = Vec::new();
    parts.push(cat3("{ let __digest = ", raw, " ; let __digest_fr = Fr :: from_le_bytes (& (& __digest) . as_le_bytes ()) . expect (\"MerkleTreeDigest bytes round-trip through Fr\") ;"));
    parts.push(make_dup(0));
    parts.push(make_idx(false, at));
    parts.push(make_idx(false, "0u8"));
    parts.push(txt("__nocturne_ops . push (Op :: Root) ;"));
    parts.push(make_push(false, "__digest_fr"));
    parts.push(txt("__nocturne_ops . push (Op :: Eq) ;"));
    parts.push(txt(test));
    parts.push(make_popeq(true, "__result"));
    parts.push(txt("}"));
    assert(parts.deep_view() =~= step_codes(check_root_steps(raw@, at@, test@)));
    join_lines(&parts)
}

/// A Merkle tree insertion.
pub open spec fn tree_insert_steps(raw: Seq<char>, at: Seq<char>) -> Seq<StepV> {
    seq![
        StepV::Host("{ let __leaf = "@ + raw + " ; let __leaf_hash : [u8 ; 32] = nocturne :: runtime :: transient_crypto :: merkle_tree :: leaf_hash (__leaf . as_bytes () . as_slice ()) . 0 ;"@),
        StepV::Op(OpV::Idx { push_path: true, key: at }),
        StepV::Op(OpV::Idx { push_path: true, key: "0u8"@ }),
        StepV::Op(OpV::Dup { n: 2 }),
        StepV::Op(OpV::Idx { push_path: false, key: "1u8"@ }),
        StepV::Op(OpV::Push { storage: true, value: "__leaf_hash"@ }),
        StepV::Op(OpV::Ins { cached: false, n: 1 }),
        StepV::Op(OpV::Ins { cached: true, n: 1 }),
        StepV::Op(OpV::Idx { push_path: true, key: "1u8"@ }),
        StepV::Op(OpV::Addi { immediate: "1"@ }),
        StepV::Op(OpV::Ins { cached: true, n: 2 }),
        StepV::Host("}"@),
    ]
}

pub(crate) fn make_tree_insert(raw: &str, at: &str) -> (r: String)
    ensures
        r@ == script(tree_insert_steps(raw@, at@)),
{
    let mut parts: Vec<String> = Vec::new();
    parts.push(cat3("{ let __leaf = ", raw, " ; let __leaf_hash : [u8 ; 32] = nocturne :: runtime :: transient_crypto :: merkle_tree :: leaf_hash (__leaf . as_bytes () . as_slice ()) . 0 ;"));
    parts.push(make_idx(true, at));
    parts.push(make_idx(true, "0u8"));
    parts.push(make_dup(2));
    parts.push(make_idx(false, "1u8"));
    parts.push(make_push(true, "__leaf_hash"));
    parts.push(make_ins(false, 1));
    parts.push(make_ins(true, 1));
    parts.push(make_idx(true, "1u8"));
    parts.push(make_addi("1"));
    parts.push(make_ins(true, 2));
    parts.push(txt("}"));
    assert(parts.deep_view() =~= step_codes(tree_insert_steps(raw@, at@)));
    join_lines(&parts)
}

} // verus!
