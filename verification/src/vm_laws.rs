//! What the scripts of ledger accesses do to the ledger, operation by operation
//! on a stack.
use crate::vm_ops::{check_root_steps, cond_read_steps, contains_steps, increment_steps, lookup_steps};
use crate::vm_ops::{map_insert_steps, map_remove_steps, operations, read_steps, set_insert_steps, tree_insert_steps};
use crate::vm_ops::{write_steps, OpV, StepV};
use vstd::prelude::*;

verus! {

/// A value on the stack. What a piece of host code evaluates to is named by
/// the code.
pub enum NodeV {
    Null,
    Code(Seq<char>),
    Flag(bool),
    /// A counter after an addition.
    Sum(Box<NodeV>, Seq<char>),
    /// The root of a tree.
    Root(Box<NodeV>),
    /// Whether two values are equal.
    Same(Box<NodeV>, Box<NodeV>),
    Branch(Map<Seq<char>, NodeV>),
}

/// The stack, its top last, and what was popped and held against a claim.
pub struct StackV {
    pub items: Seq<NodeV>,
    pub seen: Seq<(NodeV, Seq<char>)>,
}

/// The key that a value is.
pub open spec fn key_of(n: NodeV) -> Seq<char>
    decreases n,
{
    match n {
        NodeV::Code(c) => c,
        NodeV::Sum(b, c) => key_of(*b) + " + "@ + c,
        _ => seq![],
    }
}

pub open spec fn child(n: NodeV, key: Seq<char>) -> NodeV {
    match n {
        NodeV::Branch(m) => if m.contains_key(key) {
            m[key]
        } else {
            NodeV::Null
        },
        _ => NodeV::Null,
    }
}

pub open spec fn with_child(n: NodeV, key: Seq<char>, v: NodeV) -> NodeV {
    match n {
        NodeV::Branch(m) => NodeV::Branch(m.insert(key, v)),
        _ => n,
    }
}

/// Inserts the top into the container below its key, `n` levels up.
pub open spec fn inserted(items: Seq<NodeV>, n: nat) -> Seq<NodeV>
    decreases n,
{
    let k = items.len() as int;
    if n == 0 || k < 3 {
        items
    } else {
        inserted(
            items.take(k - 3).push(with_child(items[k - 3], key_of(items[k - 2]), items[k - 1])),
            (n - 1) as nat,
        )
    }
}

/// One operation.
pub open spec fn operated(s: StackV, o: OpV) -> StackV {
    let k = s.items.len() as int;
    let top = s.items[k - 1];
    let second = s.items[k - 2];
    match o {
        OpV::Dup { n } => StackV { items: s.items.push(s.items[k - 1 - n]), ..s },
        OpV::Idx { push_path, key } => if push_path {
            StackV { items: s.items.push(NodeV::Code(key)).push(child(top, key)), ..s }
        } else {
            StackV { items: s.items.drop_last().push(child(top, key)), ..s }
        },
        OpV::Push { value, .. } => StackV { items: s.items.push(NodeV::Code(value)), ..s },
        OpV::PushNull => StackV { items: s.items.push(NodeV::Null), ..s },
        OpV::Popeq { result, .. } => StackV { items: s.items.drop_last(), seen: s.seen.push((top, result)) },
        OpV::Addi { immediate } => StackV {
            items: s.items.drop_last().push(NodeV::Sum(Box::new(top), immediate)),
            ..s
        },
        OpV::Ins { n, .. } => StackV { items: inserted(s.items, n), ..s },
        OpV::Rem => StackV {
            items: s.items.take(k - 2).push(
                match second {
                    NodeV::Branch(m) => NodeV::Branch(m.remove(key_of(top))),
                    _ => second,
                },
            ),
            ..s
        },
        OpV::Member => StackV {
            items: s.items.take(k - 2).push(
                NodeV::Flag(
                    match second {
                        NodeV::Branch(m) => m.contains_key(key_of(top)),
                        _ => false,
                    },
                ),
            ),
            ..s
        },
        OpV::Root => StackV { items: s.items.drop_last().push(NodeV::Root(Box::new(top))), ..s },
        OpV::Eq => StackV { items: s.items.take(k - 2).push(NodeV::Same(Box::new(second), Box::new(top))), ..s },
    }
}

/// A list of operations.
pub open spec fn executed(s: StackV, os: Seq<OpV>) -> StackV
    decreases os.len(),
{
    if os.len() == 0 {
        s
    } else {
        operated(executed(s, os.drop_last()), os.last())
    }
}

/// What a script does.
pub open spec fn effect(s: StackV, steps: Seq<StepV>) -> StackV {
    executed(s, operations(steps))
}

/// A stack with the ledger on top.
pub open spec fn on_ledger(below: Seq<NodeV>, ledger: Map<Seq<char>, NodeV>, seen: Seq<(NodeV, Seq<char>)>) -> StackV {
    StackV { items: below.push(NodeV::Branch(ledger)), seen }
}

proof fn lemma_push(s: StackV, os: Seq<OpV>, o: OpV)
    ensures
        executed(s, os.push(o)) == operated(executed(s, os), o),
{
    assert(os.push(o).drop_last() =~= os);
}

proof fn lemma_step(s: StackV, os: Seq<OpV>, n: int)
    requires
        0 < n <= os.len(),
    ensures
        executed(s, os.take(n)) == operated(executed(s, os.take(n - 1)), os[n - 1]),
{
    assert(os.take(n) =~= os.take(n - 1).push(os[n - 1]));
    lemma_push(s, os.take(n - 1), os[n - 1]);
}

proof fn lemma_none(s: StackV, os: Seq<OpV>)
    ensures
        executed(s, os.take(0)) == s,
        executed(s, os.take(os.len() as int)) == executed(s, os),
{
    assert(os.take(0) =~= seq![]);
    assert(os.take(os.len() as int) =~= os);
}

/// A cell write puts the value into the field's slot and changes nothing else.
pub proof fn writes_put_the_value(
    below: Seq<NodeV>,
    ledger: Map<Seq<char>, NodeV>,
    seen: Seq<(NodeV, Seq<char>)>,
    at: Seq<char>,
    value: Seq<char>,
)
    ensures
        effect(on_ledger(below, ledger, seen), write_steps(at, value)) == on_ledger(
            below,
            ledger.insert(at, NodeV::Code(value)),
            seen,
        ),
{
    reveal_with_fuel(operations, 16);
    reveal_with_fuel(inserted, 3);
    let s = on_ledger(below, ledger, seen);
    let os = operations(write_steps(at, value));
    assert(os =~= seq![
        OpV::Push { storage: false, value: at },
        OpV::Push { storage: true, value },
        OpV::Ins { cached: false, n: 1 },
    ]);
    lemma_none(s, os);
    lemma_step(s, os, 1);
    lemma_step(s, os, 2);
    lemma_step(s, os, 3);
    let l = NodeV::Branch(ledger);
    assert(executed(s, os.take(2)).items =~= below.push(l).push(NodeV::Code(at)).push(NodeV::Code(value)));
    assert(executed(s, os).items =~= below.push(NodeV::Branch(ledger.insert(at, NodeV::Code(value)))));
}

/// An increment adds the amount to the counter in the field's slot.
pub proof fn increments_add_the_amount(
    below: Seq<NodeV>,
    ledger: Map<Seq<char>, NodeV>,
    seen: Seq<(NodeV, Seq<char>)>,
    at: Seq<char>,
    amount: Seq<char>,
)
    requires
        ledger.contains_key(at),
    ensures
        effect(on_ledger(below, ledger, seen), increment_steps(at, amount)) == on_ledger(
            below,
            ledger.insert(at, NodeV::Sum(Box::new(ledger[at]), amount)),
            seen,
        ),
{
    reveal_with_fuel(operations, 16);
    reveal_with_fuel(inserted, 3);
    let s = on_ledger(below, ledger, seen);
    let os = operations(increment_steps(at, amount));
    assert(os =~= seq![
        OpV::Idx { push_path: true, key: at },
        OpV::Addi { immediate: amount },
        OpV::Ins { cached: true, n: 1 },
    ]);
    lemma_none(s, os);
    lemma_step(s, os, 1);
    lemma_step(s, os, 2);
    lemma_step(s, os, 3);
    let l = NodeV::Branch(ledger);
    let v = NodeV::Sum(Box::new(ledger[at]), amount);
    assert(executed(s, os.take(2)).items =~= below.push(l).push(NodeV::Code(at)).push(v));
    assert(executed(s, os).items =~= below.push(NodeV::Branch(ledger.insert(at, v))));
}

/// A read leaves the ledger as it is and holds the field's value against the
/// claimed result.
pub proof fn reads_see_the_field(
    below: Seq<NodeV>,
    ledger: Map<Seq<char>, NodeV>,
    seen: Seq<(NodeV, Seq<char>)>,
    at: Seq<char>,
    result: Seq<char>,
)
    requires
        ledger.contains_key(at),
    ensures
        effect(on_ledger(below, ledger, seen), read_steps(at, result)) == on_ledger(
            below,
            ledger,
            seen.push((ledger[at], result)),
        ),
        effect(on_ledger(below, ledger, seen), cond_read_steps(at, result)) == on_ledger(
            below,
            ledger,
            seen.push((ledger[at], "__result"@)),
        ),
{
    reveal_with_fuel(operations, 16);
    let s = on_ledger(below, ledger, seen);
    let l = NodeV::Branch(ledger);
    let os = operations(read_steps(at, result));
    assert(os =~= seq![
        OpV::Dup { n: 0 },
        OpV::Idx { push_path: false, key: at },
        OpV::Popeq { cached: true, result },
    ]);
    lemma_none(s, os);
    lemma_step(s, os, 1);
    lemma_step(s, os, 2);
    lemma_step(s, os, 3);
    assert(executed(s, os.take(2)).items =~= below.push(l).push(ledger[at]));
    assert(executed(s, os).items =~= below.push(l));
    let ps = operations(cond_read_steps(at, result));
    assert(ps =~= seq![
        OpV::Dup { n: 0 },
        OpV::Idx { push_path: false, key: at },
        OpV::Popeq { cached: true, result: "__result"@ },
    ]);
    lemma_none(s, ps);
    lemma_step(s, ps, 1);
    lemma_step(s, ps, 2);
    lemma_step(s, ps, 3);
    assert(executed(s, ps.take(2)).items =~= below.push(l).push(ledger[at]));
    assert(executed(s, ps).items =~= below.push(l));
}

/// An insertion puts the value under the key of the field's map, and into a
/// set the key alone.
pub proof fn insertions_put_the_value_under_its_key(
    below: Seq<NodeV>,
    ledger: Map<Seq<char>, NodeV>,
    seen: Seq<(NodeV, Seq<char>)>,
    at: Seq<char>,
    entries: Map<Seq<char>, NodeV>,
    key: Seq<char>,
    value: Seq<char>,
)
    requires
        ledger.contains_key(at),
        ledger[at] == NodeV::Branch(entries),
    ensures
        effect(on_ledger(below, ledger, seen), map_insert_steps(at, key, value)) == on_ledger(
            below,
            ledger.insert(at, NodeV::Branch(entries.insert(key, NodeV::Code(value)))),
            seen,
        ),
        effect(on_ledger(below, ledger, seen), set_insert_steps(at, key)) == on_ledger(
            below,
            ledger.insert(at, NodeV::Branch(entries.insert(key, NodeV::Null))),
            seen,
        ),
{
    reveal_with_fuel(operations, 16);
    reveal_with_fuel(inserted, 3);
    let s = on_ledger(below, ledger, seen);
    let l = NodeV::Branch(ledger);
    let e = NodeV::Branch(entries);
    let os = operations(map_insert_steps(at, key, value));
    assert(os =~= seq![
        OpV::Idx { push_path: true, key: at },
        OpV::Push { storage: false, value: key },
        OpV::Push { storage: true, value },
        OpV::Ins { cached: false, n: 1 },
        OpV::Ins { cached: true, n: 1 },
    ]);
    lemma_none(s, os);
    lemma_step(s, os, 1);
    lemma_step(s, os, 2);
    lemma_step(s, os, 3);
    lemma_step(s, os, 4);
    lemma_step(s, os, 5);
    let new = NodeV::Branch(entries.insert(key, NodeV::Code(value)));
    assert(executed(s, os.take(3)).items =~= below.push(l).push(NodeV::Code(at)).push(e).push(NodeV::Code(key)).push(
        NodeV::Code(value),
    ));
    assert(executed(s, os.take(4)).items =~= below.push(l).push(NodeV::Code(at)).push(new));
    assert(executed(s, os).items =~= below.push(NodeV::Branch(ledger.insert(at, new))));
    let ps = operations(set_insert_steps(at, key));
    assert(ps =~= seq![
        OpV::Idx { push_path: true, key: at },
        OpV::Push { storage: false, value: key },
        OpV::PushNull,
        OpV::Ins { cached: false, n: 1 },
        OpV::Ins { cached: true, n: 1 },
    ]);
    lemma_none(s, ps);
    lemma_step(s, ps, 1);
    lemma_step(s, ps, 2);
    lemma_step(s, ps, 3);
    lemma_step(s, ps, 4);
    lemma_step(s, ps, 5);
    let other = NodeV::Branch(entries.insert(key, NodeV::Null));
    assert(executed(s, ps.take(3)).items =~= below.push(l).push(NodeV::Code(at)).push(e).push(NodeV::Code(key)).push(
        NodeV::Null,
    ));
    assert(executed(s, ps.take(4)).items =~= below.push(l).push(NodeV::Code(at)).push(other));
    assert(executed(s, ps).items =~= below.push(NodeV::Branch(ledger.insert(at, other))));
}

/// A removal takes the key out of the field's map or set.
pub proof fn removals_take_the_key_out(
    below: Seq<NodeV>,
    ledger: Map<Seq<char>, NodeV>,
    seen: Seq<(NodeV, Seq<char>)>,
    at: Seq<char>,
    entries: Map<Seq<char>, NodeV>,
    key: Seq<char>,
)
    requires
        ledger.contains_key(at),
        ledger[at] == NodeV::Branch(entries),
    ensures
        effect(on_ledger(below, ledger, seen), map_remove_steps(at, key)) == on_ledger(
            below,
            ledger.insert(at, NodeV::Branch(entries.remove(key))),
            seen,
        ),
{
    reveal_with_fuel(operations, 16);
    reveal_with_fuel(inserted, 3);
    let s = on_ledger(below, ledger, seen);
    let l = NodeV::Branch(ledger);
    let e = NodeV::Branch(entries);
    let os = operations(map_remove_steps(at, key));
    assert(os =~= seq![
        OpV::Idx { push_path: true, key: at },
        OpV::Push { storage: false, value: key },
        OpV::Rem,
        OpV::Ins { cached: true, n: 1 },
    ]);
    lemma_none(s, os);
    lemma_step(s, os, 1);
    lemma_step(s, os, 2);
    lemma_step(s, os, 3);
    lemma_step(s, os, 4);
    let new = NodeV::Branch(entries.remove(key));
    assert(executed(s, os.take(2)).items =~= below.push(l).push(NodeV::Code(at)).push(e).push(NodeV::Code(key)));
    assert(executed(s, os.take(3)).items =~= below.push(l).push(NodeV::Code(at)).push(new));
    assert(executed(s, os).items =~= below.push(NodeV::Branch(ledger.insert(at, new))));
}

/// A lookup holds the value under the key, and a membership test whether there
/// is one, against the claimed result; neither changes the ledger.
pub proof fn tests_see_the_key(
    below: Seq<NodeV>,
    ledger: Map<Seq<char>, NodeV>,
    seen: Seq<(NodeV, Seq<char>)>,
    at: Seq<char>,
    entries: Map<Seq<char>, NodeV>,
    key: Seq<char>,
    raw: Seq<char>,
    result: Seq<char>,
    test: Seq<char>,
    tail: Seq<char>,
)
    requires
        ledger.contains_key(at),
        ledger[at] == NodeV::Branch(entries),
    ensures
        entries.contains_key(key) ==> effect(on_ledger(below, ledger, seen), lookup_steps(raw, at, key, result))
            == on_ledger(below, ledger, seen.push((entries[key], result))),
        effect(on_ledger(below, ledger, seen), contains_steps(raw, at, key, test, tail)) == on_ledger(
            below,
            ledger,
            seen.push((NodeV::Flag(entries.contains_key(key)), "__result"@)),
        ),
{
    reveal_with_fuel(operations, 16);
    let s = on_ledger(below, ledger, seen);
    let l = NodeV::Branch(ledger);
    let e = NodeV::Branch(entries);
    let os = operations(lookup_steps(raw, at, key, result));
    assert(os =~= seq![
        OpV::Dup { n: 0 },
        OpV::Idx { push_path: false, key: at },
        OpV::Idx { push_path: false, key },
        OpV::Popeq { cached: false, result },
    ]);
    lemma_none(s, os);
    lemma_step(s, os, 1);
    lemma_step(s, os, 2);
    lemma_step(s, os, 3);
    lemma_step(s, os, 4);
    assert(executed(s, os.take(2)).items =~= below.push(l).push(e));
    assert(executed(s, os.take(3)).items =~= below.push(l).push(child(e, key)));
    assert(executed(s, os).items =~= below.push(l));
    let ps = operations(contains_steps(raw, at, key, test, tail));
    assert(ps =~= seq![
        OpV::Dup { n: 0 },
        OpV::Idx { push_path: false, key: at },
        OpV::Push { storage: false, value: key },
        OpV::Member,
        OpV::Popeq { cached: true, result: "__result"@ },
    ]);
    lemma_none(s, ps);
    lemma_step(s, ps, 1);
    lemma_step(s, ps, 2);
    lemma_step(s, ps, 3);
    lemma_step(s, ps, 4);
    lemma_step(s, ps, 5);
    assert(executed(s, ps.take(2)).items =~= below.push(l).push(e));
    assert(executed(s, ps.take(3)).items =~= below.push(l).push(e).push(NodeV::Code(key)));
    assert(executed(s, ps.take(4)).items =~= below.push(l).push(NodeV::Flag(entries.contains_key(key))));
    assert(executed(s, ps).items =~= below.push(l));
}

proof fn lemma_tree_operations(raw: Seq<char>, at: Seq<char>, test: Seq<char>)
    ensures
        operations(tree_insert_steps(raw, at)) =~= seq![
            OpV::Idx { push_path: true, key: at },
            OpV::Idx { push_path: true, key: "0u8"@ },
            OpV::Dup { n: 2 },
            OpV::Idx { push_path: false, key: "1u8"@ },
            OpV::Push { storage: true, value: "__leaf_hash"@ },
            OpV::Ins { cached: false, n: 1 },
            OpV::Ins { cached: true, n: 1 },
            OpV::Idx { push_path: true, key: "1u8"@ },
            OpV::Addi { immediate: "1"@ },
            OpV::Ins { cached: true, n: 2 },
        ],
        operations(check_root_steps(raw, at, test)) =~= seq![
            OpV::Dup { n: 0 },
            OpV::Idx { push_path: false, key: at },
            OpV::Idx { push_path: false, key: "0u8"@ },
            OpV::Root,
            OpV::Push { storage: false, value: "__digest_fr"@ },
            OpV::Eq,
            OpV::Popeq { cached: true, result: "__result"@ },
        ],
{
    reveal_with_fuel(operations, 16);
}

/// An insertion of the top into a container, one level up.
proof fn lemma_inserted(below: Seq<NodeV>, c: NodeV, key: NodeV, v: NodeV)
    ensures
        inserted(below.push(c).push(key).push(v), 1) == below.push(with_child(c, key_of(key), v)),
{
    reveal_with_fuel(inserted, 2);
    let items = below.push(c).push(key).push(v);
    assert(items.take(items.len() - 3) =~= below);
}

proof fn lemma_inserted_twice(below: Seq<NodeV>, c: NodeV, key: NodeV, d: NodeV, inner: NodeV, v: NodeV)
    ensures
        inserted(below.push(c).push(key).push(d).push(inner).push(v), 2) == below.push(
            with_child(c, key_of(key), with_child(d, key_of(inner), v)),
        ),
{
    let base = below.push(c).push(key);
    let items = base.push(d).push(inner).push(v);
    assert(items.take(items.len() - 3) =~= base);
    lemma_inserted(below, c, key, with_child(d, key_of(inner), v));
}

/// A tree is a branch of its leaves and the index of the next one. An insertion
/// puts the leaf's hash at that index and moves the index on by one.
pub proof fn trees_grow_at_their_index(
    below: Seq<NodeV>,
    ledger: Map<Seq<char>, NodeV>,
    seen: Seq<(NodeV, Seq<char>)>,
    at: Seq<char>,
    tree: Map<Seq<char>, NodeV>,
    leaves: Map<Seq<char>, NodeV>,
    raw: Seq<char>,
)
    requires
        ledger.contains_key(at),
        ledger[at] == NodeV::Branch(tree),
        tree.contains_key("0u8"@),
        tree.contains_key("1u8"@),
        tree["0u8"@] == NodeV::Branch(leaves),
    ensures
        effect(on_ledger(below, ledger, seen), tree_insert_steps(raw, at)) == on_ledger(
            below,
            ledger.insert(
                at,
                NodeV::Branch(
                    tree.insert(
                        "0u8"@,
                        NodeV::Branch(leaves.insert(key_of(tree["1u8"@]), NodeV::Code("__leaf_hash"@))),
                    ).insert("1u8"@, NodeV::Sum(Box::new(tree["1u8"@]), "1"@)),
                ),
            ),
            seen,
        ),
{
    reveal_strlit("0u8");
    reveal_strlit("1u8");
    assert("0u8"@[0] != "1u8"@[0]);
    lemma_tree_operations(raw, at, seq![]);
    let s = on_ledger(below, ledger, seen);
    let l = NodeV::Branch(ledger);
    let t = NodeV::Branch(tree);
    let v = NodeV::Branch(leaves);
    let i = tree["1u8"@];
    let h = NodeV::Code("__leaf_hash"@);
    let zero = NodeV::Code("0u8"@);
    let one = NodeV::Code("1u8"@);
    let os = operations(tree_insert_steps(raw, at));
    let base = below.push(l).push(NodeV::Code(at));
    let s5 = StackV { items: base.push(t).push(zero).push(v).push(i).push(h), seen };
    assert(executed(s, os.take(5)) == s5) by {
        lemma_none(s, os);
        lemma_step(s, os, 1);
        lemma_step(s, os, 2);
        lemma_step(s, os, 3);
        lemma_step(s, os, 4);
        lemma_step(s, os, 5);
        assert(executed(s, os.take(2)).items =~= base.push(t).push(zero).push(v));
        assert(executed(s, os.take(4)).items =~= base.push(t).push(zero).push(v).push(i));
    }
    let grown = NodeV::Branch(leaves.insert(key_of(i), h));
    let half = NodeV::Branch(tree.insert("0u8"@, grown));
    let s7 = StackV { items: base.push(half), seen };
    assert(executed(s, os.take(7)) == s7) by {
        lemma_step(s, os, 6);
        lemma_step(s, os, 7);
        lemma_inserted(base.push(t).push(zero), v, i, h);
        lemma_inserted(base, t, zero, grown);
    }
    let next = NodeV::Sum(Box::new(i), "1"@);
    let s9 = StackV { items: base.push(half).push(one).push(next), seen };
    assert(executed(s, os.take(9)) == s9) by {
        lemma_step(s, os, 8);
        lemma_step(s, os, 9);
        assert(child(half, "1u8"@) == i);
        assert(executed(s, os.take(9)).items =~= s9.items);
    }
    lemma_step(s, os, 10);
    lemma_none(s, os);
    lemma_inserted_twice(below, l, NodeV::Code(at), half, one, next);
}

/// A root check leaves the ledger as it is and holds whether the root of the
/// field's tree is the digest against the claimed result.
pub proof fn root_checks_see_the_root(
    below: Seq<NodeV>,
    ledger: Map<Seq<char>, NodeV>,
    seen: Seq<(NodeV, Seq<char>)>,
    at: Seq<char>,
    tree: Map<Seq<char>, NodeV>,
    raw: Seq<char>,
    test: Seq<char>,
)
    requires
        ledger.contains_key(at),
        ledger[at] == NodeV::Branch(tree),
        tree.contains_key("0u8"@),
    ensures
        effect(on_ledger(below, ledger, seen), check_root_steps(raw, at, test)) == on_ledger(
            below,
            ledger,
            seen.push(
                (
                    NodeV::Same(
                        Box::new(NodeV::Root(Box::new(tree["0u8"@]))),
                        Box::new(NodeV::Code("__digest_fr"@)),
                    ),
                    "__result"@,
                ),
            ),
        ),
{
    lemma_tree_operations(raw, at, test);
    let s = on_ledger(below, ledger, seen);
    let l = NodeV::Branch(ledger);
    let t = NodeV::Branch(tree);
    let v = tree["0u8"@];
    let root = NodeV::Root(Box::new(v));
    let os = operations(check_root_steps(raw, at, test));
    lemma_none(s, os);
    lemma_step(s, os, 1);
    lemma_step(s, os, 2);
    assert(executed(s, os.take(2)).items =~= below.push(l).push(t));
    lemma_step(s, os, 3);
    assert(executed(s, os.take(3)).items =~= below.push(l).push(v));
    lemma_step(s, os, 4);
    lemma_step(s, os, 5);
    assert(executed(s, os.take(5)).items =~= below.push(l).push(root).push(NodeV::Code("__digest_fr"@)));
    lemma_step(s, os, 6);
    lemma_step(s, os, 7);
    assert(executed(s, os).items =~= below.push(l));
}

} // verus!
