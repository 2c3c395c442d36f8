//! Small tables keyed by identifier.
use crate::text::same;
use vstd::prelude::*;

verus! {

/// The table that a list of bindings denotes: a later binding of a name
/// replaces an earlier one.
pub open spec fn bindings<V: DeepView>(s: Seq<(String, V)>) -> Map<Seq<char>, V::V>
    decreases s.len(),
{
    if s.len() == 0 {
        Map::empty()
    } else {
        bindings(s.drop_last()).insert(s.last().0@, s.last().1.deep_view())
    }
}

/// A table from identifiers to values.
#[derive(Debug)]
pub struct NameMap<V> {
    entries: Vec<(String, V)>,
}

impl<V: DeepView> View for NameMap<V> {
    type V = Map<Seq<char>, V::V>;

    closed spec fn view(&self) -> Map<Seq<char>, V::V> {
        bindings(self.entries@)
    }
}

/// `o` is the value that `m` holds for `k`.
pub open spec fn found<V: DeepView>(o: Option<&V>, m: Map<Seq<char>, V::V>, k: Seq<char>) -> bool {
    match o {
        Some(v) => m.contains_key(k) && m[k] == v.deep_view(),
        None => !m.contains_key(k),
    }
}

proof fn lemma_bindings_take<V: DeepView>(s: Seq<(String, V)>, i: int, k: Seq<char>)
    requires
        0 <= i <= s.len(),
        forall|j: int| i <= j < s.len() ==> (#[trigger] s[j]).0@ != k,
    ensures
        bindings(s).contains_key(k) == bindings(s.take(i)).contains_key(k),
        bindings(s).contains_key(k) ==> bindings(s)[k] == bindings(s.take(i))[k],
    decreases s.len() - i,
{
    if i < s.len() {
        lemma_bindings_take(s.drop_last(), i, k);
        assert(s.drop_last().take(i) =~= s.take(i));
    } else {
        assert(s.take(i) =~= s);
    }
}

impl<V: DeepView> NameMap<V> {
    /// An empty table.
    pub fn new() -> (r: Self)
        ensures
            r@ == Map::<Seq<char>, V::V>::empty(),
    {
        NameMap { entries: Vec::new() }
    }

    /// The number of bindings made so far; at least the number of names bound.
    pub fn len(&self) -> (n: usize)
        ensures
            n == self.spec_len(),
    {
        self.entries.len()
    }

    /// The number of bindings made so far.
    pub closed spec fn spec_len(&self) -> nat {
        self.entries@.len()
    }

    /// The value bound to `key`.
    pub fn get(&self, key: &str) -> (r: Option<&V>)
        ensures
            found(r, self@, key@),
    {
        let mut i: usize = self.entries.len();
        while i > 0
            invariant
                i <= self.entries@.len(),
                forall|j: int| i <= j < self.entries@.len() ==> (#[trigger] self.entries@[j]).0@ != key@,
            decreases i,
        {
            i -= 1;
            if same(self.entries[i].0.as_str(), key) {
                proof {
                    lemma_bindings_take(self.entries@, i + 1, key@);
                    assert(self.entries@.take(i + 1).drop_last() =~= self.entries@.take(i as int));
                }
                return Some(&self.entries[i].1);
            }
        }
        proof {
            lemma_bindings_take(self.entries@, 0, key@);
        }
        None
    }

    /// Whether `key` is bound.
    pub fn contains_key(&self, key: &str) -> (r: bool)
        ensures
            r == self@.contains_key(key@),
    {
        self.get(key).is_some()
    }

    /// Binds `key` to `value`, replacing an earlier binding.
    pub fn insert(&mut self, key: String, value: V)
        ensures
            final(self)@ == old(self)@.insert(key@, value.deep_view()),
            final(self).spec_len() == old(self).spec_len() + 1,
    {
        let ghost before = self.entries@;
        self.entries.push((key, value));
        assert(self.entries@.drop_last() =~= before);
    }

    /// Drops every binding of `key`.
    pub fn remove(&mut self, key: &str)
        ensures
            final(self)@ == old(self)@.remove(key@),
    {
        let mut kept: Vec<(String, V)> = Vec::new();
        let mut rest: Vec<(String, V)> = Vec::new();
        std::mem::swap(&mut rest, &mut self.entries);
        let ghost all = rest@;
        assert(all.take(all.len() as int) =~= all);
        let mut popped: Vec<(String, V)> = Vec::new();
        while rest.len() > 0
            invariant
                rest@ == all.take(rest@.len() as int),
                rest@.len() <= all.len(),
                popped@.len() == all.len() - rest@.len(),
                forall|j: int| 0 <= j < popped@.len() ==> popped@[j] == all[all.len() - 1 - j],
            decreases rest@.len(),
        {
            match rest.pop() {
                Some(e) => {
                    popped.push(e);
                }
                None => {}
            }
        }
        assert(all.take(0) =~= Seq::<(String, V)>::empty());
        assert(bindings(kept@) =~= bindings(all.take(0)).remove(key@));
        while popped.len() > 0
            invariant
                popped@.len() <= all.len(),
                forall|j: int| 0 <= j < popped@.len() ==> popped@[j] == all[all.len() - 1 - j],
                bindings(kept@) == bindings(all.take(all.len() - popped@.len())).remove(key@),
            decreases popped@.len(),
        {
            let ghost done = all.len() - popped@.len();
            match popped.pop() {
                Some(e) => {
                    proof {
                        assert(e == all[done]);
                        assert(all.take(done + 1).drop_last() =~= all.take(done));
                        assert(all.take(done + 1).last() == e);
                    }
                    let ghost before = kept@;
                    if !same(e.0.as_str(), key) {
                        kept.push(e);
                        proof {
                            assert(kept@.drop_last() =~= before);
                            assert(bindings(kept@) =~= bindings(all.take(done + 1)).remove(key@));
                        }
                    } else {
                        proof {
                            assert(bindings(kept@) =~= bindings(all.take(done + 1)).remove(key@));
                        }
                    }
                }
                None => {}
            }
        }
        self.entries = kept;
        assert(all.take(all.len() as int) =~= all);
    }
}

impl NameMap<String> {
    /// A table with the same bindings.
    pub fn duplicate(&self) -> (r: Self)
        ensures
            r@ == self@,
    {
        let mut entries: Vec<(String, String)> = Vec::new();
        let mut i: usize = 0;
        assert(bindings(entries@) =~= bindings(self.entries@.take(0)));
        while i < self.entries.len()
            invariant
                i <= self.entries@.len(),
                bindings(entries@) == bindings(self.entries@.take(i as int)),
            decreases self.entries@.len() - i,
        {
            let ghost before = entries@;
            entries.push((self.entries[i].0.clone(), self.entries[i].1.clone()));
            proof {
                assert(entries@.drop_last() =~= before);
                assert(self.entries@.take(i + 1).drop_last() =~= self.entries@.take(i as int));
            }
            i += 1;
        }
        assert(self.entries@.take(i as int) =~= self.entries@);
        NameMap { entries }
    }
}

/// A set of identifiers.
#[derive(Debug)]
pub struct NameSet {
    items: Vec<String>,
}

impl View for NameSet {
    type V = Set<Seq<char>>;

    closed spec fn view(&self) -> Set<Seq<char>> {
        Set::new(|k: Seq<char>| exists|i: int| 0 <= i < self.items@.len() && (#[trigger] self.items@[i])@ == k)
    }
}

impl NameSet {
    /// An empty set.
    pub fn new() -> (r: Self)
        ensures
            r@ == Set::<Seq<char>>::empty(),
    {
        let r = NameSet { items: Vec::new() };
        assert(r@ =~= Set::<Seq<char>>::empty());
        r
    }

    /// Whether `key` is a member.
    pub fn contains(&self, key: &str) -> (r: bool)
        ensures
            r == self@.contains(key@),
    {
        let mut i: usize = 0;
        while i < self.items.len()
            invariant
                i <= self.items@.len(),
                forall|j: int| 0 <= j < i ==> (#[trigger] self.items@[j])@ != key@,
            decreases self.items@.len() - i,
        {
            if same(self.items[i].as_str(), key) {
                return true;
            }
            i += 1;
        }
        false
    }

    /// Adds `key`.
    pub fn insert(&mut self, key: String)
        ensures
            final(self)@ == old(self)@.insert(key@),
    {
        let ghost before = *self;
        let ghost k = key@;
        self.items.push(key);
        proof {
            assert forall|x: Seq<char>| self@.contains(x) == before@.insert(k).contains(x) by {
                if before@.contains(x) {
                    let i = choose|i: int| 0 <= i < before.items@.len() && (#[trigger] before.items@[i])@ == x;
                    assert(self.items@[i]@ == x);
                }
                if x == k {
                    assert(self.items@[before.items@.len() as int]@ == x);
                }
                if self@.contains(x) {
                    let i = choose|i: int| 0 <= i < self.items@.len() && (#[trigger] self.items@[i])@ == x;
                    if i < before.items@.len() {
                        assert(before.items@[i]@ == x);
                    }
                }
            }
            assert(self@ =~= before@.insert(k));
        }
    }

    /// Drops `key`.
    pub fn remove(&mut self, key: &str)
        ensures
            final(self)@ == old(self)@.remove(key@),
    {
        let ghost before = *self;
        let mut kept: Vec<String> = Vec::new();
        let mut i: usize = 0;
        while i < self.items.len()
            invariant
                i <= self.items@.len(),
                *self == before,
                forall|j: int| 0 <= j < kept@.len() ==> (#[trigger] kept@[j])@ != key@ && before@.contains(kept@[j]@),
                forall|j: int| 0 <= j < i ==> (#[trigger] before.items@[j])@ == key@ || exists|m: int|
                    0 <= m < kept@.len() && (#[trigger] kept@[m])@ == before.items@[j]@,
            decreases self.items@.len() - i,
        {
            if !same(self.items[i].as_str(), key) {
                let ghost old_kept = kept@;
                kept.push(self.items[i].clone());
                proof {
                    assert(before.items@[i as int]@ == kept@[old_kept.len() as int]@);
                    assert forall|j: int| 0 <= j < i + 1 implies (#[trigger] before.items@[j])@ == key@ || exists|m: int|
                        0 <= m < kept@.len() && (#[trigger] kept@[m])@ == before.items@[j]@ by {
                        if j < i && before.items@[j]@ != key@ {
                            let m = choose|m: int| 0 <= m < old_kept.len() && (#[trigger] old_kept[m])@ == before.items@[j]@;
                            assert(kept@[m]@ == before.items@[j]@);
                        }
                    }
                }
            }
            i += 1;
        }
        self.items = kept;
        proof {
            assert forall|x: Seq<char>| self@.contains(x) == before@.remove(key@).contains(x) by {
                if before@.contains(x) && x != key@ {
                    let j = choose|j: int| 0 <= j < before.items@.len() && (#[trigger] before.items@[j])@ == x;
                    let m = choose|m: int| 0 <= m < kept@.len() && (#[trigger] kept@[m])@ == before.items@[j]@;
                    assert(self.items@[m]@ == x);
                }
            }
            assert(self@ =~= before@.remove(key@));
        }
    }
}

} // verus!
