//! A map from text keys to values, kept in the order of the keys.

use crate::text;
use crate::text::{text_order, TextOrder};
use vstd::prelude::*;

verus! {

broadcast use vstd::string::group_string_axioms;

/// A map from text to `V`. The entries stand in the order of their keys, and
/// no key occurs twice.
#[derive(Debug, PartialEq)]
pub struct Table<V> {
    pub(crate) entries: Vec<(String, V)>,
}

/// A place in `pairs` where the key is `k`.
pub open spec fn pair_index<V>(pairs: Seq<(Seq<char>, V)>, k: Seq<char>) -> int {
    choose|i: int| 0 <= i < pairs.len() && (#[trigger] pairs[i]).0 == k
}

/// Some pair has the key `k`.
pub open spec fn has_pair<V>(pairs: Seq<(Seq<char>, V)>, k: Seq<char>) -> bool {
    exists|i: int| 0 <= i < pairs.len() && (#[trigger] pairs[i]).0 == k
}

/// The map that a sequence of pairs with distinct keys stands for.
pub open spec fn map_of<V>(pairs: Seq<(Seq<char>, V)>) -> Map<Seq<char>, V> {
    Map::new(|k: Seq<char>| has_pair(pairs, k), |k: Seq<char>| pairs[pair_index(pairs, k)].1)
}

/// No two pairs have the same key.
pub open spec fn distinct_keys<V>(pairs: Seq<(Seq<char>, V)>) -> bool {
    forall|i: int, j: int|
        0 <= i < j < pairs.len() ==> (#[trigger] pairs[i]).0 != (#[trigger] pairs[j]).0
}

/// Each pair has a key that comes before the keys of all later pairs.
pub open spec fn ascending<V>(pairs: Seq<(Seq<char>, V)>) -> bool {
    forall|i: int, j: int|
        0 <= i < j < pairs.len() ==> text::precedes((#[trigger] pairs[i]).0, (#[trigger] pairs[j]).0)
}

/// In ascending order no key occurs twice.
pub proof fn lemma_ascending_distinct<V>(pairs: Seq<(Seq<char>, V)>)
    requires
        ascending(pairs),
    ensures
        distinct_keys(pairs),
{
    assert forall|i: int, j: int| 0 <= i < j < pairs.len() implies (#[trigger] pairs[i]).0 != (
    #[trigger] pairs[j]).0 by {
        text::law_precedes_irreflexive(pairs[i].0);
    }
}

/// Each pair of a sequence with distinct keys is an entry of its map.
pub proof fn lemma_map_of<V>(pairs: Seq<(Seq<char>, V)>, i: int)
    requires
        distinct_keys(pairs),
        0 <= i < pairs.len(),
    ensures
        map_of(pairs).contains_key(pairs[i].0),
        map_of(pairs)[pairs[i].0] == pairs[i].1,
{
    let k = pairs[i].0;
    let j = pair_index(pairs, k);
    assert(0 <= j < pairs.len() && pairs[j].0 == k);
    assert(i == j);
}

/// The domain of such a map is finite.
pub proof fn lemma_map_of_finite<V>(pairs: Seq<(Seq<char>, V)>)
    ensures
        map_of(pairs).dom().finite(),
    decreases pairs.len(),
{
    let m = map_of(pairs);
    if pairs.len() == 0 {
        assert(m.dom() =~= Set::empty());
    } else {
        let rest = pairs.drop_last();
        lemma_map_of_finite(rest);
        let bigger = map_of(rest).dom().insert(pairs.last().0);
        assert forall|k: Seq<char>| m.dom().contains(k) implies bigger.contains(k) by {
            let i = pair_index(pairs, k);
            if i < rest.len() {
                assert(rest[i].0 == k);
            }
        }
        assert(m.dom().subset_of(bigger));
        vstd::set_lib::lemma_len_subset(m.dom(), bigger);
    }
}

/// One more pair of a sequence is one more entry of its map.
pub proof fn lemma_map_of_take<V>(pairs: Seq<(Seq<char>, V)>, i: int)
    requires
        distinct_keys(pairs),
        0 <= i < pairs.len(),
    ensures
        map_of(pairs.take(i + 1)) == map_of(pairs.take(i)).insert(pairs[i].0, pairs[i].1),
        !map_of(pairs.take(i)).contains_key(pairs[i].0),
{
    let shorter = pairs.take(i);
    let longer = pairs.take(i + 1);
    assert(distinct_keys(shorter));
    assert(distinct_keys(longer));
    assert forall|k: Seq<char>| has_pair(longer, k) == (k == pairs[i].0 || has_pair(shorter, k)) by {
        if has_pair(longer, k) {
            let j = pair_index(longer, k);
            if j < i {
                assert(shorter[j].0 == k);
            }
        }
        if has_pair(shorter, k) {
            let j = pair_index(shorter, k);
            assert(longer[j].0 == k);
        }
        assert(longer[i].0 == pairs[i].0);
    }
    assert forall|k: Seq<char>| has_pair(shorter, k) implies map_of(longer)[k] == map_of(
        shorter,
    )[k] by {
        let j = pair_index(shorter, k);
        lemma_map_of(shorter, j);
        lemma_map_of(longer, j);
    }
    if has_pair(shorter, pairs[i].0) {
        let j = pair_index(shorter, pairs[i].0);
        assert(pairs[j].0 == pairs[i].0);
    }
    lemma_map_of(longer, i);
    assert(map_of(longer) =~= map_of(shorter).insert(pairs[i].0, pairs[i].1));
}

/// No pair, no entry.
pub proof fn lemma_map_of_none<V>(pairs: Seq<(Seq<char>, V)>)
    ensures
        map_of(pairs.take(0)) == Map::<Seq<char>, V>::empty(),
        pairs.take(pairs.len() as int) == pairs,
{
    assert(map_of(pairs.take(0)) =~= Map::<Seq<char>, V>::empty());
    assert(pairs.take(pairs.len() as int) =~= pairs);
}

/// A sequence with distinct keys has as many pairs as its map has entries.
proof fn lemma_map_of_len<V>(pairs: Seq<(Seq<char>, V)>)
    requires
        distinct_keys(pairs),
    ensures
        map_of(pairs).len() == pairs.len(),
    decreases pairs.len(),
{
    if pairs.len() == 0 {
        assert(map_of(pairs).dom() =~= Set::empty());
    } else {
        let n = pairs.len() - 1;
        lemma_map_of_take(pairs, n);
        lemma_map_of_finite(pairs.take(n));
        lemma_map_of_len(pairs.take(n));
        assert(pairs.take(n + 1) =~= pairs);
        assert(map_of(pairs).dom() =~= map_of(pairs.take(n)).dom().insert(pairs[n].0));
    }
}

/// A new value at a place of an ascending sequence.
proof fn lemma_update_pair<V>(pairs: Seq<(Seq<char>, V)>, i: int, key: Seq<char>, value: V)
    requires
        ascending(pairs),
        0 <= i < pairs.len(),
        pairs[i].0 == key,
    ensures
        ascending(pairs.update(i, (key, value))),
        map_of(pairs.update(i, (key, value))) == map_of(pairs).insert(key, value),
{
    let after = pairs.update(i, (key, value));
    assert(ascending(after));
    lemma_ascending_distinct(pairs);
    lemma_ascending_distinct(after);
    lemma_map_of(after, i);
    assert forall|k: Seq<char>| has_pair(pairs, k) == has_pair(after, k) by {
        if has_pair(pairs, k) {
            let j = pair_index(pairs, k);
            assert(after[j].0 == k);
        }
        if has_pair(after, k) {
            let j = pair_index(after, k);
            assert(pairs[j].0 == k);
        }
    }
    assert forall|k: Seq<char>| k != key && has_pair(pairs, k) implies map_of(after)[k] == map_of(
        pairs,
    )[k] by {
        let j = pair_index(pairs, k);
        lemma_map_of(after, j);
        lemma_map_of(pairs, j);
    }
    lemma_map_of(pairs, i);
    assert(map_of(after) =~= map_of(pairs).insert(key, value));
}

/// A new pair at its place in an ascending sequence.
proof fn lemma_insert_pair<V>(pairs: Seq<(Seq<char>, V)>, i: int, key: Seq<char>, value: V)
    requires
        ascending(pairs),
        0 <= i <= pairs.len(),
        forall|j: int| 0 <= j < i ==> text::precedes((#[trigger] pairs[j]).0, key),
        forall|j: int| i <= j < pairs.len() ==> text::precedes(key, (#[trigger] pairs[j]).0),
    ensures
        ascending(pairs.insert(i, (key, value))),
        map_of(pairs.insert(i, (key, value))) == map_of(pairs).insert(key, value),
{
    let after = pairs.insert(i, (key, value));
    assert forall|a: int, b: int| 0 <= a < b < after.len() implies text::precedes(
        (#[trigger] after[a]).0,
        (#[trigger] after[b]).0,
    ) by {
        let x = if a < i { pairs[a].0 } else if a == i { key } else { pairs[a - 1].0 };
        let y = if b < i { pairs[b].0 } else if b == i { key } else { pairs[b - 1].0 };
        assert(after[a].0 == x && after[b].0 == y);
    }
    lemma_ascending_distinct(pairs);
    lemma_ascending_distinct(after);
    lemma_map_of(after, i);
    assert forall|k: Seq<char>| k != key implies has_pair(pairs, k) == has_pair(after, k) by {
        if has_pair(pairs, k) {
            let j = pair_index(pairs, k);
            assert(after[if j < i { j } else { j + 1 }].0 == k);
        }
        if has_pair(after, k) {
            let j = pair_index(after, k);
            assert(j != i);
            assert(pairs[if j < i { j } else { j - 1 }].0 == k);
        }
    }
    assert forall|k: Seq<char>| k != key && has_pair(pairs, k) implies map_of(after)[k] == map_of(
        pairs,
    )[k] by {
        let j = pair_index(pairs, k);
        lemma_map_of(after, if j < i { j } else { j + 1 });
        lemma_map_of(pairs, j);
    }
    assert(map_of(after) =~= map_of(pairs).insert(key, value));
}

/// An ascending sequence without one of its pairs.
proof fn lemma_remove_pair<V>(pairs: Seq<(Seq<char>, V)>, i: int)
    requires
        ascending(pairs),
        0 <= i < pairs.len(),
    ensures
        ascending(pairs.remove(i)),
        map_of(pairs.remove(i)) == map_of(pairs).remove(pairs[i].0),
{
    let after = pairs.remove(i);
    let key = pairs[i].0;
    assert forall|a: int, b: int| 0 <= a < b < after.len() implies text::precedes(
        (#[trigger] after[a]).0,
        (#[trigger] after[b]).0,
    ) by {
        let x = if a < i { a } else { a + 1 };
        let y = if b < i { b } else { b + 1 };
        assert(after[a] == pairs[x] && after[b] == pairs[y]);
    }
    lemma_ascending_distinct(pairs);
    lemma_ascending_distinct(after);
    assert forall|k: Seq<char>| has_pair(after, k) == (k != key && has_pair(pairs, k)) by {
        if has_pair(after, k) {
            let j = pair_index(after, k);
            assert(pairs[if j < i { j } else { j + 1 }].0 == k);
        }
        if k != key && has_pair(pairs, k) {
            let j = pair_index(pairs, k);
            assert(after[if j < i { j } else { j - 1 }].0 == k);
        }
    }
    assert forall|k: Seq<char>| has_pair(after, k) implies map_of(after)[k] == map_of(pairs)[k] by {
        let j = pair_index(after, k);
        lemma_map_of(after, j);
        lemma_map_of(pairs, if j < i { j } else { j + 1 });
    }
    assert(map_of(after) =~= map_of(pairs).remove(key));
}

impl<V> View for Table<V> {
    type V = Map<Seq<char>, V>;

    open spec fn view(&self) -> Map<Seq<char>, V> {
        map_of(self.pairs())
    }
}

/// The values of a table are parts of it.
pub proof fn lemma_value_is_part<V>(t: Table<V>, k: Seq<char>)
    requires
        t@.contains_key(k),
    ensures
        decreases_to!(t => t@[k]),
{
    let i = pair_index(t.pairs(), k);
    assert(t@[k] == t.entries@[i].1);
    assert(decreases_to!(t => t.entries));
    assert(decreases_to!(t.entries => t.entries@));
    assert(decreases_to!(t.entries@ => t.entries@[i]));
    assert(decreases_to!(t.entries@[i] => t.entries@[i].1));
}

impl<V> Table<V> {
    /// The entries in the order of their keys.
    pub closed spec fn pairs(&self) -> Seq<(Seq<char>, V)> {
        Seq::new(self.entries@.len(), |i: int| (self.entries@[i].0@, self.entries@[i].1))
    }

    #[verifier::type_invariant]
    spec fn in_order(self) -> bool {
        ascending(self.pairs())
    }

    /// A table without entries.
    pub fn new() -> (r: Self)
        ensures
            r@ == Map::<Seq<char>, V>::empty(),
            r.pairs() == Seq::<(Seq<char>, V)>::empty(),
    {
        let r = Table { entries: Vec::new() };
        assert(r.pairs() =~= Seq::<(Seq<char>, V)>::empty());
        assert(r@ =~= Map::<Seq<char>, V>::empty());
        r
    }

    /// The number of entries.
    pub fn len(&self) -> (r: usize)
        ensures
            r == self.pairs().len(),
            r == self@.len(),
            ascending(self.pairs()),
            distinct_keys(self.pairs()),
    {
        proof {
            use_type_invariant(self);
            lemma_ascending_distinct(self.pairs());
            lemma_map_of_len(self.pairs());
        }
        self.entries.len()
    }

    /// Whether there is no entry.
    pub fn is_empty(&self) -> (r: bool)
        ensures
            r == (self@ == Map::<Seq<char>, V>::empty()),
            r == (self.pairs().len() == 0),
    {
        proof {
            use_type_invariant(self);
            lemma_ascending_distinct(self.pairs());
            if self.pairs().len() == 0 {
                assert(self@ =~= Map::<Seq<char>, V>::empty());
            } else {
                lemma_map_of(self.pairs(), 0);
            }
        }
        self.entries.len() == 0
    }

    /// The key of the entry at `i`.
    pub fn key_at(&self, i: usize) -> (r: &str)
        requires
            i < self.pairs().len(),
        ensures
            r@ == self.pairs()[i as int].0,
            self@.contains_key(r@),
    {
        proof {
            use_type_invariant(self);
            lemma_ascending_distinct(self.pairs());
            lemma_map_of(self.pairs(), i as int);
        }
        self.entries[i].0.as_str()
    }

    /// The value of the entry at `i`.
    pub fn value_at(&self, i: usize) -> (r: &V)
        requires
            i < self.pairs().len(),
        ensures
            *r == self.pairs()[i as int].1,
            self@[self.pairs()[i as int].0] == *r,
    {
        proof {
            use_type_invariant(self);
            lemma_ascending_distinct(self.pairs());
            lemma_map_of(self.pairs(), i as int);
        }
        &self.entries[i].1
    }

    /// Where `key` stands, or where it would have to stand.
    fn find(&self, key: &str) -> (r: (bool, usize))
        ensures
            r.1 <= self.pairs().len(),
            r.0 == self@.contains_key(key@),
            r.0 ==> r.1 < self.pairs().len() && self.pairs()[r.1 as int].0 == key@
                && self.pairs()[r.1 as int].1 == self@[key@],
            forall|i: int| 0 <= i < r.1 ==> text::precedes((#[trigger] self.pairs()[i]).0, key@),
            !r.0 ==> forall|i: int|
                r.1 <= i < self.pairs().len() ==> text::precedes(key@, (#[trigger] self.pairs()[i]).0),
    {
        proof {
            use_type_invariant(self);
            lemma_ascending_distinct(self.pairs());
        }
        let mut low: usize = 0;
        let mut high: usize = self.entries.len();
        while low < high
            invariant
                low <= high <= self.pairs().len(),
                self.pairs().len() == self.entries@.len(),
                ascending(self.pairs()),
                distinct_keys(self.pairs()),
                forall|i: int| 0 <= i < low ==> text::precedes((#[trigger] self.pairs()[i]).0, key@),
                forall|i: int|
                    high <= i < self.pairs().len() ==> text::precedes(
                        key@,
                        (#[trigger] self.pairs()[i]).0,
                    ),
            decreases high - low,
        {
            let mid: usize = low + (high - low) / 2;
            match text_order(self.entries[mid].0.as_str(), key) {
                TextOrder::Same => {
                    proof {
                        lemma_map_of(self.pairs(), mid as int);
                    }
                    return (true, mid);
                },
                TextOrder::Before => {
                    proof {
                        assert forall|i: int| 0 <= i <= mid implies text::precedes(
                            (#[trigger] self.pairs()[i]).0,
                            key@,
                        ) by {
                            if i < mid {
                                text::law_precedes_transitive(
                                    self.pairs()[i].0,
                                    self.pairs()[mid as int].0,
                                    key@,
                                );
                            }
                        }
                    }
                    low = mid + 1;
                },
                TextOrder::After => {
                    proof {
                        text::law_precedes_total(self.pairs()[mid as int].0, key@);
                        assert forall|i: int|
                            mid <= i < self.pairs().len() implies text::precedes(
                            key@,
                            (#[trigger] self.pairs()[i]).0,
                        ) by {
                            if mid < i {
                                text::law_precedes_transitive(
                                    key@,
                                    self.pairs()[mid as int].0,
                                    self.pairs()[i].0,
                                );
                            }
                        }
                    }
                    high = mid;
                },
            }
        }
        proof {
            if self@.contains_key(key@) {
                let i = pair_index(self.pairs(), key@);
                text::law_precedes_irreflexive(key@);
            }
        }
        (false, low)
    }

    /// Whether there is an entry for `key`.
    pub fn contains_key(&self, key: &str) -> (r: bool)
        ensures
            r == self@.contains_key(key@),
    {
        self.find(key).0
    }

    /// The value of `key`, where it has one.
    pub fn get(&self, key: &str) -> (r: Option<&V>)
        ensures
            match r {
                Some(v) => self@.contains_key(key@) && *v == self@[key@],
                None => !self@.contains_key(key@),
            },
    {
        let (found, i) = self.find(key);
        if found {
            Some(&self.entries[i].1)
        } else {
            None
        }
    }

    /// Gives `key` the value `value`, in place of the one it had.
    pub fn insert(&mut self, key: String, value: V)
        ensures
            final(self)@ == old(self)@.insert(key@, value),
    {
        proof {
            use_type_invariant(&*self);
        }
        let ghost before = self.pairs();
        let (found, i) = self.find(key.as_str());
        let mut entries: Vec<(String, V)> = Vec::new();
        std::mem::swap(&mut entries, &mut self.entries);
        if found {
            entries.set(i, (key, value));
        } else {
            entries.insert(i, (key, value));
        }
        let ghost after = Seq::new(entries@.len(), |j: int| (entries@[j].0@, entries@[j].1));
        proof {
            if found {
                assert(after =~= before.update(i as int, (key@, value)));
                lemma_update_pair(before, i as int, key@, value);
            } else {
                assert(after =~= before.insert(i as int, (key@, value)));
                lemma_insert_pair(before, i as int, key@, value);
            }
        }
        self.entries = entries;
        assert(self.pairs() =~= after);
    }

    /// Takes the entry of `key` out.
    pub fn remove(&mut self, key: &str) -> (r: Option<V>)
        ensures
            final(self)@ == old(self)@.remove(key@),
            match r {
                Some(v) => old(self)@.contains_key(key@) && v == old(self)@[key@],
                None => !old(self)@.contains_key(key@),
            },
    {
        proof {
            use_type_invariant(&*self);
        }
        let ghost before = self.pairs();
        let (found, i) = self.find(key);
        if !found {
            assert(self@ =~= self@.remove(key@));
            return None;
        }
        let mut entries: Vec<(String, V)> = Vec::new();
        std::mem::swap(&mut entries, &mut self.entries);
        let (_, value) = entries.remove(i);
        let ghost after = Seq::new(entries@.len(), |j: int| (entries@[j].0@, entries@[j].1));
        proof {
            assert(after =~= before.remove(i as int));
            lemma_remove_pair(before, i as int);
        }
        self.entries = entries;
        assert(self.pairs() =~= after);
        Some(value)
    }

    /// The entries, in the order of their keys.
    pub fn into_entries(self) -> (r: Vec<(String, V)>)
        ensures
            r@.len() == self.pairs().len(),
            forall|i: int|
                0 <= i < r@.len() ==> (#[trigger] r@[i]).0@ == self.pairs()[i].0 && r@[i].1
                    == self.pairs()[i].1,
            ascending(self.pairs()),
            distinct_keys(self.pairs()),
    {
        proof {
            use_type_invariant(&self);
            lemma_ascending_distinct(self.pairs());
        }
        self.entries
    }
}

} // verus!
