//! Maps and sets whose keys are texts.

use vstd::prelude::*;

use crate::outside;
use crate::text;
use crate::text::{compare_texts, TextOrder};

verus! {

/// Whether each text comes before the later ones, so that none occurs twice.
pub open spec fn ascending(keys: Seq<Seq<char>>) -> bool {
    forall|i: int, j: int| 0 <= i < j < keys.len() ==> text::text_before(#[trigger] keys[i], #[trigger] keys[j])
}

/// The numbers below `n` that meet a condition, in ascending order.
pub open spec fn picked(n: nat, keep: spec_fn(int) -> bool) -> Seq<int>
    decreases n,
{
    if n == 0 {
        Seq::empty()
    } else {
        let before = picked((n - 1) as nat, keep);
        if keep(n - 1) {
            before.push(n - 1)
        } else {
            before
        }
    }
}

/// What is picked meets the condition, nothing that meets it is left out, and it is in
/// ascending order.
pub proof fn lemma_picked(n: nat, keep: spec_fn(int) -> bool)
    ensures
        forall|i: int| #[trigger] picked(n, keep).contains(i) <==> 0 <= i < n && keep(i),
        forall|a: int|
            0 <= a < picked(n, keep).len() ==> 0 <= #[trigger] picked(n, keep)[a] < n && keep(
                picked(n, keep)[a],
            ),
        forall|a: int, b: int|
            0 <= a < b < picked(n, keep).len() ==> #[trigger] picked(n, keep)[a] < #[trigger] picked(
                n,
                keep,
            )[b],
        picked(n, keep).len() <= n,
    decreases n,
{
    if n > 0 {
        let before = picked((n - 1) as nat, keep);
        let all = picked(n, keep);
        lemma_picked((n - 1) as nat, keep);
        assert forall|i: int| #[trigger] all.contains(i) <==> 0 <= i < n && keep(i) by {
            assert(before.contains(i) <==> 0 <= i < n - 1 && keep(i));
            if before.contains(i) {
                let a = before.index_of(i);
                assert(all[a] == i);
            }
            if keep(n - 1) && i == n - 1 {
                assert(all[before.len() as int] == i);
            }
            if all.contains(i) && i != n - 1 {
                let a = all.index_of(i);
                assert(before[a] == i);
            }
            if all.contains(n - 1) && !keep(n - 1) {
                assert(before.contains(n - 1));
            }
        }
        assert forall|a: int| 0 <= a < all.len() implies 0 <= #[trigger] all[a] < n && keep(all[a]) by {
            assert(all.contains(all[a]));
        }
        assert forall|a: int, b: int| 0 <= a < b < all.len() implies #[trigger] all[a] < #[trigger] all[b] by {
            assert(a < before.len());
            assert(all[a] == before[a]);
            if b < before.len() {
                assert(all[b] == before[b]);
            }
        }
    }
}

/// There is one ascending list of the numbers below `n` that meet a condition.
pub proof fn lemma_picked_unique(n: nat, keep: spec_fn(int) -> bool, numbers: Seq<int>)
    requires
        forall|a: int, b: int| 0 <= a < b < numbers.len() ==> #[trigger] numbers[a] < #[trigger] numbers[b],
        forall|i: int| #[trigger] numbers.contains(i) <==> 0 <= i < n && keep(i),
    ensures
        numbers == picked(n, keep),
    decreases n,
{
    if n == 0 {
        if numbers.len() > 0 {
            assert(numbers.contains(numbers[0]));
        }
        assert(numbers =~= picked(0, keep));
    } else {
        let m = (n - 1) as nat;
        if keep(n - 1) {
            assert(numbers.contains(n - 1));
            let a = numbers.index_of(n - 1);
            let last = numbers.len() - 1;
            assert(numbers.contains(numbers[last]));
            if a < last {
                assert(numbers[a] < numbers[last]);
            }
            let less = numbers.drop_last();
            assert forall|i: int| #[trigger] less.contains(i) <==> 0 <= i < m && keep(i) by {
                if less.contains(i) {
                    let b = less.index_of(i);
                    assert(numbers[b] == i);
                    assert(numbers.contains(i));
                    assert(numbers[b] < numbers[last]);
                }
                if 0 <= i < m && keep(i) {
                    assert(numbers.contains(i));
                    let b = numbers.index_of(i);
                    assert(less[b] == i);
                }
            }
            lemma_picked_unique(m, keep, less);
            assert(numbers =~= less.push(n - 1));
        } else {
            assert forall|i: int| #[trigger] numbers.contains(i) <==> 0 <= i < m && keep(i) by {}
            lemma_picked_unique(m, keep, numbers);
        }
    }
}

/// What a filter leaves is what it keeps.
pub proof fn lemma_filter_has<A>(s: Seq<A>, keep: spec_fn(A) -> bool, a: A)
    ensures
        s.filter(keep).contains(a) <==> s.contains(a) && keep(a),
{
    if s.contains(a) && keep(a) {
        s.lemma_filter_contains(keep, s.index_of(a));
    }
    if s.filter(keep).contains(a) {
        s.lemma_filter_contains_rev(keep, a);
        s.lemma_filter_pred(keep, s.filter(keep).index_of(a));
    }
}

/// What is picked depends on which numbers are kept.
pub proof fn lemma_same_picked(n: nat, a: spec_fn(int) -> bool, b: spec_fn(int) -> bool)
    requires
        forall|i: int| 0 <= i < n ==> #[trigger] a(i) == b(i),
    ensures
        picked(n, a) == picked(n, b),
    decreases n,
{
    if n > 0 {
        lemma_same_picked((n - 1) as nat, a, b);
        assert(a(n - 1) == b(n - 1));
    }
}


/// The keys of a list of entries.
pub open spec fn entry_keys<V>(entries: Seq<(String, V)>) -> Seq<Seq<char>> {
    entries.map_values(|e: (String, V)| e.0@)
}

/// A map from texts to values, walked in the order of its keys.
#[derive(Debug)]
pub struct TextMap<V> {
    entries: Vec<(String, V)>,
}

impl<V> View for TextMap<V> {
    type V = Map<Seq<char>, V>;

    closed spec fn view(&self) -> Map<Seq<char>, V> {
        Map::new(
            |k: Seq<char>| entry_keys(self.entries@).contains(k),
            |k: Seq<char>| self.entries@[entry_keys(self.entries@).index_of(k)].1,
        )
    }
}

impl<V> TextMap<V> {
    /// The keys, each once, in ascending order.
    pub closed spec fn order(self) -> Seq<Seq<char>> {
        entry_keys(self.entries@)
    }

    /// The keys are walked in ascending order, and they are the keys of the map.
    pub open spec fn valid(self) -> bool {
        &&& ascending(self.order())
        &&& forall|k: Seq<char>| #[trigger] self@.contains_key(k) <==> self.order().contains(k)
    }

    #[verifier::type_invariant]
    spec fn keys_ascend(self) -> bool {
        ascending(entry_keys(self.entries@))
    }

    /// An empty map.
    pub fn new() -> (r: TextMap<V>)
        ensures
            r.valid(),
            r@ == Map::<Seq<char>, V>::empty(),
            r.order() == Seq::<Seq<char>>::empty(),
    {
        let r = TextMap { entries: Vec::new() };
        assert(r@ =~= Map::<Seq<char>, V>::empty());
        r
    }

    /// The number of keys.
    pub fn len(&self) -> (r: usize)
        ensures
            r == self.order().len(),
            self.valid(),
    {
        proof { use_type_invariant(self); }
        self.entries.len()
    }

    /// Whether the map has no key.
    pub fn is_empty(&self) -> (r: bool)
        ensures
            r == (self.order().len() == 0),
            r == (self@ == Map::<Seq<char>, V>::empty()),
            self.valid(),
    {
        proof {
            use_type_invariant(self);
            if self.entries@.len() == 0 {
                assert(self@ =~= Map::<Seq<char>, V>::empty());
            } else {
                assert(self.order().contains(self.order()[0]));
                assert(self@.contains_key(self.order()[0]));
            }
        }
        self.entries.len() == 0
    }

    /// The key at a place in the order.
    pub fn key_at(&self, i: usize) -> (r: &str)
        requires
            i < self.order().len(),
        ensures
            r@ == self.order()[i as int],
            self@.contains_key(r@),
    {
        assert(self.order().contains(self.order()[i as int]));
        self.entries[i].0.as_str()
    }

    /// The value at a place in the order of the keys.
    pub fn value_at(&self, i: usize) -> (r: &V)
        requires
            i < self.order().len(),
        ensures
            self@.contains_key(self.order()[i as int]),
            *r == self@[self.order()[i as int]],
    {
        proof {
            use_type_invariant(self);
            let keys = self.order();
            assert(keys.contains(keys[i as int]));
            lemma_ascending_index(keys, i as int);
        }
        &self.entries[i].1
    }

    /// The place of a key, or the place at which it would stand.
    fn locate(&self, k: &str) -> (r: (bool, usize))
        ensures
            r.1 <= self.order().len(),
            r.0 ==> r.1 < self.order().len() && self.order()[r.1 as int] == k@,
            !r.0 ==> !self.order().contains(k@),
            forall|i: int| 0 <= i < r.1 ==> text::text_before(#[trigger] self.order()[i], k@),
            forall|i: int|
                r.1 <= i < self.order().len() ==> self.order()[i] == k@ || text::text_before(
                    k@,
                    #[trigger] self.order()[i],
                ),
    {
        proof { use_type_invariant(self); }
        let ghost keys = self.order();
        let mut lo: usize = 0;
        let mut hi: usize = self.entries.len();
        while lo < hi
            invariant
                keys == self.order(),
                keys == entry_keys(self.entries@),
                ascending(keys),
                lo <= hi <= keys.len(),
                forall|i: int| 0 <= i < lo ==> text::text_before(#[trigger] keys[i], k@),
                forall|i: int| hi <= i < keys.len() ==> text::text_before(k@, #[trigger] keys[i]),
            decreases hi - lo,
        {
            let mid: usize = lo + (hi - lo) / 2;
            assert(keys[mid as int] == self.entries@[mid as int].0@);
            match compare_texts(self.entries[mid].0.as_str(), k) {
                TextOrder::Same => {
                    return (true, mid);
                },
                TextOrder::Before => {
                    assert forall|i: int| 0 <= i < mid + 1 implies text::text_before(#[trigger] keys[i], k@) by {
                        if i < mid {
                            text::lemma_text_before_transitive(keys[i], keys[mid as int], k@);
                        }
                    }
                    lo = mid + 1;
                },
                TextOrder::After => {
                    assert forall|i: int| mid <= i < keys.len() implies text::text_before(k@, #[trigger] keys[i]) by {
                        if i > mid {
                            text::lemma_text_before_transitive(k@, keys[mid as int], keys[i]);
                        }
                    }
                    hi = mid;
                },
            }
        }
        proof { text::lemma_text_before_irreflexive(k@); }
        (false, lo)
    }

    /// The place of a key in the order.
    pub fn position(&self, k: &str) -> (r: Option<usize>)
        ensures
            match r {
                Some(i) => i < self.order().len() && self.order()[i as int] == k@,
                None => !self.order().contains(k@),
            },
            self.valid(),
    {
        proof { use_type_invariant(self); }
        let (found, i) = self.locate(k);
        if found {
            Some(i)
        } else {
            None
        }
    }

    /// The value of a key.
    pub fn get(&self, k: &str) -> (r: Option<&V>)
        ensures
            match r {
                Some(v) => self@.contains_key(k@) && *v == self@[k@],
                None => !self@.contains_key(k@),
            },
    {
        let (found, i) = self.locate(k);
        if found {
            Some(self.value_at(i))
        } else {
            None
        }
    }

    /// Whether the map has a key.
    pub fn contains_key(&self, k: &str) -> (r: bool)
        ensures
            r == self@.contains_key(k@),
    {
        let (found, i) = self.locate(k);
        if found {
            assert(self.order().contains(self.order()[i as int]));
        }
        found
    }

    /// Gives a key a value, in place of the one that it had.
    pub fn insert(&mut self, k: String, v: V)
        ensures
            final(self).valid(),
            final(self)@ == old(self)@.insert(k@, v),
    {
        let (found, i) = self.locate(k.as_str());
        proof { use_type_invariant(&*self); }
        let ghost keys = self.order();
        let ghost before = self@;
        let mut entries: Vec<(String, V)> = Vec::new();
        core::mem::swap(&mut entries, &mut self.entries);
        let ghost was = entries@;
        let ghost key = k@;
        if found {
            entries.set(i, (k, v));
            assert(entry_keys(entries@) =~= keys);
        } else {
            entries.insert(i, (k, v));
            assert(entry_keys(entries@) =~= keys.insert(i as int, key));
        }
        proof {
            let now = entry_keys(entries@);
            assert forall|a: int, b: int| 0 <= a < b < now.len() implies text::text_before(
                #[trigger] now[a],
                #[trigger] now[b],
            ) by {
                if !found {
                    let pa = if a > i { a - 1 } else { a };
                    let pb = if b > i { b - 1 } else { b };
                    assert(a != i ==> now[a] == keys[pa]);
                    assert(b != i ==> now[b] == keys[pb]);
                    if b == i {
                        assert(text::text_before(keys[a], key));
                    } else if a == i {
                        assert(keys[pb] == key || text::text_before(key, keys[pb]));
                        assert(keys.contains(keys[pb]));
                    }
                }
            }
        }
        self.entries = entries;
        proof {
            let now = entry_keys(self.entries@);
            let after = self@;
            assert(now[i as int] == key);
            lemma_ascending_index(now, i as int);
            assert forall|x: Seq<char>| now.contains(x) == (keys.contains(x) || x == key) by {
                if keys.contains(x) {
                    let p = keys.index_of(x);
                    let q = if !found && p >= i { p + 1 } else { p };
                    assert(now[q] == x);
                }
                if now.contains(x) && x != key {
                    let q = now.index_of(x);
                    let p = if !found && q > i { q - 1 } else { q };
                    assert(keys[p] == x);
                }
                if x == key {
                    assert(now[i as int] == x);
                }
            }
            assert forall|x: Seq<char>| #[trigger] after.contains_key(x) && x != key implies after[x] == before[x] by {
                let q = now.index_of(x);
                let p = if !found && q > i { q - 1 } else { q };
                assert(keys[p] == x);
                lemma_ascending_index(keys, p);
                lemma_ascending_index(now, q);
            }
            assert(after =~= before.insert(key, v));
        }
    }
}

impl<V: Clone> Clone for TextMap<V> {
    fn clone(&self) -> (r: TextMap<V>)
        ensures
            r.valid(),
            r.order() == self.order(),
            forall|k: Seq<char>| #[trigger] r@.contains_key(k) <==> self@.contains_key(k),
            forall|k: Seq<char>| #[trigger] r@.contains_key(k) ==> cloned::<V>(self@[k], r@[k]),
    {
        proof { use_type_invariant(self); }
        let mut entries: Vec<(String, V)> = Vec::new();
        for i in 0..self.entries.len()
            invariant
                entry_keys(entries@) == entry_keys(self.entries@).take(i as int),
                entries@.len() == i,
                forall|j: int| 0 <= j < i ==> cloned::<V>(self.entries@[j].1, (#[trigger] entries@[j]).1),
        {
            let ghost before = entries@;
            let key = self.entries[i].0.clone();
            let value = self.entries[i].1.clone();
            entries.push((key, value));
            proof {
                assert(entry_keys(entries@) =~= entry_keys(before).push(key@));
                assert(entry_keys(self.entries@)[i as int] == key@);
                assert(entry_keys(entries@) =~= entry_keys(self.entries@).take(i + 1));
            }
        }
        assert(entry_keys(entries@) =~= entry_keys(self.entries@));
        let r = TextMap { entries };
        proof {
            let keys = self.order();
            assert forall|k: Seq<char>| #[trigger] r@.contains_key(k) implies cloned::<V>(self@[k], r@[k]) by {
                let j = keys.index_of(k);
                assert(cloned::<V>(self.entries@[j].1, r.entries@[j].1));
            }
        }
        r
    }
}

/// A set of texts, walked in ascending order.
#[derive(Debug)]
pub struct NameSet {
    names: TextMap<()>,
}

impl View for NameSet {
    type V = Set<Seq<char>>;

    closed spec fn view(&self) -> Set<Seq<char>> {
        self.names@.dom()
    }
}

impl NameSet {
    /// The names, each once, in ascending order.
    pub closed spec fn order(self) -> Seq<Seq<char>> {
        self.names.order()
    }

    /// The names are walked in ascending order, and they are the members of the set.
    pub open spec fn valid(self) -> bool {
        &&& ascending(self.order())
        &&& forall|k: Seq<char>| #[trigger] self@.contains(k) <==> self.order().contains(k)
    }

    /// An empty set.
    pub fn new() -> (r: NameSet)
        ensures
            r.valid(),
            r@ == Set::<Seq<char>>::empty(),
    {
        let r = NameSet { names: TextMap::new() };
        assert(r@ =~= Set::<Seq<char>>::empty());
        r
    }

    /// The set of the given names.
    pub fn from_names(names: &[String]) -> (r: NameSet)
        ensures
            r.valid(),
            forall|k: Seq<char>| #[trigger] r@.contains(k) <==> text::texts(names@).contains(k),
    {
        let mut r = NameSet::new();
        for i in 0..names.len()
            invariant
                r.valid(),
                forall|k: Seq<char>| #[trigger] r@.contains(k) <==> text::texts(names@).take(i as int).contains(k),
        {
            let ghost before = r@;
            r.insert(names[i].clone());
            proof {
                let all = text::texts(names@);
                assert(all.take(i + 1) == all.take(i as int).push(all[i as int]));
                assert forall|k: Seq<char>| #[trigger] r@.contains(k) <==> all.take(i + 1).contains(k) by {
                    assert(before.contains(k) <==> all.take(i as int).contains(k));
                    if all.take(i as int).contains(k) {
                        let j = all.take(i as int).index_of(k);
                        assert(all.take(i + 1)[j] == k);
                    }
                    if k == all[i as int] {
                        assert(all.take(i + 1)[i as int] == k);
                    }
                }
            }
        }
        assert(text::texts(names@).take(names@.len() as int) == text::texts(names@));
        r
    }

    /// The number of names.
    pub fn len(&self) -> (r: usize)
        ensures
            r == self.order().len(),
            self.valid(),
    {
        let r = self.names.len();
        assert forall|k: Seq<char>| #[trigger] self@.contains(k) <==> self.order().contains(k) by {
            assert(self.names@.contains_key(k) <==> self.names.order().contains(k));
        }
        r
    }

    /// The name at a place in the order.
    pub fn name_at(&self, i: usize) -> (r: &str)
        requires
            i < self.order().len(),
        ensures
            r@ == self.order()[i as int],
    {
        self.names.key_at(i)
    }

    /// The place of a name in the order.
    pub fn position(&self, name: &str) -> (r: Option<usize>)
        ensures
            match r {
                Some(i) => i < self.order().len() && self.order()[i as int] == name@,
                None => !self.order().contains(name@),
            },
    {
        self.names.position(name)
    }

    /// Whether the set has a name.
    pub fn contains(&self, name: &str) -> (r: bool)
        ensures
            r == self@.contains(name@),
    {
        self.names.contains_key(name)
    }

    /// The lowercase forms of the names.
    pub fn to_lowercase(&self) -> (r: NameSet)
        ensures
            r.valid(),
            r@ == lowered(self@),
    {
        let n: usize = self.len();
        let ghost all = self.order();
        let mut r = NameSet::new();
        for i in 0..n
            invariant
                n == all.len(),
                all == self.order(),
                r.valid(),
                forall|k: Seq<char>|
                    #[trigger] r@.contains(k) <==> exists|j: int|
                        0 <= j < i && outside::lowercase_text(#[trigger] all[j]) == k,
        {
            r.insert(outside::lowercase(self.name_at(i)));
        }
        proof {
            assert forall|k: Seq<char>| r@.contains(k) <==> lowered(self@).contains(k) by {
                if r@.contains(k) {
                    let j = choose|j: int| 0 <= j < n && outside::lowercase_text(#[trigger] all[j]) == k;
                    assert(self.order().contains(all[j]));
                    assert(self@.contains(all[j]));
                }
                if lowered(self@).contains(k) {
                    let name = choose|name: Seq<char>|
                        #[trigger] self@.contains(name) && outside::lowercase_text(name) == k;
                    let j = all.index_of(name);
                    assert(outside::lowercase_text(all[j]) == k);
                }
            }
            assert(r@ =~= lowered(self@));
        }
        r
    }

    /// Adds a name.
    pub fn insert(&mut self, name: String)
        ensures
            final(self).valid(),
            final(self)@ == old(self)@.insert(name@),
    {
        let ghost before = self@;
        self.names.insert(name, ());
        proof {
            assert(self@ =~= before.insert(name@));
            assert forall|k: Seq<char>| #[trigger] self@.contains(k) <==> self.order().contains(k) by {
                assert(self.names@.contains_key(k) <==> self.names.order().contains(k));
            }
        }
    }
}

impl Clone for NameSet {
    fn clone(&self) -> (r: NameSet)
        ensures
            r.valid(),
            r@ == self@,
    {
        let n = self.len();
        let r = NameSet { names: self.names.clone() };
        proof {
            assert forall|k: Seq<char>| #[trigger] r@.contains(k) <==> r.order().contains(k) by {
                assert(r.names@.contains_key(k) <==> r.names.order().contains(k));
            }
            assert(r@ =~= self@);
        }
        r
    }
}

/// The lowercase forms of the names of a set.
pub open spec fn lowered(names: Set<Seq<char>>) -> Set<Seq<char>> {
    Set::new(
        |k: Seq<char>|
            exists|name: Seq<char>| #[trigger] names.contains(name) && outside::lowercase_text(name) == k,
    )
}

/// The lowercase forms of names.
pub open spec fn lowercase_names(names: Seq<String>) -> Set<Seq<char>> {
    Set::new(
        |k: Seq<char>|
            exists|i: int|
                0 <= i < names.len() && outside::lowercase_text((#[trigger] names[i])@) == k,
    )
}

/// The set of the lowercase forms of names.
pub fn lowercase_set(names: &[String]) -> (r: NameSet)
    ensures
        r.valid(),
        r@ == lowercase_names(names@),
{
    let mut r = NameSet::new();
    assert(r@ =~= lowercase_names(names@.take(0)));
    for i in 0..names.len()
        invariant
            r.valid(),
            r@ == lowercase_names(names@.take(i as int)),
    {
        let ghost before = r@;
        r.insert(outside::lowercase(names[i].as_str()));
        proof {
            let less = names@.take(i as int);
            let more = names@.take(i + 1);
            assert forall|k: Seq<char>| #[trigger] r@.contains(k) <==> lowercase_names(more).contains(k) by {
                if lowercase_names(less).contains(k) {
                    let j = choose|j: int|
                        0 <= j < less.len() && outside::lowercase_text((#[trigger] less[j])@) == k;
                    assert(outside::lowercase_text(more[j]@) == k);
                }
                if k == outside::lowercase_text(names@[i as int]@) {
                    assert(outside::lowercase_text(more[i as int]@) == k);
                }
                if lowercase_names(more).contains(k) {
                    let j = choose|j: int|
                        0 <= j < more.len() && outside::lowercase_text((#[trigger] more[j])@) == k;
                    if j < i {
                        assert(outside::lowercase_text(less[j]@) == k);
                    }
                }
            }
            assert(r@ =~= lowercase_names(more));
        }
    }
    assert(names@.take(names@.len() as int) == names@);
    r
}

/// In ascending order a key stands at one place only.
pub proof fn lemma_ascending_index(keys: Seq<Seq<char>>, i: int)
    requires
        ascending(keys),
        0 <= i < keys.len(),
    ensures
        keys.index_of(keys[i]) == i,
        keys.no_duplicates(),
{
    assert forall|a: int, b: int| 0 <= a < b < keys.len() implies keys[a] != keys[b] by {
        text::lemma_text_before_irreflexive(keys[a]);
    }
    assert(keys.contains(keys[i]));
    let j = keys.index_of(keys[i]);
    assert(0 <= j < keys.len() && keys[j] == keys[i]);
}

/// There is one ascending order of the same keys.
pub proof fn lemma_ascending_unique(a: Seq<Seq<char>>, b: Seq<Seq<char>>)
    requires
        ascending(a),
        ascending(b),
        forall|k: Seq<char>| #[trigger] a.contains(k) <==> b.contains(k),
    ensures
        a == b,
    decreases a.len(),
{
    if a.len() == 0 {
        if b.len() > 0 {
            assert(a.contains(b[0]));
        }
        assert(a =~= b);
    } else {
        assert(a.contains(a.last()));
        assert(b.contains(b.last()));
        assert(a.contains(b.last()));
        if a.last() != b.last() {
            let i = a.index_of(b.last());
            assert(text::text_before(a[i], a[a.len() - 1]));
            let j = b.index_of(a.last());
            assert(text::text_before(b[j], b[b.len() - 1]));
            text::lemma_text_before_transitive(a.last(), b.last(), a.last());
            text::lemma_text_before_irreflexive(a.last());
        }
        let x = a.drop_last();
        let y = b.drop_last();
        assert forall|k: Seq<char>| #[trigger] x.contains(k) <==> y.contains(k) by {
            text::lemma_text_before_irreflexive(k);
            if x.contains(k) {
                assert(a.contains(k));
                assert(text::text_before(k, a.last()));
                let j = b.index_of(k);
                assert(y[j] == k);
            }
            if y.contains(k) {
                assert(a.contains(k));
                assert(text::text_before(k, b.last()));
                let j = a.index_of(k);
                assert(x[j] == k);
            }
        }
        lemma_ascending_unique(x, y);
        assert(a =~= x.push(a.last()));
        assert(b =~= y.push(b.last()));
    }
}

} // verus!
