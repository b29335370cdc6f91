//! A map keyed by text, held in key order.
use crate::text::{chars_of, copy_of};
use vstd::prelude::*;

verus! {

/// Dictionary order by code point, which is also the order of the UTF-8 bytes.
pub open spec fn text_before(a: Seq<char>, b: Seq<char>) -> bool
    decreases a.len(),
{
    if b.len() == 0 {
        false
    } else if a.len() == 0 {
        true
    } else if a[0] == b[0] {
        text_before(a.skip(1), b.skip(1))
    } else {
        a[0] < b[0]
    }
}

pub proof fn lemma_text_before_irreflexive(a: Seq<char>)
    ensures
        !text_before(a, a),
    decreases a.len(),
{
    if a.len() > 0 {
        lemma_text_before_irreflexive(a.skip(1));
    }
}

pub proof fn lemma_text_before_transitive(a: Seq<char>, b: Seq<char>, c: Seq<char>)
    requires
        text_before(a, b),
        text_before(b, c),
    ensures
        text_before(a, c),
    decreases a.len(),
{
    if a.len() > 0 && a[0] == b[0] && b[0] == c[0] {
        lemma_text_before_transitive(a.skip(1), b.skip(1), c.skip(1));
    }
}

pub proof fn lemma_text_before_total(a: Seq<char>, b: Seq<char>)
    ensures
        text_before(a, b) || text_before(b, a) || a == b,
    decreases a.len(),
{
    if a.len() > 0 && b.len() > 0 {
        if a[0] == b[0] {
            lemma_text_before_total(a.skip(1), b.skip(1));
            if a.skip(1) == b.skip(1) {
                assert(a =~= seq![a[0]] + a.skip(1));
                assert(b =~= seq![b[0]] + b.skip(1));
            }
        }
    } else if a.len() == 0 && b.len() == 0 {
        assert(a =~= b);
    }
}

/// Whether `a` comes before `b` in dictionary order.
pub fn comes_before(a: &str, b: &str) -> (yes: bool)
    ensures
        yes == text_before(a@, b@),
{
    let ca = chars_of(a);
    let cb = chars_of(b);
    let mut i: usize = 0;
    assert(ca@.skip(0) =~= ca@);
    assert(cb@.skip(0) =~= cb@);
    loop
        invariant
            0 <= i <= ca@.len(),
            i <= cb@.len(),
            text_before(a@, b@) == text_before(ca@.skip(i as int), cb@.skip(i as int)),
        decreases ca@.len() - i,
    {
        if i >= cb.len() {
            return false;
        }
        if i >= ca.len() {
            return true;
        }
        if ca[i] != cb[i] {
            return ca[i] < cb[i];
        }
        assert(ca@.skip(i as int).skip(1) =~= ca@.skip(i + 1));
        assert(cb@.skip(i as int).skip(1) =~= cb@.skip(i + 1));
        i += 1;
    }
}

/// A map from text to values. Each key occurs once, and the entries ascend by key.
#[derive(Debug)]
pub struct TextMap<V> {
    entries: Vec<(String, V)>,
}

pub closed spec fn entry_keys<V>(entries: Seq<(String, V)>) -> Seq<Seq<char>> {
    entries.map_values(|e: (String, V)| e.0@)
}

/// The members of a set in ascending order.
pub open spec fn sorted(texts: Set<Seq<char>>) -> Seq<Seq<char>> {
    choose|s: Seq<Seq<char>>| ascending(s) && s.to_set() == texts
}

/// Only one ascending sequence has given members.
pub proof fn lemma_ascending_unique(a: Seq<Seq<char>>, b: Seq<Seq<char>>)
    requires
        ascending(a),
        ascending(b),
        a.to_set() == b.to_set(),
    ensures
        a == b,
    decreases a.len(),
{
    if a.len() == 0 {
        if b.len() > 0 {
            assert(b.to_set().contains(b[0]));
            assert(a.contains(b[0]));
        }
        assert(a =~= b);
    } else {
        assert(a.to_set().contains(a.last()));
        assert(b.contains(a.last()));
        assert(b.to_set().contains(b.last()));
        assert(a.contains(b.last()));
        let i = choose|i: int| 0 <= i < b.len() && b[i] == a.last();
        let j = choose|j: int| 0 <= j < a.len() && a[j] == b.last();
        if i < b.len() - 1 {
            assert(text_before(b[i], b[b.len() - 1]));
            if j < a.len() - 1 {
                assert(text_before(a[j], a[a.len() - 1]));
                lemma_text_before_transitive(a.last(), b.last(), a.last());
                lemma_text_before_irreflexive(a.last());
            } else {
                lemma_text_before_irreflexive(a.last());
            }
        }
        assert(a.last() == b.last());
        let x = a.drop_last();
        let y = b.drop_last();
        lemma_ascending_distinct(a);
        lemma_ascending_distinct(b);
        assert forall|k: Seq<char>| x.to_set().contains(k) == y.to_set().contains(k) by {
            if x.contains(k) {
                let n = choose|n: int| 0 <= n < x.len() && x[n] == k;
                assert(a[n] == k);
                assert(a.to_set().contains(k));
                let m = choose|m: int| 0 <= m < b.len() && b[m] == k;
                assert(y[m] == k);
            }
            if y.contains(k) {
                let m = choose|m: int| 0 <= m < y.len() && y[m] == k;
                assert(b[m] == k);
                assert(b.to_set().contains(k));
                let n = choose|n: int| 0 <= n < a.len() && a[n] == k;
                assert(x[n] == k);
            }
        }
        assert(x.to_set() =~= y.to_set());
        assert(ascending(x) && ascending(y));
        lemma_ascending_unique(x, y);
        assert(a =~= x.push(a.last()));
        assert(b =~= y.push(b.last()));
    }
}

/// Keys that strictly ascend.
pub open spec fn ascending(keys: Seq<Seq<char>>) -> bool {
    forall|i: int, j: int| 0 <= i < j < keys.len() ==> text_before(#[trigger] keys[i], #[trigger] keys[j])
}

impl<V> TextMap<V> {
    #[verifier::type_invariant]
    closed spec fn ordered(self) -> bool {
        ascending(entry_keys(self.entries@))
    }

    /// The keys in ascending order.
    pub closed spec fn keys(self) -> Seq<Seq<char>> {
        entry_keys(self.entries@)
    }
}

impl<V> View for TextMap<V> {
    type V = Map<Seq<char>, V>;

    closed spec fn view(&self) -> Map<Seq<char>, V> {
        Map::new(
            |k: Seq<char>| entry_keys(self.entries@).contains(k),
            |k: Seq<char>| self.entries@[entry_keys(self.entries@).index_of(k)].1,
        )
    }
}

proof fn lemma_ascending_distinct(keys: Seq<Seq<char>>)
    requires
        ascending(keys),
    ensures
        keys.no_duplicates(),
{
    assert forall|i: int, j: int| 0 <= i < keys.len() && 0 <= j < keys.len() && i != j implies keys[i]
        != keys[j] by {
        lemma_text_before_irreflexive(keys[i]);
        if i < j {
            assert(text_before(keys[i], keys[j]));
        } else {
            assert(text_before(keys[j], keys[i]));
        }
    }
}

impl<V> TextMap<V> {
    pub fn new() -> (map: TextMap<V>)
        ensures
            map@ == Map::<Seq<char>, V>::empty(),
    {
        let map = TextMap { entries: Vec::new() };
        assert(map@ =~= Map::<Seq<char>, V>::empty());
        map
    }

    /// The first entry whose key is not before `key`.
    fn rank(&self, key: &str) -> (at: usize)
        ensures
            at <= self.entries@.len(),
            forall|i: int| 0 <= i < at ==> text_before(#[trigger] self.keys()[i], key@),
            forall|i: int|
                at <= i < self.keys().len() ==> !text_before(#[trigger] self.keys()[i], key@),
            self.keys().len() == self.entries@.len(),
            ascending(self.keys()),
    {
        proof {
            use_type_invariant(self);
        }
        let mut low: usize = 0;
        let mut high: usize = self.entries.len();
        while low < high
            invariant
                low <= high <= self.entries@.len(),
                ascending(self.keys()),
                self.keys().len() == self.entries@.len(),
                forall|i: int| 0 <= i < low ==> text_before(#[trigger] self.keys()[i], key@),
                forall|i: int|
                    high <= i < self.keys().len() ==> !text_before(#[trigger] self.keys()[i], key@),
            decreases high - low,
        {
            let mid: usize = low + (high - low) / 2;
            assert(self.keys()[mid as int] == self.entries@[mid as int].0@);
            if comes_before(self.entries[mid].0.as_str(), key) {
                proof {
                    assert forall|i: int| 0 <= i < mid + 1 implies text_before(
                        #[trigger] self.keys()[i],
                        key@,
                    ) by {
                        if i < mid {
                            lemma_text_before_transitive(
                                self.keys()[i],
                                self.keys()[mid as int],
                                key@,
                            );
                        }
                    }
                }
                low = mid + 1;
            } else {
                proof {
                    assert forall|i: int| mid <= i < self.keys().len() implies !text_before(
                        #[trigger] self.keys()[i],
                        key@,
                    ) by {
                        if mid < i && text_before(self.keys()[i], key@) {
                            lemma_text_before_transitive(
                                self.keys()[mid as int],
                                self.keys()[i],
                                key@,
                            );
                        }
                    }
                }
                high = mid;
            }
        }
        low
    }

    proof fn lemma_rank(self, key: Seq<char>, at: int)
        requires
            ascending(self.keys()),
            0 <= at <= self.keys().len(),
            self.keys().len() == self.entries@.len(),
            forall|i: int| 0 <= i < at ==> text_before(#[trigger] self.keys()[i], key),
            forall|i: int|
                at <= i < self.keys().len() ==> !text_before(#[trigger] self.keys()[i], key),
        ensures
            self@.contains_key(key) <==> (at < self.keys().len() && self.keys()[at] == key),
            self@.contains_key(key) ==> self@[key] == self.entries@[at].1,
            self@.contains_key(key) ==> self.keys().index_of(key) == at,
            at < self.keys().len() && self.keys()[at] != key ==> text_before(key, self.keys()[at]),
    {
        lemma_ascending_distinct(self.keys());
        let keys = self.keys();
        if keys.contains(key) {
            let i = keys.index_of(key);
            lemma_text_before_irreflexive(key);
            if i < at {
                assert(text_before(keys[i], key));
            }
            if i > at {
                assert(text_before(keys[at], keys[i]));
            }
        }
        if at < keys.len() {
            lemma_text_before_total(keys[at], key);
        }
    }

    /// The value under `key`.
    pub fn get(&self, key: &str) -> (found: Option<&V>)
        ensures
            match found {
                Some(value) => self@.contains_key(key@) && self@[key@] == *value,
                None => !self@.contains_key(key@),
            },
    {
        let at: usize = self.rank(key);
        proof {
            self.lemma_rank(key@, at as int);
        }
        if at < self.entries.len() && crate::text::same(self.entries[at].0.as_str(), key) {
            Some(&self.entries[at].1)
        } else {
            None
        }
    }

    pub fn contains_key(&self, key: &str) -> (yes: bool)
        ensures
            yes == self@.contains_key(key@),
    {
        self.get(key).is_some()
    }

    /// Puts `value` under `key`, in place of any value that was there.
    pub fn insert(&mut self, key: &str, value: V)
        ensures
            final(self)@ == old(self)@.insert(key@, value),
    {
        let at: usize = self.rank(key);
        let ghost before = *self;
        proof {
            before.lemma_rank(key@, at as int);
            lemma_ascending_distinct(before.keys());
        }
        let present: bool = at < self.entries.len() && crate::text::same(
            self.entries[at].0.as_str(),
            key,
        );
        let mut entries: Vec<(String, V)> = Vec::new();
        std::mem::swap(&mut entries, &mut self.entries);
        let owned = copy_of(key);
        if present {
            entries[at] = (owned, value);
            assert(entry_keys(entries@) =~= before.keys());
        } else {
            entries.insert(at, (owned, value));
            assert(entry_keys(entries@) =~= before.keys().insert(at as int, key@));
        }
        proof {
            let keys = entry_keys(entries@);
            assert forall|i: int, j: int| 0 <= i < j < keys.len() implies text_before(
                #[trigger] keys[i],
                #[trigger] keys[j],
            ) by {
                if !present {
                    let oi = if i < at { i } else { i - 1 };
                    let oj = if j < at { j } else { j - 1 };
                    if i != at && j != at {
                        assert(text_before(before.keys()[oi], before.keys()[oj]));
                    } else if i == at {
                        assert(keys[j] == before.keys()[oj]);
                        lemma_text_before_total(key@, keys[j]);
                        if keys[j] == key@ {
                            assert(before.keys().contains(key@));
                        }
                    }
                }
            }
        }
        self.entries = entries;
        proof {
            let keys = self.keys();
            lemma_ascending_distinct(keys);
            assert(keys[at as int] == key@);
            assert forall|k: Seq<char>| #![trigger self@.contains_key(k)] self@.contains_key(k)
                == before@.insert(key@, value).contains_key(k) && (self@.contains_key(k) ==> self@[k]
                == before@.insert(key@, value)[k]) by {
                if k == key@ {
                    assert(keys.contains(k));
                } else {
                    if before.keys().contains(k) {
                        let i = before.keys().index_of(k);
                        let ni = if present || i < at { i } else { i + 1 };
                        assert(keys[ni] == k);
                        assert(keys.contains(k));
                        assert(keys.index_of(k) == ni);
                    }
                    if keys.contains(k) {
                        let ni = keys.index_of(k);
                        let i = if present || ni < at { ni } else { ni - 1 };
                        assert(before.keys()[i] == k);
                        assert(before.keys().contains(k));
                    }
                }
            }
            assert(self@ =~= before@.insert(key@, value));
        }
    }

    pub fn len(&self) -> (count: usize)
        ensures
            count == self.keys().len(),
            count == self@.dom().len(),
    {
        proof {
            use_type_invariant(self);
            lemma_ascending_distinct(self.keys());
            self.keys().unique_seq_to_set();
            assert(self.keys().to_set() =~= self@.dom());
        }
        self.entries.len()
    }

    /// The `i`-th entry in key order.
    pub fn entry(&self, i: usize) -> (entry: (&String, &V))
        requires
            i < self.keys().len(),
        ensures
            entry.0@ == self.keys()[i as int],
            self@.contains_key(entry.0@),
            self@[entry.0@] == *entry.1,
    {
        proof {
            use_type_invariant(self);
            lemma_ascending_distinct(self.keys());
            assert(self.keys().contains(self.keys()[i as int]));
        }
        (&self.entries[i].0, &self.entries[i].1)
    }

    /// The keys are exactly the map's, each once and in order.
    pub fn know_keys(&self)
        ensures
            ascending(self.keys()),
            self.keys().no_duplicates(),
            self.keys().to_set() == self@.dom(),
            self@.dom().finite(),
            forall|k: Seq<char>| self@.contains_key(k) <==> #[trigger] self.keys().contains(k),
            self.keys() == sorted(self@.dom()),
    {
        proof {
            use_type_invariant(self);
            lemma_ascending_distinct(self.keys());
            assert(self.keys().to_set() =~= self@.dom());
            vstd::seq_lib::seq_to_set_is_finite(self.keys());
            lemma_ascending_unique(self.keys(), sorted(self@.dom()));
        }
    }

    /// Removes the value under `key` and returns it.
    pub fn take(&mut self, key: &str) -> (value: Option<V>)
        ensures
            final(self)@ == old(self)@.remove(key@),
            match value {
                Some(value) => old(self)@.contains_key(key@) && value == old(self)@[key@],
                None => !old(self)@.contains_key(key@),
            },
    {
        let at: usize = self.rank(key);
        let ghost before = *self;
        proof {
            before.lemma_rank(key@, at as int);
            lemma_ascending_distinct(before.keys());
        }
        if at < self.entries.len() && crate::text::same(self.entries[at].0.as_str(), key) {
            let mut entries: Vec<(String, V)> = Vec::new();
            std::mem::swap(&mut entries, &mut self.entries);
            let (_name, value) = entries.remove(at);
            assert(entry_keys(entries@) =~= before.keys().remove(at as int));
            self.entries = entries;
            proof {
                let keys = self.keys();
                lemma_ascending_distinct(keys);
                assert forall|k: Seq<char>| #![trigger self@.contains_key(k)] self@.contains_key(k)
                    == before@.remove(key@).contains_key(k) && (self@.contains_key(k) ==> self@[k]
                    == before@.remove(key@)[k]) by {
                    if k != key@ && before.keys().contains(k) {
                        let i = before.keys().index_of(k);
                        let ni = if i < at { i } else { i - 1 };
                        assert(keys[ni] == k);
                        assert(keys.contains(k));
                        assert(keys.index_of(k) == ni);
                    }
                    if keys.contains(k) {
                        let ni = keys.index_of(k);
                        let i = if ni < at { ni } else { ni + 1 };
                        assert(before.keys()[i] == k);
                        assert(before.keys().contains(k));
                        assert(before.keys()[at as int] == key@);
                    }
                }
                assert(self@ =~= before@.remove(key@));
            }
            Some(value)
        } else {
            proof {
                assert(self@ =~= before@.remove(key@));
            }
            None
        }
    }

    /// Removes the value under `key`.
    pub fn remove(&mut self, key: &str)
        ensures
            final(self)@ == old(self)@.remove(key@),
    {
        self.take(key);
    }
}

} // verus!
