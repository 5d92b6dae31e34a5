//! A map with text keys, kept in the order of its keys.
use crate::text::{place, precedes, precedes_is_total, precedes_is_transitive, Place};
use vstd::prelude::*;

verus! {

/// Whether the keys of the entries ascend strictly, so that none occurs twice.
pub open spec fn ascending<V>(entries: Seq<(String, V)>) -> bool {
    forall|i: int, j: int|
        0 <= i < j < entries.len() ==> precedes(
            #[trigger] entries[i].0@,
            #[trigger] entries[j].0@,
        )
}

/// The map that the entries make up.
pub open spec fn as_map<V>(entries: Seq<(String, V)>) -> Map<Seq<char>, V>
    decreases entries.len(),
{
    if entries.len() == 0 {
        Map::empty()
    } else {
        as_map(entries.drop_last()).insert(entries.last().0@, entries.last().1)
    }
}

/// A map from text to `V` whose entries are held in ascending order of their keys.
#[derive(Debug)]
pub struct TextMap<V> {
    entries: Vec<(String, V)>,
}

impl<V> View for TextMap<V> {
    type V = Map<Seq<char>, V>;

    open spec fn view(&self) -> Map<Seq<char>, V> {
        as_map(self.listing())
    }
}

/// In a list with ascending keys an entry's key leads to that entry.
proof fn lemma_entry<V>(entries: Seq<(String, V)>, i: int)
    requires
        ascending(entries),
        0 <= i < entries.len(),
    ensures
        as_map(entries).contains_key(entries[i].0@),
        as_map(entries)[entries[i].0@] == entries[i].1,
    decreases entries.len(),
{
    if i < entries.len() - 1 {
        precedes_is_total(entries[i].0@, entries.last().0@);
        lemma_entry(entries.drop_last(), i);
        assert(entries.drop_last()[i] == entries[i]);
    }
}

/// Every key of the map is the key of an entry.
proof fn lemma_key<V>(entries: Seq<(String, V)>, key: Seq<char>) -> (i: int)
    requires
        as_map(entries).contains_key(key),
    ensures
        0 <= i < entries.len(),
        entries[i].0@ == key,
    decreases entries.len(),
{
    if entries.last().0@ == key {
        entries.len() - 1
    } else {
        lemma_key(entries.drop_last(), key)
    }
}

impl<V> TextMap<V> {
    #[verifier::type_invariant]
    spec fn well_formed(self) -> bool {
        ascending(self.entries@)
    }

    /// The entries in ascending order of their keys.
    pub closed spec fn listing(self) -> Seq<(String, V)> {
        self.entries@
    }

    /// The empty map.
    pub fn new() -> (r: Self)
        ensures
            r@ == Map::<Seq<char>, V>::empty(),
            r.listing() == Seq::<(String, V)>::empty(),
    {
        TextMap { entries: Vec::new() }
    }

    /// The entries, in ascending order of their keys.
    pub fn entries(&self) -> (r: &Vec<(String, V)>)
        ensures
            r@ == self.listing(),
            ascending(r@),
            as_map(r@) == self@,
    {
        proof {
            use_type_invariant(self);
        }
        &self.entries
    }

    /// Whether the map holds nothing.
    pub fn is_empty(&self) -> (r: bool)
        ensures
            r <==> self@ == Map::<Seq<char>, V>::empty(),
    {
        proof {
            use_type_invariant(self);
            if self.entries@.len() > 0 {
                lemma_entry(self.entries@, 0);
            }
        }
        self.entries.len() == 0
    }

    /// The position of the first entry whose key does not come before `key`.
    fn position(&self, key: &str) -> (r: usize)
        ensures
            r <= self.entries@.len(),
            forall|i: int|
                0 <= i < r ==> precedes(#[trigger] self.entries@[i].0@, key@),
            r < self.entries@.len() ==> !precedes(self.entries@[r as int].0@, key@),
    {
        let mut i: usize = 0;
        while i < self.entries.len() && place(self.entries[i].0.as_str(), key) == Place::Before
            invariant
                i <= self.entries@.len(),
                forall|j: int|
                    0 <= j < i ==> precedes(#[trigger] self.entries@[j].0@, key@),
            decreases self.entries@.len() - i,
        {
            i = i + 1;
        }
        i
    }

    /// The value that `key` leads to.
    pub fn get(&self, key: &str) -> (r: Option<&V>)
        ensures
            r == (if self@.contains_key(key@) {
                Some(&self@[key@])
            } else {
                None
            }),
    {
        proof {
            use_type_invariant(self);
        }
        let i: usize = self.position(key);
        if i < self.entries.len() && place(self.entries[i].0.as_str(), key) == Place::Same {
            proof {
                lemma_entry(self.entries@, i as int);
            }
            Some(&self.entries[i].1)
        } else {
            proof {
                if self@.contains_key(key@) {
                    let j = lemma_key(self.entries@, key@);
                    precedes_is_total(key@, key@);
                    precedes_is_total(self.entries@[i as int].0@, key@);
                }
            }
            None
        }
    }

    /// Makes `key` lead to `value`, in place of what it led to before.
    pub fn insert(&mut self, key: String, value: V)
        ensures
            final(self)@ == old(self)@.insert(key@, value),
            ascending(final(self).listing()),
    {
        proof {
            use_type_invariant(&*self);
        }
        let i: usize = self.position(key.as_str());
        let ghost before = self.entries@;
        let present: bool = i < self.entries.len() && place(
            self.entries[i].0.as_str(),
            key.as_str(),
        ) == Place::Same;
        let mut entries: Vec<(String, V)> = Vec::new();
        std::mem::swap(&mut entries, &mut self.entries);
        if present {
            entries.set(i, (key, value));
            proof {
                lemma_set(before, i as int, key, value);
            }
        } else {
            entries.insert(i, (key, value));
            proof {
                lemma_insert(before, i as int, key, value);
            }
        }
        self.entries = entries;
    }
}

/// Giving a present key another value.
proof fn lemma_set<V>(entries: Seq<(String, V)>, i: int, key: String, value: V)
    requires
        ascending(entries),
        0 <= i < entries.len(),
        entries[i].0@ == key@,
    ensures
        ascending(entries.update(i, (key, value))),
        as_map(entries.update(i, (key, value))) == as_map(entries).insert(key@, value),
{
    let after = entries.update(i, (key, value));
    let x = as_map(after);
    let y = as_map(entries).insert(key@, value);
    lemma_entry(after, i);
    lemma_entry(entries, i);
    assert forall|k: Seq<char>|
        #![trigger x.dom().contains(k)]
        #![trigger y.dom().contains(k)]
        x.contains_key(k) == y.contains_key(k) && (x.contains_key(k) ==> x[k] == y[k]) by {
        if x.contains_key(k) {
            let j = lemma_key(after, k);
            lemma_entry(after, j);
            lemma_entry(entries, j);
        }
        if y.contains_key(k) && k != key@ {
            let j = lemma_key(entries, k);
            lemma_entry(after, j);
        }
    }
    assert(x =~= y);
}

/// Adding an entry for a key that is not there, at its place in the order.
proof fn lemma_insert<V>(entries: Seq<(String, V)>, i: int, key: String, value: V)
    requires
        ascending(entries),
        0 <= i <= entries.len(),
        forall|j: int| 0 <= j < i ==> precedes(#[trigger] entries[j].0@, key@),
        i < entries.len() ==> precedes(key@, entries[i].0@),
    ensures
        ascending(entries.insert(i, (key, value))),
        as_map(entries.insert(i, (key, value))) == as_map(entries).insert(key@, value),
{
    let after = entries.insert(i, (key, value));
    assert forall|j: int| i <= j < entries.len() implies precedes(
        key@,
        #[trigger] entries[j].0@,
    ) by {
        if j > i {
            precedes_is_transitive(key@, entries[i].0@, entries[j].0@);
        }
    }
    assert forall|a: int, b: int| 0 <= a < b < after.len() implies precedes(
        #[trigger] after[a].0@,
        #[trigger] after[b].0@,
    ) by {
        let a0 = if a < i { a } else { a - 1 };
        let b0 = if b < i { b } else { b - 1 };
        if a != i {
            assert(after[a] == entries[a0]);
        }
        if b != i {
            assert(after[b] == entries[b0]);
        }
    }
    let x = as_map(after);
    let y = as_map(entries).insert(key@, value);
    assert(after[i] == (key, value));
    lemma_entry(after, i);
    assert forall|k: Seq<char>|
        #![trigger x.dom().contains(k)]
        #![trigger y.dom().contains(k)]
        x.contains_key(k) == y.contains_key(k) && (x.contains_key(k) ==> x[k] == y[k]) by {
        if x.contains_key(k) {
            let j = lemma_key(after, k);
            lemma_entry(after, j);
            if j != i {
                let j0 = if j < i { j } else { j - 1 };
                assert(after[j] == entries[j0]);
                lemma_entry(entries, j0);
                precedes_is_total(entries[j0].0@, key@);
            }
        }
        if y.contains_key(k) && k != key@ {
            let j0 = lemma_key(entries, k);
            let j = if j0 < i { j0 } else { j0 + 1 };
            assert(after[j] == entries[j0]);
            lemma_entry(after, j);
            lemma_entry(entries, j0);
        }
    }
    assert(x =~= y);
}

/// The last key of a list with ascending keys is not among the others, and no key comes after it.
proof fn lemma_last<V>(entries: Seq<(String, V)>, key: Seq<char>)
    requires
        ascending(entries),
        entries.len() > 0,
    ensures
        as_map(entries).contains_key(key) ==> !precedes(entries.last().0@, key),
        as_map(entries.drop_last()) == as_map(entries).remove(entries.last().0@),
{
    let rest = entries.drop_last();
    let last = entries.last().0@;
    if as_map(entries).contains_key(key) {
        let i = lemma_key(entries, key);
        precedes_is_total(key, last);
    }
    if as_map(rest).contains_key(last) {
        let i = lemma_key(rest, last);
        assert(rest[i] == entries[i]);
        precedes_is_total(last, last);
    }
    assert(as_map(rest) =~= as_map(entries).remove(last));
}

/// The order of the entries follows from what the map holds: two lists with ascending keys that
/// make up the same map have the same keys and values at the same positions.
pub proof fn the_listing_follows_from_the_map<V>(a: Seq<(String, V)>, b: Seq<(String, V)>)
    requires
        ascending(a),
        ascending(b),
        as_map(a) == as_map(b),
    ensures
        a.len() == b.len(),
        forall|i: int| 0 <= i < a.len() ==> (#[trigger] a[i]).0@ == b[i].0@ && a[i].1 == b[i].1,
    decreases a.len(),
{
    if a.len() > 0 && b.len() > 0 {
        let (ka, kb) = (a.last().0@, b.last().0@);
        lemma_entry(a, a.len() - 1);
        lemma_entry(b, b.len() - 1);
        lemma_last(a, kb);
        lemma_last(b, ka);
        precedes_is_total(ka, kb);
        assert(ka == kb);
        the_listing_follows_from_the_map(a.drop_last(), b.drop_last());
        assert forall|i: int| 0 <= i < a.len() implies (#[trigger] a[i]).0@ == b[i].0@ && a[i].1
            == b[i].1 by {
            if i < a.len() - 1 {
                assert(a[i] == a.drop_last()[i]);
                assert(b[i] == b.drop_last()[i]);
            }
        }
    } else if a.len() > 0 {
        lemma_entry(a, 0);
    } else if b.len() > 0 {
        lemma_entry(b, 0);
    }
}

/// The map holds its entries and nothing else: each key leads to the value that it is listed with,
/// and what is not listed leads to nothing. Keys are listed in ascending order.
pub proof fn the_map_holds_its_entries<V>(entries: Seq<(String, V)>, key: Seq<char>)
    requires
        forall|i: int, j: int|
            0 <= i < j < entries.len() ==> precedes(
                (#[trigger] entries[i]).0@,
                (#[trigger] entries[j]).0@,
            ),
    ensures
        ascending(entries),
        as_map(entries).contains_key(key) <==> exists|i: int|
            0 <= i < entries.len() && (#[trigger] entries[i]).0@ == key,
        forall|i: int|
            0 <= i < entries.len() && (#[trigger] entries[i]).0@ == key ==> as_map(entries)[key]
                == entries[i].1,
{
    assert forall|i: int| 0 <= i < entries.len() && (#[trigger] entries[i]).0@ == key implies as_map(
        entries,
    ).contains_key(key) && as_map(entries)[key] == entries[i].1 by {
        lemma_entry(entries, i);
    }
    if as_map(entries).contains_key(key) {
        let i = lemma_key(entries, key);
        assert(entries[i].0@ == key);
    }
}

} // verus!
