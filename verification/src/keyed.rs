//! A map from texts to values, kept in the order of its keys.

use vstd::prelude::*;
use vstd::relations::*;

use crate::order;
use crate::text;

verus! {

/// One key with its value.
#[derive(Debug)]
pub struct Keyed<V> {
    pub key: String,
    pub value: V,
}

/// A map from texts to values. The entries stand in ascending order of their keys, and no key
/// occurs twice.
#[derive(Debug)]
pub struct KeyedMap<V: View> {
    entries: Vec<Keyed<V>>,
}

/// Some entry has the key.
pub open spec fn has_key<V>(entries: Seq<Keyed<V>>, key: Seq<char>) -> bool {
    exists|i: int| 0 <= i < entries.len() && (#[trigger] entries[i]).key@ == key
}

/// The place of an entry with the key.
pub open spec fn place_of<V>(entries: Seq<Keyed<V>>, key: Seq<char>) -> int {
    choose|i: int| 0 <= i < entries.len() && (#[trigger] entries[i]).key@ == key
}

/// The keys ascend strictly.
pub open spec fn ascending<V>(entries: Seq<Keyed<V>>) -> bool {
    forall|i: int, j: int|
        0 <= i < j < entries.len() ==> order::text_order()(
            (#[trigger] entries[i]).key@,
            (#[trigger] entries[j]).key@,
        ) && entries[i].key@ != entries[j].key@
}

/// Some texts stand in strictly ascending order.
pub open spec fn in_text_order(keys: Seq<Seq<char>>) -> bool {
    forall|i: int, j: int|
        0 <= i < j < keys.len() ==> order::text_order()(#[trigger] keys[i], #[trigger] keys[j])
            && keys[i] != keys[j]
}

/// What a list of entries maps each key to.
pub open spec fn mapping<V: View>(entries: Seq<Keyed<V>>) -> Map<Seq<char>, V::V> {
    Map::new(
        |key: Seq<char>| has_key(entries, key),
        |key: Seq<char>| entries[place_of(entries, key)].value@,
    )
}

impl<V: View> View for KeyedMap<V> {
    type V = Map<Seq<char>, V::V>;

    closed spec fn view(&self) -> Map<Seq<char>, V::V> {
        mapping(self.entries@)
    }
}

proof fn lemma_place<V: View>(entries: Seq<Keyed<V>>, i: int)
    requires
        ascending(entries),
        0 <= i < entries.len(),
    ensures
        has_key(entries, entries[i].key@),
        place_of(entries, entries[i].key@) == i,
        mapping(entries).contains_key(entries[i].key@),
        mapping(entries)[entries[i].key@] == entries[i].value@,
{
    let p = place_of(entries, entries[i].key@);
    assert(entries[p].key@ == entries[i].key@);
    if p < i {
        assert(entries[p].key@ != entries[i].key@);
    } else if i < p {
        assert(entries[i].key@ != entries[p].key@);
    }
}

impl<V: View> KeyedMap<V> {
    #[verifier::type_invariant]
    spec fn sorted(self) -> bool {
        ascending(self.entries@)
    }

    /// The keys in their order.
    pub closed spec fn keys(self) -> Seq<Seq<char>> {
        self.entries@.map_values(|entry: Keyed<V>| entry.key@)
    }

    /// The map without entries.
    pub fn new() -> (map: Self)
        ensures
            map@ == Map::<Seq<char>, V::V>::empty(),
    {
        let map = KeyedMap { entries: Vec::new() };
        assert(map@ =~= Map::<Seq<char>, V::V>::empty());
        map
    }

    /// The number of entries. Each key that the map holds is one of its keys once, and they ascend.
    pub fn len(&self) -> (count: usize)
        ensures
            count == self.keys().len(),
            self.keys().no_duplicates(),
            self.keys().to_set() == self@.dom(),
            in_text_order(self.keys()),
    {
        proof {
            use_type_invariant(self);
            let keys = self.keys();
            assert forall|i: int, j: int| 0 <= i < j < keys.len() implies order::text_order()(
                #[trigger] keys[i],
                #[trigger] keys[j],
            ) && keys[i] != keys[j] by {
                assert(keys[i] == self.entries@[i].key@ && keys[j] == self.entries@[j].key@);
            }
            assert forall|key: Seq<char>| keys.to_set().contains(key) == self@.dom().contains(
                key,
            ) by {
                if keys.contains(key) {
                    let i = choose|i: int| 0 <= i < keys.len() && keys[i] == key;
                    assert(self.entries@[i].key@ == key);
                }
                if has_key(self.entries@, key) {
                    let i = place_of(self.entries@, key);
                    assert(keys[i] == key);
                }
            }
            assert(keys.to_set() =~= self@.dom());
        }
        self.entries.len()
    }

    /// The entry at a place in the order of the keys.
    pub fn entry(&self, i: usize) -> (entry: &Keyed<V>)
        requires
            i < self.keys().len(),
        ensures
            entry.key@ == self.keys()[i as int],
            self@.contains_key(entry.key@),
            self@[entry.key@] == entry.value@,
    {
        proof {
            use_type_invariant(self);
            lemma_place(self.entries@, i as int);
        }
        &self.entries[i]
    }

    /// The value that a key maps to.
    pub fn get(&self, key: &str) -> (value: Option<&V>)
        ensures
            match value {
                Some(v) => self@.contains_key(key@) && v@ == self@[key@],
                None => !self@.contains_key(key@),
            },
    {
        proof {
            use_type_invariant(self);
        }
        let mut i: usize = 0;
        while i < self.entries.len()
            invariant
                ascending(self.entries@),
                i <= self.entries.len(),
                forall|k: int| 0 <= k < i ==> (#[trigger] self.entries@[k]).key@ != key@,
            decreases self.entries.len() - i,
        {
            if text::same_text(self.entries[i].key.as_str(), key) {
                proof {
                    lemma_place(self.entries@, i as int);
                }
                return Some(&self.entries[i].value);
            }
            i = i + 1;
        }
        None
    }

    /// Maps a key to a value, whatever it mapped to before.
    pub fn insert(&mut self, key: String, value: V)
        ensures
            final(self)@ == old(self)@.insert(key@, value@),
    {
        proof {
            use_type_invariant(&*self);
            order::lemma_base_orders_total();
        }
        let mut entries: Vec<Keyed<V>> = Vec::new();
        std::mem::swap(&mut entries, &mut self.entries);
        let ghost before = entries@;
        let ghost le = order::text_order();
        let key_chars = text::chars_of(key.as_str());
        let mut i: usize = 0;
        while i < entries.len() && !order::text_le(
            &key_chars,
            &text::chars_of(entries[i].key.as_str()),
        )
            invariant
                i <= entries.len(),
                key_chars@ == key@,
                entries@ == before,
                le == order::text_order(),
                forall|k: int|
                    0 <= k < i ==> !le(key@, (#[trigger] before[k]).key@),
            decreases entries.len() - i,
        {
            i = i + 1;
        }
        assert forall|k: int| 0 <= k < i implies le((#[trigger] before[k]).key@, key@)
            && before[k].key@ != key@ by {
            assert(le(before[k].key@, key@) || le(key@, before[k].key@));
            assert(le(key@, key@));
        }
        assert forall|k: int| i < k < before.len() implies le(key@, (#[trigger] before[k]).key@)
            && before[k].key@ != key@ by {
            assert(le(key@, before[i as int].key@));
            assert(le(before[i as int].key@, before[k].key@));
        }
        let ghost entry_key = key@;
        if i < entries.len() && text::same_text(entries[i].key.as_str(), key.as_str()) {
            entries.set(i, Keyed { key, value });
            let ghost after = entries@;
            assert forall|m: int, n: int| 0 <= m < n < after.len() implies le(
                (#[trigger] after[m]).key@,
                (#[trigger] after[n]).key@,
            ) && after[m].key@ != after[n].key@ by {
                assert(before[m].key@ == after[m].key@ && before[n].key@ == after[n].key@);
            }
            proof {
                lemma_same_mapping(before, after, i as int, i as int + 1, entry_key, value@);
            }
        } else {
            entries.insert(i, Keyed { key, value });
            let ghost after = entries@;
            assert forall|m: int, n: int| 0 <= m < n < after.len() implies le(
                (#[trigger] after[m]).key@,
                (#[trigger] after[n]).key@,
            ) && after[m].key@ != after[n].key@ by {
                let old_m = if m < i {
                    m
                } else {
                    m - 1
                };
                let old_n = if n < i {
                    n
                } else {
                    n - 1
                };
                if m != i {
                    assert(after[m] == before[old_m]);
                }
                if n != i {
                    assert(after[n] == before[old_n]);
                }
            }
            proof {
                lemma_same_mapping(before, after, i as int, i as int, entry_key, value@);
            }
        }
        self.entries = entries;
    }

    /// Drops every entry whose key is not among those given.
    pub fn retain_keys(&mut self, keys: &Vec<String>)
        ensures
            final(self)@ == old(self)@.restrict(
                Set::new(
                    |key: Seq<char>|
                        exists|i: int| 0 <= i < keys.len() && (#[trigger] keys@[i])@ == key,
                ),
            ),
    {
        proof {
            use_type_invariant(&*self);
        }
        let mut entries: Vec<Keyed<V>> = Vec::new();
        std::mem::swap(&mut entries, &mut self.entries);
        let ghost before = entries@;
        let ghost wanted = |key: Seq<char>|
            exists|i: int| 0 <= i < keys.len() && (#[trigger] keys@[i])@ == key;
        let ghost mut places: Seq<int> = Seq::new(before.len(), |k: int| k);
        assert forall|p: int| 0 <= p < before.len() implies #[trigger] places.contains(p) by {
            assert(places[p] == p);
        }
        let mut i: usize = 0;
        while i < entries.len()
            invariant
                i <= entries.len(),
                places.len() == entries.len(),
                wanted == (|key: Seq<char>|
                    exists|i: int| 0 <= i < keys.len() && (#[trigger] keys@[i])@ == key),
                forall|k: int|
                    0 <= k < places.len() ==> 0 <= #[trigger] places[k] < before.len()
                        && entries@[k] == before[places[k]],
                forall|k: int, l: int|
                    0 <= k < l < places.len() ==> #[trigger] places[k] < #[trigger] places[l],
                forall|k: int| 0 <= k < i ==> wanted((#[trigger] entries@[k]).key@),
                forall|p: int|
                    0 <= p < before.len() && wanted((#[trigger] before[p]).key@)
                        ==> places.contains(p),
            decreases entries.len() - i,
        {
            let key_here = entries[i].key.as_str();
            let mut found = false;
            let mut j: usize = 0;
            while j < keys.len()
                invariant
                    j <= keys.len(),
                    found == exists|m: int| 0 <= m < j && (#[trigger] keys@[m])@ == key_here@,
                decreases keys.len() - j,
            {
                if text::same_text(keys[j].as_str(), key_here) {
                    found = true;
                }
                j = j + 1;
            }
            if found {
                i = i + 1;
            } else {
                let ghost gone = places[i as int];
                let ghost old_places = places;
                entries.remove(i);
                proof {
                    places = places.remove(i as int);
                    assert forall|p: int|
                        0 <= p < before.len() && wanted(
                            (#[trigger] before[p]).key@,
                        ) implies places.contains(p) by {
                        assert(old_places.contains(p));
                        let k = choose|k: int| 0 <= k < old_places.len() && old_places[k] == p;
                        assert(k != i);
                        if k < i {
                            assert(places[k] == p);
                        } else {
                            assert(places[k - 1] == p);
                        }
                    }
                }
            }
        }
        let ghost after = entries@;
        proof {
            assert(ascending(after)) by {
                assert forall|m: int, n: int| 0 <= m < n < after.len() implies order::text_order()(
                    (#[trigger] after[m]).key@,
                    (#[trigger] after[n]).key@,
                ) && after[m].key@ != after[n].key@ by {
                    assert(places[m] < places[n]);
                    assert(after[m] == before[places[m]] && after[n] == before[places[n]]);
                }
            }
            let expected = mapping(before).restrict(Set::new(wanted));
            assert forall|k: Seq<char>| #[trigger]
                mapping(after).contains_key(k) == expected.contains_key(k) by {
                if has_key(after, k) {
                    let m = place_of(after, k);
                    assert(after[m] == before[places[m]]);
                    assert(wanted(after[m].key@));
                }
                if has_key(before, k) && wanted(k) {
                    let p = place_of(before, k);
                    assert(places.contains(p));
                    let m = choose|m: int| 0 <= m < places.len() && places[m] == p;
                    assert(after[m] == before[places[m]]);
                }
            }
            assert forall|k: Seq<char>| #[trigger]
                mapping(after).contains_key(k) implies mapping(after)[k] == expected[k] by {
                let m = place_of(after, k);
                assert(after[m] == before[places[m]]);
                lemma_place(before, places[m]);
            }
            assert(mapping(after) =~= expected);
        }
        self.entries = entries;
    }
}

/// Replacing the entries from `at` up to `next` by one entry maps its key anew and nothing else,
/// where no other entry has that key.
proof fn lemma_same_mapping<V: View>(
    before: Seq<Keyed<V>>,
    after: Seq<Keyed<V>>,
    at: int,
    next: int,
    key: Seq<char>,
    value: V::V,
)
    requires
        ascending(before),
        ascending(after),
        0 <= at <= next <= before.len(),
        next <= at + 1,
        after.len() == before.len() - (next - at) + 1,
        forall|k: int| 0 <= k < at ==> #[trigger] after[k] == before[k],
        forall|k: int| at < k < after.len() ==> #[trigger] after[k] == before[k - 1 + (next - at)],
        after[at].key@ == key,
        after[at].value@ == value,
        next == at + 1 ==> before[at].key@ == key,
        next == at ==> !has_key(before, key),
    ensures
        mapping(after) == mapping(before).insert(key, value),
{
    let expected = mapping(before).insert(key, value);
    assert forall|k: Seq<char>| #[trigger]
        mapping(after).contains_key(k) == expected.contains_key(k) by {
        if has_key(after, k) && k != key {
            let m = place_of(after, k);
            if m < at {
                assert(before[m].key@ == k);
            } else {
                assert(before[m - 1 + (next - at)].key@ == k);
            }
        }
        if has_key(before, k) && k != key {
            let p = place_of(before, k);
            if p < at {
                assert(after[p].key@ == k);
            } else {
                assert(after[p + 1 - (next - at)].key@ == k);
            }
        }
        if k == key {
            assert(after[at].key@ == key);
        }
    }
    assert forall|k: Seq<char>| #[trigger]
        mapping(after).contains_key(k) implies mapping(after)[k] == expected[k] by {
        let m = place_of(after, k);
        lemma_place(after, m);
        lemma_place(after, at);
        if k != key {
            if m < at {
                lemma_place(before, m);
            } else {
                lemma_place(before, m - 1 + (next - at));
            }
        }
    }
    assert(mapping(after) =~= expected);
}

}
