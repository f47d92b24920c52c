//! Collections that keep their items in order: a map keyed by text, and the
//! sorted order of a list.

use crate::text::{chars_before, chars_of, text_before};
use std::collections::BTreeMap;
use vstd::prelude::*;

verus! {

/// Texts in strictly ascending order.
pub open spec fn ascending(keys: Seq<Seq<char>>) -> bool {
    forall|i: int, j: int|
        0 <= i < j < keys.len() ==> text_before(#[trigger] keys[i], #[trigger] keys[j])
}

/// The texts of a finite set in ascending order.
pub open spec fn sorted_keys(keys: Set<Seq<char>>) -> Seq<Seq<char>> {
    choose|s: Seq<Seq<char>>| ascending(s) && #[trigger] s.to_set() == keys
}

/// The values of a finite map in the order of their keys.
pub open spec fn sorted_values<V>(m: Map<Seq<char>, V>) -> Seq<V> {
    sorted_keys(m.dom()).map_values(|k: Seq<char>| m[k])
}

/// An ascending row holds each text once.
pub proof fn ascending_distinct(s: Seq<Seq<char>>)
    requires
        ascending(s),
    ensures
        s.no_duplicates(),
{
    assert forall|i: int, j: int| 0 <= i < s.len() && 0 <= j < s.len() && i != j implies s[i]
        != s[j] by {
        crate::text::text_before_irreflexive(s[i]);
        if i < j {
            assert(text_before(s[i], s[j]));
        } else {
            assert(text_before(s[j], s[i]));
        }
    }
}

/// Two ascending rows of the same texts are the same row.
pub proof fn ascending_unique(s: Seq<Seq<char>>, t: Seq<Seq<char>>)
    requires
        ascending(s),
        ascending(t),
        s.to_set() == t.to_set(),
    ensures
        s == t,
    decreases s.len(),
{
    if s.len() == 0 {
        if t.len() > 0 {
            assert(t.to_set().contains(t[0]));
            assert(s.to_set().contains(t[0]));
        }
        assert(s =~= t);
    } else {
        assert(s.to_set().contains(s[0]));
        assert(t.contains(s[0]));
        let n = choose|n: int| 0 <= n < t.len() && t[n] == s[0];
        assert(t.to_set().contains(t[0]));
        assert(s.contains(t[0]));
        let m = choose|m: int| 0 <= m < s.len() && s[m] == t[0];
        if n != 0 {
            assert(text_before(t[0], t[n]));
            if m != 0 {
                assert(text_before(s[0], s[m]));
                crate::text::text_before_transitive(s[0], t[0], s[0]);
            }
            crate::text::text_before_irreflexive(s[0]);
        }
        assert(s[0] == t[0]);
        let s1 = s.drop_first();
        let t1 = t.drop_first();
        ascending_distinct(s);
        ascending_distinct(t);
        assert forall|k: Seq<char>| s1.to_set().contains(k) == t1.to_set().contains(k) by {
            if s1.contains(k) {
                let i = choose|i: int| 0 <= i < s1.len() && s1[i] == k;
                assert(s[i + 1] == k);
                assert(s.to_set().contains(k));
                assert(t.contains(k));
                let j = choose|j: int| 0 <= j < t.len() && t[j] == k;
                assert(j != 0);
                assert(t1[j - 1] == k);
            }
            if t1.contains(k) {
                let i = choose|i: int| 0 <= i < t1.len() && t1[i] == k;
                assert(t[i + 1] == k);
                assert(t.to_set().contains(k));
                assert(s.contains(k));
                let j = choose|j: int| 0 <= j < s.len() && s[j] == k;
                assert(j != 0);
                assert(s1[j - 1] == k);
            }
        }
        assert(s1.to_set() =~= t1.to_set());
        ascending_unique(s1, t1);
        assert(s =~= seq![s[0]] + s1);
        assert(t =~= seq![t[0]] + t1);
    }
}

/// An ascending row of the texts of a set is the sorted row of that set.
pub proof fn sorted_keys_are(s: Seq<Seq<char>>, keys: Set<Seq<char>>)
    requires
        ascending(s),
        s.to_set() == keys,
    ensures
        sorted_keys(keys) == s,
{
    ascending_unique(sorted_keys(keys), s);
}

/// A key can be put into an ascending row.
proof fn insert_ascending(s: Seq<Seq<char>>, key: Seq<char>) -> (t: Seq<Seq<char>>)
    requires
        ascending(s),
        !s.contains(key),
    ensures
        ascending(t),
        t.to_set() == s.to_set().insert(key),
    decreases s.len(),
{
    if s.len() == 0 {
        let t = s.push(key);
        assert forall|k: Seq<char>| t.contains(k) <==> s.contains(k) || k == key by {
            push_contains(s, key, k);
        }
        assert(t.to_set() =~= s.to_set().insert(key));
        t
    } else {
        let last = s.last();
        assert(s.contains(last));
        crate::text::text_before_total(last, key);
        if text_before(last, key) {
            let t = s.push(key);
            assert forall|i: int, j: int| 0 <= i < j < t.len() implies text_before(
                #[trigger] t[i],
                #[trigger] t[j],
            ) by {
                if j == s.len() && i < s.len() - 1 {
                    crate::text::text_before_transitive(s[i], last, key);
                }
            }
            assert forall|k: Seq<char>| t.contains(k) <==> s.contains(k) || k == key by {
                push_contains(s, key, k);
            }
            assert(t.to_set() =~= s.to_set().insert(key));
            t
        } else {
            let rest = s.drop_last();
            assert forall|k: Seq<char>| s.contains(k) <==> rest.contains(k) || k == last by {
                push_contains(rest, last, k);
                assert(rest.push(last) =~= s);
            }
            let u = insert_ascending(rest, key);
            let t = u.push(last);
            assert forall|i: int, j: int| 0 <= i < j < t.len() implies text_before(
                #[trigger] t[i],
                #[trigger] t[j],
            ) by {
                if j == u.len() {
                    assert(u.contains(t[i]));
                    assert(u.to_set().contains(t[i]));
                    if t[i] != key {
                        assert(rest.contains(t[i]));
                        let n = choose|n: int| 0 <= n < rest.len() && rest[n] == t[i];
                        assert(text_before(s[n], s[s.len() - 1]));
                    }
                }
            }
            assert forall|k: Seq<char>|
                #[trigger] t.to_set().contains(k) <==> s.to_set().insert(key).contains(k) by {
                push_contains(u, last, k);
                assert(u.contains(k) <==> u.to_set().contains(k));
            }
            assert(t.to_set() =~= s.to_set().insert(key));
            t
        }
    }
}

/// The keys of a finite set can be put in order.
pub proof fn sorted_keys_of(keys: Set<Seq<char>>)
    requires
        keys.finite(),
    ensures
        ascending(sorted_keys(keys)),
        sorted_keys(keys).to_set() == keys,
        sorted_keys(keys).no_duplicates(),
        sorted_keys(keys).len() == keys.len(),
    decreases keys.len(),
{
    if keys.len() == 0 {
        let none = Seq::<Seq<char>>::empty();
        assert(none.to_set() =~= keys);
        sorted_keys_are(none, keys);
    } else {
        let key = keys.choose();
        let rest = keys.remove(key);
        sorted_keys_of(rest);
        assert(!sorted_keys(rest).contains(key)) by {
            if sorted_keys(rest).contains(key) {
                assert(sorted_keys(rest).to_set().contains(key));
            }
        }
        let t = insert_ascending(sorted_keys(rest), key);
        assert(t.to_set() =~= keys);
        sorted_keys_are(t, keys);
    }
    ascending_distinct(sorted_keys(keys));
    sorted_keys(keys).unique_seq_to_set();
}

/// What can be copied.
pub trait Duplicate: View + Sized {
    /// A second value that stands for the same.
    fn duplicate(&self) -> (r: Self)
        ensures
            r@ == self@,
    ;
}

impl Duplicate for () {
    fn duplicate(&self) -> (r: Self) {
        ()
    }
}

impl Duplicate for String {
    fn duplicate(&self) -> (r: Self) {
        self.clone()
    }
}

/// A map keyed by text, whose entries stand in the order of their keys.
#[derive(Debug, PartialEq, Eq)]
pub struct TextMap<V> {
    entries: Vec<(String, V)>,
}

/// The keys of a row of entries.
spec fn entry_keys<V>(entries: Seq<(String, V)>) -> Seq<Seq<char>> {
    entries.map_values(|e: (String, V)| e.0@)
}

/// The map that a row of entries stands for.
spec fn entry_map<V: View>(entries: Seq<(String, V)>) -> Map<Seq<char>, V::V> {
    Map::new(
        |k: Seq<char>| entry_keys(entries).contains(k),
        |k: Seq<char>| entries[entry_keys(entries).index_of(k)].1@,
    )
}

/// In a row with distinct keys the map holds each entry.
proof fn entry_map_holds<V: View>(entries: Seq<(String, V)>)
    requires
        ascending(entry_keys(entries)),
    ensures
        forall|i: int|
            0 <= i < entries.len() ==> entry_map(entries).contains_key(
                #[trigger] entry_keys(entries)[i],
            ) && entry_map(entries)[entry_keys(entries)[i]] == entries[i].1@,
        entry_map(entries).dom() == entry_keys(entries).to_set(),
        sorted_keys(entry_map(entries).dom()) == entry_keys(entries),
{
    let keys = entry_keys(entries);
    ascending_distinct(keys);
    assert forall|i: int| 0 <= i < entries.len() implies entry_map(entries).contains_key(
        #[trigger] keys[i],
    ) && entry_map(entries)[keys[i]] == entries[i].1@ by {
        assert(keys.contains(keys[i]));
        let n = keys.index_of(keys[i]);
        assert(keys[n] == keys[i]);
        assert(n == i);
    }
    assert(entry_map(entries).dom() =~= keys.to_set());
    sorted_keys_are(keys, entry_map(entries).dom());
}

impl<V> TextMap<V> {
    #[verifier::type_invariant]
    spec fn in_order(self) -> bool {
        ascending(entry_keys(self.entries@))
    }
}

impl<V: Duplicate> Clone for TextMap<V> {
    fn clone(&self) -> (r: Self)
        ensures
            r@ == self@,
    {
        self.duplicate()
    }
}

impl<V: View> View for TextMap<V> {
    type V = Map<Seq<char>, V::V>;

    closed spec fn view(&self) -> Map<Seq<char>, V::V> {
        entry_map(self.entries@)
    }
}

impl<V: View> TextMap<V> {
    /// The map without entries.
    pub fn new() -> (m: Self)
        ensures
            m@ == Map::<Seq<char>, V::V>::empty(),
    {
        let m = TextMap { entries: Vec::new() };
        assert(m@ =~= Map::<Seq<char>, V::V>::empty());
        m
    }

    /// The number of entries.
    pub fn len(&self) -> (n: usize)
        ensures
            n == self@.dom().len(),
            n == sorted_keys(self@.dom()).len(),
            self@.dom().finite(),
            self@.dom() == sorted_keys(self@.dom()).to_set(),
            ascending(sorted_keys(self@.dom())),
    {
        proof {
            use_type_invariant(self);
            entry_map_holds(self.entries@);
            ascending_distinct(entry_keys(self.entries@));
            entry_keys(self.entries@).unique_seq_to_set();
        }
        self.entries.len()
    }

    /// Whether there is no entry.
    pub fn is_empty(&self) -> (r: bool)
        ensures
            r == (self@.dom() == Set::<Seq<char>>::empty()),
            self@.dom().finite(),
    {
        let n = self.len();
        proof {
            if n == 0 {
                assert(self@.dom() =~= Set::<Seq<char>>::empty());
            }
        }
        n == 0
    }

    /// The entry at a position of the order.
    pub fn at(&self, i: usize) -> (e: (&String, &V))
        requires
            i < self@.dom().len(),
        ensures
            e.0@ == sorted_keys(self@.dom())[i as int],
            self@.contains_key(e.0@),
            e.1@ == self@[e.0@],
    {
        proof {
            use_type_invariant(self);
            entry_map_holds(self.entries@);
            ascending_distinct(entry_keys(self.entries@));
            entry_keys(self.entries@).unique_seq_to_set();
            assert(entry_keys(self.entries@)[i as int] == self.entries@[i as int].0@);
        }
        let e = &self.entries[i];
        (&e.0, &e.1)
    }

    /// The first position whose key does not come before `key`.
    fn position(&self, key: &str) -> (r: usize)
        ensures
            r <= self.entries@.len(),
            forall|i: int|
                0 <= i < r ==> text_before(#[trigger] entry_keys(self.entries@)[i], key@),
            forall|i: int|
                r <= i < self.entries@.len() ==> !text_before(
                    #[trigger] entry_keys(self.entries@)[i],
                    key@,
                ),
    {
        proof {
            use_type_invariant(self);
        }
        let wanted = chars_of(key);
        let ghost keys = entry_keys(self.entries@);
        let mut low: usize = 0;
        let mut high: usize = self.entries.len();
        while low < high
            invariant
                low <= high <= self.entries@.len(),
                wanted@ == key@,
                keys == entry_keys(self.entries@),
                ascending(keys),
                forall|i: int| 0 <= i < low ==> text_before(#[trigger] keys[i], key@),
                forall|i: int| high <= i < keys.len() ==> !text_before(#[trigger] keys[i], key@),
            decreases high - low,
        {
            let mid: usize = low + (high - low) / 2;
            let probe = chars_of(self.entries[mid].0.as_str());
            assert(probe@ == keys[mid as int]);
            if chars_before(&probe, &wanted) {
                assert forall|i: int| 0 <= i < mid + 1 implies text_before(
                    #[trigger] keys[i],
                    key@,
                ) by {
                    if i < mid {
                        crate::text::text_before_transitive(keys[i], keys[mid as int], key@);
                    }
                }
                low = mid + 1;
            } else {
                assert forall|i: int| mid <= i < keys.len() implies !text_before(
                    #[trigger] keys[i],
                    key@,
                ) by {
                    if i > mid && text_before(keys[i], key@) {
                        crate::text::text_before_transitive(keys[mid as int], keys[i], key@);
                    }
                }
                high = mid;
            }
        }
        low
    }

    /// The position of `key`, where it is a key.
    fn find(&self, key: &str) -> (r: Option<usize>)
        ensures
            match r {
                Some(i) => i < self.entries@.len() && self.entries@[i as int].0@ == key@,
                None => !self@.contains_key(key@),
            },
    {
        proof {
            use_type_invariant(self);
            entry_map_holds(self.entries@);
        }
        let i = self.position(key);
        let ghost keys = entry_keys(self.entries@);
        if i < self.entries.len() && crate::text::same_text(self.entries[i].0.as_str(), key) {
            Some(i)
        } else {
            proof {
                if keys.contains(key@) {
                    let j = choose|j: int| 0 <= j < keys.len() && keys[j] == key@;
                    crate::text::text_before_irreflexive(key@);
                    assert(j >= i);
                    assert(j != i);
                    assert(text_before(keys[i as int], keys[j]));
                }
            }
            None
        }
    }

    /// Whether `key` is a key.
    pub fn contains(&self, key: &str) -> (r: bool)
        ensures
            r == self@.contains_key(key@),
    {
        let found = self.find(key);
        proof {
            use_type_invariant(self);
            entry_map_holds(self.entries@);
            if let Some(i) = found {
                assert(entry_keys(self.entries@)[i as int] == key@);
            }
        }
        found.is_some()
    }

    /// The value at `key`.
    pub fn get(&self, key: &str) -> (r: Option<&V>)
        ensures
            match r {
                Some(v) => self@.contains_key(key@) && v@ == self@[key@],
                None => !self@.contains_key(key@),
            },
    {
        match self.find(key) {
            Some(i) => {
                proof {
                    use_type_invariant(self);
                    entry_map_holds(self.entries@);
                    assert(entry_keys(self.entries@)[i as int] == key@);
                }
                Some(&self.entries[i].1)
            },
            None => None,
        }
    }

    /// Sets the value at `key`.
    pub fn insert(&mut self, key: String, value: V)
        ensures
            final(self)@ == old(self)@.insert(key@, value@),
    {
        proof {
            use_type_invariant(&*self);
            entry_map_holds(self.entries@);
        }
        let ghost before = self.entries@;
        let ghost keys = entry_keys(before);
        let ghost k = key@;
        let ghost v = value@;
        let i = self.position(key.as_str());
        let found = self.find(key.as_str());
        let mut entries: Vec<(String, V)> = Vec::new();
        std::mem::swap(&mut entries, &mut self.entries);
        match found {
            Some(n) => {
                assert(keys[n as int] == k);
                entries.remove(n);
                entries.insert(n, (key, value));
                assert(entry_keys(entries@) =~= keys);
                proof {
                    entry_map_holds(entries@);
                    assert forall|q: Seq<char>| entry_map(entries@).contains_key(q) implies
                        #[trigger] entry_map(entries@)[q] == entry_map(before).insert(k, v)[q] by {
                        let j = choose|j: int| 0 <= j < keys.len() && keys[j] == q;
                        assert(entry_keys(entries@)[j] == q);
                        ascending_distinct(keys);
                    }
                    assert(entry_map(entries@) =~= entry_map(before).insert(k, v));
                }
            },
            None => {
                entries.insert(i, (key, value));
                proof {
                    let after = entry_keys(entries@);
                    assert(after =~= keys.insert(i as int, k));
                    assert forall|a: int, b: int| 0 <= a < b < after.len() implies text_before(
                        #[trigger] after[a],
                        #[trigger] after[b],
                    ) by {
                        if b == i {
                            assert(after[a] == keys[a]);
                        } else if a == i {
                            assert(after[b] == keys[b - 1]);
                            assert(!text_before(keys[b - 1], k));
                            assert(keys.contains(keys[b - 1]));
                            crate::text::text_before_total(keys[b - 1], k);
                        } else {
                            let x = if a < i {
                                a
                            } else {
                                a - 1
                            };
                            let y = if b < i {
                                b
                            } else {
                                b - 1
                            };
                            assert(after[a] == keys[x] && after[b] == keys[y]);
                        }
                    }
                    entry_map_holds(entries@);
                    assert(after[i as int] == k);
                    assert forall|q: Seq<char>| #[trigger] entry_map(entries@).contains_key(q)
                        == entry_map(before).insert(k, v).contains_key(q) by {
                        if after.contains(q) {
                            let j = choose|j: int| 0 <= j < after.len() && after[j] == q;
                            if j < i {
                                assert(keys[j] == q);
                            } else if j > i {
                                assert(keys[j - 1] == q);
                            }
                        }
                        if keys.contains(q) {
                            let j = choose|j: int| 0 <= j < keys.len() && keys[j] == q;
                            if j < i {
                                assert(after[j] == q);
                            } else {
                                assert(after[j + 1] == q);
                            }
                        }
                    }
                    assert forall|q: Seq<char>| entry_map(entries@).contains_key(q) implies
                        #[trigger] entry_map(entries@)[q] == entry_map(before).insert(k, v)[q] by {
                        let j = choose|j: int| 0 <= j < after.len() && after[j] == q;
                        ascending_distinct(after);
                        if j < i {
                            assert(keys[j] == q);
                        } else if j > i {
                            assert(keys[j - 1] == q);
                        }
                    }
                    assert(entry_map(entries@) =~= entry_map(before).insert(k, v));
                }
            },
        }
        self.entries = entries;
    }

    /// Takes the entry at `key` out.
    pub fn remove(&mut self, key: &str) -> (r: Option<V>)
        ensures
            final(self)@ == old(self)@.remove(key@),
            match r {
                Some(v) => old(self)@.contains_key(key@) && v@ == old(self)@[key@],
                None => !old(self)@.contains_key(key@),
            },
    {
        proof {
            use_type_invariant(&*self);
            entry_map_holds(self.entries@);
        }
        let ghost before = self.entries@;
        let ghost keys = entry_keys(before);
        let found = self.find(key);
        match found {
            Some(n) => {
                let mut entries: Vec<(String, V)> = Vec::new();
                std::mem::swap(&mut entries, &mut self.entries);
                let e = entries.remove(n);
                proof {
                    let after = entry_keys(entries@);
                    assert(keys[n as int] == key@);
                    assert(after =~= keys.remove(n as int));
                    assert forall|a: int, b: int| 0 <= a < b < after.len() implies text_before(
                        #[trigger] after[a],
                        #[trigger] after[b],
                    ) by {
                        let x = if a < n {
                            a
                        } else {
                            a + 1
                        };
                        let y = if b < n {
                            b
                        } else {
                            b + 1
                        };
                        assert(after[a] == keys[x] && after[b] == keys[y]);
                    }
                    entry_map_holds(entries@);
                    ascending_distinct(keys);
                    assert forall|q: Seq<char>| #[trigger] entry_map(entries@).contains_key(q)
                        == entry_map(before).remove(key@).contains_key(q) by {
                        if after.contains(q) {
                            let j = choose|j: int| 0 <= j < after.len() && after[j] == q;
                            if j < n {
                                assert(keys[j] == q);
                            } else {
                                assert(keys[j + 1] == q);
                            }
                        }
                        if keys.contains(q) && q != key@ {
                            let j = choose|j: int| 0 <= j < keys.len() && keys[j] == q;
                            if j < n {
                                assert(after[j] == q);
                            } else {
                                assert(after[j - 1] == q);
                            }
                        }
                    }
                    assert forall|q: Seq<char>| entry_map(entries@).contains_key(q) implies
                        #[trigger] entry_map(entries@)[q] == entry_map(before)[q] by {
                        let j = choose|j: int| 0 <= j < after.len() && after[j] == q;
                        if j < n {
                            assert(keys[j] == q);
                        } else {
                            assert(keys[j + 1] == q);
                        }
                    }
                    assert(entry_map(entries@) =~= entry_map(before).remove(key@));
                }
                self.entries = entries;
                Some(e.1)
            },
            None => {
                assert(self@ =~= self@.remove(key@));
                None
            },
        }
    }
}

impl<V: Duplicate> Duplicate for TextMap<V> {
    fn duplicate(&self) -> (r: Self) {
        let mut r: TextMap<V> = TextMap::new();
        let n = self.len();
        let ghost keys = sorted_keys(self@.dom());
        let mut i: usize = 0;
        while i < n
            invariant
                i <= n,
                n == self@.dom().len(),
                n == keys.len(),
                keys == sorted_keys(self@.dom()),
                r@.dom() == keys.take(i as int).to_set(),
                forall|k: Seq<char>| #[trigger] r@.contains_key(k) ==> r@[k] == self@[k],
            decreases n - i,
        {
            let (key, value) = self.at(i);
            assert(keys.take(i + 1) =~= keys.take(i as int).push(keys[i as int]));
            let ghost before = r@;
            r.insert(key.clone(), value.duplicate());
            assert forall|k: Seq<char>|
                #[trigger] r@.dom().contains(k) <==> keys.take(i + 1).to_set().contains(k) by {
                push_contains(keys.take(i as int), keys[i as int], k);
                assert(before.dom().contains(k) <==> keys.take(i as int).contains(k));
            }
            assert(r@.dom() =~= keys.take(i + 1).to_set());
            i = i + 1;
        }
        assert(keys.take(n as int) =~= keys);
        assert(r@ =~= self@);
        r
    }
}

/// What the items of a list stand for.
pub open spec fn models<T: View>(items: Seq<T>) -> Seq<T::V> {
    items.map_values(|item: T| item@)
}

/// Items with a rank. Items of the same rank need not be equal.
pub trait Ranked: View + Sized {
    /// `a` has a lower rank than `b`.
    spec fn before(a: Self::V, b: Self::V) -> bool;

    /// Of two items at most one comes before the other.
    proof fn before_one_way(a: Self::V, b: Self::V)
        requires
            Self::before(a, b),
        ensures
            !Self::before(b, a),
    ;

    /// What does not come before something that does not come before a third
    /// thing does not come before that third thing.
    proof fn not_before_chain(a: Self::V, b: Self::V, c: Self::V)
        requires
            !Self::before(a, b),
            !Self::before(b, c),
        ensures
            !Self::before(a, c),
    ;

    /// Whether this item comes before another.
    fn is_before(&self, other: &Self) -> (r: bool)
        ensures
            r == Self::before(self@, other@),
    ;
}

/// Position `i` of a list goes before position `j`: by rank, and within a
/// rank by position.
pub open spec fn goes_first<T: Ranked>(items: Seq<T::V>, i: int, j: int) -> bool {
    T::before(items[i], items[j]) || (!T::before(items[j], items[i]) && i < j)
}

/// The positions `order` of a list stand by rank, and within a rank as in the
/// list.
pub open spec fn in_rank_order<T: Ranked>(items: Seq<T::V>, order: Seq<usize>) -> bool {
    forall|a: int, b: int|
        0 <= a < b < order.len() ==> goes_first::<T>(
            items,
            #[trigger] order[a] as int,
            #[trigger] order[b] as int,
        )
}

/// The order of positions is transitive.
proof fn goes_first_chain<T: Ranked>(items: Seq<T::V>, i: int, j: int, k: int)
    requires
        goes_first::<T>(items, i, j),
        goes_first::<T>(items, j, k),
    ensures
        goes_first::<T>(items, i, k),
{
    let a = items[i];
    let b = items[j];
    let c = items[k];
    if T::before(a, b) {
        T::before_one_way(a, b);
    }
    if T::before(b, c) {
        T::before_one_way(b, c);
    }
    if !T::before(a, c) && T::before(a, b) {
        T::not_before_chain(a, c, b);
    }
    if !T::before(a, c) && T::before(b, c) {
        T::not_before_chain(b, a, c);
    }
    if !T::before(b, a) && !T::before(c, b) {
        T::not_before_chain(c, b, a);
    }
}

/// Joins two rows of positions that stand in order.
fn merge_order<T: Ranked>(items: &Vec<T>, left: Vec<usize>, right: Vec<usize>) -> (r: Vec<usize>)
    requires
        forall|i: int| 0 <= i < left.len() ==> #[trigger] left[i] < items.len(),
        forall|i: int| 0 <= i < right.len() ==> #[trigger] right[i] < items.len(),
        forall|i: int, j: int|
            0 <= i < left.len() && 0 <= j < right.len() ==> #[trigger] left[i] < #[trigger] right[j],
        in_rank_order::<T>(models(items@), left@),
        in_rank_order::<T>(models(items@), right@),
        left.len() + right.len() <= items.len(),
    ensures
        r.len() == left.len() + right.len(),
        forall|x: usize| #[trigger] r@.contains(x) <==> left@.contains(x) || right@.contains(x),
        in_rank_order::<T>(models(items@), r@),
{
    let ghost vs = models(items@);
    let mut r: Vec<usize> = Vec::new();
    let mut i: usize = 0;
    let mut j: usize = 0;
    while i < left.len() || j < right.len()
        invariant
            i <= left.len(),
            j <= right.len(),
            vs == models(items@),
            left.len() + right.len() <= items.len(),
            forall|n: int| 0 <= n < left.len() ==> #[trigger] left[n] < items.len(),
            forall|n: int| 0 <= n < right.len() ==> #[trigger] right[n] < items.len(),
            forall|a: int, b: int|
                0 <= a < left.len() && 0 <= b < right.len() ==> #[trigger] left[a]
                    < #[trigger] right[b],
            in_rank_order::<T>(vs, left@),
            in_rank_order::<T>(vs, right@),
            in_rank_order::<T>(vs, r@),
            r.len() == i + j,
            forall|x: usize| #[trigger]
                r@.contains(x) <==> left@.take(i as int).contains(x) || right@.take(
                    j as int,
                ).contains(x),
            forall|a: int, b: int|
                0 <= a < r.len() && i <= b < left.len() ==> goes_first::<T>(
                    vs,
                    #[trigger] r[a] as int,
                    #[trigger] left[b] as int,
                ),
            forall|a: int, b: int|
                0 <= a < r.len() && j <= b < right.len() ==> goes_first::<T>(
                    vs,
                    #[trigger] r[a] as int,
                    #[trigger] right[b] as int,
                ),
        decreases left.len() - i + (right.len() - j),
    {
        let ghost before = r@;
        let take_left = if i == left.len() {
            false
        } else if j == right.len() {
            true
        } else {
            let x = &items[left[i]];
            let y = &items[right[j]];
            assert(vs[left[i as int] as int] == x@ && vs[right[j as int] as int] == y@);
            !y.is_before(x)
        };
        if take_left {
            let x = left[i];
            r.push(x);
            proof {
                assert(left@.take(i + 1) =~= left@.take(i as int).push(x));
                assert forall|z: usize| #[trigger] r@.contains(z) <==> left@.take(
                    i + 1,
                ).contains(z) || right@.take(j as int).contains(z) by {
                    push_contains(before, x, z);
                    push_contains(left@.take(i as int), x, z);
                }
                if j < right.len() {
                    assert(left[i as int] < right[j as int]);
                    assert(goes_first::<T>(vs, x as int, right[j as int] as int));
                    assert forall|b: int| j <= b < right.len() implies goes_first::<T>(
                        vs,
                        x as int,
                        #[trigger] right[b] as int,
                    ) by {
                        if b > j {
                            goes_first_chain::<T>(
                                vs,
                                x as int,
                                right[j as int] as int,
                                right[b] as int,
                            );
                        }
                    }
                }
            }
            i = i + 1;
        } else {
            let y = right[j];
            r.push(y);
            proof {
                assert(right@.take(j + 1) =~= right@.take(j as int).push(y));
                assert forall|z: usize| #[trigger] r@.contains(z) <==> left@.take(
                    i as int,
                ).contains(z) || right@.take(j + 1).contains(z) by {
                    push_contains(before, y, z);
                    push_contains(right@.take(j as int), y, z);
                }
                if i < left.len() {
                    assert(goes_first::<T>(vs, y as int, left[i as int] as int));
                    assert forall|b: int| i <= b < left.len() implies goes_first::<T>(
                        vs,
                        y as int,
                        #[trigger] left[b] as int,
                    ) by {
                        if b > i {
                            goes_first_chain::<T>(
                                vs,
                                y as int,
                                left[i as int] as int,
                                left[b] as int,
                            );
                        }
                    }
                }
            }
            j = j + 1;
        }
    }
    assert(left@.take(left.len() as int) =~= left@);
    assert(right@.take(right.len() as int) =~= right@);
    r
}

/// What a row holds after one item more.
pub proof fn push_contains<A>(s: Seq<A>, x: A, z: A)
    ensures
        s.push(x).contains(z) <==> s.contains(z) || x == z,
{
    if s.contains(z) {
        let i = choose|i: int| 0 <= i < s.len() && s[i] == z;
        assert(s.push(x)[i] == z);
    }
    assert(s.push(x)[s.len() as int] == x);
    if s.push(x).contains(z) {
        let i = choose|i: int| 0 <= i < s.push(x).len() && s.push(x)[i] == z;
        if i < s.len() {
            assert(s[i] == z);
        }
    }
}

/// The positions from `low` up to `high` in order.
fn order_of_range<T: Ranked>(items: &Vec<T>, low: usize, high: usize) -> (r: Vec<usize>)
    requires
        low <= high <= items.len(),
    ensures
        r.len() == high - low,
        forall|x: usize| #[trigger] r@.contains(x) <==> low <= x < high,
        in_rank_order::<T>(models(items@), r@),
    decreases high - low,
{
    let mut r: Vec<usize> = Vec::new();
    if low == high {
        return r;
    }
    if high - low == 1 {
        r.push(low);
        assert(r@[0] == low);
        return r;
    }
    let mid: usize = low + (high - low) / 2;
    let left = order_of_range(items, low, mid);
    let right = order_of_range(items, mid, high);
    proof {
        assert forall|i: int| 0 <= i < left.len() implies low <= #[trigger] left[i] < mid by {
            assert(left@.contains(left[i]));
        }
        assert forall|i: int| 0 <= i < right.len() implies mid <= #[trigger] right[i] < high by {
            assert(right@.contains(right[i]));
        }
    }
    merge_order(items, left, right)
}

/// The positions of a list by rank, and within a rank as in the list.
pub fn rank_order<T: Ranked>(items: &Vec<T>) -> (r: Vec<usize>)
    ensures
        r.len() == items.len(),
        forall|x: usize| #[trigger] r@.contains(x) <==> x < items.len(),
        in_rank_order::<T>(models(items@), r@),
{
    order_of_range(items, 0, items.len())
}

/// Ranked items of which no two different ones share a rank.
pub trait Distinct: Ranked + Duplicate {
    /// Two items of the same rank are the same.
    proof fn same_rank(a: Self::V, b: Self::V)
        requires
            !Self::before(a, b),
            !Self::before(b, a),
        ensures
            a == b,
    ;
}

/// Each item of a row comes before every later one.
pub open spec fn strictly_ranked<T: Ranked>(items: Seq<T::V>) -> bool {
    forall|i: int, j: int|
        0 <= i < j < items.len() ==> T::before(#[trigger] items[i], #[trigger] items[j])
}

/// The items of a finite set in ascending order.
pub open spec fn ranked<T: Ranked>(items: Set<T::V>) -> Seq<T::V> {
    choose|s: Seq<T::V>| strictly_ranked::<T>(s) && s.to_set() == items
}

/// Two ascending rows of the same items are the same row.
proof fn ranked_unique<T: Ranked>(s: Seq<T::V>, t: Seq<T::V>)
    requires
        strictly_ranked::<T>(s),
        strictly_ranked::<T>(t),
        s.to_set() == t.to_set(),
    ensures
        s == t,
    decreases s.len(),
{
    if s.len() == 0 {
        if t.len() > 0 {
            assert(t.to_set().contains(t[0]));
            assert(s.to_set().contains(t[0]));
        }
        assert(s =~= t);
    } else {
        assert(s.to_set().contains(s[0]));
        assert(t.contains(s[0]));
        let n = choose|n: int| 0 <= n < t.len() && t[n] == s[0];
        assert(t.to_set().contains(t[0]));
        assert(s.contains(t[0]));
        let m = choose|m: int| 0 <= m < s.len() && s[m] == t[0];
        if n != 0 && m != 0 {
            assert(T::before(t[0], t[n]));
            assert(T::before(s[0], s[m]));
            T::before_one_way(t[0], s[0]);
        }
        assert(s[0] == t[0]);
        let s1 = s.drop_first();
        let t1 = t.drop_first();
        assert forall|k: T::V| #[trigger] s1.to_set().contains(k) == t1.to_set().contains(k) by {
            if s1.contains(k) {
                let i = choose|i: int| 0 <= i < s1.len() && s1[i] == k;
                assert(s[i + 1] == k);
                assert(T::before(s[0], s[i + 1]));
                assert(s.to_set().contains(k));
                assert(t.contains(k));
                let j = choose|j: int| 0 <= j < t.len() && t[j] == k;
                if j == 0 {
                    T::before_one_way(s[0], s[i + 1]);
                }
                assert(t1[j - 1] == k);
            }
            if t1.contains(k) {
                let i = choose|i: int| 0 <= i < t1.len() && t1[i] == k;
                assert(t[i + 1] == k);
                assert(T::before(t[0], t[i + 1]));
                assert(t.to_set().contains(k));
                assert(s.contains(k));
                let j = choose|j: int| 0 <= j < s.len() && s[j] == k;
                if j == 0 {
                    T::before_one_way(t[0], t[i + 1]);
                }
                assert(s1[j - 1] == k);
            }
        }
        assert(s1.to_set() =~= t1.to_set());
        ranked_unique::<T>(s1, t1);
        assert(s =~= seq![s[0]] + s1);
        assert(t =~= seq![t[0]] + t1);
    }
}

/// An ascending row of the items of a set is the ranked row of that set.
pub proof fn ranked_are<T: Ranked>(s: Seq<T::V>, items: Set<T::V>)
    requires
        strictly_ranked::<T>(s),
        s.to_set() == items,
    ensures
        ranked::<T>(items) == s,
{
    ranked_unique::<T>(ranked::<T>(items), s);
}

/// Coming before is transitive.
proof fn before_chain<T: Ranked>(a: T::V, b: T::V, c: T::V)
    requires
        T::before(a, b),
        T::before(b, c),
    ensures
        T::before(a, c),
{
    T::before_one_way(b, c);
    if !T::before(a, c) {
        T::not_before_chain(a, c, b);
    }
}

/// The different items of a list in ascending order.
pub fn sorted_set<T: Distinct>(items: &Vec<T>) -> (r: Vec<T>)
    ensures
        strictly_ranked::<T>(models(r@)),
        models(r@).to_set() == models(items@).to_set(),
{
    let order = rank_order(items);
    let ghost vs = models(items@);
    let mut r: Vec<T> = Vec::new();
    let mut n: usize = 0;
    while n < order.len()
        invariant
            n <= order.len(),
            vs == models(items@),
            in_rank_order::<T>(vs, order@),
            forall|x: usize| #[trigger] order@.contains(x) <==> x < items.len(),
            strictly_ranked::<T>(models(r@)),
            forall|i: int|
                0 <= i < r.len() ==> exists|k: int|
                    0 <= k < n && vs[order[k] as int] == #[trigger] models(r@)[i],
            forall|k: int| 0 <= k < n ==> models(r@).contains(#[trigger] vs[order[k] as int]),
            r.len() > 0 ==> n > 0,
            n > 0 ==> r.len() > 0 && models(r@).last() == vs[order[n - 1] as int],
        decreases order.len() - n,
    {
        assert(order@.contains(order@[n as int]));
        let item = &items[order[n]];
        assert(vs[order[n as int] as int] == item@);
        let fresh = r.len() == 0 || r[r.len() - 1].is_before(item);
        let ghost before = models(r@);
        if fresh {
            r.push(item.duplicate());
            proof {
                assert(models(r@) =~= before.push(item@));
                assert forall|i: int, j: int| 0 <= i < j < models(r@).len() implies T::before(
                    #[trigger] models(r@)[i],
                    #[trigger] models(r@)[j],
                ) by {
                    if j == before.len() && i < before.len() - 1 {
                        before_chain::<T>(before[i], before.last(), item@);
                    }
                }
                assert forall|k: int| 0 <= k < n + 1 implies models(r@).contains(
                    #[trigger] vs[order[k] as int],
                ) by {
                    push_contains(before, item@, vs[order[k] as int]);
                }
                assert forall|i: int| 0 <= i < r.len() implies exists|k: int|
                    0 <= k < n + 1 && vs[order[k] as int] == #[trigger] models(r@)[i] by {
                    if i < before.len() {
                        let k = choose|k: int| 0 <= k < n && vs[order[k] as int] == before[i];
                        assert(vs[order[k] as int] == models(r@)[i]);
                    } else {
                        assert(vs[order[n as int] as int] == models(r@)[i]);
                    }
                }
            }
        } else {
            proof {
                let last = order[n - 1] as int;
                assert(goes_first::<T>(vs, last, order[n as int] as int));
                T::same_rank(vs[last], item@);
                assert(models(r@)[r.len() - 1] == item@);
            }
        }
        n = n + 1;
    }
    proof {
        assert forall|v: T::V| models(r@).to_set().contains(v) == vs.to_set().contains(v) by {
            if models(r@).contains(v) {
                let i = choose|i: int| 0 <= i < models(r@).len() && models(r@)[i] == v;
                let k = choose|k: int|
                    0 <= k < n && vs[order[k] as int] == models(r@)[i];
                assert(order@.contains(order@[k]));
                assert(vs.contains(v));
            }
            if vs.contains(v) {
                let i = choose|i: int| 0 <= i < vs.len() && vs[i] == v;
                assert(order@.contains(i as usize));
                let k = choose|k: int| 0 <= k < order.len() && order[k] == i as usize;
                assert(vs[order[k] as int] == v);
            }
        }
        assert(models(r@).to_set() =~= vs.to_set());
    }
    r
}

/// Whether an ascending list holds an item.
pub fn holds_item<T: Distinct>(items: &Vec<T>, item: &T) -> (r: bool)
    requires
        strictly_ranked::<T>(models(items@)),
    ensures
        r == models(items@).contains(item@),
{
    let ghost vs = models(items@);
    let mut low: usize = 0;
    let mut high: usize = items.len();
    while low < high
        invariant
            low <= high <= items.len(),
            vs == models(items@),
            strictly_ranked::<T>(vs),
            forall|i: int| 0 <= i < low ==> T::before(#[trigger] vs[i], item@),
            forall|i: int| high <= i < vs.len() ==> !T::before(#[trigger] vs[i], item@),
        decreases high - low,
    {
        let mid: usize = low + (high - low) / 2;
        assert(vs[mid as int] == items[mid as int]@);
        if items[mid].is_before(item) {
            assert forall|i: int| 0 <= i < mid + 1 implies T::before(#[trigger] vs[i], item@) by {
                if i < mid {
                    before_chain::<T>(vs[i], vs[mid as int], item@);
                }
            }
            low = mid + 1;
        } else {
            assert forall|i: int| mid <= i < vs.len() implies !T::before(
                #[trigger] vs[i],
                item@,
            ) by {
                if i > mid && T::before(vs[i], item@) {
                    before_chain::<T>(vs[mid as int], vs[i], item@);
                }
            }
            high = mid;
        }
    }
    let found = low < items.len() && !item.is_before(&items[low]);
    proof {
        if low < items.len() {
            assert(vs[low as int] == items[low as int]@);
            if found {
                T::same_rank(vs[low as int], item@);
            }
        }
        if vs.contains(item@) {
            let k = choose|k: int| 0 <= k < vs.len() && vs[k] == item@;
            if k < low {
                T::before_one_way(vs[k], item@);
            } else {
                if low < k {
                    assert(T::before(vs[low as int], vs[k]));
                }
                if T::before(item@, item@) {
                    T::before_one_way(item@, item@);
                }
            }
        }
    }
    found
}

/// The items of one ascending list that another does not hold, in ascending
/// order.
pub fn difference<T: Distinct>(items: &Vec<T>, others: &Vec<T>) -> (r: Vec<T>)
    requires
        strictly_ranked::<T>(models(items@)),
        strictly_ranked::<T>(models(others@)),
    ensures
        strictly_ranked::<T>(models(r@)),
        models(r@).to_set() == models(items@).to_set().difference(models(others@).to_set()),
{
    let ghost vs = models(items@);
    let ghost ws = models(others@);
    let mut r: Vec<T> = Vec::new();
    let mut n: usize = 0;
    while n < items.len()
        invariant
            n <= items.len(),
            vs == models(items@),
            ws == models(others@),
            strictly_ranked::<T>(vs),
            strictly_ranked::<T>(ws),
            strictly_ranked::<T>(models(r@)),
            forall|i: int, j: int|
                0 <= i < r.len() && n <= j < vs.len() ==> T::before(
                    #[trigger] models(r@)[i],
                    #[trigger] vs[j],
                ),
            forall|v: T::V| #[trigger]
                models(r@).contains(v) <==> vs.take(n as int).contains(v) && !ws.contains(v),
        decreases items.len() - n,
    {
        let item = &items[n];
        assert(vs[n as int] == item@);
        assert(vs.take(n + 1) =~= vs.take(n as int).push(item@));
        let ghost before = models(r@);
        if !holds_item(others, item) {
            r.push(item.duplicate());
            assert(models(r@) =~= before.push(item@));
        }
        proof {
            assert forall|v: T::V| #[trigger] models(r@).contains(v) <==> vs.take(n + 1).contains(v)
                && !ws.contains(v) by {
                push_contains(before, item@, v);
                push_contains(vs.take(n as int), item@, v);
            }
        }
        n = n + 1;
    }
    assert(vs.take(vs.len() as int) =~= vs);
    assert(models(r@).to_set() =~= vs.to_set().difference(ws.to_set()));
    r
}

impl Duplicate for u32 {
    fn duplicate(&self) -> (r: Self) {
        *self
    }
}

impl Ranked for u32 {
    open spec fn before(a: u32, b: u32) -> bool {
        a < b
    }

    proof fn before_one_way(a: u32, b: u32) {
    }

    proof fn not_before_chain(a: u32, b: u32, c: u32) {
    }

    fn is_before(&self, other: &Self) -> (r: bool) {
        *self < *other
    }
}

impl Distinct for u32 {
    proof fn same_rank(a: u32, b: u32) {
    }
}

/// The keys of a map in ascending order.
pub fn ordered_keys(m: &BTreeMap<u32, u32>) -> (r: Vec<u32>)
    ensures
        r@ == ranked::<u32>(m@.dom()),
        r@.to_set() == m@.dom(),
{
    broadcast use vstd::laws_cmp::group_laws_cmp;

    let mut keys: Vec<u32> = Vec::new();
    for k in it: m.keys()
        invariant
            it.seq().unref().to_set() == m@.dom(),
            forall|u: u32| #[trigger]
                m@.dom().contains(u) ==> exists|j: int|
                    0 <= j < it.seq().len() && #[trigger] it.seq().unref()[j] == u,
            forall|j: int|
                0 <= j < it.seq().len() ==> m@.dom().contains(#[trigger] it.seq().unref()[j]),
            keys.len() == it.index(),
            forall|j: int| 0 <= j < it.index() ==> #[trigger] it.seq().unref()[j] == keys[j],
            forall|j: int| 0 <= j < it.index() ==> m@.dom().contains(#[trigger] keys[j]),
    {
        keys.push(*k);
    }
    assert forall|u: u32| #[trigger] m@.dom().contains(u) implies keys@.contains(u) by {}
    assert(keys@.to_set() =~= m@.dom());
    let r = sorted_set(&keys);
    assert(models(keys@) =~= keys@);
    assert(models(r@) =~= r@);
    proof {
        ranked_are::<u32>(r@, m@.dom());
    }
    r
}

/// A row in ascending order with one item more.
proof fn insert_ranked<T: Distinct>(s: Seq<T::V>, v: T::V) -> (t: Seq<T::V>)
    requires
        strictly_ranked::<T>(s),
        !s.contains(v),
    ensures
        strictly_ranked::<T>(t),
        forall|x: T::V| #[trigger] t.contains(x) <==> s.contains(x) || x == v,
    decreases s.len(),
{
    if s.len() == 0 {
        let t = seq![v];
        assert(t[0] == v);
        t
    } else {
        let last = s.last();
        assert(s.contains(s[s.len() - 1]));
        if T::before(last, v) {
            let t = s.push(v);
            assert forall|i: int, j: int| 0 <= i < j < t.len() implies T::before(
                #[trigger] t[i],
                #[trigger] t[j],
            ) by {
                if j == s.len() && i < s.len() - 1 {
                    assert(T::before(s[i], s[s.len() - 1]));
                    before_chain::<T>(s[i], last, v);
                }
            }
            assert forall|x: T::V| #[trigger] t.contains(x) <==> s.contains(x) || x == v by {
                push_contains(s, v, x);
            }
            t
        } else {
            if !T::before(v, last) {
                T::same_rank(v, last);
            }
            let rest = s.drop_last();
            assert(s =~= rest.push(last));
            if rest.contains(v) {
                push_contains(rest, last, v);
            }
            let u = insert_ranked::<T>(rest, v);
            let t = u.push(last);
            assert forall|i: int, j: int| 0 <= i < j < t.len() implies T::before(
                #[trigger] t[i],
                #[trigger] t[j],
            ) by {
                if j == u.len() {
                    assert(u.contains(u[i]));
                    if u[i] != v {
                        let n = choose|n: int| 0 <= n < rest.len() && rest[n] == u[i];
                        assert(T::before(s[n], s[s.len() - 1]));
                    }
                } else {
                    assert(T::before(u[i], u[j]));
                }
            }
            assert forall|x: T::V| #[trigger] t.contains(x) <==> s.contains(x) || x == v by {
                push_contains(u, last, x);
                push_contains(rest, last, x);
            }
            t
        }
    }
}

/// A finite set has a row of its items in ascending order.
proof fn ranked_row<T: Distinct>(items: Set<T::V>) -> (s: Seq<T::V>)
    requires
        items.finite(),
    ensures
        strictly_ranked::<T>(s),
        s.to_set() == items,
    decreases items.len(),
{
    if items.is_empty() {
        let s = Seq::<T::V>::empty();
        assert(s.to_set() =~= items);
        s
    } else {
        let v = items.choose();
        let rest = ranked_row::<T>(items.remove(v));
        if rest.contains(v) {
            assert(rest.to_set().contains(v));
        }
        let s = insert_ranked::<T>(rest, v);
        assert forall|x: T::V| s.to_set().contains(x) == items.contains(x) by {
            assert(s.contains(x) <==> rest.contains(x) || x == v);
            assert(rest.to_set().contains(x) == items.remove(v).contains(x));
        }
        assert(s.to_set() =~= items);
        s
    }
}

/// The ranked row of a finite set holds each of its items once, and no others.
pub proof fn ranked_of<T: Distinct>(items: Set<T::V>)
    requires
        items.finite(),
    ensures
        strictly_ranked::<T>(ranked::<T>(items)),
        ranked::<T>(items).to_set() == items,
{
    let s = ranked_row::<T>(items);
    ranked_are::<T>(s, items);
}

} // verus!
