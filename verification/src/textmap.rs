//! Maps and sets keyed by text.

use crate::text::same;
use vstd::prelude::*;

verus! {

/// A map from texts: the last entry of a key is its value.
pub struct TextMap<V> {
    pub entries: Vec<(String, V)>,
}

/// The map that a row of entries stands for.
pub open spec fn entries_map<V>(s: Seq<(String, V)>) -> Map<Seq<char>, V>
    decreases s.len(),
{
    if s.len() == 0 {
        Map::empty()
    } else {
        entries_map(s.drop_last()).insert(s.last().0@, s.last().1)
    }
}

impl<V> View for TextMap<V> {
    type V = Map<Seq<char>, V>;

    open spec fn view(&self) -> Map<Seq<char>, V> {
        entries_map(self.entries@)
    }
}

proof fn lemma_entries_last<V>(s: Seq<(String, V)>, i: int)
    requires
        0 <= i < s.len(),
        forall|j: int| i < j < s.len() ==> (#[trigger] s[j]).0@ != s[i].0@,
    ensures
        entries_map(s).dom().contains(s[i].0@),
        entries_map(s)[s[i].0@] == s[i].1,
    decreases s.len(),
{
    if i < s.len() - 1 {
        let t = s.drop_last();
        assert(forall|j: int| i < j < t.len() ==> (#[trigger] t[j]) == s[j]);
        lemma_entries_last(t, i);
        assert(s[s.len() - 1].0@ != s[i].0@);
    }
}

proof fn lemma_entries_none<V>(s: Seq<(String, V)>, key: Seq<char>)
    requires
        forall|j: int| 0 <= j < s.len() ==> (#[trigger] s[j]).0@ != key,
    ensures
        !entries_map(s).dom().contains(key),
    decreases s.len(),
{
    if s.len() > 0 {
        let t = s.drop_last();
        assert(forall|j: int| 0 <= j < t.len() ==> (#[trigger] t[j]) == s[j]);
        lemma_entries_none(t, key);
        assert(s[s.len() - 1].0@ != key);
    }
}

/// A key of a map has an entry.
pub proof fn lemma_entries_key<V>(s: Seq<(String, V)>, key: Seq<char>)
    requires
        entries_map(s).dom().contains(key),
    ensures
        exists|k: int| 0 <= k < s.len() && (#[trigger] s[k]).0@ == key,
    decreases s.len(),
{
    if s.len() > 0 {
        if s.last().0@ == key {
            assert(s[s.len() - 1].0@ == key);
        } else {
            lemma_entries_key(s.drop_last(), key);
            let k = choose|k: int| 0 <= k < s.len() - 1 && (#[trigger] s.drop_last()[k]).0@ == key;
            assert(s[k].0@ == key);
        }
    }
}

/// The key of an entry is a key of the map.
pub proof fn lemma_entries_has<V>(s: Seq<(String, V)>, k: int)
    requires
        0 <= k < s.len(),
    ensures
        entries_map(s).dom().contains(s[k].0@),
    decreases s.len(),
{
    if k < s.len() - 1 {
        lemma_entries_has(s.drop_last(), k);
    }
}

proof fn lemma_entries_update<V>(s: Seq<(String, V)>, i: int, e: (String, V))
    requires
        0 <= i < s.len(),
        e.0@ == s[i].0@,
        forall|j: int| i < j < s.len() ==> (#[trigger] s[j]).0@ != s[i].0@,
    ensures
        entries_map(s.update(i, e)) == entries_map(s).insert(e.0@, e.1),
    decreases s.len(),
{
    let t = s.drop_last();
    if i < s.len() - 1 {
        assert(forall|j: int| i < j < t.len() ==> (#[trigger] t[j]) == s[j]);
        lemma_entries_update(t, i, e);
        assert(s.update(i, e).drop_last() == t.update(i, e));
        assert(s[s.len() - 1].0@ != s[i].0@);
        assert(entries_map(s.update(i, e)) == entries_map(t).insert(e.0@, e.1).insert(s.last().0@, s.last().1));
        assert(entries_map(s.update(i, e)) == entries_map(s).insert(e.0@, e.1));
    } else {
        assert(s.update(i, e).drop_last() == t);
        assert(entries_map(s.update(i, e)) == entries_map(s).insert(e.0@, e.1));
    }
}

impl<V> TextMap<V> {
    pub fn new() -> (r: Self)
        ensures
            r@ == Map::<Seq<char>, V>::empty(),
            r.entries@.len() == 0,
    {
        TextMap { entries: Vec::new() }
    }

    /// The place of a key's last entry.
    fn place(&self, key: &str) -> (r: Option<usize>)
        ensures
            match r {
                Some(i) => i < self.entries@.len() && self.entries@[i as int].0@ == key@ && forall|j: int|
                    i < j < self.entries@.len() ==> (#[trigger] self.entries@[j]).0@ != key@,
                None => forall|j: int|
                    0 <= j < self.entries@.len() ==> (#[trigger] self.entries@[j]).0@ != key@,
            },
    {
        let mut i: usize = self.entries.len();
        while i > 0
            invariant
                i <= self.entries@.len(),
                forall|j: int|
                    i <= j < self.entries@.len() ==> (#[trigger] self.entries@[j]).0@ != key@,
            decreases i,
        {
            if same(&self.entries[i - 1].0, key) {
                return Some(i - 1);
            }
            i = i - 1;
        }
        None
    }

    pub fn insert(&mut self, key: String, value: V)
        ensures
            final(self)@ == old(self)@.insert(key@, value),
    {
        match self.place(&key) {
            Some(i) => {
                proof {
                    lemma_entries_update(self.entries@, i as int, (key, value));
                }
                self.entries.set(i, (key, value));
            },
            None => {
                let ghost before = self.entries@;
                self.entries.push((key, value));
                assert(self.entries@.drop_last() == before);
            },
        }
    }

    pub fn get(&self, key: &str) -> (r: Option<&V>)
        ensures
            match r {
                Some(v) => self@.dom().contains(key@) && self@[key@] == *v,
                None => !self@.dom().contains(key@),
            },
    {
        match self.place(key) {
            Some(i) => {
                proof {
                    lemma_entries_last(self.entries@, i as int);
                }
                Some(&self.entries[i].1)
            },
            None => {
                proof {
                    lemma_entries_none(self.entries@, key@);
                }
                None
            },
        }
    }

    pub fn contains(&self, key: &str) -> (r: bool)
        ensures
            r == self@.dom().contains(key@),
    {
        self.get(key).is_some()
    }

    /// Takes a key out, with its value.
    pub fn remove(&mut self, key: &str) -> (r: Option<V>)
        ensures
            final(self)@ == old(self)@.remove(key@),
            match r {
                Some(v) => old(self)@.dom().contains(key@) && old(self)@[key@] == v,
                None => !old(self)@.dom().contains(key@),
            },
    {
        let ghost start = self.entries@;
        let mut taken: Option<V> = None;
        let mut at = self.place(key);
        proof {
            if let Some(i) = at {
                lemma_entries_last(start, i as int);
            } else {
                lemma_entries_none(start, key@);
            }
        }
        while at.is_some()
            invariant
                entries_map(self.entries@).remove(key@) == entries_map(start).remove(key@),
                match taken {
                    Some(v) => entries_map(start).dom().contains(key@) && entries_map(start)[key@] == v,
                    None => self.entries@ == start,
                },
                taken is None && at is None ==> !entries_map(start).dom().contains(key@),
                match at {
                    Some(i) => i < self.entries@.len() && self.entries@[i as int].0@ == key@ && forall|j: int|
                        i < j < self.entries@.len() ==> (#[trigger] self.entries@[j]).0@ != key@,
                    None => forall|j: int|
                        0 <= j < self.entries@.len() ==> (#[trigger] self.entries@[j]).0@ != key@,
                },
            decreases self.entries@.len(),
        {
            if let Some(i) = at {
                proof {
                    lemma_entries_removed(self.entries@, i as int);
                    lemma_entries_last(self.entries@, i as int);
                }
                let e = self.entries.remove(i);
                if taken.is_none() {
                    taken = Some(e.1);
                }
            }
            at = self.place(key);
        }
        proof {
            lemma_entries_none(self.entries@, key@);
            assert(entries_map(self.entries@) =~= entries_map(self.entries@).remove(key@));
        }
        taken
    }
}

/// Without one entry, a map is the same but for that entry's key.
proof fn lemma_entries_removed<V>(s: Seq<(String, V)>, i: int)
    requires
        0 <= i < s.len(),
    ensures
        entries_map(s.remove(i)).remove(s[i].0@) == entries_map(s).remove(s[i].0@),
    decreases s.len(),
{
    let key = s[i].0@;
    if i == s.len() - 1 {
        assert(s.remove(i) =~= s.drop_last());
        assert(entries_map(s).remove(key) =~= entries_map(s.drop_last()).remove(key));
    } else {
        let t = s.drop_last();
        lemma_entries_removed(t, i);
        assert(s.remove(i).drop_last() =~= t.remove(i));
        assert(s.remove(i).last() == s.last());
        let a = entries_map(t.remove(i));
        let b = entries_map(t);
        let (k, v) = (s.last().0@, s.last().1);
        assert(entries_map(s.remove(i)) == a.insert(k, v));
        if k == key {
            assert(a.insert(k, v).remove(key) =~= a.remove(key));
            assert(b.insert(k, v).remove(key) =~= b.remove(key));
        } else {
            assert(a.insert(k, v).remove(key) =~= a.remove(key).insert(k, v));
            assert(b.insert(k, v).remove(key) =~= b.remove(key).insert(k, v));
        }
    }
}

/// The keys that a set does not hold, as one more entry changes them.
proof fn lemma_keys_push<V>(s: Seq<(String, V)>, out: Set<Seq<char>>)
    requires
        s.len() > 0,
    ensures
        entries_map(s).dom().finite(),
        entries_map(s).dom().difference(out) == (if out.contains(s.last().0@) {
            entries_map(s.drop_last()).dom().difference(out)
        } else {
            entries_map(s.drop_last()).dom().difference(out).insert(s.last().0@)
        }),
{
    lemma_keys_finite(s);
    assert(entries_map(s).dom() =~= entries_map(s.drop_last()).dom().insert(s.last().0@));
    assert(entries_map(s).dom().difference(out) =~= (if out.contains(s.last().0@) {
        entries_map(s.drop_last()).dom().difference(out)
    } else {
        entries_map(s.drop_last()).dom().difference(out).insert(s.last().0@)
    }));
}

proof fn lemma_keys_finite<V>(s: Seq<(String, V)>)
    ensures
        entries_map(s).dom().finite(),
    decreases s.len(),
{
    if s.len() > 0 {
        lemma_keys_finite(s.drop_last());
        assert(entries_map(s).dom() =~= entries_map(s.drop_last()).dom().insert(s.last().0@));
    }
}

impl<V> TextMap<V> {
    /// How many keys another map does not have.
    pub fn missing_from<W>(&self, other: &TextMap<W>) -> (r: usize)
        ensures
            r == self@.dom().difference(other@.dom()).len(),
    {
        let mut n: usize = 0;
        let ghost all = self.entries@;
        let ghost out = other@.dom();
        proof {
            assert(all.take(0) =~= Seq::empty());
            assert(entries_map(all.take(0)).dom().difference(out) =~= Set::empty());
        }
        for i in 0..self.entries.len()
            invariant
                all == self.entries@,
                out == other@.dom(),
                n <= i,
                n == entries_map(all.take(i as int)).dom().difference(out).len(),
        {
            let ghost before = all.take(i as int);
            assert(all.take(i + 1).drop_last() =~= before);
            let mut seen = false;
            for j in 0..i
                invariant
                    i < self.entries@.len(),
                    seen <==> exists|k: int| 0 <= k < j && (#[trigger] self.entries@[k]).0@ == self.entries@[i as int].0@,
            {
                if same(&self.entries[j].0, &self.entries[i].0) {
                    assert(self.entries@[j as int].0@ == self.entries@[i as int].0@);
                    seen = true;
                }
            }
            proof {
                lemma_keys_push(all.take(i + 1), out);
                lemma_keys_finite(before);
                if seen {
                    let k = choose|k: int| 0 <= k < i && (#[trigger] self.entries@[k]).0@ == all[i as int].0@;
                    assert(before[k].0@ == all[i as int].0@);
                    lemma_entries_has(before, k);
                    assert(entries_map(before).dom().difference(out).insert(all[i as int].0@)
                        =~= entries_map(before).dom().difference(out) || out.contains(all[i as int].0@));
                } else {
                    assert forall|j: int| 0 <= j < before.len() implies (#[trigger] before[j]).0@
                        != all[i as int].0@ by {
                        assert(before[j] == self.entries@[j]);
                    }
                    lemma_entries_none(before, all[i as int].0@);
                }
            }
            if !seen && !other.contains(&self.entries[i].0) {
                n = n + 1;
            }
        }
        assert(all.take(self.entries@.len() as int) =~= all);
        n
    }

    /// How many keys the map has.
    pub fn count(&self) -> (r: usize)
        ensures
            r == self@.dom().len(),
    {
        let nothing: TextMap<bool> = TextMap::new();
        let n: usize = self.missing_from(&nothing);
        assert(self@.dom().difference(nothing@.dom()) =~= self@.dom());
        n
    }
}

/// A set of texts.
pub struct TextSet {
    pub items: Vec<String>,
}

/// The set that a row of texts stands for.
pub open spec fn items_set(s: Seq<String>) -> Set<Seq<char>> {
    Set::new(|x: Seq<char>| crate::text::texts(s).contains(x))
}

impl View for TextSet {
    type V = Set<Seq<char>>;

    open spec fn view(&self) -> Set<Seq<char>> {
        items_set(self.items@)
    }
}

impl TextSet {
    pub fn new() -> (r: Self)
        ensures
            r@ == Set::<Seq<char>>::empty(),
    {
        let r = TextSet { items: Vec::new() };
        assert(r@ == Set::<Seq<char>>::empty());
        r
    }

    pub fn contains(&self, x: &str) -> (r: bool)
        ensures
            r == self@.contains(x@),
    {
        crate::editor::holds(&self.items, x)
    }

    pub fn is_empty(&self) -> (r: bool)
        ensures
            r == (self@ == Set::<Seq<char>>::empty()),
    {
        proof {
            if self.items@.len() > 0 {
                assert(crate::text::texts(self.items@)[0] == self.items@[0]@);
                assert(self@.contains(self.items@[0]@));
                assert(!Set::<Seq<char>>::empty().contains(self.items@[0]@));
            } else {
                assert(self@ == Set::<Seq<char>>::empty());
            }
        }
        self.items.len() == 0
    }

    pub fn insert(&mut self, x: String)
        ensures
            final(self)@ == old(self)@.insert(x@),
    {
        let ghost before = crate::text::texts(self.items@);
        if !self.contains(&x) {
            self.items.push(x);
            proof {
                let after = crate::text::texts(self.items@);
                assert(after == before.push(x@));
                assert forall|y: Seq<char>| after.contains(y) <==> before.contains(y) || y == x@ by {
                    if before.contains(y) {
                        let w = choose|w: int| 0 <= w < before.len() && before[w] == y;
                        assert(after[w] == y);
                    }
                    if y == x@ {
                        assert(after[before.len() as int] == y);
                    }
                }
            }
        }
        assert(self@ == old(self)@.insert(x@));
    }

    pub fn remove(&mut self, x: &str)
        ensures
            final(self)@ == old(self)@.remove(x@),
    {
        let mut kept: Vec<String> = Vec::new();
        let ghost all = crate::text::texts(self.items@);
        for i in 0..self.items.len()
            invariant
                all == crate::text::texts(self.items@),
                forall|y: Seq<char>|
                    #[trigger] crate::text::texts(kept@).contains(y) <==> all.take(i as int).contains(y) && y
                        != x@,
        {
            let ghost before = crate::text::texts(kept@);
            let keep = !same(&self.items[i], x);
            if keep {
                kept.push(self.items[i].clone());
                assert(crate::text::texts(kept@) == before.push(self.items@[i as int]@));
            }
            proof {
                let after = crate::text::texts(kept@);
                assert(all.take(i + 1) == all.take(i as int).push(all[i as int]));
                assert forall|y: Seq<char>| #[trigger] after.contains(y) <==> all.take(i + 1).contains(y)
                    && y != x@ by {
                    lemma_push_contains(before, self.items@[i as int]@, y);
                    lemma_push_contains(all.take(i as int), all[i as int], y);
                    assert(before.contains(y) <==> all.take(i as int).contains(y) && y != x@);
                }
            }
        }
        assert(all.take(all.len() as int) == all);
        self.items = kept;
        assert(self@ == old(self)@.remove(x@));
    }

    pub fn clear(&mut self)
        ensures
            final(self)@ == Set::<Seq<char>>::empty(),
    {
        self.items = Vec::new();
        assert(self@ == Set::<Seq<char>>::empty());
    }
}

pub proof fn lemma_push_contains(s: Seq<Seq<char>>, x: Seq<char>, y: Seq<char>)
    ensures
        s.push(x).contains(y) <==> s.contains(y) || y == x,
{
    if s.contains(y) {
        let w = choose|w: int| 0 <= w < s.len() && s[w] == y;
        assert(s.push(x)[w] == y);
    }
    if y == x {
        assert(s.push(x)[s.len() as int] == y);
    }
}

} // verus!
