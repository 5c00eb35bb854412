//! Tables and sets keyed by text.

use vstd::prelude::*;
use crate::text::same;

verus! {

/// A table from texts to values. No key occurs twice.
#[derive(Debug)]
pub struct Table<V> {
    entries: Vec<(String, V)>,
}

/// Whether the entry at `i` is that of the key.
spec fn entry_is<V>(entries: Seq<(String, V)>, i: int, key: Seq<char>) -> bool {
    0 <= i < entries.len() && entries[i].0@ == key
}

impl<V> View for Table<V> {
    type V = Map<Seq<char>, V>;

    closed spec fn view(&self) -> Map<Seq<char>, V> {
        Map::new(
            |k: Seq<char>| exists|i: int| entry_is(self.entries@, i, k),
            |k: Seq<char>| self.entries@[choose|i: int| entry_is(self.entries@, i, k)].1,
        )
    }
}

impl<V> Table<V> {
    /// No key occurs twice.
    pub closed spec fn wf(self) -> bool {
        forall|i: int, j: int|
            0 <= i < j < self.entries@.len() ==> (#[trigger] self.entries@[i]).0@ != (
            #[trigger] self.entries@[j]).0@
    }

    /// An empty table.
    pub fn new() -> (t: Table<V>)
        ensures
            t.wf(),
            t@.is_empty(),
    {
        let t = Table { entries: Vec::new() };
        assert(t@.dom() =~= Set::empty());
        t
    }

    /// The entry at `i` is what the table holds of its key.
    proof fn lemma_entry(self, i: int)
        requires
            self.wf(),
            0 <= i < self.entries@.len(),
        ensures
            self@.contains_key(self.entries@[i].0@),
            self@[self.entries@[i].0@] == self.entries@[i].1,
    {
        let key = self.entries@[i].0@;
        assert(entry_is(self.entries@, i, key));
        let j = choose|j: int| entry_is(self.entries@, j, key);
        assert(entry_is(self.entries@, j, key));
        if i < j {
            assert(self.entries@[i].0@ != self.entries@[j].0@);
        } else if j < i {
            assert(self.entries@[j].0@ != self.entries@[i].0@);
        }
    }

    /// Where the entry of a key stands.
    fn position(&self, key: &str) -> (r: Option<usize>)
        requires
            self.wf(),
        ensures
            match r {
                Some(i) => entry_is(self.entries@, i as int, key@),
                None => !self@.contains_key(key@),
            },
    {
        let mut i: usize = 0;
        while i < self.entries.len()
            invariant
                i <= self.entries@.len(),
                forall|k: int| 0 <= k < i ==> (#[trigger] self.entries@[k]).0@ != key@,
            decreases self.entries.len() - i,
        {
            if same(self.entries[i].0.as_str(), key) {
                return Some(i);
            }
            i += 1;
        }
        None
    }

    /// The value of a key.
    pub fn get(&self, key: &str) -> (r: Option<&V>)
        requires
            self.wf(),
        ensures
            match r {
                Some(v) => self@.contains_key(key@) && *v == self@[key@],
                None => !self@.contains_key(key@),
            },
    {
        match self.position(key) {
            Some(i) => {
                proof {
                    self.lemma_entry(i as int);
                }
                Some(&self.entries[i].1)
            },
            None => None,
        }
    }

    /// Takes a key and its value out.
    pub fn take(&mut self, key: &str) -> (r: Option<V>)
        requires
            old(self).wf(),
        ensures
            final(self).wf(),
            final(self)@ == old(self)@.remove(key@),
            match r {
                Some(v) => old(self)@.contains_key(key@) && v == old(self)@[key@],
                None => !old(self)@.contains_key(key@),
            },
    {
        let ghost before = *self;
        match self.position(key) {
            Some(i) => {
                let (_, v) = self.entries.remove(i);
                proof {
                    before.lemma_entry(i as int);
                    let at = i as int;
                    assert(self.entries@ == before.entries@.remove(at));
                    assert forall|k: Seq<char>| self@.contains_key(k) == (before@.contains_key(k)
                        && k != key@) by {
                        if self@.contains_key(k) {
                            let j = choose|j: int| entry_is(self.entries@, j, k);
                            let j0 = if j < at { j } else { j + 1 };
                            assert(entry_is(before.entries@, j0, k));
                            if j0 < at {
                                assert(before.entries@[j0].0@ != before.entries@[at].0@);
                            } else {
                                assert(before.entries@[at].0@ != before.entries@[j0].0@);
                            }
                        }
                        if before@.contains_key(k) && k != key@ {
                            let j = choose|j: int| entry_is(before.entries@, j, k);
                            let j1 = if j < at { j } else { j - 1 };
                            assert(entry_is(self.entries@, j1, k));
                        }
                    }
                    assert forall|k: Seq<char>| #[trigger] self@.contains_key(k) implies self@[k]
                        == before@[k] by {
                        let j = choose|j: int| entry_is(self.entries@, j, k);
                        assert(entry_is(self.entries@, j, k));
                        self.lemma_entry(j);
                        before.lemma_entry(if j < at { j } else { j + 1 });
                    }
                    assert(self@ =~= before@.remove(key@));
                }
                Some(v)
            },
            None => {
                assert(self@ =~= before@.remove(key@));
                None
            },
        }
    }

    /// Sets the value of a key.
    pub fn set(&mut self, key: &str, value: V)
        requires
            old(self).wf(),
        ensures
            final(self).wf(),
            final(self)@ == old(self)@.insert(key@, value),
    {
        let ghost first = *self;
        let _ = self.take(key);
        let ghost before = *self;
        self.entries.push((key.to_owned(), value));
        proof {
            let n = before.entries@.len() as int;
            assert forall|i: int, j: int| 0 <= i < j < self.entries@.len() implies (
            #[trigger] self.entries@[i]).0@ != (#[trigger] self.entries@[j]).0@ by {
                if j == n {
                    before.lemma_entry(i);
                }
            }
            self.lemma_entry(n);
            assert forall|k: Seq<char>| #[trigger]
                self@.dom().contains(k) == (before@.dom().contains(k) || k == key@) by {
                if self@.contains_key(k) {
                    let j = choose|j: int| entry_is(self.entries@, j, k);
                    if j < n {
                        assert(entry_is(before.entries@, j, k));
                    }
                }
                if before@.contains_key(k) {
                    let j = choose|j: int| entry_is(before.entries@, j, k);
                    assert(entry_is(self.entries@, j, k));
                }
            }
            assert forall|k: Seq<char>| #[trigger] before@.contains_key(k) implies self@[k]
                == before@[k] by {
                let j = choose|j: int| entry_is(before.entries@, j, k);
                assert(entry_is(before.entries@, j, k));
                before.lemma_entry(j);
                self.lemma_entry(j);
            }
            assert(self@[key@] == value);
            assert(before@.dom() == first@.dom().remove(key@));
            let want = first@.insert(key@, value);
            assert(self@.dom() =~= want.dom());
            assert forall|k: Seq<char>| #[trigger] want.dom().contains(k) implies self@[k]
                == want[k] by {
                if k != key@ {
                    assert(before@.contains_key(k));
                }
            }
            assert(self@ =~= want);
        }
    }
}

/// A set of texts. No text occurs twice.
#[derive(Debug)]
pub struct TextSet {
    items: Vec<String>,
}

impl View for TextSet {
    type V = Set<Seq<char>>;

    closed spec fn view(&self) -> Set<Seq<char>> {
        Set::new(|k: Seq<char>| holds(self.items@, k))
    }
}

/// Whether a text is among the items.
pub open spec fn holds(items: Seq<String>, k: Seq<char>) -> bool {
    exists|i: int| 0 <= i < items.len() && (#[trigger] items[i])@ == k
}

/// Whether no text occurs twice.
pub open spec fn distinct(items: Seq<String>) -> bool {
    forall|i: int, j: int|
        0 <= i < j < items.len() ==> (#[trigger] items[i])@ != (#[trigger] items[j])@
}

impl TextSet {
    /// No text occurs twice.
    pub closed spec fn wf(self) -> bool {
        distinct(self.items@)
    }

    /// An empty set.
    pub fn new() -> (t: TextSet)
        ensures
            t.wf(),
            t@ == Set::<Seq<char>>::empty(),
    {
        let t = TextSet { items: Vec::new() };
        assert(t@ =~= Set::empty());
        t
    }

    /// Where a text stands.
    fn position(&self, key: &str) -> (r: Option<usize>)
        ensures
            match r {
                Some(i) => i < self.items@.len() && self.items@[i as int]@ == key@,
                None => !self@.contains(key@),
            },
    {
        let mut i: usize = 0;
        while i < self.items.len()
            invariant
                i <= self.items@.len(),
                forall|k: int| 0 <= k < i ==> (#[trigger] self.items@[k])@ != key@,
            decreases self.items.len() - i,
        {
            if same(self.items[i].as_str(), key) {
                return Some(i);
            }
            i += 1;
        }
        None
    }

    /// Whether a text is in the set.
    pub fn contains(&self, key: &str) -> (r: bool)
        ensures
            r == self@.contains(key@),
    {
        self.position(key).is_some()
    }

    /// Puts a text in, and tells whether it was not there.
    pub fn insert(&mut self, key: &str) -> (r: bool)
        requires
            old(self).wf(),
        ensures
            final(self).wf(),
            final(self)@ == old(self)@.insert(key@),
            r == !old(self)@.contains(key@),
    {
        let ghost before = *self;
        if self.contains(key) {
            assert(self@ =~= before@.insert(key@));
            return false;
        }
        self.items.push(key.to_owned());
        proof {
            let n = before.items@.len() as int;
            assert(self.items@[n]@ == key@);
            assert forall|k: Seq<char>| self@.contains(k) == before@.insert(key@).contains(k) by {
                if before@.contains(k) {
                    let i = choose|i: int|
                        0 <= i < before.items@.len() && (#[trigger] before.items@[i])@ == k;
                    assert(self.items@[i]@ == k);
                }
            }
            assert(self@ =~= before@.insert(key@));
            assert forall|i: int, j: int| 0 <= i < j < self.items@.len() implies (
            #[trigger] self.items@[i])@ != (#[trigger] self.items@[j])@ by {
                if j == n {
                    assert(holds(before.items@, before.items@[i]@));
                }
            }
        }
        true
    }

    /// Takes a text out, and tells whether it was there.
    pub fn remove(&mut self, key: &str) -> (r: bool)
        requires
            old(self).wf(),
        ensures
            final(self).wf(),
            final(self)@ == old(self)@.remove(key@),
            r == old(self)@.contains(key@),
    {
        let ghost before = *self;
        match self.position(key) {
            Some(i) => {
                let _ = self.items.remove(i);
                proof {
                    let at = i as int;
                    assert(holds(before.items@, key@));
                    assert forall|k: Seq<char>| self@.contains(k) == before@.remove(key@).contains(
                        k,
                    ) by {
                        if self@.contains(k) {
                            let j = choose|j: int|
                                0 <= j < self.items@.len() && (#[trigger] self.items@[j])@ == k;
                            let j0 = if j < at { j } else { j + 1 };
                            assert(before.items@[j0]@ == k);
                            if j0 < at {
                                assert(before.items@[j0]@ != before.items@[at]@);
                            } else {
                                assert(before.items@[at]@ != before.items@[j0]@);
                            }
                        }
                        if before@.contains(k) && k != key@ {
                            let j = choose|j: int|
                                0 <= j < before.items@.len() && (#[trigger] before.items@[j])@ == k;
                            let j1 = if j < at { j } else { j - 1 };
                            assert(self.items@[j1]@ == k);
                        }
                    }
                    assert(self@ =~= before@.remove(key@));
                }
                true
            },
            None => {
                assert(self@ =~= before@.remove(key@));
                false
            },
        }
    }

    /// The texts, each once.
    pub fn items(&self) -> (r: Vec<String>)
        requires
            self.wf(),
        ensures
            distinct(r@),
            forall|k: Seq<char>| #[trigger] holds(r@, k) <==> self@.contains(k),
    {
        let mut out: Vec<String> = Vec::new();
        let mut i: usize = 0;
        while i < self.items.len()
            invariant
                i <= self.items@.len(),
                out@.len() == i,
                forall|k: int| 0 <= k < i ==> (#[trigger] out@[k]) == self.items@[k],
            decreases self.items.len() - i,
        {
            out.push(self.items[i].clone());
            i += 1;
        }
        assert(out@ =~= self.items@);
        out
    }
}

} // verus!
