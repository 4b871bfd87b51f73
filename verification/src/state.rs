//! Storage for typing results.
//!
//! A [`RefMap`] keys values by an (item, arena index) pair. It keeps its
//! entries in insertion order, holds each key at most once, and is
//! specified through a [`Map`] view from keys to values. Inserting an
//! existing key replaces the value in place, keeping the entry's
//! position.
//!
//! [`TypingState`] gathers the maps and the diagnostics that one typing
//! computation accumulates; the signature and body contexts both drive
//! the engine over this one state shape and differ only in how they
//! persist it.

use vstd::prelude::*;

use crate::error::Error;

verus! {

/// One stored entry: its key pair and its value.
#[derive(Clone, Debug)]
pub struct Entry<V> {
    /// Index of the owning item
    pub item: usize,
    /// Arena index within the item
    pub index: usize,
    /// The stored value
    pub value: V,
}

/// The key of an entry.
pub open spec fn key_of<V>(e: Entry<V>) -> (int, int) {
    (e.item as int, e.index as int)
}

/// The map a sequence of entries denotes; later entries win.
pub open spec fn map_of<V>(s: Seq<Entry<V>>) -> Map<(int, int), V>
    decreases s.len(),
{
    if s.len() == 0 {
        Map::empty()
    } else {
        map_of(s.drop_last()).insert(key_of(s.last()), s.last().value)
    }
}

/// No two entries share a key.
pub open spec fn keys_distinct<V>(s: Seq<Entry<V>>) -> bool {
    forall|i: int, j: int|
        0 <= i < j < s.len() ==> key_of(#[trigger] s[i]) != key_of(#[trigger] s[j])
}

/// An entry's key is in the denoted map, at the entry's value.
pub proof fn lemma_map_of_at<V>(s: Seq<Entry<V>>, i: int)
    requires
        keys_distinct(s),
        0 <= i < s.len(),
    ensures
        map_of(s).contains_key(key_of(s[i])),
        map_of(s)[key_of(s[i])] == s[i].value,
    decreases s.len(),
{
    if i == s.len() - 1 {
    } else {
        assert(s.drop_last()[i] == s[i]);
        lemma_map_of_at(s.drop_last(), i);
        assert(key_of(s[s.len() - 1]) != key_of(s[i]));
    }
}

/// A key held by no entry is not in the denoted map.
pub proof fn lemma_map_of_absent<V>(s: Seq<Entry<V>>, k: (int, int))
    requires
        forall|i: int| 0 <= i < s.len() ==> key_of(#[trigger] s[i]) != k,
    ensures
        !map_of(s).contains_key(k),
    decreases s.len(),
{
    if s.len() == 0 {
    } else {
        assert(forall|i: int|
            0 <= i < s.len() - 1 ==> key_of(#[trigger] s.drop_last()[i]) != k);
        lemma_map_of_absent(s.drop_last(), k);
    }
}

/// Replacing the value of one entry in place denotes inserting its key.
pub proof fn lemma_map_of_update<V>(s: Seq<Entry<V>>, i: int, e: Entry<V>)
    requires
        keys_distinct(s),
        0 <= i < s.len(),
        key_of(e) == key_of(s[i]),
    ensures
        map_of(s.update(i, e)) == map_of(s).insert(key_of(e), e.value),
    decreases s.len(),
{
    let t = s.update(i, e);
    if i == s.len() - 1 {
        assert(t.drop_last() =~= s.drop_last());
        assert(t.last() == e);
        assert(map_of(t) =~= map_of(s).insert(key_of(e), e.value));
    } else {
        assert(t.drop_last() =~= s.drop_last().update(i, e));
        assert(s.drop_last()[i] == s[i]);
        lemma_map_of_update(s.drop_last(), i, e);
        assert(t.last() == s.last());
        assert(key_of(s.last()) != key_of(e));
        assert(map_of(t) =~= map_of(s).insert(key_of(e), e.value));
    }
}

/// A map from (item, arena index) keys to values, in insertion order.
#[derive(Clone, Debug)]
pub struct RefMap<V> {
    entries: Vec<Entry<V>>,
}

impl<V> View for RefMap<V> {
    type V = Map<(int, int), V>;

    closed spec fn view(&self) -> Map<(int, int), V> {
        map_of(self.entries@)
    }
}

impl<V> RefMap<V> {
    /// The entries, in insertion order.
    pub closed spec fn entries_seq(&self) -> Seq<Entry<V>> {
        self.entries@
    }

    /// Each key is held at most once.
    pub closed spec fn inv(&self) -> bool {
        keys_distinct(self.entries@)
    }

    /// An empty map.
    pub fn new() -> (r: RefMap<V>)
        ensures
            r.inv(),
            r@ == Map::<(int, int), V>::empty(),
            r.entries_seq().len() == 0,
    {
        RefMap { entries: Vec::new() }
    }

    /// Number of entries.
    pub fn num_entries(&self) -> (r: usize)
        ensures
            r == self.entries_seq().len(),
    {
        self.entries.len()
    }

    /// Read the entry at a position of the insertion order.
    pub fn entry_at(&self, i: usize) -> (r: &Entry<V>)
        requires
            i < self.entries_seq().len(),
        ensures
            *r == self.entries_seq()[i as int],
    {
        &self.entries[i]
    }

    /// Every entry is a binding of the denoted map.
    pub proof fn lemma_entries_in_map(&self)
        requires
            self.inv(),
        ensures
            forall|i: int|
                0 <= i < self.entries_seq().len() ==> self@.contains_key(
                    key_of(#[trigger] self.entries_seq()[i]),
                ) && self@[key_of(self.entries_seq()[i])] == self.entries_seq()[i].value,
    {
        assert forall|i: int| 0 <= i < self.entries_seq().len() implies self@.contains_key(
            key_of(#[trigger] self.entries_seq()[i]),
        ) && self@[key_of(self.entries_seq()[i])] == self.entries_seq()[i].value by {
            lemma_map_of_at(self.entries@, i);
        }
    }

    /// Look a key up.
    pub fn get(&self, item: usize, index: usize) -> (r: Option<&V>)
        requires
            self.inv(),
        ensures
            match r {
                Some(v) => self@.contains_key((item as int, index as int)) && *v == self@[(
                    item as int,
                    index as int,
                )],
                None => !self@.contains_key((item as int, index as int)),
            },
    {
        let mut i: usize = 0;
        while i < self.entries.len()
            invariant
                self.inv(),
                i <= self.entries@.len(),
                forall|j: int|
                    0 <= j < i ==> key_of(#[trigger] self.entries@[j]) != (
                        item as int,
                        index as int,
                    ),
            decreases self.entries@.len() - i,
        {
            if self.entries[i].item == item && self.entries[i].index == index {
                proof {
                    lemma_map_of_at(self.entries@, i as int);
                }
                return Some(&self.entries[i].value);
            }
            i = i + 1;
        }
        proof {
            lemma_map_of_absent(self.entries@, (item as int, index as int));
        }
        None
    }

    /// Whether a key is bound.
    pub fn contains(&self, item: usize, index: usize) -> (r: bool)
        requires
            self.inv(),
        ensures
            r == self@.contains_key((item as int, index as int)),
    {
        match self.get(item, index) {
            Some(_) => true,
            None => false,
        }
    }

    /// Bind a key, replacing an existing binding in place.
    pub fn insert(&mut self, item: usize, index: usize, value: V)
        requires
            old(self).inv(),
        ensures
            final(self).inv(),
            final(self)@ == old(self)@.insert((item as int, index as int), value),
            old(self)@.contains_key((item as int, index as int)) ==> final(self).entries_seq().len()
                == old(self).entries_seq().len(),
            !old(self)@.contains_key((item as int, index as int))
                ==> final(self).entries_seq().len() == old(self).entries_seq().len() + 1,
    {
        let mut i: usize = 0;
        while i < self.entries.len()
            invariant
                self.inv(),
                self.entries@ == old(self).entries@,
                i <= self.entries@.len(),
                forall|j: int|
                    0 <= j < i ==> key_of(#[trigger] self.entries@[j]) != (
                        item as int,
                        index as int,
                    ),
            decreases self.entries@.len() - i,
        {
            if self.entries[i].item == item && self.entries[i].index == index {
                proof {
                    lemma_map_of_at(self.entries@, i as int);
                }
                let mut e = self.entries.remove(i);
                e.value = value;
                self.entries.insert(i, e);
                proof {
                    assert(self.entries@ =~= old(self).entries@.update(
                        i as int,
                        self.entries@[i as int],
                    ));
                    lemma_map_of_update(
                        old(self).entries@,
                        i as int,
                        self.entries@[i as int],
                    );
                    assert forall|a: int, b: int|
                        0 <= a < b < self.entries@.len() implies key_of(
                        #[trigger] self.entries@[a],
                    ) != key_of(#[trigger] self.entries@[b]) by {
                        assert(key_of(old(self).entries@[a]) != key_of(old(self).entries@[b]));
                    }
                }
                return ;
            }
            i = i + 1;
        }
        proof {
            lemma_map_of_absent(self.entries@, (item as int, index as int));
        }
        self.entries.push(Entry { item, index, value });
        proof {
            assert(self.entries@.drop_last() =~= old(self).entries@);
            assert forall|a: int, b: int|
                0 <= a < b < self.entries@.len() implies key_of(#[trigger] self.entries@[a])
                != key_of(#[trigger] self.entries@[b]) by {
                if b < self.entries@.len() - 1 {
                    assert(key_of(old(self).entries@[a]) != key_of(old(self).entries@[b]));
                } else {
                    assert(key_of(old(self).entries@[a]) != (item as int, index as int));
                }
            }
        }
    }
}

/// The mutable state of one typing computation: the result maps and the
/// diagnostics accumulated so far. Signature-mode computations key
/// results by (item, index) across items; body-mode computations only
/// ever store keys of the item being typed.
#[derive(Debug)]
pub struct TypingState {
    /// The item this computation was started for
    pub item: usize,
    /// Computed pattern types
    pub patterns: RefMap<crate::typecheck::PatternTy>,
    /// Computed expression types
    pub expressions: RefMap<crate::ty::Ty>,
    /// Resolution of identifier expressions to declaring patterns
    pub identifier_resolution: RefMap<crate::model::PatternRef>,
    /// Resolution of patterns to declaring patterns
    pub pattern_resolution: RefMap<crate::model::PatternRef>,
    /// Diagnostics, in the order they were raised
    pub diagnostics: Vec<Error>,
}

impl TypingState {
    /// All maps hold each key at most once.
    pub open spec fn inv(&self) -> bool {
        &&& self.patterns.inv()
        &&& self.expressions.inv()
        &&& self.identifier_resolution.inv()
        &&& self.pattern_resolution.inv()
    }

    /// Every computed type handle points into an arena of length `n`.
    pub open spec fn below(&self, n: int) -> bool {
        &&& forall|k: (int, int)|
            self.patterns@.contains_key(k) ==> crate::typecheck::pattern_ty_below(
                #[trigger] self.patterns@[k],
                n,
            )
        &&& forall|k: (int, int)|
            self.expressions@.contains_key(k) ==> (#[trigger] self.expressions@[k]).0 < n
    }

    /// A fresh state for typing one item.
    pub fn new(item: usize) -> (r: TypingState)
        ensures
            r.inv(),
            r.item == item,
            r.patterns@ == Map::<(int, int), crate::typecheck::PatternTy>::empty(),
            r.expressions@ == Map::<(int, int), crate::ty::Ty>::empty(),
            r.identifier_resolution@ == Map::<(int, int), crate::model::PatternRef>::empty(),
            r.pattern_resolution@ == Map::<(int, int), crate::model::PatternRef>::empty(),
            r.diagnostics@.len() == 0,
    {
        TypingState {
            item,
            patterns: RefMap::new(),
            expressions: RefMap::new(),
            identifier_resolution: RefMap::new(),
            pattern_resolution: RefMap::new(),
            diagnostics: Vec::new(),
        }
    }
}

} // verus!
