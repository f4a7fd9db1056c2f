//! A small association table from strings to strings with unique keys,
//! modelled as a `Map<Seq<char>, Seq<char>>`. It stands in for the raw
//! rows of an input file and for column-translation tables.

use vstd::prelude::*;
use crate::strutil::string_eq_str;

verus! {

/// An association table from column names to values.
#[derive(Debug)]
pub struct StringMap {
    pairs: Vec<(String, String)>,
}

/// The map denoted by a sequence of key/value pairs; a later pair with
/// the same key overrides an earlier one.
pub open spec fn spec_map_of(pairs: Seq<(String, String)>) -> Map<Seq<char>, Seq<char>>
    decreases pairs.len(),
{
    if pairs.len() == 0 {
        Map::empty()
    } else {
        spec_map_of(pairs.drop_last()).insert(pairs.last().0@, pairs.last().1@)
    }
}

impl StringMap {
    /// The map this table denotes.
    pub closed spec fn view(&self) -> Map<Seq<char>, Seq<char>> {
        spec_map_of(self.pairs@)
    }

    /// The keys are pairwise distinct.
    pub closed spec fn inv(&self) -> bool {
        forall|i: int, j: int|
            0 <= i < j < self.pairs@.len() ==> (#[trigger] self.pairs@[i]).0@ != (#[trigger] self.pairs@[j]).0@
    }

    /// An empty table.
    pub fn new() -> (r: StringMap)
        ensures
            r.inv(),
            r@ == Map::<Seq<char>, Seq<char>>::empty(),
    {
        StringMap { pairs: Vec::new() }
    }

    fn find_index(&self, key: &str) -> (r: Option<usize>)
        requires
            self.inv(),
        ensures
            match r {
                Some(i) => i < self.pairs@.len() && self.pairs@[i as int].0@ == key@,
                None => forall|i: int|
                    0 <= i < self.pairs@.len() ==> (#[trigger] self.pairs@[i]).0@ != key@,
            },
    {
        let mut i: usize = 0;
        let n = self.pairs.len();
        while i < n
            invariant
                n == self.pairs@.len(),
                i <= n,
                forall|j: int| 0 <= j < i ==> (#[trigger] self.pairs@[j]).0@ != key@,
            decreases n - i,
        {
            if string_eq_str(&self.pairs[i].0, key) {
                return Some(i);
            }
            i = i + 1;
        }
        None
    }

    /// Look a key up.
    pub fn get<'a>(&'a self, key: &str) -> (r: Option<&'a String>)
        requires
            self.inv(),
        ensures
            match r {
                Some(v) => self@.contains_key(key@) && self@[key@] == v@,
                None => !self@.contains_key(key@),
            },
    {
        proof {
            lemma_map_of_index(self.pairs@, key@);
        }
        match self.find_index(key) {
            Some(i) => Some(&self.pairs[i].1),
            None => None,
        }
    }

    /// Whether the table has the key.
    pub fn contains_key(&self, key: &str) -> (r: bool)
        requires
            self.inv(),
        ensures
            r == self@.contains_key(key@),
    {
        self.get(key).is_some()
    }

    /// Remove a key, returning its value when it was present.
    pub fn remove(&mut self, key: &str) -> (r: Option<String>)
        requires
            old(self).inv(),
        ensures
            final(self).inv(),
            final(self)@ == old(self)@.remove(key@),
            match r {
                Some(v) => old(self)@.contains_key(key@) && old(self)@[key@] == v@,
                None => !old(self)@.contains_key(key@),
            },
    {
        proof {
            lemma_map_of_index(self.pairs@, key@);
        }
        match self.find_index(key) {
            Some(i) => {
                let ghost before = self.pairs@;
                let pair = self.pairs.remove(i);
                proof {
                    lemma_map_of_remove(before, i as int);
                    assert(before.remove(i as int) =~= self.pairs@);
                    assert(final(self)@ =~= old(self)@.remove(key@));
                }
                Some(pair.1)
            }
            None => {
                proof {
                    assert(old(self)@ =~= old(self)@.remove(key@));
                }
                None
            }
        }
    }

    /// Insert a key with its value, replacing any earlier value.
    pub fn insert(&mut self, key: String, value: String)
        requires
            old(self).inv(),
        ensures
            final(self).inv(),
            final(self)@ == old(self)@.insert(key@, value@),
    {
        let _ = self.remove(key.as_str());
        let ghost mid = self.pairs@;
        proof {
            lemma_map_of_index(mid, key@);
            assert(!spec_map_of(mid).contains_key(key@));
            assert forall|i: int| 0 <= i < mid.len() implies (#[trigger] mid[i]).0@ != key@ by {
                if mid[i].0@ == key@ {
                    assert(spec_map_of(mid).contains_key(key@));
                }
            }
        }
        self.pairs.push((key, value));
        proof {
            assert(self.pairs@.drop_last() =~= mid);
            assert(final(self)@ =~= old(self)@.insert(key@, value@));
        }
    }

    /// The number of keys.
    pub fn len(&self) -> (r: usize)
        requires
            self.inv(),
        ensures
            r == self@.dom().len(),
    {
        proof {
            lemma_map_of_len(self.pairs@);
        }
        self.pairs.len()
    }

    /// Whether the table is empty.
    pub fn is_empty(&self) -> (r: bool)
        requires
            self.inv(),
        ensures
            r == (self@ == Map::<Seq<char>, Seq<char>>::empty()),
    {
        proof {
            lemma_map_of_len(self.pairs@);
            if self.pairs@.len() == 0 {
                assert(self@ =~= Map::<Seq<char>, Seq<char>>::empty());
            } else {
                assert(self@.dom().len() != 0);
                assert(Map::<Seq<char>, Seq<char>>::empty().dom().len() == 0);
            }
        }
        self.pairs.len() == 0
    }
}

/// Looking a key up in the denoted map agrees with scanning the pairs,
/// when the keys are pairwise distinct.
proof fn lemma_map_of_index(pairs: Seq<(String, String)>, key: Seq<char>)
    requires
        forall|i: int, j: int|
            0 <= i < j < pairs.len() ==> (#[trigger] pairs[i]).0@ != (#[trigger] pairs[j]).0@,
    ensures
        forall|i: int| 0 <= i < pairs.len() && (#[trigger] pairs[i]).0@ == key
            ==> spec_map_of(pairs).contains_key(key) && spec_map_of(pairs)[key] == pairs[i].1@,
        (forall|i: int| 0 <= i < pairs.len() ==> (#[trigger] pairs[i]).0@ != key)
            ==> !spec_map_of(pairs).contains_key(key),
    decreases pairs.len(),
{
    if pairs.len() > 0 {
        let head = pairs.drop_last();
        lemma_map_of_index(head, key);
        assert(forall|i: int| 0 <= i < head.len() ==> head[i] == pairs[i]);
    }
}

/// Keys absent from the pairs are absent from the denoted map.
proof fn lemma_map_of_absent_keys(pairs: Seq<(String, String)>, key: Seq<char>)
    ensures
        (forall|i: int| 0 <= i < pairs.len() ==> (#[trigger] pairs[i]).0@ != key)
            ==> !spec_map_of(pairs).contains_key(key),
    decreases pairs.len(),
{
    if pairs.len() > 0 {
        lemma_map_of_absent_keys(pairs.drop_last(), key);
        assert(forall|i: int| 0 <= i < pairs.len() - 1 ==> pairs.drop_last()[i] == pairs[i]);
    }
}

/// Removing the pair at index `i` removes exactly its key from the
/// denoted map, when the keys are pairwise distinct.
proof fn lemma_map_of_remove(pairs: Seq<(String, String)>, i: int)
    requires
        0 <= i < pairs.len(),
        forall|x: int, y: int|
            0 <= x < y < pairs.len() ==> (#[trigger] pairs[x]).0@ != (#[trigger] pairs[y]).0@,
    ensures
        spec_map_of(pairs.remove(i)) == spec_map_of(pairs).remove(pairs[i].0@),
    decreases pairs.len(),
{
    let key = pairs[i].0@;
    if i == pairs.len() - 1 {
        assert(pairs.remove(i) =~= pairs.drop_last());
        lemma_map_of_absent_keys(pairs.drop_last(), key);
        assert(spec_map_of(pairs.drop_last()) =~= spec_map_of(pairs).remove(key));
    } else {
        let head = pairs.drop_last();
        let last = pairs.last();
        assert(forall|x: int| 0 <= x < head.len() ==> head[x] == pairs[x]);
        lemma_map_of_remove(head, i);
        assert(pairs.remove(i).drop_last() =~= head.remove(i));
        assert(pairs.remove(i).last() == last);
        assert(spec_map_of(pairs.remove(i))
            == spec_map_of(head.remove(i)).insert(last.0@, last.1@));
        assert(last.0@ != key);
        assert(spec_map_of(head).remove(key).insert(last.0@, last.1@)
            =~= spec_map_of(head).insert(last.0@, last.1@).remove(key));
    }
}

/// With pairwise distinct keys, the denoted map has exactly one key per pair.
proof fn lemma_map_of_len(pairs: Seq<(String, String)>)
    requires
        forall|i: int, j: int|
            0 <= i < j < pairs.len() ==> (#[trigger] pairs[i]).0@ != (#[trigger] pairs[j]).0@,
    ensures
        spec_map_of(pairs).dom().len() == pairs.len(),
        spec_map_of(pairs).dom().finite(),
    decreases pairs.len(),
{
    if pairs.len() == 0 {
        assert(spec_map_of(pairs).dom() =~= Set::<Seq<char>>::empty());
    } else {
        let head = pairs.drop_last();
        assert(forall|i: int| 0 <= i < head.len() ==> head[i] == pairs[i]);
        lemma_map_of_len(head);
        lemma_map_of_absent_keys(head, pairs.last().0@);
        assert(spec_map_of(pairs).dom() =~= spec_map_of(head).dom().insert(pairs.last().0@));
        assert(!spec_map_of(head).dom().contains(pairs.last().0@));
    }
}

} // verus!
