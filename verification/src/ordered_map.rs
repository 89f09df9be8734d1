//! An order-preserving string-keyed mapping: entries keep their first
//! insertion order, and inserting an existing key replaces its value in
//! place. This is the mapping shape the catalog document and the input
//! batch both use.

use vstd::prelude::*;

verus! {

/// The index of the first entry of `pairs` whose key is `key`, or `-1`.
pub open spec fn spec_key_index<V>(pairs: Seq<(Seq<char>, V)>, key: Seq<char>) -> int
    decreases pairs.len(),
{
    if pairs.len() == 0 {
        -1
    } else if pairs[0].0 == key {
        0
    } else {
        let r = spec_key_index(pairs.drop_first(), key);
        if r < 0 {
            -1
        } else {
            r + 1
        }
    }
}

/// Whether some entry of `pairs` has key `key`.
pub open spec fn spec_has_key<V>(pairs: Seq<(Seq<char>, V)>, key: Seq<char>) -> bool {
    spec_key_index(pairs, key) >= 0
}

/// `pairs` after inserting `key -> value`: the value is replaced in place
/// when the key is present, and appended otherwise.
pub open spec fn spec_insert<V>(pairs: Seq<(Seq<char>, V)>, key: Seq<char>, value: V) -> Seq<
    (Seq<char>, V),
> {
    if spec_has_key(pairs, key) {
        pairs.update(spec_key_index(pairs, key), (key, value))
    } else {
        pairs.push((key, value))
    }
}

pub broadcast proof fn lemma_key_index_bounds<V>(pairs: Seq<(Seq<char>, V)>, key: Seq<char>)
    ensures
        -1 <= #[trigger] spec_key_index(pairs, key) < pairs.len(),
        spec_key_index(pairs, key) >= 0 ==> pairs[spec_key_index(pairs, key)].0 == key,
        spec_key_index(pairs, key) >= 0 ==> forall|j: int|
            0 <= j < spec_key_index(pairs, key) ==> pairs[j].0 != key,
        spec_key_index(pairs, key) == -1 ==> forall|j: int|
            0 <= j < pairs.len() ==> pairs[j].0 != key,
    decreases pairs.len(),
{
    if pairs.len() > 0 && pairs[0].0 != key {
        lemma_key_index_bounds(pairs.drop_first(), key);
        assert(forall|j: int|
            1 <= j < pairs.len() ==> pairs[j] == pairs.drop_first()[j - 1]);
    }
}

/// Two entry sequences with the same keys in the same places locate any
/// key at the same index.
pub proof fn lemma_key_index_same_keys<V, W>(
    a: Seq<(Seq<char>, V)>,
    b: Seq<(Seq<char>, W)>,
    key: Seq<char>,
)
    requires
        b.len() == a.len(),
        forall|i: int| 0 <= i < a.len() ==> a[i].0 == #[trigger] b[i].0,
    ensures
        spec_key_index(a, key) == spec_key_index(b, key),
    decreases a.len(),
{
    if a.len() > 0 {
        assert(forall|i: int|
            0 <= i < a.drop_first().len() ==> a.drop_first()[i].0 == #[trigger] b.drop_first()[i].0);
        lemma_key_index_same_keys(a.drop_first(), b.drop_first(), key);
    }
}

/// After an insertion, every entry value is either the inserted one or the
/// value that stood at the same index before.
pub proof fn lemma_insert_values<V>(a: Seq<(Seq<char>, V)>, key: Seq<char>, value: V)
    ensures
        forall|i: int|
            0 <= i < spec_insert(a, key, value).len() ==> (#[trigger] spec_insert(a, key, value)[i]
                == (key, value) || (0 <= i < a.len() && spec_insert(a, key, value)[i] == a[i])),
{
    lemma_key_index_bounds(a, key);
}

/// An ordered mapping from string keys to values.
#[derive(Debug)]
pub struct OrderedMap<V> {
    pub pairs: Vec<(String, V)>,
}

impl<V> OrderedMap<V> {
    /// The mathematical contents: the key views paired with the values, in
    /// entry order.
    pub open spec fn entries(&self) -> Seq<(Seq<char>, V)> {
        self.pairs@.map_values(|p: (String, V)| (p.0@, p.1))
    }

    /// Well-formed: no two entries share a key.
    pub open spec fn wf(&self) -> bool {
        forall|i: int, j: int|
            0 <= i < j < self.entries().len() ==> self.entries()[i].0 != self.entries()[j].0
    }

    pub fn new() -> (r: Self)
        ensures
            r.entries() =~= Seq::<(Seq<char>, V)>::empty(),
            r.wf(),
    {
        OrderedMap { pairs: Vec::new() }
    }

    pub fn len(&self) -> (n: usize)
        ensures
            n == self.entries().len(),
    {
        self.pairs.len()
    }

    pub fn is_empty(&self) -> (r: bool)
        ensures
            r == (self.entries().len() == 0),
    {
        self.pairs.len() == 0
    }

    /// The position of `key` among the entries, if present.
    pub fn find(&self, key: &str) -> (r: Option<usize>)
        ensures
            match r {
                Some(i) => i == spec_key_index(self.entries(), key@) && i < self.entries().len(),
                None => !spec_has_key(self.entries(), key@),
            },
    {
        proof {
            lemma_key_index_bounds(self.entries(), key@);
        }
        let n = self.pairs.len();
        let mut i: usize = 0;
        while i < n
            invariant
                n == self.entries().len(),
                i <= n,
                forall|j: int| 0 <= j < i ==> self.entries()[j].0 != key@,
            decreases n - i,
        {
            if crate::text::str_eq(self.pairs[i].0.as_str(), key) {
                proof {
                    lemma_key_index_bounds(self.entries(), key@);
                    assert(self.entries()[i as int].0 == key@);
                    let x = spec_key_index(self.entries(), key@);
                    assert(x >= 0);
                    assert(!(x < i) && !(x > i));
                }
                return Some(i);
            }
            i += 1;
        }
        None
    }

    pub fn contains_key(&self, key: &str) -> (r: bool)
        ensures
            r == spec_has_key(self.entries(), key@),
    {
        self.find(key).is_some()
    }

    /// The value stored under `key`, if any.
    pub fn get(&self, key: &str) -> (r: Option<&V>)
        ensures
            match r {
                Some(v) => spec_has_key(self.entries(), key@) && *v == self.entries()[spec_key_index(
                    self.entries(),
                    key@,
                )].1,
                None => !spec_has_key(self.entries(), key@),
            },
    {
        match self.find(key) {
            Some(i) => Some(&self.pairs[i].1),
            None => None,
        }
    }

    /// Inserts `key -> value`, replacing in place when the key is present
    /// and appending otherwise.
    pub fn insert(&mut self, key: String, value: V)
        ensures
            final(self).entries() =~= spec_insert(old(self).entries(), key@, value),
            old(self).wf() ==> final(self).wf(),
    {
        proof {
            lemma_key_index_bounds(old(self).entries(), key@);
        }
        match self.find(key.as_str()) {
            Some(i) => {
                self.pairs.set(i, (key, value));
                proof {
                    assert(self.entries() =~= old(self).entries().update(
                        spec_key_index(old(self).entries(), key@),
                        (key@, value),
                    ));
                }
            },
            None => {
                self.pairs.push((key, value));
                proof {
                    assert(self.entries() =~= old(self).entries().push((key@, value)));
                    if old(self).wf() {
                        assert forall|i: int, j: int|
                            0 <= i < j < self.entries().len() implies self.entries()[i].0
                            != self.entries()[j].0 by {
                            if j == self.entries().len() - 1 {
                                lemma_key_index_bounds(old(self).entries(), key@);
                            }
                        }
                    }
                }
            },
        }
    }

    /// The key of the entry at position `i`.
    pub fn key_at(&self, i: usize) -> (k: &String)
        requires
            i < self.entries().len(),
        ensures
            k@ == self.entries()[i as int].0,
    {
        &self.pairs[i].0
    }

    /// The value of the entry at position `i`.
    pub fn value_at(&self, i: usize) -> (v: &V)
        requires
            i < self.entries().len(),
        ensures
            *v == self.entries()[i as int].1,
    {
        &self.pairs[i].1
    }
}

} // verus!
