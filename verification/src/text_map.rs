//! A map from texts to texts that is walked in the order of its keys.

use vstd::prelude::*;
use crate::sort::{
    lemma_owner_absent, lemma_owner_is_first, lemma_text_le_antisymmetric,
    lemma_text_le_reflexive, lemma_text_le_total, lemma_text_le_transitive, owner, search,
    strictly_ordered, text_le,
};
use crate::text::{chars_of, texts};

verus! {

/// A map from texts to texts, kept as its entries in the order of the keys.
#[derive(Debug)]
pub struct TextMap {
    keys: Vec<String>,
    values: Vec<String>,
}

/// The keys of entries.
pub open spec fn keys_of(entries: Seq<(Seq<char>, Seq<char>)>) -> Seq<Seq<char>> {
    entries.map_values(|entry: (Seq<char>, Seq<char>)| entry.0)
}

/// The values of entries.
pub open spec fn values_of(entries: Seq<(Seq<char>, Seq<char>)>) -> Seq<Seq<char>> {
    entries.map_values(|entry: (Seq<char>, Seq<char>)| entry.1)
}

/// Pairs of strings as pairs of texts.
pub open spec fn pair_views(pairs: Seq<(String, String)>) -> Seq<(Seq<char>, Seq<char>)> {
    pairs.map_values(|pair: (String, String)| (pair.0@, pair.1@))
}

/// The entries `sorted` after `key` was given `value`: an entry of that key
/// is replaced, else the new entry goes where the order of keys wants it.
pub open spec fn put(sorted: Seq<(Seq<char>, Seq<char>)>, key: Seq<char>, value: Seq<char>) -> Seq<
    (Seq<char>, Seq<char>),
>
    decreases sorted.len(),
{
    if sorted.len() == 0 {
        seq![(key, value)]
    } else if sorted.last().0 == key {
        sorted.drop_last().push((key, value))
    } else if text_le(sorted.last().0, key) {
        sorted.push((key, value))
    } else {
        put(sorted.drop_last(), key, value).push(sorted.last())
    }
}

/// The entries of the map that `pairs` make, one after another: a later
/// pair replaces an earlier one of the same key.
pub open spec fn collected(pairs: Seq<(Seq<char>, Seq<char>)>) -> Seq<(Seq<char>, Seq<char>)>
    decreases pairs.len(),
{
    if pairs.len() == 0 {
        Seq::empty()
    } else {
        put(collected(pairs.drop_last()), pairs.last().0, pairs.last().1)
    }
}

/// What `put` does, told by the place of the key: an entry at `at` that has
/// the key is replaced; where there is none, the entry goes in at `at`, after
/// every key that comes first and before every key that comes after.
pub proof fn lemma_put_position(
    sorted: Seq<(Seq<char>, Seq<char>)>,
    key: Seq<char>,
    value: Seq<char>,
    at: int,
    present: bool,
)
    requires
        strictly_ordered(keys_of(sorted)),
        present ==> 0 <= at < sorted.len() && sorted[at].0 == key,
        !present ==> 0 <= at <= sorted.len(),
        !present ==> forall|k: int|
            at <= k < sorted.len() ==> !text_le(#[trigger] keys_of(sorted)[k], key),
        !present && at > 0 ==> text_le(sorted[at - 1].0, key) && sorted[at - 1].0 != key,
    ensures
        present ==> put(sorted, key, value) == sorted.update(at, (key, value)),
        !present ==> put(sorted, key, value) == sorted.insert(at, (key, value)),
    decreases sorted.len(),
{
    let keys = keys_of(sorted);
    lemma_text_le_reflexive(key);
    if sorted.len() == 0 {
        assert(seq![(key, value)] =~= sorted.insert(at, (key, value)));
    } else {
        let n = sorted.len() - 1;
        let last = sorted.last();
        assert(keys[n] == last.0);
        if present {
            assert(keys[at] == key);
            if at < n {
                assert(text_le(keys[at], keys[n]) && keys[at] != keys[n]);
            }
        } else {
            if at <= n {
                assert(!text_le(keys[n], key));
            }
        }
        if last.0 == key {
            assert(sorted.drop_last().push((key, value)) =~= sorted.update(at, (key, value)));
        } else if text_le(last.0, key) {
            if present {
                lemma_text_le_antisymmetric(last.0, key);
            }
            assert(sorted.push((key, value)) =~= sorted.insert(at, (key, value)));
        } else {
            let front = sorted.drop_last();
            assert(keys_of(front) =~= keys.drop_last());
            assert forall|i: int, j: int| 0 <= i < j < front.len() implies text_le(
                #[trigger] keys_of(front)[i],
                #[trigger] keys_of(front)[j],
            ) && keys_of(front)[i] != keys_of(front)[j] by {
                assert(text_le(keys[i], keys[j]) && keys[i] != keys[j]);
            }
            if !present {
                assert forall|k: int| at <= k < front.len() implies !text_le(
                    #[trigger] keys_of(front)[k],
                    key,
                ) by {
                    assert(keys_of(front)[k] == keys[k]);
                }
                if at > n {
                    assert(sorted[at - 1] == last);
                }
            }
            lemma_put_position(front, key, value, at, present);
            if present {
                assert(front.update(at, (key, value)).push(last) =~= sorted.update(
                    at,
                    (key, value),
                ));
            } else {
                assert(front.insert(at, (key, value)).push(last) =~= sorted.insert(
                    at,
                    (key, value),
                ));
            }
        }
    }
}

impl TextMap {
    /// Every key has its value, and the keys rise strictly.
    pub closed spec fn wf(&self) -> bool {
        &&& self.keys.len() == self.values.len()
        &&& strictly_ordered(texts(self.keys@))
    }

    /// The entries, in the order of the keys.
    pub closed spec fn entries(&self) -> Seq<(Seq<char>, Seq<char>)> {
        Seq::new(self.keys.len() as nat, |i: int| (self.keys@[i]@, self.values@[i]@))
    }

    /// The keys of a map rise strictly.
    pub proof fn lemma_keys_ordered(&self)
        requires
            self.wf(),
        ensures
            strictly_ordered(keys_of(self.entries())),
    {
        assert(keys_of(self.entries()) =~= texts(self.keys@));
    }

    /// A map without entries.
    pub fn new() -> (map: TextMap)
        ensures
            map.wf(),
            map.entries() == Seq::<(Seq<char>, Seq<char>)>::empty(),
    {
        let map = TextMap { keys: Vec::new(), values: Vec::new() };
        assert(map.entries() =~= Seq::<(Seq<char>, Seq<char>)>::empty());
        map
    }

    /// The number of entries.
    pub fn len(&self) -> (count: usize)
        requires
            self.wf(),
        ensures
            count == self.entries().len(),
    {
        self.keys.len()
    }

    /// The key of the entry at `index`.
    pub fn key(&self, index: usize) -> (key: &str)
        requires
            self.wf(),
            index < self.entries().len(),
        ensures
            key@ == self.entries()[index as int].0,
    {
        self.keys[index].as_str()
    }

    /// The value of the entry at `index`.
    pub fn value(&self, index: usize) -> (value: &str)
        requires
            self.wf(),
            index < self.entries().len(),
        ensures
            value@ == self.entries()[index as int].1,
    {
        self.values[index].as_str()
    }

    /// Gives `key` the value `value`.
    pub fn insert(&mut self, key: String, value: String)
        requires
            old(self).wf(),
        ensures
            final(self).wf(),
            final(self).entries() == put(old(self).entries(), key@, value@),
    {
        let ghost before = self.entries();
        let ghost names = texts(self.keys@);
        proof {
            self.lemma_keys_ordered();
            assert(keys_of(before) =~= names);
        }
        let chars = chars_of(key.as_str());
        match search(&self.keys, chars.as_slice()) {
            Ok(at) => {
                proof {
                    lemma_put_position(before, key@, value@, at as int, true);
                }
                self.values.set(at, value);
                assert(self.entries() =~= before.update(at as int, (key@, value@)));
            },
            Err(at) => {
                proof {
                    if at > 0 {
                        assert(names.contains(names[at - 1]));
                    }
                    lemma_put_position(before, key@, value@, at as int, false);
                    assert forall|i: int, j: int| 0 <= i < j < names.len() + 1 implies text_le(
                        #[trigger] names.insert(at as int, key@)[i],
                        #[trigger] names.insert(at as int, key@)[j],
                    ) && names.insert(at as int, key@)[i] != names.insert(at as int, key@)[j] by {
                        let grown = names.insert(at as int, key@);
                        lemma_text_le_reflexive(key@);
                        if j < at {
                            assert(text_le(names[i], names[j]) && names[i] != names[j]);
                        } else if j == at {
                            if i < at - 1 {
                                assert(text_le(names[i], names[at - 1]) && names[i] != names[at
                                    - 1]);
                                lemma_text_le_transitive(names[i], names[at - 1], key@);
                                if names[i] == key@ {
                                    lemma_text_le_antisymmetric(names[at - 1], key@);
                                }
                            }
                        } else if i == at {
                            assert(grown[j] == names[j - 1]);
                            assert(!text_le(names[j - 1], key@));
                            lemma_text_le_total(names[j - 1], key@);
                        } else if i < at {
                            assert(grown[j] == names[j - 1]);
                            assert(text_le(names[i], names[j - 1]) && names[i] != names[j - 1]);
                        } else {
                            assert(grown[i] == names[i - 1] && grown[j] == names[j - 1]);
                            assert(text_le(names[i - 1], names[j - 1]) && names[i - 1] != names[j
                                - 1]);
                        }
                    }
                }
                self.keys.insert(at, key);
                self.values.insert(at, value);
                assert(texts(self.keys@) =~= names.insert(at as int, key@));
                assert(self.entries() =~= before.insert(at as int, (key@, value@)));
            },
        }
    }

    /// The map that `pairs` make, one after another.
    pub fn collect(pairs: Vec<(String, String)>) -> (map: TextMap)
        ensures
            map.wf(),
            map.entries() == collected(pair_views(pairs@)),
    {
        let ghost all = pair_views(pairs@);
        let mut map = TextMap::new();
        assert(all.take(0) =~= Seq::<(Seq<char>, Seq<char>)>::empty());
        for pair in it: pairs
            invariant
                pair_views(it.seq()) == all,
                map.wf(),
                map.entries() == collected(all.take(it.index() as int)),
        {
            proof {
                assert(all.take(it.index() + 1).drop_last() =~= all.take(it.index() as int));
                assert(all.take(it.index() + 1).last() == (pair.0@, pair.1@));
            }
            let (key, value) = pair;
            map.insert(key, value);
        }
        assert(all.take(all.len() as int) =~= all);
        map
    }

    /// Takes the entry of `key` out of the map and gives its value.
    pub fn remove(&mut self, key: &[char]) -> (removed: Option<String>)
        requires
            old(self).wf(),
        ensures
            final(self).wf(),
            match owner(keys_of(old(self).entries()), key@) {
                Some(i) => {
                    &&& 0 <= i < old(self).entries().len()
                    &&& removed matches Some(value)
                    &&& value@ == old(self).entries()[i].1
                    &&& final(self).entries() == old(self).entries().remove(i)
                },
                None => removed is None && final(self).entries() == old(self).entries(),
            },
    {
        let ghost before = self.entries();
        let ghost names = texts(self.keys@);
        proof {
            assert(keys_of(before) =~= names);
        }
        match search(&self.keys, key) {
            Ok(at) => {
                proof {
                    assert forall|k: int| 0 <= k < at implies names[k] != key@ by {
                        assert(text_le(names[k], names[at as int]) && names[k] != names[at as int]);
                    }
                    lemma_owner_is_first(names, key@, at as int);
                }
                let _ = self.keys.remove(at);
                let value = self.values.remove(at);
                proof {
                    assert(texts(self.keys@) =~= names.remove(at as int));
                    assert forall|i: int, j: int| 0 <= i < j < names.len() - 1 implies text_le(
                        #[trigger] names.remove(at as int)[i],
                        #[trigger] names.remove(at as int)[j],
                    ) && names.remove(at as int)[i] != names.remove(at as int)[j] by {
                        let a = if i < at {
                            i
                        } else {
                            i + 1
                        };
                        let b = if j < at {
                            j
                        } else {
                            j + 1
                        };
                        assert(text_le(names[a], names[b]) && names[a] != names[b]);
                    }
                    assert(self.entries() =~= before.remove(at as int));
                }
                Some(value)
            },
            Err(_) => {
                proof {
                    assert forall|k: int| 0 <= k < names.len() implies names[k] != key@ by {
                        assert(names.contains(names[k]));
                    }
                    lemma_owner_absent(names, key@);
                }
                None
            },
        }
    }

    /// The values of the map, in the order of the keys.
    pub fn into_values(self) -> (values: Vec<String>)
        requires
            self.wf(),
        ensures
            texts(values@) == values_of(self.entries()),
    {
        assert(texts(self.values@) =~= values_of(self.entries()));
        self.values
    }
}

} // verus!
