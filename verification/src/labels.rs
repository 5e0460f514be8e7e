//! The labels of a pod: a finite mapping from keys to values.
//!
//! A [`Labels`] value holds its pairs in a vector in which no key occurs
//! twice; its view is the mapping that the pairs spell out.
use vstd::prelude::*;
use vstd::string::*;

verus! {

/// A label as a pair of texts.
pub type LabelPair = (Seq<char>, Seq<char>);

/// The views of a vector of owned pairs.
pub open spec fn pair_views(pairs: Seq<(String, String)>) -> Seq<LabelPair> {
    pairs.map_values(|p: (String, String)| (p.0@, p.1@))
}

/// `base` after the pairs of `delta` were written to it, first to last: a
/// later pair overwrites an earlier one with the same key.
pub open spec fn apply_pairs(base: Map<Seq<char>, Seq<char>>, delta: Seq<LabelPair>) -> Map<
    Seq<char>,
    Seq<char>,
>
    decreases delta.len(),
{
    if delta.len() == 0 {
        base
    } else {
        apply_pairs(base, delta.drop_last()).insert(delta.last().0, delta.last().1)
    }
}

/// Writing one pair is an insertion.
pub proof fn lemma_apply_one_pair(base: Map<Seq<char>, Seq<char>>, key: Seq<char>, value: Seq<char>)
    ensures
        apply_pairs(base, seq![(key, value)]) == base.insert(key, value),
{
    let delta = seq![(key, value)];
    assert(delta.drop_last() =~= Seq::<LabelPair>::empty());
    assert(apply_pairs(base, delta.drop_last()) == base);
}

/// No key occurs twice in `pairs`.
pub open spec fn keys_distinct(pairs: Seq<LabelPair>) -> bool {
    forall|i: int, j: int| 0 <= i < j < pairs.len() ==> pairs[i].0 != pairs[j].0
}

/// Where `key` stands in `pairs`, if it does.
pub open spec fn key_index(pairs: Seq<LabelPair>, key: Seq<char>, i: int) -> bool {
    0 <= i < pairs.len() && pairs[i].0 == key
}

/// A key is mapped by `apply_pairs` on the empty map exactly if some pair
/// carries it, and with distinct keys each pair gives its key's value.
pub proof fn lemma_apply_pairs_lookup(pairs: Seq<LabelPair>)
    requires
        keys_distinct(pairs),
    ensures
        forall|k: Seq<char>|
            apply_pairs(Map::empty(), pairs).contains_key(k) <==> exists|i: int|
                key_index(pairs, k, i),
        forall|i: int|
            0 <= i < pairs.len() ==> #[trigger] apply_pairs(Map::empty(), pairs)[pairs[i].0]
                == pairs[i].1,
        apply_pairs(Map::empty(), pairs).dom().finite(),
        apply_pairs(Map::empty(), pairs).len() == pairs.len(),
    decreases pairs.len(),
{
    let m = apply_pairs(Map::empty(), pairs);
    if pairs.len() == 0 {
        assert forall|k: Seq<char>| m.contains_key(k) <==> exists|i: int|
            key_index(pairs, k, i) by {}
    } else {
        let front = pairs.drop_last();
        let last = pairs.last();
        lemma_apply_pairs_lookup(front);
        let fm = apply_pairs(Map::empty(), front);
        assert forall|k: Seq<char>| m.contains_key(k) <==> exists|i: int|
            key_index(pairs, k, i) by {
            if m.contains_key(k) {
                if k == last.0 {
                    assert(key_index(pairs, k, pairs.len() - 1));
                } else {
                    assert(fm.contains_key(k));
                    let i = choose|i: int| key_index(front, k, i);
                    assert(key_index(pairs, k, i));
                }
            }
            if exists|i: int| key_index(pairs, k, i) {
                let i = choose|i: int| key_index(pairs, k, i);
                if i < pairs.len() - 1 {
                    assert(key_index(front, k, i));
                }
            }
        }
        assert forall|i: int| 0 <= i < pairs.len() implies #[trigger] m[pairs[i].0]
            == pairs[i].1 by {
            if i < pairs.len() - 1 {
                assert(front[i] == pairs[i]);
                assert(pairs[i].0 != last.0);
                assert(fm[front[i].0] == front[i].1);
            }
        }
        assert(!fm.contains_key(last.0)) by {
            if fm.contains_key(last.0) {
                let i = choose|i: int| key_index(front, last.0, i);
                assert(pairs[i].0 == pairs[pairs.len() - 1].0);
            }
        }
    }
}

/// Overwriting the value of the pair at `i` is an insertion under its key.
pub proof fn lemma_apply_pairs_update(pairs: Seq<LabelPair>, i: int, value: Seq<char>)
    requires
        keys_distinct(pairs),
        0 <= i < pairs.len(),
    ensures
        keys_distinct(pairs.update(i, (pairs[i].0, value))),
        apply_pairs(Map::empty(), pairs.update(i, (pairs[i].0, value))) == apply_pairs(
            Map::empty(),
            pairs,
        ).insert(pairs[i].0, value),
{
    let key = pairs[i].0;
    let after = pairs.update(i, (key, value));
    assert(keys_distinct(after)) by {
        assert forall|a: int, b: int| 0 <= a < b < after.len() implies after[a].0 != after[b].0 by {
            assert(after[a].0 == pairs[a].0);
            assert(after[b].0 == pairs[b].0);
        }
    }
    lemma_apply_pairs_lookup(pairs);
    lemma_apply_pairs_lookup(after);
    let m = apply_pairs(Map::empty(), pairs);
    let n = apply_pairs(Map::empty(), after);
    assert forall|k: Seq<char>| n.contains_key(k) <==> m.insert(key, value).contains_key(k) by {
        if n.contains_key(k) {
            let j = choose|j: int| key_index(after, k, j);
            assert(key_index(pairs, k, j));
        }
        if m.insert(key, value).contains_key(k) {
            if k == key {
                assert(key_index(after, k, i));
            } else {
                let j = choose|j: int| key_index(pairs, k, j);
                assert(key_index(after, k, j));
            }
        }
    }
    assert forall|k: Seq<char>| n.contains_key(k) implies n[k] == m.insert(key, value)[k] by {
        let j = choose|j: int| key_index(after, k, j);
        assert(n[after[j].0] == after[j].1);
        if j != i {
            assert(m[pairs[j].0] == pairs[j].1);
        }
    }
    assert(n =~= m.insert(key, value));
}

/// The labels of a pod.
#[derive(Debug)]
pub struct Labels {
    entries: Vec<(String, String)>,
}

impl View for Labels {
    type V = Map<Seq<char>, Seq<char>>;

    closed spec fn view(&self) -> Map<Seq<char>, Seq<char>> {
        apply_pairs(Map::empty(), pair_views(self.entries@))
    }
}

impl Labels {
    #[verifier::type_invariant]
    spec fn well_formed(self) -> bool {
        keys_distinct(pair_views(self.entries@))
    }

    /// No labels.
    pub fn new() -> (labels: Self)
        ensures
            labels@ == Map::<Seq<char>, Seq<char>>::empty(),
    {
        let labels = Labels { entries: Vec::new() };
        assert(pair_views(labels.entries@) =~= Seq::<LabelPair>::empty());
        labels
    }

    fn position(&self, key: &String) -> (at: Option<usize>)
        ensures
            match at {
                Some(i) => key_index(pair_views(self.entries@), key@, i as int),
                None => forall|i: int| !key_index(pair_views(self.entries@), key@, i),
            },
    {
        let mut i: usize = 0;
        while i < self.entries.len()
            invariant
                i <= self.entries.len(),
                forall|k: int| 0 <= k < i ==> !key_index(pair_views(self.entries@), key@, k),
            decreases self.entries.len() - i,
        {
            if self.entries[i].0 == *key {
                return Some(i);
            }
            i += 1;
        }
        None
    }

    /// The number of labels.
    pub fn len(&self) -> (n: usize)
        ensures
            n == self@.len(),
    {
        proof {
            use_type_invariant(self);
            lemma_apply_pairs_lookup(pair_views(self.entries@));
        }
        self.entries.len()
    }

    /// Whether there is no label.
    pub fn is_empty(&self) -> (b: bool)
        ensures
            b == (self@.len() == 0),
    {
        self.len() == 0
    }

    /// The value under `key`, if the key is present.
    pub fn get(&self, key: &str) -> (value: Option<&String>)
        ensures
            match value {
                Some(v) => self@.contains_key(key@) && v@ == self@[key@],
                None => !self@.contains_key(key@),
            },
    {
        proof {
            use_type_invariant(self);
            lemma_apply_pairs_lookup(pair_views(self.entries@));
        }
        let owned = key.to_owned();
        match self.position(&owned) {
            Some(i) => {
                assert(pair_views(self.entries@)[i as int].1 == self.entries@[i as int].1@);
                Some(&self.entries[i].1)
            },
            None => None,
        }
    }

    /// Whether `key` is present.
    pub fn contains_key(&self, key: &str) -> (b: bool)
        ensures
            b == self@.contains_key(key@),
    {
        self.get(key).is_some()
    }

    /// Writes `value` under `key` and hands back the value that stood there.
    pub fn insert(&mut self, key: String, value: String) -> (previous: Option<String>)
        ensures
            final(self)@ == old(self)@.insert(key@, value@),
            match previous {
                Some(v) => old(self)@.contains_key(key@) && v@ == old(self)@[key@],
                None => !old(self)@.contains_key(key@),
            },
    {
        proof {
            use_type_invariant(&*self);
            lemma_apply_pairs_lookup(pair_views(self.entries@));
        }
        let ghost before = pair_views(self.entries@);
        match self.position(&key) {
            Some(i) => {
                let mut entries: Vec<(String, String)> = Vec::new();
                std::mem::swap(&mut entries, &mut self.entries);
                let previous = entries[i].1.clone();
                entries.set(i, (key, value));
                proof {
                    lemma_apply_pairs_update(before, i as int, value@);
                    assert(pair_views(entries@) =~= before.update(i as int, (key@, value@)));
                }
                self.entries = entries;
                Some(previous)
            },
            None => {
                let mut entries: Vec<(String, String)> = Vec::new();
                std::mem::swap(&mut entries, &mut self.entries);
                entries.push((key, value));
                proof {
                    let after = pair_views(entries@);
                    assert(after =~= before.push((key@, value@)));
                    assert(after.drop_last() =~= before);
                    assert(keys_distinct(after)) by {
                        assert forall|a: int, b: int| 0 <= a < b < after.len() implies after[a].0
                            != after[b].0 by {
                            if b == after.len() - 1 {
                                assert(!key_index(before, key@, a));
                            }
                        }
                    }
                }
                self.entries = entries;
                None
            },
        }
    }

    /// Writes the pairs of `delta`, first to last.
    pub fn merge(&mut self, delta: &Vec<(String, String)>)
        ensures
            final(self)@ == apply_pairs(old(self)@, pair_views(delta@)),
    {
        let ghost all = pair_views(delta@);
        let mut i: usize = 0;
        while i < delta.len()
            invariant
                i <= delta.len(),
                all == pair_views(delta@),
                self@ == apply_pairs(old(self)@, all.take(i as int)),
            decreases delta.len() - i,
        {
            let key = delta[i].0.clone();
            let value = delta[i].1.clone();
            self.insert(key, value);
            proof {
                assert(all.take(i + 1).drop_last() =~= all.take(i as int));
                assert(all.take(i + 1).last() == (key@, value@));
            }
            i += 1;
        }
        assert(all.take(delta.len() as int) =~= all);
    }

    /// The pairs, each key once.
    pub fn to_vec(&self) -> (pairs: Vec<(String, String)>)
        ensures
            keys_distinct(pair_views(pairs@)),
            apply_pairs(Map::empty(), pair_views(pairs@)) == self@,
    {
        proof {
            use_type_invariant(self);
        }
        let mut pairs: Vec<(String, String)> = Vec::new();
        let mut i: usize = 0;
        while i < self.entries.len()
            invariant
                i <= self.entries.len(),
                pairs.len() == i,
                pair_views(pairs@) == pair_views(self.entries@).take(i as int),
            decreases self.entries.len() - i,
        {
            let ghost before = pairs@;
            let key = self.entries[i].0.clone();
            let value = self.entries[i].1.clone();
            pairs.push((key, value));
            assert forall|k: int| 0 <= k < i + 1 implies pair_views(pairs@)[k] == pair_views(
                self.entries@,
            ).take(i + 1)[k] by {
                if k < i {
                    assert(pair_views(before)[k] == pair_views(self.entries@).take(i as int)[k]);
                }
            }
            assert(pair_views(pairs@) =~= pair_views(self.entries@).take(i + 1));
            i += 1;
        }
        assert(pair_views(self.entries@).take(self.entries.len() as int) =~= pair_views(
            self.entries@,
        ));
        pairs
    }
}

impl Clone for Labels {
    fn clone(&self) -> (copy: Self)
        ensures
            copy@ == self@,
    {
        proof {
            use_type_invariant(self);
        }
        Labels { entries: self.to_vec() }
    }
}

} // verus!
