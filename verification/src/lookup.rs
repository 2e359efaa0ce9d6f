//! Lookup tables over rows: from a key to the positions of the rows that have it.
use crate::text::optional;
use std::collections::HashMap;
use vstd::hash_map::StringHashMap;
use vstd::prelude::*;

verus! {

broadcast use vstd::std_specs::hash::group_hash_axioms;

/// The positions of the rows with the given key, in ascending order.
pub open spec fn rows_with<T>(keys: Seq<Option<T>>, key: T) -> Seq<int>
    decreases keys.len(),
{
    if keys.len() == 0 {
        Seq::empty()
    } else {
        let before = rows_with(keys.drop_last(), key);
        if keys.last() == Some(key) {
            before.push(keys.len() - 1)
        } else {
            before
        }
    }
}

/// Positions as integers.
pub open spec fn positions(v: Seq<usize>) -> Seq<int> {
    v.map_values(|i: usize| i as int)
}

/// The positions are those of rows with the key, and of all of them.
pub proof fn lemma_rows_with<T>(keys: Seq<Option<T>>, key: T)
    ensures
        forall|k: int|
            0 <= k < rows_with(keys, key).len() ==> 0 <= (#[trigger] rows_with(keys, key)[k]) < keys.len()
                && keys[rows_with(keys, key)[k]] == Some(key),
        forall|i: int|
            0 <= i < keys.len() && #[trigger] keys[i] == Some(key) ==> rows_with(keys, key).contains(i),
    decreases keys.len(),
{
    if keys.len() > 0 {
        let init = keys.drop_last();
        let before = rows_with(init, key);
        let all = rows_with(keys, key);
        lemma_rows_with(init, key);
        assert forall|k: int| 0 <= k < all.len() implies 0 <= (#[trigger] all[k]) < keys.len() && keys[all[k]] == Some(
            key,
        ) by {
            if k < before.len() {
                assert(all[k] == before[k]);
                assert(init[before[k]] == keys[before[k]]);
            }
        }
        assert forall|i: int| 0 <= i < keys.len() && #[trigger] keys[i] == Some(key) implies all.contains(i) by {
            if i < init.len() {
                assert(init[i] == keys[i]);
                assert(before.contains(i));
                let k = choose|k: int| 0 <= k < before.len() && before[k] == i;
                assert(all[k] == i);
            } else {
                assert(all[all.len() - 1] == i);
            }
        }
    }
}

/// The first position with the given key.
pub open spec fn first_with<T>(keys: Seq<Option<T>>, key: T) -> Option<int>
    decreases keys.len(),
{
    if keys.len() == 0 {
        None
    } else {
        match first_with(keys.drop_last(), key) {
            Some(i) => Some(i),
            None => if keys.last() == Some(key) {
                Some(keys.len() - 1)
            } else {
                None
            },
        }
    }
}

/// The last position with the given key.
pub open spec fn last_with<T>(keys: Seq<Option<T>>, key: T) -> Option<int>
    decreases keys.len(),
{
    if keys.len() == 0 {
        None
    } else if keys.last() == Some(key) {
        Some(keys.len() - 1)
    } else {
        last_with(keys.drop_last(), key)
    }
}

/// The first position has the key, and no earlier one does; where there is none, no position does.
pub proof fn lemma_first_with<T>(keys: Seq<Option<T>>, key: T)
    ensures
        match first_with(keys, key) {
            Some(i) => 0 <= i < keys.len() && keys[i] == Some(key) && forall|j: int|
                0 <= j < i ==> #[trigger] keys[j] != Some(key),
            None => forall|j: int| 0 <= j < keys.len() ==> #[trigger] keys[j] != Some(key),
        },
    decreases keys.len(),
{
    if keys.len() > 0 {
        let init = keys.drop_last();
        lemma_first_with(init, key);
        match first_with(keys, key) {
            Some(i) => {
                assert forall|j: int| 0 <= j < i implies #[trigger] keys[j] != Some(key) by {
                    assert(init[j] == keys[j]);
                }
            },
            None => {
                assert forall|j: int| 0 <= j < keys.len() implies #[trigger] keys[j] != Some(key) by {
                    if j < init.len() {
                        assert(init[j] == keys[j]);
                    }
                }
            },
        }
    }
}

/// The last position has the key, and no later one does; where there is none, no position does.
pub proof fn lemma_last_with<T>(keys: Seq<Option<T>>, key: T)
    ensures
        match last_with(keys, key) {
            Some(i) => 0 <= i < keys.len() && keys[i] == Some(key) && forall|j: int|
                i < j < keys.len() ==> #[trigger] keys[j] != Some(key),
            None => forall|j: int| 0 <= j < keys.len() ==> #[trigger] keys[j] != Some(key),
        },
    decreases keys.len(),
{
    if keys.len() > 0 && keys.last() != Some(key) {
        let init = keys.drop_last();
        lemma_last_with(init, key);
        assert forall|j: int| 0 <= j < init.len() implies #[trigger] keys[j] == init[j] by {}
    }
}

/// First and last position are the ends of the list of all positions.
proof fn lemma_ends<T>(keys: Seq<Option<T>>, key: T)
    ensures
        first_with(keys, key) == if rows_with(keys, key).len() > 0 {
            Some(rows_with(keys, key)[0])
        } else {
            None
        },
        last_with(keys, key) == if rows_with(keys, key).len() > 0 {
            Some(rows_with(keys, key).last())
        } else {
            None
        },
    decreases keys.len(),
{
    if keys.len() > 0 {
        lemma_ends(keys.drop_last(), key);
    }
}

/// The texts of a list of keys.
pub open spec fn key_texts(keys: Seq<Option<String>>) -> Seq<Option<Seq<char>>> {
    keys.map_values(|k: Option<String>| optional(k))
}

/// The positions in a bucket.
spec fn bucket<K>(buckets: Map<K, Vec<usize>>, key: K) -> Seq<int> {
    if buckets.contains_key(key) {
        positions(buckets[key]@)
    } else {
        Seq::empty()
    }
}

/// A table from texts to positions. Its view is the list of keys that it was made from.
pub struct TextIndex {
    buckets: StringHashMap<Vec<usize>>,
    keys: Ghost<Seq<Option<Seq<char>>>>,
}

impl View for TextIndex {
    type V = Seq<Option<Seq<char>>>;

    closed spec fn view(&self) -> Seq<Option<Seq<char>>> {
        self.keys@
    }
}

impl TextIndex {
    #[verifier::type_invariant]
    spec fn inv(self) -> bool {
        forall|key: Seq<char>| #[trigger] bucket(self.buckets@, key) == rows_with(self.keys@, key)
    }

    /// The table of a list of keys.
    pub fn new(keys: &Vec<Option<String>>) -> (r: TextIndex)
        ensures
            r@ == key_texts(keys@),
    {
        let ghost all = key_texts(keys@);
        let mut buckets: StringHashMap<Vec<usize>> = StringHashMap::new();
        let mut i: usize = 0;
        assert(all.take(0) =~= Seq::<Option<Seq<char>>>::empty());
        while i < keys.len()
            invariant
                i <= keys@.len(),
                all == key_texts(keys@),
                forall|key: Seq<char>| #[trigger] bucket(buckets@, key) == rows_with(all.take(i as int), key),
            decreases keys@.len() - i,
        {
            assert(all.take(i + 1).drop_last() =~= all.take(i as int));
            assert(all.take(i + 1).last() == optional(keys@[i as int]));
            let ghost before = buckets@;
            if let Some(key) = &keys[i] {
                let mut found: Vec<usize> = match buckets.get(key.as_str()) {
                    Some(v) => copy_positions(v),
                    None => Vec::new(),
                };
                let ghost old_found = positions(found@);
                assert(old_found =~= bucket(before, key@));
                found.push(i);
                assert(positions(found@) =~= old_found.push(i as int));
                buckets.insert(key.clone(), found);
            }
            assert forall|k: Seq<char>| #[trigger] bucket(buckets@, k) == rows_with(all.take(i + 1), k) by {
                assert(bucket(before, k) == rows_with(all.take(i as int), k));
            }
            i = i + 1;
        }
        assert(all.take(i as int) =~= all);
        TextIndex { buckets, keys: Ghost(all) }
    }

    /// The positions with a key.
    pub fn find(&self, key: &str) -> (r: Vec<usize>)
        ensures
            positions(r@) == rows_with(self@, key@),
    {
        proof {
            use_type_invariant(self);
            assert(bucket(self.buckets@, key@) == rows_with(self.keys@, key@));
        }
        match self.buckets.get(key) {
            Some(v) => copy_positions(v),
            None => {
                let r: Vec<usize> = Vec::new();
                assert(positions(r@) =~= bucket(self.buckets@, key@));
                r
            },
        }
    }

    /// The first position with a key.
    pub fn first(&self, key: &str) -> (r: Option<usize>)
        ensures
            match r {
                Some(i) => first_with(self@, key@) == Some(i as int),
                None => first_with(self@, key@) is None,
            },
    {
        let found = self.find(key);
        proof {
            lemma_ends(self@, key@);
            assert(positions(found@).len() == found@.len());
        }
        if found.len() > 0 {
            assert(positions(found@)[0] == found@[0]);
            Some(found[0])
        } else {
            None
        }
    }

    /// The last position with a key.
    pub fn last(&self, key: &str) -> (r: Option<usize>)
        ensures
            match r {
                Some(i) => last_with(self@, key@) == Some(i as int),
                None => last_with(self@, key@) is None,
            },
    {
        let found = self.find(key);
        proof {
            lemma_ends(self@, key@);
            assert(positions(found@).len() == found@.len());
        }
        if found.len() > 0 {
            assert(positions(found@).last() == found@.last());
            Some(found[found.len() - 1])
        } else {
            None
        }
    }
}

/// A copy of a list of positions.
fn copy_positions(v: &Vec<usize>) -> (r: Vec<usize>)
    ensures
        r@ == v@,
{
    let mut r: Vec<usize> = Vec::new();
    let mut i: usize = 0;
    while i < v.len()
        invariant
            i <= v@.len(),
            r@ == v@.take(i as int),
        decreases v@.len() - i,
    {
        r.push(v[i]);
        i = i + 1;
        assert(r@ =~= v@.take(i as int));
    }
    assert(v@.take(i as int) =~= v@);
    r
}

/// A table from row ids to positions. Its view is the list of ids that it was made from.
pub struct IdIndex {
    buckets: HashMap<i64, Vec<usize>>,
    keys: Ghost<Seq<Option<i64>>>,
}

impl View for IdIndex {
    type V = Seq<Option<i64>>;

    closed spec fn view(&self) -> Seq<Option<i64>> {
        self.keys@
    }
}

impl IdIndex {
    #[verifier::type_invariant]
    spec fn inv(self) -> bool {
        forall|key: i64| #[trigger] bucket(self.buckets@, key) == rows_with(self.keys@, key)
    }

    /// The table of a list of ids.
    pub fn new(keys: &Vec<Option<i64>>) -> (r: IdIndex)
        ensures
            r@ == keys@,
    {
        let mut buckets: HashMap<i64, Vec<usize>> = HashMap::new();
        let mut i: usize = 0;
        assert(keys@.take(0) =~= Seq::<Option<i64>>::empty());
        while i < keys.len()
            invariant
                i <= keys@.len(),
                forall|key: i64| #[trigger] bucket(buckets@, key) == rows_with(keys@.take(i as int), key),
            decreases keys@.len() - i,
        {
            assert(keys@.take(i + 1).drop_last() =~= keys@.take(i as int));
            let ghost before = buckets@;
            if let Some(key) = keys[i] {
                let mut found: Vec<usize> = match buckets.get(&key) {
                    Some(v) => copy_positions(v),
                    None => Vec::new(),
                };
                let ghost old_found = positions(found@);
                assert(old_found =~= bucket(before, key));
                found.push(i);
                assert(positions(found@) =~= old_found.push(i as int));
                buckets.insert(key, found);
            }
            assert forall|k: i64| #[trigger] bucket(buckets@, k) == rows_with(keys@.take(i + 1), k) by {
                assert(bucket(before, k) == rows_with(keys@.take(i as int), k));
            }
            i = i + 1;
        }
        assert(keys@.take(i as int) =~= keys@);
        IdIndex { buckets, keys: Ghost(keys@) }
    }

    /// The positions with an id.
    pub fn find(&self, key: i64) -> (r: Vec<usize>)
        ensures
            positions(r@) == rows_with(self@, key),
    {
        proof {
            use_type_invariant(self);
            assert(bucket(self.buckets@, key) == rows_with(self.keys@, key));
        }
        match self.buckets.get(&key) {
            Some(v) => copy_positions(v),
            None => {
                let r: Vec<usize> = Vec::new();
                assert(positions(r@) =~= bucket(self.buckets@, key));
                r
            },
        }
    }
}

} // verus!
