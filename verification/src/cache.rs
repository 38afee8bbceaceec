//! The bytecode cache: compiled modules by module name.
use vstd::prelude::*;

verus! {

/// Compiled modules by name; a name occurs at most once.
///
/// The entries are kept in a vector of pairs with distinct names rather than a
/// `HashMap<String, Vec<u8>>`: vstd specifies `HashMap` only for key types that
/// obey its key model, and it gives `String` no such model, so nothing could
/// be proved of a lookup by name there.
pub struct BytecodeCache {
    entries: Vec<(String, Vec<u8>)>,
}

/// The index of the entry named `key`.
pub open spec fn index_of_key(entries: Seq<(String, Vec<u8>)>, key: Seq<char>) -> int {
    choose|i: int| 0 <= i < entries.len() && #[trigger] entries[i].0@ == key
}

/// Whether some entry is named `key`.
pub open spec fn has_key(entries: Seq<(String, Vec<u8>)>, key: Seq<char>) -> bool {
    exists|i: int| 0 <= i < entries.len() && #[trigger] entries[i].0@ == key
}

/// Whether no two entries share a name.
pub open spec fn keys_distinct(entries: Seq<(String, Vec<u8>)>) -> bool {
    forall|i: int, j: int| 0 <= i < entries.len() && 0 <= j < entries.len() && i != j
        ==> #[trigger] entries[i].0@ != #[trigger] entries[j].0@
}

/// The map that a sequence of distinct entries stands for.
pub open spec fn entries_map(entries: Seq<(String, Vec<u8>)>) -> Map<Seq<char>, Seq<u8>> {
    Map::new(|k: Seq<char>| has_key(entries, k), |k: Seq<char>| entries[index_of_key(entries, k)].1@)
}

/// What inserting the pairs of `pairs` one after the other into an empty map gives.
pub open spec fn map_of_pairs(pairs: Seq<(Seq<char>, Seq<u8>)>) -> Map<Seq<char>, Seq<u8>>
    decreases pairs.len(),
{
    if pairs.len() == 0 {
        Map::empty()
    } else {
        map_of_pairs(pairs.drop_last()).insert(pairs.last().0, pairs.last().1)
    }
}

/// The views of a sequence of owned pairs.
pub open spec fn pair_views(pairs: Seq<(String, Vec<u8>)>) -> Seq<(Seq<char>, Seq<u8>)> {
    pairs.map_values(|p: (String, Vec<u8>)| (p.0@, p.1@))
}

impl View for BytecodeCache {
    type V = Map<Seq<char>, Seq<u8>>;

    closed spec fn view(&self) -> Map<Seq<char>, Seq<u8>> {
        entries_map(self.entries@)
    }
}

impl BytecodeCache {
    #[verifier::type_invariant]
    spec fn wf(self) -> bool {
        keys_distinct(self.entries@)
    }

    /// An empty cache.
    pub fn new() -> (res: Self)
        ensures
            res@ == Map::<Seq<char>, Seq<u8>>::empty(),
    {
        let res = BytecodeCache { entries: Vec::new() };
        assert(res@ =~= Map::<Seq<char>, Seq<u8>>::empty());
        res
    }

    /// The number of modules in the cache.
    pub fn len(&self) -> (res: usize)
        ensures
            res as nat == self@.len(),
    {
        proof {
            use_type_invariant(self);
            self.lemma_len();
        }
        self.entries.len()
    }

    proof fn lemma_len(&self)
        requires
            keys_distinct(self.entries@),
        ensures
            self@.len() == self.entries@.len(),
        decreases self.entries@.len(),
    {
        let s = self.entries@;
        let keys = Seq::new(s.len(), |i: int| s[i].0@);
        assert(self@.dom() =~= keys.to_set()) by {
            assert forall|k: Seq<char>| self@.dom().contains(k) implies keys.to_set().contains(k) by {
                let i = choose|i: int| 0 <= i < s.len() && #[trigger] s[i].0@ == k;
                assert(keys[i] == k);
            }
            assert forall|k: Seq<char>| keys.to_set().contains(k) implies self@.dom().contains(k) by {
                let i = choose|i: int| 0 <= i < keys.len() && keys[i] == k;
                assert(s[i].0@ == k);
            }
        }
        assert(keys.no_duplicates()) by {
            assert forall|i: int, j: int| 0 <= i < keys.len() && 0 <= j < keys.len() && i != j implies keys[i] != keys[j] by {
                assert(s[i].0@ != s[j].0@);
            }
        }
        keys.unique_seq_to_set();
    }

    /// Where `key` stands among the entries, if anywhere.
    fn position(&self, key: &String) -> (res: Option<usize>)
        ensures
            match res {
                Some(i) => i < self.entries@.len() && self.entries@[i as int].0@ == key@,
                None => !has_key(self.entries@, key@),
            },
    {
        let n = self.entries.len();
        let mut i: usize = 0;
        while i < n
            invariant
                n == self.entries@.len(),
                0 <= i <= n,
                forall|j: int| 0 <= j < i ==> self.entries@[j].0@ != key@,
            decreases n - i,
        {
            if self.entries[i].0 == *key {
                return Some(i);
            }
            i = i + 1;
        }
        None
    }

    /// The compiled module cached under `key`.
    pub fn get(&self, key: &str) -> (res: Option<&Vec<u8>>)
        ensures
            res is Some <==> self@.contains_key(key@),
            res matches Some(v) ==> v@ == self@[key@],
    {
        proof {
            use_type_invariant(self);
        }
        let owned = key.to_owned();
        match self.position(&owned) {
            Some(i) => {
                proof {
                    let k = key@;
                    let j = index_of_key(self.entries@, k);
                    assert(has_key(self.entries@, k));
                    assert(self.entries@[j].0@ == k);
                    assert(i == j);
                }
                Some(&self.entries[i].1)
            },
            None => None,
        }
    }

    /// Caches `value` under `key`, in place of what was cached there.
    pub fn insert(&mut self, key: String, value: Vec<u8>)
        ensures
            final(self)@ == old(self)@.insert(key@, value@),
    {
        proof {
            use_type_invariant(&*self);
        }
        let ghost old_entries = self.entries@;
        let ghost k = key@;
        let ghost v = value@;
        match self.position(&key) {
            Some(i) => {
                let mut entries: Vec<(String, Vec<u8>)> = Vec::new();
                std::mem::swap(&mut entries, &mut self.entries);
                entries.set(i, (key, value));
                proof {
                    let new_entries = entries@;
                    assert(new_entries =~= old_entries.update(i as int, new_entries[i as int]));
                    assert(keys_distinct(new_entries)) by {
                        assert forall|a: int, b: int| 0 <= a < new_entries.len() && 0 <= b < new_entries.len() && a != b
                            implies #[trigger] new_entries[a].0@ != #[trigger] new_entries[b].0@ by {
                            if a == i {
                                assert(old_entries[b].0@ != old_entries[i as int].0@);
                            } else if b == i {
                                assert(old_entries[a].0@ != old_entries[i as int].0@);
                            } else {
                                assert(old_entries[a].0@ != old_entries[b].0@);
                            }
                        }
                    }
                    assert(entries_map(new_entries) =~= entries_map(old_entries).insert(k, v)) by {
                        assert forall|x: Seq<char>| #[trigger] has_key(new_entries, x) == (has_key(old_entries, x) || x == k) by {
                            if has_key(new_entries, x) {
                                let a = choose|a: int| 0 <= a < new_entries.len() && #[trigger] new_entries[a].0@ == x;
                                if a != i {
                                    assert(old_entries[a].0@ == x);
                                }
                            }
                            if has_key(old_entries, x) {
                                let a = choose|a: int| 0 <= a < old_entries.len() && #[trigger] old_entries[a].0@ == x;
                                if a != i {
                                    assert(new_entries[a].0@ == x);
                                } else {
                                    assert(new_entries[a].0@ == x);
                                }
                            }
                            if x == k {
                                assert(new_entries[i as int].0@ == x);
                            }
                        }
                        assert forall|x: Seq<char>| has_key(new_entries, x) implies
                            new_entries[index_of_key(new_entries, x)].1@ == entries_map(old_entries).insert(k, v)[x] by {
                            let a = index_of_key(new_entries, x);
                            assert(0 <= a < new_entries.len() && new_entries[a].0@ == x);
                            if x == k {
                                assert(new_entries[i as int].0@ == x);
                                assert(a == i);
                            } else {
                                assert(a != i);
                                assert(old_entries[a].0@ == x);
                                let b = index_of_key(old_entries, x);
                                assert(has_key(old_entries, x));
                                assert(old_entries[b].0@ == x);
                                assert(a == b);
                            }
                        }
                    }
                }
                self.entries = entries;
            },
            None => {
                let mut entries: Vec<(String, Vec<u8>)> = Vec::new();
                std::mem::swap(&mut entries, &mut self.entries);
                entries.push((key, value));
                proof {
                    let new_entries = entries@;
                    let n = old_entries.len();
                    assert(new_entries =~= old_entries.push(new_entries[n as int]));
                    assert(keys_distinct(new_entries)) by {
                        assert forall|a: int, b: int| 0 <= a < new_entries.len() && 0 <= b < new_entries.len() && a != b
                            implies #[trigger] new_entries[a].0@ != #[trigger] new_entries[b].0@ by {
                            if a == n {
                                assert(old_entries[b].0@ != k);
                            } else if b == n {
                                assert(old_entries[a].0@ != k);
                            } else {
                                assert(old_entries[a].0@ != old_entries[b].0@);
                            }
                        }
                    }
                    assert(entries_map(new_entries) =~= entries_map(old_entries).insert(k, v)) by {
                        assert forall|x: Seq<char>| #[trigger] has_key(new_entries, x) == (has_key(old_entries, x) || x == k) by {
                            if has_key(new_entries, x) {
                                let a = choose|a: int| 0 <= a < new_entries.len() && #[trigger] new_entries[a].0@ == x;
                                if a != n {
                                    assert(old_entries[a].0@ == x);
                                }
                            }
                            if has_key(old_entries, x) {
                                let a = choose|a: int| 0 <= a < old_entries.len() && #[trigger] old_entries[a].0@ == x;
                                assert(new_entries[a].0@ == x);
                            }
                            if x == k {
                                assert(new_entries[n as int].0@ == x);
                            }
                        }
                        assert forall|x: Seq<char>| has_key(new_entries, x) implies
                            new_entries[index_of_key(new_entries, x)].1@ == entries_map(old_entries).insert(k, v)[x] by {
                            let a = index_of_key(new_entries, x);
                            assert(0 <= a < new_entries.len() && new_entries[a].0@ == x);
                            if x == k {
                                assert(new_entries[n as int].0@ == x);
                                assert(a == n);
                            } else {
                                assert(a != n);
                                assert(old_entries[a].0@ == x);
                                let b = index_of_key(old_entries, x);
                                assert(has_key(old_entries, x));
                                assert(old_entries[b].0@ == x);
                                assert(a == b);
                            }
                        }
                    }
                }
                self.entries = entries;
            },
        }
    }
}


/// Reading a name back from the cache gives what was last written under it,
/// and writing under one name leaves every other name as it was.
pub proof fn lemma_read_after_write(
    cache: Map<Seq<char>, Seq<u8>>,
    key: Seq<char>,
    value: Seq<u8>,
    other: Seq<char>,
)
    ensures
        cache.insert(key, value).contains_key(key),
        cache.insert(key, value)[key] == value,
        other != key ==> cache.insert(key, value).contains_key(other) == cache.contains_key(other),
        other != key && cache.contains_key(other) ==> cache.insert(key, value)[other] == cache[other],
{
}

/// Writing the same name twice keeps only the second value.
pub proof fn lemma_last_write_wins(cache: Map<Seq<char>, Seq<u8>>, key: Seq<char>, first: Seq<u8>, second: Seq<u8>)
    ensures
        cache.insert(key, first).insert(key, second) == cache.insert(key, second),
{
    assert(cache.insert(key, first).insert(key, second) =~= cache.insert(key, second));
}

impl BytecodeCache {
    /// A cache holding `entries`, inserted in order (a later entry wins over an
    /// earlier one of the same name).
    pub fn from_entries(entries: Vec<(String, Vec<u8>)>) -> (res: Self)
        ensures
            res@ == map_of_pairs(pair_views(entries@)),
    {
        let ghost all = entries@;
        let mut cache = BytecodeCache::new();
        for pair in it: entries.into_iter()
            invariant
                it.seq() == all,
                cache@ == map_of_pairs(pair_views(all.take(it.index() as int))),
        {
            let ghost i = it.index();
            proof {
                assert(pair_views(all.take(i + 1)).drop_last() =~= pair_views(all.take(i as int)));
            }
            let (key, value) = pair;
            cache.insert(key, value);
        }
        proof {
            assert(all.take(all.len() as int) =~= all);
        }
        cache
    }
}

} // verus!
