use vstd::prelude::*;

verus! {

/// The position of the first entry with key `k`, if any.
pub open spec fn find_key<V>(e: Seq<(Seq<char>, V)>, k: Seq<char>) -> Option<nat>
    decreases e.len(),
{
    if e.len() == 0 {
        None
    } else {
        match find_key(e.drop_last(), k) {
            Some(i) => Some(i),
            None => if e.last().0 == k { Some((e.len() - 1) as nat) } else { None },
        }
    }
}

/// The value stored under `k`, if any.
pub open spec fn assoc_get<V>(e: Seq<(Seq<char>, V)>, k: Seq<char>) -> Option<V> {
    match find_key(e, k) {
        Some(i) => Some(e[i as int].1),
        None => None,
    }
}

/// The entries after storing `v` under `k`: an existing entry is replaced in
/// place, a new one goes at the end.
pub open spec fn assoc_insert<V>(e: Seq<(Seq<char>, V)>, k: Seq<char>, v: V) -> Seq<(Seq<char>, V)> {
    match find_key(e, k) {
        Some(i) => e.update(i as int, (k, v)),
        None => e.push((k, v)),
    }
}

/// The keys, in the order they were first stored.
pub open spec fn assoc_keys<V>(e: Seq<(Seq<char>, V)>) -> Seq<Seq<char>> {
    e.map_values(|p: (Seq<char>, V)| p.0)
}

/// `find_key` gives the first position whose key is `k`, or nothing when
/// no key is `k`.
pub proof fn lemma_find_key<V>(e: Seq<(Seq<char>, V)>, k: Seq<char>)
    ensures
        find_key(e, k) matches Some(i) ==> i < e.len() && e[i as int].0 == k
            && forall|j: int| 0 <= j < i ==> e[j].0 != k,
        find_key(e, k) is None ==> forall|j: int| 0 <= j < e.len() ==> e[j].0 != k,
    decreases e.len(),
{
    if e.len() > 0 {
        let d = e.drop_last();
        lemma_find_key(d, k);
        assert forall|j: int| 0 <= j < d.len() implies d[j] == e[j] by {}
    }
}

/// The first position with key `k` is what `find_key` gives.
pub proof fn lemma_find_key_char<V>(e: Seq<(Seq<char>, V)>, k: Seq<char>, i: int)
    requires
        0 <= i < e.len(),
        e[i].0 == k,
        forall|j: int| 0 <= j < i ==> e[j].0 != k,
    ensures
        find_key(e, k) == Some(i as nat),
{
    lemma_find_key(e, k);
    match find_key(e, k) {
        Some(m) => {
            if (m as int) < i {
            } else if (m as int) > i {
            }
        },
        None => {},
    }
}

/// No position has key `k` exactly when `find_key` gives nothing.
pub proof fn lemma_find_key_none<V>(e: Seq<(Seq<char>, V)>, k: Seq<char>)
    requires
        forall|j: int| 0 <= j < e.len() ==> e[j].0 != k,
    ensures
        find_key(e, k) is None,
{
    lemma_find_key(e, k);
}

/// Entries whose key is `k` hold `v` exactly when `k` was stored with `v`.
pub proof fn lemma_assoc_insert_get<V>(e: Seq<(Seq<char>, V)>, k: Seq<char>, v: V, q: Seq<char>)
    ensures
        assoc_get(assoc_insert(e, k, v), q) == (if q == k { Some(v) } else { assoc_get(e, q) }),
        assoc_insert(e, k, v).len() >= e.len(),
{
    lemma_find_key(e, k);
    lemma_find_key(e, q);
    let e2 = assoc_insert(e, k, v);
    let pos: int = match find_key(e, k) { Some(i) => i as int, None => e.len() as int };
    assert(e2[pos] == (k, v));
    assert forall|j: int| 0 <= j < e2.len() && j != pos implies #[trigger] e2[j] == e[j] by {}
    if q == k {
        lemma_find_key_char(e2, k, pos);
    } else {
        match find_key(e, q) {
            Some(i) => {
                lemma_find_key_char(e2, q, i as int);
            },
            None => {
                lemma_find_key_none(e2, q);
            },
        }
    }
}

/// The views of a sequence of strings.
pub open spec fn names(v: Seq<String>) -> Seq<Seq<char>> {
    v.map_values(|s: String| s@)
}

/// A table from names to values, keeping the order in which names first appeared.
#[derive(Debug)]
pub struct Table<V> {
    entries: Vec<(String, V)>,
}

/// The entries of a table as names and values.
pub open spec fn entries_view<V>(e: Seq<(String, V)>) -> Seq<(Seq<char>, V)> {
    e.map_values(|p: (String, V)| (p.0@, p.1))
}

impl<V: Copy> Table<V> {
    /// The entries, first stored first.
    pub closed spec fn view(&self) -> Seq<(Seq<char>, V)> {
        entries_view(self.entries@)
    }

    /// An empty table.
    pub fn new() -> (t: Self)
        ensures
            t.view() == Seq::<(Seq<char>, V)>::empty(),
    {
        let t = Table { entries: Vec::new() };
        assert(t.view() =~= Seq::<(Seq<char>, V)>::empty());
        t
    }

    fn find(&self, key: &String) -> (r: Option<usize>)
        ensures
            r matches Some(i) ==> find_key(self.view(), key@) == Some(i as nat) && i < self.view().len(),
            r is None ==> find_key(self.view(), key@) is None,
    {
        proof {
            lemma_find_key(self.view(), key@);
        }
        let mut i: usize = 0;
        while i < self.entries.len()
            invariant
                i <= self.entries@.len(),
                find_key(self.view().take(i as int), key@) is None,
            decreases self.entries@.len() - i,
        {
            proof {
                assert(self.view().take(i + 1).drop_last() =~= self.view().take(i as int));
            }
            if self.entries[i].0 == *key {
                proof {
                    lemma_find_key(self.view().take(i as int), key@);
                    assert forall|j: int| 0 <= j < i implies self.view()[j].0 != key@ by {
                        assert(self.view().take(i as int)[j] == self.view()[j]);
                    }
                    lemma_find_key_char(self.view(), key@, i as int);
                }
                return Some(i);
            }
            i = i + 1;
        }
        assert(self.view().take(i as int) =~= self.view());
        None
    }

    /// The value stored under `key`.
    pub fn get(&self, key: &String) -> (r: Option<V>)
        ensures
            r == assoc_get(self.view(), key@),
    {
        match self.find(key) {
            Some(i) => Some(self.entries[i].1),
            None => None,
        }
    }

    /// Whether a value is stored under `key`.
    pub fn contains_key(&self, key: &String) -> (r: bool)
        ensures
            r == (assoc_get(self.view(), key@) is Some),
    {
        self.find(key).is_some()
    }

    /// Stores `value` under `key`, replacing what was stored there.
    pub fn insert(&mut self, key: String, value: V)
        ensures
            final(self).view() == assoc_insert(old(self).view(), key@, value),
    {
        match self.find(&key) {
            Some(i) => {
                self.entries.set(i, (key, value));
                assert(self.view() =~= assoc_insert(old(self).view(), key@, value));
            },
            None => {
                self.entries.push((key, value));
                assert(self.view() =~= assoc_insert(old(self).view(), key@, value));
            },
        }
    }

    /// The number of entries.
    pub fn len(&self) -> (n: usize)
        ensures
            n == self.view().len(),
    {
        self.entries.len()
    }

    /// The entry at position `i`.
    pub fn entry(&self, i: usize) -> (r: (&String, V))
        requires
            i < self.view().len(),
        ensures
            r.0@ == self.view()[i as int].0,
            r.1 == self.view()[i as int].1,
    {
        (&self.entries[i].0, self.entries[i].1)
    }

    /// The names, first stored first.
    pub fn keys(&self) -> (r: Vec<String>)
        ensures
            names(r@) == assoc_keys(self.view()),
    {
        let mut r: Vec<String> = Vec::new();
        let mut i: usize = 0;
        while i < self.entries.len()
            invariant
                i <= self.entries@.len(),
                names(r@) == assoc_keys(self.view()).take(i as int),
            decreases self.entries@.len() - i,
        {
            let ghost before = r@;
            let k = self.entries[i].0.clone();
            r.push(k);
            proof {
                assert(r@ == before.push(k));
                assert(names(before).len() == i);
                assert forall|j: int| 0 <= j < i + 1 implies #[trigger] names(r@)[j]
                    == assoc_keys(self.view()).take(i + 1)[j] by {
                    if j < i {
                        assert(r@[j] == before[j]);
                        assert(names(before)[j] == assoc_keys(self.view()).take(i as int)[j]);
                    }
                }
            }
            i = i + 1;
            assert(names(r@) =~= assoc_keys(self.view()).take(i as int));
        }
        assert(assoc_keys(self.view()).take(i as int) =~= assoc_keys(self.view()));
        r
    }
}

} // verus!
