use vstd::prelude::*;

verus! {

/// A mapping from level identifier to display name, kept as pairs in order of insertion.
pub struct LevelNames {
    entries: Vec<(String, String)>,
    model: Ghost<Map<Seq<char>, Seq<char>>>,
}

/// `m` with `e` added where its key is still absent: the first name given to a level stays.
pub open spec fn add_entry(
    m: Map<Seq<char>, Seq<char>>,
    e: Option<(Seq<char>, Seq<char>)>,
) -> Map<Seq<char>, Seq<char>> {
    match e {
        Some((k, v)) => if m.contains_key(k) {
            m
        } else {
            m.insert(k, v)
        },
        None => m,
    }
}

/// Adding an entry never changes a level that already has a name.
pub proof fn lemma_add_entry_keeps(
    m: Map<Seq<char>, Seq<char>>,
    e: Option<(Seq<char>, Seq<char>)>,
    k: Seq<char>,
)
    requires
        m.contains_key(k),
    ensures
        add_entry(m, e).contains_key(k),
        add_entry(m, e)[k] == m[k],
{
}

/// `e` gives a name to the level `k`.
pub open spec fn entry_for(e: Option<(Seq<char>, Seq<char>)>, k: Seq<char>) -> bool {
    match e {
        Some((k2, _)) => k2 == k,
        None => false,
    }
}

/// `m1` and `m2` agree on the level `k`: both lack it, or both give it the same name.
pub open spec fn same_at(m1: Map<Seq<char>, Seq<char>>, m2: Map<Seq<char>, Seq<char>>, k: Seq<char>) -> bool {
    &&& m1.contains_key(k) == m2.contains_key(k)
    &&& m1.contains_key(k) ==> m1[k] == m2[k]
}

/// Adding an entry for another level leaves the level `k` as it was.
pub proof fn lemma_add_entry_other(
    m: Map<Seq<char>, Seq<char>>,
    e: Option<(Seq<char>, Seq<char>)>,
    k: Seq<char>,
)
    requires
        !entry_for(e, k),
    ensures
        same_at(add_entry(m, e), m, k),
{
}

/// Adding the same entry to two maps that agree on `k` keeps them agreeing on `k`.
pub proof fn lemma_add_entry_same_at(
    m1: Map<Seq<char>, Seq<char>>,
    m2: Map<Seq<char>, Seq<char>>,
    e: Option<(Seq<char>, Seq<char>)>,
    k: Seq<char>,
)
    requires
        same_at(m1, m2, k),
    ensures
        same_at(add_entry(m1, e), add_entry(m2, e), k),
{
}

impl View for LevelNames {
    type V = Map<Seq<char>, Seq<char>>;

    closed spec fn view(&self) -> Map<Seq<char>, Seq<char>> {
        self.model@
    }
}

impl LevelNames {
    /// Each stored pair agrees with the model, each level of the model is stored, once.
    pub closed spec fn wf(&self) -> bool {
        &&& forall|i: int|
            0 <= i < self.entries@.len() ==> self.model@.contains_key(
                #[trigger] self.entries@[i].0@,
            ) && self.model@[self.entries@[i].0@] == self.entries@[i].1@
        &&& forall|k: Seq<char>|
            #[trigger] self.model@.contains_key(k) ==> exists|i: int|
                0 <= i < self.entries@.len() && #[trigger] self.entries@[i].0@ == k
        &&& forall|i: int, j: int|
            0 <= i < j < self.entries@.len() ==> #[trigger] self.entries@[i].0@
                != #[trigger] self.entries@[j].0@
    }

    pub fn new() -> (r: LevelNames)
        ensures
            r.wf(),
            r@ == Map::<Seq<char>, Seq<char>>::empty(),
    {
        LevelNames { entries: Vec::new(), model: Ghost(Map::empty()) }
    }

    /// The index of the pair whose level is `key`, if there is one.
    fn position(&self, key: &String) -> (r: Option<usize>)
        requires
            self.wf(),
        ensures
            r matches Some(i) ==> i < self.entries@.len() && self.entries@[i as int].0@ == key@,
            r is None ==> !self@.contains_key(key@),
    {
        let mut i: usize = 0;
        while i < self.entries.len()
            invariant
                i <= self.entries@.len(),
                forall|j: int| 0 <= j < i ==> #[trigger] self.entries@[j].0@ != key@,
            decreases self.entries@.len() - i,
        {
            if self.entries[i].0 == *key {
                return Some(i);
            }
            i = i + 1;
        }
        None
    }

    /// Records `name` for `level` unless the level already has a name.
    pub fn insert_if_absent(&mut self, level: String, name: String)
        requires
            old(self).wf(),
        ensures
            final(self).wf(),
            final(self)@ == add_entry(old(self)@, Some((level@, name@))),
    {
        match self.position(&level) {
            Some(_) => {},
            None => {
                let ghost k = level@;
                let ghost v = name@;
                let ghost old_entries = self.entries@;
                self.entries.push((level, name));
                self.model = Ghost(self.model@.insert(k, v));
                assert forall|key: Seq<char>| #[trigger]
                    self.model@.contains_key(key) implies exists|i: int|
                    0 <= i < self.entries@.len() && #[trigger] self.entries@[i].0@ == key by {
                    if key != k {
                        let i = choose|i: int|
                            0 <= i < old_entries.len() && #[trigger] old_entries[i].0@ == key;
                        assert(self.entries@[i] == old_entries[i]);
                    } else {
                        assert(self.entries@[old_entries.len() as int].0@ == key);
                    }
                }
            },
        }
    }

    /// The name recorded for `level`.
    pub fn get(&self, level: &str) -> (r: Option<&String>)
        requires
            self.wf(),
        ensures
            r is Some <==> self@.contains_key(level@),
            r matches Some(v) ==> v@ == self@[level@],
    {
        let key = level.to_owned();
        match self.position(&key) {
            Some(i) => Some(&self.entries[i].1),
            None => None,
        }
    }

    /// The number of levels that have a name.
    pub fn len(&self) -> (r: usize)
        requires
            self.wf(),
        ensures
            r == self@.dom().len(),
    {
        proof {
            self.lemma_dom_is_keys();
        }
        self.entries.len()
    }

    /// The recorded pairs, in order of insertion, each level once.
    pub fn pairs(&self) -> (r: &[(String, String)])
        requires
            self.wf(),
        ensures
            r@.len() == self@.dom().len(),
            forall|i: int, j: int|
                0 <= i < j < r@.len() ==> #[trigger] r@[i].0@ != #[trigger] r@[j].0@,
            forall|k: Seq<char>|
                #[trigger] self@.contains_key(k) ==> exists|i: int|
                    0 <= i < r@.len() && #[trigger] r@[i].0@ == k,
            forall|i: int|
                0 <= i < r@.len() ==> self@.contains_key(#[trigger] r@[i].0@) && self@[r@[i].0@]
                    == r@[i].1@,
    {
        proof {
            self.lemma_dom_is_keys();
        }
        self.entries.as_slice()
    }

    proof fn lemma_dom_is_keys(&self)
        requires
            self.wf(),
        ensures
            self.entries@.len() == self@.dom().len(),
    {
        let keys = self.entries@.map_values(|p: (String, String)| p.0@);
        assert(keys.no_duplicates()) by {
            assert forall|i: int, j: int|
                0 <= i < keys.len() && 0 <= j < keys.len() && i != j implies keys[i] != keys[j] by {
                if i < j {
                    assert(self.entries@[i].0@ != self.entries@[j].0@);
                } else {
                    assert(self.entries@[j].0@ != self.entries@[i].0@);
                }
            }
        }
        keys.unique_seq_to_set();
        assert(keys.to_set() =~= self@.dom()) by {
            assert forall|k: Seq<char>| keys.to_set().contains(k) implies self@.dom().contains(
                k,
            ) by {
                let i = choose|i: int| 0 <= i < keys.len() && keys[i] == k;
                assert(self.entries@[i].0@ == k);
            }
            assert forall|k: Seq<char>| self@.dom().contains(k) implies keys.to_set().contains(
                k,
            ) by {
                assert(self.model@.contains_key(k));
                let i = choose|i: int|
                    0 <= i < self.entries@.len() && #[trigger] self.entries@[i].0@ == k;
                assert(keys[i] == k);
            }
        }
    }
}

} // verus!
