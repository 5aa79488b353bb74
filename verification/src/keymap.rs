//! Keyed collections over string ids.
//!
//! The upstream API keys every record by a string id, so the pipeline's
//! run-scoped maps and the preference store's hide-lists are sets and maps
//! keyed by id text. [`IdSet`] is a set of ids with value semantics;
//! [`KeyMap`] maps id text to a record, where inserting an existing key
//! overwrites its value.

use vstd::pervasive::VecAdditionalExecFns;
use vstd::prelude::*;

verus! {

/// The set of id texts held by a list of id strings.
pub open spec fn spec_id_set(ids: Seq<String>) -> Set<Seq<char>>
    decreases ids.len(),
{
    if ids.len() == 0 {
        Set::empty()
    } else {
        spec_id_set(ids.drop_last()).insert(ids.last()@)
    }
}

/// An id text is in `spec_id_set` exactly when some list entry has that text.
pub proof fn lemma_id_set_contains(ids: Seq<String>, x: Seq<char>)
    ensures
        spec_id_set(ids).contains(x) <==> exists|i: int| 0 <= i < ids.len() && ids[i]@ == x,
    decreases ids.len(),
{
    if ids.len() > 0 {
        lemma_id_set_contains(ids.drop_last(), x);
        if spec_id_set(ids).contains(x) && ids.last()@ != x {
            let i = choose|i: int| 0 <= i < ids.len() - 1 && ids.drop_last()[i]@ == x;
            assert(ids[i]@ == x);
        }
        if exists|i: int| 0 <= i < ids.len() && ids[i]@ == x {
            let i = choose|i: int| 0 <= i < ids.len() && ids[i]@ == x;
            if i < ids.len() - 1 {
                assert(ids.drop_last()[i]@ == x);
            }
        }
    }
}

/// Extending the scanned prefix by one entry inserts that entry's text.
pub proof fn lemma_id_set_take_step(ids: Seq<String>, i: int)
    requires
        0 <= i < ids.len(),
    ensures
        spec_id_set(ids.take(i + 1)) == spec_id_set(ids.take(i)).insert(ids[i]@),
{
    assert(ids.take(i + 1).drop_last() =~= ids.take(i));
    assert(ids.take(i + 1).last() == ids[i]);
}

/// A set of string ids with value semantics: inserting is idempotent and
/// membership goes by the id's text.
pub struct IdSet {
    ids: Vec<String>,
}

impl View for IdSet {
    type V = Set<Seq<char>>;

    closed spec fn view(&self) -> Set<Seq<char>> {
        spec_id_set(self.ids@)
    }
}

impl Clone for IdSet {
    fn clone(&self) -> (res: Self)
        ensures
            res@ == self@,
    {
        let res = IdSet { ids: self.ids.clone() };
        proof {
            assert(res.ids@ =~= self.ids@);
        }
        res
    }
}

impl IdSet {
    /// The empty set.
    pub fn new() -> (s: Self)
        ensures
            s@ == Set::<Seq<char>>::empty(),
    {
        let s = IdSet { ids: Vec::new() };
        proof {
            assert(s@ =~= Set::<Seq<char>>::empty());
        }
        s
    }

    /// Whether an id with this text is in the set.
    pub fn contains(&self, id: &String) -> (r: bool)
        ensures
            r == self@.contains(id@),
    {
        proof {
            lemma_id_set_contains(self.ids@, id@);
        }
        let n = self.ids.len();
        let mut i: usize = 0;
        while i < n
            invariant
                n == self.ids@.len(),
                i <= n,
                forall|j: int| 0 <= j < i ==> self.ids@[j]@ != id@,
            decreases n - i,
        {
            if self.ids[i] == *id {
                proof {
                    lemma_id_set_contains(self.ids@, id@);
                }
                return true;
            }
            i = i + 1;
        }
        proof {
            lemma_id_set_contains(self.ids@, id@);
        }
        false
    }

    /// Inserts an id; a second insertion of the same text changes nothing.
    pub fn insert(&mut self, id: String)
        ensures
            final(self)@ == old(self)@.insert(id@),
    {
        if self.contains(&id) {
            proof {
                assert(old(self)@.insert(id@) =~= old(self)@);
            }
        } else {
            let ghost prev = self.ids@;
            self.ids.push(id);
            proof {
                assert(self.ids@.drop_last() =~= prev);
            }
        }
    }

    /// Keeps only the ids that are also in `other`.
    pub fn intersect(&mut self, other: &IdSet)
        ensures
            final(self)@ == old(self)@.intersect(other@),
    {
        let n = self.ids.len();
        let mut out: Vec<String> = Vec::new();
        let mut i: usize = 0;
        proof {
            assert(spec_id_set(out@) =~= spec_id_set(self.ids@.take(0)).intersect(other@));
        }
        while i < n
            invariant
                n == self.ids@.len(),
                i <= n,
                spec_id_set(out@) == spec_id_set(self.ids@.take(i as int)).intersect(other@),
            decreases n - i,
        {
            proof {
                lemma_id_set_take_step(self.ids@, i as int);
            }
            let ghost prev = out@;
            if other.contains(&self.ids[i]) {
                out.push(self.ids[i].clone());
                proof {
                    assert(out@.drop_last() =~= prev);
                    assert(spec_id_set(out@) =~= spec_id_set(self.ids@.take(i + 1)).intersect(
                        other@,
                    ));
                }
            } else {
                proof {
                    assert(spec_id_set(out@) =~= spec_id_set(self.ids@.take(i + 1)).intersect(
                        other@,
                    ));
                }
            }
            i = i + 1;
        }
        proof {
            assert(self.ids@.take(n as int) =~= self.ids@);
        }
        self.ids = out;
    }

    /// Builds a set from a list of ids, dropping duplicate texts.
    pub fn from_list(ids: &Vec<String>) -> (s: Self)
        ensures
            s@ == spec_id_set(ids@),
    {
        let mut s = IdSet::new();
        let n = ids.len();
        let mut i: usize = 0;
        proof {
            assert(spec_id_set(ids@.take(0)) =~= Set::<Seq<char>>::empty());
        }
        while i < n
            invariant
                n == ids@.len(),
                i <= n,
                s@ == spec_id_set(ids@.take(i as int)),
            decreases n - i,
        {
            proof {
                lemma_id_set_take_step(ids@, i as int);
            }
            s.insert(ids[i].clone());
            i = i + 1;
        }
        proof {
            assert(ids@.take(n as int) =~= ids@);
        }
        s
    }

    /// The ids as a list, for iteration and persistence.
    pub fn list(&self) -> (r: &Vec<String>)
        ensures
            spec_id_set(r@) == self@,
    {
        &self.ids
    }
}

/// The id-to-record map described by an entry list, later entries
/// overwriting earlier ones with the same key text.
pub open spec fn spec_key_map<V>(entries: Seq<(String, V)>) -> Map<Seq<char>, V>
    decreases entries.len(),
{
    if entries.len() == 0 {
        Map::empty()
    } else {
        spec_key_map(entries.drop_last()).insert(entries.last().0@, entries.last().1)
    }
}

/// A key text is in `spec_key_map` exactly when some entry has that key.
pub proof fn lemma_key_map_contains<V>(entries: Seq<(String, V)>, k: Seq<char>)
    ensures
        spec_key_map(entries).contains_key(k) <==> exists|i: int|
            0 <= i < entries.len() && entries[i].0@ == k,
    decreases entries.len(),
{
    if entries.len() > 0 {
        lemma_key_map_contains(entries.drop_last(), k);
        if spec_key_map(entries).contains_key(k) && entries.last().0@ != k {
            let i = choose|i: int| 0 <= i < entries.len() - 1 && entries.drop_last()[i].0@ == k;
            assert(entries[i].0@ == k);
        }
        if exists|i: int| 0 <= i < entries.len() && entries[i].0@ == k {
            let i = choose|i: int| 0 <= i < entries.len() && entries[i].0@ == k;
            if i < entries.len() - 1 {
                assert(entries.drop_last()[i].0@ == k);
            }
        }
    }
}

/// The value at a key is the value of its last matching entry.
pub proof fn lemma_key_map_last_match<V>(entries: Seq<(String, V)>, i: int, k: Seq<char>)
    requires
        0 <= i < entries.len(),
        entries[i].0@ == k,
        forall|j: int| i < j < entries.len() ==> entries[j].0@ != k,
    ensures
        spec_key_map(entries).contains_key(k),
        spec_key_map(entries)[k] == entries[i].1,
    decreases entries.len(),
{
    if i == entries.len() - 1 {
    } else {
        assert(entries.drop_last()[i] == entries[i]);
        lemma_key_map_last_match(entries.drop_last(), i, k);
    }
}

/// Overwriting the single entry that holds a key is a map insertion.
pub proof fn lemma_key_map_update<V>(entries: Seq<(String, V)>, i: int, kv: (String, V))
    requires
        0 <= i < entries.len(),
        entries[i].0@ == kv.0@,
        forall|j: int| 0 <= j < entries.len() && j != i ==> entries[j].0@ != kv.0@,
    ensures
        spec_key_map(entries.update(i, kv)) == spec_key_map(entries).insert(kv.0@, kv.1),
    decreases entries.len(),
{
    let u = entries.update(i, kv);
    if i == entries.len() - 1 {
        assert(u.drop_last() =~= entries.drop_last());
        assert(spec_key_map(u) =~= spec_key_map(entries).insert(kv.0@, kv.1));
    } else {
        assert(u.drop_last() =~= entries.drop_last().update(i, kv));
        assert(forall|j: int|
            0 <= j < entries.drop_last().len() && j != i ==> entries.drop_last()[j].0@ != kv.0@);
        assert(entries.drop_last()[i] == entries[i]);
        lemma_key_map_update(entries.drop_last(), i, kv);
        assert(u.last() == entries.last());
        assert(spec_key_map(u) =~= spec_key_map(entries).insert(kv.0@, kv.1));
    }
}

/// A map from string ids to records. Inserting an existing key replaces
/// its record, so merging chunked fetch results is idempotent and later
/// duplicates win.
pub struct KeyMap<V> {
    entries: Vec<(String, V)>,
}

impl<V> View for KeyMap<V> {
    type V = Map<Seq<char>, V>;

    closed spec fn view(&self) -> Map<Seq<char>, V> {
        spec_key_map(self.entries@)
    }
}

impl<V> KeyMap<V> {
    /// Each key text appears in at most one entry.
    #[verifier::type_invariant]
    spec fn wf(&self) -> bool {
        forall|i: int, j: int|
            0 <= i < j < self.entries@.len() ==> self.entries@[i].0@ != self.entries@[j].0@
    }

    /// The empty map.
    pub fn new() -> (m: Self)
        ensures
            m@ == Map::<Seq<char>, V>::empty(),
    {
        let m = KeyMap { entries: Vec::new() };
        proof {
            assert(m@ =~= Map::<Seq<char>, V>::empty());
        }
        m
    }

    /// The index of the entry holding this key, if any.
    fn index_of(&self, k: &String) -> (r: Option<usize>)
        ensures
            match r {
                Some(i) => i < self.entries@.len() && self.entries@[i as int].0@ == k@,
                None => forall|j: int|
                    0 <= j < self.entries@.len() ==> self.entries@[j].0@ != k@,
            },
    {
        let n = self.entries.len();
        let mut i: usize = 0;
        while i < n
            invariant
                n == self.entries@.len(),
                i <= n,
                forall|j: int| 0 <= j < i ==> self.entries@[j].0@ != k@,
            decreases n - i,
        {
            if self.entries[i].0 == *k {
                return Some(i);
            }
            i = i + 1;
        }
        None
    }

    /// Whether any record is stored under this key.
    pub fn contains_key(&self, k: &String) -> (r: bool)
        ensures
            r == self@.contains_key(k@),
    {
        proof {
            lemma_key_map_contains(self.entries@, k@);
        }
        self.index_of(k).is_some()
    }

    /// The record stored under this key, if any.
    pub fn get(&self, k: &String) -> (r: Option<&V>)
        ensures
            match r {
                Some(v) => self@.contains_key(k@) && *v == self@[k@],
                None => !self@.contains_key(k@),
            },
    {
        proof {
            use_type_invariant(&*self);
            lemma_key_map_contains(self.entries@, k@);
        }
        match self.index_of(k) {
            Some(i) => {
                proof {
                    lemma_key_map_last_match(self.entries@, i as int, k@);
                }
                Some(&self.entries[i].1)
            },
            None => None,
        }
    }

    /// Stores a record under a key, replacing any record already there.
    pub fn insert(&mut self, k: String, v: V)
        ensures
            final(self)@ == old(self)@.insert(k@, v),
    {
        proof {
            use_type_invariant(&*self);
        }
        let found = self.index_of(&k);
        let mut entries: Vec<(String, V)> = Vec::new();
        core::mem::swap(&mut entries, &mut self.entries);
        let ghost prev = entries@;
        match found {
            Some(i) => {
                proof {
                    lemma_key_map_update(prev, i as int, (k, v));
                }
                entries.set(i, (k, v));
            },
            None => {
                entries.push((k, v));
                proof {
                    assert(entries@.drop_last() =~= prev);
                }
            },
        }
        core::mem::swap(&mut entries, &mut self.entries);
    }

    /// The entries as a list, for iteration and persistence.
    pub fn entries(&self) -> (r: &Vec<(String, V)>)
        ensures
            spec_key_map(r@) == self@,
            forall|i: int, j: int| 0 <= i < j < r@.len() ==> r@[i].0@ != r@[j].0@,
    {
        proof {
            use_type_invariant(&*self);
        }
        &self.entries
    }

    /// Builds a map from an entry list; a later duplicate key wins.
    pub fn from_entries(list: Vec<(String, V)>) -> (m: Self)
        ensures
            m@ == spec_key_map(list@),
    {
        let ghost orig = list@;
        let mut list = list;
        let mut m = KeyMap::new();
        proof {
            assert(orig.take(0) =~= Seq::<(String, V)>::empty());
            assert(m@ =~= spec_key_map(orig.take(0)));
        }
        let ghost i: int = 0;
        while list.len() > 0
            invariant
                0 <= i <= orig.len(),
                list@ =~= orig.skip(i),
                m@ == spec_key_map(orig.take(i)),
            decreases list@.len(),
        {
            let kv = list.remove(0);
            proof {
                assert(kv == orig[i]);
                assert(orig.take(i + 1).drop_last() =~= orig.take(i));
            }
            m.insert(kv.0, kv.1);
            proof {
                i = i + 1;
                assert(list@ =~= orig.skip(i));
            }
        }
        proof {
            assert(orig.take(i) =~= orig);
        }
        m
    }
}

} // verus!
