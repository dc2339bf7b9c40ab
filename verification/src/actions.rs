//! The assignment of message files to destination folders.

use vstd::prelude::*;
use crate::paths::{normal, path_normal};

verus! {

/// The files of `entries`, in order, each as the text it is compared by
/// (`path_normal`): two spellings of one path are one file.
pub open spec fn entry_keys(entries: Seq<(String, String)>) -> Seq<Seq<char>> {
    entries.map_values(|e: (String, String)| path_normal(e.0@))
}

/// The map that `entries` describe: each file (compared as a path) to its folder.
pub open spec fn entries_map(entries: Seq<(String, String)>) -> Map<Seq<char>, Seq<char>> {
    entry_keys(entries).to_set().mk_map(
        |k: Seq<char>| entries[entry_keys(entries).index_of(k)].1@,
    )
}

/// The spelling each file of `entries` is given in, by the text it is compared by.
pub open spec fn entries_spellings(entries: Seq<(String, String)>) -> Map<Seq<char>, Seq<char>> {
    entry_keys(entries).to_set().mk_map(
        |k: Seq<char>| entries[entry_keys(entries).index_of(k)].0@,
    )
}

/// `spellings` after the files `found` were assigned in order: each file not yet known
/// (compared as a path) is kept in the spelling it was found in.
pub open spec fn add_spellings(spellings: Map<Seq<char>, Seq<char>>, found: Seq<Seq<char>>) -> Map<
    Seq<char>,
    Seq<char>,
>
    decreases found.len(),
{
    if found.len() == 0 {
        spellings
    } else {
        let before = add_spellings(spellings, found.drop_last());
        let k = path_normal(found.last());
        if before.contains_key(k) {
            before
        } else {
            before.insert(k, found.last())
        }
    }
}

/// Whether the assignments of `r`, if it has any, keep each file in the spelling
/// `spellings` gives it.
pub open spec fn spelled_as<E>(r: Result<Actions, E>, spellings: Map<Seq<char>, Seq<char>>) -> bool {
    match r {
        Ok(a) => a.spellings() == spellings,
        Err(_) => true,
    }
}

/// Message files, each assigned to the folder it is to be moved to.
/// Files are compared as paths, and each occurs at most once, under the spelling
/// it was first given in.
pub struct Actions {
    entries: Vec<(String, String)>,
    /// The text each file of `entries` is compared by.
    keys: Vec<String>,
}

impl View for Actions {
    type V = Map<Seq<char>, Seq<char>>;

    closed spec fn view(&self) -> Map<Seq<char>, Seq<char>> {
        entries_map(self.entries@)
    }
}

proof fn lemma_index_of_unique(keys: Seq<Seq<char>>, i: int)
    requires
        keys.no_duplicates(),
        0 <= i < keys.len(),
    ensures
        keys.index_of(keys[i]) == i,
{
    let j = keys.index_of(keys[i]);
    assert(keys.contains(keys[i]));
}

proof fn lemma_lookup(entries: Seq<(String, String)>, i: int)
    requires
        entry_keys(entries).no_duplicates(),
        0 <= i < entries.len(),
    ensures
        entries_map(entries).contains_key(path_normal(entries[i].0@)),
        entries_map(entries)[path_normal(entries[i].0@)] == entries[i].1@,
{
    let keys = entry_keys(entries);
    assert(keys[i] == path_normal(entries[i].0@));
    lemma_index_of_unique(keys, i);
}

proof fn lemma_spelling(entries: Seq<(String, String)>, i: int)
    requires
        entry_keys(entries).no_duplicates(),
        0 <= i < entries.len(),
    ensures
        entries_spellings(entries).contains_key(path_normal(entries[i].0@)),
        entries_spellings(entries)[path_normal(entries[i].0@)] == entries[i].0@,
{
    let keys = entry_keys(entries);
    assert(keys[i] == path_normal(entries[i].0@));
    lemma_index_of_unique(keys, i);
}

proof fn lemma_absent(entries: Seq<(String, String)>, k: Seq<char>)
    requires
        forall|i: int| 0 <= i < entries.len() ==> path_normal(entries[i].0@) != k,
    ensures
        !entries_map(entries).contains_key(k),
{
    let keys = entry_keys(entries);
    if keys.contains(k) {
        let i = choose|i: int| 0 <= i < keys.len() && keys[i] == k;
        assert(path_normal(entries[i].0@) == k);
    }
}

impl Actions {
    /// The spelling each assigned file was first given in, by the text it is compared by.
    pub closed spec fn spellings(&self) -> Map<Seq<char>, Seq<char>> {
        entries_spellings(self.entries@)
    }

    #[verifier::type_invariant]
    spec fn keys_distinct(self) -> bool {
        &&& entry_keys(self.entries@).no_duplicates()
        &&& self.keys@.len() == self.entries@.len()
        &&& forall|i: int| 0 <= i < self.keys@.len() ==> #[trigger] self.keys@[i]@ == path_normal(self.entries@[i].0@)
    }

    /// No assignments.
    pub fn new() -> (r: Actions)
        ensures
            r@ == Map::<Seq<char>, Seq<char>>::empty(),
            r.spellings() == Map::<Seq<char>, Seq<char>>::empty(),
    {
        let r = Actions { entries: Vec::new(), keys: Vec::new() };
        assert(entry_keys(r.entries@).to_set() =~= Set::empty());
        assert(r@ =~= Map::<Seq<char>, Seq<char>>::empty());
        assert(r.spellings() =~= Map::<Seq<char>, Seq<char>>::empty());
        r
    }

    /// The number of assigned files.
    pub fn len(&self) -> (n: usize)
        ensures
            n == self@.len(),
    {
        proof {
            use_type_invariant(self);
            let keys = entry_keys(self.entries@);
            keys.unique_seq_to_set();
        }
        self.entries.len()
    }

    /// Whether no file is assigned.
    pub fn is_empty(&self) -> (b: bool)
        ensures
            b == (self@.len() == 0),
    {
        self.len() == 0
    }

    /// Where the file compared by `key` is, if it is assigned.
    fn position(&self, key: &String) -> (r: Option<usize>)
        ensures
            match r {
                Some(i) => i < self.entries@.len() && path_normal(self.entries@[i as int].0@) == key@,
                None => forall|i: int|
                    0 <= i < self.entries@.len() ==> path_normal(self.entries@[i].0@) != key@,
            },
    {
        proof {
            use_type_invariant(self);
        }
        let mut i: usize = 0;
        while i < self.keys.len()
            invariant
                i <= self.keys@.len(),
                self.keys@.len() == self.entries@.len(),
                forall|j: int| 0 <= j < self.keys@.len() ==> #[trigger] self.keys@[j]@ == path_normal(self.entries@[j].0@),
                forall|j: int| 0 <= j < i ==> path_normal(self.entries@[j].0@) != key@,
            decreases self.keys@.len() - i,
        {
            if self.keys[i] == *key {
                return Some(i);
            }
            i = i + 1;
        }
        None
    }

    /// The folder assigned to `path` (in whatever spelling), if any.
    pub fn get(&self, path: &str) -> (r: Option<&String>)
        ensures
            match r {
                Some(folder) => self@.contains_key(path_normal(path@)) && self@[path_normal(path@)] == folder@,
                None => !self@.contains_key(path_normal(path@)),
            },
    {
        proof {
            use_type_invariant(self);
        }
        let key = normal(path);
        match self.position(&key) {
            Some(i) => {
                proof {
                    lemma_lookup(self.entries@, i as int);
                }
                Some(&self.entries[i].1)
            },
            None => {
                proof {
                    lemma_absent(self.entries@, key@);
                }
                None
            },
        }
    }

    /// Assigns the file `path` to `folder`, and gives back the folder it was assigned
    /// to before, if any. A file assigned before keeps the spelling it was first given in.
    pub fn insert(&mut self, path: String, folder: String) -> (r: Option<String>)
        ensures
            final(self)@ == old(self)@.insert(path_normal(path@), folder@),
            final(self).spellings() == if old(self).spellings().contains_key(path_normal(path@)) {
                old(self).spellings()
            } else {
                old(self).spellings().insert(path_normal(path@), path@)
            },
            match r {
                Some(previous) => old(self)@.contains_key(path_normal(path@)) && previous@ == old(
                    self,
                )@[path_normal(path@)],
                None => !old(self)@.contains_key(path_normal(path@)),
            },
    {
        proof {
            use_type_invariant(&*self);
        }
        let ghost old_entries = self.entries@;
        let ghost old_keys_vec = self.keys@;
        let key_text = normal(path.as_str());
        let ghost key = key_text@;
        let ghost value = folder@;
        let position = self.position(&key_text);
        let mut whole = Actions::new();
        std::mem::swap(&mut whole, self);
        let Actions { mut entries, mut keys } = whole;
        proof {
            assert(entries@ == old_entries);
            assert(keys@ == old_keys_vec);
        }
        let r = match position {
            Some(i) => {
                proof {
                    lemma_lookup(old_entries, i as int);
                    lemma_spelling(old_entries, i as int);
                }
                let previous = entries[i].1.clone();
                let spelling = entries[i].0.clone();
                entries.set(i, (spelling, folder));
                proof {
                    let new_entries = entries@;
                    assert(entry_keys(new_entries) =~= entry_keys(old_entries));
                    assert forall|k: Seq<char>|
                        #![trigger entries_map(new_entries).contains_key(k)]
                        entries_map(new_entries).contains_key(k) implies entries_map(
                        new_entries,
                    )[k] == entries_map(old_entries).insert(key, value)[k] by {
                        let ks = entry_keys(new_entries);
                        let m = ks.index_of(k);
                        assert(ks.contains(k));
                        lemma_lookup(new_entries, m);
                        if m != i as int {
                            assert(new_entries[m] == old_entries[m]);
                            assert(ks[m] != ks[i as int]);
                            lemma_lookup(old_entries, m);
                        } else {
                            assert(path_normal(new_entries[m].0@) == key);
                            assert(new_entries[m].1@ == value);
                        }
                    }
                    assert(entries_map(new_entries).dom() =~= entries_map(old_entries).insert(
                        key,
                        value,
                    ).dom());
                    assert(entries_map(new_entries) =~= entries_map(old_entries).insert(key, value));
                    assert forall|k: Seq<char>|
                        #![trigger entries_spellings(new_entries).contains_key(k)]
                        entries_spellings(new_entries).contains_key(k) implies entries_spellings(
                        new_entries,
                    )[k] == entries_spellings(old_entries)[k] by {
                        let ks = entry_keys(new_entries);
                        let m = ks.index_of(k);
                        assert(ks.contains(k));
                        lemma_spelling(new_entries, m);
                        lemma_spelling(old_entries, m);
                    }
                    assert(entries_spellings(new_entries) =~= entries_spellings(old_entries));
                }
                Some(previous)
            },
            None => {
                proof {
                    lemma_absent(old_entries, key);
                    assert(!entries_spellings(old_entries).contains_key(key));
                }
                entries.push((path, folder));
                keys.push(key_text);
                proof {
                    let new_entries = entries@;
                    let n = old_entries.len() as int;
                    assert(entry_keys(new_entries) =~= entry_keys(old_entries).push(key));
                    assert forall|a: int, b: int|
                        0 <= a < b < entry_keys(new_entries).len() implies entry_keys(
                        new_entries,
                    )[a] != entry_keys(new_entries)[b] by {
                        if b == n {
                            assert(path_normal(old_entries[a].0@) != key);
                        }
                    }
                    let new_keys = entry_keys(new_entries);
                    let old_keys = entry_keys(old_entries);
                    assert forall|a: Seq<char>|
                        new_keys.to_set().contains(a) <==> old_keys.to_set().insert(key).contains(
                            a,
                        ) by {
                        if new_keys.contains(a) {
                            let m = choose|m: int| 0 <= m < new_keys.len() && new_keys[m] == a;
                            if m < n {
                                assert(old_keys[m] == a);
                            }
                        }
                        if old_keys.contains(a) {
                            let m = choose|m: int| 0 <= m < old_keys.len() && old_keys[m] == a;
                            assert(new_keys[m] == a);
                        }
                        assert(new_keys[n] == key);
                    }
                    assert(new_keys.to_set() =~= old_keys.to_set().insert(key));
                    assert forall|k: Seq<char>|
                        #![trigger entries_map(new_entries).contains_key(k)]
                        entries_map(new_entries).contains_key(k) implies entries_map(
                        new_entries,
                    )[k] == entries_map(old_entries).insert(key, value)[k] by {
                        let ks = entry_keys(new_entries);
                        let m = ks.index_of(k);
                        assert(ks.contains(k));
                        lemma_lookup(new_entries, m);
                        if m != n {
                            assert(new_entries[m] == old_entries[m]);
                            lemma_lookup(old_entries, m);
                        }
                    }
                    assert(entries_map(new_entries) =~= entries_map(old_entries).insert(key, value));
                    assert forall|k: Seq<char>|
                        #![trigger entries_spellings(new_entries).contains_key(k)]
                        entries_spellings(new_entries).contains_key(k) implies entries_spellings(
                        new_entries,
                    )[k] == entries_spellings(old_entries).insert(key, path@)[k] by {
                        let ks = entry_keys(new_entries);
                        let m = ks.index_of(k);
                        assert(ks.contains(k));
                        lemma_spelling(new_entries, m);
                        if m != n {
                            assert(new_entries[m] == old_entries[m]);
                            lemma_spelling(old_entries, m);
                        }
                    }
                    assert(entries_spellings(new_entries) =~= entries_spellings(old_entries).insert(key, path@));
                    assert forall|l: int| 0 <= l < keys@.len() implies #[trigger] keys@[l]@ == path_normal(
                        entries@[l].0@,
                    ) by {
                        if l < n {
                            assert(keys@[l] == old_keys_vec[l]);
                            assert(entries@[l] == old_entries[l]);
                        }
                    }
                }
                None
            },
        };
        *self = Actions { entries, keys };
        r
    }

    /// The assignments as (file, folder) pairs, each file once, in the spelling it was
    /// first given in.
    pub fn into_entries(self) -> (v: Vec<(String, String)>)
        ensures
            entry_keys(v@).no_duplicates(),
            entries_map(v@) == self@,
            entries_spellings(v@) == self.spellings(),
    {
        proof {
            use_type_invariant(&self);
        }
        self.entries
    }
}

} // verus!
