//! A snapshot of contract storage. The execution backend owns storage; the
//! inspector holds what was last read from it.

use crate::text::string_views;
use vstd::hash_map::StringHashMap;
use vstd::prelude::*;
use vstd::string::*;

verus! {

/// Inspects contract storage: a mapping from key to serialized value in a
/// hash map, and beside it the keys in the order in which they were first
/// set, by which the snapshot is shown.
pub struct StorageInspector {
    storage: StringHashMap<String>,
    keys: Vec<String>,
}

/// The mapping with every value as a plain value.
pub open spec fn value_views(storage: Map<Seq<char>, String>) -> Map<Seq<char>, Seq<char>> {
    Map::new(|key: Seq<char>| storage.contains_key(key), |key: Seq<char>| storage[key]@)
}

/// Whether `keys` lists the keys of `storage`, each once.
pub open spec fn lists_keys(keys: Seq<Seq<char>>, storage: Map<Seq<char>, Seq<char>>) -> bool {
    &&& keys.no_duplicates()
    &&& forall|i: int| 0 <= i < keys.len() ==> storage.contains_key(#[trigger] keys[i])
    &&& forall|key: Seq<char>| #[trigger] storage.contains_key(key) ==> keys.contains(key)
}

/// The keys after `key` is set: a known key keeps its place, a new key
/// comes after the others.
pub open spec fn keys_with(keys: Seq<Seq<char>>, key: Seq<char>) -> Seq<Seq<char>> {
    if keys.contains(key) {
        keys
    } else {
        keys.push(key)
    }
}

/// The line that shows one storage entry.
pub open spec fn storage_line(key: Seq<char>, value: Seq<char>) -> Seq<char> {
    "  "@ + key + " = "@ + value
}

/// The lines that show a snapshot: a heading, then one line for each key
/// of `keys` with its value in `storage`. An empty snapshot is a single
/// line.
pub open spec fn storage_lines(keys: Seq<Seq<char>>, storage: Map<Seq<char>, Seq<char>>) -> Seq<
    Seq<char>,
> {
    if keys.len() == 0 {
        seq!["Storage: (empty)"@]
    } else {
        seq!["Storage:"@] + Seq::new(keys.len(), |i: int| storage_line(keys[i], storage[keys[i]]))
    }
}

impl View for StorageInspector {
    type V = Map<Seq<char>, Seq<char>>;

    closed spec fn view(&self) -> Map<Seq<char>, Seq<char>> {
        value_views(self.storage@)
    }
}

impl StorageInspector {
    /// The keys in the order in which they were first set.
    pub closed spec fn spec_keys(&self) -> Seq<Seq<char>> {
        string_views(self.keys@)
    }

    /// The invariant of the snapshot: the list of keys holds the keys of
    /// the mapping, each once. Every constructor establishes it and every
    /// method keeps it.
    pub closed spec fn well_formed(&self) -> bool {
        lists_keys(self.spec_keys(), self@)
    }

    /// The list of keys holds the keys of the snapshot, each once.
    pub proof fn lemma_keys(&self)
        requires
            self.well_formed(),
        ensures
            lists_keys(self.spec_keys(), self@),
            self.spec_keys().len() == 0 <==> self@ == Map::<Seq<char>, Seq<char>>::empty(),
    {
        if self.spec_keys().len() == 0 {
            assert forall|key: Seq<char>| !self@.contains_key(key) by {
                if self@.contains_key(key) {
                    assert(self.spec_keys().contains(key));
                }
            }
            assert(self@ =~= Map::<Seq<char>, Seq<char>>::empty());
        } else {
            assert(self@.contains_key(self.spec_keys()[0]));
        }
    }

    /// Creates an empty snapshot.
    pub fn new() -> (inspector: Self)
        ensures
            inspector.well_formed(),
            inspector@ == Map::<Seq<char>, Seq<char>>::empty(),
            inspector.spec_keys().len() == 0,
    {
        let inspector = Self { storage: StringHashMap::new(), keys: Vec::new() };
        assert(inspector@ =~= Map::<Seq<char>, Seq<char>>::empty());
        inspector
    }

    /// Gets all storage entries.
    pub fn get_all(&self) -> (all: &StringHashMap<String>)
        ensures
            value_views(all@) == self@,
    {
        &self.storage
    }

    /// The keys of the snapshot, in the order in which they were first
    /// set.
    pub fn keys(&self) -> (keys: &Vec<String>)
        ensures
            string_views(keys@) == self.spec_keys(),
    {
        &self.keys
    }

    /// Gets a specific storage value: that of `key`, or `None` where the
    /// snapshot holds no such key.
    pub fn get(&self, key: &str) -> (value: Option<&String>)
        ensures
            match value {
                Some(v) => self@.contains_key(key@) && v@ == self@[key@],
                None => !self@.contains_key(key@),
            },
    {
        self.storage.get(key)
    }

    /// Records that `key` holds `value`: a new key is added after the
    /// others, a known key keeps its place.
    pub fn set(&mut self, key: String, value: String)
        requires
            old(self).well_formed(),
        ensures
            final(self).well_formed(),
            final(self)@ == old(self)@.insert(key@, value@),
            final(self).spec_keys() == keys_with(old(self).spec_keys(), key@),
    {
        let ghost before = self@;
        let ghost listed = self.spec_keys();
        let known = self.storage.contains_key(key.as_str());
        proof {
            if listed.contains(key@) {
                let i = choose|i: int| 0 <= i < listed.len() && listed[i] == key@;
                assert(before.contains_key(listed[i]));
            }
            assert(known == before.contains_key(key@));
            assert(known == listed.contains(key@));
        }
        if !known {
            self.keys.push(key.clone());
            assert(self.spec_keys() =~= listed.push(key@));
        }
        self.storage.insert(key, value);
        proof {
            let after = self@;
            let now = self.spec_keys();
            assert(after =~= before.insert(key@, value@));
            assert(now == keys_with(listed, key@));
            assert forall|i: int| 0 <= i < now.len() implies after.contains_key(
                #[trigger] now[i],
            ) by {
                if i < listed.len() {
                    assert(before.contains_key(listed[i]));
                }
            }
            assert forall|q: Seq<char>| #[trigger] after.contains_key(q) implies now.contains(
                q,
            ) by {
                if q == key@ {
                    if known {
                        assert(now.contains(q));
                    } else {
                        assert(now[now.len() - 1] == q);
                    }
                } else {
                    assert(before.contains_key(q));
                    let i = choose|i: int| 0 <= i < listed.len() && listed[i] == q;
                    assert(now[i] == q);
                }
            }
        }
    }

    /// Forgets every entry.
    pub fn clear(&mut self)
        ensures
            final(self).well_formed(),
            final(self)@ == Map::<Seq<char>, Seq<char>>::empty(),
            final(self).spec_keys().len() == 0,
    {
        self.storage.clear();
        self.keys.clear();
        assert(self@ =~= Map::<Seq<char>, Seq<char>>::empty());
    }

    /// Displays storage in a readable format: returns the text to show,
    /// line by line, for the caller to print. The entries come in the
    /// order in which their keys were first set.
    pub fn display(&self) -> (lines: Vec<String>)
        requires
            self.well_formed(),
        ensures
            string_views(lines@) == storage_lines(self.spec_keys(), self@),
    {
        let mut lines: Vec<String> = Vec::new();
        if self.keys.is_empty() {
            lines.push(String::from_str("Storage: (empty)"));
            assert(string_views(lines@) =~= storage_lines(self.spec_keys(), self@));
            return lines;
        }
        lines.push(String::from_str("Storage:"));
        let mut i: usize = 0;
        while i < self.keys.len()
            invariant
                i <= self.keys.len(),
                self.keys.len() > 0,
                self.well_formed(),
                lines@.len() == i + 1,
                lines@[0]@ == "Storage:"@,
                forall|j: int|
                    0 <= j < i ==> lines@[j + 1]@ == storage_line(
                        self.spec_keys()[j],
                        self@[self.spec_keys()[j]],
                    ),
            decreases self.keys.len() - i,
        {
            let key = self.keys[i].as_str();
            let mut line = String::from_str("  ");
            line.append(key);
            line.append(" = ");
            proof {
                assert(self.spec_keys()[i as int] == key@);
                assert(self@.contains_key(self.spec_keys()[i as int]));
            }
            if let Some(value) = self.storage.get(key) {
                line.append(value.as_str());
            }
            lines.push(line);
            i += 1;
        }
        assert(string_views(lines@) =~= storage_lines(self.spec_keys(), self@));
        lines
    }
}

impl Default for StorageInspector {
    fn default() -> (inspector: Self)
        ensures
            inspector.well_formed(),
            inspector@ == Map::<Seq<char>, Seq<char>>::empty(),
    {
        Self::new()
    }
}

} // verus!
