//! A drive that keeps its entries in memory.

use vstd::prelude::*;
use crate::acls::FileAcls;
use crate::drive::{listed_names, Contents, Drive, DriveFactory, Metadata, StorageError};
use crate::order::{
    lemma_insert_to_set, lemma_names_of_insert, lemma_names_of_remove, lemma_remove_to_set,
    lemma_sorted_insert, lemma_sorted_remove, names_of, search, sorted,
};
use crate::text::join;

verus! {

/// The modification time that this drive reports for every entry, in seconds
/// since the Unix epoch: it does not track real times.
pub const PLACEHOLDER_DATE: i64 = 1_588_757_875;

/// A drive that records all data in memory only.
///
/// The entries sit in vectors sorted by name rather than in a hash map:
/// vstd states `HashMap` operations only for key types with a key model,
/// and `String` has none, so a map keyed by names would prove nothing.
pub struct InMemoryDrive {
    /// The names of the entries, in increasing order.
    names: Vec<String>,
    /// The content of each entry, at the index of its name.
    contents: Vec<String>,
    /// The readers of each entry, at the index of its name.
    acls: Vec<FileAcls>,
    /// What the three vectors hold together.
    held: Ghost<Contents>,
}

impl InMemoryDrive {
    /// The entries in the order of their names, as (name, content) pairs.
    pub closed spec fn entries(&self) -> Seq<(Seq<char>, Seq<char>)> {
        Seq::new(self.names@.len(), |i: int| (self.names@[i]@, self.contents@[i]@))
    }

    /// An empty drive.
    pub fn new() -> (r: InMemoryDrive)
        ensures
            r.wf(),
            r.contents().files == Map::<Seq<char>, Seq<char>>::empty(),
            r.contents().readers == Map::<Seq<char>, Set<Seq<char>>>::empty(),
    {
        let r = InMemoryDrive {
            names: Vec::new(),
            contents: Vec::new(),
            acls: Vec::new(),
            held: Ghost(Contents { files: Map::empty(), readers: Map::empty() }),
        };
        assert(names_of(r.names@).to_set() =~= Set::<Seq<char>>::empty());
        r
    }

    /// Returns the stored entries as (name, content) pairs, in increasing
    /// order of name.
    pub fn as_hashmap(&self) -> (r: Vec<(String, String)>)
        requires
            self.wf(),
        ensures
            r@.len() == self.contents().files.len(),
            sorted(r@.map_values(|e: (String, String)| e.0@)),
            forall|i: int|
                #![trigger r@[i]]
                0 <= i < r@.len() ==> self.contents().files.contains_key(r@[i].0@)
                    && self.contents().files[r@[i].0@] == r@[i].1@,
    {
        let mut r: Vec<(String, String)> = Vec::new();
        let mut i: usize = 0;
        while i < self.names.len()
            invariant
                self.wf(),
                i <= self.names@.len(),
                r@.len() == i,
                forall|j: int|
                    0 <= j < i ==> (#[trigger] r@[j]).0@ == self.names@[j]@ && r@[j].1@
                        == self.contents@[j]@,
            decreases self.names@.len() - i,
        {
            r.push((self.names[i].clone(), self.contents[i].clone()));
            i = i + 1;
        }
        proof {
            let ns = names_of(self.names@);
            assert(r@.map_values(|e: (String, String)| e.0@) =~= ns);
            assert forall|j: int| #![trigger r@[j]] 0 <= j < r@.len() implies self.contents().files.contains_key(
                r@[j].0@,
            ) && self.contents().files[r@[j].0@] == r@[j].1@ by {
                assert(ns[j] == self.names@[j]@);
                assert(r@[j].0@ == ns[j]);
                assert(ns.contains(ns[j]));
            }
            self.lemma_len();
        }
        r
    }

    proof fn lemma_len(&self)
        requires
            self.wf(),
        ensures
            self.contents().files.len() == self.names@.len(),
    {
        let ns = names_of(self.names@);
        assert(ns.no_duplicates()) by {
            assert forall|a: int, b: int| 0 <= a < ns.len() && 0 <= b < ns.len() && a != b implies ns[a]
                != ns[b] by {
                if a < b {
                    crate::order::lemma_name_lt_irreflexive(ns[a]);
                } else {
                    crate::order::lemma_name_lt_irreflexive(ns[b]);
                }
            }
        }
        ns.unique_seq_to_set();
    }

    fn not_found() -> (r: StorageError)
        ensures
            r is NotFound,
    {
        StorageError::NotFound(join("Entry", " not found"))
    }
}

impl Drive for InMemoryDrive {
    closed spec fn wf(&self) -> bool {
        let ns = names_of(self.names@);
        &&& self.contents@.len() == self.names@.len()
        &&& self.acls@.len() == self.names@.len()
        &&& sorted(ns)
        &&& self.held@.files.dom() == ns.to_set()
        &&& self.held@.readers.dom() == ns.to_set()
        &&& forall|i: int|
            0 <= i < ns.len() ==> self.held@.files[#[trigger] ns[i]] == self.contents@[i]@
                && self.held@.readers[ns[i]] == self.acls@[i].reader_set() && self.acls@[i].wf()
    }

    closed spec fn contents(&self) -> Contents {
        self.held@
    }

    open spec fn reliable(&self) -> bool {
        true
    }

    open spec fn has_acls(&self) -> bool {
        true
    }

    open spec fn fixed_date(&self) -> Option<i64> {
        Some(PLACEHOLDER_DATE)
    }

    fn delete(&mut self, name: &str) -> (r: Result<(), StorageError>) {
        let (found, i) = search(&self.names, name);
        if !found {
            return Err(InMemoryDrive::not_found());
        }
        let ghost ns = names_of(self.names@);
        proof {
            lemma_sorted_remove(ns, i as int);
            lemma_names_of_remove(self.names@, i as int);
            lemma_remove_to_set(ns, i as int);
        }
        self.names.remove(i);
        self.contents.remove(i);
        self.acls.remove(i);
        self.held = Ghost(
            Contents {
                files: self.held@.files.remove(name@),
                readers: self.held@.readers.remove(name@),
            },
        );
        proof {
            let ns2 = names_of(self.names@);
            assert forall|j: int| 0 <= j < ns2.len() implies self.held@.files[#[trigger] ns2[j]]
                == self.contents@[j]@ && self.held@.readers[ns2[j]] == self.acls@[j].reader_set()
                && self.acls@[j].wf() by {
                let k = if j < i { j } else { j + 1 };
                assert(ns2[j] == ns[k]);
                assert(ns[k] != name@) by {
                    crate::order::lemma_name_lt_irreflexive(name@);
                }
            }
        }
        Ok(())
    }

    fn enumerate(&self) -> (r: Result<Vec<(String, Metadata)>, StorageError>) {
        let mut v: Vec<(String, Metadata)> = Vec::new();
        let ghost ns = names_of(self.names@);
        let mut i: usize = 0;
        while i < self.names.len()
            invariant
                self.wf(),
                ns == names_of(self.names@),
                i <= self.names@.len(),
                v@.len() == i,
                forall|j: int|
                    0 <= j < i ==> (#[trigger] v@[j]).0@ == ns[j] && v@[j].1.length
                        == crate::drive::byte_len(self.contents@[j]@) && v@[j].1.date
                        == PLACEHOLDER_DATE,
            decreases self.names@.len() - i,
        {
            let n = self.contents[i].as_str().as_bytes().len();
            assert(n == crate::drive::byte_len(self.contents@[i as int]@));
            let length = n as u64;
            assert(length == n);
            let name = self.names[i].clone();
            assert(name@ == ns[i as int]);
            v.push((name, Metadata { date: PLACEHOLDER_DATE, length }));
            i = i + 1;
        }
        proof {
            assert(listed_names(v@) =~= ns);
        }
        Ok(v)
    }

    fn get(&self, name: &str) -> (r: Result<String, StorageError>) {
        let (found, i) = search(&self.names, name);
        if found {
            assert(names_of(self.names@)[i as int] == name@);
            Ok(self.contents[i].clone())
        } else {
            Err(InMemoryDrive::not_found())
        }
    }

    fn put(&mut self, name: &str, content: &str) -> (r: Result<(), StorageError>) {
        let (found, i) = search(&self.names, name);
        let ghost ns = names_of(self.names@);
        if found {
            assert(ns[i as int] == name@);
            self.contents.set(i, content.to_owned());
            self.held = Ghost(
                Contents { files: self.held@.files.insert(name@, content@), readers: self.held@.readers },
            );
            proof {
                assert(self.held@.files.dom() =~= ns.to_set());
                assert forall|j: int| 0 <= j < ns.len() implies self.held@.files[#[trigger] ns[j]]
                    == self.contents@[j]@ by {
                    if j != i {
                        crate::order::lemma_name_lt_irreflexive(name@);
                    }
                }
            }
        } else {
            let owned = name.to_owned();
            proof {
                lemma_sorted_insert(ns, i as int, name@);
                lemma_names_of_insert(self.names@, i as int, owned);
                lemma_insert_to_set(ns, i as int, name@);
            }
            self.names.insert(i, owned);
            self.contents.insert(i, content.to_owned());
            self.acls.insert(i, FileAcls::new());
            self.held = Ghost(
                Contents {
                    files: self.held@.files.insert(name@, content@),
                    readers: self.held@.readers.insert(name@, Set::empty()),
                },
            );
            proof {
                let ns2 = names_of(self.names@);
                assert(ns2 == ns.insert(i as int, name@));
                assert(Seq::<Seq<char>>::empty().to_set() =~= Set::<Seq<char>>::empty());
                assert forall|j: int| 0 <= j < ns2.len() implies self.held@.files[#[trigger] ns2[j]]
                    == self.contents@[j]@ && self.held@.readers[ns2[j]] == self.acls@[j].reader_set()
                    && self.acls@[j].wf() by {
                    if j < i {
                        assert(ns2[j] == ns[j]);
                        assert(ns[j] != name@) by {
                            crate::order::lemma_name_lt_irreflexive(name@);
                        }
                    } else if j > i {
                        assert(ns2[j] == ns[j - 1]);
                        assert(ns[j - 1] != name@) by {
                            crate::order::lemma_name_lt_irreflexive(name@);
                        }
                    }
                }
            }
        }
        Ok(())
    }

    fn get_acls(&self, name: &str) -> (r: Result<FileAcls, StorageError>) {
        let (found, i) = search(&self.names, name);
        if found {
            assert(names_of(self.names@)[i as int] == name@);
            Ok(self.acls[i].clone())
        } else {
            Err(InMemoryDrive::not_found())
        }
    }

    fn update_acls(&mut self, name: &str, add: &FileAcls, remove: &FileAcls) -> (r: Result<
        (),
        StorageError,
    >) {
        let (found, i) = search(&self.names, name);
        if !found {
            return Err(InMemoryDrive::not_found());
        }
        let ghost ns = names_of(self.names@);
        assert(ns[i as int] == name@);
        let mut acls = self.acls[i].clone();
        let ghost start = acls.reader_set();
        let added = add.readers();
        let mut j: usize = 0;
        while j < added.len()
            invariant
                acls.wf(),
                j <= added@.len(),
                names_of(added@).to_set() == add.reader_set(),
                acls.reader_set() == start.union(names_of(added@.subrange(0, j as int)).to_set()),
            decreases added@.len() - j,
        {
            acls.add_reader(added[j].clone());
            proof {
                assert(names_of(added@.subrange(0, j + 1)) =~= names_of(added@.subrange(0, j as int)).push(added@[j as int]@));
                names_of(added@.subrange(0, j as int)).lemma_push_to_set_commute(added@[j as int]@);
                assert(acls.reader_set() =~= start.union(names_of(added@.subrange(0, j + 1)).to_set()));
            }
            j = j + 1;
        }
        assert(added@.subrange(0, j as int) =~= added@);
        let ghost mid = acls.reader_set();
        let removed = remove.readers();
        let mut k: usize = 0;
        while k < removed.len()
            invariant
                acls.wf(),
                k <= removed@.len(),
                names_of(removed@).to_set() == remove.reader_set(),
                acls.reader_set() == mid.difference(names_of(removed@.subrange(0, k as int)).to_set()),
            decreases removed@.len() - k,
        {
            acls.remove_reader(removed[k].as_str());
            proof {
                assert(names_of(removed@.subrange(0, k + 1)) =~= names_of(removed@.subrange(0, k as int)).push(removed@[k as int]@));
                names_of(removed@.subrange(0, k as int)).lemma_push_to_set_commute(removed@[k as int]@);
                assert(acls.reader_set() =~= mid.difference(names_of(removed@.subrange(0, k + 1)).to_set()));
            }
            k = k + 1;
        }
        assert(removed@.subrange(0, k as int) =~= removed@);
        let ghost merged = acls.reader_set();
        self.acls.set(i, acls);
        self.held = Ghost(
            Contents { files: self.held@.files, readers: self.held@.readers.insert(name@, merged) },
        );
        proof {
            assert(self.held@.readers.dom() =~= ns.to_set());
            assert forall|j2: int| 0 <= j2 < ns.len() implies self.held@.readers[#[trigger] ns[j2]]
                == self.acls@[j2].reader_set() && self.acls@[j2].wf() by {
                if j2 != i {
                    crate::order::lemma_name_lt_irreflexive(name@);
                }
            }
            assert(merged =~= crate::drive::merge_readers(start, add.reader_set(), remove.reader_set()));
        }
        Ok(())
    }
}

impl Default for InMemoryDrive {
    fn default() -> (r: InMemoryDrive)
        ensures
            r.wf(),
            r.contents().files == Map::<Seq<char>, Seq<char>>::empty(),
            r.contents().readers == Map::<Seq<char>, Set<Seq<char>>>::empty(),
    {
        InMemoryDrive::new()
    }
}

/// Builds a new, empty in-memory drive for any target.
pub struct InMemoryDriveFactory {}

impl InMemoryDriveFactory {
    /// The factory.
    pub fn new() -> InMemoryDriveFactory {
        InMemoryDriveFactory {  }
    }
}

impl DriveFactory<InMemoryDrive> for InMemoryDriveFactory {
    /// Building always succeeds, with an empty drive.
    open spec fn creates(&self, target: Seq<char>, r: Result<InMemoryDrive, StorageError>) -> bool {
        r matches Ok(d) && d.contents().files.is_empty() && d.contents().readers.is_empty()
    }

    fn create(&self, _target: &str) -> (r: Result<InMemoryDrive, StorageError>) {
        let d = InMemoryDrive::new();
        assert(d.contents().files =~= Map::<Seq<char>, Seq<char>>::empty());
        Ok(d)
    }
}

} // verus!
