//! Sets of readers of a file, kept sorted for display.

use vstd::prelude::*;
use crate::order::{
    lemma_insert_to_set, lemma_names_of_insert, lemma_names_of_remove, lemma_remove_to_set,
    lemma_sorted_insert, lemma_sorted_remove, names_of, search, sorted,
};

verus! {

/// The readers of a file: user names, or `public` for everyone.
#[derive(Debug)]
pub struct FileAcls {
    readers: Vec<String>,
}

impl View for FileAcls {
    type V = Seq<Seq<char>>;

    /// The readers in increasing order.
    closed spec fn view(&self) -> Seq<Seq<char>> {
        names_of(self.readers@)
    }
}

impl FileAcls {
    /// The readers kept in increasing order, each once.
    pub closed spec fn wf(&self) -> bool {
        sorted(self@)
    }

    /// The set of readers.
    pub open spec fn reader_set(&self) -> Set<Seq<char>> {
        self@.to_set()
    }

    pub proof fn lemma_wf_sorted(&self)
        requires
            self.wf(),
        ensures
            sorted(self@),
    {
    }

    /// An empty set of readers.
    pub fn new() -> (r: FileAcls)
        ensures
            r.wf(),
            r@ == Seq::<Seq<char>>::empty(),
    {
        let r = FileAcls { readers: Vec::new() };
        assert(r@ =~= Seq::<Seq<char>>::empty());
        r
    }

    /// Adds every one of `readers`.
    pub fn with_readers(self, readers: Vec<String>) -> (r: FileAcls)
        requires
            self.wf(),
        ensures
            r.wf(),
            r.reader_set() == self.reader_set() + names_of(readers@).to_set(),
    {
        let mut acls = self;
        let ghost start = acls.reader_set();
        let mut i: usize = 0;
        while i < readers.len()
            invariant
                acls.wf(),
                i <= readers@.len(),
                acls.reader_set() == start + names_of(readers@.subrange(0, i as int)).to_set(),
            decreases readers@.len() - i,
        {
            acls.add_reader(readers[i].clone());
            proof {
                assert(names_of(readers@.subrange(0, i + 1)) =~= names_of(
                    readers@.subrange(0, i as int),
                ).push(readers@[i as int]@));
                names_of(readers@.subrange(0, i as int)).lemma_push_to_set_commute(
                    readers@[i as int]@,
                );
                assert(acls.reader_set() =~= start + names_of(readers@.subrange(0, i + 1)).to_set());
            }
            i = i + 1;
        }
        assert(readers@.subrange(0, i as int) =~= readers@);
        acls
    }

    /// Adds `reader`; one already there stays once.
    pub fn add_reader(&mut self, reader: String)
        requires
            old(self).wf(),
        ensures
            final(self).wf(),
            final(self).reader_set() == old(self).reader_set().insert(reader@),
    {
        let (found, i) = search(&self.readers, reader.as_str());
        if !found {
            proof {
                lemma_sorted_insert(self@, i as int, reader@);
                lemma_names_of_insert(self.readers@, i as int, reader);
            }
            let ghost s0 = self@;
            self.readers.insert(i, reader);
            proof {
                lemma_insert_to_set(s0, i as int, reader@);
            }
        } else {
            proof {
                assert(self@[i as int] == reader@);
                assert(self.reader_set() =~= self.reader_set().insert(reader@));
            }
        }
    }

    /// Removes `reader`; one that is not there is no error.
    pub fn remove_reader(&mut self, reader: &str)
        requires
            old(self).wf(),
        ensures
            final(self).wf(),
            final(self).reader_set() == old(self).reader_set().remove(reader@),
    {
        let (found, i) = search(&self.readers, reader);
        if found {
            let ghost s0 = self@;
            proof {
                lemma_sorted_remove(s0, i as int);
                lemma_names_of_remove(self.readers@, i as int);
                lemma_remove_to_set(s0, i as int);
            }
            self.readers.remove(i);
        } else {
            proof {
                assert(self.reader_set() =~= self.reader_set().remove(reader@));
            }
        }
    }

    /// The readers, in increasing order.
    pub fn readers(&self) -> (r: &Vec<String>)
        requires
            self.wf(),
        ensures
            names_of(r@) == self@,
            sorted(names_of(r@)),
            names_of(r@).to_set() == self.reader_set(),
    {
        &self.readers
    }

    /// Whether there are no readers.
    pub fn is_empty(&self) -> (r: bool)
        ensures
            r == (self@.len() == 0),
    {
        self.readers.len() == 0
    }
}

impl Clone for FileAcls {
    fn clone(&self) -> (r: FileAcls)
        ensures
            r@ == self@,
            r.wf() == self.wf(),
    {
        let readers = self.readers.clone();
        assert(readers@ =~= self.readers@);
        FileAcls { readers }
    }
}

impl Default for FileAcls {
    fn default() -> (r: FileAcls)
        ensures
            r.wf(),
            r@ == Seq::<Seq<char>>::empty(),
    {
        FileAcls::new()
    }
}

} // verus!
