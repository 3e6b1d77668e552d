//! The operations that every storage backend offers, and their outcomes.

use vstd::prelude::*;
use vstd::utf8::encode_utf8;
use crate::acls::FileAcls;
use crate::order::sorted;

verus! {

/// The kinds of failure of the storage layer, each with its message.
#[derive(Debug, Clone)]
pub enum StorageError {
    /// A missing entry, drive or scheme.
    NotFound(String),
    /// A malformed argument.
    ArgumentError(String),
    /// An operation that the drive does not back.
    Unsupported(String),
    /// A failure reported by a remote service, with its message as given.
    RemoteFailure(String),
    /// A caller's error, such as logging in twice.
    InternalError(String),
}

impl StorageError {
    /// The message that comes with the error.
    pub fn message(&self) -> (r: &String)
        ensures
            r == self.text(),
    {
        match self {
            StorageError::NotFound(m) => m,
            StorageError::ArgumentError(m) => m,
            StorageError::Unsupported(m) => m,
            StorageError::RemoteFailure(m) => m,
            StorageError::InternalError(m) => m,
        }
    }

    /// The message that comes with the error.
    pub open spec fn text(&self) -> &String {
        match self {
            StorageError::NotFound(m) => m,
            StorageError::ArgumentError(m) => m,
            StorageError::Unsupported(m) => m,
            StorageError::RemoteFailure(m) => m,
            StorageError::InternalError(m) => m,
        }
    }
}

/// Metadata of an entry in a drive.
#[derive(Debug, Clone, Copy, PartialEq, Eq)]
pub struct Metadata {
    /// Last modification time, in seconds since the Unix epoch (UTC).
    pub date: i64,
    /// Size of the content in bytes.
    pub length: u64,
}

/// The number of bytes of the UTF-8 encoding of `s`.
pub open spec fn byte_len(s: Seq<char>) -> nat {
    encode_utf8(s).len()
}

/// The names of a listing of entries.
pub open spec fn listed_names(v: Seq<(String, Metadata)>) -> Seq<Seq<char>> {
    v.map_values(|e: (String, Metadata)| e.0@)
}

/// `v` lists the entries of `files`: each once, in increasing order of name,
/// each with the byte length of its content.
pub open spec fn lists(v: Seq<(String, Metadata)>, files: Map<Seq<char>, Seq<char>>) -> bool {
    &&& sorted(listed_names(v))
    &&& listed_names(v).to_set() == files.dom()
    &&& forall|i: int|
        0 <= i < v.len() ==> (#[trigger] v[i]).1.length == byte_len(files[v[i].0@])
}

/// The readers that remain of `old` once `add` has been added and then
/// `remove` taken away: a reader in both ends up removed.
pub open spec fn merge_readers(
    old: Set<Seq<char>>,
    add: Set<Seq<char>>,
    remove: Set<Seq<char>>,
) -> Set<Seq<char>> {
    old.union(add).difference(remove)
}

/// What a drive holds: the content of each entry and the readers of each
/// entry, over the same names.
pub struct Contents {
    pub files: Map<Seq<char>, Seq<char>>,
    pub readers: Map<Seq<char>, Set<Seq<char>>>,
}

/// Operations to load and store programs on some storage medium.
pub trait Drive: Sized {
    /// The drive's own consistency.
    spec fn wf(&self) -> bool;

    /// What the drive holds.
    spec fn contents(&self) -> Contents;

    /// Whether every operation succeeds but for a missing entry.
    spec fn reliable(&self) -> bool;

    /// Whether the drive keeps readers for its entries; one that does not
    /// fails every ACL operation with `Unsupported`.
    spec fn has_acls(&self) -> bool;

    /// The modification time that the drive reports for every entry, where
    /// it reports one time for all rather than real times.
    spec fn fixed_date(&self) -> Option<i64>;

    /// Deletes the entry `name`.
    fn delete(&mut self, name: &str) -> (r: Result<(), StorageError>)
        requires
            old(self).wf(),
        ensures
            final(self).wf(),
            final(self).reliable() == old(self).reliable(),
            deleted(old(self).contents(), final(self).contents(), old(self).reliable(), name@, r),
    ;

    /// Lists the entries in increasing order of name, with their metadata.
    fn enumerate(&self) -> (r: Result<Vec<(String, Metadata)>, StorageError>)
        requires
            self.wf(),
        ensures
            match r {
                Ok(v) => lists(v@, self.contents().files) && (self.fixed_date() matches Some(t)
                    ==> forall|i: int| 0 <= i < v@.len() ==> (#[trigger] v@[i]).1.date == t),
                Err(_) => !self.reliable(),
            },
    ;

    /// Loads the content of the entry `name`.
    fn get(&self, name: &str) -> (r: Result<String, StorageError>)
        requires
            self.wf(),
        ensures
            got(self.contents(), self.reliable(), name@, r),
    ;

    /// Stores `content` as the entry `name`, over any earlier content.
    fn put(&mut self, name: &str, content: &str) -> (r: Result<(), StorageError>)
        requires
            old(self).wf(),
        ensures
            final(self).wf(),
            final(self).reliable() == old(self).reliable(),
            stored(
                old(self).contents(),
                final(self).contents(),
                old(self).reliable(),
                name@,
                content@,
                r,
            ),
    ;

    /// Loads the readers of the entry `name`.
    fn get_acls(&self, name: &str) -> (r: Result<FileAcls, StorageError>)
        requires
            self.wf(),
        ensures
            got_acls(self.contents(), self.reliable(), self.has_acls(), name@, r),
    ;

    /// Adds the readers of `add` to the entry `name`, then takes away those of `remove`.
    fn update_acls(&mut self, name: &str, add: &FileAcls, remove: &FileAcls) -> (r: Result<
        (),
        StorageError,
    >)
        requires
            old(self).wf(),
            add.wf(),
            remove.wf(),
        ensures
            final(self).wf(),
            final(self).reliable() == old(self).reliable(),
            final(self).has_acls() == old(self).has_acls(),
            acls_updated(
                old(self).contents(),
                final(self).contents(),
                old(self).reliable(),
                old(self).has_acls(),
                name@,
                add.reader_set(),
                remove.reader_set(),
                r,
            ),
    ;
}

/// What `get` may return: the content where the entry exists; `NotFound`
/// where it does not; another error only from a drive that is not reliable.
pub open spec fn got(c: Contents, reliable: bool, name: Seq<char>, r: Result<String, StorageError>) -> bool {
    match r {
        Ok(s) => c.files.contains_key(name) && s@ == c.files[name],
        Err(StorageError::NotFound(_)) => !c.files.contains_key(name),
        Err(_) => !reliable,
    }
}

/// What `get_acls` may return: `Unsupported` from a drive without readers;
/// else the readers where the entry exists; `NotFound` where it does not;
/// another error only from a drive that is not reliable.
pub open spec fn got_acls(
    c: Contents,
    reliable: bool,
    has_acls: bool,
    name: Seq<char>,
    r: Result<FileAcls, StorageError>,
) -> bool {
    if !has_acls {
        r matches Err(StorageError::Unsupported(_))
    } else {
        match r {
            Ok(a) => a.wf() && c.files.contains_key(name) && a.reader_set() == c.readers[name],
            Err(StorageError::NotFound(_)) => !c.files.contains_key(name),
            Err(_) => !reliable,
        }
    }
}

/// What `delete` may do: remove an entry that exists; fail with `NotFound`
/// where it does not; fail otherwise only on a drive that is not reliable.
pub open spec fn deleted(
    before: Contents,
    after: Contents,
    reliable: bool,
    name: Seq<char>,
    r: Result<(), StorageError>,
) -> bool {
    match r {
        Ok(_) => before.files.contains_key(name) && after.files == before.files.remove(name)
            && after.readers == before.readers.remove(name),
        Err(StorageError::NotFound(_)) => !before.files.contains_key(name) && after == before,
        Err(_) => !reliable && after == before,
    }
}

/// What `put` may do: store the content, keeping the readers of an entry that
/// existed and giving a new one none; fail only on a drive that is not reliable.
pub open spec fn stored(
    before: Contents,
    after: Contents,
    reliable: bool,
    name: Seq<char>,
    content: Seq<char>,
    r: Result<(), StorageError>,
) -> bool {
    match r {
        Ok(_) => after.files == before.files.insert(name, content) && after.readers == (
        if before.files.contains_key(name) {
            before.readers
        } else {
            before.readers.insert(name, Set::empty())
        }),
        Err(_) => !reliable && after == before,
    }
}

/// What `update_acls` may do: fail with `Unsupported` on a drive without
/// readers; else merge the readers of an entry that exists; fail with
/// `NotFound` where it does not; fail otherwise only on a drive that is not
/// reliable.
pub open spec fn acls_updated(
    before: Contents,
    after: Contents,
    reliable: bool,
    has_acls: bool,
    name: Seq<char>,
    add: Set<Seq<char>>,
    remove: Set<Seq<char>>,
    r: Result<(), StorageError>,
) -> bool {
    if !has_acls {
        (r matches Err(StorageError::Unsupported(_))) && after == before
    } else {
        match r {
            Ok(_) => before.files.contains_key(name) && after.files == before.files
                && after.readers == before.readers.insert(
                name,
                merge_readers(before.readers[name], add, remove),
            ),
            Err(StorageError::NotFound(_)) => !before.files.contains_key(name) && after == before,
            Err(_) => !reliable && after == before,
        }
    }
}

/// Builds drives for one scheme of mount targets.
pub trait DriveFactory<D: Drive> {
    /// What building a drive for `target` may give.
    spec fn creates(&self, target: Seq<char>, r: Result<D, StorageError>) -> bool;

    /// Builds the drive that `target` (what follows `scheme://`) designates.
    fn create(&self, target: &str) -> (r: Result<D, StorageError>)
        ensures
            r matches Ok(d) ==> d.wf(),
            self.creates(target@, r),
    ;
}

} // verus!
