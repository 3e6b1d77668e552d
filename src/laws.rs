//! Properties that hold of every drive, stated over the outcomes that the
//! drive operations promise.

use vstd::prelude::*;
use crate::drive::{
    byte_len, deleted, got, listed_names, lists, merge_readers, stored, Contents, Drive,
    DriveFactory, Metadata, StorageError,
};
use crate::mem::{InMemoryDrive, InMemoryDriveFactory};
use crate::storage::{mount_outcome, mount_route, Storage};

verus! {

/// Storing `content` as `name` and then loading `name` gives `content`
/// back; on a reliable drive both succeed.
pub proof fn law_put_then_get(
    before: Contents,
    after: Contents,
    reliable: bool,
    name: Seq<char>,
    content: Seq<char>,
    put: Result<(), StorageError>,
    get: Result<String, StorageError>,
)
    requires
        stored(before, after, reliable, name, content, put),
        put is Ok,
        got(after, reliable, name, get),
    ensures
        get matches Ok(c) ==> c@ == content,
        reliable ==> get is Ok,
{
}

/// Deleting an entry that was just stored succeeds, and loading it then
/// fails with `NotFound`, on a reliable drive.
pub proof fn law_delete_after_put(
    before: Contents,
    stored_state: Contents,
    after: Contents,
    name: Seq<char>,
    content: Seq<char>,
    put: Result<(), StorageError>,
    delete: Result<(), StorageError>,
    get: Result<String, StorageError>,
)
    requires
        stored(before, stored_state, true, name, content, put),
        deleted(stored_state, after, true, name, delete),
        got(after, true, name, get),
    ensures
        delete is Ok,
        get matches Err(StorageError::NotFound(_)),
{
}

/// Deleting a name that is not there fails with `NotFound` on a reliable
/// drive, and never succeeds on any drive.
pub proof fn law_delete_absent(
    before: Contents,
    after: Contents,
    reliable: bool,
    name: Seq<char>,
    delete: Result<(), StorageError>,
)
    requires
        !before.files.contains_key(name),
        deleted(before, after, reliable, name, delete),
    ensures
        delete is Err,
        reliable ==> delete matches Err(StorageError::NotFound(_)),
        after == before,
{
}

/// A listing taken after storing `content` as `name` holds `name` once,
/// with the byte length of `content`, and only names that are live.
pub proof fn law_listing_after_put(
    before: Contents,
    after: Contents,
    reliable: bool,
    name: Seq<char>,
    content: Seq<char>,
    put: Result<(), StorageError>,
    listing: Seq<(String, Metadata)>,
)
    requires
        stored(before, after, reliable, name, content, put),
        put is Ok,
        lists(listing, after.files),
    ensures
        exists|i: int|
            0 <= i < listing.len() && #[trigger] listing[i].0@ == name && listing[i].1.length
                == byte_len(content),
        forall|i: int|
            0 <= i < listing.len() ==> after.files.contains_key(#[trigger] listing[i].0@),
        listing.len() == after.files.dom().len(),
{
    let ns = listed_names(listing);
    assert(after.files.dom().contains(name));
    assert(ns.to_set().contains(name));
    let i = choose|i: int| 0 <= i < ns.len() && ns[i] == name;
    assert(listing[i].0@ == name);
    assert forall|j: int| 0 <= j < listing.len() implies after.files.contains_key(
        #[trigger] listing[j].0@,
    ) by {
        assert(ns[j] == listing[j].0@);
        assert(ns.to_set().contains(ns[j]));
    }
    assert(ns.no_duplicates()) by {
        assert forall|a: int, b: int| 0 <= a < ns.len() && 0 <= b < ns.len() && a != b implies ns[a]
            != ns[b] by {
            if a < b {
                crate::order::lemma_name_lt_irreflexive(ns[a]);
            } else {
                crate::order::lemma_name_lt_irreflexive(ns[b]);
            }
        }
    }
    ns.unique_seq_to_set();
}

/// Adding readers `a` and `b` and then removing `a` leaves `b` and not `a`,
/// beside the readers that were there; from no readers it leaves exactly `b`.
pub proof fn law_add_then_remove(readers: Set<Seq<char>>, a: Seq<char>, b: Seq<char>)
    requires
        a != b,
    ensures
        merge_readers(
            merge_readers(readers, set![a, b], Set::empty()),
            Set::empty(),
            set![a],
        ) == readers.insert(b).remove(a),
        merge_readers(
            merge_readers(Set::empty(), set![a, b], Set::empty()),
            Set::empty(),
            set![a],
        ) == set![b],
{
    assert(merge_readers(merge_readers(readers, set![a, b], Set::empty()), Set::empty(), set![a])
        =~= readers.insert(b).remove(a));
    assert(merge_readers(merge_readers(Set::empty(), set![a, b], Set::empty()), Set::empty(), set![a])
        =~= set![b]);
}

/// A reader both added and removed in one change ends up absent.
pub proof fn law_remove_wins(readers: Set<Seq<char>>, a: Seq<char>)
    ensures
        !merge_readers(readers, set![a], set![a]).contains(a),
{
}

/// With a registered scheme whose factory always builds a drive, mounting
/// succeeds and maps the name to the target; mounting the same name again
/// succeeds too and replaces the earlier target, the name still mounted once.
pub proof fn law_mount_replaces<D: Drive, F: DriveFactory<D>>(
    s0: Storage<D, F>,
    s1: Storage<D, F>,
    s2: Storage<D, F>,
    name: Seq<char>,
    t1: Seq<char>,
    t2: Seq<char>,
    r1: Result<(), StorageError>,
    r2: Result<(), StorageError>,
)
    requires
        s0.schemes().contains(mount_route(t1).0),
        s0.schemes().contains(mount_route(t2).0),
        forall|t: Seq<char>, c: Result<D, StorageError>|
            #[trigger] s0.factory(mount_route(t1).0).creates(t, c) ==> c is Ok,
        forall|t: Seq<char>, c: Result<D, StorageError>|
            #[trigger] s0.factory(mount_route(t2).0).creates(t, c) ==> c is Ok,
        mount_outcome(s0, s1, name, t1, r1),
        mount_outcome(s1, s2, name, t2, r2),
    ensures
        r1 is Ok,
        r2 is Ok,
        s1.mounts() == s0.mounts().insert(name, t1),
        s2.mounts() == s0.mounts().insert(name, t2),
        s2.mounts().dom() == s0.mounts().dom().insert(name),
{
    let c1 = choose|c: Result<D, StorageError>|
        #[trigger] s0.factory(mount_route(t1).0).creates(mount_route(t1).1, c) && match c {
            Ok(d) => {
                &&& r1 is Ok
                &&& s1.mounts() == s0.mounts().insert(name, t1)
                &&& s1.drive(name) == d
                &&& s1.others_kept(&s0, name)
            },
            Err(e) => r1 == Err::<(), StorageError>(e) && s1 == s0,
        };
    assert(s1.factory(mount_route(t2).0) == s0.factory(mount_route(t2).0));
    let c2 = choose|c: Result<D, StorageError>|
        #[trigger] s1.factory(mount_route(t2).0).creates(mount_route(t2).1, c) && match c {
            Ok(d) => {
                &&& r2 is Ok
                &&& s2.mounts() == s1.mounts().insert(name, t2)
                &&& s2.drive(name) == d
                &&& s2.others_kept(&s1, name)
            },
            Err(e) => r2 == Err::<(), StorageError>(e) && s2 == s1,
        };
    assert(s0.factory(mount_route(t2).0).creates(mount_route(t2).1, c2));
    assert(s2.mounts() =~= s0.mounts().insert(name, t2));
}

/// The in-memory factory always builds a drive, so mounting through a
/// scheme registered with it succeeds, and mounting again replaces.
pub proof fn law_mount_replaces_in_memory(
    s0: Storage<InMemoryDrive, InMemoryDriveFactory>,
    s1: Storage<InMemoryDrive, InMemoryDriveFactory>,
    s2: Storage<InMemoryDrive, InMemoryDriveFactory>,
    name: Seq<char>,
    t1: Seq<char>,
    t2: Seq<char>,
    r1: Result<(), StorageError>,
    r2: Result<(), StorageError>,
)
    requires
        s0.schemes().contains(mount_route(t1).0),
        s0.schemes().contains(mount_route(t2).0),
        mount_outcome(s0, s1, name, t1, r1),
        mount_outcome(s1, s2, name, t2, r2),
    ensures
        r1 is Ok,
        r2 is Ok,
        s1.mounts() == s0.mounts().insert(name, t1),
        s2.mounts() == s0.mounts().insert(name, t2),
{
    law_mount_replaces(s0, s1, s2, name, t1, t2, r1, r2);
}

} // verus!
