//! The mount table and scheme registry, and the routing of `NAME:/entry`
//! paths to the drive mounted under `NAME`.

use vstd::prelude::*;
use crate::acls::FileAcls;
use crate::drive::{
    acls_updated, deleted, got, got_acls, lists, stored, Drive, DriveFactory, Metadata,
    StorageError,
};
use crate::order::{
    lemma_index_of_sorted, lemma_insert_to_set, lemma_names_of_insert, lemma_sorted_insert, names_of,
    search, sorted,
};
use crate::text::{join, split_once_char, strip_prefix};

verus! {

/// What precedes the first `:` of `p`, or all of `p` where it holds none.
pub open spec fn before_colon(p: Seq<char>) -> Seq<char>
    decreases p.len(),
{
    if p.len() == 0 {
        p
    } else if p[0] == ':' {
        Seq::empty()
    } else {
        seq![p[0]] + before_colon(p.drop_first())
    }
}

/// What follows the first `:` of `p`, or nothing where it holds none.
pub open spec fn after_colon(p: Seq<char>) -> Seq<char>
    decreases p.len(),
{
    if p.len() == 0 {
        p
    } else if p[0] == ':' {
        p.drop_first()
    } else {
        after_colon(p.drop_first())
    }
}

/// The drive name and the entry name of a path `NAME:/entry` (the `/` may
/// be left out); `None` where the path has no `:`.
pub open spec fn path_parts(p: Seq<char>) -> Option<(Seq<char>, Seq<char>)> {
    if p.contains(':') {
        let rest = after_colon(p);
        Some(
            (
                before_colon(p),
                if rest.len() > 0 && rest[0] == '/' {
                    rest.drop_first()
                } else {
                    rest
                },
            ),
        )
    } else {
        None
    }
}

/// The scheme and the target handed to its factory for a mount target:
/// `scheme://rest` gives `scheme` and `rest`; any other target is a local
/// directory, which the `file` scheme builds.
pub open spec fn mount_route(t: Seq<char>) -> (Seq<char>, Seq<char>) {
    if t.contains(':') && seq!['/', '/'].is_prefix_of(after_colon(t)) {
        (before_colon(t), after_colon(t).skip(2))
    } else {
        (seq!['f', 'i', 'l', 'e'], t)
    }
}

proof fn lemma_colon_split(p: Seq<char>, a: Seq<char>, b: Seq<char>)
    requires
        p == a + seq![':'] + b,
        !a.contains(':'),
    ensures
        p.contains(':'),
        before_colon(p) == a,
        after_colon(p) == b,
    decreases a.len(),
{
    assert(p[a.len() as int] == ':');
    if a.len() == 0 {
        assert(p.drop_first() =~= b);
    } else {
        assert(a[0] != ':') by {
            assert(a.contains(a[0]) ==> a[0] != ':');
        }
        let a2 = a.drop_first();
        assert(!a2.contains(':')) by {
            if a2.contains(':') {
                let k = choose|k: int| 0 <= k < a2.len() && a2[k] == ':';
                assert(a[k + 1] == ':');
            }
        }
        assert(p.drop_first() =~= a2 + seq![':'] + b);
        lemma_colon_split(p.drop_first(), a2, b);
        assert(seq![p[0]] + a2 =~= a);
    }
}

/// Splits `path` into its drive name and entry name.
pub fn split_path(path: &str) -> (r: Result<(String, String), StorageError>)
    ensures
        match path_parts(path@) {
            None => r matches Err(StorageError::ArgumentError(_)),
            Some((d, e)) => r matches Ok((d2, e2)) && d2@ == d && e2@ == e,
        },
{
    match split_once_char(path, ':') {
        None => Err(StorageError::ArgumentError(join("Invalid path: ", path))),
        Some((drive, rest)) => {
            proof {
                lemma_colon_split(path@, drive@, rest@);
                reveal_strlit("/");
            }
            match strip_prefix(rest.as_str(), "/") {
                Some(entry) => {
                    assert(entry@ =~= rest@.drop_first());
                    Ok((drive, entry))
                },
                None => {
                    assert(!(rest@.len() > 0 && rest@[0] == '/')) by {
                        if rest@.len() > 0 && rest@[0] == '/' {
                            assert(seq!['/'].is_prefix_of(rest@));
                        }
                    }
                    Ok((drive, rest))
                },
            }
        },
    }
}

/// Splits a mount target into the scheme to build it with and what the
/// scheme's factory is given.
pub fn split_target(target: &str) -> (r: (String, String))
    ensures
        (r.0@, r.1@) == mount_route(target@),
{
    proof {
        reveal_strlit("//");
        reveal_strlit("file");
    }
    if let Some((scheme, rest)) = split_once_char(target, ':') {
        proof {
            lemma_colon_split(target@, scheme@, rest@);
        }
        if let Some(authority) = strip_prefix(rest.as_str(), "//") {
            assert(authority@ =~= rest@.skip(2));
            return (scheme, authority);
        }
    }
    ("file".to_owned(), target.to_owned())
}

/// What `mount` may do: fail with `NotFound` where the scheme of `target` is
/// not registered; else hand what follows `scheme://` to the scheme's
/// factory, and mount the drive that it builds as `name`, or fail with its
/// error and change nothing.
pub open spec fn mount_outcome<D: Drive, F: DriveFactory<D>>(
    before: Storage<D, F>,
    after: Storage<D, F>,
    name: Seq<char>,
    target: Seq<char>,
    r: Result<(), StorageError>,
) -> bool {
    &&& after.schemes() == before.schemes()
    &&& forall|s: Seq<char>| #[trigger] after.factory(s) == before.factory(s)
    &&& if !before.schemes().contains(mount_route(target).0) {
        (r matches Err(StorageError::NotFound(_))) && after == before
    } else {
        exists|c: Result<D, StorageError>|
            #[trigger] before.factory(mount_route(target).0).creates(mount_route(target).1, c)
                && match c {
                Ok(d) => {
                    &&& r is Ok
                    &&& after.mounts() == before.mounts().insert(name, target)
                    &&& after.drive(name) == d
                    &&& after.others_kept(&before, name)
                },
                Err(e) => r == Err::<(), StorageError>(e) && after == before,
            }
    }
}

/// What `get_acls` may return for `path`: `ArgumentError` for a malformed
/// path, `NotFound` for an unmounted drive, else what the drive returns.
pub open spec fn acls_lookup<D: Drive, F: DriveFactory<D>>(
    storage: Storage<D, F>,
    path: Seq<char>,
    r: Result<FileAcls, StorageError>,
) -> bool {
    match path_parts(path) {
        None => r matches Err(StorageError::ArgumentError(_)),
        Some((d, e)) => if storage.mounts().contains_key(d) {
            got_acls(
                storage.drive(d).contents(),
                storage.drive(d).reliable(),
                storage.drive(d).has_acls(),
                e,
                r,
            )
        } else {
            r matches Err(StorageError::NotFound(_))
        },
    }
}

/// What `update_acls` may do for `path`: fail with `ArgumentError` for a
/// malformed path or `NotFound` for an unmounted drive, changing nothing;
/// else what the drive does, the other drives, the mounts and the schemes
/// kept.
pub open spec fn acls_update<D: Drive, F: DriveFactory<D>>(
    before: Storage<D, F>,
    after: Storage<D, F>,
    path: Seq<char>,
    add: Set<Seq<char>>,
    remove: Set<Seq<char>>,
    r: Result<(), StorageError>,
) -> bool {
    &&& after.mounts() == before.mounts()
    &&& after.schemes() == before.schemes()
    &&& match path_parts(path) {
        None => (r matches Err(StorageError::ArgumentError(_))) && after == before,
        Some((d, e)) => if before.mounts().contains_key(d) {
            &&& acls_updated(
                before.drive(d).contents(),
                after.drive(d).contents(),
                before.drive(d).reliable(),
                before.drive(d).has_acls(),
                e,
                add,
                remove,
                r,
            )
            &&& after.drive(d).reliable() == before.drive(d).reliable()
            &&& after.drive(d).has_acls() == before.drive(d).has_acls()
            &&& after.others_kept(&before, d)
        } else {
            (r matches Err(StorageError::NotFound(_))) && after == before
        },
    }
}

/// The mount table and the scheme registry of a session.
pub struct Storage<D: Drive, F: DriveFactory<D>> {
    /// The registered schemes, in increasing order.
    schemes: Vec<String>,
    /// The factory of each scheme, at its index.
    factories: Vec<F>,
    /// The names of the mounted drives, in increasing order.
    names: Vec<String>,
    /// The target that each drive was mounted from, at the index of its name.
    targets: Vec<String>,
    /// Each mounted drive, at the index of its name.
    drives: Vec<D>,
}

impl<D: Drive, F: DriveFactory<D>> Storage<D, F> {
    /// The consistency of the table and the registry.
    pub closed spec fn wf(&self) -> bool {
        &&& sorted(names_of(self.schemes@))
        &&& self.factories@.len() == self.schemes@.len()
        &&& sorted(names_of(self.names@))
        &&& self.targets@.len() == self.names@.len()
        &&& self.drives@.len() == self.names@.len()
        &&& forall|i: int| 0 <= i < self.drives@.len() ==> (#[trigger] self.drives@[i]).wf()
    }

    /// The index of the mounted drive `name`.
    closed spec fn index_of(&self, name: Seq<char>) -> int {
        names_of(self.names@).index_of(name)
    }

    /// The mount table: drive name to the target it was mounted from.
    pub closed spec fn mounts(&self) -> Map<Seq<char>, Seq<char>> {
        Map::new(
            |k: Seq<char>| names_of(self.names@).contains(k),
            |k: Seq<char>| self.targets@[self.index_of(k)]@,
        )
    }

    /// The drive mounted under `name`.
    pub closed spec fn drive(&self, name: Seq<char>) -> D {
        self.drives@[self.index_of(name)]
    }

    /// The registered schemes.
    pub closed spec fn schemes(&self) -> Set<Seq<char>> {
        names_of(self.schemes@).to_set()
    }

    /// The factory of a registered scheme.
    pub closed spec fn factory(&self, scheme: Seq<char>) -> F {
        self.factories@[names_of(self.schemes@).index_of(scheme)]
    }

    /// No drives and no schemes.
    pub fn new() -> (r: Self)
        ensures
            r.wf(),
            r.mounts() == Map::<Seq<char>, Seq<char>>::empty(),
            r.schemes() == Set::<Seq<char>>::empty(),
    {
        let r = Storage {
            schemes: Vec::new(),
            factories: Vec::new(),
            names: Vec::new(),
            targets: Vec::new(),
            drives: Vec::new(),
        };
        assert(r.mounts() =~= Map::<Seq<char>, Seq<char>>::empty());
        assert(r.schemes() =~= Set::<Seq<char>>::empty());
        r
    }
}

impl<D: Drive, F: DriveFactory<D>> Storage<D, F> {
    /// Every drive but the one under `name` is as it was in `before`.
    pub open spec fn others_kept(&self, before: &Self, name: Seq<char>) -> bool {
        forall|k: Seq<char>|
            #![trigger self.drive(k)]
            before.mounts().contains_key(k) && k != name ==> self.drive(k) == before.drive(k)
    }

    proof fn lemma_index(&self, k: Seq<char>)
        requires
            self.wf(),
            self.mounts().contains_key(k),
        ensures
            0 <= self.index_of(k) < self.names@.len(),
            names_of(self.names@)[self.index_of(k)] == k,
            self.drive(k) == self.drives@[self.index_of(k)],
            self.mounts()[k] == self.targets@[self.index_of(k)]@,
    {
        let ns = names_of(self.names@);
        let i = choose|i: int| 0 <= i < ns.len() && ns[i] == k;
        lemma_index_of_sorted(ns, i);
    }

    proof fn lemma_at(&self, i: int)
        requires
            self.wf(),
            0 <= i < self.names@.len(),
        ensures
            self.mounts().contains_key(names_of(self.names@)[i]),
            self.index_of(names_of(self.names@)[i]) == i,
    {
        lemma_index_of_sorted(names_of(self.names@), i);
    }

    /// Finds the drive of `path`: its index and the entry name.
    fn locate(&self, path: &str) -> (r: Result<(usize, String), StorageError>)
        requires
            self.wf(),
        ensures
            match path_parts(path@) {
                None => r matches Err(StorageError::ArgumentError(_)),
                Some((d, e)) => if self.mounts().contains_key(d) {
                    r matches Ok((i, e2)) && i == self.index_of(d) && i < self.drives@.len()
                        && e2@ == e
                } else {
                    r matches Err(StorageError::NotFound(_))
                },
            },
    {
        let (drive, entry) = split_path(path)?;
        let (found, i) = search(&self.names, drive.as_str());
        if found {
            proof {
                self.lemma_at(i as int);
            }
            Ok((i, entry))
        } else {
            Err(StorageError::NotFound(join("Drive not found: ", drive.as_str())))
        }
    }

    /// Binds `factory` to `scheme`, in place of any earlier one.
    pub fn register_scheme(&mut self, scheme: &str, factory: F)
        requires
            old(self).wf(),
        ensures
            final(self).wf(),
            final(self).schemes() == old(self).schemes().insert(scheme@),
            final(self).factory(scheme@) == factory,
            final(self).mounts() == old(self).mounts(),
            forall|k: Seq<char>| #[trigger] final(self).drive(k) == old(self).drive(k),
    {
        let ghost ss = names_of(self.schemes@);
        let (found, i) = search(&self.schemes, scheme);
        if found {
            self.factories.set(i, factory);
            proof {
                lemma_index_of_sorted(ss, i as int);
                assert(self.schemes() =~= old(self).schemes().insert(scheme@));
            }
        } else {
            let owned = scheme.to_owned();
            proof {
                lemma_sorted_insert(ss, i as int, scheme@);
                lemma_names_of_insert(self.schemes@, i as int, owned);
                lemma_insert_to_set(ss, i as int, scheme@);
            }
            self.schemes.insert(i, owned);
            self.factories.insert(i, factory);
            proof {
                lemma_index_of_sorted(names_of(self.schemes@), i as int);
            }
        }
    }

    /// Whether `scheme` is registered.
    pub fn has_scheme(&self, scheme: &str) -> (r: bool)
        requires
            self.wf(),
        ensures
            r == self.schemes().contains(scheme@),
    {
        search(&self.schemes, scheme).0
    }

    /// Mounts `drive` as `name`, made from `target`, in place of any drive
    /// mounted as `name` before.
    pub fn attach(&mut self, name: &str, target: &str, drive: D)
        requires
            old(self).wf(),
            drive.wf(),
        ensures
            final(self).wf(),
            final(self).mounts() == old(self).mounts().insert(name@, target@),
            final(self).drive(name@) == drive,
            final(self).others_kept(old(self), name@),
            final(self).schemes() == old(self).schemes(),
            forall|s: Seq<char>| #[trigger] final(self).factory(s) == old(self).factory(s),
    {
        let ghost ns = names_of(self.names@);
        let (found, i) = search(&self.names, name);
        if found {
            self.targets.set(i, target.to_owned());
            self.drives.set(i, drive);
            proof {
                self.lemma_at(i as int);
                assert(self.mounts() =~= old(self).mounts().insert(name@, target@)) by {
                    assert forall|k: Seq<char>| #[trigger] self.mounts().contains_key(k) implies self.mounts()[k]
                        == old(self).mounts().insert(name@, target@)[k] by {
                        self.lemma_index(k);
                        old(self).lemma_index(k);
                    }
                }
                assert forall|k: Seq<char>|
                    #![trigger self.drive(k)]
                    old(self).mounts().contains_key(k) && k != name@ implies self.drive(k)
                    == old(self).drive(k) by {
                    self.lemma_index(k);
                    old(self).lemma_index(k);
                }
            }
        } else {
            let owned = name.to_owned();
            proof {
                lemma_sorted_insert(ns, i as int, name@);
                lemma_names_of_insert(self.names@, i as int, owned);
                lemma_insert_to_set(ns, i as int, name@);
            }
            self.names.insert(i, owned);
            self.targets.insert(i, target.to_owned());
            self.drives.insert(i, drive);
            proof {
                let ns2 = names_of(self.names@);
                lemma_index_of_sorted(ns2, i as int);
                assert(self.mounts() =~= old(self).mounts().insert(name@, target@)) by {
                    assert forall|k: Seq<char>| #[trigger] self.mounts().contains_key(k) implies self.mounts()[k]
                        == old(self).mounts().insert(name@, target@)[k] by {
                        self.lemma_index(k);
                        if k != name@ {
                            let j = self.index_of(k);
                            let j2 = if j < i { j } else { j - 1 };
                            assert(ns[j2] == k);
                            lemma_index_of_sorted(ns, j2);
                        }
                    }
                    assert forall|k: Seq<char>| #[trigger] old(self).mounts().contains_key(k) implies self.mounts().contains_key(k) by {
                        old(self).lemma_index(k);
                        let j = old(self).index_of(k);
                        let j2 = if j < i { j } else { j + 1 };
                        assert(ns2[j2] == k);
                    }
                }
                assert forall|k: Seq<char>|
                    #![trigger self.drive(k)]
                    old(self).mounts().contains_key(k) && k != name@ implies self.drive(k)
                    == old(self).drive(k) by {
                    old(self).lemma_index(k);
                    let j = old(self).index_of(k);
                    let j2 = if j < i { j } else { j + 1 };
                    assert(ns2[j2] == k);
                    lemma_index_of_sorted(ns2, j2);
                }
            }
        }
    }

    /// Mounts as `name` the drive that `target` designates, built by the
    /// factory of its scheme, in place of any drive mounted as `name` before.
    pub fn mount(&mut self, name: &str, target: &str) -> (r: Result<(), StorageError>)
        requires
            old(self).wf(),
        ensures
            final(self).wf(),
            mount_outcome(*old(self), *final(self), name@, target@, r),
    {
        let (scheme, rest) = split_target(target);
        let (found, i) = search(&self.schemes, scheme.as_str());
        if !found {
            return Err(StorageError::NotFound(join("Unknown mount scheme: ", scheme.as_str())));
        }
        proof {
            lemma_index_of_sorted(names_of(self.schemes@), i as int);
        }
        let created = self.factories[i].create(rest.as_str());
        let ghost c = created;
        match created {
            Ok(drive) => {
                let ghost d = drive;
                self.attach(name, target, drive);
                assert(mount_route(target@).0 == scheme@ && mount_route(target@).1 == rest@);
                assert(old(self).factory(mount_route(target@).0).creates(mount_route(target@).1, c));
                Ok(())
            },
            Err(e) => {
                assert(mount_route(target@).0 == scheme@ && mount_route(target@).1 == rest@);
                assert(old(self).factory(mount_route(target@).0).creates(mount_route(target@).1, c));
                Err(e)
            },
        }
    }

    /// The mounted drives and their targets, in increasing order of name.
    pub fn mounted(&self) -> (r: Vec<(String, String)>)
        requires
            self.wf(),
        ensures
            sorted(r@.map_values(|e: (String, String)| e.0@)),
            r@.map_values(|e: (String, String)| e.0@).to_set() == self.mounts().dom(),
            forall|i: int|
                #![trigger r@[i]]
                0 <= i < r@.len() ==> self.mounts()[r@[i].0@] == r@[i].1@,
    {
        let mut r: Vec<(String, String)> = Vec::new();
        let mut i: usize = 0;
        while i < self.names.len()
            invariant
                self.wf(),
                i <= self.names@.len(),
                r@.len() == i,
                forall|j: int|
                    0 <= j < i ==> (#[trigger] r@[j]).0@ == self.names@[j]@ && r@[j].1@
                        == self.targets@[j]@,
            decreases self.names@.len() - i,
        {
            r.push((self.names[i].clone(), self.targets[i].clone()));
            i = i + 1;
        }
        proof {
            let ns = names_of(self.names@);
            assert(r@.map_values(|e: (String, String)| e.0@) =~= ns);
            assert(ns.to_set() =~= self.mounts().dom());
            assert forall|j: int| #![trigger r@[j]] 0 <= j < r@.len() implies self.mounts()[r@[j].0@]
                == r@[j].1@ by {
                assert(ns[j] == r@[j].0@);
                self.lemma_at(j);
            }
        }
        r
    }

    /// Loads the content of the entry that `path` names.
    pub fn get(&self, path: &str) -> (r: Result<String, StorageError>)
        requires
            self.wf(),
        ensures
            match path_parts(path@) {
                None => r matches Err(StorageError::ArgumentError(_)),
                Some((d, e)) => if self.mounts().contains_key(d) {
                    got(self.drive(d).contents(), self.drive(d).reliable(), e, r)
                } else {
                    r matches Err(StorageError::NotFound(_))
                },
            },
    {
        let (i, entry) = self.locate(path)?;
        self.drives[i].get(entry.as_str())
    }

    /// Lists the entries of the drive that `path` names (its entry part is
    /// not used).
    pub fn enumerate(&self, path: &str) -> (r: Result<Vec<(String, Metadata)>, StorageError>)
        requires
            self.wf(),
        ensures
            match path_parts(path@) {
                None => r matches Err(StorageError::ArgumentError(_)),
                Some((d, e)) => if self.mounts().contains_key(d) {
                    match r {
                        Ok(v) => lists(v@, self.drive(d).contents().files) && (self.drive(
                            d,
                        ).fixed_date() matches Some(t) ==> forall|i: int|
                            0 <= i < v@.len() ==> (#[trigger] v@[i]).1.date == t),
                        Err(_) => !self.drive(d).reliable(),
                    }
                } else {
                    r matches Err(StorageError::NotFound(_))
                },
            },
    {
        let (i, _entry) = self.locate(path)?;
        self.drives[i].enumerate()
    }

    /// Loads the readers of the entry that `path` names.
    pub fn get_acls(&self, path: &str) -> (r: Result<FileAcls, StorageError>)
        requires
            self.wf(),
        ensures
            acls_lookup(*self, path@, r),
    {
        let (i, entry) = self.locate(path)?;
        self.drives[i].get_acls(entry.as_str())
    }

    proof fn lemma_drive_changed(&self, before: &Self, i: int)
        requires
            before.wf(),
            0 <= i < before.drives@.len(),
            self.names@ == before.names@,
            self.targets@ == before.targets@,
            self.schemes@ == before.schemes@,
            self.factories@ == before.factories@,
            self.drives@ == before.drives@.update(i, self.drives@[i]),
            self.drives@[i].wf(),
        ensures
            self.wf(),
            self.mounts() == before.mounts(),
            self.schemes() == before.schemes(),
            self.drive(names_of(before.names@)[i]) == self.drives@[i],
            self.others_kept(before, names_of(before.names@)[i]),
    {
        before.lemma_at(i);
        assert(self.mounts() =~= before.mounts());
        assert forall|k: Seq<char>|
            #![trigger self.drive(k)]
            before.mounts().contains_key(k) && k != names_of(before.names@)[i] implies self.drive(k)
            == before.drive(k) by {
            before.lemma_index(k);
        }
    }

    /// Stores `content` as the entry that `path` names.
    pub fn put(&mut self, path: &str, content: &str) -> (r: Result<(), StorageError>)
        requires
            old(self).wf(),
        ensures
            final(self).wf(),
            final(self).mounts() == old(self).mounts(),
            final(self).schemes() == old(self).schemes(),
            match path_parts(path@) {
                None => r matches Err(StorageError::ArgumentError(_)) && *final(self) == *old(self),
                Some((d, e)) => if old(self).mounts().contains_key(d) {
                    &&& stored(
                        old(self).drive(d).contents(),
                        final(self).drive(d).contents(),
                        old(self).drive(d).reliable(),
                        e,
                        content@,
                        r,
                    )
                    &&& final(self).drive(d).reliable() == old(self).drive(d).reliable()
                    &&& final(self).others_kept(old(self), d)
                } else {
                    r matches Err(StorageError::NotFound(_)) && *final(self) == *old(self)
                },
            },
    {
        let (i, entry) = self.locate(path)?;
        let r = self.drives[i].put(entry.as_str(), content);
        proof {
            self.lemma_drive_changed(old(self), i as int);
        }
        r
    }

    /// Deletes the entry that `path` names.
    pub fn delete(&mut self, path: &str) -> (r: Result<(), StorageError>)
        requires
            old(self).wf(),
        ensures
            final(self).wf(),
            final(self).mounts() == old(self).mounts(),
            final(self).schemes() == old(self).schemes(),
            match path_parts(path@) {
                None => r matches Err(StorageError::ArgumentError(_)) && *final(self) == *old(self),
                Some((d, e)) => if old(self).mounts().contains_key(d) {
                    &&& deleted(
                        old(self).drive(d).contents(),
                        final(self).drive(d).contents(),
                        old(self).drive(d).reliable(),
                        e,
                        r,
                    )
                    &&& final(self).drive(d).reliable() == old(self).drive(d).reliable()
                    &&& final(self).others_kept(old(self), d)
                } else {
                    r matches Err(StorageError::NotFound(_)) && *final(self) == *old(self)
                },
            },
    {
        let (i, entry) = self.locate(path)?;
        let r = self.drives[i].delete(entry.as_str());
        proof {
            self.lemma_drive_changed(old(self), i as int);
        }
        r
    }

    /// Adds the readers of `add` to the entry that `path` names, then takes
    /// away those of `remove`.
    pub fn update_acls(&mut self, path: &str, add: &FileAcls, remove: &FileAcls) -> (r: Result<
        (),
        StorageError,
    >)
        requires
            old(self).wf(),
            add.wf(),
            remove.wf(),
        ensures
            final(self).wf(),
            acls_update(
                *old(self),
                *final(self),
                path@,
                add.reader_set(),
                remove.reader_set(),
                r,
            ),
    {
        let (i, entry) = self.locate(path)?;
        let r = self.drives[i].update_acls(entry.as_str(), add, remove);
        proof {
            self.lemma_drive_changed(old(self), i as int);
        }
        r
    }
}

} // verus!
