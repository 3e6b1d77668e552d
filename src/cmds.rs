//! The decisions of the `LOGIN` and `SHARE` commands: checking their
//! arguments, parsing ACL changes, and what a finished login does to the
//! session's storage.

use vstd::prelude::*;
use crate::acls::FileAcls;
use crate::drive::{Drive, DriveFactory, StorageError};
use crate::order::{lemma_names_of_push, names_of, sorted};
use crate::storage::{acls_lookup, acls_update, path_parts, Storage};
use crate::text::{join, strip_suffix};

verus! {

/// A value that an argument of a command evaluated to.
#[derive(Debug, Clone)]
pub enum Value {
    Boolean(bool),
    Integer(i32),
    Text(String),
}

/// What follows an argument of a command.
#[derive(Debug, Clone, Copy, PartialEq, Eq, Structural)]
pub enum ArgSep {
    /// Nothing: the argument is the last one.
    End,
    /// A `;`.
    Short,
    /// A `,`.
    Long,
    /// The `AS` keyword.
    As,
}

/// The arguments of a command: each one's value, `None` where the slot is
/// empty, and what follows it.
pub type Args = Vec<(Option<Value>, ArgSep)>;

/// The change that an ACL token asks for: whether it adds (else removes),
/// and the user name. `None` for a malformed token: one of fewer than three
/// characters, or that does not end in `+r`, `+R`, `-r` or `-R`.
pub open spec fn acl_change(t: Seq<char>) -> Option<(bool, Seq<char>)> {
    if t.len() >= 3 && (t.last() == 'r' || t.last() == 'R') && (t[t.len() - 2] == '+' || t[t.len()
        - 2] == '-') {
        Some((t[t.len() - 2] == '+', t.subrange(0, t.len() - 2)))
    } else {
        None
    }
}

/// The message of a malformed ACL token.
pub open spec fn invalid_acl_message(t: Seq<char>) -> Seq<char> {
    "Invalid ACL '"@ + t + "': must be of the form \"username+r\" or \"username-r\""@
}

/// The lines that frame a message of the day; none for an empty one.
pub open spec fn motd_lines(motd: Seq<Seq<char>>) -> Seq<Seq<char>> {
    if motd.len() == 0 {
        Seq::empty()
    } else {
        seq![Seq::empty(), "----- BEGIN SERVER MOTD -----"@] + motd + seq!["-----  END SERVER MOTD  -----"@, Seq::empty()]
    }
}

/// What the arguments of `LOGIN` give: the user name and the password if
/// given, or the message of the error.
pub open spec fn login_request(args: Seq<(Option<Value>, ArgSep)>) -> Result<
    (Seq<char>, Option<Seq<char>>),
    Seq<char>,
> {
    if args.len() == 1 && args[0].0 is Some && args[0].1 == ArgSep::End {
        match args[0].0 {
            Some(Value::Text(u)) => Ok((u@, None)),
            _ => Err("LOGIN requires a string as the username"@),
        }
    } else if args.len() == 2 && args[0].0 is Some && args[0].1 == ArgSep::Long && args[1].0 is Some
        && args[1].1 == ArgSep::End {
        match (args[0].0, args[1].0) {
            (Some(Value::Text(u)), Some(Value::Text(p))) => Ok((u@, Some(p@))),
            (Some(Value::Text(_)), _) => Err("LOGIN requires a string as the password"@),
            _ => Err("LOGIN requires a string as the username"@),
        }
    } else {
        Err("LOGIN requires one or two arguments"@)
    }
}

/// The readers to add and to remove that the ACL changes from index `i` on
/// give, starting from `add` and `remove`; or the message of the first error.
pub open spec fn acl_changes(
    args: Seq<(Option<Value>, ArgSep)>,
    i: int,
    add: Set<Seq<char>>,
    remove: Set<Seq<char>>,
) -> Result<(Set<Seq<char>>, Set<Seq<char>>), Seq<char>>
    decreases args.len() - i,
{
    if i < 0 || i >= args.len() {
        Ok((add, remove))
    } else {
        match args[i].0 {
            None => Err("SHARE arguments cannot be empty"@),
            Some(v) => if args[i].1 == ArgSep::Short {
                Err("SHARE requires arguments to be separated by commas"@)
            } else {
                match v {
                    Value::Text(t) => match acl_change(t@) {
                        Some((true, u)) => acl_changes(args, i + 1, add.insert(u), remove),
                        Some((false, u)) => acl_changes(args, i + 1, add, remove.insert(u)),
                        None => Err(invalid_acl_message(t@)),
                    },
                    _ => Err("SHARE requires strings as ACL changes"@),
                }
            },
        }
    }
}

/// What the arguments of `SHARE` give: the file name, and the readers to
/// add and to remove unless the ACLs are only to be shown; or the message of
/// the error.
pub open spec fn share_request(args: Seq<(Option<Value>, ArgSep)>) -> Result<
    (Seq<char>, Option<(Set<Seq<char>>, Set<Seq<char>>)>),
    Seq<char>,
> {
    if args.len() == 0 {
        Err("SHARE requires one or more arguments"@)
    } else {
        match args[0].0 {
            Some(Value::Text(f)) => if args[0].1 == ArgSep::End {
                Ok((f@, None))
            } else if args[0].1 != ArgSep::Long {
                Err("SHARE requires arguments to be separated by commas"@)
            } else {
                match acl_changes(args, 1, Set::empty(), Set::empty()) {
                    Ok((a, r)) => Ok((f@, Some((a, r)))),
                    Err(m) => Err(m),
                }
            },
            _ => Err("SHARE requires a string as the filename"@),
        }
    }
}

/// The lines that show the readers of `filename`.
pub open spec fn acl_lines(filename: Seq<char>, readers: Seq<Seq<char>>) -> Seq<Seq<char>> {
    if readers.len() == 0 {
        seq![Seq::empty(), "    No ACLs on "@ + filename, Seq::empty()]
    } else {
        seq![Seq::empty(), "    Reader ACLs on "@ + filename + ":"@] + readers.map_values(
            |r: Seq<char>| "    "@ + r,
        ) + seq![Seq::empty()]
    }
}

/// An argument error with the given message.
fn argument_error(m: &str) -> (r: StorageError)
    ensures
        r matches StorageError::ArgumentError(e) && e@ == m@,
{
    StorageError::ArgumentError(m.to_owned())
}

/// The `LOGIN` command.
pub struct LoginCommand {}

impl LoginCommand {
    /// The command.
    pub fn new() -> LoginCommand {
        LoginCommand {  }
    }

    /// Checks that no login happened in this session, then reads the user
    /// name and the password (where given) from the arguments.
    pub fn start<D: Drive, F: DriveFactory<D>>(&self, storage: &Storage<D, F>, args: &Args) -> (r:
        Result<(String, Option<String>), StorageError>)
        requires
            storage.wf(),
        ensures
            storage.schemes().contains("cloud"@) ==> (r matches Err(
                StorageError::InternalError(m),
            ) && m@ == "Support for calling LOGIN twice in the same session is not implemented"@),
            !storage.schemes().contains("cloud"@) ==> match login_request(args@) {
                Ok((u, p)) => r matches Ok((u2, p2)) && u2@ == u && match p {
                    Some(p) => (p2 matches Some(p3) && p3@ == p),
                    None => p2 is None,
                },
                Err(m) => r matches Err(StorageError::ArgumentError(e)) && e@ == m,
            },
    {
        if storage.has_scheme("cloud") {
            return Err(
                StorageError::InternalError(
                    "Support for calling LOGIN twice in the same session is not implemented".to_owned(),
                ),
            );
        }
        if args.len() == 1 && args[0].0.is_some() && args[0].1 == ArgSep::End {
            match &args[0].0 {
                Some(Value::Text(u)) => Ok((u.clone(), None)),
                _ => Err(argument_error("LOGIN requires a string as the username")),
            }
        } else if args.len() == 2 && args[0].0.is_some() && args[0].1 == ArgSep::Long
            && args[1].0.is_some() && args[1].1 == ArgSep::End {
            match (&args[0].0, &args[1].0) {
                (Some(Value::Text(u)), Some(Value::Text(p))) => Ok((u.clone(), Some(p.clone()))),
                (Some(Value::Text(_)), _) => Err(argument_error("LOGIN requires a string as the password")),
                _ => Err(argument_error("LOGIN requires a string as the username")),
            }
        } else {
            Err(argument_error("LOGIN requires one or two arguments"))
        }
    }
}

impl LoginCommand {
    /// Completes a login of `username` once the service has answered:
    /// `outcome` holds the factory of the user's drives, made with the access
    /// token, or the service's error message. On success the user's drive,
    /// built by the factory for `username`, is mounted as `CLOUD` and the
    /// `cloud` scheme registered, together; on any failure nothing changes.
    pub fn finish<D: Drive, F: DriveFactory<D>>(
        &self,
        storage: &mut Storage<D, F>,
        username: &str,
        outcome: Result<F, String>,
    ) -> (r: Result<(), StorageError>)
        requires
            old(storage).wf(),
        ensures
            final(storage).wf(),
            r is Err ==> *final(storage) == *old(storage),
            match outcome {
                Err(m) => (r matches Err(StorageError::RemoteFailure(e)) && e@ == m@),
                Ok(f) => if old(storage).schemes().contains("cloud"@) {
                    r matches Err(StorageError::InternalError(m)) && m@
                        == "Support for calling LOGIN twice in the same session is not implemented"@
                } else {
                    exists|c: Result<D, StorageError>|
                        #[trigger] f.creates(username@, c) && match c {
                            Ok(d) => {
                                &&& r is Ok
                                &&& final(storage).drive("CLOUD"@) == d
                                &&& final(storage).schemes() == old(storage).schemes().insert(
                                    "cloud"@,
                                )
                                &&& final(storage).factory("cloud"@) == f
                                &&& final(storage).mounts() == old(storage).mounts().insert(
                                    "CLOUD"@,
                                    "cloud://"@ + username@,
                                )
                                &&& final(storage).others_kept(old(storage), "CLOUD"@)
                            },
                            Err(e) => r == Err::<(), StorageError>(e),
                        }
                },
            },
    {
        match outcome {
            Err(m) => Err(StorageError::RemoteFailure(m)),
            Ok(factory) => {
                if storage.has_scheme("cloud") {
                    return Err(
                        StorageError::InternalError(
                            "Support for calling LOGIN twice in the same session is not implemented".to_owned(),
                        ),
                    );
                }
                let created = factory.create(username);
                let ghost c = created;
                let drive = match created {
                    Ok(d) => d,
                    Err(e) => return Err(e),
                };
                let ghost d = drive;
                let target = join("cloud://", username);
                let ghost before = *storage;
                storage.register_scheme("cloud", factory);
                let ghost middle = *storage;
                storage.attach("CLOUD", target.as_str(), drive);
                assert(storage.others_kept(&before, "CLOUD"@)) by {
                    assert forall|k: Seq<char>|
                        #![trigger storage.drive(k)]
                        before.mounts().contains_key(k) && k != "CLOUD"@ implies storage.drive(k)
                        == before.drive(k) by {
                        assert(middle.drive(k) == before.drive(k));
                    }
                }
                assert(c == Ok::<D, StorageError>(d));
                Ok(())
            },
        }
    }

    /// The lines that frame the message of the day `motd`, to print before
    /// the login completes.
    pub fn motd_lines(motd: &Vec<String>) -> (r: Vec<String>)
        ensures
            names_of(r@) == motd_lines(names_of(motd@)),
    {
        frame_motd(motd)
    }
}

/// The lines that frame `motd`.
fn frame_motd(motd: &Vec<String>) -> (r: Vec<String>)
    ensures
        names_of(r@) == motd_lines(names_of(motd@)),
{
    let mut r: Vec<String> = Vec::new();
    if motd.len() == 0 {
        assert(names_of(r@) =~= Seq::<Seq<char>>::empty());
        return r;
    }
    let blank = String::new();
    let begin = "----- BEGIN SERVER MOTD -----".to_owned();
    proof {
        lemma_names_of_push(r@, blank);
        lemma_names_of_push(r@.push(blank), begin);
    }
    r.push(blank);
    r.push(begin);
    assert(names_of(r@) =~= seq![Seq::<char>::empty(), "----- BEGIN SERVER MOTD -----"@] + names_of(
        motd@.subrange(0, 0),
    ));
    let mut i: usize = 0;
    while i < motd.len()
        invariant
            i <= motd@.len(),
            names_of(r@) == seq![Seq::<char>::empty(), "----- BEGIN SERVER MOTD -----"@] + names_of(
                motd@.subrange(0, i as int),
            ),
        decreases motd@.len() - i,
    {
        let line = motd[i].clone();
        proof {
            lemma_names_of_push(r@, line);
            assert(names_of(motd@.subrange(0, i + 1)) =~= names_of(motd@.subrange(0, i as int)).push(
                motd@[i as int]@,
            ));
        }
        r.push(line);
        i = i + 1;
    }
    proof {
        assert(motd@.subrange(0, i as int) =~= motd@);
    }
    let end = "-----  END SERVER MOTD  -----".to_owned();
    let blank = String::new();
    let ghost r1 = r@;
    proof {
        lemma_names_of_push(r1, end);
    }
    r.push(end);
    let ghost r2 = r@;
    proof {
        lemma_names_of_push(r2, blank);
    }
    r.push(blank);
    proof {
        assert(names_of(r@) =~= motd_lines(names_of(motd@)));
    }
    r
}

/// The operation and user name of an ACL token.
fn split_change(acl: &str) -> (r: Option<(bool, String)>)
    ensures
        match acl_change(acl@) {
            Some((a, u)) => (r matches Some((a2, u2)) && a2 == a && u2@ == u),
            None => r is None,
        },
{
    proof {
        reveal_strlit("+r");
        reveal_strlit("+R");
        reveal_strlit("-r");
        reveal_strlit("-R");
    }
    let ghost t = acl@;
    let found = if let Some(u) = strip_suffix(acl, "+r") {
        Some((true, u))
    } else if let Some(u) = strip_suffix(acl, "+R") {
        Some((true, u))
    } else if let Some(u) = strip_suffix(acl, "-r") {
        Some((false, u))
    } else if let Some(u) = strip_suffix(acl, "-R") {
        Some((false, u))
    } else {
        proof {
            if t.len() >= 2 {
                let tail = t.subrange(t.len() - 2, t.len() as int);
                assert(tail[0] == t[t.len() - 2] && tail[1] == t.last());
                if tail[0] == '+' && tail[1] == 'r' {
                    assert(tail =~= "+r"@);
                } else if tail[0] == '+' && tail[1] == 'R' {
                    assert(tail =~= "+R"@);
                } else if tail[0] == '-' && tail[1] == 'r' {
                    assert(tail =~= "-r"@);
                } else if tail[0] == '-' && tail[1] == 'R' {
                    assert(tail =~= "-R"@);
                }
            }
        }
        None
    };
    match found {
        Some((a, u)) => {
            assert(u@ =~= t.subrange(0, t.len() - 2));
            assert(t[t.len() - 2] == '+' <==> a);
            if u.as_str().is_empty() {
                None
            } else {
                Some((a, u))
            }
        },
        None => None,
    }
}

/// `path` names an existing entry on a mounted, reliable drive of `storage`
/// that keeps readers.
pub open spec fn entry_reachable<D: Drive, F: DriveFactory<D>>(
    storage: Storage<D, F>,
    path: Seq<char>,
) -> bool {
    match path_parts(path) {
        Some((d, e)) => storage.mounts().contains_key(d) && storage.drive(d).reliable()
            && storage.drive(d).has_acls() && storage.drive(d).contents().files.contains_key(e),
        None => false,
    }
}

/// `lines` show the readers of the entry that `path` names in `storage`.
pub open spec fn shows_acls<D: Drive, F: DriveFactory<D>>(
    storage: Storage<D, F>,
    path: Seq<char>,
    lines: Seq<Seq<char>>,
) -> bool {
    match path_parts(path) {
        Some((d, e)) => storage.mounts().contains_key(d) && exists|s: Seq<Seq<char>>|
            sorted(s) && s.to_set() == storage.drive(d).contents().readers[e] && lines
                == #[trigger] acl_lines(path, s),
        None => false,
    }
}

/// The outcome of a command that returns lines, with the lines dropped.
pub open spec fn without_lines(r: Result<Vec<String>, StorageError>) -> Result<(), StorageError> {
    match r {
        Ok(_) => Ok(()),
        Err(e) => Err(e),
    }
}

/// The `SHARE` command.
pub struct ShareCommand {}

impl ShareCommand {
    /// The command.
    pub fn new() -> ShareCommand {
        ShareCommand {  }
    }

    /// Parses the ACL token `acl` and adds its user to `add` or to `remove`.
    pub fn parse_acl(acl: String, add: &mut FileAcls, remove: &mut FileAcls) -> (r: Result<
        (),
        StorageError,
    >)
        requires
            old(add).wf(),
            old(remove).wf(),
        ensures
            final(add).wf(),
            final(remove).wf(),
            match acl_change(acl@) {
                Some((true, u)) => r is Ok && final(add).reader_set() == old(add).reader_set().insert(
                    u,
                ) && *final(remove) == *old(remove),
                Some((false, u)) => r is Ok && final(remove).reader_set() == old(
                    remove,
                ).reader_set().insert(u) && *final(add) == *old(add),
                None => (r matches Err(StorageError::ArgumentError(m)) && m@ == invalid_acl_message(
                    acl@,
                )) && *final(add) == *old(add) && *final(remove) == *old(remove),
            },
    {
        match split_change(acl.as_str()) {
            Some((true, user)) => {
                add.add_reader(user);
                Ok(())
            },
            Some((false, user)) => {
                remove.add_reader(user);
                Ok(())
            },
            None => {
                let head = join("Invalid ACL '", acl.as_str());
                let m = join(
                    head.as_str(),
                    "': must be of the form \"username+r\" or \"username-r\"",
                );
                Err(StorageError::ArgumentError(m))
            },
        }
    }

    /// Reads the file name and the ACL changes, if any, from the arguments.
    pub fn parse_args(&self, args: &Args) -> (r: Result<
        (String, Option<(FileAcls, FileAcls)>),
        StorageError,
    >)
        ensures
            match share_request(args@) {
                Ok((f, None)) => (r matches Ok((f2, None)) && f2@ == f),
                Ok((f, Some((a, rm)))) => (r matches Ok((f2, Some((a2, r2)))) && f2@ == f && a2.wf()
                    && r2.wf() && a2.reader_set() == a && r2.reader_set() == rm),
                Err(m) => (r matches Err(StorageError::ArgumentError(e)) && e@ == m),
            },
    {
        if args.len() == 0 {
            return Err(argument_error("SHARE requires one or more arguments"));
        }
        let filename = match &args[0].0 {
            Some(Value::Text(t)) => t.clone(),
            _ => return Err(argument_error("SHARE requires a string as the filename")),
        };
        if args[0].1 == ArgSep::End {
            return Ok((filename, None));
        } else if args[0].1 != ArgSep::Long {
            return Err(argument_error("SHARE requires arguments to be separated by commas"));
        }
        let mut add = FileAcls::new();
        let mut remove = FileAcls::new();
        assert(add.reader_set() =~= Set::<Seq<char>>::empty());
        assert(remove.reader_set() =~= Set::<Seq<char>>::empty());
        let mut i: usize = 1;
        while i < args.len()
            invariant
                1 <= i <= args@.len(),
                args@[0].0 matches Some(Value::Text(f)) && f@ == filename@,
                args@[0].1 == ArgSep::Long,
                add.wf(),
                remove.wf(),
                acl_changes(args@, 1, Set::empty(), Set::empty()) == acl_changes(
                    args@,
                    i as int,
                    add.reader_set(),
                    remove.reader_set(),
                ),
            decreases args@.len() - i,
        {
            match &args[i].0 {
                None => {
                    assert(args@[i as int].0 is None);
                    assert(acl_changes(args@, i as int, add.reader_set(), remove.reader_set())
                        == Err::<(Set<Seq<char>>, Set<Seq<char>>), Seq<char>>(
                        "SHARE arguments cannot be empty"@,
                    ));
                    return Err(argument_error("SHARE arguments cannot be empty"));
                },
                Some(v) => {
                    if args[i].1 == ArgSep::Short {
                        return Err(
                            argument_error("SHARE requires arguments to be separated by commas"),
                        );
                    }
                    match v {
                        Value::Text(t) => {
                            ShareCommand::parse_acl(t.clone(), &mut add, &mut remove)?;
                        },
                        _ => {
                            assert(!(args@[i as int].0 matches Some(Value::Text(_))));
                            assert(acl_changes(args@, i as int, add.reader_set(), remove.reader_set())
                                == Err::<(Set<Seq<char>>, Set<Seq<char>>), Seq<char>>(
                                "SHARE requires strings as ACL changes"@,
                            ));
                            return Err(argument_error("SHARE requires strings as ACL changes"));
                        },
                    }
                },
            }
            i = i + 1;
        }
        Ok((filename, Some((add, remove))))
    }

    /// The lines that show `acls`, the readers of `filename`.
    pub fn acl_lines(filename: &str, acls: &FileAcls) -> (r: Vec<String>)
        requires
            acls.wf(),
        ensures
            names_of(r@) == acl_lines(filename@, acls@),
    {
        let mut r: Vec<String> = Vec::new();
        let blank = String::new();
        proof {
            lemma_names_of_push(r@, blank);
        }
        r.push(blank);
        let readers = acls.readers();
        if readers.len() == 0 {
            let line = join("    No ACLs on ", filename);
            let blank2 = String::new();
            proof {
                lemma_names_of_push(r@, line);
                lemma_names_of_push(r@.push(line), blank2);
            }
            r.push(line);
            r.push(blank2);
            assert(names_of(r@) =~= acl_lines(filename@, acls@));
            return r;
        }
        let head = join("    Reader ACLs on ", filename);
        let line = join(head.as_str(), ":");
        proof {
            lemma_names_of_push(r@, line);
        }
        r.push(line);
        let ghost top = names_of(r@);
        let ghost shown = acls@.map_values(|x: Seq<char>| "    "@ + x);
        let mut i: usize = 0;
        while i < readers.len()
            invariant
                i <= readers@.len(),
                names_of(readers@) == acls@,
                shown == acls@.map_values(|x: Seq<char>| "    "@ + x),
                names_of(r@) == top + shown.subrange(0, i as int),
            decreases readers@.len() - i,
        {
            let entry = join("    ", readers[i].as_str());
            proof {
                lemma_names_of_push(r@, entry);
                assert(shown.subrange(0, i + 1) =~= shown.subrange(0, i as int).push(entry@));
            }
            r.push(entry);
            i = i + 1;
        }
        let blank3 = String::new();
        proof {
            lemma_names_of_push(r@, blank3);
        }
        r.push(blank3);
        assert(names_of(r@) =~= acl_lines(filename@, acls@));
        r
    }

    /// Runs `SHARE`: with a file name alone, returns the lines that show its
    /// readers; with ACL changes, applies them to the file.
    pub fn exec<D: Drive, F: DriveFactory<D>>(&self, storage: &mut Storage<D, F>, args: &Args) -> (r:
        Result<Vec<String>, StorageError>)
        requires
            old(storage).wf(),
        ensures
            final(storage).wf(),
            match share_request(args@) {
                Err(m) => {
                    &&& (r matches Err(StorageError::ArgumentError(e)) && e@ == m)
                    &&& *final(storage) == *old(storage)
                },
                Ok((f, None)) => {
                    &&& *final(storage) == *old(storage)
                    &&& match r {
                        Ok(lines) => shows_acls(*old(storage), f, names_of(lines@)),
                        Err(e) => acls_lookup(*old(storage), f, Err(e)),
                    }
                    &&& entry_reachable(*old(storage), f) ==> r is Ok
                },
                Ok((f, Some((a, rm)))) => {
                    &&& acls_update(*old(storage), *final(storage), f, a, rm, without_lines(r))
                    &&& (r matches Ok(lines) ==> lines@.len() == 0)
                    &&& entry_reachable(*old(storage), f) ==> r is Ok
                },
            },
    {
        let (filename, changes) = self.parse_args(args)?;
        match changes {
            None => {
                let acls = match storage.get_acls(filename.as_str()) {
                    Ok(acls) => acls,
                    Err(e) => return Err(e),
                };
                let lines = ShareCommand::acl_lines(filename.as_str(), &acls);
                proof {
                    acls.lemma_wf_sorted();
                    assert(acl_lines(filename@, acls@) == names_of(lines@));
                }
                Ok(lines)
            },
            Some((add, remove)) => {
                match storage.update_acls(filename.as_str(), &add, &remove) {
                    Ok(()) => Ok(Vec::new()),
                    Err(e) => Err(e),
                }
            },
        }
    }
}

} // verus!
