use endbasic_storage::acls::FileAcls;
use endbasic_storage::cmds::{ArgSep, Args, LoginCommand, ShareCommand, Value};
use endbasic_storage::drive::{Drive, StorageError};
use endbasic_storage::mem::{InMemoryDrive, InMemoryDriveFactory};
use endbasic_storage::storage::Storage;

type TestStorage = Storage<InMemoryDrive, InMemoryDriveFactory>;

fn text(s: &str) -> Option<Value> {
    Some(Value::Text(s.to_owned()))
}

fn is_mounted(storage: &TestStorage, name: &str) -> bool {
    storage.mounted().iter().any(|(n, _)| n == name)
}

fn storage_with_memory() -> TestStorage {
    let mut storage = TestStorage::new();
    storage.attach("MEMORY", "memory://", InMemoryDrive::new());
    storage
}

/// Runs LOGIN against a service that accepts the credentials and answers
/// `motd`; returns the lines printed before the login completes.
fn login_ok(storage: &mut TestStorage, args: &Args, motd: Vec<String>) -> Result<Vec<String>, StorageError> {
    let cmd = LoginCommand::new();
    let (username, _password) = cmd.start(storage, args)?;
    let lines = LoginCommand::motd_lines(&motd);
    cmd.finish(storage, &username, Ok(InMemoryDriveFactory::new()))?;
    Ok(lines)
}

fn check_login_err(exp: &str, args: Args) {
    let storage = TestStorage::new();
    match LoginCommand::new().start(&storage, &args) {
        Err(StorageError::ArgumentError(m)) => assert_eq!(exp, m),
        other => panic!("unexpected {:?}", other),
    }
}

fn check_share_err(exp: &str, args: Args) {
    let mut storage = storage_with_memory();
    match ShareCommand::new().exec(&mut storage, &args) {
        Err(StorageError::ArgumentError(m)) => assert_eq!(exp, m),
        other => panic!("unexpected {:?}", other),
    }
}

#[test]
fn test_login_ok_with_password() {
    let mut storage = TestStorage::new();
    assert!(!is_mounted(&storage, "CLOUD"));
    let args = vec![(text("the-username"), ArgSep::Long), (text("the-password"), ArgSep::End)];
    let lines = login_ok(&mut storage, &args, vec![]).unwrap();
    assert!(lines.is_empty());
    assert!(is_mounted(&storage, "CLOUD"));
}

#[test]
fn test_login_ok_ask_password() {
    let mut storage = TestStorage::new();
    assert!(!is_mounted(&storage, "CLOUD"));
    let args = vec![(text("the-username"), ArgSep::End)];
    let cmd = LoginCommand::new();
    let (username, password) = cmd.start(&storage, &args).unwrap();
    assert_eq!("the-username", username);
    assert_eq!(None, password);
    assert!(LoginCommand::motd_lines(&vec![]).is_empty());
    cmd.finish(&mut storage, &username, Ok(InMemoryDriveFactory::new())).unwrap();
    assert!(is_mounted(&storage, "CLOUD"));
}

#[test]
fn test_login_show_motd() {
    let mut storage = TestStorage::new();
    let args = vec![(text("the-username"), ArgSep::Long), (text("the-password"), ArgSep::End)];
    let lines =
        login_ok(&mut storage, &args, vec!["first line".to_owned(), "second line".to_owned()])
            .unwrap();
    assert_eq!(
        vec![
            "",
            "----- BEGIN SERVER MOTD -----",
            "first line",
            "second line",
            "-----  END SERVER MOTD  -----",
            "",
        ],
        lines
    );
}

#[test]
fn test_login_bad_credentials() {
    let mut storage = TestStorage::new();
    let cmd = LoginCommand::new();
    let args = vec![(text("bad-user"), ArgSep::Long), (text("the-password"), ArgSep::End)];
    let (username, _) = cmd.start(&storage, &args).unwrap();
    match cmd.finish(&mut storage, &username, Err("Unknown user".to_owned())) {
        Err(StorageError::RemoteFailure(m)) => assert_eq!("Unknown user", m),
        other => panic!("unexpected {:?}", other),
    }
    let args = vec![(text("the-username"), ArgSep::Long), (text("bad-password"), ArgSep::End)];
    let (username, _) = cmd.start(&storage, &args).unwrap();
    match cmd.finish(&mut storage, &username, Err("Invalid password".to_owned())) {
        Err(StorageError::RemoteFailure(m)) => assert_eq!("Invalid password", m),
        other => panic!("unexpected {:?}", other),
    }
    assert!(!is_mounted(&storage, "CLOUD"));
    assert!(!storage.has_scheme("cloud"));
}

#[test]
fn test_login_twice_not_supported() {
    let mut storage = TestStorage::new();
    assert!(!is_mounted(&storage, "CLOUD"));
    let args = vec![(text("the-username"), ArgSep::Long), (text("the-password"), ArgSep::End)];
    login_ok(&mut storage, &args, vec![]).unwrap();
    let again = vec![(text("a"), ArgSep::Long), (text("b"), ArgSep::End)];
    match login_ok(&mut storage, &again, vec![]) {
        Err(StorageError::InternalError(m)) => assert_eq!(
            "Support for calling LOGIN twice in the same session is not implemented",
            m
        ),
        other => panic!("unexpected {:?}", other),
    }
    assert!(is_mounted(&storage, "CLOUD"));
    assert_eq!(
        vec![("CLOUD".to_owned(), "cloud://the-username".to_owned())],
        storage.mounted()
    );
}

#[test]
fn test_login_errors() {
    check_login_err("LOGIN requires one or two arguments", vec![]);
    check_login_err(
        "LOGIN requires one or two arguments",
        vec![(text("a"), ArgSep::Long), (text("b"), ArgSep::Long), (text("c"), ArgSep::End)],
    );
    check_login_err(
        "LOGIN requires a string as the username",
        vec![(Some(Value::Integer(3)), ArgSep::End)],
    );
    check_login_err(
        "LOGIN requires a string as the username",
        vec![(Some(Value::Integer(3)), ArgSep::Long), (text("a"), ArgSep::End)],
    );
    check_login_err(
        "LOGIN requires a string as the password",
        vec![(text("a"), ArgSep::Long), (Some(Value::Integer(3)), ArgSep::End)],
    );
}

#[test]
fn test_share_parse_acl_ok() {
    let mut add = FileAcls::default();
    let mut remove = FileAcls::default();

    ShareCommand::parse_acl("user1+r".to_owned(), &mut add, &mut remove).unwrap();
    ShareCommand::parse_acl("user2+R".to_owned(), &mut add, &mut remove).unwrap();
    ShareCommand::parse_acl("X-r".to_owned(), &mut add, &mut remove).unwrap();
    ShareCommand::parse_acl("Y-R".to_owned(), &mut add, &mut remove).unwrap();
    assert_eq!(&["user1".to_owned(), "user2".to_owned()], add.readers().as_slice());
    assert_eq!(&["X".to_owned(), "Y".to_owned()], remove.readers().as_slice());
}

#[test]
fn test_share_parse_acl_errors() {
    let mut add = FileAcls::default().with_readers(vec!["before1".to_owned()]);
    let mut remove = FileAcls::default().with_readers(vec!["before2".to_owned()]);

    for acl in &["", "r", "+r", "-r", "foo+", "bar-"] {
        let err = ShareCommand::parse_acl(acl.to_string(), &mut add, &mut remove).unwrap_err();
        let message = format!("{:?}", err);
        assert!(message.contains("Invalid ACL"));
        assert!(message.contains(acl));
    }

    assert_eq!(&["before1".to_owned()], add.readers().as_slice());
    assert_eq!(&["before2".to_owned()], remove.readers().as_slice());
}

#[test]
fn test_share_print_no_acls() {
    let mut storage = storage_with_memory();
    storage.put("MEMORY:/FOO", "").unwrap();
    let lines = ShareCommand::new()
        .exec(&mut storage, &vec![(text("MEMORY:/FOO"), ArgSep::End)])
        .unwrap();
    assert_eq!(vec!["", "    No ACLs on MEMORY:/FOO", ""], lines);
    assert_eq!("", storage.get("MEMORY:/FOO").unwrap());
}

#[test]
fn test_share_print_some_acls() {
    let mut storage = storage_with_memory();
    storage.put("MEMORY:/FOO", "").unwrap();
    storage
        .update_acls(
            "MEMORY:/FOO",
            &FileAcls::default().with_readers(vec!["some".to_owned(), "person".to_owned()]),
            &FileAcls::default(),
        )
        .unwrap();
    let lines = ShareCommand::new()
        .exec(&mut storage, &vec![(text("MEMORY:/FOO"), ArgSep::End)])
        .unwrap();
    assert_eq!(vec!["", "    Reader ACLs on MEMORY:/FOO:", "    person", "    some", ""], lines);
    assert_eq!("", storage.get("MEMORY:/FOO").unwrap());
}

#[test]
fn test_share_errors() {
    check_share_err("SHARE requires one or more arguments", vec![]);
    check_share_err(
        "SHARE requires a string as the filename",
        vec![(Some(Value::Integer(1)), ArgSep::End)],
    );
    check_share_err(
        "SHARE requires a string as the filename",
        vec![(None, ArgSep::Long), (text("a"), ArgSep::End)],
    );
    check_share_err(
        "SHARE requires arguments to be separated by commas",
        vec![(text("a"), ArgSep::Short), (text("b"), ArgSep::End)],
    );
    check_share_err(
        "SHARE requires arguments to be separated by commas",
        vec![(text("a"), ArgSep::Long), (text("b"), ArgSep::Short), (text("c"), ArgSep::End)],
    );
    check_share_err(
        "SHARE arguments cannot be empty",
        vec![(text("a"), ArgSep::Long), (None, ArgSep::Long), (text("b"), ArgSep::End)],
    );
    check_share_err(
        "SHARE requires strings as ACL changes",
        vec![(text("a"), ArgSep::Long), (Some(Value::Integer(3)), ArgSep::Long), (text("b"), ArgSep::End)],
    );
    check_share_err(
        r#"Invalid ACL 'foobar': must be of the form "username+r" or "username-r""#,
        vec![(text("a"), ArgSep::Long), (text("foobar"), ArgSep::End)],
    );
}

#[test]
fn share_applies_changes() {
    let mut storage = storage_with_memory();
    storage.put("MEMORY:/FOO", "x").unwrap();
    let args = vec![
        (text("MEMORY:/FOO"), ArgSep::Long),
        (text("bob+r"), ArgSep::Long),
        (text("alice+R"), ArgSep::Long),
        (text("bob-r"), ArgSep::End),
    ];
    assert!(ShareCommand::new().exec(&mut storage, &args).unwrap().is_empty());
    let acls = storage.get_acls("MEMORY:/FOO").unwrap();
    assert_eq!(&["alice".to_owned()], acls.readers().as_slice());
}

#[test]
fn share_on_missing_file_is_not_found() {
    let mut storage = storage_with_memory();
    let args = vec![(text("MEMORY:/NONE"), ArgSep::End)];
    assert!(matches!(
        ShareCommand::new().exec(&mut storage, &args),
        Err(StorageError::NotFound(_))
    ));
    let args = vec![(text("OTHER:/NONE"), ArgSep::End)];
    assert!(matches!(
        ShareCommand::new().exec(&mut storage, &args),
        Err(StorageError::NotFound(_))
    ));
}

#[test]
fn parse_acl_examples() {
    let mut add = FileAcls::default();
    let mut remove = FileAcls::default();
    ShareCommand::parse_acl("user+r".to_owned(), &mut add, &mut remove).unwrap();
    assert_eq!(&["user".to_owned()], add.readers().as_slice());
    assert!(remove.is_empty());

    let mut add = FileAcls::default();
    let mut remove = FileAcls::default();
    ShareCommand::parse_acl("user-R".to_owned(), &mut add, &mut remove).unwrap();
    assert!(add.is_empty());
    assert_eq!(&["user".to_owned()], remove.readers().as_slice());

    for acl in &["", "r", "+r", "foo+", "bar-"] {
        match ShareCommand::parse_acl(acl.to_string(), &mut add, &mut remove) {
            Err(StorageError::ArgumentError(m)) => assert_eq!(
                format!(
                    "Invalid ACL '{}': must be of the form \"username+r\" or \"username-r\"",
                    acl
                ),
                m
            ),
            other => panic!("unexpected {:?}", other),
        }
    }
}

#[test]
fn parse_acl_keeps_multibyte_user_names() {
    let mut add = FileAcls::default();
    let mut remove = FileAcls::default();
    ShareCommand::parse_acl("é+r".to_owned(), &mut add, &mut remove).unwrap();
    assert_eq!(&["é".to_owned()], add.readers().as_slice());
    assert!(ShareCommand::parse_acl("éx".to_owned(), &mut add, &mut remove).is_err());
}

#[test]
fn login_mount_reads_and_writes() {
    let mut storage = TestStorage::new();
    let args = vec![(text("alice"), ArgSep::Long), (text("pw"), ArgSep::End)];
    login_ok(&mut storage, &args, vec!["hello".to_owned()]).unwrap();
    storage.put("CLOUD:/notes.bas", "PRINT 1").unwrap();
    assert_eq!("PRINT 1", storage.get("CLOUD:/notes.bas").unwrap());
}

#[test]
fn login_motd_hello() {
    let mut storage = TestStorage::new();
    let args = vec![(text("alice"), ArgSep::Long), (text("pw"), ArgSep::End)];
    let lines = login_ok(&mut storage, &args, vec!["hello".to_owned()]).unwrap();
    assert_eq!(
        vec!["", "----- BEGIN SERVER MOTD -----", "hello", "-----  END SERVER MOTD  -----", ""],
        lines
    );
    assert!(is_mounted(&storage, "CLOUD"));
    let before = storage.mounted();
    let cmd = LoginCommand::new();
    assert!(matches!(cmd.start(&storage, &args), Err(StorageError::InternalError(_))));
    assert_eq!(before, storage.mounted());
}

#[test]
fn login_failure_leaves_mounts() {
    let mut storage = storage_with_memory();
    let before = storage.mounted();
    let cmd = LoginCommand::new();
    match cmd.finish(&mut storage, "alice", Err("nope".to_owned())) {
        Err(StorageError::RemoteFailure(m)) => assert_eq!("nope", m),
        other => panic!("unexpected {:?}", other),
    }
    assert_eq!(before, storage.mounted());
    assert!(!storage.has_scheme("cloud"));
}

fn roundtrip<D: Drive>(d: &mut D) -> String {
    d.put("a", "b").unwrap();
    d.get("a").unwrap()
}

#[test]
fn drive_trait_is_usable_generically() {
    let mut d = InMemoryDrive::new();
    assert_eq!("b", roundtrip(&mut d));
}

#[test]
fn login_replaces_an_earlier_cloud_mount() {
    let mut storage = storage_with_memory();
    storage.attach("CLOUD", "memory://old", InMemoryDrive::new());
    storage.put("CLOUD:/old.bas", "x").unwrap();
    let args = vec![(text("alice"), ArgSep::Long), (text("pw"), ArgSep::End)];
    login_ok(&mut storage, &args, vec![]).unwrap();
    assert_eq!(
        vec![
            ("CLOUD".to_owned(), "cloud://alice".to_owned()),
            ("MEMORY".to_owned(), "memory://".to_owned()),
        ],
        storage.mounted()
    );
    assert!(matches!(storage.get("CLOUD:/old.bas"), Err(StorageError::NotFound(_))));
}

#[test]
fn share_remove_then_show() {
    let mut storage = storage_with_memory();
    storage.put("MEMORY:/FOO", "").unwrap();
    let cmd = ShareCommand::new();
    let add = vec![(text("MEMORY:/FOO"), ArgSep::Long), (text("A+r"), ArgSep::Long), (text("B+r"), ArgSep::End)];
    cmd.exec(&mut storage, &add).unwrap();
    let remove = vec![(text("MEMORY:/FOO"), ArgSep::Long), (text("A-r"), ArgSep::End)];
    cmd.exec(&mut storage, &remove).unwrap();
    assert_eq!(&["B".to_owned()], storage.get_acls("MEMORY:/FOO").unwrap().readers().as_slice());
    let both = vec![(text("MEMORY:/FOO"), ArgSep::Long), (text("C+r"), ArgSep::Long), (text("C-r"), ArgSep::End)];
    cmd.exec(&mut storage, &both).unwrap();
    assert_eq!(&["B".to_owned()], storage.get_acls("MEMORY:/FOO").unwrap().readers().as_slice());
    assert_eq!("", storage.get("MEMORY:/FOO").unwrap());
}

#[test]
fn share_update_on_missing_file_is_not_found() {
    let mut storage = storage_with_memory();
    let args = vec![(text("MEMORY:/NONE"), ArgSep::Long), (text("A+r"), ArgSep::End)];
    assert!(matches!(
        ShareCommand::new().exec(&mut storage, &args),
        Err(StorageError::NotFound(_))
    ));
    let args = vec![(text("nocolon"), ArgSep::End)];
    assert!(matches!(
        ShareCommand::new().exec(&mut storage, &args),
        Err(StorageError::ArgumentError(_))
    ));
}
