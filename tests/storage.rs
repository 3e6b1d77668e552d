use endbasic_storage::acls::FileAcls;
use endbasic_storage::drive::{Drive, Metadata, StorageError};
use endbasic_storage::mem::{InMemoryDrive, InMemoryDriveFactory, PLACEHOLDER_DATE};
use endbasic_storage::storage::{split_path, split_target, Storage};

type TestStorage = Storage<InMemoryDrive, InMemoryDriveFactory>;

fn is_not_found<T: std::fmt::Debug>(r: Result<T, StorageError>) -> bool {
    matches!(r, Err(StorageError::NotFound(_)))
}

#[test]
fn put_then_get_round_trips() {
    let mut d = InMemoryDrive::new();
    d.put("name", "some content").unwrap();
    assert_eq!("some content", d.get("name").unwrap());
    d.put("name", "other").unwrap();
    assert_eq!("other", d.get("name").unwrap());
    d.put("", "").unwrap();
    assert_eq!("", d.get("").unwrap());
}

#[test]
fn delete_after_put_then_get_is_not_found() {
    let mut d = InMemoryDrive::new();
    d.put("x", "1").unwrap();
    d.delete("x").unwrap();
    assert!(is_not_found(d.get("x")));
    assert!(is_not_found(d.delete("x")));
    assert!(is_not_found(d.delete("never")));
}

#[test]
fn get_missing_is_not_found_with_message() {
    let d = InMemoryDrive::new();
    match d.get("missing") {
        Err(StorageError::NotFound(m)) => assert_eq!("Entry not found", m),
        other => panic!("unexpected {:?}", other),
    }
}

#[test]
fn enumerate_lists_live_entries_sorted() {
    let mut d = InMemoryDrive::new();
    assert!(d.enumerate().unwrap().is_empty());
    d.put("zeta", "12345").unwrap();
    d.put("alpha", "").unwrap();
    d.put("Mid", "é").unwrap();
    d.put("gone", "x").unwrap();
    d.delete("gone").unwrap();
    let entries = d.enumerate().unwrap();
    let exp = vec![
        ("Mid".to_owned(), Metadata { date: PLACEHOLDER_DATE, length: 2 }),
        ("alpha".to_owned(), Metadata { date: PLACEHOLDER_DATE, length: 0 }),
        ("zeta".to_owned(), Metadata { date: PLACEHOLDER_DATE, length: 5 }),
    ];
    assert_eq!(exp, entries);
    assert_eq!(1_588_757_875, PLACEHOLDER_DATE);
}

#[test]
fn as_hashmap_gives_entries() {
    let mut d = InMemoryDrive::new();
    d.put("b", "2").unwrap();
    d.put("a", "1").unwrap();
    assert_eq!(
        vec![("a".to_owned(), "1".to_owned()), ("b".to_owned(), "2".to_owned())],
        d.as_hashmap()
    );
}

#[test]
fn acls_on_memory_drive() {
    let mut d = InMemoryDrive::new();
    d.put("f", "").unwrap();
    assert!(d.get_acls("f").unwrap().is_empty());
    assert!(is_not_found(d.get_acls("g")));
    let add = FileAcls::default().with_readers(vec!["A".to_owned(), "B".to_owned()]);
    d.update_acls("f", &add, &FileAcls::default()).unwrap();
    let remove = FileAcls::default().with_readers(vec!["A".to_owned()]);
    d.update_acls("f", &FileAcls::default(), &remove).unwrap();
    assert_eq!(&["B".to_owned()], d.get_acls("f").unwrap().readers().as_slice());

    d.update_acls("f", &remove, &remove).unwrap();
    assert_eq!(&["B".to_owned()], d.get_acls("f").unwrap().readers().as_slice());
    assert!(is_not_found(d.update_acls("g", &add, &remove)));

    d.put("f", "new content").unwrap();
    assert_eq!(&["B".to_owned()], d.get_acls("f").unwrap().readers().as_slice());
}

#[test]
fn file_acls_add_reader_is_idempotent_and_sorted() {
    let mut acls = FileAcls::new();
    acls.add_reader("public".to_owned());
    acls.add_reader("bob".to_owned());
    acls.add_reader("public".to_owned());
    assert_eq!(&["bob".to_owned(), "public".to_owned()], acls.readers().as_slice());
    acls.remove_reader("bob");
    acls.remove_reader("nobody");
    assert_eq!(&["public".to_owned()], acls.readers().as_slice());
    let copy = acls.clone();
    assert_eq!(acls.readers(), copy.readers());
}

#[test]
fn mount_and_replace() {
    let mut storage = TestStorage::new();
    assert!(!storage.has_scheme("cloud"));
    assert!(is_not_found(storage.mount("CLOUD", "cloud://alice")));
    storage.register_scheme("cloud", InMemoryDriveFactory::new());
    assert!(storage.has_scheme("cloud"));
    storage.mount("CLOUD", "cloud://alice").unwrap();
    assert_eq!(vec![("CLOUD".to_owned(), "cloud://alice".to_owned())], storage.mounted());
    storage.put("CLOUD:/a", "1").unwrap();
    storage.mount("CLOUD", "cloud://bob").unwrap();
    assert_eq!(vec![("CLOUD".to_owned(), "cloud://bob".to_owned())], storage.mounted());
    assert!(is_not_found(storage.get("CLOUD:/a")));
}

#[test]
fn mount_without_scheme_uses_file() {
    let mut storage = TestStorage::new();
    assert!(is_not_found(storage.mount("LOCAL", "/tmp/dir")));
    storage.register_scheme("file", InMemoryDriveFactory::new());
    storage.mount("LOCAL", "/tmp/dir").unwrap();
    assert_eq!(vec![("LOCAL".to_owned(), "/tmp/dir".to_owned())], storage.mounted());
}

#[test]
fn mounted_is_sorted() {
    let mut storage = TestStorage::new();
    storage.attach("MEMORY", "memory://", InMemoryDrive::new());
    storage.attach("A", "memory://a", InMemoryDrive::new());
    storage.attach("Z", "memory://z", InMemoryDrive::new());
    let names: Vec<String> = storage.mounted().into_iter().map(|(n, _)| n).collect();
    assert_eq!(vec!["A", "MEMORY", "Z"], names);
}

#[test]
fn paths_route_to_drives() {
    let mut storage = TestStorage::new();
    storage.attach("MEMORY", "memory://", InMemoryDrive::new());
    storage.attach("OTHER", "memory://", InMemoryDrive::new());
    storage.put("MEMORY:/foo.bas", "A").unwrap();
    storage.put("OTHER:bar.bas", "B").unwrap();
    assert_eq!("A", storage.get("MEMORY:foo.bas").unwrap());
    assert!(is_not_found(storage.get("OTHER:/foo.bas")));
    assert_eq!("B", storage.get("OTHER:/bar.bas").unwrap());
    assert!(is_not_found(storage.get("memory:/foo.bas")));
    assert!(matches!(storage.get("nocolon"), Err(StorageError::ArgumentError(_))));
    let listing = storage.enumerate("MEMORY:/").unwrap();
    assert_eq!(1, listing.len());
    assert_eq!("foo.bas", listing[0].0);
    storage.delete("MEMORY:/foo.bas").unwrap();
    assert!(is_not_found(storage.delete("MEMORY:/foo.bas")));
    assert!(is_not_found(storage.put("NOPE:/x", "")));
}

#[test]
fn acls_through_storage() {
    let mut storage = TestStorage::new();
    storage.attach("MEMORY", "memory://", InMemoryDrive::new());
    storage.put("MEMORY:/e", "").unwrap();
    assert!(storage.get_acls("MEMORY:/e").unwrap().is_empty());
    let add = FileAcls::default().with_readers(vec!["y".to_owned(), "x".to_owned()]);
    storage.update_acls("MEMORY:/e", &add, &FileAcls::default()).unwrap();
    assert_eq!(
        &["x".to_owned(), "y".to_owned()],
        storage.get_acls("MEMORY:/e").unwrap().readers().as_slice()
    );
}

#[test]
fn split_path_parts() {
    assert_eq!(("MEMORY".to_owned(), "FOO".to_owned()), split_path("MEMORY:/FOO").unwrap());
    assert_eq!(("A".to_owned(), "b:c".to_owned()), split_path("A:b:c").unwrap());
    assert_eq!(("A".to_owned(), "/b".to_owned()), split_path("A://b").unwrap());
    assert_eq!(("".to_owned(), "".to_owned()), split_path(":").unwrap());
    assert!(matches!(split_path("FOO"), Err(StorageError::ArgumentError(_))));
}

#[test]
fn split_target_parts() {
    assert_eq!(("cloud".to_owned(), "alice".to_owned()), split_target("cloud://alice"));
    assert_eq!(("cloud".to_owned(), "alice/x".to_owned()), split_target("cloud://alice/x"));
    assert_eq!(("file".to_owned(), "/home/dir".to_owned()), split_target("/home/dir"));
    assert_eq!(("file".to_owned(), "c:/dir".to_owned()), split_target("c:/dir"));
}

#[test]
fn error_messages() {
    assert_eq!("m", StorageError::Unsupported("m".to_owned()).message());
    assert_eq!("n", StorageError::NotFound("n".to_owned()).message());
}
