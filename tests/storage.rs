use endbasic_storage::acls::FileAcls;
use endbasic_storage::error::ErrorKind;
use endbasic_storage::storage::{DriveFactory, StorageManager};

fn names(s: &StorageManager) -> Vec<String> {
    s.mounted().into_iter().map(|(n, _)| n).collect()
}

#[test]
fn new_storage_has_memory_drive() {
    let s = StorageManager::new();
    assert_eq!(vec![("MEMORY".to_owned(), "memory://".to_owned())], s.mounted());
    assert_eq!("MEMORY:/", s.cwd());
    assert!(s.has_scheme("memory"));
    assert!(!s.has_scheme("cloud"));
}

#[test]
fn mount_then_unmount() {
    let mut s = StorageManager::new();
    s.mount("tmp", "memory://").unwrap();
    assert!(s.mounted().contains(&("TMP".to_owned(), "memory://".to_owned())));
    assert!(s.is_mounted_name("TMP"));
    assert_eq!(ErrorKind::AlreadyExists, s.mount("TMP", "memory://").unwrap_err().kind);
    assert_eq!(ErrorKind::AlreadyExists, s.mount("Tmp", "memory://").unwrap_err().kind);
    s.unmount("tmp").unwrap();
    assert_eq!(vec!["MEMORY".to_owned()], names(&s));
    assert_eq!(ErrorKind::NotFound, s.unmount("tmp").unwrap_err().kind);
}

#[test]
fn mount_errors() {
    let mut s = StorageManager::new();
    assert_eq!(ErrorKind::InvalidInput, s.mount("", "memory://").unwrap_err().kind);
    assert_eq!(ErrorKind::InvalidInput, s.mount("a:b", "memory://").unwrap_err().kind);
    assert_eq!(ErrorKind::InvalidInput, s.mount("a/b", "memory://").unwrap_err().kind);
    assert_eq!(ErrorKind::InvalidInput, s.mount("x", "memory").unwrap_err().kind);
    assert_eq!(ErrorKind::InvalidInput, s.mount("x", "memory:/").unwrap_err().kind);
    assert_eq!(ErrorKind::InvalidInput, s.mount("x", "unknown://").unwrap_err().kind);
    assert_eq!(ErrorKind::InvalidInput, s.mount("x", "memory://foo").unwrap_err().kind);
    assert_eq!(vec!["MEMORY".to_owned()], names(&s));
}

#[test]
fn register_scheme_twice_fails() {
    let mut s = StorageManager::new();
    assert_eq!(
        ErrorKind::AlreadyExists,
        s.register_scheme("memory", DriveFactory::Memory).unwrap_err().kind
    );
    s.register_scheme("ram", DriveFactory::Memory).unwrap();
    s.mount("r", "ram://").unwrap();
    assert!(s.is_mounted_name("R"));
}

#[test]
fn unmount_current_is_busy_until_cd() {
    let mut s = StorageManager::new();
    s.mount("other", "memory://").unwrap();
    assert_eq!(ErrorKind::Busy, s.unmount("memory").unwrap_err().kind);
    s.cd("OTHER:/").unwrap();
    assert_eq!("OTHER:/", s.cwd());
    s.unmount("memory").unwrap();
    assert_eq!(vec!["OTHER".to_owned()], names(&s));
}

#[test]
fn cd_errors() {
    let mut s = StorageManager::new();
    assert_eq!(ErrorKind::NotFound, s.cd("NONE:/").unwrap_err().kind);
    assert_eq!(ErrorKind::InvalidInput, s.cd("MEMORY:/file").unwrap_err().kind);
    assert_eq!(ErrorKind::InvalidInput, s.cd(":/").unwrap_err().kind);
    s.cd("memory:").unwrap();
    assert_eq!("MEMORY:/", s.cwd());
}

#[test]
fn file_operations_resolve_paths() {
    let mut s = StorageManager::new();
    s.put("MEMORY:/A.BAS", b"1".to_vec()).unwrap();
    assert_eq!(b"1".to_vec(), s.get("a.bas").unwrap());
    assert_eq!(b"1".to_vec(), s.get("/a.bas").unwrap());
    assert_eq!(b"1".to_vec(), s.get("memory:a.bas").unwrap());
    assert_eq!(ErrorKind::NotFound, s.get("NONE:/a.bas").unwrap_err().kind);
    let files = s.enumerate("MEMORY:/").unwrap();
    assert_eq!(1, files.dirents().len());
    assert_eq!(ErrorKind::InvalidInput, s.enumerate("MEMORY:/A.BAS").unwrap_err().kind);
    s.delete("MEMORY:/A.BAS").unwrap();
    assert_eq!(ErrorKind::NotFound, s.get("a.bas").unwrap_err().kind);
    assert_eq!(ErrorKind::NotFound, s.delete("a.bas").unwrap_err().kind);
}

#[test]
fn acls_update_add_then_remove() {
    let mut s = StorageManager::new();
    s.put("F", vec![]).unwrap();
    let add = FileAcls::default().with_readers(vec!["b".to_owned(), "a".to_owned(), "c".to_owned()]);
    let remove = FileAcls::default().with_readers(vec!["c".to_owned()]);
    s.update_acls("F", &add, &remove).unwrap();
    assert_eq!(&["a".to_owned(), "b".to_owned()], s.get_acls("F").unwrap().readers().as_slice());
    assert_eq!(ErrorKind::NotFound, s.update_acls("G", &add, &remove).unwrap_err().kind);
    s.put("F", b"new".to_vec()).unwrap();
    assert_eq!(2, s.get_acls("F").unwrap().readers().len());
}
