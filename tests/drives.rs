use endbasic_storage::drive::{process_demo, DemoFile, DiskSpace, Drive};
use endbasic_storage::error::ErrorKind;
use endbasic_storage::storage::{DemoDriveFactory, DriveFactory, StorageManager};

const HELLO: &[u8] = b"PRINT \"Hello, world!\"\n";

fn catalog() -> Vec<DemoFile> {
    let mut demos = vec![];
    for (name, date, content) in [
        ("FIBONACCI.BAS", 1719672741, "PRINT 1\n".to_owned()),
        ("GUESS.BAS", 1608693152, "PRINT 2\n".to_owned()),
        ("GPIO.BAS", 1613316558, "PRINT 3\n".to_owned()),
        ("HELLO.BAS", 1608646800, process_demo(HELLO)),
        ("PALETTE.BAS", 1671243940, "PRINT 5\n".to_owned()),
        ("TOUR.BAS", 1608774770, "PRINT 6\n".to_owned()),
    ] {
        demos.push(DemoFile { name: name.to_owned(), date, content });
    }
    demos
}

fn demos_drive() -> Drive {
    DriveFactory::Demos(DemoDriveFactory::new(catalog())).create("").unwrap()
}

#[test]
fn test_demos_drive_delete() {
    let mut drive = demos_drive();
    assert_eq!(ErrorKind::PermissionDenied, drive.delete("hello.bas").unwrap_err().kind);
    assert_eq!(ErrorKind::PermissionDenied, drive.delete("Hello.BAS").unwrap_err().kind);
    assert_eq!(ErrorKind::PermissionDenied, drive.delete("unknown.bas").unwrap_err().kind);
}

#[test]
fn test_demos_drive_enumerate() {
    let drive = demos_drive();
    let files = drive.enumerate().unwrap();
    assert!(files.contains("FIBONACCI.BAS"));
    assert!(files.contains("GPIO.BAS"));
    assert!(files.contains("GUESS.BAS"));
    assert!(files.contains("HELLO.BAS"));
    assert!(files.contains("PALETTE.BAS"));
    assert!(files.contains("TOUR.BAS"));

    assert!(files.disk_quota().unwrap().bytes() > 0);
    assert_eq!(6, files.disk_quota().unwrap().files());
    assert_eq!(DiskSpace::new(0, 0), files.disk_free().unwrap());
}

#[test]
fn demos_quota_adds_up_lengths_and_dates_are_kept() {
    let files = demos_drive().enumerate().unwrap();
    let total: u64 = files.dirents().iter().map(|(_, m)| m.length).sum();
    assert_eq!(total, files.disk_quota().unwrap().bytes());
    let hello = files.dirents().iter().find(|(n, _)| n == "HELLO.BAS").unwrap();
    assert_eq!(1608646800, hello.1.date);
    assert_eq!(HELLO.len() as u64, hello.1.length);
}

#[test]
fn test_demos_drive_get() {
    let drive = demos_drive();
    assert_eq!(ErrorKind::NotFound, drive.get("unknown.bas").unwrap_err().kind);
    assert_eq!(process_demo(HELLO).as_bytes(), drive.get("hello.bas").unwrap().as_slice());
    assert_eq!(process_demo(HELLO).as_bytes(), drive.get("Hello.Bas").unwrap().as_slice());
}

#[test]
fn test_demos_drive_put() {
    let mut drive = demos_drive();
    assert_eq!(ErrorKind::PermissionDenied, drive.put("hello.bas", vec![]).unwrap_err().kind);
    assert_eq!(ErrorKind::PermissionDenied, drive.put("Hello.BAS", vec![]).unwrap_err().kind);
    assert_eq!(ErrorKind::PermissionDenied, drive.put("unknown.bas", vec![]).unwrap_err().kind);
}

#[test]
fn demos_drive_has_no_acls() {
    let drive = demos_drive();
    assert_eq!(ErrorKind::Unsupported, drive.get_acls("hello.bas").unwrap_err().kind);
}

#[test]
fn demos_factory_rejects_target() {
    let f = DemoDriveFactory::default();
    assert_eq!(ErrorKind::InvalidInput, f.create("foo").unwrap_err().kind);
    assert!(f.create("").is_ok());
}

#[test]
fn process_demo_keeps_text() {
    assert_eq!("PRINT \"Hello, world!\"\n", process_demo(HELLO));
    assert_eq!("\u{e9}t\u{e9}", process_demo("\u{e9}t\u{e9}".as_bytes()));
}

#[test]
fn demos_scheme_mounts_in_storage() {
    let mut storage = StorageManager::new();
    storage.register_scheme("demos", DriveFactory::Demos(DemoDriveFactory::new(catalog()))).unwrap();
    storage.mount("demos", "demos://").unwrap();
    assert_eq!(process_demo(HELLO).as_bytes(), storage.get("DEMOS:/hello.bas").unwrap().as_slice());
    assert_eq!(
        ErrorKind::PermissionDenied,
        storage.put("demos:/x.bas", vec![1]).unwrap_err().kind
    );
    assert_eq!(ErrorKind::InvalidInput, storage.mount("other", "demos://x").unwrap_err().kind);
}

#[test]
fn memory_drive_round_trip() {
    let mut drive = DriveFactory::Memory.create("").unwrap();
    assert_eq!(ErrorKind::NotFound, drive.get("a.bas").unwrap_err().kind);
    drive.put("a.bas", b"abc".to_vec()).unwrap();
    assert_eq!(b"abc".to_vec(), drive.get("A.BAS").unwrap());
    drive.put("A.bas", b"xy".to_vec()).unwrap();
    let files = drive.enumerate().unwrap();
    assert_eq!(1, files.dirents().len());
    assert_eq!("A.BAS", files.dirents()[0].0);
    assert_eq!(2, files.dirents()[0].1.length);
    assert!(files.disk_quota().is_none());
    drive.delete("a.BAS").unwrap();
    assert_eq!(ErrorKind::NotFound, drive.delete("a.bas").unwrap_err().kind);
    assert_eq!(ErrorKind::InvalidInput, DriveFactory::Memory.create("x").unwrap_err().kind);
}

#[test]
fn cloud_drive_is_remote() {
    let drive = DriveFactory::Cloud.create("alice").unwrap();
    match &drive {
        Drive::Cloud(c) => assert_eq!("alice", c.owner()),
        _ => panic!("expected a cloud drive"),
    }
    assert_eq!(ErrorKind::Remote, drive.get("x").unwrap_err().kind);
    assert_eq!(ErrorKind::Remote, drive.enumerate().unwrap_err().kind);
    assert_eq!(ErrorKind::InvalidInput, DriveFactory::Cloud.create("").unwrap_err().kind);
}

#[test]
fn memory_listing_is_sorted_with_fixed_date() {
    let mut drive = DriveFactory::Memory.create("").unwrap();
    drive.put("zeta.bas", vec![1]).unwrap();
    drive.put("alpha.bas", vec![1, 2]).unwrap();
    drive.put("MID.bas", vec![]).unwrap();
    let files = drive.enumerate().unwrap();
    let names: Vec<&str> = files.dirents().iter().map(|(n, _)| n.as_str()).collect();
    assert_eq!(vec!["ALPHA.BAS", "MID.BAS", "ZETA.BAS"], names);
    for (_, m) in files.dirents() {
        assert_eq!(endbasic_storage::drive::MEMORY_FILE_DATE, m.date);
    }
    assert_eq!(2, files.dirents()[0].1.length);
}

#[test]
fn demos_listing_is_sorted() {
    let files = demos_drive().enumerate().unwrap();
    let names: Vec<&str> = files.dirents().iter().map(|(n, _)| n.as_str()).collect();
    assert_eq!(
        vec!["FIBONACCI.BAS", "GPIO.BAS", "GUESS.BAS", "HELLO.BAS", "PALETTE.BAS", "TOUR.BAS"],
        names
    );
}

#[test]
fn listing_matches_get() {
    let drive = demos_drive();
    let files = drive.enumerate().unwrap();
    for (name, metadata) in files.dirents() {
        assert_eq!(metadata.length as usize, drive.get(name).unwrap().len());
    }
    assert_eq!(6, files.dirents().len());
}
