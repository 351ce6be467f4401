use endbasic_storage::acls::FileAcls;
use endbasic_storage::error::{CommandError, ErrorKind, LineCol};
use endbasic_storage::session::{add_all, LoginCommand, LoginResponse, Session};
use endbasic_storage::share::ShareCommand;
use endbasic_storage::storage::StorageManager;

fn logged_in(user: &str) -> (StorageManager, Session) {
    let mut storage = StorageManager::new();
    add_all(&mut storage).unwrap();
    let mut session = Session::new();
    let cmd = LoginCommand::new();
    let resp = LoginResponse { access_token: "token".to_owned(), motd: vec![] };
    let (_, r) = cmd.finish(&mut session, &mut storage, user, Ok(resp), false);
    r.unwrap();
    (storage, session)
}

fn args(tokens: &[&str]) -> Vec<(String, LineCol)> {
    tokens
        .iter()
        .enumerate()
        .map(|(i, t)| (t.to_string(), LineCol { line: 1, col: 12 + i }))
        .collect()
}

#[test]
fn test_share_parse_acl_ok() {
    let mut add = FileAcls::default();
    let mut remove = FileAcls::default();

    let lc = LineCol { line: 0, col: 0 };

    ShareCommand::parse_acl("user1+r".to_owned(), lc, &mut add, &mut remove).unwrap();
    ShareCommand::parse_acl("user2+R".to_owned(), lc, &mut add, &mut remove).unwrap();
    ShareCommand::parse_acl("X-r".to_owned(), lc, &mut add, &mut remove).unwrap();
    ShareCommand::parse_acl("Y-R".to_owned(), lc, &mut add, &mut remove).unwrap();
    assert_eq!(&["user1".to_owned(), "user2".to_owned()], add.readers().as_slice());
    assert_eq!(&["X".to_owned(), "Y".to_owned()], remove.readers().as_slice());
}

#[test]
fn test_share_has_public_acls() {
    let mut acls = FileAcls::default();
    assert!(!ShareCommand::has_public_acl(&acls));
    acls.add_reader("foo".to_owned());
    assert!(!ShareCommand::has_public_acl(&acls));
    acls.add_reader("PuBlIc".to_owned());
    assert!(ShareCommand::has_public_acl(&acls));
}

#[test]
fn test_share_parse_acl_errors() {
    let mut add = FileAcls::default().with_readers(vec!["before1".to_owned()]);
    let mut remove = FileAcls::default().with_readers(vec!["before2".to_owned()]);

    for acl in &["", "r", "+r", "-r", "foo+", "bar-"] {
        let err = ShareCommand::parse_acl(
            acl.to_string(),
            LineCol { line: 12, col: 34 },
            &mut add,
            &mut remove,
        )
        .unwrap_err();
        let message = format!("12:34: {:?}", err);
        assert!(message.contains("Invalid ACL"));
        assert!(message.contains(acl));
        match err {
            CommandError::Syntax(pos, _) => assert_eq!(LineCol { line: 12, col: 34 }, pos),
            other => panic!("unexpected error {:?}", other),
        }
    }

    assert_eq!(&["before1".to_owned()], add.readers().as_slice());
    assert_eq!(&["before2".to_owned()], remove.readers().as_slice());
}

#[test]
fn acl_tokens_keep_principal_case() {
    let mut add = FileAcls::default();
    let mut remove = FileAcls::default();
    let lc = LineCol { line: 1, col: 1 };
    ShareCommand::parse_acl("alice+r".to_owned(), lc, &mut add, &mut remove).unwrap();
    ShareCommand::parse_acl("bob+R".to_owned(), lc, &mut add, &mut remove).unwrap();
    ShareCommand::parse_acl("carol-r".to_owned(), lc, &mut add, &mut remove).unwrap();
    ShareCommand::parse_acl("MiXeD+r".to_owned(), lc, &mut add, &mut remove).unwrap();
    assert_eq!(&["MiXeD".to_owned(), "alice".to_owned(), "bob".to_owned()], add.readers().as_slice());
    assert_eq!(&["carol".to_owned()], remove.readers().as_slice());
}

#[test]
fn acl_readers_are_sorted_and_distinct() {
    let acls = FileAcls::default().with_readers(vec![
        "some".to_owned(),
        "person".to_owned(),
        "some".to_owned(),
        "Zed".to_owned(),
    ]);
    assert_eq!(
        &["Zed".to_owned(), "person".to_owned(), "some".to_owned()],
        acls.readers().as_slice()
    );
    let mut acls = acls;
    acls.remove_reader("person");
    acls.remove_reader("nobody");
    assert_eq!(&["Zed".to_owned(), "some".to_owned()], acls.readers().as_slice());
    assert!(!acls.is_empty());
    assert!(FileAcls::new().is_empty());
}

#[test]
fn has_public_acl_needs_exact_word() {
    let acls = FileAcls::default().with_readers(vec!["publicity".to_owned(), "pub".to_owned()]);
    assert!(!ShareCommand::has_public_acl(&acls));
    let acls = FileAcls::default().with_readers(vec!["PUBLIC".to_owned()]);
    assert!(ShareCommand::has_public_acl(&acls));
}

#[test]
fn test_share_print_no_acls() {
    let mut storage = StorageManager::new();
    storage.put("MEMORY:/FOO", vec![]).unwrap();
    let cmd = ShareCommand::new("https://repl.example.com/".to_owned());
    let out = cmd.run(&mut storage, &Session::new(), "MEMORY:/FOO", &args(&[])).unwrap();
    assert_eq!(vec!["".to_owned(), "    No ACLs on MEMORY:/FOO".to_owned(), "".to_owned()], out);
    assert_eq!(Vec::<u8>::new(), storage.get("MEMORY:/FOO").unwrap());
}

#[test]
fn test_share_print_some_acls() {
    let mut storage = StorageManager::new();
    storage.put("MEMORY:/FOO", vec![]).unwrap();
    storage
        .update_acls(
            "MEMORY:/FOO",
            &FileAcls::default().with_readers(vec!["some".to_owned(), "person".to_owned()]),
            &FileAcls::default(),
        )
        .unwrap();
    let cmd = ShareCommand::new("https://repl.example.com/".to_owned());
    let out = cmd.run(&mut storage, &Session::new(), "MEMORY:/FOO", &args(&[])).unwrap();
    assert_eq!(
        vec![
            "".to_owned(),
            "    Reader ACLs on MEMORY:/FOO:".to_owned(),
            "    person".to_owned(),
            "    some".to_owned(),
            "".to_owned()
        ],
        out
    );
    assert_eq!(Vec::<u8>::new(), storage.get("MEMORY:/FOO").unwrap());
}

#[test]
fn share_lists_readers_after_update() {
    let mut storage = StorageManager::new();
    storage.put("MEMORY:/F", b"x".to_vec()).unwrap();
    let cmd = ShareCommand::new("https://repl.example.com/".to_owned());
    let out = cmd.run(&mut storage, &Session::new(), "MEMORY:/F", &args(&[])).unwrap();
    assert!(out.contains(&"    No ACLs on MEMORY:/F".to_owned()));
    storage
        .update_acls(
            "MEMORY:/F",
            &FileAcls::default().with_readers(vec!["bob".to_owned(), "alice".to_owned()]),
            &FileAcls::default(),
        )
        .unwrap();
    let out = cmd.run(&mut storage, &Session::new(), "MEMORY:/F", &args(&[])).unwrap();
    assert_eq!(
        vec![
            "".to_owned(),
            "    Reader ACLs on MEMORY:/F:".to_owned(),
            "    alice".to_owned(),
            "    bob".to_owned(),
            "".to_owned()
        ],
        out
    );
}

#[test]
fn test_share_make_public() {
    let (mut storage, session) = logged_in("logged-in-username");
    storage.put("MEMORY:/FOO.BAS", vec![]).unwrap();
    let cmd = ShareCommand::new("https://repl.example.com/".to_owned());
    let out = cmd.run(&mut storage, &session, "MEMORY:/FOO.BAS", &args(&["Public+r"])).unwrap();
    let output = out.join("\n");
    assert_eq!(Vec::<u8>::new(), storage.get("MEMORY:/FOO.BAS").unwrap());
    assert!(output.contains("https://repl.example.com/?run=logged-in-username/FOO.BAS"));
}

#[test]
fn share_public_url_names_the_user() {
    let (mut storage, session) = logged_in("alice");
    storage.put("MEMORY:/F.BAS", b"PRINT 1".to_vec()).unwrap();
    let cmd = ShareCommand::new("https://x.test/".to_owned());
    let out = cmd.run(&mut storage, &session, "MEMORY:/F.BAS", &args(&["public+r"])).unwrap();
    assert!(out.join("\n").contains("run=alice/F.BAS"));
    let acls = storage.get_acls("MEMORY:/F.BAS").unwrap();
    assert_eq!(&["public".to_owned()], acls.readers().as_slice());
}

#[test]
fn share_update_without_public_prints_nothing() {
    let mut storage = StorageManager::new();
    storage.put("MEMORY:/F", vec![]).unwrap();
    let cmd = ShareCommand::new("https://x.test/".to_owned());
    let out = cmd.run(&mut storage, &Session::new(), "MEMORY:/F", &args(&["a+r", "b+r"])).unwrap();
    assert!(out.is_empty());
    let out = cmd.run(&mut storage, &Session::new(), "MEMORY:/F", &args(&["a-r"])).unwrap();
    assert!(out.is_empty());
    let acls = storage.get_acls("MEMORY:/F").unwrap();
    assert_eq!(&["b".to_owned()], acls.readers().as_slice());
}

#[test]
fn share_public_without_login_is_usage_error() {
    let mut storage = StorageManager::new();
    storage.put("MEMORY:/F", vec![]).unwrap();
    let cmd = ShareCommand::new("https://x.test/".to_owned());
    match cmd.run(&mut storage, &Session::new(), "MEMORY:/F", &args(&["public+r"])) {
        Err(CommandError::Usage(_)) => (),
        other => panic!("unexpected {:?}", other),
    }
}

#[test]
fn share_missing_file_is_not_found() {
    let mut storage = StorageManager::new();
    let cmd = ShareCommand::new("https://x.test/".to_owned());
    match cmd.run(&mut storage, &Session::new(), "MEMORY:/NONE", &args(&["a+r"])) {
        Err(CommandError::Io(e)) => assert_eq!(ErrorKind::NotFound, e.kind),
        other => panic!("unexpected {:?}", other),
    }
}

#[test]
fn test_share_errors() {
    let mut storage = StorageManager::new();
    storage.put("MEMORY:/A", vec![]).unwrap();
    let cmd = ShareCommand::new("https://x.test/".to_owned());
    match cmd.run(&mut storage, &Session::new(), "MEMORY:/A", &args(&["ok+r", "foobar"])) {
        Err(CommandError::Syntax(pos, msg)) => {
            assert_eq!(LineCol { line: 1, col: 13 }, pos);
            assert_eq!(
                r#"Invalid ACL 'foobar': must be of the form "username+r" or "username-r""#,
                msg
            );
        }
        other => panic!("unexpected {:?}", other),
    }
    assert!(storage.get_acls("MEMORY:/A").unwrap().is_empty());
}
