use endbasic_storage::error::{CommandError, ErrorKind, IoError};
use endbasic_storage::session::{add_all, LoginCommand, LoginResponse, LogoutCommand, Session};
use endbasic_storage::storage::StorageManager;

struct Tester {
    storage: StorageManager,
    session: Session,
    output: Vec<String>,
}

impl Tester {
    fn new() -> Tester {
        let mut storage = StorageManager::new();
        add_all(&mut storage).unwrap();
        Tester { storage, session: Session::new(), output: vec![] }
    }

    fn login(
        &mut self,
        user: &str,
        response: Result<LoginResponse, IoError>,
        narrow: bool,
    ) -> Result<(), CommandError> {
        let cmd = LoginCommand::new();
        cmd.check(&self.session)?;
        let (out, r) = cmd.finish(&mut self.session, &mut self.storage, user, response, narrow);
        self.output.extend(out);
        r
    }

    fn logout(&mut self, service: Result<(), IoError>) -> Result<(), CommandError> {
        let cmd = LogoutCommand::new();
        let unmounted = cmd.begin(&self.session, &mut self.storage)?;
        let out = cmd.finish(&mut self.session, unmounted, service)?;
        self.output.extend(out);
        Ok(())
    }

    fn has_cloud(&self) -> bool {
        self.storage.mounted().iter().any(|(n, _)| n == "CLOUD")
    }
}

fn ok_response(token: &str, motd: Vec<String>) -> Result<LoginResponse, IoError> {
    Ok(LoginResponse { access_token: token.to_owned(), motd })
}

#[test]
fn test_cloud_scheme_always_available() {
    let t = Tester::new();
    assert!(t.storage.has_scheme("cloud"));
}

#[test]
fn test_login_ok_with_password() {
    let mut t = Tester::new();
    assert!(!t.has_cloud());
    t.login("the-username", ok_response("random token", vec![]), false).unwrap();
    assert!(t.has_cloud());
    assert!(t.storage.mounted().contains(&("CLOUD".to_owned(), "cloud://the-username".to_owned())));
    assert_eq!(Some("the-username".to_owned()), t.session.logged_in_username());
}

#[test]
fn test_login_ok_ask_password() {
    let mut t = Tester::new();
    assert!(!t.has_cloud());
    t.login("the-username", ok_response("random token", vec![]), false).unwrap();
    assert!(t.output.is_empty());
    assert!(t.has_cloud());
}

#[test]
fn test_login_skip_motd_on_narrow_console() {
    let mut t = Tester::new();
    let motd = vec!["first line".to_owned(), "second line".to_owned()];
    t.login("the-username", ok_response("random token", motd), true).unwrap();
    assert!(t.output.is_empty());
}

#[test]
fn test_login_show_motd_on_wide_console() {
    let mut t = Tester::new();
    let motd = vec!["first line".to_owned(), "second line".to_owned()];
    t.login("the-username", ok_response("random token", motd), false).unwrap();
    assert_eq!(
        vec![
            "",
            "----- BEGIN SERVER MOTD -----",
            "first line",
            "second line",
            "-----  END SERVER MOTD  -----",
            "",
        ],
        t.output
    );
}

#[test]
fn test_login_bad_credentials() {
    let mut t = Tester::new();
    let err = t
        .login(
            "bad-user",
            Err(IoError::new(ErrorKind::PermissionDenied, "Unknown user".to_owned())),
            false,
        )
        .unwrap_err();
    match err {
        CommandError::Io(e) => assert_eq!("Unknown user", e.message),
        other => panic!("unexpected {:?}", other),
    }
    let err = t
        .login(
            "the-username",
            Err(IoError::new(ErrorKind::PermissionDenied, "Invalid password".to_owned())),
            false,
        )
        .unwrap_err();
    match err {
        CommandError::Io(e) => assert_eq!("Invalid password", e.message),
        other => panic!("unexpected {:?}", other),
    }
    assert!(!t.has_cloud());
    assert!(!t.session.is_logged_in());
}

#[test]
fn test_login_twice() {
    let mut t = Tester::new();
    assert!(!t.has_cloud());
    t.login("the-username", ok_response("random token", vec![]), false).unwrap();
    match t.login("a", ok_response("other", vec![]), false) {
        Err(CommandError::Usage(m)) => assert_eq!("Cannot LOGIN again before LOGOUT", m),
        other => panic!("unexpected {:?}", other),
    }
    assert!(t.has_cloud());
    assert_eq!(Some("the-username".to_owned()), t.session.logged_in_username());
}

#[test]
fn test_logout_ok_cloud_not_mounted() {
    let mut t = Tester::new();
    t.login("u", ok_response("token", vec![]), false).unwrap();
    t.storage.unmount("CLOUD").unwrap();
    t.logout(Ok(())).unwrap();
    assert_eq!(vec!["", "    Good bye!", ""], t.output);
    assert!(!t.has_cloud());
}

#[test]
fn test_logout_ok_unmount_cloud() {
    let mut t = Tester::new();
    t.login("u", ok_response("token", vec![]), false).unwrap();
    t.storage.unmount("CLOUD").unwrap();
    t.storage.mount("CLOUD", "memory://").unwrap();
    t.logout(Ok(())).unwrap();
    assert_eq!(vec!["", "    Unmounted CLOUD drive", "    Good bye!", ""], t.output);
    assert!(!t.has_cloud());
}

#[test]
fn test_logout_cloud_mounted_and_active() {
    let mut t = Tester::new();
    t.login("u", ok_response("token", vec![]), false).unwrap();
    t.storage.unmount("CLOUD").unwrap();
    t.storage.mount("CLOUD", "memory://").unwrap();
    t.storage.cd("CLOUD:/").unwrap();
    match t.logout(Ok(())) {
        Err(CommandError::Usage(m)) => {
            assert_eq!("Cannot log out while the CLOUD drive is active", m)
        }
        other => panic!("unexpected {:?}", other),
    }
    assert!(t.has_cloud());
    assert!(t.session.is_logged_in());
}

#[test]
fn test_logout_errors() {
    let mut t = Tester::new();
    match t.logout(Ok(())) {
        Err(CommandError::Usage(m)) => assert_eq!("Must LOGIN first", m),
        other => panic!("unexpected {:?}", other),
    }
}

#[test]
fn logout_service_failure_keeps_session() {
    let mut t = Tester::new();
    t.login("u", ok_response("token", vec![]), false).unwrap();
    match t.logout(Err(IoError::new(ErrorKind::Other, "down".to_owned()))) {
        Err(CommandError::Io(e)) => assert_eq!(ErrorKind::Other, e.kind),
        other => panic!("unexpected {:?}", other),
    }
    assert!(t.session.is_logged_in());
}

#[test]
fn test_login_logout_flow_once() {
    let mut t = Tester::new();
    assert!(!t.has_cloud());
    t.login("u1", ok_response("token 1", vec![]), false).unwrap();
    t.logout(Ok(())).unwrap();
    assert_eq!(vec!["", "    Unmounted CLOUD drive", "    Good bye!", ""], t.output);
    assert!(!t.has_cloud());
    assert!(!t.session.is_logged_in());
}

#[test]
fn test_login_logout_flow_multiple() {
    let mut t = Tester::new();
    assert!(!t.has_cloud());
    t.login("u1", ok_response("token 1", vec![]), false).unwrap();
    t.logout(Ok(())).unwrap();
    t.login("u2", ok_response("token 2", vec![]), false).unwrap();
    assert_eq!(vec!["", "    Unmounted CLOUD drive", "    Good bye!", ""], t.output);
    assert!(t.has_cloud());
    assert_eq!(Some("u2".to_owned()), t.session.logged_in_username());
}
