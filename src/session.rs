//! The session with the remote service and the decisions of the `LOGIN` and `LOGOUT`
//! commands.  Talking to the service and to the console is left to the caller, which hands
//! the outcomes in.

use vstd::prelude::*;
use crate::error::{CommandError, ErrorKind, IoError};
use crate::drive::kinds;
use crate::storage::{DriveFactory, StorageManager};
use crate::text::ascii_upper;

verus! {

/// Who the service has authenticated, if anyone.
#[derive(Debug)]
pub struct Session {
    user: Option<String>,
}

impl Session {
    /// The logged-in user, if any.
    pub closed spec fn user(&self) -> Option<Seq<char>> {
        match self.user {
            Some(u) => Some(u@),
            None => None,
        }
    }

    /// A session in which nobody is logged in.
    pub fn new() -> (r: Session)
        ensures
            r.user() is None,
    {
        Session { user: None }
    }

    pub fn is_logged_in(&self) -> (r: bool)
        ensures
            r == self.user() is Some,
    {
        self.user.is_some()
    }

    pub fn logged_in_username(&self) -> (r: Option<String>)
        ensures
            match r {
                Some(u) => self.user() == Some(u@),
                None => self.user() is None,
            },
    {
        match &self.user {
            Some(u) => Some(u.clone()),
            None => None,
        }
    }
}

/// What the service answers to a successful login.
#[derive(Debug)]
pub struct LoginResponse {
    pub access_token: String,
    pub motd: Vec<String>,
}

/// The lines that frame a message of the day, or none on a narrow console or for an empty
/// message.
pub open spec fn motd_lines(motd: Seq<Seq<char>>, narrow: bool) -> Seq<Seq<char>> {
    if narrow || motd.len() == 0 {
        Seq::empty()
    } else {
        seq![""@, "----- BEGIN SERVER MOTD -----"@] + motd + seq!["-----  END SERVER MOTD  -----"@, ""@]
    }
}

/// The name of the drive that holds the files of the logged-in user.
pub open spec fn cloud_drive() -> Seq<char> {
    "CLOUD"@
}

/// The URI of the drive of `user`.
pub open spec fn cloud_uri(user: Seq<char>) -> Seq<char> {
    "cloud://"@ + user
}

/// The views of a list of texts.
pub open spec fn texts(v: Seq<String>) -> Seq<Seq<char>> {
    v.map_values(|s: String| s@)
}

/// The `LOGIN` command.
pub struct LoginCommand {}

impl LoginCommand {
    pub fn new() -> (r: LoginCommand) {
        LoginCommand {}
    }

    /// What `check` does: a second login is a usage error.
    pub open spec fn check_spec(session: Session, r: Result<(), CommandError>) -> bool {
        match session.user() {
            None => r is Ok,
            Some(_) => r matches Err(CommandError::Usage(m)) && m@ == "Cannot LOGIN again before LOGOUT"@,
        }
    }

    /// Decides whether the login may go ahead, before the password is read or the service is
    /// called.
    pub fn check(&self, session: &Session) -> (r: Result<(), CommandError>)
        ensures
            LoginCommand::check_spec(*session, r),
    {
        if session.is_logged_in() {
            Err(CommandError::Usage(String::from_str("Cannot LOGIN again before LOGOUT")))
        } else {
            Ok(())
        }
    }

    /// What `finish` does with the service's answer: on success the user is logged in and the
    /// `CLOUD` drive is mounted for them.
    pub open spec fn finish_spec(
        pre_session: Session,
        post_session: Session,
        pre: StorageManager,
        post: StorageManager,
        username: Seq<char>,
        response: Result<Seq<Seq<char>>, ErrorKind>,
        narrow: bool,
        output: Seq<Seq<char>>,
        r: Result<(), ErrorKind>,
    ) -> bool {
        match response {
            Err(k) => r == Result::<(), ErrorKind>::Err(k) && output.len() == 0 && post_session
                == pre_session && post == pre,
            Ok(motd) => {
                &&& post_session.user() == Some(username)
                &&& output == motd_lines(motd, narrow)
                &&& StorageManager::mount_spec(pre, post, cloud_drive(), cloud_uri(username), r)
            },
        }
    }

    /// Acts on the service's answer to a login as `username`: logs the session in, returns
    /// the message of the day to show (unless the console is `narrow`) and mounts the user's
    /// drive as `CLOUD`.
    pub fn finish(
        &self,
        session: &mut Session,
        storage: &mut StorageManager,
        username: &str,
        response: Result<LoginResponse, IoError>,
        narrow: bool,
    ) -> (r: (Vec<String>, Result<(), CommandError>))
        requires
            old(storage).wf(),
        ensures
            final(storage).wf(),
            LoginCommand::finish_spec(
                *old(session),
                *final(session),
                *old(storage),
                *final(storage),
                username@,
                match response {
                    Ok(resp) => Ok(texts(resp.motd@)),
                    Err(e) => Err(e.kind),
                },
                narrow,
                texts(r.0@),
                match r.1 {
                    Ok(()) => Ok(()),
                    Err(CommandError::Io(e)) => Err(e.kind),
                    Err(_) => Err(ErrorKind::Other),
                },
            ),
            response is Err ==> (r.1 matches Err(CommandError::Io(e)) && e == response->Err_0),
    {
        let resp = match response {
            Ok(resp) => resp,
            Err(e) => {
                return (Vec::new(), Err(CommandError::Io(e)));
            },
        };
        let mut output: Vec<String> = Vec::new();
        if !narrow && resp.motd.len() > 0 {
            output.push(String::from_str(""));
            output.push(String::from_str("----- BEGIN SERVER MOTD -----"));
            let mut i: usize = 0;
            while i < resp.motd.len()
                invariant
                    i <= resp.motd@.len(),
                    texts(output@) == seq![""@, "----- BEGIN SERVER MOTD -----"@] + texts(resp.motd@).subrange(0, i as int),
                decreases resp.motd@.len() - i,
            {
                let ghost prev = output@;
                let line = resp.motd[i].clone();
                output.push(line);
                assert(texts(output@) =~= texts(prev).push(line@));
                assert(texts(resp.motd@).subrange(0, i + 1) =~= texts(resp.motd@).subrange(0, i as int).push(line@));
                i = i + 1;
            }
            assert(texts(resp.motd@).subrange(0, i as int) =~= texts(resp.motd@));
            let ghost before = output@;
            output.push(String::from_str("-----  END SERVER MOTD  -----"));
            output.push(String::from_str(""));
            assert(texts(output@) =~= texts(before) + seq!["-----  END SERVER MOTD  -----"@, ""@]);
        } else {
            assert(texts(output@) =~= Seq::<Seq<char>>::empty());
        }
        session.user = Some(String::from_str(username));
        let mut uri = String::from_str("cloud://");
        uri.append(username);
        let result = match storage.mount("CLOUD", uri.as_str()) {
            Ok(()) => Ok(()),
            Err(e) => Err(CommandError::Io(e)),
        };
        (output, result)
    }
}

/// The lines that close a logout.
pub open spec fn logout_lines(unmounted: bool) -> Seq<Seq<char>> {
    if unmounted {
        seq![""@, "    Unmounted CLOUD drive"@, "    Good bye!"@, ""@]
    } else {
        seq![""@, "    Good bye!"@, ""@]
    }
}

/// The `LOGOUT` command.
pub struct LogoutCommand {}

impl LogoutCommand {
    pub fn new() -> (r: LogoutCommand) {
        LogoutCommand {}
    }

    /// What `begin` does: it requires a login, then unmounts `CLOUD`.  A missing drive is no
    /// failure (the answer is then `false`); an active one is a usage error.
    pub open spec fn begin_spec(
        session: Session,
        pre: StorageManager,
        post: StorageManager,
        r: Result<bool, CommandError>,
    ) -> bool {
        if session.user() is None {
            r matches Err(CommandError::Usage(m)) && m@ == "Must LOGIN first"@ && post == pre
        } else {
            match pre.unmount_failure(cloud_drive()) {
                None => r == Result::<bool, CommandError>::Ok(true) && StorageManager::unmount_spec(
                    pre,
                    post,
                    cloud_drive(),
                    Ok(()),
                ),
                Some(ErrorKind::NotFound) => r == Result::<bool, CommandError>::Ok(false) && post == pre,
                Some(ErrorKind::Busy) => r matches Err(CommandError::Usage(m)) && m@
                    == "Cannot log out while the CLOUD drive is active"@ && post == pre,
                Some(k) => r matches Err(CommandError::Io(e)) && e.kind == k && post == pre,
            }
        }
    }

    /// Decides the first half of a logout, before the service is told: checks the login and
    /// unmounts the `CLOUD` drive.  Says whether a drive was unmounted.
    pub fn begin(&self, session: &Session, storage: &mut StorageManager) -> (r: Result<bool, CommandError>)
        requires
            old(storage).wf(),
        ensures
            final(storage).wf(),
            LogoutCommand::begin_spec(*session, *old(storage), *final(storage), r),
    {
        if !session.is_logged_in() {
            return Err(CommandError::Usage(String::from_str("Must LOGIN first")));
        }
        proof {
            reveal_strlit("CLOUD");
            assert(ascii_upper("CLOUD"@) =~= "CLOUD"@);
        }
        match storage.unmount("CLOUD") {
            Ok(()) => Ok(true),
            Err(e) => {
                if e.kind == ErrorKind::NotFound {
                    Ok(false)
                } else if e.kind == ErrorKind::Busy {
                    Err(CommandError::Usage(String::from_str("Cannot log out while the CLOUD drive is active")))
                } else {
                    let mut msg = String::from_str("Cannot log out: ");
                    msg.append(e.message.as_str());
                    Err(CommandError::Io(IoError::new(e.kind, msg)))
                }
            },
        }
    }

    /// What `finish` does with the service's answer: on success the session is logged out.
    pub open spec fn finish_spec(
        pre: Session,
        post: Session,
        unmounted: bool,
        result: Result<(), ErrorKind>,
        output: Seq<Seq<char>>,
        r: Result<(), ErrorKind>,
    ) -> bool {
        match result {
            Err(k) => r == Result::<(), ErrorKind>::Err(k) && post == pre,
            Ok(()) => r is Ok && post.user() is None && output == logout_lines(unmounted),
        }
    }

    /// Acts on the service's answer to the logout and returns the lines to show.
    pub fn finish(&self, session: &mut Session, unmounted: bool, result: Result<(), IoError>) -> (r:
        Result<Vec<String>, CommandError>)
        ensures
            LogoutCommand::finish_spec(
                *old(session),
                *final(session),
                unmounted,
                kinds(result),
                match r {
                    Ok(v) => texts(v@),
                    Err(_) => Seq::empty(),
                },
                match r {
                    Ok(_) => Ok(()),
                    Err(CommandError::Io(e)) => Err(e.kind),
                    Err(_) => Err(ErrorKind::Other),
                },
            ),
    {
        match result {
            Err(e) => Err(CommandError::Io(e)),
            Ok(()) => {
                session.user = None;
                let mut v: Vec<String> = Vec::new();
                v.push(String::from_str(""));
                if unmounted {
                    v.push(String::from_str("    Unmounted CLOUD drive"));
                }
                v.push(String::from_str("    Good bye!"));
                v.push(String::from_str(""));
                assert(texts(v@) =~= logout_lines(unmounted));
                Ok(v)
            },
        }
    }
}

/// Registers the `cloud` scheme, whose drives show the files that the service holds for a
/// user, so that a login can mount the user's drive.
pub fn add_all(storage: &mut StorageManager) -> (r: Result<(), IoError>)
    requires
        old(storage).wf(),
    ensures
        final(storage).wf(),
        old(storage).has_scheme_spec("cloud"@) ==> (r matches Err(e) && e.kind == ErrorKind::AlreadyExists
            && *final(storage) == *old(storage)),
        !old(storage).has_scheme_spec("cloud"@) ==> (r is Ok && final(storage).scheme_seq() == old(
            storage,
        ).scheme_seq().push("cloud"@) && final(storage).factory("cloud"@) is Cloud
            && final(storage).mount_seq() == old(storage).mount_seq()),
{
    storage.register_scheme("cloud", DriveFactory::Cloud)
}

proof fn lemma_cloud_uri(user: Seq<char>)
    ensures
        crate::storage::split_uri(cloud_uri(user)) == Some(("cloud"@, user)),
        crate::storage::valid_drive_name(cloud_drive()),
        ascii_upper(cloud_drive()) == cloud_drive(),
{
    reveal_strlit("cloud://");
    reveal_strlit("cloud");
    reveal_strlit("CLOUD");
    let u = cloud_uri(user);
    assert(u[5] == ':');
    assert forall|j: int| 0 <= j < 5 implies u[j] != ':' by {}
    let i = choose|i: int| 0 <= i < u.len() && u[i] == ':' && forall|j: int| 0 <= j < i ==> u[j] != ':';
    if i < 5 {
    } else if i > 5 {
        assert(u[5] != ':');
    }
    assert(crate::storage::first_index(u, ':') == Some(5int));
    assert(u.subrange(0, 5) =~= "cloud"@);
    assert(u.subrange(8, u.len() as int) =~= user);
    assert(ascii_upper(cloud_drive()) =~= cloud_drive());
    assert(!cloud_drive().contains(':')) by {
        if cloud_drive().contains(':') {
            let k = choose|k: int| 0 <= k < cloud_drive().len() && cloud_drive()[k] == ':';
        }
    }
    assert(!cloud_drive().contains('/')) by {
        if cloud_drive().contains('/') {
            let k = choose|k: int| 0 <= k < cloud_drive().len() && cloud_drive()[k] == '/';
        }
    }
}

/// Before a login the `CLOUD` drive is absent; a login that the service accepts mounts it
/// (when the `cloud` scheme is registered); a second login before a logout is a usage error; a
/// logout that the service accepts unmounts it again and ends the session; and a logout
/// before any login is a usage error.
pub proof fn lemma_login_logout_round_trip(
    session0: Session,
    session1: Session,
    session2: Session,
    storage0: StorageManager,
    storage1: StorageManager,
    storage2: StorageManager,
    storage3: StorageManager,
    user: Seq<char>,
    motd: Seq<Seq<char>>,
    narrow: bool,
    login_output: Seq<Seq<char>>,
    login: Result<(), ErrorKind>,
    second_login: Result<(), CommandError>,
    unmount: Result<bool, CommandError>,
    logout_output: Seq<Seq<char>>,
    logout: Result<(), ErrorKind>,
    early_logout: Result<bool, CommandError>,
)
    requires
        storage0.wf(),
        session0.user() is None,
        !storage0.is_mounted(cloud_drive()),
        storage0.has_scheme_spec("cloud"@),
        storage0.factory("cloud"@) is Cloud,
        user.len() > 0,
        LoginCommand::finish_spec(session0, session1, storage0, storage1, user, Ok(motd), narrow, login_output, login),
        storage1.wf(),
        LoginCommand::check_spec(session1, second_login),
        LogoutCommand::begin_spec(session1, storage1, storage2, unmount),
        LogoutCommand::finish_spec(session1, session2, true, Ok(()), logout_output, logout),
        LogoutCommand::begin_spec(session0, storage0, storage3, early_logout),
    ensures
        login is Ok,
        storage1.is_mounted(cloud_drive()),
        session1.user() == Some(user),
        second_login matches Err(CommandError::Usage(_)),
        unmount == Result::<bool, CommandError>::Ok(true),
        !storage2.is_mounted(cloud_drive()),
        session2.user() is None,
        early_logout matches Err(CommandError::Usage(_)),
        storage3 == storage0,
{
    lemma_cloud_uri(user);
    storage0.lemma_table();
    storage1.lemma_table();
    let n0 = storage0.mount_seq().len();
    assert(storage1.names()[n0 as int] == cloud_drive());
    assert(storage1.current() != cloud_drive());
    let i = choose|i: int|
        0 <= i < storage1.mount_seq().len() && storage1.mount_seq()[i].0 == cloud_drive()
            && storage2.mount_seq() == storage1.mount_seq().remove(i);
    assert(storage1.names()[i] == cloud_drive());
    if storage2.is_mounted(cloud_drive()) {
        let j = choose|j: int| 0 <= j < storage2.names().len() && storage2.names()[j] == cloud_drive();
        if j < i {
            assert(storage1.names()[j] == cloud_drive());
        } else {
            assert(storage1.names()[j + 1] == cloud_drive());
        }
    }
}

} // verus!
