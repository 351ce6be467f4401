//! The decisions of the `SHARE` command: reading ACL changes and reporting ACLs.

use vstd::prelude::*;
use crate::acls::FileAcls;
use crate::drive::{kinds, Drive};
use crate::error::{CommandError, ErrorKind, LineCol};
use crate::session::{texts, Session};
use crate::storage::{find_char, first_index, StorageManager};
use crate::text::{lower_of, lowercase};

verus! {

/// A parsed ACL change: the principal and whether it is added (`true`) or removed (`false`).
///
/// A change is written `<principal><+|-><r|R>` with a non-empty principal.
pub open spec fn acl_change(t: Seq<char>) -> Option<(Seq<char>, bool)> {
    if t.len() >= 3 && (t[t.len() - 1] == 'r' || t[t.len() - 1] == 'R') && (t[t.len() - 2] == '+'
        || t[t.len() - 2] == '-') {
        Some((t.subrange(0, t.len() - 2), t[t.len() - 2] == '+'))
    } else {
        None
    }
}

/// The message that rejects the malformed ACL change `t`.
pub open spec fn invalid_acl_message(t: Seq<char>) -> Seq<char> {
    "Invalid ACL '"@ + t + "': must be of the form \"username+r\" or \"username-r\""@
}

/// Some reader of `readers`, once lowercased, is `public`.
pub open spec fn has_public_reader(readers: Seq<Seq<char>>) -> bool {
    exists|i: int| 0 <= i < readers.len() && lower_of(#[trigger] readers[i]) == "public"@
}

/// The position of the first malformed change among `ts`, if any.
pub open spec fn first_invalid(ts: Seq<Seq<char>>) -> Option<int> {
    if exists|k: int| 0 <= k < ts.len() && acl_change(ts[k]) is None && forall|j: int| 0 <= j < k ==> acl_change(ts[j]) is Some {
        Some(choose|k: int| 0 <= k < ts.len() && acl_change(ts[k]) is None && forall|j: int| 0 <= j < k ==> acl_change(ts[j]) is Some)
    } else {
        None
    }
}

/// The principals that the changes `ts` add.
pub open spec fn added(ts: Seq<Seq<char>>) -> Set<Seq<char>> {
    Set::new(|p: Seq<char>| exists|k: int| 0 <= k < ts.len() && acl_change(#[trigger] ts[k]) == Some((p, true)))
}

/// The principals that the changes `ts` remove.
pub open spec fn removed(ts: Seq<Seq<char>>) -> Set<Seq<char>> {
    Set::new(|p: Seq<char>| exists|k: int| 0 <= k < ts.len() && acl_change(#[trigger] ts[k]) == Some((p, false)))
}

/// The lines that report the readers of `filename`.
pub open spec fn show_lines(filename: Seq<char>, readers: Seq<Seq<char>>) -> Seq<Seq<char>> {
    if readers.len() == 0 {
        seq![""@, "    No ACLs on "@ + filename, ""@]
    } else {
        seq![""@, "    Reader ACLs on "@ + filename + ":"@] + readers.map_values(|r: Seq<char>| "    "@ + r) + seq![""@]
    }
}

/// The part of `filename` after its first `/`, or all of it.
pub open spec fn share_path(filename: Seq<char>) -> Seq<char> {
    match first_index(filename, '/') {
        Some(i) => filename.subrange(i + 1, filename.len() as int),
        None => filename,
    }
}

/// The lines that tell where a file made public can be run from.
pub open spec fn public_lines(base: Seq<char>, user: Seq<char>, filename: Seq<char>) -> Seq<Seq<char>> {
    seq![
        ""@,
        "    You have made the file publicly readable.  As a result, other people can now auto-run your public file by visiting:"@,
        "    "@ + base + "?run="@ + user + "/"@ + share_path(filename),
        ""@,
    ]
}

/// The outcome of an ACL update on `d` for file `rel`.
pub open spec fn update_outcome(d: Drive, rel: Seq<char>) -> Result<(), ErrorKind> {
    match d.change_failure(d.files().contains_key(crate::text::ascii_upper(rel)), true, true) {
        Some(k) => Err(k),
        None => Ok(()),
    }
}

/// The kind of an I/O failure of a command, if that is how it failed.
pub open spec fn io_failure<T>(r: Result<T, CommandError>) -> Option<ErrorKind> {
    match r {
        Err(CommandError::Io(e)) => Some(e.kind),
        _ => None,
    }
}

/// The `SHARE` command: shows or changes who may read a file.
pub struct ShareCommand {
    exec_base_url: String,
}

impl ShareCommand {
    /// The base URL that public files can be run from.
    pub closed spec fn base_url(&self) -> Seq<char> {
        self.exec_base_url@
    }

    /// Creates the command; `exec_base_url` is where public files can be run from.
    pub fn new(exec_base_url: String) -> (r: ShareCommand)
        ensures
            r.base_url() == exec_base_url@,
    {
        ShareCommand { exec_base_url }
    }

    /// Parses the ACL change `acl`, found at `acl_pos`, and records it in `add` or `remove`.
    ///
    /// A malformed change is a syntax error that quotes it, and leaves both sets untouched.
    pub fn parse_acl(acl: String, acl_pos: LineCol, add: &mut FileAcls, remove: &mut FileAcls) -> (r:
        Result<(), CommandError>)
        requires
            old(add).wf(),
            old(remove).wf(),
        ensures
            final(add).wf(),
            final(remove).wf(),
            match acl_change(acl@) {
                Some((p, true)) => r is Ok && final(add).reader_set() == old(add).reader_set().insert(
                    p,
                ) && final(remove)@ == old(remove)@,
                Some((p, false)) => r is Ok && final(remove).reader_set() == old(
                    remove,
                ).reader_set().insert(p) && final(add)@ == old(add)@,
                None => match r {
                    Err(CommandError::Syntax(pos, msg)) => pos == acl_pos && msg@
                        == invalid_acl_message(acl@) && final(add)@ == old(add)@ && final(remove)@
                        == old(remove)@,
                    _ => false,
                },
            },
    {
        let n = acl.as_str().unicode_len();
        if n >= 3 {
            let op = acl.as_str().get_char(n - 2);
            let perm = acl.as_str().get_char(n - 1);
            if (perm == 'r' || perm == 'R') && (op == '+' || op == '-') {
                let username = String::from_str(acl.as_str().substring_char(0, n - 2));
                if op == '+' {
                    add.add_reader(username);
                } else {
                    remove.add_reader(username);
                }
                return Ok(());
            }
        }
        let mut msg = String::from_str("Invalid ACL '");
        msg.append(acl.as_str());
        msg.append("': must be of the form \"username+r\" or \"username-r\"");
        Err(CommandError::Syntax(acl_pos, msg))
    }

    /// Whether `acls` makes a file readable by everyone: some reader, compared without regard
    /// to case, is `public`.  A reader spelled `public` always qualifies.
    pub fn has_public_acl(acls: &FileAcls) -> (r: bool)
        ensures
            r == has_public_reader(acls@),
            acls@.contains("public"@) ==> r,
    {
        let readers = acls.readers();
        let public = String::from_str("public");
        let mut i: usize = 0;
        while i < readers.len()
            invariant
                readers@.map_values(|s: String| s@) == acls@,
                i <= readers.len(),
                public@ == "public"@,
                forall|k: int| 0 <= k < i ==> lower_of(#[trigger] acls@[k]) != "public"@,
                forall|k: int| 0 <= k < i ==> #[trigger] acls@[k] != "public"@,
            decreases readers.len() - i,
        {
            let lower = lowercase(readers[i].as_str());
            assert(acls@[i as int] == readers@[i as int]@);
            if lower == public {
                return true;
            }
            proof {
                reveal_strlit("public");
                if acls@[i as int] == "public"@ {
                    assert(forall|j: int| 0 <= j < acls@[i as int].len() ==> 'a' <= #[trigger] acls@[i as int][j] && acls@[i as int][j] <= 'z');
                }
            }
            i = i + 1;
        }
        false
    }

    /// The lines that report the readers `acls` of `filename`.
    pub fn show_acls(filename: &str, acls: &FileAcls) -> (r: Vec<String>)
        ensures
            texts(r@) == show_lines(filename@, acls@),
    {
        let mut out: Vec<String> = Vec::new();
        out.push(String::from_str(""));
        let readers = acls.readers();
        if readers.len() == 0 {
            let mut l = String::from_str("    No ACLs on ");
            l.append(filename);
            out.push(l);
            out.push(String::from_str(""));
            assert(texts(out@) =~= show_lines(filename@, acls@));
            return out;
        }
        let mut l = String::from_str("    Reader ACLs on ");
        l.append(filename);
        l.append(":");
        out.push(l);
        let ghost head = texts(out@);
        let ghost body = acls@.map_values(|r: Seq<char>| "    "@ + r);
        let mut i: usize = 0;
        while i < readers.len()
            invariant
                readers@.map_values(|s: String| s@) == acls@,
                i <= readers.len(),
                body == acls@.map_values(|r: Seq<char>| "    "@ + r),
                texts(out@) == head + body.subrange(0, i as int),
            decreases readers.len() - i,
        {
            let ghost prev = out@;
            let mut line = String::from_str("    ");
            line.append(readers[i].as_str());
            out.push(line);
            assert(acls@[i as int] == readers@[i as int]@);
            assert(texts(out@) =~= texts(prev).push(line@));
            assert(body.subrange(0, i + 1) =~= body.subrange(0, i as int).push(body[i as int]));
            i = i + 1;
        }
        assert(body.subrange(0, i as int) =~= body);
        let ghost before = out@;
        out.push(String::from_str(""));
        assert(texts(out@) =~= texts(before).push(""@));
        assert(texts(out@) =~= show_lines(filename@, acls@));
        out
    }

    /// The lines that tell that file `filename` is public and where `user` can share it from.
    fn public_notice(&self, user: &str, filename: &str) -> (r: Vec<String>)
        ensures
            texts(r@) == public_lines(self.base_url(), user@, filename@),
    {
        let n = filename.unicode_len();
        let path = match find_char(filename, '/') {
            Some(i) => filename.substring_char(i + 1, n),
            None => filename,
        };
        let mut url = String::from_str("    ");
        url.append(self.exec_base_url.as_str());
        url.append("?run=");
        url.append(user);
        url.append("/");
        url.append(path);
        let mut out: Vec<String> = Vec::new();
        out.push(String::from_str(""));
        out.push(String::from_str("    You have made the file publicly readable.  As a result, other people can now auto-run your public file by visiting:"));
        out.push(url);
        out.push(String::from_str(""));
        assert(texts(out@) =~= public_lines(self.base_url(), user@, filename@));
        out
    }

    /// Runs `SHARE filename, acls...`.  With no change it returns the lines that report the
    /// readers of the file.  Otherwise it applies the changes, unless one is malformed, and,
    /// when a change makes the file public, returns the lines that tell where it can be run
    /// from; that needs a logged-in user.
    pub fn run(&self, storage: &mut StorageManager, session: &Session, filename: &str, acls: &Vec<(String, LineCol)>) -> (r:
        Result<Vec<String>, CommandError>)
        requires
            old(storage).wf(),
        ensures
            final(storage).wf(),
            ({
                let ts = acls@.map_values(|a: (String, LineCol)| a.0@);
                first_invalid(ts) is None && added(ts).contains("public"@) && (old(storage).resolve(
                    filename@,
                ) matches Ok((d, rel)) && update_outcome(old(storage).drive(d), rel) is Ok) ==> match session.user() {
                    Some(u) => r matches Ok(lines) && texts(lines@) == public_lines(self.base_url(), u, filename@),
                    None => r matches Err(CommandError::Usage(_)),
                }
            }),
            ({
                let ts = acls@.map_values(|a: (String, LineCol)| a.0@);
                match first_invalid(ts) {
                    Some(k) => *final(storage) == *old(storage) && (r matches Err(CommandError::Syntax(pos, m))
                        && pos == acls@[k].1 && m@ == invalid_acl_message(ts[k])),
                    None => if ts.len() == 0 {
                        &&& *final(storage) == *old(storage)
                        &&& match old(storage).resolve(filename@) {
                            Err(k) => io_failure(r) == Some(k),
                            Ok((d, rel)) => match old(storage).drive(d).acls_answer(rel) {
                                Ok(readers) => r matches Ok(lines) && texts(lines@) == show_lines(filename@, readers),
                                Err(k) => io_failure(r) == Some(k),
                            },
                        }
                    } else {
                        match old(storage).resolve(filename@) {
                            Err(k) => io_failure(r) == Some(k) && *final(storage) == *old(storage),
                            Ok((d, rel)) => {
                                let outcome = update_outcome(old(storage).drive(d), rel);
                                &&& Drive::update_acls_spec(old(storage).drive(d), final(storage).drive(d), rel, added(ts), removed(ts), outcome)
                                &&& final(storage).same_but(old(storage), d)
                                &&& match outcome {
                                    Err(k) => io_failure(r) == Some(k),
                                    Ok(()) => if exists|p: Seq<char>| #[trigger] added(ts).contains(p) && lower_of(p) == "public"@ {
                                        match session.user() {
                                            Some(u) => r matches Ok(lines) && texts(lines@) == public_lines(self.base_url(), u, filename@),
                                            None => r matches Err(CommandError::Usage(_)),
                                        }
                                    } else {
                                        r matches Ok(lines) && lines@.len() == 0
                                    },
                                }
                            },
                        }
                    },
                }
            }),
    {
        let ghost ts = acls@.map_values(|a: (String, LineCol)| a.0@);
        let mut add = FileAcls::new();
        let mut remove = FileAcls::new();
        let mut i: usize = 0;
        while i < acls.len()
            invariant
                ts == acls@.map_values(|a: (String, LineCol)| a.0@),
                i <= acls.len(),
                add.wf(),
                remove.wf(),
                add.reader_set() == added(ts.subrange(0, i as int)),
                remove.reader_set() == removed(ts.subrange(0, i as int)),
                forall|j: int| 0 <= j < i ==> acl_change(#[trigger] ts[j]) is Some,
                *storage == *old(storage),
                old(storage).wf(),
            decreases acls.len() - i,
        {
            let ghost add0 = add.reader_set();
            let ghost remove0 = remove.reader_set();
            let ghost pre = ts.subrange(0, i as int);
            let ghost post = ts.subrange(0, i + 1);
            assert(post =~= pre.push(ts[i as int]));
            assert(ts[i as int] == acls@[i as int].0@);
            match ShareCommand::parse_acl(acls[i].0.clone(), acls[i].1, &mut add, &mut remove) {
                Ok(()) => {},
                Err(e) => {
                    proof {
                        let k = i as int;
                        assert(acl_change(ts[k]) is None);
                        assert(exists|k: int| 0 <= k < ts.len() && acl_change(ts[k]) is None && forall|j: int| 0 <= j < k ==> acl_change(ts[j]) is Some);
                        let c = choose|c: int| 0 <= c < ts.len() && acl_change(ts[c]) is None && forall|j: int| 0 <= j < c ==> acl_change(ts[j]) is Some;
                        if c < k {
                        } else if c > k {
                            assert(acl_change(ts[k]) is Some);
                        }
                    }
                    return Err(e);
                },
            }
            proof {
                assert(add.reader_set() =~= added(post)) by {
                    assert forall|p: Seq<char>| add.reader_set().contains(p) <==> added(post).contains(p) by {
                        if added(post).contains(p) {
                            let k = choose|k: int| 0 <= k < post.len() && acl_change(post[k]) == Some((p, true));
                            if k < i {
                                assert(pre[k] == post[k]);
                                assert(added(pre).contains(p));
                            }
                        }
                        if add.reader_set().contains(p) && !add0.contains(p) {
                            assert(acl_change(post[i as int]) == Some((p, true)));
                        }
                        if add0.contains(p) {
                            let k = choose|k: int| 0 <= k < pre.len() && acl_change(pre[k]) == Some((p, true));
                            assert(post[k] == pre[k]);
                        }
                    }
                }
                assert(remove.reader_set() =~= removed(post)) by {
                    assert forall|p: Seq<char>| remove.reader_set().contains(p) <==> removed(post).contains(p) by {
                        if removed(post).contains(p) {
                            let k = choose|k: int| 0 <= k < post.len() && acl_change(post[k]) == Some((p, false));
                            if k < i {
                                assert(pre[k] == post[k]);
                                assert(removed(pre).contains(p));
                            }
                        }
                        if remove.reader_set().contains(p) && !remove0.contains(p) {
                            assert(acl_change(post[i as int]) == Some((p, false)));
                        }
                        if remove0.contains(p) {
                            let k = choose|k: int| 0 <= k < pre.len() && acl_change(pre[k]) == Some((p, false));
                            assert(post[k] == pre[k]);
                        }
                    }
                }
            }
            i = i + 1;
        }
        assert(ts.subrange(0, i as int) =~= ts);
        if acls.len() == 0 {
            return match storage.get_acls(filename) {
                Ok(a) => Ok(ShareCommand::show_acls(filename, &a)),
                Err(e) => Err(CommandError::Io(e)),
            };
        }
        match storage.update_acls(filename, &add, &remove) {
            Ok(()) => {},
            Err(e) => {
                return Err(CommandError::Io(e));
            },
        }
        if ShareCommand::has_public_acl(&add) {
            proof {
                let k = choose|k: int| 0 <= k < add@.len() && lower_of(#[trigger] add@[k]) == "public"@;
                assert(add.reader_set().contains(add@[k]));
            }
            match session.logged_in_username() {
                Some(u) => Ok(self.public_notice(u.as_str(), filename)),
                None => Err(CommandError::Usage(String::from_str("SHARE can only make files public for a logged-in user"))),
            }
        } else {
            proof {
                assert forall|p: Seq<char>| #[trigger] added(ts).contains(p) implies lower_of(p) != "public"@ by {
                    assert(add.reader_set().contains(p));
                    let k = choose|k: int| 0 <= k < add@.len() && add@[k] == p;
                    assert(!(lower_of(add@[k]) == "public"@));
                }
                if added(ts).contains("public"@) {
                    assert(add.reader_set().contains("public"@));
                    assert(add@.contains("public"@));
                }
            }
            Ok(Vec::new())
        }
    }
}

/// A change made of a non-empty principal and `+r` or `+R` adds exactly that principal, and
/// one made of it and `-r` or `-R` removes it: the principal keeps its case and the case of
/// the `r` does not matter.
pub proof fn lemma_acl_change_round_trip(principal: Seq<char>, perm: char)
    requires
        principal.len() > 0,
        perm == 'r' || perm == 'R',
    ensures
        acl_change(principal + seq!['+', perm]) == Some((principal, true)),
        acl_change(principal + seq!['-', perm]) == Some((principal, false)),
{
    let a = principal + seq!['+', perm];
    let b = principal + seq!['-', perm];
    assert(a.subrange(0, a.len() - 2) =~= principal);
    assert(b.subrange(0, b.len() - 2) =~= principal);
}

} // verus!
