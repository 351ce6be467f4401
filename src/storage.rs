//! The mount table: drives by name, the schemes that make them, and the current drive.

use vstd::prelude::*;
use crate::acls::FileAcls;
use crate::drive::{catalog_view, kinds, DemoFile, DemosDrive, Drive, DriveFiles, MemoryDrive, CloudDrive};
use crate::error::{ErrorKind, IoError};
use crate::files::str_eq;
use crate::text::{ascii_upper, to_ascii_upper};

verus! {

/// Makes the demos drive from its catalog of programs.
#[derive(Debug)]
pub struct DemoDriveFactory {
    demos: Vec<DemoFile>,
}

impl DemoDriveFactory {
    /// The programs that each demos drive offers.
    pub closed spec fn catalog(&self) -> Seq<DemoFile> {
        self.demos@
    }

    pub fn new(demos: Vec<DemoFile>) -> (r: DemoDriveFactory)
        ensures
            r.catalog() == demos@,
    {
        DemoDriveFactory { demos }
    }

    /// Makes a demos drive; the target must be empty.
    pub fn create(&self, target: &str) -> (r: Result<DemosDrive, IoError>)
        ensures
            r is Ok <==> target@.len() == 0,
            r matches Ok(d) ==> d.wf() && d@ == catalog_view(self.catalog()),
            r matches Err(e) ==> e.kind == ErrorKind::InvalidInput,
    {
        if target.unicode_len() == 0 {
            Ok(DemosDrive::new(&self.demos))
        } else {
            Err(
                IoError::new(
                    ErrorKind::InvalidInput,
                    String::from_str("Cannot specify a path to mount a demos drive"),
                ),
            )
        }
    }
}

impl Default for DemoDriveFactory {
    /// A factory whose drives offer no program.
    fn default() -> (r: DemoDriveFactory)
        ensures
            r.catalog() == Seq::<DemoFile>::empty(),
    {
        DemoDriveFactory::new(Vec::new())
    }
}

/// Makes a drive from the target of a mount URI; one factory serves each scheme.
#[derive(Debug)]
pub enum DriveFactory {
    /// Empty memory drives; the target must be empty.
    Memory,
    /// Demos drives; the target must be empty.
    Demos(DemoDriveFactory),
    /// Drives of the remote service; the target names the user whose files they show.
    Cloud,
}

impl DriveFactory {
    /// Whether the factory accepts `target`.
    pub open spec fn accepts(&self, target: Seq<char>) -> bool {
        match self {
            DriveFactory::Memory => target.len() == 0,
            DriveFactory::Demos(_) => target.len() == 0,
            DriveFactory::Cloud => target.len() > 0,
        }
    }

    /// Whether `d` is a drive that the factory makes for `target`.
    pub open spec fn made(&self, target: Seq<char>, d: Drive) -> bool {
        &&& d.wf()
        &&& match self {
            DriveFactory::Memory => d is Memory && d.files() == Map::<Seq<char>, crate::files::FileView>::empty(),
            DriveFactory::Demos(f) => d is Demos && d.files() == catalog_view(f.catalog()),
            DriveFactory::Cloud => d matches Drive::Cloud(c) && c.owner_view() == target,
        }
    }

    /// Makes a drive for `target`.
    pub fn create(&self, target: &str) -> (r: Result<Drive, IoError>)
        ensures
            r is Ok <==> self.accepts(target@),
            r matches Ok(d) ==> self.made(target@, d),
            r matches Err(e) ==> e.kind == ErrorKind::InvalidInput,
    {
        match self {
            DriveFactory::Memory => {
                if target.unicode_len() == 0 {
                    Ok(Drive::Memory(MemoryDrive::new()))
                } else {
                    Err(
                        IoError::new(
                            ErrorKind::InvalidInput,
                            String::from_str("Cannot specify a path to mount an in-memory drive"),
                        ),
                    )
                }
            },
            DriveFactory::Demos(f) => match f.create(target) {
                Ok(d) => Ok(Drive::Demos(d)),
                Err(e) => Err(e),
            },
            DriveFactory::Cloud => {
                if target.unicode_len() == 0 {
                    Err(
                        IoError::new(
                            ErrorKind::InvalidInput,
                            String::from_str("Must specify a username to mount a cloud drive"),
                        ),
                    )
                } else {
                    Ok(Drive::Cloud(CloudDrive::new(String::from_str(target))))
                }
            },
        }
    }
}

/// The index of the first `c` in `s`, if any.
pub open spec fn first_index(s: Seq<char>, c: char) -> Option<int> {
    if exists|i: int| 0 <= i < s.len() && s[i] == c && forall|j: int| 0 <= j < i ==> s[j] != c {
        Some(
            choose|i: int| 0 <= i < s.len() && s[i] == c && forall|j: int| 0 <= j < i ==> s[j] != c,
        )
    } else {
        None
    }
}

/// Finds the first `c` in `s`.
pub fn find_char(s: &str, c: char) -> (r: Option<usize>)
    ensures
        match r {
            Some(i) => first_index(s@, c) == Some(i as int) && s@.contains(c) && i < s@.len()
                && s@[i as int] == c,
            None => first_index(s@, c) is None && !s@.contains(c),
        },
{
    let n = s.unicode_len();
    let mut i: usize = 0;
    while i < n
        invariant
            n == s@.len(),
            i <= n,
            forall|j: int| 0 <= j < i ==> s@[j] != c,
        decreases n - i,
    {
        if s.get_char(i) == c {
            proof {
                let k = choose|k: int| 0 <= k < s@.len() && s@[k] == c && forall|j: int| 0 <= j < k ==> s@[j] != c;
                if k < i {
                } else if k > i {
                    assert(s@[i as int] == c);
                }
            }
            assert(s@[i as int] == c);
            return Some(i);
        }
        i = i + 1;
    }
    None
}

/// A drive name: not empty, and without `:` or `/`.
pub open spec fn valid_drive_name(n: Seq<char>) -> bool {
    n.len() > 0 && !n.contains(':') && !n.contains('/')
}

/// A URI `scheme://target` split into its scheme and its target; the scheme has no `:`.
pub open spec fn split_uri(u: Seq<char>) -> Option<(Seq<char>, Seq<char>)> {
    match first_index(u, ':') {
        Some(i) => if i + 3 <= u.len() && u[i + 1] == '/' && u[i + 2] == '/' {
            Some((u.subrange(0, i), u.subrange(i + 3, u.len() as int)))
        } else {
            None
        },
        None => None,
    }
}

/// The scheme of a well-formed URI.
pub open spec fn uri_scheme(u: Seq<char>) -> Seq<char> {
    let (scheme, _target) = split_uri(u)->0;
    scheme
}

/// The target of a well-formed URI.
pub open spec fn uri_target(u: Seq<char>) -> Seq<char> {
    let (_scheme, target) = split_uri(u)->0;
    target
}

/// `s` without one leading `/`.
pub open spec fn strip_root(s: Seq<char>) -> Seq<char> {
    if s.len() > 0 && s[0] == '/' {
        s.drop_first()
    } else {
        s
    }
}

/// A path `drive:/name` split into the drive (absent for a path without `:`) and the name of
/// the file within the drive.
pub open spec fn split_location(p: Seq<char>) -> (Option<Seq<char>>, Seq<char>) {
    match first_index(p, ':') {
        Some(i) => (Some(p.subrange(0, i)), strip_root(p.subrange(i + 1, p.len() as int))),
        None => (None, strip_root(p)),
    }
}

/// `s` without one leading `/`.
pub fn strip_root_str(s: &str) -> (r: &str)
    ensures
        r@ == strip_root(s@),
{
    let n = s.unicode_len();
    if n > 0 && s.get_char(0) == '/' {
        let r = s.substring_char(1, n);
        assert(r@ =~= s@.drop_first());
        r
    } else {
        s
    }
}

#[derive(Debug)]
struct Mount {
    name: String,
    uri: String,
    drive: Drive,
}

/// The mount table.
///
/// Drive names are kept in uppercase and are distinct.  One mounted drive is the current
/// one, and it cannot be unmounted.
#[derive(Debug)]
pub struct StorageManager {
    schemes: Vec<(String, DriveFactory)>,
    mounts: Vec<Mount>,
    current: usize,
}

impl StorageManager {
    /// The mounted drives in mount order, as names and URIs.
    pub closed spec fn mount_seq(&self) -> Seq<(Seq<char>, Seq<char>)> {
        self.mounts@.map_values(|m: Mount| (m.name@, m.uri@))
    }

    /// The registered schemes.
    pub closed spec fn scheme_seq(&self) -> Seq<Seq<char>> {
        self.schemes@.map_values(|s: (String, DriveFactory)| s.0@)
    }

    /// The name of the current drive.
    pub closed spec fn current(&self) -> Seq<char> {
        self.mounts@[self.current as int].name@
    }

    /// The drive mounted as `n`.
    pub closed spec fn drive(&self, n: Seq<char>) -> Drive {
        self.mounts@[choose|i: int| 0 <= i < self.mounts@.len() && self.mounts@[i].name@ == n].drive
    }

    /// The factory registered for scheme `s`.
    pub closed spec fn factory(&self, s: Seq<char>) -> DriveFactory {
        self.schemes@[choose|i: int| 0 <= i < self.schemes@.len() && self.schemes@[i].0@ == s].1
    }

    pub closed spec fn wf(&self) -> bool {
        &&& self.current < self.mounts@.len()
        &&& forall|i: int, j: int|
            0 <= i < j < self.mounts@.len() ==> #[trigger] self.mounts@[i].name@
                != #[trigger] self.mounts@[j].name@
        &&& forall|i: int, j: int|
            0 <= i < j < self.schemes@.len() ==> #[trigger] self.schemes@[i].0@
                != #[trigger] self.schemes@[j].0@
        &&& forall|i: int|
            0 <= i < self.mounts@.len() ==> (#[trigger] self.mounts@[i]).drive.wf()
                && valid_drive_name(self.mounts@[i].name@) && ascii_upper(self.mounts@[i].name@)
                == self.mounts@[i].name@
    }

    /// The names of the mounted drives.
    pub open spec fn names(&self) -> Seq<Seq<char>> {
        self.mount_seq().map_values(|m: (Seq<char>, Seq<char>)| m.0)
    }

    pub open spec fn is_mounted(&self, n: Seq<char>) -> bool {
        self.names().contains(n)
    }

    pub open spec fn has_scheme_spec(&self, s: Seq<char>) -> bool {
        self.scheme_seq().contains(s)
    }

    /// Why mounting `uri` as `name` fails, if it does.
    pub open spec fn mount_failure(&self, name: Seq<char>, uri: Seq<char>) -> Option<ErrorKind> {
        if !valid_drive_name(name) {
            Some(ErrorKind::InvalidInput)
        } else if self.is_mounted(ascii_upper(name)) {
            Some(ErrorKind::AlreadyExists)
        } else {
            match split_uri(uri) {
                None => Some(ErrorKind::InvalidInput),
                Some((scheme, target)) => if !self.has_scheme_spec(scheme) {
                    Some(ErrorKind::InvalidInput)
                } else if !self.factory(scheme).accepts(target) {
                    Some(ErrorKind::InvalidInput)
                } else {
                    None
                },
            }
        }
    }

    /// Why unmounting `name` fails, if it does.
    pub open spec fn unmount_failure(&self, name: Seq<char>) -> Option<ErrorKind> {
        if !self.is_mounted(ascii_upper(name)) {
            Some(ErrorKind::NotFound)
        } else if ascii_upper(name) == self.current() {
            Some(ErrorKind::Busy)
        } else {
            None
        }
    }

    /// The drive and the file name that `path` refers to.
    pub open spec fn resolve(&self, path: Seq<char>) -> Result<(Seq<char>, Seq<char>), ErrorKind> {
        let (d, rel) = split_location(path);
        match d {
            Some(n) => if !valid_drive_name(n) {
                Err(ErrorKind::InvalidInput)
            } else if !self.is_mounted(ascii_upper(n)) {
                Err(ErrorKind::NotFound)
            } else {
                Ok((ascii_upper(n), rel))
            },
            None => Ok((self.current(), rel)),
        }
    }

    /// The table is left as it was.
    pub open spec fn same_table(&self, other: &StorageManager) -> bool {
        &&& self.mount_seq() == other.mount_seq()
        &&& self.scheme_seq() == other.scheme_seq()
        &&& self.current() == other.current()
    }

    /// The table is left as it was, and so is every drive but `n`.
    pub open spec fn same_but(&self, other: &StorageManager, n: Seq<char>) -> bool {
        &&& self.same_table(other)
        &&& forall|m: Seq<char>| #[trigger] self.is_mounted(m) && m != n ==> self.drive(m) == other.drive(m)
    }

    /// What `mount` does: on success the drive that the scheme's factory makes for the target
    /// is added under the uppercase name; every other drive stays.
    pub open spec fn mount_spec(pre: StorageManager, post: StorageManager, name: Seq<char>, uri: Seq<char>, r: Result<(), ErrorKind>) -> bool {
        match pre.mount_failure(name, uri) {
            Some(k) => r == Result::<(), ErrorKind>::Err(k) && post == pre,
            None => {
                let key = ascii_upper(name);
                let (scheme, target) = split_uri(uri)->0;
                &&& r is Ok
                &&& post.mount_seq() == pre.mount_seq().push((key, uri))
                &&& post.scheme_seq() == pre.scheme_seq()
                &&& post.current() == pre.current()
                &&& pre.factory(scheme).made(target, post.drive(key))
                &&& forall|m: Seq<char>| #[trigger] pre.is_mounted(m) ==> post.drive(m) == pre.drive(m)
            },
        }
    }

    /// What `unmount` does: on success the entry of the uppercase name leaves the table.
    pub open spec fn unmount_spec(pre: StorageManager, post: StorageManager, name: Seq<char>, r: Result<(), ErrorKind>) -> bool {
        match pre.unmount_failure(name) {
            Some(k) => r == Result::<(), ErrorKind>::Err(k) && post == pre,
            None => {
                &&& r is Ok
                &&& exists|i: int|
                    0 <= i < pre.mount_seq().len() && pre.mount_seq()[i].0 == ascii_upper(name)
                        && post.mount_seq() == pre.mount_seq().remove(i)
                &&& post.scheme_seq() == pre.scheme_seq()
                &&& post.current() == pre.current()
                &&& forall|m: Seq<char>| #[trigger] post.is_mounted(m) ==> post.drive(m) == pre.drive(m)
            },
        }
    }

    /// What `cd` does: on success the drive that `path` names becomes the current one.
    pub open spec fn cd_spec(pre: StorageManager, post: StorageManager, path: Seq<char>, r: Result<(), ErrorKind>) -> bool {
        match pre.resolve(path) {
            Err(k) => r == Result::<(), ErrorKind>::Err(k) && post == pre,
            Ok((d, rel)) => if rel.len() > 0 {
                r == Result::<(), ErrorKind>::Err(ErrorKind::InvalidInput) && post == pre
            } else {
                &&& r is Ok
                &&& post.current() == d
                &&& post.mount_seq() == pre.mount_seq()
                &&& post.scheme_seq() == pre.scheme_seq()
                &&& forall|m: Seq<char>| #[trigger] pre.is_mounted(m) ==> post.drive(m) == pre.drive(m)
            },
        }
    }

    /// The names in the table are distinct, and the current drive is one of them.
    pub proof fn lemma_table(&self)
        requires
            self.wf(),
        ensures
            self.names().no_duplicates(),
            self.is_mounted(self.current()),
    {
        assert forall|i: int, j: int| 0 <= i < self.names().len() && 0 <= j < self.names().len() && i != j
            implies self.names()[i] != self.names()[j] by {
            self.lemma_drive_at(i);
            self.lemma_drive_at(j);
            if i < j {
                assert(self.mounts@[i].name@ != self.mounts@[j].name@);
            } else {
                assert(self.mounts@[j].name@ != self.mounts@[i].name@);
            }
        }
        self.lemma_drive_at(self.current as int);
    }

    proof fn lemma_drive_at(&self, i: int)
        requires
            self.wf(),
            0 <= i < self.mounts@.len(),
        ensures
            self.is_mounted(self.mounts@[i].name@),
            self.drive(self.mounts@[i].name@) == self.mounts@[i].drive,
            self.names()[i] == self.mounts@[i].name@,
            self.names().len() == self.mounts@.len(),
    {
        let n = self.mounts@[i].name@;
        assert(self.names()[i] == n);
        let j = choose|j: int| 0 <= j < self.mounts@.len() && self.mounts@[j].name@ == n;
        if j < i {
            assert(self.mounts@[j].name@ != self.mounts@[i].name@);
        } else if j > i {
            assert(self.mounts@[i].name@ != self.mounts@[j].name@);
        }
    }

    proof fn lemma_factory_at(&self, i: int)
        requires
            self.wf(),
            0 <= i < self.schemes@.len(),
        ensures
            self.has_scheme_spec(self.schemes@[i].0@),
            self.factory(self.schemes@[i].0@) == self.schemes@[i].1,
    {
        let n = self.schemes@[i].0@;
        assert(self.scheme_seq()[i] == n);
        let j = choose|j: int| 0 <= j < self.schemes@.len() && self.schemes@[j].0@ == n;
        if j < i {
            assert(self.schemes@[j].0@ != self.schemes@[i].0@);
        } else if j > i {
            assert(self.schemes@[i].0@ != self.schemes@[j].0@);
        }
    }

    /// After `new.mounts` replaced the drive of entry `i` and kept everything else.
    proof fn lemma_replace_drive(old_s: &StorageManager, new_s: &StorageManager, i: int)
        requires
            old_s.wf(),
            0 <= i < old_s.mounts@.len(),
            new_s.mounts@ == old_s.mounts@.update(i, new_s.mounts@[i]),
            new_s.mounts@[i].name@ == old_s.mounts@[i].name@,
            new_s.mounts@[i].uri@ == old_s.mounts@[i].uri@,
            new_s.mounts@[i].drive.wf(),
            new_s.schemes@ == old_s.schemes@,
            new_s.current == old_s.current,
        ensures
            new_s.wf(),
            new_s.same_but(old_s, old_s.mounts@[i].name@),
            new_s.drive(old_s.mounts@[i].name@) == new_s.mounts@[i].drive,
    {
        assert(new_s.wf()) by {
            assert forall|a: int, b: int| 0 <= a < b < new_s.mounts@.len() implies #[trigger] new_s.mounts@[a].name@
                != #[trigger] new_s.mounts@[b].name@ by {
                assert(old_s.mounts@[a].name@ != old_s.mounts@[b].name@);
            }
        }
        assert(new_s.mount_seq() =~= old_s.mount_seq());
        assert(new_s.scheme_seq() =~= old_s.scheme_seq());
        new_s.lemma_drive_at(i);
        assert forall|m: Seq<char>| #[trigger] new_s.is_mounted(m) && m != old_s.mounts@[i].name@ implies new_s.drive(m)
            == old_s.drive(m) by {
            let k = choose|k: int| 0 <= k < new_s.names().len() && new_s.names()[k] == m;
            new_s.lemma_drive_at(k);
            old_s.lemma_drive_at(k);
        }
    }

    fn find_mount(&self, key: &str) -> (r: Option<usize>)
        requires
            self.wf(),
        ensures
            match r {
                Some(i) => i < self.mounts@.len() && self.mounts@[i as int].name@ == key@ && self.is_mounted(key@),
                None => !self.is_mounted(key@),
            },
    {
        let mut i: usize = 0;
        while i < self.mounts.len()
            invariant
                self.wf(),
                i <= self.mounts@.len(),
                forall|k: int| 0 <= k < i ==> self.mounts@[k].name@ != key@,
            decreases self.mounts@.len() - i,
        {
            if str_eq(self.mounts[i].name.as_str(), key) {
                proof {
                    self.lemma_drive_at(i as int);
                }
                return Some(i);
            }
            i = i + 1;
        }
        proof {
            if self.is_mounted(key@) {
                let k = choose|k: int| 0 <= k < self.names().len() && self.names()[k] == key@;
                self.lemma_drive_at(k);
            }
        }
        None
    }

    fn find_scheme(&self, scheme: &str) -> (r: Option<usize>)
        requires
            self.wf(),
        ensures
            match r {
                Some(i) => i < self.schemes@.len() && self.schemes@[i as int].0@ == scheme@
                    && self.has_scheme_spec(scheme@) && self.factory(scheme@) == self.schemes@[i as int].1,
                None => !self.has_scheme_spec(scheme@),
            },
    {
        let mut i: usize = 0;
        while i < self.schemes.len()
            invariant
                self.wf(),
                i <= self.schemes@.len(),
                forall|k: int| 0 <= k < i ==> self.schemes@[k].0@ != scheme@,
            decreases self.schemes@.len() - i,
        {
            if str_eq(self.schemes[i].0.as_str(), scheme) {
                proof {
                    self.lemma_factory_at(i as int);
                }
                return Some(i);
            }
            i = i + 1;
        }
        proof {
            if self.has_scheme_spec(scheme@) {
                let k = choose|k: int| 0 <= k < self.scheme_seq().len() && self.scheme_seq()[k] == scheme@;
                assert(self.schemes@[k].0@ == scheme@);
            }
        }
        None
    }

    /// Creates a table with the `memory` scheme registered and an empty memory drive mounted as
    /// `MEMORY`, which is the current drive.
    pub fn new() -> (r: StorageManager)
        ensures
            r.wf(),
            r.mount_seq() == seq![("MEMORY"@, "memory://"@)],
            r.scheme_seq() == seq!["memory"@],
            r.has_scheme_spec("memory"@),
            r.factory("memory"@) is Memory,
            r.current() == "MEMORY"@,
            r.drive("MEMORY"@) is Memory,
            r.drive("MEMORY"@).files() == Map::<Seq<char>, crate::files::FileView>::empty(),
    {
        let mut schemes: Vec<(String, DriveFactory)> = Vec::new();
        schemes.push((String::from_str("memory"), DriveFactory::Memory));
        let mut mounts: Vec<Mount> = Vec::new();
        mounts.push(
            Mount {
                name: String::from_str("MEMORY"),
                uri: String::from_str("memory://"),
                drive: Drive::Memory(MemoryDrive::new()),
            },
        );
        let r = StorageManager { schemes, mounts, current: 0 };
        proof {
            reveal_strlit("MEMORY");
            assert(ascii_upper("MEMORY"@) =~= "MEMORY"@);
            assert(!"MEMORY"@.contains(':')) by {
                if "MEMORY"@.contains(':') {
                    let k = choose|k: int| 0 <= k < "MEMORY"@.len() && "MEMORY"@[k] == ':';
                }
            }
            assert(!"MEMORY"@.contains('/')) by {
                if "MEMORY"@.contains('/') {
                    let k = choose|k: int| 0 <= k < "MEMORY"@.len() && "MEMORY"@[k] == '/';
                }
            }
            assert(r.wf());
            assert(r.mount_seq() =~= seq![("MEMORY"@, "memory://"@)]);
            assert(r.scheme_seq() =~= seq!["memory"@]);
            r.lemma_drive_at(0);
            r.lemma_factory_at(0);
        }
        r
    }

    /// Whether `scheme` is registered.
    pub fn has_scheme(&self, scheme: &str) -> (r: bool)
        requires
            self.wf(),
        ensures
            r == self.has_scheme_spec(scheme@),
    {
        self.find_scheme(scheme).is_some()
    }

    /// Registers `factory` for `scheme`; a scheme cannot be registered twice.
    pub fn register_scheme(&mut self, scheme: &str, factory: DriveFactory) -> (r: Result<(), IoError>)
        requires
            old(self).wf(),
        ensures
            final(self).wf(),
            old(self).has_scheme_spec(scheme@) ==> (r matches Err(e) && e.kind == ErrorKind::AlreadyExists
                && *final(self) == *old(self)),
            !old(self).has_scheme_spec(scheme@) ==> (r is Ok && final(self).scheme_seq() == old(self).scheme_seq().push(scheme@)
                && final(self).factory(scheme@) == factory && final(self).mount_seq() == old(self).mount_seq()
                && final(self).current() == old(self).current()
                && forall|m: Seq<char>| #[trigger] old(self).is_mounted(m) ==> final(self).drive(m) == old(self).drive(m))
                && forall|s: Seq<char>| #[trigger] old(self).has_scheme_spec(s) ==> final(self).factory(s) == old(self).factory(s),
    {
        if self.find_scheme(scheme).is_some() {
            return Err(IoError::new(ErrorKind::AlreadyExists, String::from_str("Scheme already registered")));
        }
        let ghost old_s = *self;
        self.schemes.push((String::from_str(scheme), factory));
        proof {
            assert(self.scheme_seq() =~= old_s.scheme_seq().push(scheme@));
            assert forall|a: int, b: int| 0 <= a < b < self.schemes@.len() implies #[trigger] self.schemes@[a].0@
                != #[trigger] self.schemes@[b].0@ by {
                if b < old_s.schemes@.len() {
                    assert(old_s.schemes@[a].0@ != old_s.schemes@[b].0@);
                } else {
                    assert(old_s.scheme_seq()[a] == old_s.schemes@[a].0@);
                }
            }
            assert(self.wf());
            self.lemma_factory_at(old_s.schemes@.len() as int);
            assert forall|s: Seq<char>| #[trigger] old_s.has_scheme_spec(s) implies self.factory(s) == old_s.factory(s) by {
                let k = choose|k: int| 0 <= k < old_s.scheme_seq().len() && old_s.scheme_seq()[k] == s;
                old_s.lemma_factory_at(k);
                self.lemma_factory_at(k);
            }
            assert(self.mount_seq() =~= old_s.mount_seq());
        }
        Ok(())
    }

    /// Mounts the drive that `uri` describes under `name`, in uppercase.
    pub fn mount(&mut self, name: &str, uri: &str) -> (r: Result<(), IoError>)
        requires
            old(self).wf(),
        ensures
            final(self).wf(),
            StorageManager::mount_spec(*old(self), *final(self), name@, uri@, kinds(r)),
    {
        let n = name.unicode_len();
        if n == 0 || find_char(name, ':').is_some() || find_char(name, '/').is_some() {
            return Err(IoError::new(ErrorKind::InvalidInput, String::from_str("Invalid drive name")));
        }
        let key = to_ascii_upper(name);
        if self.find_mount(key.as_str()).is_some() {
            return Err(IoError::new(ErrorKind::AlreadyExists, String::from_str("Drive is already mounted")));
        }
        let un = uri.unicode_len();
        let colon = match find_char(uri, ':') {
            Some(i) => i,
            None => {
                return Err(IoError::new(ErrorKind::InvalidInput, String::from_str("Mount URI must be of the form scheme://target")));
            },
        };
        if !(un - colon >= 3 && uri.get_char(colon + 1) == '/' && uri.get_char(colon + 2) == '/') {
            return Err(IoError::new(ErrorKind::InvalidInput, String::from_str("Mount URI must be of the form scheme://target")));
        }
        let scheme = uri.substring_char(0, colon);
        let target = uri.substring_char(colon + 3, un);
        let f = match self.find_scheme(scheme) {
            Some(i) => i,
            None => {
                return Err(IoError::new(ErrorKind::InvalidInput, String::from_str("Unknown mount scheme")));
            },
        };
        let drive = match self.schemes[f].1.create(target) {
            Ok(d) => d,
            Err(e) => {
                return Err(e);
            },
        };
        proof {
            assert(ascii_upper(name@) =~= key@);
            assert(valid_drive_name(name@));
            assert(!key@.contains(':')) by {
                if key@.contains(':') {
                    let k = choose|k: int| 0 <= k < key@.len() && key@[k] == ':';
                    assert(name@[k] == ':');
                }
            }
            assert(!key@.contains('/')) by {
                if key@.contains('/') {
                    let k = choose|k: int| 0 <= k < key@.len() && key@[k] == '/';
                    assert(name@[k] == '/');
                }
            }
            assert(ascii_upper(key@) =~= key@);
        }
        let ghost old_s = *self;
        self.mounts.push(Mount { name: key, uri: String::from_str(uri), drive });
        proof {
            let last = old_s.mounts@.len() as int;
            assert forall|a: int| 0 <= a < last implies self.mounts@[a] == old_s.mounts@[a] by {}
            assert forall|a: int, b: int| 0 <= a < b < self.mounts@.len() implies #[trigger] self.mounts@[a].name@
                != #[trigger] self.mounts@[b].name@ by {
                if b < last {
                    assert(old_s.mounts@[a].name@ != old_s.mounts@[b].name@);
                } else {
                    old_s.lemma_drive_at(a);
                }
            }
            assert(self.wf());
            assert(self.mount_seq() =~= old_s.mount_seq().push((ascii_upper(name@), uri@)));
            assert(self.scheme_seq() =~= old_s.scheme_seq());
            self.lemma_drive_at(last);
            assert forall|m: Seq<char>| #[trigger] old_s.is_mounted(m) implies self.drive(m) == old_s.drive(m) by {
                let k = choose|k: int| 0 <= k < old_s.names().len() && old_s.names()[k] == m;
                old_s.lemma_drive_at(k);
                self.lemma_drive_at(k);
            }
        }
        Ok(())
    }

    /// Unmounts drive `name`; the current drive cannot be unmounted.
    pub fn unmount(&mut self, name: &str) -> (r: Result<(), IoError>)
        requires
            old(self).wf(),
        ensures
            final(self).wf(),
            StorageManager::unmount_spec(*old(self), *final(self), name@, kinds(r)),
    {
        let key = to_ascii_upper(name);
        let i = match self.find_mount(key.as_str()) {
            Some(i) => i,
            None => {
                return Err(IoError::new(ErrorKind::NotFound, String::from_str("Drive is not mounted")));
            },
        };
        if i == self.current {
            return Err(IoError::new(ErrorKind::Busy, String::from_str("Cannot unmount the current drive")));
        }
        proof {
            if key@ == self.current() {
                assert(self.mounts@[i as int].name@ == self.mounts@[self.current as int].name@);
                if (i as int) < self.current as int {
                    assert(self.mounts@[i as int].name@ != self.mounts@[self.current as int].name@);
                } else {
                    assert(self.mounts@[self.current as int].name@ != self.mounts@[i as int].name@);
                }
            }
        }
        let ghost old_s = *self;
        self.mounts.remove(i);
        if i < self.current {
            self.current = self.current - 1;
        }
        proof {
            let ii = i as int;
            assert(self.mounts@ =~= old_s.mounts@.remove(ii));
            assert forall|a: int, b: int| 0 <= a < b < self.mounts@.len() implies #[trigger] self.mounts@[a].name@
                != #[trigger] self.mounts@[b].name@ by {
                if b < ii {
                    assert(old_s.mounts@[a].name@ != old_s.mounts@[b].name@);
                } else if a < ii {
                    assert(old_s.mounts@[a].name@ != old_s.mounts@[b + 1].name@);
                } else {
                    assert(old_s.mounts@[a + 1].name@ != old_s.mounts@[b + 1].name@);
                }
            }
            assert forall|a: int| 0 <= a < self.mounts@.len() implies (#[trigger] self.mounts@[a]).drive.wf()
                && valid_drive_name(self.mounts@[a].name@) && ascii_upper(self.mounts@[a].name@)
                == self.mounts@[a].name@ by {
                if a >= ii {
                    assert(self.mounts@[a] == old_s.mounts@[a + 1]);
                }
            }
            assert(self.wf());
            assert(self.mount_seq() =~= old_s.mount_seq().remove(ii));
            assert(old_s.mount_seq()[ii].0 == ascii_upper(name@));
            assert(self.scheme_seq() =~= old_s.scheme_seq());
            assert forall|m: Seq<char>| #[trigger] self.is_mounted(m) implies self.drive(m) == old_s.drive(m) by {
                let k = choose|k: int| 0 <= k < self.names().len() && self.names()[k] == m;
                self.lemma_drive_at(k);
                if k < ii {
                    old_s.lemma_drive_at(k);
                } else {
                    old_s.lemma_drive_at(k + 1);
                }
            }
        }
        Ok(())
    }

    /// The mounted drives, as names and URIs, in mount order.
    pub fn mounted(&self) -> (r: Vec<(String, String)>)
        ensures
            r@.map_values(|m: (String, String)| (m.0@, m.1@)) == self.mount_seq(),
    {
        let mut r: Vec<(String, String)> = Vec::new();
        let mut i: usize = 0;
        while i < self.mounts.len()
            invariant
                i <= self.mounts@.len(),
                r@.map_values(|m: (String, String)| (m.0@, m.1@)) == self.mount_seq().subrange(0, i as int),
            decreases self.mounts@.len() - i,
        {
            let ghost prev = r@;
            let entry = (self.mounts[i].name.clone(), self.mounts[i].uri.clone());
            r.push(entry);
            assert(r@ == prev.push(entry));
            assert(self.mount_seq()[i as int] == (entry.0@, entry.1@));
            assert(r@.map_values(|m: (String, String)| (m.0@, m.1@)) =~= prev.map_values(
                |m: (String, String)| (m.0@, m.1@),
            ).push((entry.0@, entry.1@)));
            assert(r@.map_values(|m: (String, String)| (m.0@, m.1@)) =~= self.mount_seq().subrange(0, i + 1));
            i = i + 1;
        }
        assert(self.mount_seq().subrange(0, i as int) =~= self.mount_seq());
        r
    }

    /// Whether drive `name` is mounted.
    pub fn is_mounted_name(&self, name: &str) -> (r: bool)
        requires
            self.wf(),
        ensures
            r == self.is_mounted(name@),
    {
        self.find_mount(name).is_some()
    }

    /// The current drive, as `NAME:/`.
    pub fn cwd(&self) -> (r: String)
        requires
            self.wf(),
        ensures
            r@ == self.current() + ":/"@,
    {
        let mut r = self.mounts[self.current].name.clone();
        r.append(":/");
        r
    }

    fn locate(&self, path: &str) -> (r: Result<(usize, String), IoError>)
        requires
            self.wf(),
        ensures
            match self.resolve(path@) {
                Err(k) => r matches Err(e) && e.kind == k,
                Ok((d, rel)) => r matches Ok((i, rr)) && i < self.mounts@.len() && self.mounts@[i as int].name@
                    == d && rr@ == rel && self.is_mounted(d),
            },
    {
        let n = path.unicode_len();
        match find_char(path, ':') {
            Some(c) => {
                let dn = path.substring_char(0, c);
                if c == 0 || find_char(dn, ':').is_some() || find_char(dn, '/').is_some() {
                    return Err(IoError::new(ErrorKind::InvalidInput, String::from_str("Invalid drive name")));
                }
                let key = to_ascii_upper(dn);
                let i = match self.find_mount(key.as_str()) {
                    Some(i) => i,
                    None => {
                        return Err(IoError::new(ErrorKind::NotFound, String::from_str("Drive is not mounted")));
                    },
                };
                let rest = path.substring_char(c + 1, n);
                Ok((i, String::from_str(strip_root_str(rest))))
            },
            None => {
                proof {
                    self.lemma_drive_at(self.current as int);
                }
                Ok((self.current, String::from_str(strip_root_str(path))))
            },
        }
    }

    /// Makes the drive that `path` names the current one; `path` must name no file.
    pub fn cd(&mut self, path: &str) -> (r: Result<(), IoError>)
        requires
            old(self).wf(),
        ensures
            final(self).wf(),
            StorageManager::cd_spec(*old(self), *final(self), path@, kinds(r)),
    {
        let (i, rel) = match self.locate(path) {
            Ok(x) => x,
            Err(e) => {
                return Err(e);
            },
        };
        if rel.as_str().unicode_len() != 0 {
            return Err(IoError::new(ErrorKind::InvalidInput, String::from_str("Cannot change into a file")));
        }
        self.current = i;
        Ok(())
    }

    fn take_mount(&mut self, i: usize) -> (m: Mount)
        requires
            old(self).wf(),
            i < old(self).mounts@.len(),
        ensures
            m == old(self).mounts@[i as int],
            final(self).mounts@ == old(self).mounts@.remove(i as int),
            final(self).schemes == old(self).schemes,
            final(self).current == old(self).current,
    {
        self.mounts.remove(i)
    }

    /// Reads file `path`.
    pub fn get(&self, path: &str) -> (r: Result<Vec<u8>, IoError>)
        requires
            self.wf(),
        ensures
            match self.resolve(path@) {
                Err(k) => r matches Err(e) && e.kind == k,
                Ok((d, rel)) => match r {
                    Ok(c) => self.drive(d).get_answer(rel) == Result::<Seq<u8>, ErrorKind>::Ok(c@),
                    Err(e) => self.drive(d).get_answer(rel) == Result::<Seq<u8>, ErrorKind>::Err(e.kind),
                },
            },
    {
        let (i, rel) = match self.locate(path) {
            Ok(x) => x,
            Err(e) => {
                return Err(e);
            },
        };
        proof {
            self.lemma_drive_at(i as int);
        }
        self.mounts[i].drive.get(rel.as_str())
    }

    /// The readers of file `path`.
    pub fn get_acls(&self, path: &str) -> (r: Result<FileAcls, IoError>)
        requires
            self.wf(),
        ensures
            match self.resolve(path@) {
                Err(k) => r matches Err(e) && e.kind == k,
                Ok((d, rel)) => match r {
                    Ok(a) => a.wf() && self.drive(d).acls_answer(rel) == Result::<Seq<Seq<char>>, ErrorKind>::Ok(a@),
                    Err(e) => self.drive(d).acls_answer(rel) == Result::<Seq<Seq<char>>, ErrorKind>::Err(e.kind),
                },
            },
    {
        let (i, rel) = match self.locate(path) {
            Ok(x) => x,
            Err(e) => {
                return Err(e);
            },
        };
        proof {
            self.lemma_drive_at(i as int);
        }
        self.mounts[i].drive.get_acls(rel.as_str())
    }

    /// Lists the drive that `path` names; `path` must name no file.
    pub fn enumerate(&self, path: &str) -> (r: Result<DriveFiles, IoError>)
        requires
            self.wf(),
        ensures
            match self.resolve(path@) {
                Err(k) => r matches Err(e) && e.kind == k,
                Ok((d, rel)) => if rel.len() > 0 {
                    r matches Err(e) && e.kind == ErrorKind::InvalidInput
                } else {
                    &&& !self.drive(d).is_local() ==> (r matches Err(e) && e.kind == ErrorKind::Remote)
                    &&& self.drive(d).is_local() ==> (r matches Ok(f) && crate::drive::dirents_view(f.dirents@)
                        == self.drive(d).listing())
                    &&& self.drive(d).is_local() ==> crate::drive::lists_files(self.drive(d).listing(), self.drive(d).files())
                    &&& self.drive(d).is_local() ==> crate::order::strictly_sorted(
                        self.drive(d).listing().map_values(|e: (Seq<char>, crate::files::Metadata)| e.0),
                    )
                    &&& self.drive(d) is Memory ==> (r matches Ok(f) && f.disk_quota is None && f.disk_free is None)
                    &&& self.drive(d) is Demos ==> (r matches Ok(f) && f.disk_quota == Drive::quota_of(
                        self.drive(d).listing(),
                    ) && f.disk_free == Some(crate::drive::DiskSpace { bytes: 0, files: 0 }))
                },
            },
    {
        let (i, rel) = match self.locate(path) {
            Ok(x) => x,
            Err(e) => {
                return Err(e);
            },
        };
        if rel.as_str().unicode_len() != 0 {
            return Err(IoError::new(ErrorKind::InvalidInput, String::from_str("Cannot list a file")));
        }
        proof {
            self.lemma_drive_at(i as int);
        }
        self.mounts[i].drive.enumerate()
    }

    /// Creates or replaces file `path`.
    pub fn put(&mut self, path: &str, content: Vec<u8>) -> (r: Result<(), IoError>)
        requires
            old(self).wf(),
        ensures
            final(self).wf(),
            match old(self).resolve(path@) {
                Err(k) => r matches Err(e) && e.kind == k && *final(self) == *old(self),
                Ok((d, rel)) => Drive::put_spec(old(self).drive(d), final(self).drive(d), rel, content@, kinds(r))
                    && final(self).same_but(old(self), d),
            },
    {
        let (i, rel) = match self.locate(path) {
            Ok(x) => x,
            Err(e) => {
                return Err(e);
            },
        };
        let ghost old_s = *self;
        proof {
            self.lemma_drive_at(i as int);
        }
        let mut m = self.take_mount(i);
        let r = m.drive.put(rel.as_str(), content);
        self.mounts.insert(i, m);
        proof {
            assert(self.mounts@ =~= old_s.mounts@.update(i as int, m));
            StorageManager::lemma_replace_drive(&old_s, self, i as int);
        }
        r
    }

    /// Deletes file `path`.
    pub fn delete(&mut self, path: &str) -> (r: Result<(), IoError>)
        requires
            old(self).wf(),
        ensures
            final(self).wf(),
            match old(self).resolve(path@) {
                Err(k) => r matches Err(e) && e.kind == k && *final(self) == *old(self),
                Ok((d, rel)) => Drive::delete_spec(old(self).drive(d), final(self).drive(d), rel, kinds(r))
                    && final(self).same_but(old(self), d),
            },
    {
        let (i, rel) = match self.locate(path) {
            Ok(x) => x,
            Err(e) => {
                return Err(e);
            },
        };
        let ghost old_s = *self;
        proof {
            self.lemma_drive_at(i as int);
        }
        let mut m = self.take_mount(i);
        let r = m.drive.delete(rel.as_str());
        self.mounts.insert(i, m);
        proof {
            assert(self.mounts@ =~= old_s.mounts@.update(i as int, m));
            StorageManager::lemma_replace_drive(&old_s, self, i as int);
        }
        r
    }

    /// Adds the readers of `add` to file `path` and then takes out those of `remove`.
    pub fn update_acls(&mut self, path: &str, add: &FileAcls, remove: &FileAcls) -> (r: Result<(), IoError>)
        requires
            old(self).wf(),
            add.wf(),
            remove.wf(),
        ensures
            final(self).wf(),
            match old(self).resolve(path@) {
                Err(k) => r matches Err(e) && e.kind == k && *final(self) == *old(self),
                Ok((d, rel)) => Drive::update_acls_spec(
                    old(self).drive(d),
                    final(self).drive(d),
                    rel,
                    add.reader_set(),
                    remove.reader_set(),
                    kinds(r),
                ) && final(self).same_but(old(self), d),
            },
    {
        let (i, rel) = match self.locate(path) {
            Ok(x) => x,
            Err(e) => {
                return Err(e);
            },
        };
        let ghost old_s = *self;
        proof {
            self.lemma_drive_at(i as int);
        }
        let mut m = self.take_mount(i);
        let r = m.drive.update_acls(rel.as_str(), add, remove);
        self.mounts.insert(i, m);
        proof {
            assert(self.mounts@ =~= old_s.mounts@.update(i as int, m));
            StorageManager::lemma_replace_drive(&old_s, self, i as int);
        }
        r
    }
}

/// Mounting a registered scheme with a target that its factory accepts, under a free and
/// valid name, succeeds and lists the drive; unmounting it then takes it out of the table, and
/// mounting the same name a second time fails with `AlreadyExists`.
pub proof fn lemma_mount_unmount_round_trip(
    s0: StorageManager,
    s1: StorageManager,
    s2: StorageManager,
    s3: StorageManager,
    name: Seq<char>,
    uri: Seq<char>,
    other_uri: Seq<char>,
    r1: Result<(), ErrorKind>,
    r2: Result<(), ErrorKind>,
    r3: Result<(), ErrorKind>,
)
    requires
        s0.wf(),
        valid_drive_name(name),
        !s0.is_mounted(ascii_upper(name)),
        split_uri(uri) is Some,
        s0.has_scheme_spec(uri_scheme(uri)),
        s0.factory(uri_scheme(uri)).accepts(uri_target(uri)),
        StorageManager::mount_spec(s0, s1, name, uri, r1),
        s1.wf(),
        StorageManager::unmount_spec(s1, s2, name, r2),
        StorageManager::mount_spec(s1, s3, name, other_uri, r3),
    ensures
        r1 is Ok,
        s1.is_mounted(ascii_upper(name)),
        s1.mount_seq().contains((ascii_upper(name), uri)),
        r2 is Ok,
        !s2.is_mounted(ascii_upper(name)),
        s2.mount_seq() == s0.mount_seq(),
        r3 == Result::<(), ErrorKind>::Err(ErrorKind::AlreadyExists),
{
    let key = ascii_upper(name);
    let n0 = s0.mount_seq().len();
    assert(s1.mount_seq()[n0 as int] == (key, uri));
    assert(s1.names()[n0 as int] == key);
    s0.lemma_table();
    s1.lemma_table();
    assert(s1.current() != key);
    let i = choose|i: int|
        0 <= i < s1.mount_seq().len() && s1.mount_seq()[i].0 == key && s2.mount_seq() == s1.mount_seq().remove(i);
    assert(s1.names()[i] == key);
    assert(i == n0);
    assert(s2.mount_seq() =~= s0.mount_seq());
    assert(s2.names() =~= s0.names());
}

/// Unmounting the current drive fails with `Busy` and changes nothing; once the current drive
/// has been changed to another one, unmounting the former succeeds and takes it out of the
/// table.
pub proof fn lemma_unmount_current_is_busy(
    s0: StorageManager,
    s1: StorageManager,
    s2: StorageManager,
    s3: StorageManager,
    name: Seq<char>,
    path: Seq<char>,
    r1: Result<(), ErrorKind>,
    r2: Result<(), ErrorKind>,
    r3: Result<(), ErrorKind>,
)
    requires
        s0.wf(),
        ascii_upper(name) == s0.current(),
        StorageManager::unmount_spec(s0, s1, name, r1),
        StorageManager::cd_spec(s0, s2, path, r2),
        r2 is Ok,
        s2.current() != ascii_upper(name),
        s2.wf(),
        StorageManager::unmount_spec(s2, s3, name, r3),
    ensures
        r1 == Result::<(), ErrorKind>::Err(ErrorKind::Busy),
        s1 == s0,
        r3 is Ok,
        !s3.is_mounted(ascii_upper(name)),
{
    let key = ascii_upper(name);
    s0.lemma_table();
    s2.lemma_table();
    assert(s2.names() =~= s0.names());
    let i = choose|i: int|
        0 <= i < s2.mount_seq().len() && s2.mount_seq()[i].0 == key && s3.mount_seq() == s2.mount_seq().remove(i);
    assert(s2.names()[i] == key);
    if s3.is_mounted(key) {
        let j = choose|j: int| 0 <= j < s3.names().len() && s3.names()[j] == key;
        if j < i {
            assert(s2.names()[j] == key);
        } else {
            assert(s2.names()[j + 1] == key);
        }
    }
}

} // verus!
