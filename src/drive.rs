//! Drives: the backends that hold files, and the factories that make them from a mount target.

use vstd::prelude::*;
use vstd::slice::slice_to_vec;
use vstd::utf8::{decode_utf8, encode_utf8, valid_utf8};
use crate::acls::FileAcls;
use crate::error::{ErrorKind, IoError};
use crate::files::{metadata_of, FileTable, FileView, Metadata};
use crate::order::strictly_sorted;
use crate::text::{ascii_upper, decode_text, to_ascii_upper};

verus! {

/// An amount of storage: bytes and files.
#[derive(Clone, Copy, Debug, PartialEq, Eq, Structural)]
pub struct DiskSpace {
    pub bytes: u64,
    pub files: u64,
}

impl DiskSpace {
    pub fn new(bytes: u64, files: u64) -> (r: DiskSpace)
        ensures
            r.bytes == bytes,
            r.files == files,
    {
        DiskSpace { bytes, files }
    }

    pub fn bytes(&self) -> (r: u64)
        ensures
            r == self.bytes,
    {
        self.bytes
    }

    pub fn files(&self) -> (r: u64)
        ensures
            r == self.files,
    {
        self.files
    }
}

/// The listing of a drive: its entries in a fixed order, and optionally its quota and its free
/// space.
#[derive(Debug)]
pub struct DriveFiles {
    pub dirents: Vec<(String, Metadata)>,
    pub disk_quota: Option<DiskSpace>,
    pub disk_free: Option<DiskSpace>,
}

/// The entries of a listing as names and metadata.
pub open spec fn dirents_view(d: Seq<(String, Metadata)>) -> Seq<(Seq<char>, Metadata)> {
    d.map_values(|e: (String, Metadata)| (e.0@, e.1))
}

/// The listing of the files of a table, in the table's order.
pub open spec fn listing_of(t: FileTable) -> Seq<(Seq<char>, Metadata)> {
    t.order().map_values(|n: Seq<char>| (n, metadata_of(t@[n])))
}

/// `l` lists exactly the files of `files`, each with its metadata.
pub open spec fn lists_files(l: Seq<(Seq<char>, Metadata)>, files: Map<Seq<char>, FileView>) -> bool {
    &&& l.map_values(|e: (Seq<char>, Metadata)| e.0).to_set() == files.dom()
    &&& l.len() == files.len()
    &&& forall|i: int|
        0 <= i < l.len() ==> files.contains_key(#[trigger] l[i].0) && l[i].1 == metadata_of(files[l[i].0])
}

proof fn lemma_listing(t: FileTable)
    requires
        t.wf(),
    ensures
        lists_files(listing_of(t), t@),
{
    t.lemma_order();
    let l = listing_of(t);
    assert(l.map_values(|e: (Seq<char>, Metadata)| e.0) =~= t.order());
    assert forall|i: int| 0 <= i < l.len() implies t@.contains_key(#[trigger] l[i].0) && l[i].1 == metadata_of(
        t@[l[i].0],
    ) by {
        assert(l[i].0 == t.order()[i]);
        assert(t.order().to_set().contains(t.order()[i]));
    }
}

/// The sum of the lengths in a listing.
pub open spec fn total_length(d: Seq<(Seq<char>, Metadata)>) -> int
    decreases d.len(),
{
    if d.len() == 0 {
        0
    } else {
        total_length(d.drop_last()) + d.last().1.length
    }
}

proof fn lemma_total_length_monotone(d: Seq<(Seq<char>, Metadata)>)
    ensures
        d.len() > 0 ==> total_length(d) >= total_length(d.drop_last()),
        total_length(d) >= 0,
    decreases d.len(),
{
    if d.len() > 0 {
        lemma_total_length_monotone(d.drop_last());
    }
}

impl DriveFiles {
    pub fn new(dirents: Vec<(String, Metadata)>, disk_quota: Option<DiskSpace>, disk_free: Option<
        DiskSpace,
    >) -> (r: DriveFiles)
        ensures
            r.dirents == dirents,
            r.disk_quota == disk_quota,
            r.disk_free == disk_free,
    {
        DriveFiles { dirents, disk_quota, disk_free }
    }

    /// The entries, in listing order.
    pub fn dirents(&self) -> (r: &Vec<(String, Metadata)>)
        ensures
            r == &self.dirents,
    {
        &self.dirents
    }

    pub fn disk_quota(&self) -> (r: Option<DiskSpace>)
        ensures
            r == self.disk_quota,
    {
        self.disk_quota
    }

    pub fn disk_free(&self) -> (r: Option<DiskSpace>)
        ensures
            r == self.disk_free,
    {
        self.disk_free
    }

    /// Whether the listing has an entry called `name`.
    pub fn contains(&self, name: &str) -> (r: bool)
        ensures
            r == dirents_view(self.dirents@).map_values(|e: (Seq<char>, Metadata)| e.0).contains(
                name@,
            ),
    {
        let ghost names = dirents_view(self.dirents@).map_values(|e: (Seq<char>, Metadata)| e.0);
        let mut i: usize = 0;
        while i < self.dirents.len()
            invariant
                i <= self.dirents@.len(),
                names.len() == self.dirents@.len(),
                names == dirents_view(self.dirents@).map_values(|e: (Seq<char>, Metadata)| e.0),
                forall|k: int| 0 <= k < i ==> names[k] != name@,
            decreases self.dirents@.len() - i,
        {
            assert(names[i as int] == self.dirents@[i as int].0@);
            if crate::files::str_eq(self.dirents[i].0.as_str(), name) {
                return true;
            }
            i = i + 1;
        }
        false
    }
}

/// Turns the bytes of a demo program into its text.
pub fn process_demo(bytes: &[u8]) -> (r: String)
    requires
        valid_utf8(bytes@),
    ensures
        r@ == decode_utf8(bytes@),
{
    match decode_text(bytes) {
        Some(s) => s,
        None => String::new(),
    }
}

/// A demo program offered by the demos drive.
#[derive(Debug)]
pub struct DemoFile {
    pub name: String,
    pub date: i64,
    pub content: String,
}

/// The files that a catalog of demos yields: names in uppercase, a later demo replacing an
/// earlier one of the same name.
pub open spec fn catalog_view(demos: Seq<DemoFile>) -> Map<Seq<char>, FileView>
    decreases demos.len(),
{
    if demos.len() == 0 {
        Map::empty()
    } else {
        catalog_view(demos.drop_last()).insert(
            ascii_upper(demos.last().name@),
            (encode_utf8(demos.last().content@), demos.last().date, Seq::<Seq<char>>::empty()),
        )
    }
}

/// A read-only drive that offers a fixed set of demo programs.
#[derive(Debug)]
pub struct DemosDrive {
    files: FileTable,
}

impl View for DemosDrive {
    type V = Map<Seq<char>, FileView>;

    closed spec fn view(&self) -> Map<Seq<char>, FileView> {
        self.files@
    }
}

impl DemosDrive {
    pub closed spec fn wf(&self) -> bool {
        self.files.wf()
    }

    pub closed spec fn table(&self) -> FileTable {
        self.files
    }

    /// Creates a drive that offers `demos`.
    pub fn new(demos: &Vec<DemoFile>) -> (r: DemosDrive)
        ensures
            r.wf(),
            r@ == catalog_view(demos@),
    {
        let mut files = FileTable::new();
        let mut i: usize = 0;
        while i < demos.len()
            invariant
                i <= demos@.len(),
                files.wf(),
                files@ == catalog_view(demos@.subrange(0, i as int)),
                forall|k: Seq<char>| #[trigger] files@.contains_key(k) ==> files@[k].2 == Seq::<
                    Seq<char>,
                >::empty(),
            decreases demos@.len() - i,
        {
            let d = &demos[i];
            let name = to_ascii_upper(d.name.as_str());
            let bytes = d.content.as_str().as_bytes();
            let content = slice_to_vec(bytes);
            assert(content@ == encode_utf8(d.content@));
            files.put(name, content, d.date);
            assert(demos@.subrange(0, i + 1).drop_last() =~= demos@.subrange(0, i as int));
            assert(demos@.subrange(0, i + 1).last() == demos@[i as int]);
            assert(files@ =~= catalog_view(demos@.subrange(0, i + 1)));
            i = i + 1;
        }
        assert(demos@.subrange(0, demos@.len() as int) =~= demos@);
        DemosDrive { files }
    }
}

/// The modification time (seconds since the Unix epoch) that every file of a memory drive
/// reports: memory drives do not keep times.
pub const MEMORY_FILE_DATE: i64 = 1588757875;

/// A drive held in memory, with reader lists on its files.
#[derive(Debug)]
pub struct MemoryDrive {
    files: FileTable,
}

impl View for MemoryDrive {
    type V = Map<Seq<char>, FileView>;

    closed spec fn view(&self) -> Map<Seq<char>, FileView> {
        self.files@
    }
}

impl MemoryDrive {
    pub closed spec fn wf(&self) -> bool {
        self.files.wf()
    }

    pub closed spec fn table(&self) -> FileTable {
        self.files
    }

    /// Creates an empty drive.
    pub fn new() -> (r: MemoryDrive)
        ensures
            r.wf(),
            r@ == Map::<Seq<char>, FileView>::empty(),
    {
        MemoryDrive { files: FileTable::new() }
    }
}

/// A drive whose files are held by the remote service on behalf of a user.
#[derive(Debug)]
pub struct CloudDrive {
    owner: String,
}

impl CloudDrive {
    /// The user whose files the drive shows.
    pub closed spec fn owner_view(&self) -> Seq<char> {
        self.owner@
    }

    pub fn new(owner: String) -> (r: CloudDrive)
        ensures
            r.owner_view() == owner@,
    {
        CloudDrive { owner }
    }

    pub fn owner(&self) -> (r: &String)
        ensures
            r@ == self.owner_view(),
    {
        &self.owner
    }
}

/// A mounted backend.
#[derive(Debug)]
pub enum Drive {
    Memory(MemoryDrive),
    Demos(DemosDrive),
    Cloud(CloudDrive),
}

/// What a drive answers to a read: the value read, or the kind of the failure.
pub type Answer<T> = Result<T, ErrorKind>;

/// The kinds of the failure of an outcome.
pub open spec fn kinds<T>(r: Result<T, IoError>) -> Result<T, ErrorKind> {
    match r {
        Ok(v) => Ok(v),
        Err(e) => Err(e.kind),
    }
}

impl Drive {
    pub open spec fn wf(&self) -> bool {
        match self {
            Drive::Memory(m) => m.wf(),
            Drive::Demos(d) => d.wf(),
            Drive::Cloud(_) => true,
        }
    }

    /// The files of a local drive, by canonical (uppercase) name.
    pub open spec fn files(&self) -> Map<Seq<char>, FileView> {
        match self {
            Drive::Memory(m) => m@,
            Drive::Demos(d) => d@,
            Drive::Cloud(_) => Map::empty(),
        }
    }

    /// The drive keeps its files here rather than in the remote service.
    pub open spec fn is_local(&self) -> bool {
        !(self is Cloud)
    }

    /// The drive takes writes and deletions.
    pub open spec fn is_writable(&self) -> bool {
        self is Memory
    }

    /// The drive keeps reader lists.
    pub open spec fn has_acls(&self) -> bool {
        self is Memory
    }

    /// What `get` answers for `name`.
    pub open spec fn get_answer(&self, name: Seq<char>) -> Answer<Seq<u8>> {
        let key = ascii_upper(name);
        if !self.is_local() {
            Err(ErrorKind::Remote)
        } else if !self.files().contains_key(key) {
            Err(ErrorKind::NotFound)
        } else {
            Ok(self.files()[key].0)
        }
    }

    /// How `put`, `delete` and `update_acls` fail, if they do, on an existing file (`exists`)
    /// or a missing one.
    pub open spec fn change_failure(&self, exists: bool, needs_file: bool, needs_acls: bool) -> Option<ErrorKind> {
        if !self.is_local() {
            Some(ErrorKind::Remote)
        } else if needs_acls && !self.has_acls() {
            Some(ErrorKind::Unsupported)
        } else if !needs_acls && !self.is_writable() {
            Some(ErrorKind::PermissionDenied)
        } else if needs_file && !exists {
            Some(ErrorKind::NotFound)
        } else {
            None
        }
    }

    /// What `get_acls` answers for `name`.
    pub open spec fn acls_answer(&self, name: Seq<char>) -> Answer<Seq<Seq<char>>> {
        let key = ascii_upper(name);
        if !self.is_local() {
            Err(ErrorKind::Remote)
        } else if !self.has_acls() {
            Err(ErrorKind::Unsupported)
        } else if !self.files().contains_key(key) {
            Err(ErrorKind::NotFound)
        } else {
            Ok(self.files()[key].2)
        }
    }

    /// The listing of a local drive.
    pub open spec fn listing(&self) -> Seq<(Seq<char>, Metadata)> {
        match self {
            Drive::Memory(m) => listing_of(m.table()),
            Drive::Demos(d) => listing_of(d.table()),
            Drive::Cloud(_) => Seq::empty(),
        }
    }

    /// What `put` does: on success the file holds `content` (and keeps its readers).
    pub open spec fn put_spec(pre: Drive, post: Drive, name: Seq<char>, content: Seq<u8>, r: Result<(), ErrorKind>) -> bool {
        let key = ascii_upper(name);
        match pre.change_failure(true, false, false) {
            Some(k) => r == Result::<(), ErrorKind>::Err(k) && post == pre,
            None => r is Ok && post is Memory && post.files() == pre.files().insert(
                key,
                (
                    content,
                    MEMORY_FILE_DATE,
                    if pre.files().contains_key(key) {
                        pre.files()[key].2
                    } else {
                        Seq::<Seq<char>>::empty()
                    },
                ),
            ),
        }
    }

    /// What `delete` does.
    pub open spec fn delete_spec(pre: Drive, post: Drive, name: Seq<char>, r: Result<(), ErrorKind>) -> bool {
        let key = ascii_upper(name);
        match pre.change_failure(pre.files().contains_key(key), true, false) {
            Some(k) => r == Result::<(), ErrorKind>::Err(k) && post == pre,
            None => r is Ok && post is Memory && post.files() == pre.files().remove(key),
        }
    }

    /// What `update_acls` does: the readers of the file become those it had together with
    /// `add`, less those of `remove`.
    pub open spec fn update_acls_spec(pre: Drive, post: Drive, name: Seq<char>, add: Set<Seq<char>>, remove: Set<Seq<char>>, r: Result<(), ErrorKind>) -> bool {
        let key = ascii_upper(name);
        match pre.change_failure(pre.files().contains_key(key), true, true) {
            Some(k) => r == Result::<(), ErrorKind>::Err(k) && post == pre,
            None => {
                &&& r is Ok
                &&& post is Memory
                &&& post.files().dom() == pre.files().dom()
                &&& forall|k: Seq<char>| #[trigger] pre.files().contains_key(k) && k != key
                    ==> post.files()[k] == pre.files()[k]
                &&& post.files()[key].0 == pre.files()[key].0
                &&& post.files()[key].1 == pre.files()[key].1
                &&& post.files()[key].2.to_set() == pre.files()[key].2.to_set().union(add).difference(remove)
                &&& strictly_sorted(post.files()[key].2)
            },
        }
    }

    /// Reads the bytes of file `name`, compared without regard to ASCII case.
    pub fn get(&self, name: &str) -> (r: Result<Vec<u8>, IoError>)
        requires
            self.wf(),
        ensures
            match r {
                Ok(c) => self.get_answer(name@) == Answer::Ok(c@),
                Err(e) => self.get_answer(name@) == Answer::<Seq<u8>>::Err(e.kind),
            },
    {
        let files = match self {
            Drive::Memory(m) => &m.files,
            Drive::Demos(d) => &d.files,
            Drive::Cloud(_) => {
                return Err(
                    IoError::new(ErrorKind::Remote, String::from_str("Cloud files are held by the service")),
                );
            },
        };
        let key = to_ascii_upper(name);
        match files.get(key.as_str()) {
            Some(c) => Ok(c),
            None => Err(IoError::new(ErrorKind::NotFound, String::from_str("File not found"))),
        }
    }

    /// Creates or replaces file `name`, stored under its uppercase name.
    pub fn put(&mut self, name: &str, content: Vec<u8>) -> (r: Result<(), IoError>)
        requires
            old(self).wf(),
        ensures
            final(self).wf(),
            Drive::put_spec(*old(self), *final(self), name@, content@, kinds(r)),
    {
        match self {
            Drive::Memory(m) => {
                let key = to_ascii_upper(name);
                m.files.put(key, content, MEMORY_FILE_DATE);
                Ok(())
            },
            Drive::Demos(_) => Err(
                IoError::new(ErrorKind::PermissionDenied, String::from_str("The demos drive is read-only")),
            ),
            Drive::Cloud(_) => Err(
                IoError::new(ErrorKind::Remote, String::from_str("Cloud files are held by the service")),
            ),
        }
    }

    /// Deletes file `name`.
    pub fn delete(&mut self, name: &str) -> (r: Result<(), IoError>)
        requires
            old(self).wf(),
        ensures
            final(self).wf(),
            Drive::delete_spec(*old(self), *final(self), name@, kinds(r)),
    {
        match self {
            Drive::Memory(m) => {
                let key = to_ascii_upper(name);
                if m.files.delete(key.as_str()) {
                    Ok(())
                } else {
                    Err(IoError::new(ErrorKind::NotFound, String::from_str("File not found")))
                }
            },
            Drive::Demos(_) => Err(
                IoError::new(ErrorKind::PermissionDenied, String::from_str("The demos drive is read-only")),
            ),
            Drive::Cloud(_) => Err(
                IoError::new(ErrorKind::Remote, String::from_str("Cloud files are held by the service")),
            ),
        }
    }

    /// The readers of file `name`.
    pub fn get_acls(&self, name: &str) -> (r: Result<FileAcls, IoError>)
        requires
            self.wf(),
        ensures
            match r {
                Ok(a) => a.wf() && self.acls_answer(name@) == Answer::Ok(a@),
                Err(e) => self.acls_answer(name@) == Answer::<Seq<Seq<char>>>::Err(e.kind),
            },
    {
        match self {
            Drive::Memory(m) => {
                let key = to_ascii_upper(name);
                match m.files.acls(key.as_str()) {
                    Some(a) => Ok(a),
                    None => Err(IoError::new(ErrorKind::NotFound, String::from_str("File not found"))),
                }
            },
            Drive::Demos(_) => Err(
                IoError::new(ErrorKind::Unsupported, String::from_str("Operation not supported by this drive")),
            ),
            Drive::Cloud(_) => Err(
                IoError::new(ErrorKind::Remote, String::from_str("Cloud files are held by the service")),
            ),
        }
    }

    /// Adds the readers of `add` to file `name` and then takes out those of `remove`.
    pub fn update_acls(&mut self, name: &str, add: &FileAcls, remove: &FileAcls) -> (r: Result<(), IoError>)
        requires
            old(self).wf(),
            add.wf(),
            remove.wf(),
        ensures
            final(self).wf(),
            Drive::update_acls_spec(*old(self), *final(self), name@, add.reader_set(), remove.reader_set(), kinds(r)),
    {
        match self {
            Drive::Memory(m) => {
                let key = to_ascii_upper(name);
                if m.files.update_acls(key.as_str(), add, remove) {
                    Ok(())
                } else {
                    Err(IoError::new(ErrorKind::NotFound, String::from_str("File not found")))
                }
            },
            Drive::Demos(_) => Err(
                IoError::new(ErrorKind::Unsupported, String::from_str("Operation not supported by this drive")),
            ),
            Drive::Cloud(_) => Err(
                IoError::new(ErrorKind::Remote, String::from_str("Cloud files are held by the service")),
            ),
        }
    }

    /// The quota that a listing reports: its total size and number of entries, when both fit
    /// in 64 bits.
    pub open spec fn quota_of(d: Seq<(Seq<char>, Metadata)>) -> Option<DiskSpace> {
        if total_length(d) <= u64::MAX && d.len() <= u64::MAX {
            Some(DiskSpace { bytes: total_length(d) as u64, files: d.len() as u64 })
        } else {
            None
        }
    }

    /// Lists the files of the drive.  Memory drives report no quota and no free space; the
    /// demos drive reports its contents as its quota and nothing free.
    pub fn enumerate(&self) -> (r: Result<DriveFiles, IoError>)
        requires
            self.wf(),
        ensures
            !self.is_local() ==> (r matches Err(e) && e.kind == ErrorKind::Remote),
            self.is_local() ==> (r matches Ok(f) && dirents_view(f.dirents@) == self.listing()),
            self.is_local() ==> strictly_sorted(self.listing().map_values(|e: (Seq<char>, Metadata)| e.0)),
            self.is_local() ==> lists_files(self.listing(), self.files()),
            self is Memory ==> (r matches Ok(f) && f.disk_quota is None && f.disk_free is None),
            self is Demos ==> (r matches Ok(f) && f.disk_quota == Drive::quota_of(self.listing())
                && f.disk_free == Some(DiskSpace { bytes: 0, files: 0 })),
    {
        match self {
            Drive::Memory(m) => {
                let dirents = m.files.list();
                assert(dirents_view(dirents@) =~= listing_of(m.files));
                proof {
                    lemma_listing(m.files);
                    m.files.lemma_sorted();
                    assert(listing_of(m.files).map_values(|e: (Seq<char>, Metadata)| e.0) =~= m.files.order());
                }
                Ok(DriveFiles::new(dirents, None, None))
            },
            Drive::Demos(d) => {
                let dirents = d.files.list();
                assert(dirents_view(dirents@) =~= listing_of(d.files));
                proof {
                    lemma_listing(d.files);
                    d.files.lemma_sorted();
                    assert(listing_of(d.files).map_values(|e: (Seq<char>, Metadata)| e.0) =~= d.files.order());
                }
                let ghost view = dirents_view(dirents@);
                let mut bytes: u64 = 0;
                let mut fits = true;
                let mut i: usize = 0;
                while i < dirents.len()
                    invariant
                        view == dirents_view(dirents@),
                        i <= dirents@.len(),
                        fits ==> bytes == total_length(view.subrange(0, i as int)),
                        !fits ==> total_length(view.subrange(0, i as int)) > u64::MAX,
                    decreases dirents@.len() - i,
                {
                    assert(view.subrange(0, i + 1).drop_last() =~= view.subrange(0, i as int));
                    proof {
                        lemma_total_length_monotone(view.subrange(0, i + 1));
                    }
                    if fits {
                        match bytes.checked_add(dirents[i].1.length) {
                            Some(b) => {
                                bytes = b;
                            },
                            None => {
                                fits = false;
                            },
                        }
                    }
                    i = i + 1;
                }
                assert(view.subrange(0, dirents@.len() as int) =~= view);
                let quota = if fits && dirents.len() as u128 <= u64::MAX as u128 {
                    Some(DiskSpace::new(bytes, dirents.len() as u64))
                } else {
                    None
                };
                Ok(DriveFiles::new(dirents, quota, Some(DiskSpace::new(0, 0))))
            },
            Drive::Cloud(_) => Err(
                IoError::new(ErrorKind::Remote, String::from_str("Cloud files are held by the service")),
            ),
        }
    }
}

} // verus!
