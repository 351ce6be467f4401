//! A table of named files, each with its bytes, its modification time and its readers.

use vstd::prelude::*;
use crate::acls::FileAcls;
use crate::order::{lemma_lex_irreflexive, lemma_lex_total, lemma_lex_transitive, lex_lt, str_lt, strictly_sorted};

verus! {

/// What a table knows of one file: its bytes, its modification time (seconds since the Unix
/// epoch) and its readers.
pub type FileView = (Seq<u8>, i64, Seq<Seq<char>>);

/// The modification time (seconds since the Unix epoch) and size of a file.
#[derive(Clone, Copy, Debug, PartialEq, Eq, Structural)]
pub struct Metadata {
    pub date: i64,
    pub length: u64,
}

/// The metadata of a file that a table holds.
pub open spec fn metadata_of(f: FileView) -> Metadata {
    Metadata { date: f.1, length: f.0.len() as u64 }
}

#[derive(Debug)]
struct FileEntry {
    name: String,
    content: Vec<u8>,
    date: i64,
    acls: FileAcls,
}

/// A table of files with distinct names, listed in name order.
#[derive(Debug)]
pub struct FileTable {
    entries: Vec<FileEntry>,
}

impl FileTable {
    spec fn has_at(&self, i: int, k: Seq<char>) -> bool {
        0 <= i < self.entries@.len() && self.entries@[i].name@ == k
    }

    spec fn view_at(&self, i: int) -> FileView {
        (self.entries@[i].content@, self.entries@[i].date, self.entries@[i].acls@)
    }

    /// The names are distinct and every reader set is well formed.
    pub closed spec fn wf(&self) -> bool {
        &&& forall|i: int, j: int|
            0 <= i < j < self.entries@.len() ==> #[trigger] self.entries@[i].name@
                != #[trigger] self.entries@[j].name@
        &&& forall|i: int| 0 <= i < self.entries@.len() ==> (#[trigger] self.entries@[i]).acls.wf()
        &&& strictly_sorted(self.order())
    }

    /// The files, by name.
    pub closed spec fn view(&self) -> Map<Seq<char>, FileView> {
        Map::new(
            |k: Seq<char>| exists|i: int| self.has_at(i, k),
            |k: Seq<char>| self.view_at(choose|i: int| self.has_at(i, k)),
        )
    }

    /// The names of the files in listing order.
    pub closed spec fn order(&self) -> Seq<Seq<char>> {
        self.entries@.map_values(|e: FileEntry| e.name@)
    }

    proof fn lemma_view_at(&self, i: int)
        requires
            self.wf(),
            0 <= i < self.entries@.len(),
        ensures
            self@.contains_key(self.entries@[i].name@),
            self@[self.entries@[i].name@] == self.view_at(i),
    {
        let k = self.entries@[i].name@;
        assert(self.has_at(i, k));
        let j = choose|j: int| self.has_at(j, k);
        if j != i {
            if j < i {
                assert(self.entries@[j].name@ != self.entries@[i].name@);
            } else {
                assert(self.entries@[i].name@ != self.entries@[j].name@);
            }
        }
    }

    pub proof fn lemma_order(&self)
        requires
            self.wf(),
        ensures
            self.order().len() == self@.len(),
            self.order().to_set() == self@.dom(),
            self.order().no_duplicates(),
    {
        assert forall|k: Seq<char>| #[trigger] self.order().contains(k) <==> self@.dom().contains(k) by {
            if self@.dom().contains(k) {
                let i = choose|i: int| self.has_at(i, k);
                assert(self.order()[i] == k);
            }
            if self.order().contains(k) {
                let i = choose|i: int| 0 <= i < self.order().len() && self.order()[i] == k;
                assert(self.has_at(i, k));
            }
        }
        assert(self.order().to_set() =~= self@.dom());
        assert forall|i: int, j: int|
            0 <= i < self.order().len() && 0 <= j < self.order().len() && i != j implies self.order()[i]
            != self.order()[j] by {
            if i < j {
                assert(self.entries@[i].name@ != self.entries@[j].name@);
            } else {
                assert(self.entries@[j].name@ != self.entries@[i].name@);
            }
        }
        self.order().unique_seq_to_set();
    }

    proof fn lemma_update(old_t: &FileTable, new_t: &FileTable, i: int)
        requires
            old_t.wf(),
            0 <= i < old_t.entries@.len(),
            new_t.entries@ == old_t.entries@.update(i, new_t.entries@[i]),
            new_t.entries@[i].name@ == old_t.entries@[i].name@,
            new_t.entries@[i].acls.wf(),
        ensures
            new_t.wf(),
            new_t@ == old_t@.insert(old_t.entries@[i].name@, new_t.view_at(i)),
            new_t.order() == old_t.order(),
    {
        assert(new_t.order() =~= old_t.order());
        assert(new_t.wf()) by {
            assert forall|a: int, b: int| 0 <= a < b < new_t.entries@.len() implies #[trigger] new_t.entries@[a].name@
                != #[trigger] new_t.entries@[b].name@ by {
                assert(old_t.entries@[a].name@ != old_t.entries@[b].name@);
            }
        }
        let k = old_t.entries@[i].name@;
        assert forall|x: Seq<char>| #[trigger] new_t@.contains_key(x) <==> old_t@.insert(k, new_t.view_at(i)).contains_key(x) by {
            if new_t@.contains_key(x) {
                let j = choose|j: int| new_t.has_at(j, x);
                assert(j == i || old_t.has_at(j, x));
            }
            if old_t@.contains_key(x) {
                let j = choose|j: int| old_t.has_at(j, x);
                assert(new_t.has_at(j, x));
            }
            if x == k {
                assert(new_t.has_at(i, x));
            }
        }
        assert forall|x: Seq<char>| #[trigger] new_t@.contains_key(x) implies new_t@[x] == old_t@.insert(k, new_t.view_at(i))[x] by {
            let j = choose|j: int| new_t.has_at(j, x);
            new_t.lemma_view_at(j);
            if j != i {
                old_t.lemma_view_at(j);
            }
        }
        assert(new_t@ =~= old_t@.insert(k, new_t.view_at(i)));
        assert(new_t.order() =~= old_t.order());
    }

    proof fn lemma_insert(old_t: &FileTable, new_t: &FileTable, p: int)
        requires
            old_t.wf(),
            0 <= p <= old_t.entries@.len(),
            new_t.entries@ == old_t.entries@.insert(p, new_t.entries@[p]),
            new_t.entries@[p].acls.wf(),
            forall|a: int| 0 <= a < p ==> lex_lt(#[trigger] old_t.order()[a], new_t.entries@[p].name@),
            forall|a: int| p <= a < old_t.entries@.len() ==> lex_lt(new_t.entries@[p].name@, #[trigger] old_t.order()[a]),
        ensures
            new_t.wf(),
            new_t@ == old_t@.insert(new_t.entries@[p].name@, new_t.view_at(p)),
            new_t.order() == old_t.order().insert(p, new_t.entries@[p].name@),
    {
        let n = old_t.entries@.len() as int;
        let k = new_t.entries@[p].name@;
        assert(new_t.order() =~= old_t.order().insert(p, k));
        assert forall|a: int| 0 <= a < n implies old_t.order()[a] == old_t.entries@[a].name@ by {}
        assert(new_t.wf()) by {
            assert forall|a: int, b: int| 0 <= a < b < new_t.order().len() implies lex_lt(
                #[trigger] new_t.order()[a],
                #[trigger] new_t.order()[b],
            ) by {
                if b < p {
                    assert(lex_lt(old_t.order()[a], old_t.order()[b]));
                } else if b == p {
                } else if a < p {
                    lemma_lex_transitive(old_t.order()[a], k, old_t.order()[b - 1]);
                } else if a == p {
                } else {
                    assert(lex_lt(old_t.order()[a - 1], old_t.order()[b - 1]));
                }
            }
            assert forall|a: int, b: int| 0 <= a < b < new_t.entries@.len() implies #[trigger] new_t.entries@[a].name@
                != #[trigger] new_t.entries@[b].name@ by {
                assert(new_t.order()[a] == new_t.entries@[a].name@);
                assert(new_t.order()[b] == new_t.entries@[b].name@);
                assert(lex_lt(new_t.order()[a], new_t.order()[b]));
                lemma_lex_irreflexive(new_t.order()[a]);
            }
            assert forall|a: int| 0 <= a < new_t.entries@.len() implies (#[trigger] new_t.entries@[a]).acls.wf() by {
                if a < p {
                    assert(new_t.entries@[a] == old_t.entries@[a]);
                } else if a > p {
                    assert(new_t.entries@[a] == old_t.entries@[a - 1]);
                }
            }
        }
        assert forall|x: Seq<char>| #[trigger] new_t@.contains_key(x) <==> old_t@.insert(k, new_t.view_at(p)).contains_key(x) by {
            if new_t@.contains_key(x) {
                let j = choose|j: int| new_t.has_at(j, x);
                if j < p {
                    assert(old_t.has_at(j, x));
                } else if j > p {
                    assert(old_t.has_at(j - 1, x));
                }
            }
            if old_t@.contains_key(x) {
                let j = choose|j: int| old_t.has_at(j, x);
                if j < p {
                    assert(new_t.has_at(j, x));
                } else {
                    assert(new_t.has_at(j + 1, x));
                }
            }
            if x == k {
                assert(new_t.has_at(p, x));
            }
        }
        assert forall|x: Seq<char>| #[trigger] new_t@.contains_key(x) implies new_t@[x] == old_t@.insert(k, new_t.view_at(p))[x] by {
            let j = choose|j: int| new_t.has_at(j, x);
            new_t.lemma_view_at(j);
            if j < p {
                old_t.lemma_view_at(j);
                lemma_lex_irreflexive(k);
            } else if j > p {
                old_t.lemma_view_at(j - 1);
                lemma_lex_irreflexive(k);
            }
        }
        assert(new_t@ =~= old_t@.insert(k, new_t.view_at(p)));
    }

    proof fn lemma_remove(old_t: &FileTable, new_t: &FileTable, i: int)
        requires
            old_t.wf(),
            0 <= i < old_t.entries@.len(),
            new_t.entries@ == old_t.entries@.remove(i),
        ensures
            new_t.wf(),
            new_t@ == old_t@.remove(old_t.entries@[i].name@),
            new_t.order() == old_t.order().remove(i),
    {
        let k = old_t.entries@[i].name@;
        assert(new_t.wf()) by {
            assert forall|a: int, b: int| 0 <= a < b < new_t.entries@.len() implies #[trigger] new_t.entries@[a].name@
                != #[trigger] new_t.entries@[b].name@ by {
                if b < i {
                    assert(old_t.entries@[a].name@ != old_t.entries@[b].name@);
                } else if a < i {
                    assert(old_t.entries@[a].name@ != old_t.entries@[b + 1].name@);
                } else {
                    assert(old_t.entries@[a + 1].name@ != old_t.entries@[b + 1].name@);
                }
            }
            assert forall|a: int| 0 <= a < new_t.entries@.len() implies (#[trigger] new_t.entries@[a]).acls.wf() by {
                if a >= i {
                    assert(old_t.entries@[a + 1].acls.wf());
                }
            }
            assert(new_t.order() =~= old_t.order().remove(i));
            assert forall|a: int, b: int| 0 <= a < b < new_t.order().len() implies lex_lt(
                #[trigger] new_t.order()[a],
                #[trigger] new_t.order()[b],
            ) by {
                if b < i {
                    assert(lex_lt(old_t.order()[a], old_t.order()[b]));
                } else if a < i {
                    assert(lex_lt(old_t.order()[a], old_t.order()[b + 1]));
                } else {
                    assert(lex_lt(old_t.order()[a + 1], old_t.order()[b + 1]));
                }
            }
        }
        assert forall|x: Seq<char>| #[trigger] new_t@.contains_key(x) <==> old_t@.remove(k).contains_key(x) by {
            if new_t@.contains_key(x) {
                let j = choose|j: int| new_t.has_at(j, x);
                if j < i {
                    assert(old_t.has_at(j, x));
                    assert(old_t.entries@[j].name@ != old_t.entries@[i].name@);
                } else {
                    assert(old_t.has_at(j + 1, x));
                    assert(old_t.entries@[i].name@ != old_t.entries@[j + 1].name@);
                }
            }
            if old_t@.contains_key(x) && x != k {
                let j = choose|j: int| old_t.has_at(j, x);
                if j < i {
                    assert(new_t.has_at(j, x));
                } else {
                    assert(new_t.has_at(j - 1, x));
                }
            }
        }
        assert forall|x: Seq<char>| #[trigger] new_t@.contains_key(x) implies new_t@[x] == old_t@.remove(k)[x] by {
            let j = choose|j: int| new_t.has_at(j, x);
            new_t.lemma_view_at(j);
            if j < i {
                old_t.lemma_view_at(j);
            } else {
                old_t.lemma_view_at(j + 1);
            }
        }
        assert(new_t@ =~= old_t@.remove(k));
        assert(new_t.order() =~= old_t.order().remove(i));
    }

    /// The names are listed in increasing order.
    pub proof fn lemma_sorted(&self)
        requires
            self.wf(),
        ensures
            strictly_sorted(self.order()),
    {
    }

    /// Creates an empty table.
    pub fn new() -> (r: FileTable)
        ensures
            r.wf(),
            r@ == Map::<Seq<char>, FileView>::empty(),
            r.order() == Seq::<Seq<char>>::empty(),
    {
        let r = FileTable { entries: Vec::new() };
        assert(r@ =~= Map::<Seq<char>, FileView>::empty());
        assert(r.order() =~= Seq::<Seq<char>>::empty());
        r
    }

    /// The number of files.
    pub fn len(&self) -> (r: usize)
        requires
            self.wf(),
        ensures
            r == self@.len(),
    {
        proof {
            self.lemma_order();
        }
        self.entries.len()
    }

    /// The bytes of file `key`.
    pub fn get(&self, key: &str) -> (r: Option<Vec<u8>>)
        requires
            self.wf(),
        ensures
            r is Some <==> self@.contains_key(key@),
            r is Some ==> r->0@ == self@[key@].0,
    {
        match self.find(key) {
            Some(i) => {
                proof {
                    self.lemma_view_at(i as int);
                }
                let content = self.entries[i].content.clone();
                assert(content@ =~= self.entries@[i as int].content@);
                Some(content)
            },
            None => None,
        }
    }

    /// The readers of file `key`.
    pub fn acls(&self, key: &str) -> (r: Option<FileAcls>)
        requires
            self.wf(),
        ensures
            r is Some <==> self@.contains_key(key@),
            r is Some ==> r->0@ == self@[key@].2 && r->0.wf(),
    {
        match self.find(key) {
            Some(i) => {
                proof {
                    self.lemma_view_at(i as int);
                }
                Some(self.entries[i].acls.duplicate())
            },
            None => None,
        }
    }

    /// Creates file `key` or replaces its bytes and time; an existing file keeps its readers.
    pub fn put(&mut self, key: String, content: Vec<u8>, date: i64)
        requires
            old(self).wf(),
        ensures
            final(self).wf(),
            final(self)@ == old(self)@.insert(
                key@,
                (
                    content@,
                    date,
                    if old(self)@.contains_key(key@) {
                        old(self)@[key@].2
                    } else {
                        Seq::<Seq<char>>::empty()
                    },
                ),
            ),
    {
        let ghost old_t = *self;
        match self.find(key.as_str()) {
            Some(i) => {
                proof {
                    self.lemma_view_at(i as int);
                }
                let acls = self.entries[i].acls.duplicate();
                let entry = FileEntry { name: key, content, date, acls };
                self.entries.set(i, entry);
                proof {
                    FileTable::lemma_update(&old_t, self, i as int);
                }
            },
            None => {
                let n = self.entries.len();
                let mut p: usize = 0;
                while p < n && str_lt(self.entries[p].name.as_str(), key.as_str())
                    invariant
                        *self == old_t,
                        n == self.entries@.len(),
                        p <= n,
                        forall|a: int| 0 <= a < p ==> lex_lt(#[trigger] self.order()[a], key@),
                    decreases n - p,
                {
                    p = p + 1;
                }
                proof {
                    assert forall|a: int| p <= a < n implies lex_lt(key@, #[trigger] self.order()[a]) by {
                        lemma_lex_total(self.order()[p as int], key@);
                        if self.order()[p as int] == key@ {
                            self.lemma_view_at(p as int);
                        }
                        if a > p {
                            lemma_lex_transitive(key@, self.order()[p as int], self.order()[a]);
                        }
                    }
                }
                let entry = FileEntry { name: key, content, date, acls: FileAcls::new() };
                self.entries.insert(p, entry);
                proof {
                    FileTable::lemma_insert(&old_t, self, p as int);
                }
            },
        }
    }

    /// Deletes file `key`; says whether it was there.
    pub fn delete(&mut self, key: &str) -> (r: bool)
        requires
            old(self).wf(),
        ensures
            final(self).wf(),
            r == old(self)@.contains_key(key@),
            final(self)@ == old(self)@.remove(key@),
            !r ==> *final(self) == *old(self),
    {
        let ghost old_t = *self;
        match self.find(key) {
            Some(i) => {
                proof {
                    self.lemma_view_at(i as int);
                }
                self.entries.remove(i);
                proof {
                    FileTable::lemma_remove(&old_t, self, i as int);
                }
                true
            },
            None => {
                assert(self@ =~= old_t@.remove(key@));
                false
            },
        }
    }

    /// Adds the readers of `add` to file `key` and then takes out those of `remove`; says
    /// whether the file was there.
    pub fn update_acls(&mut self, key: &str, add: &FileAcls, remove: &FileAcls) -> (r: bool)
        requires
            old(self).wf(),
            add.wf(),
            remove.wf(),
        ensures
            final(self).wf(),
            r == old(self)@.contains_key(key@),
            r ==> final(self)@.dom() == old(self)@.dom() && (forall|k: Seq<char>|
                #[trigger] old(self)@.contains_key(k) && k != key@ ==> final(self)@[k] == old(self)@[k])
                && final(self)@[key@].0 == old(self)@[key@].0 && final(self)@[key@].1 == old(
                self,
            )@[key@].1 && final(self)@[key@].2.to_set() == old(self)@[key@].2.to_set().union(
                add.reader_set(),
            ).difference(remove.reader_set()) && strictly_sorted(final(self)@[key@].2),
            !r ==> *final(self) == *old(self),
    {
        let ghost old_t = *self;
        match self.find(key) {
            Some(i) => {
                proof {
                    self.lemma_view_at(i as int);
                }
                let mut acls = self.entries[i].acls.duplicate();
                let ghost start = acls.reader_set();
                let add_readers = add.readers();
                let mut j: usize = 0;
                while j < add_readers.len()
                    invariant
                        acls.wf(),
                        j <= add_readers.len(),
                        add_readers@.map_values(|s: String| s@) == add@,
                        acls.reader_set() == start.union(add@.subrange(0, j as int).to_set()),
                    decreases add_readers.len() - j,
                {
                    acls.add_reader(add_readers[j].clone());
                    proof {
                        assert(add@[j as int] == add_readers@[j as int]@);
                        assert(add@.subrange(0, j + 1) =~= add@.subrange(0, j as int).push(add@[j as int]));
                        add@.subrange(0, j as int).lemma_push_to_set_commute(add@[j as int]);
                        assert(acls.reader_set() =~= start.union(add@.subrange(0, j + 1).to_set()));
                    }
                    j = j + 1;
                }
                assert(add@.subrange(0, add_readers.len() as int) =~= add@);
                let ghost mid = acls.reader_set();
                let remove_readers = remove.readers();
                let mut j: usize = 0;
                while j < remove_readers.len()
                    invariant
                        acls.wf(),
                        j <= remove_readers.len(),
                        remove_readers@.map_values(|s: String| s@) == remove@,
                        acls.reader_set() == mid.difference(remove@.subrange(0, j as int).to_set()),
                    decreases remove_readers.len() - j,
                {
                    acls.remove_reader(remove_readers[j].as_str());
                    proof {
                        assert(remove@[j as int] == remove_readers@[j as int]@);
                        assert(remove@.subrange(0, j + 1) =~= remove@.subrange(0, j as int).push(remove@[j as int]));
                        remove@.subrange(0, j as int).lemma_push_to_set_commute(remove@[j as int]);
                        assert(acls.reader_set() =~= mid.difference(remove@.subrange(0, j + 1).to_set()));
                    }
                    j = j + 1;
                }
                assert(remove@.subrange(0, remove_readers.len() as int) =~= remove@);
                let name = self.entries[i].name.clone();
                let content = self.entries[i].content.clone();
                assert(content@ =~= self.entries@[i as int].content@);
                let date = self.entries[i].date;
                self.entries.set(i, FileEntry { name, content, date, acls });
                proof {
                    FileTable::lemma_update(&old_t, self, i as int);
                }
                true
            },
            None => false,
        }
    }

    /// The files in listing order, each with its metadata.
    pub fn list(&self) -> (r: Vec<(String, Metadata)>)
        requires
            self.wf(),
        ensures
            r@.len() == self.order().len(),
            forall|i: int|
                0 <= i < r@.len() ==> (#[trigger] r@[i]).0@ == self.order()[i] && r@[i].1 == metadata_of(
                    self@[self.order()[i]],
                ),
    {
        let mut r: Vec<(String, Metadata)> = Vec::new();
        let mut i: usize = 0;
        while i < self.entries.len()
            invariant
                self.wf(),
                i <= self.entries@.len(),
                r@.len() == i,
                forall|k: int|
                    0 <= k < i ==> (#[trigger] r@[k]).0@ == self.order()[k] && r@[k].1 == metadata_of(
                        self@[self.order()[k]],
                    ),
            decreases self.entries@.len() - i,
        {
            proof {
                self.lemma_view_at(i as int);
            }
            let e = &self.entries[i];
            let m = Metadata { date: e.date, length: e.content.len() as u64 };
            r.push((e.name.clone(), m));
            i = i + 1;
        }
        r
    }

    fn find(&self, key: &str) -> (r: Option<usize>)
        requires
            self.wf(),
        ensures
            match r {
                Some(i) => i < self.entries@.len() && self.entries@[i as int].name@ == key@,
                None => !self@.contains_key(key@),
            },
    {
        let mut i: usize = 0;
        while i < self.entries.len()
            invariant
                i <= self.entries@.len(),
                forall|k: int| 0 <= k < i ==> self.entries@[k].name@ != key@,
            decreases self.entries@.len() - i,
        {
            if str_eq(self.entries[i].name.as_str(), key) {
                return Some(i);
            }
            i = i + 1;
        }
        None
    }
}

/// Whether two texts hold the same characters.
pub fn str_eq(a: &str, b: &str) -> (r: bool)
    ensures
        r == (a@ == b@),
{
    let n = a.unicode_len();
    if n != b.unicode_len() {
        return false;
    }
    let mut i: usize = 0;
    while i < n
        invariant
            n == a@.len(),
            n == b@.len(),
            i <= n,
            a@.subrange(0, i as int) == b@.subrange(0, i as int),
        decreases n - i,
    {
        if a.get_char(i) != b.get_char(i) {
            return false;
        }
        assert(a@.subrange(0, i + 1) =~= a@.subrange(0, i as int).push(a@[i as int]));
        assert(b@.subrange(0, i + 1) =~= b@.subrange(0, i as int).push(b@[i as int]));
        i = i + 1;
    }
    assert(a@ =~= a@.subrange(0, n as int));
    assert(b@ =~= b@.subrange(0, n as int));
    true
}

} // verus!
