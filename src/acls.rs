//! Sets of reader principals attached to files.

use vstd::prelude::*;
use crate::files::str_eq;
use crate::order::{lemma_lex_asymmetric, lemma_lex_irreflexive, lemma_lex_total, lemma_lex_transitive, lex_lt, str_lt, strictly_sorted};

verus! {

/// A set of principals allowed to read a file.
///
/// The readers are kept in strictly increasing order, so each principal appears once and the
/// readers are always reported sorted.  Adding a principal that is already present changes
/// nothing.
#[derive(Debug)]
pub struct FileAcls {
    readers: Vec<String>,
}

impl View for FileAcls {
    type V = Seq<Seq<char>>;

    /// The readers, in the order in which they are reported.
    closed spec fn view(&self) -> Seq<Seq<char>> {
        self.readers@.map_values(|s: String| s@)
    }
}

impl FileAcls {
    /// The readers form a strictly increasing sequence.
    pub open spec fn wf(&self) -> bool {
        strictly_sorted(self@)
    }

    /// The readers as a set.
    pub open spec fn reader_set(&self) -> Set<Seq<char>> {
        self@.to_set()
    }

    /// Creates an empty set of readers.
    pub fn new() -> (r: FileAcls)
        ensures
            r.wf(),
            r@ == Seq::<Seq<char>>::empty(),
    {
        let r = FileAcls { readers: Vec::new() };
        assert(r@ =~= Seq::<Seq<char>>::empty());
        r
    }

    /// Adds each of `readers` to this set and returns the result.
    pub fn with_readers(self, readers: Vec<String>) -> (r: FileAcls)
        requires
            self.wf(),
        ensures
            r.wf(),
            r.reader_set() == self.reader_set() + readers@.map_values(|s: String| s@).to_set(),
    {
        let mut r = self;
        let mut i: usize = 0;
        while i < readers.len()
            invariant
                r.wf(),
                i <= readers.len(),
                r.reader_set() == self.reader_set() + readers@.subrange(0, i as int).map_values(
                    |s: String| s@,
                ).to_set(),
            decreases readers.len() - i,
        {
            let ghost before = r.reader_set();
            r.add_reader(readers[i].clone());
            proof {
                let ghost pre = readers@.subrange(0, i as int).map_values(|s: String| s@);
                let ghost post = readers@.subrange(0, i + 1).map_values(|s: String| s@);
                assert(post =~= pre.push(readers@[i as int]@));
                pre.lemma_push_to_set_commute(readers@[i as int]@);
                assert(r.reader_set() =~= self.reader_set() + post.to_set());
            }
            i = i + 1;
        }
        assert(readers@.subrange(0, readers.len() as int) =~= readers@);
        r
    }

    /// Adds `reader` to the set.
    pub fn add_reader(&mut self, reader: String)
        requires
            old(self).wf(),
        ensures
            final(self).wf(),
            final(self).reader_set() == old(self).reader_set().insert(reader@),
    {
        let n = self.readers.len();
        let mut i: usize = 0;
        while i < n && str_lt(self.readers[i].as_str(), reader.as_str())
            invariant
                n == self.readers.len(),
                i <= n,
                forall|k: int| 0 <= k < i ==> lex_lt(#[trigger] self@[k], reader@),
            decreases n - i,
        {
            i = i + 1;
        }
        if i < n && self.readers[i] == reader {
            assert(self.reader_set() =~= self.reader_set().insert(reader@)) by {
                assert(self@[i as int] == reader@);
            }
            return;
        }
        let ghost old_view = self@;
        proof {
            if i < n {
                lemma_lex_total(self@[i as int], reader@);
                assert(lex_lt(reader@, self@[i as int]));
                assert forall|k: int| i <= k < n implies lex_lt(reader@, #[trigger] old_view[k]) by {
                    if k > i {
                        lemma_lex_transitive(reader@, old_view[i as int], old_view[k]);
                    }
                }
            }
        }
        self.readers.insert(i, reader);
        proof {
            assert(self@ =~= old_view.insert(i as int, reader@));
            assert forall|a: int, b: int| 0 <= a < b < self@.len() implies lex_lt(
                #[trigger] self@[a],
                #[trigger] self@[b],
            ) by {
                if b < i {
                } else if b == i {
                } else if a < i {
                    lemma_lex_transitive(self@[a], reader@, self@[b]);
                } else if a == i {
                } else {
                }
            }
            let ghost new_view = self@;
            assert forall|x: Seq<char>| #[trigger] new_view.contains(x) <==> old_view.to_set().insert(
                reader@,
            ).contains(x) by {
                if new_view.contains(x) {
                    let j = choose|j: int| 0 <= j < new_view.len() && new_view[j] == x;
                    if j < i {
                        assert(old_view[j] == x);
                    } else if j > i {
                        assert(old_view[j - 1] == x);
                    }
                }
                if old_view.contains(x) {
                    let j = choose|j: int| 0 <= j < old_view.len() && old_view[j] == x;
                    if j < i {
                        assert(new_view[j] == x);
                    } else {
                        assert(new_view[j + 1] == x);
                    }
                }
                if x == reader@ {
                    assert(new_view[i as int] == x);
                }
            }
            assert(new_view.to_set() =~= old_view.to_set().insert(reader@));
        }
    }

    /// Removes `reader` from the set, if present.
    pub fn remove_reader(&mut self, reader: &str)
        requires
            old(self).wf(),
        ensures
            final(self).wf(),
            final(self).reader_set() == old(self).reader_set().remove(reader@),
    {
        let n = self.readers.len();
        let mut i: usize = 0;
        while i < n
            invariant
                n == self.readers.len(),
                i <= n,
                forall|k: int| 0 <= k < i ==> self@[k] != reader@,
                self.wf(),
                *self == *old(self),
            decreases n - i,
        {
            if str_eq(self.readers[i].as_str(), reader) {
                let ghost old_view = self@;
                assert(old_view[i as int] == reader@);
                self.readers.remove(i);
                proof {
                    let ghost new_view = self@;
                    assert(new_view =~= old_view.remove(i as int));
                    assert forall|x: Seq<char>| #[trigger] new_view.contains(x) <==> old_view.to_set().remove(
                        reader@,
                    ).contains(x) by {
                        if new_view.contains(x) {
                            let j = choose|j: int| 0 <= j < new_view.len() && new_view[j] == x;
                            lemma_lex_irreflexive(x);
                            if j < i {
                                assert(old_view[j] == x);
                                assert(lex_lt(old_view[j], old_view[i as int]));
                            } else {
                                assert(old_view[j + 1] == x);
                                assert(lex_lt(old_view[i as int], old_view[j + 1]));
                            }
                        }
                        if old_view.contains(x) && x != reader@ {
                            let j = choose|j: int| 0 <= j < old_view.len() && old_view[j] == x;
                            if j < i {
                                assert(new_view[j] == x);
                            } else {
                                assert(new_view[j - 1] == x);
                            }
                        }
                    }
                    assert(new_view.to_set() =~= old_view.to_set().remove(reader@));
                    assert forall|a: int, b: int| 0 <= a < b < new_view.len() implies lex_lt(
                        #[trigger] new_view[a],
                        #[trigger] new_view[b],
                    ) by {
                        if b < i {
                            assert(lex_lt(old_view[a], old_view[b]));
                        } else if a < i {
                            assert(lex_lt(old_view[a], old_view[b + 1]));
                        } else {
                            assert(lex_lt(old_view[a + 1], old_view[b + 1]));
                        }
                    }
                }
                return;
            }
            i = i + 1;
        }
        assert(self.reader_set() =~= self.reader_set().remove(reader@));
    }

    /// A copy of this set.
    pub fn duplicate(&self) -> (r: FileAcls)
        ensures
            r@ == self@,
    {
        let mut readers: Vec<String> = Vec::new();
        let mut i: usize = 0;
        while i < self.readers.len()
            invariant
                i <= self.readers.len(),
                readers@.map_values(|s: String| s@) == self@.subrange(0, i as int),
            decreases self.readers.len() - i,
        {
            let ghost prev = readers@;
            let c = self.readers[i].clone();
            readers.push(c);
            assert(self@[i as int] == self.readers@[i as int]@);
            assert(readers@ == prev.push(c));
            assert(readers@.map_values(|s: String| s@) =~= prev.map_values(|s: String| s@).push(c@));
            assert(readers@.map_values(|s: String| s@) =~= self@.subrange(0, i + 1));
            i = i + 1;
        }
        let r = FileAcls { readers };
        assert(r@ =~= self@);
        r
    }

    /// The readers, sorted.
    pub fn readers(&self) -> (r: &Vec<String>)
        ensures
            r@.map_values(|s: String| s@) == self@,
    {
        &self.readers
    }

    /// Whether the set holds no reader.
    pub fn is_empty(&self) -> (r: bool)
        ensures
            r == (self@.len() == 0),
    {
        self.readers.len() == 0
    }
}

impl Default for FileAcls {
    fn default() -> (r: FileAcls)
        ensures
            r.wf(),
            r@ == Seq::<Seq<char>>::empty(),
    {
        FileAcls::new()
    }
}

} // verus!
