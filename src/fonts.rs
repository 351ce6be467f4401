//! Bitmap fonts for drawing text on an LCD.

use vstd::prelude::*;
use crate::files::str_eq;

verus! {

/// A size in pixels.
#[derive(Clone, Copy, Debug, PartialEq, Eq, Structural)]
pub struct LcdSize {
    pub width: usize,
    pub height: usize,
}

/// A bitmap font covering the printable ASCII characters, from ` ` to `~`.
///
/// The glyphs are stored one after the other in character order; each is `glyph_size.height`
/// rows of `stride` bytes, and each row is a bitmask of the pixels to turn on.
#[derive(Debug)]
pub struct Font {
    pub name: String,
    pub glyph_size: LcdSize,
    pub stride: usize,
    pub data: Vec<u8>,
}

/// The number of glyphs in a font.
pub const GLYPH_COUNT: usize = 95;

impl Font {
    /// The bytes of one glyph.
    pub open spec fn glyph_len(&self) -> int {
        self.glyph_size.height * self.stride
    }

    /// The data holds a glyph for every printable ASCII character.
    pub open spec fn wf(&self) -> bool {
        self.glyph_len() * GLYPH_COUNT <= self.data@.len()
    }

    /// The character whose glyph stands for `ch`: `ch` itself when printable, else `?`.
    pub open spec fn shown(ch: char) -> char {
        if ' ' <= ch && ch <= '~' {
            ch
        } else {
            '?'
        }
    }

    /// Where the glyph of `ch` starts in the data.
    pub open spec fn glyph_offset(&self, ch: char) -> int {
        ((Font::shown(ch) as u32) - (' ' as u32)) * self.glyph_len()
    }

    /// The rows of the glyph of `ch`; a character that is not printable ASCII is drawn as `?`.
    pub fn glyph(&self, ch: char) -> (r: &[u8])
        requires
            self.wf(),
        ensures
            r@ == self.data@.subrange(self.glyph_offset(ch), self.glyph_offset(ch) + self.glyph_len()),
    {
        let c = if ' ' <= ch && ch <= '~' {
            ch
        } else {
            '?'
        };
        let idx = (c as u32 - ' ' as u32) as usize;
        let dl = self.data.len();
        proof {
            let gl = self.glyph_len();
            let len = self.data@.len();
            assert(0 <= idx < GLYPH_COUNT);
            assert(gl >= 0) by (nonlinear_arith)
                requires
                    gl == self.glyph_size.height * self.stride,
                    self.glyph_size.height >= 0,
                    self.stride >= 0,
            ;
            assert(gl <= len) by (nonlinear_arith)
                requires
                    gl >= 0,
                    gl * 95 <= len,
            ;
            assert((idx + 1) * gl <= len) by (nonlinear_arith)
                requires
                    idx < 95,
                    gl >= 0,
                    gl * 95 <= len,
            ;
            assert(idx * gl + gl == (idx + 1) * gl) by (nonlinear_arith);
            assert(idx * gl <= len) by (nonlinear_arith)
                requires
                    gl >= 0,
                    idx * gl + gl <= len,
            ;
        }
        let h = self.glyph_size.height * self.stride;
        let offset = idx * h;
        &self.data.as_slice()[offset..offset + h]
    }
}

/// A registry of fonts by name.
#[derive(Debug)]
pub struct Fonts {
    fonts: Vec<Font>,
}

impl Fonts {
    /// The names of the fonts.
    pub closed spec fn names(&self) -> Seq<Seq<char>> {
        self.fonts@.map_values(|f: Font| f.name@)
    }

    /// The font registered under `name`.
    pub closed spec fn font(&self, name: Seq<char>) -> Font {
        self.fonts@[choose|i: int| 0 <= i < self.fonts@.len() && self.fonts@[i].name@ == name]
    }

    pub closed spec fn wf(&self) -> bool {
        forall|i: int, j: int|
            0 <= i < j < self.fonts@.len() ==> #[trigger] self.fonts@[i].name@ != #[trigger] self.fonts@[j].name@
    }

    /// The number of fonts.
    pub fn len(&self) -> (r: usize)
        ensures
            r == self.names().len(),
    {
        self.fonts.len()
    }

    /// The font called `name`.
    pub fn get(&self, name: &str) -> (r: Option<&Font>)
        requires
            self.wf(),
        ensures
            r is Some <==> self.names().contains(name@),
            r matches Some(f) ==> *f == self.font(name@),
    {
        let mut i: usize = 0;
        while i < self.fonts.len()
            invariant
                self.wf(),
                i <= self.fonts@.len(),
                forall|k: int| 0 <= k < i ==> self.fonts@[k].name@ != name@,
            decreases self.fonts@.len() - i,
        {
            if str_eq(self.fonts[i].name.as_str(), name) {
                proof {
                    assert(self.names()[i as int] == name@);
                    let j = choose|j: int| 0 <= j < self.fonts@.len() && self.fonts@[j].name@ == name@;
                    if j < i {
                    } else if j > i {
                        assert(self.fonts@[i as int].name@ != self.fonts@[j].name@);
                    }
                }
                return Some(&self.fonts[i]);
            }
            i = i + 1;
        }
        proof {
            if self.names().contains(name@) {
                let k = choose|k: int| 0 <= k < self.names().len() && self.names()[k] == name@;
                assert(self.fonts@[k].name@ == name@);
            }
        }
        None
    }
}

/// No font after position `k` of `fonts` has the name of the font at `k`.
pub open spec fn is_last_of_name(fonts: Seq<Font>, k: int) -> bool {
    forall|j: int| k < j < fonts.len() ==> fonts[j].name@ != fonts[k].name@
}

/// Builds the registry of `fonts`, by name; of two fonts with one name the later one stays.
pub fn all_fonts(fonts: Vec<Font>) -> (r: Fonts)
    ensures
        r.wf(),
        r.names().to_set() == fonts@.map_values(|f: Font| f.name@).to_set(),
        forall|k: int|
            0 <= k < fonts@.len() && is_last_of_name(fonts@, k) ==> r.font(#[trigger] fonts@[k].name@)
                == fonts@[k],
{
    let mut reg: Vec<Font> = Vec::new();
    let ghost all = fonts@.map_values(|f: Font| f.name@);
    let mut rest = fonts;
    let ghost given = rest@;
    let total = rest.len();
    assert(given.len() == total);
    let mut taken: usize = 0;
    while rest.len() > 0
        invariant
            all == given.map_values(|f: Font| f.name@),
            taken + rest@.len() == given.len(),
            given.len() <= usize::MAX,
            rest@ == given.subrange(taken as int, given.len() as int),
            forall|i: int, j: int| 0 <= i < j < reg@.len() ==> #[trigger] reg@[i].name@ != #[trigger] reg@[j].name@,
            reg@.map_values(|f: Font| f.name@).to_set() == all.subrange(0, taken as int).to_set(),
            forall|k: int|
                0 <= k < taken && is_last_of_name(given.subrange(0, taken as int), k) ==> exists|m: int|
                    0 <= m < reg@.len() && reg@[m] == #[trigger] given[k],
        decreases rest@.len(),
    {
        let f = rest.remove(0);
        assert(f == given[taken as int]);
        let ghost before = reg@;
        let mut i: usize = 0;
        while i < reg.len()
            invariant
                reg@ == before,
                i <= reg@.len(),
                forall|k: int| 0 <= k < i ==> reg@[k].name@ != f.name@,
            ensures
                i < reg@.len() ==> reg@[i as int].name@ == f.name@,
                i <= reg@.len(),
                forall|k: int| 0 <= k < i ==> reg@[k].name@ != f.name@,
            decreases reg@.len() - i,
        {
            if str_eq(reg[i].name.as_str(), f.name.as_str()) {
                break;
            }
            i = i + 1;
        }
        let found = i < reg.len();
        proof {
            assert(all.subrange(0, taken + 1) =~= all.subrange(0, taken as int).push(f.name@));
            all.subrange(0, taken as int).lemma_push_to_set_commute(f.name@);
        }
        let ghost pre_given = given.subrange(0, taken as int);
        let ghost post_given = given.subrange(0, taken + 1);
        if found {
            let ghost old_names = reg@.map_values(|g: Font| g.name@);
            reg.set(i, f);
            proof {
                assert forall|k: int|
                    0 <= k < taken + 1 && is_last_of_name(post_given, k) implies exists|m: int|
                        0 <= m < reg@.len() && reg@[m] == #[trigger] given[k] by {
                    if k == taken {
                        assert(reg@[i as int] == given[k]);
                    } else {
                        assert(post_given[taken as int] == f);
                        assert(given[k].name@ != f.name@);
                        assert forall|j: int| k < j < taken implies pre_given[j].name@ != pre_given[k].name@ by {
                            assert(post_given[j] == pre_given[j]);
                        }
                        assert(is_last_of_name(pre_given, k));
                        let m = choose|m: int| 0 <= m < before.len() && before[m] == #[trigger] given[k];
                        assert(m != i);
                        assert(reg@[m] == given[k]);
                    }
                }
                assert(reg@.map_values(|g: Font| g.name@) =~= old_names);
                assert(old_names[i as int] == f.name@);
                assert(old_names.to_set().insert(f.name@) =~= old_names.to_set());
                assert forall|a: int, b: int| 0 <= a < b < reg@.len() implies #[trigger] reg@[a].name@ != #[trigger] reg@[b].name@ by {
                    assert(before[a].name@ != before[b].name@);
                }
            }
        } else {
            let ghost old_names = reg@.map_values(|g: Font| g.name@);
            reg.push(f);
            proof {
                assert forall|k: int|
                    0 <= k < taken + 1 && is_last_of_name(post_given, k) implies exists|m: int|
                        0 <= m < reg@.len() && reg@[m] == #[trigger] given[k] by {
                    if k == taken {
                        assert(reg@[before.len() as int] == given[k]);
                    } else {
                        assert(post_given[taken as int] == f);
                        assert forall|j: int| k < j < taken implies pre_given[j].name@ != pre_given[k].name@ by {
                            assert(post_given[j] == pre_given[j]);
                        }
                        assert(is_last_of_name(pre_given, k));
                        let m = choose|m: int| 0 <= m < before.len() && before[m] == #[trigger] given[k];
                        assert(reg@[m] == given[k]);
                    }
                }
                assert(reg@.map_values(|g: Font| g.name@) =~= old_names.push(f.name@));
                old_names.lemma_push_to_set_commute(f.name@);
                assert forall|a: int, b: int| 0 <= a < b < reg@.len() implies #[trigger] reg@[a].name@ != #[trigger] reg@[b].name@ by {
                    if b < before.len() {
                        assert(before[a].name@ != before[b].name@);
                    } else {
                        assert(reg@[a] == before[a]);
                    }
                }
            }
        }
        taken = taken + 1;
        assert(rest@ =~= given.subrange(taken as int, given.len() as int));
    }
    assert(all.subrange(0, taken as int) =~= all);
    assert(given.subrange(0, taken as int) =~= given);
    let r = Fonts { fonts: reg };
    proof {
        assert forall|k: int| 0 <= k < given.len() && is_last_of_name(given, k) implies r.font(
            #[trigger] given[k].name@,
        ) == given[k] by {
            let m = choose|m: int| 0 <= m < r.fonts@.len() && r.fonts@[m] == given[k];
            let c = choose|c: int| 0 <= c < r.fonts@.len() && r.fonts@[c].name@ == given[k].name@;
            if c < m {
                assert(r.fonts@[c].name@ != r.fonts@[m].name@);
            } else if c > m {
                assert(r.fonts@[m].name@ != r.fonts@[c].name@);
            }
        }
    }
    r
}

} // verus!
