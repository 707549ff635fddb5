use vstd::prelude::*;

use super::sprite_renderer::SpriteHandle;

verus! {

/// Whether `c` is an ASCII character.
pub open spec fn is_ascii_char(c: char) -> bool {
    (c as u32) < 128
}

/// The sprite of the last entry named exactly `name`.
pub open spec fn last_named(names: Seq<(String, usize)>, name: Seq<char>) -> Option<usize>
    decreases names.len(),
{
    if names.len() == 0 {
        None
    } else if names.last().0@ == name {
        Some(names.last().1)
    } else {
        last_named(names.drop_last(), name)
    }
}

/// The sprite of the last entry whose name starts with `c`.
pub open spec fn last_starting(names: Seq<(String, usize)>, c: char) -> Option<usize>
    decreases names.len(),
{
    if names.len() == 0 {
        None
    } else if names.last().0@.len() > 0 && names.last().0@[0] == c {
        Some(names.last().1)
    } else {
        last_starting(names.drop_last(), c)
    }
}

/// The glyph drawn for `c`: for an ASCII character the sprite named by
/// that character alone, or the blank sprite `blank` where there is none;
/// for any other character the sprite whose name starts with it. The last
/// such entry wins.
pub open spec fn glyph_for(names: Seq<(String, usize)>, blank: usize, c: char) -> Option<usize> {
    if is_ascii_char(c) {
        match last_named(names, seq![c]) {
            Some(i) => Some(i),
            None => Some(blank),
        }
    } else {
        last_starting(names, c)
    }
}

/// The first character of `s` and whether it is all of `s`.
fn first_char(s: &str) -> (r: (char, bool))
    requires
        s@.len() > 0,
    ensures
        r.0 == s@[0],
        r.1 == (s@.len() == 1),
{
    let mut it = s.chars();
    let first = it.next();
    let second = it.next();
    match first {
        Some(c) => (c, second.is_none()),
        None => {
            proof {
                assert(false);
            }
            (' ', false)
        },
    }
}

/// The sprites of a font's glyphs by character: a table for ASCII
/// characters, which falls back on a blank sprite, and a list for the
/// others.
pub struct GlyphLookup {
    sheet: usize,
    blank: usize,
    ascii: Vec<Option<usize>>,
    unicode: Vec<(char, usize)>,
    names: Ghost<Seq<(String, usize)>>,
}

impl GlyphLookup {
    /// The sheet the glyphs lie on.
    pub closed spec fn sheet_view(self) -> usize {
        self.sheet
    }

    /// The blank sprite drawn for an ASCII character without a glyph.
    pub closed spec fn blank_view(self) -> usize {
        self.blank
    }

    /// The glyph names and sprite indices the lookup was built from.
    pub closed spec fn names_view(self) -> Seq<(String, usize)> {
        self.names@
    }

    #[verifier::type_invariant]
    spec fn well_formed(self) -> bool {
        &&& self.ascii@.len() == 128
        &&& forall|c: char|
            is_ascii_char(c) ==> #[trigger] self.ascii@[c as u32 as int] == last_named(
                self.names@,
                seq![c],
            )
        &&& self.unicode@.len() == self.names@.len()
        &&& forall|k: int|
            0 <= k < self.names@.len() ==> self.names@[k].0@.len() > 0 && (#[trigger] self.unicode@[k])
                == (self.names@[k].0@[0], self.names@[k].1)
    }

    /// The lookup of the glyphs of the sheet `sheet`, each named by its
    /// character and given by its sprite index; `blank` is the index of the
    /// sheet's blank sprite.
    pub fn build(sheet: usize, blank: usize, names: &[(String, usize)]) -> (r: Self)
        requires
            forall|k: int| 0 <= k < names@.len() ==> (#[trigger] names@[k]).0@.len() > 0,
        ensures
            r.sheet_view() == sheet,
            r.blank_view() == blank,
            r.names_view() == names@,
    {
        let mut ascii: Vec<Option<usize>> = Vec::new();
        let mut a: usize = 0;
        while a < 128
            invariant
                0 <= a <= 128,
                ascii@.len() == a,
                forall|j: int| 0 <= j < a ==> ascii@[j] is None,
            decreases 128 - a,
        {
            ascii.push(None);
            a = a + 1;
        }
        let mut unicode: Vec<(char, usize)> = Vec::new();
        let mut k: usize = 0;
        assert(names@.take(0) =~= Seq::<(String, usize)>::empty());
        while k < names.len()
            invariant
                0 <= k <= names@.len(),
                forall|j: int| 0 <= j < names@.len() ==> (#[trigger] names@[j]).0@.len() > 0,
                ascii@.len() == 128,
                forall|c: char|
                    is_ascii_char(c) ==> #[trigger] ascii@[c as u32 as int] == last_named(
                        names@.take(k as int),
                        seq![c],
                    ),
                unicode@.len() == k,
                forall|j: int|
                    0 <= j < k ==> (#[trigger] unicode@[j]) == (names@[j].0@[0], names@[j].1),
            decreases names@.len() - k,
        {
            let (c, alone) = first_char(names[k].0.as_str());
            let idx = names[k].1;
            let ghost prev = names@.take(k as int);
            let ghost next = names@.take(k + 1);
            assert(next.drop_last() == prev);
            assert(next.last() == names@[k as int]);
            if alone && (c as u32) < 128 {
                let ghost before = ascii@;
                ascii.set(c as u32 as usize, Some(idx));
                assert(ascii@ == before.update(c as u32 as int, Some(idx)));
                assert forall|d: char| is_ascii_char(d) implies #[trigger] ascii@[d as u32 as int]
                    == last_named(next, seq![d]) by {
                    assert(before[d as u32 as int] == last_named(prev, seq![d]));
                    if d == c {
                        assert(names@[k as int].0@ =~= seq![d]);
                    } else {
                        vstd::utf8::char_u32_cast(d, d as u32);
                        vstd::utf8::char_u32_cast(c, c as u32);
                        assert((d as u32) != (c as u32));
                        assert(names@[k as int].0@ != seq![d]) by {
                            if names@[k as int].0@ == seq![d] {
                                assert(names@[k as int].0@[0] == d);
                            }
                        }
                    }
                }
            } else {
                assert forall|d: char| is_ascii_char(d) implies #[trigger] ascii@[d as u32 as int]
                    == last_named(next, seq![d]) by {
                    assert(names@[k as int].0@ != seq![d]) by {
                        if names@[k as int].0@ == seq![d] {
                            assert(names@[k as int].0@[0] == d);
                            assert(names@[k as int].0@.len() == 1);
                        }
                    }
                }
            }
            unicode.push((c, idx));
            k = k + 1;
        }
        assert(names@.take(k as int) =~= names@);
        GlyphLookup { sheet, blank, ascii, unicode, names: Ghost(names@) }
    }

    /// The handle of the glyph drawn for `c`: always one for an ASCII
    /// character, the blank sprite where the font has no glyph for it; for
    /// another character one only where the font has a glyph.
    pub fn get(&self, c: char) -> (r: Option<SpriteHandle>)
        ensures
            is_ascii_char(c) ==> r is Some,
            r == match glyph_for(self.names_view(), self.blank_view(), c) {
                Some(i) => Some(SpriteHandle::spec_new(self.sheet_view(), i)),
                None => None,
            },
    {
        proof {
            use_type_invariant(self);
        }
        let code = c as u32;
        if code < 128 {
            match self.ascii[code as usize] {
                Some(i) => Some(SpriteHandle::new(self.sheet, i)),
                None => Some(SpriteHandle::new(self.sheet, self.blank)),
            }
        } else {
            let ghost names = self.names@;
            let mut k: usize = self.unicode.len();
            assert(names.take(k as int) =~= names);
            while k > 0
                invariant
                    0 <= k <= names.len(),
                    names == self.names@,
                    !is_ascii_char(c),
                    self.unicode@.len() == names.len(),
                    last_starting(names.take(k as int), c) == last_starting(names, c),
                decreases k,
            {
                let ghost prefix = names.take(k as int);
                assert(prefix.drop_last() == names.take(k - 1));
                assert(prefix.last() == names[k - 1]);
                proof {
                    use_type_invariant(self);
                }
                let (d, i) = self.unicode[k - 1];
                assert(self.unicode@[k - 1] == (names[k - 1].0@[0], names[k - 1].1));
                if d == c {
                    assert(last_starting(prefix, c) == Some(i));
                    return Some(SpriteHandle::new(self.sheet, i));
                }
                k = k - 1;
            }
            None
        }
    }
}

} // verus!
