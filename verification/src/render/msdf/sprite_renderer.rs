use std::ops::Range;
use vstd::prelude::*;

use crate::render::geometry::TexturedQuad;
use crate::render::vertex::VertexUV;

verus! {

#[derive(Clone, Copy, Debug, PartialEq, Eq, Hash, Structural)]
pub struct SpriteSheetHandle {
    pub idx: usize,
}

#[derive(Clone, Copy, Debug, PartialEq, Eq, Hash, Structural)]
pub struct SheetSpriteHandle {
    pub idx: usize,
}

/// Names a sprite: which sheet, and which sprite on that sheet.
#[derive(Clone, Copy, Debug, PartialEq, Eq, Hash, Structural)]
pub struct SpriteHandle {
    pub sheet: SpriteSheetHandle,
    pub sprite: SheetSpriteHandle,
}

impl SpriteHandle {
    /// The handle of sprite `sprite` on sheet `sheet`.
    pub open spec fn spec_new(sheet: usize, sprite: usize) -> Self {
        SpriteHandle { sheet: SpriteSheetHandle { idx: sheet }, sprite: SheetSpriteHandle { idx: sprite } }
    }

    pub fn new(sheet: usize, sprite: usize) -> (r: Self)
        ensures
            r == Self::spec_new(sheet, sprite),
    {
        SpriteHandle { sheet: SpriteSheetHandle { idx: sheet }, sprite: SheetSpriteHandle { idx: sprite } }
    }
}

/// `<str as PartialEq>::eq`: two string slices are equal when they hold
/// the same characters.
#[verifier::external_body]
fn str_eq(a: &str, b: &str) -> (r: bool)
    ensures
        r == (a@ == b@),
{
    a == b
}

/// The value of the last entry named `name`, as a map collected from the
/// entries in order keeps it.
pub open spec fn find_named<V>(entries: Seq<(String, V)>, name: Seq<char>) -> Option<V>
    decreases entries.len(),
{
    if entries.len() == 0 {
        None
    } else if entries.last().0@ == name {
        Some(entries.last().1)
    } else {
        find_named(entries.drop_last(), name)
    }
}

/// The sprites of a sheet, numbered in the order they are stored: the
/// sprite named `names[k]` gets index `k`.
pub fn number_sprites(names: &[String]) -> (r: Vec<(String, usize)>)
    ensures
        r@.len() == names@.len(),
        forall|k: int| 0 <= k < names@.len() ==> (#[trigger] r@[k]).0 == names@[k] && r@[k].1 == k,
{
    let mut r: Vec<(String, usize)> = Vec::new();
    let mut k: usize = 0;
    while k < names.len()
        invariant
            0 <= k <= names@.len(),
            r@.len() == k,
            forall|j: int| 0 <= j < k ==> (#[trigger] r@[j]).0 == names@[j] && r@[j].1 == j,
        decreases names@.len() - k,
    {
        r.push((names[k].clone(), k));
        k = k + 1;
    }
    r
}

/// Sprite handles by sheet name, then by sprite name.
#[derive(Clone)]
pub struct SpriteRendererReference {
    pub sheets: Vec<(String, Vec<(String, SpriteHandle)>)>,
}

impl SpriteRendererReference {
    /// The handle of sprite `sprite` on sheet `sheet`, if both exist.
    pub open spec fn lookup(self, sheet: Seq<char>, sprite: Seq<char>) -> Option<SpriteHandle> {
        match find_named(self.sheets@, sheet) {
            Some(sprites) => find_named(sprites@, sprite),
            None => None,
        }
    }

    pub fn get_sprite(&self, sheet: &str, sprite: &str) -> (r: Option<&SpriteHandle>)
        ensures
            match r {
                Some(h) => self.lookup(sheet@, sprite@) == Some(*h),
                None => self.lookup(sheet@, sprite@) is None,
            },
    {
        let ghost all = self.sheets@;
        let mut i: usize = self.sheets.len();
        assert(all.take(i as int) =~= all);
        while i > 0
            invariant
                0 <= i <= all.len(),
                all == self.sheets@,
                find_named(all, sheet@) == find_named(all.take(i as int), sheet@),
            decreases i,
        {
            assert(all.take(i as int).drop_last() == all.take(i - 1));
            assert(all.take(i as int).last() == all[i - 1]);
            if str_eq(self.sheets[i - 1].0.as_str(), sheet) {
                let sprites = &self.sheets[i - 1].1;
                assert(find_named(all, sheet@) == Some(all[i - 1].1));
                let ghost named = sprites@;
                let mut j: usize = sprites.len();
                assert(named.take(j as int) =~= named);
                while j > 0
                    invariant
                        0 <= j <= named.len(),
                        named == sprites@,
                        1 <= i <= all.len(),
                        all == self.sheets@,
                        *sprites == all[i - 1].1,
                        find_named(all, sheet@) == Some(all[i - 1].1),
                        find_named(named, sprite@) == find_named(named.take(j as int), sprite@),
                    decreases j,
                {
                    assert(named.take(j as int).drop_last() == named.take(j - 1));
                    assert(named.take(j as int).last() == named[j - 1]);
                    if str_eq(sprites[j - 1].0.as_str(), sprite) {
                        assert(find_named(named, sprite@) == Some(named[j - 1].1));
                        return Some(&sprites[j - 1].1);
                    }
                    j = j - 1;
                }
                assert(named.take(0) =~= Seq::<(String, SpriteHandle)>::empty());
                return None;
            }
            i = i - 1;
        }
        assert(all.take(0) =~= Seq::<(String, Vec<(String, SpriteHandle)>)>::empty());
        None
    }
}

/// `out` holds the sprites of `names`, in order and under the same names,
/// each with its handle on sheet `sheet`.
pub open spec fn sheet_handles(
    sheet: usize,
    names: Seq<(String, usize)>,
    out: Seq<(String, SpriteHandle)>,
) -> bool {
    &&& out.len() == names.len()
    &&& forall|j: int|
        0 <= j < names.len() ==> (#[trigger] out[j]).0 == names[j].0 && out[j].1
            == SpriteHandle::spec_new(sheet, names[j].1)
}

/// `out` holds the sheets of `sheets`, in order and under the same names,
/// the sprites of the sheet at position `i` handled on sheet `i`.
pub open spec fn sheets_handles(
    sheets: Seq<(String, Vec<(String, usize)>)>,
    out: Seq<(String, Vec<(String, SpriteHandle)>)>,
) -> bool {
    &&& out.len() == sheets.len()
    &&& forall|i: int|
        0 <= i < sheets.len() ==> (#[trigger] out[i]).0 == sheets[i].0 && sheet_handles(
            i as usize,
            sheets[i].1@,
            out[i].1@,
        )
}

/// No two entries carry the same name.
pub open spec fn names_distinct<V>(entries: Seq<(String, V)>) -> bool {
    forall|a: int, b: int|
        0 <= a < b < entries.len() ==> (#[trigger] entries[a]).0@ != (#[trigger] entries[b]).0@
}

/// Where the names are distinct, the entry found by a name is the one
/// that carries it.
proof fn lemma_find_named_at<V>(entries: Seq<(String, V)>, k: int)
    requires
        0 <= k < entries.len(),
        names_distinct(entries),
    ensures
        find_named(entries, entries[k].0@) == Some(entries[k].1),
    decreases entries.len(),
{
    if k < entries.len() - 1 {
        let rest = entries.drop_last();
        assert(entries.last().0@ != entries[k].0@) by {
            assert(entries.last() == entries[entries.len() - 1]);
        }
        assert(rest[k] == entries[k]);
        assert forall|a: int, b: int| 0 <= a < b < rest.len() implies (#[trigger] rest[a]).0@
            != (#[trigger] rest[b]).0@ by {
            assert(rest[a] == entries[a]);
            assert(rest[b] == entries[b]);
        }
        lemma_find_named_at(rest, k);
    }
}

impl SpriteRendererReference {
    /// The handles of every sprite: the sprite with index `s` on the sheet
    /// at position `i` of `sheets` gets the handle (`i`, `s`), under its
    /// sheet's name and its own.
    pub fn from_sheets(sheets: &[(String, Vec<(String, usize)>)]) -> (r: Self)
        ensures
            sheets_handles(sheets@, r.sheets@),
    {
        let mut out: Vec<(String, Vec<(String, SpriteHandle)>)> = Vec::new();
        let mut i: usize = 0;
        while i < sheets.len()
            invariant
                0 <= i <= sheets@.len(),
                out@.len() == i,
                forall|k: int|
                    0 <= k < i ==> (#[trigger] out@[k]).0 == sheets@[k].0 && sheet_handles(
                        k as usize,
                        sheets@[k].1@,
                        out@[k].1@,
                    ),
            decreases sheets@.len() - i,
        {
            let names = &sheets[i].1;
            let mut handles: Vec<(String, SpriteHandle)> = Vec::new();
            let mut j: usize = 0;
            while j < names.len()
                invariant
                    0 <= j <= names@.len(),
                    handles@.len() == j,
                    forall|m: int|
                        0 <= m < j ==> (#[trigger] handles@[m]).0 == names@[m].0 && handles@[m].1
                            == SpriteHandle::spec_new(i, names@[m].1),
                decreases names@.len() - j,
            {
                handles.push((names[j].0.clone(), SpriteHandle::new(i, names[j].1)));
                j = j + 1;
            }
            out.push((sheets[i].0.clone(), handles));
            i = i + 1;
        }
        SpriteRendererReference { sheets: out }
    }
}

/// Every sprite is found under its sheet's name and its own name, with the
/// handle of its sheet's position and its index, when no two sheets share
/// a name and no two sprites of a sheet do.
pub proof fn lemma_reference_finds_every_sprite(
    sheets: Seq<(String, Vec<(String, usize)>)>,
    r: SpriteRendererReference,
    i: int,
    j: int,
)
    requires
        sheets_handles(sheets, r.sheets@),
        names_distinct(sheets),
        0 <= i < sheets.len(),
        names_distinct(sheets[i].1@),
        0 <= j < sheets[i].1@.len(),
    ensures
        r.lookup(sheets[i].0@, sheets[i].1@[j].0@) == Some(
            SpriteHandle::spec_new(i as usize, sheets[i].1@[j].1),
        ),
{
    let out = r.sheets@;
    assert(out[i].0 == sheets[i].0);
    assert forall|a: int, b: int| 0 <= a < b < out.len() implies (#[trigger] out[a]).0@
        != (#[trigger] out[b]).0@ by {
        assert(out[a].0 == sheets[a].0);
        assert(out[b].0 == sheets[b].0);
        assert(sheets[a].0@ != sheets[b].0@);
    }
    lemma_find_named_at(out, i);
    let sprites = out[i].1@;
    assert(sheet_handles(i as usize, sheets[i].1@, sprites));
    assert forall|a: int, b: int| 0 <= a < b < sprites.len() implies (#[trigger] sprites[a]).0@
        != (#[trigger] sprites[b]).0@ by {
        assert(sprites[a].0 == sheets[i].1@[a].0);
        assert(sprites[b].0 == sheets[i].1@[b].0);
        assert(sheets[i].1@[a].0@ != sheets[i].1@[b].0@);
    }
    assert(sprites[j].0 == sheets[i].1@[j].0);
    lemma_find_named_at(sprites, j);
}

/// The vertices and indices of one sprite sheet inside the batched buffers.
pub struct RenderRange {
    pub verts: Range<u32>,
    pub indices: Range<u32>,
}

impl Clone for RenderRange {
    fn clone(&self) -> (r: Self)
        ensures
            r == *self,
    {
        RenderRange {
            verts: self.verts.start..self.verts.end,
            indices: self.indices.start..self.indices.end,
        }
    }
}

impl Default for RenderRange {
    fn default() -> (r: Self)
        ensures
            r.verts == (0u32..0u32),
            r.indices == (0u32..0u32),
    {
        RenderRange { verts: 0..0, indices: 0..0 }
    }
}

/// All sprite quads of a frame, grouped by sheet, ready for upload.
pub struct SpriteBatches {
    pub verts: Vec<VertexUV>,
    pub indices: Vec<u32>,
    pub ranges: Vec<RenderRange>,
}

/// The quads drawn with sheet `sheet`, in submission order.
pub open spec fn sheet_quads(quads: Seq<(usize, TexturedQuad)>, sheet: usize) -> Seq<TexturedQuad> {
    quads.filter_map(|q: (usize, TexturedQuad)| if q.0 == sheet { Some(q.1) } else { None })
}

/// The vertices of a list of quads, four per quad.
pub open spec fn quads_vertices(quads: Seq<TexturedQuad>) -> Seq<VertexUV>
    decreases quads.len(),
{
    if quads.len() == 0 {
        Seq::empty()
    } else {
        quads_vertices(quads.drop_last()) + quads.last().vertices@
    }
}

/// The indices of a list of quads, each shifted past the vertices of the
/// quads before it.
pub open spec fn quads_indices(quads: Seq<TexturedQuad>) -> Seq<u32>
    decreases quads.len(),
{
    if quads.len() == 0 {
        Seq::empty()
    } else {
        let start = quads_vertices(quads.drop_last()).len() as int;
        quads_indices(quads.drop_last()) + quads.last().indices@.map_values(
            |i: u32| (i + start) as u32,
        )
    }
}

/// The vertices of sheets `0..n`, one sheet after another.
pub open spec fn batched_vertices(quads: Seq<(usize, TexturedQuad)>, n: int) -> Seq<VertexUV>
    decreases n,
{
    if n <= 0 {
        Seq::empty()
    } else {
        batched_vertices(quads, n - 1) + quads_vertices(sheet_quads(quads, (n - 1) as usize))
    }
}

/// The indices of sheets `0..n`, one sheet after another. Indices stay
/// relative to the first vertex of their sheet.
pub open spec fn batched_indices(quads: Seq<(usize, TexturedQuad)>, n: int) -> Seq<u32>
    decreases n,
{
    if n <= 0 {
        Seq::empty()
    } else {
        batched_indices(quads, n - 1) + quads_indices(sheet_quads(quads, (n - 1) as usize))
    }
}


/// How many quads use sheet `sheet`.
pub open spec fn count_on_sheet(quads: Seq<(usize, TexturedQuad)>, sheet: usize) -> int
    decreases quads.len(),
{
    if quads.len() == 0 {
        0
    } else {
        count_on_sheet(quads.drop_last(), sheet) + if quads.last().0 == sheet {
            1int
        } else {
            0int
        }
    }
}

/// How many quads use a sheet below `n`.
pub open spec fn count_below(quads: Seq<(usize, TexturedQuad)>, n: int) -> int
    decreases quads.len(),
{
    if quads.len() == 0 {
        0
    } else {
        count_below(quads.drop_last(), n) + if quads.last().0 < n {
            1int
        } else {
            0int
        }
    }
}

proof fn lemma_sheet_quads_len(quads: Seq<(usize, TexturedQuad)>, sheet: usize)
    ensures
        sheet_quads(quads, sheet).len() == count_on_sheet(quads, sheet),
    decreases quads.len(),
{
    if quads.len() > 0 {
        lemma_sheet_quads_len(quads.drop_last(), sheet);
    }
}

proof fn lemma_count_below_step(quads: Seq<(usize, TexturedQuad)>, n: int)
    requires
        1 <= n <= usize::MAX + 1,
    ensures
        count_below(quads, n) == count_below(quads, n - 1) + count_on_sheet(quads, (n - 1) as usize),
        0 <= count_below(quads, n) <= quads.len(),
    decreases quads.len(),
{
    if quads.len() > 0 {
        lemma_count_below_step(quads.drop_last(), n);
    }
}

proof fn lemma_count_on_sheet_prefix(quads: Seq<(usize, TexturedQuad)>, k: int, sheet: usize)
    requires
        0 <= k <= quads.len(),
    ensures
        count_on_sheet(quads.take(k), sheet) <= count_on_sheet(quads, sheet),
    decreases quads.len() - k,
{
    if k < quads.len() {
        lemma_count_on_sheet_prefix(quads, k + 1, sheet);
        assert(quads.take(k + 1).drop_last() == quads.take(k));
    } else {
        assert(quads.take(k) == quads);
    }
}

proof fn lemma_count_below_all(quads: Seq<(usize, TexturedQuad)>, n: int)
    requires
        forall|k: int| 0 <= k < quads.len() ==> (#[trigger] quads[k]).0 < n,
    ensures
        count_below(quads, n) == quads.len(),
    decreases quads.len(),
{
    if quads.len() > 0 {
        assert(quads.last() == quads[quads.len() - 1]);
        lemma_count_below_all(quads.drop_last(), n);
    }
}

proof fn lemma_count_below_bounded(quads: Seq<(usize, TexturedQuad)>, n: int)
    ensures
        0 <= count_below(quads, n) <= quads.len(),
    decreases quads.len(),
{
    if quads.len() > 0 {
        lemma_count_below_bounded(quads.drop_last(), n);
    }
}

proof fn lemma_quads_lengths(quads: Seq<TexturedQuad>)
    ensures
        quads_vertices(quads).len() == 4 * quads.len(),
        quads_indices(quads).len() == 6 * quads.len(),
    decreases quads.len(),
{
    if quads.len() > 0 {
        lemma_quads_lengths(quads.drop_last());
    }
}

proof fn lemma_batched_lengths(quads: Seq<(usize, TexturedQuad)>, n: int)
    requires
        0 <= n <= usize::MAX + 1,
    ensures
        batched_vertices(quads, n).len() == 4 * count_below(quads, n),
        batched_indices(quads, n).len() == 6 * count_below(quads, n),
    decreases n,
{
    if n == 0 {
        lemma_count_zero(quads);
    } else {
        lemma_batched_lengths(quads, n - 1);
        lemma_count_below_step(quads, n);
        lemma_sheet_quads_len(quads, (n - 1) as usize);
        lemma_quads_lengths(sheet_quads(quads, (n - 1) as usize));
    }
}

proof fn lemma_count_zero(quads: Seq<(usize, TexturedQuad)>)
    ensures
        count_below(quads, 0) == 0,
    decreases quads.len(),
{
    if quads.len() > 0 {
        lemma_count_zero(quads.drop_last());
    }
}

/// Groups the quads of a frame by sprite sheet, sheet 0 first, keeping
/// submission order inside a sheet, and records where each sheet's vertices
/// and indices lie. Indices stay relative to the first vertex of their
/// sheet, which is drawn as the base vertex.
pub fn batch_sprite_quads(sheet_count: usize, quads: &[(usize, TexturedQuad)]) -> (r: SpriteBatches)
    requires
        6 * quads@.len() <= u32::MAX,
        forall|k: int| 0 <= k < quads@.len() ==> (#[trigger] quads@[k]).0 < sheet_count,
        forall|k: int, j: int|
            0 <= k < quads@.len() && 0 <= j < 6 ==> #[trigger] quads@[k].1.indices@[j] + 4
                * quads@.len() <= u32::MAX,
    ensures
        r.verts@ == batched_vertices(quads@, sheet_count as int),
        r.indices@ == batched_indices(quads@, sheet_count as int),
        r.ranges@.len() == sheet_count,
        r.verts@.len() == 4 * quads@.len(),
        r.indices@.len() == 6 * quads@.len(),
        forall|s: int|
            0 <= s < sheet_count ==> {
                &&& (#[trigger] r.ranges@[s]).verts.start == batched_vertices(quads@, s).len()
                &&& r.ranges@[s].verts.end == batched_vertices(quads@, s + 1).len()
                &&& r.ranges@[s].indices.start == batched_indices(quads@, s).len()
                &&& r.ranges@[s].indices.end == batched_indices(quads@, s + 1).len()
            },
{
    let mut verts: Vec<VertexUV> = Vec::new();
    let mut indices: Vec<u32> = Vec::new();
    let mut ranges: Vec<RenderRange> = Vec::new();
    let mut s: usize = 0;
    while s < sheet_count
        invariant
            0 <= s <= sheet_count,
            6 * quads@.len() <= u32::MAX,
            forall|k: int, j: int|
                0 <= k < quads@.len() && 0 <= j < 6 ==> #[trigger] quads@[k].1.indices@[j] + 4
                    * quads@.len() <= u32::MAX,
            verts@ == batched_vertices(quads@, s as int),
            indices@ == batched_indices(quads@, s as int),
            ranges@.len() == s,
            forall|t: int|
                0 <= t < s ==> {
                    &&& (#[trigger] ranges@[t]).verts.start == batched_vertices(quads@, t).len()
                    &&& ranges@[t].verts.end == batched_vertices(quads@, t + 1).len()
                    &&& ranges@[t].indices.start == batched_indices(quads@, t).len()
                    &&& ranges@[t].indices.end == batched_indices(quads@, t + 1).len()
                },
        decreases sheet_count - s,
    {
        proof {
            lemma_batched_lengths(quads@, s as int);
            lemma_batched_lengths(quads@, s + 1);
            lemma_count_below_bounded(quads@, s as int);
            lemma_count_below_bounded(quads@, s + 1);
            lemma_count_below_step(quads@, s + 1);
        }
        let v_start = verts.len() as u32;
        let i_start = indices.len() as u32;
        let ghost base_v = verts@;
        let ghost base_i = indices@;
        assert(quads@.take(0) =~= Seq::<(usize, TexturedQuad)>::empty());
        proof {
            lemma_sheet_quads_len(quads@.take(0), s);
        }
        let mut k: usize = 0;
        while k < quads.len()
            invariant
                0 <= k <= quads@.len(),
                6 * quads@.len() <= u32::MAX,
                forall|kk: int, j: int|
                    0 <= kk < quads@.len() && 0 <= j < 6 ==> #[trigger] quads@[kk].1.indices@[j] + 4
                        * quads@.len() <= u32::MAX,
                v_start == base_v.len(),
                base_v.len() == 4 * count_below(quads@, s as int),
                count_below(quads@, s as int) + count_on_sheet(quads@, s) <= quads@.len(),
                verts@ == base_v + quads_vertices(sheet_quads(quads@.take(k as int), s)),
                indices@ == base_i + quads_indices(sheet_quads(quads@.take(k as int), s)),
                sheet_quads(quads@.take(k as int), s).len() == count_on_sheet(quads@.take(k as int), s),
                count_on_sheet(quads@.take(k as int), s) <= count_on_sheet(quads@, s),
            decreases quads@.len() - k,
        {
            let ghost before = sheet_quads(quads@.take(k as int), s);
            proof {
                lemma_sheet_quads_len(quads@.take(k + 1), s);
                lemma_count_on_sheet_prefix(quads@, k + 1, s);
            }
            assert(quads@.take(k + 1).drop_last() == quads@.take(k as int));
            assert(quads@.take(k + 1).last() == quads@[k as int]);
            if quads[k].0 == s {
                let quad = &quads[k].1;
                let ghost after = before.push(*quad);
                assert(sheet_quads(quads@.take(k + 1), s) == after);
                assert(after.drop_last() == before);
                proof {
                    lemma_quads_lengths(before);
                }
                let start = (verts.len() as u32) - v_start;
                assert(start == quads_vertices(before).len());
                let mut m: usize = 0;
                while m < 4
                    invariant
                        0 <= m <= 4,
                        verts@ == base_v + quads_vertices(before) + quad.vertices@.take(m as int),
                    decreases 4 - m,
                {
                    verts.push(quad.vertices[m]);
                    assert(base_v + quads_vertices(before) + quad.vertices@.take(m + 1) =~= (base_v
                        + quads_vertices(before) + quad.vertices@.take(m as int)).push(
                        quad.vertices@[m as int],
                    ));
                    m = m + 1;
                }
                assert(quad.vertices@.take(4) =~= quad.vertices@);
                assert(verts@ =~= base_v + quads_vertices(after));
                let mut m: usize = 0;
                while m < 6
                    invariant
                        0 <= m <= 6,
                        start == quads_vertices(before).len(),
                        start + 4 <= 4 * quads@.len(),
                        forall|j: int| 0 <= j < 6 ==> #[trigger] quad.indices@[j] + 4 * quads@.len() <= u32::MAX,
                        indices@ == base_i + quads_indices(before) + quad.indices@.take(m as int).map_values(
                            |i: u32| (i + start) as u32,
                        ),
                    decreases 6 - m,
                {
                    let value = quad.indices[m] + start;
                    indices.push(value);
                    assert(quad.indices@.take(m + 1).map_values(|i: u32| (i + start) as u32)
                        =~= quad.indices@.take(m as int).map_values(|i: u32| (i + start) as u32).push(
                        value,
                    ));
                    assert(base_i + quads_indices(before) + quad.indices@.take(m + 1).map_values(
                        |i: u32| (i + start) as u32,
                    ) =~= (base_i + quads_indices(before) + quad.indices@.take(m as int).map_values(
                        |i: u32| (i + start) as u32,
                    )).push(value));
                    m = m + 1;
                }
                assert(quad.indices@.take(6) =~= quad.indices@);
                assert(indices@ =~= base_i + quads_indices(after));
            } else {
                assert(sheet_quads(quads@.take(k + 1), s) == before);
            }
            k = k + 1;
        }
        assert(quads@.take(k as int) == quads@);
        proof {
            lemma_quads_lengths(sheet_quads(quads@, s));
        }
        assert(verts@ == batched_vertices(quads@, s + 1));
        assert(indices@ == batched_indices(quads@, s + 1));
        let v_end = verts.len() as u32;
        let i_end = indices.len() as u32;
        ranges.push(RenderRange { verts: v_start..v_end, indices: i_start..i_end });
        s = s + 1;
    }
    proof {
        lemma_count_below_all(quads@, sheet_count as int);
        lemma_batched_lengths(quads@, sheet_count as int);
    }
    SpriteBatches { verts, indices, ranges }
}


proof fn lemma_quads_vertices_at(quads: Seq<TexturedQuad>, k: int, m: int)
    requires
        0 <= k < quads.len(),
        0 <= m < 4,
    ensures
        quads_vertices(quads).len() == 4 * quads.len(),
        quads_vertices(quads)[4 * k + m] == quads[k].vertices@[m],
    decreases quads.len(),
{
    lemma_quads_lengths(quads);
    lemma_quads_lengths(quads.drop_last());
    if k < quads.len() - 1 {
        lemma_quads_vertices_at(quads.drop_last(), k, m);
    }
}

proof fn lemma_quads_indices_at(quads: Seq<TexturedQuad>, k: int, j: int)
    requires
        0 <= k < quads.len(),
        0 <= j < 6,
    ensures
        quads_indices(quads).len() == 6 * quads.len(),
        quads_indices(quads)[6 * k + j] == (quads[k].indices@[j] + 4 * k) as u32,
    decreases quads.len(),
{
    lemma_quads_lengths(quads);
    lemma_quads_lengths(quads.drop_last());
    if k < quads.len() - 1 {
        lemma_quads_indices_at(quads.drop_last(), k, j);
    }
}

proof fn lemma_batched_at(quads: Seq<(usize, TexturedQuad)>, n: int, s: int, t: int, u: int)
    requires
        0 <= s < n <= usize::MAX + 1,
        0 <= t < quads_vertices(sheet_quads(quads, s as usize)).len(),
        0 <= u < quads_indices(sheet_quads(quads, s as usize)).len(),
    ensures
        batched_vertices(quads, s).len() + t < batched_vertices(quads, n).len(),
        batched_indices(quads, s).len() + u < batched_indices(quads, n).len(),
        batched_vertices(quads, n)[batched_vertices(quads, s).len() + t] == quads_vertices(
            sheet_quads(quads, s as usize),
        )[t],
        batched_indices(quads, n)[batched_indices(quads, s).len() + u] == quads_indices(
            sheet_quads(quads, s as usize),
        )[u],
    decreases n,
{
    if s < n - 1 {
        lemma_batched_at(quads, n - 1, s, t, u);
    }
}

/// Batching keeps every sprite triangle: index `j` of the `k`-th quad on
/// sheet `s` is found at its place in that sheet's index range, shifted by
/// the four vertices of each earlier quad on the sheet, and taken from the
/// sheet's first vertex it names the same vertex of the same quad.
pub proof fn lemma_batches_keep_triangles(
    quads: Seq<(usize, TexturedQuad)>,
    n: int,
    s: int,
    k: int,
    j: int,
)
    requires
        0 <= s < n <= usize::MAX + 1,
        0 <= k < sheet_quads(quads, s as usize).len(),
        0 <= j < 6,
        sheet_quads(quads, s as usize)[k].indices@[j] < 4,
        4 * sheet_quads(quads, s as usize).len() <= u32::MAX,
    ensures
        ({
            let quad = sheet_quads(quads, s as usize)[k];
            let first_vertex = batched_vertices(quads, s).len() as int;
            let first_index = batched_indices(quads, s).len() as int;
            let index = batched_indices(quads, n)[first_index + 6 * k + j];
            &&& first_index + 6 * k + j < batched_indices(quads, n).len()
            &&& index == quad.indices@[j] + 4 * k
            &&& first_vertex + index < batched_vertices(quads, n).len()
            &&& batched_vertices(quads, n)[first_vertex + index] == quad.vertices@[quad.indices@[j] as int]
        }),
{
    let sq = sheet_quads(quads, s as usize);
    let quad = sq[k];
    lemma_quads_lengths(sq);
    lemma_quads_indices_at(sq, k, j);
    let i = quad.indices@[j];
    lemma_quads_vertices_at(sq, k, i as int);
    assert(4 * k + i < 4 * sq.len()) by (nonlinear_arith)
        requires
            k < sq.len(),
            i < 4,
    ;
    assert(6 * k + j < 6 * sq.len()) by (nonlinear_arith)
        requires
            k < sq.len(),
            j < 6,
    ;
    lemma_batched_at(quads, n, s, 4 * k + i, 6 * k + j);
}

} // verus!
