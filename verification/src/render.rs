use crate::ivec2::IVec2;
use vstd::prelude::*;

verus! {

/// The cell of the font atlas (16 cells wide, 6 high) that holds character
/// `c`: printable ASCII from `!` to `~` is laid out row by row after the
/// space; every other character has no glyph.
pub open spec fn glyph_cell(c: char) -> Option<IVec2> {
    let u = c as u32;
    if 0x21 <= u <= 0x7e {
        let k = u - 0x20;
        Some(IVec2 { x: (k % 16) as i32, y: (k / 16) as i32 })
    } else {
        None
    }
}

/// The glyphs drawn for the first `k` characters of `cs`, in order, each as
/// (character index, atlas cell); characters without a glyph are skipped.
pub open spec fn glyphs_upto(cs: Seq<char>, k: int) -> Seq<(usize, IVec2)>
    decreases k,
{
    if k <= 0 {
        Seq::empty()
    } else {
        match glyph_cell(cs[k - 1]) {
            Some(cell) => glyphs_upto(cs, k - 1).push(((k - 1) as usize, cell)),
            None => glyphs_upto(cs, k - 1),
        }
    }
}

/// The glyphs that drawing a text of characters `chars` places: for each
/// character with a glyph, its index in the text and its cell in the atlas.
pub fn text_glyphs(chars: &[char]) -> (g: Vec<(usize, IVec2)>)
    ensures
        g@ == glyphs_upto(chars@, chars@.len() as int),
{
    let mut g: Vec<(usize, IVec2)> = Vec::new();
    let mut i: usize = 0;
    while i < chars.len()
        invariant
            i <= chars@.len(),
            g@ == glyphs_upto(chars@, i as int),
        decreases chars@.len() - i,
    {
        let c = chars[i];
        let code = c as u32;
        if 0x21 <= code && code <= 0x7e {
            let k = code - 0x20;
            let cell = IVec2 { x: (k % 16) as i32, y: (k / 16) as i32 };
            g.push((i, cell));
        }
        i = i + 1;
    }
    g
}

/// Vertices and triangle indices waiting to be drawn.
#[derive(Default, Debug)]
pub struct VertexBufCPU<V> {
    pub verts: Vec<V>,
    pub inds: Vec<u32>,
}

/// The vertex count as the renderer's 32-bit index type holds it.
pub open spec fn index_offset(n: nat) -> nat {
    n % 0x1_0000_0000
}

impl<V> VertexBufCPU<V> {
    /// Appends a batch of vertices, and its indices moved past the vertices
    /// already held (the count taken as a 32-bit index), so that they keep
    /// naming the batch's own vertices.
    pub fn extend(&mut self, verts: Vec<V>, inds: Vec<u32>)
        requires
            forall|k: int|
                0 <= k < inds@.len() ==> #[trigger] inds@[k] + index_offset(old(self).verts@.len())
                    <= u32::MAX,
        ensures
            final(self).verts@ == old(self).verts@ + verts@,
            final(self).inds@.len() == old(self).inds@.len() + inds@.len(),
            forall|k: int|
                0 <= k < old(self).inds@.len() ==> #[trigger] final(self).inds@[k] == old(self).inds@[k],
            forall|k: int|
                0 <= k < inds@.len() ==> #[trigger] final(self).inds@[old(self).inds@.len() + k] == inds@[k]
                    + index_offset(old(self).verts@.len()),
    {
        let n = self.verts.len();
        let offset = n as u32;
        assert(offset == (n as u64) % 0x1_0000_0000u64) by (bit_vector)
            requires
                offset == n as u32,
        ;
        let ghost added = verts@;
        let mut verts = verts;
        self.verts.append(&mut verts);
        let ghost start = self.inds@;
        let mut k: usize = 0;
        while k < inds.len()
            invariant
                k <= inds@.len(),
                offset == index_offset(old(self).verts@.len()),
                start == old(self).inds@,
                self.verts@ == old(self).verts@ + added,
                self.inds@.len() == start.len() + k,
                forall|j: int| 0 <= j < start.len() ==> #[trigger] self.inds@[j] == start[j],
                forall|j: int|
                    0 <= j < k ==> #[trigger] self.inds@[start.len() + j] == inds@[j] + offset,
                forall|j: int|
                    0 <= j < inds@.len() ==> #[trigger] inds@[j] + index_offset(old(self).verts@.len())
                        <= u32::MAX,
            decreases inds@.len() - k,
        {
            self.inds.push(inds[k] + offset);
            k = k + 1;
        }
    }
}

/// The glyphs of a text are exactly its printable ASCII characters: every
/// glyph drawn for the first `k` characters is for a character from `!` to
/// `~`, in its row-by-row cell of the 16-wide atlas, in order of position;
/// every such character gets one; no other character (any code above 0x7e
/// among them) gets one.
pub proof fn lemma_glyphs_are_printable_ascii(cs: Seq<char>, k: int)
    requires
        0 <= k <= cs.len(),
        cs.len() <= usize::MAX,
    ensures
        forall|q: int|
            0 <= q < glyphs_upto(cs, k).len() ==> {
                let (i, cell) = #[trigger] glyphs_upto(cs, k)[q];
                let u = cs[i as int] as u32;
                &&& 0 <= i < k
                &&& 0x21 <= u <= 0x7e
                &&& cell.x == (u - 0x20) % 16
                &&& cell.y == (u - 0x20) / 16
            },
        forall|q1: int, q2: int|
            0 <= q1 < q2 < glyphs_upto(cs, k).len() ==> #[trigger] glyphs_upto(cs, k)[q1].0
                < #[trigger] glyphs_upto(cs, k)[q2].0,
        forall|i: int|
            0 <= i < k && 0x21 <= (#[trigger] cs[i] as u32) <= 0x7e ==> exists|q: int|
                0 <= q < glyphs_upto(cs, k).len() && #[trigger] glyphs_upto(cs, k)[q].0 == i,
    decreases k,
{
    if k > 0 {
        lemma_glyphs_are_printable_ascii(cs, k - 1);
        let prev = glyphs_upto(cs, k - 1);
        match glyph_cell(cs[k - 1]) {
            Some(cell) => {
                let cur = prev.push(((k - 1) as usize, cell));
                assert(glyphs_upto(cs, k) == cur);
                assert forall|q: int| 0 <= q < prev.len() implies #[trigger] cur[q] == prev[q] by {}
                assert(cur[prev.len() as int] == ((k - 1) as usize, cell));
                assert forall|i: int|
                    0 <= i < k && 0x21 <= (#[trigger] cs[i] as u32) <= 0x7e implies exists|q: int|
                        0 <= q < cur.len() && #[trigger] cur[q].0 == i by {
                    if i < k - 1 {
                        let q = choose|q: int| 0 <= q < prev.len() && #[trigger] prev[q].0 == i;
                        assert(cur[q].0 == i);
                    } else {
                        assert(cur[prev.len() as int].0 == i);
                    }
                }
            },
            None => {
                assert(glyphs_upto(cs, k) == prev);
            },
        }
    }
}

} // verus!
