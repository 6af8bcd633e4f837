use vstd::prelude::*;

verus! {

/// The two fonts' glyph sets: the interface font draws a narrower space.
#[derive(Copy, Clone, Debug, PartialEq, Eq, Structural)]
pub enum GlyphSet {
    Gui,
    World,
}

/// The width in pixels of the glyph for byte `b` in the 16 by 16 font atlas.
pub open spec fn glyph_width(set: GlyphSet, b: u8) -> u32 {
    if b <= 31 || (127 <= b && b <= 159) || b == 173 {
        0
    } else if b == 32 {
        if set == GlyphSet::Gui {
            4
        } else {
            5
        }
    } else if b == 33 || b == 39 || b == 44 || b == 46 || b == 58 || b == 59 || b == 105 || b == 124 || b == 161
        || b == 166 {
        1
    } else if b == 108 || b == 180 {
        2
    } else if b == 34 || b == 40 || b == 41 || b == 73 || b == 91 || b == 93 || b == 96 || b == 106 || b == 123 || b
        == 125 || b == 170 || (177 <= b && b <= 179) || b == 183 || b == 185 || b == 186 || (204 <= b && b <= 207)
        || (236 <= b && b <= 239) {
        3
    } else if b == 76 || b == 102 || b == 116 || b == 176 {
        4
    } else {
        5
    }
}

/// The width of a glyph.
pub fn glyph_width_of(set: GlyphSet, b: u8) -> (r: u32)
    ensures
        r == glyph_width(set, b),
{
    if b <= 31 || (127 <= b && b <= 159) || b == 173 {
        0
    } else if b == 32 {
        match set {
            GlyphSet::Gui => 4,
            GlyphSet::World => 5,
        }
    } else if b == 33 || b == 39 || b == 44 || b == 46 || b == 58 || b == 59 || b == 105 || b == 124 || b == 161
        || b == 166 {
        1
    } else if b == 108 || b == 180 {
        2
    } else if b == 34 || b == 40 || b == 41 || b == 73 || b == 91 || b == 93 || b == 96 || b == 106 || b == 123 || b
        == 125 || b == 170 || (177 <= b && b <= 179) || b == 183 || b == 185 || b == 186 || (204 <= b && b <= 207)
        || (236 <= b && b <= 239) {
        3
    } else if b == 76 || b == 102 || b == 116 || b == 176 {
        4
    } else {
        5
    }
}

/// How far the glyphs of `text` reach, each followed by one pixel of space.
pub open spec fn text_advance(set: GlyphSet, text: Seq<u8>) -> nat
    decreases text.len(),
{
    if text.len() == 0 {
        0
    } else {
        text_advance(set, text.drop_last()) + glyph_width(set, text.last()) as nat + 1
    }
}

/// Where a glyph is drawn: its left edge in pixels from the left edge of
/// the text's background, and the top left corner of its 8 by 8 cell in the
/// font atlas.
#[derive(Copy, Clone, Debug, PartialEq, Eq, Structural)]
pub struct GlyphPlacement {
    pub x: u64,
    pub atlas_x: u32,
    pub atlas_y: u32,
}

/// A line of text laid out in pixels: the width of its background (one
/// pixel of margin on each side of the glyphs, which start two pixels in) and
/// where each byte's glyph goes.
pub struct TextLayout {
    pub width: u64,
    pub glyphs: Vec<GlyphPlacement>,
}

pub open spec fn glyph_placement(set: GlyphSet, text: Seq<u8>, k: int) -> GlyphPlacement {
    GlyphPlacement {
        x: (2 + text_advance(set, text.take(k))) as u64,
        atlas_x: (text[k] % 16 * 8) as u32,
        atlas_y: (text[k] / 16 * 8) as u32,
    }
}

proof fn lemma_advance_bound(set: GlyphSet, text: Seq<u8>)
    ensures
        text_advance(set, text) <= 6 * text.len(),
    decreases text.len(),
{
    if text.len() > 0 {
        lemma_advance_bound(set, text.drop_last());
    }
}

/// Lays out a line of text in the glyph set's font.
pub fn layout_text(set: GlyphSet, text: &[u8]) -> (r: TextLayout)
    requires
        text@.len() <= u32::MAX,
    ensures
        r.width == 3 + text_advance(set, text@),
        r.glyphs@.len() == text@.len(),
        forall|k: int| 0 <= k < text@.len() ==> #[trigger] r.glyphs@[k] == glyph_placement(set, text@, k),
{
    let mut glyphs: Vec<GlyphPlacement> = Vec::new();
    let mut advance: u64 = 0;
    let mut k: usize = 0;
    while k < text.len()
        invariant
            k <= text@.len() <= u32::MAX,
            advance == text_advance(set, text@.take(k as int)),
            glyphs@.len() == k,
            forall|t: int| 0 <= t < k ==> #[trigger] glyphs@[t] == glyph_placement(set, text@, t),
        decreases text@.len() - k,
    {
        let b = text[k];
        proof {
            lemma_advance_bound(set, text@.take(k as int));
            assert(text@.take(k + 1).drop_last() =~= text@.take(k as int));
        }
        glyphs.push(GlyphPlacement { x: 2 + advance, atlas_x: (b % 16) as u32 * 8, atlas_y: (b / 16) as u32 * 8 });
        advance = advance + glyph_width_of(set, b) as u64 + 1;
        k = k + 1;
    }
    proof {
        assert(text@.take(k as int) =~= text@);
        lemma_advance_bound(set, text@);
    }
    TextLayout { width: 3 + advance, glyphs }
}

/// The two triangles of quad `q` of a vertex list laid out four vertices to
/// a quad: corners `4q` to `4q + 3`, split along `4q + 2`-`4q`.
pub open spec fn quad_face(i: int) -> (u32, u32, u32) {
    let q = i / 2;
    if i % 2 == 0 {
        ((4 * q) as u32, (4 * q + 1) as u32, (4 * q + 2) as u32)
    } else {
        ((4 * q + 2) as u32, (4 * q + 3) as u32, (4 * q) as u32)
    }
}

/// The triangles of `quads` quads, two to a quad.
pub fn quad_faces(quads: usize) -> (r: Vec<(u32, u32, u32)>)
    requires
        quads <= u32::MAX / 4,
    ensures
        r@.len() == 2 * quads,
        forall|i: int| 0 <= i < r@.len() ==> #[trigger] r@[i] == quad_face(i),
{
    let mut faces: Vec<(u32, u32, u32)> = Vec::new();
    let mut q: usize = 0;
    while q < quads
        invariant
            q <= quads <= u32::MAX / 4,
            faces@.len() == 2 * q,
            forall|i: int| 0 <= i < faces@.len() ==> #[trigger] faces@[i] == quad_face(i),
        decreases quads - q,
    {
        let index = (4 * q) as u32;
        faces.push((index, index + 1, index + 2));
        faces.push((index + 2, index + 3, index));
        proof {
            assert(quad_face(2 * q) == ((4 * q) as u32, (4 * q + 1) as u32, (4 * q + 2) as u32));
            assert(quad_face(2 * q + 1) == ((4 * q + 2) as u32, (4 * q + 3) as u32, (4 * q) as u32));
        }
        q = q + 1;
    }
    faces
}

} // verus!
