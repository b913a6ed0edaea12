//! Deterministic shelf packing of glyph rectangles into a texture atlas.
//!
//! Glyphs are laid out left to right on shelves; a glyph that does not fit
//! the current shelf starts a new one below it. The packer returns the tight
//! bounding size of the layout, and fails only when a single glyph exceeds a
//! hard maximum dimension or the accumulated layout would exceed the hard
//! atlas ceiling.

use vstd::prelude::*;

verus! {

/// Hard ceiling on a single glyph's padded width or height.
pub const MAX_GLYPH_DIM: u32 = 32768;

/// Hard ceiling on the atlas height the packer will lay out.
pub const MAX_ATLAS_DIM: u32 = 0x4000_0000;

/// Width at which a shelf is wrapped; a single glyph wider than this gets a
/// shelf of its own.
pub const SHELF_WIDTH: u32 = 1024;

/// One rectangle to place: the character it belongs to and its padded size.
pub struct GlyphInfo {
    pub id: char,
    pub width: u32,
    pub height: u32,
}

/// A chosen placement: the glyph's id, the top-left corner of its cell in
/// the atlas, and the cell's size.
pub struct GlyphPlacement {
    pub id: char,
    pub x: u32,
    pub y: u32,
    pub width: u32,
    pub height: u32,
}

/// Two placements are disjoint when their cells share no unit square.
pub open spec fn spec_disjoint(a: GlyphPlacement, b: GlyphPlacement) -> bool {
    ||| a.x + a.width <= b.x
    ||| b.x + b.width <= a.x
    ||| a.y + a.height <= b.y
    ||| b.y + b.height <= a.y
}

/// A computed atlas layout: one placement per input glyph, in input order,
/// and the tight bounding size.
pub struct GlyphPacking {
    pub placements: Vec<GlyphPlacement>,
    pub width: u32,
    pub height: u32,
}

/// First placement carrying `id`, if any.
pub open spec fn spec_find_placement(s: Seq<GlyphPlacement>, id: char) -> Option<GlyphPlacement>
    decreases s.len(),
{
    if s.len() == 0 {
        None
    } else if s[0].id == id {
        Some(s[0])
    } else {
        spec_find_placement(s.drop_first(), id)
    }
}

impl GlyphPacking {
    /// Every placement lies inside the reported bounds, and no two overlap.
    pub open spec fn wf(&self) -> bool {
        &&& forall|i: int|
            0 <= i < self.placements@.len() ==> (#[trigger] self.placements@[i]).x
                + self.placements@[i].width <= self.width
        &&& forall|i: int|
            0 <= i < self.placements@.len() ==> (#[trigger] self.placements@[i]).y
                + self.placements@[i].height <= self.height
        &&& forall|i: int, j: int|
            0 <= i < j < self.placements@.len() ==> spec_disjoint(
                self.placements@[i],
                self.placements@[j],
            )
    }

    /// The tight bounding width of the layout.
    pub fn width(&self) -> (r: u32)
        ensures
            r == self.width,
    {
        self.width
    }

    /// The tight bounding height of the layout.
    pub fn height(&self) -> (r: u32)
        ensures
            r == self.height,
    {
        self.height
    }

    /// Top-left corner of the cell placed for `id`, if `id` was packed.
    pub fn get_glyph_pos(&self, id: char) -> (r: Option<(u32, u32)>)
        ensures
            match r {
                Some(p) => {
                    &&& spec_find_placement(self.placements@, id) is Some
                    &&& p.0 == spec_find_placement(self.placements@, id)->0.x
                    &&& p.1 == spec_find_placement(self.placements@, id)->0.y
                },
                None => spec_find_placement(self.placements@, id) is None,
            },
    {
        let mut i: usize = 0;
        assert(self.placements@.skip(0) =~= self.placements@);
        while i < self.placements.len()
            invariant
                0 <= i <= self.placements@.len(),
                spec_find_placement(self.placements@.skip(i as int), id) == spec_find_placement(
                    self.placements@,
                    id,
                ),
            decreases self.placements@.len() - i,
        {
            assert(self.placements@.skip(i as int)[0] == self.placements@[i as int]);
            assert(self.placements@.skip(i as int).drop_first() =~= self.placements@.skip(i + 1));
            if self.placements[i].id == id {
                return Some((self.placements[i].x, self.placements[i].y));
            }
            i = i + 1;
        }
        assert(self.placements@.skip(i as int) =~= Seq::<GlyphPlacement>::empty());
        None
    }
}

/// Pack the given padded glyph rectangles. On success, every glyph gets a
/// placement (same index, id and size as its input), all placements lie
/// within the reported tight bounds, and no two placements overlap. Packing
/// is owed to succeed whenever every glyph fits the per-glyph ceiling and at
/// most 32768 glyphs are given; it fails only on an oversized glyph or when
/// the accumulated layout would exceed the atlas ceiling.
#[verifier::loop_isolation(false)]
pub fn do_font_packing(glyphs: &Vec<GlyphInfo>) -> (r: Option<GlyphPacking>)
    ensures
        match r {
            Some(p) => {
                &&& p.wf()
                &&& p.placements@.len() == glyphs@.len()
                &&& forall|i: int|
                    0 <= i < glyphs@.len() ==> {
                        &&& (#[trigger] p.placements@[i]).id == glyphs@[i].id
                        &&& p.placements@[i].width == glyphs@[i].width
                        &&& p.placements@[i].height == glyphs@[i].height
                    }
            },
            None => !((forall|i: int|
                0 <= i < glyphs@.len() ==> (#[trigger] glyphs@[i]).width <= MAX_GLYPH_DIM
                    && glyphs@[i].height <= MAX_GLYPH_DIM) && glyphs@.len() <= 32768),
        },
        r is Some ==> r->0.width <= MAX_GLYPH_DIM && r->0.height <= MAX_ATLAS_DIM,
        ((forall|i: int|
            0 <= i < glyphs@.len() ==> (#[trigger] glyphs@[i]).width <= SHELF_WIDTH
                && glyphs@[i].height <= SHELF_WIDTH) && glyphs@.len() <= 32768) ==> r is Some
            && r->0.width <= SHELF_WIDTH && r->0.height <= SHELF_WIDTH * glyphs@.len(),
{
    let n = glyphs.len();
    let mut placements: Vec<GlyphPlacement> = Vec::new();
    let mut x: u32 = 0;
    let mut y: u32 = 0;
    let mut shelf_h: u32 = 0;
    let mut atlas_w: u32 = 0;
    let mut i: usize = 0;
    while i < n
        invariant
            0 <= i <= n,
            n == glyphs@.len(),
            placements@.len() == i,
            x <= MAX_GLYPH_DIM,
            shelf_h <= MAX_GLYPH_DIM,
            x <= atlas_w,
            atlas_w <= MAX_GLYPH_DIM,
            y + shelf_h <= MAX_ATLAS_DIM,
            forall|j: int|
                0 <= j < i ==> {
                    &&& (#[trigger] placements@[j]).id == glyphs@[j].id
                    &&& placements@[j].width == glyphs@[j].width
                    &&& placements@[j].height == glyphs@[j].height
                },
            forall|j: int|
                0 <= j < i ==> (#[trigger] placements@[j]).x + placements@[j].width <= atlas_w,
            forall|j: int|
                0 <= j < i ==> (#[trigger] placements@[j]).y + placements@[j].height <= y
                    + shelf_h,
            forall|j: int|
                0 <= j < i ==> ((#[trigger] placements@[j]).y + placements@[j].height <= y || (
                placements@[j].y >= y && placements@[j].x + placements@[j].width <= x)),
            forall|j: int, k: int|
                0 <= j < k < i ==> spec_disjoint(placements@[j], placements@[k]),
            (forall|j: int|
                0 <= j < n ==> (#[trigger] glyphs@[j]).width <= MAX_GLYPH_DIM
                    && glyphs@[j].height <= MAX_GLYPH_DIM) && n <= 32768 ==> y + shelf_h <= 0x8000
                * (i as int),
            (forall|j: int|
                0 <= j < n ==> (#[trigger] glyphs@[j]).width <= SHELF_WIDTH
                    && glyphs@[j].height <= SHELF_WIDTH) && n <= 32768 ==> x <= SHELF_WIDTH
                && atlas_w <= SHELF_WIDTH && shelf_h <= SHELF_WIDTH && y + shelf_h <= SHELF_WIDTH
                * (i as int),
        decreases n - i,
    {
        let g_width = glyphs[i].width;
        let g_height = glyphs[i].height;
        if g_width > MAX_GLYPH_DIM || g_height > MAX_GLYPH_DIM {
            return None;
        }
        // wrap to a new shelf when the glyph does not fit this one
        let wrap = x + g_width > SHELF_WIDTH && x > 0;
        let x0: u32 = if wrap {
            0
        } else {
            x
        };
        let y0: u32 = if wrap {
            y + shelf_h
        } else {
            y
        };
        let sh0: u32 = if wrap {
            0
        } else {
            shelf_h
        };
        if y0 > MAX_ATLAS_DIM - g_height {
            proof {
                if (forall|j: int|
                    0 <= j < n ==> (#[trigger] glyphs@[j]).width <= MAX_GLYPH_DIM
                        && glyphs@[j].height <= MAX_GLYPH_DIM) && n <= 32768 {
                    assert(y0 + g_height <= y + shelf_h + g_height);
                    assert(0x8000 * (i as int) + 0x8000 <= 0x8000 * 32768) by (nonlinear_arith)
                        requires
                            0 <= i < n <= 32768,
                    ;
                }
            }
            return None;
        }
        let p = GlyphPlacement { id: glyphs[i].id, x: x0, y: y0, width: g_width, height: g_height };
        proof {
            assert forall|j: int| 0 <= j < i implies spec_disjoint(placements@[j], p) by {
                let q = placements@[j];
                if q.y + q.height <= y {
                } else {
                    if wrap {
                        assert(q.y + q.height <= y + shelf_h);
                    } else {
                        assert(q.x + q.width <= x);
                    }
                }
            }
        }
        placements.push(p);
        x = x0 + g_width;
        y = y0;
        shelf_h = if sh0 > g_height {
            sh0
        } else {
            g_height
        };
        if x > atlas_w {
            atlas_w = x;
        }
        proof {
            if (forall|j: int|
                0 <= j < n ==> (#[trigger] glyphs@[j]).width <= MAX_GLYPH_DIM
                    && glyphs@[j].height <= MAX_GLYPH_DIM) && n <= 32768 {
                assert(0x8000 * ((i + 1) as int) == 0x8000 * (i as int) + 0x8000)
                    by (nonlinear_arith);
            }
            if (forall|j: int|
                0 <= j < n ==> (#[trigger] glyphs@[j]).width <= SHELF_WIDTH
                    && glyphs@[j].height <= SHELF_WIDTH) && n <= 32768 {
                assert((SHELF_WIDTH as int) * ((i + 1) as int) == (SHELF_WIDTH as int) * (
                i as int) + (SHELF_WIDTH as int)) by (nonlinear_arith);
            }
        }
        i = i + 1;
    }
    Some(GlyphPacking { placements, width: atlas_w, height: y + shelf_h })
}

} // verus!
