//! Font metrics tables and width-constrained word wrapping.
//!
//! All horizontal measures are integer "width units" fixed by whoever built
//! the table (for example 1/64 of a pixel); the wrapping rules only ever add
//! and compare them.

use vstd::prelude::*;

pub mod packing;

use crate::util::{
    spec_is_whitespace, spec_first_token, spec_run_len, lemma_run_len_bounds, is_whitespace,
    chars_from_str, string_from_chars,
};

verus! {

/// Hard ceiling on glyph instances submitted to the renderer in one frame;
/// exceeding it is a configuration error on the caller's side.
pub const MAX_GLYPHS_PER_FRAME: u32 = 8192;

/// Everything the layout engine knows about one character's glyph.
#[derive(Clone, Copy, PartialEq, Eq, Structural, Debug)]
pub struct GlyphMetrics {
    /// Top-left corner of the glyph's cell in the atlas, in pixels.
    pub glyph_pos_x: u32,
    pub glyph_pos_y: u32,
    /// Size of the glyph's box, matching the bitmap it was built from.
    pub glyph_width: u16,
    pub glyph_height: u16,
    /// Horizontal distance to the next character's origin, in width units.
    pub advance: u16,
    /// Left-side bearing: offset from the origin to the ink's left edge.
    pub lsb: i16,
    /// Top-side bearing: offset from the baseline to the ink's top edge.
    pub tsb: i32,
}

/// Immutable table mapping characters to glyph metrics, plus font-wide
/// constants. Built once per font and size, then shared read-only.
#[derive(Clone)]
pub struct FontMetricsInfo {
    /// Character-to-metrics entries; keys are unique.
    pub char_data: Vec<(char, GlyphMetrics)>,
    /// Pixel size the font was rasterized at.
    pub font_size: u32,
    /// Vertical distance between consecutive lines, in width units.
    pub height: u32,
    /// Character drawn in place of one that has no entry, if configured.
    pub not_found_char: Option<char>,
    /// Characters that are valid in text but render as nothing.
    pub ignore_chars: Vec<char>,
}

/// Key lookup in an association list, first match.
pub open spec fn spec_assoc_find(s: Seq<(char, GlyphMetrics)>, c: char) -> Option<GlyphMetrics>
    decreases s.len(),
{
    if s.len() == 0 {
        None
    } else if s[0].0 == c {
        Some(s[0].1)
    } else {
        spec_assoc_find(s.drop_first(), c)
    }
}

impl FontMetricsInfo {
    /// Keys of the character table are unique.
    pub open spec fn wf(&self) -> bool {
        forall|i: int, j: int|
            0 <= i < j < self.char_data@.len() ==> self.char_data@[i].0 != self.char_data@[j].0
    }

    /// Whether `c` is in the ignore set.
    pub open spec fn spec_is_ignored(&self, c: char) -> bool {
        self.ignore_chars@.contains(c)
    }

    /// The metrics used to render `c`: none for ignored characters, else the
    /// direct entry, else the fallback character's entry, else none.
    pub open spec fn spec_get_metrics(&self, c: char) -> Option<GlyphMetrics> {
        if self.spec_is_ignored(c) {
            None
        } else if spec_assoc_find(self.char_data@, c) is Some {
            spec_assoc_find(self.char_data@, c)
        } else {
            match self.not_found_char {
                Some(f) => spec_assoc_find(self.char_data@, f),
                None => None,
            }
        }
    }

    /// A character is valid for input filtering when it is not ignored and
    /// has a direct entry; the fallback does not make a character valid.
    pub open spec fn spec_is_char_valid(&self, c: char) -> bool {
        !self.spec_is_ignored(c) && spec_assoc_find(self.char_data@, c) is Some
    }

    /// Vertical distance between consecutive lines, in width units.
    pub fn line_height(&self) -> (r: u32)
        ensures
            r == self.height,
    {
        self.height
    }

    /// Pixel size the font was rasterized at.
    pub fn font_size(&self) -> (r: u32)
        ensures
            r == self.font_size,
    {
        self.font_size
    }

    /// True when `c` is in the ignore set.
    fn is_ignored(&self, c: char) -> (r: bool)
        ensures
            r == self.spec_is_ignored(c),
    {
        let mut i: usize = 0;
        while i < self.ignore_chars.len()
            invariant
                0 <= i <= self.ignore_chars@.len(),
                forall|k: int| 0 <= k < i ==> self.ignore_chars@[k] != c,
            decreases self.ignore_chars@.len() - i,
        {
            if self.ignore_chars[i] == c {
                return true;
            }
            i = i + 1;
        }
        false
    }

    /// First entry for `c` in the character table.
    fn find_entry(&self, c: char) -> (r: Option<&GlyphMetrics>)
        ensures
            match r {
                Some(m) => spec_assoc_find(self.char_data@, c) == Some(*m),
                None => spec_assoc_find(self.char_data@, c) is None,
            },
    {
        let mut i: usize = 0;
        assert(self.char_data@.skip(0) =~= self.char_data@);
        while i < self.char_data.len()
            invariant
                0 <= i <= self.char_data@.len(),
                spec_assoc_find(self.char_data@.skip(i as int), c) == spec_assoc_find(
                    self.char_data@,
                    c,
                ),
            decreases self.char_data@.len() - i,
        {
            assert(self.char_data@.skip(i as int)[0] == self.char_data@[i as int]);
            assert(self.char_data@.skip(i as int).drop_first() =~= self.char_data@.skip(i + 1));
            if self.char_data[i].0 == c {
                return Some(&self.char_data[i].1);
            }
            i = i + 1;
        }
        assert(self.char_data@.skip(i as int) =~= Seq::<(char, GlyphMetrics)>::empty());
        None
    }

    /// The metrics used to render `c`, honouring the ignore set and the
    /// fallback character.
    pub fn get_metrics(&self, c: &char) -> (r: Option<&GlyphMetrics>)
        ensures
            match r {
                Some(m) => self.spec_get_metrics(*c) == Some(*m),
                None => self.spec_get_metrics(*c) is None,
            },
    {
        if self.is_ignored(*c) {
            return None;
        }
        match self.find_entry(*c) {
            Some(m) => Some(m),
            None => match self.not_found_char {
                Some(f) => self.find_entry(f),
                None => None,
            },
        }
    }

    /// True when `c` may be typed: not ignored and directly in the table.
    pub fn is_char_valid(&self, c: &char) -> (r: bool)
        ensures
            r == self.spec_is_char_valid(*c),
    {
        if self.is_ignored(*c) {
            return false;
        }
        match self.find_entry(*c) {
            Some(_) => true,
            None => false,
        }
    }
}

/// One rasterized glyph: its character, bitmap size, single-channel coverage
/// buffer in row-major order, and horizontal metrics in width units.
pub struct GlyphBitmap {
    pub char_code: char,
    pub width: u32,
    pub height: u32,
    pub buffer: Vec<u8>,
    pub advance: u16,
    pub lsb: i16,
    pub tsb: i32,
}

impl GlyphBitmap {
    /// The buffer holds exactly one byte per pixel.
    pub open spec fn wf(&self) -> bool {
        self.buffer@.len() == self.width * self.height
    }
}

/// Whether atlas cell `p` of an atlas `w` units wide lies inside the
/// rectangle at `(px, py)` of size `gw` by `gh`.
pub open spec fn spec_in_rect(p: int, w: int, px: int, py: int, gw: int, gh: int) -> bool {
    &&& px <= p % w < px + gw
    &&& py <= p / w < py + gh
}

/// Copy one glyph's pixels into the atlas image at its placement; every cell
/// outside the glyph's rectangle is untouched.
#[verifier::loop_isolation(false)]
fn blit_glyph(image: &mut Vec<u8>, buffer: &Vec<u8>, gw: u32, gh: u32, px: u32, py: u32, w: usize)
    requires
        w >= 1,
        px + gw <= w,
        (py + gh) * (w as int) <= old(image)@.len(),
        buffer@.len() == gw * gh,
        old(image)@.len() <= usize::MAX,
    ensures
        final(image)@.len() == old(image)@.len(),
        forall|yy: int, xx: int|
            0 <= yy < gh && 0 <= xx < gw ==> final(image)@[(py + yy) * (w as int) + px + xx]
                == #[trigger] buffer@[yy * (gw as int) + xx],
        forall|p: int|
            0 <= p < old(image)@.len() && !spec_in_rect(
                p,
                w as int,
                px as int,
                py as int,
                gw as int,
                gh as int,
            ) ==> final(image)@[p] == old(image)@[p],
{
    broadcast use vstd::arithmetic::mul::lemma_mul_inequality;

    let blen: usize = buffer.len();
    let ghost w_i = w as int;
    proof {
        assert(buffer@.len() <= usize::MAX);
        assert((py as int) + (gh as int) <= ((py as int) + (gh as int)) * w_i)
            by (nonlinear_arith)
            requires
                w_i >= 1,
                (py as int) + (gh as int) >= 0,
        ;
    }
    let mut yy: usize = 0;
    while yy < (gh as usize)
        invariant
            0 <= yy <= gh,
            image@.len() == old(image)@.len(),
            forall|y2: int, x2: int|
                0 <= y2 < yy && 0 <= x2 < gw ==> image@[(py + y2) * w_i + px + x2]
                    == #[trigger] buffer@[y2 * (gw as int) + x2],
            forall|p: int|
                0 <= p < old(image)@.len() && !(spec_in_rect(
                    p,
                    w_i,
                    px as int,
                    py as int,
                    gw as int,
                    yy as int,
                )) ==> image@[p] == old(image)@[p],
        decreases gh - yy,
    {
        let row = py as usize + yy;
        let mut xx: usize = 0;
        while xx < (gw as usize)
            invariant
                0 <= yy < gh,
                0 <= xx <= gw,
                row == py + yy,
                image@.len() == old(image)@.len(),
                forall|y2: int, x2: int|
                    0 <= y2 < yy && 0 <= x2 < gw ==> image@[(py + y2) * w_i + px + x2]
                        == #[trigger] buffer@[y2 * (gw as int) + x2],
                forall|x2: int|
                    0 <= x2 < xx ==> image@[(py + yy) * w_i + px + x2] == #[trigger] buffer@[(
                    yy as int) * (gw as int) + x2],
                forall|p: int|
                    0 <= p < old(image)@.len() && !(spec_in_rect(
                        p,
                        w_i,
                        px as int,
                        py as int,
                        gw as int,
                        yy as int,
                    )) && !((py + yy) * w_i + px <= p < (py + yy) * w_i + px + xx) ==> image@[p]
                        == old(image)@[p],
            decreases gw - xx,
        {
            proof {
                assert((py + yy) * w_i + px + xx < (py + yy) * w_i + w_i);
                assert((py + yy) * w_i + w_i == (py + yy + 1) * w_i) by (nonlinear_arith);
                assert((py + yy + 1) * w_i <= (py + gh) * w_i) by (nonlinear_arith)
                    requires
                        py + yy + 1 <= py + gh,
                        w_i >= 1,
                ;
                assert((py + yy) * w_i >= 0) by (nonlinear_arith)
                    requires
                        py + yy >= 0,
                        w_i >= 1,
                ;
                assert((yy as int) * (gw as int) + xx < (yy as int + 1) * (gw as int))
                    by (nonlinear_arith)
                    requires
                        0 <= xx < (gw as int),
                ;
                assert((yy as int + 1) * (gw as int) <= (gh as int) * (gw as int))
                    by (nonlinear_arith)
                    requires
                        yy as int + 1 <= gh as int,
                        gw as int >= 0,
                ;
                assert((gh as int) * (gw as int) == (gw as int) * (gh as int)) by (nonlinear_arith);
                assert((yy as int) * (gw as int) >= 0) by (nonlinear_arith)
                    requires
                        yy as int >= 0,
                        gw as int >= 0,
                ;
            }
            proof {
                assert((yy as int) * (gw as int) + (xx as int) < (gw as int) * (gh as int));
                assert((yy as int) * (gw as int) >= 0);
                assert((yy as int) * (gw as int) + (xx as int) < buffer@.len() + 1);
            }
            let dst: usize = row * w + (px as usize) + xx;
            let src: usize = yy * (gw as usize) + xx;
            let b = buffer[src];
            image.set(dst, b);
            proof {
                vstd::arithmetic::div_mod::lemma_fundamental_div_mod_converse(
                    dst as int,
                    w_i,
                    (py + yy) as int,
                    (px + xx) as int,
                );
                assert forall|y2: int, x2: int|
                    0 <= y2 < yy && 0 <= x2 < gw implies #[trigger] ((py + y2) * w_i + px + x2)
                    < (py + yy as int) * w_i by {
                    assert((py + y2 + 1) * w_i <= (py + yy as int) * w_i) by (nonlinear_arith)
                        requires
                            py + y2 + 1 <= py + yy as int,
                            w_i >= 1,
                    ;
                    assert((py + y2 + 1) * w_i == (py + y2) * w_i + w_i) by (nonlinear_arith);
                }
            }
            xx = xx + 1;
        }
        proof {
            assert forall|p: int|
                0 <= p < old(image)@.len() && !(spec_in_rect(
                    p,
                    w_i,
                    px as int,
                    py as int,
                    gw as int,
                    yy as int + 1,
                )) implies image@[p] == old(image)@[p] by {
                if (py + yy) * w_i + px <= p < (py + yy) * w_i + px + gw {
                    vstd::arithmetic::div_mod::lemma_fundamental_div_mod_converse(
                        p,
                        w_i,
                        (py + yy) as int,
                        p - (py + yy) * w_i,
                    );
                    assert(spec_in_rect(p, w_i, px as int, py as int, gw as int, yy as int + 1));
                } else {
                    assert(!(spec_in_rect(p, w_i, px as int, py as int, gw as int, yy as int)));
                }
            }
        }
        yy = yy + 1;
    }
}

/// All of one glyph's pixels stand in `img` at its placement.
pub open spec fn spec_blitted(
    img: Seq<u8>,
    w: int,
    pl: packing::GlyphPlacement,
    g: GlyphBitmap,
) -> bool {
    forall|yy: int, xx: int|
        0 <= yy < g.height && 0 <= xx < g.width ==> img[(pl.y + yy) * w + pl.x + xx]
            == #[trigger] g.buffer@[yy * (g.width as int) + xx]
}

/// Whether atlas cell `p` lies inside the pixel rectangle that glyph `g`
/// occupies at placement `pl`.
pub open spec fn spec_covered_by(
    p: int,
    w: int,
    pl: packing::GlyphPlacement,
    g: GlyphBitmap,
) -> bool {
    spec_in_rect(p, w, pl.x as int, pl.y as int, g.width as int, g.height as int)
}

/// Bake the packed atlas image: every glyph's pixels stand at its placement,
/// and every cell outside all glyph rectangles is zero. The placements must
/// come from a packing of cells at least as large as the glyphs (they carry
/// one unit of padding in ordinary use).
#[verifier::loop_isolation(false)]
pub fn apply_packing(glyphs: &Vec<GlyphBitmap>, packing: &packing::GlyphPacking) -> (r: Vec<u8>)
    requires
        packing.wf(),
        packing.placements@.len() == glyphs@.len(),
        forall|i: int| 0 <= i < glyphs@.len() ==> (#[trigger] glyphs@[i]).wf(),
        forall|i: int|
            0 <= i < glyphs@.len() ==> (#[trigger] glyphs@[i]).width
                <= packing.placements@[i].width && glyphs@[i].height
                <= packing.placements@[i].height,
        packing.width * packing.height <= usize::MAX,
    ensures
        r@.len() == packing.width * packing.height,
        forall|i: int|
            0 <= i < glyphs@.len() ==> spec_blitted(
                r@,
                packing.width as int,
                #[trigger] packing.placements@[i],
                glyphs@[i],
            ),
        forall|p: int|
            0 <= p < r@.len() && (forall|i: int|
                0 <= i < glyphs@.len() ==> !spec_covered_by(
                    p,
                    packing.width as int,
                    #[trigger] packing.placements@[i],
                    glyphs@[i],
                )) ==> r@[p] == 0,
{
    broadcast use vstd::arithmetic::mul::lemma_mul_inequality;

    let ghost w_i = packing.width as int;
    let w_usize = packing.width as usize;
    let h_usize = packing.height as usize;
    let total = w_usize * h_usize;
    let mut image: Vec<u8> = Vec::new();
    image.resize(total, 0);
    let n = glyphs.len();
    let mut i: usize = 0;
    while i < n
        invariant
            0 <= i <= n,
            n == glyphs@.len(),
            image@.len() == packing.width * packing.height,
            forall|j: int|
                0 <= j < i ==> spec_blitted(
                    image@,
                    w_i,
                    #[trigger] packing.placements@[j],
                    glyphs@[j],
                ),
            forall|p: int|
                0 <= p < image@.len() && (forall|j: int|
                    0 <= j < i ==> !spec_covered_by(
                        p,
                        w_i,
                        #[trigger] packing.placements@[j],
                        glyphs@[j],
                    )) ==> image@[p] == 0,
        decreases n - i,
    {
        let gw = glyphs[i].width;
        let gh = glyphs[i].height;
        let px = packing.placements[i].x;
        let py = packing.placements[i].y;
        if gw > 0 && gh > 0 {
            let ghost pre = image@;
            proof {
                assert(px + packing.placements@[i as int].width <= packing.width);
                assert(w_usize >= 1);
                assert((py + gh) * w_i <= (packing.height as int) * w_i) by (nonlinear_arith)
                    requires
                        0 <= (py as int) + gh <= packing.height as int,
                        w_i >= 0,
                ;
                assert((packing.height as int) * w_i == (packing.width as int) * (
                packing.height as int)) by (nonlinear_arith)
                    requires
                        w_i == packing.width as int,
                ;
            }
            blit_glyph(&mut image, &glyphs[i].buffer, gw, gh, px, py, w_usize);
            proof {
                assert forall|j: int| 0 <= j < i implies spec_blitted(
                    image@,
                    w_i,
                    #[trigger] packing.placements@[j],
                    glyphs@[j],
                ) by {
                    let plj = packing.placements@[j];
                    let gj = glyphs@[j];
                    assert forall|yy: int, xx: int|
                        0 <= yy < gj.height && 0 <= xx < gj.width implies image@[(plj.y + yy) * w_i
                        + plj.x + xx] == #[trigger] gj.buffer@[yy * (gj.width as int) + xx] by {
                        let cell = (plj.y + yy) * w_i + plj.x + xx;
                        assert(plj.x + xx < w_i);
                        assert(cell >= 0) by (nonlinear_arith)
                            requires
                                plj.y + yy >= 0,
                                w_i >= 1,
                                plj.x + xx >= 0,
                                cell == (plj.y + yy) * w_i + plj.x + xx,
                        ;
                        assert(cell < image@.len()) by {
                            assert((plj.y + yy + 1) * w_i <= (packing.height as int) * w_i)
                                by (nonlinear_arith)
                                requires
                                    plj.y + yy + 1 <= packing.height as int,
                                    w_i >= 0,
                            ;
                            assert((plj.y + yy + 1) * w_i == (plj.y + yy) * w_i + w_i)
                                by (nonlinear_arith);
                            assert((packing.height as int) * w_i == (packing.width as int) * (
                            packing.height as int)) by (nonlinear_arith)
                                requires
                                    w_i == packing.width as int,
                            ;
                        }
                        vstd::arithmetic::div_mod::lemma_fundamental_div_mod_converse(
                            cell,
                            w_i,
                            plj.y + yy,
                            plj.x + xx,
                        );
                        assert(packing::spec_disjoint(
                            packing.placements@[j],
                            packing.placements@[i as int],
                        ));
                        assert(!spec_in_rect(cell, w_i, px as int, py as int, gw as int, gh as int));
                        assert(image@[cell] == pre[cell]);
                        assert(pre[cell] == gj.buffer@[yy * (gj.width as int) + xx]);
                    }
                }
                assert forall|p: int|
                    0 <= p < image@.len() && (forall|j: int|
                        0 <= j < i + 1 ==> !spec_covered_by(
                            p,
                            w_i,
                            #[trigger] packing.placements@[j],
                            glyphs@[j],
                        )) implies image@[p] == 0 by {
                    assert(!spec_covered_by(
                        p,
                        w_i,
                        packing.placements@[i as int],
                        glyphs@[i as int],
                    ));
                    assert(image@[p] == pre[p]);
                }
            }
        } else {
            proof {
                assert(spec_blitted(image@, w_i, packing.placements@[i as int], glyphs@[i as int]));
            }
        }
        i = i + 1;
    }
    image
}

/// A font ready for upload: the baked atlas image, its size, the metrics
/// table, and a display name.
pub struct FontInfo {
    pub image_buffer: Vec<u8>,
    pub image_width: u32,
    pub image_height: u32,
    pub info: FontMetricsInfo,
    pub name: String,
}

/// The index of the last glyph at or after `lo` whose character is `c`, or
/// a negative value when there is none. The last occurrence wins because a
/// character rasterized twice overwrites its earlier table entry.
pub open spec fn spec_last_idx_from(glyphs: Seq<GlyphBitmap>, lo: int, c: char) -> int
    decreases glyphs.len(),
{
    if glyphs.len() <= lo || glyphs.len() == 0 {
        -1
    } else if glyphs.last().char_code == c {
        glyphs.len() - 1
    } else {
        spec_last_idx_from(glyphs.drop_last(), lo, c)
    }
}

/// The table entry built for glyph `i`: its placement position in the atlas
/// and the glyph's own box and horizontal metrics.
pub open spec fn spec_metrics_of(
    glyphs: Seq<GlyphBitmap>,
    pls: Seq<packing::GlyphPlacement>,
    i: int,
) -> GlyphMetrics {
    GlyphMetrics {
        glyph_pos_x: pls[i].x,
        glyph_pos_y: pls[i].y,
        glyph_width: glyphs[i].width as u16,
        glyph_height: glyphs[i].height as u16,
        advance: glyphs[i].advance,
        lsb: glyphs[i].lsb,
        tsb: glyphs[i].tsb,
    }
}

/// A table entry agrees with a glyph: same box and metrics, and the atlas
/// holds the glyph's pixels at the entry's position.
pub open spec fn spec_entry_matches(img: Seq<u8>, w: int, m: GlyphMetrics, g: GlyphBitmap) -> bool {
    &&& m.glyph_width == g.width
    &&& m.glyph_height == g.height
    &&& m.advance == g.advance
    &&& m.lsb == g.lsb
    &&& m.tsb == g.tsb
    &&& forall|yy: int, xx: int|
        0 <= yy < g.height && 0 <= xx < g.width ==> img[(m.glyph_pos_y + yy) * w + m.glyph_pos_x
            + xx] == #[trigger] g.buffer@[yy * (g.width as int) + xx]
}

/// An association list misses `c` exactly when no entry carries it.
proof fn lemma_assoc_find_none(s: Seq<(char, GlyphMetrics)>, c: char)
    ensures
        (spec_assoc_find(s, c) is None) <==> (forall|j: int| 0 <= j < s.len() ==> (#[trigger] s[j]).0
            != c),
    decreases s.len(),
{
    if s.len() > 0 {
        lemma_assoc_find_none(s.drop_first(), c);
        assert forall|j: int| 1 <= j < s.len() implies s.drop_first()[j - 1] == #[trigger] s[j] by {}
    }
}

/// Appending an entry changes a lookup only for a key not found before.
proof fn lemma_assoc_push(s: Seq<(char, GlyphMetrics)>, e: (char, GlyphMetrics), c: char)
    ensures
        spec_assoc_find(s.push(e), c) == (if spec_assoc_find(s, c) is Some {
            spec_assoc_find(s, c)
        } else if e.0 == c {
            Some(e.1)
        } else {
            None
        }),
    decreases s.len(),
{
    let t = s.push(e);
    assert(spec_assoc_find(Seq::<(char, GlyphMetrics)>::empty(), c) is None);
    if s.len() == 0 {
        assert(t[0] == e);
        assert(t.drop_first() =~= Seq::<(char, GlyphMetrics)>::empty());
        assert(spec_assoc_find(t.drop_first(), c) is None);
    } else {
        assert(t[0] == s[0]);
        assert(t.drop_first() =~= s.drop_first().push(e));
        lemma_assoc_push(s.drop_first(), e, c);
    }
}

/// Unfolds the last-occurrence search by one position at the front.
proof fn lemma_last_idx_lower(glyphs: Seq<GlyphBitmap>, lo: int, c: char)
    requires
        1 <= lo <= glyphs.len(),
    ensures
        spec_last_idx_from(glyphs, lo - 1, c) == (if spec_last_idx_from(glyphs, lo, c) >= 0 {
            spec_last_idx_from(glyphs, lo, c)
        } else if glyphs[lo - 1].char_code == c {
            lo - 1
        } else {
            -1
        }),
    decreases glyphs.len(),
{
    if glyphs.len() == lo {
        if glyphs.last().char_code == c {
        } else {
            lemma_last_idx_none_high(glyphs.drop_last(), lo - 1, c);
        }
    } else {
        if glyphs.last().char_code == c {
        } else {
            lemma_last_idx_lower(glyphs.drop_last(), lo, c);
        }
    }
}

/// Searching from a bound at or past the end finds nothing.
proof fn lemma_last_idx_none_high(glyphs: Seq<GlyphBitmap>, lo: int, c: char)
    requires
        lo >= glyphs.len(),
    ensures
        spec_last_idx_from(glyphs, lo, c) == -1,
    decreases glyphs.len(),
{
}

/// Range and hit facts of the last-occurrence search.
proof fn lemma_last_idx_props(glyphs: Seq<GlyphBitmap>, lo: int, c: char)
    requires
        0 <= lo,
    ensures
        -1 <= spec_last_idx_from(glyphs, lo, c) < glyphs.len(),
        spec_last_idx_from(glyphs, lo, c) >= 0 ==> lo <= spec_last_idx_from(glyphs, lo, c)
            && glyphs[spec_last_idx_from(glyphs, lo, c)].char_code == c,
        spec_last_idx_from(glyphs, lo, c) < 0 ==> forall|j: int|
            lo <= j < glyphs.len() ==> (#[trigger] glyphs[j]).char_code != c,
    decreases glyphs.len(),
{
    if glyphs.len() <= lo || glyphs.len() == 0 {
    } else if glyphs.last().char_code == c {
    } else {
        lemma_last_idx_props(glyphs.drop_last(), lo, c);
        if spec_last_idx_from(glyphs, lo, c) < 0 {
            assert forall|j: int|
                lo <= j < glyphs.len() implies (#[trigger] glyphs[j]).char_code != c by {
                if j < glyphs.len() - 1 {
                    assert(glyphs.drop_last()[j] == glyphs[j]);
                }
            }
        }
    }
}

/// True when an entry for `c` is already in the table.
fn assoc_contains(v: &Vec<(char, GlyphMetrics)>, c: char) -> (r: bool)
    ensures
        r == (spec_assoc_find(v@, c) is Some),
{
    let mut i: usize = 0;
    assert(v@.skip(0) =~= v@);
    while i < v.len()
        invariant
            0 <= i <= v@.len(),
            spec_assoc_find(v@.skip(i as int), c) == spec_assoc_find(v@, c),
        decreases v@.len() - i,
    {
        assert(v@.skip(i as int)[0] == v@[i as int]);
        assert(v@.skip(i as int).drop_first() =~= v@.skip(i + 1));
        if v[i].0 == c {
            return true;
        }
        i = i + 1;
    }
    assert(v@.skip(i as int) =~= Seq::<(char, GlyphMetrics)>::empty());
    false
}

/// Build one font: pad each glyph by one unit, pack the padded cells, bake
/// the atlas image, and assemble the metrics table (a character rasterized
/// twice keeps its last glyph). Fails only when the glyph set cannot be
/// packed or the atlas would not fit in memory; with glyphs of ordinary size
/// (padded cells within one shelf, at most 2048 of them) it is owed to
/// succeed.
#[verifier::loop_isolation(false)]
pub fn build_font_info(
    glyphs: &Vec<GlyphBitmap>,
    font_size: u32,
    height: u32,
    not_found_char: Option<char>,
    name: String,
) -> (r: Result<FontInfo, String>)
    requires
        forall|i: int|
            0 <= i < glyphs@.len() ==> (#[trigger] glyphs@[i]).wf() && glyphs@[i].width <= 0xFFFE
                && glyphs@[i].height <= 0xFFFE,
    ensures
        match r {
            Ok(f) => {
                &&& f.info.wf()
                &&& f.info.font_size == font_size
                &&& f.info.height == height
                &&& f.info.not_found_char == not_found_char
                &&& f.info.ignore_chars@ == seq!['\r']
                &&& f.name@ == name@
                &&& f.image_buffer@.len() == f.image_width * f.image_height
                &&& forall|c: char|
                    {
                        let ix = spec_last_idx_from(glyphs@, 0, c);
                        if ix >= 0 {
                            &&& #[trigger] spec_assoc_find(f.info.char_data@, c) is Some
                            &&& spec_entry_matches(
                                f.image_buffer@,
                                f.image_width as int,
                                spec_assoc_find(f.info.char_data@, c)->0,
                                glyphs@[ix],
                            )
                        } else {
                            spec_assoc_find(f.info.char_data@, c) is None
                        }
                    }
            },
            Err(_) => !((forall|i: int|
                0 <= i < glyphs@.len() ==> (#[trigger] glyphs@[i]).width + 1
                    <= packing::SHELF_WIDTH && glyphs@[i].height + 1 <= packing::SHELF_WIDTH)
                && glyphs@.len() <= 2048),
        },
{
    let n = glyphs.len();
    let mut padded: Vec<packing::GlyphInfo> = Vec::new();
    let mut i: usize = 0;
    while i < n
        invariant
            0 <= i <= n,
            n == glyphs@.len(),
            padded@.len() == i,
            forall|j: int|
                0 <= j < i ==> {
                    &&& (#[trigger] padded@[j]).id == glyphs@[j].char_code
                    &&& padded@[j].width == glyphs@[j].width + 1
                    &&& padded@[j].height == glyphs@[j].height + 1
                },
        decreases n - i,
    {
        padded.push(
            packing::GlyphInfo {
                id: glyphs[i].char_code,
                width: glyphs[i].width + 1,
                height: glyphs[i].height + 1,
            },
        );
        i = i + 1;
    }
    let packed = match packing::do_font_packing(&padded) {
        Some(p) => p,
        None => {
            return Err(String::from_str("could not pack font glyphs"));
        },
    };
    let w = packed.width();
    let h = packed.height();
    proof {
        assert((w as int) * (h as int) <= 0x8000 * 0x4000_0000) by (nonlinear_arith)
            requires
                0 <= (w as int) <= 0x8000,
                0 <= (h as int) <= 0x4000_0000,
        ;
    }
    let total: u64 = (w as u64) * (h as u64);
    if total > (usize::MAX as u64) {
        proof {
            if (forall|j: int|
                0 <= j < glyphs@.len() ==> (#[trigger] glyphs@[j]).width + 1
                    <= packing::SHELF_WIDTH && glyphs@[j].height + 1 <= packing::SHELF_WIDTH)
                && glyphs@.len() <= 2048 {
                assert((packing::SHELF_WIDTH as int) * glyphs@.len() <= 1024 * 2048)
                    by (nonlinear_arith)
                    requires
                        0 <= glyphs@.len() <= 2048,
                ;
                assert((w as int) * (h as int) <= 1024 * (1024 * 2048)) by (nonlinear_arith)
                    requires
                        0 <= w <= 1024,
                        0 <= h <= 1024 * 2048,
                ;
                assert(usize::MAX >= 0xFFFF_FFFF);
            }
        }
        return Err(String::from_str("atlas image would not fit in memory"));
    }
    let image = apply_packing(glyphs, &packed);
    let ghost pls = packed.placements@;
    let mut char_data: Vec<(char, GlyphMetrics)> = Vec::new();
    let mut i2: usize = n;
    proof {
        assert forall|c: char| #[trigger]
            spec_assoc_find(char_data@, c) is None && spec_last_idx_from(glyphs@, n as int, c)
            == -1 by {
            lemma_last_idx_none_high(glyphs@, n as int, c);
        }
    }
    while i2 > 0
        invariant
            0 <= i2 <= n,
            n == glyphs@.len(),
            forall|j: int, k: int|
                0 <= j < k < char_data@.len() ==> (#[trigger] char_data@[j]).0 != (
                #[trigger] char_data@[k]).0,
            forall|c: char|
                {
                    let ix = spec_last_idx_from(glyphs@, i2 as int, c);
                    #[trigger] spec_assoc_find(char_data@, c) == (if ix >= 0 {
                        Some(spec_metrics_of(glyphs@, pls, ix))
                    } else {
                        None::<GlyphMetrics>
                    })
                },
        decreases i2,
    {
        i2 = i2 - 1;
        let c = glyphs[i2].char_code;
        let ghost pre = char_data@;
        if !assoc_contains(&char_data, c) {
            let m = GlyphMetrics {
                glyph_pos_x: packed.placements[i2].x,
                glyph_pos_y: packed.placements[i2].y,
                glyph_width: glyphs[i2].width as u16,
                glyph_height: glyphs[i2].height as u16,
                advance: glyphs[i2].advance,
                lsb: glyphs[i2].lsb,
                tsb: glyphs[i2].tsb,
            };
            proof {
                lemma_assoc_find_none(pre, c);
                assert(m == spec_metrics_of(glyphs@, pls, i2 as int));
            }
            char_data.push((c, m));
        }
        proof {
            assert forall|c2: char|
                {
                    let ix = spec_last_idx_from(glyphs@, i2 as int, c2);
                    #[trigger] spec_assoc_find(char_data@, c2) == (if ix >= 0 {
                        Some(spec_metrics_of(glyphs@, pls, ix))
                    } else {
                        None::<GlyphMetrics>
                    })
                } by {
                lemma_last_idx_lower(glyphs@, i2 as int + 1, c2);
                lemma_last_idx_props(glyphs@, i2 as int + 1, c2);
                if spec_assoc_find(pre, c) is None {
                    lemma_assoc_push(pre, (c, spec_metrics_of(glyphs@, pls, i2 as int)), c2);
                }
            }
        }
    }
    let mut ignore: Vec<char> = Vec::new();
    ignore.push('\r');
    proof {
        assert(ignore@ =~= seq!['\r']);
    }
    let info = FontMetricsInfo { char_data, font_size, height, not_found_char, ignore_chars: ignore };
    let f = FontInfo { image_buffer: image, image_width: w, image_height: h, info, name };
    proof {
        assert forall|c: char|
            {
                let ix = spec_last_idx_from(glyphs@, 0, c);
                if ix >= 0 {
                    &&& #[trigger] spec_assoc_find(f.info.char_data@, c) is Some
                    &&& spec_entry_matches(
                        f.image_buffer@,
                        f.image_width as int,
                        spec_assoc_find(f.info.char_data@, c)->0,
                        glyphs@[ix],
                    )
                } else {
                    spec_assoc_find(f.info.char_data@, c) is None
                }
            } by {
            let ix = spec_last_idx_from(glyphs@, 0, c);
            lemma_last_idx_props(glyphs@, 0, c);
            if ix >= 0 {
                assert(spec_assoc_find(f.info.char_data@, c) == Some(
                    spec_metrics_of(glyphs@, pls, ix),
                ));
                assert(spec_blitted(f.image_buffer@, f.image_width as int, pls[ix], glyphs@[ix]));
            }
        }
    }
    Ok(f)
}

impl FontInfo {
    /// Vertical distance between consecutive lines, in width units.
    pub fn line_height(&self) -> (r: u32)
        ensures
            r == self.info.height,
    {
        self.info.line_height()
    }

    /// Pixel size the font was rasterized at.
    pub fn font_size(&self) -> (r: u32)
        ensures
            r == self.info.font_size,
    {
        self.info.font_size()
    }

    /// The metrics used to render `c`, honouring the ignore set and the
    /// fallback character.
    pub fn get_metrics(&self, c: &char) -> (r: Option<&GlyphMetrics>)
        ensures
            match r {
                Some(m) => self.info.spec_get_metrics(*c) == Some(*m),
                None => self.info.spec_get_metrics(*c) is None,
            },
    {
        self.info.get_metrics(c)
    }

    /// True when `c` may be typed: not ignored and directly in the table.
    pub fn is_char_valid(&self, c: &char) -> (r: bool)
        ensures
            r == self.info.spec_is_char_valid(*c),
    {
        self.info.is_char_valid(c)
    }

    /// A standalone copy of the metrics table, for consoles and layout.
    pub fn get_metrics_info(&self) -> (r: FontMetricsInfo)
        ensures
            r.char_data@ == self.info.char_data@,
            r.font_size == self.info.font_size,
            r.height == self.info.height,
            r.not_found_char == self.info.not_found_char,
            r.ignore_chars@ == self.info.ignore_chars@,
    {
        let mut char_data: Vec<(char, GlyphMetrics)> = Vec::new();
        let mut i: usize = 0;
        while i < self.info.char_data.len()
            invariant
                0 <= i <= self.info.char_data@.len(),
                char_data@ == self.info.char_data@.take(i as int),
            decreases self.info.char_data@.len() - i,
        {
            char_data.push(self.info.char_data[i]);
            proof {
                assert(self.info.char_data@.take(i + 1) =~= self.info.char_data@.take(
                    i as int,
                ).push(self.info.char_data@[i as int]));
            }
            i = i + 1;
        }
        let mut ignore: Vec<char> = Vec::new();
        let mut j: usize = 0;
        while j < self.info.ignore_chars.len()
            invariant
                0 <= j <= self.info.ignore_chars@.len(),
                ignore@ == self.info.ignore_chars@.take(j as int),
            decreases self.info.ignore_chars@.len() - j,
        {
            ignore.push(self.info.ignore_chars[j]);
            proof {
                assert(self.info.ignore_chars@.take(j + 1) =~= self.info.ignore_chars@.take(
                    j as int,
                ).push(self.info.ignore_chars@[j as int]));
            }
            j = j + 1;
        }
        proof {
            assert(self.info.char_data@.take(self.info.char_data@.len() as int)
                =~= self.info.char_data@);
            assert(self.info.ignore_chars@.take(self.info.ignore_chars@.len() as int)
                =~= self.info.ignore_chars@);
        }
        FontMetricsInfo {
            char_data,
            font_size: self.info.font_size,
            height: self.info.height,
            not_found_char: self.info.not_found_char,
            ignore_chars: ignore,
        }
    }
}

/// Append the characters of the scalar range `[lo, hi)` to `v`.
#[verifier::loop_isolation(false)]
fn push_char_range(v: &mut Vec<char>, lo: u32, hi: u32)
    requires
        lo <= hi,
        hi <= 0xD800 || lo >= 0xE000,
        hi <= 0x10FFFF,
    ensures
        final(v)@.len() == old(v)@.len() + (hi - lo),
        forall|k: int| 0 <= k < old(v)@.len() ==> final(v)@[k] == old(v)@[k],
        forall|k: int|
            old(v)@.len() <= k < final(v)@.len() ==> (#[trigger] final(v)@[k]) as u32 == lo + (k
                - old(v)@.len()),
{
    let mut u: u32 = lo;
    while u < hi
        invariant
            lo <= u <= hi,
            v@.len() == old(v)@.len() + (u - lo),
            forall|k: int| 0 <= k < old(v)@.len() ==> v@[k] == old(v)@[k],
            forall|k: int|
                old(v)@.len() <= k < v@.len() ==> (#[trigger] v@[k]) as u32 == lo + (k - old(
                    v,
                )@.len()),
        decreases hi - u,
    {
        match crate::util::char_from_u32(u) {
            Some(ch) => {
                v.push(ch);
            },
            None => {
                proof {
                    assert(false);
                }
            },
        }
        u = u + 1;
    }
}

/// The character set rasterized by default: the null character and the
/// printable ASCII range.
pub fn default_characters() -> (r: Vec<char>)
    ensures
        r@.len() == 96,
        r@[0] == '\0',
        forall|k: int| 1 <= k < 96 ==> (#[trigger] r@[k]) as u32 == 31 + k,
{
    let mut chars: Vec<char> = Vec::new();
    chars.push('\0');
    push_char_range(&mut chars, 32, 127);
    chars
}

/// The default set extended with the common Japanese ranges: punctuation and
/// kana, fullwidth and halfwidth forms, and the common ideographs.
pub fn default_and_japanese() -> (r: Vec<char>)
    ensures
        r@.len() == 21501,
        r@[0] == '\0',
        forall|k: int| 1 <= k < 96 ==> (#[trigger] r@[k]) as u32 == 31 + k,
        forall|k: int| 96 <= k < 351 ==> (#[trigger] r@[k]) as u32 == 0x3000 + (k - 96),
        forall|k: int| 351 <= k < 590 ==> (#[trigger] r@[k]) as u32 == 0xff00 + (k - 351),
        forall|k: int| 590 <= k < 21501 ==> (#[trigger] r@[k]) as u32 == 0x4e00 + (k - 590),
{
    let mut chars = default_characters();
    push_char_range(&mut chars, 0x3000, 0x30ff);
    push_char_range(&mut chars, 0xff00, 0xffef);
    push_char_range(&mut chars, 0x4e00, 0x9faf);
    chars
}

/// The decimal digits of a non-negative number, most significant first.
pub open spec fn spec_decimal(n: int) -> Seq<char>
    decreases n,
    when n >= 0
{
    if n < 10 {
        seq![((48 + n) as u32) as char]
    } else {
        spec_decimal(n / 10).push(((48 + n % 10) as u32) as char)
    }
}

/// The decimal renderings of the bytes, each followed by one space.
pub open spec fn spec_bytes_decimal(bs: Seq<u8>) -> Seq<char>
    decreases bs.len(),
{
    if bs.len() == 0 {
        Seq::empty()
    } else {
        spec_decimal(bs[0] as int) + seq![' '] + spec_bytes_decimal(bs.drop_first())
    }
}

/// Appending a byte extends the rendering at its end.
proof fn lemma_bytes_decimal_push(bs: Seq<u8>, b: u8)
    ensures
        spec_bytes_decimal(bs.push(b)) == spec_bytes_decimal(bs) + spec_decimal(b as int)
            + seq![' '],
    decreases bs.len(),
{
    let t = bs.push(b);
    if bs.len() == 0 {
        assert(t[0] == b);
        assert(t.drop_first() =~= Seq::<u8>::empty());
        assert(spec_bytes_decimal(Seq::<u8>::empty()) =~= Seq::<char>::empty());
        assert(spec_bytes_decimal(t) =~= spec_decimal(b as int) + seq![' ']);
        assert(spec_bytes_decimal(bs) + spec_decimal(b as int) + seq![' '] =~= spec_decimal(
            b as int,
        ) + seq![' ']);
    } else {
        assert(t[0] == bs[0]);
        assert(t.drop_first() =~= bs.drop_first().push(b));
        lemma_bytes_decimal_push(bs.drop_first(), b);
        assert(spec_bytes_decimal(t) =~= spec_bytes_decimal(bs) + spec_decimal(b as int)
            + seq![' ']);
    }
}

/// Append the decimal rendering of `n` to `s`.
fn push_decimal(s: &mut String, n: u8)
    ensures
        final(s)@ == old(s)@ + spec_decimal(n as int),
    decreases n,
{
    if n >= 10 {
        push_decimal(s, n / 10);
    }
    let d: u8 = 48 + n % 10;
    crate::util::push_char(s, d as char);
    proof {
        if n < 10 {
            assert(old(s)@ + spec_decimal(n as int) =~= old(s)@.push(((48 + n as int) as u32)
                as char));
            assert(((48 + n as int) as u32) as char == d as char);
        } else {
            assert(old(s)@ + spec_decimal(n as int) =~= (old(s)@ + spec_decimal(n as int / 10))
                .push(((48 + n as int % 10) as u32) as char));
            assert(((48 + n as int % 10) as u32) as char == d as char);
        }
    }
}

/// The UTF-8 bytes of one character.
fn utf8_bytes(c: char) -> (r: Vec<u8>)
    ensures
        r@ == vstd::utf8::encode_scalar(c as u32),
{
    proof {
        vstd::utf8::char_is_scalar(c);
    }
    let u = c as u32;
    let mut r: Vec<u8> = Vec::new();
    if u <= 0x7F {
        r.push((u & 0x7F) as u8);
        proof {
            assert(r@ =~= vstd::utf8::encode_scalar(u));
        }
    } else if u <= 0x7FF {
        r.push(0xC0 | ((u >> 6) & 0x1F) as u8);
        r.push(0x80 | (u & 0x3F) as u8);
        proof {
            assert(r@ =~= vstd::utf8::encode_scalar(u));
        }
    } else if u <= 0xFFFF {
        r.push(0xE0 | ((u >> 12) & 0x0F) as u8);
        r.push(0x80 | ((u >> 6) & 0x3F) as u8);
        r.push(0x80 | (u & 0x3F) as u8);
        proof {
            assert(r@ =~= vstd::utf8::encode_scalar(u));
        }
    } else {
        r.push(0xF0 | ((u >> 18) & 0x7) as u8);
        r.push(0x80 | ((u >> 12) & 0x3F) as u8);
        r.push(0x80 | ((u >> 6) & 0x3F) as u8);
        r.push(0x80 | (u & 0x3F) as u8);
        proof {
            assert(r@ =~= vstd::utf8::encode_scalar(u));
        }
    }
    r
}

/// The UTF-8 bytes of `c` rendered in decimal, each byte followed by one
/// space.
pub fn char_bytes(c: char) -> (r: String)
    ensures
        r@ == spec_bytes_decimal(vstd::utf8::encode_scalar(c as u32)),
{
    let bytes = utf8_bytes(c);
    let mut s = String::new();
    let mut i: usize = 0;
    proof {
        assert(bytes@.take(0) =~= Seq::<u8>::empty());
    }
    while i < bytes.len()
        invariant
            0 <= i <= bytes@.len(),
            s@ == spec_bytes_decimal(bytes@.take(i as int)),
            bytes@ == vstd::utf8::encode_scalar(c as u32),
        decreases bytes@.len() - i,
    {
        push_decimal(&mut s, bytes[i]);
        crate::util::push_char(&mut s, ' ');
        proof {
            assert(bytes@.take(i + 1) =~= bytes@.take(i as int).push(bytes@[i as int]));
            lemma_bytes_decimal_push(bytes@.take(i as int), bytes@[i as int]);
            assert(s@ =~= spec_bytes_decimal(bytes@.take(i as int)) + spec_decimal(
                bytes@[i as int] as int,
            ) + seq![' ']);
        }
        i = i + 1;
    }
    proof {
        assert(bytes@.take(bytes@.len() as int) =~= bytes@);
    }
    s
}

/// Whether width `w` exceeds the optional limit; without a limit nothing does.
pub open spec fn spec_exceeds(max: Option<int>, w: int) -> bool {
    match max {
        Some(m) => w > m,
        None => false,
    }
}

/// An advance sum is only tracked while a width limit is present; without one
/// the sums are never compared, so they are pinned to zero.
pub open spec fn spec_track(max: Option<int>, w: int) -> int {
    if max is Some {
        w
    } else {
        0
    }
}

/// One line of greedy wrapping, processed character by character.
///
/// The state is: the current token (a maximal all-whitespace or
/// all-non-whitespace run) with the index `k` of the next character to
/// consider; the characters of the token accepted so far (`building`) and
/// their advance sum; the line committed from earlier tokens (`cur`) and its
/// advance sum; and the untokenized remainder of the text. The result is the
/// finished line, the deferred remainder of a word that overflowed (empty when
/// none), and the untokenized remainder.
///
/// The rules, per character:
/// - a newline always ends the line; it is consumed, and the rest of its
///   whitespace run is dropped;
/// - a character without metrics is skipped and takes no width;
/// - a whitespace character is accepted if the line would still fit with its
///   advance added, else it is dropped together with the rest of its run and
///   the line ends;
/// - any other character is accepted if the line would still fit with the
///   character's true extent (left-side bearing plus glyph width) added; on
///   overflow, a line that already has committed content is emitted as is and
///   the whole word is deferred; an empty line with nothing built yet emits
///   the oversized character alone and defers the rest of the word; an empty
///   line with a built part emits that part and defers the word from the
///   overflowing character on.
/// - at the end of a token its accepted characters are committed to the line;
///   when no text is left the line so far is the final line.
pub open spec fn spec_take_line(
    tbl: FontMetricsInfo,
    max: Option<int>,
    token: Seq<char>,
    k: int,
    building: Seq<char>,
    word_adv: int,
    cur: Seq<char>,
    cur_adv: int,
    rest: Seq<char>,
) -> (Seq<char>, Seq<char>, Seq<char>)
    decreases token.len() - k + rest.len(), (if k >= token.len() { 1int } else { 0int }),
    when 0 <= k <= token.len()
    via spec_take_line_decreases
{
    if k >= token.len() {
        let cur2 = cur + building;
        let cur_adv2 = cur_adv + word_adv;
        if rest.len() == 0 {
            (cur2, Seq::empty(), Seq::empty())
        } else {
            let t = spec_first_token(rest);
            spec_take_line(
                tbl,
                max,
                t,
                0,
                Seq::empty(),
                0,
                cur2,
                cur_adv2,
                rest.skip(t.len() as int),
            )
        }
    } else {
        let c = token[k];
        if c == '\n' {
            (cur, Seq::empty(), rest)
        } else {
            match tbl.spec_get_metrics(c) {
                None => spec_take_line(tbl, max, token, k + 1, building, word_adv, cur, cur_adv, rest),
                Some(m) => {
                    if spec_is_whitespace(c) {
                        if spec_exceeds(max, cur_adv + word_adv + m.advance) {
                            (cur, Seq::empty(), rest)
                        } else {
                            spec_take_line(
                                tbl,
                                max,
                                token,
                                k + 1,
                                building.push(c),
                                spec_track(max, word_adv + m.advance),
                                cur,
                                cur_adv,
                                rest,
                            )
                        }
                    } else {
                        if spec_exceeds(max, cur_adv + word_adv + m.lsb + m.glyph_width) {
                            if cur.len() == 0 {
                                if building.len() == 0 {
                                    (seq![c], token.skip(k + 1), rest)
                                } else {
                                    (building, token.skip(k), rest)
                                }
                            } else {
                                (cur, token, rest)
                            }
                        } else {
                            spec_take_line(
                                tbl,
                                max,
                                token,
                                k + 1,
                                building.push(c),
                                spec_track(max, word_adv + m.advance),
                                cur,
                                cur_adv,
                                rest,
                            )
                        }
                    }
                }
            }
        }
    }
}

#[via_fn]
proof fn spec_take_line_decreases(
    tbl: FontMetricsInfo,
    max: Option<int>,
    token: Seq<char>,
    k: int,
    building: Seq<char>,
    word_adv: int,
    cur: Seq<char>,
    cur_adv: int,
    rest: Seq<char>,
) {
    if k >= token.len() && rest.len() > 0 {
        lemma_run_len_bounds(rest, spec_is_whitespace(rest[0]));
    }
}

/// Build one line starting with empty accumulators, the deferred word from
/// the previous line (empty when none) as the first token.
pub open spec fn spec_take_line_start(
    tbl: FontMetricsInfo,
    max: Option<int>,
    pending: Seq<char>,
    rest: Seq<char>,
) -> (Seq<char>, Seq<char>, Seq<char>) {
    spec_take_line(tbl, max, pending, 0, Seq::empty(), 0, Seq::empty(), 0, rest)
}

/// Building a line never grows the unprocessed text, and strictly shrinks it
/// whenever the committed line is still empty. The deferred remainder of an
/// overflowing word may hand back the characters of the current token, which
/// is why the bound counts the whole token.
pub proof fn lemma_take_line_consumes(
    tbl: FontMetricsInfo,
    max: Option<int>,
    token: Seq<char>,
    k: int,
    building: Seq<char>,
    word_adv: int,
    cur: Seq<char>,
    cur_adv: int,
    rest: Seq<char>,
)
    requires
        0 <= k <= token.len(),
        building.len() <= k,
        token.len() + rest.len() >= 1,
    ensures
        ({
            let (line, p2, r2) = spec_take_line(
                tbl,
                max,
                token,
                k,
                building,
                word_adv,
                cur,
                cur_adv,
                rest,
            );
            p2.len() + r2.len() + (if cur.len() == 0 {
                1int
            } else {
                0int
            }) <= token.len() + rest.len()
        }),
    decreases token.len() - k + rest.len(), (if k >= token.len() { 1int } else { 0int }),
{
    if k >= token.len() {
        let cur2 = cur + building;
        if rest.len() == 0 {
        } else {
            let t = spec_first_token(rest);
            lemma_run_len_bounds(rest, spec_is_whitespace(rest[0]));
            lemma_take_line_consumes(
                tbl,
                max,
                t,
                0,
                Seq::empty(),
                0,
                cur2,
                cur_adv + word_adv,
                rest.skip(t.len() as int),
            );
        }
    } else {
        let c = token[k];
        if c == '\n' {
        } else {
            match tbl.spec_get_metrics(c) {
                None => {
                    lemma_take_line_consumes(
                        tbl,
                        max,
                        token,
                        k + 1,
                        building,
                        word_adv,
                        cur,
                        cur_adv,
                        rest,
                    );
                },
                Some(m) => {
                    if spec_is_whitespace(c) {
                        if spec_exceeds(max, cur_adv + word_adv + m.advance) {
                        } else {
                            lemma_take_line_consumes(
                                tbl,
                                max,
                                token,
                                k + 1,
                                building.push(c),
                                spec_track(max, word_adv + m.advance),
                                cur,
                                cur_adv,
                                rest,
                            );
                        }
                    } else {
                        if spec_exceeds(max, cur_adv + word_adv + m.lsb + m.glyph_width) {
                        } else {
                            lemma_take_line_consumes(
                                tbl,
                                max,
                                token,
                                k + 1,
                                building.push(c),
                                spec_track(max, word_adv + m.advance),
                                cur,
                                cur_adv,
                                rest,
                            );
                        }
                    }
                },
            }
        }
    }
}

/// All wrapped lines from a deferred word (empty when none) and the
/// untokenized remainder of the text.
pub open spec fn spec_wrap_from(
    tbl: FontMetricsInfo,
    max: Option<int>,
    pending: Seq<char>,
    rest: Seq<char>,
) -> Seq<Seq<char>>
    decreases pending.len() + rest.len(),
    via spec_wrap_from_decreases
{
    if pending.len() == 0 && rest.len() == 0 {
        Seq::empty()
    } else {
        let (line, p2, r2) = spec_take_line_start(tbl, max, pending, rest);
        seq![line] + spec_wrap_from(tbl, max, p2, r2)
    }
}

#[via_fn]
proof fn spec_wrap_from_decreases(
    tbl: FontMetricsInfo,
    max: Option<int>,
    pending: Seq<char>,
    rest: Seq<char>,
) {
    if !(pending.len() == 0 && rest.len() == 0) {
        lemma_take_line_consumes(
            tbl,
            max,
            pending,
            0,
            Seq::empty(),
            0,
            Seq::empty(),
            0,
            rest,
        );
    }
}

/// The wrapped lines of `text` under the optional width limit: the greedy
/// wrap described at `spec_take_line`, top line first. An empty text has no
/// lines.
pub open spec fn spec_split_lines(
    tbl: FontMetricsInfo,
    text: Seq<char>,
    max: Option<int>,
) -> Seq<Seq<char>> {
    spec_wrap_from(tbl, max, Seq::empty(), text)
}

/// The optional width limit as a mathematical integer.
pub open spec fn spec_width_limit(max: Option<u32>) -> Option<int> {
    match max {
        Some(m) => Some(m as int),
        None => None,
    }
}

/// The characters of `v` between `from` and `to`.
fn copy_char_range(v: &Vec<char>, from: usize, to: usize) -> (r: Vec<char>)
    requires
        from <= to <= v@.len(),
    ensures
        r@ == v@.subrange(from as int, to as int),
{
    let mut r: Vec<char> = Vec::new();
    let mut i: usize = from;
    while i < to
        invariant
            from <= i <= to <= v@.len(),
            r@ == v@.subrange(from as int, i as int),
        decreases to - i,
    {
        r.push(v[i]);
        assert(v@.subrange(from as int, i + 1) =~= v@.subrange(from as int, i as int).push(
            v@[i as int],
        ));
        i = i + 1;
    }
    r
}

/// Lazily yields the wrapped lines of one text under one width limit.
/// Restartable: building a second iterator over the same inputs yields the
/// same lines, since every line is pinned by `spec_take_line_start`.
pub struct FontLineIterator<'a> {
    info: &'a FontMetricsInfo,
    max_length: Option<u32>,
    text: Vec<char>,
    pos: usize,
    current_word: Vec<char>,
}

impl<'a> FontLineIterator<'a> {
    /// The metrics table driving the wrap.
    pub closed spec fn info_spec(&self) -> FontMetricsInfo {
        *self.info
    }

    /// The width limit, as a mathematical integer.
    pub closed spec fn max_spec(&self) -> Option<int> {
        spec_width_limit(self.max_length)
    }

    /// The deferred remainder of an overflowed word; empty when none.
    pub closed spec fn pending(&self) -> Seq<char> {
        self.current_word@
    }

    /// The untokenized remainder of the text.
    pub closed spec fn rest(&self) -> Seq<char> {
        self.text@.skip(self.pos as int)
    }

    /// The read position never runs past the text.
    pub closed spec fn wf(&self) -> bool {
        self.pos <= self.text@.len()
    }

    /// The next wrapped line, or `None` once the text is exhausted.
    #[verifier::loop_isolation(false)]
    pub fn next(&mut self) -> (r: Option<String>)
        requires
            old(self).wf(),
        ensures
            final(self).wf(),
            final(self).info_spec() == old(self).info_spec(),
            final(self).max_spec() == old(self).max_spec(),
            match r {
                Some(line) => ({
                    let (sline, sp, sr) = spec_take_line_start(
                        old(self).info_spec(),
                        old(self).max_spec(),
                        old(self).pending(),
                        old(self).rest(),
                    );
                    &&& old(self).pending().len() + old(self).rest().len() > 0
                    &&& line@ == sline
                    &&& final(self).pending() == sp
                    &&& final(self).rest() == sr
                }),
                None => {
                    &&& old(self).pending().len() == 0
                    &&& old(self).rest().len() == 0
                    &&& final(self).pending() == old(self).pending()
                    &&& final(self).rest() == old(self).rest()
                },
            },
    {
        if self.current_word.len() == 0 && self.pos == self.text.len() {
            proof {
                assert(self.text@.skip(self.pos as int) =~= Seq::<char>::empty());
            }
            return None;
        }
        let info = self.info;
        let mut token = copy_char_range(&self.current_word, 0, self.current_word.len());
        self.current_word = Vec::new();
        proof {
            assert(token@ =~= old(self).pending());
        }
        let mut k: usize = 0;
        let mut building: Vec<char> = Vec::new();
        let mut word_adv: u64 = 0;
        let mut cur: Vec<char> = Vec::new();
        let mut cur_adv: u64 = 0;
        loop
            invariant
                self.info == old(self).info,
                self.max_length == old(self).max_length,
                self.text@ == old(self).text@,
                self.pos <= self.text@.len(),
                self.current_word@.len() == 0,
                k <= token@.len(),
                building@.len() <= k,
                match self.max_length {
                    Some(mx) => cur_adv + word_adv <= mx + 0x20000,
                    None => cur_adv == 0 && word_adv == 0,
                },
                spec_take_line(
                    old(self).info_spec(),
                    old(self).max_spec(),
                    token@,
                    k as int,
                    building@,
                    word_adv as int,
                    cur@,
                    cur_adv as int,
                    self.text@.skip(self.pos as int),
                ) == spec_take_line_start(
                    old(self).info_spec(),
                    old(self).max_spec(),
                    old(self).pending(),
                    old(self).rest(),
                ),
            decreases
                    (token@.len() - k) + (self.text@.len() - self.pos),
                    (if k >= token@.len() {
                        1int
                    } else {
                        0int
                    }),
        {
            if k >= token.len() {
                cur_adv = cur_adv + word_adv;
                word_adv = 0;
                cur.append(&mut building);
                if self.pos == self.text.len() {
                    proof {
                        assert(self.text@.skip(self.pos as int) =~= Seq::<char>::empty());
                    }
                    return Some(string_from_chars(&cur));
                } else {
                    let end = crate::util::run_end(&self.text, self.pos);
                    let t2 = copy_char_range(&self.text, self.pos, end);
                    proof {
                        let rem = self.text@.skip(self.pos as int);
                        assert(rem[0] == self.text@[self.pos as int]);
                        assert(t2@ =~= rem.take(end - self.pos));
                        assert(t2@ == spec_first_token(rem));
                        assert(self.text@.skip(end as int) =~= rem.skip(t2@.len() as int));
                    }
                    token = t2;
                    k = 0;
                    self.pos = end;
                }
            } else {
                let c = token[k];
                if c == '\n' {
                    return Some(string_from_chars(&cur));
                }
                match info.get_metrics(&c) {
                    None => {
                        k = k + 1;
                    },
                    Some(m) => {
                        let m = *m;
                        if is_whitespace(c) {
                            let mut fits = true;
                            if let Some(mx) = self.max_length {
                                if cur_adv + word_adv + (m.advance as u64) > (mx as u64) {
                                    fits = false;
                                }
                            }
                            if fits {
                                building.push(c);
                                if let Some(_mx) = self.max_length {
                                    word_adv = word_adv + (m.advance as u64);
                                }
                                k = k + 1;
                            } else {
                                return Some(string_from_chars(&cur));
                            }
                        } else {
                            let mut fits = true;
                            if let Some(mx) = self.max_length {
                                let ext: i64 = (cur_adv + word_adv) as i64 + (m.lsb as i64) + (
                                m.glyph_width as i64);
                                if ext > (mx as i64) {
                                    fits = false;
                                }
                            }
                            if fits {
                                building.push(c);
                                if let Some(_mx) = self.max_length {
                                    word_adv = word_adv + (m.advance as u64);
                                }
                                k = k + 1;
                            } else {
                                if cur.len() == 0 {
                                    if building.len() == 0 {
                                        self.current_word = copy_char_range(
                                            &token,
                                            k + 1,
                                            token.len(),
                                        );
                                        proof {
                                            assert(self.current_word@ =~= token@.skip(k + 1));
                                        }
                                        let mut lv: Vec<char> = Vec::new();
                                        lv.push(c);
                                        proof {
                                            assert(lv@ =~= seq![c]);
                                        }
                                        return Some(string_from_chars(&lv));
                                    } else {
                                        self.current_word = copy_char_range(
                                            &token,
                                            k,
                                            token.len(),
                                        );
                                        proof {
                                            assert(self.current_word@ =~= token@.skip(k as int));
                                        }
                                        return Some(string_from_chars(&building));
                                    }
                                } else {
                                    self.current_word = token;
                                    return Some(string_from_chars(&cur));
                                }
                            }
                        }
                    },
                }
            }
        }
    }

    /// All remaining lines, in order.
    #[verifier::loop_isolation(false)]
    pub fn collect_lines(self) -> (r: Vec<String>)
        requires
            self.wf(),
        ensures
            r@.map_values(|s: String| s@) == spec_wrap_from(
                self.info_spec(),
                self.max_spec(),
                self.pending(),
                self.rest(),
            ),
    {
        let ghost init = self;
        let mut it = self;
        let mut lines: Vec<String> = Vec::new();
        loop
            invariant
                it.wf(),
                it.info_spec() == init.info_spec(),
                it.max_spec() == init.max_spec(),
                lines@.map_values(|s: String| s@) + spec_wrap_from(
                    init.info_spec(),
                    init.max_spec(),
                    it.pending(),
                    it.rest(),
                ) =~= spec_wrap_from(
                    init.info_spec(),
                    init.max_spec(),
                    init.pending(),
                    init.rest(),
                ),
            decreases it.pending().len() + it.rest().len(),
        {
            let ghost pre = it;
            match it.next() {
                Some(line) => {
                    proof {
                        lemma_take_line_consumes(
                            init.info_spec(),
                            init.max_spec(),
                            pre.pending(),
                            0,
                            Seq::empty(),
                            0,
                            Seq::empty(),
                            0,
                            pre.rest(),
                        );
                    }
                    let ghost before = lines@.map_values(|s: String| s@);
                    lines.push(line);
                    proof {
                        assert(lines@.map_values(|s: String| s@) =~= before.push(line@));
                        assert(seq![line@] + spec_wrap_from(
                            init.info_spec(),
                            init.max_spec(),
                            it.pending(),
                            it.rest(),
                        ) =~= spec_wrap_from(
                            init.info_spec(),
                            init.max_spec(),
                            pre.pending(),
                            pre.rest(),
                        ));
                    }
                },
                None => {
                    proof {
                        assert(spec_wrap_from(
                            init.info_spec(),
                            init.max_spec(),
                            it.pending(),
                            it.rest(),
                        ) =~= Seq::<Seq<char>>::empty());
                        assert(lines@.map_values(|s: String| s@) =~= spec_wrap_from(
                            init.info_spec(),
                            init.max_spec(),
                            init.pending(),
                            init.rest(),
                        ));
                    }
                    return lines;
                },
            }
        }
    }
}

impl FontMetricsInfo {
    /// Lazy word wrap of `text` under the optional width limit, in width
    /// units; without a limit only explicit newlines end lines.
    pub fn split_lines<'a>(&'a self, text: &str, max_length: Option<u32>) -> (r: FontLineIterator<
        'a,
    >)
        ensures
            r.wf(),
            r.info_spec() == *self,
            r.max_spec() == spec_width_limit(max_length),
            r.pending().len() == 0,
            r.rest() == text@,
    {
        let chars = chars_from_str(text);
        let r = FontLineIterator {
            info: self,
            max_length,
            text: chars,
            pos: 0,
            current_word: Vec::new(),
        };
        proof {
            assert(r.rest() =~= text@);
        }
        r
    }

    /// The wrapped lines of `text` under the optional width limit, as a
    /// vector.
    pub fn split_lines_vec(&self, text: &str, max_length: Option<u32>) -> (r: Vec<String>)
        ensures
            r@.map_values(|s: String| s@) == spec_split_lines(
                *self,
                text@,
                spec_width_limit(max_length),
            ),
    {
        self.split_lines(text, max_length).collect_lines()
    }

    /// The rendered width of `text`: the widest of its newline-separated
    /// lines, where a line's extent is the advance sum of all but its last
    /// character plus the last character's bearing and glyph width.
    #[verifier::loop_isolation(false)]
    pub fn text_width(&self, text: &str) -> (r: i128)
        ensures
            r == spec_text_width(*self, text@),
    {
        let chars = chars_from_str(text);
        let mut cur_adv: i128 = 0;
        let mut longest: i128 = 0;
        let mut i: usize = 0;
        proof {
            assert(chars@.skip(0) =~= chars@);
        }
        while i < chars.len()
            invariant
                0 <= i <= chars@.len(),
                0 <= cur_adv <= 0x1_0000 * (i as int),
                0 <= longest <= 0x1_0000 * (i as int) + 0x2_0000,
                spec_text_width_loop(
                    *self,
                    chars@.skip(i as int),
                    cur_adv as int,
                    longest as int,
                ) == spec_text_width(*self, text@),
            decreases chars@.len() - i,
        {
            let c = chars[i];
            proof {
                assert(chars@.skip(i as int)[0] == chars@[i as int]);
                assert(chars@.skip(i as int).drop_first() =~= chars@.skip(i + 1));
            }
            match self.get_metrics(&c) {
                None => {},
                Some(m) => {
                    let m = *m;
                    if c == '\n' {
                        cur_adv = 0;
                    } else {
                        let ext: i128 = cur_adv + (m.lsb as i128) + (m.glyph_width as i128);
                        if ext > longest {
                            longest = ext;
                        }
                        cur_adv = cur_adv + (m.advance as i128);
                    }
                },
            }
            i = i + 1;
        }
        longest
    }
}

/// The accumulator form of the width measurement: `cur_adv` is the advance
/// sum of the current line so far, `longest` the widest extent seen.
pub open spec fn spec_text_width_loop(
    tbl: FontMetricsInfo,
    s: Seq<char>,
    cur_adv: int,
    longest: int,
) -> int
    decreases s.len(),
{
    if s.len() == 0 {
        longest
    } else {
        let c = s[0];
        match tbl.spec_get_metrics(c) {
            None => spec_text_width_loop(tbl, s.drop_first(), cur_adv, longest),
            Some(m) => {
                if c == '\n' {
                    spec_text_width_loop(tbl, s.drop_first(), 0, longest)
                } else {
                    let ext = cur_adv + m.lsb + m.glyph_width;
                    spec_text_width_loop(
                        tbl,
                        s.drop_first(),
                        cur_adv + m.advance,
                        if ext > longest {
                            ext
                        } else {
                            longest
                        },
                    )
                }
            },
        }
    }
}

/// The rendered width of `s` under table `tbl`.
pub open spec fn spec_text_width(tbl: FontMetricsInfo, s: Seq<char>) -> int {
    spec_text_width_loop(tbl, s, 0, 0)
}

/// One glyph ready to draw: where its ink goes, in width units relative to
/// the text origin, and which atlas cell to sample.
pub struct GlyphInstance {
    /// Left edge of the ink: the pen position plus the left-side bearing.
    pub x: i64,
    /// Top edge of the ink: the baseline minus the top-side bearing.
    pub y: i64,
    /// Top-left corner of the glyph's cell in the atlas, in pixels.
    pub atlas_x: u32,
    pub atlas_y: u32,
    /// Size of the glyph's box, in pixels.
    pub width: u16,
    pub height: u16,
}

/// The accumulator form of text layout: walk the characters with a pen at
/// `(x, y)`, skipping characters without metrics; a newline returns the pen
/// to the left edge one line height down; every other character emits one
/// instance at the pen plus its bearings and advances the pen.
pub open spec fn spec_layout_loop(
    tbl: FontMetricsInfo,
    s: Seq<char>,
    x: int,
    y: int,
    out: Seq<GlyphInstance>,
) -> Seq<GlyphInstance>
    decreases s.len(),
{
    if s.len() == 0 {
        out
    } else {
        let c = s[0];
        if c == '\n' {
            spec_layout_loop(tbl, s.drop_first(), 0, y + tbl.height, out)
        } else {
            match tbl.spec_get_metrics(c) {
                None => spec_layout_loop(tbl, s.drop_first(), x, y, out),
                Some(m) => spec_layout_loop(
                    tbl,
                    s.drop_first(),
                    x + m.advance,
                    y,
                    out.push(
                        GlyphInstance {
                            x: (x + m.lsb) as i64,
                            y: (y - m.tsb) as i64,
                            atlas_x: m.glyph_pos_x,
                            atlas_y: m.glyph_pos_y,
                            width: m.glyph_width,
                            height: m.glyph_height,
                        },
                    ),
                ),
            }
        }
    }
}

/// The draw-ready glyph instances of `s`, walked from the origin.
pub open spec fn spec_layout_text(tbl: FontMetricsInfo, s: Seq<char>) -> Seq<GlyphInstance> {
    spec_layout_loop(tbl, s, 0, 0, Seq::empty())
}

impl FontMetricsInfo {
    /// The draw-ready glyph instances of one text: positions accumulate
    /// advances and bearings exactly as the width model does, newlines move
    /// the pen to the next line, and characters without metrics are skipped.
    /// At most one instance per character comes out, so a text within the
    /// per-frame glyph ceiling stays within it.
    #[verifier::loop_isolation(false)]
    pub fn layout_text(&self, text: &str) -> (r: Vec<GlyphInstance>)
        requires
            text@.len() <= MAX_GLYPHS_PER_FRAME,
        ensures
            r@ == spec_layout_text(*self, text@),
            r@.len() <= text@.len(),
    {
        let chars = chars_from_str(text);
        let mut out: Vec<GlyphInstance> = Vec::new();
        let mut x: i64 = 0;
        let mut y: i64 = 0;
        let mut i: usize = 0;
        proof {
            assert(chars@.skip(0) =~= chars@);
        }
        while i < chars.len()
            invariant
                0 <= i <= chars@.len(),
                chars@.len() <= MAX_GLYPHS_PER_FRAME,
                0 <= x <= 0x1_0000 * (i as int),
                0 <= y <= 0x1_0000_0000 * (i as int),
                out@.len() <= i,
                spec_layout_loop(
                    *self,
                    chars@.skip(i as int),
                    x as int,
                    y as int,
                    out@,
                ) == spec_layout_text(*self, text@),
            decreases chars@.len() - i,
        {
            let c = chars[i];
            proof {
                assert(chars@.skip(i as int)[0] == chars@[i as int]);
                assert(chars@.skip(i as int).drop_first() =~= chars@.skip(i + 1));
            }
            if c == '\n' {
                x = 0;
                y = y + (self.height as i64);
            } else {
                match self.get_metrics(&c) {
                    None => {},
                    Some(m) => {
                        let m = *m;
                        out.push(
                            GlyphInstance {
                                x: x + (m.lsb as i64),
                                y: y - (m.tsb as i64),
                                atlas_x: m.glyph_pos_x,
                                atlas_y: m.glyph_pos_y,
                                width: m.glyph_width,
                                height: m.glyph_height,
                            },
                        );
                        x = x + (m.advance as i64);
                    },
                }
            }
            i = i + 1;
        }
        out
    }
}

/// Wrapping is a function of the table, the text and the width limit alone:
/// two calls over equal inputs yield equal line sequences, so re-running the
/// wrap can never produce a different layout.
pub proof fn lemma_split_lines_deterministic(
    tbl1: FontMetricsInfo,
    tbl2: FontMetricsInfo,
    text1: Seq<char>,
    text2: Seq<char>,
    max1: Option<int>,
    max2: Option<int>,
)
    requires
        tbl1 == tbl2,
        text1 == text2,
        max1 == max2,
    ensures
        spec_split_lines(tbl1, text1, max1) == spec_split_lines(tbl2, text2, max2),
{
}

/// A single renderable character whose extent exceeds the width limit still
/// comes out, alone on its own line: the wrap never stalls on an oversized
/// glyph. (Termination itself holds for every input: `spec_take_line` and
/// `spec_wrap_from` are total by their decreases measures.)
pub proof fn lemma_oversized_char_alone(tbl: FontMetricsInfo, c: char, max: int)
    requires
        !spec_is_whitespace(c),
        tbl.spec_get_metrics(c) is Some,
        (tbl.spec_get_metrics(c)->0).lsb + (tbl.spec_get_metrics(c)->0).glyph_width > max,
    ensures
        spec_split_lines(tbl, seq![c], Some(max)) == seq![seq![c]],
{
    let s = seq![c];
    let e = Seq::<char>::empty();
    assert(s.drop_first() =~= e);
    assert(spec_run_len(e, false) == 0);
    assert(spec_run_len(s, false) == 1);
    assert(spec_first_token(s) =~= s);
    assert(c != '\n');
    assert(s.skip(1) =~= e);
    assert(e + e =~= e);
    let inner = spec_take_line(tbl, Some(max), s, 0, e, 0, e, 0, e);
    assert(inner == (seq![c], s.skip(1), e));
    assert(spec_take_line_start(tbl, Some(max), e, s) == inner);
    assert(spec_wrap_from(tbl, Some(max), s.skip(1), e) =~= Seq::<Seq<char>>::empty());
    assert(spec_split_lines(tbl, s, Some(max)) =~= seq![seq![c]]);
}

} // verus!
