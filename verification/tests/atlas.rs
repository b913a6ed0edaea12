use text_console::text::packing::{do_font_packing, GlyphInfo, MAX_GLYPH_DIM};
use text_console::text::{apply_packing, build_font_info, GlyphBitmap};

fn rects(dims: &[(char, u32, u32)]) -> Vec<GlyphInfo> {
    dims.iter().map(|&(id, width, height)| GlyphInfo { id, width, height }).collect()
}

fn overlap(a: (u32, u32, u32, u32), b: (u32, u32, u32, u32)) -> bool {
    a.0 < b.0 + b.2 && b.0 < a.0 + a.2 && a.1 < b.1 + b.3 && b.1 < a.1 + a.3
}

#[test]
fn packing_is_disjoint_and_in_bounds() {
    let glyphs = rects(&[
        ('a', 8, 12),
        ('b', 30, 7),
        ('c', 500, 20),
        ('d', 600, 3),
        ('e', 1, 1),
        ('f', 1100, 9),
        ('g', 40, 40),
    ]);
    let p = do_font_packing(&glyphs).unwrap();
    assert_eq!(p.placements.len(), glyphs.len());
    let boxes: Vec<(u32, u32, u32, u32)> =
        p.placements.iter().map(|q| (q.x, q.y, q.width, q.height)).collect();
    for (i, q) in p.placements.iter().enumerate() {
        assert_eq!(q.id, glyphs[i].id);
        assert_eq!(q.width, glyphs[i].width);
        assert_eq!(q.height, glyphs[i].height);
        assert!(q.x + q.width <= p.width());
        assert!(q.y + q.height <= p.height());
    }
    for i in 0..boxes.len() {
        for j in (i + 1)..boxes.len() {
            assert!(!overlap(boxes[i], boxes[j]), "{i} overlaps {j}");
        }
    }
}

#[test]
fn packing_fails_on_oversized_glyph() {
    let glyphs = rects(&[('a', 4, 4), ('b', MAX_GLYPH_DIM + 1, 2)]);
    assert!(do_font_packing(&glyphs).is_none());
}

#[test]
fn packing_is_deterministic() {
    let glyphs = rects(&[('a', 9, 9), ('b', 700, 4), ('c', 2, 30)]);
    let p1 = do_font_packing(&glyphs).unwrap();
    let p2 = do_font_packing(&glyphs).unwrap();
    assert_eq!(p1.width(), p2.width());
    assert_eq!(p1.height(), p2.height());
    for (q1, q2) in p1.placements.iter().zip(p2.placements.iter()) {
        assert_eq!((q1.x, q1.y), (q2.x, q2.y));
    }
}

#[test]
fn packing_lookup_by_id() {
    let glyphs = rects(&[('x', 3, 3), ('y', 5, 5)]);
    let p = do_font_packing(&glyphs).unwrap();
    assert_eq!(p.get_glyph_pos('x'), Some((p.placements[0].x, p.placements[0].y)));
    assert!(p.get_glyph_pos('z').is_none());
}

fn bitmap(c: char, w: u32, h: u32, fill: u8) -> GlyphBitmap {
    GlyphBitmap {
        char_code: c,
        width: w,
        height: h,
        buffer: vec![fill; (w * h) as usize],
        advance: 10,
        lsb: 1,
        tsb: 7,
    }
}

#[test]
fn apply_packing_places_pixels_and_zeros_the_rest() {
    let glyphs = vec![bitmap('a', 2, 2, 7), bitmap('b', 3, 1, 9)];
    let padded = rects(&[('a', 3, 3), ('b', 4, 2)]);
    let p = do_font_packing(&padded).unwrap();
    let img = apply_packing(&glyphs, &p);
    let w = p.width() as usize;
    assert_eq!(img.len(), w * p.height() as usize);
    let mut sevens = 0;
    let mut nines = 0;
    for &b in &img {
        match b {
            7 => sevens += 1,
            9 => nines += 1,
            0 => (),
            _ => panic!("unexpected pixel value"),
        }
    }
    assert_eq!(sevens, 4);
    assert_eq!(nines, 3);
    // Each glyph's pixels sit exactly at its placement.
    let pa = &p.placements[0];
    for yy in 0..2usize {
        for xx in 0..2usize {
            assert_eq!(img[(pa.y as usize + yy) * w + pa.x as usize + xx], 7);
        }
    }
}

#[test]
fn build_font_info_assembles_table_and_atlas() {
    let glyphs = vec![bitmap('a', 2, 2, 7), bitmap('b', 3, 1, 9)];
    let f = build_font_info(&glyphs, 16, 20, Some('a'), "testfont".to_string()).unwrap();
    assert_eq!(f.name, "testfont");
    assert_eq!(f.font_size(), 16);
    assert_eq!(f.line_height(), 20);
    assert_eq!(
        f.image_buffer.len(),
        (f.image_width * f.image_height) as usize
    );
    let ma = *f.get_metrics(&'a').unwrap();
    assert_eq!(ma.glyph_width, 2);
    assert_eq!(ma.glyph_height, 2);
    assert_eq!(ma.advance, 10);
    assert_eq!(ma.lsb, 1);
    assert_eq!(ma.tsb, 7);
    // The atlas cell named by the entry holds the glyph's pixels.
    let w = f.image_width as usize;
    for yy in 0..2usize {
        for xx in 0..2usize {
            assert_eq!(
                f.image_buffer[(ma.glyph_pos_y as usize + yy) * w + ma.glyph_pos_x as usize + xx],
                7
            );
        }
    }
    // 'c' is absent but falls back to 'a' for rendering.
    assert_eq!(*f.get_metrics(&'c').unwrap(), ma);
    assert!(!f.is_char_valid(&'c'));
    assert!(f.is_char_valid(&'b'));
    // The standalone table copy carries the same entries.
    let t = f.get_metrics_info();
    assert_eq!(*t.get_metrics(&'b').unwrap(), *f.get_metrics(&'b').unwrap());
}

#[test]
fn build_font_info_last_glyph_wins() {
    // The same character rasterized twice keeps its newest metrics.
    let mut g1 = bitmap('a', 2, 2, 7);
    g1.advance = 11;
    let mut g2 = bitmap('a', 2, 2, 8);
    g2.advance = 13;
    let f = build_font_info(&vec![g1, g2], 16, 20, None, "dup".to_string()).unwrap();
    assert_eq!(f.get_metrics(&'a').unwrap().advance, 13);
}

#[test]
fn build_font_info_reports_packing_failure() {
    let big = bitmap('a', 40000, 1, 0);
    assert!(build_font_info(&vec![big], 16, 20, None, "big".to_string()).is_err());
}
