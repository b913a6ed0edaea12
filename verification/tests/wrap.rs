use text_console::text::{FontMetricsInfo, GlyphMetrics};

/// A table where every printable ASCII character advances by `advance`,
/// has left-side bearing `lsb` and glyph width `glyph_width`.
fn uniform_table(advance: u16, lsb: i16, glyph_width: u16) -> FontMetricsInfo {
    let mut char_data = Vec::new();
    for u in 32u32..127u32 {
        let c = char::from_u32(u).unwrap();
        char_data.push((
            c,
            GlyphMetrics {
                glyph_pos_x: 0,
                glyph_pos_y: 0,
                glyph_width,
                glyph_height: 10,
                advance,
                lsb,
                tsb: 8,
            },
        ));
    }
    FontMetricsInfo {
        char_data,
        font_size: 16,
        height: 20,
        not_found_char: None,
        ignore_chars: vec!['\r'],
    }
}

fn lines(table: &FontMetricsInfo, text: &str, max: Option<u32>) -> Vec<String> {
    table.split_lines_vec(text, max)
}

#[test]
fn wrap_uniform_glyphs_breaks_greedily() {
    // advance 10, no bearing, visible width 5: three glyphs fit in 25 units
    // (0+0+5, 10+5, 20+5), the fourth would reach 35.
    let t = uniform_table(10, 0, 5);
    let got = lines(&t, "abcdefghij", Some(25));
    assert_eq!(got, vec!["abc", "def", "ghi", "j"]);
}

#[test]
fn wrap_newline_is_a_hard_break() {
    let t = uniform_table(10, 0, 5);
    assert_eq!(lines(&t, "hello\nworld", None), vec!["hello", "world"]);
}

#[test]
fn wrap_newline_breaks_even_without_metrics() {
    // '\n' has no table entry and no fallback is configured; it still breaks.
    let t = uniform_table(10, 0, 5);
    assert_eq!(lines(&t, "ab\ncd", Some(1000)), vec!["ab", "cd"]);
}

#[test]
fn wrap_empty_text_has_no_lines() {
    let t = uniform_table(10, 0, 5);
    assert_eq!(lines(&t, "", None), Vec::<String>::new());
    assert_eq!(lines(&t, "", Some(10)), Vec::<String>::new());
}

#[test]
fn wrap_lone_newline_yields_one_empty_line() {
    let t = uniform_table(10, 0, 5);
    assert_eq!(lines(&t, "\n", None), vec![""]);
}

#[test]
fn wrap_word_defers_whole_word() {
    // "aa" fits (extents 5, 15); appending " bb" overflows at 'b' with the
    // line non-empty, so the whole word moves down; the space stays on the
    // first line because 20+10 <= 30.
    let t = uniform_table(10, 0, 5);
    assert_eq!(lines(&t, "aa bb", Some(30)), vec!["aa ", "bb"]);
}

#[test]
fn wrap_overflowing_space_is_dropped() {
    // Width 25: "aa" uses advance 20; the space would reach 30 > 25, so it
    // is dropped and the line ends.
    let t = uniform_table(10, 0, 5);
    assert_eq!(lines(&t, "aa bb", Some(25)), vec!["aa", "bb"]);
}

#[test]
fn wrap_oversized_char_gets_its_own_line() {
    // A single glyph wider than the limit still comes out alone.
    let t = uniform_table(10, 0, 50);
    assert_eq!(lines(&t, "x", Some(25)), vec!["x"]);
    // And inside a word each oversized character progresses one at a time.
    assert_eq!(lines(&t, "xy", Some(25)), vec!["x", "y"]);
}

#[test]
fn wrap_mid_word_split_emits_built_part() {
    // Width 25 fits two glyphs of a word; the rest is deferred.
    let t = uniform_table(10, 0, 5);
    assert_eq!(lines(&t, "abcd", Some(15)), vec!["ab", "cd"]);
}

#[test]
fn wrap_skips_characters_without_metrics() {
    // 'é' has no entry and no fallback: it takes no width and vanishes.
    let t = uniform_table(10, 0, 5);
    assert_eq!(lines(&t, "a\u{e9}b", Some(1000)), vec!["ab"]);
}

#[test]
fn wrap_is_deterministic() {
    let t = uniform_table(10, 0, 5);
    let a = lines(&t, "the quick brown fox jumps over it", Some(85));
    let b = lines(&t, "the quick brown fox jumps over it", Some(85));
    assert_eq!(a, b);
}

#[test]
fn wrap_rejoin_with_spaces_is_stable() {
    // Without forced mid-word splits, joining the wrapped lines with single
    // spaces and re-wrapping reproduces the same lines.
    let t = uniform_table(10, 0, 5);
    let first = lines(&t, "aaa bbb ccc dd", Some(35));
    let joined = first.join(" ");
    let second = lines(&t, &joined, Some(35));
    assert_eq!(first, second);
}

#[test]
fn wrap_iterator_is_restartable() {
    let t = uniform_table(10, 0, 5);
    let mut it1 = t.split_lines("one two", Some(35));
    let mut it2 = t.split_lines("one two", Some(35));
    loop {
        let a = it1.next();
        let b = it2.next();
        assert_eq!(a, b);
        if a.is_none() {
            break;
        }
    }
}

#[test]
fn text_width_uses_last_char_extent() {
    // advance 10, lsb 2, glyph width 5: extent of "abc" is 20 + 2 + 5.
    let t = uniform_table(10, 2, 5);
    assert_eq!(t.text_width("abc"), 27);
    assert_eq!(t.text_width(""), 0);
    // Width measurement skips characters without metrics, the newline
    // included: without an entry for '\n' the text measures as one line.
    assert_eq!(t.text_width("abcd\nab"), 57);
    // With an entry for '\n', it resets the running advance and the widest
    // line wins.
    let mut t2 = uniform_table(10, 2, 5);
    t2.char_data.push((
        '\n',
        GlyphMetrics {
            glyph_pos_x: 0,
            glyph_pos_y: 0,
            glyph_width: 0,
            glyph_height: 0,
            advance: 0,
            lsb: 0,
            tsb: 0,
        },
    ));
    assert_eq!(t2.text_width("abcd\nab"), 37);
}

#[test]
fn fallback_renders_but_is_not_valid_input() {
    let mut t = uniform_table(10, 0, 5);
    t.not_found_char = Some('?');
    // 'é' is absent: it renders through '?', so it now takes width.
    assert_eq!(t.split_lines_vec("\u{e9}\u{e9}", Some(1000)), vec!["\u{e9}\u{e9}"]);
    assert!(t.get_metrics(&'\u{e9}').is_some());
    // But the fallback does not make it valid for input filtering.
    assert!(!t.is_char_valid(&'\u{e9}'));
    assert!(t.is_char_valid(&'a'));
}

#[test]
fn ignored_chars_render_as_nothing() {
    let t = uniform_table(10, 0, 5);
    // '\r' is in the ignore set of the default table layout.
    assert!(t.get_metrics(&'\r').is_none());
    assert!(!t.is_char_valid(&'\r'));
    assert_eq!(t.split_lines_vec("a\rb", Some(1000)), vec!["ab"]);
}

#[test]
fn get_metrics_returns_direct_entry() {
    let t = uniform_table(10, 3, 5);
    let m = t.get_metrics(&'a').unwrap();
    assert_eq!(m.advance, 10);
    assert_eq!(m.lsb, 3);
    assert_eq!(m.glyph_width, 5);
    assert!(t.get_metrics(&'\u{3042}').is_none());
}

#[test]
fn line_height_and_font_size_report_fields() {
    let t = uniform_table(10, 0, 5);
    assert_eq!(t.line_height(), 20);
    assert_eq!(t.font_size(), 16);
}

#[test]
fn layout_produces_positioned_instances() {
    // advance 10, lsb 2, tsb 8, line height 20: instances sit at the pen
    // plus bearings, and a newline moves the pen down one line.
    let t = uniform_table(10, 2, 5);
    let gs = t.layout_text("ab\nc");
    assert_eq!(gs.len(), 3);
    assert_eq!((gs[0].x, gs[0].y), (2, -8));
    assert_eq!((gs[1].x, gs[1].y), (12, -8));
    assert_eq!((gs[2].x, gs[2].y), (2, 12));
    assert_eq!((gs[0].width, gs[0].height), (5, 10));
    // Characters without metrics produce no instance and take no width.
    let gs2 = t.layout_text("a\u{e9}b");
    assert_eq!(gs2.len(), 2);
    assert_eq!(gs2[1].x, 12);
}
