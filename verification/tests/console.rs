use text_console::chatbox::{Chatbox, FocusedEvent, ReceiveResult, BAR_FLICKER_TIME};
use text_console::text::{FontMetricsInfo, GlyphMetrics};

/// Printable ASCII, advance 10 units, no bearing, glyph width 5.
fn table() -> FontMetricsInfo {
    let mut char_data = Vec::new();
    for u in 32u32..127u32 {
        let c = char::from_u32(u).unwrap();
        char_data.push((
            c,
            GlyphMetrics {
                glyph_pos_x: 0,
                glyph_pos_y: 0,
                glyph_width: 5,
                glyph_height: 10,
                advance: 10,
                lsb: 0,
                tsb: 8,
            },
        ));
    }
    FontMetricsInfo {
        char_data,
        font_size: 16,
        height: 20,
        not_found_char: None,
        ignore_chars: vec!['\r'],
    }
}

#[test]
fn console_new_defaults() {
    let c = Chatbox::new(table(), 20, 10);
    assert_eq!(c.width(), 800);
    assert_eq!(c.visible_lines(), 0);
    assert_eq!(c.line_height(), 20);
    assert_eq!(c.max_scroll(), 0);
    assert_eq!(c.scroll_speed(), 20);
    assert_eq!(c.get_typing(), "");
    assert!(c.get_visible_history().is_empty());
}

#[test]
fn console_history_keeps_newest_lines() {
    // history_length = 3; appending four one-line strings evicts the oldest.
    let mut c = Chatbox::new(table(), 20, 3);
    c.resize(800, 3);
    for s in ["a", "b", "c", "d"] {
        c.append_line(s);
    }
    assert_eq!(c.get_visible_history(), &vec!["b", "c", "d"]);
}

#[test]
fn console_multiline_append_is_normalized_and_bounded() {
    // history_length = 2; one append with embedded newlines keeps the two
    // newest logical lines.
    let mut c = Chatbox::new(table(), 20, 2);
    c.resize(800, 2);
    c.append_line("x\ny\nz");
    assert_eq!(c.get_visible_history(), &vec!["y", "z"]);
}

#[test]
fn console_scroll_window_bottom_aligned() {
    // visible_lines = 2 and five wrapped lines: scroll 0 shows the last two,
    // scroll clamped to max_scroll = 3 shows the first two.
    let mut c = Chatbox::new(table(), 20, 10);
    c.resize(800, 2);
    for s in ["l1", "l2", "l3", "l4", "l5"] {
        c.append_line(s);
    }
    c.set_scroll(0);
    assert_eq!(c.get_visible_history(), &vec!["l4", "l5"]);
    assert_eq!(c.max_scroll(), 3);
    c.set_scroll(3);
    assert_eq!(c.get_visible_history(), &vec!["l1", "l2"]);
    // Out-of-range targets are clamped, never rejected.
    c.set_scroll(100);
    assert_eq!(c.get_visible_history(), &vec!["l1", "l2"]);
    c.set_scroll(-5);
    assert_eq!(c.get_visible_history(), &vec!["l4", "l5"]);
}

#[test]
fn console_fractional_scroll_accumulates() {
    let mut c = Chatbox::new(table(), 20, 10);
    c.resize(800, 2);
    for s in ["l1", "l2", "l3", "l4", "l5"] {
        c.append_line(s);
    }
    c.set_scroll(0);
    // 20 units make one line; 4 units round to no step.
    c.process_scroll(4);
    assert_eq!(c.get_visible_history(), &vec!["l4", "l5"]);
    // 10 more: 14 accumulated rounds to one step (half rounds away from
    // zero), remainder carried.
    c.process_scroll(10);
    assert_eq!(c.get_visible_history(), &vec!["l3", "l4"]);
    // Scrolling far past the top clamps at max_scroll.
    c.process_scroll(1000);
    assert_eq!(c.get_visible_history(), &vec!["l1", "l2"]);
    // And far down clamps at zero.
    c.process_scroll(-1000);
    assert_eq!(c.get_visible_history(), &vec!["l4", "l5"]);
}

#[test]
fn console_typing_edits() {
    let mut c = Chatbox::new(table(), 20, 10);
    c.add_typing('h');
    c.add_typing('i');
    assert_eq!(c.get_typing(), "hi");
    c.add_typing_lines(" there");
    assert_eq!(c.get_typing(), "hi there");
    c.remove_typing(3);
    assert_eq!(c.get_typing(), "hi th");
    // Removing past empty is a no-op, not an error.
    c.remove_typing(100);
    assert_eq!(c.get_typing(), "");
    c.add_typing('x');
    c.erase_typing();
    assert_eq!(c.get_typing(), "");
}

#[test]
fn console_render_fades_after_start_time() {
    let mut c = Chatbox::new(table(), 20, 10);
    c.resize(800, 2);
    c.append_line("hello");
    // Fresh content is fully opaque.
    let (bg, text) = c.render();
    assert_eq!(bg.opacity_milli, 600);
    assert_eq!(text[0].opacity_milli, 1000);
    // Half way through the fade window the opacity has halved.
    c.update(3500);
    let (bg2, text2) = c.render();
    assert_eq!(text2[0].opacity_milli, 500);
    assert_eq!(bg2.opacity_milli, 300);
    // Past the fade window everything is invisible.
    c.update(600);
    let (_, text3) = c.render();
    assert_eq!(text3[0].opacity_milli, 0);
}

#[test]
fn console_render_positions_and_caret() {
    let mut c = Chatbox::new(table(), 20, 3);
    c.resize(800, 3);
    c.append_line("one");
    c.append_line("two");
    c.focus();
    c.add_typing('q');
    let (bg, text) = c.render();
    // Background: three rows plus a quarter line, plus the typing row.
    assert_eq!(bg.width, 800);
    assert_eq!(bg.height, 3 * 20 + 5 + 20);
    assert_eq!(bg.x, 0);
    assert_eq!(bg.y, 0);
    // One blank row above the two content rows bottom-aligns them.
    assert_eq!(text.len(), 3);
    assert_eq!(text[0].text, "one");
    assert_eq!(text[0].y, 20 * 2);
    assert_eq!(text[1].text, "two");
    assert_eq!(text[1].y, 20 * 3);
    // Focused: caret row after the content, blink currently off.
    assert_eq!(text[2].text, "> q");
    assert_eq!(text[2].y, 20 * 4);
    // While focused no fade applies, whatever the clock says.
    assert_eq!(text[2].opacity_milli, 1000);
}

#[test]
fn console_caret_blinks_in_second_half_of_period() {
    let mut c = Chatbox::new(table(), 20, 3);
    c.resize(800, 1);
    c.focus();
    c.update(BAR_FLICKER_TIME as u32 / 2 + 1);
    let (_, text) = c.render();
    assert_eq!(text.last().unwrap().text, "> |");
    // The blink clock wraps around the period.
    c.update(BAR_FLICKER_TIME as u32 / 2);
    let (_, text2) = c.render();
    assert_eq!(text2.last().unwrap().text, "> ");
}

#[test]
fn console_focus_resets_scroll() {
    let mut c = Chatbox::new(table(), 20, 10);
    c.resize(800, 2);
    for s in ["l1", "l2", "l3", "l4"] {
        c.append_line(s);
    }
    c.set_scroll(2);
    assert_eq!(c.get_visible_history(), &vec!["l1", "l2"]);
    c.focus();
    assert_eq!(c.get_visible_history(), &vec!["l3", "l4"]);
}

#[test]
fn console_event_escape_relinquishes() {
    let mut c = Chatbox::new(table(), 20, 10);
    c.focus();
    let r = c.receive_focused_event(&FocusedEvent::KeyEscape);
    assert!(r.relinquished());
    assert!(r.consumed());
}

#[test]
fn console_event_return_commits_or_relinquishes() {
    let mut c = Chatbox::new(table(), 20, 10);
    c.focus();
    // Empty buffer: return gives focus back.
    let r = c.receive_focused_event(&FocusedEvent::KeyReturn);
    assert!(r.relinquished());
    // Non-empty buffer: the committed text comes back as a command and the
    // buffer clears, without changing focus.
    c.focus();
    c.add_typing('g');
    c.add_typing('o');
    let r2 = c.receive_focused_event(&FocusedEvent::KeyReturn);
    assert!(!r2.relinquished());
    assert_eq!(r2.get_command().as_deref(), Some("go"));
    assert_eq!(c.get_typing(), "");
}

#[test]
fn console_event_characters_and_backspace() {
    let mut c = Chatbox::new(table(), 20, 10);
    c.focus();
    assert!(c.receive_focused_event(&FocusedEvent::Character('a')).consumed());
    // An invalid character (not in the table) is ignored entirely.
    let r = c.receive_focused_event(&FocusedEvent::Character('\u{3042}'));
    assert!(!r.consumed());
    assert_eq!(c.get_typing(), "a");
    // Backspace erases one character.
    assert!(c.receive_focused_event(&FocusedEvent::Character('\u{8}')).consumed());
    assert_eq!(c.get_typing(), "");
}

#[test]
fn console_event_paste() {
    let mut c = Chatbox::new(table(), 20, 10);
    c.resize(800, 2);
    c.focus();
    let r = c.receive_focused_event(&FocusedEvent::KeyPaste(Ok("pasted".to_string())));
    assert!(r.consumed());
    assert_eq!(c.get_typing(), "pasted");
    // A clipboard error is reported as a history line instead.
    let r2 = c.receive_focused_event(&FocusedEvent::KeyPaste(Err("denied".to_string())));
    assert!(r2.consumed());
    assert_eq!(c.get_visible_history(), &vec!["Error pasting: denied"]);
}

#[test]
fn console_event_scroll_and_other() {
    let mut c = Chatbox::new(table(), 20, 10);
    c.resize(800, 2);
    for s in ["l1", "l2", "l3"] {
        c.append_line(s);
    }
    c.focus();
    assert!(c.receive_focused_event(&FocusedEvent::Scroll(40)).consumed());
    assert_eq!(c.get_visible_history(), &vec!["l1", "l2"]);
    assert!(c.receive_focused_event(&FocusedEvent::KeyOther).consumed());
    assert!(!c.receive_focused_event(&FocusedEvent::Other).consumed());
}

#[test]
fn receive_result_accessors() {
    assert!(!ReceiveResult::Ignored.consumed());
    assert!(ReceiveResult::Consumed.consumed());
    assert!(ReceiveResult::Relinquish.relinquished());
    let cmd = ReceiveResult::Command("run".to_string());
    assert!(cmd.consumed());
    assert!(!cmd.relinquished());
    assert_eq!(cmd.get_command().as_deref(), Some("run"));
    assert!(ReceiveResult::Consumed.get_command().is_none());
}

#[test]
fn console_set_scroll_speed() {
    let mut c = Chatbox::new(table(), 20, 10);
    c.resize(800, 1);
    for s in ["l1", "l2", "l3"] {
        c.append_line(s);
    }
    c.set_scroll(0);
    c.set_scroll_speed(2);
    assert_eq!(c.scroll_speed(), 2);
    c.process_scroll(2);
    assert_eq!(c.get_visible_history(), &vec!["l2"]);
}

#[test]
fn console_zero_capacity_history() {
    // history_length = 0: appends are accepted and nothing is kept.
    let mut c = Chatbox::new(table(), 20, 0);
    c.resize(800, 2);
    c.append_line("dropped");
    assert!(c.get_visible_history().is_empty());
    assert_eq!(c.max_scroll(), 0);
}

#[test]
fn console_zero_visible_lines() {
    // visible_lines = 0: the window is empty and every wrapped line counts
    // toward max_scroll.
    let mut c = Chatbox::new(table(), 20, 5);
    c.resize(800, 0);
    c.append_line("a");
    c.append_line("b");
    assert!(c.get_visible_history().is_empty());
    assert_eq!(c.max_scroll(), 2);
}

#[test]
fn console_long_line_wraps_against_width() {
    // Width 25 units fits three glyphs (advance 10, width 5): a six-glyph
    // line wraps into two rows and the window shows them bottom-aligned.
    let mut c = Chatbox::new(table(), 20, 5);
    c.resize(25, 2);
    c.append_line("abcdef");
    assert_eq!(c.get_visible_history(), &vec!["abc", "def"]);
}
