use text_console::rrs::{RenderRecord, UpdateReturn};
use text_console::text::{char_bytes, default_and_japanese, default_characters};
use text_console::textured;
use text_console::util::indirect_handles::HandleTracker;
use text_console::util::{clampi, is_whitespace, WordSpaceIterator};
use text_console::win::EventState;

#[test]
fn clampi_clamps_and_handles_empty_interval() {
    assert_eq!(clampi(5, 0, 10), 5);
    assert_eq!(clampi(-3, 0, 10), 0);
    assert_eq!(clampi(42, 0, 10), 10);
    // An empty interval yields its start.
    assert_eq!(clampi(7, 9, 2), 9);
}

#[test]
fn whitespace_predicate() {
    assert!(is_whitespace(' '));
    assert!(is_whitespace('\t'));
    assert!(is_whitespace('\n'));
    assert!(!is_whitespace('\r'));
    assert!(!is_whitespace('a'));
}

#[test]
fn word_space_runs_preserve_boundaries() {
    let mut it = WordSpaceIterator::new("hello  world\n x");
    assert_eq!(it.next().as_deref(), Some("hello"));
    assert_eq!(it.next().as_deref(), Some("  "));
    assert_eq!(it.next().as_deref(), Some("world"));
    assert_eq!(it.next().as_deref(), Some("\n "));
    assert_eq!(it.next().as_deref(), Some("x"));
    assert_eq!(it.next(), None);
    assert_eq!(it.next(), None);
}

#[test]
fn word_space_empty_text() {
    let mut it = WordSpaceIterator::new("");
    assert_eq!(it.next(), None);
}

#[test]
fn char_bytes_renders_utf8_in_decimal() {
    assert_eq!(char_bytes('a'), "97 ");
    assert_eq!(char_bytes('\u{e9}'), "195 169 ");
    assert_eq!(char_bytes('\u{3042}'), "227 129 130 ");
    assert_eq!(char_bytes('\u{1F600}'), "240 159 152 128 ");
}

#[test]
fn default_character_sets() {
    let d = default_characters();
    assert_eq!(d.len(), 96);
    assert_eq!(d[0], '\0');
    assert_eq!(d[1], ' ');
    assert_eq!(d[95], '~');
    let j = default_and_japanese();
    assert_eq!(j.len(), 21501);
    assert_eq!(&j[..96], &d[..]);
    assert_eq!(j[96], '\u{3000}');
    assert_eq!(j[351], '\u{ff00}');
    assert_eq!(j[590], '\u{4e00}');
    assert_eq!(j[21500], '\u{9fae}');
}

#[test]
fn handle_tracker_roundtrip() {
    let mut t: HandleTracker<textured::Texture, i64> = HandleTracker::new();
    let h1 = t.put(41);
    let h2 = t.put(42);
    let w1 = h1.make_weak();
    let w2 = h2.make_weak();
    assert_eq!(t.get(&w1), Some(&41));
    assert_eq!(t.get(&w2), Some(&42));
    if let Some(v) = t.get_mut(&w1) {
        *v = 43;
    }
    assert_eq!(t.get(&w1), Some(&43));
    // Releasing keeps the entry until it is pruned.
    t.release(h1);
    assert_eq!(t.get(&w1), Some(&43));
    t.prune();
    assert_eq!(t.get(&w1), None);
    assert_eq!(t.get(&w2), Some(&42));
    // Ids are never reused after a prune.
    let h3 = t.put(44);
    let w3 = h3.make_weak();
    assert_eq!(t.get(&w3), Some(&44));
    assert_eq!(t.get(&w2), Some(&42));
}

#[test]
fn render_record_starts_empty() {
    let r: RenderRecord<u32> = RenderRecord::new();
    assert!(r.entries.is_empty());
    let mut r2: RenderRecord<u32> = RenderRecord::new();
    r2.entries.push(7);
    assert_eq!(r2.entries, vec![7]);
}

#[test]
fn event_state_skipped() {
    assert!(EventState::Skipped.is_skipped());
    assert!(!EventState::Consumed.is_skipped());
}

#[test]
fn update_return_carries_texture_handle() {
    let mut t: HandleTracker<textured::Texture, u8> = HandleTracker::new();
    let h = t.put(1);
    let w = h.make_weak();
    let u = UpdateReturn::Textured(textured::UpdateReturn(h));
    match u {
        UpdateReturn::Textured(textured::UpdateReturn(inner)) => {
            assert_eq!(t.get(&inner.make_weak()), Some(&1));
            assert_eq!(t.get(&w), Some(&1));
        },
    }
}
