//! Bounded, scrollable line history for a live text console, plus the typed
//! input buffer and the event handling of a focused console.
//!
//! Times are in milliseconds, horizontal measures in the width units of the
//! font table, opacities in per-mille. Scroll input is accumulated in scroll
//! units; `scroll_speed` units make one whole line step.

use vstd::prelude::*;
use crate::text::{FontMetricsInfo, spec_split_lines};
use crate::util::{spec_clampi, push_char, pop_char};

verus! {

/// Blink period of the typing caret, in milliseconds.
pub const BAR_FLICKER_TIME: u64 = 600;

/// Time after the last append before an unfocused console starts to fade.
pub const FADE_START_TIME: u64 = 3000;

/// Time an unfocused console takes to fade from opaque to invisible.
pub const FADE_TIME: u64 = 1000;

/// What the console did with an event offered to it while focused.
pub enum ReceiveResult {
    /// The event is not for the console; the host should handle it.
    Ignored,
    /// The console handled the event and keeps focus.
    Consumed,
    /// The console handled the event and gives focus back to the host.
    Relinquish,
    /// The typed buffer was committed; the string is handed to the caller.
    Command(String),
}

impl ReceiveResult {
    /// True when the event was handled in any way.
    pub fn consumed(&self) -> (r: bool)
        ensures
            r == !(self is Ignored),
    {
        match self {
            ReceiveResult::Consumed => true,
            ReceiveResult::Relinquish => true,
            ReceiveResult::Command(_) => true,
            _ => false,
        }
    }

    /// True when the console gave focus back.
    pub fn relinquished(&self) -> (r: bool)
        ensures
            r == (self is Relinquish),
    {
        match self {
            ReceiveResult::Relinquish => true,
            _ => false,
        }
    }

    /// The committed command, if the event committed one.
    pub fn get_command(&self) -> (r: Option<String>)
        ensures
            match r {
                Some(cmd) => self is Command && cmd@ == self->Command_0@,
                None => !(self is Command),
            },
    {
        match self {
            ReceiveResult::Command(cmd) => Some(cmd.clone()),
            _ => None,
        }
    }
}

/// An input event offered to a focused console. The host decodes raw window
/// events (and reads the clipboard for a paste) before handing one in.
pub enum FocusedEvent {
    /// The escape key: leave focus.
    KeyEscape,
    /// The return key: commit the typed buffer, or leave focus when empty.
    KeyReturn,
    /// A paste, carrying the clipboard's content or the error that reading
    /// it produced.
    KeyPaste(Result<String, String>),
    /// Any other pressed key.
    KeyOther,
    /// A typed character; backspace arrives as `'\u{8}'`.
    Character(char),
    /// Scroll input, in scroll units.
    Scroll(i32),
    /// Any other event.
    Other,
}

/// The console's state as mathematical values.
pub struct ChatboxV {
    pub font: FontMetricsInfo,
    pub visible_lines: int,
    pub line_height: int,
    pub history_length: int,
    pub typing: Seq<char>,
    pub history: Seq<Seq<char>>,
    pub history_split: Seq<Seq<char>>,
    pub width: int,
    pub height: int,
    pub flicker_timer: int,
    pub typing_flicker: bool,
    pub fade_timer: int,
    pub scroll: int,
    pub max_scroll: int,
    pub scroll_float: int,
    pub scroll_speed: int,
}

/// The history lines joined by single newlines.
pub open spec fn spec_join_nl(lines: Seq<Seq<char>>) -> Seq<char>
    decreases lines.len(),
{
    if lines.len() == 0 {
        Seq::empty()
    } else if lines.len() == 1 {
        lines[0]
    } else {
        lines[0] + seq!['\n'] + spec_join_nl(lines.drop_first())
    }
}

/// The history wrapped against the current width.
pub open spec fn spec_wrapped(v: ChatboxV) -> Seq<Seq<char>> {
    spec_split_lines(v.font, spec_join_nl(v.history), Some(v.width))
}

/// The largest scroll offset: wrapped lines beyond the visible window.
pub open spec fn spec_max_scroll_of(v: ChatboxV) -> int {
    let n = spec_wrapped(v).len() as int;
    if n - v.visible_lines > 0 {
        n - v.visible_lines
    } else {
        0
    }
}

/// The visible window into the wrapped history at scroll offset `scroll`:
/// scroll zero shows the most recent lines, larger offsets reveal older ones.
pub open spec fn spec_window(v: ChatboxV, scroll: int) -> Seq<Seq<char>> {
    let w = spec_wrapped(v);
    let n = w.len() as int;
    let pos = spec_clampi(n - v.visible_lines - scroll, 0, spec_clampi(n - v.visible_lines, 0, n));
    let end = spec_clampi(pos + v.visible_lines, 0, n);
    w.subrange(pos, end)
}

/// Division rounding half away from zero, as `f32::round` of the quotient
/// would; `d` is positive.
pub open spec fn spec_round_div(n: int, d: int) -> int
    recommends
        d >= 1,
{
    let m = if n >= 0 {
        n
    } else {
        -n
    };
    let q = m / d;
    let r = m % d;
    let q2 = if 2 * r >= d {
        q + 1
    } else {
        q
    };
    if n >= 0 {
        q2
    } else {
        -q2
    }
}

/// The scroll resolution step: turn whole multiples of `scroll_speed`
/// accumulated in `scroll_float` into line steps, keep the remainder, and
/// clamp the scroll into `[0, max_scroll]` (the cached maximum).
pub open spec fn spec_resolve_scroll(v: ChatboxV) -> (int, int) {
    let lc = spec_round_div(v.scroll_float, v.scroll_speed);
    let sf2 = v.scroll_float - lc * v.scroll_speed;
    let s1 = if v.scroll + lc > 0 {
        v.scroll + lc
    } else {
        0
    };
    let s2 = if s1 > v.max_scroll {
        v.max_scroll
    } else {
        s1
    };
    (s2, sf2)
}

/// The state after recomputing the cached wrapped window: scroll input is
/// resolved, the scroll is clamped, and the cached maximum scroll and the
/// visible window are recomputed from the current history and width.
pub open spec fn spec_after_regen(v: ChatboxV) -> ChatboxV {
    let (s2, sf2) = spec_resolve_scroll(v);
    (ChatboxV {
        scroll: s2,
        scroll_float: sf2,
        max_scroll: spec_max_scroll_of(v),
        history_split: spec_window(v, s2),
        ..v
    })
}

/// Saturating add on a millisecond clock.
pub open spec fn spec_sat_add(a: int, b: int) -> int {
    if a + b > u64::MAX {
        u64::MAX as int
    } else {
        a + b
    }
}

/// A timer wrapped into `[0, BAR_FLICKER_TIME]` by repeated subtraction.
pub open spec fn spec_flicker_wrap(t: int) -> int
    decreases t,
    when t >= 0
{
    if t > BAR_FLICKER_TIME {
        spec_flicker_wrap(t - BAR_FLICKER_TIME)
    } else {
        t
    }
}

/// Bounded, scrollable line history plus typed-input state for a console.
pub struct Chatbox {
    font_info: FontMetricsInfo,
    visible_lines: i32,
    line_height: u32,
    history_length: i32,
    typing: String,
    history: Vec<String>,
    history_split: Vec<String>,
    width: u32,
    height: u64,
    flicker_timer: u64,
    typing_flicker: bool,
    fade_timer: u64,
    scroll: u64,
    max_scroll: u64,
    scroll_float: i64,
    scroll_speed: u32,
}

/// The views of a vector of strings.
pub open spec fn spec_lines(v: Seq<String>) -> Seq<Seq<char>> {
    v.map_values(|s: String| s@)
}

impl View for Chatbox {
    type V = ChatboxV;

    closed spec fn view(&self) -> ChatboxV {
        ChatboxV {
            font: self.font_info,
            visible_lines: self.visible_lines as int,
            line_height: self.line_height as int,
            history_length: self.history_length as int,
            typing: self.typing@,
            history: spec_lines(self.history@),
            history_split: spec_lines(self.history_split@),
            width: self.width as int,
            height: self.height as int,
            flicker_timer: self.flicker_timer as int,
            typing_flicker: self.typing_flicker,
            fade_timer: self.fade_timer as int,
            scroll: self.scroll as int,
            max_scroll: self.max_scroll as int,
            scroll_float: self.scroll_float as int,
            scroll_speed: self.scroll_speed as int,
        }
    }
}

/// The configuration and accumulator facts that every operation preserves;
/// the cached window and maximum scroll are constrained on top of these by
/// [`Chatbox::wf`].
pub open spec fn wf_base(v: ChatboxV) -> bool {
    &&& v.font.wf()
    &&& v.history_length >= 0
    &&& v.visible_lines >= 0
    &&& v.scroll >= 0
    &&& v.scroll <= u64::MAX
    &&& v.scroll_speed >= 1
    &&& v.scroll_speed <= u32::MAX
    &&& v.history.len() <= v.history_length
    &&& v.flicker_timer <= BAR_FLICKER_TIME
    &&& 0 <= v.height <= 0x8000_0000_4000_0000
    &&& -v.scroll_speed <= v.scroll_float <= v.scroll_speed
}

impl Chatbox {
    /// Well-formed: base facts hold and the cached maximum scroll and window
    /// agree with the current history, width and visible-line count.
    pub open spec fn wf(&self) -> bool {
        &&& wf_base(self@)
        &&& self@.max_scroll == spec_max_scroll_of(self@)
        &&& self@.history_split == spec_window(self@, self@.scroll)
    }

    /// A fresh console: empty history and typing buffer, no visible lines
    /// yet, default width, fully faded out, unfocused.
    pub fn new(font_info: FontMetricsInfo, line_height: u32, history_length: i32) -> (r: Chatbox)
        requires
            history_length >= 0,
            font_info.wf(),
        ensures
            r.wf(),
            r@ == (ChatboxV {
                font: font_info,
                visible_lines: 0,
                line_height: line_height as int,
                history_length: history_length as int,
                typing: Seq::empty(),
                history: Seq::empty(),
                history_split: Seq::empty(),
                width: 800,
                height: 0,
                flicker_timer: 0,
                typing_flicker: false,
                fade_timer: u64::MAX as int,
                scroll: 0,
                max_scroll: 0,
                scroll_float: 0,
                scroll_speed: 20,
            }),
    {
        let r = Chatbox {
            font_info,
            visible_lines: 0,
            line_height,
            history_length,
            typing: String::new(),
            history: Vec::new(),
            history_split: Vec::new(),
            width: 800,
            height: 0,
            flicker_timer: 0,
            typing_flicker: false,
            fade_timer: u64::MAX,
            scroll: 0,
            max_scroll: 0,
            scroll_float: 0,
            scroll_speed: 20,
        };
        proof {
            assert(spec_lines(r.history@) =~= Seq::<Seq<char>>::empty());
            assert(spec_lines(r.history_split@) =~= Seq::<Seq<char>>::empty());
            lemma_empty_console_window(r@);
        }
        r
    }

    /// Vertical distance between consecutive lines, in width units.
    pub fn line_height(&self) -> (r: u32)
        ensures
            r as int == self@.line_height,
    {
        self.line_height
    }

    /// Number of history lines the window shows at once.
    pub fn visible_lines(&self) -> (r: i32)
        ensures
            r as int == self@.visible_lines,
    {
        self.visible_lines
    }

    /// Current layout width, in width units.
    pub fn width(&self) -> (r: u32)
        ensures
            r as int == self@.width,
    {
        self.width
    }

    /// The cached largest scroll offset.
    pub fn max_scroll(&self) -> (r: u64)
        ensures
            r as int == self@.max_scroll,
    {
        self.max_scroll
    }

    /// How many scroll units make one whole line step.
    pub fn scroll_speed(&self) -> (r: u32)
        ensures
            r as int == self@.scroll_speed,
    {
        self.scroll_speed
    }

    /// Change how many scroll units make one line step; pending fractional
    /// scroll input is discarded.
    pub fn set_scroll_speed(&mut self, units_per_line: u32)
        requires
            old(self).wf(),
            units_per_line >= 1,
        ensures
            final(self).wf(),
            final(self)@ == (ChatboxV {
                scroll_speed: units_per_line as int,
                scroll_float: 0,
                ..old(self)@
            }),
    {
        self.scroll_speed = units_per_line;
        self.scroll_float = 0;
    }

    /// The uncommitted typed input.
    pub fn get_typing(&self) -> (r: &String)
        ensures
            r@ == self@.typing,
    {
        &self.typing
    }

    /// The cached visible window of wrapped history lines, oldest first.
    pub fn get_visible_history(&self) -> (r: &Vec<String>)
        ensures
            spec_lines(r@) == self@.history_split,
    {
        &self.history_split
    }

    /// Append a typed character to the input buffer.
    pub fn add_typing(&mut self, c: char)
        ensures
            final(self)@ == (ChatboxV { typing: old(self)@.typing.push(c), ..old(self)@ }),
            old(self).wf() ==> final(self).wf(),
    {
        push_char(&mut self.typing, c);
    }

    /// Append pasted text to the input buffer.
    pub fn add_typing_lines(&mut self, s: &str)
        ensures
            final(self)@ == (ChatboxV { typing: old(self)@.typing + s@, ..old(self)@ }),
            old(self).wf() ==> final(self).wf(),
    {
        self.typing.append(s);
    }

    /// Remove up to `count` characters from the end of the input buffer;
    /// a no-op past empty.
    pub fn remove_typing(&mut self, count: i32)
        requires
            count >= 0,
        ensures
            final(self)@ == (ChatboxV {
                typing: old(self)@.typing.take(
                    if old(self)@.typing.len() - count > 0 {
                        old(self)@.typing.len() - count
                    } else {
                        0
                    },
                ),
                ..old(self)@
            }),
            old(self).wf() ==> final(self).wf(),
    {
        let mut i: i32 = 0;
        proof {
            assert(old(self)@.typing.take(old(self)@.typing.len() as int) =~= old(self)@.typing);
        }
        while i < count
            invariant
                0 <= i <= count,
                self@ == (ChatboxV {
                    typing: old(self)@.typing.take(
                        if old(self)@.typing.len() - i > 0 {
                            old(self)@.typing.len() - i
                        } else {
                            0
                        },
                    ),
                    ..old(self)@
                }),
            decreases count - i,
        {
            let ghost pre = self@.typing;
            if self.typing.as_str().is_empty() {
                proof {
                    assert(pre.len() == 0);
                    assert(pre.take(0) =~= pre);
                    assert(old(self)@.typing.take(
                        if old(self)@.typing.len() - count > 0 {
                            old(self)@.typing.len() - count as int
                        } else {
                            0
                        },
                    ) =~= pre);
                }
                return ;
            }
            let c = pop_char(&mut self.typing);
            proof {
                assert(pre.drop_last() =~= pre.take(pre.len() - 1));
                let n = old(self)@.typing.len();
                assert(self@.typing =~= old(self)@.typing.take(
                    if n - (i + 1) > 0 {
                        n - (i + 1)
                    } else {
                        0
                    },
                ));
            }
            i = i + 1;
        }
        proof {
            assert(old(self)@ == (ChatboxV { typing: old(self)@.typing, ..old(self)@ }));
        }
    }

    /// Clear the input buffer.
    pub fn erase_typing(&mut self)
        ensures
            final(self)@ == (ChatboxV { typing: Seq::empty(), ..old(self)@ }),
            old(self).wf() ==> final(self).wf(),
    {
        self.typing = String::new();
    }

    /// Focus or unfocus the typing caret; both blink and fade restart.
    pub fn set_typing_flicker(&mut self, typing_flicker: bool)
        ensures
            final(self)@ == (ChatboxV {
                typing_flicker,
                flicker_timer: 0,
                fade_timer: 0,
                ..old(self)@
            }),
            old(self).wf() ==> final(self).wf(),
    {
        self.typing_flicker = typing_flicker;
        self.flicker_timer = 0;
        self.fade_timer = 0;
    }

    /// Advance the fade clock, saturating; while focused, advance and wrap
    /// the caret blink clock.
    pub fn update(&mut self, delta_time: u32)
        requires
            old(self).wf(),
        ensures
            final(self).wf(),
            final(self)@ == (ChatboxV {
                fade_timer: spec_sat_add(old(self)@.fade_timer, delta_time as int),
                flicker_timer: if old(self)@.typing_flicker {
                    spec_flicker_wrap(old(self)@.flicker_timer + delta_time as int)
                } else {
                    old(self)@.flicker_timer
                },
                ..old(self)@
            }),
    {
        if self.fade_timer > u64::MAX - (delta_time as u64) {
            self.fade_timer = u64::MAX;
        } else {
            self.fade_timer = self.fade_timer + (delta_time as u64);
        }
        if self.typing_flicker {
            self.flicker_timer = self.flicker_timer + (delta_time as u64);
            while self.flicker_timer > BAR_FLICKER_TIME
                invariant
                    spec_flicker_wrap(self@.flicker_timer) == spec_flicker_wrap(
                        old(self)@.flicker_timer + delta_time as int,
                    ),
                    self@ == (ChatboxV {
                        fade_timer: self@.fade_timer,
                        flicker_timer: self@.flicker_timer,
                        ..old(self)@
                    }),
                    self@.fade_timer == spec_sat_add(old(self)@.fade_timer, delta_time as int),
                decreases self.flicker_timer,
            {
                self.flicker_timer = self.flicker_timer - BAR_FLICKER_TIME;
            }
        }
    }
}

impl Chatbox {
    /// Recompute the cached window: resolve accumulated scroll input, clamp
    /// the scroll against the cached maximum, re-wrap the history, and cache
    /// the new maximum scroll and visible window.
    fn regen_split(&mut self)
        requires
            wf_cfg(old(self)@),
            -(old(self)@.scroll_speed + 0x1_0000_0000) <= old(self)@.scroll_float <= old(
                self,
            )@.scroll_speed + 0x1_0000_0000,
        ensures
            final(self).wf(),
            final(self)@ == spec_after_regen(old(self)@),
    {
        let ghost v0 = self@;
        // resolve scrolling: whole line steps out of the accumulated input
        let lc = round_div(self.scroll_float, self.scroll_speed);
        proof {
            lemma_round_div_props(v0.scroll_float, v0.scroll_speed);
        }
        self.scroll_float = self.scroll_float - lc * (self.scroll_speed as i64);
        let s1: i128 = (self.scroll as i128) + (lc as i128);
        let s2: i128 = if s1 < 0 {
            0
        } else {
            s1
        };
        let s3: i128 = if s2 > (self.max_scroll as i128) {
            self.max_scroll as i128
        } else {
            s2
        };
        self.scroll = s3 as u64;
        // re-wrap the joined history against the current width
        let joined = join_nl(&self.history);
        let wrap = self.font_info.split_lines_vec(joined.as_str(), Some(self.width));
        let wl = wrap.len();
        proof {
            assert(spec_lines(wrap@).len() == wrap@.len());
            assert(spec_wrapped(v0).len() == wl);
        }
        // window position, bottom-aligned: scroll zero shows the newest lines
        let n128: i128 = wl as i128;
        let vis: i128 = self.visible_lines as i128;
        let inner: i128 = clamp_i128(n128 - vis, 0, n128);
        let pos: i128 = clamp_i128(n128 - vis - (self.scroll as i128), 0, inner);
        let end: i128 = clamp_i128(pos + vis, 0, n128);
        if n128 - vis > 0 {
            self.max_scroll = (wl as u64) - (self.visible_lines as u64);
        } else {
            self.max_scroll = 0;
        }
        let posu: usize = pos as usize;
        let endu: usize = end as usize;
        let mut split: Vec<String> = Vec::new();
        let mut i: usize = posu;
        while i < endu
            invariant
                posu <= i <= endu <= wrap@.len(),
                spec_lines(split@) =~= spec_lines(wrap@).subrange(posu as int, i as int),
            decreases endu - i,
        {
            split.push(wrap[i].clone());
            proof {
                assert(spec_lines(split@) =~= spec_lines(wrap@).subrange(
                    posu as int,
                    i as int,
                ).push(spec_lines(wrap@)[i as int]));
                assert(spec_lines(wrap@).subrange(posu as int, i + 1) =~= spec_lines(
                    wrap@,
                ).subrange(posu as int, i as int).push(spec_lines(wrap@)[i as int]));
            }
            i = i + 1;
        }
        self.history_split = split;
        proof {
            let va = spec_after_regen(v0);
            assert(spec_wrapped(self@) == spec_wrapped(v0));
            assert(self@.scroll == spec_resolve_scroll(v0).0);
            assert(self@.scroll_float == spec_resolve_scroll(v0).1);
            assert(self@.max_scroll == spec_max_scroll_of(v0));
            assert(self@.history_split =~= spec_window(v0, self@.scroll));
            assert(self@ == va);
            assert(spec_max_scroll_of(self@) == spec_max_scroll_of(v0));
            assert(spec_window(self@, self@.scroll) == spec_window(v0, self@.scroll));
        }
    }
}

impl Chatbox {
    /// Jump to a scroll offset; the offset is clamped into `[0, max_scroll]`
    /// and pending fractional scroll input is discarded. Afterwards the
    /// scroll always sits inside `[0, max_scroll]`.
    pub fn set_scroll(&mut self, scroll: i64)
        requires
            old(self).wf(),
        ensures
            final(self).wf(),
            final(self)@ == spec_after_regen(
                (ChatboxV {
                    scroll: spec_clampi(scroll as int, 0, old(self)@.max_scroll),
                    scroll_float: 0,
                    ..old(self)@
                }),
            ),
            final(self)@.max_scroll == old(self)@.max_scroll,
            0 <= final(self)@.scroll <= final(self)@.max_scroll,
    {
        let ghost v0 = self@;
        let ms = self.max_scroll;
        let s: u64 = if scroll < 0 {
            0
        } else if (scroll as u64) > ms {
            ms
        } else {
            scroll as u64
        };
        self.scroll = s;
        self.scroll_float = 0;
        self.regen_split();
        proof {
            let inter = ChatboxV {
                scroll: spec_clampi(scroll as int, 0, v0.max_scroll),
                scroll_float: 0,
                ..v0
            };
            assert(spec_wrapped(inter) == spec_wrapped(v0));
            assert(spec_round_div(0, inter.scroll_speed) == 0);
        }
    }

    /// Accumulate scroll input; whole multiples of `scroll_speed` become
    /// line steps, the remainder is kept for later calls, and the scroll is
    /// clamped. Afterwards the scroll always sits inside `[0, max_scroll]`.
    pub fn process_scroll(&mut self, scroll_y: i32)
        requires
            old(self).wf(),
        ensures
            final(self).wf(),
            final(self)@ == spec_after_regen(
                (ChatboxV {
                    scroll_float: old(self)@.scroll_float + scroll_y as int,
                    ..old(self)@
                }),
            ),
            final(self)@.max_scroll == old(self)@.max_scroll,
            0 <= final(self)@.scroll <= final(self)@.max_scroll,
    {
        let ghost v0 = self@;
        self.scroll_float = self.scroll_float + (scroll_y as i64);
        self.regen_split();
        proof {
            let inter = ChatboxV { scroll_float: v0.scroll_float + scroll_y as int, ..v0 };
            assert(spec_wrapped(inter) == spec_wrapped(v0));
            lemma_round_div_props(inter.scroll_float, inter.scroll_speed);
        }
    }

    /// Change the layout width and the number of visible lines, and rebuild
    /// the cached window. The cached background height becomes the lines'
    /// extent plus a quarter line of padding.
    pub fn resize(&mut self, width: u32, visible_lines: i32)
        requires
            old(self).wf(),
            visible_lines >= 0,
        ensures
            final(self).wf(),
            final(self)@ == spec_after_regen(
                (ChatboxV {
                    width: width as int,
                    visible_lines: visible_lines as int,
                    height: visible_lines * old(self)@.line_height + old(self)@.line_height / 4,
                    ..old(self)@
                }),
            ),
    {
        self.width = width;
        self.visible_lines = visible_lines;
        proof {
            assert((visible_lines as int) * (self.line_height as int) <= 0x8000_0000
                * 0x1_0000_0000) by (nonlinear_arith)
                requires
                    0 <= (visible_lines as int) <= 0x8000_0000,
                    0 <= (self.line_height as int) < 0x1_0000_0000,
            ;
        }
        self.height = (visible_lines as u64) * (self.line_height as u64) + ((self.line_height
            / 4) as u64);
        self.regen_split();
    }

    /// Append a logical line of text to the history: the text is first
    /// normalized by an unbounded wrap (so embedded newlines become separate
    /// history lines), the history keeps only its newest `history_length`
    /// lines, the window is rebuilt, and the fade clock restarts. The
    /// history never exceeds `history_length` lines and always ends with the
    /// newest appended content.
    pub fn append_line(&mut self, line: &str)
        requires
            old(self).wf(),
        ensures
            final(self).wf(),
            final(self)@ == spec_after_append(old(self)@, line@),
            final(self)@.history.len() <= old(self)@.history_length,
            final(self)@.history == ({
                let lines = spec_split_lines(old(self)@.font, line@, None);
                let total = old(self)@.history.len() + lines.len();
                (old(self)@.history + lines).skip(
                    if total - old(self)@.history_length > 0 {
                        total - old(self)@.history_length
                    } else {
                        0
                    },
                )
            }),
    {
        let ghost v0 = self@;
        let split = self.font_info.split_lines_vec(line, None);
        let ghost lines = spec_split_lines(v0.font, line@, None);
        let n = split.len();
        let hl = self.history_length as usize;
        let keep_from: usize = if n > hl {
            n - hl
        } else {
            0
        };
        let h = self.history.len();
        let room: usize = hl - (n - keep_from);
        let remove: usize = if h > room {
            h - room
        } else {
            0
        };
        let mut nh: Vec<String> = Vec::new();
        let mut i: usize = remove;
        while i < h
            invariant
                remove <= i <= h,
                h == self.history@.len(),
                self.history@ == old(self).history@,
                spec_lines(nh@) =~= spec_lines(self.history@).subrange(remove as int, i as int),
            decreases h - i,
        {
            let ghost pre = nh@;
            nh.push(self.history[i].clone());
            proof {
                assert(spec_lines(nh@) =~= spec_lines(pre).push(spec_lines(
                    self.history@,
                )[i as int]));
                assert(spec_lines(self.history@).subrange(remove as int, i + 1) =~= spec_lines(
                    self.history@,
                ).subrange(remove as int, i as int).push(spec_lines(self.history@)[i as int]));
            }
            i = i + 1;
        }
        let mut j: usize = keep_from;
        let ghost nh_hist = spec_lines(nh@);
        while j < n
            invariant
                keep_from <= j <= n,
                n == split@.len(),
                spec_lines(split@) == lines,
                spec_lines(nh@) =~= nh_hist + lines.subrange(keep_from as int, j as int),
            decreases n - j,
        {
            let ghost pre = nh@;
            nh.push(split[j].clone());
            proof {
                assert(spec_lines(nh@) =~= spec_lines(pre).push(lines[j as int]));
                assert(nh_hist + lines.subrange(keep_from as int, j + 1) =~= (nh_hist
                    + lines.subrange(keep_from as int, j as int)).push(lines[j as int]));
            }
            j = j + 1;
        }
        self.history = nh;
        proof {
            let total = v0.history.len() + lines.len();
            let m: int = if total - v0.history_length > 0 {
                total - v0.history_length
            } else {
                0
            };
            assert(spec_lines(self.history@) =~= (v0.history + lines).skip(m)) by {
                assert(v0.history.subrange(remove as int, h as int) =~= spec_lines(
                    old(self).history@,
                ).subrange(remove as int, h as int));
                if n > hl {
                    assert(remove == h);
                    assert(v0.history.subrange(remove as int, h as int) =~= Seq::<
                        Seq<char>,
                    >::empty());
                    assert((v0.history + lines).skip(m) =~= lines.subrange(
                        keep_from as int,
                        n as int,
                    ));
                } else {
                    assert((v0.history + lines).skip(m) =~= v0.history.subrange(
                        remove as int,
                        h as int,
                    ) + lines.subrange(keep_from as int, n as int));
                }
            }
        }
        self.regen_split();
        self.fade_timer = 0;
        proof {
            let inter = ChatboxV { history: spec_lines(self.history@), ..v0 };
            assert(self@ == (ChatboxV { fade_timer: 0, ..spec_after_regen(inter) }));
            assert(self@ == spec_after_append(v0, line@));
        }
    }

    /// Enter focus: the caret starts blinking and the view jumps back to the
    /// newest lines.
    pub fn focus(&mut self)
        requires
            old(self).wf(),
        ensures
            final(self).wf(),
            final(self)@ == spec_after_regen(
                (ChatboxV {
                    typing_flicker: true,
                    flicker_timer: 0,
                    fade_timer: 0,
                    scroll: 0,
                    scroll_float: 0,
                    ..old(self)@
                }),
            ),
            final(self)@.scroll == 0,
    {
        self.set_typing_flicker(true);
        self.set_scroll(0);
        proof {
            assert(spec_round_div(0, old(self)@.scroll_speed) == 0);
        }
    }

    /// Leave focus: the caret stops blinking; history and scroll stay put.
    pub fn unfocus(&mut self)
        requires
            old(self).wf(),
        ensures
            final(self).wf(),
            final(self)@ == (ChatboxV {
                typing_flicker: false,
                flicker_timer: 0,
                fade_timer: 0,
                ..old(self)@
            }),
    {
        self.set_typing_flicker(false);
    }
}

/// A filled rectangle to draw behind the console: top-left origin, size, and
/// opacity in per-mille of the background's base opacity.
pub struct BackgroundInstance {
    pub x: u64,
    pub y: u64,
    pub width: u32,
    pub height: u64,
    pub opacity_milli: u32,
}

/// One text line to draw: its content, top-left position in width units, and
/// opacity in per-mille.
pub struct TextInstance {
    pub text: String,
    pub x: u64,
    pub y: u64,
    pub opacity_milli: u32,
}

/// The console's opacity in per-mille: opaque while focused or freshly
/// updated, then decaying linearly to zero over the fade duration.
pub open spec fn spec_fade_milli(v: ChatboxV) -> int {
    if v.fade_timer > FADE_START_TIME && !v.typing_flicker {
        if v.fade_timer - FADE_START_TIME >= FADE_TIME {
            0
        } else {
            1000 - (v.fade_timer - FADE_START_TIME) * 1000 / (FADE_TIME as int)
        }
    } else {
        1000
    }
}

/// Blank rows above the content when fewer lines than fit are shown, so that
/// content sits at the bottom of the window.
pub open spec fn spec_empty_rows(v: ChatboxV) -> int {
    if v.visible_lines - v.history_split.len() > 0 {
        v.visible_lines - v.history_split.len()
    } else {
        0
    }
}

/// The caret prompt row: a marker, the typed buffer, and a blink cursor
/// shown during the second half of the blink period.
pub open spec fn spec_caret_text(v: ChatboxV) -> Seq<char> {
    seq!['>', ' '] + v.typing + (if v.flicker_timer > BAR_FLICKER_TIME / 2 {
        seq!['|']
    } else {
        Seq::<char>::empty()
    })
}

impl Chatbox {
    /// Blank rows above the content when fewer lines than fit are shown.
    fn get_visible_history_empty_lines(&self) -> (r: u64)
        requires
            self@.visible_lines >= 0,
        ensures
            r as int == spec_empty_rows(self@),
    {
        let v = self.visible_lines as u64;
        let sl = self.history_split.len() as u64;
        if v > sl {
            v - sl
        } else {
            0
        }
    }

    /// Project the current state into draw primitives, without mutating it:
    /// a background rectangle sized for the visible rows (plus the typing row
    /// while focused), and one positioned text run per visible line, bottom
    /// aligned, all at the current fade opacity. While focused, one extra
    /// run holds the caret prompt.
    pub fn render(&self) -> (r: (BackgroundInstance, Vec<TextInstance>))
        requires
            self.wf(),
        ensures
            r.0.x == 0 && r.0.y == 0,
            r.0.width as int == self@.width,
            r.0.height as int == self@.height + (if self@.typing_flicker {
                self@.line_height
            } else {
                0int
            }),
            r.0.opacity_milli as int == spec_fade_milli(self@) * 600 / 1000,
            r.1@.len() == self@.history_split.len() + (if self@.typing_flicker {
                1int
            } else {
                0int
            }),
            forall|k: int|
                0 <= k < self@.history_split.len() ==> {
                    &&& (#[trigger] r.1@[k]).text@ == self@.history_split[k]
                    &&& r.1@[k].x == 0
                    &&& r.1@[k].y as int == self@.line_height * (spec_empty_rows(self@) + 1 + k)
                    &&& r.1@[k].opacity_milli as int == spec_fade_milli(self@)
                },
            self@.typing_flicker ==> {
                let last = r.1@[self@.history_split.len() as int];
                &&& last.text@ == spec_caret_text(self@)
                &&& last.x == 0
                &&& last.y as int == self@.line_height * (spec_empty_rows(self@) + 1
                    + self@.history_split.len())
                &&& last.opacity_milli as int == spec_fade_milli(self@)
            },
    {
        let fade_milli: u32 = if self.fade_timer > FADE_START_TIME && !self.typing_flicker {
            let dt = self.fade_timer - FADE_START_TIME;
            if dt >= FADE_TIME {
                0
            } else {
                (1000 - dt * 1000 / FADE_TIME) as u32
            }
        } else {
            1000
        };
        let effective_height: u64 = if self.typing_flicker {
            self.height + (self.line_height as u64)
        } else {
            self.height
        };
        let background = BackgroundInstance {
            x: 0,
            y: 0,
            width: self.width,
            height: effective_height,
            opacity_milli: fade_milli * 600 / 1000,
        };
        proof {
            lemma_window_fits(self@);
        }
        let empty_rows = self.get_visible_history_empty_lines();
        let lh = self.line_height as u64;
        let sl = self.history_split.len();
        proof {
            assert((empty_rows as int) + 1 + (sl as int) <= self@.visible_lines + 1);
            assert((self@.line_height) * ((empty_rows as int) + 1 + (sl as int)) <= (
            self@.line_height) * (self@.visible_lines + 1)) by (nonlinear_arith)
                requires
                    self@.line_height >= 0,
                    0 <= (empty_rows as int) + 1 + (sl as int) <= self@.visible_lines + 1,
            ;
            assert((self@.line_height) * (self@.visible_lines + 1) <= 0xFFFF_FFFF
                * 0x8000_0000) by (nonlinear_arith)
                requires
                    0 <= self@.line_height <= 0xFFFF_FFFF,
                    0 <= self@.visible_lines + 1 <= 0x8000_0000,
            ;
        }
        let mut instances: Vec<TextInstance> = Vec::new();
        let mut k: usize = 0;
        while k < sl
            invariant
                0 <= k <= sl,
                sl == self@.history_split.len(),
                self@.line_height * ((empty_rows as int) + 1 + (sl as int)) < 0x8000_0000_0000_0000,
                lh as int == self@.line_height,
                (empty_rows as int) == spec_empty_rows(self@),
                instances@.len() == k,
                forall|j: int|
                    0 <= j < k ==> {
                        &&& (#[trigger] instances@[j]).text@ == self@.history_split[j]
                        &&& instances@[j].x == 0
                        &&& instances@[j].y as int == self@.line_height * (spec_empty_rows(self@)
                            + 1 + j)
                        &&& instances@[j].opacity_milli == fade_milli
                    },
            decreases sl - k,
        {
            proof {
                assert(self@.line_height * ((empty_rows as int) + 1 + (k as int))
                    <= self@.line_height * ((empty_rows as int) + 1 + (sl as int)))
                    by (nonlinear_arith)
                    requires
                        self@.line_height >= 0,
                        (empty_rows as int) + 1 + (k as int) <= (empty_rows as int) + 1 + (
                        sl as int),
                ;
                assert(self@.line_height * ((empty_rows as int) + 1 + (k as int)) >= 0)
                    by (nonlinear_arith)
                    requires
                        self@.line_height >= 0,
                        (empty_rows as int) + 1 + (k as int) >= 0,
                ;
            }
            let y: u64 = lh * (empty_rows + 1 + (k as u64));
            instances.push(
                TextInstance { text: self.history_split[k].clone(), x: 0, y, opacity_milli: fade_milli },
            );
            k = k + 1;
        }
        if self.typing_flicker {
            let mut caret = String::new();
            push_char(&mut caret, '>');
            push_char(&mut caret, ' ');
            caret.append(self.typing.as_str());
            if self.flicker_timer > BAR_FLICKER_TIME / 2 {
                push_char(&mut caret, '|');
            }
            proof {
                assert(caret@ =~= spec_caret_text(self@));
                assert(self@.line_height * ((empty_rows as int) + 1 + (sl as int)) >= 0)
                    by (nonlinear_arith)
                    requires
                        self@.line_height >= 0,
                        (empty_rows as int) + 1 + (sl as int) >= 0,
                ;
            }
            let y: u64 = lh * (empty_rows + 1 + (sl as u64));
            instances.push(TextInstance { text: caret, x: 0, y, opacity_milli: fade_milli });
        }
        (background, instances)
    }
}

impl Chatbox {
    /// Handle one event offered to the focused console: escape leaves focus;
    /// return commits a non-empty buffer as a command or leaves focus when
    /// empty; a paste appends the clipboard text to the buffer, or reports
    /// the clipboard error as a history line; backspace erases one typed
    /// character; a valid character is typed; scroll input scrolls the
    /// history; anything else is ignored or merely consumed.
    pub fn receive_focused_event(&mut self, event: &FocusedEvent) -> (r: ReceiveResult)
        requires
            old(self).wf(),
        ensures
            final(self).wf(),
            match event {
                FocusedEvent::KeyEscape => r is Relinquish && final(self)@ == (ChatboxV {
                    typing_flicker: false,
                    flicker_timer: 0,
                    fade_timer: 0,
                    ..old(self)@
                }),
                FocusedEvent::KeyReturn => if old(self)@.typing.len() == 0 {
                    r is Relinquish && final(self)@ == (ChatboxV {
                        typing_flicker: false,
                        flicker_timer: 0,
                        fade_timer: 0,
                        ..old(self)@
                    })
                } else {
                    &&& r is Command
                    &&& r->Command_0@ == old(self)@.typing
                    &&& final(self)@ == (ChatboxV { typing: Seq::empty(), ..old(self)@ })
                },
                FocusedEvent::KeyPaste(res) => r is Consumed && (match res {
                    Ok(s) => final(self)@ == (ChatboxV {
                        typing: old(self)@.typing + s@,
                        ..old(self)@
                    }),
                    Err(e) => final(self)@ == spec_after_append(
                        old(self)@,
                        "Error pasting: "@ + e@,
                    ),
                }),
                FocusedEvent::KeyOther => r is Consumed && final(self)@ == old(self)@,
                FocusedEvent::Character(c) => if *c == '\u{8}' {
                    r is Consumed && final(self)@ == (ChatboxV {
                        typing: old(self)@.typing.take(
                            if old(self)@.typing.len() >= 1 {
                                old(self)@.typing.len() - 1
                            } else {
                                0
                            },
                        ),
                        ..old(self)@
                    })
                } else if old(self)@.font.spec_is_char_valid(*c) {
                    r is Consumed && final(self)@ == (ChatboxV {
                        typing: old(self)@.typing.push(*c),
                        ..old(self)@
                    })
                } else {
                    r is Ignored && final(self)@ == old(self)@
                },
                FocusedEvent::Scroll(dy) => r is Consumed && final(self)@ == spec_after_regen(
                    (ChatboxV {
                        scroll_float: old(self)@.scroll_float + *dy as int,
                        ..old(self)@
                    }),
                ) && 0 <= final(self)@.scroll <= final(self)@.max_scroll,
                FocusedEvent::Other => r is Ignored && final(self)@ == old(self)@,
            },
    {
        match event {
            FocusedEvent::KeyEscape => {
                self.set_typing_flicker(false);
                ReceiveResult::Relinquish
            },
            FocusedEvent::KeyReturn => {
                if self.typing.as_str().is_empty() {
                    self.set_typing_flicker(false);
                    ReceiveResult::Relinquish
                } else {
                    let typed = self.typing.clone();
                    self.erase_typing();
                    ReceiveResult::Command(typed)
                }
            },
            FocusedEvent::KeyPaste(res) => {
                match res {
                    Ok(s) => {
                        self.add_typing_lines(s.as_str());
                    },
                    Err(e) => {
                        let mut msg = String::from_str("Error pasting: ");
                        msg.append(e.as_str());
                        self.append_line(msg.as_str());
                    },
                }
                ReceiveResult::Consumed
            },
            FocusedEvent::KeyOther => ReceiveResult::Consumed,
            FocusedEvent::Character(c) => {
                if *c == '\u{8}' {
                    self.remove_typing(1);
                    ReceiveResult::Consumed
                } else if self.font_info.is_char_valid(c) {
                    let cc = *c;
                    self.add_typing(cc);
                    ReceiveResult::Consumed
                } else {
                    ReceiveResult::Ignored
                }
            },
            FocusedEvent::Scroll(dy) => {
                let d = *dy;
                self.process_scroll(d);
                ReceiveResult::Consumed
            },
            FocusedEvent::Other => ReceiveResult::Ignored,
        }
    }
}

/// The cached window never shows more rows than fit the visible window.
proof fn lemma_window_fits(v: ChatboxV)
    requires
        v.visible_lines >= 0,
        v.history_split == spec_window(v, v.scroll),
    ensures
        v.history_split.len() <= v.visible_lines,
{
}

/// The state after appending one logical line: the text is normalized by an
/// unbounded wrap, the history keeps its newest `history_length` lines, the
/// window is rebuilt, and the fade clock restarts.
pub open spec fn spec_after_append(v: ChatboxV, text: Seq<char>) -> ChatboxV {
    let lines = spec_split_lines(v.font, text, None);
    let total = v.history.len() + lines.len();
    let m: int = if total - v.history_length > 0 {
        total - v.history_length
    } else {
        0
    };
    let hist2 = (v.history + lines).skip(m);
    (ChatboxV { fade_timer: 0, ..spec_after_regen((ChatboxV { history: hist2, ..v })) })
}

/// The configuration facts alone: what `regen_split` needs of a state whose
/// cached window, maximum scroll and scroll input are about to be redone.
pub open spec fn wf_cfg(v: ChatboxV) -> bool {
    &&& v.font.wf()
    &&& v.history_length >= 0
    &&& v.visible_lines >= 0
    &&& v.scroll >= 0
    &&& v.scroll <= u64::MAX
    &&& v.max_scroll <= u64::MAX
    &&& v.scroll_speed >= 1
    &&& v.scroll_speed <= u32::MAX
    &&& v.history.len() <= v.history_length
    &&& v.flicker_timer <= BAR_FLICKER_TIME
    &&& 0 <= v.height <= 0x8000_0000_4000_0000
}

/// Division of `n` by positive `d`, rounding half away from zero.
fn round_div(n: i64, d: u32) -> (r: i64)
    requires
        d >= 1,
        -0x4000_0000_0000_0000 < n < 0x4000_0000_0000_0000,
    ensures
        r == spec_round_div(n as int, d as int),
{
    let neg = n < 0;
    let m: u64 = if neg {
        (-n) as u64
    } else {
        n as u64
    };
    let du = d as u64;
    let q = m / du;
    let rem = m % du;
    let q2: u64 = if 2 * rem >= du {
        q + 1
    } else {
        q
    };
    proof {
        vstd::arithmetic::div_mod::lemma_fundamental_div_mod(m as int, du as int);
        vstd::arithmetic::div_mod::lemma_mod_division_less_than_divisor(m as int, du as int);
        vstd::arithmetic::div_mod::lemma_div_pos_is_pos(m as int, du as int);
        assert((q as int) <= m as int) by {
            vstd::arithmetic::div_mod::lemma_div_nonincreasing(m as int, du as int);
        }
    }
    if neg {
        -(q2 as i64)
    } else {
        q2 as i64
    }
}

/// The rounded quotient differs from the exact one by at most half the
/// divisor, and small inputs give steps of at most one line.
proof fn lemma_round_div_props(n: int, d: int)
    requires
        d >= 1,
    ensures
        -d <= n - spec_round_div(n, d) * d <= d,
        n >= 0 ==> spec_round_div(n, d) >= 0,
        n <= 0 ==> spec_round_div(n, d) <= 0,
        -d <= n <= d ==> -1 <= spec_round_div(n, d) <= 1,
        n > 0 ==> spec_round_div(n, d) <= n,
        n < 0 ==> spec_round_div(n, d) >= n,
{
    let m = if n >= 0 {
        n
    } else {
        -n
    };
    let q = m / d;
    let r = m % d;
    vstd::arithmetic::div_mod::lemma_fundamental_div_mod(m, d);
    vstd::arithmetic::div_mod::lemma_mod_division_less_than_divisor(m, d);
    vstd::arithmetic::div_mod::lemma_div_pos_is_pos(m, d);
    vstd::arithmetic::div_mod::lemma_div_nonincreasing(m, d);
    if m <= d {
        assert(q <= 1) by {
            if q >= 2 {
                assert(m == d * q + r);
                assert(d * q >= 2 * d) by (nonlinear_arith)
                    requires
                        q >= 2,
                        d >= 1,
                ;
            }
        }
    }
    let q2 = if 2 * r >= d {
        q + 1
    } else {
        q
    };
    assert(m - q2 * d == if 2 * r >= d {
        r - d
    } else {
        r
    }) by {
        assert(m == d * q + r);
        assert((q + 1) * d == q * d + d) by (nonlinear_arith);
        assert(q * d == d * q) by (nonlinear_arith);
    }
    assert(-d <= m - q2 * d <= d);
    assert(q2 <= m) by {
        if 2 * r >= d {
            assert(d * q >= q) by (nonlinear_arith)
                requires
                    d >= 1,
                    q >= 0,
            ;
            assert(r >= 1);
        }
    }
    if n >= 0 {
        assert(spec_round_div(n, d) == q2);
        assert(n - q2 * d == m - q2 * d);
    } else {
        assert(spec_round_div(n, d) == -q2);
        assert(n - (-q2) * d == -(m - q2 * d)) by (nonlinear_arith)
            requires
                n == -m,
        ;
        assert(-q2 >= n);
    }
}

/// Clamp an i128 into `[lo, hi]`; when the interval is empty the result is
/// `lo`.
fn clamp_i128(val: i128, lo: i128, hi: i128) -> (r: i128)
    ensures
        r == spec_clampi(val as int, lo as int, hi as int),
{
    if hi < lo {
        return lo;
    }
    if val < lo {
        lo
    } else if val > hi {
        hi
    } else {
        val
    }
}

/// Appending one line to a join extends it by a newline and the line.
proof fn lemma_join_push(s: Seq<Seq<char>>, x: Seq<char>)
    ensures
        spec_join_nl(s.push(x)) == if s.len() == 0 {
            x
        } else {
            spec_join_nl(s) + seq!['\n'] + x
        },
    decreases s.len(),
{
    let t = s.push(x);
    if s.len() == 0 {
        assert(t.len() == 1);
        assert(t[0] == x);
    } else {
        assert(t[0] == s[0]);
        assert(t.drop_first() =~= s.drop_first().push(x));
        lemma_join_push(s.drop_first(), x);
        if s.len() == 1 {
            assert(spec_join_nl(s) == s[0]);
            assert(spec_join_nl(t) == t[0] + seq!['\n'] + spec_join_nl(t.drop_first()));
            assert(spec_join_nl(t.drop_first()) == x);
        } else {
            assert(spec_join_nl(t) == s[0] + seq!['\n'] + (spec_join_nl(s.drop_first())
                + seq!['\n'] + x));
            assert(s[0] + seq!['\n'] + (spec_join_nl(s.drop_first()) + seq!['\n'] + x) =~= (s[0]
                + seq!['\n'] + spec_join_nl(s.drop_first())) + seq!['\n'] + x);
        }
    }
}

/// The history lines joined by single newlines, as a string.
fn join_nl(lines: &Vec<String>) -> (r: String)
    ensures
        r@ == spec_join_nl(spec_lines(lines@)),
{
    let mut r = String::new();
    let mut i: usize = 0;
    proof {
        assert(spec_lines(lines@).take(0) =~= Seq::<Seq<char>>::empty());
    }
    while i < lines.len()
        invariant
            0 <= i <= lines@.len(),
            r@ == spec_join_nl(spec_lines(lines@).take(i as int)),
        decreases lines@.len() - i,
    {
        if i > 0 {
            push_char(&mut r, '\n');
        }
        let ghost l = spec_lines(lines@);
        r.append(lines[i].as_str());
        proof {
            assert(l.take(i as int).push(l[i as int]) =~= l.take(i + 1));
            lemma_join_push(l.take(i as int), l[i as int]);
            assert(l[i as int] == lines@[i as int]@);
            if i > 0 {
                assert(r@ =~= spec_join_nl(l.take(i as int)) + seq!['\n'] + l[i as int]);
            } else {
                assert(r@ =~= l[0]);
            }
        }
        i = i + 1;
    }
    proof {
        assert(spec_lines(lines@).take(lines@.len() as int) =~= spec_lines(lines@));
    }
    r
}

/// An empty console has no wrapped lines, so its window and maximum scroll
/// are both trivial.
proof fn lemma_empty_console_window(v: ChatboxV)
    requires
        v.history.len() == 0,
        v.visible_lines == 0,
    ensures
        spec_wrapped(v).len() == 0,
        spec_max_scroll_of(v) == 0,
        spec_window(v, v.scroll) =~= Seq::<Seq<char>>::empty(),
{
    assert(spec_join_nl(v.history) =~= Seq::<char>::empty());
    assert(spec_wrapped(v) =~= Seq::<Seq<char>>::empty());
}

} // verus!
