//! Small shared helpers: integer clamping, the whitespace predicate used by
//! the tokenizer, and the word/space run tokenizer itself.

use vstd::prelude::*;

pub mod indirect_handles;

verus! {

/// Clamps `val` into `[start, end]`; when the interval is empty (`end < start`)
/// the result is `start`.
pub open spec fn spec_clampi(val: int, start: int, end: int) -> int {
    if end < start {
        start
    } else if val < start {
        start
    } else if val > end {
        end
    } else {
        val
    }
}

/// Clamp an integer into the inclusive interval `[start, end]`.
pub fn clampi(val: i32, start: i32, end: i32) -> (r: i32)
    ensures
        r == spec_clampi(val as int, start as int, end as int),
{
    if end < start {
        return start;
    }
    if val < start {
        start
    } else if val > end {
        end
    } else {
        val
    }
}

/// The whitespace characters recognized by the tokenizer: space, tab, newline.
pub open spec fn spec_is_whitespace(c: char) -> bool {
    c == ' ' || c == '\t' || c == '\n'
}

/// True for the characters the tokenizer treats as whitespace.
pub fn is_whitespace(c: char) -> (r: bool)
    ensures
        r == spec_is_whitespace(c),
{
    c == ' ' || c == '\t' || c == '\n'
}

/// Relies on `String::push`: appends the given character to the end of the
/// string.
#[verifier::external_body]
pub(crate) fn push_char(s: &mut String, c: char)
    ensures
        final(s)@ == old(s)@.push(c),
{
    s.push(c);
}

/// Relies on `String::pop`: removes the last character and returns it, or
/// returns `None` when the string is empty.
#[verifier::external_body]
pub(crate) fn pop_char(s: &mut String) -> (r: Option<char>)
    ensures
        match r {
            Some(c) => old(s)@.len() > 0 && c == old(s)@.last() && final(s)@ == old(s)@.drop_last(),
            None => old(s)@.len() == 0 && final(s)@ == old(s)@,
        },
{
    s.pop()
}

/// Relies on `char::from_u32`: returns `Some` exactly for values that are not
/// surrogates and do not exceed the largest char, and the returned character
/// casts back to the given value.
#[verifier::external_body]
pub(crate) fn char_from_u32(u: u32) -> (r: Option<char>)
    ensures
        r is Some <==> (u < 0xD800 || (0xE000 <= u && u <= 0x10FFFF)),
        r is Some ==> (r->0) as u32 == u,
{
    char::from_u32(u)
}

/// The characters of `s`, in order.
pub fn chars_from_str(s: &str) -> (r: Vec<char>)
    ensures
        r@ == s@,
{
    let n = s.unicode_len();
    let mut v: Vec<char> = Vec::new();
    let mut i: usize = 0;
    while i < n
        invariant
            0 <= i <= n,
            n == s@.len(),
            v@ == s@.take(i as int),
        decreases n - i,
    {
        let c = s.get_char(i);
        v.push(c);
        assert(s@.take(i + 1) =~= s@.take(i as int).push(s@[i as int]));
        i = i + 1;
    }
    assert(s@.take(n as int) =~= s@);
    v
}

/// A string holding exactly the characters of `v`.
pub fn string_from_chars(v: &Vec<char>) -> (r: String)
    ensures
        r@ == v@,
{
    let mut s = String::new();
    let mut i: usize = 0;
    while i < v.len()
        invariant
            0 <= i <= v@.len(),
            s@ == v@.take(i as int),
        decreases v@.len() - i,
    {
        push_char(&mut s, v[i]);
        assert(v@.take(i + 1) =~= v@.take(i as int).push(v@[i as int]));
        i = i + 1;
    }
    assert(v@.take(v@.len() as int) =~= v@);
    s
}

/// Length of the maximal leading run of characters whose whitespace-ness
/// equals `ws`.
pub open spec fn spec_run_len(s: Seq<char>, ws: bool) -> int
    decreases s.len(),
{
    if s.len() == 0 || spec_is_whitespace(s[0]) != ws {
        0
    } else {
        1 + spec_run_len(s.drop_first(), ws)
    }
}

/// The first token of `s`: its maximal leading run of all-whitespace or
/// all-non-whitespace characters.
pub open spec fn spec_first_token(s: Seq<char>) -> Seq<char>
    recommends
        s.len() > 0,
{
    s.take(spec_run_len(s, spec_is_whitespace(s[0])))
}

/// A leading run is never longer than the sequence, and is nonempty whenever
/// the first character matches.
pub proof fn lemma_run_len_bounds(s: Seq<char>, ws: bool)
    ensures
        0 <= spec_run_len(s, ws) <= s.len(),
        s.len() > 0 && spec_is_whitespace(s[0]) == ws ==> 1 <= spec_run_len(s, ws),
    decreases s.len(),
{
    if s.len() > 0 && spec_is_whitespace(s[0]) == ws {
        lemma_run_len_bounds(s.drop_first(), ws);
    }
}

/// `spec_run_len` is pinned by its two defining properties: every character
/// before the cut matches `ws` and the character at the cut (if any) does not.
pub proof fn lemma_run_len_is(s: Seq<char>, ws: bool, n: int)
    requires
        0 <= n <= s.len(),
        forall|j: int| 0 <= j < n ==> spec_is_whitespace(#[trigger] s[j]) == ws,
        n == s.len() || spec_is_whitespace(s[n]) != ws,
    ensures
        spec_run_len(s, ws) == n,
    decreases s.len(),
{
    if n == 0 {
    } else {
        assert(spec_is_whitespace(s[0]) == ws);
        let t = s.drop_first();
        assert forall|j: int| 0 <= j < n - 1 implies spec_is_whitespace(#[trigger] t[j]) == ws by {
            assert(t[j] == s[j + 1]);
        }
        if n - 1 < t.len() {
            assert(t[n - 1] == s[n]);
        }
        lemma_run_len_is(t, ws, n - 1);
    }
}

/// Tokenizer that yields maximal runs of whitespace or non-whitespace
/// characters, in order, preserving run boundaries.
pub struct WordSpaceIterator {
    text: Vec<char>,
    pos: usize,
}

/// Index of the first character at or after `pos` that breaks the run
/// starting at `pos`, or the text's length if the run reaches the end.
pub(crate) fn run_end(text: &Vec<char>, pos: usize) -> (end: usize)
    requires
        pos < text@.len(),
    ensures
        pos < end <= text@.len(),
        end - pos == spec_run_len(
            text@.skip(pos as int),
            spec_is_whitespace(text@[pos as int]),
        ),
{
    let ws = is_whitespace(text[pos]);
    let n = text.len();
    let mut i: usize = pos + 1;
    while i < n && is_whitespace(text[i]) == ws
        invariant
            pos < i <= n,
            n == text@.len(),
            ws == spec_is_whitespace(text@[pos as int]),
            forall|j: int| pos <= j < i ==> spec_is_whitespace(#[trigger] text@[j]) == ws,
        decreases n - i,
    {
        i = i + 1;
    }
    proof {
        let s = text@.skip(pos as int);
        assert forall|j: int| 0 <= j < i - pos implies spec_is_whitespace(#[trigger] s[j]) == ws by {
            assert(s[j] == text@[pos + j]);
        }
        if (i as int) - (pos as int) < s.len() {
            assert(s[i - pos] == text@[i as int]);
        }
        lemma_run_len_is(s, ws, i - pos);
    }
    i
}

impl WordSpaceIterator {
    /// The characters not yet handed out.
    pub closed spec fn remaining(&self) -> Seq<char> {
        self.text@.skip(self.pos as int)
    }

    /// The position never runs past the text.
    pub closed spec fn wf(&self) -> bool {
        self.pos <= self.text@.len()
    }

    /// A tokenizer over the characters of `text`.
    pub fn new(text: &str) -> (r: WordSpaceIterator)
        ensures
            r.wf(),
            r.remaining() == text@,
    {
        let v = chars_from_str(text);
        let r = WordSpaceIterator { text: v, pos: 0 };
        proof {
            assert(r.remaining() =~= text@);
        }
        r
    }

    /// The next maximal run, or `None` when the text is exhausted.
    pub fn next(&mut self) -> (r: Option<String>)
        requires
            old(self).wf(),
        ensures
            final(self).wf(),
            match r {
                Some(word) => {
                    &&& old(self).remaining().len() > 0
                    &&& word@ == spec_first_token(old(self).remaining())
                    &&& final(self).remaining() == old(self).remaining().skip(word@.len() as int)
                },
                None => {
                    &&& old(self).remaining().len() == 0
                    &&& final(self).remaining() == old(self).remaining()
                },
            },
    {
        if self.pos == self.text.len() {
            return None;
        }
        let end = run_end(&self.text, self.pos);
        let mut word = String::new();
        let mut i: usize = self.pos;
        while i < end
            invariant
                self.pos <= i <= end <= self.text@.len(),
                word@ == self.text@.subrange(self.pos as int, i as int),
            decreases end - i,
        {
            push_char(&mut word, self.text[i]);
            assert(self.text@.subrange(self.pos as int, i + 1) =~= self.text@.subrange(
                self.pos as int,
                i as int,
            ).push(self.text@[i as int]));
            i = i + 1;
        }
        proof {
            let rem = self.text@.skip(self.pos as int);
            assert(rem[0] == self.text@[self.pos as int]);
            assert(word@ =~= rem.take(end - self.pos));
            assert(self.text@.skip(end as int) =~= rem.skip(end - self.pos));
        }
        self.pos = end;
        Some(word)
    }
}

} // verus!
