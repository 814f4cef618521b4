//! Lines of text that are longer than the display scroll through it.
use crate::clock::{have_millis_passed, millis_passed, Instant};
use crate::config::DisplayConfig;
use crate::text::{chars, from_chars, same};
use vstd::prelude::*;

verus! {

/// How many characters the display shows of a line.
pub const WIDTH: usize = 16;

/// How many spaces come between the end of a scrolling text and its start.
pub const GAP: u128 = 4;

/// A line of text and how far it has scrolled.
#[derive(Debug)]
pub struct Scroll {
    text: String,
    offset: u128,
    last_step: Option<Instant>,
    started: Option<Instant>,
    completed_a_pass: bool,
}

/// What a `Scroll` holds.
pub struct ScrollView {
    pub text: Seq<char>,
    /// The position in the text, and the gap after it, of the first character
    /// that shows.
    pub offset: int,
    pub last_step: Option<Instant>,
    /// When the current pass started.
    pub started: Option<Instant>,
    /// Whether the whole text has scrolled by.
    pub completed_a_pass: bool,
}

impl View for Scroll {
    type V = ScrollView;

    closed spec fn view(&self) -> ScrollView {
        ScrollView {
            text: self.text@,
            offset: self.offset as int,
            last_step: self.last_step,
            started: self.started,
            completed_a_pass: self.completed_a_pass,
        }
    }
}

/// The first `max` characters of a text.
pub open spec fn truncated(s: Seq<char>, max: int) -> Seq<char> {
    if s.len() <= max {
        s
    } else {
        s.take(max)
    }
}

impl ScrollView {
    /// A line without text.
    pub open spec fn initial() -> ScrollView {
        ScrollView {
            text: Seq::empty(),
            offset: 0,
            last_step: None,
            started: None,
            completed_a_pass: false,
        }
    }

    /// Whether the position is one of the text and the gap after it.
    pub open spec fn wf(self) -> bool {
        0 <= self.offset <= self.text.len() + GAP
    }

    /// Whether the text is too long for the display.
    pub open spec fn long(self) -> bool {
        self.text.len() > WIDTH
    }

    /// Whether a text that is too long has yet to scroll by for the first time.
    pub open spec fn pending(self) -> bool {
        self.long() && !self.completed_a_pass
    }

    /// The line with the given text: from its start where the text is another.
    pub open spec fn with_text(self, text: Seq<char>, now: Instant) -> ScrollView {
        if self.text == text {
            self
        } else {
            ScrollView {
                text,
                offset: 0,
                last_step: Some(now),
                started: Some(now),
                completed_a_pass: false,
            }
        }
    }

    /// Whether the next step is due: the pause at the start is over, and the
    /// last step is long enough ago.
    pub open spec fn step_due(self, step_ms: u64, pause_ms: u64, now: Instant) -> bool {
        &&& self.started matches Some(t) ==> millis_passed(now, t, pause_ms)
        &&& self.last_step matches Some(t) && millis_passed(now, t, step_ms)
    }

    /// The line after the steps that are due by `now`: at most one. After the
    /// text and the gap the next pass starts.
    pub open spec fn stepped(self, step_ms: u64, pause_ms: u64, now: Instant) -> ScrollView {
        if !self.long() || !self.step_due(step_ms, pause_ms, now) {
            self
        } else if self.offset + 1 > self.text.len() + GAP {
            ScrollView {
                offset: 0,
                last_step: Some(now),
                started: Some(now),
                completed_a_pass: true,
                ..self
            }
        } else {
            ScrollView { offset: self.offset + 1, last_step: Some(now), ..self }
        }
    }

    /// The character at a position of the text and the gap after it.
    pub open spec fn char_at(self, pos: int) -> char {
        if pos < self.text.len() {
            self.text[pos]
        } else {
            ' '
        }
    }

    /// What the display shows: the text, or sixteen characters of a text that
    /// is longer, which goes on from its start after the gap.
    pub open spec fn shown(self) -> Seq<char> {
        if self.long() {
            Seq::new(
                WIDTH as nat,
                |i: int| self.char_at((self.offset + i) % (self.text.len() + GAP)),
            )
        } else {
            self.text
        }
    }
}

/// The display never shows more than it has room for.
pub proof fn shown_fits(s: ScrollView)
    ensures
        s.shown().len() <= WIDTH,
{
}

/// Every character of a text that is too long comes to stand first on the
/// display in each pass.
pub proof fn every_char_is_shown(s: ScrollView, i: int)
    requires
        s.long(),
        0 <= i < s.text.len(),
    ensures
        (ScrollView { offset: i, ..s }).shown()[0] == s.text[i],
{
    vstd::arithmetic::div_mod::lemma_small_mod(i as nat, (s.text.len() + GAP) as nat);
}

/// Every step brings the end of the first pass closer: a line that is too long
/// does not hold up the rotation forever.
pub proof fn pass_comes_to_an_end(s: ScrollView, step_ms: u64, pause_ms: u64, now: Instant)
    requires
        s.wf(),
        s.pending(),
        s.step_due(step_ms, pause_ms, now),
    ensures
        ({
            let t = s.stepped(step_ms, pause_ms, now);
            &&& t.text == s.text
            &&& !t.pending() || t.text.len() + GAP - t.offset < s.text.len() + GAP - s.offset
            &&& t.wf()
        }),
{
}

impl Scroll {
    /// Whether the line is in order.
    pub open spec fn wf(&self) -> bool {
        self@.wf()
    }

    /// A line without text.
    pub fn new() -> (r: Self)
        ensures
            r.wf(),
            r@ == ScrollView::initial(),
    {
        Scroll {
            text: String::new(),
            offset: 0,
            last_step: None,
            started: None,
            completed_a_pass: false,
        }
    }

    /// Whether a text that is too long has yet to scroll by for the first time.
    pub fn is_pending(&self) -> (r: bool)
        ensures
            r == self@.pending(),
    {
        let n: usize = chars(self.text.as_str()).len();
        n > WIDTH && !self.completed_a_pass
    }

    /// Gives the line its text, lets it scroll, and returns what it shows.
    pub fn step(&mut self, text: String, cfg: &DisplayConfig, now: Instant) -> (r: String)
        requires
            old(self).wf(),
        ensures
            final(self).wf(),
            final(self)@ == old(self)@.with_text(text@, now).stepped(
                cfg.scroll_step_ms,
                cfg.scroll_pause_ms,
                now,
            ),
            r@ == final(self)@.shown(),
    {
        if !same(self.text.as_str(), text.as_str()) {
            self.text = text;
            self.offset = 0;
            self.last_step = Some(now);
            self.started = Some(now);
            self.completed_a_pass = false;
        }
        let chars = chars(self.text.as_str());
        if chars.len() <= WIDTH {
            return self.text.clone();
        }
        let paused = match self.started {
            Some(t) => !have_millis_passed(now, t, cfg.scroll_pause_ms),
            None => false,
        };
        if !paused {
            if let Some(last) = self.last_step {
                if have_millis_passed(now, last, cfg.scroll_step_ms) {
                    self.last_step = Some(now);
                    if self.offset + 1 > chars.len() as u128 + GAP {
                        self.offset = 0;
                        self.started = Some(now);
                        self.completed_a_pass = true;
                    } else {
                        self.offset = self.offset + 1;
                    }
                }
            }
        }
        let padded: u128 = chars.len() as u128 + GAP;
        let mut window: Vec<char> = Vec::new();
        for i in 0..WIDTH
            invariant
                chars@ == self@.text,
                padded == chars@.len() + GAP,
                chars@.len() <= usize::MAX,
                self@.wf(),
                self@.long(),
                window@.len() == i,
                forall|j: int|
                    0 <= j < i ==> window@[j] == self@.char_at((self@.offset + j) % (padded as int)),
        {
            let pos: u128 = (self.offset + i as u128) % padded;
            if pos < chars.len() as u128 {
                window.push(chars[pos as usize]);
            } else {
                window.push(' ');
            }
        }
        assert(window@ =~= self@.shown());
        from_chars(window.as_slice())
    }
}

/// The first `max` characters of a text.
pub fn truncate(s: &str, max: usize) -> (r: String)
    ensures
        r@ == truncated(s@, max as int),
{
    let v = chars(s);
    if v.len() <= max {
        s.to_owned()
    } else {
        from_chars(vstd::slice::slice_subrange(v.as_slice(), 0, max))
    }
}

/// What shows of a line: all of it where it fits; else sixteen characters of the text,
/// of four spaces after it, and of its start again, from the position that it has
/// scrolled to.
pub proof fn window_on_the_text(s: ScrollView, k: int)
    requires
        s.wf(),
        0 <= k < 16,
    ensures
        s.text.len() <= 16 ==> s.shown() == s.text,
        s.text.len() > 16 ==> s.shown().len() == 16 && s.shown()[k] == ({
            let p = s.offset + k;
            let n = s.text.len() as int;
            if p < n {
                s.text[p]
            } else if p < n + 4 {
                ' '
            } else {
                s.text[p - n - 4]
            }
        }),
{
    if s.text.len() > 16 {
        let n = s.text.len() + 4;
        let p = s.offset + k;
        if p < n {
            vstd::arithmetic::div_mod::lemma_small_mod(p as nat, n as nat);
        } else {
            vstd::arithmetic::div_mod::lemma_mod_add_multiples_vanish(p - n, n as int);
            vstd::arithmetic::div_mod::lemma_small_mod((p - n) as nat, n as nat);
        }
    }
}

/// How a line scrolls. One that fits never does. A longer one moves on by one
/// character once its pause and its step time are over, and starts anew after the text
/// and the gap; then the whole text has scrolled by, and the pause starts again.
pub proof fn line_scrolls_in_time(s: ScrollView, step_ms: u64, pause_ms: u64, now: Instant)
    requires
        s.wf(),
        step_ms > 0,
        pause_ms > 0,
    ensures
        ({
            let t = s.stepped(step_ms, pause_ms, now);
            let due = s.text.len() > 16 && (s.started is None || now >= s.started->0 + pause_ms
                * 1_000_000) && s.last_step is Some && now >= s.last_step->0 + step_ms * 1_000_000;
            let end = s.text.len() + 4;
            &&& !due ==> t == s
            &&& due && s.offset < end ==> t == (ScrollView {
                offset: s.offset + 1,
                last_step: Some(now),
                ..s
            })
            &&& due && s.offset >= end ==> t == (ScrollView {
                offset: 0,
                last_step: Some(now),
                started: Some(now),
                completed_a_pass: true,
                ..s
            })
        }),
{
}

/// A line with another text starts from its front; with the same text it goes on. A
/// text is cut to its first characters.
pub proof fn new_text_starts_from_its_front(s: ScrollView, text: Seq<char>, now: Instant, max: int)
    requires
        0 <= max,
    ensures
        s.text == text ==> s.with_text(text, now) == s,
        s.text != text ==> s.with_text(text, now) == (ScrollView {
            text,
            offset: 0,
            last_step: Some(now),
            started: Some(now),
            completed_a_pass: false,
        }),
        text.len() <= max ==> truncated(text, max) == text,
        text.len() > max ==> truncated(text, max) == text.take(max),
{
}

} // verus!
