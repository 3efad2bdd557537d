use vstd::prelude::*;
use crate::sentence::{generate_sentence, is_generated, SenGenType};
use crate::store::{sorted_by_value, MainData, WordData};

verus! {

/// The colour in which a glyph is drawn.
#[derive(Clone, Copy, Debug, PartialEq, Eq, Structural)]
pub enum ColorClass {
    Normal,
    Error,
    Muted,
}

/// What the terminal should draw after a keystroke: `glyph` at `(row, column)`.
#[derive(Clone, Copy, Debug, PartialEq, Eq, Structural)]
pub struct RenderIntent {
    pub row: usize,
    pub column: usize,
    pub color: ColorClass,
    pub glyph: char,
}

/// How a finished attempt ends, judged by the last word only.
#[derive(Clone, Copy, Debug, PartialEq, Eq, Structural)]
pub enum Outcome {
    Complete,
    Incorrect,
}

/// A key press, as the engine sees it.
pub enum KeyInput {
    Char(char),
    Backspace,
    Restart,
    Quit,
    Other,
}

/// What the caller has to do after a key press.
#[derive(Clone, Copy, Debug, PartialEq, Eq, Structural)]
pub enum Step {
    /// Draw this glyph.
    Draw(RenderIntent),
    /// The store was re-sorted and a new sentence begun: persist the store
    /// and redraw the whole sentence.
    Restarted,
    /// Leave the session.
    Quit,
    /// Nothing changed.
    Ignored,
}

/// The mathematical state of a typing attempt.
pub struct SessionState {
    pub target: Seq<char>,
    pub cursor: int,
    pub typed: Seq<char>,
    pub word_index: int,
    pub word_correct: bool,
    pub at_word_start: bool,
}

/// The number of spaces in `s`.
pub open spec fn spaces(s: Seq<char>) -> int
    decreases s.len(),
{
    if s.len() == 0 {
        0
    } else {
        spaces(s.drop_last()) + if s.last() == ' ' {
            1int
        } else {
            0int
        }
    }
}

pub open spec fn clamp_i32(v: int) -> i32 {
    if v < i32::MIN {
        i32::MIN
    } else if v > i32::MAX {
        i32::MAX
    } else {
        v as i32
    }
}

/// Adds `delta` to the score at `i` (saturating), when `i` is a valid index.
pub open spec fn adjust_score(entries: Seq<WordData>, i: int, delta: int) -> Seq<WordData> {
    if 0 <= i < entries.len() {
        entries.update(i, WordData { key: entries[i].key, value: clamp_i32(entries[i].value + delta) })
    } else {
        entries
    }
}

/// Whether `typed` agrees with `target` on every position that both have.
pub open spec fn matches_prefix(typed: Seq<char>, target: Seq<char>) -> bool {
    forall|i: int| 0 <= i < typed.len() && i < target.len() ==> typed[i] == target[i]
}

/// A new attempt at `target`.
pub open spec fn fresh(target: Seq<char>) -> SessionState {
    SessionState {
        target,
        cursor: 0,
        typed: Seq::empty(),
        word_index: 0,
        word_correct: true,
        at_word_start: false,
    }
}

/// The state invariant: `typed` is the target up to the cursor, the word
/// index never passes the spaces typed so far, and a cursor at the start
/// carries no mistake and no closed word.
pub open spec fn session_wf(st: SessionState) -> bool {
    &&& 0 <= st.cursor <= st.target.len()
    &&& st.typed == st.target.take(st.cursor)
    &&& 0 <= st.word_index <= spaces(st.target.take(st.cursor))
    &&& st.cursor == 0 ==> st.word_correct && !st.at_word_start
}

/// One character keystroke `c`: a mismatch costs the current word 2 points
/// and marks it as mistyped; a correctly typed space ends the word, gives it
/// 1 point if it had no mistake, and moves on to the next word, whose
/// correctness starts afresh with its first keystroke.  `word_correct`
/// always describes the word that the last keystroke belonged to.  The
/// target character is what is recorded, whatever was typed.  Past the end
/// nothing happens.
pub open spec fn type_step(st: SessionState, entries: Seq<WordData>, c: char) -> (
    SessionState,
    Seq<WordData>,
) {
    if 0 <= st.cursor < st.target.len() {
        let t = st.target[st.cursor];
        let correct = c == t;
        let wc = (st.word_correct || st.at_word_start) && correct;
        let e1 = if correct {
            entries
        } else {
            adjust_score(entries, st.word_index, -2)
        };
        let boundary = t == ' ' && correct;
        let e2 = if boundary && wc {
            adjust_score(e1, st.word_index, 1)
        } else {
            e1
        };
        (
            SessionState {
                target: st.target,
                cursor: st.cursor + 1,
                typed: st.typed.push(t),
                word_index: if boundary {
                    st.word_index + 1
                } else {
                    st.word_index
                },
                word_correct: wc,
                at_word_start: boundary,
            },
            e2,
        )
    } else {
        (st, entries)
    }
}

/// One backspace: the cursor steps back, the last typed character goes,
/// correctness is recomputed from scratch, and stepping back over a space
/// returns to the previous word (never below the first).
pub open spec fn backspace_step(st: SessionState) -> SessionState {
    if 0 < st.cursor <= st.target.len() && st.typed.len() > 0 {
        let p = st.cursor - 1;
        let typed = st.typed.drop_last();
        SessionState {
            target: st.target,
            cursor: p,
            typed,
            word_index: if st.target[p] == ' ' && st.word_index > 0 {
                st.word_index - 1
            } else {
                st.word_index
            },
            word_correct: matches_prefix(typed, st.target),
            at_word_start: false,
        }
    } else {
        st
    }
}

/// What a character keystroke draws: the target character at the cursor,
/// in the error colour on a mismatch, with a mistyped space shown as `_`.
pub open spec fn type_render(st: SessionState, c: char) -> Option<RenderIntent> {
    if 0 <= st.cursor < st.target.len() {
        let t = st.target[st.cursor];
        Some(
            RenderIntent {
                row: 0,
                column: st.cursor as usize,
                color: if c == t {
                    ColorClass::Normal
                } else {
                    ColorClass::Error
                },
                glyph: if t == ' ' && c != t {
                    '_'
                } else {
                    t
                },
            },
        )
    } else {
        None
    }
}

/// What a backspace draws: the freed target character, muted.
pub open spec fn backspace_render(st: SessionState) -> Option<RenderIntent> {
    if 0 < st.cursor <= st.target.len() {
        Some(
            RenderIntent {
                row: 0,
                column: (st.cursor - 1) as usize,
                color: ColorClass::Muted,
                glyph: st.target[st.cursor - 1],
            },
        )
    } else {
        None
    }
}

/// The outcome once the cursor has reached the end of the target.
pub open spec fn outcome_of(st: SessionState) -> Option<Outcome> {
    if st.cursor == st.target.len() {
        Some(
            if st.word_correct {
                Outcome::Complete
            } else {
                Outcome::Incorrect
            },
        )
    } else {
        None
    }
}

/// A count of spaces lies between zero and the length.
pub proof fn lemma_spaces_bound(s: Seq<char>)
    ensures
        0 <= spaces(s) <= s.len(),
    decreases s.len(),
{
    if s.len() > 0 {
        lemma_spaces_bound(s.drop_last());
    }
}

/// Both transitions keep the state invariant.
pub proof fn lemma_steps_keep_wf(st: SessionState, entries: Seq<WordData>, c: char)
    requires
        session_wf(st),
    ensures
        session_wf(type_step(st, entries, c).0),
        session_wf(backspace_step(st)),
{
    if 0 <= st.cursor < st.target.len() {
        assert(st.target.take(st.cursor + 1).drop_last() == st.target.take(st.cursor));
        assert(st.target.take(st.cursor + 1) == st.typed.push(st.target[st.cursor]));
    }
    if 0 < st.cursor <= st.target.len() && st.typed.len() > 0 {
        let pre = st.target.take(st.cursor);
        assert(pre.drop_last() == st.target.take(st.cursor - 1));
        lemma_spaces_bound(pre.drop_last());
    }
}

/// A typing attempt at one target sentence.
pub struct TypingSession {
    pub target: Vec<char>,
    pub cursor: usize,
    pub typed: Vec<char>,
    pub word_index: usize,
    pub word_correct: bool,
    /// The last keystroke confirmed a word's closing space.
    pub at_word_start: bool,
}

/// Adds `delta` to the score of entry `i`, saturating; no change when `i`
/// is out of range.
fn adjust_score_at(store: &mut MainData, i: usize, delta: i32)
    ensures
        final(store).entries@ == adjust_score(old(store).entries@, i as int, delta as int),
{
    if i < store.entries.len() {
        let sum: i64 = store.entries[i].value as i64 + delta as i64;
        let v: i32 = if sum < i32::MIN as i64 {
            i32::MIN
        } else if sum > i32::MAX as i64 {
            i32::MAX
        } else {
            sum as i32
        };
        store.entries[i].value = v;
    }
}

impl TypingSession {
    pub open spec fn view(&self) -> SessionState {
        SessionState {
            target: self.target@,
            cursor: self.cursor as int,
            typed: self.typed@,
            word_index: self.word_index as int,
            word_correct: self.word_correct,
            at_word_start: self.at_word_start,
        }
    }

    pub open spec fn wf(&self) -> bool {
        session_wf(self@)
    }

    /// A new attempt at the characters of `target`.
    pub fn new(target: &String) -> (r: TypingSession)
        ensures
            r@ == fresh(target@),
            r.wf(),
    {
        let s = target.as_str();
        let n = s.unicode_len();
        let mut chars: Vec<char> = Vec::new();
        let mut i: usize = 0;
        while i < n
            invariant
                n == s@.len(),
                s@ == target@,
                i <= n,
                chars@ == s@.take(i as int),
            decreases n - i,
        {
            chars.push(s.get_char(i));
            assert(s@.take(i + 1) == s@.take(i as int).push(s@[i as int]));
            i = i + 1;
        }
        assert(s@.take(n as int) == s@);
        let r = TypingSession {
            target: chars,
            cursor: 0,
            typed: Vec::new(),
            word_index: 0,
            word_correct: true,
            at_word_start: false,
        };
        assert(target@.take(0) == Seq::<char>::empty());
        r
    }

    /// Handles one typed character against the target character at the
    /// cursor, updating the current word's score in `store`.
    pub fn type_char(&mut self, store: &mut MainData, c: char) -> (r: Option<RenderIntent>)
        requires
            old(self).wf(),
        ensures
            final(self).wf(),
            (final(self)@, final(store).entries@) == type_step(old(self)@, old(store).entries@, c),
            r == type_render(old(self)@, c),
    {
        proof {
            lemma_steps_keep_wf(self@, store.entries@, c);
            lemma_spaces_bound(self.target@.take(self.cursor as int));
        }
        if self.cursor >= self.target.len() {
            return None;
        }
        let p = self.cursor;
        let t = self.target[p];
        let correct = c == t;
        self.word_correct = (self.word_correct || self.at_word_start) && correct;
        self.at_word_start = false;
        if !correct {
            adjust_score_at(store, self.word_index, -2);
        }
        let glyph = if t == ' ' {
            if correct {
                if self.word_correct {
                    adjust_score_at(store, self.word_index, 1);
                }
                self.word_index = self.word_index + 1;
                self.at_word_start = true;
                t
            } else {
                '_'
            }
        } else {
            t
        };
        self.typed.push(t);
        self.cursor = p + 1;
        Some(
            RenderIntent {
                row: 0,
                column: p,
                color: if correct {
                    ColorClass::Normal
                } else {
                    ColorClass::Error
                },
                glyph,
            },
        )
    }

    /// Steps back one character; the freed position is redrawn muted.
    pub fn backspace(&mut self) -> (r: Option<RenderIntent>)
        requires
            old(self).wf(),
        ensures
            final(self).wf(),
            final(self)@ == backspace_step(old(self)@),
            r == backspace_render(old(self)@),
    {
        proof {
            lemma_steps_keep_wf(self@, Seq::empty(), ' ');
        }
        if self.cursor == 0 {
            return None;
        }
        self.cursor = self.cursor - 1;
        self.typed.pop();
        let m = if self.typed.len() < self.target.len() {
            self.typed.len()
        } else {
            self.target.len()
        };
        let mut all_match = true;
        let mut k: usize = 0;
        while k < m
            invariant
                k <= m,
                m <= self.typed@.len(),
                m <= self.target@.len(),
                m == self.typed@.len() || m == self.target@.len(),
                all_match == (forall|i: int| 0 <= i < k ==> self.typed@[i] == self.target@[i]),
            decreases m - k,
        {
            all_match = all_match && self.typed[k] == self.target[k];
            k = k + 1;
        }
        self.word_correct = all_match;
        self.at_word_start = false;
        let t = self.target[self.cursor];
        if t == ' ' && self.word_index > 0 {
            self.word_index = self.word_index - 1;
        }
        Some(RenderIntent { row: 0, column: self.cursor, color: ColorClass::Muted, glyph: t })
    }

    /// `Some` once the cursor has reached the end of the target.
    pub fn outcome(&self) -> (r: Option<Outcome>)
        ensures
            r == outcome_of(self@),
    {
        if self.cursor == self.target.len() {
            if self.word_correct {
                Some(Outcome::Complete)
            } else {
                Some(Outcome::Incorrect)
            }
        } else {
            None
        }
    }

    /// Starts over: sorts the store by score, builds a new sentence from it
    /// and begins a fresh attempt at that sentence.
    pub fn restart(&mut self, store: &mut MainData, mode: &SenGenType, word_count: usize)
        ensures
            final(store).entries@ == sorted_by_value(old(store).entries@),
            final(self)@ == fresh(final(self).target@),
            is_generated(final(store).entries@, *mode, word_count as int, final(self).target@),
            final(self).wf(),
    {
        store.sort_by_value();
        let sentence = generate_sentence(store, mode, word_count);
        *self = TypingSession::new(&sentence);
    }

    /// One transition of the session on a key press.
    pub fn handle_key(
        &mut self,
        store: &mut MainData,
        key: KeyInput,
        mode: &SenGenType,
        word_count: usize,
    ) -> (r: Step)
        requires
            old(self).wf(),
        ensures
            final(self).wf(),
            match key {
                KeyInput::Char(c) => {
                    &&& (final(self)@, final(store).entries@) == type_step(
                        old(self)@,
                        old(store).entries@,
                        c,
                    )
                    &&& r == match type_render(old(self)@, c) {
                        Some(d) => Step::Draw(d),
                        None => Step::Ignored,
                    }
                },
                KeyInput::Backspace => {
                    &&& final(self)@ == backspace_step(old(self)@)
                    &&& final(store).entries@ == old(store).entries@
                    &&& r == match backspace_render(old(self)@) {
                        Some(d) => Step::Draw(d),
                        None => Step::Ignored,
                    }
                },
                KeyInput::Restart => {
                    &&& final(store).entries@ == sorted_by_value(old(store).entries@)
                    &&& final(self)@ == fresh(final(self).target@)
                    &&& is_generated(
                        final(store).entries@,
                        *mode,
                        word_count as int,
                        final(self).target@,
                    )
                    &&& r == Step::Restarted
                },
                KeyInput::Quit => {
                    &&& final(self)@ == old(self)@
                    &&& final(store).entries@ == old(store).entries@
                    &&& r == Step::Quit
                },
                KeyInput::Other => {
                    &&& final(self)@ == old(self)@
                    &&& final(store).entries@ == old(store).entries@
                    &&& r == Step::Ignored
                },
            },
    {
        match key {
            KeyInput::Char(c) => match self.type_char(store, c) {
                Some(d) => Step::Draw(d),
                None => Step::Ignored,
            },
            KeyInput::Backspace => match self.backspace() {
                Some(d) => Step::Draw(d),
                None => Step::Ignored,
            },
            KeyInput::Restart => {
                self.restart(store, mode, word_count);
                Step::Restarted
            },
            KeyInput::Quit => Step::Quit,
            KeyInput::Other => Step::Ignored,
        }
    }
}

} // verus!
