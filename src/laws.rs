use vstd::prelude::*;
use crate::session::{
    backspace_step, clamp_i32, fresh, lemma_spaces_bound, lemma_steps_keep_wf, session_wf, spaces,
    type_step, SessionState,
};
use crate::store::WordData;

verus! {

/// The state and scores after typing the characters `cs` in order.
pub open spec fn type_all(st: SessionState, entries: Seq<WordData>, cs: Seq<char>) -> (
    SessionState,
    Seq<WordData>,
)
    decreases cs.len(),
{
    if cs.len() == 0 {
        (st, entries)
    } else {
        let prev = type_all(st, entries, cs.drop_last());
        type_step(prev.0, prev.1, cs.last())
    }
}

/// The state after `n` backspaces.
pub open spec fn backspace_times(st: SessionState, n: nat) -> SessionState
    decreases n,
{
    if n == 0 {
        st
    } else {
        backspace_step(backspace_times(st, (n - 1) as nat))
    }
}

/// The number of positions at which `cs` differs from `expected`.
pub open spec fn mismatches(cs: Seq<char>, expected: Seq<char>) -> int
    decreases cs.len(),
{
    if cs.len() == 0 {
        0
    } else {
        mismatches(cs.drop_last(), expected.drop_last()) + if cs.last() != expected.last() {
            1int
        } else {
            0int
        }
    }
}

proof fn lemma_mismatches_nonneg(cs: Seq<char>, expected: Seq<char>)
    ensures
        mismatches(cs, expected) >= 0,
    decreases cs.len(),
{
    if cs.len() > 0 {
        lemma_mismatches_nonneg(cs.drop_last(), expected.drop_last());
    }
}

proof fn lemma_no_mismatches(cs: Seq<char>)
    ensures
        mismatches(cs, cs) == 0,
    decreases cs.len(),
{
    if cs.len() > 0 {
        lemma_no_mismatches(cs.drop_last());
    }
}

/// While the current word's closing space has not been typed correctly,
/// every mismatched keystroke costs that word exactly 2 points and no other
/// entry changes; after at least one keystroke the word's flag of
/// correctness holds only if no keystroke missed (and, unless the word has
/// just begun, it held before).
pub proof fn lemma_mismatch_penalty(st: SessionState, entries: Seq<WordData>, cs: Seq<char>)
    requires
        session_wf(st),
        st.cursor + cs.len() <= st.target.len(),
        forall|k: int|
            0 <= k < cs.len() ==> !(#[trigger] cs[k] == ' ' && st.target[st.cursor + k] == ' '),
        0 <= st.word_index < entries.len(),
        entries[st.word_index].value - 2 * mismatches(
            cs,
            st.target.subrange(st.cursor, st.cursor + cs.len()),
        ) >= i32::MIN,
    ensures
        ({
            let (s2, e2) = type_all(st, entries, cs);
            let w = st.word_index;
            let m = mismatches(cs, st.target.subrange(st.cursor, st.cursor + cs.len()));
            &&& e2.len() == entries.len()
            &&& e2[w].key == entries[w].key
            &&& e2[w].value == entries[w].value - 2 * m
            &&& forall|j: int| 0 <= j < entries.len() && j != w ==> e2[j] == entries[j]
            &&& s2.word_index == w
            &&& s2.cursor == st.cursor + cs.len()
            &&& s2.target == st.target
            &&& s2.word_correct == (if cs.len() == 0 {
                st.word_correct
            } else {
                (st.word_correct || st.at_word_start) && m == 0
            })
            &&& cs.len() > 0 ==> !s2.at_word_start
            &&& session_wf(s2)
        }),
    decreases cs.len(),
{
    if cs.len() > 0 {
        let n = cs.len() as int;
        let p = cs.drop_last();
        let exp = st.target.subrange(st.cursor, st.cursor + n);
        assert(exp.drop_last() == st.target.subrange(st.cursor, st.cursor + n - 1));
        lemma_mismatches_nonneg(p, exp.drop_last());
        assert forall|k: int|
            0 <= k < p.len() implies !(#[trigger] p[k] == ' ' && st.target[st.cursor + k]
            == ' ') by {
            assert(p[k] == cs[k]);
        }
        lemma_mismatch_penalty(st, entries, p);
        let (s1, e1) = type_all(st, entries, p);
        lemma_steps_keep_wf(s1, e1, cs.last());
        assert(cs[n - 1] == cs.last());
        assert(exp.last() == st.target[st.cursor + n - 1]);
    }
}

/// A word typed with no mismatch, from its first character through its
/// closing space, gains exactly 1 point, whatever happened to earlier words,
/// and the session moves to the next word.
pub proof fn lemma_completion_bonus(st: SessionState, entries: Seq<WordData>, word: Seq<char>)
    requires
        session_wf(st),
        st.cursor == 0 || st.at_word_start,
        st.cursor + word.len() < st.target.len(),
        st.target.subrange(st.cursor, st.cursor + word.len()) == word,
        st.target[st.cursor + word.len()] == ' ',
        forall|k: int| 0 <= k < word.len() ==> #[trigger] word[k] != ' ',
        0 <= st.word_index < entries.len(),
        entries[st.word_index].value < i32::MAX,
    ensures
        ({
            let (s2, e2) = type_all(st, entries, word.push(' '));
            let w = st.word_index;
            &&& e2 == entries.update(
                w,
                WordData { key: entries[w].key, value: (entries[w].value + 1) as i32 },
            )
            &&& s2.word_index == w + 1
            &&& s2.word_correct
            &&& s2.at_word_start
        }),
{
    let w = st.word_index;
    lemma_no_mismatches(word);
    lemma_mismatch_penalty(st, entries, word);
    let cs = word.push(' ');
    assert(cs.drop_last() == word);
    let (s1, e1) = type_all(st, entries, word);
    assert(e1 == entries) by {
        assert(e1[w] == entries[w]);
        assert(e1 =~= entries);
    }
    let e2 = type_all(st, entries, cs).1;
    assert(e2 =~= entries.update(
        w,
        WordData { key: entries[w].key, value: (entries[w].value + 1) as i32 },
    ));
}

proof fn lemma_backspace_times(st: SessionState, n: nat)
    requires
        session_wf(st),
        n <= st.cursor,
    ensures
        session_wf(backspace_times(st, n)),
        backspace_times(st, n).cursor == st.cursor - n,
        backspace_times(st, n).target == st.target,
    decreases n,
{
    if n > 0 {
        let prev = backspace_times(st, (n - 1) as nat);
        lemma_backspace_times(st, (n - 1) as nat);
        lemma_steps_keep_wf(prev, Seq::empty(), ' ');
    }
}

/// Backspacing to the start leaves exactly the state of a fresh attempt, so
/// typing any characters afterwards gives the same typed text and flag of
/// correctness as typing them in a fresh attempt.
pub proof fn lemma_backspace_to_start(st: SessionState, entries: Seq<WordData>, cs: Seq<char>)
    requires
        session_wf(st),
    ensures
        backspace_times(st, st.cursor as nat) == fresh(st.target),
        type_all(backspace_times(st, st.cursor as nat), entries, cs).0.typed == type_all(
            fresh(st.target),
            entries,
            cs,
        ).0.typed,
        type_all(backspace_times(st, st.cursor as nat), entries, cs).0.word_correct == type_all(
            fresh(st.target),
            entries,
            cs,
        ).0.word_correct,
{
    lemma_backspace_times(st, st.cursor as nat);
    let b = backspace_times(st, st.cursor as nat);
    assert(b.typed == Seq::<char>::empty());
    assert(st.target.take(0) == Seq::<char>::empty());
    assert(b.word_index == 0);
    assert(b == fresh(st.target));
}

/// `entries` with the first `k` scores raised by 1 (saturating).
pub open spec fn bump_first(entries: Seq<WordData>, k: int) -> Seq<WordData> {
    Seq::new(
        entries.len(),
        |j: int|
            if j < k {
                WordData { key: entries[j].key, value: clamp_i32(entries[j].value + 1) }
            } else {
                entries[j]
            },
    )
}

/// Typing the first `n` target characters exactly, from a fresh attempt,
/// gives each word whose closing space is among them exactly 1 point and
/// leaves every other score alone.
pub proof fn lemma_clean_run(target: Seq<char>, entries: Seq<WordData>, n: int)
    requires
        0 <= n <= target.len(),
    ensures
        ({
            let (s, e) = type_all(fresh(target), entries, target.take(n));
            &&& s.target == target
            &&& s.cursor == n
            &&& s.typed == target.take(n)
            &&& s.word_correct
            &&& s.word_index == spaces(target.take(n))
            &&& e == bump_first(entries, spaces(target.take(n)))
        }),
    decreases n,
{
    if n == 0 {
        assert(target.take(0) == Seq::<char>::empty());
        assert(bump_first(entries, 0) == entries);
    } else {
        let cs = target.take(n);
        let prev = target.take(n - 1);
        assert(cs.drop_last() == prev);
        assert(cs.last() == target[n - 1]);
        lemma_clean_run(target, entries, n - 1);
        lemma_spaces_bound(prev);
        let (s1, e1) = type_all(fresh(target), entries, prev);
        let k = spaces(prev);
        assert(spaces(cs) == k + if target[n - 1] == ' ' {
            1int
        } else {
            0int
        });
        assert(s1.typed.push(target[n - 1]) == cs);
        let e2 = type_all(fresh(target), entries, cs).1;
        if target[n - 1] == ' ' {
            assert(e2 == bump_first(entries, k + 1));
        } else {
            assert(e2 == bump_first(entries, k));
        }
    }
}

/// After backspacing to the start, retyping the first `n` target characters
/// exactly gives the typed text, flag of correctness and score changes of a
/// clean fresh attempt: 1 point for each word whose closing space is retyped.
pub proof fn lemma_retype_after_backspace(st: SessionState, entries: Seq<WordData>, n: int)
    requires
        session_wf(st),
        0 <= n <= st.target.len(),
    ensures
        ({
            let (s, e) = type_all(
                backspace_times(st, st.cursor as nat),
                entries,
                st.target.take(n),
            );
            &&& s.typed == st.target.take(n)
            &&& s.word_correct
            &&& s.word_index == spaces(st.target.take(n))
            &&& e == bump_first(entries, spaces(st.target.take(n)))
        }),
{
    lemma_backspace_to_start(st, entries, st.target.take(n));
    lemma_clean_run(st.target, entries, n);
}

} // verus!
