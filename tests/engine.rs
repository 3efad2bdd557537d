use typing_trainer::metrics::words_per_minute;
use typing_trainer::sentence::{generate_sentence, mistake_sentence, random_sentence, SenGenType};
use typing_trainer::session::{ColorClass, KeyInput, Outcome, RenderIntent, Step, TypingSession};
use typing_trainer::store::{MainData, WordData};

fn store_of(words: &[&str]) -> MainData {
    let owned: Vec<String> = words.iter().map(|w| w.to_string()).collect();
    MainData::seed(&owned).unwrap()
}

fn scores(store: &MainData) -> Vec<(String, i32)> {
    store.entries.iter().map(|w| (w.key.clone(), w.value)).collect()
}

fn type_str(session: &mut TypingSession, store: &mut MainData, s: &str) {
    for c in s.chars() {
        session.type_char(store, c);
    }
}

#[test]
fn seed_keeps_order_with_zero_scores() {
    let store = store_of(&["cat", "dog", "bird"]);
    assert_eq!(
        scores(&store),
        vec![("cat".to_string(), 0), ("dog".to_string(), 0), ("bird".to_string(), 0)]
    );
}

#[test]
fn seed_of_no_words_is_none() {
    assert!(MainData::seed(&Vec::new()).is_none());
}

#[test]
fn add_appends_entry() {
    let mut store = MainData::new();
    store.add("x".to_string(), -4);
    store.add("y".to_string(), 2);
    assert_eq!(scores(&store), vec![("x".to_string(), -4), ("y".to_string(), 2)]);
    let w = WordData::new("z".to_string(), 9);
    assert_eq!((w.key.as_str(), w.value), ("z", 9));
}

#[test]
fn sort_is_ascending_and_stable() {
    let mut store = MainData::new();
    for (k, v) in [("a", 3), ("b", -1), ("c", 3), ("d", 0), ("e", -1)] {
        store.add(k.to_string(), v);
    }
    store.sort_by_value();
    assert_eq!(
        scores(&store),
        vec![
            ("b".to_string(), -1),
            ("e".to_string(), -1),
            ("d".to_string(), 0),
            ("a".to_string(), 3),
            ("c".to_string(), 3)
        ]
    );
}

#[test]
fn sort_of_tied_scores_keeps_order() {
    let mut store = store_of(&["cat", "dog", "bird"]);
    store.sort_by_value();
    let keys: Vec<String> = store.entries.iter().map(|w| w.key.clone()).collect();
    assert_eq!(keys, vec!["cat", "dog", "bird"]);
}

#[test]
fn mistake_sentence_takes_first_words() {
    let store = store_of(&["cat", "dog", "bird"]);
    assert_eq!(generate_sentence(&store, &SenGenType::Mistake, 2), "cat dog ");
    assert_eq!(mistake_sentence(&store, 10), "cat dog bird ");
    assert_eq!(mistake_sentence(&store, 0), "");
}

#[test]
fn scenario_cat_dog_scores() {
    let mut store = store_of(&["cat", "dog", "bird"]);
    let sentence = generate_sentence(&store, &SenGenType::Mistake, 2);
    assert_eq!(sentence, "cat dog ");
    let mut session = TypingSession::new(&sentence);
    type_str(&mut session, &mut store, "cat ");
    type_str(&mut session, &mut store, "dxg ");
    assert_eq!(
        scores(&store),
        vec![("cat".to_string(), 1), ("dog".to_string(), -2), ("bird".to_string(), 0)]
    );
    assert_eq!(session.outcome(), Some(Outcome::Incorrect));
}

#[test]
fn empty_store_gives_empty_sentence() {
    let store = MainData::new();
    assert_eq!(generate_sentence(&store, &SenGenType::Mistake, 20), "");
    assert_eq!(generate_sentence(&store, &SenGenType::Random, 20), "");
}

#[test]
fn random_sentence_from_one_word() {
    let store = store_of(&["cat"]);
    assert_eq!(random_sentence(&store, 3), "cat cat cat ");
}

#[test]
fn random_sentence_draws_stored_words() {
    let store = store_of(&["cat", "dog", "bird"]);
    let s = generate_sentence(&store, &SenGenType::Random, 20);
    assert!(s.ends_with(' '));
    let words: Vec<&str> = s.split(' ').filter(|w| !w.is_empty()).collect();
    assert_eq!(words.len(), 20);
    for w in words {
        assert!(["cat", "dog", "bird"].contains(&w));
    }
}

#[test]
fn each_mismatch_costs_two() {
    let mut store = store_of(&["cat", "dog"]);
    let mut session = TypingSession::new(&"cat dog ".to_string());
    type_str(&mut session, &mut store, "xyz");
    assert_eq!(store.entries[0].value, -6);
    assert_eq!(store.entries[1].value, 0);
    assert!(!session.word_correct);
    type_str(&mut session, &mut store, " ");
    assert_eq!(store.entries[0].value, -6);
    assert_eq!(session.word_index, 1);
}

#[test]
fn clean_word_gains_one() {
    let mut store = store_of(&["cat", "dog"]);
    let mut session = TypingSession::new(&"cat dog ".to_string());
    type_str(&mut session, &mut store, "cat");
    assert_eq!(store.entries[0].value, 0);
    type_str(&mut session, &mut store, " ");
    assert_eq!(store.entries[0].value, 1);
    assert_eq!(session.word_index, 1);
    assert!(session.word_correct);
}

#[test]
fn wrong_space_is_penalised_and_does_not_advance() {
    let mut store = store_of(&["cat", "dog"]);
    let mut session = TypingSession::new(&"cat dog ".to_string());
    type_str(&mut session, &mut store, "cat");
    let r = session.type_char(&mut store, 'x');
    assert_eq!(r, Some(RenderIntent { row: 0, column: 3, color: ColorClass::Error, glyph: '_' }));
    assert_eq!(store.entries[0].value, -2);
    assert_eq!(session.word_index, 0);
    assert_eq!(session.typed, "cat ".chars().collect::<Vec<char>>());
}

#[test]
fn backspace_to_start_matches_fresh_attempt() {
    let mut store = store_of(&["cat", "dog"]);
    let target = "cat dog ".to_string();
    let mut session = TypingSession::new(&target);
    type_str(&mut session, &mut store, "cat dxg");
    while session.backspace().is_some() {}
    let fresh = TypingSession::new(&target);
    assert_eq!(session.cursor, 0);
    assert_eq!(session.typed, fresh.typed);
    assert_eq!(session.word_correct, fresh.word_correct);
    assert_eq!(session.word_index, 0);
    let mut other_store = store_of(&["cat", "dog"]);
    let mut fresh = fresh;
    type_str(&mut session, &mut store, "cat d");
    type_str(&mut fresh, &mut other_store, "cat d");
    assert_eq!(session.typed, fresh.typed);
    assert_eq!(session.word_correct, fresh.word_correct);
}

#[test]
fn backspace_render_and_limits() {
    let mut store = store_of(&["ab"]);
    let mut session = TypingSession::new(&"ab ".to_string());
    assert_eq!(session.backspace(), None);
    session.type_char(&mut store, 'a');
    assert_eq!(
        session.backspace(),
        Some(RenderIntent { row: 0, column: 0, color: ColorClass::Muted, glyph: 'a' })
    );
    assert_eq!(session.cursor, 0);
    assert!(session.typed.is_empty());
}

#[test]
fn backspace_over_unconfirmed_boundary_clamps_word_index() {
    let mut store = store_of(&["a", "b"]);
    let mut session = TypingSession::new(&"a b ".to_string());
    type_str(&mut session, &mut store, "ax");
    assert_eq!(session.word_index, 0);
    session.backspace();
    assert_eq!(session.word_index, 0);
    assert_eq!(session.cursor, 1);
    assert!(session.word_correct);
}

#[test]
fn typing_past_the_end_does_nothing() {
    let mut store = store_of(&["a"]);
    let mut session = TypingSession::new(&"a ".to_string());
    type_str(&mut session, &mut store, "a ");
    assert_eq!(session.outcome(), Some(Outcome::Complete));
    assert_eq!(session.type_char(&mut store, 'q'), None);
    assert_eq!(store.entries[0].value, 1);
    assert_eq!(session.cursor, 2);
}

#[test]
fn outcome_judges_last_word_only() {
    let mut store = store_of(&["ab", "cd"]);
    let mut session = TypingSession::new(&"ab cd ".to_string());
    assert_eq!(session.outcome(), None);
    type_str(&mut session, &mut store, "xb cd ");
    assert_eq!(session.outcome(), Some(Outcome::Complete));
    assert_eq!(scores(&store), vec![("ab".to_string(), -2), ("cd".to_string(), 1)]);
    let mut store = store_of(&["ab", "cd"]);
    let mut session = TypingSession::new(&"ab cd ".to_string());
    type_str(&mut session, &mut store, "ab xd ");
    assert_eq!(session.outcome(), Some(Outcome::Incorrect));
    let mut store = store_of(&["ab", "cd"]);
    let mut session = TypingSession::new(&"ab cd ".to_string());
    type_str(&mut session, &mut store, "ab cd ");
    assert_eq!(session.outcome(), Some(Outcome::Complete));
    assert_eq!(scores(&store), vec![("ab".to_string(), 1), ("cd".to_string(), 1)]);
}

#[test]
fn correct_keystroke_renders_normal() {
    let mut store = store_of(&["hi"]);
    let mut session = TypingSession::new(&"hi ".to_string());
    assert_eq!(
        session.type_char(&mut store, 'h'),
        Some(RenderIntent { row: 0, column: 0, color: ColorClass::Normal, glyph: 'h' })
    );
    assert_eq!(
        session.type_char(&mut store, 'o'),
        Some(RenderIntent { row: 0, column: 1, color: ColorClass::Error, glyph: 'i' })
    );
}

#[test]
fn score_saturates_at_minimum() {
    let mut store = MainData::new();
    store.add("a".to_string(), i32::MIN + 1);
    let mut session = TypingSession::new(&"a ".to_string());
    session.type_char(&mut store, 'z');
    assert_eq!(store.entries[0].value, i32::MIN);
}

#[test]
fn restart_sorts_and_starts_over() {
    let mut store = store_of(&["cat", "dog", "bird"]);
    let mode = SenGenType::Mistake;
    let mut session = TypingSession::new(&generate_sentence(&store, &mode, 2));
    for c in "cxt d".chars() {
        session.handle_key(&mut store, KeyInput::Char(c), &mode, 2);
    }
    assert_eq!(session.handle_key(&mut store, KeyInput::Restart, &mode, 2), Step::Restarted);
    assert_eq!(
        scores(&store),
        vec![("cat".to_string(), -2), ("dog".to_string(), 0), ("bird".to_string(), 0)]
    );
    assert_eq!(session.target, "cat dog ".chars().collect::<Vec<char>>());
    assert_eq!(session.cursor, 0);
    assert!(session.typed.is_empty());
    assert_eq!(session.word_index, 0);
    assert!(session.word_correct);
}

#[test]
fn handle_key_dispatch() {
    let mut store = store_of(&["ab"]);
    let mode = SenGenType::Mistake;
    let mut session = TypingSession::new(&"ab ".to_string());
    assert_eq!(session.handle_key(&mut store, KeyInput::Quit, &mode, 1), Step::Quit);
    assert_eq!(session.handle_key(&mut store, KeyInput::Other, &mode, 1), Step::Ignored);
    assert_eq!(session.handle_key(&mut store, KeyInput::Backspace, &mode, 1), Step::Ignored);
    assert_eq!(
        session.handle_key(&mut store, KeyInput::Char('a'), &mode, 1),
        Step::Draw(RenderIntent { row: 0, column: 0, color: ColorClass::Normal, glyph: 'a' })
    );
    assert_eq!(
        session.handle_key(&mut store, KeyInput::Backspace, &mode, 1),
        Step::Draw(RenderIntent { row: 0, column: 0, color: ColorClass::Muted, glyph: 'a' })
    );
}

#[test]
fn wpm_formula() {
    assert_eq!(words_per_minute(20, 30_000), Some(40));
    assert_eq!(words_per_minute(20, 7_000), Some(171));
    assert_eq!(words_per_minute(20, 0), None);
    assert_eq!(words_per_minute(0, 5_000), Some(0));
}

#[test]
fn multibyte_target_counts_characters() {
    let mut store = store_of(&["né"]);
    let mut session = TypingSession::new(&"né ".to_string());
    assert_eq!(session.target.len(), 3);
    type_str(&mut session, &mut store, "né ");
    assert_eq!(session.outcome(), Some(Outcome::Complete));
    assert_eq!(store.entries[0].value, 1);
}

#[test]
fn clean_word_after_mistyped_word_gains_one() {
    let mut store = store_of(&["a", "b"]);
    let mut session = TypingSession::new(&"a b ".to_string());
    type_str(&mut session, &mut store, "x b ");
    assert_eq!(scores(&store), vec![("a".to_string(), -2), ("b".to_string(), 1)]);
    assert_eq!(session.outcome(), Some(Outcome::Complete));
    store.sort_by_value();
    assert_eq!(scores(&store), vec![("a".to_string(), -2), ("b".to_string(), 1)]);
}

#[test]
fn retyping_after_backspace_scores_like_clean_run() {
    let mut store = store_of(&["cat", "dog"]);
    let mut session = TypingSession::new(&"cat dog ".to_string());
    type_str(&mut session, &mut store, "cat dxg");
    assert_eq!(scores(&store), vec![("cat".to_string(), 1), ("dog".to_string(), -2)]);
    while session.backspace().is_some() {}
    type_str(&mut session, &mut store, "cat dog ");
    assert_eq!(scores(&store), vec![("cat".to_string(), 2), ("dog".to_string(), -1)]);
    assert_eq!(session.outcome(), Some(Outcome::Complete));
}
