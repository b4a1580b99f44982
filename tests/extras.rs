use wordle_brain::brain::{Brain, Word};
use wordle_brain::data::{load_words, parse_words, DictionaryError};
use wordle_brain::feedback::FeedbackType;
use wordle_brain::session::{App, AppState, Key, Step};
use wordle_brain::solver::{pattern_counts, PATTERNS};
use wordle_brain::text::{suggestion_text, SUGGESTIONS};

fn word(s: &str) -> Word {
    let c: Vec<char> = s.chars().collect();
    [c[0], c[1], c[2], c[3], c[4]]
}

fn entropy(counts: &[usize], total: usize) -> f64 {
    counts
        .iter()
        .filter(|k| **k > 0)
        .map(|k| {
            let p = *k as f64 / total as f64;
            p * (1.0 / p).log2()
        })
        .sum()
}

#[test]
fn two_candidates_two_patterns_one_bit() {
    let options = vec![word("aaaaa"), word("aabaa")];
    let counts = pattern_counts(&word("aaaaa"), &options);
    assert_eq!(counts.len(), PATTERNS);
    assert_eq!(counts.iter().filter(|k| **k > 0).count(), 2);
    assert_eq!(counts.iter().sum::<usize>(), 2);
    // All correct is pattern 0; a wrong middle letter is 2 * 9.
    assert_eq!(counts[0], 1);
    assert_eq!(counts[18], 1);
    assert_eq!(entropy(&counts, 2), 1.0);
}

#[test]
fn equal_groups_give_log_of_group_count() {
    let options = vec![word("aaaaa"), word("aabaa"), word("zzzzz"), word("zzzzy")];
    let counts = pattern_counts(&word("aaaaa"), &options);
    // The two z-words both score all Wrong.
    assert_eq!(counts[242], 2);
    assert_eq!(counts[0], 1);
    assert_eq!(counts[18], 1);
    assert_eq!(entropy(&counts, 4), 1.5);
    let split = vec![word("aaaaa"), word("aabaa"), word("zzzzz"), word("zzazz")];
    let even = pattern_counts(&word("aaaaa"), &split);
    assert_eq!(entropy(&even, 4), 2.0);
}

#[test]
fn counts_of_an_empty_candidate_list() {
    let counts = pattern_counts(&word("tares"), &vec![]);
    assert_eq!(counts.len(), 243);
    assert!(counts.iter().all(|k| *k == 0));
}

#[test]
fn load_dictionary() {
    assert_eq!(
        load_words("  tares\nmanas\nmodem\n\n"),
        Ok(vec![word("tares"), word("manas"), word("modem")])
    );
    assert_eq!(parse_words("tares"), Ok(vec![word("tares")]));
    assert_eq!(parse_words("tares\nmana\nmodem"), Err(DictionaryError::MalformedEntry(1)));
    assert_eq!(parse_words("tares\nmodems"), Err(DictionaryError::MalformedEntry(1)));
    assert_eq!(parse_words("tares\n"), Err(DictionaryError::MalformedEntry(1)));
    assert_eq!(load_words("   "), Err(DictionaryError::MalformedEntry(0)));
    assert_eq!(parse_words("añejo\n🟩🟩🟩🟩🟩"), Ok(vec![word("añejo"), word("🟩🟩🟩🟩🟩")]));
}

#[test]
fn suggestion_texts_cycle() {
    assert_eq!(suggestion_text(0), SUGGESTIONS[0]);
    assert_eq!(suggestion_text(3), ("Clear! Next try ", ". 🎯"));
    assert_eq!(suggestion_text(11), SUGGESTIONS[3]);
    assert_eq!(suggestion_text(usize::MAX), SUGGESTIONS[7]);
}

#[test]
fn session_marks_and_submits_rows() {
    let brain = Brain::new(vec![word("manas"), word("modem"), word("crane")]);
    let mut app = App::new(brain, word("modem"));
    assert_eq!(app.current_word(), "modem");
    assert_eq!(app.press(Key::Enter), Step::Continue);
    assert_eq!(app.column, 0);
    assert_eq!(app.press(Key::Green), Step::Continue);
    assert_eq!(app.press(Key::Blank), Step::Continue);
    assert_eq!(app.press(Key::Backspace), Step::Continue);
    assert_eq!(app.feedbacks[0][1], None);
    for _ in 0..4 {
        app.press(Key::Blank);
    }
    assert_eq!(app.feedbacks[0][0], Some(FeedbackType::Correct('m')));
    assert_eq!(app.feedbacks[0][4], Some(FeedbackType::Wrong('m')));
    assert_eq!(app.press(Key::Green), Step::Continue);
    assert_eq!(app.column, 5);
    assert_eq!(app.press(Key::Enter), Step::Continue);
    // Only "manas" is left: the game is won.
    assert_eq!(app.row, 1);
    assert_eq!(app.state, AppState::Won);
    assert_eq!(app.current, word("manas"));
    assert_eq!(app.feedbacks[1], [Some(FeedbackType::Correct('a')); 5]);
    assert_eq!(app.press(Key::Green), Step::Quit);
}

#[test]
fn session_asks_for_ranking() {
    let words = vec![word("manas"), word("mango"), word("crane"), word("shine"), word("spine")];
    let mut app = App::new(Brain::new(words), word("crane"));
    for key in [Key::Blank, Key::Blank, Key::Blank, Key::Green, Key::Green] {
        app.press(key);
    }
    assert_eq!(app.press(Key::Enter), Step::Rank);
    assert_eq!(app.brain.options, vec![word("shine"), word("spine")]);
    assert_eq!(app.state, AppState::Playing);
    assert_eq!(app.current, word("crane"));
    app.set_current(word("spine"));
    assert_eq!(app.current_word(), "spine");
}

#[test]
fn session_fails_without_candidates() {
    let words = vec![word("manas"), word("mango"), word("crane"), word("brine")];
    let mut app = App::new(Brain::new(words), word("crane"));
    for key in [Key::Blank, Key::Blank, Key::Blank, Key::Green, Key::Green] {
        app.press(key);
    }
    assert_eq!(app.press(Key::Enter), Step::Continue);
    assert!(app.brain.options.is_empty());
    assert_eq!(app.state, AppState::Failed);
}

#[test]
fn session_all_correct_wins() {
    let mut app = App::new(Brain::new(vec![word("manas"), word("modem")]), word("modem"));
    for _ in 0..5 {
        app.press(Key::Green);
    }
    assert_eq!(app.press(Key::Enter), Step::Continue);
    assert_eq!(app.state, AppState::Won);
    assert_eq!(app.brain.options.len(), 2);
    assert_eq!(app.press(Key::Quit), Step::Quit);
}
