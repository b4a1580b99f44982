use wordle_brain::feedback::{Feedback, FeedbackType, FB};

fn score(guess: &str, solution: &str) -> [FeedbackType; 5] {
    let g: Vec<char> = guess.chars().collect();
    let s: Vec<char> = solution.chars().collect();
    let g: [char; 5] = [g[0], g[1], g[2], g[3], g[4]];
    let s: [char; 5] = [s[0], s[1], s[2], s[3], s[4]];
    Feedback::from_guess(&g, &s).items
}

#[test]
fn test_guessing_simple() {
    let fb = Feedback::from_guess(&['m', 'o', 'd', 'e', 'm'], &['m', 'a', 'n', 'a', 's']);

    assert_eq!(
        fb.items,
        [
            FeedbackType::Correct('m'),
            FeedbackType::Wrong('o'),
            FeedbackType::Wrong('d'),
            FeedbackType::Wrong('e'),
            FeedbackType::Wrong('m'),
        ]
    );
}

#[test]
fn test_guessing_simple_wrong_position() {
    let fb = Feedback::from_guess(&['q', 'o', 'd', 'e', 'm'], &['m', 'a', 'n', 'a', 's']);
    assert_eq!(
        fb.items,
        [
            FeedbackType::Wrong('q'),
            FeedbackType::Wrong('o'),
            FeedbackType::Wrong('d'),
            FeedbackType::Wrong('e'),
            FeedbackType::WrongPosition('m'),
        ]
    )
}

#[test]
fn test_guessing_simple_wrong_position_duplicate() {
    let fb = Feedback::from_guess(&['q', 'o', 'd', 'm', 'm'], &['m', 'a', 'n', 'a', 's']);
    assert_eq!(
        fb.items,
        [
            FeedbackType::Wrong('q'),
            FeedbackType::Wrong('o'),
            FeedbackType::Wrong('d'),
            FeedbackType::WrongPosition('m'),
            FeedbackType::Wrong('m'),
        ]
    )
}

#[test]
fn test_guessing_duplicate_wrong_position_duplicate() {
    let fb = Feedback::from_guess(&['a', 'x', 'a', 'x', 's'], &['m', 'a', 'n', 'a', 's']);
    assert_eq!(
        fb.items,
        [
            FeedbackType::WrongPosition('a'),
            FeedbackType::Wrong('x'),
            FeedbackType::WrongPosition('a'),
            FeedbackType::Wrong('x'),
            FeedbackType::Correct('s'),
        ]
    )
}

#[test]
fn test_guessing_duplicate_some_wrong_position_duplicate() {
    let fb = Feedback::from_guess(&['m', 'a', 'a', 'x', 's'], &['m', 'a', 'n', 'a', 's']);
    assert_eq!(
        fb.items,
        [
            FeedbackType::Correct('m'),
            FeedbackType::Correct('a'),
            FeedbackType::WrongPosition('a'),
            FeedbackType::Wrong('x'),
            FeedbackType::Correct('s'),
        ]
    )
}

#[test]
fn test_guessing_switched() {
    let fb = Feedback::from_guess(&['m', 'a', 'n', 's', 'a'], &['m', 'a', 'n', 'a', 's']);
    assert_eq!(
        fb.items,
        [
            FeedbackType::Correct('m'),
            FeedbackType::Correct('a'),
            FeedbackType::Correct('n'),
            FeedbackType::WrongPosition('s'),
            FeedbackType::WrongPosition('a'),
        ]
    )
}

#[test]
fn correct_exactly_where_letters_match() {
    let pairs = [
        ("crane", "caner"),
        ("eerie", "eager"),
        ("level", "lever"),
        ("aaaaa", "abcde"),
        ("speed", "steep"),
    ];
    for (g, s) in pairs.iter() {
        let marks = score(g, s);
        for (i, (a, b)) in g.chars().zip(s.chars()).enumerate() {
            assert_eq!(matches!(marks[i], FeedbackType::Correct(_)), a == b);
        }
    }
}

#[test]
fn repeated_letters_are_credited_at_most_as_often_as_they_occur() {
    let marks = score("eerie", "theme");
    // 'e' occurs three times in the guess and twice in the solution.
    let present = marks
        .iter()
        .filter(|m| match m {
            FeedbackType::Correct(c) | FeedbackType::WrongPosition(c) => *c == 'e',
            FeedbackType::Wrong(_) => false,
        })
        .count();
    assert_eq!(present, 2);
    assert_eq!(
        marks,
        [
            FeedbackType::WrongPosition('e'),
            FeedbackType::Wrong('e'),
            FeedbackType::Wrong('r'),
            FeedbackType::Wrong('i'),
            FeedbackType::Correct('e'),
        ]
    );
}

#[test]
fn every_mark_carries_the_guessed_letter() {
    let marks = score("abcde", "edcba");
    assert_eq!(
        marks,
        [
            FeedbackType::WrongPosition('a'),
            FeedbackType::WrongPosition('b'),
            FeedbackType::Correct('c'),
            FeedbackType::WrongPosition('d'),
            FeedbackType::WrongPosition('e'),
        ]
    );
}

#[test]
fn mask_drops_letters() {
    let fb = Feedback::new([
        FeedbackType::Correct('a'),
        FeedbackType::WrongPosition('b'),
        FeedbackType::Wrong('c'),
        FeedbackType::Correct('d'),
        FeedbackType::Wrong('e'),
    ]);
    assert!(fb.mask() == [FB::C, FB::WP, FB::W, FB::C, FB::W]);
    assert!(FB::from(FeedbackType::WrongPosition('z')) == FB::WP);
}

#[test]
fn is_correct_only_for_all_correct() {
    let all = Feedback::from_guess(&['m', 'a', 'n', 'a', 's'], &['m', 'a', 'n', 'a', 's']);
    assert!(all.is_correct());
    let not_all = Feedback::from_guess(&['m', 'a', 'n', 's', 'a'], &['m', 'a', 'n', 'a', 's']);
    assert!(!not_all.is_correct());
}

#[test]
fn blocks_of_marks() {
    assert_eq!(FeedbackType::Correct('a').block(), '🟩');
    assert_eq!(FeedbackType::WrongPosition('a').block(), '🟨');
    assert_eq!(FeedbackType::Wrong('a').block(), '⬜');
}
