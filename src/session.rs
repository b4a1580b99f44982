use vstd::prelude::*;

use crate::brain::{pruned, Brain, SuggestError, Suggestion, Word, OPENER};
use crate::feedback::{Feedback, FeedbackType};

verus! {

/// Number of attempts in a game.
pub const ROWS: usize = 6;

/// Where a game stands.
#[derive(Debug, Copy, Clone, PartialEq, Eq, Structural)]
pub enum AppState {
    Playing,
    Won,
    Lost,
    Failed,
}

/// A key that the player pressed, as the game reads it.
#[derive(Debug, Copy, Clone, PartialEq, Eq, Structural)]
pub enum Key {
    /// Leave the game.
    Quit,
    /// Mark the next letter `Correct`.
    Green,
    /// Mark the next letter `WrongPosition`.
    Yellow,
    /// Mark the next letter `Wrong`.
    Blank,
    /// Take back the last mark of the row.
    Backspace,
    /// Submit the row.
    Enter,
    /// Any other key.
    Other,
}

/// What the caller does once a key has been handled.
#[derive(Debug, Copy, Clone, PartialEq, Eq, Structural)]
pub enum Step {
    /// Show the game and read the next key.
    Continue,
    /// Leave the game.
    Quit,
    /// Rank the guess list over the candidates, hand the best guess to
    /// `set_current`, then go on.
    Rank,
}

/// A game in progress: the advisor, the rows of marks entered so far, and the
/// word that is suggested now.
pub struct App {
    pub brain: Brain,
    pub row: usize,
    pub column: usize,
    pub feedbacks: [[Option<FeedbackType>; 5]; 6],
    pub current: Word,
    pub state: AppState,
}

/// The row of marks that a completely entered board row stands for.
pub open spec fn row_marks(row: [Option<FeedbackType>; 5]) -> Seq<FeedbackType> {
    Seq::new(5, |k: int| row[k]->Some_0)
}

/// Relies on `String::from_iter` over characters: the string holds them in
/// order.
#[verifier::external_body]
fn word_text(w: &Word) -> (r: String)
    ensures
        r@ == w@,
{
    String::from_iter(w)
}

/// `cells` with entry `k` replaced by `v`.
fn with_cell(cells: [Option<FeedbackType>; 5], k: usize, v: Option<FeedbackType>) -> (r: [Option<
    FeedbackType,
>; 5])
    requires
        k < 5,
    ensures
        r@ == cells@.update(k as int, v),
{
    let mut r = cells;
    r[k] = v;
    r
}

/// The mark that a mark key gives to letter `c`.
pub open spec fn mark_of(key: Key, c: char) -> FeedbackType {
    match key {
        Key::Green => FeedbackType::Correct(c),
        Key::Yellow => FeedbackType::WrongPosition(c),
        _ => FeedbackType::Wrong(c),
    }
}

/// `cells` with entry `k` marked by `key` with letter `k` of `word`.
fn marked_row(cells: [Option<FeedbackType>; 5], k: usize, key: Key, word: &Word) -> (r: [Option<
    FeedbackType,
>; 5])
    requires
        k < 5,
    ensures
        r@ == cells@.update(k as int, Some(mark_of(key, word[k as int]))),
{
    let c = word[k];
    let mark = match key {
        Key::Green => FeedbackType::Correct(c),
        Key::Yellow => FeedbackType::WrongPosition(c),
        _ => FeedbackType::Wrong(c),
    };
    with_cell(cells, k, Some(mark))
}

impl App {
    /// The board cursor stays on the board; the marks before it are entered;
    /// the cursor leaves the board only when the game is over.
    pub open spec fn wf(self) -> bool {
        &&& self.row <= ROWS
        &&& self.column <= 5
        &&& self.row < ROWS ==> forall|k: int|
            0 <= k < self.column ==> (#[trigger] self.feedbacks[self.row as int][k]) is Some
        &&& self.row == ROWS ==> self.state != AppState::Playing
    }

    /// A game that starts with an empty board and suggests `current`, the
    /// advisor's first suggestion.
    pub fn new(brain: Brain, current: Word) -> (r: Self)
        ensures
            r.wf(),
            r.brain == brain,
            r.row == 0,
            r.column == 0,
            r.current == current,
            r.state == AppState::Playing,
            forall|i: int, k: int| 0 <= i < 6 && 0 <= k < 5 ==> r.feedbacks[i][k] is None,
    {
        Self {
            brain,
            row: 0,
            column: 0,
            feedbacks: [[None; 5]; 6],
            current,
            state: AppState::Playing,
        }
    }

    /// The suggested word as a string.
    pub fn current_word(&self) -> (r: String)
        ensures
            r@ == self.current@,
    {
        word_text(&self.current)
    }

    /// Takes the best guess of the ranking that a `Step::Rank` asked for.
    pub fn set_current(&mut self, word: Word)
        ensures
            *final(self) == (App { current: word, ..*old(self) }),
    {
        self.current = word;
    }

    /// Submits the current row. A row of `Correct` marks wins the game.
    /// Otherwise the candidates are pruned by the row and the next guess is
    /// suggested (any candidate for the last but one row). One candidate left
    /// wins the game before the last row; the last row loses it; no candidate
    /// left fails it.
    pub fn process_feedback(&mut self) -> (step: Step)
        requires
            old(self).row < ROWS,
            forall|k: int| 0 <= k < 5 ==> (#[trigger] old(self).feedbacks[old(self).row as int][k]) is Some,
        ensures
            final(self).row == old(self).row,
            final(self).column == old(self).column,
            final(self).brain.valid@ == old(self).brain.valid@,
            ({
                let fb = row_marks(old(self).feedbacks[old(self).row as int]);
                let opts = final(self).brain.options@;
                let row = old(self).row;
                if forall|k: int| 0 <= k < 5 ==> (#[trigger] fb[k]) is Correct {
                    &&& *final(self) == (App { state: AppState::Won, ..*old(self) })
                    &&& step == Step::Continue
                } else {
                    &&& opts == pruned(old(self).brain.options@, fb)
                    &&& (step == Step::Rank) == (opts.len() > 1 && row != 4 && !opts.contains(
                        OPENER,
                    ))
                    &&& opts.len() == 1 ==> final(self).current == opts[0]
                    &&& opts.len() > 1 && row == 4 ==> opts.contains(final(self).current)
                    &&& opts.len() > 1 && row != 4 && opts.contains(OPENER) ==> final(self).current
                        == OPENER
                    &&& (opts.len() == 0 || step == Step::Rank) ==> final(self).current == old(
                        self,
                    ).current
                    &&& row == 5 ==> final(self).state == AppState::Lost
                    &&& row != 5 && opts.len() == 1 ==> final(self).state == AppState::Won
                    &&& row != 5 && opts.len() == 0 ==> final(self).state == AppState::Failed
                    &&& row != 5 && opts.len() > 1 ==> final(self).state == old(self).state
                    &&& row != 5 && opts.len() == 1 ==> forall|k: int|
                        0 <= k < 5 ==> #[trigger] final(self).feedbacks[row + 1][k] == Some(
                            FeedbackType::Correct('a'),
                        )
                    &&& forall|i: int|
                        0 <= i < ROWS && !(row != 5 && opts.len() == 1 && i == row + 1)
                            ==> #[trigger] final(self).feedbacks[i] == old(self).feedbacks[i]
                }
            }),
    {
        let row = self.row;
        let marks = self.feedbacks[row];
        let feedback = Feedback::new(
            [
                marks[0].unwrap(),
                marks[1].unwrap(),
                marks[2].unwrap(),
                marks[3].unwrap(),
                marks[4].unwrap(),
            ],
        );
        assert(feedback.items@ =~= row_marks(self.feedbacks[row as int]));
        if feedback.is_correct() {
            self.state = AppState::Won;
            return Step::Continue;
        }
        self.brain.prune(feedback);
        let mut step = Step::Continue;
        match self.brain.suggest(row == 4) {
            Ok(Suggestion::Guess(word)) => self.current = word,
            Ok(Suggestion::BestByEntropy) => step = Step::Rank,
            Err(SuggestError::NoCandidates) => self.state = AppState::Failed,
        }
        if self.brain.done() && row != 5 {
            self.feedbacks[row + 1] = [Some(FeedbackType::Correct('a')); 5];
            self.state = AppState::Won;
        } else if row == 5 {
            self.state = AppState::Lost;
        }
        step
    }

    /// Handles one key. `Quit` leaves, as does any key once the game is over.
    /// A mark key fills the next cell of the row with the suggested word's
    /// letter; `Backspace` clears the last filled cell; `Enter` on a full row
    /// submits it (see `process_feedback`) and moves to the next row. Any
    /// other key changes nothing.
    pub fn press(&mut self, key: Key) -> (step: Step)
        requires
            old(self).wf(),
        ensures
            final(self).wf(),
            key == Key::Quit || old(self).state != AppState::Playing ==> step == Step::Quit
                && *final(self) == *old(self),
            old(self).state == AppState::Playing && old(self).column < 5 && (key == Key::Green
                || key == Key::Yellow || key == Key::Blank) ==> ({
                let mark = mark_of(key, old(self).current[old(self).column as int]);
                &&& step == Step::Continue
                &&& final(self).column == old(self).column + 1
                &&& final(self).feedbacks[old(self).row as int][old(self).column as int] == Some(
                    mark,
                )
                &&& final(self).row == old(self).row
                &&& final(self).state == old(self).state
                &&& final(self).current == old(self).current
            }),
            old(self).state == AppState::Playing && old(self).column > 0 && key == Key::Backspace
                ==> step == Step::Continue && final(self).column == old(self).column - 1
                && final(self).feedbacks[old(self).row as int][old(self).column - 1] is None
                && final(self).row == old(self).row,
            old(self).state == AppState::Playing && old(self).column == 5 && key == Key::Enter
                ==> final(self).row == old(self).row + 1 && final(self).column == 0,
            old(self).state == AppState::Playing && (key == Key::Other || (key == Key::Enter
                && old(self).column < 5) || (key == Key::Backspace && old(self).column == 0) || ((
            key == Key::Green || key == Key::Yellow || key == Key::Blank) && old(self).column
                == 5)) ==> step == Step::Continue && *final(self) == *old(self),
    {
        if key == Key::Quit || self.state != AppState::Playing {
            return Step::Quit;
        }
        let row = self.row;
        let column = self.column;
        match key {
            Key::Green | Key::Yellow | Key::Blank => {
                if column < 5 {
                    let cells = marked_row(self.feedbacks[row], column, key, &self.current);
                    self.feedbacks[row] = cells;
                    self.column = column + 1;
                }
                Step::Continue
            },
            Key::Backspace => {
                if column > 0 {
                    let cells = with_cell(self.feedbacks[row], column - 1, None);
                    self.feedbacks[row] = cells;
                    self.column = column - 1;
                }
                Step::Continue
            },
            Key::Enter => {
                if column == 5 {
                    let step = self.process_feedback();
                    self.column = 0;
                    self.row = row + 1;
                    step
                } else {
                    Step::Continue
                }
            },
            _ => Step::Continue,
        }
    }
}

} // verus!
