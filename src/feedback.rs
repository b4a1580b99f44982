use vstd::prelude::*;

use crate::brain::Word;

verus! {

/// The mark that one position of a guess receives. Each variant carries the
/// letter that was guessed at that position.
#[derive(Debug, Copy, Clone, PartialEq, Eq, Structural)]
pub enum FeedbackType {
    Correct(char),
    WrongPosition(char),
    Wrong(char),
}

impl FeedbackType {
    /// The guessed letter that the mark carries.
    pub open spec fn letter(self) -> char {
        match self {
            FeedbackType::Correct(c) => c,
            FeedbackType::WrongPosition(c) => c,
            FeedbackType::Wrong(c) => c,
        }
    }

    /// The coloured square that shows the mark on a board.
    pub open spec fn block_spec(self) -> char {
        match self {
            FeedbackType::Correct(_) => '🟩',
            FeedbackType::WrongPosition(_) => '🟨',
            FeedbackType::Wrong(_) => '⬜',
        }
    }

    pub fn block(&self) -> (r: char)
        ensures
            r == self.block_spec(),
    {
        match self {
            FeedbackType::Correct(_) => '🟩',
            FeedbackType::WrongPosition(_) => '🟨',
            FeedbackType::Wrong(_) => '⬜',
        }
    }
}

/// The category of a mark with its letter dropped: the key by which the
/// outcomes of a guess are grouped.
#[derive(Debug, Copy, Clone, PartialEq, Eq, Hash, Structural)]
pub enum FB {
    C,
    WP,
    W,
}

pub open spec fn kind_of(t: FeedbackType) -> FB {
    match t {
        FeedbackType::Correct(_) => FB::C,
        FeedbackType::WrongPosition(_) => FB::WP,
        FeedbackType::Wrong(_) => FB::W,
    }
}

impl From<FeedbackType> for FB {
    fn from(value: FeedbackType) -> FB {
        match value {
            FeedbackType::Correct(_) => FB::C,
            FeedbackType::WrongPosition(_) => FB::WP,
            FeedbackType::Wrong(_) => FB::W,
        }
    }
}

impl vstd::std_specs::convert::FromSpecImpl<FeedbackType> for FB {
    open spec fn obeys_from_spec() -> bool {
        true
    }

    open spec fn from_spec(v: FeedbackType) -> FB {
        kind_of(v)
    }
}

/// A scored row: one mark for each of the five positions.
#[derive(Debug, Copy, Clone)]
pub struct Feedback {
    pub items: [FeedbackType; 5],
}

/// Number of positions below `n` that are not matched in place and where the
/// guess holds `c`.
pub open spec fn open_in_guess(g: Seq<char>, s: Seq<char>, c: char, n: int) -> nat
    decreases n,
{
    if n <= 0 {
        0
    } else {
        open_in_guess(g, s, c, n - 1) + if g[n - 1] != s[n - 1] && g[n - 1] == c {
            1nat
        } else {
            0nat
        }
    }
}

/// Number of positions below `n` that are not matched in place and where the
/// solution holds `c`: the occurrences of `c` that a misplaced guess letter
/// may still claim.
pub open spec fn open_in_solution(g: Seq<char>, s: Seq<char>, c: char, n: int) -> nat
    decreases n,
{
    if n <= 0 {
        0
    } else {
        open_in_solution(g, s, c, n - 1) + if g[n - 1] != s[n - 1] && s[n - 1] == c {
            1nat
        } else {
            0nat
        }
    }
}

/// The mark of position `i` when guess `g` is scored against solution `s`.
/// A letter matched in place is `Correct`. Otherwise the letter is
/// `WrongPosition` when, counting left to right, fewer earlier unmatched
/// guess positions hold the same letter than there are unmatched solution
/// positions holding it; else it is `Wrong`.
pub open spec fn mark_at(g: Seq<char>, s: Seq<char>, i: int) -> FeedbackType {
    if g[i] == s[i] {
        FeedbackType::Correct(g[i])
    } else if open_in_guess(g, s, g[i], i) < open_in_solution(g, s, g[i], 5) {
        FeedbackType::WrongPosition(g[i])
    } else {
        FeedbackType::Wrong(g[i])
    }
}

/// The row that scoring guess `g` against solution `s` yields.
pub open spec fn score(g: Seq<char>, s: Seq<char>) -> Seq<FeedbackType> {
    Seq::new(5, |i: int| mark_at(g, s, i))
}

/// Whether solution position `j` has been claimed by a misplaced guess letter
/// once the guess positions below `i` are scored.
pub open spec fn claimed(g: Seq<char>, s: Seq<char>, i: int, j: int) -> bool {
    let c = s[j];
    let w = if open_in_guess(g, s, c, i) < open_in_solution(g, s, c, 5) {
        open_in_guess(g, s, c, i)
    } else {
        open_in_solution(g, s, c, 5)
    };
    g[j] != s[j] && open_in_solution(g, s, c, j) < w
}

proof fn lemma_open_in_solution_grows(g: Seq<char>, s: Seq<char>, c: char, j: int, k: int)
    requires
        0 <= j < k,
    ensures
        open_in_solution(g, s, c, j) <= open_in_solution(g, s, c, k),
        g[j] != s[j] && s[j] == c ==> open_in_solution(g, s, c, j) < open_in_solution(
            g,
            s,
            c,
            k,
        ),
    decreases k - j,
{
    if k > j + 1 {
        lemma_open_in_solution_grows(g, s, c, j, k - 1);
    }
}

proof fn lemma_open_in_solution_reached(g: Seq<char>, s: Seq<char>, c: char, n: int, m: nat)
    requires
        0 <= n,
        m < open_in_solution(g, s, c, n),
    ensures
        exists|j: int|
            0 <= j < n && g[j] != s[j] && s[j] == c && #[trigger] open_in_solution(g, s, c, j)
                == m,
    decreases n,
{
    if m < open_in_solution(g, s, c, n - 1) {
        lemma_open_in_solution_reached(g, s, c, n - 1, m);
    } else {
        assert(open_in_solution(g, s, c, n - 1) == m);
    }
}

/// Number of positions below `n` where `w` holds `c`.
pub open spec fn count_char(w: Seq<char>, c: char, n: int) -> nat
    decreases n,
{
    if n <= 0 {
        0
    } else {
        count_char(w, c, n - 1) + if w[n - 1] == c {
            1nat
        } else {
            0nat
        }
    }
}

/// Number of occurrences of `c` in `w`.
pub open spec fn occurrences(w: Seq<char>, c: char) -> nat {
    count_char(w, c, w.len() as int)
}

/// Number of marks below `n` that are `Correct` or `WrongPosition` and carry
/// the letter `c`.
pub open spec fn count_present(m: Seq<FeedbackType>, c: char, n: int) -> nat
    decreases n,
{
    if n <= 0 {
        0
    } else {
        count_present(m, c, n - 1) + if m[n - 1] !is Wrong && m[n - 1].letter() == c {
            1nat
        } else {
            0nat
        }
    }
}

/// Number of positions below `n` where guess and solution both hold `c`.
pub open spec fn count_in_place(g: Seq<char>, s: Seq<char>, c: char, n: int) -> nat
    decreases n,
{
    if n <= 0 {
        0
    } else {
        count_in_place(g, s, c, n - 1) + if g[n - 1] == s[n - 1] && g[n - 1] == c {
            1nat
        } else {
            0nat
        }
    }
}

proof fn lemma_present_split(g: Seq<char>, s: Seq<char>, c: char, n: int)
    requires
        0 <= n <= 5,
    ensures
        count_present(score(g, s), c, n) == count_in_place(g, s, c, n) + if open_in_guess(
            g,
            s,
            c,
            n,
        ) < open_in_solution(g, s, c, 5) {
            open_in_guess(g, s, c, n)
        } else {
            open_in_solution(g, s, c, 5)
        },
        count_char(s, c, n) == count_in_place(g, s, c, n) + open_in_solution(g, s, c, n),
        count_char(g, c, n) == count_in_place(g, s, c, n) + open_in_guess(g, s, c, n),
    decreases n,
{
    if n > 0 {
        lemma_present_split(g, s, c, n - 1);
        assert(score(g, s)[n - 1] == mark_at(g, s, n - 1));
    }
}

/// A letter earns at most as many `Correct` and `WrongPosition` marks in a
/// scored row as it occurs in the solution, and at most as many as it occurs
/// in the guess.
pub proof fn lemma_present_marks_bounded(guess: Word, solution: Word, c: char)
    ensures
        count_present(score(guess@, solution@), c, 5) <= occurrences(solution@, c),
        count_present(score(guess@, solution@), c, 5) <= occurrences(guess@, c),
{
    lemma_present_split(guess@, solution@, c, 5);
}

impl Feedback {
    pub fn new(items: [FeedbackType; 5]) -> (r: Self)
        ensures
            r.items == items,
    {
        Feedback { items }
    }

    /// Scores `guess` against `solution`. Letters matched in place are
    /// `Correct`; each other guess letter, from left to right, claims the
    /// first unclaimed unmatched solution position holding the same letter
    /// and is then `WrongPosition`, or is `Wrong` when none is left.
    pub fn from_guess(guess: &Word, solution: &Word) -> (r: Self)
        ensures
            r.items@ == score(guess@, solution@),
            forall|i: int|
                0 <= i < 5 ==> (#[trigger] r.items[i] is Correct <==> guess[i] == solution[i]),
            forall|i: int| 0 <= i < 5 ==> (#[trigger] r.items[i]).letter() == guess[i],
    {
        let ghost g = guess@;
        let ghost s = solution@;
        let mut answer: [FeedbackType; 5] = [FeedbackType::Wrong('a'); 5];
        let mut used_for_wrong_pos: [bool; 5] = [false; 5];
        let mut i: usize = 0;
        while i < 5
            invariant
                0 <= i <= 5,
                g == guess@,
                s == solution@,
                forall|k: int| 0 <= k < i ==> answer[k] == mark_at(g, s, k),
                forall|j: int|
                    0 <= j < 5 ==> used_for_wrong_pos[j] == #[trigger] claimed(g, s, i as int, j),
            decreases 5 - i,
        {
            if solution[i] == guess[i] {
                answer[i] = FeedbackType::Correct(guess[i]);
                proof {
                    assert forall|j: int| 0 <= j < 5 implies used_for_wrong_pos[j] == #[trigger] claimed(g, s, i + 1, j) by {
                        assert(used_for_wrong_pos[j] == claimed(g, s, i as int, j));
                        assert(open_in_guess(g, s, s[j], i + 1) == open_in_guess(g, s, s[j], i as int));
                    }
                }
            } else {
                let ghost c = g[i as int];
                let ghost w = if open_in_guess(g, s, c, i as int) < open_in_solution(g, s, c, 5) {
                    open_in_guess(g, s, c, i as int)
                } else {
                    open_in_solution(g, s, c, 5)
                };
                // The first unclaimed, unmatched solution position that holds
                // the letter, or 5 when there is none.
                let mut pos: usize = 5;
                let mut ii: usize = 0;
                while ii < 5
                    invariant
                        0 <= ii <= 5,
                        i < 5,
                        g == guess@,
                        s == solution@,
                        c == g[i as int],
                        forall|j: int|
                            0 <= j < 5 ==> used_for_wrong_pos[j] == #[trigger] claimed(
                                g,
                                s,
                                i as int,
                                j,
                            ),
                        pos == 5 || (pos < ii && !used_for_wrong_pos[pos as int] && g[pos as int]
                            != s[pos as int] && c == s[pos as int]),
                        forall|jj: int|
                            0 <= jj < ii && jj < pos ==> !(!used_for_wrong_pos[jj] && g[jj]
                                != s[jj] && c == s[jj]),
                    decreases 5 - ii,
                {
                    if pos == 5 && !used_for_wrong_pos[ii] && guess[ii] != solution[ii]
                        && guess[i] == solution[ii] {
                        pos = ii;
                    }
                    ii = ii + 1;
                }
                if pos < 5 {
                    let ii = pos;
                    proof {
                        assert(!claimed(g, s, i as int, ii as int));
                        if open_in_solution(g, s, c, ii as int) > w {
                            lemma_open_in_solution_reached(g, s, c, ii as int, w);
                            let jj = choose|jj: int|
                                0 <= jj < ii && g[jj] != s[jj] && s[jj] == c
                                    && #[trigger] open_in_solution(g, s, c, jj) == w;
                            assert(claimed(g, s, i as int, jj));
                        }
                        lemma_open_in_solution_grows(g, s, c, ii as int, 5);
                        assert(open_in_guess(g, s, c, i + 1) == open_in_guess(g, s, c, i as int) + 1);
                    }
                    let ghost before = used_for_wrong_pos;
                    answer[i] = FeedbackType::WrongPosition(guess[i]);
                    used_for_wrong_pos[ii] = true;
                    proof {
                        assert forall|j: int| 0 <= j < 5 implies used_for_wrong_pos[j] == #[trigger] claimed(g, s, i + 1, j) by {
                            assert(before[j] == claimed(g, s, i as int, j));
                            if s[j] == c && g[j] != s[j] && j != ii {
                                if j < ii {
                                    lemma_open_in_solution_grows(g, s, c, j, ii as int);
                                } else {
                                    lemma_open_in_solution_grows(g, s, c, ii as int, j);
                                }
                            }
                            if s[j] != c {
                                assert(open_in_guess(g, s, s[j], i + 1) == open_in_guess(g, s, s[j], i as int));
                            }
                        }
                    }
                } else {
                    proof {
                        if open_in_solution(g, s, c, 5) > w {
                            lemma_open_in_solution_reached(g, s, c, 5, w);
                            let jj = choose|jj: int|
                                0 <= jj < 5 && g[jj] != s[jj] && s[jj] == c
                                    && #[trigger] open_in_solution(g, s, c, jj) == w;
                            assert(claimed(g, s, i as int, jj));
                        }
                        assert forall|j: int| 0 <= j < 5 implies used_for_wrong_pos[j] == #[trigger] claimed(g, s, i + 1, j) by {
                            assert(used_for_wrong_pos[j] == claimed(g, s, i as int, j));
                            assert(open_in_guess(g, s, s[j], i + 1) == open_in_guess(g, s, s[j], i as int) + if s[j] == c { 1nat } else { 0nat });
                        }
                    }
                    answer[i] = FeedbackType::Wrong(guess[i]);
                }
            }
            i = i + 1;
        }
        assert(answer@ =~= score(g, s));
        Feedback::new(answer)
    }

    /// The row with each mark reduced to its category, in position order.
    pub fn mask(&self) -> (r: [FB; 5])
        ensures
            forall|i: int| 0 <= i < 5 ==> r[i] == kind_of(#[trigger] self.items[i]),
    {
        [
            FB::from(self.items[0]),
            FB::from(self.items[1]),
            FB::from(self.items[2]),
            FB::from(self.items[3]),
            FB::from(self.items[4]),
        ]
    }

    /// Whether every mark of the row is `Correct`.
    pub fn is_correct(&self) -> (r: bool)
        ensures
            r == (forall|i: int| 0 <= i < 5 ==> #[trigger] self.items[i] is Correct),
    {
        let mut i: usize = 0;
        while i < 5
            invariant
                0 <= i <= 5,
                forall|k: int| 0 <= k < i ==> #[trigger] self.items[k] is Correct,
            decreases 5 - i,
        {
            match self.items[i] {
                FeedbackType::Correct(_) => {},
                _ => {
                    return false;
                },
            }
            i = i + 1;
        }
        true
    }
}

} // verus!
