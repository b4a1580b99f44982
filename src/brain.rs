use vstd::prelude::*;

use rand::seq::SliceRandom;

use crate::feedback::{count_char, count_present, Feedback, FeedbackType};

verus! {

/// A word of the game: exactly five letters.
pub type Word = [char; 5];

/// A first guess that is known to split a full dictionary well.
pub const OPENER: Word = ['t', 'a', 'r', 'e', 's'];

/// The least number of times a candidate must hold `c` after the row `fb`:
/// the marks of `c` that are `Correct` or `WrongPosition`.
pub open spec fn required(fb: Seq<FeedbackType>, c: char) -> nat {
    count_present(fb, c, 5)
}

/// Whether word `x` is consistent with the scored row `fb`:
/// - a `Correct` letter stands at its position;
/// - a `WrongPosition` or `Wrong` letter does not stand at its position;
/// - a letter with `Correct` or `WrongPosition` marks occurs at least as
///   often as it has such marks;
/// - a letter with only `Wrong` marks stands at none of the positions that
///   are not `Correct`.
pub open spec fn admits(fb: Seq<FeedbackType>, x: Seq<char>) -> bool {
    &&& forall|i: int| 0 <= i < 5 && #[trigger] fb[i] is Correct ==> x[i] == fb[i].letter()
    &&& forall|i: int| 0 <= i < 5 && #[trigger] fb[i] !is Correct ==> x[i] != fb[i].letter()
    &&& forall|i: int|
        0 <= i < 5 && #[trigger] fb[i] !is Wrong ==> count_char(x, fb[i].letter(), 5) >= required(
            fb,
            fb[i].letter(),
        )
    &&& forall|i: int, j: int|
        0 <= i < 5 && 0 <= j < 5 && #[trigger] fb[i] is Wrong && required(fb, fb[i].letter()) == 0
            && #[trigger] fb[j] !is Correct ==> x[j] != fb[i].letter()
}

/// The candidates of `options` that the row `fb` leaves, in their order.
pub open spec fn pruned(options: Seq<Word>, fb: Seq<FeedbackType>) -> Seq<Word> {
    options.filter(|x: Word| admits(fb, x@))
}

/// Number of `Correct` and `WrongPosition` marks of `items` that carry `c`.
fn required_count(items: &[FeedbackType; 5], c: char) -> (n: usize)
    ensures
        n == count_present(items@, c, 5),
{
    let mut n: usize = 0;
    let mut i: usize = 0;
    while i < 5
        invariant
            0 <= i <= 5,
            n == count_present(items@, c, i as int),
            n <= i,
        decreases 5 - i,
    {
        match items[i] {
            FeedbackType::Correct(x) | FeedbackType::WrongPosition(x) => {
                if x == c {
                    n = n + 1;
                }
            },
            FeedbackType::Wrong(_) => {},
        }
        i = i + 1;
    }
    n
}

/// Number of positions of `x` that hold `c`.
fn letter_count(x: &Word, c: char) -> (n: usize)
    ensures
        n == count_char(x@, c, 5),
{
    let mut n: usize = 0;
    let mut i: usize = 0;
    while i < 5
        invariant
            0 <= i <= 5,
            n == count_char(x@, c, i as int),
            n <= i,
        decreases 5 - i,
    {
        if x[i] == c {
            n = n + 1;
        }
        i = i + 1;
    }
    n
}

/// Whether `x` is consistent with the row `items`, given the number of
/// required occurrences of the letter at each position.
fn admits_word(items: &[FeedbackType; 5], counts: &[usize; 5], x: &Word) -> (r: bool)
    requires
        forall|i: int|
            0 <= i < 5 ==> counts[i] == required(items@, (#[trigger] items@[i]).letter()),
    ensures
        r == admits(items@, x@),
{
    let ghost fb = items@;
    let mut i: usize = 0;
    while i < 5
        invariant
            0 <= i <= 5,
            fb == items@,
            forall|k: int| 0 <= k < 5 ==> counts[k] == required(fb, (#[trigger] fb[k]).letter()),
            forall|k: int| 0 <= k < i && #[trigger] fb[k] is Correct ==> x[k] == fb[k].letter(),
            forall|k: int| 0 <= k < i && #[trigger] fb[k] !is Correct ==> x[k] != fb[k].letter(),
            forall|k: int|
                0 <= k < i && #[trigger] fb[k] !is Wrong ==> count_char(x@, fb[k].letter(), 5)
                    >= required(fb, fb[k].letter()),
        decreases 5 - i,
    {
        let item = items[i];
        assert(item == fb[i as int]);
        match item {
            FeedbackType::Correct(c) => {
                if x[i] != c {
                    return false;
                }
                if letter_count(x, c) < counts[i] {
                    return false;
                }
            },
            FeedbackType::WrongPosition(c) => {
                if x[i] == c {
                    return false;
                }
                if letter_count(x, c) < counts[i] {
                    return false;
                }
            },
            FeedbackType::Wrong(c) => {
                if x[i] == c {
                    return false;
                }
            },
        }
        assert(item !is Wrong ==> count_char(x@, item.letter(), 5) >= required(fb, item.letter()));
        i = i + 1;
    }
    let mut i: usize = 0;
    while i < 5
        invariant
            0 <= i <= 5,
            fb == items@,
            forall|k: int| 0 <= k < 5 ==> counts[k] == required(fb, (#[trigger] fb[k]).letter()),
            forall|k: int, j: int|
                0 <= k < i && 0 <= j < 5 && #[trigger] fb[k] is Wrong && required(
                    fb,
                    fb[k].letter(),
                ) == 0 && #[trigger] fb[j] !is Correct ==> x[j] != fb[k].letter(),
        decreases 5 - i,
    {
        if let FeedbackType::Wrong(c) = items[i] {
            if counts[i] == 0 {
                let mut j: usize = 0;
                while j < 5
                    invariant
                        0 <= i < 5,
                        0 <= j <= 5,
                        fb == items@,
                        counts[i as int] == 0,
                        counts[i as int] == required(fb, c),
            forall|k: int| 0 <= k < 5 ==> counts[k] == required(fb, (#[trigger] fb[k]).letter()),
                        fb[i as int] == FeedbackType::Wrong(c),
                        forall|jj: int|
                            0 <= jj < j && #[trigger] fb[jj] !is Correct ==> x[jj] != c,
                    decreases 5 - j,
                {
                    let other = items[j];
                    assert(other == fb[j as int]);
                    match other {
                        FeedbackType::Correct(_) => {},
                        _ => {
                            if x[j] == c {
                                assert(fb[i as int] is Wrong && fb[j as int] !is Correct);
                                return false;
                            }
                        },
                    }
                    j = j + 1;
                }
            }
        }
        assert(forall|j: int|
            0 <= j < 5 && fb[i as int] is Wrong && required(fb, fb[i as int].letter()) == 0
                && #[trigger] fb[j] !is Correct ==> x[j] != fb[i as int].letter());
        i = i + 1;
    }
    true
}

/// Relies on rand's `SliceRandom::choose` on the thread-local generator:
/// `None` for an empty slice, otherwise one of the slice's elements.
#[verifier::external_body]
fn choose_word(options: &Vec<Word>) -> (r: Option<Word>)
    ensures
        r.is_none() == (options@.len() == 0),
        r matches Some(w) ==> options@.contains(w),
{
    options.choose(&mut rand::thread_rng()).copied()
}

/// Whether `options` holds `w`.
fn holds_word(options: &Vec<Word>, w: &Word) -> (r: bool)
    ensures
        r == options@.contains(*w),
{
    let mut k: usize = 0;
    while k < options.len()
        invariant
            0 <= k <= options.len(),
            forall|j: int| 0 <= j < k ==> options@[j] != *w,
        decreases options.len() - k,
    {
        let x = &options[k];
        let mut same: bool = true;
        let mut i: usize = 0;
        while i < 5
            invariant
                0 <= i <= 5,
                same == (forall|p: int| 0 <= p < i ==> x[p] == w[p]),
            decreases 5 - i,
        {
            if x[i] != w[i] {
                same = false;
            }
            i = i + 1;
        }
        if same {
            assert(*x =~= *w);
            return true;
        }
        k = k + 1;
    }
    false
}

/// Every word that pruning keeps was a candidate before.
pub proof fn lemma_pruning_monotonic(options: Seq<Word>, fb: Seq<FeedbackType>)
    ensures
        pruned(options, fb).len() <= options.len(),
        forall|i: int|
            0 <= i < pruned(options, fb).len() ==> options.contains(
                #[trigger] pruned(options, fb)[i],
            ),
    decreases options.len(),
{
    reveal(Seq::filter);
    broadcast use Seq::lemma_filter_len;

    if options.len() > 0 {
        lemma_pruning_monotonic(options.drop_last(), fb);
        let rest = pruned(options.drop_last(), fb);
        assert forall|i: int|
            0 <= i < pruned(options, fb).len() implies options.contains(
            #[trigger] pruned(options, fb)[i],
        ) by {
            if i < rest.len() {
                let j = choose|j: int|
                    0 <= j < options.drop_last().len() && options.drop_last()[j] == rest[i];
                assert(options[j] == rest[i]);
            } else {
                assert(pruned(options, fb)[i] == options[options.len() - 1]);
            }
        }
    }
}

proof fn lemma_filter_keeps_all(s: Seq<Word>, p: spec_fn(Word) -> bool)
    requires
        forall|i: int| 0 <= i < s.len() ==> p(#[trigger] s[i]),
    ensures
        s.filter(p) == s,
    decreases s.len(),
{
    reveal(Seq::filter);
    if s.len() > 0 {
        lemma_filter_keeps_all(s.drop_last(), p);
        assert(s.drop_last().push(s.last()) =~= s);
    }
}

/// Pruning a second time with the same row changes nothing.
pub proof fn lemma_pruning_idempotent(options: Seq<Word>, fb: Seq<FeedbackType>)
    ensures
        pruned(pruned(options, fb), fb) == pruned(options, fb),
{
    broadcast use Seq::lemma_filter_pred;

    let p = |x: Word| admits(fb, x@);
    assert forall|i: int| 0 <= i < options.filter(p).len() implies p(
        #[trigger] options.filter(p)[i],
    ) by {}
    lemma_filter_keeps_all(options.filter(p), p);
}

/// The advisor's state: the words still consistent with every row seen so
/// far, and the words it may propose as guesses.
pub struct Brain {
    pub options: Vec<Word>,
    pub valid: Vec<Word>,
}

/// What to guess next.
#[derive(Debug, Copy, Clone, PartialEq, Eq)]
pub enum Suggestion {
    /// This word.
    Guess(Word),
    /// The word of the guess list whose feedback over the candidates has the
    /// greatest entropy: the caller ranks the guesses.
    BestByEntropy,
}

/// Why no guess can be suggested.
#[derive(Debug, Copy, Clone, PartialEq, Eq, Structural)]
pub enum SuggestError {
    /// No candidate is left: the rows seen contradict each other or the
    /// dictionary.
    NoCandidates,
}

impl Brain {
    /// An advisor whose candidates and guess list are both `data_set`.
    pub fn new(data_set: Vec<Word>) -> (r: Self)
        ensures
            r.options@ == data_set@,
            r.valid@ == data_set@,
    {
        let mut options: Vec<Word> = Vec::new();
        let mut k: usize = 0;
        while k < data_set.len()
            invariant
                0 <= k <= data_set.len(),
                options@ == data_set@.subrange(0, k as int),
            decreases data_set.len() - k,
        {
            options.push(data_set[k]);
            k = k + 1;
            assert(options@ =~= data_set@.subrange(0, k as int));
        }
        assert(options@ =~= data_set@);
        Self { options, valid: data_set }
    }

    /// What to guess next. With one candidate left it is that candidate; on
    /// the last attempt, any candidate; else the opener while it is still a
    /// candidate; else the guess that the entropy ranking puts first.
    pub fn suggest(&self, last_round: bool) -> (r: Result<Suggestion, SuggestError>)
        ensures
            (r == Err::<Suggestion, SuggestError>(SuggestError::NoCandidates)) == (
            self.options@.len() == 0),
            self.options@.len() == 1 ==> r == Ok::<Suggestion, SuggestError>(
                Suggestion::Guess(self.options@[0]),
            ),
            self.options@.len() > 1 && last_round ==> (r matches Ok(Suggestion::Guess(w))
                && self.options@.contains(w)),
            self.options@.len() > 1 && !last_round && self.options@.contains(OPENER) ==> r
                == Ok::<Suggestion, SuggestError>(Suggestion::Guess(OPENER)),
            self.options@.len() > 1 && !last_round && !self.options@.contains(OPENER) ==> r
                == Ok::<Suggestion, SuggestError>(Suggestion::BestByEntropy),
    {
        if self.options.len() == 0 {
            return Err(SuggestError::NoCandidates);
        }
        if self.options.len() == 1 {
            return Ok(Suggestion::Guess(self.options[0]));
        }
        if last_round {
            return match choose_word(&self.options) {
                Some(w) => Ok(Suggestion::Guess(w)),
                None => Err(SuggestError::NoCandidates),
            };
        }
        if holds_word(&self.options, &OPENER) {
            return Ok(Suggestion::Guess(OPENER));
        }
        Ok(Suggestion::BestByEntropy)
    }

    /// Whether exactly one candidate is left.
    pub fn done(&self) -> (r: bool)
        ensures
            r == (self.options@.len() == 1),
    {
        self.options.len() == 1
    }

    /// Keeps the candidates that are consistent with `feedback`, in their
    /// order; the guess list is left as it is.
    pub fn prune(&mut self, feedback: Feedback)
        ensures
            final(self).options@ == pruned(old(self).options@, feedback.items@),
            final(self).valid@ == old(self).valid@,
    {
        let items = feedback.items;
        let mut counts: [usize; 5] = [0; 5];
        let mut i: usize = 0;
        while i < 5
            invariant
                0 <= i <= 5,
                items == feedback.items,
                forall|k: int|
                    0 <= k < i ==> counts[k] == required(items@, (#[trigger] items@[k]).letter()),
            decreases 5 - i,
        {
            let item = items[i];
            let c = match item {
                FeedbackType::Correct(c) => c,
                FeedbackType::WrongPosition(c) => c,
                FeedbackType::Wrong(c) => c,
            };
            counts[i] = required_count(&items, c);
            i = i + 1;
        }
        let ghost before = self.options@;
        let ghost p = |x: Word| admits(items@, x@);
        let mut kept: Vec<Word> = Vec::new();
        let mut k: usize = 0;
        while k < self.options.len()
            invariant
                0 <= k <= self.options.len(),
                self.options@ == before,
                p == (|x: Word| admits(items@, x@)),
                forall|j: int|
                    0 <= j < 5 ==> counts[j] == required(items@, (#[trigger] items@[j]).letter()),
                kept@ == before.subrange(0, k as int).filter(p),
            decreases self.options.len() - k,
        {
            let x = self.options[k];
            let keep = admits_word(&items, &counts, &x);
            proof {
                reveal(Seq::filter);
                assert(before.subrange(0, k + 1).drop_last() =~= before.subrange(0, k as int));
            }
            if keep {
                kept.push(x);
            }
            k = k + 1;
        }
        assert(before.subrange(0, k as int) =~= before);
        self.options = kept;
    }
}

} // verus!
