use vstd::prelude::*;

use crate::brain::Word;
use crate::feedback::{kind_of, score, Feedback, FeedbackType, FB};

verus! {

/// Number of distinct feedback patterns: three categories at five positions.
pub const PATTERNS: usize = 243;

/// The digit of a category in a pattern's number.
pub open spec fn digit(k: FB) -> nat {
    match k {
        FB::C => 0,
        FB::WP => 1,
        FB::W => 2,
    }
}

/// The number of a pattern: its categories read as the digits of a base-3
/// number, the first position least significant.
pub open spec fn pattern_code(p: Seq<FB>) -> nat {
    digit(p[0]) + 3 * digit(p[1]) + 9 * digit(p[2]) + 27 * digit(p[3]) + 81 * digit(p[4])
}

/// The pattern that guess `g` receives when the solution is `s`.
pub open spec fn pattern_of(g: Word, s: Word) -> Seq<FB> {
    score(g@, s@).map_values(|t: FeedbackType| kind_of(t))
}

/// Number of candidates below `n` against which guess `g` receives the
/// pattern numbered `code`.
pub open spec fn group_size(g: Word, options: Seq<Word>, code: nat, n: int) -> nat
    decreases n,
{
    if n <= 0 {
        0
    } else {
        group_size(g, options, code, n - 1) + if pattern_code(pattern_of(g, options[n - 1]))
            == code {
            1nat
        } else {
            0nat
        }
    }
}

/// Number of candidates below `n` whose pattern number is below `m`: the
/// sizes of the first `m` groups added up.
pub open spec fn grouped(g: Word, options: Seq<Word>, n: int, m: int) -> nat
    decreases m,
{
    if m <= 0 {
        0
    } else {
        grouped(g, options, n, m - 1) + group_size(g, options, (m - 1) as nat, n)
    }
}

proof fn lemma_grouped_step(g: Word, options: Seq<Word>, n: int, m: int)
    requires
        0 <= n,
        0 <= m,
    ensures
        grouped(g, options, n + 1, m) == grouped(g, options, n, m) + if pattern_code(
            pattern_of(g, options[n]),
        ) < m {
            1nat
        } else {
            0nat
        },
    decreases m,
{
    if m > 0 {
        lemma_grouped_step(g, options, n, m - 1);
    }
}

/// The groups into which a guess's feedback splits the candidates hold
/// every candidate exactly once: their sizes add up to the number of
/// candidates.
pub proof fn lemma_groups_cover_candidates(g: Word, options: Seq<Word>)
    ensures
        grouped(g, options, options.len() as int, PATTERNS as int) == options.len(),
{
    lemma_groups_cover_prefix(g, options, options.len() as int);
}

proof fn lemma_groups_cover_prefix(g: Word, options: Seq<Word>, n: int)
    requires
        0 <= n <= options.len(),
    ensures
        grouped(g, options, n, PATTERNS as int) == n,
    decreases n,
{
    if n == 0 {
        lemma_grouped_zero(g, options, PATTERNS as int);
    } else {
        lemma_groups_cover_prefix(g, options, n - 1);
        lemma_grouped_step(g, options, n - 1, PATTERNS as int);
        lemma_pattern_code_injective(pattern_of(g, options[n - 1]), pattern_of(g, options[n - 1]));
    }
}

proof fn lemma_grouped_zero(g: Word, options: Seq<Word>, m: int)
    requires
        0 <= m,
    ensures
        grouped(g, options, 0, m) == 0,
    decreases m,
{
    if m > 0 {
        lemma_grouped_zero(g, options, m - 1);
    }
}

/// Distinct patterns have distinct numbers, and every number is below
/// `PATTERNS`.
pub proof fn lemma_pattern_code_injective(p: Seq<FB>, q: Seq<FB>)
    requires
        p.len() == 5,
        q.len() == 5,
    ensures
        pattern_code(p) < PATTERNS,
        pattern_code(p) == pattern_code(q) ==> p == q,
{
    if pattern_code(p) == pattern_code(q) {
        assert(p =~= q);
    }
}

/// The number of the pattern `mask`.
fn pattern_index(mask: &[FB; 5]) -> (r: usize)
    ensures
        r == pattern_code(mask@),
        r < PATTERNS,
{
    let mut r: usize = 0;
    let mut weight: usize = 1;
    let mut i: usize = 0;
    while i < 5
        invariant
            0 <= i <= 5,
            weight == if i == 0 { 1nat } else if i == 1 { 3nat } else if i == 2 { 9nat } else if i == 3 { 27nat } else if i == 4 { 81nat } else { 243nat },
            r < weight,
            r == (if i > 0 { digit(mask@[0]) } else { 0 }) + (if i > 1 { 3 * digit(mask@[1]) } else { 0 }) + (if i > 2 { 9 * digit(mask@[2]) } else { 0 }) + (if i > 3 { 27 * digit(mask@[3]) } else { 0 }) + (if i > 4 { 81 * digit(mask@[4]) } else { 0 }),
        decreases 5 - i,
    {
        let d: usize = match mask[i] {
            FB::C => 0,
            FB::WP => 1,
            FB::W => 2,
        };
        assert(d == digit(mask@[i as int]));
        r = r + d * weight;
        weight = weight * 3;
        i = i + 1;
    }
    r
}

/// The sizes of the groups into which the feedback of guess `word` splits
/// `options`: entry `k` counts the candidates against which `word` receives
/// the pattern numbered `k`.
pub fn pattern_counts(word: &Word, options: &Vec<Word>) -> (r: Vec<usize>)
    ensures
        r@.len() == PATTERNS,
        forall|k: int|
            0 <= k < PATTERNS ==> #[trigger] r@[k] == group_size(
                *word,
                options@,
                k as nat,
                options@.len() as int,
            ),
{
    let mut counts: Vec<usize> = Vec::new();
    let mut k: usize = 0;
    while k < PATTERNS
        invariant
            0 <= k <= PATTERNS,
            counts@.len() == k,
            forall|j: int| 0 <= j < k ==> #[trigger] counts@[j] == 0,
        decreases PATTERNS - k,
    {
        counts.push(0);
        k = k + 1;
    }
    let mut n: usize = 0;
    while n < options.len()
        invariant
            0 <= n <= options.len(),
            counts@.len() == PATTERNS,
            forall|j: int|
                0 <= j < PATTERNS ==> #[trigger] counts@[j] == group_size(
                    *word,
                    options@,
                    j as nat,
                    n as int,
                ),
            forall|j: int| 0 <= j < PATTERNS ==> #[trigger] counts@[j] <= n,
        decreases options.len() - n,
    {
        let fb = Feedback::from_guess(word, &options[n]);
        let mask = fb.mask();
        let code = pattern_index(&mask);
        proof {
            assert(mask@ =~= pattern_of(*word, options@[n as int]));
        }
        counts.set(code, counts[code] + 1);
        n = n + 1;
    }
    counts
}

} // verus!
