use vstd::prelude::*;

use crate::brain::Word;
use vstd::std_specs::iter::IteratorSpec;

verus! {

/// The text that `str::trim` leaves of `s`.
pub uninterp spec fn trim_of(s: Seq<char>) -> Seq<char>;

/// The lines of `s`: the pieces between its newline characters, in order.
/// A text without a newline is one line; an empty text is one empty line.
pub open spec fn lines(s: Seq<char>) -> Seq<Seq<char>>
    decreases s.len(),
{
    if s.len() == 0 {
        seq![Seq::empty()]
    } else {
        let prev = lines(s.drop_last());
        if s.last() == '\n' {
            prev.push(Seq::empty())
        } else {
            prev.update(prev.len() - 1, prev.last().push(s.last()))
        }
    }
}

/// Whether every line of `s` holds exactly five characters.
pub open spec fn all_words(s: Seq<char>) -> bool {
    forall|i: int| 0 <= i < lines(s).len() ==> (#[trigger] lines(s)[i]).len() == 5
}

/// Why a dictionary text cannot be read.
#[derive(Debug, Copy, Clone, PartialEq, Eq, Structural)]
pub enum DictionaryError {
    /// The line with this index (from zero) does not hold exactly five
    /// characters.
    MalformedEntry(usize),
}

proof fn lemma_lines_nonempty(s: Seq<char>)
    ensures
        lines(s).len() >= 1,
    decreases s.len(),
{
    if s.len() > 0 {
        lemma_lines_nonempty(s.drop_last());
    }
}

proof fn lemma_lines_extend(s: Seq<char>, k: int, n: int)
    requires
        0 <= k <= n <= s.len(),
    ensures
        lines(s.take(k)).len() <= lines(s.take(n)).len(),
        forall|i: int|
            0 <= i < lines(s.take(k)).len() - 1 ==> #[trigger] lines(s.take(n))[i] == lines(
                s.take(k),
            )[i],
    decreases n - k,
{
    if n > k {
        lemma_lines_extend(s, k, n - 1);
        assert(s.take(n).drop_last() =~= s.take(n - 1));
        lemma_lines_nonempty(s.take(n - 1));
    }
}

/// Relies on `str::trim`: the text without leading and trailing whitespace.
#[verifier::external_body]
fn trimmed(s: &str) -> (r: &str)
    ensures
        r@ == trim_of(s@),
{
    s.trim()
}

/// Reads a dictionary text: one word of five characters on each line.
pub fn parse_words(text: &str) -> (r: Result<Vec<Word>, DictionaryError>)
    ensures
        r is Ok == all_words(text@),
        r matches Ok(ws) ==> ws@.len() == lines(text@).len() && forall|i: int|
            0 <= i < ws@.len() ==> (#[trigger] ws@[i])@ == lines(text@)[i],
        r matches Err(DictionaryError::MalformedEntry(i)) ==> i < lines(text@).len() && lines(
            text@,
        )[i as int].len() != 5,
{
    let ghost total = text@;
    let mut it = text.chars();
    let ghost mut k: int = 0;
    let mut words: Vec<Word> = Vec::new();
    let mut cur: Word = [' '; 5];
    let mut len: usize = 0;
    proof {
        assert(total.take(0) =~= Seq::<char>::empty());
        assert(lines(total.take(0)) == seq![Seq::<char>::empty()]);
    }
    loop
        invariant
            0 <= k <= total.len(),
            total == text@,
            it.remaining() == total.skip(k),
            lines(total.take(k)).len() == words@.len() + 1,
            forall|i: int|
                0 <= i < words@.len() ==> (#[trigger] words@[i])@ == lines(total.take(k))[i],
            len <= 6,
            len == 6 ==> lines(total.take(k)).last().len() >= 6,
            len < 6 ==> lines(total.take(k)).last().len() == len,
            forall|p: int|
                0 <= p < 5 && p < len ==> cur[p] == lines(total.take(k)).last()[p],
        ensures
            k == total.len(),
            0 <= k <= total.len(),
            total == text@,
            lines(total.take(k)).len() == words@.len() + 1,
            forall|i: int|
                0 <= i < words@.len() ==> (#[trigger] words@[i])@ == lines(total.take(k))[i],
            len <= 6,
            len == 6 ==> lines(total.take(k)).last().len() >= 6,
            len < 6 ==> lines(total.take(k)).last().len() == len,
            forall|p: int|
                0 <= p < 5 && p < len ==> cur[p] == lines(total.take(k)).last()[p],
        decreases total.len() - k,
    {
        let next = it.next();
        match next {
            None => {
                proof {
                    assert(total.skip(k).len() == 0);
                }
                break ;
            },
            Some(c) => {
                proof {
                    assert(total.skip(k)[0] == total[k]);
                    assert(total.skip(k).drop_first() =~= total.skip(k + 1));
                    assert(total.take(k + 1).drop_last() =~= total.take(k));
                    lemma_lines_nonempty(total.take(k));
                }
                let ghost before = lines(total.take(k));
                if c == '\n' {
                    if len != 5 {
                        proof {
                            lemma_lines_extend(total, k + 1, total.len() as int);
                            assert(total.take(total.len() as int) =~= total);
                            assert(lines(total)[words@.len() as int] == before.last());
                        }
                        return Err(DictionaryError::MalformedEntry(words.len()));
                    }
                    proof {
                        assert(cur@ =~= before.last());
                    }
                    words.push(cur);
                    len = 0;
                } else {
                    if len < 5 {
                        cur[len] = c;
                    }
                    if len < 6 {
                        len = len + 1;
                    }
                }
                proof {
                    k = k + 1;
                }
            },
        }
    }
    assert(total.take(k) =~= total);
    if len != 5 {
        proof {
            lemma_lines_nonempty(total);
        }
        return Err(DictionaryError::MalformedEntry(words.len()));
    }
    proof {
        lemma_lines_nonempty(total);
        assert(cur@ =~= lines(total).last());
    }
    words.push(cur);
    assert forall|i: int| 0 <= i < lines(total).len() implies (#[trigger] lines(total)[i]).len()
        == 5 by {
        assert(words@[i]@ == lines(total)[i]);
    }
    Ok(words)
}

/// Reads a dictionary text, ignoring whitespace around it: one word of five
/// characters on each line.
pub fn load_words(text: &str) -> (r: Result<Vec<Word>, DictionaryError>)
    ensures
        r is Ok == all_words(trim_of(text@)),
        r matches Ok(ws) ==> ws@.len() == lines(trim_of(text@)).len() && forall|i: int|
            0 <= i < ws@.len() ==> (#[trigger] ws@[i])@ == lines(trim_of(text@))[i],
        r matches Err(DictionaryError::MalformedEntry(i)) ==> i < lines(trim_of(text@)).len()
            && lines(trim_of(text@))[i as int].len() != 5,
{
    parse_words(trimmed(text))
}

} // verus!
