use vstd::prelude::*;

verus! {

/// The message around the first suggestion: text before and after the word.
pub const OPENING: (&'static str, &'static str) = (
    "Lets start with ",
    ". Put it in wordle's feedback with 'g' for 🟩, 'y' for 🟨 and ' ' for ⬜ Press enter to confirm.",
);

/// The message around the suggestion for the last attempt.
pub const CLOSING: (&'static str, &'static str) = ("Last change! Lets try ", ". 🤞");

/// The message around the solved word.
pub const WON: (&'static str, &'static str) = ("🎉 Solved! The word was ", ". Press the 'ANY' key to leave.");

/// The message when every attempt is spent.
pub const LOST: &'static str =
    "Lost! 🤦 We ran out of words to suggest. Better luck next time!. Press the 'ANY' key to leave.";

/// The message when no candidate is left.
pub const FAILED: &'static str =
    "👹 None the words I know match the feedback. Either we made a mistake or the word is not in my dictionary. Press the 'ANY' key to leave.";

/// Messages around a suggestion in the middle of a game.
pub const SUGGESTIONS: [(&'static str, &'static str); 8] = [
    ("Interesting! 🧐 Next, try ", "."),
    ("🔥 Now go with ", "."),
    ("Victory is close. Let's try ", ". 🥇"),
    ("Clear! Next try ", ". 🎯"),
    ("Hmm 🤔, let's see what ", " does."),
    ("Next ", ". We are on course 🧭"),
    ("Why don't we give ", " a shot? 🤷"),
    ("Let's test ", " and find out! 🚀"),
];

/// The message around a suggestion, picked by `index` from `SUGGESTIONS`
/// in turn, so that it stays the same while the index does.
pub fn suggestion_text(index: usize) -> (r: (&'static str, &'static str))
    ensures
        r == SUGGESTIONS[(index % 8) as int],
{
    SUGGESTIONS[index % 8]
}

} // verus!
