//! How an answer typed at a prompt is read.

use vstd::prelude::*;
use vstd::string::*;

verus! {

/// `c` is the letter `lower` in either case.
pub open spec fn is_letter(c: char, lower: char, upper: char) -> bool {
    c == lower || c == upper
}

/// The three characters from index `at` on spell "yes", in any mix of cases.
pub open spec fn spells_yes_at(text: Seq<char>, at: int) -> bool {
    &&& 0 <= at
    &&& at + 3 <= text.len()
    &&& is_letter(text[at], 'y', 'Y')
    &&& is_letter(text[at + 1], 'e', 'E')
    &&& is_letter(text[at + 2], 's', 'S')
}

/// The text holds "yes" somewhere, in any mix of cases.
pub open spec fn says_yes(text: Seq<char>) -> bool {
    exists|at: int| spells_yes_at(text, at)
}

/// Whether an answer means yes: it does if it holds the word "yes" anywhere,
/// whatever the case of its letters and whatever stands around it.
pub fn answer_is_yes(answer: &str) -> (yes: bool)
    ensures
        yes == says_yes(answer@),
{
    let ghost text = answer@;
    // The count of characters bounds the index that runs along with the loop.
    let length: usize = answer.unicode_len();
    let mut i: usize = 0;
    let mut last: char = ' ';
    let mut before_last: char = ' ';
    for c in it: answer.chars()
        invariant
            text == answer@,
            text.len() == length,
            it.seq() == text,
            i == it.index(),
            i >= 1 ==> last == text[i - 1],
            i >= 2 ==> before_last == text[i - 2],
            forall|at: int| at + 3 <= i ==> !spells_yes_at(text, at),
    {
        if i >= 2 && (before_last == 'y' || before_last == 'Y') && (last == 'e' || last == 'E') && (c
            == 's' || c == 'S') {
            assert(spells_yes_at(text, i - 2));
            return true;
        }
        before_last = last;
        last = c;
        i += 1;
    }
    false
}

} // verus!
