//! One guess in a game of hangman.
//!
//! The word so far holds a `-` at each place that is still hidden and
//! the letter of the secret word at each place that was guessed.

use vstd::prelude::*;

verus! {

/// The first place at or after `from` that is still hidden and where the
/// secret word holds `letter`.
pub open spec fn first_hidden(word: Seq<char>, secret: Seq<char>, letter: char, from: int) -> Option<
    int,
>
    decreases word.len() - from,
{
    if from < 0 || from >= word.len() {
        None
    } else if word[from] == '-' && secret[from] == letter {
        Some(from)
    } else {
        first_hidden(word, secret, letter, from + 1)
    }
}

/// Takes the first letter of `guess` as the guess. The letter is noted
/// among the guessed letters, and the first hidden place where the
/// secret word holds it is uncovered. Returns 0 where a place was
/// uncovered and 1 where there was none.
pub fn checkandmodify(
    nowword: &mut Vec<char>,
    guessed_letters: &mut Vec<char>,
    secret_word: &Vec<char>,
    guess: &String,
) -> (missed: i32)
    requires
        guess@.len() > 0,
        old(nowword)@.len() <= secret_word@.len(),
    ensures
        final(guessed_letters)@ == old(guessed_letters)@.push(guess@[0]),
        match first_hidden(old(nowword)@, secret_word@, guess@[0], 0) {
            Some(place) => missed == 0 && final(nowword)@ == old(nowword)@.update(
                place,
                guess@[0],
            ),
            None => missed == 1 && final(nowword)@ == old(nowword)@,
        },
{
    let ch = guess.as_str().get_char(0);
    guessed_letters.push(ch);
    let mut i: usize = 0;
    while i < nowword.len()
        invariant
            i <= nowword@.len(),
            nowword@ == old(nowword)@,
            nowword@.len() <= secret_word@.len(),
            guess@.len() > 0,
            ch == guess@[0],
            guessed_letters@ == old(guessed_letters)@.push(guess@[0]),
            first_hidden(nowword@, secret_word@, ch, 0) == first_hidden(
                nowword@,
                secret_word@,
                ch,
                i as int,
            ),
        decreases nowword@.len() - i,
    {
        if nowword[i] == '-' && secret_word[i] == ch {
            nowword[i] = ch;
            return 0;
        } else {
            i += 1;
        }
    }
    1
}

} // verus!
