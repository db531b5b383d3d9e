//! Scoring a guess against the hidden word.
//!
//! A character of the guess is `Correct` where the hidden word has the same
//! character at the same place. Every other character draws on what the hidden
//! word has left of that letter once the exact matches are taken out: from left
//! to right, each draw that finds something left is `CorrectWrongPlace`, the
//! others are `Wrong`.

use crate::text::chars_of;
use std::collections::HashMap;
use vstd::prelude::*;

verus! {

broadcast use vstd::std_specs::hash::group_hash_axioms;

/// The verdict on one character of a guess.
#[derive(Clone, Copy, Debug, PartialEq, Eq, Structural)]
pub enum CharGuess {
    /// The hidden word has this character at this place.
    Correct,
    /// The hidden word has this character at another place, and that occurrence
    /// is not claimed by an exact match or by an earlier character of the guess.
    CorrectWrongPlace,
    /// The hidden word does not have this character, or all its occurrences are
    /// claimed already.
    Wrong,
}

/// A guess and a hidden word of different lengths were handed to the scoring.
#[derive(Clone, Copy, Debug, PartialEq, Eq, Structural)]
pub struct LengthMismatch {
    /// Number of characters of the guess.
    pub guess: usize,
    /// Number of characters of the hidden word.
    pub solution: usize,
}

/// How many of the first `upto` characters of `word` are `letter`.
pub open spec fn occurrences(word: Seq<char>, letter: char, upto: int) -> nat
    decreases upto,
{
    if upto <= 0 {
        0
    } else {
        occurrences(word, letter, upto - 1) + if word[upto - 1] == letter {
            1nat
        } else {
            0nat
        }
    }
}

/// How many of the first `upto` places hold `letter` in both words.
pub open spec fn exact_hits(guess: Seq<char>, solution: Seq<char>, letter: char, upto: int) -> nat
    decreases upto,
{
    if upto <= 0 {
        0
    } else {
        exact_hits(guess, solution, letter, upto - 1) + if guess[upto - 1] == letter
            && solution[upto - 1] == letter {
            1nat
        } else {
            0nat
        }
    }
}

/// How many of the first `upto` places hold `letter` in the guess and another
/// character in the hidden word.
pub open spec fn misplaced(guess: Seq<char>, solution: Seq<char>, letter: char, upto: int) -> nat
    decreases upto,
{
    if upto <= 0 {
        0
    } else {
        misplaced(guess, solution, letter, upto - 1) + if guess[upto - 1] == letter
            && solution[upto - 1] != letter {
            1nat
        } else {
            0nat
        }
    }
}

/// What the hidden word has left of `letter` once the exact matches are taken
/// out.
pub open spec fn budget(guess: Seq<char>, solution: Seq<char>, letter: char) -> int {
    occurrences(solution, letter, solution.len() as int) - exact_hits(
        guess,
        solution,
        letter,
        guess.len() as int,
    )
}

/// How much of the budget of `letter` the first `upto` places of the guess have
/// used up.
pub open spec fn spent(guess: Seq<char>, solution: Seq<char>, letter: char, upto: int) -> int {
    let asked = misplaced(guess, solution, letter, upto) as int;
    let left = budget(guess, solution, letter);
    if asked <= left {
        asked
    } else {
        left
    }
}

/// The verdict on the character at place `i` of the guess.
pub open spec fn verdict_at(guess: Seq<char>, solution: Seq<char>, i: int) -> CharGuess {
    if guess[i] == solution[i] {
        CharGuess::Correct
    } else if misplaced(guess, solution, guess[i], i) < budget(guess, solution, guess[i]) {
        CharGuess::CorrectWrongPlace
    } else {
        CharGuess::Wrong
    }
}

/// The verdicts on a guess, one for each of its characters.
pub open spec fn score(guess: Seq<char>, solution: Seq<char>) -> Seq<CharGuess> {
    Seq::new(guess.len(), |i: int| verdict_at(guess, solution, i))
}

/// What scoring returns: the verdicts where the two words have the same length,
/// and the two lengths where they do not.
pub open spec fn scored(guess: Seq<char>, solution: Seq<char>) -> Result<
    Seq<CharGuess>,
    LengthMismatch,
> {
    if guess.len() == solution.len() {
        Ok(score(guess, solution))
    } else {
        Err(LengthMismatch { guess: guess.len() as usize, solution: solution.len() as usize })
    }
}

/// How many of the first `upto` places of the guess hold `letter` and got a
/// verdict other than `Wrong`.
pub open spec fn credited(guess: Seq<char>, solution: Seq<char>, letter: char, upto: int) -> nat
    decreases upto,
{
    if upto <= 0 {
        0
    } else {
        credited(guess, solution, letter, upto - 1) + if guess[upto - 1] == letter && verdict_at(
            guess,
            solution,
            upto - 1,
        ) != CharGuess::Wrong {
            1nat
        } else {
            0nat
        }
    }
}

/// A count of occurrences grows with the number of places counted, and is never
/// more than that number.
proof fn lemma_occurrences_grow(word: Seq<char>, letter: char, upto: int, end: int)
    requires
        0 <= upto <= end,
    ensures
        occurrences(word, letter, upto) <= upto,
        occurrences(word, letter, upto) <= occurrences(word, letter, end),
    decreases end,
{
    if upto < end {
        lemma_occurrences_grow(word, letter, upto, end - 1);
    } else if upto > 0 {
        lemma_occurrences_grow(word, letter, upto - 1, upto - 1);
    }
}

/// The first `upto` places hold no more exact matches on `letter` than the
/// hidden word has occurrences of it there.
proof fn lemma_hits_within_occurrences(
    guess: Seq<char>,
    solution: Seq<char>,
    letter: char,
    upto: int,
)
    ensures
        exact_hits(guess, solution, letter, upto) <= occurrences(solution, letter, upto),
    decreases upto,
{
    if upto > 0 {
        lemma_hits_within_occurrences(guess, solution, letter, upto - 1);
    }
}

/// The budget of a letter is never negative.
pub proof fn lemma_budget_nonnegative(guess: Seq<char>, solution: Seq<char>, letter: char)
    requires
        guess.len() == solution.len(),
    ensures
        budget(guess, solution, letter) >= 0,
{
    lemma_hits_within_occurrences(guess, solution, letter, guess.len() as int);
}

/// Among the first `upto` places, the credited characters `letter` are the
/// exact matches on it and what has been spent of its budget.
proof fn lemma_credited_split(guess: Seq<char>, solution: Seq<char>, letter: char, upto: int)
    requires
        guess.len() == solution.len(),
        upto <= guess.len(),
    ensures
        credited(guess, solution, letter, upto) == exact_hits(guess, solution, letter, upto)
            + spent(guess, solution, letter, upto),
    decreases upto,
{
    lemma_budget_nonnegative(guess, solution, letter);
    if upto > 0 {
        lemma_credited_split(guess, solution, letter, upto - 1);
    }
}

/// Where a guess is scored, it gets one verdict for each of its characters,
/// which is as many as the hidden word has.
pub proof fn law_one_verdict_per_character(guess: Seq<char>, solution: Seq<char>)
    ensures
        score(guess, solution).len() == guess.len(),
        scored(guess, solution) matches Ok(verdicts) ==> verdicts.len() == guess.len()
            && verdicts.len() == solution.len(),
{
}

/// For every letter, the characters of the guess that hold it and are not
/// `Wrong` are no more than the occurrences of that letter in the hidden word.
pub proof fn law_count_conservation(guess: Seq<char>, solution: Seq<char>, letter: char)
    requires
        guess.len() == solution.len(),
    ensures
        credited(guess, solution, letter, guess.len() as int) <= occurrences(
            solution,
            letter,
            solution.len() as int,
        ),
{
    lemma_credited_split(guess, solution, letter, guess.len() as int);
}

/// A place where the guess and the hidden word have the same character is
/// `Correct`, whatever stands at the other places; and no other place is.
pub proof fn law_exact_match_priority(guess: Seq<char>, solution: Seq<char>, i: int)
    requires
        guess.len() == solution.len(),
        0 <= i < guess.len(),
    ensures
        guess[i] == solution[i] <==> score(guess, solution)[i] == CharGuess::Correct,
{
}

/// Scoring is a function of the two words: two results for the same guess and
/// the same hidden word are the same result.
pub proof fn law_scoring_is_deterministic(
    guess: Seq<char>,
    solution: Seq<char>,
    first: Result<Seq<CharGuess>, LengthMismatch>,
    second: Result<Seq<CharGuess>, LengthMismatch>,
)
    requires
        first == scored(guess, solution),
        second == scored(guess, solution),
    ensures
        first == second,
{
}

/// A guess that is the hidden word is `Correct` at every place.
pub proof fn law_solution_scores_all_correct(solution: Seq<char>)
    ensures
        score(solution, solution) == Seq::new(solution.len(), |i: int| CharGuess::Correct),
{
    assert(score(solution, solution) =~= Seq::new(solution.len(), |i: int| CharGuess::Correct));
}

/// What a table of counts holds for `letter`; a letter without an entry counts
/// as zero.
spec fn remaining(counts: Map<u32, usize>, letter: char) -> nat {
    if counts.contains_key(letter as u32) {
        counts[letter as u32] as nat
    } else {
        0
    }
}

/// Counts the occurrences of each letter of `word`, in a table keyed by the
/// letters' code points.
fn tally(word: &Vec<char>) -> (counts: HashMap<u32, usize>)
    ensures
        forall|letter: char| #[trigger]
            remaining(counts@, letter) == occurrences(word@, letter, word@.len() as int),
{
    let mut counts: HashMap<u32, usize> = HashMap::new();
    let mut k: usize = 0;
    while k < word.len()
        invariant
            k <= word.len(),
            forall|letter: char| #[trigger]
                remaining(counts@, letter) == occurrences(word@, letter, k as int),
        decreases word.len() - k,
    {
        let letter = word[k];
        let key = letter as u32;
        let seen: usize = match counts.get(&key) {
            Some(count) => *count,
            None => 0,
        };
        proof {
            assert(seen == remaining(counts@, letter));
            lemma_occurrences_grow(word@, letter, k as int, k as int);
        }
        let ghost before = counts@;
        counts.insert(key, seen + 1);
        assert forall|other: char| #[trigger]
            remaining(counts@, other) == occurrences(word@, other, k + 1) by {
            assert(remaining(before, other) == occurrences(word@, other, k as int));
            if other as u32 == key {
                vstd::utf8::char_u32_cast(other, key);
                vstd::utf8::char_u32_cast(letter, key);
            }
        }
        k += 1;
    }
    counts
}

/// Takes one `letter` out of the table where it has one left, and says whether
/// it did.
fn take_one(counts: &mut HashMap<u32, usize>, letter: char) -> (taken: bool)
    ensures
        taken == (remaining(old(counts)@, letter) > 0),
        forall|other: char| #[trigger]
            remaining(final(counts)@, other) == remaining(old(counts)@, other) - if taken && other
                == letter {
                1int
            } else {
                0int
            },
{
    let key = letter as u32;
    let left: usize = match counts.get(&key) {
        Some(count) => *count,
        None => 0,
    };
    assert(left == remaining(counts@, letter));
    if left > 0 {
        let ghost before = counts@;
        counts.insert(key, left - 1);
        assert forall|other: char| #[trigger]
            remaining(counts@, other) == remaining(before, other) - if other == letter {
                1int
            } else {
                0int
            } by {
            if other as u32 == key {
                vstd::utf8::char_u32_cast(other, key);
                vstd::utf8::char_u32_cast(letter, key);
            }
        }
        true
    } else {
        false
    }
}

/// Scores a guess against a hidden word of the same length, both given as
/// characters.
fn score_chars(guess: &Vec<char>, solution: &Vec<char>) -> (verdicts: Vec<CharGuess>)
    requires
        guess@.len() == solution@.len(),
    ensures
        verdicts@ == score(guess@, solution@),
{
    let n = guess.len();
    let mut counts = tally(solution);
    let mut verdicts: Vec<CharGuess> = Vec::new();
    // The exact matches come first: each takes its letter out of the table.
    let mut i: usize = 0;
    while i < n
        invariant
            i <= n,
            n == guess@.len(),
            n == solution@.len(),
            verdicts@.len() == i,
            forall|j: int|
                0 <= j < i ==> #[trigger] verdicts@[j] == if guess@[j] == solution@[j] {
                    CharGuess::Correct
                } else {
                    CharGuess::Wrong
                },
            forall|letter: char| #[trigger]
                remaining(counts@, letter) == occurrences(solution@, letter, n as int)
                    - exact_hits(guess@, solution@, letter, i as int),
        decreases n - i,
    {
        if guess[i] == solution[i] {
            proof {
                lemma_hits_within_occurrences(guess@, solution@, guess@[i as int], i + 1);
                lemma_occurrences_grow(solution@, guess@[i as int], i + 1, n as int);
            }
            take_one(&mut counts, guess[i]);
            verdicts.push(CharGuess::Correct);
        } else {
            verdicts.push(CharGuess::Wrong);
        }
        i += 1;
    }
    // Then, from left to right, the other places draw on what is left.
    let mut i: usize = 0;
    while i < n
        invariant
            i <= n,
            n == guess@.len(),
            n == solution@.len(),
            verdicts@.len() == n,
            forall|j: int| 0 <= j < i ==> #[trigger] verdicts@[j] == verdict_at(guess@, solution@, j),
            forall|j: int|
                i <= j < n ==> #[trigger] verdicts@[j] == if guess@[j] == solution@[j] {
                    CharGuess::Correct
                } else {
                    CharGuess::Wrong
                },
            forall|letter: char| #[trigger]
                remaining(counts@, letter) == budget(guess@, solution@, letter) - spent(
                    guess@,
                    solution@,
                    letter,
                    i as int,
                ),
        decreases n - i,
    {
        let ghost before = counts@;
        if guess[i] != solution[i] {
            let taken = take_one(&mut counts, guess[i]);
            if taken {
                verdicts.set(i, CharGuess::CorrectWrongPlace);
            }
        }
        proof {
            assert forall|letter: char| #[trigger]
                remaining(counts@, letter) == budget(guess@, solution@, letter) - spent(
                    guess@,
                    solution@,
                    letter,
                    i + 1,
                ) by {
                assert(remaining(before, letter) == budget(guess@, solution@, letter) - spent(
                    guess@,
                    solution@,
                    letter,
                    i as int,
                ));
                lemma_budget_nonnegative(guess@, solution@, letter);
            }
        }
        i += 1;
    }
    assert(verdicts@ =~= score(guess@, solution@));
    verdicts
}

/// Scores `word` against `solution`.
///
/// Words of different lengths are refused with both lengths. Otherwise the
/// result holds one verdict for each character of `word`, as `score` defines
/// them. The result depends on the two words alone: it is `scored` of them.
pub fn check_word(word: &String, solution: &String) -> (result: Result<
    Vec<CharGuess>,
    LengthMismatch,
>)
    ensures
        match result {
            Ok(verdicts) => {
                &&& scored(word@, solution@) == Ok::<Seq<CharGuess>, LengthMismatch>(verdicts@)
                &&& word@.len() == solution@.len()
                &&& verdicts@.len() == word@.len()
                &&& verdicts@ == score(word@, solution@)
            },
            Err(mismatch) => {
                &&& scored(word@, solution@) == Err::<Seq<CharGuess>, LengthMismatch>(mismatch)
                &&& word@.len() != solution@.len()
                &&& mismatch.guess == word@.len()
                &&& mismatch.solution == solution@.len()
            },
        },
{
    let guess_chars = chars_of(word.as_str());
    let solution_chars = chars_of(solution.as_str());
    if guess_chars.len() != solution_chars.len() {
        return Err(LengthMismatch { guess: guess_chars.len(), solution: solution_chars.len() });
    }
    Ok(score_chars(&guess_chars, &solution_chars))
}

} // verus!
