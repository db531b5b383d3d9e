use wordle::CharGuess::{Correct, CorrectWrongPlace, Wrong};
use wordle::{check_word, CharGuess, LengthMismatch};

fn score(guess: &str, solution: &str) -> Result<Vec<CharGuess>, LengthMismatch> {
    check_word(&guess.to_string(), &solution.to_string())
}

fn count(word: &str, letter: char) -> usize {
    word.chars().filter(|c| *c == letter).count()
}

#[test]
fn the_solution_scores_all_correct() {
    assert_eq!(
        score("APPLE", "APPLE"),
        Ok(vec![Correct, Correct, Correct, Correct, Correct])
    );
}

#[test]
fn an_exact_match_is_not_lost_to_an_earlier_duplicate() {
    let verdicts = score("LAPLE", "APPLE").unwrap();
    assert_eq!(verdicts[3], Correct);
    assert_eq!(
        verdicts,
        vec![Wrong, CorrectWrongPlace, Correct, Correct, Correct]
    );
}

#[test]
fn a_letter_at_another_place_is_found() {
    assert_eq!(
        score("PLEAS", "APPLE"),
        Ok(vec![
            CorrectWrongPlace,
            CorrectWrongPlace,
            CorrectWrongPlace,
            CorrectWrongPlace,
            Wrong
        ])
    );
}

#[test]
fn no_common_letter_is_all_wrong() {
    assert_eq!(
        score("QUICK", "APPLE"),
        Ok(vec![Wrong, Wrong, Wrong, Wrong, Wrong])
    );
}

#[test]
fn letters_beyond_the_count_of_the_solution_are_wrong() {
    assert_eq!(
        score("ALLOY", "APPLE"),
        Ok(vec![Correct, CorrectWrongPlace, Wrong, Wrong, Wrong])
    );
    assert_eq!(
        score("EERIE", "APPLE"),
        Ok(vec![Wrong, Wrong, Wrong, Wrong, Correct])
    );
    assert_eq!(
        score("LLLLL", "APPLE"),
        Ok(vec![Wrong, Wrong, Wrong, Correct, Wrong])
    );
    assert_eq!(
        score("PAPAL", "APPLE"),
        Ok(vec![
            CorrectWrongPlace,
            CorrectWrongPlace,
            Correct,
            Wrong,
            CorrectWrongPlace
        ])
    );
}

#[test]
fn earlier_places_are_served_first() {
    assert_eq!(
        score("EEXXX", "ABCDE"),
        Ok(vec![CorrectWrongPlace, Wrong, Wrong, Wrong, Wrong])
    );
}

#[test]
fn words_of_different_lengths_are_refused() {
    assert_eq!(
        score("APP", "APPLE"),
        Err(LengthMismatch {
            guess: 3,
            solution: 5
        })
    );
    assert_eq!(
        score("APPLES", "APPLE"),
        Err(LengthMismatch {
            guess: 6,
            solution: 5
        })
    );
    assert_eq!(
        score("", "A"),
        Err(LengthMismatch {
            guess: 0,
            solution: 1
        })
    );
}

#[test]
fn empty_words_have_no_verdict() {
    assert_eq!(score("", ""), Ok(vec![]));
}

#[test]
fn length_is_counted_in_characters() {
    assert_eq!(
        score("ÄB", "BÄ"),
        Ok(vec![CorrectWrongPlace, CorrectWrongPlace])
    );
    assert_eq!(
        score("ÄÖ", "AB"),
        Ok(vec![Wrong, Wrong])
    );
    assert_eq!(
        score("Ä", "AB"),
        Err(LengthMismatch {
            guess: 1,
            solution: 2
        })
    );
}

const WORDS: [&str; 12] = [
    "APPLE", "LAPLE", "PLEAS", "ALLOY", "EERIE", "LLLLL", "PAPAL", "QUICK", "PPPPP", "ELPPA",
    "AAAAA", "PEPPA",
];

#[test]
fn one_verdict_for_each_character() {
    for guess in WORDS {
        for solution in WORDS {
            assert_eq!(score(guess, solution).unwrap().len(), 5);
        }
    }
    assert_eq!(score("AB", "BA").unwrap().len(), 2);
    assert_eq!(score("ABCDEFGH", "HGFEDCBA").unwrap().len(), 8);
}

#[test]
fn credited_letters_stay_within_the_solution() {
    for guess in WORDS {
        for solution in WORDS {
            let verdicts = score(guess, solution).unwrap();
            for letter in guess.chars() {
                let credited = guess
                    .chars()
                    .zip(verdicts.iter())
                    .filter(|(c, verdict)| *c == letter && **verdict != Wrong)
                    .count();
                assert!(credited <= count(solution, letter));
            }
        }
    }
}

#[test]
fn exact_matches_are_correct_and_nothing_else_is() {
    for guess in WORDS {
        for solution in WORDS {
            let verdicts = score(guess, solution).unwrap();
            for (i, (g, s)) in guess.chars().zip(solution.chars()).enumerate() {
                assert_eq!(verdicts[i] == Correct, g == s);
            }
        }
    }
}

#[test]
fn scoring_twice_gives_the_same_result() {
    for guess in WORDS {
        for solution in WORDS {
            assert_eq!(score(guess, solution), score(guess, solution));
        }
    }
    assert_eq!(score("APP", "APPLE"), score("APP", "APPLE"));
}

#[test]
fn every_letter_of_the_budget_is_given_out() {
    for guess in WORDS {
        for solution in WORDS {
            let verdicts = score(guess, solution).unwrap();
            for letter in guess.chars() {
                let credited = guess
                    .chars()
                    .zip(verdicts.iter())
                    .filter(|(c, verdict)| *c == letter && **verdict != Wrong)
                    .count();
                let wanted = count(guess, letter).min(count(solution, letter));
                assert_eq!(credited, wanted);
            }
        }
    }
}
