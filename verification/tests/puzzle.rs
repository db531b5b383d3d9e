use wordle::{ConfigError, Puzzle};

fn words(list: &[&str]) -> Vec<String> {
    list.iter().map(|word| word.to_string()).collect()
}

#[test]
fn an_empty_dictionary_is_refused() {
    assert_eq!(
        Puzzle::new(Vec::new(), 5, 5).err(),
        Some(ConfigError::EmptyDictionary)
    );
    assert_eq!(
        Puzzle::with_solution(Vec::new(), 5, 5, "APPLE".to_string()).err(),
        Some(ConfigError::EmptyDictionary)
    );
}

#[test]
fn a_word_of_another_length_is_refused() {
    assert_eq!(
        Puzzle::new(words(&["APPLE", "PEAR"]), 5, 5).err(),
        Some(ConfigError::WordLength)
    );
    assert_eq!(
        Puzzle::new(words(&["APPLES", "GRAPE"]), 5, 5).err(),
        Some(ConfigError::WordLength)
    );
    assert_eq!(
        Puzzle::new(words(&["APPLE", ""]), 5, 5).err(),
        Some(ConfigError::WordLength)
    );
    assert_eq!(
        Puzzle::with_solution(words(&["APPLE", "PEAR"]), 5, 5, "APPLE".to_string()).err(),
        Some(ConfigError::WordLength)
    );
}

#[test]
fn a_hidden_word_outside_the_dictionary_is_refused() {
    assert_eq!(
        Puzzle::with_solution(words(&["APPLE", "GRAPE"]), 5, 5, "LEMON".to_string()).err(),
        Some(ConfigError::UnknownSolution)
    );
    assert_eq!(
        Puzzle::with_solution(words(&["APPLE", "GRAPE"]), 5, 5, "apple".to_string()).err(),
        Some(ConfigError::UnknownSolution)
    );
}

#[test]
fn word_length_is_counted_in_characters() {
    let puzzle = Puzzle::new(words(&["ÄPFEL"]), 5, 3).unwrap();
    assert_eq!(puzzle.solution(), "ÄPFEL");
    assert_eq!(
        Puzzle::new(words(&["ÄPFEL"]), 6, 3).err(),
        Some(ConfigError::WordLength)
    );
}

#[test]
fn the_puzzle_keeps_what_it_was_made_with() {
    let puzzle =
        Puzzle::with_solution(words(&["APPLE", "GRAPE", "LEMON"]), 5, 6, "GRAPE".to_string())
            .unwrap();
    assert_eq!(puzzle.solution(), "GRAPE");
    assert_eq!(puzzle.word_length(), 5);
    assert_eq!(puzzle.max_attempts(), 6);
    assert!(puzzle.has_word("APPLE"));
    assert!(puzzle.has_word("GRAPE"));
    assert!(puzzle.has_word("LEMON"));
    assert!(!puzzle.has_word("MELON"));
}

#[test]
fn the_only_word_is_the_hidden_word() {
    let puzzle = Puzzle::new(words(&["APPLE"]), 5, 5).unwrap();
    assert_eq!(puzzle.solution(), "APPLE");
    assert_eq!(puzzle.word_length(), 5);
    assert_eq!(puzzle.max_attempts(), 5);
}

#[test]
fn the_hidden_word_is_drawn_from_the_dictionary() {
    let list = ["APPLE", "GRAPE", "LEMON", "MELON", "PEACH"];
    for _ in 0..200 {
        let puzzle = Puzzle::new(words(&list), 5, 5).unwrap();
        assert!(list.contains(&puzzle.solution().as_str()));
        assert!(puzzle.has_word(puzzle.solution()));
    }
}

#[test]
fn every_word_can_be_drawn() {
    let mut seen_apple = false;
    let mut seen_grape = false;
    for _ in 0..400 {
        let puzzle = Puzzle::new(words(&["APPLE", "GRAPE"]), 5, 5).unwrap();
        seen_apple = seen_apple || puzzle.solution() == "APPLE";
        seen_grape = seen_grape || puzzle.solution() == "GRAPE";
    }
    assert!(seen_apple && seen_grape);
}

#[test]
fn a_repeated_word_counts_once() {
    let puzzle = Puzzle::new(words(&["APPLE", "APPLE"]), 5, 5).unwrap();
    assert_eq!(puzzle.solution(), "APPLE");
    assert!(puzzle.has_word("APPLE"));
}

#[test]
fn validity_is_tested_in_uppercase() {
    let puzzle =
        Puzzle::with_solution(words(&["APPLE", "GRAPE"]), 5, 5, "APPLE".to_string()).unwrap();
    assert!(puzzle.is_valid("APPLE"));
    assert!(puzzle.is_valid("apple"));
    assert!(puzzle.is_valid("gRaPe"));
    assert!(!puzzle.is_valid("LEMON"));
    assert!(!puzzle.is_valid("lemon"));
    assert!(!puzzle.is_valid("APPL"));
    assert!(!puzzle.is_valid(""));
    assert!(!puzzle.has_word("apple"));
}

#[test]
fn a_word_that_is_not_in_uppercase_is_never_valid() {
    let puzzle = Puzzle::new(words(&["apple"]), 5, 5).unwrap();
    assert!(puzzle.has_word("apple"));
    assert!(!puzzle.is_valid("apple"));
    assert!(!puzzle.is_valid("APPLE"));
}

#[test]
fn a_redrawn_puzzle_keeps_the_dictionary() {
    let list = ["APPLE", "GRAPE", "LEMON"];
    let puzzle = Puzzle::with_solution(words(&list), 5, 4, "LEMON".to_string()).unwrap();
    for _ in 0..50 {
        let fresh = puzzle.redrawn();
        assert_eq!(fresh.word_length(), 5);
        assert_eq!(fresh.max_attempts(), 4);
        assert!(list.contains(&fresh.solution().as_str()));
        for word in list {
            assert!(fresh.has_word(word));
        }
        assert!(!fresh.has_word("MELON"));
    }
    assert_eq!(puzzle.solution(), "LEMON");
}
