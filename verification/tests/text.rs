use wordle::text::{chars_of, leading, word_list};
use wordle::{ConfigError, Puzzle};

#[test]
fn a_text_gives_one_word_a_line() {
    assert_eq!(word_list("APPLE\nGRAPE\nLEMON\n"), vec!["APPLE", "GRAPE", "LEMON"]);
    assert_eq!(word_list("APPLE\nGRAPE\nLEMON"), vec!["APPLE", "GRAPE", "LEMON"]);
    assert_eq!(word_list("APPLE"), vec!["APPLE"]);
    assert_eq!(word_list("APPLE\n"), vec!["APPLE"]);
}

#[test]
fn empty_lines_are_no_words() {
    assert_eq!(word_list(""), Vec::<String>::new());
    assert_eq!(word_list("\n"), Vec::<String>::new());
    assert_eq!(word_list("\n\n\n"), Vec::<String>::new());
    assert_eq!(word_list("\nAPPLE\n\n\nGRAPE\n\n"), vec!["APPLE", "GRAPE"]);
}

#[test]
fn a_line_is_taken_as_it_is_written() {
    assert_eq!(
        word_list("apple \n GRAPE\nPears and more\n"),
        vec!["apple ", " GRAPE", "Pears and more"]
    );
    assert_eq!(word_list("APPLE\r\nGRAPE\r\n"), vec!["APPLE\r", "GRAPE\r"]);
    assert_eq!(word_list("ÄPFEL\nSTRAßE\n"), vec!["ÄPFEL", "STRAßE"]);
    assert_eq!(word_list("APPLE\nAPPLE\n"), vec!["APPLE", "APPLE"]);
}

#[test]
fn a_word_list_makes_a_puzzle() {
    let puzzle = Puzzle::new(word_list("APPLE\nGRAPE\nLEMON\n"), 5, 5).unwrap();
    assert!(puzzle.has_word("APPLE"));
    assert!(puzzle.has_word("GRAPE"));
    assert!(puzzle.has_word("LEMON"));
    assert!(!puzzle.has_word(""));
    assert_eq!(
        Puzzle::new(word_list("\n\n"), 5, 5).err(),
        Some(ConfigError::EmptyDictionary)
    );
    assert_eq!(
        Puzzle::new(word_list("APPLE\nPEAR\n"), 5, 5).err(),
        Some(ConfigError::WordLength)
    );
}

#[test]
fn the_characters_of_a_text_come_in_order() {
    assert_eq!(chars_of("APPLE"), vec!['A', 'P', 'P', 'L', 'E']);
    assert_eq!(chars_of("Äß"), vec!['Ä', 'ß']);
    assert_eq!(chars_of(""), Vec::<char>::new());
}

#[test]
fn a_text_is_cut_after_whole_characters() {
    assert_eq!(leading("APPLESAUCE", 5), "APPLE");
    assert_eq!(leading("APPLE", 5), "APPLE");
    assert_eq!(leading("APP", 5), "APP");
    assert_eq!(leading("", 5), "");
    assert_eq!(leading("APPLE", 0), "");
    assert_eq!(leading("ÄÖÜäöü", 4), "ÄÖÜä");
}
