//! The puzzle of one game: the dictionary of accepted words, the hidden word
//! drawn from it, the length of every word and the number of guesses allowed.

use crate::text::{to_uppercase, uppercase};
use rand::seq::SliceRandom;
use vstd::hash_set::StringHashSet;
use vstd::pervasive::unreached;
use vstd::prelude::*;
use vstd::string::StrSliceExecFns;

verus! {

/// Why a puzzle could not be made.
#[derive(Clone, Copy, Debug, PartialEq, Eq, Structural)]
pub enum ConfigError {
    /// The dictionary holds no word.
    EmptyDictionary,
    /// The dictionary holds a word whose length is not the word length.
    WordLength,
    /// The word asked for as the hidden word is not in the dictionary.
    UnknownSolution,
}

/// The words of a list, each as its characters, as a set.
pub open spec fn word_set(words: Seq<String>) -> Set<Seq<char>> {
    Set::new(|word: Seq<char>| exists|i: int| 0 <= i < words.len() && (#[trigger] words[i])@ == word)
}

/// Every word of the list has `word_length` characters.
pub open spec fn all_of_length(words: Seq<String>, word_length: nat) -> bool {
    forall|i: int| 0 <= i < words.len() ==> (#[trigger] words[i])@.len() == word_length
}

/// What is wrong with a dictionary, if anything.
pub open spec fn dictionary_fault(words: Seq<String>, word_length: nat) -> Option<ConfigError> {
    if words.len() == 0 {
        Some(ConfigError::EmptyDictionary)
    } else if !all_of_length(words, word_length) {
        Some(ConfigError::WordLength)
    } else {
        None
    }
}

/// A puzzle as a mathematical value.
pub struct PuzzleView {
    /// The hidden word.
    pub solution: Seq<char>,
    /// The number of characters of every word.
    pub word_length: nat,
    /// The number of guesses allowed.
    pub max_attempts: nat,
    /// The accepted words.
    pub dictionary: Set<Seq<char>>,
}

impl PuzzleView {
    /// Both numbers are positive, every word of the dictionary has the word
    /// length, and the hidden word is one of them.
    pub open spec fn wf(self) -> bool {
        &&& self.word_length > 0
        &&& self.max_attempts > 0
        &&& self.dictionary.contains(self.solution)
        &&& forall|word: Seq<char>| #[trigger]
            self.dictionary.contains(word) ==> word.len() == self.word_length
    }
}

/// A dictionary with a hidden word drawn from it.
pub struct Puzzle {
    solution: String,
    word_length: usize,
    max_attempts: usize,
    words: Vec<String>,
    index: StringHashSet,
}

impl View for Puzzle {
    type V = PuzzleView;

    closed spec fn view(&self) -> PuzzleView {
        PuzzleView {
            solution: self.solution@,
            word_length: self.word_length as nat,
            max_attempts: self.max_attempts as nat,
            dictionary: self.index@,
        }
    }
}

/// Calls `SliceRandom::choose` of the crate `rand` on the words, with the
/// generator of `rand::thread_rng`. It returns `None` for an empty list and
/// otherwise a reference to the element at an index below the length that the
/// generator drew. Which element comes is not stated: two calls may differ.
/// `thread_rng` panics where the system cannot seed the generator.
#[verifier::external_body]
fn choose_word(words: &Vec<String>) -> (chosen: Option<&String>)
    ensures
        match chosen {
            Some(word) => exists|i: int| 0 <= i < words@.len() && (#[trigger] words@[i])@ == word@,
            None => words@.len() == 0,
        },
{
    words.choose(&mut rand::thread_rng())
}

/// Two lists that hold the same words at the same places give the same set.
proof fn lemma_word_set_of_copy(words: Seq<String>, copy: Seq<String>)
    requires
        copy.len() == words.len(),
        forall|i: int| 0 <= i < words.len() ==> (#[trigger] copy[i])@ == words[i]@,
    ensures
        word_set(copy) == word_set(words),
{
    assert forall|word: Seq<char>| word_set(copy).contains(word) == word_set(words).contains(
        word,
    ) by {
        if word_set(copy).contains(word) {
            let j = choose|j: int| 0 <= j < copy.len() && (#[trigger] copy[j])@ == word;
            assert(words[j]@ == word);
        }
        if word_set(words).contains(word) {
            let j = choose|j: int| 0 <= j < words.len() && (#[trigger] words[j])@ == word;
            assert(copy[j]@ == word);
        }
    }
    assert(word_set(copy) =~= word_set(words));
}

impl Puzzle {
    /// The list and the set of words agree, and the list is not empty.
    pub closed spec fn consistent(&self) -> bool {
        &&& self.words@.len() > 0
        &&& self.index@ == word_set(self.words@)
    }

    /// The puzzle is well formed: see `PuzzleView::wf`.
    pub open spec fn wf(&self) -> bool {
        &&& self.consistent()
        &&& self@.wf()
    }

    /// Makes the puzzle on `dictionary` whose hidden word is `solution`.
    ///
    /// An empty dictionary is refused, then one with a word whose length is not
    /// `word_length`, then a `solution` that is not in the dictionary.
    pub fn with_solution(
        dictionary: Vec<String>,
        word_length: usize,
        max_attempts: usize,
        solution: String,
    ) -> (result: Result<Puzzle, ConfigError>)
        requires
            word_length > 0,
            max_attempts > 0,
        ensures
            match result {
                Ok(puzzle) => {
                    &&& dictionary_fault(dictionary@, word_length as nat) is None
                    &&& word_set(dictionary@).contains(solution@)
                    &&& puzzle.wf()
                    &&& puzzle@ == (PuzzleView {
                        solution: solution@,
                        word_length: word_length as nat,
                        max_attempts: max_attempts as nat,
                        dictionary: word_set(dictionary@),
                    })
                },
                Err(ConfigError::UnknownSolution) => {
                    &&& dictionary_fault(dictionary@, word_length as nat) is None
                    &&& !word_set(dictionary@).contains(solution@)
                },
                Err(fault) => dictionary_fault(dictionary@, word_length as nat) == Some(fault),
            },
    {
        if dictionary.len() == 0 {
            return Err(ConfigError::EmptyDictionary);
        }
        let mut index = StringHashSet::new();
        let mut i: usize = 0;
        while i < dictionary.len()
            invariant
                i <= dictionary.len(),
                index@ == word_set(dictionary@.take(i as int)),
                all_of_length(dictionary@.take(i as int), word_length as nat),
            decreases dictionary.len() - i,
        {
            let word = &dictionary[i];
            if word.as_str().unicode_len() != word_length {
                assert(dictionary@[i as int]@.len() != word_length);
                return Err(ConfigError::WordLength);
            }
            let ghost before = index@;
            index.insert(word.clone());
            proof {
                let shorter = dictionary@.take(i as int);
                let longer = dictionary@.take(i + 1);
                assert(longer[i as int] == dictionary@[i as int]);
                assert forall|spelling: Seq<char>|
                    before.insert(word@).contains(spelling) == word_set(longer).contains(
                        spelling,
                    ) by {
                    if word_set(shorter).contains(spelling) {
                        let j = choose|j: int|
                            0 <= j < shorter.len() && (#[trigger] shorter[j])@ == spelling;
                        assert(longer[j]@ == spelling);
                    }
                    if word_set(longer).contains(spelling) {
                        let j = choose|j: int|
                            0 <= j < longer.len() && (#[trigger] longer[j])@ == spelling;
                        if j < i {
                            assert(shorter[j]@ == spelling);
                        }
                    }
                }
                assert(index@ =~= word_set(longer));
                assert forall|j: int| 0 <= j < longer.len() implies (#[trigger] longer[j])@.len()
                    == word_length by {
                    if j < i {
                        assert(shorter[j] == longer[j]);
                    }
                }
            }
            i += 1;
        }
        assert(dictionary@.take(i as int) =~= dictionary@);
        if !index.contains(solution.as_str()) {
            return Err(ConfigError::UnknownSolution);
        }
        proof {
            assert forall|word: Seq<char>| #[trigger] index@.contains(word) implies word.len()
                == word_length by {
                let j = choose|j: int|
                    0 <= j < dictionary@.len() && (#[trigger] dictionary@[j])@ == word;
            }
        }
        Ok(Puzzle { solution, word_length, max_attempts, words: dictionary, index })
    }

    /// Makes a puzzle on `dictionary`, with a hidden word drawn from it at
    /// random.
    ///
    /// An empty dictionary is refused, and one with a word whose length is not
    /// `word_length`. Every other dictionary gives a puzzle; which of its words
    /// is the hidden one is left to the draw.
    pub fn new(dictionary: Vec<String>, word_length: usize, max_attempts: usize) -> (result: Result<
        Puzzle,
        ConfigError,
    >)
        requires
            word_length > 0,
            max_attempts > 0,
        ensures
            match result {
                Ok(puzzle) => {
                    &&& dictionary_fault(dictionary@, word_length as nat) is None
                    &&& puzzle.wf()
                    &&& puzzle@.dictionary == word_set(dictionary@)
                    &&& puzzle@.word_length == word_length
                    &&& puzzle@.max_attempts == max_attempts
                },
                Err(fault) => dictionary_fault(dictionary@, word_length as nat) == Some(fault),
            },
    {
        let solution = match choose_word(&dictionary) {
            Some(word) => word.clone(),
            None => {
                return Err(ConfigError::EmptyDictionary);
            },
        };
        Puzzle::with_solution(dictionary, word_length, max_attempts, solution)
    }

    /// A new puzzle with the dictionary and the numbers of this one, and a
    /// hidden word drawn afresh.
    pub fn redrawn(&self) -> (fresh: Puzzle)
        requires
            self.wf(),
        ensures
            fresh.wf(),
            fresh@.dictionary == self@.dictionary,
            fresh@.word_length == self@.word_length,
            fresh@.max_attempts == self@.max_attempts,
    {
        let words = self.words.clone();
        proof {
            assert forall|i: int| 0 <= i < words@.len() implies (#[trigger] words@[i])@
                == self.words@[i]@ by {
                assert(cloned::<String>(self.words@[i], words@[i]));
            }
            lemma_word_set_of_copy(self.words@, words@);
            assert forall|i: int| 0 <= i < words@.len() implies (#[trigger] words@[i])@.len()
                == self.word_length by {
                assert(word_set(words@).contains(words@[i]@));
            }
        }
        match Puzzle::new(words, self.word_length, self.max_attempts) {
            Ok(fresh) => fresh,
            Err(_) => unreached(),
        }
    }

    /// The hidden word.
    pub fn solution(&self) -> (solution: &String)
        ensures
            solution@ == self@.solution,
    {
        &self.solution
    }

    /// The number of characters of every word.
    pub fn word_length(&self) -> (word_length: usize)
        ensures
            word_length == self@.word_length,
    {
        self.word_length
    }

    /// The number of guesses allowed.
    pub fn max_attempts(&self) -> (max_attempts: usize)
        ensures
            max_attempts == self@.max_attempts,
    {
        self.max_attempts
    }

    /// Whether the dictionary holds `word`, exactly as it is written.
    pub fn has_word(&self, word: &str) -> (found: bool)
        ensures
            found == self@.dictionary.contains(word@),
    {
        self.index.contains(word)
    }

    /// Whether the dictionary holds the uppercase form of `word`.
    pub fn is_valid(&self, word: &str) -> (valid: bool)
        ensures
            valid == self@.dictionary.contains(uppercase(word@)),
    {
        let upper = to_uppercase(word);
        self.has_word(upper.as_str())
    }
}

} // verus!
