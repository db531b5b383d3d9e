//! One game: the puzzle, the guesses accepted so far with their verdicts, the
//! text being typed, the message for the player, and whether the game goes on.
//!
//! A game is in progress until a guess is the hidden word (won) or the allowed
//! number of guesses is used up (lost). In both ends the next press of the
//! button starts a new game on the same dictionary.

use crate::puzzle::{Puzzle, PuzzleView};
use crate::scoring::{check_word, score, CharGuess};
use crate::text::{cut, leading, to_uppercase, uppercase};
use vstd::pervasive::unreached;
use vstd::prelude::*;
use vstd::string::StringExecFns;

verus! {

/// Whether a game goes on, and how it ended.
#[derive(Clone, Copy, Debug, PartialEq, Eq, Structural)]
pub enum Status {
    /// Guesses are accepted.
    InProgress,
    /// The last guess was the hidden word.
    Won,
    /// The allowed number of guesses is used up, none of them the hidden word.
    Lost,
}

/// What the user did.
#[derive(Debug)]
pub enum Message {
    /// The text in the input box is now this.
    InputChanged(String),
    /// The button was pressed.
    ButtonPressed,
}

/// An accepted guess as a mathematical value.
pub struct AttemptView {
    /// The guessed word.
    pub word: Seq<char>,
    /// The verdict on each of its characters.
    pub verdicts: Seq<CharGuess>,
}

/// An accepted guess with its verdicts.
#[derive(Debug)]
pub struct Attempt {
    word: String,
    verdicts: Vec<CharGuess>,
}

impl View for Attempt {
    type V = AttemptView;

    closed spec fn view(&self) -> AttemptView {
        AttemptView { word: self.word@, verdicts: self.verdicts@ }
    }
}

impl Attempt {
    /// The guessed word.
    pub fn word(&self) -> (word: &String)
        ensures
            word@ == self@.word,
    {
        &self.word
    }

    /// The verdict on each character of the word.
    pub fn verdicts(&self) -> (verdicts: &Vec<CharGuess>)
        ensures
            verdicts@ == self@.verdicts,
    {
        &self.verdicts
    }
}

/// The message after a winning guess.
pub open spec fn win_message() -> Seq<char> {
    "You win!"@
}

/// The message after the last guess of a lost game: it gives the hidden word.
pub open spec fn loss_message(solution: Seq<char>) -> Seq<char> {
    "You lose! The word was: "@ + solution
}

/// The message after a guess that is not in the dictionary.
pub open spec fn invalid_message(word: Seq<char>) -> Seq<char> {
    word + " is not a valid word"@
}

/// What the button reads in a given status.
pub open spec fn label_for(status: Status) -> Seq<char> {
    if status is InProgress {
        "Submit"@
    } else {
        "New game"@
    }
}

/// Whether a game may pass from one status to the other in one step: a game in
/// progress may go anywhere, an ended one only to a game in progress.
pub open spec fn may_follow(before: Status, after: Status) -> bool {
    before is InProgress || after is InProgress
}

/// A game as a mathematical value.
pub struct WordleView {
    /// The puzzle.
    pub puzzle: PuzzleView,
    /// The accepted guesses, oldest first.
    pub attempts: Seq<AttemptView>,
    /// The text being typed.
    pub input: Seq<char>,
    /// The message for the player.
    pub notification: Seq<char>,
    /// Whether the game goes on.
    pub status: Status,
}

impl WordleView {
    /// The status that the guesses call for: won where the last one is the
    /// hidden word, else lost where the allowed number is reached, else in
    /// progress.
    pub open spec fn status_due(self) -> Status {
        if self.attempts.len() > 0 && self.attempts.last().word == self.puzzle.solution {
            Status::Won
        } else if self.attempts.len() >= self.puzzle.max_attempts {
            Status::Lost
        } else {
            Status::InProgress
        }
    }

    /// The puzzle is well formed; there are no more guesses than allowed; each
    /// is a word of the dictionary with its score against the hidden word; none
    /// but the last is the hidden word; and the status is the one that the
    /// guesses call for.
    pub open spec fn wf(self) -> bool {
        &&& self.puzzle.wf()
        &&& self.attempts.len() <= self.puzzle.max_attempts
        &&& forall|i: int|
            0 <= i < self.attempts.len() ==> {
                &&& self.puzzle.dictionary.contains((#[trigger] self.attempts[i]).word)
                &&& self.attempts[i].verdicts == score(self.attempts[i].word, self.puzzle.solution)
            }
        &&& forall|i: int|
            0 <= i < self.attempts.len() - 1 ==> (#[trigger] self.attempts[i]).word
                != self.puzzle.solution
        &&& self.status == self.status_due()
    }

    /// A new game on a puzzle.
    pub open spec fn fresh(puzzle: PuzzleView) -> WordleView {
        WordleView {
            puzzle,
            attempts: Seq::empty(),
            input: Seq::empty(),
            notification: Seq::empty(),
            status: Status::InProgress,
        }
    }

    /// The game after `text` was typed: the input holds its first characters,
    /// as many as a word has.
    pub open spec fn after_input(self, text: Seq<char>) -> WordleView {
        WordleView { input: cut(text, self.puzzle.word_length), ..self }
    }

    /// The game after `word` was guessed.
    ///
    /// An ended game stays as it is. A word that is not in the dictionary
    /// changes the message only. Any other word is added to the guesses with its
    /// score, and the input is emptied; the game is then won if the word is the
    /// hidden one, lost if the allowed number of guesses is reached, and goes on
    /// otherwise.
    pub open spec fn after_guess(self, word: Seq<char>) -> WordleView {
        if self.status !is InProgress {
            self
        } else if !self.puzzle.dictionary.contains(word) {
            WordleView { notification: invalid_message(word), ..self }
        } else {
            let attempts = self.attempts.push(
                AttemptView { word, verdicts: score(word, self.puzzle.solution) },
            );
            if word == self.puzzle.solution {
                WordleView {
                    puzzle: self.puzzle,
                    attempts,
                    input: Seq::empty(),
                    notification: win_message(),
                    status: Status::Won,
                }
            } else if attempts.len() >= self.puzzle.max_attempts {
                WordleView {
                    puzzle: self.puzzle,
                    attempts,
                    input: Seq::empty(),
                    notification: loss_message(self.puzzle.solution),
                    status: Status::Lost,
                }
            } else {
                WordleView {
                    puzzle: self.puzzle,
                    attempts,
                    input: Seq::empty(),
                    notification: Seq::empty(),
                    status: Status::InProgress,
                }
            }
        }
    }

    /// `next` is a new game on the dictionary and the numbers of this one; its
    /// hidden word is any word of the dictionary.
    pub open spec fn restarts_as(self, next: WordleView) -> bool {
        &&& next == WordleView::fresh(next.puzzle)
        &&& next.puzzle.wf()
        &&& next.puzzle.dictionary == self.puzzle.dictionary
        &&& next.puzzle.word_length == self.puzzle.word_length
        &&& next.puzzle.max_attempts == self.puzzle.max_attempts
    }

    /// `next` is the game after the button was pressed on `word`: a game in
    /// progress takes it as a guess, an ended one starts anew.
    pub open spec fn submits(self, word: Seq<char>, next: WordleView) -> bool {
        if self.status is InProgress {
            next == self.after_guess(word)
        } else {
            self.restarts_as(next)
        }
    }
}

/// A guess keeps a well-formed game well formed.
pub proof fn law_guess_keeps_wf(game: WordleView, word: Seq<char>)
    requires
        game.wf(),
    ensures
        game.after_guess(word).wf(),
{
    let next = game.after_guess(word);
    if game.status is InProgress && game.puzzle.dictionary.contains(word) {
        assert(next.attempts.last().word == word);
        assert forall|i: int| 0 <= i < next.attempts.len() implies {
            &&& next.puzzle.dictionary.contains((#[trigger] next.attempts[i]).word)
            &&& next.attempts[i].verdicts == score(next.attempts[i].word, next.puzzle.solution)
        } by {
            if i < game.attempts.len() {
                assert(next.attempts[i] == game.attempts[i]);
            }
        }
        assert forall|i: int| 0 <= i < next.attempts.len() - 1 implies (#[trigger] next.attempts[i]).word
            != next.puzzle.solution by {
            assert(next.attempts[i] == game.attempts[i]);
            if i == game.attempts.len() - 1 {
                assert(game.attempts.last() == game.attempts[i]);
            }
        }
    }
}

/// The status moves only from a game in progress to a won or a lost one, and
/// from a won or a lost one to a game in progress, which is then a new game.
///
/// In a well-formed game, a press of the button leaves a well-formed game whose
/// status may follow the old one. A game is won only by guessing the hidden
/// word in a game in progress, and lost only by using up the allowed guesses in
/// one. After an ended game comes a game without guesses.
pub proof fn law_status_steps(before: WordleView, word: Seq<char>, after: WordleView)
    requires
        before.wf(),
        before.submits(word, after),
    ensures
        after.wf(),
        may_follow(before.status, after.status),
        after.status is Won ==> before.status is InProgress && word == before.puzzle.solution,
        after.status is Lost ==> before.status is InProgress && after.attempts.len()
            == before.puzzle.max_attempts,
        before.status !is InProgress ==> after.status is InProgress && after.attempts.len() == 0,
{
    if before.status is InProgress {
        law_guess_keeps_wf(before, word);
    }
}

/// An ended game takes no guess: it stays as it is until it starts anew.
pub proof fn law_ended_game_takes_no_guess(game: WordleView, word: Seq<char>)
    requires
        game.status !is InProgress,
    ensures
        game.after_guess(word) == game,
{
}

/// In a well-formed game, the hidden word as a guess wins the game in
/// progress, and its verdicts are all `Correct`.
pub proof fn law_solution_wins(game: WordleView)
    requires
        game.wf(),
        game.status is InProgress,
    ensures
        game.after_guess(game.puzzle.solution).status is Won,
        game.after_guess(game.puzzle.solution).attempts.last().verdicts == Seq::new(
            game.puzzle.solution.len(),
            |i: int| CharGuess::Correct,
        ),
{
    crate::scoring::law_solution_scores_all_correct(game.puzzle.solution);
}

/// A game.
pub struct Wordle {
    puzzle: Puzzle,
    attempts: Vec<Attempt>,
    input_value: String,
    notification: String,
    status: Status,
}

impl View for Wordle {
    type V = WordleView;

    closed spec fn view(&self) -> WordleView {
        WordleView {
            puzzle: self.puzzle@,
            attempts: self.attempts@.map_values(|attempt: Attempt| attempt@),
            input: self.input_value@,
            notification: self.notification@,
            status: self.status,
        }
    }
}

impl Wordle {
    /// What the game holds of its puzzle agrees with itself.
    pub closed spec fn consistent(&self) -> bool {
        self.puzzle.consistent()
    }

    /// The game is well formed: see `WordleView::wf`.
    pub open spec fn wf(&self) -> bool {
        &&& self.consistent()
        &&& self@.wf()
    }

    /// A new game on `puzzle`.
    pub fn new(puzzle: Puzzle) -> (game: Wordle)
        requires
            puzzle.wf(),
        ensures
            game.wf(),
            game@ == WordleView::fresh(puzzle@),
    {
        let game = Wordle {
            puzzle,
            attempts: Vec::new(),
            input_value: String::new(),
            notification: String::new(),
            status: Status::InProgress,
        };
        assert(game@.attempts =~= Seq::empty());
        game
    }

    /// The puzzle.
    pub fn puzzle(&self) -> (puzzle: &Puzzle)
        ensures
            puzzle@ == self@.puzzle,
            self.wf() ==> puzzle.wf(),
    {
        &self.puzzle
    }

    /// The accepted guesses, oldest first.
    pub fn attempts(&self) -> (attempts: &Vec<Attempt>)
        ensures
            attempts@.map_values(|attempt: Attempt| attempt@) == self@.attempts,
    {
        &self.attempts
    }

    /// The text being typed.
    pub fn input_value(&self) -> (input: &String)
        ensures
            input@ == self@.input,
    {
        &self.input_value
    }

    /// The message for the player.
    pub fn notification(&self) -> (notification: &String)
        ensures
            notification@ == self@.notification,
    {
        &self.notification
    }

    /// Whether the game goes on.
    pub fn status(&self) -> (status: Status)
        ensures
            status == self@.status,
    {
        self.status
    }

    /// What the button reads: it submits a guess while the game goes on, and
    /// starts a new game once it has ended.
    pub fn button_label(&self) -> (label: &'static str)
        ensures
            label@ == label_for(self@.status),
    {
        match self.status {
            Status::InProgress => "Submit",
            _ => "New game",
        }
    }

    /// Takes `text`, already in uppercase, as the text being typed, cut to the
    /// length of a word.
    pub fn set_input(&mut self, text: &str)
        ensures
            final(self)@ == old(self)@.after_input(text@),
            old(self).wf() ==> final(self).wf(),
    {
        self.input_value = leading(text, self.puzzle.word_length());
    }

    /// Takes `raw_text` as the text being typed: in uppercase, cut to the
    /// length of a word.
    pub fn input_changed(&mut self, raw_text: &str)
        ensures
            final(self)@ == old(self)@.after_input(uppercase(raw_text@)),
            old(self).wf() ==> final(self).wf(),
    {
        let upper = to_uppercase(raw_text);
        self.set_input(upper.as_str());
    }

    /// Takes `word`, already in uppercase, as a guess.
    pub fn guess(&mut self, word: &str)
        requires
            old(self).wf(),
        ensures
            final(self).wf(),
            final(self)@ == old(self)@.after_guess(word@),
    {
        proof {
            law_guess_keeps_wf(self@, word@);
        }
        match self.status {
            Status::InProgress => {},
            _ => {
                return ;
            },
        }
        if !self.puzzle.has_word(word) {
            let mut message = word.to_owned();
            message.append(" is not a valid word");
            self.notification = message;
            return ;
        }
        let accepted = word.to_owned();
        let verdicts = match check_word(&accepted, self.puzzle.solution()) {
            Ok(verdicts) => verdicts,
            Err(_) => unreached(),
        };
        let won = accepted == *self.puzzle.solution();
        let ghost before = self.attempts@.map_values(|attempt: Attempt| attempt@);
        let attempt = Attempt { word: accepted, verdicts };
        self.attempts.push(attempt);
        assert(self.attempts@.map_values(|attempt: Attempt| attempt@) =~= before.push(attempt@));
        self.input_value = String::new();
        if won {
            self.status = Status::Won;
            self.notification = "You win!".to_owned();
        } else if self.attempts.len() >= self.puzzle.max_attempts() {
            let mut message = "You lose! The word was: ".to_owned();
            message.append(self.puzzle.solution().as_str());
            self.status = Status::Lost;
            self.notification = message;
        } else {
            self.notification = String::new();
        }
    }

    /// Handles a press of the button on `raw_input`: a game in progress takes
    /// its uppercase form as a guess; an ended game gives way to a new game on
    /// the same dictionary, whose hidden word is drawn afresh.
    pub fn submit(&mut self, raw_input: &str)
        requires
            old(self).wf(),
        ensures
            final(self).wf(),
            old(self)@.submits(uppercase(raw_input@), final(self)@),
            may_follow(old(self)@.status, final(self)@.status),
    {
        match self.status {
            Status::InProgress => {
                let word = to_uppercase(raw_input);
                self.guess(word.as_str());
            },
            _ => {
                let puzzle = self.puzzle.redrawn();
                *self = Wordle::new(puzzle);
            },
        }
    }

    /// Handles what the user did: new text is taken as the text being typed,
    /// and a press of the button submits the text typed so far.
    pub fn update(&mut self, message: Message)
        requires
            old(self).wf(),
        ensures
            final(self).wf(),
            match message {
                Message::InputChanged(value) => final(self)@ == old(self)@.after_input(
                    uppercase(value@),
                ),
                Message::ButtonPressed => {
                    &&& old(self)@.submits(uppercase(old(self)@.input), final(self)@)
                    &&& may_follow(old(self)@.status, final(self)@.status)
                },
            },
    {
        match message {
            Message::InputChanged(value) => {
                self.input_changed(value.as_str());
            },
            Message::ButtonPressed => {
                let typed = self.input_value.clone();
                self.submit(typed.as_str());
            },
        }
    }
}

} // verus!
