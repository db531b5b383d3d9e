//! Strings seen as sequences of characters: their characters, their uppercase
//! form, their first characters, their lines.

use vstd::prelude::*;
use vstd::string::StrSliceExecFns;

verus! {

/// The uppercase form of a text: what `str::to_uppercase` of the standard
/// library returns for it. It follows the Unicode case mapping, so it may hold
/// more characters than the text.
pub uninterp spec fn uppercase(text: Seq<char>) -> Seq<char>;

/// Calls `str::to_uppercase` of the standard library, which returns the
/// uppercase form of `text` as a new string. That the result depends on the
/// characters of `text` alone is believed, not proved; nothing else is claimed
/// of it.
#[verifier::external_body]
pub(crate) fn to_uppercase(text: &str) -> (upper: String)
    ensures
        upper@ == uppercase(text@),
{
    text.to_uppercase()
}

/// The characters of `text`, in order.
pub fn chars_of(text: &str) -> (chars: Vec<char>)
    ensures
        chars@ == text@,
{
    let mut chars: Vec<char> = Vec::new();
    for c in it: text.chars()
        invariant
            chars@ == it.seq().take(it.index()),
            it.seq() == text@,
    {
        chars.push(c);
    }
    chars
}

/// What is left of a text that is cut after `limit` characters.
pub open spec fn cut(text: Seq<char>, limit: nat) -> Seq<char> {
    if text.len() <= limit {
        text
    } else {
        text.take(limit as int)
    }
}

/// The first `limit` characters of `text`, or all of it where it is shorter.
pub fn leading(text: &str, limit: usize) -> (head: String)
    ensures
        head@ == cut(text@, limit as nat),
{
    if text.unicode_len() <= limit {
        text.to_owned()
    } else {
        text.substring_char(0, limit).to_owned()
    }
}

/// The characters that stand after the last newline among the first `upto`
/// characters of `text`: the line that is still open there.
pub open spec fn open_line(text: Seq<char>, upto: int) -> Seq<char>
    decreases upto,
{
    if upto <= 0 || text[upto - 1] == '\n' {
        Seq::empty()
    } else {
        open_line(text, upto - 1).push(text[upto - 1])
    }
}

/// The lines that a newline has closed among the first `upto` characters of
/// `text`, without the empty ones.
pub open spec fn closed_lines(text: Seq<char>, upto: int) -> Seq<Seq<char>>
    decreases upto,
{
    if upto <= 0 {
        Seq::empty()
    } else if text[upto - 1] == '\n' && open_line(text, upto - 1).len() > 0 {
        closed_lines(text, upto - 1).push(open_line(text, upto - 1))
    } else {
        closed_lines(text, upto - 1)
    }
}

/// The words of a text that holds one word a line: its lines, without the
/// empty ones. The last line needs no newline after it.
pub open spec fn words_in(text: Seq<char>) -> Seq<Seq<char>> {
    let end = text.len() as int;
    if open_line(text, end).len() > 0 {
        closed_lines(text, end).push(open_line(text, end))
    } else {
        closed_lines(text, end)
    }
}

/// `String::push` of the standard library appends the character to the end of
/// the string.
pub assume_specification[ String::push ](text: &mut String, ch: char)
    ensures
        final(text)@ == old(text)@.push(ch),
;

/// No word of a text is empty, and none holds a newline.
pub proof fn law_words_are_whole_lines(text: Seq<char>, i: int)
    requires
        0 <= i < words_in(text).len(),
    ensures
        words_in(text)[i].len() > 0,
        !words_in(text)[i].contains('\n'),
{
    let end = text.len() as int;
    lemma_lines_hold_no_newline(text, end);
}

/// Neither the open line nor a closed one holds a newline, and no closed line
/// is empty.
proof fn lemma_lines_hold_no_newline(text: Seq<char>, upto: int)
    requires
        upto <= text.len(),
    ensures
        !open_line(text, upto).contains('\n'),
        forall|i: int|
            0 <= i < closed_lines(text, upto).len() ==> (#[trigger] closed_lines(text, upto)[i]).len()
                > 0 && !closed_lines(text, upto)[i].contains('\n'),
    decreases upto,
{
    if upto > 0 {
        lemma_lines_hold_no_newline(text, upto - 1);
        let before = open_line(text, upto - 1);
        let closed = closed_lines(text, upto - 1);
        if text[upto - 1] != '\n' {
            let now = before.push(text[upto - 1]);
            assert forall|j: int| 0 <= j < now.len() implies now[j] != '\n' by {
                if j < before.len() {
                    assert(before.contains(before[j]));
                }
            }
        } else if before.len() > 0 {
            let now = closed.push(before);
            assert forall|i: int| 0 <= i < now.len() implies (#[trigger] now[i]).len() > 0
                && !now[i].contains('\n') by {
                if i < closed.len() {
                    assert(now[i] == closed[i]);
                }
            }
        }
    }
}

/// The words of `contents`: its lines, without the empty ones.
pub fn word_list(contents: &str) -> (words: Vec<String>)
    ensures
        words@.len() == words_in(contents@).len(),
        forall|i: int| 0 <= i < words@.len() ==> (#[trigger] words@[i])@ == words_in(contents@)[i],
{
    let mut words: Vec<String> = Vec::new();
    let mut line = String::new();
    for c in it: contents.chars()
        invariant
            it.seq() == contents@,
            line@ == open_line(contents@, it.index()),
            words@.len() == closed_lines(contents@, it.index()).len(),
            forall|i: int|
                0 <= i < words@.len() ==> (#[trigger] words@[i])@ == closed_lines(
                    contents@,
                    it.index(),
                )[i],
    {
        if c == '\n' {
            if !line.as_str().is_empty() {
                words.push(line);
                line = String::new();
            }
        } else {
            line.push(c);
        }
    }
    if !line.as_str().is_empty() {
        words.push(line);
    }
    words
}

} // verus!
