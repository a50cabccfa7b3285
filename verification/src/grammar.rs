//! The lexical grammar: which characters make which word, stated over a text
//! as a sequence of characters and an index into it.

use crate::encoding::{
    byte_len, byte_offset, lemma_byte_offset_grows, lemma_byte_offset_is_char_boundary,
    lemma_encoded_subrange,
};
use crate::errors::Diag;
use crate::scanner::{char_at, Category, Keyword, ScanState, Word};
use crate::source_map::{BytePos, Span};
use vstd::prelude::*;
use vstd::utf8::{decode_utf8, encode_utf8, is_char_boundary};

verus! {

/// Space, newline and tab separate words and belong to none.
pub open spec fn is_whitespace(c: char) -> bool {
    c == ' ' || c == '\n' || c == '\t'
}

/// The letters `a` to `z` and `A` to `Z`.
pub open spec fn is_letter(c: char) -> bool {
    ('a' <= c && c <= 'z') || ('A' <= c && c <= 'Z')
}

/// The digits `0` to `9`.
pub open spec fn is_digit(c: char) -> bool {
    '0' <= c && c <= '9'
}

/// The characters that make up an identifier behind its first letter.
pub open spec fn is_ident_part(c: char) -> bool {
    is_letter(c) || is_digit(c)
}

/// The byte offset of the character with index `i`, as a position.
pub open spec fn pos_at(text: Seq<char>, i: int) -> BytePos {
    BytePos(byte_offset(text, i) as usize)
}

/// The index behind the longest run of letters and digits that begins at
/// `i`.
pub open spec fn ident_end(text: Seq<char>, i: int) -> int
    decreases text.len() - i,
{
    if 0 <= i < text.len() && is_ident_part(text[i]) {
        ident_end(text, i + 1)
    } else {
        i
    }
}

/// The index behind the longest run of digits that begins at `i`.
pub open spec fn digits_end(text: Seq<char>, i: int) -> int
    decreases text.len() - i,
{
    if 0 <= i < text.len() && is_digit(text[i]) {
        digits_end(text, i + 1)
    } else {
        i
    }
}

/// Whether a block comment opens at `i`.
pub open spec fn opens_comment(text: Seq<char>, i: int) -> bool {
    char_at(text, i) == Some('/') && char_at(text, i + 1) == Some('*')
}

/// Whether a block comment closes at `i`.
pub open spec fn closes_comment(text: Seq<char>, i: int) -> bool {
    char_at(text, i) == Some('*') && char_at(text, i + 1) == Some('/')
}

/// The index behind the first `*/` at or after `i`, if there is one.
pub open spec fn comment_end(text: Seq<char>, i: int) -> Option<int>
    decreases text.len() - i,
{
    if !(0 <= i < text.len()) {
        None
    } else if closes_comment(text, i) {
        Some(i + 2)
    } else {
        comment_end(text, i + 1)
    }
}

/// The reserved word that `lexeme` spells, if it spells one. The match is
/// exact and minds case.
pub open spec fn keyword_of(lexeme: Seq<char>) -> Option<Keyword> {
    if lexeme == seq!['e', 'l', 's', 'e'] {
        Some(Keyword::Else)
    } else if lexeme == seq!['i', 'f'] {
        Some(Keyword::If)
    } else if lexeme == seq!['i', 'n', 't'] {
        Some(Keyword::Int)
    } else if lexeme == seq!['r', 'e', 't', 'u', 'r', 'n'] {
        Some(Keyword::Return)
    } else if lexeme == seq!['v', 'o', 'i', 'd'] {
        Some(Keyword::Void)
    } else if lexeme == seq!['w', 'h', 'i', 'l', 'e'] {
        Some(Keyword::While)
    } else {
        None
    }
}

/// The category of a run of letters and digits: its reserved word, or an
/// identifier.
pub open spec fn ident_category(lexeme: Seq<char>) -> Category {
    match keyword_of(lexeme) {
        Some(keyword) => Category::Kw(keyword),
        None => Category::Ident,
    }
}

/// The table of punctuation and operators: the category of the symbol that
/// begins with `first`, and how many characters it takes. A symbol that can
/// be followed by `=` takes it where `then_equal` holds. `!` is a symbol only
/// with its `=`.
pub open spec fn symbol(first: char, then_equal: bool) -> Option<(Category, int)> {
    if first == '+' {
        Some((Category::Plus, 1))
    } else if first == '-' {
        Some((Category::Minus, 1))
    } else if first == '*' {
        Some((Category::Star, 1))
    } else if first == '/' {
        Some((Category::Slash, 1))
    } else if first == '<' {
        if then_equal {
            Some((Category::LessEqual, 2))
        } else {
            Some((Category::Less, 1))
        }
    } else if first == '>' {
        if then_equal {
            Some((Category::GreaterEqual, 2))
        } else {
            Some((Category::Greater, 1))
        }
    } else if first == '=' {
        if then_equal {
            Some((Category::EqualEqual, 2))
        } else {
            Some((Category::Equal, 1))
        }
    } else if first == '!' {
        if then_equal {
            Some((Category::ExclamaEqual, 2))
        } else {
            None
        }
    } else if first == ';' {
        Some((Category::Semicolon, 1))
    } else if first == ',' {
        Some((Category::Comma, 1))
    } else if first == '(' {
        Some((Category::OpenParen, 1))
    } else if first == ')' {
        Some((Category::CloseParen, 1))
    } else if first == '[' {
        Some((Category::OpenCurly, 1))
    } else if first == ']' {
        Some((Category::CloseCurly, 1))
    } else if first == '{' {
        Some((Category::OpenBracket, 1))
    } else if first == '}' {
        Some((Category::CloseBracket, 1))
    } else {
        None
    }
}

/// One step of scanning at index `i`: what is found there, and the index at
/// which scanning goes on.
///
/// Whitespace and a closed block comment are skipped. A letter begins an
/// identifier or reserved word, which runs as far as letters and digits go.
/// A digit begins a number, which runs as far as digits go and must not be
/// followed by a letter. Anything else is a symbol of the table, or unknown.
/// After an error scanning goes on behind the offending character, and at
/// the end of the text after an open comment.
pub open spec fn step(text: Seq<char>, i: int) -> (Result<ScanState, Diag>, int) {
    if !(0 <= i < text.len()) {
        (Ok(ScanState::ReachedEndOfInput), i)
    } else if is_whitespace(text[i]) {
        (Ok(ScanState::Skipped), i + 1)
    } else if opens_comment(text, i) {
        match comment_end(text, i + 2) {
            Some(end) => (Ok(ScanState::Skipped), end),
            None => (Err(Diag::MissingCommentTerminator), text.len() as int),
        }
    } else if is_letter(text[i]) {
        let end = ident_end(text, i + 1);
        (Ok(ScanState::FoundCategory(ident_category(text.subrange(i, end)))), end)
    } else if is_digit(text[i]) {
        let end = digits_end(text, i + 1);
        if end < text.len() && is_letter(text[end]) {
            (Err(Diag::InvalidDigit { pos: pos_at(text, end) }), end + 1)
        } else {
            (Ok(ScanState::FoundCategory(Category::Number)), end)
        }
    } else {
        match symbol(text[i], char_at(text, i + 1) == Some('=')) {
            Some((category, length)) => (Ok(ScanState::FoundCategory(category)), i + length),
            None => (Err(Diag::UnknownCharacter { pos: pos_at(text, i) }), i + 1),
        }
    }
}

/// Where the runs and comments end: never before they begin, never behind
/// the text.
pub proof fn lemma_ends_within(text: Seq<char>, i: int)
    requires
        0 <= i <= text.len(),
    ensures
        i <= ident_end(text, i) <= text.len(),
        i <= digits_end(text, i) <= text.len(),
        comment_end(text, i) matches Some(end) ==> i + 2 <= end <= text.len(),
    decreases text.len() - i,
{
    if i < text.len() {
        lemma_ends_within(text, i + 1);
    }
}

/// A step that does not end the scan moves forward, and no step leaves the
/// text.
pub proof fn lemma_step_advances(text: Seq<char>, i: int)
    requires
        0 <= i <= text.len(),
    ensures
        i <= step(text, i).1 <= text.len(),
        i < text.len() ==> i < step(text, i).1,
        step(text, i).0 == Ok::<ScanState, Diag>(ScanState::ReachedEndOfInput) <==> i
            == text.len(),
{
    if i < text.len() {
        lemma_ends_within(text, i + 1);
        if i + 2 <= text.len() {
            lemma_ends_within(text, i + 2);
        }
    }
}

/// The word that scanning finds from index `i` on, or the error that it
/// runs into first, and the index at which scanning goes on after it.
///
/// A word covers the bytes from its first character up to the character at
/// which scanning goes on. The end of the text gives the word that marks it,
/// which covers nothing.
pub open spec fn next_word(text: Seq<char>, i: int) -> (Result<Word, Diag>, int)
    decreases text.len() - i,
    via next_word_decreases
{
    let (found, resume) = step(text, i);
    match found {
        Ok(ScanState::Skipped) => next_word(text, resume),
        Ok(ScanState::FoundCategory(category)) => (
            Ok(
                Word {
                    category,
                    lexeme: Span { start: pos_at(text, i), end: pos_at(text, resume) },
                },
            ),
            resume,
        ),
        Ok(ScanState::ReachedEndOfInput) => (
            Ok(Word { category: Category::Eof, lexeme: Span { start: BytePos(0), end: BytePos(0) } }),
            resume,
        ),
        Err(diag) => (Err(diag), resume),
    }
}

#[via_fn]
proof fn next_word_decreases(text: Seq<char>, i: int) {
    if 0 <= i < text.len() {
        lemma_step_advances(text, i);
    }
}

/// The word that marks the end of the text.
pub open spec fn end_of_input_word() -> Word {
    Word { category: Category::Eof, lexeme: Span { start: BytePos(0), end: BytePos(0) } }
}

/// The index behind the whitespace and the closed comments that begin at
/// `i`: where scanning from `i` finds its word, the end of the text, or an
/// error.
pub open spec fn trivia_end(text: Seq<char>, i: int) -> int
    decreases text.len() - i,
    via trivia_end_decreases
{
    let (found, resume) = step(text, i);
    if found == Ok::<ScanState, Diag>(ScanState::Skipped) {
        trivia_end(text, resume)
    } else {
        i
    }
}

#[via_fn]
proof fn trivia_end_decreases(text: Seq<char>, i: int) {
    if 0 <= i < text.len() {
        lemma_step_advances(text, i);
    }
}

/// The index behind the whitespace that begins at `i`.
pub open spec fn whitespace_end(text: Seq<char>, i: int) -> int
    decreases text.len() - i,
{
    if 0 <= i < text.len() && is_whitespace(text[i]) {
        whitespace_end(text, i + 1)
    } else {
        i
    }
}

/// A run of letters and digits ends where the first other character stands,
/// and likewise a run of digits and a run of whitespace.
pub proof fn lemma_runs_are_maximal(text: Seq<char>, i: int)
    requires
        0 <= i <= text.len(),
    ensures
        forall|k: int| i <= k < ident_end(text, i) ==> is_ident_part(#[trigger] text[k]),
        ident_end(text, i) < text.len() ==> !is_ident_part(text[ident_end(text, i)]),
        forall|k: int| i <= k < digits_end(text, i) ==> is_digit(#[trigger] text[k]),
        digits_end(text, i) < text.len() ==> !is_digit(text[digits_end(text, i)]),
        forall|k: int| i <= k < whitespace_end(text, i) ==> is_whitespace(#[trigger] text[k]),
        whitespace_end(text, i) < text.len() ==> !is_whitespace(text[whitespace_end(text, i)]),
        i <= whitespace_end(text, i) <= text.len(),
    decreases text.len() - i,
{
    lemma_ends_within(text, i);
    if i < text.len() {
        lemma_runs_are_maximal(text, i + 1);
    }
}

/// A comment ends behind the first `*/` that follows: no `*/` stands
/// before the one that closes it, and where the comment has no end, none
/// stands anywhere.
pub proof fn lemma_comment_ends_at_first_terminator(text: Seq<char>, i: int)
    requires
        0 <= i <= text.len(),
    ensures
        match comment_end(text, i) {
            Some(end) => {
                &&& i + 2 <= end <= text.len()
                &&& closes_comment(text, end - 2)
                &&& forall|k: int| i <= k < end - 2 ==> !closes_comment(text, k)
            },
            None => forall|k: int| i <= k ==> !closes_comment(text, k),
        },
    decreases text.len() - i,
{
    if i < text.len() {
        lemma_comment_ends_at_first_terminator(text, i + 1);
    }
}

/// Scanning passes over whitespace and closed comments: the word found from
/// `i` is the word found behind them, and there begins a word, the end of the
/// text or an error.
pub proof fn lemma_next_word_after_trivia(text: Seq<char>, i: int)
    requires
        0 <= i <= text.len(),
    ensures
        i <= trivia_end(text, i) <= text.len(),
        next_word(text, i) == next_word(text, trivia_end(text, i)),
        step(text, trivia_end(text, i)).0 != Ok::<ScanState, Diag>(ScanState::Skipped),
        trivia_end(text, i) < text.len() ==> !is_whitespace(text[trivia_end(text, i)]),
    decreases text.len() - i,
{
    lemma_step_advances(text, i);
    if step(text, i).0 == Ok::<ScanState, Diag>(ScanState::Skipped) {
        lemma_next_word_after_trivia(text, step(text, i).1);
    }
}

/// Where only whitespace stands before a word, the word begins at the first
/// character that is no whitespace.
pub proof fn lemma_trivia_without_comment(text: Seq<char>, i: int)
    requires
        0 <= i <= text.len(),
        !opens_comment(text, whitespace_end(text, i)),
    ensures
        trivia_end(text, i) == whitespace_end(text, i),
    decreases text.len() - i,
{
    if i < text.len() && is_whitespace(text[i]) {
        lemma_trivia_without_comment(text, i + 1);
    }
}

/// Each character of the table of symbols, and each letter and digit, takes
/// one byte, so that a run of them covers as many bytes as characters.
pub proof fn lemma_plain_run_offsets(text: Seq<char>, from: int, to: int)
    requires
        0 <= from <= to <= text.len(),
        forall|k: int| from <= k < to ==> (#[trigger] text[k] as u32) < 0x80,
    ensures
        byte_offset(text, to) == byte_offset(text, from) + (to - from),
    decreases to - from,
{
    if from < to {
        lemma_plain_run_offsets(text, from, to - 1);
    }
}

/// The table of symbols decides: where a symbol stands at `i` and opens no
/// comment, scanning from `i` yields the word of the table's category, which
/// covers the one or two characters of the symbol and as many bytes, and goes
/// on behind it.
pub proof fn lemma_symbol_word(text: Seq<char>, i: int, category: Category, length: int)
    requires
        0 <= i < text.len(),
        byte_len(text) <= usize::MAX,
        !opens_comment(text, i),
        symbol(text[i], char_at(text, i + 1) == Some('=')) == Some((category, length)),
    ensures
        length == 1 || length == 2,
        i + length <= text.len(),
        next_word(text, i) == (
            Ok::<Word, Diag>(
                Word {
                    category,
                    lexeme: Span { start: pos_at(text, i), end: pos_at(text, i + length) },
                },
            ),
            i + length,
        ),
        pos_at(text, i + length).0 - pos_at(text, i).0 == length,
{
    lemma_plain_run_offsets(text, i, i + length);
    lemma_byte_offset_grows(text, i + length, text.len() as int);
    lemma_byte_offset_grows(text, i, i + length);
}

/// `<=`, `>=`, `==` and `!=` are one word each: where one of them stands at
/// `i`, scanning from `i` yields its category over both characters and goes
/// on behind the `=`.
pub proof fn lemma_two_character_operators(text: Seq<char>, i: int)
    requires
        0 <= i,
        i + 1 < text.len(),
        text[i] == '<' || text[i] == '>' || text[i] == '=' || text[i] == '!',
        text[i + 1] == '=',
    ensures
        next_word(text, i).1 == i + 2,
        next_word(text, i).0 == Ok::<Word, Diag>(
            Word {
                category: if text[i] == '<' {
                    Category::LessEqual
                } else if text[i] == '>' {
                    Category::GreaterEqual
                } else if text[i] == '=' {
                    Category::EqualEqual
                } else {
                    Category::ExclamaEqual
                },
                lexeme: Span { start: pos_at(text, i), end: pos_at(text, i + 2) },
            },
        ),
{
}

/// A comment that is never closed yields no word: where a comment opens at
/// `i` and no `*/` follows its opening, scanning from `i` reports the missing
/// terminator and stands at the end of the text.
pub proof fn lemma_unterminated_comment(text: Seq<char>, i: int)
    requires
        opens_comment(text, i),
        forall|k: int| i + 2 <= k ==> !closes_comment(text, k),
    ensures
        next_word(text, i) == (
            Err::<Word, Diag>(Diag::MissingCommentTerminator),
            text.len() as int,
        ),
{
    lemma_comment_ends_at_first_terminator(text, i + 2);
    if comment_end(text, i + 2) is Some {
        assert(closes_comment(text, comment_end(text, i + 2).unwrap() - 2));
    }
}

/// A letter begins one word that runs as far as letters and digits go: a
/// reserved word where the run spells one, an identifier otherwise.
pub proof fn lemma_identifier_word(text: Seq<char>, i: int)
    requires
        0 <= i < text.len(),
        is_letter(text[i]),
    ensures
        i < ident_end(text, i + 1) <= text.len(),
        ident_end(text, i + 1) == ident_end(text, i),
        next_word(text, i) == (
            Ok::<Word, Diag>(
                Word {
                    category: ident_category(text.subrange(i, ident_end(text, i))),
                    lexeme: Span {
                        start: pos_at(text, i),
                        end: pos_at(text, ident_end(text, i)),
                    },
                },
            ),
            ident_end(text, i),
        ),
{
    lemma_ends_within(text, i + 1);
}

/// A digit begins a number that runs as far as digits go. A letter directly
/// behind the run makes the number invalid: the error names the letter's
/// offset, and scanning goes on behind the letter.
pub proof fn lemma_number_word(text: Seq<char>, i: int)
    requires
        0 <= i < text.len(),
        is_digit(text[i]),
    ensures
        i < digits_end(text, i) <= text.len(),
        char_at(text, digits_end(text, i)) matches Some(c) && is_letter(c) ==> next_word(text, i)
            == (
            Err::<Word, Diag>(Diag::InvalidDigit { pos: pos_at(text, digits_end(text, i)) }),
            digits_end(text, i) + 1,
        ),
        !(char_at(text, digits_end(text, i)) matches Some(c) && is_letter(c)) ==> next_word(
            text,
            i,
        ) == (
            Ok::<Word, Diag>(
                Word {
                    category: Category::Number,
                    lexeme: Span {
                        start: pos_at(text, i),
                        end: pos_at(text, digits_end(text, i)),
                    },
                },
            ),
            digits_end(text, i),
        ),
{
    lemma_ends_within(text, i + 1);
}

/// No word holds whitespace. A word found from `i` begins behind the
/// whitespace and closed comments that stand at `i`, at a character that is
/// no whitespace, covers the characters up to where scanning goes on, and
/// none of them is whitespace.
pub proof fn lemma_word_excludes_whitespace(text: Seq<char>, i: int)
    requires
        0 <= i <= text.len(),
        next_word(text, i).0 matches Ok(word) && word.category != Category::Eof,
    ensures
        i <= trivia_end(text, i) < next_word(text, i).1 <= text.len(),
        next_word(text, i).0 matches Ok(word) && word.lexeme == (Span {
            start: pos_at(text, trivia_end(text, i)),
            end: pos_at(text, next_word(text, i).1),
        }),
        forall|k: int|
            trivia_end(text, i) <= k < next_word(text, i).1 ==> !is_whitespace(#[trigger] text[k]),
{
    lemma_next_word_after_trivia(text, i);
    let start = trivia_end(text, i);
    lemma_step_advances(text, start);
    lemma_runs_are_maximal(text, start + 1);
}

/// A word's span is a span of the text as it lies in memory: it is well
/// ordered, ends within the encoded text, begins and ends between
/// characters, and the bytes that it covers are the characters of the word.
pub proof fn lemma_word_span_covers_lexeme(text: Seq<char>, i: int)
    requires
        0 <= i <= text.len(),
        byte_len(text) <= usize::MAX,
        next_word(text, i).0 matches Ok(word) && word.category != Category::Eof,
    ensures
        next_word(text, i).0 matches Ok(word) && {
            &&& word.lexeme.wf()
            &&& word.lexeme.end.0 <= encode_utf8(text).len()
            &&& is_char_boundary(encode_utf8(text), word.lexeme.start.0 as int)
            &&& is_char_boundary(encode_utf8(text), word.lexeme.end.0 as int)
            &&& decode_utf8(
                encode_utf8(text).subrange(word.lexeme.start.0 as int, word.lexeme.end.0 as int),
            ) == text.subrange(trivia_end(text, i), next_word(text, i).1)
        },
{
    lemma_word_excludes_whitespace(text, i);
    let start = trivia_end(text, i);
    let end = next_word(text, i).1;
    lemma_byte_offset_grows(text, end, text.len() as int);
    lemma_byte_offset_grows(text, start, end);
    lemma_byte_offset_is_char_boundary(text, start);
    lemma_byte_offset_is_char_boundary(text, end);
    lemma_encoded_subrange(text, start, end);
}

/// Scanning yields the end of the text, and no error, exactly where nothing
/// but whitespace and closed comments is left.
pub proof fn lemma_end_of_input(text: Seq<char>, i: int)
    requires
        0 <= i <= text.len(),
    ensures
        next_word(text, i).0 == Ok::<Word, Diag>(end_of_input_word()) <==> trivia_end(text, i)
            == text.len(),
        trivia_end(text, i) == text.len() ==> next_word(text, i).1 == text.len(),
        whitespace_end(text, i) == text.len() ==> trivia_end(text, i) == text.len(),
{
    lemma_next_word_after_trivia(text, i);
    lemma_step_advances(text, trivia_end(text, i));
    if whitespace_end(text, i) == text.len() {
        lemma_trivia_without_comment(text, i);
    }
}

} // verus!
