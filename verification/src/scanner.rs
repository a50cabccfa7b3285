//! The scanner: a cursor over the characters of a text, and the state machine
//! that cuts the text into words.

use crate::encoding::{byte_len, byte_offset, chars_of, lemma_byte_offset_grows, len_utf8};
use crate::errors::{Diag, DiagBag};
use crate::grammar::{
    comment_end, digits_end, ident_end, is_digit, is_letter, is_whitespace, keyword_of,
    lemma_ends_within, lemma_step_advances, next_word, step, symbol,
};
use crate::source_map::{BytePos, Pos, Span};
use vstd::prelude::*;
use vstd::slice::slice_subrange;

verus! {

/// What kind of word a lexeme is.
#[derive(Debug, Clone, Copy, PartialEq, Eq, Structural)]
pub enum Category {
    Kw(Keyword),
    Plus,
    Minus,
    Star,
    Slash,
    Less,
    LessEqual,
    Greater,
    GreaterEqual,
    EqualEqual,
    ExclamaEqual,
    Equal,
    Semicolon,
    Comma,
    OpenParen,
    CloseParen,
    OpenCurly,
    CloseCurly,
    OpenBracket,
    CloseBracket,
    Ident,
    Number,
    Eof,
}

/// The reserved words.
#[derive(Debug, Clone, Copy, PartialEq, Eq, Structural)]
pub enum Keyword {
    Else,
    If,
    Int,
    Return,
    Void,
    While,
}

/// A classified lexeme with the range of bytes that it covers.
#[derive(Debug, Clone, Copy, PartialEq, Eq, Structural)]
pub struct Word {
    pub category: Category,
    pub lexeme: Span,
}

impl Word {
    /// The word that marks the end of the text. It covers no bytes.
    pub fn end_of_input() -> (word: Word)
        ensures
            word == (Word { category: Category::Eof, lexeme: Span { start: BytePos(0), end: BytePos(0) } }),
    {
        Word { category: Category::Eof, lexeme: Span::dummy() }
    }
}

/// What one step of scanning comes to.
#[derive(Debug, Clone, Copy, PartialEq, Eq, Structural)]
pub enum ScanState {
    /// Whitespace or a comment was passed over.
    Skipped,
    /// A word of this category was read.
    FoundCategory(Category),
    /// Nothing is left to read.
    ReachedEndOfInput,
}

/// The character of `text` with index `i`, if there is one.
pub open spec fn char_at(text: Seq<char>, i: int) -> Option<char> {
    if 0 <= i < text.len() {
        Some(text[i])
    } else {
        None
    }
}

/// A cursor over the characters of a text that looks one character ahead
/// and knows the byte offset of the character it looks at.
pub struct CharBumper {
    chars: Vec<char>,
    next: usize,
    current_peek_pos: BytePos,
}

impl CharBumper {
    /// The whole text that the cursor walks over.
    pub closed spec fn text(&self) -> Seq<char> {
        self.chars@
    }

    /// How many characters have been taken.
    pub closed spec fn index(&self) -> int {
        self.next as int
    }

    /// The recorded byte offset of the next character.
    pub closed spec fn peek_pos(&self) -> BytePos {
        self.current_peek_pos
    }

    /// The cursor stands within its text, and the recorded offset is that of
    /// the next character.
    pub open spec fn wf(&self) -> bool {
        &&& 0 <= self.index() <= self.text().len()
        &&& byte_len(self.text()) <= usize::MAX
        &&& self.peek_pos().0 == byte_offset(self.text(), self.index())
    }

    /// A cursor at the start of `text`.
    pub fn new(text: &str) -> (bumper: CharBumper)
        ensures
            bumper.wf(),
            bumper.text() == text@,
            bumper.index() == 0,
    {
        CharBumper { chars: chars_of(text), next: 0, current_peek_pos: BytePos(0) }
    }

    /// The byte offset of the next character.
    pub fn current_peek_pos(&self) -> (pos: BytePos)
        ensures
            pos == self.peek_pos(),
    {
        self.current_peek_pos
    }

    /// How many characters have been taken.
    pub fn chars_taken(&self) -> (count: usize)
        ensures
            count == self.index(),
    {
        self.next
    }

    /// The characters taken since `from` characters had been taken.
    pub fn taken_since(&self, from: usize) -> (lexeme: &[char])
        requires
            from <= self.index() <= self.text().len(),
        ensures
            lexeme@ == self.text().subrange(from as int, self.index()),
    {
        slice_subrange(self.chars.as_slice(), from, self.next)
    }

    /// The next character, which stays where it is.
    pub fn peek(&mut self) -> (next_char: Option<char>)
        ensures
            *final(self) == *old(self),
            next_char == char_at(old(self).text(), old(self).index()),
    {
        if self.next < self.chars.len() {
            Some(self.chars[self.next])
        } else {
            None
        }
    }

    /// Whether the next character is `ch`.
    pub fn peek_is(&mut self, ch: char) -> (found: bool)
        ensures
            *final(self) == *old(self),
            found == (char_at(old(self).text(), old(self).index()) == Some(ch)),
    {
        self.peek() == Some(ch)
    }

    /// Takes the next character and moves the recorded offset past its
    /// bytes. At the end of the text nothing changes.
    pub fn bump(&mut self) -> (next_char: Option<char>)
        requires
            old(self).wf(),
        ensures
            final(self).wf(),
            final(self).text() == old(self).text(),
            next_char == char_at(old(self).text(), old(self).index()),
            final(self).index() == old(self).index() + if next_char is Some {
                1int
            } else {
                0int
            },
    {
        if self.next < self.chars.len() {
            let c = self.chars[self.next];
            proof {
                lemma_byte_offset_grows(
                    self.text(),
                    self.index() + 1,
                    self.text().len() as int,
                );
            }
            let byte_length_in_utf8: BytePos = Pos::from_usize(len_utf8(c));
            self.current_peek_pos = self.current_peek_pos + byte_length_in_utf8;
            self.next = self.next + 1;
            Some(c)
        } else {
            None
        }
    }

    /// Takes the next character if it is `ch`, and says whether it did.
    pub fn bump_if(&mut self, ch: char) -> (bumped: bool)
        requires
            old(self).wf(),
        ensures
            final(self).wf(),
            final(self).text() == old(self).text(),
            bumped == (char_at(old(self).text(), old(self).index()) == Some(ch)),
            final(self).index() == old(self).index() + if bumped {
                1int
            } else {
                0int
            },
    {
        if self.peek_is(ch) {
            self.bump();
            true
        } else {
            false
        }
    }
}

/// Whether `c` separates words.
pub fn is_whitespace_char(c: char) -> (found: bool)
    ensures
        found == is_whitespace(c),
{
    c == ' ' || c == '\n' || c == '\t'
}

/// Whether `c` is a letter.
pub fn is_letter_char(c: char) -> (found: bool)
    ensures
        found == is_letter(c),
{
    ('a' <= c && c <= 'z') || ('A' <= c && c <= 'Z')
}

/// Whether `c` is a digit.
pub fn is_digit_char(c: char) -> (found: bool)
    ensures
        found == is_digit(c),
{
    '0' <= c && c <= '9'
}

/// The reserved word that `lexeme` spells, if it spells one.
pub fn lookup_keyword(lexeme: &[char]) -> (keyword: Option<Keyword>)
    ensures
        keyword == keyword_of(lexeme@),
{
    let length = lexeme.len();
    if length == 2 && lexeme[0] == 'i' && lexeme[1] == 'f' {
        assert(lexeme@ =~= seq!['i', 'f']);
        Some(Keyword::If)
    } else if length == 3 && lexeme[0] == 'i' && lexeme[1] == 'n' && lexeme[2] == 't' {
        assert(lexeme@ =~= seq!['i', 'n', 't']);
        Some(Keyword::Int)
    } else if length == 4 && lexeme[0] == 'e' && lexeme[1] == 'l' && lexeme[2] == 's'
        && lexeme[3] == 'e' {
        assert(lexeme@ =~= seq!['e', 'l', 's', 'e']);
        Some(Keyword::Else)
    } else if length == 4 && lexeme[0] == 'v' && lexeme[1] == 'o' && lexeme[2] == 'i'
        && lexeme[3] == 'd' {
        assert(lexeme@ =~= seq!['v', 'o', 'i', 'd']);
        Some(Keyword::Void)
    } else if length == 5 && lexeme[0] == 'w' && lexeme[1] == 'h' && lexeme[2] == 'i'
        && lexeme[3] == 'l' && lexeme[4] == 'e' {
        assert(lexeme@ =~= seq!['w', 'h', 'i', 'l', 'e']);
        Some(Keyword::While)
    } else if length == 6 && lexeme[0] == 'r' && lexeme[1] == 'e' && lexeme[2] == 't'
        && lexeme[3] == 'u' && lexeme[4] == 'r' && lexeme[5] == 'n' {
        assert(lexeme@ =~= seq!['r', 'e', 't', 'u', 'r', 'n']);
        Some(Keyword::Return)
    } else {
        assert(keyword_of(lexeme@) is None) by {
            let else_word = seq!['e', 'l', 's', 'e'];
            let if_word = seq!['i', 'f'];
            let int_word = seq!['i', 'n', 't'];
            let return_word = seq!['r', 'e', 't', 'u', 'r', 'n'];
            let void_word = seq!['v', 'o', 'i', 'd'];
            let while_word = seq!['w', 'h', 'i', 'l', 'e'];
            assert(else_word.len() == 4 && else_word[0] == 'e' && else_word[1] == 'l'
                && else_word[2] == 's' && else_word[3] == 'e');
            assert(if_word.len() == 2 && if_word[0] == 'i' && if_word[1] == 'f');
            assert(int_word.len() == 3 && int_word[0] == 'i' && int_word[1] == 'n' && int_word[2]
                == 't');
            assert(return_word.len() == 6 && return_word[0] == 'r' && return_word[1] == 'e'
                && return_word[2] == 't' && return_word[3] == 'u' && return_word[4] == 'r'
                && return_word[5] == 'n');
            assert(void_word.len() == 4 && void_word[0] == 'v' && void_word[1] == 'o'
                && void_word[2] == 'i' && void_word[3] == 'd');
            assert(while_word.len() == 5 && while_word[0] == 'w' && while_word[1] == 'h'
                && while_word[2] == 'i' && while_word[3] == 'l' && while_word[4] == 'e');
        }
        None
    }
}

/// The category of the symbol that begins with `first`.
pub fn lookup_symbol(first: char, then_equal: bool) -> (found: Option<Category>)
    ensures
        found == match symbol(first, then_equal) {
            Some((category, _)) => Some(category),
            None => None,
        },
{
    if first == '+' {
        Some(Category::Plus)
    } else if first == '-' {
        Some(Category::Minus)
    } else if first == '*' {
        Some(Category::Star)
    } else if first == '/' {
        Some(Category::Slash)
    } else if first == '<' {
        if then_equal {
            Some(Category::LessEqual)
        } else {
            Some(Category::Less)
        }
    } else if first == '>' {
        if then_equal {
            Some(Category::GreaterEqual)
        } else {
            Some(Category::Greater)
        }
    } else if first == '=' {
        if then_equal {
            Some(Category::EqualEqual)
        } else {
            Some(Category::Equal)
        }
    } else if first == '!' {
        if then_equal {
            Some(Category::ExclamaEqual)
        } else {
            None
        }
    } else if first == ';' {
        Some(Category::Semicolon)
    } else if first == ',' {
        Some(Category::Comma)
    } else if first == '(' {
        Some(Category::OpenParen)
    } else if first == ')' {
        Some(Category::CloseParen)
    } else if first == '[' {
        Some(Category::OpenCurly)
    } else if first == ']' {
        Some(Category::CloseCurly)
    } else if first == '{' {
        Some(Category::OpenBracket)
    } else if first == '}' {
        Some(Category::CloseBracket)
    } else {
        None
    }
}

/// Whether `=` may follow `first` to make a longer symbol.
pub fn takes_equal(first: char) -> (found: bool)
    ensures
        found == (first == '<' || first == '>' || first == '=' || first == '!'),
{
    first == '<' || first == '>' || first == '=' || first == '!'
}

/// The scanner: cuts a text into words, one word at a call.
pub struct CSubScanner {
    char_stream: CharBumper,
}

impl CSubScanner {
    /// The whole text that is scanned.
    pub closed spec fn text(&self) -> Seq<char> {
        self.char_stream.text()
    }

    /// How many characters have been scanned.
    pub closed spec fn index(&self) -> int {
        self.char_stream.index()
    }

    /// The recorded byte offset of the next character.
    pub closed spec fn peek_pos(&self) -> BytePos {
        self.char_stream.peek_pos()
    }

    /// The scanner stands within its text, and the recorded offset is that
    /// of the next character.
    pub open spec fn wf(&self) -> bool {
        &&& 0 <= self.index() <= self.text().len()
        &&& byte_len(self.text()) <= usize::MAX
        &&& self.peek_pos().0 == byte_offset(self.text(), self.index())
    }

    /// A scanner at the start of `text`.
    pub fn with_chars(text: &str) -> (scanner: CSubScanner)
        ensures
            scanner.wf(),
            scanner.text() == text@,
            scanner.index() == 0,
    {
        CSubScanner { char_stream: CharBumper::new(text) }
    }

    /// The next character, which stays where it is.
    pub fn peek(&mut self) -> (next_char: Option<char>)
        ensures
            *final(self) == *old(self),
            next_char == char_at(old(self).text(), old(self).index()),
    {
        self.char_stream.peek()
    }

    /// Whether the next character is `expected_char`.
    pub fn peek_is(&mut self, expected_char: char) -> (found: bool)
        ensures
            *final(self) == *old(self),
            found == (char_at(old(self).text(), old(self).index()) == Some(expected_char)),
    {
        self.char_stream.peek_is(expected_char)
    }

    /// Takes the next character. At the end of the text nothing changes.
    pub fn bump(&mut self) -> (next_char: Option<char>)
        requires
            old(self).wf(),
        ensures
            final(self).wf(),
            final(self).text() == old(self).text(),
            next_char == char_at(old(self).text(), old(self).index()),
            final(self).index() == old(self).index() + if next_char is Some {
                1int
            } else {
                0int
            },
    {
        self.char_stream.bump()
    }

    /// Takes the next character if it is `expected_char`, and says whether
    /// it did.
    pub fn bump_if(&mut self, expected_char: char) -> (bumped: bool)
        requires
            old(self).wf(),
        ensures
            final(self).wf(),
            final(self).text() == old(self).text(),
            bumped == (char_at(old(self).text(), old(self).index()) == Some(expected_char)),
            final(self).index() == old(self).index() + if bumped {
                1int
            } else {
                0int
            },
    {
        self.char_stream.bump_if(expected_char)
    }

    /// Scans the next word: passes over whitespace and comments, then reads
    /// one word. An error comes back alone in its bag, and the scanner
    /// stands where scanning goes on after it.
    pub fn scan_next_word(&mut self) -> (scanned: Result<Word, DiagBag>)
        requires
            old(self).wf(),
        ensures
            final(self).wf(),
            final(self).text() == old(self).text(),
            final(self).index() == next_word(old(self).text(), old(self).index()).1,
            match next_word(old(self).text(), old(self).index()).0 {
                Ok(word) => scanned matches Ok(found) && found == word,
                Err(diag) => scanned matches Err(bag) && bag@ == seq![diag],
            },
    {
        loop
            invariant
                self.wf(),
                self.text() == old(self).text(),
                next_word(self.text(), self.index()) == next_word(
                    old(self).text(),
                    old(self).index(),
                ),
            decreases self.text().len() - self.index(),
        {
            proof {
                lemma_step_advances(self.text(), self.index());
            }
            let lexeme_start = self.char_stream.current_peek_pos();
            match self.analyse_category_and_bump_chars() {
                Ok(ScanState::FoundCategory(category)) => {
                    let lexeme = Span {
                        start: lexeme_start,
                        end: self.char_stream.current_peek_pos(),
                    };
                    return Ok(Word { category, lexeme });
                },
                Ok(ScanState::Skipped) => {},
                Ok(ScanState::ReachedEndOfInput) => {
                    return Ok(Word::end_of_input());
                },
                Err(diag) => {
                    let mut bag = DiagBag::new();
                    bag.push(diag);
                    return Err(bag);
                },
            }
        }
    }

    /// Takes one step of scanning: reads the next character and, by what it
    /// is, the characters that belong with it.
    pub fn analyse_category_and_bump_chars(&mut self) -> (found: Result<ScanState, Diag>)
        requires
            old(self).wf(),
        ensures
            final(self).wf(),
            final(self).text() == old(self).text(),
            found == step(old(self).text(), old(self).index()).0,
            final(self).index() == step(old(self).text(), old(self).index()).1,
    {
        let start = self.char_stream.chars_taken();
        let start_pos = self.char_stream.current_peek_pos();
        proof {
            lemma_ends_within(self.text(), self.index());
            if self.index() < self.text().len() {
                lemma_ends_within(self.text(), self.index() + 1);
            }
        }
        let first = match self.bump() {
            Some(c) => c,
            None => {
                return Ok(ScanState::ReachedEndOfInput);
            },
        };
        if is_whitespace_char(first) {
            Ok(ScanState::Skipped)
        } else if first == '/' && self.bump_if('*') {
            match self.skip_block_comment() {
                Ok(()) => Ok(ScanState::Skipped),
                Err(diag) => Err(diag),
            }
        } else if is_letter_char(first) {
            self.bump_ident();
            let lexeme = self.char_stream.taken_since(start);
            match lookup_keyword(lexeme) {
                Some(keyword) => Ok(ScanState::FoundCategory(Category::Kw(keyword))),
                None => Ok(ScanState::FoundCategory(Category::Ident)),
            }
        } else if is_digit_char(first) {
            self.bump_digits();
            let number_end = self.char_stream.current_peek_pos();
            match self.peek() {
                Some(c) => {
                    if is_letter_char(c) {
                        self.bump();
                        Err(Diag::InvalidDigit { pos: number_end })
                    } else {
                        Ok(ScanState::FoundCategory(Category::Number))
                    }
                },
                None => Ok(ScanState::FoundCategory(Category::Number)),
            }
        } else {
            let then_equal = takes_equal(first) && self.peek_is('=');
            match lookup_symbol(first, then_equal) {
                Some(category) => {
                    if then_equal {
                        self.bump();
                    }
                    Ok(ScanState::FoundCategory(category))
                },
                None => Err(Diag::UnknownCharacter { pos: start_pos }),
            }
        }
    }

    /// Takes letters and digits as far as they go.
    pub fn bump_ident(&mut self)
        requires
            old(self).wf(),
        ensures
            final(self).wf(),
            final(self).text() == old(self).text(),
            final(self).index() == ident_end(old(self).text(), old(self).index()),
    {
        loop
            invariant
                self.wf(),
                self.text() == old(self).text(),
                ident_end(self.text(), self.index()) == ident_end(
                    old(self).text(),
                    old(self).index(),
                ),
            ensures
                self.index() == ident_end(old(self).text(), old(self).index()),
            decreases self.text().len() - self.index(),
        {
            match self.peek() {
                Some(c) => {
                    if is_letter_char(c) || is_digit_char(c) {
                        self.bump();
                    } else {
                        break;
                    }
                },
                None => {
                    break;
                },
            }
        }
    }

    /// Takes digits as far as they go.
    pub fn bump_digits(&mut self)
        requires
            old(self).wf(),
        ensures
            final(self).wf(),
            final(self).text() == old(self).text(),
            final(self).index() == digits_end(old(self).text(), old(self).index()),
    {
        loop
            invariant
                self.wf(),
                self.text() == old(self).text(),
                digits_end(self.text(), self.index()) == digits_end(
                    old(self).text(),
                    old(self).index(),
                ),
            ensures
                self.index() == digits_end(old(self).text(), old(self).index()),
            decreases self.text().len() - self.index(),
        {
            match self.peek() {
                Some(c) => {
                    if is_digit_char(c) {
                        self.bump();
                    } else {
                        break;
                    }
                },
                None => {
                    break;
                },
            }
        }
    }

    /// Takes the rest of a block comment, up to and with the `*/` that
    /// closes it. Where none follows, all the text is taken and the missing
    /// terminator is reported.
    pub fn skip_block_comment(&mut self) -> (closed: Result<(), Diag>)
        requires
            old(self).wf(),
        ensures
            final(self).wf(),
            final(self).text() == old(self).text(),
            match comment_end(old(self).text(), old(self).index()) {
                Some(end) => closed == Ok::<(), Diag>(()) && final(self).index() == end,
                None => closed == Err::<(), Diag>(Diag::MissingCommentTerminator)
                    && final(self).index() == old(self).text().len(),
            },
    {
        loop
            invariant
                self.wf(),
                self.text() == old(self).text(),
                comment_end(self.text(), self.index()) == comment_end(
                    old(self).text(),
                    old(self).index(),
                ),
            decreases self.text().len() - self.index(),
        {
            match self.bump() {
                Some(c) => {
                    if c == '*' && self.peek_is('/') {
                        self.bump();
                        return Ok(());
                    }
                },
                None => {
                    return Err(Diag::MissingCommentTerminator);
                },
            }
        }
    }
}

} // verus!
