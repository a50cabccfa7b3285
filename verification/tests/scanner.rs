use csub_scanner::errors::{Diag, DiagBag};
use csub_scanner::scanner::{
    is_digit_char, is_letter_char, is_whitespace_char, lookup_keyword, lookup_symbol, takes_equal,
    CSubScanner, Category, CharBumper, Keyword, ScanState, Word,
};
use csub_scanner::source_map::{BytePos, Pos, SourceFile, Span};

#[test]
fn peek_empty_input() {
    let mut bumper = CharBumper::new("");
    assert_eq!(bumper.peek(), None);
}

#[test]
fn peek_something() {
    let mut bumper = CharBumper::new("abc");
    assert_eq!(bumper.peek(), Some('a'));
}

#[test]
fn bumping_something_advances_peek() {
    let mut bumper = CharBumper::new("abc");

    assert_eq!(bumper.bump(), Some('a'));
    assert_eq!(bumper.peek(), Some('b'));

    assert_eq!(bumper.bump(), Some('b'));
    assert_eq!(bumper.peek(), Some('c'));

    assert_eq!(bumper.bump(), Some('c'));
    assert_eq!(bumper.peek(), None);

    assert_eq!(bumper.bump(), None);
    assert_eq!(bumper.peek(), None);
}

#[test]
fn peeking_doesnt_change_current_peek_position() {
    let mut bumper = CharBumper::new("abc");

    assert_eq!(bumper.current_peek_pos(), Pos::from_usize(0));

    bumper.peek();

    assert_eq!(bumper.current_peek_pos(), Pos::from_usize(0));
}

#[test]
fn bumping_changes_current_peek_position() {
    let mut bumper = CharBumper::new("abc");

    assert_eq!(bumper.current_peek_pos(), Pos::from_usize(0));

    let previous_char = bumper.bump().unwrap();

    assert_eq!(
        bumper.current_peek_pos(),
        Pos::from_usize(previous_char.len_utf8())
    );
}

#[test]
fn bumps_only_if_peek_is_expected_char() {
    let mut bumper = CharBumper::new("abc");

    assert_eq!(bumper.current_peek_pos(), Pos::from_usize(0));
    assert!(bumper.peek_is('a'));

    // Bumps if expected char equals peek.
    assert_eq!(bumper.bump_if('a'), true);
    assert_eq!(bumper.current_peek_pos(), Pos::from_usize(1));
    assert!(bumper.peek_is('b'));

    // Doesn't bump if expected char doesn't equal peek.
    assert_eq!(bumper.bump_if('!'), false);
    assert_eq!(bumper.current_peek_pos(), Pos::from_usize(1));
    assert!(bumper.peek_is('b'));
}

fn assert_symbol(input: &str, category: Category, length: usize) {
    let mut scanner = CSubScanner::with_chars(input);

    let word = scanner.scan_next_word().unwrap();

    assert_eq!(word.category, category);
    assert_eq!(word.lexeme, Span::with_usizes(0, length));
}

#[test]
fn scan_next_word_advances_span_start() {
    let mut scanner = CSubScanner::with_chars("+-");

    let first_word = scanner.scan_next_word().unwrap();
    assert_eq!(first_word.lexeme, Span::with_usizes(0, 1));

    let second_word = scanner.scan_next_word().unwrap();
    assert_eq!(second_word.lexeme, Span::with_usizes(1, 2));
}

#[test]
fn scan_plus_token() {
    assert_symbol("+", Category::Plus, 1);
}

#[test]
fn scan_minus_token() {
    assert_symbol("-", Category::Minus, 1);
}

#[test]
fn scan_star_token() {
    assert_symbol("*", Category::Star, 1);
}

#[test]
fn scan_slash_token() {
    assert_symbol("/", Category::Slash, 1);
}

#[test]
fn scan_less_token() {
    assert_symbol("<", Category::Less, 1);
}

#[test]
fn scan_less_equal_token() {
    assert_symbol("<=", Category::LessEqual, 2);
}

#[test]
fn scan_greater_token() {
    assert_symbol(">", Category::Greater, 1);
}

#[test]
fn scan_greater_equal_token() {
    assert_symbol(">=", Category::GreaterEqual, 2);
}

#[test]
fn scan_equal_equal_token() {
    assert_symbol("==", Category::EqualEqual, 2);
}

#[test]
fn scan_exclama_equal_token() {
    assert_symbol("!=", Category::ExclamaEqual, 2);
}

#[test]
fn scan_equal_token() {
    assert_symbol("=", Category::Equal, 1);
}

#[test]
fn scan_semicolon_token() {
    assert_symbol(";", Category::Semicolon, 1);
}

#[test]
fn scan_comma_token() {
    assert_symbol(",", Category::Comma, 1);
}

#[test]
fn scan_open_paren_token() {
    assert_symbol("(", Category::OpenParen, 1);
}

#[test]
fn scan_close_paren_token() {
    assert_symbol(")", Category::CloseParen, 1);
}

#[test]
fn scan_open_curly_token() {
    assert_symbol("[", Category::OpenCurly, 1);
}

#[test]
fn scan_close_curly_token() {
    assert_symbol("]", Category::CloseCurly, 1);
}

#[test]
fn scan_open_bracket_token() {
    assert_symbol("{", Category::OpenBracket, 1);
}

#[test]
fn scan_close_bracket_token() {
    assert_symbol("}", Category::CloseBracket, 1);
}

#[test]
fn scan_ident_head_token() {
    for letter in 'a'..='z' {
        assert_symbol(&letter.to_string(), Category::Ident, 1);
    }

    for letter in 'A'..='Z' {
        assert_symbol(&letter.to_string(), Category::Ident, 1);
    }
}

#[test]
fn scan_ident_letters_and_digits_mixed_token() {
    let input_string = "H3ll0W0r1d";
    assert_symbol(&input_string, Category::Ident, input_string.len());
}

#[test]
fn scan_ident_head_and_body_token() {
    let id_with_all_letters_and_digits = ('a'..='z')
        .chain('A'..='Z')
        .chain('0'..='9')
        .collect::<String>();

    assert_symbol(
        &id_with_all_letters_and_digits,
        Category::Ident,
        id_with_all_letters_and_digits.len(),
    );
}

#[test]
fn stop_scanning_ident_after_finding_char_other_than_letter_or_digit() {
    let ascii_start = 0u8;
    let ascii_end = 127u8;
    let chars_that_stop_ident_scanning =
        (ascii_start..=ascii_end).filter(|i| {
            (b'a'..=b'z')
                .chain(b'A'..=b'Z')
                .chain(b'0'..=b'9')
                .find(|ch| ch == i)
                .is_none()
        });

    for char_that_stops_ident_scanning in chars_that_stop_ident_scanning {
        let input_string =
            format!("hello{}", char_that_stops_ident_scanning as char);

        let mut scanner = CSubScanner::with_chars(&input_string);

        let ident_word = scanner.scan_next_word().unwrap();
        assert_eq!(
            ident_word,
            Word {
                category: Category::Ident,
                lexeme: Span::with_usizes(0, 5)
            },
            "char that should stop ident scanning is {0:#X}",
            char_that_stops_ident_scanning,
        );
    }
}

#[test]
fn skip_whitespace_chars() {
    let space = '\x20';
    let newline = '\x0A';
    let tab = '\x09';
    let whitespaces = &[space, newline, tab].iter().collect::<String>();

    let mut scanner = CSubScanner::with_chars(whitespaces);

    let eof_word = scanner.scan_next_word().unwrap();
    assert_eq!(eof_word, Word::end_of_input());
}

#[test]
fn scan_comment_block() {
    let mut scanner = CSubScanner::with_chars("/**/");
    let next_word = scanner.scan_next_word().unwrap();
    assert_eq!(next_word, Word::end_of_input());
}

#[test]
fn skip_everything_inside_comment_blocks() {
    let mut scanner = CSubScanner::with_chars(
        "/* this is a ++comment++!\nwith new lines!\n */",
    );

    let next_word = scanner.scan_next_word().unwrap();

    assert_eq!(next_word, Word::end_of_input());
}

#[test]
fn dont_nest_comment_blocks() {
    let mut scanner = CSubScanner::with_chars("/*+/*-*/=*/");

    let equal_word = scanner.scan_next_word().unwrap();
    assert_eq!(equal_word.category, Category::Equal);

    let star_word = scanner.scan_next_word().unwrap();
    assert_eq!(star_word.category, Category::Star);

    let slash_word = scanner.scan_next_word().unwrap();
    assert_eq!(slash_word.category, Category::Slash);
}

fn word(category: Category, start: usize, end: usize) -> Word {
    Word { category, lexeme: Span::with_usizes(start, end) }
}

fn scan_all(input: &str) -> Vec<Result<Word, Vec<Diag>>> {
    let mut scanner = CSubScanner::with_chars(input);
    let mut all = Vec::new();
    loop {
        match scanner.scan_next_word() {
            Ok(found) => {
                let at_end = found.category == Category::Eof;
                all.push(Ok(found));
                if at_end {
                    return all;
                }
            }
            Err(DiagBag { diags }) => all.push(Err(diags)),
        }
        assert!(all.len() <= input.len() + 1);
    }
}

#[test]
fn dont_nest_comment_blocks_spans_and_end() {
    assert_eq!(
        scan_all("/*+/*-*/=*/"),
        vec![
            Ok(word(Category::Equal, 8, 9)),
            Ok(word(Category::Star, 9, 10)),
            Ok(word(Category::Slash, 10, 11)),
            Ok(Word::end_of_input()),
        ]
    );
}

#[test]
fn unterminated_comment_reports_missing_terminator() {
    let mut scanner = CSubScanner::with_chars("/*");
    let bag = scanner.scan_next_word().unwrap_err();
    assert_eq!(bag.diags, vec![Diag::MissingCommentTerminator]);
    assert_eq!(scanner.scan_next_word().unwrap(), Word::end_of_input());
}

#[test]
fn unterminated_comment_yields_no_word() {
    assert_eq!(
        scan_all("/* a + b = c * / never closed *"),
        vec![Err(vec![Diag::MissingCommentTerminator]), Ok(Word::end_of_input())]
    );
    assert_eq!(
        scan_all("x /*/"),
        vec![
            Ok(word(Category::Ident, 0, 1)),
            Err(vec![Diag::MissingCommentTerminator]),
            Ok(Word::end_of_input()),
        ]
    );
}

#[test]
fn two_character_operators_are_single_words() {
    assert_eq!(
        scan_all("<=>===!="),
        vec![
            Ok(word(Category::LessEqual, 0, 2)),
            Ok(word(Category::GreaterEqual, 2, 4)),
            Ok(word(Category::EqualEqual, 4, 6)),
            Ok(word(Category::ExclamaEqual, 6, 8)),
            Ok(Word::end_of_input()),
        ]
    );
}

#[test]
fn longest_symbol_wins() {
    assert_eq!(
        scan_all("<< = ==="),
        vec![
            Ok(word(Category::Less, 0, 1)),
            Ok(word(Category::Less, 1, 2)),
            Ok(word(Category::Equal, 3, 4)),
            Ok(word(Category::EqualEqual, 5, 7)),
            Ok(word(Category::Equal, 7, 8)),
            Ok(Word::end_of_input()),
        ]
    );
}

#[test]
fn symbols_that_take_no_equal_leave_it_alone() {
    assert_eq!(
        scan_all("+=;="),
        vec![
            Ok(word(Category::Plus, 0, 1)),
            Ok(word(Category::Equal, 1, 2)),
            Ok(word(Category::Semicolon, 2, 3)),
            Ok(word(Category::Equal, 3, 4)),
            Ok(Word::end_of_input()),
        ]
    );
}

#[test]
fn keywords_scan_as_keywords() {
    assert_symbol("else", Category::Kw(Keyword::Else), 4);
    assert_symbol("if", Category::Kw(Keyword::If), 2);
    assert_symbol("int", Category::Kw(Keyword::Int), 3);
    assert_symbol("return", Category::Kw(Keyword::Return), 6);
    assert_symbol("void", Category::Kw(Keyword::Void), 4);
    assert_symbol("while", Category::Kw(Keyword::While), 5);
}

#[test]
fn keywords_mind_case_and_length() {
    assert_symbol("Else", Category::Ident, 4);
    assert_symbol("IF", Category::Ident, 2);
    assert_symbol("iF", Category::Ident, 2);
    assert_symbol("elsee", Category::Ident, 5);
    assert_symbol("els", Category::Ident, 3);
    assert_symbol("int3", Category::Ident, 4);
    assert_symbol("whiles", Category::Ident, 6);
    assert_symbol("returnvoid", Category::Ident, 10);
    assert_symbol("voi", Category::Ident, 3);
    assert_symbol("i", Category::Ident, 1);
}

#[test]
fn lookup_keyword_is_exact() {
    let chars = |s: &str| s.chars().collect::<Vec<char>>();
    assert_eq!(lookup_keyword(&chars("else")), Some(Keyword::Else));
    assert_eq!(lookup_keyword(&chars("if")), Some(Keyword::If));
    assert_eq!(lookup_keyword(&chars("int")), Some(Keyword::Int));
    assert_eq!(lookup_keyword(&chars("return")), Some(Keyword::Return));
    assert_eq!(lookup_keyword(&chars("void")), Some(Keyword::Void));
    assert_eq!(lookup_keyword(&chars("while")), Some(Keyword::While));
    assert_eq!(lookup_keyword(&chars("")), None);
    assert_eq!(lookup_keyword(&chars("While")), None);
    assert_eq!(lookup_keyword(&chars("elsf")), None);
    assert_eq!(lookup_keyword(&chars("in")), None);
    assert_eq!(lookup_keyword(&chars("returns")), None);
}

#[test]
fn numbers_run_as_far_as_digits_go() {
    assert_symbol("0", Category::Number, 1);
    assert_symbol("0123456789", Category::Number, 10);
    assert_eq!(
        scan_all("12+345"),
        vec![
            Ok(word(Category::Number, 0, 2)),
            Ok(word(Category::Plus, 2, 3)),
            Ok(word(Category::Number, 3, 6)),
            Ok(Word::end_of_input()),
        ]
    );
}

#[test]
fn letter_behind_number_is_invalid_digit() {
    let mut scanner = CSubScanner::with_chars("123abc");
    let bag = scanner.scan_next_word().unwrap_err();
    assert_eq!(bag.diags, vec![Diag::InvalidDigit { pos: BytePos(3) }]);
}

#[test]
fn scanning_goes_on_behind_the_invalid_letter() {
    assert_eq!(
        scan_all("  123abc 7"),
        vec![
            Err(vec![Diag::InvalidDigit { pos: BytePos(5) }]),
            Ok(word(Category::Ident, 6, 8)),
            Ok(word(Category::Number, 9, 10)),
            Ok(Word::end_of_input()),
        ]
    );
}

#[test]
fn unknown_character_is_reported_where_it_stands() {
    assert_eq!(
        scan_all("a # b"),
        vec![
            Ok(word(Category::Ident, 0, 1)),
            Err(vec![Diag::UnknownCharacter { pos: BytePos(2) }]),
            Ok(word(Category::Ident, 4, 5)),
            Ok(Word::end_of_input()),
        ]
    );
}

#[test]
fn exclamation_mark_alone_is_unknown() {
    assert_eq!(
        scan_all("!"),
        vec![Err(vec![Diag::UnknownCharacter { pos: BytePos(0) }]), Ok(Word::end_of_input())]
    );
    assert_eq!(
        scan_all("!a"),
        vec![
            Err(vec![Diag::UnknownCharacter { pos: BytePos(0) }]),
            Ok(word(Category::Ident, 1, 2)),
            Ok(Word::end_of_input()),
        ]
    );
}

#[test]
fn underscore_is_no_identifier_character() {
    assert_eq!(
        scan_all("a_b"),
        vec![
            Ok(word(Category::Ident, 0, 1)),
            Err(vec![Diag::UnknownCharacter { pos: BytePos(1) }]),
            Ok(word(Category::Ident, 2, 3)),
            Ok(Word::end_of_input()),
        ]
    );
}

#[test]
fn offsets_count_bytes_of_wide_characters() {
    assert_eq!(
        scan_all("/*é€𝄞*/x é y"),
        vec![
            Ok(word(Category::Ident, 13, 14)),
            Err(vec![Diag::UnknownCharacter { pos: BytePos(15) }]),
            Ok(word(Category::Ident, 18, 19)),
            Ok(Word::end_of_input()),
        ]
    );
}

#[test]
fn cursor_offsets_follow_utf8_widths() {
    let mut bumper = CharBumper::new("a\u{e9}\u{20ac}\u{1d11e}z");
    assert_eq!(bumper.chars_taken(), 0);
    assert_eq!(bumper.bump(), Some('a'));
    assert_eq!(bumper.current_peek_pos(), BytePos(1));
    assert_eq!(bumper.bump(), Some('\u{e9}'));
    assert_eq!(bumper.current_peek_pos(), BytePos(3));
    assert_eq!(bumper.bump(), Some('\u{20ac}'));
    assert_eq!(bumper.current_peek_pos(), BytePos(6));
    assert_eq!(bumper.bump(), Some('\u{1d11e}'));
    assert_eq!(bumper.current_peek_pos(), BytePos(10));
    assert_eq!(bumper.chars_taken(), 4);
    assert_eq!(bumper.taken_since(1), &['\u{e9}', '\u{20ac}', '\u{1d11e}'][..]);
    assert_eq!(bumper.bump(), Some('z'));
    assert_eq!(bumper.current_peek_pos(), BytePos(11));
    assert_eq!(bumper.bump(), None);
    assert_eq!(bumper.current_peek_pos(), BytePos(11));
    assert_eq!(bumper.chars_taken(), 5);
}

#[test]
fn whitespace_stays_out_of_spans() {
    assert_eq!(
        scan_all(" \t\nint \n\tx\t=  42 ;\n"),
        vec![
            Ok(word(Category::Kw(Keyword::Int), 3, 6)),
            Ok(word(Category::Ident, 9, 10)),
            Ok(word(Category::Equal, 11, 12)),
            Ok(word(Category::Number, 14, 16)),
            Ok(word(Category::Semicolon, 17, 18)),
            Ok(Word::end_of_input()),
        ]
    );
}

#[test]
fn word_starts_at_first_character_that_is_no_whitespace() {
    let text = "   \t\t\n  while";
    let mut scanner = CSubScanner::with_chars(text);
    let found = scanner.scan_next_word().unwrap();
    let first = text.find(|c: char| c != ' ' && c != '\t' && c != '\n').unwrap();
    assert_eq!(found.lexeme.start, BytePos(first));
    assert_eq!(found, word(Category::Kw(Keyword::While), 8, 13));
}

#[test]
fn empty_input_is_end_of_input() {
    assert_eq!(scan_all(""), vec![Ok(Word::end_of_input())]);
}

#[test]
fn whitespace_and_comments_only_is_end_of_input() {
    assert_eq!(scan_all("  \n\t "), vec![Ok(Word::end_of_input())]);
    assert_eq!(
        scan_all(" /* one */\n/**//* two\n*/\t"),
        vec![Ok(Word::end_of_input())]
    );
}

#[test]
fn end_of_input_repeats() {
    let mut scanner = CSubScanner::with_chars("x");
    assert_eq!(scanner.scan_next_word().unwrap(), word(Category::Ident, 0, 1));
    assert_eq!(scanner.scan_next_word().unwrap(), Word::end_of_input());
    assert_eq!(scanner.scan_next_word().unwrap(), Word::end_of_input());
}

#[test]
fn end_of_input_word_covers_nothing() {
    assert_eq!(
        Word::end_of_input(),
        Word { category: Category::Eof, lexeme: Span { start: BytePos(0), end: BytePos(0) } }
    );
}

#[test]
fn comment_closes_at_star_slash_only() {
    assert_eq!(
        scan_all("/***/a/* / * */b/*/*/c"),
        vec![
            Ok(word(Category::Ident, 5, 6)),
            Ok(word(Category::Ident, 15, 16)),
            Ok(word(Category::Ident, 21, 22)),
            Ok(Word::end_of_input()),
        ]
    );
}

#[test]
fn slash_alone_is_a_word() {
    assert_eq!(
        scan_all("a / b"),
        vec![
            Ok(word(Category::Ident, 0, 1)),
            Ok(word(Category::Slash, 2, 3)),
            Ok(word(Category::Ident, 4, 5)),
            Ok(Word::end_of_input()),
        ]
    );
}

#[test]
fn one_step_at_a_time() {
    let mut scanner = CSubScanner::with_chars(" /*c*/if 1a!");
    assert_eq!(scanner.analyse_category_and_bump_chars(), Ok(ScanState::Skipped));
    assert_eq!(scanner.analyse_category_and_bump_chars(), Ok(ScanState::Skipped));
    assert_eq!(
        scanner.analyse_category_and_bump_chars(),
        Ok(ScanState::FoundCategory(Category::Kw(Keyword::If)))
    );
    assert_eq!(scanner.analyse_category_and_bump_chars(), Ok(ScanState::Skipped));
    assert_eq!(
        scanner.analyse_category_and_bump_chars(),
        Err(Diag::InvalidDigit { pos: BytePos(10) })
    );
    assert_eq!(
        scanner.analyse_category_and_bump_chars(),
        Err(Diag::UnknownCharacter { pos: BytePos(11) })
    );
    assert_eq!(
        scanner.analyse_category_and_bump_chars(),
        Ok(ScanState::ReachedEndOfInput)
    );
    assert_eq!(
        scanner.analyse_category_and_bump_chars(),
        Ok(ScanState::ReachedEndOfInput)
    );
}

#[test]
fn scanner_cursor_primitives() {
    let mut scanner = CSubScanner::with_chars("ab12 /*x");
    assert_eq!(scanner.peek(), Some('a'));
    assert!(scanner.peek_is('a'));
    assert!(!scanner.peek_is('b'));
    assert!(!scanner.bump_if('b'));
    assert!(scanner.bump_if('a'));
    scanner.bump_ident();
    assert_eq!(scanner.peek(), Some(' '));
    assert_eq!(scanner.bump(), Some(' '));
    scanner.bump_digits();
    assert_eq!(scanner.peek(), Some('/'));
    assert_eq!(scanner.skip_block_comment(), Err(Diag::MissingCommentTerminator));
    assert_eq!(scanner.peek(), None);
    assert_eq!(scanner.bump(), None);
}

#[test]
fn skip_block_comment_stops_behind_the_terminator() {
    let mut scanner = CSubScanner::with_chars("a**/b*/");
    assert_eq!(scanner.skip_block_comment(), Ok(()));
    assert_eq!(scanner.peek(), Some('b'));
    assert_eq!(scanner.skip_block_comment(), Ok(()));
    assert_eq!(scanner.peek(), None);
}

#[test]
fn character_classes() {
    for c in ['a', 'z', 'A', 'Z', 'm', 'Q'] {
        assert!(is_letter_char(c));
        assert!(!is_digit_char(c));
        assert!(!is_whitespace_char(c));
    }
    for c in ['0', '9', '5'] {
        assert!(is_digit_char(c));
        assert!(!is_letter_char(c));
    }
    for c in [' ', '\n', '\t'] {
        assert!(is_whitespace_char(c));
    }
    for c in ['`', '{', '@', '[', '/', ':', '_', '\r', '\u{e9}'] {
        assert!(!is_letter_char(c));
        assert!(!is_digit_char(c));
        assert!(!is_whitespace_char(c));
    }
}

#[test]
fn symbol_table() {
    assert_eq!(lookup_symbol('<', true), Some(Category::LessEqual));
    assert_eq!(lookup_symbol('<', false), Some(Category::Less));
    assert_eq!(lookup_symbol('!', true), Some(Category::ExclamaEqual));
    assert_eq!(lookup_symbol('!', false), None);
    assert_eq!(lookup_symbol('+', true), Some(Category::Plus));
    assert_eq!(lookup_symbol('#', false), None);
    assert_eq!(lookup_symbol('a', true), None);
    assert!(takes_equal('<') && takes_equal('>') && takes_equal('=') && takes_equal('!'));
    assert!(!takes_equal('+') && !takes_equal('/') && !takes_equal('a'));
}

#[test]
fn lexemes_are_found_again_in_the_source_file() {
    let text = "while (x1 <= 10) { return; }";
    let source_file = SourceFile::new(text.into());
    let lexemes: Vec<&str> = scan_all(text)
        .into_iter()
        .map(|scanned| source_file.span_to_snippet(scanned.unwrap().lexeme))
        .collect();
    assert_eq!(
        lexemes,
        vec!["while", "(", "x1", "<=", "10", ")", "{", "return", ";", "}", ""]
    );
}
