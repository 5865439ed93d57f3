use teenytiny::lex::{is_control, LexError, Lexer, Token, TokenBand, TokenKind};

fn lexer(src: &str) -> Lexer {
    Lexer::new(String::from(src))
}

fn token(lexer: &mut Lexer) -> Token {
    lexer.get_token().unwrap()
}

fn expect(lexer: &mut Lexer, text: &str, kind: TokenKind) {
    assert_eq!(token(lexer), Token { text: String::from(text), token_type: kind });
}

#[test]
fn new_appends_the_sentinel_line_feed() {
    let l = lexer("ab");
    assert_eq!(l.source, vec!['a', 'b', '\n']);
    assert_eq!(l.cur_char, 'a');
    assert_eq!(l.cur_pos, 0);
}

#[test]
fn new_classifies_every_character() {
    let l = lexer("a1 \u{e9}\u{663}+");
    assert_eq!(l.source, vec!['a', '1', ' ', '\u{e9}', '\u{663}', '+', '\n']);
    assert_eq!(l.numeric, vec![false, true, false, false, true, false, false]);
    assert_eq!(l.alphabetic, vec![true, false, false, true, false, false, false]);
}

#[test]
fn with_classes_takes_the_marks_it_is_given() {
    let mut l = Lexer::with_classes(
        vec!['a', '_', 'b', ' ', 'x', 'y'],
        vec![false, false, false, false, true, true],
        vec![true, true, true, false, false, false],
    )
    .unwrap();
    assert_eq!(l.source, vec!['a', '_', 'b', ' ', 'x', 'y', '\n']);
    assert_eq!(l.numeric, vec![false, false, false, false, true, true, false]);
    assert_eq!(l.alphabetic, vec![true, true, true, false, false, false, false]);
    assert_eq!((l.cur_char, l.cur_pos), ('a', 0));
    expect(&mut l, "a_b", TokenKind::IDENT);
    expect(&mut l, "xy", TokenKind::NUMBER);
    expect(&mut l, "\n", TokenKind::NEWLINE);
    expect(&mut l, "\0", TokenKind::EOF);
}

#[test]
fn with_classes_lexes_like_new_on_the_marks_of_new() {
    let src = "LET total = 3.5 * n";
    let mut a = lexer(src);
    let mut marks = lexer(src);
    marks.source.pop();
    marks.numeric.pop();
    marks.alphabetic.pop();
    let mut b = Lexer::with_classes(marks.source, marks.numeric, marks.alphabetic).unwrap();
    for _ in 0..10 {
        assert_eq!(a.get_token(), b.get_token());
    }
}

#[test]
fn with_classes_puts_operators_before_marks() {
    let mut l = Lexer::with_classes(vec!['+', '"'], vec![true, true], vec![true, true]).unwrap();
    expect(&mut l, "+", TokenKind::PLUS);
    assert_eq!(l.get_token(), Err(LexError::IllegalStringChar));
}

#[test]
fn with_classes_needs_a_mark_for_each_character() {
    assert!(Lexer::with_classes(vec!['a'], vec![], vec![true]).is_none());
    assert!(Lexer::with_classes(vec!['a'], vec![false], vec![]).is_none());
    assert!(Lexer::with_classes(vec!['a'], vec![false, false], vec![true]).is_none());
    assert!(Lexer::with_classes(vec![], vec![false], vec![false]).is_none());
    assert!(Lexer::with_classes(vec![], vec![], vec![]).is_some());
}

#[test]
fn new_on_empty_text_holds_only_the_sentinel() {
    let l = lexer("");
    assert_eq!(l.source, vec!['\n']);
    assert_eq!(l.cur_char, '\n');
    assert_eq!(l.cur_pos, 0);
}

#[test]
fn next_char_moves_the_cursor_by_one_at_every_call() {
    let mut l = lexer("ab");
    l.next_char();
    assert_eq!((l.cur_char, l.cur_pos), ('b', 1));
    l.next_char();
    assert_eq!((l.cur_char, l.cur_pos), ('\n', 2));
    l.next_char();
    assert_eq!((l.cur_char, l.cur_pos), ('\0', 3));
    l.next_char();
    assert_eq!((l.cur_char, l.cur_pos), ('\0', 4));
    l.next_char();
    assert_eq!((l.cur_char, l.cur_pos), ('\0', 5));
    assert_eq!(l.source, vec!['a', 'b', '\n']);
}

#[test]
fn next_char_from_far_past_the_end() {
    let mut l = lexer("ab");
    l.cur_pos = 1000;
    l.cur_char = '\0';
    l.next_char();
    assert_eq!((l.cur_char, l.cur_pos), ('\0', 1001));
    assert_eq!(l.peek(), '\0');
    expect(&mut l, "\0", TokenKind::EOF);
    assert_eq!(l.cur_pos, 1002);
}

#[test]
fn peek_looks_one_character_ahead_without_moving() {
    let mut l = lexer("ab");
    assert_eq!(l.peek(), 'b');
    assert_eq!(l.cur_pos, 0);
    l.next_char();
    assert_eq!(l.peek(), '\n');
    l.next_char();
    assert_eq!(l.peek(), '\0');
    l.next_char();
    assert_eq!(l.peek(), '\0');
}

#[test]
fn skip_whitespace_passes_spaces_tabs_and_carriage_returns() {
    let mut l = lexer(" \t\r x");
    l.skip_whitespace();
    assert_eq!((l.cur_char, l.cur_pos), ('x', 4));
    l.skip_whitespace();
    assert_eq!((l.cur_char, l.cur_pos), ('x', 4));
}

#[test]
fn skip_whitespace_stops_at_a_line_feed() {
    let mut l = lexer("  \n  ");
    l.skip_whitespace();
    assert_eq!((l.cur_char, l.cur_pos), ('\n', 2));
}

#[test]
fn skip_comment_stops_on_the_line_feed() {
    let mut l = lexer("# note + 1\nx");
    l.skip_comment();
    assert_eq!((l.cur_char, l.cur_pos), ('\n', 10));
}

#[test]
fn skip_comment_without_a_marker_does_nothing() {
    let mut l = lexer("x # y");
    l.skip_comment();
    assert_eq!((l.cur_char, l.cur_pos), ('x', 0));
}

#[test]
fn single_character_operators_and_markers_map_one_to_one() {
    let mut l = lexer("+-*/\n/*-+");
    expect(&mut l, "+", TokenKind::PLUS);
    expect(&mut l, "-", TokenKind::MINUS);
    expect(&mut l, "*", TokenKind::ASTERISK);
    expect(&mut l, "/", TokenKind::SLASH);
    expect(&mut l, "\n", TokenKind::NEWLINE);
    expect(&mut l, "/", TokenKind::SLASH);
    expect(&mut l, "*", TokenKind::ASTERISK);
    expect(&mut l, "-", TokenKind::MINUS);
    expect(&mut l, "+", TokenKind::PLUS);
    expect(&mut l, "\n", TokenKind::NEWLINE);
    expect(&mut l, "\0", TokenKind::EOF);
}

#[test]
fn end_of_input_is_returned_again_and_again() {
    let mut l = lexer("");
    expect(&mut l, "\n", TokenKind::NEWLINE);
    assert_eq!(l.cur_pos, 1);
    expect(&mut l, "\0", TokenKind::EOF);
    assert_eq!(l.cur_pos, 2);
    expect(&mut l, "\0", TokenKind::EOF);
    expect(&mut l, "\0", TokenKind::EOF);
    assert_eq!((l.cur_char, l.cur_pos), ('\0', 4));
}

#[test]
fn a_nul_inside_the_text_is_an_end_of_input_token() {
    let mut l = lexer("+\0-");
    expect(&mut l, "+", TokenKind::PLUS);
    expect(&mut l, "\0", TokenKind::EOF);
    expect(&mut l, "-", TokenKind::MINUS);
    expect(&mut l, "\n", TokenKind::NEWLINE);
    expect(&mut l, "\0", TokenKind::EOF);
}

#[test]
fn compound_operators_take_two_characters() {
    let mut l = lexer("==!=<=>=");
    expect(&mut l, "==", TokenKind::EQEQ);
    assert_eq!(l.cur_pos, 2);
    expect(&mut l, "!=", TokenKind::NOTEQ);
    assert_eq!(l.cur_pos, 4);
    expect(&mut l, "<=", TokenKind::LTEQ);
    assert_eq!(l.cur_pos, 6);
    expect(&mut l, ">=", TokenKind::GTEQ);
    assert_eq!(l.cur_pos, 8);
    expect(&mut l, "\n", TokenKind::NEWLINE);
}

#[test]
fn single_comparison_operators_stand_alone() {
    let mut l = lexer("= < > =+");
    expect(&mut l, "=", TokenKind::EQ);
    expect(&mut l, "<", TokenKind::LT);
    expect(&mut l, ">", TokenKind::GT);
    expect(&mut l, "=", TokenKind::EQ);
    expect(&mut l, "+", TokenKind::PLUS);
}

#[test]
fn three_equal_signs_are_a_pair_and_a_single() {
    let mut l = lexer("===");
    expect(&mut l, "==", TokenKind::EQEQ);
    expect(&mut l, "=", TokenKind::EQ);
}

#[test]
fn a_lone_bang_is_an_error() {
    let mut l = lexer("!x");
    assert_eq!(l.get_token(), Err(LexError::ExpectedNotEq { found: 'x' }));
    assert_eq!(l.cur_pos, 0);
}

#[test]
fn a_bang_at_the_end_of_a_line_is_an_error() {
    let mut l = lexer("!");
    assert_eq!(l.get_token(), Err(LexError::ExpectedNotEq { found: '\n' }));
}

#[test]
fn whole_numbers_and_decimals() {
    let mut l = lexer("12 3.25 0.5+7");
    expect(&mut l, "12", TokenKind::NUMBER);
    expect(&mut l, "3.25", TokenKind::NUMBER);
    expect(&mut l, "0.5", TokenKind::NUMBER);
    expect(&mut l, "+", TokenKind::PLUS);
    expect(&mut l, "7", TokenKind::NUMBER);
    expect(&mut l, "\n", TokenKind::NEWLINE);
}

#[test]
fn a_number_at_the_very_end_of_the_text() {
    let mut l = lexer("9");
    expect(&mut l, "9", TokenKind::NUMBER);
    assert_eq!(l.cur_pos, 1);
    expect(&mut l, "\n", TokenKind::NEWLINE);
}

#[test]
fn a_trailing_decimal_point_is_an_error() {
    let mut l = lexer("12.");
    assert_eq!(l.get_token(), Err(LexError::IllegalNumberChar));
    assert_eq!(l.cur_pos, 2);
}

#[test]
fn a_decimal_point_before_a_letter_is_an_error() {
    let mut l = lexer("12.x");
    assert_eq!(l.get_token(), Err(LexError::IllegalNumberChar));
}

#[test]
fn a_decimal_point_before_a_blank_is_an_error() {
    let mut l = lexer("12. 5");
    assert_eq!(l.get_token(), Err(LexError::IllegalNumberChar));
}

#[test]
fn a_second_decimal_point_ends_the_number() {
    let mut l = lexer("1.2.3");
    expect(&mut l, "1.2", TokenKind::NUMBER);
    assert_eq!(l.get_token(), Err(LexError::UnknownChar { found: '.' }));
}

#[test]
fn a_leading_decimal_point_starts_no_token() {
    let mut l = lexer(".5");
    assert_eq!(l.get_token(), Err(LexError::UnknownChar { found: '.' }));
}

#[test]
fn a_string_token_holds_the_characters_between_the_quotes() {
    let mut l = lexer("\"hi there\" +");
    expect(&mut l, "hi there", TokenKind::STRING);
    assert_eq!(l.cur_pos, 10);
    expect(&mut l, "+", TokenKind::PLUS);
}

#[test]
fn a_string_literal_is_consumed_whole() {
    let mut l = lexer("\"hi\"");
    expect(&mut l, "hi", TokenKind::STRING);
    assert_eq!(l.cur_pos, 4);
    expect(&mut l, "\n", TokenKind::NEWLINE);
    expect(&mut l, "\0", TokenKind::EOF);
}

#[test]
fn two_string_literals_side_by_side() {
    let mut l = lexer("\"a\"\"b\"");
    expect(&mut l, "a", TokenKind::STRING);
    expect(&mut l, "b", TokenKind::STRING);
    expect(&mut l, "\n", TokenKind::NEWLINE);
}

#[test]
fn an_empty_string_token_holds_nothing() {
    let mut l = lexer("\"\"");
    expect(&mut l, "", TokenKind::STRING);
    assert_eq!(l.cur_pos, 2);
    expect(&mut l, "\n", TokenKind::NEWLINE);
}

#[test]
fn a_string_may_hold_operators_and_a_comment_marker() {
    let mut l = lexer("\"a + b # c\"");
    expect(&mut l, "a + b # c", TokenKind::STRING);
}

#[test]
fn a_percent_sign_in_a_string_is_an_error() {
    let mut l = lexer("\"50%\"");
    assert_eq!(l.get_token(), Err(LexError::IllegalStringChar));
    assert_eq!(l.cur_pos, 3);
}

#[test]
fn a_backslash_in_a_string_is_an_error() {
    let mut l = lexer("\"a\\n\"");
    assert_eq!(l.get_token(), Err(LexError::IllegalStringChar));
}

#[test]
fn a_tab_in_a_string_is_an_error() {
    let mut l = lexer("\"a\tb\"");
    assert_eq!(l.get_token(), Err(LexError::IllegalStringChar));
}

#[test]
fn a_carriage_return_in_a_string_is_an_error() {
    let mut l = lexer("\"a\rb\"");
    assert_eq!(l.get_token(), Err(LexError::IllegalStringChar));
}

#[test]
fn a_line_feed_in_a_string_is_an_error() {
    let mut l = lexer("\"a\nb\"");
    assert_eq!(l.get_token(), Err(LexError::IllegalStringChar));
}

#[test]
fn any_control_character_in_a_string_is_an_error() {
    for c in ['\0', '\u{1}', '\u{b}', '\u{1b}', '\u{1f}', '\u{7f}', '\u{80}', '\u{9f}'] {
        let mut l = lexer(&format!("\"a{}b\"", c));
        assert_eq!(l.get_token(), Err(LexError::IllegalStringChar), "{:?}", c);
        assert_eq!(l.cur_pos, 2);
    }
}

#[test]
fn characters_next_to_the_control_codes_may_stand_in_a_string() {
    let mut l = lexer("\" ~\u{a0}\u{e9}'#!\"");
    expect(&mut l, " ~\u{a0}\u{e9}'#!", TokenKind::STRING);
}

#[test]
fn is_control_knows_both_ranges() {
    for c in ['\0', '\t', '\n', '\r', '\u{1f}', '\u{7f}', '\u{80}', '\u{9f}'] {
        assert!(is_control(c), "{:?}", c);
        assert_eq!(is_control(c), c.is_control());
    }
    for c in [' ', '!', '~', 'a', '\u{a0}', '\u{e9}', '\u{2028}'] {
        assert!(!is_control(c), "{:?}", c);
        assert_eq!(is_control(c), c.is_control());
    }
}

#[test]
fn an_unterminated_string_is_an_error() {
    let mut l = lexer("\"abc");
    assert_eq!(l.get_token(), Err(LexError::IllegalStringChar));
    assert_eq!(l.cur_pos, 4);
}

#[test]
fn every_keyword_is_recognised() {
    let mut l = lexer("LABEL GOTO PRINT INPUT LET IF THEN ENDIF WHILE REPEAT ENDWHILE");
    expect(&mut l, "LABEL", TokenKind::LABEL);
    expect(&mut l, "GOTO", TokenKind::GOTO);
    expect(&mut l, "PRINT", TokenKind::PRINT);
    expect(&mut l, "INPUT", TokenKind::INPUT);
    expect(&mut l, "LET", TokenKind::LET);
    expect(&mut l, "IF", TokenKind::IF);
    expect(&mut l, "THEN", TokenKind::THEN);
    expect(&mut l, "ENDIF", TokenKind::ENDIF);
    expect(&mut l, "WHILE", TokenKind::WHILE);
    expect(&mut l, "REPEAT", TokenKind::REPEAT);
    expect(&mut l, "ENDWHILE", TokenKind::ENDWHILE);
    expect(&mut l, "\n", TokenKind::NEWLINE);
}

#[test]
fn keywords_are_case_sensitive() {
    let mut l = lexer("let Let LET");
    expect(&mut l, "let", TokenKind::IDENT);
    expect(&mut l, "Let", TokenKind::IDENT);
    expect(&mut l, "LET", TokenKind::LET);
}

#[test]
fn a_keyword_inside_a_longer_word_is_an_identifier() {
    let mut l = lexer("LETTER IFF");
    expect(&mut l, "LETTER", TokenKind::IDENT);
    expect(&mut l, "IFF", TokenKind::IDENT);
}

#[test]
fn names_of_kinds_that_are_no_keywords_are_identifiers() {
    let mut l = lexer("EOF PLUS NUMBER IDENT NONE");
    expect(&mut l, "EOF", TokenKind::IDENT);
    expect(&mut l, "PLUS", TokenKind::IDENT);
    expect(&mut l, "NUMBER", TokenKind::IDENT);
    expect(&mut l, "IDENT", TokenKind::IDENT);
    expect(&mut l, "NONE", TokenKind::IDENT);
}

#[test]
fn identifiers_are_letters_only() {
    let mut l = lexer("ab1 x_y");
    expect(&mut l, "ab", TokenKind::IDENT);
    expect(&mut l, "1", TokenKind::NUMBER);
    expect(&mut l, "x", TokenKind::IDENT);
    assert_eq!(l.get_token(), Err(LexError::UnknownChar { found: '_' }));
}

#[test]
fn letters_and_digits_beyond_ascii_count() {
    let mut l = lexer("\u{e9}t\u{e9} \u{663}");
    expect(&mut l, "\u{e9}t\u{e9}", TokenKind::IDENT);
    expect(&mut l, "\u{663}", TokenKind::NUMBER);
}

#[test]
fn a_digit_run_ends_at_a_letter() {
    let mut l = lexer("12ab");
    expect(&mut l, "12", TokenKind::NUMBER);
    expect(&mut l, "ab", TokenKind::IDENT);
}

#[test]
fn blanks_between_tokens_are_skipped() {
    let mut l = lexer("  LET \t a\r =  1 ");
    expect(&mut l, "LET", TokenKind::LET);
    expect(&mut l, "a", TokenKind::IDENT);
    expect(&mut l, "=", TokenKind::EQ);
    expect(&mut l, "1", TokenKind::NUMBER);
    expect(&mut l, "\n", TokenKind::NEWLINE);
    expect(&mut l, "\0", TokenKind::EOF);
}

#[test]
fn a_comment_runs_to_the_line_feed_which_is_a_token() {
    let mut l = lexer("+ # minus - here\n-");
    expect(&mut l, "+", TokenKind::PLUS);
    expect(&mut l, "\n", TokenKind::NEWLINE);
    expect(&mut l, "-", TokenKind::MINUS);
}

#[test]
fn a_comment_on_the_last_line_ends_at_the_sentinel() {
    let mut l = lexer("# only a comment");
    expect(&mut l, "\n", TokenKind::NEWLINE);
    expect(&mut l, "\0", TokenKind::EOF);
}

#[test]
fn an_unknown_character_is_an_error() {
    let mut l = lexer("  @");
    assert_eq!(l.get_token(), Err(LexError::UnknownChar { found: '@' }));
    assert_eq!(l.cur_pos, 2);
}

#[test]
fn lex_error_messages() {
    assert_eq!(
        LexError::ExpectedNotEq { found: 'x' }.message(),
        "Lexing error. Expected !=, got !x"
    );
    assert_eq!(LexError::IllegalStringChar.message(), "Illegal character in string.");
    assert_eq!(LexError::IllegalNumberChar.message(), "Illegal character in number.");
    assert_eq!(LexError::UnknownChar { found: '@' }.message(), "Lexing error. @");
}

#[test]
fn check_if_keyword_finds_keywords_only() {
    assert_eq!(Token::check_if_keyword(&String::from("LABEL")), Some(TokenKind::LABEL));
    assert_eq!(Token::check_if_keyword(&String::from("ENDWHILE")), Some(TokenKind::ENDWHILE));
    assert_eq!(Token::check_if_keyword(&String::from("WHILE")), Some(TokenKind::WHILE));
    assert_eq!(Token::check_if_keyword(&String::from("while")), None);
    assert_eq!(Token::check_if_keyword(&String::from("EOF")), None);
    assert_eq!(Token::check_if_keyword(&String::from("GTEQ")), None);
    assert_eq!(Token::check_if_keyword(&String::from("STRING")), None);
    assert_eq!(Token::check_if_keyword(&String::from("")), None);
    assert_eq!(Token::check_if_keyword(&String::from("LET ")), None);
}

#[test]
fn the_table_lists_each_kind_once() {
    let table = TokenKind::all();
    assert_eq!(table.len(), 29);
    for (i, a) in table.iter().enumerate() {
        for b in table.iter().skip(i + 1) {
            assert_ne!(a, b);
            assert_ne!(a.name(), b.name());
        }
    }
}

#[test]
fn keywords_are_the_eleven_between_label_and_endwhile() {
    let keywords: Vec<&str> = TokenKind::all()
        .iter()
        .filter(|k| k.is_keyword())
        .map(|k| k.name())
        .collect();
    assert_eq!(
        keywords,
        vec![
            "LABEL", "GOTO", "PRINT", "INPUT", "LET", "IF", "THEN", "ENDIF", "WHILE", "REPEAT",
            "ENDWHILE"
        ]
    );
}

#[test]
fn the_kinds_fall_into_four_bands() {
    let bands: Vec<TokenBand> = TokenKind::all().iter().map(|k| k.band()).collect();
    let mut expected = vec![TokenBand::Control; 3];
    expected.extend(vec![TokenBand::Structure; 4]);
    expected.extend(vec![TokenBand::Keyword; 11]);
    expected.extend(vec![TokenBand::Operator; 11]);
    assert_eq!(bands, expected);
    assert_eq!(TokenKind::EOF.band(), TokenBand::Control);
    assert_eq!(TokenKind::STRING.band(), TokenBand::Structure);
    assert_eq!(TokenKind::ENDWHILE.band(), TokenBand::Keyword);
    assert_eq!(TokenKind::EQ.band(), TokenBand::Operator);
}

#[test]
fn names_of_kinds() {
    assert_eq!(TokenKind::NONE.name(), "NONE");
    assert_eq!(TokenKind::LEX_ERR.name(), "LEX_ERR");
    assert_eq!(TokenKind::EOF.name(), "EOF");
    assert_eq!(TokenKind::NEWLINE.name(), "NEWLINE");
    assert_eq!(TokenKind::ASTERISK.name(), "ASTERISK");
    assert_eq!(TokenKind::NOTEQ.name(), "NOTEQ");
}

#[test]
fn a_cloned_token_equals_its_source() {
    let t = Token { text: String::from("abc"), token_type: TokenKind::IDENT };
    assert_eq!(t.clone(), t);
}
