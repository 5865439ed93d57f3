use teenytiny::emit::Emitter;
use teenytiny::error::ParseError;
use teenytiny::lex::{LexError, Lexer, Token, TokenKind};
use teenytiny::parse::{contains_name, room_to_parse, Parser};

const DIRECTIVE: &str = "#include <stdio.h>\n";
const ENTRY: &str = "int main(void){\n";
const EPILOGUE: &str = "return 0;\n}\n";

fn emitter() -> Emitter {
    Emitter::new(String::from("out.c"))
}

fn parser<'a>(src: &str, em: &'a mut Emitter) -> Parser<'a> {
    Parser::new(Lexer::new(String::from(src)), em).unwrap()
}

/// Header and body of a program that parses.
fn parts(src: &str) -> (String, String) {
    let mut em = emitter();
    let mut p = parser(src, &mut em);
    p.program().unwrap();
    (em.header, em.code)
}

/// Body of a program that parses, without the epilogue.
fn statements(src: &str) -> String {
    let (_, body) = parts(src);
    assert!(body.ends_with(EPILOGUE));
    String::from(&body[..body.len() - EPILOGUE.len()])
}

fn failure(src: &str) -> ParseError {
    let mut em = emitter();
    match Parser::new(Lexer::new(String::from(src)), &mut em) {
        Ok(mut p) => p.program().unwrap_err(),
        Err(e) => e,
    }
}

fn tok(text: &str, kind: TokenKind) -> Token {
    Token { text: String::from(text), token_type: kind }
}

#[test]
fn new_reads_two_tokens_of_lookahead() {
    let mut em = emitter();
    let p = parser("LET a = 1", &mut em);
    assert_eq!(p.cur_token, tok("LET", TokenKind::LET));
    assert_eq!(p.peek_token, tok("a", TokenKind::IDENT));
    assert_eq!(p.lexer.cur_pos, 5);
    assert!(p.symbols.is_empty());
    assert!(p.labels_declared.is_empty());
    assert!(p.labels_gotoed.is_empty());
    assert_eq!(p.emitter.output(), "");
}

#[test]
fn the_cursor_goes_two_past_the_end_in_a_whole_parse() {
    let mut em = emitter();
    let mut p = parser("PRINT 1\n", &mut em);
    assert_eq!(p.program(), Ok(()));
    assert_eq!(p.lexer.source.len(), 9);
    assert_eq!(p.lexer.cur_pos, 11);
    assert_eq!(p.cur_token, tok("\0", TokenKind::EOF));
    assert_eq!(p.peek_token, tok("\0", TokenKind::EOF));
}

#[test]
fn room_to_parse_asks_for_two_positions_past_the_text_and_the_cursor() {
    let em = emitter();
    let mut lx = Lexer::new(String::from("PRINT 1\n"));
    assert!(room_to_parse(&lx, &em));
    lx.cur_pos = i32::MAX - 2;
    lx.cur_char = '\0';
    assert!(room_to_parse(&lx, &em));
    lx.cur_pos = i32::MAX - 1;
    assert!(!room_to_parse(&lx, &em));
    lx.cur_pos = i32::MAX;
    assert!(!room_to_parse(&lx, &em));
}

#[test]
fn a_parser_may_start_past_the_end_of_the_text() {
    let mut em = emitter();
    let mut lx = Lexer::new(String::from("PRINT 1\n"));
    lx.cur_pos = i32::MAX - 2;
    lx.cur_char = '\0';
    let mut p = Parser::new(lx, &mut em).unwrap();
    assert_eq!(p.lexer.cur_pos, i32::MAX);
    assert_eq!(p.cur_token, tok("\0", TokenKind::EOF));
    assert_eq!(p.program(), Ok(()));
    assert_eq!(p.lexer.cur_pos, i32::MAX);
}

#[test]
fn new_on_empty_text_sees_the_sentinel_and_the_end() {
    let mut em = emitter();
    let p = parser("", &mut em);
    assert_eq!(p.cur_token, tok("\n", TokenKind::NEWLINE));
    assert_eq!(p.peek_token, tok("\0", TokenKind::EOF));
}

#[test]
fn new_fails_on_a_lexical_error_in_the_first_token() {
    let mut em = emitter();
    let r = Parser::new(Lexer::new(String::from("@")), &mut em);
    assert_eq!(r.err(), Some(ParseError::Lex(LexError::UnknownChar { found: '@' })));
    assert_eq!(em.output(), "");
}

#[test]
fn new_fails_on_a_lexical_error_in_the_second_token() {
    let mut em = emitter();
    let r = Parser::new(Lexer::new(String::from("PRINT 1.")), &mut em);
    assert_eq!(r.err(), Some(ParseError::Lex(LexError::IllegalNumberChar)));
}

#[test]
fn check_token_and_check_peek_compare_kinds() {
    let mut em = emitter();
    let p = parser("GOTO x", &mut em);
    assert!(p.check_token(&TokenKind::GOTO));
    assert!(!p.check_token(&TokenKind::IDENT));
    assert!(p.check_peek(TokenKind::IDENT));
    assert!(!p.check_peek(TokenKind::GOTO));
}

#[test]
fn next_token_slides_the_window() {
    let mut em = emitter();
    let mut p = parser("a + b", &mut em);
    p.next_token().unwrap();
    assert_eq!(p.cur_token, tok("+", TokenKind::PLUS));
    assert_eq!(p.peek_token, tok("b", TokenKind::IDENT));
    p.next_token().unwrap();
    assert_eq!(p.cur_token, tok("b", TokenKind::IDENT));
    assert_eq!(p.peek_token, tok("\n", TokenKind::NEWLINE));
    p.next_token().unwrap();
    p.next_token().unwrap();
    p.next_token().unwrap();
    assert_eq!(p.cur_token, tok("\0", TokenKind::EOF));
    assert_eq!(p.peek_token, tok("\0", TokenKind::EOF));
}

#[test]
fn next_token_reports_the_lexical_error_of_the_token_it_fetches() {
    let mut em = emitter();
    let mut p = parser("a + !", &mut em);
    assert_eq!(
        p.next_token(),
        Err(ParseError::Lex(LexError::ExpectedNotEq { found: '\n' }))
    );
}

#[test]
fn match_token_consumes_a_token_of_the_kind() {
    let mut em = emitter();
    let mut p = parser("THEN 1", &mut em);
    assert_eq!(p.match_token(&TokenKind::THEN), Ok(()));
    assert_eq!(p.cur_token, tok("1", TokenKind::NUMBER));
}

#[test]
fn match_token_names_both_kinds_when_they_differ() {
    let mut em = emitter();
    let mut p = parser("THEN 1", &mut em);
    assert_eq!(
        p.match_token(&TokenKind::REPEAT),
        Err(ParseError::Expected { expected: TokenKind::REPEAT, found: TokenKind::THEN })
    );
    assert_eq!(p.cur_token, tok("THEN", TokenKind::THEN));
}

#[test]
fn nl_takes_a_run_of_line_feeds() {
    let mut em = emitter();
    let mut p = parser("\n\n\nPRINT 1", &mut em);
    assert_eq!(p.nl(), Ok(()));
    assert_eq!(p.cur_token, tok("PRINT", TokenKind::PRINT));
}

#[test]
fn nl_needs_at_least_one_line_feed() {
    let mut em = emitter();
    let mut p = parser("PRINT 1", &mut em);
    assert_eq!(
        p.nl(),
        Err(ParseError::Expected { expected: TokenKind::NEWLINE, found: TokenKind::PRINT })
    );
}

#[test]
fn primary_transcribes_a_number() {
    let mut em = emitter();
    let mut p = parser("4.5 x", &mut em);
    assert_eq!(p.primary(), Ok(()));
    assert_eq!(p.cur_token, tok("x", TokenKind::IDENT));
    assert_eq!(em.code, "4.5");
}

#[test]
fn primary_transcribes_a_declared_variable() {
    let mut em = emitter();
    let mut p = parser("x", &mut em);
    p.symbols.push(String::from("x"));
    assert_eq!(p.primary(), Ok(()));
    assert_eq!(em.code, "x");
}

#[test]
fn primary_rejects_an_undeclared_variable() {
    let mut em = emitter();
    let mut p = parser("x", &mut em);
    p.symbols.push(String::from("y"));
    assert_eq!(p.primary(), Err(ParseError::UndeclaredVariable { name: String::from("x") }));
    assert_eq!(em.code, "");
}

#[test]
fn primary_rejects_anything_else() {
    let mut em = emitter();
    let mut p = parser("\"s\"", &mut em);
    assert_eq!(p.primary(), Err(ParseError::UnexpectedToken { text: String::from("s") }));
}

#[test]
fn unary_takes_one_optional_sign() {
    let mut em = emitter();
    let mut p = parser("-3 +4 5", &mut em);
    assert_eq!(p.unary(), Ok(()));
    assert_eq!(p.unary(), Ok(()));
    assert_eq!(p.unary(), Ok(()));
    assert_eq!(p.cur_token, tok("\n", TokenKind::NEWLINE));
    assert_eq!(em.code, "-3+45");
}

#[test]
fn unary_rejects_a_second_sign() {
    let mut em = emitter();
    let mut p = parser("--3", &mut em);
    assert_eq!(p.unary(), Err(ParseError::UnexpectedToken { text: String::from("-") }));
}

#[test]
fn term_takes_products_and_quotients() {
    let mut em = emitter();
    let mut p = parser("2 * 3 / -4 + 5", &mut em);
    assert_eq!(p.term(), Ok(()));
    assert_eq!(p.cur_token, tok("+", TokenKind::PLUS));
    assert_eq!(em.code, "2*3/-4");
}

#[test]
fn expression_takes_sums_of_terms() {
    let mut em = emitter();
    let mut p = parser("1 + 2 * 3 - 4 / 5 > 6", &mut em);
    assert_eq!(p.expression(), Ok(()));
    assert_eq!(p.cur_token, tok(">", TokenKind::GT));
    assert_eq!(em.code, "1+2*3-4/5");
}

#[test]
fn expression_of_one_operand_has_no_operator() {
    let mut em = emitter();
    let mut p = parser("7", &mut em);
    assert_eq!(p.expression(), Ok(()));
    assert_eq!(em.code, "7");
}

#[test]
fn expression_fails_on_a_dangling_operator() {
    let mut em = emitter();
    let mut p = parser("1 +", &mut em);
    assert_eq!(p.expression(), Err(ParseError::UnexpectedToken { text: String::from("\n") }));
}

#[test]
fn is_comparison_operator_knows_the_six() {
    for (src, expected) in [
        (">", true),
        (">=", true),
        ("<", true),
        ("<=", true),
        ("==", true),
        ("!=", true),
        ("=", false),
        ("+", false),
        ("x", false),
        ("THEN", false),
    ] {
        let mut em = emitter();
        let p = parser(src, &mut em);
        assert_eq!(p.is_comparison_operator(), expected, "{}", src);
    }
}

#[test]
fn comparison_needs_an_operator() {
    let mut em = emitter();
    let mut p = parser("1 + 2 THEN", &mut em);
    assert_eq!(
        p.comparison(),
        Err(ParseError::ExpectedComparison { text: String::from("THEN") })
    );
}

#[test]
fn comparison_may_chain_operators() {
    let mut em = emitter();
    let mut p = parser("1 < 2 <= 3 == 3 != 4 >= 4 > 0 THEN", &mut em);
    assert_eq!(p.comparison(), Ok(()));
    assert_eq!(p.cur_token, tok("THEN", TokenKind::THEN));
    assert_eq!(em.code, "1<2<=3==3!=4>=4>0");
}

#[test]
fn statement_print_string() {
    let mut em = emitter();
    let mut p = parser("PRINT \"hello, world\"\nPRINT 1", &mut em);
    assert_eq!(p.statement(), Ok(()));
    assert_eq!(p.cur_token, tok("PRINT", TokenKind::PRINT));
    assert_eq!(em.code, "printf(\"hello, world\");\nprintf(\"\\n\");\n");
    assert_eq!(em.header, "");
}

#[test]
fn statement_print_empty_string() {
    let mut em = emitter();
    let mut p = parser("PRINT \"\"\n", &mut em);
    assert_eq!(p.statement(), Ok(()));
    assert_eq!(em.code, "printf(\"\");\nprintf(\"\\n\");\n");
}

#[test]
fn statement_print_puts_the_text_of_the_token_between_quotes() {
    let mut em = emitter();
    let mut p = parser("PRINT \"x\"\n", &mut em);
    p.peek_token.text = String::from("other text");
    assert_eq!(p.statement(), Ok(()));
    assert_eq!(em.code, "printf(\"other text\");\nprintf(\"\\n\");\n");
}

#[test]
fn statement_print_expression() {
    let mut em = emitter();
    let mut p = parser("PRINT 1 + 2\n", &mut em);
    assert_eq!(p.statement(), Ok(()));
    assert_eq!(em.code, "printf(\"%.2f\", (float)(1+2));\n");
}

#[test]
fn statement_let_declares_once_and_assigns_each_time() {
    let mut em = emitter();
    let mut p = parser("LET a = 1\nLET a = a + 1\nLET b = a\n", &mut em);
    assert_eq!(p.statement(), Ok(()));
    assert_eq!(p.symbols, vec![String::from("a")]);
    assert_eq!(p.statement(), Ok(()));
    assert_eq!(p.symbols, vec![String::from("a")]);
    assert_eq!(p.statement(), Ok(()));
    assert_eq!(p.symbols, vec![String::from("a"), String::from("b")]);
    assert_eq!(em.header, "float a;\nfloat b;\n");
    assert_eq!(em.code, "a = 1;\na = a+1;\nb = a;\n");
}

#[test]
fn statement_let_may_read_its_own_target() {
    assert_eq!(statements("LET a = a\n"), "a = a;\n");
}

#[test]
fn statement_input_reads_with_a_guard() {
    let mut em = emitter();
    let mut p = parser("INPUT n\nINPUT n\n", &mut em);
    assert_eq!(p.statement(), Ok(()));
    assert_eq!(p.statement(), Ok(()));
    assert_eq!(p.symbols, vec![String::from("n")]);
    assert_eq!(em.header, "float n;\n");
    let read = "if(0 == scanf(\"%f\", &n)) {\nn = 0;\nscanf(\"%*s\");\n}\n";
    assert_eq!(em.code, format!("{}{}", read, read));
}

#[test]
fn statement_label_and_goto() {
    let mut em = emitter();
    let mut p = parser("LABEL top\nGOTO top\nGOTO top\nGOTO end\n", &mut em);
    assert_eq!(p.statement(), Ok(()));
    assert_eq!(p.statement(), Ok(()));
    assert_eq!(p.statement(), Ok(()));
    assert_eq!(p.statement(), Ok(()));
    assert_eq!(p.labels_declared, vec![String::from("top")]);
    assert_eq!(p.labels_gotoed, vec![String::from("top"), String::from("end")]);
    assert_eq!(em.code, "top:\ngoto top;\ngoto top;\ngoto end;\n");
}

#[test]
fn statement_goto_of_an_unknown_label_succeeds() {
    let mut em = emitter();
    let mut p = parser("GOTO nowhere\n", &mut em);
    assert_eq!(p.statement(), Ok(()));
    assert_eq!(p.cur_token, tok("\0", TokenKind::EOF));
}

#[test]
fn statement_if_wraps_its_block() {
    assert_eq!(
        statements("IF 1 > 0 THEN\nPRINT \"hi\"\nENDIF\n"),
        "if(1>0){\nprintf(\"hi\");\nprintf(\"\\n\");\n}\n"
    );
}

#[test]
fn statement_if_with_an_empty_block() {
    assert_eq!(statements("IF 1 == 1 THEN\nENDIF\n"), "if(1==1){\n}\n");
}

#[test]
fn statement_while_wraps_its_block() {
    assert_eq!(
        statements("LET n = 3\nWHILE n > 0 REPEAT\nLET n = n - 1\nENDWHILE\n"),
        "n = 3;\nwhile(n>0){\nn = n-1;\n}\n"
    );
}

#[test]
fn statements_nest() {
    let src = "LET a = 0\nWHILE a < 3 REPEAT\nIF a != 1 THEN\nPRINT a\nWHILE 0 > 1 REPEAT\nENDWHILE\nENDIF\nLET a = a + 1\nENDWHILE\n";
    assert_eq!(
        statements(src),
        "a = 0;\nwhile(a<3){\nif(a!=1){\nprintf(\"%.2f\", (float)(a));\nwhile(0>1){\n}\n}\na = a+1;\n}\n"
    );
}

#[test]
fn a_variable_declared_inside_a_block_is_known_after_it() {
    let (header, body) = parts("IF 1 > 0 THEN\nLET x = 1\nENDIF\nPRINT x\n");
    assert_eq!(header, format!("{}float x;\n{}", DIRECTIVE, ENTRY));
    assert_eq!(
        body,
        format!("if(1>0){{\nx = 1;\n}}\nprintf(\"%.2f\", (float)(x));\n{}", EPILOGUE)
    );
}

#[test]
fn statement_rejects_a_token_that_starts_none() {
    assert_eq!(
        failure("3\n"),
        ParseError::InvalidStatement { text: String::from("3"), kind: TokenKind::NUMBER }
    );
    assert_eq!(
        failure("x = 1\n"),
        ParseError::InvalidStatement { text: String::from("x"), kind: TokenKind::IDENT }
    );
    assert_eq!(
        failure("ENDIF\n"),
        ParseError::InvalidStatement { text: String::from("ENDIF"), kind: TokenKind::ENDIF }
    );
}

#[test]
fn a_block_that_is_never_closed_ends_in_an_invalid_statement() {
    assert_eq!(
        failure("IF 1 > 0 THEN\nPRINT 1\n"),
        ParseError::InvalidStatement { text: String::from("\0"), kind: TokenKind::EOF }
    );
}

#[test]
fn a_block_closed_by_the_wrong_keyword_is_an_invalid_statement() {
    assert_eq!(
        failure("IF 1 > 0 THEN\nENDWHILE\n"),
        ParseError::InvalidStatement { text: String::from("ENDWHILE"), kind: TokenKind::ENDWHILE }
    );
}

#[test]
fn missing_keywords_and_operators_are_syntax_errors() {
    assert_eq!(
        failure("IF 1 > 0\nPRINT 1\nENDIF\n"),
        ParseError::Expected { expected: TokenKind::THEN, found: TokenKind::NEWLINE }
    );
    assert_eq!(
        failure("WHILE 1 > 0 THEN\nENDWHILE\n"),
        ParseError::Expected { expected: TokenKind::REPEAT, found: TokenKind::THEN }
    );
    assert_eq!(
        failure("LET a 3\n"),
        ParseError::Expected { expected: TokenKind::EQ, found: TokenKind::NUMBER }
    );
    assert_eq!(
        failure("LET 3 = 3\n"),
        ParseError::Expected { expected: TokenKind::IDENT, found: TokenKind::NUMBER }
    );
    assert_eq!(
        failure("LABEL 3\n"),
        ParseError::Expected { expected: TokenKind::IDENT, found: TokenKind::NUMBER }
    );
    assert_eq!(
        failure("GOTO\n"),
        ParseError::Expected { expected: TokenKind::IDENT, found: TokenKind::NEWLINE }
    );
    assert_eq!(
        failure("INPUT \"s\"\n"),
        ParseError::Expected { expected: TokenKind::IDENT, found: TokenKind::STRING }
    );
}

#[test]
fn a_missing_line_feed_between_statements_is_a_syntax_error() {
    assert_eq!(
        failure("PRINT 1 PRINT 2\n"),
        ParseError::Expected { expected: TokenKind::NEWLINE, found: TokenKind::PRINT }
    );
    assert_eq!(
        failure("IF 1 > 0 THEN PRINT 1\nENDIF\n"),
        ParseError::Expected { expected: TokenKind::NEWLINE, found: TokenKind::PRINT }
    );
}

#[test]
fn a_variable_read_before_its_declaration_is_an_error() {
    let undeclared = ParseError::UndeclaredVariable { name: String::from("x") };
    assert_eq!(failure("PRINT x\n"), undeclared);
    assert_eq!(failure("LET a = 1 + x\n"), undeclared);
    assert_eq!(failure("LET a = 1\nLET b = a * -x\n"), undeclared);
    assert_eq!(failure("IF 1 > x THEN\nENDIF\n"), undeclared);
    assert_eq!(failure("WHILE x > 1 REPEAT\nENDWHILE\n"), undeclared);
    assert_eq!(failure("LET a = 1\nIF a > 0 THEN\nPRINT x\nENDIF\nLET x = 2\n"), undeclared);
    assert_eq!(failure("PRINT x\nINPUT x\n"), undeclared);
}

#[test]
fn a_label_is_no_variable() {
    assert_eq!(
        failure("LABEL x\nPRINT x\n"),
        ParseError::UndeclaredVariable { name: String::from("x") }
    );
}

#[test]
fn a_label_declared_twice_is_an_error() {
    let duplicate = ParseError::DuplicateLabel { name: String::from("a") };
    assert_eq!(failure("LABEL a\nLABEL a\n"), duplicate);
    assert_eq!(failure("LABEL a\nLABEL b\nPRINT 1\nLABEL a\n"), duplicate);
    assert_eq!(failure("LABEL a\nIF 1 > 0 THEN\nLABEL a\nENDIF\n"), duplicate);
    assert_eq!(failure("WHILE 1 > 0 REPEAT\nLABEL a\nENDWHILE\nLABEL a\n"), duplicate);
}

#[test]
fn a_goto_without_its_label_fails_at_the_end_of_the_program() {
    assert_eq!(
        failure("GOTO nowhere\nPRINT 1\n"),
        ParseError::UndeclaredLabel { name: String::from("nowhere") }
    );
    assert_eq!(
        failure("LABEL a\nGOTO a\nGOTO b\nGOTO c\n"),
        ParseError::UndeclaredLabel { name: String::from("b") }
    );
}

#[test]
fn a_fault_after_the_goto_is_found_before_the_missing_label() {
    assert_eq!(
        failure("GOTO nowhere\nPRINT\n"),
        ParseError::UnexpectedToken { text: String::from("\n") }
    );
    assert_eq!(
        failure("GOTO nowhere\nPRINT y\n"),
        ParseError::UndeclaredVariable { name: String::from("y") }
    );
    assert_eq!(
        failure("GOTO nowhere\nPRINT 1\n@\n"),
        ParseError::Lex(LexError::UnknownChar { found: '@' })
    );
}

#[test]
fn a_goto_may_come_before_its_label() {
    let mut em = emitter();
    let mut p = parser("GOTO skip\nPRINT 1\nLABEL skip\n", &mut em);
    assert_eq!(p.program(), Ok(()));
    assert_eq!(p.labels_gotoed, vec![String::from("skip")]);
    assert_eq!(p.labels_declared, vec![String::from("skip")]);
    assert_eq!(
        em.code,
        format!("goto skip;\nprintf(\"%.2f\", (float)(1));\nskip:\n{}", EPILOGUE)
    );
}

#[test]
fn a_lexical_error_surfaces_when_the_parser_reaches_it() {
    assert_eq!(
        failure("LABEL a\nLABEL a\n@\n"),
        ParseError::DuplicateLabel { name: String::from("a") }
    );
    assert_eq!(
        failure("LABEL a\nLABEL b\n@\n"),
        ParseError::Lex(LexError::UnknownChar { found: '@' })
    );
}

#[test]
fn a_token_after_an_embedded_end_of_input_is_still_lexed() {
    assert_eq!(
        failure("PRINT 1\n\0!"),
        ParseError::Lex(LexError::ExpectedNotEq { found: '\n' })
    );
    assert_eq!(statements("PRINT 1\n\0PRINT 2\n"), "printf(\"%.2f\", (float)(1));\n");
}

#[test]
fn program_of_no_statement_is_directive_entry_and_epilogue() {
    let bare = (format!("{}{}", DIRECTIVE, ENTRY), String::from(EPILOGUE));
    assert_eq!(parts(""), bare);
    assert_eq!(parts("\n\n\n"), bare);
    assert_eq!(parts("# nothing here\n"), bare);
}

#[test]
fn program_skips_leading_and_repeated_line_feeds() {
    assert_eq!(
        statements("\n\nLET a = 1\n\n\nPRINT a\n\n"),
        "a = 1;\nprintf(\"%.2f\", (float)(a));\n"
    );
}

#[test]
fn program_declares_variables_in_order_of_first_use() {
    let (header, _) = parts("LET b = 1\nINPUT a\nLET b = 2\nLET c = a\n");
    assert_eq!(header, format!("{}float b;\nfloat a;\nfloat c;\n{}", DIRECTIVE, ENTRY));
}

#[test]
fn program_keeps_what_the_emitter_already_holds() {
    let mut em = emitter();
    em.header_line("// generated");
    em.emit_line("// body");
    let mut p = parser("PRINT 1\n", &mut em);
    assert_eq!(p.program(), Ok(()));
    assert_eq!(em.header, format!("// generated\n{}{}", DIRECTIVE, ENTRY));
    assert_eq!(em.code, format!("// body\nprintf(\"%.2f\", (float)(1));\n{}", EPILOGUE));
    assert_eq!(em.full_path, "out.c");
}

#[test]
fn contains_name_compares_whole_names() {
    let list = vec![String::from("ab"), String::from("c")];
    assert!(contains_name(&list, &String::from("ab")));
    assert!(contains_name(&list, &String::from("c")));
    assert!(!contains_name(&list, &String::from("a")));
    assert!(!contains_name(&list, &String::from("abc")));
    assert!(!contains_name(&Vec::new(), &String::from("")));
}

#[test]
fn parse_error_messages() {
    assert_eq!(
        ParseError::Lex(LexError::IllegalStringChar).message(),
        "Illegal character in string."
    );
    assert_eq!(
        ParseError::Expected { expected: TokenKind::NEWLINE, found: TokenKind::IDENT }.message(),
        "Expected NEWLINE, got IDENT"
    );
    assert_eq!(
        ParseError::InvalidStatement { text: String::from("3"), kind: TokenKind::NUMBER }
            .message(),
        "Invalid statement at 3 (NUMBER)"
    );
    assert_eq!(
        ParseError::ExpectedComparison { text: String::from("THEN") }.message(),
        "Expected comparison operator at: THEN"
    );
    assert_eq!(
        ParseError::UnexpectedToken { text: String::from("+") }.message(),
        "Unexpected token at +"
    );
    assert_eq!(
        ParseError::UndeclaredVariable { name: String::from("x") }.message(),
        "Referencing variable before assignment: x"
    );
    assert_eq!(
        ParseError::DuplicateLabel { name: String::from("top") }.message(),
        "Label already exists: top"
    );
    assert_eq!(
        ParseError::UndeclaredLabel { name: String::from("end") }.message(),
        "Attempting to GOTO to undeclared label: end"
    );
}
