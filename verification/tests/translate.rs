use teenytiny::error::ParseError;
use teenytiny::lex::{LexError, Lexer};
use teenytiny::{translate, translate_from};

fn translated(src: &str) -> String {
    translate(String::from(src)).unwrap()
}

/// The index at which `part` starts in `text` at or after `from`.
fn find_from(text: &str, from: usize, part: &str) -> usize {
    match text[from..].find(part) {
        Some(i) => from + i,
        None => panic!("{:?} is not in {:?} from {}", part, text, from),
    }
}

#[test]
fn let_and_print_give_the_whole_program() {
    let out = translated("LET a = 3\nPRINT a\n");
    assert_eq!(
        out,
        "#include <stdio.h>\nfloat a;\nint main(void){\na = 3;\nprintf(\"%.2f\", (float)(a));\nreturn 0;\n}\n"
    );
    let directive = find_from(&out, 0, "#include <stdio.h>\n");
    let declaration = find_from(&out, directive, "float a;\n");
    let entry = find_from(&out, declaration, "int main(void){\n");
    let assignment = find_from(&out, entry, "a = 3;\n");
    let print = find_from(&out, assignment, "printf(\"%.2f\", (float)(a));\n");
    let epilogue = find_from(&out, print, "return 0;\n}\n");
    assert_eq!(directive, 0);
    assert_eq!(epilogue + "return 0;\n}\n".len(), out.len());
}

#[test]
fn if_wraps_the_print_of_a_string() {
    let out = translated("IF 1 > 0 THEN\nPRINT \"hi\"\nENDIF\n");
    assert_eq!(
        out,
        "#include <stdio.h>\nint main(void){\nif(1>0){\nprintf(\"hi\");\nprintf(\"\\n\");\n}\nreturn 0;\n}\n"
    );
    let open = find_from(&out, 0, "if(1>0){");
    let print = find_from(&out, open, "printf(\"hi\");");
    let close = find_from(&out, print, "}\n");
    assert!(close < find_from(&out, print, "return 0;"));
}

#[test]
fn a_forward_goto_is_legal() {
    let out = translated("GOTO skip\nPRINT \"never\"\nLABEL skip\nPRINT \"done\"\n");
    assert_eq!(
        out,
        "#include <stdio.h>\nint main(void){\ngoto skip;\nprintf(\"never\");\nprintf(\"\\n\");\nskip:\nprintf(\"done\");\nprintf(\"\\n\");\nreturn 0;\n}\n"
    );
    let jump = find_from(&out, 0, "goto skip;\n");
    let never = find_from(&out, jump, "printf(\"never\");");
    let label = find_from(&out, never, "skip:\n");
    find_from(&out, label, "printf(\"done\");");
}

#[test]
fn translating_twice_gives_the_same_text() {
    let src = "INPUT n\nLET s = 0\nWHILE n > 0 REPEAT\nLET s = s + n\nLET n = n - 1\nENDWHILE\nPRINT s\n";
    let first = translate(String::from(src));
    let second = translate(String::from(src));
    assert_eq!(first, second);
    assert_eq!(
        first.unwrap(),
        "#include <stdio.h>\nfloat n;\nfloat s;\nint main(void){\nif(0 == scanf(\"%f\", &n)) {\nn = 0;\nscanf(\"%*s\");\n}\ns = 0;\nwhile(n>0){\ns = s+n;\nn = n-1;\n}\nprintf(\"%.2f\", (float)(s));\nreturn 0;\n}\n"
    );
}

#[test]
fn translating_a_faulty_program_twice_gives_the_same_error() {
    let src = "LET a = 1\nPRINT b\n";
    assert_eq!(translate(String::from(src)), translate(String::from(src)));
}

#[test]
fn translate_from_a_lexer_is_translate_of_its_text() {
    let src = "LET a = 1\nIF a > 0 THEN\nPRINT a\nENDIF\n";
    assert_eq!(translate_from(Lexer::new(String::from(src))), translate(String::from(src)));
}

#[test]
fn translate_from_goes_by_the_marks_of_the_lexer() {
    let chars: Vec<char> = "LET a_b = 1\nPRINT a_b\n".chars().collect();
    let numeric: Vec<bool> = chars.iter().map(|c| c.is_ascii_digit()).collect();
    let alphabetic: Vec<bool> = chars.iter().map(|c| c.is_ascii_alphabetic() || *c == '_').collect();
    let lexer = Lexer::with_classes(chars, numeric, alphabetic).unwrap();
    assert_eq!(
        translate_from(lexer).unwrap(),
        "#include <stdio.h>\nfloat a_b;\nint main(void){\na_b = 1;\nprintf(\"%.2f\", (float)(a_b));\nreturn 0;\n}\n"
    );
}

#[test]
fn translate_from_starts_where_the_lexer_stands() {
    let mut lexer = Lexer::new(String::from("PRINT 1\nPRINT 2\n"));
    for _ in 0..3 {
        lexer.get_token().unwrap();
    }
    assert_eq!(
        translate_from(lexer).unwrap(),
        "#include <stdio.h>\nint main(void){\nprintf(\"%.2f\", (float)(2));\nreturn 0;\n}\n"
    );
}

#[test]
fn the_empty_program() {
    assert_eq!(translated(""), "#include <stdio.h>\nint main(void){\nreturn 0;\n}\n");
}

#[test]
fn a_last_line_without_a_line_feed_is_closed_by_the_sentinel() {
    assert_eq!(translated("PRINT 1"), translated("PRINT 1\n"));
}

#[test]
fn comments_and_blanks_leave_no_trace() {
    assert_eq!(
        translated("# sum\n  LET   a=1 # one\n\tPRINT a\r\n"),
        translated("LET a = 1\nPRINT a\n")
    );
}

#[test]
fn the_average_of_numbers_read_from_input() {
    let src = "# Compute average of given values.\n\nLET a = 0\nWHILE a < 1 REPEAT\n    PRINT \"Enter number of scores: \"\n    INPUT a\nENDWHILE\n\nLET b = 0\nLET s = 0\nPRINT \"Enter one value at a time: \"\nWHILE b < a REPEAT\n    INPUT c\n    LET s = s + c\n    LET b = b + 1\nENDWHILE\n\nPRINT \"Average: \"\nPRINT s / a\n";
    let expected = "#include <stdio.h>\nfloat a;\nfloat b;\nfloat s;\nfloat c;\nint main(void){\na = 0;\nwhile(a<1){\nprintf(\"Enter number of scores: \");\nprintf(\"\\n\");\nif(0 == scanf(\"%f\", &a)) {\na = 0;\nscanf(\"%*s\");\n}\n}\nb = 0;\ns = 0;\nprintf(\"Enter one value at a time: \");\nprintf(\"\\n\");\nwhile(b<a){\nif(0 == scanf(\"%f\", &c)) {\nc = 0;\nscanf(\"%*s\");\n}\ns = s+c;\nb = b+1;\n}\nprintf(\"Average: \");\nprintf(\"\\n\");\nprintf(\"%.2f\", (float)(s/a));\nreturn 0;\n}\n";
    assert_eq!(translated(src), expected);
}

#[test]
fn the_first_fault_is_the_one_reported() {
    assert_eq!(
        translate(String::from("PRINT x\nLABEL a\nLABEL a\n")),
        Err(ParseError::UndeclaredVariable { name: String::from("x") })
    );
    assert_eq!(
        translate(String::from("LABEL a\nLABEL a\nPRINT x\n")),
        Err(ParseError::DuplicateLabel { name: String::from("a") })
    );
    assert_eq!(
        translate(String::from("GOTO z\nLABEL a\nLABEL a\n")),
        Err(ParseError::DuplicateLabel { name: String::from("a") })
    );
    assert_eq!(
        translate(String::from("GOTO z\n")),
        Err(ParseError::UndeclaredLabel { name: String::from("z") })
    );
}

#[test]
fn lexical_errors_stop_the_translation() {
    assert_eq!(
        translate(String::from("LET a = 12.\n")),
        Err(ParseError::Lex(LexError::IllegalNumberChar))
    );
    assert_eq!(
        translate(String::from("PRINT \"100%\"\n")),
        Err(ParseError::Lex(LexError::IllegalStringChar))
    );
    assert_eq!(
        translate(String::from("IF 1 ! 2 THEN\nENDIF\n")),
        Err(ParseError::Lex(LexError::ExpectedNotEq { found: ' ' }))
    );
    assert_eq!(
        translate(String::from("LET a = 1;\n")),
        Err(ParseError::Lex(LexError::UnknownChar { found: ';' }))
    );
}
