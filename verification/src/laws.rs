//! What holds of the lexer and of the grammar on every input.
use crate::alike::{lemma_advance_alike, lemma_program_alike};
use crate::emit::EmitterView;
use crate::error::{ParseError, ParseErrorView};
use crate::faults::{lemma_block_is_no_label_fault, lemma_skip_newlines_is_no_label_fault};
use crate::grammar::{
    declarations, first_missing, lemma_advance, lemma_block, lemma_first_missing, with_name,
    ParserView,
};
use crate::header::{lemma_block_tidy, lemma_skip_newlines_tidy, tidy};
use crate::lex::{
    char_at, forbidden_in_string, lemma_lex_progress, lemma_run_end_bounds, lemma_run_halts,
    lemma_run_is_of_class, lemma_run_stops, lex_at, numeric_at, run_end, token_start, word,
    CharClass, LexError, LexerView, Text, TokenKind, TokenView,
};
use crate::stream::{
    declared_before, end_token, faithful, in_program, is_use, keyword_names, labelled_before,
    lemma_faithful, lemma_program_length, lemma_start_is_faithful, names, program_length,
    stream_fault, token_stream, variables,
};
use crate::walk::walk_program;
use crate::{is_translation, opening, translation_from};
use vstd::prelude::*;

verus! {

/// The kind of the token that `c` forms by itself wherever it stands: the
/// four arithmetic operators, the line feed and NUL, the mark of the end of
/// input.
pub open spec fn fixed_kind(c: char) -> Option<TokenKind> {
    if c == '+' {
        Some(TokenKind::PLUS)
    } else if c == '-' {
        Some(TokenKind::MINUS)
    } else if c == '*' {
        Some(TokenKind::ASTERISK)
    } else if c == '/' {
        Some(TokenKind::SLASH)
    } else if c == '\n' {
        Some(TokenKind::NEWLINE)
    } else if c == '\0' {
        Some(TokenKind::EOF)
    } else {
        None
    }
}

/// The token of the one character `c`, of the kind that `c` fixes.
pub open spec fn fixed_token(c: char) -> TokenView {
    TokenView {
        text: seq![c],
        kind: match fixed_kind(c) {
            Some(kind) => kind,
            None => TokenKind::NONE,
        },
    }
}

/// In a text of operators `+ - * /`, line feeds and NULs alone, every
/// character is a token: the scan at a character yields that character with
/// its fixed kind and stops right behind it.
pub proof fn law_fixed_character(src: Text, pos: int)
    requires
        0 <= pos < src.len(),
        fixed_kind(src.chars[pos]) is Some,
    ensures
        lex_at(src, pos).result == Ok::<TokenView, LexError>(fixed_token(src.chars[pos])),
        lex_at(src, pos).next == pos + 1,
{
    assert(run_end(src, pos, CharClass::Blank) == pos);
}

/// The tokens of a text of operators `+ - * /`, line feeds and NULs alone
/// are its characters, one for one and in order, each with its fixed kind.
pub proof fn law_fixed_characters(src: Text)
    requires
        forall|i: int| 0 <= i < src.len() ==> fixed_kind(#[trigger] src.chars[i]) is Some,
    ensures
        token_stream(src, 0) == src.chars.map_values(|c: char| fixed_token(c)),
{
    lemma_fixed_suffix(src, 0);
    assert(src.chars.subrange(0, src.len() as int) == src.chars);
}

proof fn lemma_fixed_suffix(src: Text, pos: int)
    requires
        0 <= pos <= src.len(),
        forall|i: int| 0 <= i < src.len() ==> fixed_kind(#[trigger] src.chars[i]) is Some,
    ensures
        token_stream(src, pos) == src.chars.subrange(pos, src.len() as int).map_values(
            |c: char| fixed_token(c),
        ),
    decreases src.len() - pos,
{
    let rest = src.chars.subrange(pos, src.len() as int).map_values(|c: char| fixed_token(c));
    if pos < src.len() {
        law_fixed_character(src, pos);
        lemma_fixed_suffix(src, pos + 1);
        let tail = src.chars.subrange(pos + 1, src.len() as int).map_values(
            |c: char| fixed_token(c),
        );
        assert(rest =~= seq![fixed_token(src.chars[pos])] + tail);
    } else {
        assert(rest =~= Seq::empty());
    }
}

/// The operator of two characters that begins with `c` and ends with `=`.
pub open spec fn compound_kind(c: char) -> Option<TokenKind> {
    if c == '=' {
        Some(TokenKind::EQEQ)
    } else if c == '!' {
        Some(TokenKind::NOTEQ)
    } else if c == '<' {
        Some(TokenKind::LTEQ)
    } else if c == '>' {
        Some(TokenKind::GTEQ)
    } else {
        None
    }
}

/// Where `=`, `!`, `<` or `>` begins a token and `=` follows, the token is
/// the compound operator, never the single one: it holds exactly those two
/// characters, and the scan stops right behind them.
pub proof fn law_compound_operator(src: Text, pos: int)
    requires
        compound_kind(char_at(src, token_start(src, pos))) is Some,
        char_at(src, token_start(src, pos) + 1) == '=',
    ensures
        lex_at(src, pos).result matches Ok(t) && t.text == seq![
            char_at(src, token_start(src, pos)),
            '=',
        ] && Some(t.kind) == compound_kind(char_at(src, token_start(src, pos))),
        lex_at(src, pos).next == token_start(src, pos) + 2,
{
    let start = token_start(src, pos);
    assert(src.chars.subrange(start, start + 2) =~= seq![src.chars[start], '=']);
}

/// Whether `c` begins a token that is neither a number nor a word: an
/// operator, a string, a line feed or the end of input.
pub open spec fn punctuation(c: char) -> bool {
    fixed_kind(c) is Some || compound_kind(c) is Some || c == '"'
}

/// A scan fails with `IllegalNumberChar` exactly where a number begins, a
/// decimal point follows its digits, and no digit follows the point.
pub proof fn law_decimal_point_needs_digit(src: Text, pos: int)
    ensures
        lex_at(src, pos).result == Err::<TokenView, LexError>(LexError::IllegalNumberChar) <==> {
            let start = token_start(src, pos);
            let point = run_end(src, start + 1, CharClass::Digit);
            &&& !punctuation(char_at(src, start))
            &&& numeric_at(src, start)
            &&& char_at(src, point) == '.'
            &&& !(point + 1 < src.len() && numeric_at(src, point + 1))
        },
{
    let start = token_start(src, pos);
    let point = run_end(src, start + 1, CharClass::Digit);
    if 0 <= point + 1 < src.len() {
        if numeric_at(src, point + 1) {
            assert(run_end(src, point + 1, CharClass::Digit) == run_end(
                src,
                point + 2,
                CharClass::Digit,
            ));
            lemma_run_end_bounds(src, point + 2, CharClass::Digit);
        }
    }
    if char_at(src, point) == '.' {
        assert(0 <= point);
    }
}

/// In a text that ends with the sentinel, the last line always terminates:
/// the only token that reaches the end of the text is the `NEWLINE` of the
/// sentinel itself; every other token ends before the sentinel.
pub proof fn law_sentinel_ends_the_last_line(src: Text, pos: int)
    requires
        src.is_closed(),
        0 <= pos < src.len(),
    ensures
        lex_at(src, pos).result matches Ok(t) ==> lex_at(src, pos).next < src.len() || (t.kind
            == TokenKind::NEWLINE && token_start(src, pos) == src.len() - 1 && lex_at(
            src,
            pos,
        ).next == src.len()),
{
    let last = src.len() - 1;
    let after_blanks = run_end(src, pos, CharClass::Blank);
    lemma_run_stops(src, pos, CharClass::Blank, last);
    lemma_run_end_bounds(src, pos, CharClass::Blank);
    lemma_run_stops(src, after_blanks, CharClass::Comment, last);
    lemma_run_end_bounds(src, after_blanks, CharClass::Comment);
    let start = token_start(src, pos);
    if start < last {
        lemma_run_stops(src, start + 1, CharClass::Quoted, last);
        lemma_run_stops(src, start + 1, CharClass::Digit, last);
        lemma_run_stops(src, start + 1, CharClass::Letter, last);
        lemma_run_end_bounds(src, start + 1, CharClass::Digit);
        let point = run_end(src, start + 1, CharClass::Digit);
        if point < last {
            lemma_run_stops(src, point + 1, CharClass::Digit, last);
        }
    }
}

/// At the end of the text and past it every scan yields the end of input,
/// however often it is asked, and moves the cursor one on.
pub proof fn law_end_of_input_repeats(src: Text, pos: int)
    requires
        pos >= src.len(),
    ensures
        lex_at(src, pos).result == Ok::<TokenView, LexError>(end_token()),
        lex_at(src, pos).next == pos + 1,
{
    lemma_lex_progress(src, pos);
    assert(seq![char_at(src, pos)] =~= seq!['\0']);
}

/// No scan yields a token of kind `NONE` or `LEX_ERR`: a fault is an error,
/// never a token.
pub proof fn law_tokens_are_classified(src: Text, pos: int)
    ensures
        lex_at(src, pos).result matches Ok(t) ==> t.kind != TokenKind::NONE && t.kind
            != TokenKind::LEX_ERR,
{
    lemma_word_kind(src, token_start(src, pos));
}

/// A word is a keyword or an identifier.
proof fn lemma_word_kind(src: Text, start: int)
    ensures
        word(src, start).result matches Ok(t) && (t.kind.keyword() || t.kind == TokenKind::IDENT),
{
}

/// The text of a string token is what stands between the quotes: no
/// character of it is a quote, a control character, a backslash or a percent
/// sign, and the scan stops two characters behind its end, past both quotes.
pub proof fn law_string_token(src: Text, pos: int)
    ensures
        lex_at(src, pos).result matches Ok(t) ==> (t.kind == TokenKind::STRING ==> {
            &&& char_at(src, token_start(src, pos)) == '"'
            &&& char_at(src, lex_at(src, pos).next - 1) == '"'
            &&& t.text == src.chars.subrange(
                token_start(src, pos) + 1,
                lex_at(src, pos).next - 1,
            )
            &&& token_start(src, pos) + 1 <= lex_at(src, pos).next - 1
            &&& forall|k: int|
                0 <= k < t.text.len() ==> t.text[k] != '"' && !forbidden_in_string(t.text[k])
        }),
{
    let start = token_start(src, pos);
    lemma_word_kind(src, start);
    if let Ok(t) = lex_at(src, pos).result {
        if t.kind == TokenKind::STRING {
            assert(char_at(src, start) == '"');
            let close = run_end(src, start + 1, CharClass::Quoted);
            lemma_run_end_bounds(src, start + 1, CharClass::Quoted);
            assert(char_at(src, close) == '"');
            assert(t.text == src.chars.subrange(start + 1, close));
            assert forall|k: int| 0 <= k < t.text.len() implies t.text[k] != '"'
                && !forbidden_in_string(t.text[k]) by {
                lemma_run_is_of_class(src, start + 1, CharClass::Quoted, start + 1 + k);
            }
        }
    }
}

/// An identifier that is no declared variable stops every production that
/// reads it as an operand, with the error that names it.
pub proof fn law_undeclared_variable(s: ParserView)
    requires
        s.cur.kind == TokenKind::IDENT,
        !s.symbols.contains(s.cur.text),
    ensures
        s.primary() == Err::<ParserView, _>(
            ParseErrorView::UndeclaredVariable { name: s.cur.text },
        ),
        s.unary() == s.primary(),
        s.term() == s.primary(),
        s.expression() == s.primary(),
        s.comparison() == s.primary(),
{
}

/// `primary` reports an undeclared variable only for the identifier under
/// the cursor, and only if the symbols lack it.
pub proof fn law_undeclared_variable_only(s: ParserView, name: Seq<char>)
    requires
        s.primary() == Err::<ParserView, _>(ParseErrorView::UndeclaredVariable { name }),
    ensures
        s.cur.kind == TokenKind::IDENT,
        s.cur.text == name,
        !s.symbols.contains(name),
{
    if s.cur.kind == TokenKind::NUMBER || (s.cur.kind == TokenKind::IDENT && s.symbols.contains(
        s.cur.text,
    )) {
        assert(!(s.transcribe() is Err && s.transcribe()->Err_0 is UndeclaredVariable));
    }
}

/// A `LABEL` statement whose name is already declared stops with the error
/// that names it, provided the token after the name can be lexed.
pub proof fn law_duplicate_label(s: ParserView)
    requires
        s.cur.kind == TokenKind::LABEL,
        s.labels_declared.contains(s.peek.text),
        lex_at(s.lexer.source, s.lexer.pos).result is Ok,
    ensures
        s.statement() == Err::<ParserView, _>(
            ParseErrorView::DuplicateLabel { name: s.peek.text },
        ),
{
}

/// A `LABEL` statement that succeeds declares its name and keeps the labels
/// declared before.
pub proof fn law_label_is_recorded(s: ParserView)
    requires
        s.cur.kind == TokenKind::LABEL,
        s.statement() is Ok,
    ensures
        s.statement()->Ok_0.labels_declared == s.labels_declared.push(s.peek.text),
        !s.labels_declared.contains(s.peek.text),
{
    let t = s.advance()->Ok_0;
    let u = ParserView { labels_declared: t.labels_declared.push(t.cur.text), ..t }.emit_line(
        t.cur.text + ":"@,
    );
    let v = u.expect(TokenKind::IDENT)->Ok_0;
    lemma_nl_keeps_names(v);
}

/// Whether a `GOTO` statement succeeds does not depend on the labels
/// declared so far: it succeeds just as well with none declared.
pub proof fn law_goto_needs_no_label_yet(s: ParserView)
    requires
        s.cur.kind == TokenKind::GOTO,
    ensures
        s.statement() is Ok <==> (ParserView { labels_declared: Seq::empty(), ..s }).statement()
            is Ok,
        s.statement() matches Ok(t) ==> t.labels_gotoed.contains(s.peek.text)
            && t.labels_declared == s.labels_declared,
{
    let bare = ParserView { labels_declared: Seq::empty(), ..s };
    if let Ok(t) = s.advance() {
        let b = bare.advance()->Ok_0;
        assert(b == ParserView { labels_declared: Seq::empty(), ..t });
        let noted = with_name(t.labels_gotoed, t.cur.text);
        assert(noted.contains(t.cur.text)) by {
            if !t.labels_gotoed.contains(t.cur.text) {
                assert(noted[noted.len() - 1] == t.cur.text);
            }
        }
        let u = ParserView { labels_gotoed: noted, ..t }.emit_line("goto "@ + t.cur.text + ";"@);
        let c = ParserView { labels_gotoed: noted, ..b }.emit_line("goto "@ + b.cur.text + ";"@);
        assert(c == ParserView { labels_declared: Seq::empty(), ..u });
        if let Ok(v) = u.expect(TokenKind::IDENT) {
            let d = c.expect(TokenKind::IDENT)->Ok_0;
            assert(d == ParserView { labels_declared: Seq::empty(), ..v });
            lemma_nl_keeps_names(v);
            lemma_nl_keeps_names(d);
            lemma_nl_ignores_names(v, d);
        }
    }
}

/// `skip_newlines` touches neither the names nor the emitted text.
proof fn lemma_skip_newlines_keeps_names(s: ParserView)
    ensures
        s.skip_newlines() matches Ok(t) ==> t.symbols == s.symbols && t.labels_declared
            == s.labels_declared && t.labels_gotoed == s.labels_gotoed && t.emitter == s.emitter,
    decreases s.remaining(),
{
    if s.cur.kind == TokenKind::NEWLINE {
        lemma_advance(s);
        if let Ok(t) = s.advance() {
            lemma_skip_newlines_keeps_names(t);
        }
    }
}

/// `nl` touches neither the names nor the emitted text.
proof fn lemma_nl_keeps_names(s: ParserView)
    ensures
        s.nl() matches Ok(t) ==> t.symbols == s.symbols && t.labels_declared == s.labels_declared
            && t.labels_gotoed == s.labels_gotoed && t.emitter == s.emitter,
{
    if let Ok(t) = s.expect(TokenKind::NEWLINE) {
        lemma_skip_newlines_keeps_names(t);
    }
}

/// Whether `skip_newlines` succeeds depends on the lexer and the window
/// alone.
proof fn lemma_skip_newlines_ignores_names(a: ParserView, b: ParserView)
    requires
        a.lexer == b.lexer,
        a.cur == b.cur,
        a.peek == b.peek,
    ensures
        a.skip_newlines() is Ok <==> b.skip_newlines() is Ok,
    decreases a.remaining(),
{
    if a.cur.kind == TokenKind::NEWLINE {
        lemma_advance(a);
        if let Ok(t) = a.advance() {
            lemma_skip_newlines_ignores_names(t, b.advance()->Ok_0);
        }
    }
}

/// Whether `nl` succeeds depends on the lexer and the window alone.
proof fn lemma_nl_ignores_names(a: ParserView, b: ParserView)
    requires
        a.lexer == b.lexer,
        a.cur == b.cur,
        a.peek == b.peek,
    ensures
        a.nl() is Ok <==> b.nl() is Ok,
{
    if let Ok(t) = a.expect(TokenKind::NEWLINE) {
        lemma_skip_newlines_ignores_names(t, b.expect(TokenKind::NEWLINE)->Ok_0);
    }
}

/// A program fails for a label that no `LABEL` declares only once all of it
/// is parsed: the statements before the end of input were accepted one and
/// all, the label is one that a `GOTO` names, and the declared labels lack it.
pub proof fn law_missing_label_is_found_last(s: ParserView, name: Seq<char>)
    requires
        s.program() == Err::<ParserView, _>(ParseErrorView::UndeclaredLabel { name }),
    ensures
        s.header_line("#include <stdio.h>"@).skip_newlines() matches Ok(t) && (t.block(
            TokenKind::EOF,
        ) matches Ok(u) && {
            &&& u.cur.kind == TokenKind::EOF
            &&& u.labels_gotoed.contains(name)
            &&& !u.labels_declared.contains(name)
            &&& first_missing(u.labels_gotoed, u.labels_declared) == Some(name)
        }),
{
    let entry = s.header_line("#include <stdio.h>"@);
    lemma_skip_newlines_is_no_label_fault(entry);
    if let Ok(t) = entry.skip_newlines() {
        lemma_block_is_no_label_fault(t, TokenKind::EOF);
        lemma_block(t, TokenKind::EOF);
        if let Ok(u) = t.block(TokenKind::EOF) {
            lemma_first_missing(u.labels_gotoed, u.labels_declared);
        }
    }
}

/// The tokens that `lexer` has before it.
pub open spec fn tokens_of(lexer: LexerView) -> Seq<TokenView> {
    token_stream(lexer.source, lexer.pos)
}

/// Where a text translates, its parse ends faithfully at the first end of
/// input among its tokens, with no label missing.
proof fn lemma_translated(lexer: LexerView) -> (end: (ParserView, int))
    requires
        translation_from(lexer) is Ok,
    ensures
        opening(lexer) matches Ok(s) && s.program() == Ok::<ParserView, ParseErrorView>(end.0),
        faithful(end.0, tokens_of(lexer), end.1),
        end.0.cur.kind == TokenKind::EOF,
        first_missing(end.0.labels_gotoed, end.0.labels_declared) is None,
        forall|i: int| in_program(tokens_of(lexer), i) ==> i < end.1,
        forall|i: int| 0 <= i < end.1 ==> in_program(tokens_of(lexer), i),
{
    let tokens = tokens_of(lexer);
    let emitter = EmitterView {
        full_path: Seq::empty(),
        body: Seq::empty(),
        header: Seq::empty(),
    };
    let fresh = ParserView::fresh(lexer, emitter);
    lemma_start_is_faithful(fresh);
    let s = opening(lexer)->Ok_0;
    let m = walk_program(s, tokens, 0);
    let done = s.program()->Ok_0;
    let entry = s.header_line("#include <stdio.h>"@);
    let body = entry.skip_newlines()->Ok_0;
    lemma_block(body, TokenKind::EOF);
    lemma_faithful(done, tokens, m);
    assert forall|i: int| in_program(tokens, i) implies i < m by {
        if m <= i {
            assert(tokens[m].kind != TokenKind::EOF);
        }
    }
    (done, m)
}

/// In a text that translates, every identifier read as an operand before
/// the end of input follows a `LET` or an `INPUT` that declares it. So a
/// variable used before any declaration of its name stops the translation,
/// wherever in the program it stands.
pub proof fn law_variables_are_declared_before_use(lexer: LexerView)
    requires
        translation_from(lexer) is Ok,
    ensures
        forall|i: int|
            in_program(tokens_of(lexer), i) && #[trigger] is_use(tokens_of(lexer), i)
                ==> declared_before(tokens_of(lexer), i, tokens_of(lexer)[i].text),
{
    let (done, m) = lemma_translated(lexer);
    lemma_faithful(done, tokens_of(lexer), m);
}

/// In a text that translates, no two `LABEL` statements before the end of
/// input declare one name. So a label declared twice stops the translation,
/// wherever in the program the two declarations stand.
pub proof fn law_labels_are_declared_once(lexer: LexerView)
    requires
        translation_from(lexer) is Ok,
    ensures
        forall|i: int, j: int, name: Seq<char>|
            #[trigger] keyword_names(tokens_of(lexer), i, TokenKind::LABEL, name)
                && #[trigger] keyword_names(tokens_of(lexer), j, TokenKind::LABEL, name) ==> i
                == j,
{
    let tokens = tokens_of(lexer);
    let (done, m) = lemma_translated(lexer);
    lemma_faithful(done, tokens, m);
    assert forall|i: int, j: int, name: Seq<char>|
        #[trigger] keyword_names(tokens, i, TokenKind::LABEL, name) && #[trigger] keyword_names(
            tokens,
            j,
            TokenKind::LABEL,
            name,
        ) implies i == j by {
        assert(names(tokens, i, m, TokenKind::LABEL, name));
        assert(names(tokens, j, m, TokenKind::LABEL, name));
    }
}

/// In a text that translates, every label that a `GOTO` before the end of
/// input names is declared by a `LABEL` before the end of input, be it
/// before the `GOTO` or after it. So a `GOTO` without its `LABEL` stops the
/// translation.
pub proof fn law_goto_targets_are_declared(lexer: LexerView)
    requires
        translation_from(lexer) is Ok,
    ensures
        forall|j: int, name: Seq<char>| #[trigger]
            keyword_names(tokens_of(lexer), j, TokenKind::GOTO, name) ==> exists|i: int|
                keyword_names(tokens_of(lexer), i, TokenKind::LABEL, name),
{
    let tokens = tokens_of(lexer);
    let (done, m) = lemma_translated(lexer);
    lemma_faithful(done, tokens, m);
    lemma_first_missing(done.labels_gotoed, done.labels_declared);
    assert forall|j: int, name: Seq<char>| #[trigger]
        keyword_names(tokens, j, TokenKind::GOTO, name) implies exists|i: int|
        keyword_names(tokens, i, TokenKind::LABEL, name) by {
        assert(names(tokens, j, m, TokenKind::GOTO, name));
        assert(done.labels_gotoed.contains(name));
        assert(done.labels_declared.contains(name));
        assert(labelled_before(tokens, m, name));
        let i = choose|i: int| names(tokens, i, m, TokenKind::LABEL, name);
        assert(keyword_names(tokens, i, TokenKind::LABEL, name));
    }
}

/// The line that begins every generated program.
pub open spec fn directive() -> Seq<char> {
    "#include <stdio.h>"@.push('\n')
}

/// The line that opens the entry routine.
pub open spec fn entry_opening() -> Seq<char> {
    "int main(void){"@.push('\n')
}

/// The text that closes every generated program.
pub open spec fn epilogue() -> Seq<char> {
    "return 0;"@.push('\n') + "}"@.push('\n')
}

/// The program that declares `declared` and holds `statements`: the
/// include directive, the declarations, the opening of the entry routine,
/// the statements, the epilogue.
pub open spec fn framed(declared: Seq<Seq<char>>, statements: Seq<char>) -> Seq<char> {
    directive() + declarations(declared) + entry_opening() + statements + epilogue()
}

/// A generated program is the include directive, then one declaration for
/// each variable that a `LET` or an `INPUT` of the program declares, each
/// once and in the order of first declaration, then the opening of the entry
/// routine, then the statements, then the epilogue.
pub proof fn law_output_shape(lexer: LexerView)
    requires
        translation_from(lexer) is Ok,
    ensures
        variables(tokens_of(lexer), program_length(tokens_of(lexer))).no_duplicates(),
        exists|statements: Seq<char>|
            translation_from(lexer) == Ok::<Seq<char>, ParseErrorView>(
                #[trigger] framed(
                    variables(tokens_of(lexer), program_length(tokens_of(lexer))),
                    statements,
                ),
            ),
{
    let tokens = tokens_of(lexer);
    let (done, m) = lemma_translated(lexer);
    lemma_faithful(done, tokens, m);
    lemma_program_length(tokens, 0, m);
    let s = opening(lexer)->Ok_0;
    let entry = s.header_line("#include <stdio.h>"@);
    assert(entry.symbols.len() == 0);
    assert(entry.emitter.header =~= directive() + declarations(entry.symbols));
    assert(tidy(entry, directive()));
    lemma_skip_newlines_tidy(entry, directive());
    let t = entry.skip_newlines()->Ok_0;
    lemma_block_tidy(t, TokenKind::EOF, directive());
    let u = t.block(TokenKind::EOF)->Ok_0;
    assert(tidy(u, directive()));
    assert(done == u.header_line("int main(void){"@).emit_line("return 0;"@).emit_line("}"@));
    let statements = u.emitter.body;
    assert(done.emitter.header =~= directive() + declarations(u.symbols) + entry_opening());
    assert(done.emitter.body =~= statements + epilogue());
    assert(done.emitter.output() =~= framed(variables(tokens, m), statements));
    assert(translation_from(lexer) == Ok::<Seq<char>, ParseErrorView>(
        framed(variables(tokens, program_length(tokens)), statements),
    ));
}

/// The parser knows of a text only its tokens. Two texts whose tokens are
/// the same, and end with the same fault or both with the end of the text,
/// translate to the same program or fail with the same fault, whatever
/// blanks and comments set them apart.
pub proof fn law_translation_sees_tokens_only(a: LexerView, b: LexerView)
    requires
        tokens_of(a) == tokens_of(b),
        stream_fault(a.source, a.pos) == stream_fault(b.source, b.pos),
    ensures
        translation_from(a) == translation_from(b),
{
    let emitter = EmitterView {
        full_path: Seq::empty(),
        body: Seq::empty(),
        header: Seq::empty(),
    };
    let fresh_a = ParserView::fresh(a, emitter);
    let fresh_b = ParserView::fresh(b, emitter);
    lemma_advance_alike(fresh_a, fresh_b);
    if let Ok(s) = fresh_a.advance() {
        let t = fresh_b.advance()->Ok_0;
        lemma_advance_alike(s, t);
        if let Ok(u) = s.advance() {
            lemma_program_alike(u, t.advance()->Ok_0);
        }
    }
}

/// Blanks and a comment before a token leave no trace: the scan from before
/// them is the scan from the token's first character.
pub proof fn law_layout_leaves_no_trace(src: Text, pos: int)
    requires
        0 <= pos <= src.len(),
    ensures
        lex_at(src, pos) == lex_at(src, token_start(src, pos)),
{
    let after_blanks = run_end(src, pos, CharClass::Blank);
    let start = token_start(src, pos);
    lemma_run_end_bounds(src, pos, CharClass::Blank);
    lemma_run_end_bounds(src, after_blanks, CharClass::Comment);
    lemma_run_halts(src, pos, CharClass::Blank);
    lemma_run_halts(src, after_blanks, CharClass::Comment);
    assert(run_end(src, start, CharClass::Blank) == start);
}

/// Translating the same text again gives the same program or the same
/// fault: whatever two runs return for one source agrees character for
/// character.
pub proof fn law_translation_repeats(
    source: Seq<char>,
    first: Result<String, ParseError>,
    second: Result<String, ParseError>,
)
    requires
        is_translation(source, first),
        is_translation(source, second),
    ensures
        first matches Ok(a) ==> second matches Ok(b) && a@ == b@,
        first matches Err(e) ==> second matches Err(f) && e@ == f@,
{
}

} // verus!
