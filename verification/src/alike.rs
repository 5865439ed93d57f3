//! Two parses that see the same tokens do the same: the token stream is all
//! that the parser knows of the text.
//!
//! There is one lemma for each production; each follows the production's
//! own definition.
use crate::grammar::{
    comparison_operator, lemma_advance, lemma_compound_head, lemma_expression, lemma_statement,
    lemma_term, lemma_unary, with_name, Parsed, ParserView,
};
use crate::lex::{lemma_lex_progress, TokenKind};
use crate::stream::{stream_fault, token_stream};
use vstd::prelude::*;

verus! {

/// Whether `a` and `b` differ at most in their texts and cursors, and even
/// there have the same tokens before them and the same fault, if any, at the
/// end of these.
pub open spec fn alike(a: ParserView, b: ParserView) -> bool {
    &&& a.cur == b.cur
    &&& a.peek == b.peek
    &&& a.symbols == b.symbols
    &&& a.labels_declared == b.labels_declared
    &&& a.labels_gotoed == b.labels_gotoed
    &&& a.emitter == b.emitter
    &&& token_stream(a.lexer.source, a.lexer.pos) == token_stream(b.lexer.source, b.lexer.pos)
    &&& stream_fault(a.lexer.source, a.lexer.pos) == stream_fault(b.lexer.source, b.lexer.pos)
}

/// Whether `x` and `y` are the same fault, or states that are alike.
pub open spec fn same_outcome(x: Parsed, y: Parsed) -> bool {
    match x {
        Ok(s) => y matches Ok(t) && alike(s, t),
        Err(e) => y matches Err(f) && e == f,
    }
}

/// Sliding the window keeps two states alike.
pub(crate) proof fn lemma_advance_alike(a: ParserView, b: ParserView)
    requires
        alike(a, b),
    ensures
        same_outcome(a.advance(), b.advance()),
{
    lemma_lex_progress(a.lexer.source, a.lexer.pos);
    lemma_lex_progress(b.lexer.source, b.lexer.pos);
    let stream_a = token_stream(a.lexer.source, a.lexer.pos);
    let stream_b = token_stream(b.lexer.source, b.lexer.pos);
    if let Ok(s) = a.advance() {
        if 0 <= a.lexer.pos < a.lexer.source.len() {
            let rest_a = token_stream(s.lexer.source, s.lexer.pos);
            assert(stream_a == seq![s.peek] + rest_a);
            assert(stream_a[0] == s.peek);
            let t = b.advance()->Ok_0;
            let rest_b = token_stream(t.lexer.source, t.lexer.pos);
            assert(stream_b == seq![t.peek] + rest_b);
            assert(stream_b[0] == t.peek);
            assert(rest_a =~= stream_a.subrange(1, stream_a.len() as int));
            assert(rest_b =~= stream_b.subrange(1, stream_b.len() as int));
        } else {
            assert(stream_a.len() == 0);
        }
    }
}

proof fn lemma_emit_alike(a: ParserView, b: ParserView, text: Seq<char>)
    requires
        alike(a, b),
    ensures
        alike(a.emit(text), b.emit(text)),
        alike(a.emit_line(text), b.emit_line(text)),
        alike(a.header_line(text), b.header_line(text)),
        alike(a.declare(text), b.declare(text)),
{
}

proof fn lemma_expect_alike(a: ParserView, b: ParserView, kind: TokenKind)
    requires
        alike(a, b),
    ensures
        same_outcome(a.expect(kind), b.expect(kind)),
        same_outcome(a.transcribe(), b.transcribe()),
{
    lemma_advance_alike(a, b);
    lemma_emit_alike(a, b, a.cur.text);
    lemma_advance_alike(a.emit(a.cur.text), b.emit(b.cur.text));
}

proof fn lemma_skip_newlines_alike(a: ParserView, b: ParserView)
    requires
        alike(a, b),
    ensures
        same_outcome(a.skip_newlines(), b.skip_newlines()),
    decreases a.remaining(),
{
    if a.cur.kind == TokenKind::NEWLINE {
        lemma_advance(a);
        lemma_advance_alike(a, b);
        if let Ok(s) = a.advance() {
            lemma_skip_newlines_alike(s, b.advance()->Ok_0);
        }
    }
}

proof fn lemma_nl_alike(a: ParserView, b: ParserView)
    requires
        alike(a, b),
    ensures
        same_outcome(a.nl(), b.nl()),
{
    lemma_expect_alike(a, b, TokenKind::NEWLINE);
    if let Ok(s) = a.expect(TokenKind::NEWLINE) {
        lemma_skip_newlines_alike(s, b.expect(TokenKind::NEWLINE)->Ok_0);
    }
}

proof fn lemma_primary_alike(a: ParserView, b: ParserView)
    requires
        alike(a, b),
    ensures
        same_outcome(a.primary(), b.primary()),
{
    lemma_expect_alike(a, b, TokenKind::NUMBER);
}

proof fn lemma_unary_alike(a: ParserView, b: ParserView)
    requires
        alike(a, b),
    ensures
        same_outcome(a.unary(), b.unary()),
{
    lemma_primary_alike(a, b);
    lemma_expect_alike(a, b, TokenKind::PLUS);
    if let Ok(s) = a.transcribe() {
        lemma_primary_alike(s, b.transcribe()->Ok_0);
    }
}

proof fn lemma_term_tail_alike(a: ParserView, b: ParserView)
    requires
        alike(a, b),
    ensures
        same_outcome(a.term_tail(), b.term_tail()),
    decreases a.remaining(),
{
    if a.cur.kind == TokenKind::ASTERISK || a.cur.kind == TokenKind::SLASH {
        lemma_expect_alike(a, b, TokenKind::ASTERISK);
        lemma_advance(a.emit(a.cur.text));
        if let Ok(s) = a.transcribe() {
            let t = b.transcribe()->Ok_0;
            lemma_unary_alike(s, t);
            lemma_unary(s);
            if let Ok(u) = s.unary() {
                lemma_term_tail_alike(u, t.unary()->Ok_0);
            }
        }
    }
}

proof fn lemma_term_alike(a: ParserView, b: ParserView)
    requires
        alike(a, b),
    ensures
        same_outcome(a.term(), b.term()),
{
    lemma_unary_alike(a, b);
    if let Ok(s) = a.unary() {
        lemma_term_tail_alike(s, b.unary()->Ok_0);
    }
}

proof fn lemma_expression_tail_alike(a: ParserView, b: ParserView)
    requires
        alike(a, b),
    ensures
        same_outcome(a.expression_tail(), b.expression_tail()),
    decreases a.remaining(),
{
    if a.cur.kind == TokenKind::PLUS || a.cur.kind == TokenKind::MINUS {
        lemma_expect_alike(a, b, TokenKind::PLUS);
        lemma_advance(a.emit(a.cur.text));
        if let Ok(s) = a.transcribe() {
            let t = b.transcribe()->Ok_0;
            lemma_term_alike(s, t);
            lemma_term(s);
            if let Ok(u) = s.term() {
                lemma_expression_tail_alike(u, t.term()->Ok_0);
            }
        }
    }
}

proof fn lemma_expression_alike(a: ParserView, b: ParserView)
    requires
        alike(a, b),
    ensures
        same_outcome(a.expression(), b.expression()),
{
    lemma_term_alike(a, b);
    if let Ok(s) = a.term() {
        lemma_expression_tail_alike(s, b.term()->Ok_0);
    }
}

proof fn lemma_comparison_tail_alike(a: ParserView, b: ParserView)
    requires
        alike(a, b),
    ensures
        same_outcome(a.comparison_tail(), b.comparison_tail()),
    decreases a.remaining(),
{
    if comparison_operator(a.cur.kind) {
        lemma_expect_alike(a, b, TokenKind::GT);
        lemma_advance(a.emit(a.cur.text));
        if let Ok(s) = a.transcribe() {
            let t = b.transcribe()->Ok_0;
            lemma_expression_alike(s, t);
            lemma_expression(s);
            if let Ok(u) = s.expression() {
                lemma_comparison_tail_alike(u, t.expression()->Ok_0);
            }
        }
    }
}

proof fn lemma_comparison_alike(a: ParserView, b: ParserView)
    requires
        alike(a, b),
    ensures
        same_outcome(a.comparison(), b.comparison()),
{
    lemma_expression_alike(a, b);
    if let Ok(s) = a.expression() {
        lemma_comparison_tail_alike(s, b.expression()->Ok_0);
    }
}

proof fn lemma_print_alike(a: ParserView, b: ParserView)
    requires
        alike(a, b),
    ensures
        same_outcome(a.print_statement(), b.print_statement()),
{
    lemma_advance_alike(a, b);
    if let Ok(s) = a.advance() {
        let t = b.advance()->Ok_0;
        if s.cur.kind == TokenKind::STRING {
            let first = "printf(\""@ + s.cur.text + "\");"@;
            lemma_emit_alike(s, t, first);
            lemma_emit_alike(s.emit_line(first), t.emit_line(first), "printf(\"\\n\");"@);
            lemma_advance_alike(
                s.emit_line(first).emit_line("printf(\"\\n\");"@),
                t.emit_line(first).emit_line("printf(\"\\n\");"@),
            );
        } else {
            let open = "printf(\"%.2f\", (float)("@;
            lemma_emit_alike(s, t, open);
            lemma_expression_alike(s.emit(open), t.emit(open));
            if let Ok(u) = s.emit(open).expression() {
                lemma_emit_alike(u, t.emit(open).expression()->Ok_0, "));"@);
            }
        }
    }
}

proof fn lemma_label_alike(a: ParserView, b: ParserView)
    requires
        alike(a, b),
    ensures
        same_outcome(a.label_statement(), b.label_statement()),
{
    lemma_advance_alike(a, b);
    if let Ok(s) = a.advance() {
        let t = b.advance()->Ok_0;
        if !s.labels_declared.contains(s.cur.text) {
            let named_s = ParserView {
                labels_declared: s.labels_declared.push(s.cur.text),
                ..s
            };
            let named_t = ParserView {
                labels_declared: t.labels_declared.push(t.cur.text),
                ..t
            };
            lemma_emit_alike(named_s, named_t, s.cur.text + ":"@);
            lemma_expect_alike(
                named_s.emit_line(s.cur.text + ":"@),
                named_t.emit_line(t.cur.text + ":"@),
                TokenKind::IDENT,
            );
        }
    }
}

proof fn lemma_goto_alike(a: ParserView, b: ParserView)
    requires
        alike(a, b),
    ensures
        same_outcome(a.goto_statement(), b.goto_statement()),
{
    lemma_advance_alike(a, b);
    if let Ok(s) = a.advance() {
        let t = b.advance()->Ok_0;
        let named_s = ParserView { labels_gotoed: with_name(s.labels_gotoed, s.cur.text), ..s };
        let named_t = ParserView { labels_gotoed: with_name(t.labels_gotoed, t.cur.text), ..t };
        let line = "goto "@ + s.cur.text + ";"@;
        lemma_emit_alike(named_s, named_t, line);
        lemma_expect_alike(named_s.emit_line(line), named_t.emit_line(line), TokenKind::IDENT);
    }
}

proof fn lemma_let_alike(a: ParserView, b: ParserView)
    requires
        alike(a, b),
    ensures
        same_outcome(a.let_statement(), b.let_statement()),
{
    lemma_advance_alike(a, b);
    if let Ok(s) = a.advance() {
        let t = b.advance()->Ok_0;
        let name = s.cur.text;
        lemma_emit_alike(s, t, name);
        lemma_emit_alike(s.declare(name), t.declare(name), name + " = "@);
        let named_s = s.declare(name).emit(name + " = "@);
        let named_t = t.declare(name).emit(name + " = "@);
        lemma_expect_alike(named_s, named_t, TokenKind::IDENT);
        if let Ok(u) = named_s.expect(TokenKind::IDENT) {
            let v = named_t.expect(TokenKind::IDENT)->Ok_0;
            lemma_expect_alike(u, v, TokenKind::EQ);
            if let Ok(w) = u.expect(TokenKind::EQ) {
                let x = v.expect(TokenKind::EQ)->Ok_0;
                lemma_expression_alike(w, x);
                if let Ok(y) = w.expression() {
                    lemma_emit_alike(y, x.expression()->Ok_0, ";"@);
                }
            }
        }
    }
}

proof fn lemma_input_alike(a: ParserView, b: ParserView)
    requires
        alike(a, b),
    ensures
        same_outcome(a.input_statement(), b.input_statement()),
{
    lemma_advance_alike(a, b);
    if let Ok(s) = a.advance() {
        let t = b.advance()->Ok_0;
        let name = s.cur.text;
        lemma_emit_alike(s, t, name);
        let read = "if(0 == scanf(\"%f\", &"@ + name + ")) {"@;
        lemma_emit_alike(s.declare(name), t.declare(name), read);
        let s1 = s.declare(name).emit_line(read);
        let t1 = t.declare(name).emit_line(read);
        lemma_emit_alike(s1, t1, name + " = 0;"@);
        let s2 = s1.emit_line(name + " = 0;"@);
        let t2 = t1.emit_line(name + " = 0;"@);
        lemma_emit_alike(s2, t2, "scanf(\"%"@);
        let s3 = s2.emit("scanf(\"%"@);
        let t3 = t2.emit("scanf(\"%"@);
        lemma_emit_alike(s3, t3, "*s\");"@);
        let s4 = s3.emit_line("*s\");"@);
        let t4 = t3.emit_line("*s\");"@);
        lemma_emit_alike(s4, t4, "}"@);
        lemma_expect_alike(s4.emit_line("}"@), t4.emit_line("}"@), TokenKind::IDENT);
    }
}

proof fn lemma_compound_head_alike(a: ParserView, b: ParserView, head: Seq<char>, then: TokenKind)
    requires
        alike(a, b),
    ensures
        same_outcome(a.compound_head(head, then), b.compound_head(head, then)),
{
    lemma_advance_alike(a, b);
    if let Ok(s) = a.advance() {
        let t = b.advance()->Ok_0;
        lemma_emit_alike(s, t, head);
        lemma_comparison_alike(s.emit(head), t.emit(head));
        if let Ok(u) = s.emit(head).comparison() {
            let v = t.emit(head).comparison()->Ok_0;
            lemma_expect_alike(u, v, then);
            if let Ok(w) = u.expect(then) {
                let x = v.expect(then)->Ok_0;
                lemma_nl_alike(w, x);
                if let Ok(y) = w.nl() {
                    lemma_emit_alike(y, x.nl()->Ok_0, "){"@);
                }
            }
        }
    }
}

proof fn lemma_compound_end_alike(a: ParserView, b: ParserView, end: TokenKind)
    requires
        alike(a, b),
    ensures
        same_outcome(a.compound_end(end), b.compound_end(end)),
{
    lemma_expect_alike(a, b, end);
    if let Ok(s) = a.expect(end) {
        lemma_emit_alike(s, b.expect(end)->Ok_0, "}"@);
    }
}

proof fn lemma_compound_alike(
    a: ParserView,
    b: ParserView,
    head: Seq<char>,
    then: TokenKind,
    end: TokenKind,
)
    requires
        alike(a, b),
        a.cur.kind != TokenKind::EOF,
    ensures
        same_outcome(a.compound_head(head, then), b.compound_head(head, then)),
        a.compound_head(head, then) matches Ok(s) ==> {
            let t = b.compound_head(head, then)->Ok_0;
            &&& same_outcome(s.block(end), t.block(end))
            &&& s.block(end) matches Ok(u) ==> {
                let v = t.block(end)->Ok_0;
                &&& same_outcome(u.compound_end(end), v.compound_end(end))
                &&& u.compound_end(end) matches Ok(w) ==> same_outcome(
                    w.nl(),
                    v.compound_end(end)->Ok_0.nl(),
                )
            }
        },
    decreases a.remaining(), 0nat,
{
    lemma_compound_head_alike(a, b, head, then);
    lemma_compound_head(a, head, then);
    if let Ok(s) = a.compound_head(head, then) {
        let t = b.compound_head(head, then)->Ok_0;
        lemma_block_alike(s, t, end);
        if let Ok(u) = s.block(end) {
            let v = t.block(end)->Ok_0;
            lemma_compound_end_alike(u, v, end);
            if let Ok(w) = u.compound_end(end) {
                lemma_nl_alike(w, v.compound_end(end)->Ok_0);
            }
        }
    }
}

proof fn lemma_statement_alike(a: ParserView, b: ParserView)
    requires
        alike(a, b),
    ensures
        same_outcome(a.statement(), b.statement()),
    decreases a.remaining(), 1nat,
{
    match a.cur.kind {
        TokenKind::PRINT => {
            lemma_print_alike(a, b);
            if let Ok(s) = a.print_statement() {
                lemma_nl_alike(s, b.print_statement()->Ok_0);
            }
        },
        TokenKind::IF => {
            lemma_compound_alike(a, b, "if("@, TokenKind::THEN, TokenKind::ENDIF);
        },
        TokenKind::WHILE => {
            lemma_compound_alike(a, b, "while("@, TokenKind::REPEAT, TokenKind::ENDWHILE);
        },
        TokenKind::LABEL => {
            lemma_label_alike(a, b);
            if let Ok(s) = a.label_statement() {
                lemma_nl_alike(s, b.label_statement()->Ok_0);
            }
        },
        TokenKind::GOTO => {
            lemma_goto_alike(a, b);
            if let Ok(s) = a.goto_statement() {
                lemma_nl_alike(s, b.goto_statement()->Ok_0);
            }
        },
        TokenKind::LET => {
            lemma_let_alike(a, b);
            if let Ok(s) = a.let_statement() {
                lemma_nl_alike(s, b.let_statement()->Ok_0);
            }
        },
        TokenKind::INPUT => {
            lemma_input_alike(a, b);
            if let Ok(s) = a.input_statement() {
                lemma_nl_alike(s, b.input_statement()->Ok_0);
            }
        },
        _ => {},
    }
}

proof fn lemma_block_alike(a: ParserView, b: ParserView, end: TokenKind)
    requires
        alike(a, b),
    ensures
        same_outcome(a.block(end), b.block(end)),
    decreases a.remaining(), 2nat,
{
    if a.cur.kind != end {
        lemma_statement_alike(a, b);
        lemma_statement(a);
        lemma_statement(b);
        if let Ok(s) = a.statement() {
            lemma_block_alike(s, b.statement()->Ok_0, end);
        }
    }
}

/// Two programs that see the same tokens come out alike.
pub(crate) proof fn lemma_program_alike(a: ParserView, b: ParserView)
    requires
        alike(a, b),
    ensures
        same_outcome(a.program(), b.program()),
{
    let directive = "#include <stdio.h>"@;
    lemma_emit_alike(a, b, directive);
    lemma_skip_newlines_alike(a.header_line(directive), b.header_line(directive));
    if let Ok(s) = a.header_line(directive).skip_newlines() {
        let t = b.header_line(directive).skip_newlines()->Ok_0;
        lemma_block_alike(s, t, TokenKind::EOF);
        if let Ok(u) = s.block(TokenKind::EOF) {
            let v = t.block(TokenKind::EOF)->Ok_0;
            lemma_emit_alike(u, v, "int main(void){"@);
            let u1 = u.header_line("int main(void){"@);
            let v1 = v.header_line("int main(void){"@);
            lemma_emit_alike(u1, v1, "return 0;"@);
            lemma_emit_alike(u1.emit_line("return 0;"@), v1.emit_line("return 0;"@), "}"@);
        }
    }
}

} // verus!
