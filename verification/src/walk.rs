//! Every production keeps a parse faithful to the tokens it has consumed.
//!
//! Each lemma takes a state that stands faithfully at token `n` and a
//! production that succeeds from it, and gives the token at which the state
//! after the production stands, faithfully again.
use crate::grammar::{
    comparison_operator, lemma_advance, lemma_compound_head, lemma_expression, lemma_statement,
    lemma_term, lemma_unary, with_name, ParserView,
};
use crate::lex::{TokenKind, TokenView};
use crate::stream::{
    faithful, lemma_faithful_whatever_emitted, lemma_naming_step, lemma_plain_step,
    lemma_use_step, naming,
};
use vstd::prelude::*;

verus! {

/// Whether a token of kind `kind` is consumed for itself: it is no
/// identifier, no naming keyword and not the end of input.
pub open spec fn plain(kind: TokenKind) -> bool {
    kind != TokenKind::IDENT && kind != TokenKind::EOF && !naming(kind)
}

proof fn walk_expect(s: ParserView, tokens: Seq<TokenView>, n: int, kind: TokenKind)
    requires
        faithful(s, tokens, n),
        plain(kind),
        s.expect(kind) is Ok,
    ensures
        faithful(s.expect(kind)->Ok_0, tokens, n + 1),
{
    lemma_plain_step(s, tokens, n);
}

proof fn walk_transcribe(s: ParserView, tokens: Seq<TokenView>, n: int)
    requires
        faithful(s, tokens, n),
        plain(s.cur.kind) || (s.cur.kind == TokenKind::IDENT && s.symbols.contains(s.cur.text)),
        s.transcribe() is Ok,
    ensures
        faithful(s.transcribe()->Ok_0, tokens, n + 1),
{
    let t = s.emit(s.cur.text);
    lemma_faithful_whatever_emitted(s, t, tokens, n);
    if s.cur.kind == TokenKind::IDENT {
        lemma_use_step(t, tokens, n);
    } else {
        lemma_plain_step(t, tokens, n);
    }
}

proof fn walk_skip_newlines(s: ParserView, tokens: Seq<TokenView>, n: int) -> (m: int)
    requires
        faithful(s, tokens, n),
        s.skip_newlines() is Ok,
    ensures
        faithful(s.skip_newlines()->Ok_0, tokens, m),
        n <= m,
    decreases s.remaining(),
{
    if s.cur.kind == TokenKind::NEWLINE {
        lemma_advance(s);
        lemma_plain_step(s, tokens, n);
        walk_skip_newlines(s.advance()->Ok_0, tokens, n + 1)
    } else {
        n
    }
}

proof fn walk_nl(s: ParserView, tokens: Seq<TokenView>, n: int) -> (m: int)
    requires
        faithful(s, tokens, n),
        s.nl() is Ok,
    ensures
        faithful(s.nl()->Ok_0, tokens, m),
        n <= m,
{
    walk_expect(s, tokens, n, TokenKind::NEWLINE);
    walk_skip_newlines(s.expect(TokenKind::NEWLINE)->Ok_0, tokens, n + 1)
}

proof fn walk_primary(s: ParserView, tokens: Seq<TokenView>, n: int)
    requires
        faithful(s, tokens, n),
        s.primary() is Ok,
    ensures
        faithful(s.primary()->Ok_0, tokens, n + 1),
{
    walk_transcribe(s, tokens, n);
}

proof fn walk_unary(s: ParserView, tokens: Seq<TokenView>, n: int) -> (m: int)
    requires
        faithful(s, tokens, n),
        s.unary() is Ok,
    ensures
        faithful(s.unary()->Ok_0, tokens, m),
        n <= m,
{
    if s.cur.kind == TokenKind::PLUS || s.cur.kind == TokenKind::MINUS {
        walk_transcribe(s, tokens, n);
        walk_primary(s.transcribe()->Ok_0, tokens, n + 1);
        n + 2
    } else {
        walk_primary(s, tokens, n);
        n + 1
    }
}

proof fn walk_term_tail(s: ParserView, tokens: Seq<TokenView>, n: int) -> (m: int)
    requires
        faithful(s, tokens, n),
        s.term_tail() is Ok,
    ensures
        faithful(s.term_tail()->Ok_0, tokens, m),
        n <= m,
    decreases s.remaining(),
{
    if s.cur.kind == TokenKind::ASTERISK || s.cur.kind == TokenKind::SLASH {
        let t = s.transcribe()->Ok_0;
        walk_transcribe(s, tokens, n);
        let k = walk_unary(t, tokens, n + 1);
        lemma_advance(s.emit(s.cur.text));
        lemma_unary(t);
        walk_term_tail(t.unary()->Ok_0, tokens, k)
    } else {
        n
    }
}

proof fn walk_term(s: ParserView, tokens: Seq<TokenView>, n: int) -> (m: int)
    requires
        faithful(s, tokens, n),
        s.term() is Ok,
    ensures
        faithful(s.term()->Ok_0, tokens, m),
        n <= m,
{
    let k = walk_unary(s, tokens, n);
    walk_term_tail(s.unary()->Ok_0, tokens, k)
}

proof fn walk_expression_tail(s: ParserView, tokens: Seq<TokenView>, n: int) -> (m: int)
    requires
        faithful(s, tokens, n),
        s.expression_tail() is Ok,
    ensures
        faithful(s.expression_tail()->Ok_0, tokens, m),
        n <= m,
    decreases s.remaining(),
{
    if s.cur.kind == TokenKind::PLUS || s.cur.kind == TokenKind::MINUS {
        let t = s.transcribe()->Ok_0;
        walk_transcribe(s, tokens, n);
        let k = walk_term(t, tokens, n + 1);
        lemma_advance(s.emit(s.cur.text));
        lemma_term(t);
        walk_expression_tail(t.term()->Ok_0, tokens, k)
    } else {
        n
    }
}

proof fn walk_expression(s: ParserView, tokens: Seq<TokenView>, n: int) -> (m: int)
    requires
        faithful(s, tokens, n),
        s.expression() is Ok,
    ensures
        faithful(s.expression()->Ok_0, tokens, m),
        n <= m,
{
    let k = walk_term(s, tokens, n);
    walk_expression_tail(s.term()->Ok_0, tokens, k)
}

proof fn walk_comparison_tail(s: ParserView, tokens: Seq<TokenView>, n: int) -> (m: int)
    requires
        faithful(s, tokens, n),
        s.comparison_tail() is Ok,
    ensures
        faithful(s.comparison_tail()->Ok_0, tokens, m),
        n <= m,
    decreases s.remaining(),
{
    if comparison_operator(s.cur.kind) {
        let t = s.transcribe()->Ok_0;
        walk_transcribe(s, tokens, n);
        let k = walk_expression(t, tokens, n + 1);
        lemma_advance(s.emit(s.cur.text));
        lemma_expression(t);
        walk_comparison_tail(t.expression()->Ok_0, tokens, k)
    } else {
        n
    }
}

proof fn walk_comparison(s: ParserView, tokens: Seq<TokenView>, n: int) -> (m: int)
    requires
        faithful(s, tokens, n),
        s.comparison() is Ok,
    ensures
        faithful(s.comparison()->Ok_0, tokens, m),
        n <= m,
{
    let k = walk_expression(s, tokens, n);
    walk_comparison_tail(s.expression()->Ok_0, tokens, k)
}

proof fn walk_print(s: ParserView, tokens: Seq<TokenView>, n: int) -> (m: int)
    requires
        faithful(s, tokens, n),
        s.cur.kind == TokenKind::PRINT,
        s.print_statement() is Ok,
    ensures
        faithful(s.print_statement()->Ok_0, tokens, m),
        n <= m,
{
    let t = s.advance()->Ok_0;
    lemma_plain_step(s, tokens, n);
    if t.cur.kind == TokenKind::STRING {
        let u = t.emit_line("printf(\""@ + t.cur.text + "\");"@).emit_line("printf(\"\\n\");"@);
        lemma_faithful_whatever_emitted(t, u, tokens, n + 1);
        lemma_plain_step(u, tokens, n + 1);
        n + 2
    } else {
        let u = t.emit("printf(\"%.2f\", (float)("@);
        lemma_faithful_whatever_emitted(t, u, tokens, n + 1);
        let k = walk_expression(u, tokens, n + 1);
        let v = u.expression()->Ok_0;
        lemma_faithful_whatever_emitted(v, v.emit_line("));"@), tokens, k);
        k
    }
}

proof fn walk_label(s: ParserView, tokens: Seq<TokenView>, n: int)
    requires
        faithful(s, tokens, n),
        s.cur.kind == TokenKind::LABEL,
        s.label_statement() is Ok,
    ensures
        faithful(s.label_statement()->Ok_0, tokens, n + 2),
{
    let t = s.advance()->Ok_0;
    let named = ParserView { labels_declared: t.labels_declared.push(t.cur.text), ..t }.emit_line(
        t.cur.text + ":"@,
    );
    lemma_naming_step(s, named, tokens, n);
}

proof fn walk_goto(s: ParserView, tokens: Seq<TokenView>, n: int)
    requires
        faithful(s, tokens, n),
        s.cur.kind == TokenKind::GOTO,
        s.goto_statement() is Ok,
    ensures
        faithful(s.goto_statement()->Ok_0, tokens, n + 2),
{
    let t = s.advance()->Ok_0;
    let named = ParserView {
        labels_gotoed: with_name(t.labels_gotoed, t.cur.text),
        ..t
    }.emit_line("goto "@ + t.cur.text + ";"@);
    lemma_naming_step(s, named, tokens, n);
}

proof fn walk_let(s: ParserView, tokens: Seq<TokenView>, n: int) -> (m: int)
    requires
        faithful(s, tokens, n),
        s.cur.kind == TokenKind::LET,
        s.let_statement() is Ok,
    ensures
        faithful(s.let_statement()->Ok_0, tokens, m),
        n <= m,
{
    let t = s.advance()->Ok_0;
    let named = t.declare(t.cur.text).emit(t.cur.text + " = "@);
    lemma_naming_step(s, named, tokens, n);
    let u = named.expect(TokenKind::IDENT)->Ok_0;
    walk_expect(u, tokens, n + 2, TokenKind::EQ);
    let v = u.expect(TokenKind::EQ)->Ok_0;
    let k = walk_expression(v, tokens, n + 3);
    let w = v.expression()->Ok_0;
    lemma_faithful_whatever_emitted(w, w.emit_line(";"@), tokens, k);
    k
}

proof fn walk_input(s: ParserView, tokens: Seq<TokenView>, n: int)
    requires
        faithful(s, tokens, n),
        s.cur.kind == TokenKind::INPUT,
        s.input_statement() is Ok,
    ensures
        faithful(s.input_statement()->Ok_0, tokens, n + 2),
{
    let t = s.advance()->Ok_0;
    let named = t.declare(t.cur.text).emit_line(
        "if(0 == scanf(\"%f\", &"@ + t.cur.text + ")) {"@,
    ).emit_line(t.cur.text + " = 0;"@).emit("scanf(\"%"@).emit_line("*s\");"@).emit_line("}"@);
    lemma_naming_step(s, named, tokens, n);
}

proof fn walk_compound_head(
    s: ParserView,
    tokens: Seq<TokenView>,
    n: int,
    head: Seq<char>,
    then: TokenKind,
) -> (m: int)
    requires
        faithful(s, tokens, n),
        plain(s.cur.kind),
        plain(then),
        s.compound_head(head, then) is Ok,
    ensures
        faithful(s.compound_head(head, then)->Ok_0, tokens, m),
        n <= m,
{
    let t = s.advance()->Ok_0;
    lemma_plain_step(s, tokens, n);
    lemma_faithful_whatever_emitted(t, t.emit(head), tokens, n + 1);
    let k = walk_comparison(t.emit(head), tokens, n + 1);
    let u = t.emit(head).comparison()->Ok_0;
    walk_expect(u, tokens, k, then);
    let v = u.expect(then)->Ok_0;
    let m = walk_nl(v, tokens, k + 1);
    let w = v.nl()->Ok_0;
    lemma_faithful_whatever_emitted(w, w.emit_line("){"@), tokens, m);
    m
}

proof fn walk_compound_end(s: ParserView, tokens: Seq<TokenView>, n: int, end: TokenKind)
    requires
        faithful(s, tokens, n),
        plain(end),
        s.compound_end(end) is Ok,
    ensures
        faithful(s.compound_end(end)->Ok_0, tokens, n + 1),
{
    walk_expect(s, tokens, n, end);
    let t = s.expect(end)->Ok_0;
    lemma_faithful_whatever_emitted(t, t.emit_line("}"@), tokens, n + 1);
}

proof fn walk_compound(
    s: ParserView,
    tokens: Seq<TokenView>,
    n: int,
    head: Seq<char>,
    then: TokenKind,
    end: TokenKind,
) -> (m: int)
    requires
        faithful(s, tokens, n),
        plain(s.cur.kind),
        plain(then),
        plain(end),
        s.compound_head(head, then) matches Ok(t) && (t.block(end) matches Ok(u)
            && u.compound_end(end) is Ok),
    ensures
        faithful(
            s.compound_head(head, then)->Ok_0.block(end)->Ok_0.compound_end(end)->Ok_0,
            tokens,
            m,
        ),
        n <= m,
    decreases s.remaining(), 0nat,
{
    let t = s.compound_head(head, then)->Ok_0;
    let k = walk_compound_head(s, tokens, n, head, then);
    lemma_compound_head(s, head, then);
    let j = walk_block(t, tokens, k, end);
    walk_compound_end(t.block(end)->Ok_0, tokens, j, end);
    j + 1
}

proof fn walk_statement(s: ParserView, tokens: Seq<TokenView>, n: int) -> (m: int)
    requires
        faithful(s, tokens, n),
        s.statement() is Ok,
    ensures
        faithful(s.statement()->Ok_0, tokens, m),
        n <= m,
    decreases s.remaining(), 1nat,
{
    match s.cur.kind {
        TokenKind::PRINT => {
            let k = walk_print(s, tokens, n);
            walk_nl(s.print_statement()->Ok_0, tokens, k)
        },
        TokenKind::IF => {
            let k = walk_compound(s, tokens, n, "if("@, TokenKind::THEN, TokenKind::ENDIF);
            walk_nl(
                s.compound_head("if("@, TokenKind::THEN)->Ok_0.block(
                    TokenKind::ENDIF,
                )->Ok_0.compound_end(TokenKind::ENDIF)->Ok_0,
                tokens,
                k,
            )
        },
        TokenKind::WHILE => {
            let k = walk_compound(
                s,
                tokens,
                n,
                "while("@,
                TokenKind::REPEAT,
                TokenKind::ENDWHILE,
            );
            walk_nl(
                s.compound_head("while("@, TokenKind::REPEAT)->Ok_0.block(
                    TokenKind::ENDWHILE,
                )->Ok_0.compound_end(TokenKind::ENDWHILE)->Ok_0,
                tokens,
                k,
            )
        },
        TokenKind::LABEL => {
            walk_label(s, tokens, n);
            walk_nl(s.label_statement()->Ok_0, tokens, n + 2)
        },
        TokenKind::GOTO => {
            walk_goto(s, tokens, n);
            walk_nl(s.goto_statement()->Ok_0, tokens, n + 2)
        },
        TokenKind::LET => {
            let k = walk_let(s, tokens, n);
            walk_nl(s.let_statement()->Ok_0, tokens, k)
        },
        TokenKind::INPUT => {
            walk_input(s, tokens, n);
            walk_nl(s.input_statement()->Ok_0, tokens, n + 2)
        },
        _ => n,
    }
}

proof fn walk_block(s: ParserView, tokens: Seq<TokenView>, n: int, end: TokenKind) -> (m: int)
    requires
        faithful(s, tokens, n),
        s.block(end) is Ok,
    ensures
        faithful(s.block(end)->Ok_0, tokens, m),
        n <= m,
    decreases s.remaining(), 2nat,
{
    if s.cur.kind == end {
        n
    } else {
        let k = walk_statement(s, tokens, n);
        lemma_statement(s);
        walk_block(s.statement()->Ok_0, tokens, k, end)
    }
}

/// A program that parses leaves its state faithful at the token where it
/// stopped.
pub(crate) proof fn walk_program(s: ParserView, tokens: Seq<TokenView>, n: int) -> (m: int)
    requires
        faithful(s, tokens, n),
        s.program() is Ok,
    ensures
        faithful(s.program()->Ok_0, tokens, m),
        n <= m,
{
    let entry = s.header_line("#include <stdio.h>"@);
    lemma_faithful_whatever_emitted(s, entry, tokens, n);
    let k = walk_skip_newlines(entry, tokens, n);
    let t = entry.skip_newlines()->Ok_0;
    let m = walk_block(t, tokens, k, TokenKind::EOF);
    let u = t.block(TokenKind::EOF)->Ok_0;
    lemma_faithful_whatever_emitted(
        u,
        u.header_line("int main(void){"@).emit_line("return 0;"@).emit_line("}"@),
        tokens,
        m,
    );
    m
}

} // verus!
