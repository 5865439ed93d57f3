//! The header of a parse: whatever it held before, and then one declaration
//! for each symbol, in order.
//!
//! Only a declaration touches the header and the symbols, and it keeps them
//! in step. There is one lemma for each production; each follows the
//! production's own definition.
use crate::grammar::{
    comparison_operator, declarations, lemma_advance, lemma_compound_head, lemma_expression,
    lemma_statement, lemma_term, lemma_unary, ParserView,
};
use crate::lex::TokenKind;
use vstd::prelude::*;

verus! {

/// Whether the header of `s` is `before` followed by the declarations of
/// the symbols of `s`, of which none stands twice.
pub open spec fn tidy(s: ParserView, before: Seq<char>) -> bool {
    s.emitter.header == before + declarations(s.symbols) && s.symbols.no_duplicates()
}

/// Declaring a variable keeps the header tidy.
proof fn lemma_declare(s: ParserView, name: Seq<char>, before: Seq<char>)
    requires
        tidy(s, before),
    ensures
        tidy(s.declare(name), before),
{
    if !s.symbols.contains(name) {
        let grown = s.symbols.push(name);
        assert(grown.drop_last() =~= s.symbols);
        assert(s.declare(name).emitter.header =~= before + declarations(grown));
    }
}

/// `skip_newlines` and `nl` keep the header tidy.
pub(crate) proof fn lemma_skip_newlines_tidy(s: ParserView, before: Seq<char>)
    requires
        tidy(s, before),
    ensures
        s.skip_newlines() matches Ok(t) ==> tidy(t, before),
        s.nl() matches Ok(t) ==> tidy(t, before),
    decreases s.remaining(), 1nat,
{
    if s.cur.kind == TokenKind::NEWLINE {
        lemma_advance(s);
        if let Ok(t) = s.advance() {
            lemma_skip_newlines_tidy(t, before);
        }
    }
}

proof fn lemma_term_tail_tidy(s: ParserView, before: Seq<char>)
    requires
        tidy(s, before),
    ensures
        s.term_tail() matches Ok(t) ==> tidy(t, before),
    decreases s.remaining(),
{
    if s.cur.kind == TokenKind::ASTERISK || s.cur.kind == TokenKind::SLASH {
        lemma_advance(s.emit(s.cur.text));
        if let Ok(t) = s.transcribe() {
            lemma_unary(t);
            if let Ok(u) = t.unary() {
                lemma_term_tail_tidy(u, before);
            }
        }
    }
}

proof fn lemma_term_tidy(s: ParserView, before: Seq<char>)
    requires
        tidy(s, before),
    ensures
        s.term() matches Ok(t) ==> tidy(t, before),
{
    if let Ok(t) = s.unary() {
        lemma_term_tail_tidy(t, before);
    }
}

proof fn lemma_expression_tail_tidy(s: ParserView, before: Seq<char>)
    requires
        tidy(s, before),
    ensures
        s.expression_tail() matches Ok(t) ==> tidy(t, before),
    decreases s.remaining(),
{
    if s.cur.kind == TokenKind::PLUS || s.cur.kind == TokenKind::MINUS {
        lemma_advance(s.emit(s.cur.text));
        if let Ok(t) = s.transcribe() {
            lemma_term(t);
            lemma_term_tidy(t, before);
            if let Ok(u) = t.term() {
                lemma_expression_tail_tidy(u, before);
            }
        }
    }
}

proof fn lemma_expression_tidy(s: ParserView, before: Seq<char>)
    requires
        tidy(s, before),
    ensures
        s.expression() matches Ok(t) ==> tidy(t, before),
{
    lemma_term_tidy(s, before);
    if let Ok(t) = s.term() {
        lemma_expression_tail_tidy(t, before);
    }
}

proof fn lemma_comparison_tail_tidy(s: ParserView, before: Seq<char>)
    requires
        tidy(s, before),
    ensures
        s.comparison_tail() matches Ok(t) ==> tidy(t, before),
    decreases s.remaining(),
{
    if comparison_operator(s.cur.kind) {
        lemma_advance(s.emit(s.cur.text));
        if let Ok(t) = s.transcribe() {
            lemma_expression(t);
            lemma_expression_tidy(t, before);
            if let Ok(u) = t.expression() {
                lemma_comparison_tail_tidy(u, before);
            }
        }
    }
}

proof fn lemma_comparison_tidy(s: ParserView, before: Seq<char>)
    requires
        tidy(s, before),
    ensures
        s.comparison() matches Ok(t) ==> tidy(t, before),
{
    lemma_expression_tidy(s, before);
    if let Ok(t) = s.expression() {
        lemma_comparison_tail_tidy(t, before);
    }
}

proof fn lemma_compound_head_tidy(
    s: ParserView,
    head: Seq<char>,
    then: TokenKind,
    before: Seq<char>,
)
    requires
        tidy(s, before),
    ensures
        s.compound_head(head, then) matches Ok(t) ==> tidy(t, before),
{
    if let Ok(t) = s.advance() {
        lemma_comparison_tidy(t.emit(head), before);
        if let Ok(u) = t.emit(head).comparison() {
            if let Ok(v) = u.expect(then) {
                lemma_skip_newlines_tidy(v, before);
            }
        }
    }
}

proof fn lemma_statement_tidy(s: ParserView, before: Seq<char>)
    requires
        tidy(s, before),
    ensures
        s.statement() matches Ok(t) ==> tidy(t, before),
    decreases s.remaining(), 1nat,
{
    match s.cur.kind {
        TokenKind::PRINT => {
            if let Ok(t) = s.advance() {
                lemma_expression_tidy(t.emit("printf(\"%.2f\", (float)("@), before);
            }
            if let Ok(t) = s.print_statement() {
                lemma_skip_newlines_tidy(t, before);
            }
        },
        TokenKind::IF => {
            lemma_compound_tidy(s, "if("@, TokenKind::THEN, TokenKind::ENDIF, before);
        },
        TokenKind::WHILE => {
            lemma_compound_tidy(s, "while("@, TokenKind::REPEAT, TokenKind::ENDWHILE, before);
        },
        TokenKind::LABEL => {
            if let Ok(t) = s.label_statement() {
                lemma_skip_newlines_tidy(t, before);
            }
        },
        TokenKind::GOTO => {
            if let Ok(t) = s.goto_statement() {
                lemma_skip_newlines_tidy(t, before);
            }
        },
        TokenKind::LET => {
            if let Ok(t) = s.advance() {
                lemma_declare(t, t.cur.text, before);
                let named = t.declare(t.cur.text).emit(t.cur.text + " = "@);
                if let Ok(u) = named.expect(TokenKind::IDENT) {
                    if let Ok(v) = u.expect(TokenKind::EQ) {
                        lemma_expression_tidy(v, before);
                    }
                }
            }
            if let Ok(t) = s.let_statement() {
                lemma_skip_newlines_tidy(t, before);
            }
        },
        TokenKind::INPUT => {
            if let Ok(t) = s.advance() {
                lemma_declare(t, t.cur.text, before);
            }
            if let Ok(t) = s.input_statement() {
                lemma_skip_newlines_tidy(t, before);
            }
        },
        _ => {},
    }
}

proof fn lemma_compound_tidy(
    s: ParserView,
    head: Seq<char>,
    then: TokenKind,
    end: TokenKind,
    before: Seq<char>,
)
    requires
        tidy(s, before),
        s.cur.kind != TokenKind::EOF,
    ensures
        s.compound_head(head, then) matches Ok(t) ==> (t.block(end) matches Ok(u) ==> (
        u.compound_end(end) matches Ok(v) ==> (v.nl() matches Ok(w) ==> tidy(w, before)))),
    decreases s.remaining(), 0nat,
{
    lemma_compound_head_tidy(s, head, then, before);
    lemma_compound_head(s, head, then);
    if let Ok(t) = s.compound_head(head, then) {
        lemma_block_tidy(t, end, before);
        if let Ok(u) = t.block(end) {
            if let Ok(v) = u.compound_end(end) {
                lemma_skip_newlines_tidy(v, before);
            }
        }
    }
}

/// A block keeps the header tidy.
pub(crate) proof fn lemma_block_tidy(s: ParserView, end: TokenKind, before: Seq<char>)
    requires
        tidy(s, before),
    ensures
        s.block(end) matches Ok(t) ==> tidy(t, before),
    decreases s.remaining(), 2nat,
{
    if s.cur.kind != end {
        lemma_statement_tidy(s, before);
        lemma_statement(s);
        if let Ok(t) = s.statement() {
            lemma_block_tidy(t, end, before);
        }
    }
}

} // verus!
