//! No production fails for a label that no `LABEL` declares: that fault is
//! found only by the program, once all of it is parsed.
//!
//! There is one lemma for each production; each follows the production's
//! own definition.
use crate::error::ParseErrorView;
use crate::grammar::{
    comparison_operator, lemma_advance, lemma_compound_head, lemma_expression, lemma_statement,
    lemma_term, lemma_unary, ParserView,
};
use crate::lex::TokenKind;
use vstd::prelude::*;

verus! {

/// Whether `r` is some fault other than a label that no `LABEL` declares.
pub open spec fn no_label_fault(r: Result<ParserView, ParseErrorView>) -> bool {
    !(r is Err && r->Err_0 is UndeclaredLabel)
}

/// Neither `skip_newlines` nor `nl` fails for a missing label.
pub(crate) proof fn lemma_skip_newlines_is_no_label_fault(s: ParserView)
    ensures
        no_label_fault(s.skip_newlines()),
        no_label_fault(s.nl()),
    decreases s.remaining(), 1nat,
{
    if s.cur.kind == TokenKind::NEWLINE {
        lemma_advance(s);
        if let Ok(t) = s.advance() {
            lemma_skip_newlines_is_no_label_fault(t);
        }
    }
}

proof fn lemma_term_tail_is_no_label_fault(s: ParserView)
    ensures
        no_label_fault(s.term_tail()),
    decreases s.remaining(),
{
    if s.cur.kind == TokenKind::ASTERISK || s.cur.kind == TokenKind::SLASH {
        lemma_advance(s.emit(s.cur.text));
        if let Ok(t) = s.transcribe() {
            lemma_unary(t);
            if let Ok(u) = t.unary() {
                lemma_term_tail_is_no_label_fault(u);
            }
        }
    }
}

proof fn lemma_expression_tail_is_no_label_fault(s: ParserView)
    ensures
        no_label_fault(s.expression_tail()),
    decreases s.remaining(),
{
    if s.cur.kind == TokenKind::PLUS || s.cur.kind == TokenKind::MINUS {
        lemma_advance(s.emit(s.cur.text));
        if let Ok(t) = s.transcribe() {
            lemma_term(t);
            lemma_term_is_no_label_fault(t);
            if let Ok(u) = t.term() {
                lemma_expression_tail_is_no_label_fault(u);
            }
        }
    }
}

proof fn lemma_term_is_no_label_fault(s: ParserView)
    ensures
        no_label_fault(s.term()),
{
    if let Ok(t) = s.unary() {
        lemma_term_tail_is_no_label_fault(t);
    }
}

proof fn lemma_expression_is_no_label_fault(s: ParserView)
    ensures
        no_label_fault(s.expression()),
{
    lemma_term_is_no_label_fault(s);
    if let Ok(t) = s.term() {
        lemma_expression_tail_is_no_label_fault(t);
    }
}

proof fn lemma_comparison_tail_is_no_label_fault(s: ParserView)
    ensures
        no_label_fault(s.comparison_tail()),
    decreases s.remaining(),
{
    if comparison_operator(s.cur.kind) {
        lemma_advance(s.emit(s.cur.text));
        if let Ok(t) = s.transcribe() {
            lemma_expression(t);
            lemma_expression_is_no_label_fault(t);
            if let Ok(u) = t.expression() {
                lemma_comparison_tail_is_no_label_fault(u);
            }
        }
    }
}

proof fn lemma_comparison_is_no_label_fault(s: ParserView)
    ensures
        no_label_fault(s.comparison()),
{
    lemma_expression_is_no_label_fault(s);
    if let Ok(t) = s.expression() {
        lemma_comparison_tail_is_no_label_fault(t);
    }
}

proof fn lemma_compound_head_is_no_label_fault(s: ParserView, head: Seq<char>, then: TokenKind)
    ensures
        no_label_fault(s.compound_head(head, then)),
{
    if let Ok(t) = s.advance() {
        lemma_comparison_is_no_label_fault(t.emit(head));
        if let Ok(u) = t.emit(head).comparison() {
            if let Ok(v) = u.expect(then) {
                lemma_skip_newlines_is_no_label_fault(v);
            }
        }
    }
}

proof fn lemma_statement_is_no_label_fault(s: ParserView)
    ensures
        no_label_fault(s.statement()),
    decreases s.remaining(), 1nat,
{
    match s.cur.kind {
        TokenKind::PRINT => {
            if let Ok(t) = s.advance() {
                lemma_expression_is_no_label_fault(t.emit("printf(\"%.2f\", (float)("@));
            }
            if let Ok(t) = s.print_statement() {
                lemma_skip_newlines_is_no_label_fault(t);
            }
        },
        TokenKind::IF => {
            lemma_compound_is_no_label_fault(s, "if("@, TokenKind::THEN, TokenKind::ENDIF);
        },
        TokenKind::WHILE => {
            lemma_compound_is_no_label_fault(s, "while("@, TokenKind::REPEAT, TokenKind::ENDWHILE);
        },
        TokenKind::LABEL => {
            if let Ok(t) = s.label_statement() {
                lemma_skip_newlines_is_no_label_fault(t);
            }
        },
        TokenKind::GOTO => {
            if let Ok(t) = s.goto_statement() {
                lemma_skip_newlines_is_no_label_fault(t);
            }
        },
        TokenKind::LET => {
            if let Ok(t) = s.advance() {
                let named = t.declare(t.cur.text).emit(t.cur.text + " = "@);
                if let Ok(u) = named.expect(TokenKind::IDENT) {
                    if let Ok(v) = u.expect(TokenKind::EQ) {
                        lemma_expression_is_no_label_fault(v);
                    }
                }
            }
            if let Ok(t) = s.let_statement() {
                lemma_skip_newlines_is_no_label_fault(t);
            }
        },
        TokenKind::INPUT => {
            if let Ok(t) = s.input_statement() {
                lemma_skip_newlines_is_no_label_fault(t);
            }
        },
        _ => {},
    }
}

proof fn lemma_compound_is_no_label_fault(
    s: ParserView,
    head: Seq<char>,
    then: TokenKind,
    end: TokenKind,
)
    requires
        s.cur.kind != TokenKind::EOF,
    ensures
        s.compound_head(head, then) matches Ok(t) ==> (no_label_fault(t.block(end)) && (t.block(
            end,
        ) matches Ok(u) ==> (no_label_fault(u.compound_end(end)) && (u.compound_end(
            end,
        ) matches Ok(v) ==> no_label_fault(v.nl()))))),
        no_label_fault(s.compound_head(head, then)),
    decreases s.remaining(), 0nat,
{
    lemma_compound_head_is_no_label_fault(s, head, then);
    lemma_compound_head(s, head, then);
    if let Ok(t) = s.compound_head(head, then) {
        lemma_block_is_no_label_fault(t, end);
        if let Ok(u) = t.block(end) {
            if let Ok(v) = u.compound_end(end) {
                lemma_skip_newlines_is_no_label_fault(v);
            }
        }
    }
}

/// A block does not fail for a missing label.
pub(crate) proof fn lemma_block_is_no_label_fault(s: ParserView, end: TokenKind)
    ensures
        no_label_fault(s.block(end)),
    decreases s.remaining(), 2nat,
{
    if s.cur.kind != end {
        lemma_statement_is_no_label_fault(s);
        lemma_statement(s);
        if let Ok(t) = s.statement() {
            lemma_block_is_no_label_fault(t, end);
        }
    }
}

} // verus!
