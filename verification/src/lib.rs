//! A single-pass translator from a small structured language (`LET`, `INPUT`,
//! `PRINT`, `IF`, `WHILE`, `LABEL`, `GOTO`) to C source text.
//!
//! Characters flow one way: the [`lex::Lexer`] classifies them into tokens, the
//! [`parse::Parser`] recognises the grammar and pushes target fragments into an
//! [`emit::Emitter`], whose header and body together are the generated program.
//! The first fault stops everything and is returned as an [`error::ParseError`].
//!
//! What the parser does is stated in [`grammar`], production by production, as
//! functions on the state of a parse. On top of that model stand the laws of
//! [`laws`]: what every scan yields, and what holds of every text that
//! translates. The modules [`stream`], [`walk`], [`header`], [`faults`] and
//! [`alike`] carry their proofs. [`chars`] holds what is taken on trust from the standard
//! library.
use crate::emit::{Emitter, EmitterView};
use crate::error::{ParseError, ParseErrorView};
use crate::grammar::{Parsed, ParserView};
use crate::lex::{Lexer, LexerView, Text};
use crate::parse::Parser;
use vstd::prelude::*;

pub mod alike;
pub mod chars;
pub mod emit;
pub mod error;
pub mod faults;
pub mod grammar;
pub mod header;
pub mod laws;
pub mod lex;
pub mod parse;
pub mod stream;
pub mod walk;

verus! {

/// The state in which a parse that pulls its tokens from `lexer` begins:
/// the emitter empty and the window primed.
pub open spec fn opening(lexer: LexerView) -> Parsed {
    ParserView::start(
        lexer,
        EmitterView { full_path: Seq::empty(), body: Seq::empty(), header: Seq::empty() },
    )
}

/// Whether the cursor of `lexer` has room for a whole parse: for the text
/// before it and for the two scans that fill the window.
pub open spec fn opening_room(lexer: LexerView) -> bool {
    ParserView::fresh(
        lexer,
        EmitterView { full_path: Seq::empty(), body: Seq::empty(), header: Seq::empty() },
    ).has_room()
}

/// The program generated from the text that `lexer` has before it, or the
/// first fault in that text: the header followed by the body once the whole
/// of it is parsed.
pub open spec fn translation_from(lexer: LexerView) -> Result<Seq<char>, ParseErrorView> {
    match opening(lexer) {
        Ok(s) => match s.program() {
            Ok(t) => Ok(t.emitter.output()),
            Err(e) => Err(e),
        },
        Err(e) => Err(e),
    }
}

/// The lexer at the start of `source`: the sentinel line feed behind the
/// source, and each character classified as Unicode has it.
pub open spec fn lexer_of(source: Seq<char>) -> LexerView {
    LexerView { source: Text::classified(source).closed(), pos: 0 }
}

/// The program generated for `source`, or the first fault in it.
pub open spec fn translation(source: Seq<char>) -> Result<Seq<char>, ParseErrorView> {
    translation_from(lexer_of(source))
}

/// Whether `r` holds what `expected` asks for: that text, or that fault.
pub open spec fn renders(
    r: Result<String, ParseError>,
    expected: Result<Seq<char>, ParseErrorView>,
) -> bool {
    match expected {
        Ok(text) => r matches Ok(out) && out@ == text,
        Err(e) => r matches Err(x) && x@ == e,
    }
}

/// Whether `r` is what translating `source` has to return: the generated
/// program, or the first fault.
pub open spec fn is_translation(source: Seq<char>, r: Result<String, ParseError>) -> bool {
    renders(r, translation(source))
}

/// Translates the text that `lexer` has before it to C source text.
///
/// With a lexer from [`Lexer::with_classes`] the result is that of the
/// classification handed to it.
pub fn translate_from(lexer: Lexer) -> (r: Result<String, ParseError>)
    requires
        lexer.wf(),
        opening_room(lexer@),
    ensures
        renders(r, translation_from(lexer@)),
{
    let mut emitter = Emitter::new(String::new());
    let mut parser = Parser::new(lexer, &mut emitter)?;
    parser.program()?;
    Ok(emitter.output())
}

/// Translates the whole of `source` to C source text.
///
/// The source has to leave room for the cursor to go to its end, the
/// sentinel included, and two positions on.
pub fn translate(source: String) -> (r: Result<String, ParseError>)
    requires
        source@.len() + 3 <= i32::MAX,
    ensures
        is_translation(source@, r),
{
    translate_from(Lexer::new(source))
}

} // verus!
