//! The grammar as mathematics: what each production does to the state of a
//! parse.
//!
//! ```text
//! program    ::= {NEWLINE} {statement}
//! statement  ::= "PRINT" (expression | STRING) nl
//!              | "IF" comparison "THEN" nl {statement} "ENDIF" nl
//!              | "WHILE" comparison "REPEAT" nl {statement} "ENDWHILE" nl
//!              | "LABEL" IDENT nl
//!              | "GOTO" IDENT nl
//!              | "LET" IDENT "=" expression nl
//!              | "INPUT" IDENT nl
//! nl         ::= NEWLINE {NEWLINE}
//! comparison ::= expression comparisonOp expression {comparisonOp expression}
//! expression ::= term {("+"|"-") term}
//! term       ::= unary {("*"|"/") unary}
//! unary      ::= ["+"|"-"] primary
//! primary    ::= NUMBER | IDENT
//! ```
//!
//! A production is a function from the state before it to the state after
//! it, or to the error that stops the parse. The state holds the cursor of
//! the lexer, so a lexical error surfaces exactly when the parser first asks
//! for the offending token.
use crate::emit::EmitterView;
use crate::error::ParseErrorView;
use crate::lex::{lemma_lex_progress, lex_at, LexerView, TokenKind, TokenView};
use vstd::prelude::*;

verus! {

/// The state of a parse: the lexer, the two tokens of lookahead, the names
/// seen so far and the text emitted so far.
pub struct ParserView {
    pub lexer: LexerView,
    pub emitter: EmitterView,
    /// The token that the grammar is looking at.
    pub cur: TokenView,
    /// The token after it.
    pub peek: TokenView,
    /// The variables declared so far, in order of declaration.
    pub symbols: Seq<Seq<char>>,
    /// The labels declared so far, in order of declaration.
    pub labels_declared: Seq<Seq<char>>,
    /// The labels that some `GOTO` names, in order of first mention.
    pub labels_gotoed: Seq<Seq<char>>,
}

/// The state after a production, or the error that stopped it.
pub type Parsed = Result<ParserView, ParseErrorView>;

/// The placeholder in the lookahead window before any token was read.
pub open spec fn no_token() -> TokenView {
    TokenView { text: Seq::empty(), kind: TokenKind::NONE }
}

/// One for a token that is still to be consumed, zero for `EOF`.
pub open spec fn weight(t: TokenView) -> nat {
    if t.kind == TokenKind::EOF {
        0
    } else {
        1
    }
}

/// Whether `kind` is one of the six comparison operators.
pub open spec fn comparison_operator(kind: TokenKind) -> bool {
    kind == TokenKind::GT || kind == TokenKind::GTEQ || kind == TokenKind::LT || kind
        == TokenKind::LTEQ || kind == TokenKind::EQEQ || kind == TokenKind::NOTEQ
}

/// The first name of `wanted` that `known` lacks.
pub open spec fn first_missing(wanted: Seq<Seq<char>>, known: Seq<Seq<char>>) -> Option<
    Seq<char>,
>
    decreases wanted.len(),
{
    if wanted.len() == 0 {
        None
    } else if !known.contains(wanted[0]) {
        Some(wanted[0])
    } else {
        first_missing(wanted.drop_first(), known)
    }
}

/// The line that declares the variable `name`.
pub open spec fn declaration(name: Seq<char>) -> Seq<char> {
    ("float "@ + name + ";"@).push('\n')
}

/// The lines that declare `names`, one for each, in order.
pub open spec fn declarations(names: Seq<Seq<char>>) -> Seq<char>
    decreases names.len(),
{
    if names.len() == 0 {
        Seq::empty()
    } else {
        declarations(names.drop_last()) + declaration(names.last())
    }
}

/// `names` with `name` added at the end unless it is there already.
pub open spec fn with_name(names: Seq<Seq<char>>, name: Seq<char>) -> Seq<Seq<char>> {
    if names.contains(name) {
        names
    } else {
        names.push(name)
    }
}

impl ParserView {
    /// The state before the lookahead window is primed.
    pub open spec fn fresh(lexer: LexerView, emitter: EmitterView) -> ParserView {
        ParserView {
            lexer,
            emitter,
            cur: no_token(),
            peek: no_token(),
            symbols: Seq::empty(),
            labels_declared: Seq::empty(),
            labels_gotoed: Seq::empty(),
        }
    }

    /// The state in which parsing begins: the window primed with the first
    /// two tokens.
    pub open spec fn start(lexer: LexerView, emitter: EmitterView) -> Parsed {
        match ParserView::fresh(lexer, emitter).advance() {
            Ok(s) => s.advance(),
            Err(e) => Err(e),
        }
    }

    /// Whether this state reads the same text and writes to the same
    /// destination as `before`: whatever a parse does, and wherever it stops,
    /// it changes neither.
    pub open spec fn unmoved(self, before: ParserView) -> bool {
        self.lexer.source == before.lexer.source && self.emitter.full_path
            == before.emitter.full_path
    }

    /// A bound on the tokens still to be consumed: the characters not yet
    /// lexed, and the tokens in the window that are not `EOF`.
    pub open spec fn remaining(self) -> nat {
        let unread: nat = if 0 <= self.lexer.pos < self.lexer.source.len() {
            (self.lexer.source.len() - self.lexer.pos) as nat
        } else {
            0
        };
        unread + weight(self.peek) + weight(self.cur)
    }

    /// How far the cursor of the lexer may still have to go: to the end of
    /// the text, and one position more for each token of the window that is
    /// not `EOF`, since the scan that replaces it may be one at the end of the
    /// text.
    pub open spec fn reach(self) -> int {
        self.lexer.pos + self.remaining()
    }

    /// Whether the cursor can go as far as it may have to: positions are
    /// machine integers.
    pub open spec fn has_room(self) -> bool {
        0 <= self.lexer.pos && self.reach() <= i32::MAX
    }

    /// Whether the window can slide: the cursor has room for the scan that
    /// this takes. A state with room can, unless its current token is `EOF`,
    /// where one position more is needed.
    pub open spec fn can_advance(self) -> bool {
        self.cur.kind != TokenKind::EOF || self.reach() < i32::MAX
    }

    /// This state with `text` added to the body.
    pub open spec fn emit(self, text: Seq<char>) -> ParserView {
        ParserView { emitter: self.emitter.emit(text), ..self }
    }

    /// This state with `text` and a line feed added to the body.
    pub open spec fn emit_line(self, text: Seq<char>) -> ParserView {
        ParserView { emitter: self.emitter.emit_line(text), ..self }
    }

    /// This state with `text` and a line feed added to the header.
    pub open spec fn header_line(self, text: Seq<char>) -> ParserView {
        ParserView { emitter: self.emitter.header_line(text), ..self }
    }

    /// Slides the window: the token after the current one becomes current,
    /// and the lexer supplies the new token after it.
    pub open spec fn advance(self) -> Parsed {
        let scan = lex_at(self.lexer.source, self.lexer.pos);
        match scan.result {
            Ok(t) => Ok(
                ParserView {
                    lexer: LexerView { source: self.lexer.source, pos: scan.next },
                    cur: self.peek,
                    peek: t,
                    ..self
                },
            ),
            Err(e) => Err(ParseErrorView::Lex(e)),
        }
    }

    /// Consumes the current token, which has to be of kind `kind`.
    pub open spec fn expect(self, kind: TokenKind) -> Parsed {
        if self.cur.kind == kind {
            self.advance()
        } else {
            Err(ParseErrorView::Expected { expected: kind, found: self.cur.kind })
        }
    }

    /// Consumes the run of `NEWLINE` tokens at the current token.
    pub open spec fn skip_newlines(self) -> Parsed
        decreases self.remaining(),
    {
        if self.cur.kind == TokenKind::NEWLINE {
            match self.advance() {
                Ok(s) => {
                    proof {
                        lemma_advance(self);
                    }
                    s.skip_newlines()
                },
                Err(e) => Err(e),
            }
        } else {
            Ok(self)
        }
    }

    /// `nl ::= NEWLINE {NEWLINE}`
    pub open spec fn nl(self) -> Parsed {
        match self.expect(TokenKind::NEWLINE) {
            Ok(s) => s.skip_newlines(),
            Err(e) => Err(e),
        }
    }

    /// Emits the current token's text and consumes the token.
    pub open spec fn transcribe(self) -> Parsed {
        self.emit(self.cur.text).advance()
    }

    /// `primary ::= NUMBER | IDENT`, where the identifier has to be a
    /// declared variable. The operand is transcribed.
    pub open spec fn primary(self) -> Parsed {
        if self.cur.kind == TokenKind::NUMBER {
            self.transcribe()
        } else if self.cur.kind == TokenKind::IDENT {
            if self.symbols.contains(self.cur.text) {
                self.transcribe()
            } else {
                Err(ParseErrorView::UndeclaredVariable { name: self.cur.text })
            }
        } else {
            Err(ParseErrorView::UnexpectedToken { text: self.cur.text })
        }
    }

    /// `unary ::= ["+"|"-"] primary`, the sign transcribed.
    pub open spec fn unary(self) -> Parsed {
        if self.cur.kind == TokenKind::PLUS || self.cur.kind == TokenKind::MINUS {
            match self.transcribe() {
                Ok(s) => s.primary(),
                Err(e) => Err(e),
            }
        } else {
            self.primary()
        }
    }

    /// `{("*"|"/") unary}`, each operator transcribed.
    pub open spec fn term_tail(self) -> Parsed
        decreases self.remaining(),
    {
        if self.cur.kind == TokenKind::ASTERISK || self.cur.kind == TokenKind::SLASH {
            match self.transcribe() {
                Ok(s) => match s.unary() {
                    Ok(t) => {
                        proof {
                            lemma_advance(self.emit(self.cur.text));
                            lemma_unary(s);
                        }
                        t.term_tail()
                    },
                    Err(e) => Err(e),
                },
                Err(e) => Err(e),
            }
        } else {
            Ok(self)
        }
    }

    /// `term ::= unary {("*"|"/") unary}`
    pub open spec fn term(self) -> Parsed {
        match self.unary() {
            Ok(s) => s.term_tail(),
            Err(e) => Err(e),
        }
    }

    /// `{("+"|"-") term}`, each operator transcribed.
    pub open spec fn expression_tail(self) -> Parsed
        decreases self.remaining(),
    {
        if self.cur.kind == TokenKind::PLUS || self.cur.kind == TokenKind::MINUS {
            match self.transcribe() {
                Ok(s) => match s.term() {
                    Ok(t) => {
                        proof {
                            lemma_advance(self.emit(self.cur.text));
                            lemma_term(s);
                        }
                        t.expression_tail()
                    },
                    Err(e) => Err(e),
                },
                Err(e) => Err(e),
            }
        } else {
            Ok(self)
        }
    }

    /// `expression ::= term {("+"|"-") term}`
    pub open spec fn expression(self) -> Parsed {
        match self.term() {
            Ok(s) => s.expression_tail(),
            Err(e) => Err(e),
        }
    }

    /// `{comparisonOp expression}`, each operator transcribed.
    pub open spec fn comparison_tail(self) -> Parsed
        decreases self.remaining(),
    {
        if comparison_operator(self.cur.kind) {
            match self.transcribe() {
                Ok(s) => match s.expression() {
                    Ok(t) => {
                        proof {
                            lemma_advance(self.emit(self.cur.text));
                            lemma_expression(s);
                        }
                        t.comparison_tail()
                    },
                    Err(e) => Err(e),
                },
                Err(e) => Err(e),
            }
        } else {
            Ok(self)
        }
    }

    /// `comparison ::= expression comparisonOp expression {comparisonOp expression}`
    ///
    /// Unlike an expression, a comparison needs at least one operator.
    pub open spec fn comparison(self) -> Parsed {
        match self.expression() {
            Ok(s) => if comparison_operator(s.cur.kind) {
                s.comparison_tail()
            } else {
                Err(ParseErrorView::ExpectedComparison { text: s.cur.text })
            },
            Err(e) => Err(e),
        }
    }

    /// This state with the variable `name` declared: on first sight the name
    /// joins the symbols and its declaration goes to the header.
    pub open spec fn declare(self, name: Seq<char>) -> ParserView {
        if self.symbols.contains(name) {
            self
        } else {
            ParserView { symbols: self.symbols.push(name), ..self }.header_line(
                "float "@ + name + ";"@,
            )
        }
    }

    /// `"PRINT" (expression | STRING)`
    ///
    /// A string is printed as it stands, between quotes, and followed by a
    /// line feed. An expression is printed with two decimals.
    pub open spec fn print_statement(self) -> Parsed {
        match self.advance() {
            Ok(s) => if s.cur.kind == TokenKind::STRING {
                s.emit_line("printf(\""@ + s.cur.text + "\");"@).emit_line(
                    "printf(\"\\n\");"@,
                ).advance()
            } else {
                match s.emit("printf(\"%.2f\", (float)("@).expression() {
                    Ok(t) => Ok(t.emit_line("));"@)),
                    Err(e) => Err(e),
                }
            },
            Err(e) => Err(e),
        }
    }

    /// `"LABEL" IDENT`, where the label has to be new.
    pub open spec fn label_statement(self) -> Parsed {
        match self.advance() {
            Ok(s) => if s.labels_declared.contains(s.cur.text) {
                Err(ParseErrorView::DuplicateLabel { name: s.cur.text })
            } else {
                ParserView { labels_declared: s.labels_declared.push(s.cur.text), ..s }.emit_line(
                    s.cur.text + ":"@,
                ).expect(TokenKind::IDENT)
            },
            Err(e) => Err(e),
        }
    }

    /// `"GOTO" IDENT`, whose label may be declared later in the program.
    pub open spec fn goto_statement(self) -> Parsed {
        match self.advance() {
            Ok(s) => ParserView {
                labels_gotoed: with_name(s.labels_gotoed, s.cur.text),
                ..s
            }.emit_line("goto "@ + s.cur.text + ";"@).expect(TokenKind::IDENT),
            Err(e) => Err(e),
        }
    }

    /// `"LET" IDENT "=" expression`
    pub open spec fn let_statement(self) -> Parsed {
        match self.advance() {
            Ok(s) => match s.declare(s.cur.text).emit(s.cur.text + " = "@).expect(
                TokenKind::IDENT,
            ) {
                Ok(t) => match t.expect(TokenKind::EQ) {
                    Ok(u) => match u.expression() {
                        Ok(v) => Ok(v.emit_line(";"@)),
                        Err(e) => Err(e),
                    },
                    Err(e) => Err(e),
                },
                Err(e) => Err(e),
            },
            Err(e) => Err(e),
        }
    }

    /// `"INPUT" IDENT`
    ///
    /// The emitted code reads a number into the variable; where that fails
    /// it sets the variable to zero and discards the rest of the input line.
    pub open spec fn input_statement(self) -> Parsed {
        match self.advance() {
            Ok(s) => s.declare(s.cur.text).emit_line(
                "if(0 == scanf(\"%f\", &"@ + s.cur.text + ")) {"@,
            ).emit_line(s.cur.text + " = 0;"@).emit("scanf(\"%"@).emit_line("*s\");"@).emit_line(
                "}"@,
            ).expect(TokenKind::IDENT),
            Err(e) => Err(e),
        }
    }

    /// The opening of `IF` and of `WHILE`: the keyword, the comparison inside
    /// `head` and `){`, the token `then`, and `nl`.
    pub open spec fn compound_head(self, head: Seq<char>, then: TokenKind) -> Parsed {
        match self.advance() {
            Ok(s) => match s.emit(head).comparison() {
                Ok(t) => match t.expect(then) {
                    Ok(u) => match u.nl() {
                        Ok(v) => Ok(v.emit_line("){"@)),
                        Err(e) => Err(e),
                    },
                    Err(e) => Err(e),
                },
                Err(e) => Err(e),
            },
            Err(e) => Err(e),
        }
    }

    /// The close of `IF` and of `WHILE`: the token `end`, and `}`.
    pub open spec fn compound_end(self, end: TokenKind) -> Parsed {
        match self.expect(end) {
            Ok(s) => Ok(s.emit_line("}"@)),
            Err(e) => Err(e),
        }
    }

    /// One statement, up to and including the `nl` that ends it.
    pub open spec fn statement(self) -> Parsed
        decreases self.remaining(), 0nat,
    {
        let parsed = match self.cur.kind {
            TokenKind::PRINT => self.print_statement(),
            TokenKind::IF => match self.compound_head("if("@, TokenKind::THEN) {
                Ok(s) => {
                    proof {
                        lemma_compound_head(self, "if("@, TokenKind::THEN);
                    }
                    match s.block(TokenKind::ENDIF) {
                        Ok(t) => t.compound_end(TokenKind::ENDIF),
                        Err(e) => Err(e),
                    }
                },
                Err(e) => Err(e),
            },
            TokenKind::WHILE => match self.compound_head("while("@, TokenKind::REPEAT) {
                Ok(s) => {
                    proof {
                        lemma_compound_head(self, "while("@, TokenKind::REPEAT);
                    }
                    match s.block(TokenKind::ENDWHILE) {
                        Ok(t) => t.compound_end(TokenKind::ENDWHILE),
                        Err(e) => Err(e),
                    }
                },
                Err(e) => Err(e),
            },
            TokenKind::LABEL => self.label_statement(),
            TokenKind::GOTO => self.goto_statement(),
            TokenKind::LET => self.let_statement(),
            TokenKind::INPUT => self.input_statement(),
            _ => Err(
                ParseErrorView::InvalidStatement { text: self.cur.text, kind: self.cur.kind },
            ),
        };
        match parsed {
            Ok(s) => s.nl(),
            Err(e) => Err(e),
        }
    }

    /// Statements up to a current token of kind `end`, which stays.
    ///
    /// Every statement consumes a token ([`lemma_statement`]), so the test
    /// on `remaining` never fails.
    pub open spec fn block(self, end: TokenKind) -> Parsed
        decreases self.remaining(), 1nat,
    {
        if self.cur.kind == end {
            Ok(self)
        } else {
            match self.statement() {
                Ok(s) => if s.remaining() < self.remaining() {
                    s.block(end)
                } else {
                    Ok(s)
                },
                Err(e) => Err(e),
            }
        }
    }

    /// `program ::= {NEWLINE} {statement}`
    ///
    /// The include directive goes to the header before anything is parsed.
    /// Once the current token is `EOF`, the labels that a `GOTO` names are
    /// held against the declared ones; then the opening of the entry routine
    /// goes to the header, behind the declarations, and the epilogue to the
    /// body.
    pub open spec fn program(self) -> Parsed {
        match self.header_line("#include <stdio.h>"@).skip_newlines() {
            Ok(s) => match s.block(TokenKind::EOF) {
                Ok(t) => match first_missing(t.labels_gotoed, t.labels_declared) {
                    Some(name) => Err(ParseErrorView::UndeclaredLabel { name }),
                    None => Ok(
                        t.header_line("int main(void){"@).emit_line("return 0;"@).emit_line(
                            "}"@,
                        ),
                    ),
                },
                Err(e) => Err(e),
            },
            Err(e) => Err(e),
        }
    }
}

/// No name is missing exactly if each wanted name is known.
pub proof fn lemma_first_missing(wanted: Seq<Seq<char>>, known: Seq<Seq<char>>)
    ensures
        first_missing(wanted, known) is None <==> forall|i: int|
            0 <= i < wanted.len() ==> known.contains(#[trigger] wanted[i]),
        first_missing(wanted, known) matches Some(name) ==> wanted.contains(name)
            && !known.contains(name),
    decreases wanted.len(),
{
    if wanted.len() > 0 {
        let rest = wanted.drop_first();
        lemma_first_missing(rest, known);
        if known.contains(wanted[0]) {
            if first_missing(rest, known) is None {
                assert forall|i: int| 0 <= i < wanted.len() implies known.contains(
                    #[trigger] wanted[i],
                ) by {
                    if i > 0 {
                        assert(wanted[i] == rest[i - 1]);
                    }
                }
            } else {
                let name = first_missing(rest, known)->Some_0;
                let i = choose|i: int| 0 <= i < rest.len() && rest[i] == name;
                assert(wanted[i + 1] == name);
            }
            if forall|i: int| 0 <= i < wanted.len() ==> known.contains(#[trigger] wanted[i]) {
                assert forall|i: int| 0 <= i < rest.len() implies known.contains(
                    #[trigger] rest[i],
                ) by {
                    assert(rest[i] == wanted[i + 1]);
                }
            }
        } else {
            assert(wanted[0] == wanted[0]);
        }
    }
}

/// Sliding the window never leaves more to consume, and leaves less when the
/// token it drops is not `EOF`. The cursor then has to go no further than
/// before; where the token is `EOF` it may have to go one position further.
pub proof fn lemma_advance(s: ParserView)
    ensures
        s.advance() matches Ok(t) ==> {
            &&& t.remaining() <= s.remaining()
            &&& s.cur.kind != TokenKind::EOF ==> t.remaining() < s.remaining()
            &&& s.lexer.pos <= t.lexer.pos
            &&& 0 <= s.lexer.pos ==> t.reach() <= s.reach() + 1
            &&& 0 <= s.lexer.pos && s.cur.kind != TokenKind::EOF ==> t.reach() <= s.reach()
        },
        s.advance() is Err ==> 0 <= s.lexer.pos < s.lexer.source.len() && s.lexer.pos <= lex_at(
            s.lexer.source,
            s.lexer.pos,
        ).next <= s.lexer.source.len(),
{
    lemma_lex_progress(s.lexer.source, s.lexer.pos);
}

/// `skip_newlines` leaves no more to consume than there was.
pub proof fn lemma_skip_newlines(s: ParserView)
    ensures
        s.skip_newlines() matches Ok(t) ==> t.remaining() <= s.remaining(),
    decreases s.remaining(),
{
    if s.cur.kind == TokenKind::NEWLINE {
        lemma_advance(s);
        if let Ok(t) = s.advance() {
            lemma_skip_newlines(t);
        }
    }
}

/// `nl` consumes at least one token.
pub proof fn lemma_nl(s: ParserView)
    ensures
        s.nl() matches Ok(t) ==> t.remaining() < s.remaining(),
{
    if s.cur.kind == TokenKind::NEWLINE {
        lemma_advance(s);
        if let Ok(t) = s.advance() {
            lemma_skip_newlines(t);
        }
    }
}

/// `primary` consumes at least one token.
pub proof fn lemma_primary(s: ParserView)
    ensures
        s.primary() matches Ok(t) ==> t.remaining() < s.remaining(),
{
    lemma_advance(s.emit(s.cur.text));
}

/// `unary` consumes at least one token.
pub proof fn lemma_unary(s: ParserView)
    ensures
        s.unary() matches Ok(t) ==> t.remaining() < s.remaining(),
{
    lemma_primary(s);
    lemma_advance(s.emit(s.cur.text));
    if let Ok(t) = s.transcribe() {
        lemma_primary(t);
    }
}

/// `term_tail` leaves no more to consume than there was.
pub proof fn lemma_term_tail(s: ParserView)
    ensures
        s.term_tail() matches Ok(t) ==> t.remaining() <= s.remaining(),
    decreases s.remaining(),
{
    if s.cur.kind == TokenKind::ASTERISK || s.cur.kind == TokenKind::SLASH {
        lemma_advance(s.emit(s.cur.text));
        if let Ok(t) = s.transcribe() {
            lemma_unary(t);
            if let Ok(u) = t.unary() {
                lemma_term_tail(u);
            }
        }
    }
}

/// `term` consumes at least one token.
pub proof fn lemma_term(s: ParserView)
    ensures
        s.term() matches Ok(t) ==> t.remaining() < s.remaining(),
{
    lemma_unary(s);
    if let Ok(t) = s.unary() {
        lemma_term_tail(t);
    }
}

/// `expression_tail` leaves no more to consume than there was.
pub proof fn lemma_expression_tail(s: ParserView)
    ensures
        s.expression_tail() matches Ok(t) ==> t.remaining() <= s.remaining(),
    decreases s.remaining(),
{
    if s.cur.kind == TokenKind::PLUS || s.cur.kind == TokenKind::MINUS {
        lemma_advance(s.emit(s.cur.text));
        if let Ok(t) = s.transcribe() {
            lemma_term(t);
            if let Ok(u) = t.term() {
                lemma_expression_tail(u);
            }
        }
    }
}

/// `expression` consumes at least one token.
pub proof fn lemma_expression(s: ParserView)
    ensures
        s.expression() matches Ok(t) ==> t.remaining() < s.remaining(),
{
    lemma_term(s);
    if let Ok(t) = s.term() {
        lemma_expression_tail(t);
    }
}

/// `comparison_tail` leaves no more to consume than there was.
pub proof fn lemma_comparison_tail(s: ParserView)
    ensures
        s.comparison_tail() matches Ok(t) ==> t.remaining() <= s.remaining(),
    decreases s.remaining(),
{
    if comparison_operator(s.cur.kind) {
        lemma_advance(s.emit(s.cur.text));
        if let Ok(t) = s.transcribe() {
            lemma_expression(t);
            if let Ok(u) = t.expression() {
                lemma_comparison_tail(u);
            }
        }
    }
}

/// `comparison` consumes at least one token.
pub proof fn lemma_comparison(s: ParserView)
    ensures
        s.comparison() matches Ok(t) ==> t.remaining() < s.remaining(),
{
    lemma_expression(s);
    if let Ok(t) = s.expression() {
        lemma_comparison_tail(t);
    }
}

/// The opening of a compound statement, entered at a token that is not
/// `EOF`, consumes at least one token.
pub proof fn lemma_compound_head(s: ParserView, head: Seq<char>, then: TokenKind)
    requires
        s.cur.kind != TokenKind::EOF,
    ensures
        s.compound_head(head, then) matches Ok(t) ==> t.remaining() < s.remaining(),
{
    lemma_advance(s);
    if let Ok(t) = s.advance() {
        lemma_comparison(t.emit(head));
        if let Ok(u) = t.emit(head).comparison() {
            if u.cur.kind == then {
                lemma_advance(u);
                if let Ok(v) = u.advance() {
                    lemma_nl(v);
                }
            }
        }
    }
}

/// A statement consumes at least one token.
pub proof fn lemma_statement(s: ParserView)
    ensures
        s.statement() matches Ok(t) ==> t.remaining() < s.remaining(),
    decreases s.remaining(), 1nat,
{
    match s.cur.kind {
        TokenKind::PRINT => {
            lemma_advance(s);
            if let Ok(t) = s.advance() {
                lemma_advance(t.emit_line("printf(\""@ + t.cur.text + "\");"@).emit_line(
                    "printf(\"\\n\");"@,
                ));
                lemma_expression(t.emit("printf(\"%.2f\", (float)("@));
            }
            if let Ok(t) = s.print_statement() {
                lemma_nl(t);
            }
        },
        TokenKind::IF => {
            lemma_compound(s, "if("@, TokenKind::THEN, TokenKind::ENDIF);
        },
        TokenKind::WHILE => {
            lemma_compound(s, "while("@, TokenKind::REPEAT, TokenKind::ENDWHILE);
        },
        TokenKind::LABEL => {
            lemma_advance(s);
            if let Ok(t) = s.advance() {
                lemma_advance(
                    ParserView {
                        labels_declared: t.labels_declared.push(t.cur.text),
                        ..t
                    }.emit_line(t.cur.text + ":"@),
                );
            }
            if let Ok(t) = s.label_statement() {
                lemma_nl(t);
            }
        },
        TokenKind::GOTO => {
            lemma_advance(s);
            if let Ok(t) = s.advance() {
                lemma_advance(
                    ParserView {
                        labels_gotoed: with_name(t.labels_gotoed, t.cur.text),
                        ..t
                    }.emit_line("goto "@ + t.cur.text + ";"@),
                );
            }
            if let Ok(t) = s.goto_statement() {
                lemma_nl(t);
            }
        },
        TokenKind::LET => {
            lemma_advance(s);
            if let Ok(t) = s.advance() {
                let named = t.declare(t.cur.text).emit(t.cur.text + " = "@);
                lemma_advance(named);
                if let Ok(u) = named.expect(TokenKind::IDENT) {
                    lemma_advance(u);
                    if let Ok(v) = u.expect(TokenKind::EQ) {
                        lemma_expression(v);
                    }
                }
            }
            if let Ok(t) = s.let_statement() {
                lemma_nl(t);
            }
        },
        TokenKind::INPUT => {
            lemma_advance(s);
            if let Ok(t) = s.advance() {
                lemma_advance(
                    t.declare(t.cur.text).emit_line(
                        "if(0 == scanf(\"%f\", &"@ + t.cur.text + ")) {"@,
                    ).emit_line(t.cur.text + " = 0;"@).emit("scanf(\"%"@).emit_line(
                        "*s\");"@,
                    ).emit_line("}"@),
                );
            }
            if let Ok(t) = s.input_statement() {
                lemma_nl(t);
            }
        },
        _ => {},
    }
}

/// A compound statement, from its keyword through the `nl` after its end,
/// consumes at least one token.
proof fn lemma_compound(s: ParserView, head: Seq<char>, then: TokenKind, end: TokenKind)
    requires
        s.cur.kind != TokenKind::EOF,
    ensures
        s.compound_head(head, then) matches Ok(t) ==> (t.block(end) matches Ok(u) ==> (
        u.compound_end(end) matches Ok(v) ==> (v.nl() matches Ok(w) ==> w.remaining()
            < s.remaining()))),
    decreases s.remaining(), 0nat,
{
    lemma_compound_head(s, head, then);
    if let Ok(t) = s.compound_head(head, then) {
        lemma_block(t, end);
        if let Ok(u) = t.block(end) {
            lemma_advance(u);
            if let Ok(v) = u.compound_end(end) {
                lemma_nl(v);
            }
        }
    }
}

/// A block leaves no more to consume than there was, and stops at a token
/// of kind `end`.
pub proof fn lemma_block(s: ParserView, end: TokenKind)
    ensures
        s.block(end) matches Ok(t) ==> t.remaining() <= s.remaining() && t.cur.kind == end,
    decreases s.remaining(), 2nat,
{
    if s.cur.kind != end {
        lemma_statement(s);
        if let Ok(t) = s.statement() {
            lemma_block(t, end);
        }
    }
}

} // verus!
