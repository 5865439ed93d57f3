//! The recursive-descent parser, which emits target text as it recognises
//! each production.
use crate::emit::Emitter;
use crate::error::ParseError;
use crate::grammar::{
    comparison_operator, first_missing, lemma_advance, lemma_compound_head, lemma_expression,
    lemma_statement, lemma_term, lemma_unary, no_token, with_name, Parsed, ParserView,
};
use crate::lex::{Lexer, Token, TokenKind};
use vstd::prelude::*;
use vstd::string::*;

verus! {

/// The names held in `v`, each as a sequence of characters.
pub open spec fn names(v: Seq<String>) -> Seq<Seq<char>> {
    Seq::new(v.len(), |i: int| v[i]@)
}

/// Whether `r` and the state `after` are what the production's outcome
/// `parsed` asks for: on success that state, on failure that error.
pub open spec fn agrees(r: Result<(), ParseError>, after: ParserView, parsed: Parsed) -> bool {
    match parsed {
        Ok(s) => r is Ok && after == s,
        Err(e) => r matches Err(x) && x@ == e,
    }
}

/// Whether `name` is one of `list`.
pub fn contains_name(list: &Vec<String>, name: &String) -> (found: bool)
    ensures
        found == names(list@).contains(name@),
{
    let mut i: usize = 0;
    while i < list.len()
        invariant
            i <= list.len(),
            forall|j: int| 0 <= j < i ==> names(list@)[j] != name@,
        decreases list.len() - i,
    {
        if list[i] == *name {
            assert(names(list@)[i as int] == name@);
            return true;
        }
        i += 1;
    }
    false
}

/// Whether the cursor of `lx` has room for a parse to begin: for the text
/// before it and for the two scans that fill the window of a new parser.
pub fn room_to_parse(lx: &Lexer, em: &Emitter) -> (b: bool)
    requires
        lx.wf(),
    ensures
        b == ParserView::fresh(lx@, em@).has_room(),
{
    lx.cur_pos <= i32::MAX - 2 && lx.source.len() <= (i32::MAX - 2) as usize
}

/// The parser: the lexer it pulls tokens from, the emitter it pushes text
/// to, two tokens of lookahead, and the names met so far.
///
/// The emitter is borrowed for as long as the parser lives. Every method
/// says of it, besides what it appends, that the parser still writes to the
/// emitter it was made with: what `emitter` holds when the borrow ends is
/// what its owner finds.
pub struct Parser<'a> {
    pub lexer: Lexer,
    pub emitter: &'a mut Emitter,
    /// The token that the grammar is looking at.
    pub cur_token: Token,
    /// The token after it.
    pub peek_token: Token,
    /// Variables declared so far.
    pub symbols: Vec<String>,
    /// Labels declared so far.
    pub labels_declared: Vec<String>,
    /// Labels that a `GOTO` names.
    pub labels_gotoed: Vec<String>,
}

impl<'a> View for Parser<'a> {
    type V = ParserView;

    open spec fn view(&self) -> ParserView {
        ParserView {
            lexer: self.lexer@,
            emitter: self.emitter@,
            cur: self.cur_token@,
            peek: self.peek_token@,
            symbols: names(self.symbols@),
            labels_declared: names(self.labels_declared@),
            labels_gotoed: names(self.labels_gotoed@),
        }
    }
}

impl<'a> Parser<'a> {
    /// The lexer is well formed, its cursor has room to go as far as the
    /// tokens still to be consumed may take it, and no name stands twice in
    /// any of the three lists.
    pub open spec fn wf(&self) -> bool {
        &&& self.lexer.wf()
        &&& self@.has_room()
        &&& names(self.symbols@).no_duplicates()
        &&& names(self.labels_declared@).no_duplicates()
        &&& names(self.labels_gotoed@).no_duplicates()
    }

    /// A parser over `lx` that emits to `em`, with both tokens of lookahead
    /// read. The cursor of `lx` has to have room for the text before it and
    /// for the two scans that fill the window.
    pub fn new(lx: Lexer, em: &'a mut Emitter) -> (r: Result<Parser<'a>, ParseError>)
        requires
            lx.wf(),
            ParserView::fresh(lx@, old(em)@).has_room(),
        ensures
            match ParserView::start(lx@, old(em)@) {
                Ok(s) => r matches Ok(p) && p.wf() && p@ == s && *final(p.emitter) == *final(em),
                Err(e) => r matches Err(x) && x@ == e && final(em)@ == old(em)@,
            },
    {
        let mut p = Parser {
            lexer: lx,
            emitter: em,
            cur_token: Token { text: String::new(), token_type: TokenKind::NONE },
            peek_token: Token { text: String::new(), token_type: TokenKind::NONE },
            symbols: Vec::new(),
            labels_declared: Vec::new(),
            labels_gotoed: Vec::new(),
        };
        assert(p@.cur =~~= no_token());
        assert(p@.symbols =~~= Seq::empty());
        assert(p@ =~~= ParserView::fresh(lx@, old(em)@));
        p.next_token()?;
        p.next_token()?;
        Ok(p)
    }

    /// Whether the current token is of kind `kind`.
    pub fn check_token(&self, kind: &TokenKind) -> (b: bool)
        ensures
            b == (self@.cur.kind == *kind),
    {
        self.cur_token.token_type == *kind
    }

    /// Whether the token after the current one is of kind `kind`.
    pub fn check_peek(&self, kind: TokenKind) -> (b: bool)
        ensures
            b == (self@.peek.kind == kind),
    {
        self.peek_token.token_type == kind
    }

    /// Consumes the current token, which has to be of kind `kind`.
    pub fn match_token(&mut self, kind: &TokenKind) -> (r: Result<(), ParseError>)
        requires
            old(self).wf(),
            old(self)@.cur.kind == *kind ==> old(self)@.can_advance(),
        ensures
            final(self).wf(),
            *final(final(self).emitter) == *final(old(self).emitter),
            final(self)@.unmoved(old(self)@),
            agrees(r, final(self)@, old(self)@.expect(*kind)),
    {
        if !self.check_token(kind) {
            return Err(ParseError::Expected { expected: *kind, found: self.cur_token.token_type });
        }
        self.next_token()
    }

    /// Slides the lookahead window one token on.
    pub fn next_token(&mut self) -> (r: Result<(), ParseError>)
        requires
            old(self).wf(),
            old(self)@.can_advance(),
        ensures
            final(self).wf(),
            *final(final(self).emitter) == *final(old(self).emitter),
            final(self)@.unmoved(old(self)@),
            agrees(r, final(self)@, old(self)@.advance()),
            final(self)@.emitter == old(self)@.emitter,
    {
        proof {
            lemma_advance(self@);
        }
        match self.lexer.get_token() {
            Ok(token) => {
                self.cur_token = self.peek_token.clone();
                self.peek_token = token;
                Ok(())
            },
            Err(e) => Err(ParseError::Lex(e)),
        }
    }

    /// Emits the text of the current token and consumes the token.
    fn transcribe(&mut self) -> (r: Result<(), ParseError>)
        requires
            old(self).wf(),
            old(self)@.can_advance(),
        ensures
            final(self).wf(),
            *final(final(self).emitter) == *final(old(self).emitter),
            final(self)@.unmoved(old(self)@),
            agrees(r, final(self)@, old(self)@.transcribe()),
    {
        self.emitter.emit(self.cur_token.text.as_str());
        self.next_token()
    }

    /// `nl ::= NEWLINE {NEWLINE}`
    pub fn nl(&mut self) -> (r: Result<(), ParseError>)
        requires
            old(self).wf(),
        ensures
            final(self).wf(),
            *final(final(self).emitter) == *final(old(self).emitter),
            final(self)@.unmoved(old(self)@),
            agrees(r, final(self)@, old(self)@.nl()),
    {
        self.match_token(&TokenKind::NEWLINE)?;
        self.skip_newlines()
    }

    /// Consumes the run of `NEWLINE` tokens at the current token.
    fn skip_newlines(&mut self) -> (r: Result<(), ParseError>)
        requires
            old(self).wf(),
        ensures
            final(self).wf(),
            *final(final(self).emitter) == *final(old(self).emitter),
            final(self)@.unmoved(old(self)@),
            agrees(r, final(self)@, old(self)@.skip_newlines()),
    {
        while self.check_token(&TokenKind::NEWLINE)
            invariant
                self.wf(),
                *final(self.emitter) == *final(old(self).emitter),
                self@.unmoved(old(self)@),
                self@.skip_newlines() == old(self)@.skip_newlines(),
            decreases self@.remaining(),
        {
            proof {
                lemma_advance(self@);
            }
            self.next_token()?;
        }
        Ok(())
    }

    /// `expression ::= term {("+"|"-") term}`
    pub fn expression(&mut self) -> (r: Result<(), ParseError>)
        requires
            old(self).wf(),
        ensures
            final(self).wf(),
            *final(final(self).emitter) == *final(old(self).emitter),
            final(self)@.unmoved(old(self)@),
            agrees(r, final(self)@, old(self)@.expression()),
    {
        self.term()?;
        while self.check_token(&TokenKind::PLUS) || self.check_token(&TokenKind::MINUS)
            invariant
                self.wf(),
                *final(self.emitter) == *final(old(self).emitter),
                self@.unmoved(old(self)@),
                self@.expression_tail() == old(self)@.expression(),
            decreases self@.remaining(),
        {
            let ghost before = self@;
            self.transcribe()?;
            let ghost operand = self@;
            self.term()?;
            proof {
                lemma_advance(before.emit(before.cur.text));
                lemma_term(operand);
            }
        }
        Ok(())
    }

    /// `comparison ::= expression comparisonOp expression {comparisonOp expression}`
    pub fn comparison(&mut self) -> (r: Result<(), ParseError>)
        requires
            old(self).wf(),
        ensures
            final(self).wf(),
            *final(final(self).emitter) == *final(old(self).emitter),
            final(self)@.unmoved(old(self)@),
            agrees(r, final(self)@, old(self)@.comparison()),
    {
        self.expression()?;
        if !self.is_comparison_operator() {
            return Err(ParseError::ExpectedComparison { text: self.cur_token.text.clone() });
        }
        while self.is_comparison_operator()
            invariant
                self.wf(),
                *final(self.emitter) == *final(old(self).emitter),
                self@.unmoved(old(self)@),
                self@.comparison_tail() == old(self)@.comparison(),
            decreases self@.remaining(),
        {
            let ghost before = self@;
            self.transcribe()?;
            let ghost operand = self@;
            self.expression()?;
            proof {
                lemma_advance(before.emit(before.cur.text));
                lemma_expression(operand);
            }
        }
        Ok(())
    }

    /// Whether the current token is a comparison operator.
    pub fn is_comparison_operator(&self) -> (b: bool)
        ensures
            b == comparison_operator(self@.cur.kind),
    {
        self.check_token(&TokenKind::GT) || self.check_token(&TokenKind::GTEQ) || self.check_token(
            &TokenKind::LT,
        ) || self.check_token(&TokenKind::LTEQ) || self.check_token(&TokenKind::EQEQ)
            || self.check_token(&TokenKind::NOTEQ)
    }

    /// `term ::= unary {("*"|"/") unary}`
    pub fn term(&mut self) -> (r: Result<(), ParseError>)
        requires
            old(self).wf(),
        ensures
            final(self).wf(),
            *final(final(self).emitter) == *final(old(self).emitter),
            final(self)@.unmoved(old(self)@),
            agrees(r, final(self)@, old(self)@.term()),
    {
        self.unary()?;
        while self.check_token(&TokenKind::ASTERISK) || self.check_token(&TokenKind::SLASH)
            invariant
                self.wf(),
                *final(self.emitter) == *final(old(self).emitter),
                self@.unmoved(old(self)@),
                self@.term_tail() == old(self)@.term(),
            decreases self@.remaining(),
        {
            let ghost before = self@;
            self.transcribe()?;
            let ghost operand = self@;
            self.unary()?;
            proof {
                lemma_advance(before.emit(before.cur.text));
                lemma_unary(operand);
            }
        }
        Ok(())
    }

    /// `unary ::= ["+"|"-"] primary`
    pub fn unary(&mut self) -> (r: Result<(), ParseError>)
        requires
            old(self).wf(),
        ensures
            final(self).wf(),
            *final(final(self).emitter) == *final(old(self).emitter),
            final(self)@.unmoved(old(self)@),
            agrees(r, final(self)@, old(self)@.unary()),
    {
        if self.check_token(&TokenKind::PLUS) || self.check_token(&TokenKind::MINUS) {
            self.transcribe()?;
        }
        self.primary()
    }

    /// `primary ::= NUMBER | IDENT`, where the identifier has to be a
    /// declared variable.
    pub fn primary(&mut self) -> (r: Result<(), ParseError>)
        requires
            old(self).wf(),
        ensures
            final(self).wf(),
            *final(final(self).emitter) == *final(old(self).emitter),
            final(self)@.unmoved(old(self)@),
            agrees(r, final(self)@, old(self)@.primary()),
    {
        if self.check_token(&TokenKind::NUMBER) {
            self.transcribe()
        } else if self.check_token(&TokenKind::IDENT) {
            if !contains_name(&self.symbols, &self.cur_token.text) {
                return Err(ParseError::UndeclaredVariable { name: self.cur_token.text.clone() });
            }
            self.transcribe()
        } else {
            Err(ParseError::UnexpectedToken { text: self.cur_token.text.clone() })
        }
    }

    /// Declares the variable that the current token names: on first sight
    /// the name joins the symbols and its declaration goes to the header.
    fn declare_current(&mut self)
        requires
            old(self).wf(),
        ensures
            final(self).wf(),
            *final(final(self).emitter) == *final(old(self).emitter),
            final(self)@.unmoved(old(self)@),
            final(self)@ == old(self)@.declare(old(self)@.cur.text),
    {
        if !contains_name(&self.symbols, &self.cur_token.text) {
            self.symbols.push(self.cur_token.text.clone());
            let mut line = String::from_str("float ");
            line.append(self.cur_token.text.as_str());
            line.append(";");
            self.emitter.header_line(line.as_str());
            proof {
                assert(names(self.symbols@) =~= names(old(self).symbols@).push(
                    old(self)@.cur.text,
                ));
                assert(self@ =~~= old(self)@.declare(old(self)@.cur.text));
            }
        }
    }

    /// `"PRINT" (expression | STRING)`
    fn print_statement(&mut self) -> (r: Result<(), ParseError>)
        requires
            old(self).wf(),
            old(self)@.cur.kind != TokenKind::EOF,
        ensures
            final(self).wf(),
            *final(final(self).emitter) == *final(old(self).emitter),
            final(self)@.unmoved(old(self)@),
            agrees(r, final(self)@, old(self)@.print_statement()),
    {
        self.next_token()?;
        if self.check_token(&TokenKind::STRING) {
            let mut line = String::from_str("printf(\"");
            line.append(self.cur_token.text.as_str());
            line.append("\");");
            self.emitter.emit_line(line.as_str());
            self.emitter.emit_line("printf(\"\\n\");");
            self.next_token()
        } else {
            self.emitter.emit("printf(\"%.2f\", (float)(");
            self.expression()?;
            self.emitter.emit_line("));");
            Ok(())
        }
    }

    /// `"LABEL" IDENT`, where the label has to be new.
    fn label_statement(&mut self) -> (r: Result<(), ParseError>)
        requires
            old(self).wf(),
            old(self)@.cur.kind != TokenKind::EOF,
        ensures
            final(self).wf(),
            *final(final(self).emitter) == *final(old(self).emitter),
            final(self)@.unmoved(old(self)@),
            agrees(r, final(self)@, old(self)@.label_statement()),
    {
        self.next_token()?;
        if contains_name(&self.labels_declared, &self.cur_token.text) {
            return Err(ParseError::DuplicateLabel { name: self.cur_token.text.clone() });
        }
        let ghost before = self@;
        self.labels_declared.push(self.cur_token.text.clone());
        let mut line = self.cur_token.text.clone();
        line.append(":");
        self.emitter.emit_line(line.as_str());
        proof {
            assert(names(self.labels_declared@) =~= before.labels_declared.push(before.cur.text));
            assert(self@ =~~= ParserView {
                labels_declared: before.labels_declared.push(before.cur.text),
                ..before
            }.emit_line(before.cur.text + ":"@));
        }
        self.match_token(&TokenKind::IDENT)
    }

    /// `"GOTO" IDENT`, whose label may be declared later in the program.
    fn goto_statement(&mut self) -> (r: Result<(), ParseError>)
        requires
            old(self).wf(),
            old(self)@.cur.kind != TokenKind::EOF,
        ensures
            final(self).wf(),
            *final(final(self).emitter) == *final(old(self).emitter),
            final(self)@.unmoved(old(self)@),
            agrees(r, final(self)@, old(self)@.goto_statement()),
    {
        self.next_token()?;
        let ghost before = self@;
        if !contains_name(&self.labels_gotoed, &self.cur_token.text) {
            self.labels_gotoed.push(self.cur_token.text.clone());
            proof {
                assert(names(self.labels_gotoed@) =~= before.labels_gotoed.push(before.cur.text));
            }
        }
        let mut line = String::from_str("goto ");
        line.append(self.cur_token.text.as_str());
        line.append(";");
        self.emitter.emit_line(line.as_str());
        proof {
            assert(self@ =~~= ParserView {
                labels_gotoed: with_name(before.labels_gotoed, before.cur.text),
                ..before
            }.emit_line("goto "@ + before.cur.text + ";"@));
        }
        self.match_token(&TokenKind::IDENT)
    }

    /// `"LET" IDENT "=" expression`
    fn let_statement(&mut self) -> (r: Result<(), ParseError>)
        requires
            old(self).wf(),
            old(self)@.cur.kind != TokenKind::EOF,
        ensures
            final(self).wf(),
            *final(final(self).emitter) == *final(old(self).emitter),
            final(self)@.unmoved(old(self)@),
            agrees(r, final(self)@, old(self)@.let_statement()),
    {
        self.next_token()?;
        self.declare_current();
        let mut target = self.cur_token.text.clone();
        target.append(" = ");
        self.emitter.emit(target.as_str());
        self.match_token(&TokenKind::IDENT)?;
        self.match_token(&TokenKind::EQ)?;
        self.expression()?;
        self.emitter.emit_line(";");
        Ok(())
    }

    /// `"INPUT" IDENT`
    fn input_statement(&mut self) -> (r: Result<(), ParseError>)
        requires
            old(self).wf(),
            old(self)@.cur.kind != TokenKind::EOF,
        ensures
            final(self).wf(),
            *final(final(self).emitter) == *final(old(self).emitter),
            final(self)@.unmoved(old(self)@),
            agrees(r, final(self)@, old(self)@.input_statement()),
    {
        self.next_token()?;
        self.declare_current();
        let mut read = String::from_str("if(0 == scanf(\"%f\", &");
        read.append(self.cur_token.text.as_str());
        read.append(")) {");
        self.emitter.emit_line(read.as_str());
        let mut reset = self.cur_token.text.clone();
        reset.append(" = 0;");
        self.emitter.emit_line(reset.as_str());
        self.emitter.emit("scanf(\"%");
        self.emitter.emit_line("*s\");");
        self.emitter.emit_line("}");
        self.match_token(&TokenKind::IDENT)
    }

    /// The opening of `IF` and of `WHILE`: the keyword, the comparison
    /// inside `head` and `){`, the token `then`, and `nl`.
    fn compound_head(&mut self, head: &str, then: TokenKind) -> (r: Result<(), ParseError>)
        requires
            old(self).wf(),
            old(self)@.cur.kind != TokenKind::EOF,
            then != TokenKind::EOF,
        ensures
            final(self).wf(),
            *final(final(self).emitter) == *final(old(self).emitter),
            final(self)@.unmoved(old(self)@),
            agrees(r, final(self)@, old(self)@.compound_head(head@, then)),
    {
        self.next_token()?;
        self.emitter.emit(head);
        self.comparison()?;
        self.match_token(&then)?;
        self.nl()?;
        self.emitter.emit_line("){");
        Ok(())
    }

    /// The close of `IF` and of `WHILE`: the token `end`, and `}`.
    fn compound_end(&mut self, end: TokenKind) -> (r: Result<(), ParseError>)
        requires
            old(self).wf(),
            end != TokenKind::EOF,
        ensures
            final(self).wf(),
            *final(final(self).emitter) == *final(old(self).emitter),
            final(self)@.unmoved(old(self)@),
            agrees(r, final(self)@, old(self)@.compound_end(end)),
    {
        self.match_token(&end)?;
        self.emitter.emit_line("}");
        Ok(())
    }

    /// Statements up to a current token of kind `end`, which stays.
    fn block(&mut self, end: TokenKind) -> (r: Result<(), ParseError>)
        requires
            old(self).wf(),
        ensures
            final(self).wf(),
            *final(final(self).emitter) == *final(old(self).emitter),
            final(self)@.unmoved(old(self)@),
            agrees(r, final(self)@, old(self)@.block(end)),
        decreases old(self)@.remaining(), 1nat,
    {
        while !self.check_token(&end)
            invariant
                self.wf(),
                *final(self.emitter) == *final(old(self).emitter),
                self@.unmoved(old(self)@),
                self@.block(end) == old(self)@.block(end),
                self@.remaining() <= old(self)@.remaining(),
            decreases self@.remaining(),
        {
            proof {
                lemma_statement(self@);
            }
            self.statement()?;
        }
        Ok(())
    }

    /// One statement, up to and including the `nl` that ends it.
    pub fn statement(&mut self) -> (r: Result<(), ParseError>)
        requires
            old(self).wf(),
        ensures
            final(self).wf(),
            *final(final(self).emitter) == *final(old(self).emitter),
            final(self)@.unmoved(old(self)@),
            agrees(r, final(self)@, old(self)@.statement()),
        decreases old(self)@.remaining(), 0nat,
    {
        match self.cur_token.token_type {
            TokenKind::PRINT => {
                self.print_statement()?;
            },
            TokenKind::IF => {
                proof {
                    lemma_compound_head(self@, "if("@, TokenKind::THEN);
                }
                self.compound_head("if(", TokenKind::THEN)?;
                self.block(TokenKind::ENDIF)?;
                self.compound_end(TokenKind::ENDIF)?;
            },
            TokenKind::WHILE => {
                proof {
                    lemma_compound_head(self@, "while("@, TokenKind::REPEAT);
                }
                self.compound_head("while(", TokenKind::REPEAT)?;
                self.block(TokenKind::ENDWHILE)?;
                self.compound_end(TokenKind::ENDWHILE)?;
            },
            TokenKind::LABEL => {
                self.label_statement()?;
            },
            TokenKind::GOTO => {
                self.goto_statement()?;
            },
            TokenKind::LET => {
                self.let_statement()?;
            },
            TokenKind::INPUT => {
                self.input_statement()?;
            },
            _ => {
                return Err(
                    ParseError::InvalidStatement {
                        text: self.cur_token.text.clone(),
                        kind: self.cur_token.token_type,
                    },
                );
            },
        }
        self.nl()
    }

    /// The first label that a `GOTO` names and no `LABEL` declares.
    fn undeclared_label(&self) -> (r: Option<String>)
        ensures
            match first_missing(self@.labels_gotoed, self@.labels_declared) {
                Some(name) => r matches Some(found) && found@ == name,
                None => r is None,
            },
    {
        let mut i: usize = 0;
        assert(self@.labels_gotoed.subrange(0, self@.labels_gotoed.len() as int)
            =~= self@.labels_gotoed);
        while i < self.labels_gotoed.len()
            invariant
                i <= self.labels_gotoed.len(),
                first_missing(
                    self@.labels_gotoed.subrange(i as int, self@.labels_gotoed.len() as int),
                    self@.labels_declared,
                ) == first_missing(self@.labels_gotoed, self@.labels_declared),
            decreases self.labels_gotoed.len() - i,
        {
            let ghost rest = self@.labels_gotoed.subrange(
                i as int,
                self@.labels_gotoed.len() as int,
            );
            assert(rest[0] == self.labels_gotoed@[i as int]@);
            assert(rest.drop_first() =~= self@.labels_gotoed.subrange(
                i + 1,
                self@.labels_gotoed.len() as int,
            ));
            if !contains_name(&self.labels_declared, &self.labels_gotoed[i]) {
                return Some(self.labels_gotoed[i].clone());
            }
            i += 1;
        }
        None
    }

    /// `program ::= {NEWLINE} {statement}`
    ///
    /// The include directive goes to the header first. Once the whole
    /// program is parsed, the opening of the entry routine goes to the header,
    /// behind the declarations, and the epilogue to the body. Only then are
    /// the labels that a `GOTO` names held against the declared ones.
    pub fn program(&mut self) -> (r: Result<(), ParseError>)
        requires
            old(self).wf(),
        ensures
            final(self).wf(),
            *final(final(self).emitter) == *final(old(self).emitter),
            final(self)@.unmoved(old(self)@),
            agrees(r, final(self)@, old(self)@.program()),
    {
        self.emitter.header_line("#include <stdio.h>");
        self.skip_newlines()?;
        self.block(TokenKind::EOF)?;
        self.emitter.header_line("int main(void){");
        self.emitter.emit_line("return 0;");
        self.emitter.emit_line("}");
        match self.undeclared_label() {
            Some(name) => Err(ParseError::UndeclaredLabel { name }),
            None => Ok(()),
        }
    }
}

} // verus!
