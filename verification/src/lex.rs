//! Lexical analysis: a flat sequence of characters becomes classified tokens.
use crate::chars::{unicode_alphabetic, unicode_numeric};
use vstd::prelude::*;
use vstd::string::*;

verus! {

/// The four bands into which the kinds of token fall.
#[derive(Clone, Copy, Debug, PartialEq, Eq, Structural, Hash)]
pub enum TokenBand {
    /// The markers `NONE`, `LEX_ERR` and `EOF`.
    Control,
    /// `NEWLINE`, `NUMBER`, `IDENT` and `STRING`.
    Structure,
    /// The keywords, `LABEL` through `ENDWHILE`.
    Keyword,
    /// The operators, `EQ` through `GTEQ`.
    Operator,
}

/// The classification attached to a lexeme.
#[allow(non_camel_case_types)]
#[derive(Clone, Copy, Debug, PartialEq, Eq, Structural, Hash)]
pub enum TokenKind {
    NONE,
    LEX_ERR,
    EOF,
    NEWLINE,
    NUMBER,
    IDENT,
    STRING,
    LABEL,
    GOTO,
    PRINT,
    INPUT,
    LET,
    IF,
    THEN,
    ENDIF,
    WHILE,
    REPEAT,
    ENDWHILE,
    EQ,
    PLUS,
    MINUS,
    ASTERISK,
    SLASH,
    EQEQ,
    NOTEQ,
    LT,
    LTEQ,
    GT,
    GTEQ,
}

impl TokenKind {
    /// The band of this kind.
    pub open spec fn band_spec(self) -> TokenBand {
        match self {
            TokenKind::NONE
            | TokenKind::LEX_ERR
            | TokenKind::EOF => TokenBand::Control,
            TokenKind::NEWLINE
            | TokenKind::NUMBER
            | TokenKind::IDENT
            | TokenKind::STRING => TokenBand::Structure,
            TokenKind::LABEL
            | TokenKind::GOTO
            | TokenKind::PRINT
            | TokenKind::INPUT
            | TokenKind::LET
            | TokenKind::IF
            | TokenKind::THEN
            | TokenKind::ENDIF
            | TokenKind::WHILE
            | TokenKind::REPEAT
            | TokenKind::ENDWHILE => TokenBand::Keyword,
            TokenKind::EQ
            | TokenKind::PLUS
            | TokenKind::MINUS
            | TokenKind::ASTERISK
            | TokenKind::SLASH
            | TokenKind::EQEQ
            | TokenKind::NOTEQ
            | TokenKind::LT
            | TokenKind::LTEQ
            | TokenKind::GT
            | TokenKind::GTEQ => TokenBand::Operator,
        }
    }

    /// Whether this kind is one of the eleven keywords.
    pub open spec fn keyword(self) -> bool {
        self.band_spec() == TokenBand::Keyword
    }

    /// The name of this kind as a sequence of characters.
    pub open spec fn name_spec(self) -> Seq<char> {
        match self {
            TokenKind::NONE => "NONE"@,
            TokenKind::LEX_ERR => "LEX_ERR"@,
            TokenKind::EOF => "EOF"@,
            TokenKind::NEWLINE => "NEWLINE"@,
            TokenKind::NUMBER => "NUMBER"@,
            TokenKind::IDENT => "IDENT"@,
            TokenKind::STRING => "STRING"@,
            TokenKind::LABEL => "LABEL"@,
            TokenKind::GOTO => "GOTO"@,
            TokenKind::PRINT => "PRINT"@,
            TokenKind::INPUT => "INPUT"@,
            TokenKind::LET => "LET"@,
            TokenKind::IF => "IF"@,
            TokenKind::THEN => "THEN"@,
            TokenKind::ENDIF => "ENDIF"@,
            TokenKind::WHILE => "WHILE"@,
            TokenKind::REPEAT => "REPEAT"@,
            TokenKind::ENDWHILE => "ENDWHILE"@,
            TokenKind::EQ => "EQ"@,
            TokenKind::PLUS => "PLUS"@,
            TokenKind::MINUS => "MINUS"@,
            TokenKind::ASTERISK => "ASTERISK"@,
            TokenKind::SLASH => "SLASH"@,
            TokenKind::EQEQ => "EQEQ"@,
            TokenKind::NOTEQ => "NOTEQ"@,
            TokenKind::LT => "LT"@,
            TokenKind::LTEQ => "LTEQ"@,
            TokenKind::GT => "GT"@,
            TokenKind::GTEQ => "GTEQ"@,
        }
    }

    /// The band of this kind.
    pub fn band(self) -> (b: TokenBand)
        ensures
            b == self.band_spec(),
    {
        match self {
            TokenKind::NONE
            | TokenKind::LEX_ERR
            | TokenKind::EOF => TokenBand::Control,
            TokenKind::NEWLINE
            | TokenKind::NUMBER
            | TokenKind::IDENT
            | TokenKind::STRING => TokenBand::Structure,
            TokenKind::LABEL
            | TokenKind::GOTO
            | TokenKind::PRINT
            | TokenKind::INPUT
            | TokenKind::LET
            | TokenKind::IF
            | TokenKind::THEN
            | TokenKind::ENDIF
            | TokenKind::WHILE
            | TokenKind::REPEAT
            | TokenKind::ENDWHILE => TokenBand::Keyword,
            TokenKind::EQ
            | TokenKind::PLUS
            | TokenKind::MINUS
            | TokenKind::ASTERISK
            | TokenKind::SLASH
            | TokenKind::EQEQ
            | TokenKind::NOTEQ
            | TokenKind::LT
            | TokenKind::LTEQ
            | TokenKind::GT
            | TokenKind::GTEQ => TokenBand::Operator,
        }
    }

    /// Whether this kind is a keyword.
    pub fn is_keyword(self) -> (b: bool)
        ensures
            b == self.keyword(),
    {
        self.band() == TokenBand::Keyword
    }

    /// The name of this kind, as diagnostics print it and as keywords are spelled.
    pub fn name(self) -> (s: &'static str)
        ensures
            s@ == self.name_spec(),
    {
        match self {
            TokenKind::NONE => "NONE",
            TokenKind::LEX_ERR => "LEX_ERR",
            TokenKind::EOF => "EOF",
            TokenKind::NEWLINE => "NEWLINE",
            TokenKind::NUMBER => "NUMBER",
            TokenKind::IDENT => "IDENT",
            TokenKind::STRING => "STRING",
            TokenKind::LABEL => "LABEL",
            TokenKind::GOTO => "GOTO",
            TokenKind::PRINT => "PRINT",
            TokenKind::INPUT => "INPUT",
            TokenKind::LET => "LET",
            TokenKind::IF => "IF",
            TokenKind::THEN => "THEN",
            TokenKind::ENDIF => "ENDIF",
            TokenKind::WHILE => "WHILE",
            TokenKind::REPEAT => "REPEAT",
            TokenKind::ENDWHILE => "ENDWHILE",
            TokenKind::EQ => "EQ",
            TokenKind::PLUS => "PLUS",
            TokenKind::MINUS => "MINUS",
            TokenKind::ASTERISK => "ASTERISK",
            TokenKind::SLASH => "SLASH",
            TokenKind::EQEQ => "EQEQ",
            TokenKind::NOTEQ => "NOTEQ",
            TokenKind::LT => "LT",
            TokenKind::LTEQ => "LTEQ",
            TokenKind::GT => "GT",
            TokenKind::GTEQ => "GTEQ",
        }
    }

    /// The full table of kinds: each of the twenty-nine, once.
    pub fn all() -> (table: [TokenKind; 29])
        ensures
            table@.len() == 29,
            forall|k: TokenKind| table@.contains(k),
    {
        let table = [
            TokenKind::NONE,
            TokenKind::LEX_ERR,
            TokenKind::EOF,
            TokenKind::NEWLINE,
            TokenKind::NUMBER,
            TokenKind::IDENT,
            TokenKind::STRING,
            TokenKind::LABEL,
            TokenKind::GOTO,
            TokenKind::PRINT,
            TokenKind::INPUT,
            TokenKind::LET,
            TokenKind::IF,
            TokenKind::THEN,
            TokenKind::ENDIF,
            TokenKind::WHILE,
            TokenKind::REPEAT,
            TokenKind::ENDWHILE,
            TokenKind::EQ,
            TokenKind::PLUS,
            TokenKind::MINUS,
            TokenKind::ASTERISK,
            TokenKind::SLASH,
            TokenKind::EQEQ,
            TokenKind::NOTEQ,
            TokenKind::LT,
            TokenKind::LTEQ,
            TokenKind::GT,
            TokenKind::GTEQ,
        ];
        assert forall|k: TokenKind| table@.contains(k) by {
            let i: int = match k {
                TokenKind::NONE => 0,
                TokenKind::LEX_ERR => 1,
                TokenKind::EOF => 2,
                TokenKind::NEWLINE => 3,
                TokenKind::NUMBER => 4,
                TokenKind::IDENT => 5,
                TokenKind::STRING => 6,
                TokenKind::LABEL => 7,
                TokenKind::GOTO => 8,
                TokenKind::PRINT => 9,
                TokenKind::INPUT => 10,
                TokenKind::LET => 11,
                TokenKind::IF => 12,
                TokenKind::THEN => 13,
                TokenKind::ENDIF => 14,
                TokenKind::WHILE => 15,
                TokenKind::REPEAT => 16,
                TokenKind::ENDWHILE => 17,
                TokenKind::EQ => 18,
                TokenKind::PLUS => 19,
                TokenKind::MINUS => 20,
                TokenKind::ASTERISK => 21,
                TokenKind::SLASH => 22,
                TokenKind::EQEQ => 23,
                TokenKind::NOTEQ => 24,
                TokenKind::LT => 25,
                TokenKind::LTEQ => 26,
                TokenKind::GT => 27,
                TokenKind::GTEQ => 28,
            };
            assert(table@[i] == k);
        }
        table
    }
}

/// The keyword spelled exactly `text`, if there is one.
pub open spec fn keyword_of(text: Seq<char>) -> Option<TokenKind> {
    if exists|k: TokenKind| k.keyword() && k.name_spec() == text {
        Some(choose|k: TokenKind| k.keyword() && k.name_spec() == text)
    } else {
        None
    }
}

/// The length and the first two characters of a kind's name, which tell the
/// names apart.
spec fn name_shape(k: TokenKind) -> (nat, char, char) {
    match k {
        TokenKind::NONE => (4, 'N', 'O'),
        TokenKind::LEX_ERR => (7, 'L', 'E'),
        TokenKind::EOF => (3, 'E', 'O'),
        TokenKind::NEWLINE => (7, 'N', 'E'),
        TokenKind::NUMBER => (6, 'N', 'U'),
        TokenKind::IDENT => (5, 'I', 'D'),
        TokenKind::STRING => (6, 'S', 'T'),
        TokenKind::LABEL => (5, 'L', 'A'),
        TokenKind::GOTO => (4, 'G', 'O'),
        TokenKind::PRINT => (5, 'P', 'R'),
        TokenKind::INPUT => (5, 'I', 'N'),
        TokenKind::LET => (3, 'L', 'E'),
        TokenKind::IF => (2, 'I', 'F'),
        TokenKind::THEN => (4, 'T', 'H'),
        TokenKind::ENDIF => (5, 'E', 'N'),
        TokenKind::WHILE => (5, 'W', 'H'),
        TokenKind::REPEAT => (6, 'R', 'E'),
        TokenKind::ENDWHILE => (8, 'E', 'N'),
        TokenKind::EQ => (2, 'E', 'Q'),
        TokenKind::PLUS => (4, 'P', 'L'),
        TokenKind::MINUS => (5, 'M', 'I'),
        TokenKind::ASTERISK => (8, 'A', 'S'),
        TokenKind::SLASH => (5, 'S', 'L'),
        TokenKind::EQEQ => (4, 'E', 'Q'),
        TokenKind::NOTEQ => (5, 'N', 'O'),
        TokenKind::LT => (2, 'L', 'T'),
        TokenKind::LTEQ => (4, 'L', 'T'),
        TokenKind::GT => (2, 'G', 'T'),
        TokenKind::GTEQ => (4, 'G', 'T'),
    }
}

proof fn lemma_name_shape(k: TokenKind)
    ensures
        k.name_spec().len() == name_shape(k).0,
        k.name_spec()[0] == name_shape(k).1,
        k.name_spec()[1] == name_shape(k).2,
{
    reveal_strlit("NONE");
    reveal_strlit("LEX_ERR");
    reveal_strlit("EOF");
    reveal_strlit("NEWLINE");
    reveal_strlit("NUMBER");
    reveal_strlit("IDENT");
    reveal_strlit("STRING");
    reveal_strlit("LABEL");
    reveal_strlit("GOTO");
    reveal_strlit("PRINT");
    reveal_strlit("INPUT");
    reveal_strlit("LET");
    reveal_strlit("IF");
    reveal_strlit("THEN");
    reveal_strlit("ENDIF");
    reveal_strlit("WHILE");
    reveal_strlit("REPEAT");
    reveal_strlit("ENDWHILE");
    reveal_strlit("EQ");
    reveal_strlit("PLUS");
    reveal_strlit("MINUS");
    reveal_strlit("ASTERISK");
    reveal_strlit("SLASH");
    reveal_strlit("EQEQ");
    reveal_strlit("NOTEQ");
    reveal_strlit("LT");
    reveal_strlit("LTEQ");
    reveal_strlit("GT");
    reveal_strlit("GTEQ");
}

/// No two kinds share a name, so a spelling picks at most one keyword.
pub proof fn lemma_names_distinct(a: TokenKind, b: TokenKind)
    requires
        a.name_spec() == b.name_spec(),
    ensures
        a == b,
{
    lemma_name_shape(a);
    lemma_name_shape(b);
}

/// A lexeme together with its classification.
#[derive(Debug, PartialEq, Eq)]
pub struct Token {
    /// The characters of the lexeme. For a string literal these are the
    /// characters between the quotes.
    pub text: String,
    /// The kind of the token.
    pub token_type: TokenKind,
}

/// The mathematical content of a [`Token`].
pub struct TokenView {
    pub text: Seq<char>,
    pub kind: TokenKind,
}

impl View for Token {
    type V = TokenView;

    open spec fn view(&self) -> TokenView {
        TokenView { text: self.text@, kind: self.token_type }
    }
}

impl Clone for Token {
    fn clone(&self) -> (t: Token)
        ensures
            t@ == self@,
    {
        Token { text: self.text.clone(), token_type: self.token_type }
    }
}

impl Token {
    /// Scans the table of kinds for a keyword whose name is exactly `token_text`.
    pub fn check_if_keyword(token_text: &String) -> (r: Option<TokenKind>)
        ensures
            r == keyword_of(token_text@),
    {
        let table = TokenKind::all();
        let mut i: usize = 0;
        while i < table.len()
            invariant
                i <= table@.len(),
                forall|k: TokenKind| table@.contains(k),
                forall|j: int|
                    0 <= j < i ==> !(table@[j].keyword() && table@[j].name_spec()
                        == token_text@),
            decreases table@.len() - i,
        {
            let k = table[i];
            if k.is_keyword() {
                let name = String::from_str(k.name());
                if name == *token_text {
                    proof {
                        let w = choose|w: TokenKind| w.keyword() && w.name_spec() == token_text@;
                        lemma_names_distinct(w, k);
                    }
                    return Some(k);
                }
            }
            i += 1;
        }
        proof {
            assert forall|k: TokenKind| !(k.keyword() && k.name_spec() == token_text@) by {
                assert(table@.contains(k));
                let j = choose|j: int| 0 <= j < table@.len() && table@[j] == k;
                assert(0 <= j < i && table@[j] == k);
            }
        }
        None
    }
}

/// Why a run of characters is not a token.
#[derive(Clone, Copy, Debug, PartialEq, Eq, Structural)]
pub enum LexError {
    /// A `!` that `=` does not follow; `found` is the character that does.
    ExpectedNotEq { found: char },
    /// A control character, a backslash or a percent sign inside a string
    /// literal; the line feed that ends the line of an unclosed literal is one.
    IllegalStringChar,
    /// A decimal point with no digit after it.
    IllegalNumberChar,
    /// A character that starts no token.
    UnknownChar { found: char },
}

impl LexError {
    /// The diagnostic for this error as a sequence of characters.
    pub open spec fn message_spec(self) -> Seq<char> {
        match self {
            LexError::ExpectedNotEq { found } => "Lexing error. Expected !=, got !"@.push(found),
            LexError::IllegalStringChar => "Illegal character in string."@,
            LexError::IllegalNumberChar => "Illegal character in number."@,
            LexError::UnknownChar { found } => "Lexing error. "@.push(found),
        }
    }

    /// The one-line diagnostic for this error.
    pub fn message(&self) -> (msg: String)
        ensures
            msg@ == self.message_spec(),
    {
        match self {
            LexError::ExpectedNotEq { found } => {
                let mut msg = String::from_str("Lexing error. Expected !=, got !");
                msg.push(*found);
                msg
            },
            LexError::IllegalStringChar => String::from_str("Illegal character in string."),
            LexError::IllegalNumberChar => String::from_str("Illegal character in number."),
            LexError::UnknownChar { found } => {
                let mut msg = String::from_str("Lexing error. ");
                msg.push(*found);
                msg
            },
        }
    }
}

/// The text that a lexer scans: its characters, and for each of them
/// whether it counts as a digit and whether it counts as a letter.
pub struct Text {
    pub chars: Seq<char>,
    pub numeric: Seq<bool>,
    pub alphabetic: Seq<bool>,
}

impl Text {
    /// The number of characters.
    pub open spec fn len(self) -> nat {
        self.chars.len()
    }

    /// Every character has its two marks.
    pub open spec fn wf(self) -> bool {
        self.numeric.len() == self.chars.len() && self.alphabetic.len() == self.chars.len()
    }

    /// `chars` with the marks that Unicode gives each character: numeric for
    /// the number categories, alphabetic for the Alphabetic property.
    pub open spec fn classified(chars: Seq<char>) -> Text {
        Text {
            chars,
            numeric: chars.map_values(|c: char| unicode_numeric(c)),
            alphabetic: chars.map_values(|c: char| unicode_alphabetic(c)),
        }
    }

    /// This text with the sentinel behind it: a line feed, which counts
    /// neither as a digit nor as a letter and so ends whatever line is last.
    pub open spec fn closed(self) -> Text {
        Text {
            chars: self.chars.push('\n'),
            numeric: self.numeric.push(false),
            alphabetic: self.alphabetic.push(false),
        }
    }

    /// Whether this text ends with the sentinel.
    pub open spec fn is_closed(self) -> bool {
        &&& self.wf()
        &&& self.chars.len() > 0
        &&& self.chars.last() == '\n'
        &&& !self.numeric.last()
        &&& !self.alphabetic.last()
    }
}

/// The character at index `i` of `src`, or NUL outside it.
pub open spec fn char_at(src: Text, i: int) -> char {
    if 0 <= i < src.chars.len() {
        src.chars[i]
    } else {
        '\0'
    }
}

/// Whether there is a character at index `i` of `src` and it counts as a
/// digit.
pub open spec fn numeric_at(src: Text, i: int) -> bool {
    0 <= i < src.numeric.len() && src.numeric[i]
}

/// Whether there is a character at index `i` of `src` and it counts as a
/// letter.
pub open spec fn alphabetic_at(src: Text, i: int) -> bool {
    0 <= i < src.alphabetic.len() && src.alphabetic[i]
}

/// The classes of characters that the lexer consumes in maximal runs.
pub enum CharClass {
    /// Space, tab and carriage return.
    Blank,
    /// Characters that count as digits.
    Digit,
    /// Characters that count as letters.
    Letter,
    /// Whatever may stand in a comment: anything but a line feed.
    Comment,
    /// Whatever may stand inside a string literal.
    Quoted,
}

/// Whether `c` is a control character: a code from U+0000 to U+001F or from
/// U+007F to U+009F. Line feed, carriage return and tab are among them.
pub open spec fn control(c: char) -> bool {
    c <= '\u{1f}' || ('\u{7f}' <= c && c <= '\u{9f}')
}

/// Whether `c` ends a string literal with an error: the target has no
/// escapes, so a control character, a backslash or a percent sign cannot
/// stand in one.
pub open spec fn forbidden_in_string(c: char) -> bool {
    control(c) || c == '\\' || c == '%'
}

/// Whether the character at index `i` of `src` belongs to `class`.
pub open spec fn in_class(src: Text, i: int, class: CharClass) -> bool {
    let c = char_at(src, i);
    match class {
        CharClass::Blank => c == ' ' || c == '\t' || c == '\r',
        CharClass::Digit => numeric_at(src, i),
        CharClass::Letter => alphabetic_at(src, i),
        CharClass::Comment => c != '\n',
        CharClass::Quoted => c != '"' && !forbidden_in_string(c),
    }
}

/// The end of the maximal run of `class` characters that starts at `i`: the
/// first index from `i` on whose character is outside the class, or the
/// length of `src`.
pub open spec fn run_end(src: Text, i: int, class: CharClass) -> int
    decreases src.len() - i,
{
    if 0 <= i < src.len() && in_class(src, i, class) {
        run_end(src, i + 1, class)
    } else {
        i
    }
}

/// Where the token begins that a scan from `pos` finds: past blanks, and past
/// a comment up to its line feed.
pub open spec fn token_start(src: Text, pos: int) -> int {
    let after_blanks = run_end(src, pos, CharClass::Blank);
    if char_at(src, after_blanks) == '#' {
        run_end(src, after_blanks, CharClass::Comment)
    } else {
        after_blanks
    }
}

/// The position one character on from `pos`, be it within `src` or past its
/// end. (No cursor is ever negative; a negative position is left as it is.)
pub open spec fn step(src: Text, pos: int) -> int {
    if 0 <= pos {
        pos + 1
    } else {
        pos
    }
}

/// What one scan yields: the token or the error, and where the lexer stands
/// afterwards.
pub struct LexOutcome {
    pub result: Result<TokenView, LexError>,
    pub next: int,
}

/// The token made of the characters of `src` from `from` up to `to`.
pub open spec fn lexeme(src: Text, from: int, to: int, kind: TokenKind) -> LexOutcome {
    LexOutcome { result: Ok(TokenView { text: src.chars.subrange(from, to), kind }), next: to }
}

/// The one-character token at `start`.
pub open spec fn single(src: Text, start: int, kind: TokenKind) -> LexOutcome {
    LexOutcome {
        result: Ok(TokenView { text: seq![char_at(src, start)], kind }),
        next: step(src, start),
    }
}

/// The token at `start` when `=` may follow its first character: `double`
/// with both characters if it does, else `alone` with the first.
pub open spec fn with_eq(
    src: Text,
    start: int,
    alone: TokenKind,
    double: TokenKind,
) -> LexOutcome {
    if char_at(src, start + 1) == '=' {
        lexeme(src, start, start + 2, double)
    } else {
        single(src, start, alone)
    }
}

/// The string literal whose opening quote is at `start`: its text is what
/// stands between the quotes, and the scan stops behind the closing quote.
pub open spec fn quoted(src: Text, start: int) -> LexOutcome {
    let close = run_end(src, start + 1, CharClass::Quoted);
    if char_at(src, close) == '"' {
        LexOutcome {
            result: Ok(
                TokenView { text: src.chars.subrange(start + 1, close), kind: TokenKind::STRING },
            ),
            next: close + 1,
        }
    } else {
        LexOutcome { result: Err(LexError::IllegalStringChar), next: close }
    }
}

/// The numeric literal whose first digit is at `start`: a run of digits, and
/// after a decimal point at least one more digit.
pub open spec fn number(src: Text, start: int) -> LexOutcome {
    let whole_end = run_end(src, start + 1, CharClass::Digit);
    if char_at(src, whole_end) == '.' {
        let fraction_end = run_end(src, whole_end + 1, CharClass::Digit);
        if fraction_end == whole_end + 1 {
            LexOutcome { result: Err(LexError::IllegalNumberChar), next: whole_end }
        } else {
            lexeme(src, start, fraction_end, TokenKind::NUMBER)
        }
    } else {
        lexeme(src, start, whole_end, TokenKind::NUMBER)
    }
}

/// The keyword or identifier whose first letter is at `start`.
pub open spec fn word(src: Text, start: int) -> LexOutcome {
    let end = run_end(src, start + 1, CharClass::Letter);
    let kind = match keyword_of(src.chars.subrange(start, end)) {
        Some(k) => k,
        None => TokenKind::IDENT,
    };
    lexeme(src, start, end, kind)
}

/// The token that begins at `start`, where no blank and no comment begins.
pub open spec fn token_at(src: Text, start: int) -> LexOutcome {
    let c = char_at(src, start);
    if c == '+' {
        single(src, start, TokenKind::PLUS)
    } else if c == '-' {
        single(src, start, TokenKind::MINUS)
    } else if c == '*' {
        single(src, start, TokenKind::ASTERISK)
    } else if c == '/' {
        single(src, start, TokenKind::SLASH)
    } else if c == '\n' {
        single(src, start, TokenKind::NEWLINE)
    } else if c == '\0' {
        single(src, start, TokenKind::EOF)
    } else if c == '=' {
        with_eq(src, start, TokenKind::EQ, TokenKind::EQEQ)
    } else if c == '>' {
        with_eq(src, start, TokenKind::GT, TokenKind::GTEQ)
    } else if c == '<' {
        with_eq(src, start, TokenKind::LT, TokenKind::LTEQ)
    } else if c == '!' {
        if char_at(src, start + 1) == '=' {
            lexeme(src, start, start + 2, TokenKind::NOTEQ)
        } else {
            LexOutcome {
                result: Err(LexError::ExpectedNotEq { found: char_at(src, start + 1) }),
                next: start,
            }
        }
    } else if c == '"' {
        quoted(src, start)
    } else if numeric_at(src, start) {
        number(src, start)
    } else if alphabetic_at(src, start) {
        word(src, start)
    } else {
        LexOutcome { result: Err(LexError::UnknownChar { found: c }), next: start }
    }
}

/// One scan of `src` from `pos`: skip blanks and a comment, then take the
/// token that begins there.
pub open spec fn lex_at(src: Text, pos: int) -> LexOutcome {
    token_at(src, token_start(src, pos))
}

/// What a scan returned, with the token replaced by its view.
pub open spec fn scanned(r: Result<Token, LexError>) -> Result<TokenView, LexError> {
    match r {
        Ok(t) => Ok(t@),
        Err(e) => Err(e),
    }
}

/// A scan never moves the cursor back. From inside the text it does not
/// pass the end, and a token takes at least one character. At the end of the
/// text and past it the token is `EOF` and the cursor moves one on.
pub proof fn lemma_lex_progress(src: Text, pos: int)
    ensures
        pos <= lex_at(src, pos).next,
        0 <= pos < src.len() ==> lex_at(src, pos).next <= src.len() + 1,
        0 <= pos < src.len() && lex_at(src, pos).next > src.len() ==> lex_at(src, pos)
            == single(src, src.len() as int, TokenKind::EOF),
        0 <= pos < src.len() && lex_at(src, pos).result is Ok ==> pos < lex_at(src, pos).next,
        !(0 <= pos < src.len()) ==> lex_at(src, pos) == single(src, pos, TokenKind::EOF),
        pos >= src.len() ==> lex_at(src, pos).next == pos + 1,
        pos < 0 ==> lex_at(src, pos).next == pos,
{
    if 0 <= pos < src.len() {
        lemma_run_end_bounds(src, pos, CharClass::Blank);
        let after_blanks = run_end(src, pos, CharClass::Blank);
        lemma_run_end_bounds(src, after_blanks, CharClass::Comment);
        let start = token_start(src, pos);
        if start < src.len() {
            lemma_run_end_bounds(src, start + 1, CharClass::Quoted);
            lemma_run_end_bounds(src, start + 1, CharClass::Digit);
            lemma_run_end_bounds(src, start + 1, CharClass::Letter);
            let whole_end = run_end(src, start + 1, CharClass::Digit);
            if whole_end < src.len() {
                lemma_run_end_bounds(src, whole_end + 1, CharClass::Digit);
            }
        }
    }
}

/// The character at which a run ends is outside the run's class, if there
/// is one.
pub proof fn lemma_run_halts(src: Text, i: int, class: CharClass)
    requires
        0 <= i <= src.len(),
    ensures
        run_end(src, i, class) < src.len() ==> !in_class(src, run_end(src, i, class), class),
    decreases src.len() - i,
{
    if i < src.len() && in_class(src, i, class) {
        lemma_run_halts(src, i + 1, class);
    }
}

/// A run stops at or before a character outside the run's class.
pub proof fn lemma_run_stops(src: Text, i: int, class: CharClass, k: int)
    requires
        0 <= i <= k < src.len(),
        !in_class(src, k, class),
    ensures
        run_end(src, i, class) <= k,
    decreases k - i,
{
    if i < k && in_class(src, i, class) {
        lemma_run_stops(src, i + 1, class, k);
    }
}

/// Every character of a run is of the run's class.
pub proof fn lemma_run_is_of_class(src: Text, i: int, class: CharClass, k: int)
    requires
        0 <= i <= k < run_end(src, i, class),
    ensures
        in_class(src, k, class),
    decreases k - i,
{
    if i < k {
        lemma_run_is_of_class(src, i + 1, class, k);
    }
}

/// A run ends at or after its start and within the text.
pub proof fn lemma_run_end_bounds(src: Text, i: int, class: CharClass)
    requires
        0 <= i <= src.len(),
    ensures
        i <= run_end(src, i, class) <= src.len(),
    decreases src.len() - i,
{
    if i < src.len() && in_class(src, i, class) {
        lemma_run_end_bounds(src, i + 1, class);
    }
}

/// Whether `c` is a control character.
pub fn is_control(c: char) -> (b: bool)
    ensures
        b == control(c),
{
    c <= '\u{1f}' || ('\u{7f}' <= c && c <= '\u{9f}')
}

/// The scanner: the whole source text, closed by a sentinel line feed, and a
/// cursor into it.
pub struct Lexer {
    /// The characters to lex; the last one is the sentinel line feed.
    pub source: Vec<char>,
    /// For each character of `source`, whether it counts as a digit.
    pub numeric: Vec<bool>,
    /// For each character of `source`, whether it counts as a letter.
    pub alphabetic: Vec<bool>,
    /// The character under the cursor, NUL once the cursor is past the end.
    pub cur_char: char,
    /// The cursor: the index into `source` at which the lexer stands, which
    /// goes on counting past the end of the text. It is never negative.
    pub cur_pos: i32,
}

/// The mathematical content of a [`Lexer`]: the text and the cursor.
pub struct LexerView {
    pub source: Text,
    pub pos: int,
}

impl View for Lexer {
    type V = LexerView;

    open spec fn view(&self) -> LexerView {
        LexerView {
            source: Text {
                chars: self.source@,
                numeric: self.numeric@,
                alphabetic: self.alphabetic@,
            },
            pos: self.cur_pos as int,
        }
    }
}

impl Lexer {
    /// Every character has its marks, the text ends with the sentinel, every
    /// position of the text and the one behind it is one that the cursor can
    /// hold, and `cur_char` is the character under the cursor, NUL where the
    /// cursor is past the end of the text.
    pub open spec fn wf(&self) -> bool {
        &&& self@.source.is_closed()
        &&& self.source@.len() <= i32::MAX
        &&& 0 <= self.cur_pos
        &&& self.cur_char == char_at(self@.source, self.cur_pos as int)
    }

    /// A lexer at the start of `src`, to which the sentinel line feed is
    /// added. Every character of `src` is classified here, once. The text
    /// with its sentinel has to be one whose every position the cursor can
    /// hold.
    pub fn new(src: String) -> (lexer: Lexer)
        requires
            src@.len() < i32::MAX,
        ensures
            lexer.wf(),
            lexer@.source == Text::classified(src@).closed(),
            lexer@.pos == 0,
    {
        let mut source: Vec<char> = Vec::new();
        let mut numeric: Vec<bool> = Vec::new();
        let mut alphabetic: Vec<bool> = Vec::new();
        for c in it: src.as_str().chars()
            invariant
                it.seq() == src@,
                source@ == it.seq().take(it.index() as int),
                numeric@ == source@.map_values(|c: char| unicode_numeric(c)),
                alphabetic@ == source@.map_values(|c: char| unicode_alphabetic(c)),
        {
            source.push(c);
            numeric.push(c.is_numeric());
            alphabetic.push(c.is_alphabetic());
        }
        assert(source@ =~= src@);
        source.push('\n');
        numeric.push(false);
        alphabetic.push(false);
        assert(source@.len() == source.len());
        let cur_char = source[0];
        Lexer { source, numeric, alphabetic, cur_char, cur_pos: 0 }
    }

    /// A lexer at the start of `chars`, to which the sentinel line feed is
    /// added, with the marks that the caller gives: `numeric[i]` says whether
    /// `chars[i]` counts as a digit, `alphabetic[i]` whether it counts as a
    /// letter. The sentinel counts as neither. There is no lexer where a mark
    /// is missing or left over, nor where the text with its sentinel has a
    /// position that the cursor cannot hold.
    pub fn with_classes(chars: Vec<char>, numeric: Vec<bool>, alphabetic: Vec<bool>) -> (r: Option<
        Lexer,
    >)
        ensures
            r is Some <==> numeric@.len() == chars@.len() && alphabetic@.len() == chars@.len()
                && chars@.len() < i32::MAX,
            r matches Some(lexer) ==> lexer.wf() && lexer@.pos == 0 && lexer@.source == (Text {
                chars: chars@,
                numeric: numeric@,
                alphabetic: alphabetic@,
            }).closed(),
    {
        if numeric.len() != chars.len() || alphabetic.len() != chars.len() || chars.len()
            >= i32::MAX as usize {
            return None;
        }
        let mut source = chars;
        let mut numeric = numeric;
        let mut alphabetic = alphabetic;
        source.push('\n');
        numeric.push(false);
        alphabetic.push(false);
        assert(source@.len() == source.len());
        let cur_char = source[0];
        Some(Lexer { source, numeric, alphabetic, cur_char, cur_pos: 0 })
    }

    /// Moves the cursor one character on, within the text and past its end
    /// alike. The cursor has to be below the largest position there is.
    pub fn next_char(&mut self)
        requires
            old(self).wf(),
            old(self).cur_pos < i32::MAX,
        ensures
            final(self).wf(),
            final(self)@.source == old(self)@.source,
            final(self)@.pos == old(self)@.pos + 1,
            final(self).cur_char == char_at(old(self)@.source, old(self)@.pos + 1),
    {
        self.cur_pos += 1;
        if self.cur_pos as usize >= self.source.len() {
            self.cur_char = '\0';
        } else {
            self.cur_char = self.source[self.cur_pos as usize];
        }
    }

    /// The character after the one under the cursor, NUL if there is none.
    pub fn peek(&self) -> (c: char)
        requires
            self.wf(),
        ensures
            c == char_at(self@.source, self@.pos + 1),
    {
        if self.cur_pos as usize >= self.source.len() - 1 {
            '\0'
        } else {
            self.source[self.cur_pos as usize + 1]
        }
    }

    /// Moves the cursor past spaces, tabs and carriage returns.
    pub fn skip_whitespace(&mut self)
        requires
            old(self).wf(),
        ensures
            final(self).wf(),
            final(self)@.source == old(self)@.source,
            final(self)@.pos == run_end(old(self)@.source, old(self)@.pos, CharClass::Blank),
    {
        while self.cur_char == ' ' || self.cur_char == '\t' || self.cur_char == '\r'
            invariant
                self.wf(),
                self@.source == old(self)@.source,
                run_end(self@.source, self@.pos, CharClass::Blank) == run_end(
                    old(self)@.source,
                    old(self)@.pos,
                    CharClass::Blank,
                ),
            decreases self@.source.len() - self@.pos,
        {
            self.next_char()
        }
    }

    /// At a `#`, moves the cursor to the line feed that ends the comment.
    pub fn skip_comment(&mut self)
        requires
            old(self).wf(),
        ensures
            final(self).wf(),
            final(self)@.source == old(self)@.source,
            final(self)@.pos == if char_at(old(self)@.source, old(self)@.pos) == '#' {
                run_end(old(self)@.source, old(self)@.pos, CharClass::Comment)
            } else {
                old(self)@.pos
            },
    {
        if self.cur_char == '#' {
            while self.cur_char != '\n'
                invariant
                    self.wf(),
                    self@.source == old(self)@.source,
                    self@.pos < self@.source.len(),
                    run_end(self@.source, self@.pos, CharClass::Comment) == run_end(
                        old(self)@.source,
                        old(self)@.pos,
                        CharClass::Comment,
                    ),
                decreases self@.source.len() - self@.pos,
            {
                self.next_char();
            }
        }
    }

    /// The token of the one character under the cursor.
    fn single_char(&self, kind: TokenKind) -> (t: Token)
        ensures
            t@ == (TokenView { text: seq![self.cur_char], kind }),
    {
        let mut text = String::new();
        text.push(self.cur_char);
        Token { text, token_type: kind }
    }

    /// The token of the character under the cursor and the one after it; the
    /// cursor moves onto the second.
    fn double_char(&mut self, kind: TokenKind) -> (t: Token)
        requires
            old(self).wf(),
            old(self)@.pos + 1 < old(self)@.source.len(),
        ensures
            final(self).wf(),
            final(self)@.source == old(self)@.source,
            final(self)@.pos == old(self)@.pos + 1,
            t@ == (TokenView {
                text: old(self)@.source.chars.subrange(old(self)@.pos, old(self)@.pos + 2),
                kind,
            }),
    {
        let mut text = String::new();
        text.push(self.cur_char);
        self.next_char();
        text.push(self.cur_char);
        assert(text@ =~= old(self)@.source.chars.subrange(old(self)@.pos, old(self)@.pos + 2));
        Token { text, token_type: kind }
    }

    /// Whether a character follows the one under the cursor and counts as a
    /// digit.
    fn digit_follows(&self) -> (b: bool)
        requires
            self.wf(),
        ensures
            b == numeric_at(self@.source, self@.pos + 1),
    {
        (self.cur_pos as usize) < self.source.len() - 1 && self.numeric[self.cur_pos as usize + 1]
    }

    /// Whether a character follows the one under the cursor and counts as a
    /// letter.
    fn letter_follows(&self) -> (b: bool)
        requires
            self.wf(),
        ensures
            b == alphabetic_at(self@.source, self@.pos + 1),
    {
        (self.cur_pos as usize) < self.source.len() - 1 && self.alphabetic[self.cur_pos as usize
            + 1]
    }

    /// Lexes the string literal whose opening quote is under the cursor. On
    /// success the cursor is on the closing quote.
    fn string_literal(&mut self) -> (r: Result<Token, LexError>)
        requires
            old(self).wf(),
            old(self).cur_char == '"',
        ensures
            final(self).wf(),
            final(self)@.source == old(self)@.source,
            scanned(r) == quoted(old(self)@.source, old(self)@.pos).result,
            r is Ok ==> final(self)@.pos < final(self)@.source.len(),
            r is Ok ==> final(self)@.pos + 1 == quoted(old(self)@.source, old(self)@.pos).next,
            r is Err ==> final(self)@.pos == quoted(old(self)@.source, old(self)@.pos).next,
    {
        let ghost src = self@.source;
        let ghost start = self@.pos;
        self.next_char();
        let mut text = String::new();
        assert(text@ =~= src.chars.subrange(start + 1, start + 1));
        while self.cur_char != '"'
            invariant
                self.wf(),
                self@.source == src,
                src == old(self)@.source,
                start == old(self)@.pos,
                0 <= start < self@.pos < src.len(),
                text@ == src.chars.subrange(start + 1, self@.pos),
                run_end(src, self@.pos, CharClass::Quoted) == run_end(
                    src,
                    start + 1,
                    CharClass::Quoted,
                ),
            decreases src.len() - self@.pos,
        {
            if is_control(self.cur_char) || self.cur_char == '\\' || self.cur_char == '%' {
                return Err(LexError::IllegalStringChar);
            }
            text.push(self.cur_char);
            self.next_char();
            assert(text@ =~= src.chars.subrange(start + 1, self@.pos));
        }
        Ok(Token { text, token_type: TokenKind::STRING })
    }

    /// Lexes the numeric literal whose first digit is under the cursor. On
    /// success the cursor is on its last character.
    fn numeric_literal(&mut self) -> (r: Result<Token, LexError>)
        requires
            old(self).wf(),
            old(self)@.pos + 1 < old(self)@.source.len(),
        ensures
            final(self).wf(),
            final(self)@.source == old(self)@.source,
            scanned(r) == number(old(self)@.source, old(self)@.pos).result,
            r is Ok ==> final(self)@.pos < final(self)@.source.len(),
            r is Ok ==> final(self)@.pos + 1 == number(old(self)@.source, old(self)@.pos).next,
            r is Err ==> final(self)@.pos == number(old(self)@.source, old(self)@.pos).next,
    {
        let ghost src = self@.source;
        let ghost start = self@.pos;
        let mut text = String::new();
        text.push(self.cur_char);
        assert(text@ =~= src.chars.subrange(start, start + 1));
        while self.digit_follows()
            invariant
                self.wf(),
                self@.source == src,
                0 <= start <= self@.pos < src.len(),
                text@ == src.chars.subrange(start, self@.pos + 1),
                run_end(src, self@.pos + 1, CharClass::Digit) == run_end(
                    src,
                    start + 1,
                    CharClass::Digit,
                ),
            decreases src.len() - self@.pos,
        {
            text.push(self.peek());
            self.next_char();
            assert(text@ =~= src.chars.subrange(start, self@.pos + 1));
        }
        if self.peek() == '.' {
            text.push(self.peek());
            self.next_char();
            assert(text@ =~= src.chars.subrange(start, self@.pos + 1));
            if !self.digit_follows() {
                return Err(LexError::IllegalNumberChar);
            }
            let ghost point = self@.pos;
            while self.digit_follows()
                invariant
                    self.wf(),
                    self@.source == src,
                    0 <= start <= point <= self@.pos < src.len(),
                    text@ == src.chars.subrange(start, self@.pos + 1),
                    run_end(src, self@.pos + 1, CharClass::Digit) == run_end(
                        src,
                        point + 1,
                        CharClass::Digit,
                    ),
                decreases src.len() - self@.pos,
            {
                text.push(self.peek());
                self.next_char();
                assert(text@ =~= src.chars.subrange(start, self@.pos + 1));
            }
        }
        Ok(Token { text, token_type: TokenKind::NUMBER })
    }

    /// Lexes the keyword or identifier whose first letter is under the
    /// cursor; the cursor moves onto its last letter.
    fn keyword_or_identifier(&mut self) -> (t: Token)
        requires
            old(self).wf(),
            old(self)@.pos + 1 < old(self)@.source.len(),
        ensures
            final(self).wf(),
            final(self)@.source == old(self)@.source,
            Ok::<TokenView, LexError>(t@) == word(old(self)@.source, old(self)@.pos).result,
            final(self)@.pos < final(self)@.source.len(),
            final(self)@.pos + 1 == word(old(self)@.source, old(self)@.pos).next,
    {
        let ghost src = self@.source;
        let ghost start = self@.pos;
        let mut text = String::new();
        text.push(self.cur_char);
        assert(text@ =~= src.chars.subrange(start, start + 1));
        while self.letter_follows()
            invariant
                self.wf(),
                self@.source == src,
                0 <= start <= self@.pos < src.len(),
                text@ == src.chars.subrange(start, self@.pos + 1),
                run_end(src, self@.pos + 1, CharClass::Letter) == run_end(
                    src,
                    start + 1,
                    CharClass::Letter,
                ),
            decreases src.len() - self@.pos,
        {
            text.push(self.peek());
            self.next_char();
            assert(text@ =~= src.chars.subrange(start, self@.pos + 1));
        }
        let keyword = Token::check_if_keyword(&text);
        match keyword {
            Some(k) => Token { text, token_type: k },
            None => Token { text, token_type: TokenKind::IDENT },
        }
    }

    /// Scans the next token and moves the cursor past it.
    ///
    /// At the end of the text the token is `EOF`, again and again, and each
    /// such scan moves the cursor one on; so the cursor has to be below the
    /// largest position there is.
    pub fn get_token(&mut self) -> (r: Result<Token, LexError>)
        requires
            old(self).wf(),
            old(self).cur_pos < i32::MAX,
        ensures
            final(self).wf(),
            final(self)@.source == old(self)@.source,
            scanned(r) == lex_at(old(self)@.source, old(self)@.pos).result,
            final(self)@.pos == lex_at(old(self)@.source, old(self)@.pos).next,
    {
        self.skip_whitespace();
        self.skip_comment();
        proof {
            let src = old(self)@.source;
            let pos = old(self)@.pos;
            if pos < src.len() {
                let last = src.len() - 1;
                let after_blanks = run_end(src, pos, CharClass::Blank);
                lemma_run_stops(src, pos, CharClass::Blank, last);
                lemma_run_end_bounds(src, pos, CharClass::Blank);
                lemma_run_stops(src, after_blanks, CharClass::Comment, last);
            }
        }
        let c = self.cur_char;
        let n = self.peek();
        let t: Token;
        if c == '+' {
            t = self.single_char(TokenKind::PLUS);
        } else if c == '-' {
            t = self.single_char(TokenKind::MINUS);
        } else if c == '*' {
            t = self.single_char(TokenKind::ASTERISK);
        } else if c == '/' {
            t = self.single_char(TokenKind::SLASH);
        } else if c == '\n' {
            t = self.single_char(TokenKind::NEWLINE);
        } else if c == '\0' {
            t = self.single_char(TokenKind::EOF);
        } else if c == '=' {
            if n == '=' {
                t = self.double_char(TokenKind::EQEQ);
            } else {
                t = self.single_char(TokenKind::EQ);
            }
        } else if c == '>' {
            if n == '=' {
                t = self.double_char(TokenKind::GTEQ);
            } else {
                t = self.single_char(TokenKind::GT);
            }
        } else if c == '<' {
            if n == '=' {
                t = self.double_char(TokenKind::LTEQ);
            } else {
                t = self.single_char(TokenKind::LT);
            }
        } else if c == '!' {
            if n == '=' {
                t = self.double_char(TokenKind::NOTEQ);
            } else {
                return Err(LexError::ExpectedNotEq { found: n });
            }
        } else if c == '"' {
            t = self.string_literal()?;
        } else if self.numeric[self.cur_pos as usize] {
            t = self.numeric_literal()?;
        } else if self.alphabetic[self.cur_pos as usize] {
            t = self.keyword_or_identifier();
        } else {
            return Err(LexError::UnknownChar { found: c });
        }
        self.next_char();
        Ok(t)
    }
}

} // verus!
