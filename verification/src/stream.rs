//! The tokens of a text as one sequence, and what a parse that stands at a
//! given token has recorded of the tokens before it.
use crate::grammar::{with_name, ParserView};
use crate::lex::{lemma_lex_progress, lex_at, single, LexError, Text, TokenKind, TokenView};
use vstd::prelude::*;

verus! {

/// The tokens that successive scans of `src` yield from `pos` on, up to the
/// end of the text or to the first scan that fails.
pub open spec fn token_stream(src: Text, pos: int) -> Seq<TokenView>
    decreases src.len() + 1 - pos,
{
    if 0 <= pos < src.len() {
        match lex_at(src, pos).result {
            Ok(t) => {
                proof {
                    lemma_lex_progress(src, pos);
                }
                seq![t] + token_stream(src, lex_at(src, pos).next)
            },
            Err(_) => Seq::empty(),
        }
    } else {
        Seq::empty()
    }
}

/// The fault that ends the token stream of `src` from `pos` on, where it
/// is a fault and not the end of the text that ends it.
pub open spec fn stream_fault(src: Text, pos: int) -> Option<LexError>
    decreases src.len() + 1 - pos,
{
    if 0 <= pos < src.len() {
        match lex_at(src, pos).result {
            Ok(_) => {
                proof {
                    lemma_lex_progress(src, pos);
                }
                stream_fault(src, lex_at(src, pos).next)
            },
            Err(e) => Some(e),
        }
    } else {
        None
    }
}

/// The token that every scan at the end of the text yields.
pub open spec fn end_token() -> TokenView {
    TokenView { text: seq!['\0'], kind: TokenKind::EOF }
}

/// Token `i` of `tokens`; past their end, the end token.
pub open spec fn nth_token(tokens: Seq<TokenView>, i: int) -> TokenView {
    if 0 <= i < tokens.len() {
        tokens[i]
    } else {
        end_token()
    }
}

/// The tokens from index `k` on.
pub open spec fn rest(tokens: Seq<TokenView>, k: int) -> Seq<TokenView> {
    if 0 <= k <= tokens.len() {
        tokens.subrange(k, tokens.len() as int)
    } else {
        Seq::empty()
    }
}

/// The number of tokens from index `i` on up to the first end of input,
/// added to `i`.
pub open spec fn length_from(tokens: Seq<TokenView>, i: int) -> int
    decreases tokens.len() - i,
{
    if 0 <= i < tokens.len() && tokens[i].kind != TokenKind::EOF {
        length_from(tokens, i + 1)
    } else {
        i
    }
}

/// The number of tokens in the program: those before the first end of
/// input.
pub open spec fn program_length(tokens: Seq<TokenView>) -> int {
    length_from(tokens, 0)
}

/// The program ends at the first token that is the end of input.
pub(crate) proof fn lemma_program_length(tokens: Seq<TokenView>, i: int, m: int)
    requires
        0 <= i <= m <= tokens.len(),
        forall|k: int| 0 <= k < m ==> (#[trigger] tokens[k]).kind != TokenKind::EOF,
        nth_token(tokens, m).kind == TokenKind::EOF,
    ensures
        length_from(tokens, i) == m,
    decreases m - i,
{
    if i < m {
        lemma_program_length(tokens, i + 1, m);
    }
}

/// Whether token `i` stands in the program: neither it nor a token before
/// it is the end of input.
pub open spec fn in_program(tokens: Seq<TokenView>, i: int) -> bool {
    0 <= i < tokens.len() && forall|k: int| 0 <= k <= i ==> (#[trigger] tokens[k]).kind
        != TokenKind::EOF
}

/// Whether `kind` is a keyword that an identifier follows as the name it
/// declares or refers to, not as an operand.
pub open spec fn naming(kind: TokenKind) -> bool {
    kind == TokenKind::LET || kind == TokenKind::INPUT || kind == TokenKind::LABEL || kind
        == TokenKind::GOTO
}

/// Whether token `j` is the keyword `kind` and token `j + 1` is `name`, both
/// before token `n`.
pub open spec fn names(
    tokens: Seq<TokenView>,
    j: int,
    n: int,
    kind: TokenKind,
    name: Seq<char>,
) -> bool {
    0 <= j && j + 1 < n && j + 1 < tokens.len() && tokens[j].kind == kind && tokens[j + 1].text
        == name
}

/// Whether token `j` is the keyword `kind` and token `j + 1` is `name`, both
/// in the program.
pub open spec fn keyword_names(
    tokens: Seq<TokenView>,
    j: int,
    kind: TokenKind,
    name: Seq<char>,
) -> bool {
    0 <= j && in_program(tokens, j + 1) && tokens[j].kind == kind && tokens[j + 1].text == name
}

/// Whether a `LET` or an `INPUT` before token `n` declares the variable `name`.
pub open spec fn declared_before(tokens: Seq<TokenView>, n: int, name: Seq<char>) -> bool {
    exists|j: int|
        names(tokens, j, n, TokenKind::LET, name) || names(tokens, j, n, TokenKind::INPUT, name)
}

/// Whether a `LABEL` before token `n` declares the label `name`.
pub open spec fn labelled_before(tokens: Seq<TokenView>, n: int, name: Seq<char>) -> bool {
    exists|j: int| names(tokens, j, n, TokenKind::LABEL, name)
}

/// The variables that the `LET` and `INPUT` statements before token `n`
/// declare, each once, in the order of their first declaration.
pub open spec fn variables(tokens: Seq<TokenView>, n: int) -> Seq<Seq<char>>
    decreases n,
{
    if n < 2 {
        Seq::empty()
    } else if n <= tokens.len() && (tokens[n - 2].kind == TokenKind::LET || tokens[n - 2].kind
        == TokenKind::INPUT) {
        with_name(variables(tokens, n - 1), tokens[n - 1].text)
    } else {
        variables(tokens, n - 1)
    }
}

/// Whether token `i` is an identifier read as an operand.
pub open spec fn is_use(tokens: Seq<TokenView>, i: int) -> bool {
    0 <= i < tokens.len() && tokens[i].kind == TokenKind::IDENT && (i == 0 || !naming(
        tokens[i - 1].kind,
    ))
}

/// Whether the state `s` stands at token `n` of `tokens`: the window holds
/// tokens `n` and `n + 1`, and the lexer is about to yield the tokens after
/// them.
pub open spec fn at(s: ParserView, tokens: Seq<TokenView>, n: int) -> bool {
    &&& 0 <= n
    &&& s.cur == nth_token(tokens, n)
    &&& s.peek == nth_token(tokens, n + 1)
    &&& token_stream(s.lexer.source, s.lexer.pos) == rest(tokens, n + 2)
}

/// Whether the state `s`, at token `n` of `tokens` and between two phrases of
/// the grammar, is faithful to the tokens before `n`:
/// - none of them is the end of input, and the last is no naming keyword;
/// - the symbols are the variables that a `LET` or an `INPUT` among them
///   declares, in the order of their first declaration;
/// - each identifier read as an operand among them was declared before it;
/// - the declared labels are those that a `LABEL` among them declares, and
///   no two of these declare one name;
/// - each label that a `GOTO` among them names is recorded.
pub closed spec fn faithful(s: ParserView, tokens: Seq<TokenView>, n: int) -> bool {
    &&& at(s, tokens, n)
    &&& n <= tokens.len()
    &&& forall|i: int| 0 <= i < n ==> (#[trigger] tokens[i]).kind != TokenKind::EOF
    &&& n > 0 ==> !naming(tokens[n - 1].kind)
    &&& s.symbols == variables(tokens, n)
    &&& forall|name: Seq<char>| #[trigger]
        s.symbols.contains(name) ==> declared_before(tokens, n, name)
    &&& forall|i: int|
        0 <= i < n && #[trigger] is_use(tokens, i) ==> declared_before(tokens, i, tokens[i].text)
    &&& forall|j: int, name: Seq<char>| #[trigger]
        names(tokens, j, n, TokenKind::LABEL, name) ==> s.labels_declared.contains(name)
    &&& forall|name: Seq<char>| #[trigger]
        s.labels_declared.contains(name) ==> labelled_before(tokens, n, name)
    &&& forall|i: int, j: int, name: Seq<char>|
        #[trigger] names(tokens, i, n, TokenKind::LABEL, name) && #[trigger] names(
            tokens,
            j,
            n,
            TokenKind::LABEL,
            name,
        ) ==> i == j
    &&& forall|j: int, name: Seq<char>| #[trigger]
        names(tokens, j, n, TokenKind::GOTO, name) ==> s.labels_gotoed.contains(name)
}

/// What a faithful state tells of the tokens before it.
pub(crate) proof fn lemma_faithful(s: ParserView, tokens: Seq<TokenView>, n: int)
    requires
        faithful(s, tokens, n),
    ensures
        at(s, tokens, n),
        n <= tokens.len(),
        s.symbols == variables(tokens, n),
        forall|i: int| 0 <= i < n ==> (#[trigger] tokens[i]).kind != TokenKind::EOF,
        forall|i: int|
            0 <= i < n && #[trigger] is_use(tokens, i) ==> declared_before(
                tokens,
                i,
                tokens[i].text,
            ),
        forall|j: int, name: Seq<char>| #[trigger]
            names(tokens, j, n, TokenKind::LABEL, name) ==> s.labels_declared.contains(name),
        forall|name: Seq<char>| #[trigger]
            s.labels_declared.contains(name) ==> labelled_before(tokens, n, name),
        forall|i: int, j: int, name: Seq<char>|
            #[trigger] names(tokens, i, n, TokenKind::LABEL, name) && #[trigger] names(
                tokens,
                j,
                n,
                TokenKind::LABEL,
                name,
            ) ==> i == j,
        forall|j: int, name: Seq<char>| #[trigger]
            names(tokens, j, n, TokenKind::GOTO, name) ==> s.labels_gotoed.contains(name),
{
}

/// Faithfulness does not look at the emitted text.
pub(crate) proof fn lemma_faithful_whatever_emitted(
    s: ParserView,
    t: ParserView,
    tokens: Seq<TokenView>,
    n: int,
)
    requires
        faithful(s, tokens, n),
        t == (ParserView { emitter: t.emitter, ..s }),
    ensures
        faithful(t, tokens, n),
{
}

/// The state in which parsing begins stands at the first token and is
/// faithful to the nothing before it.
pub(crate) proof fn lemma_start_is_faithful(s: ParserView)
    requires
        s.cur.kind == TokenKind::NONE,
        s.peek.kind == TokenKind::NONE,
        s.symbols.len() == 0,
        s.labels_declared.len() == 0,
        s.labels_gotoed.len() == 0,
        s.advance() matches Ok(t) && t.advance() is Ok,
    ensures
        faithful(
            s.advance()->Ok_0.advance()->Ok_0,
            token_stream(s.lexer.source, s.lexer.pos),
            0,
        ),
{
    let src = s.lexer.source;
    let tokens = token_stream(src, s.lexer.pos);
    let t = s.advance()->Ok_0;
    let u = t.advance()->Ok_0;
    assert(u.symbols =~= variables(tokens, 0));
    lemma_lex_progress(src, s.lexer.pos);
    lemma_lex_progress(src, t.lexer.pos);
    if 0 <= s.lexer.pos < src.len() {
        let after = token_stream(src, t.lexer.pos);
        assert(tokens == seq![t.peek] + after);
        assert(rest(tokens, 1) =~= after);
        if t.lexer.pos < src.len() {
            let last = token_stream(src, u.lexer.pos);
            assert(after == seq![u.peek] + last);
            assert(rest(tokens, 2) =~= last);
        } else {
            assert(rest(tokens, 2) =~= Seq::empty());
        }
    } else {
        assert(rest(tokens, 2) =~= Seq::empty());
    }
}

/// Sliding the window moves a state from token `n` to token `n + 1`.
proof fn lemma_advance_at(s: ParserView, tokens: Seq<TokenView>, n: int)
    requires
        at(s, tokens, n),
        s.advance() is Ok,
    ensures
        at(s.advance()->Ok_0, tokens, n + 1),
{
    let src = s.lexer.source;
    let pos = s.lexer.pos;
    let t = s.advance()->Ok_0;
    lemma_lex_progress(src, pos);
    if 0 <= pos < src.len() {
        let after = token_stream(src, t.lexer.pos);
        assert(token_stream(src, pos) == seq![t.peek] + after);
        let upcoming = rest(tokens, n + 2);
        assert(upcoming.len() == after.len() + 1);
        assert(upcoming[0] == t.peek);
        assert forall|i: int| 0 <= i < after.len() implies after[i] == rest(tokens, n + 3)[i] by {
            assert(after[i] == upcoming[i + 1]);
        }
        assert(rest(tokens, n + 3) =~= after);
    } else {
        assert(rest(tokens, n + 2).len() == 0);
        assert(t.peek == single(src, pos, TokenKind::EOF).result->Ok_0);
        assert(t.peek =~~= end_token());
        assert(rest(tokens, n + 3) =~= Seq::empty());
    }
}

/// Consuming a token that is neither an identifier, nor the end of input,
/// nor a naming keyword keeps a state faithful.
pub(crate) proof fn lemma_plain_step(s: ParserView, tokens: Seq<TokenView>, n: int)
    requires
        faithful(s, tokens, n),
        s.cur.kind != TokenKind::IDENT,
        s.cur.kind != TokenKind::EOF,
        !naming(s.cur.kind),
        s.advance() is Ok,
    ensures
        faithful(s.advance()->Ok_0, tokens, n + 1),
{
    let t = s.advance()->Ok_0;
    lemma_advance_at(s, tokens, n);
    lemma_widen(tokens, n);
    assert forall|i: int| 0 <= i < n + 1 && #[trigger] is_use(tokens, i) implies declared_before(
        tokens,
        i,
        tokens[i].text,
    ) by {}
    assert forall|j: int, name: Seq<char>| #[trigger]
        names(tokens, j, n + 1, TokenKind::LABEL, name) implies t.labels_declared.contains(
        name,
    ) by {
        assert(names(tokens, j, n, TokenKind::LABEL, name));
    }
    assert forall|j: int, name: Seq<char>| #[trigger]
        names(tokens, j, n + 1, TokenKind::GOTO, name) implies t.labels_gotoed.contains(name) by {
        assert(names(tokens, j, n, TokenKind::GOTO, name));
    }
    assert forall|i: int, j: int, name: Seq<char>|
        #[trigger] names(tokens, i, n + 1, TokenKind::LABEL, name) && #[trigger] names(
            tokens,
            j,
            n + 1,
            TokenKind::LABEL,
            name,
        ) implies i == j by {
        assert(names(tokens, i, n, TokenKind::LABEL, name));
        assert(names(tokens, j, n, TokenKind::LABEL, name));
    }
}

/// Consuming an identifier that is a declared variable, read as an operand,
/// keeps a state faithful.
pub(crate) proof fn lemma_use_step(s: ParserView, tokens: Seq<TokenView>, n: int)
    requires
        faithful(s, tokens, n),
        s.cur.kind == TokenKind::IDENT,
        s.symbols.contains(s.cur.text),
        s.advance() is Ok,
    ensures
        faithful(s.advance()->Ok_0, tokens, n + 1),
{
    let t = s.advance()->Ok_0;
    lemma_advance_at(s, tokens, n);
    lemma_widen(tokens, n);
    assert forall|i: int| 0 <= i < n + 1 && #[trigger] is_use(tokens, i) implies declared_before(
        tokens,
        i,
        tokens[i].text,
    ) by {}
    assert forall|j: int, name: Seq<char>| #[trigger]
        names(tokens, j, n + 1, TokenKind::LABEL, name) implies t.labels_declared.contains(
        name,
    ) by {
        assert(names(tokens, j, n, TokenKind::LABEL, name));
    }
    assert forall|j: int, name: Seq<char>| #[trigger]
        names(tokens, j, n + 1, TokenKind::GOTO, name) implies t.labels_gotoed.contains(name) by {
        assert(names(tokens, j, n, TokenKind::GOTO, name));
    }
    assert forall|i: int, j: int, name: Seq<char>|
        #[trigger] names(tokens, i, n + 1, TokenKind::LABEL, name) && #[trigger] names(
            tokens,
            j,
            n + 1,
            TokenKind::LABEL,
            name,
        ) implies i == j by {
        assert(names(tokens, i, n, TokenKind::LABEL, name));
        assert(names(tokens, j, n, TokenKind::LABEL, name));
    }
}

/// What was declared before token `n` was declared before any later token.
proof fn lemma_widen(tokens: Seq<TokenView>, n: int)
    ensures
        forall|name: Seq<char>, m: int|
            n <= m && declared_before(tokens, n, name) ==> #[trigger] declared_before(
                tokens,
                m,
                name,
            ),
        forall|name: Seq<char>, m: int|
            n <= m && labelled_before(tokens, n, name) ==> #[trigger] labelled_before(
                tokens,
                m,
                name,
            ),
{
    assert forall|name: Seq<char>, m: int|
        n <= m && declared_before(tokens, n, name) implies #[trigger] declared_before(
        tokens,
        m,
        name,
    ) by {
        let j = choose|j: int|
            names(tokens, j, n, TokenKind::LET, name) || names(
                tokens,
                j,
                n,
                TokenKind::INPUT,
                name,
            );
        assert(names(tokens, j, m, TokenKind::LET, name) || names(
            tokens,
            j,
            m,
            TokenKind::INPUT,
            name,
        ));
    }
    assert forall|name: Seq<char>, m: int|
        n <= m && labelled_before(tokens, n, name) implies #[trigger] labelled_before(
        tokens,
        m,
        name,
    ) by {
        let j = choose|j: int| names(tokens, j, n, TokenKind::LABEL, name);
        assert(names(tokens, j, m, TokenKind::LABEL, name));
    }
}

/// Consuming a naming keyword and the identifier after it keeps a state
/// faithful, where the names in between change as the keyword asks: `LET`
/// and `INPUT` declare the variable, `LABEL` declares the label, which has
/// to be new, and `GOTO` records it.
pub(crate) proof fn lemma_naming_step(s: ParserView, named: ParserView, tokens: Seq<TokenView>, n: int)
    requires
        faithful(s, tokens, n),
        naming(s.cur.kind),
        s.advance() is Ok,
        named == (ParserView {
            emitter: named.emitter,
            symbols: named.symbols,
            labels_declared: named.labels_declared,
            labels_gotoed: named.labels_gotoed,
            ..s.advance()->Ok_0
        }),
        named.symbols == if s.cur.kind == TokenKind::LET || s.cur.kind == TokenKind::INPUT {
            with_name(s.symbols, s.peek.text)
        } else {
            s.symbols
        },
        named.labels_declared == if s.cur.kind == TokenKind::LABEL {
            s.labels_declared.push(s.peek.text)
        } else {
            s.labels_declared
        },
        s.cur.kind == TokenKind::LABEL ==> !s.labels_declared.contains(s.peek.text),
        named.labels_gotoed == if s.cur.kind == TokenKind::GOTO {
            with_name(s.labels_gotoed, s.peek.text)
        } else {
            s.labels_gotoed
        },
        named.expect(TokenKind::IDENT) is Ok,
    ensures
        faithful(named.expect(TokenKind::IDENT)->Ok_0, tokens, n + 2),
{
    let t = s.advance()->Ok_0;
    let u = named.expect(TokenKind::IDENT)->Ok_0;
    let name = s.peek.text;
    lemma_advance_at(s, tokens, n);
    assert(at(named, tokens, n + 1));
    lemma_advance_at(named, tokens, n + 1);
    lemma_widen(tokens, n);
    assert(tokens[n] == s.cur);
    assert(tokens[n + 1] == s.peek);
    lemma_with_name(s.symbols, name);
    lemma_with_name(s.labels_gotoed, name);
    assert(variables(tokens, n + 1) == variables(tokens, n));
    assert(u.symbols == variables(tokens, n + 2));
    assert(names(tokens, n, n + 2, s.cur.kind, name));
    assert forall|x: Seq<char>| #[trigger] u.symbols.contains(x) implies declared_before(
        tokens,
        n + 2,
        x,
    ) by {
        if !s.symbols.contains(x) {
            assert(x == name);
        }
    }
    assert forall|i: int| 0 <= i < n + 2 && #[trigger] is_use(tokens, i) implies declared_before(
        tokens,
        i,
        tokens[i].text,
    ) by {}
    assert forall|j: int, x: Seq<char>| #[trigger]
        names(tokens, j, n + 2, TokenKind::LABEL, x) implies u.labels_declared.contains(x) by {
        if j == n {
            assert(u.labels_declared[s.labels_declared.len() as int] == x);
        } else {
            assert(names(tokens, j, n, TokenKind::LABEL, x));
            let k = choose|k: int| 0 <= k < s.labels_declared.len() && s.labels_declared[k] == x;
            assert(u.labels_declared[k] == x);
        }
    }
    assert forall|x: Seq<char>| #[trigger] u.labels_declared.contains(x) implies labelled_before(
        tokens,
        n + 2,
        x,
    ) by {
        if !s.labels_declared.contains(x) {
            assert(x == name);
        }
    }
    assert forall|i: int, j: int, x: Seq<char>|
        #[trigger] names(tokens, i, n + 2, TokenKind::LABEL, x) && #[trigger] names(
            tokens,
            j,
            n + 2,
            TokenKind::LABEL,
            x,
        ) implies i == j by {
        if i != n {
            assert(names(tokens, i, n, TokenKind::LABEL, x));
        }
        if j != n {
            assert(names(tokens, j, n, TokenKind::LABEL, x));
        }
    }
    assert forall|j: int, x: Seq<char>| #[trigger]
        names(tokens, j, n + 2, TokenKind::GOTO, x) implies u.labels_gotoed.contains(x) by {
        if j != n {
            assert(names(tokens, j, n, TokenKind::GOTO, x));
        }
    }
}

/// `with_name` holds the name and whatever the list held, and nothing else.
proof fn lemma_with_name(list: Seq<Seq<char>>, name: Seq<char>)
    ensures
        with_name(list, name).contains(name),
        forall|x: Seq<char>| list.contains(x) ==> #[trigger] with_name(list, name).contains(x),
        forall|x: Seq<char>| #[trigger]
            with_name(list, name).contains(x) ==> list.contains(x) || x == name,
{
    let grown = with_name(list, name);
    if !list.contains(name) {
        assert(grown[list.len() as int] == name);
        assert forall|x: Seq<char>| list.contains(x) implies #[trigger] grown.contains(x) by {
            let k = choose|k: int| 0 <= k < list.len() && list[k] == x;
            assert(grown[k] == x);
        }
    }
}

} // verus!
