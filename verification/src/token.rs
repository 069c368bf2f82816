//! Public token types: the token kinds, the located `Token` itself, source
//! locations derived from a token's leader, and the lexical error type.

use vstd::prelude::*;

verus! {

/// A line/column pair, both 1-based.
#[derive(Clone, Copy, Debug, PartialEq, Eq, Structural)]
pub struct SrcLoc {
    pub line: usize,
    pub column: usize,
}

/// The class a lexeme falls into.
#[derive(Clone, Copy, Debug, PartialEq, Eq, Structural)]
pub enum TokenKind {
    Ident,
    LitInt,
    LitString,
    Punct,
}

/// A lexical failure: a character outside every recognized class, or a
/// string literal whose closing quote never appears before the line ends.
/// Each variant carries the offending character or the opening quote.
#[derive(Clone, Copy, Debug, PartialEq, Eq, Structural)]
pub enum LexError {
    BadCharacter(char),
    UnclosedString(char),
}

/// The mathematical content of a `Token`: its kind, 1-based line number,
/// the text preceding the lexeme on its line, and the lexeme itself.
pub struct TokenV {
    pub kind: TokenKind,
    pub line: nat,
    pub leader: Seq<char>,
    pub spelling: Seq<char>,
}

/// One token of source text. It owns copies of its lexeme (`spelling`) and of
/// the text that precedes the lexeme on its line (`leader`, kept only for
/// column bookkeeping).
#[derive(Debug)]
pub struct Token {
    kind: TokenKind,
    line_num: usize,
    leader: Vec<char>,
    spelling: Vec<char>,
}

impl View for Token {
    type V = TokenV;

    closed spec fn view(&self) -> TokenV {
        TokenV {
            kind: self.kind,
            line: self.line_num as nat,
            leader: self.leader@,
            spelling: self.spelling@,
        }
    }
}

impl Clone for Token {
    fn clone(&self) -> (r: Self)
        ensures
            r@ == self@,
    {
        let r = Token {
            kind: self.kind,
            line_num: self.line_num,
            leader: clone_chars(&self.leader),
            spelling: clone_chars(&self.spelling),
        };
        assert(r@ == self@);
        r
    }
}

/// Copies a character vector element by element.
pub fn clone_chars(v: &Vec<char>) -> (r: Vec<char>)
    ensures
        r@ == v@,
{
    let mut r: Vec<char> = Vec::new();
    let mut i: usize = 0;
    while i < v.len()
        invariant
            i <= v@.len(),
            r@ == v@.subrange(0, i as int),
        decreases v@.len() - i,
    {
        r.push(v[i]);
        i = i + 1;
        assert(r@ == v@.subrange(0, i as int));
    }
    assert(r@ == v@);
    r
}

impl Token {
    /// Builds a token from its parts; only the lexer constructs tokens.
    pub(crate) fn new(kind: TokenKind, line_num: usize, leader: Vec<char>, spelling: Vec<char>) -> (r: Token)
        ensures
            r@ == (TokenV { kind, line: line_num as nat, leader: leader@, spelling: spelling@ }),
    {
        Token { kind, line_num, leader, spelling }
    }

    /// The 1-based column at which the lexeme starts, derived from the
    /// leader's length in characters.
    fn column(&self) -> (r: usize)
        requires
            self@.leader.len() < usize::MAX,
        ensures
            r == self@.leader.len() + 1,
    {
        self.leader.len() + 1
    }

    /// Where the token stands in the source: its line and column.
    pub fn location(&self) -> (r: SrcLoc)
        requires
            self@.leader.len() < usize::MAX,
        ensures
            r.line == self@.line,
            r.column == self@.leader.len() + 1,
    {
        SrcLoc { line: self.line_num, column: self.column() }
    }

    /// The token's kind.
    pub fn kind(&self) -> (r: TokenKind)
        ensures
            r == self@.kind,
    {
        self.kind
    }

    /// The token's lexeme.
    pub fn spelling(&self) -> (r: &Vec<char>)
        ensures
            r@ == self@.spelling,
    {
        &self.spelling
    }

    /// Hands the token back when it has the expected kind, `None` otherwise.
    pub fn expect(self, kind: TokenKind) -> (r: Option<Token>)
        ensures
            self@.kind == kind ==> (r matches Some(t) && t@ == self@),
            self@.kind != kind ==> r is None,
    {
        if kind == self.kind {
            Some(self)
        } else {
            None
        }
    }
}

} // verus!
