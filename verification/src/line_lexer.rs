//! One line's tokenizer: a cursor-driven state machine that classifies
//! character runs into tokens, together with the mathematical model of a
//! single scanning step (`lex_step`) that its contract is stated against.

use vstd::prelude::*;
use crate::lexing::Lexing;
use crate::token::{Token, TokenKind, LexError};

verus! {

// --- character classes -------------------------------------------------

/// Whitespace skipped between lexemes: the characters with the Unicode
/// White_Space property.
pub open spec fn ws(c: char) -> bool {
    c == '\u{0009}' || c == '\u{000A}' || c == '\u{000B}' || c == '\u{000C}' || c == '\u{000D}'
        || c == '\u{0020}' || c == '\u{0085}' || c == '\u{00A0}' || c == '\u{1680}' || ('\u{2000}'
        <= c && c <= '\u{200A}') || c == '\u{2028}' || c == '\u{2029}' || c == '\u{202F}' || c
        == '\u{205F}' || c == '\u{3000}'
}

/// A character that may open an identifier.
pub open spec fn ident_initial(c: char) -> bool {
    alpha(c) || c == '_'
}

/// An ASCII letter.
pub open spec fn alpha(c: char) -> bool {
    ('a' <= c && c <= 'z') || ('A' <= c && c <= 'Z')
}

/// A character that may continue an identifier.
pub open spec fn ident_char(c: char) -> bool {
    ident_initial(c) || digit(c)
}

/// A decimal digit.
pub open spec fn digit(c: char) -> bool {
    '0' <= c && c <= '9'
}

/// One of the fixed single-character punctuation marks.
pub open spec fn punct(c: char) -> bool {
    c == '+' || c == '-' || c == '=' || c == '(' || c == ')' || c == ','
}

/// A string delimiter.
pub open spec fn quote(c: char) -> bool {
    c == '"' || c == '\''
}

pub fn is_whitespace(c: char) -> (r: bool)
    ensures
        r == ws(c),
{
    c == '\u{0009}' || c == '\u{000A}' || c == '\u{000B}' || c == '\u{000C}' || c == '\u{000D}'
        || c == '\u{0020}' || c == '\u{0085}' || c == '\u{00A0}' || c == '\u{1680}' || ('\u{2000}'
        <= c && c <= '\u{200A}') || c == '\u{2028}' || c == '\u{2029}' || c == '\u{202F}' || c
        == '\u{205F}' || c == '\u{3000}'
}

pub fn is_ident_initial(c: char) -> (r: bool)
    ensures
        r == ident_initial(c),
{
    is_alpha(c) || c == '_'
}

pub fn is_alpha(c: char) -> (r: bool)
    ensures
        r == alpha(c),
{
    ('a' <= c && c <= 'z') || ('A' <= c && c <= 'Z')
}

pub fn is_ident_char(c: char) -> (r: bool)
    ensures
        r == ident_char(c),
{
    is_ident_initial(c) || is_digit(c)
}

pub fn is_digit(c: char) -> (r: bool)
    ensures
        r == digit(c),
{
    '0' <= c && c <= '9'
}

pub fn is_punct(c: char) -> (r: bool)
    ensures
        r == punct(c),
{
    c == '+' || c == '-' || c == '=' || c == '(' || c == ')' || c == ','
}

pub fn is_quote(c: char) -> (r: bool)
    ensures
        r == quote(c),
{
    c == '"' || c == '\''
}

// --- maximal runs ------------------------------------------------------

/// The predicates as values, so that `run_end` facts can be shared.
pub open spec fn ws_p() -> spec_fn(char) -> bool {
    |c: char| ws(c)
}

pub open spec fn ident_p() -> spec_fn(char) -> bool {
    |c: char| ident_char(c)
}

pub open spec fn digit_p() -> spec_fn(char) -> bool {
    |c: char| digit(c)
}

/// The first position at or after `pos` whose character fails `p`, or the
/// line's end: the end of the maximal run of `p`-characters from `pos`.
pub open spec fn run_end(line: Seq<char>, pos: int, p: spec_fn(char) -> bool) -> int
    decreases line.len() - pos,
{
    if pos < line.len() && p(line[pos]) {
        run_end(line, pos + 1, p)
    } else {
        pos
    }
}

/// The end of the whitespace run from `pos`.
pub open spec fn ws_end(line: Seq<char>, pos: int) -> int {
    run_end(line, pos, ws_p())
}

pub proof fn lemma_run_end_bounds(line: Seq<char>, pos: int, p: spec_fn(char) -> bool)
    requires
        0 <= pos <= line.len(),
    ensures
        pos <= run_end(line, pos, p) <= line.len(),
    decreases line.len() - pos,
{
    if pos < line.len() && p(line[pos]) {
        lemma_run_end_bounds(line, pos + 1, p);
    }
}

/// A run's end is wherever the characters satisfy `p` and the next one
/// (if any) does not.
pub proof fn lemma_run_end_from(line: Seq<char>, s: int, e: int, p: spec_fn(char) -> bool)
    requires
        0 <= s <= e <= line.len(),
        forall|i: int| s <= i < e ==> p(line[i]),
        e == line.len() || !p(line[e]),
    ensures
        run_end(line, s, p) == e,
    decreases e - s,
{
    if s < e {
        lemma_run_end_from(line, s + 1, e, p);
    }
}

/// Every character of a run satisfies `p`, and the run is maximal.
pub proof fn lemma_run_end_chars(line: Seq<char>, pos: int, p: spec_fn(char) -> bool)
    requires
        0 <= pos <= line.len(),
    ensures
        forall|i: int| pos <= i < run_end(line, pos, p) ==> p(line[i]),
        run_end(line, pos, p) == line.len() || !p(line[run_end(line, pos, p)]),
    decreases line.len() - pos,
{
    if pos < line.len() && p(line[pos]) {
        lemma_run_end_chars(line, pos + 1, p);
    }
}

// --- string scanning ---------------------------------------------------

/// Scans string-literal content from `pos` (just past the opening quote
/// `q`): the position of the closing quote, skipping each backslash
/// together with the character after it, or `None` when the line ends
/// first.
pub open spec fn str_close(line: Seq<char>, pos: int, q: char) -> Option<int>
    decreases line.len() - pos,
{
    if pos >= line.len() {
        None
    } else if line[pos] == q {
        Some(pos)
    } else if line[pos] == '\\' {
        if pos + 1 < line.len() {
            str_close(line, pos + 2, q)
        } else {
            None
        }
    } else {
        str_close(line, pos + 1, q)
    }
}

pub proof fn lemma_str_close_bounds(line: Seq<char>, pos: int, q: char, cl: int)
    requires
        0 <= pos <= line.len(),
        str_close(line, pos, q) == Some(cl),
    ensures
        pos <= cl < line.len(),
        line[cl] == q,
    decreases line.len() - pos,
{
    if pos >= line.len() {
    } else if line[pos] == q {
    } else if line[pos] == '\\' {
        if pos + 1 < line.len() {
            lemma_str_close_bounds(line, pos + 2, q, cl);
        }
    } else {
        lemma_str_close_bounds(line, pos + 1, q, cl);
    }
}

// --- one scanning step -------------------------------------------------

/// What one call of the tokenizer does at scan position `pos`: reach the
/// line's end, produce a token, or fail. A token is described by the end of
/// its leader, the bounds of its spelling, and the next scan position.
pub enum LexStep {
    End,
    Next { kind: TokenKind, lead: int, lo: int, hi: int, next: int },
    Fail(LexError),
}

/// The tokenizer's step function: skip whitespace, then dispatch on the
/// class of the next character.
pub open spec fn lex_step(line: Seq<char>, pos: int) -> LexStep {
    let p = ws_end(line, pos);
    if p >= line.len() {
        LexStep::End
    } else {
        let c = line[p];
        if ident_initial(c) {
            let e = run_end(line, p, ident_p());
            LexStep::Next { kind: TokenKind::Ident, lead: p, lo: p, hi: e, next: e }
        } else if digit(c) {
            let e = run_end(line, p, digit_p());
            LexStep::Next { kind: TokenKind::LitInt, lead: p, lo: p, hi: e, next: e }
        } else if quote(c) {
            match str_close(line, p + 1, c) {
                Some(cl) => LexStep::Next {
                    kind: TokenKind::LitString,
                    lead: p,
                    lo: p + 1,
                    hi: cl,
                    next: cl + 1,
                },
                None => LexStep::Fail(LexError::UnclosedString(c)),
            }
        } else if punct(c) {
            LexStep::Next { kind: TokenKind::Punct, lead: p, lo: p, hi: p + 1, next: p + 1 }
        } else {
            LexStep::Fail(LexError::BadCharacter(c))
        }
    }
}

/// A produced token stands inside the line and makes strict progress.
pub proof fn lemma_step_in_range(line: Seq<char>, pos: int)
    requires
        0 <= pos <= line.len(),
    ensures
        lex_step(line, pos) matches LexStep::Next { kind, lead, lo, hi, next } ==> {
            &&& 0 <= lead <= lo <= hi <= line.len()
            &&& pos < next <= line.len()
            &&& hi <= next
        },
{
    lemma_run_end_bounds(line, pos, ws_p());
    let p = ws_end(line, pos);
    if p < line.len() {
        let c = line[p];
        if ident_initial(c) {
            assert(ident_p()(line[p]));
            lemma_run_end_bounds(line, p + 1, ident_p());
            assert(run_end(line, p, ident_p()) == run_end(line, p + 1, ident_p()));
        } else if digit(c) {
            assert(digit_p()(line[p]));
            lemma_run_end_bounds(line, p + 1, digit_p());
            assert(run_end(line, p, digit_p()) == run_end(line, p + 1, digit_p()));
        } else if quote(c) {
            if let Some(cl) = str_close(line, p + 1, c) {
                lemma_str_close_bounds(line, p + 1, c, cl);
            }
        }
    }
}

/// Law of identifier runs: where an identifier-initial character follows
/// the skipped whitespace, the step yields exactly one `Ident` token whose
/// spelling is the maximal identifier-character run, and scanning resumes
/// at the first character past that run.
pub proof fn lemma_identifier_run(line: Seq<char>, pos: int)
    requires
        0 <= pos <= line.len(),
        ws_end(line, pos) < line.len(),
        ident_initial(line[ws_end(line, pos)]),
    ensures
        (lex_step(line, pos) matches LexStep::Next { kind, lead, lo, hi, next } && {
            &&& kind == TokenKind::Ident
            &&& lead == ws_end(line, pos)
            &&& lo == ws_end(line, pos)
            &&& hi == run_end(line, lo, ident_p())
            &&& next == hi
            &&& lo < hi <= line.len()
            &&& forall|i: int| lo <= i < hi ==> ident_char(line[i])
            &&& hi == line.len() || !ident_char(line[hi])
        }),
{
    let p = ws_end(line, pos);
    lemma_run_end_bounds(line, pos, ws_p());
    assert(ident_p()(line[p]));
    lemma_run_end_bounds(line, p + 1, ident_p());
    assert(run_end(line, p, ident_p()) == run_end(line, p + 1, ident_p()));
    lemma_run_end_chars(line, p, ident_p());
    assert forall|i: int| p <= i < run_end(line, p, ident_p()) implies ident_char(line[i]) by {
        assert(ident_p()(line[i]));
    };
    if run_end(line, p, ident_p()) < line.len() {
        assert(!ident_p()(line[run_end(line, p, ident_p())]));
    }
}

/// Law of well-formed string literals: the produced token's spelling is
/// exactly the text strictly between the two delimiting quotes — the
/// quotes themselves are excluded — and scanning resumes just past the
/// closing quote.
pub proof fn lemma_string_literal(line: Seq<char>, pos: int)
    requires
        0 <= pos <= line.len(),
        ws_end(line, pos) < line.len(),
        quote(line[ws_end(line, pos)]),
        str_close(line, ws_end(line, pos) + 1, line[ws_end(line, pos)]) is Some,
    ensures
        (lex_step(line, pos) matches LexStep::Next { kind, lead, lo, hi, next } && {
            &&& kind == TokenKind::LitString
            &&& lead == ws_end(line, pos)
            &&& lo == ws_end(line, pos) + 1
            &&& Some(hi) == str_close(line, lo, line[ws_end(line, pos)])
            &&& lead < lo <= hi < line.len()
            &&& line[lead] == line[ws_end(line, pos)]
            &&& line[hi] == line[ws_end(line, pos)]
            &&& next == hi + 1
        }),
{
    let p = ws_end(line, pos);
    let q = line[p];
    lemma_run_end_bounds(line, pos, ws_p());
    let cl = str_close(line, p + 1, q)->Some_0;
    lemma_str_close_bounds(line, p + 1, q, cl);
    assert(!ident_initial(q));
    assert(!digit(q));
}

// --- the tokenizer -----------------------------------------------------

/// A lazy, line-scoped producer of tokens: one token (or error) per call of
/// `next`. After an error it yields nothing more.
pub struct LineLexer {
    lexing: Lexing,
    line: usize,
    failed: bool,
}

impl LineLexer {
    /// The characters of the line being tokenized.
    pub closed spec fn text(&self) -> Seq<char> {
        self.lexing.text()
    }

    /// The current scan position.
    pub closed spec fn pos(&self) -> int {
        self.lexing.hi()
    }

    /// The 1-based number of this line, carried into every token.
    pub closed spec fn line_no(&self) -> nat {
        self.line as nat
    }

    /// Whether a lexical error has ended this line's sequence.
    pub closed spec fn failed(&self) -> bool {
        self.failed
    }

    pub open spec fn wf(&self) -> bool {
        0 <= self.pos() <= self.text().len()
    }

    /// A consume step leaves no pending match between calls.
    pub closed spec fn inv(&self) -> bool {
        self.lexing.wf() && self.lexing.lo() == self.lexing.hi()
    }

    /// A fresh tokenizer at the start of a line.
    pub fn new(line: Vec<char>, line_no: usize) -> (r: LineLexer)
        ensures
            r.text() == line@,
            r.pos() == 0,
            r.line_no() == line_no,
            !r.failed(),
            r.wf(),
            r.inv(),
    {
        LineLexer { lexing: Lexing::new(line), line: line_no, failed: false }
    }

    /// Whether an error has ended this line's token sequence.
    pub fn check_failed(&self) -> (r: bool)
        ensures
            r == self.failed(),
    {
        self.failed
    }

    /// Finishes a token: consumes the cursor's match into leader and
    /// spelling, stores the reset cursor, and builds the token.
    fn done(&mut self, kind: TokenKind, lexing: Lexing) -> (t: Token)
        requires
            lexing.wf(),
        ensures
            t@.kind == kind,
            t@.line == old(self).line_no(),
            t@.leader == lexing.text().subrange(0, lexing.lo()),
            t@.spelling == lexing.text().subrange(lexing.lo(), lexing.hi()),
            final(self).text() == lexing.text(),
            final(self).pos() == lexing.hi(),
            final(self).line_no() == old(self).line_no(),
            final(self).failed() == old(self).failed(),
            final(self).inv(),
    {
        let (mat, rest) = lexing.consume();
        self.lexing = rest;
        Token::new(kind, self.line, mat.leader, mat.spelling)
    }

    /// One step of the tokenizer, behaving as `lex_step` says: `None` at
    /// the line's end, a token whose leader and spelling are the step's
    /// ranges of the line, or the step's error, after which the sequence
    /// has ended.
    pub fn next(&mut self) -> (r: Option<Result<Token, LexError>>)
        requires
            old(self).wf(),
            old(self).inv(),
        ensures
            final(self).text() == old(self).text(),
            final(self).line_no() == old(self).line_no(),
            final(self).wf(),
            final(self).inv(),
            old(self).failed() ==> r is None && final(self).failed(),
            !old(self).failed() ==> match lex_step(old(self).text(), old(self).pos()) {
                LexStep::End => r is None && final(self).failed() == old(self).failed()
                    && final(self).pos() == old(self).text().len(),
                LexStep::Next { kind, lead, lo, hi, next } => (r matches Some(item)
                    && item matches Ok(t)
                    && t@.kind == kind
                    && t@.line == old(self).line_no()
                    && t@.leader == old(self).text().subrange(0, lead)
                    && t@.spelling == old(self).text().subrange(lo, hi)
                    && final(self).pos() == next
                    && final(self).failed() == old(self).failed()),
                LexStep::Fail(e) => (r matches Some(item) && item matches Err(e2) && e2 == e
                    && final(self).failed()),
            },
    {
        if self.failed {
            return None;
        }
        let ghost t = self.text();
        let ghost p0 = self.pos();

        // Skip whitespace.
        let skipped = match self.lexing.clone().take_while(
            (|c: char| -> (r: bool)
                ensures
                    r == ws(c),
                { is_whitespace(c) }),
        ) {
            Some(sk) => {
                proof {
                    lemma_run_end_from(t, p0, sk.hi(), ws_p());
                }
                sk.discard()
            },
            None => {
                proof {
                    lemma_run_end_from(t, p0, p0, ws_p());
                }
                self.lexing.clone()
            },
        };
        let ghost p = skipped.hi();
        proof {
            assert(p == ws_end(t, p0));
        }
        self.lexing = skipped;

        let (ch, lx1) = match self.lexing.clone().get() {
            None => {
                return None;
            },
            Some(pair) => pair,
        };
        assert(ch == t[p]);

        if is_ident_initial(ch) {
            let run = match lx1.take_while(
                (|c: char| -> (r: bool)
                    ensures
                        r == ident_char(c),
                    { is_ident_char(c) }),
            ) {
                Some(l) => {
                    proof {
                        lemma_run_end_from(t, p, l.hi(), ident_p());
                    }
                    l
                },
                None => {
                    proof {
                        lemma_run_end_from(t, p, p + 1, ident_p());
                    }
                    self.lexing.clone().take(1).unwrap()
                },
            };
            let tok = self.done(TokenKind::Ident, run);
            Some(Ok(tok))
        } else if is_digit(ch) {
            let run = match lx1.take_while(
                (|c: char| -> (r: bool)
                    ensures
                        r == digit(c),
                    { is_digit(c) }),
            ) {
                Some(l) => {
                    proof {
                        lemma_run_end_from(t, p, l.hi(), digit_p());
                    }
                    l
                },
                None => {
                    proof {
                        lemma_run_end_from(t, p, p + 1, digit_p());
                    }
                    self.lexing.clone().take(1).unwrap()
                },
            };
            let tok = self.done(TokenKind::LitInt, run);
            Some(Ok(tok))
        } else if is_quote(ch) {
            let open_q = ch;
            let (lead_mat, rest) = lx1.consume();
            let leader = lead_mat.leader;
            let mut cur = rest;
            loop
                invariant
                    t == old(self).text(),
                    p0 == old(self).pos(),
                    0 <= p0 <= t.len(),
                    !old(self).failed(),
                    p == ws_end(t, p0),
                    cur.wf(),
                    cur.text() == t,
                    cur.lo() == p + 1,
                    p + 1 <= cur.hi() <= t.len(),
                    str_close(t, p + 1, open_q) == str_close(t, cur.hi(), open_q),
                    leader@ == t.subrange(0, p),
                    0 <= p < t.len(),
                    quote(t[p]),
                    open_q == t[p],
                    self.line_no() == old(self).line_no(),
                    self.text() == t,
                    !self.failed(),
                    self.inv(),
                    self.wf(),
                decreases t.len() - cur.hi(),
            {
                match cur.clone().get() {
                    None => {
                        self.failed = true;
                        return Some(Err(LexError::UnclosedString(open_q)));
                    },
                    Some((c2, nxt)) => {
                        if c2 == open_q {
                            let (mat2, _rest2) = cur.consume();
                            let after = nxt.discard();
                            self.lexing = after;
                            let tok = Token::new(
                                TokenKind::LitString,
                                self.line,
                                leader,
                                mat2.spelling,
                            );
                            return Some(Ok(tok));
                        } else if c2 == '\\' {
                            match nxt.get() {
                                None => {
                                    self.failed = true;
                                    return Some(Err(LexError::UnclosedString(open_q)));
                                },
                                Some((_, nxt2)) => {
                                    cur = nxt2;
                                },
                            }
                        } else {
                            cur = nxt;
                        }
                    },
                }
            }
        } else if is_punct(ch) {
            let tok = self.done(TokenKind::Punct, lx1);
            Some(Ok(tok))
        } else {
            self.failed = true;
            Some(Err(LexError::BadCharacter(ch)))
        }
    }
}

} // verus!
