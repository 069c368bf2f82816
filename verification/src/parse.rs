//! The parser-combinator engine's core: the `Parser` capability, the
//! `Parse` derivation contract for types that declare their own parse rule,
//! the zero-or-more rule for `Vec`, and the token-expectation helper.
//!
//! A token sequence is a materialized token list together with an index;
//! copying the index is the cheap position snapshot that lets a failed
//! alternative retry from its start.

use vstd::prelude::*;
use core::marker::PhantomData;
use crate::token::{Token, TokenKind};
use crate::combinators::{Mapped, OrElse, Within, List};

verus! {

/// The one undifferentiated parse failure: the engine is a recognizer, not
/// a diagnostic producer.
#[derive(Clone, Copy, Debug, PartialEq, Eq, Structural)]
pub enum ParseError {
    ParseError,
}

/// A composable parsing operation over a rewindable token sequence.
///
/// Its contract pins the operation down by three spec functions that every
/// implementation defines: on which inputs it succeeds (`accepts`), where a
/// success leaves the sequence (`next_pos`), and which outputs a success
/// may yield (`produces`). On failure the caller's position is untouched,
/// so alternation can retry from the same spot.
pub trait Parser: Sized {
    type Output;

    /// The parser's configuration is sound (component parsers are, and any
    /// carried function is total).
    spec fn wf(&self) -> bool;

    /// Whether parsing succeeds on `toks` at `pos`.
    spec fn accepts(&self, toks: Seq<Token>, pos: int) -> bool;

    /// The position just past what a successful parse consumed.
    spec fn next_pos(&self, toks: Seq<Token>, pos: int) -> int;

    /// Whether `out` is an output a successful parse at `pos` may yield.
    spec fn produces(&self, toks: Seq<Token>, pos: int, out: Self::Output) -> bool;

    /// Parses at `pos`, yielding the output and the position just past the
    /// consumed tokens, or the failure with nothing consumed.
    fn parse(&self, toks: &Vec<Token>, pos: usize) -> (r: Result<(Self::Output, usize), ParseError>)
        requires
            self.wf(),
            pos <= toks@.len(),
        ensures
            (r is Ok) == self.accepts(toks@, pos as int),
            r matches Ok(p) ==> ({
                &&& p.1 as int == self.next_pos(toks@, pos as int)
                &&& pos <= p.1 <= toks@.len()
                &&& self.produces(toks@, pos as int, p.0)
            }),
    ;

}

/// The derivation contract: a type declares itself parseable by one entry
/// point, and gains the `parser()` adapter usable wherever a `Parser` is
/// expected, plus the zero-or-more rule on `Vec` of it.
pub trait Parse: Sized {
    /// Whether parsing this type succeeds on `toks` at `pos`.
    spec fn accepts_at(toks: Seq<Token>, pos: int) -> bool;

    /// The position just past what a successful parse consumed.
    spec fn end_at(toks: Seq<Token>, pos: int) -> int;

    /// Whether `out` is a value a successful parse at `pos` may yield.
    spec fn yields(toks: Seq<Token>, pos: int, out: Self) -> bool;

    /// Parses one value of this type at `pos`.
    fn parse(toks: &Vec<Token>, pos: usize) -> (r: Result<(Self, usize), ParseError>)
        requires
            pos <= toks@.len(),
        ensures
            (r is Ok) == Self::accepts_at(toks@, pos as int),
            r matches Ok(p) ==> ({
                &&& p.1 as int == Self::end_at(toks@, pos as int)
                &&& pos <= p.1 <= toks@.len()
                &&& Self::yields(toks@, pos as int, p.0)
            }),
    ;

    /// The zero-sized adapter that parses this type as a `Parser`.
    fn parser() -> (r: TrivialParser<Self>)
        ensures
            r == (TrivialParser::<Self>(PhantomData)),
    {
        TrivialParser(PhantomData)
    }
}

/// The adapter a `Parse` implementation gets for free: a unit value whose
/// `Parser` behaviour is exactly the type's own entry point.
pub struct TrivialParser<Output>(pub PhantomData<Output>);

impl<O: Parse> Parser for TrivialParser<O> {
    type Output = O;

    open spec fn wf(&self) -> bool {
        true
    }

    open spec fn accepts(&self, toks: Seq<Token>, pos: int) -> bool {
        O::accepts_at(toks, pos)
    }

    open spec fn next_pos(&self, toks: Seq<Token>, pos: int) -> int {
        O::end_at(toks, pos)
    }

    open spec fn produces(&self, toks: Seq<Token>, pos: int, out: O) -> bool {
        O::yields(toks, pos, out)
    }

    fn parse(&self, toks: &Vec<Token>, pos: usize) -> (r: Result<(O, usize), ParseError>) {
        O::parse(toks, pos)
    }
}

// --- the zero-or-more rule ---------------------------------------------

/// Where the greedy repetition of `T` from `pos` stops: after each success
/// that consumed something, it goes on from there.
pub open spec fn star_end<T: Parse>(toks: Seq<Token>, pos: int) -> int
    decreases toks.len() - pos,
{
    if T::accepts_at(toks, pos) {
        let e = T::end_at(toks, pos);
        if pos < e <= toks.len() {
            star_end::<T>(toks, e)
        } else {
            pos
        }
    } else {
        pos
    }
}

/// Whether `out` lists exactly the successive values the greedy repetition
/// of `T` from `pos` yields.
pub open spec fn star_yields<T: Parse>(toks: Seq<Token>, pos: int, out: Seq<T>) -> bool
    decreases toks.len() - pos,
{
    if T::accepts_at(toks, pos) {
        let e = T::end_at(toks, pos);
        if pos < e <= toks.len() {
            out.len() >= 1 && T::yields(toks, pos, out[0]) && star_yields::<T>(toks, e, out.skip(1))
        } else {
            out.len() == 0
        }
    } else {
        out.len() == 0
    }
}

impl<T: Parse> Parse for Vec<T> {
    /// The zero-or-more rule never fails.
    open spec fn accepts_at(toks: Seq<Token>, pos: int) -> bool {
        true
    }

    open spec fn end_at(toks: Seq<Token>, pos: int) -> int {
        star_end::<T>(toks, pos)
    }

    open spec fn yields(toks: Seq<Token>, pos: int, out: Self) -> bool {
        star_yields::<T>(toks, pos, out@)
    }

    /// Repeatedly parses `T` until failure, never itself failing, leaving
    /// the sequence at the first position that did not match. A success
    /// that consumed nothing also stops the repetition: the rule would
    /// otherwise never end.
    fn parse(toks: &Vec<Token>, pos: usize) -> (r: Result<(Self, usize), ParseError>) {
        let mut out_vec: Vec<T> = Vec::new();
        let mut cur = pos;
        loop
            invariant_except_break
                pos <= cur <= toks@.len(),
                star_end::<T>(toks@, pos as int) == star_end::<T>(toks@, cur as int),
                forall|tail: Seq<T>|
                    star_yields::<T>(toks@, cur as int, tail) ==> star_yields::<T>(
                        toks@,
                        pos as int,
                        out_vec@ + tail,
                    ),
            ensures
                pos <= cur <= toks@.len(),
                cur as int == star_end::<T>(toks@, pos as int),
                star_yields::<T>(toks@, pos as int, out_vec@),
            decreases toks@.len() - cur,
        {
            let ghost out0 = out_vec@;
            match T::parse(toks, cur) {
                Err(_) => {
                    proof {
                        assert(star_yields::<T>(toks@, cur as int, Seq::<T>::empty()));
                        assert(out_vec@ + Seq::<T>::empty() =~= out_vec@);
                    }
                    break;
                },
                Ok((el, rest)) => {
                    if rest > cur {
                        let ghost elg = el;
                        out_vec.push(el);
                        proof {
                            assert(out_vec@ =~= out0.push(elg));
                            assert forall|tail: Seq<T>|
                                star_yields::<T>(toks@, rest as int, tail) implies star_yields::<
                                T,
                            >(toks@, pos as int, out_vec@ + tail) by {
                                let with_el = seq![elg] + tail;
                                assert(with_el.skip(1) =~= tail);
                                assert(star_yields::<T>(toks@, cur as int, with_el));
                                assert(out0 + with_el =~= out_vec@ + tail);
                            };
                        }
                        cur = rest;
                    } else {
                        proof {
                            assert(star_end::<T>(toks@, cur as int) == cur as int);
                            assert(star_yields::<T>(toks@, cur as int, Seq::<T>::empty()));
                            assert(out_vec@ + Seq::<T>::empty() =~= out_vec@);
                        }
                        break;
                    }
                },
            }
        }
        Ok((out_vec, cur))
    }
}

// --- expecting one token -----------------------------------------------

/// Whether the token at `pos` has the given kind and spelling.
pub open spec fn expect_ok(toks: Seq<Token>, pos: int, kind: TokenKind, sp: Seq<char>) -> bool {
    pos < toks.len() && toks[pos]@.kind == kind && toks[pos]@.spelling == sp
}

/// The boundary contract the grammar layer leans on: demand that the next
/// token have an exact kind and spelling, and fail the parse otherwise.
pub trait TokenIteratorExt {
    /// The tokens of the sequence.
    spec fn toks(&self) -> Seq<Token>;

    /// Succeeds with the position past the token exactly when the token at
    /// `pos` matches kind and spelling.
    fn expect(&self, pos: usize, kind: TokenKind, spelling: &Vec<char>) -> (r: Result<
        usize,
        ParseError,
    >)
        requires
            pos <= self.toks().len(),
        ensures
            (r is Ok) == expect_ok(self.toks(), pos as int, kind, spelling@),
            r matches Ok(next) ==> next == pos + 1,
    ;
}

impl TokenIteratorExt for Vec<Token> {
    open spec fn toks(&self) -> Seq<Token> {
        self@
    }

    fn expect(&self, pos: usize, kind: TokenKind, spelling: &Vec<char>) -> (r: Result<
        usize,
        ParseError,
    >) {
        if pos < self.len() {
            let t = &self[pos];
            if t.kind() == kind && chars_eq(t.spelling(), spelling) {
                Ok(pos + 1)
            } else {
                Err(ParseError::ParseError)
            }
        } else {
            Err(ParseError::ParseError)
        }
    }
}

/// Expecting one exact token, as a `Parser`: the leaf rule grammars are
/// built from. It succeeds exactly on a token of the given kind and
/// spelling, yields that token, and consumes it.
pub struct Expect {
    pub kind: TokenKind,
    pub spelling: Vec<char>,
}

impl Expect {
    pub fn new(kind: TokenKind, spelling: Vec<char>) -> (r: Expect)
        ensures
            r == (Expect { kind, spelling }),
    {
        Expect { kind, spelling }
    }
}

impl Parser for Expect {
    type Output = Token;

    open spec fn wf(&self) -> bool {
        true
    }

    open spec fn accepts(&self, toks: Seq<Token>, pos: int) -> bool {
        expect_ok(toks, pos, self.kind, self.spelling@)
    }

    open spec fn next_pos(&self, toks: Seq<Token>, pos: int) -> int {
        pos + 1
    }

    open spec fn produces(&self, toks: Seq<Token>, pos: int, out: Token) -> bool {
        out@ == toks[pos]@
    }

    fn parse(&self, toks: &Vec<Token>, pos: usize) -> (r: Result<(Token, usize), ParseError>) {
        if pos < toks.len() {
            let t = &toks[pos];
            if t.kind() == self.kind && chars_eq(t.spelling(), &self.spelling) {
                Ok((t.clone(), pos + 1))
            } else {
                Err(ParseError::ParseError)
            }
        } else {
            Err(ParseError::ParseError)
        }
    }
}

/// Compares two character vectors element by element.
pub fn chars_eq(a: &Vec<char>, b: &Vec<char>) -> (r: bool)
    ensures
        r == (a@ == b@),
{
    if a.len() != b.len() {
        proof {
            assert(a@ != b@);
        }
        return false;
    }
    let mut i: usize = 0;
    while i < a.len()
        invariant
            i <= a@.len(),
            a@.len() == b@.len(),
            forall|j: int| 0 <= j < i ==> a@[j] == b@[j],
        decreases a@.len() - i,
    {
        if a[i] != b[i] {
            return false;
        }
        i = i + 1;
    }
    proof {
        assert(a@ =~= b@);
    }
    true
}

} // verus!
