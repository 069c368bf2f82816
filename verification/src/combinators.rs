//! The combinator algebra: mapping, alternation, bracketing, separated
//! repetition, and a first-match alternative set, each a `Parser` whose
//! behaviour is stated compositionally over its components' spec functions.

use vstd::prelude::*;
use crate::token::Token;
use crate::parse::{Parser, ParseError};

verus! {

// --- Mapped ------------------------------------------------------------

/// Transforms a successful inner output through a function; failure passes
/// through unchanged.
pub struct Mapped<Inner, Func> {
    pub inner: Inner,
    pub func: Func,
}

impl<I, F> Mapped<I, F> {
    pub fn new(inner: I, func: F) -> (r: Mapped<I, F>)
        ensures
            r == (Mapped { inner, func }),
    {
        Mapped { inner, func }
    }
}

impl<I: Parser, F: Fn(I::Output) -> R, R> Parser for Mapped<I, F> {
    type Output = R;

    /// The carried function must accept every inner output.
    open spec fn wf(&self) -> bool {
        self.inner.wf() && forall|v: I::Output| call_requires(self.func, (v,))
    }

    open spec fn accepts(&self, toks: Seq<Token>, pos: int) -> bool {
        self.inner.accepts(toks, pos)
    }

    open spec fn next_pos(&self, toks: Seq<Token>, pos: int) -> int {
        self.inner.next_pos(toks, pos)
    }

    /// An output is anything the function may turn an inner output into.
    open spec fn produces(&self, toks: Seq<Token>, pos: int, out: R) -> bool {
        exists|mid: I::Output|
            self.inner.produces(toks, pos, mid) && call_ensures(self.func, (mid,), out)
    }

    fn parse(&self, toks: &Vec<Token>, pos: usize) -> (r: Result<(R, usize), ParseError>) {
        match self.inner.parse(toks, pos) {
            Ok((v, rest)) => {
                let ghost mid = v;
                let w = (self.func)(v);
                proof {
                    assert(self.inner.produces(toks@, pos as int, mid) && call_ensures(
                        self.func,
                        (mid,),
                        w,
                    ));
                }
                Ok((w, rest))
            },
            Err(e) => Err(e),
        }
    }
}

// --- OrElse ------------------------------------------------------------

/// Tries the left parser; on failure retries the right one from the same,
/// original position.
pub struct OrElse<Left, Right> {
    pub left: Left,
    pub right: Right,
}

impl<L, R> OrElse<L, R> {
    pub fn new(left: L, right: R) -> (r: OrElse<L, R>)
        ensures
            r == (OrElse { left, right }),
    {
        OrElse { left, right }
    }
}

impl<L: Parser, R: Parser<Output = L::Output>> Parser for OrElse<L, R> {
    type Output = L::Output;

    open spec fn wf(&self) -> bool {
        self.left.wf() && self.right.wf()
    }

    open spec fn accepts(&self, toks: Seq<Token>, pos: int) -> bool {
        self.left.accepts(toks, pos) || self.right.accepts(toks, pos)
    }

    open spec fn next_pos(&self, toks: Seq<Token>, pos: int) -> int {
        if self.left.accepts(toks, pos) {
            self.left.next_pos(toks, pos)
        } else {
            self.right.next_pos(toks, pos)
        }
    }

    open spec fn produces(&self, toks: Seq<Token>, pos: int, out: L::Output) -> bool {
        if self.left.accepts(toks, pos) {
            self.left.produces(toks, pos, out)
        } else {
            self.right.produces(toks, pos, out)
        }
    }

    fn parse(&self, toks: &Vec<Token>, pos: usize) -> (r: Result<
        (L::Output, usize),
        ParseError,
    >) {
        match self.left.parse(toks, pos) {
            Ok(p) => Ok(p),
            Err(_) => self.right.parse(toks, pos),
        }
    }
}

// --- Within ------------------------------------------------------------

/// Runs open delimiter, inner parser, close delimiter, and keeps only the
/// inner output; any stage's failure fails the whole combination.
pub struct Within<Inner, Open, Close> {
    pub inner: Inner,
    pub open: Open,
    pub close: Close,
}

impl<I, O, C> Within<I, O, C> {
    pub fn new(inner: I, open: O, close: C) -> (r: Within<I, O, C>)
        ensures
            r == (Within { inner, open, close }),
    {
        Within { inner, open, close }
    }
}

impl<I: Parser, O: Parser, C: Parser> Parser for Within<I, O, C> {
    type Output = I::Output;

    open spec fn wf(&self) -> bool {
        self.inner.wf() && self.open.wf() && self.close.wf()
    }

    open spec fn accepts(&self, toks: Seq<Token>, pos: int) -> bool {
        let a = self.open.next_pos(toks, pos);
        let b = self.inner.next_pos(toks, a);
        self.open.accepts(toks, pos) && self.inner.accepts(toks, a) && self.close.accepts(toks, b)
    }

    open spec fn next_pos(&self, toks: Seq<Token>, pos: int) -> int {
        let a = self.open.next_pos(toks, pos);
        let b = self.inner.next_pos(toks, a);
        self.close.next_pos(toks, b)
    }

    open spec fn produces(&self, toks: Seq<Token>, pos: int, out: I::Output) -> bool {
        self.inner.produces(toks, self.open.next_pos(toks, pos), out)
    }

    fn parse(&self, toks: &Vec<Token>, pos: usize) -> (r: Result<
        (I::Output, usize),
        ParseError,
    >) {
        let a = match self.open.parse(toks, pos) {
            Ok(p) => p.1,
            Err(e) => {
                return Err(e);
            },
        };
        let (result, b) = match self.inner.parse(toks, a) {
            Ok(p) => p,
            Err(e) => {
                return Err(e);
            },
        };
        match self.close.parse(toks, b) {
            Ok(p) => Ok((result, p.1)),
            Err(e) => Err(e),
        }
    }
}

// --- List --------------------------------------------------------------

/// Separated repetition: element, separator, element, ... It keeps the
/// tokens of every completed element/separator pair, rolls back only the
/// last incomplete attempt, and always succeeds, possibly with zero
/// elements.
pub struct List<Element, Separator> {
    pub element: Element,
    pub separator: Separator,
}

impl<E, S> List<E, S> {
    pub fn new(element: E, separator: S) -> (r: List<E, S>)
        ensures
            r == (List { element, separator }),
    {
        List { element, separator }
    }
}

impl<E: Parser, S: Parser> List<E, S> {
    /// Where the repetition stops: after the last complete element (and
    /// its separator, when one follows).
    pub open spec fn chain_end(&self, toks: Seq<Token>, pos: int) -> int
        decreases toks.len() - pos,
    {
        if !self.element.accepts(toks, pos) {
            pos
        } else {
            let e = self.element.next_pos(toks, pos);
            if !(pos <= e <= toks.len()) {
                pos
            } else if !self.separator.accepts(toks, e) {
                e
            } else {
                let sp = self.separator.next_pos(toks, e);
                if pos < sp <= toks.len() {
                    self.chain_end(toks, sp)
                } else {
                    sp
                }
            }
        }
    }

    /// Whether `out` lists exactly the successive element outputs of the
    /// repetition from `pos`.
    pub open spec fn chain_yields(&self, toks: Seq<Token>, pos: int, out: Seq<E::Output>) -> bool
        decreases toks.len() - pos,
    {
        if !self.element.accepts(toks, pos) {
            out.len() == 0
        } else {
            let e = self.element.next_pos(toks, pos);
            if !(pos <= e <= toks.len()) {
                out.len() == 0
            } else {
                out.len() >= 1 && self.element.produces(toks, pos, out[0]) && (
                if !self.separator.accepts(toks, e) {
                    out.len() == 1
                } else {
                    let sp = self.separator.next_pos(toks, e);
                    if pos < sp <= toks.len() {
                        self.chain_yields(toks, sp, out.skip(1))
                    } else {
                        out.len() == 1
                    }
                })
            }
        }
    }
}

impl<E: Parser, S: Parser> Parser for List<E, S> {
    type Output = Vec<E::Output>;

    open spec fn wf(&self) -> bool {
        self.element.wf() && self.separator.wf()
    }

    /// A list parse always succeeds.
    open spec fn accepts(&self, toks: Seq<Token>, pos: int) -> bool {
        true
    }

    open spec fn next_pos(&self, toks: Seq<Token>, pos: int) -> int {
        self.chain_end(toks, pos)
    }

    open spec fn produces(&self, toks: Seq<Token>, pos: int, out: Vec<E::Output>) -> bool {
        self.chain_yields(toks, pos, out@)
    }

    fn parse(&self, toks: &Vec<Token>, pos: usize) -> (r: Result<
        (Vec<E::Output>, usize),
        ParseError,
    >) {
        let mut out_vec: Vec<E::Output> = Vec::new();
        let mut cur = pos;
        loop
            invariant_except_break
                self.wf(),
                pos <= cur <= toks@.len(),
                self.chain_end(toks@, pos as int) == self.chain_end(toks@, cur as int),
                forall|tail: Seq<E::Output>|
                    self.chain_yields(toks@, cur as int, tail) ==> self.chain_yields(
                        toks@,
                        pos as int,
                        out_vec@ + tail,
                    ),
            ensures
                pos <= cur <= toks@.len(),
                cur as int == self.chain_end(toks@, pos as int),
                self.chain_yields(toks@, pos as int, out_vec@),
            decreases toks@.len() - cur,
        {
            let ghost out0 = out_vec@;
            let (el, e) = match self.element.parse(toks, cur) {
                Ok(p) => p,
                Err(_) => {
                    proof {
                        assert(self.chain_yields(toks@, cur as int, Seq::<E::Output>::empty()));
                        assert(out_vec@ + Seq::<E::Output>::empty() =~= out_vec@);
                    }
                    break;
                },
            };
            let ghost elg = el;
            out_vec.push(el);
            match self.separator.parse(toks, e) {
                Err(_) => {
                    proof {
                        let just_el = seq![elg];
                        assert(out_vec@ =~= out0.push(elg));
                        assert(self.chain_yields(toks@, cur as int, just_el));
                        assert(out0 + just_el =~= out_vec@);
                        assert(self.chain_end(toks@, cur as int) == e as int);
                    }
                    cur = e;
                    break;
                },
                Ok(p) => {
                    let sp = p.1;
                    if sp > cur {
                        proof {
                            assert(out_vec@ =~= out0.push(elg));
                            assert forall|tail: Seq<E::Output>|
                                self.chain_yields(toks@, sp as int, tail) implies self.chain_yields(
                                toks@,
                                pos as int,
                                out_vec@ + tail,
                            ) by {
                                let with_el = seq![elg] + tail;
                                assert(with_el.skip(1) =~= tail);
                                assert(self.chain_yields(toks@, cur as int, with_el));
                                assert(out0 + with_el =~= out_vec@ + tail);
                            };
                        }
                        cur = sp;
                    } else {
                        proof {
                            let just_el = seq![elg];
                            assert(out_vec@ =~= out0.push(elg));
                            assert(self.chain_yields(toks@, cur as int, just_el));
                            assert(out0 + just_el =~= out_vec@);
                            assert(self.chain_end(toks@, cur as int) == sp as int);
                        }
                        cur = sp;
                        break;
                    }
                },
            }
        }
        Ok((out_vec, cur))
    }
}

// --- FirstOf -----------------------------------------------------------

/// A fixed set of uniformly-typed alternatives: yields the output of the
/// first one that succeeds from the original position, and fails only when
/// all of them fail.
pub struct FirstOf<P> {
    pub alternatives: Vec<P>,
}

impl<P> FirstOf<P> {
    pub fn new(alternatives: Vec<P>) -> (r: FirstOf<P>)
        ensures
            r == (FirstOf { alternatives }),
    {
        FirstOf { alternatives }
    }
}

impl<P: Parser> FirstOf<P> {
    /// Whether some alternative at or after `i` accepts.
    pub open spec fn found(&self, toks: Seq<Token>, pos: int, i: int) -> bool
        decreases self.alternatives@.len() - i,
    {
        0 <= i < self.alternatives@.len() && (self.alternatives@[i].accepts(toks, pos)
            || self.found(toks, pos, i + 1))
    }

    /// The index of the first alternative at or after `i` that accepts.
    pub open spec fn first_hit(&self, toks: Seq<Token>, pos: int, i: int) -> int
        decreases self.alternatives@.len() - i,
    {
        if 0 <= i < self.alternatives@.len() {
            if self.alternatives@[i].accepts(toks, pos) {
                i
            } else {
                self.first_hit(toks, pos, i + 1)
            }
        } else {
            i
        }
    }
}

impl<P: Parser> Parser for FirstOf<P> {
    type Output = P::Output;

    open spec fn wf(&self) -> bool {
        forall|i: int|
            0 <= i < self.alternatives@.len() ==> (#[trigger] self.alternatives@[i]).wf()
    }

    open spec fn accepts(&self, toks: Seq<Token>, pos: int) -> bool {
        self.found(toks, pos, 0)
    }

    open spec fn next_pos(&self, toks: Seq<Token>, pos: int) -> int {
        self.alternatives@[self.first_hit(toks, pos, 0)].next_pos(toks, pos)
    }

    open spec fn produces(&self, toks: Seq<Token>, pos: int, out: P::Output) -> bool {
        self.alternatives@[self.first_hit(toks, pos, 0)].produces(toks, pos, out)
    }

    fn parse(&self, toks: &Vec<Token>, pos: usize) -> (r: Result<
        (P::Output, usize),
        ParseError,
    >) {
        let mut i: usize = 0;
        loop
            invariant_except_break
                self.wf(),
                pos <= toks@.len(),
                i <= self.alternatives@.len(),
                self.found(toks@, pos as int, 0) == self.found(toks@, pos as int, i as int),
                self.found(toks@, pos as int, i as int) ==> self.first_hit(toks@, pos as int, 0)
                    == self.first_hit(toks@, pos as int, i as int),
            ensures
                self.found(toks@, pos as int, 0) == self.found(toks@, pos as int, i as int),
                self.found(toks@, pos as int, i as int) ==> self.first_hit(toks@, pos as int, 0)
                    == self.first_hit(toks@, pos as int, i as int),
                i <= self.alternatives@.len(),
                i < self.alternatives@.len() ==> (self.alternatives@[i as int].accepts(
                    toks@,
                    pos as int,
                ) && self.first_hit(toks@, pos as int, i as int) == i as int),
                i == self.alternatives@.len() ==> !self.found(toks@, pos as int, i as int),
            decreases self.alternatives@.len() - i,
        {
            if i >= self.alternatives.len() {
                break;
            }
            match self.alternatives[i].parse(toks, pos) {
                Ok(_) => {
                    break;
                },
                Err(_) => {
                    i = i + 1;
                },
            }
        }
        if i < self.alternatives.len() {
            self.alternatives[i].parse(toks, pos)
        } else {
            Err(ParseError::ParseError)
        }
    }
}

/// Law of the separated repetition: over zero matching elements it
/// succeeds, with an empty output, and consumes no input.
pub proof fn lemma_list_empty<E: Parser, S: Parser>(l: List<E, S>, toks: Seq<Token>, pos: int)
    requires
        !l.element.accepts(toks, pos),
    ensures
        l.accepts(toks, pos),
        l.next_pos(toks, pos) == pos,
        forall|out: Seq<E::Output>| l.chain_yields(toks, pos, out) <==> out.len() == 0,
{
}

/// Law of alternation: when the left parser fails at `pos` — no matter how
/// much it looked at before failing — the whole alternation behaves as the
/// right parser run from that same, original position.
pub proof fn lemma_or_else_retries<L: Parser, R: Parser<Output = L::Output>>(
    p: OrElse<L, R>,
    toks: Seq<Token>,
    pos: int,
)
    requires
        !p.left.accepts(toks, pos),
    ensures
        p.accepts(toks, pos) == p.right.accepts(toks, pos),
        p.next_pos(toks, pos) == p.right.next_pos(toks, pos),
        forall|out: L::Output| p.produces(toks, pos, out) == p.right.produces(toks, pos, out),
{
}

} // verus!
