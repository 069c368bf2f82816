//! The concrete syntax tree of the toy language and each node's parse
//! rule, built on the combinator engine.
//!
//! Grammar:
//! ```text
//! file      = toplevel*
//! toplevel  = function | let-binding
//! function  = 'fn' ident '(' comma-list[ident]? ')' block
//! block     = 'do' statement* 'end'
//! statement = let-binding | return-statement
//! let-binding      = 'let' ident '=' expression
//! return-statement = 'return' expression
//! expression  = application | name | literal
//! application = ident '(' comma-list[expression]? ')'
//! comma-list[rule] = (rule ',')* rule (',')?
//! ```

use vstd::prelude::*;
use crate::token::{Token, TokenKind};
use crate::parse::{Parse, ParseError, TokenIteratorExt, expect_ok, star_end, star_yields};

verus! {

// --- the nodes ---------------------------------------------------------

/// An expression: a call, a bare name, or a literal.
pub enum Expr {
    Call(Ident, Vec<Box<Expr>>),
    Name(Ident),
    LitInt(Token),
    LitString(Token),
}

/// One statement of a block.
pub enum Statement {
    LetBinding(LetBinding),
    Return(Expr),
}

/// A `do ... end` sequence of statements.
pub struct Block(pub Vec<Statement>);

/// An identifier occurrence.
pub struct Ident(pub Token);

/// One formal argument of a function.
pub struct Argument(pub Token);

/// A function definition: name, formal arguments, body.
pub struct Function {
    pub name: Ident,
    pub arguments: Vec<Argument>,
    pub body: Block,
}

impl Function {
    /// Assembles a function node from its parts.
    fn new(name: Ident, arguments: Vec<Argument>, body: Block) -> (r: Function)
        ensures
            r.name == name,
            r.arguments == arguments,
            r.body == body,
    {
        Function { name, arguments, body }
    }
}

/// A `let name = value` binding.
pub struct LetBinding {
    pub name: Ident,
    pub value: Expr,
}

/// One item of a source file.
pub enum TopLevel {
    Function(Function),
    LetBinding(LetBinding),
}

/// A whole source file: its top-level items in order.
pub struct File(pub Vec<TopLevel>);

impl File {
    /// Assembles a file node from its items.
    pub fn new(toplevels: Vec<TopLevel>) -> (r: File)
        ensures
            r.0 == toplevels,
    {
        File(toplevels)
    }
}

// --- token helpers -----------------------------------------------------

/// Whether a token is the one-character punctuation mark `c`.
pub open spec fn is_punct_sp(t: Token, c: char) -> bool {
    t@.kind == TokenKind::Punct && t@.spelling == seq![c]
}

fn tok_is_punct(t: &Token, c: char) -> (r: bool)
    ensures
        r == is_punct_sp(*t, c),
{
    if t.kind() == TokenKind::Punct {
        let sp = t.spelling();
        if sp.len() == 1 {
            let eq = sp[0] == c;
            proof {
                if eq {
                    assert(t@.spelling =~= seq![c]);
                } else {
                    assert(t@.spelling != seq![c]);
                }
            }
            eq
        } else {
            proof {
                assert(t@.spelling != seq![c]);
            }
            false
        }
    } else {
        false
    }
}

// --- expressions -------------------------------------------------------

/// Where an expression parse at `pos` ends, or `None` when none starts
/// there. An application is preferred over a bare name.
pub open spec fn expr_end(toks: Seq<Token>, pos: int) -> Option<int>
    decreases toks.len() - pos, 2int,
{
    if pos < 0 || pos >= toks.len() {
        None
    } else {
        let k = toks[pos]@.kind;
        if k == TokenKind::Ident {
            if call_ok(toks, pos) {
                Some(call_end(toks, pos))
            } else {
                Some(pos + 1)
            }
        } else if k == TokenKind::LitInt || k == TokenKind::LitString {
            Some(pos + 1)
        } else {
            None
        }
    }
}

/// Whether a complete application `ident ( args )` stands at `pos`.
pub open spec fn call_ok(toks: Seq<Token>, pos: int) -> bool
    decreases toks.len() - pos, 1int,
{
    0 <= pos && pos + 1 < toks.len() && is_punct_sp(toks[pos + 1], '(') && {
        let ae = args_end(toks, pos + 2);
        ae < toks.len() && is_punct_sp(toks[ae], ')')
    }
}

/// The position just past an application's closing parenthesis.
pub open spec fn call_end(toks: Seq<Token>, pos: int) -> int
    decreases toks.len() - pos, 1int,
{
    if 0 <= pos && pos + 2 <= toks.len() {
        args_end(toks, pos + 2) + 1
    } else {
        pos + 1
    }
}

/// Where the comma-list of argument expressions from `pos` stops: after
/// the last complete expression (and its comma, when one follows).
pub open spec fn args_end(toks: Seq<Token>, pos: int) -> int
    decreases toks.len() - pos, 3int,
{
    if pos < 0 || pos > toks.len() {
        pos
    } else {
        match expr_end(toks, pos) {
            None => pos,
            Some(e) => {
                if pos < e <= toks.len() {
                    if e < toks.len() && is_punct_sp(toks[e], ',') {
                        args_end(toks, e + 1)
                    } else {
                        e
                    }
                } else {
                    pos
                }
            },
        }
    }
}

/// Whether `out` is the expression an expression parse at `pos` yields.
pub open spec fn expr_yields(toks: Seq<Token>, pos: int, out: Expr) -> bool
    decreases toks.len() - pos, 2int,
{
    if pos < 0 || pos >= toks.len() {
        false
    } else {
        let k = toks[pos]@.kind;
        if k == TokenKind::Ident {
            if call_ok(toks, pos) {
                out matches Expr::Call(name, args) && name.0@ == toks[pos]@ && args_yield(
                    toks,
                    pos + 2,
                    args@,
                )
            } else {
                out matches Expr::Name(id) && id.0@ == toks[pos]@
            }
        } else if k == TokenKind::LitInt {
            out matches Expr::LitInt(t) && t@ == toks[pos]@
        } else if k == TokenKind::LitString {
            out matches Expr::LitString(t) && t@ == toks[pos]@
        } else {
            false
        }
    }
}

/// Whether `args` lists the successive expressions of the comma-list of
/// arguments from `pos`.
pub open spec fn args_yield(toks: Seq<Token>, pos: int, args: Seq<Box<Expr>>) -> bool
    decreases toks.len() - pos, 3int,
{
    if pos < 0 || pos > toks.len() {
        args.len() == 0
    } else {
        match expr_end(toks, pos) {
            None => args.len() == 0,
            Some(e) => {
                if pos < e <= toks.len() {
                    args.len() >= 1 && expr_yields(toks, pos, *args[0]) && (
                    if e < toks.len() && is_punct_sp(toks[e], ',') {
                        args_yield(toks, e + 1, args.skip(1))
                    } else {
                        args.len() == 1
                    })
                } else {
                    args.len() == 0
                }
            },
        }
    }
}

impl Expr {
    /// Parses one expression at `pos`: an application when a complete one
    /// stands there, else a bare name or a literal.
    pub fn parse_at(toks: &Vec<Token>, pos: usize) -> (r: Result<(Expr, usize), ParseError>)
        requires
            pos <= toks@.len(),
        ensures
            (r is Ok) == (expr_end(toks@, pos as int) is Some),
            r matches Ok(p) ==> ({
                &&& expr_end(toks@, pos as int) == Some(p.1 as int)
                &&& pos < p.1 <= toks@.len()
                &&& expr_yields(toks@, pos as int, p.0)
            }),
        decreases toks@.len() - pos, 2int,
    {
        if pos >= toks.len() {
            return Err(ParseError::ParseError);
        }
        let t = &toks[pos];
        match t.kind() {
            TokenKind::Ident => {
                if pos + 1 < toks.len() && tok_is_punct(&toks[pos + 1], '(') {
                    let (args, ae) = Expr::parse_args(toks, pos + 2);
                    if ae < toks.len() && tok_is_punct(&toks[ae], ')') {
                        proof {
                            assert(call_ok(toks@, pos as int));
                            assert(call_end(toks@, pos as int) == ae + 1);
                        }
                        return Ok((Expr::Call(Ident(t.clone()), args), ae + 1));
                    }
                    proof {
                        assert(!call_ok(toks@, pos as int));
                    }
                } else {
                    proof {
                        assert(!call_ok(toks@, pos as int));
                    }
                }
                Ok((Expr::Name(Ident(t.clone())), pos + 1))
            },
            TokenKind::LitInt => Ok((Expr::LitInt(t.clone()), pos + 1)),
            TokenKind::LitString => Ok((Expr::LitString(t.clone()), pos + 1)),
            TokenKind::Punct => Err(ParseError::ParseError),
        }
    }

    /// Parses the comma-list of argument expressions from `pos`; like every
    /// comma-list it never fails, and it tolerates a trailing comma.
    fn parse_args(toks: &Vec<Token>, pos: usize) -> (r: (Vec<Box<Expr>>, usize))
        requires
            pos <= toks@.len(),
        ensures
            r.1 as int == args_end(toks@, pos as int),
            pos <= r.1 <= toks@.len(),
            args_yield(toks@, pos as int, r.0@),
        decreases toks@.len() - pos, 3int,
    {
        let mut out: Vec<Box<Expr>> = Vec::new();
        let mut cur = pos;
        loop
            invariant_except_break
                pos <= cur <= toks@.len(),
                args_end(toks@, pos as int) == args_end(toks@, cur as int),
                forall|tail: Seq<Box<Expr>>|
                    args_yield(toks@, cur as int, tail) ==> args_yield(
                        toks@,
                        pos as int,
                        out@ + tail,
                    ),
            ensures
                pos <= cur <= toks@.len(),
                cur as int == args_end(toks@, pos as int),
                args_yield(toks@, pos as int, out@),
            decreases toks@.len() - cur,
        {
            let ghost out0 = out@;
            match Expr::parse_at(toks, cur) {
                Err(_) => {
                    proof {
                        assert(args_yield(toks@, cur as int, Seq::<Box<Expr>>::empty()));
                        assert(out@ + Seq::<Box<Expr>>::empty() =~= out@);
                    }
                    break;
                },
                Ok((e_out, e_pos)) => {
                    let boxed = Box::new(e_out);
                    let ghost bg = boxed;
                    if e_pos < toks.len() && tok_is_punct(&toks[e_pos], ',') {
                        out.push(boxed);
                        proof {
                            assert(out@ =~= out0.push(bg));
                            assert forall|tail: Seq<Box<Expr>>|
                                args_yield(toks@, e_pos + 1, tail) implies args_yield(
                                toks@,
                                pos as int,
                                out@ + tail,
                            ) by {
                                let with_el = seq![bg] + tail;
                                assert(with_el.skip(1) =~= tail);
                                assert(args_yield(toks@, cur as int, with_el));
                                assert(out0 + with_el =~= out@ + tail);
                            };
                        }
                        cur = e_pos + 1;
                    } else {
                        out.push(boxed);
                        proof {
                            let just_el = seq![bg];
                            assert(out@ =~= out0.push(bg));
                            assert(args_yield(toks@, cur as int, just_el));
                            assert(out0 + just_el =~= out@);
                            assert(args_end(toks@, cur as int) == e_pos as int);
                        }
                        cur = e_pos;
                        break;
                    }
                },
            }
        }
        (out, cur)
    }
}

impl Parse for Expr {
    open spec fn accepts_at(toks: Seq<Token>, pos: int) -> bool {
        expr_end(toks, pos) is Some
    }

    open spec fn end_at(toks: Seq<Token>, pos: int) -> int {
        match expr_end(toks, pos) {
            Some(e) => e,
            None => pos,
        }
    }

    open spec fn yields(toks: Seq<Token>, pos: int, out: Self) -> bool {
        expr_yields(toks, pos, out)
    }

    fn parse(toks: &Vec<Token>, pos: usize) -> (r: Result<(Self, usize), ParseError>) {
        Expr::parse_at(toks, pos)
    }
}

// --- single-token nodes ------------------------------------------------

impl Parse for Ident {
    open spec fn accepts_at(toks: Seq<Token>, pos: int) -> bool {
        0 <= pos < toks.len() && toks[pos]@.kind == TokenKind::Ident
    }

    open spec fn end_at(toks: Seq<Token>, pos: int) -> int {
        pos + 1
    }

    open spec fn yields(toks: Seq<Token>, pos: int, out: Self) -> bool {
        out.0@ == toks[pos]@
    }

    fn parse(toks: &Vec<Token>, pos: usize) -> (r: Result<(Self, usize), ParseError>) {
        if pos < toks.len() {
            let t = &toks[pos];
            if t.kind() == TokenKind::Ident {
                Ok((Ident(t.clone()), pos + 1))
            } else {
                Err(ParseError::ParseError)
            }
        } else {
            Err(ParseError::ParseError)
        }
    }
}

impl Parse for Argument {
    open spec fn accepts_at(toks: Seq<Token>, pos: int) -> bool {
        0 <= pos < toks.len() && toks[pos]@.kind == TokenKind::Ident
    }

    open spec fn end_at(toks: Seq<Token>, pos: int) -> int {
        pos + 1
    }

    open spec fn yields(toks: Seq<Token>, pos: int, out: Self) -> bool {
        out.0@ == toks[pos]@
    }

    fn parse(toks: &Vec<Token>, pos: usize) -> (r: Result<(Self, usize), ParseError>) {
        if pos < toks.len() {
            let t = &toks[pos];
            if t.kind() == TokenKind::Ident {
                Ok((Argument(t.clone()), pos + 1))
            } else {
                Err(ParseError::ParseError)
            }
        } else {
            Err(ParseError::ParseError)
        }
    }
}

// --- statements --------------------------------------------------------

impl Parse for LetBinding {
    /// `let name = expression`.
    open spec fn accepts_at(toks: Seq<Token>, pos: int) -> bool {
        &&& expect_ok(toks, pos, TokenKind::Ident, seq!['l', 'e', 't'])
        &&& 0 <= pos + 1 < toks.len() && toks[pos + 1]@.kind == TokenKind::Ident
        &&& expect_ok(toks, pos + 2, TokenKind::Punct, seq!['='])
        &&& expr_end(toks, pos + 3) is Some
    }

    open spec fn end_at(toks: Seq<Token>, pos: int) -> int {
        match expr_end(toks, pos + 3) {
            Some(e) => e,
            None => pos,
        }
    }

    open spec fn yields(toks: Seq<Token>, pos: int, out: Self) -> bool {
        out.name.0@ == toks[pos + 1]@ && expr_yields(toks, pos + 3, out.value)
    }

    fn parse(toks: &Vec<Token>, pos: usize) -> (r: Result<(Self, usize), ParseError>) {
        let kw = vec!['l', 'e', 't'];
        let eq_sign = vec!['='];
        proof {
            assert(kw@ =~= seq!['l', 'e', 't']);
            assert(eq_sign@ =~= seq!['=']);
        }
        let p1 = toks.expect(pos, TokenKind::Ident, &kw)?;
        let (name, p2) = Ident::parse(toks, p1)?;
        let p3 = toks.expect(p2, TokenKind::Punct, &eq_sign)?;
        let (value, p4) = Expr::parse_at(toks, p3)?;
        Ok((LetBinding { name, value }, p4))
    }
}

/// Whether a `return expression` statement stands at `pos`.
pub open spec fn return_ok(toks: Seq<Token>, pos: int) -> bool {
    expect_ok(toks, pos, TokenKind::Ident, seq!['r', 'e', 't', 'u', 'r', 'n']) && expr_end(
        toks,
        pos + 1,
    ) is Some
}

impl Parse for Statement {
    /// A let-binding, or else a return statement, tried in that order from
    /// the same position.
    open spec fn accepts_at(toks: Seq<Token>, pos: int) -> bool {
        LetBinding::accepts_at(toks, pos) || return_ok(toks, pos)
    }

    open spec fn end_at(toks: Seq<Token>, pos: int) -> int {
        if LetBinding::accepts_at(toks, pos) {
            LetBinding::end_at(toks, pos)
        } else {
            match expr_end(toks, pos + 1) {
                Some(e) => e,
                None => pos,
            }
        }
    }

    open spec fn yields(toks: Seq<Token>, pos: int, out: Self) -> bool {
        if LetBinding::accepts_at(toks, pos) {
            out matches Statement::LetBinding(b) && LetBinding::yields(toks, pos, b)
        } else {
            out matches Statement::Return(e) && expr_yields(toks, pos + 1, e)
        }
    }

    fn parse(toks: &Vec<Token>, pos: usize) -> (r: Result<(Self, usize), ParseError>) {
        match LetBinding::parse(toks, pos) {
            Ok((b, p)) => Ok((Statement::LetBinding(b), p)),
            Err(_) => {
                let kw = vec!['r', 'e', 't', 'u', 'r', 'n'];
                proof {
                    assert(kw@ =~= seq!['r', 'e', 't', 'u', 'r', 'n']);
                }
                let p1 = toks.expect(pos, TokenKind::Ident, &kw)?;
                let (e, p2) = Expr::parse_at(toks, p1)?;
                Ok((Statement::Return(e), p2))
            },
        }
    }
}

impl Parse for Block {
    /// `do statement* end`.
    open spec fn accepts_at(toks: Seq<Token>, pos: int) -> bool {
        expect_ok(toks, pos, TokenKind::Ident, seq!['d', 'o']) && expect_ok(
            toks,
            star_end::<Statement>(toks, pos + 1),
            TokenKind::Ident,
            seq!['e', 'n', 'd'],
        )
    }

    open spec fn end_at(toks: Seq<Token>, pos: int) -> int {
        star_end::<Statement>(toks, pos + 1) + 1
    }

    open spec fn yields(toks: Seq<Token>, pos: int, out: Self) -> bool {
        star_yields::<Statement>(toks, pos + 1, out.0@)
    }

    fn parse(toks: &Vec<Token>, pos: usize) -> (r: Result<(Self, usize), ParseError>) {
        let kw_do = vec!['d', 'o'];
        let kw_end = vec!['e', 'n', 'd'];
        proof {
            assert(kw_do@ =~= seq!['d', 'o']);
            assert(kw_end@ =~= seq!['e', 'n', 'd']);
        }
        let p1 = toks.expect(pos, TokenKind::Ident, &kw_do)?;
        let (stmts, p2) = Vec::<Statement>::parse(toks, p1)?;
        let p3 = toks.expect(p2, TokenKind::Ident, &kw_end)?;
        Ok((Block(stmts), p3))
    }
}

// --- functions ---------------------------------------------------------

/// Where the comma-list of formal arguments from `pos` stops.
pub open spec fn arglist_end(toks: Seq<Token>, pos: int) -> int
    decreases toks.len() - pos,
{
    if !Argument::accepts_at(toks, pos) {
        pos
    } else {
        if pos + 1 < toks.len() && is_punct_sp(toks[pos + 1], ',') {
            arglist_end(toks, pos + 2)
        } else {
            pos + 1
        }
    }
}

/// Whether `args` lists the successive formal arguments from `pos`.
pub open spec fn arglist_yield(toks: Seq<Token>, pos: int, args: Seq<Argument>) -> bool
    decreases toks.len() - pos,
{
    if !Argument::accepts_at(toks, pos) {
        args.len() == 0
    } else {
        args.len() >= 1 && args[0].0@ == toks[pos]@ && (
        if pos + 1 < toks.len() && is_punct_sp(toks[pos + 1], ',') {
            arglist_yield(toks, pos + 2, args.skip(1))
        } else {
            args.len() == 1
        })
    }
}

/// Parses the comma-list of formal arguments from `pos`; never fails, and
/// tolerates a trailing comma.
fn parse_arglist(toks: &Vec<Token>, pos: usize) -> (r: (Vec<Argument>, usize))
    requires
        pos <= toks@.len(),
    ensures
        r.1 as int == arglist_end(toks@, pos as int),
        pos <= r.1 <= toks@.len(),
        arglist_yield(toks@, pos as int, r.0@),
{
    let mut out: Vec<Argument> = Vec::new();
    let mut cur = pos;
    loop
        invariant_except_break
            pos <= cur <= toks@.len(),
            arglist_end(toks@, pos as int) == arglist_end(toks@, cur as int),
            forall|tail: Seq<Argument>|
                arglist_yield(toks@, cur as int, tail) ==> arglist_yield(
                    toks@,
                    pos as int,
                    out@ + tail,
                ),
        ensures
            pos <= cur <= toks@.len(),
            cur as int == arglist_end(toks@, pos as int),
            arglist_yield(toks@, pos as int, out@),
        decreases toks@.len() - cur,
    {
        let ghost out0 = out@;
        match Argument::parse(toks, cur) {
            Err(_) => {
                proof {
                    assert(arglist_yield(toks@, cur as int, Seq::<Argument>::empty()));
                    assert(out@ + Seq::<Argument>::empty() =~= out@);
                }
                break;
            },
            Ok((a, a_pos)) => {
                let ghost ag = a;
                if a_pos < toks.len() && tok_is_punct(&toks[a_pos], ',') {
                    out.push(a);
                    proof {
                        assert(out@ =~= out0.push(ag));
                        assert forall|tail: Seq<Argument>|
                            arglist_yield(toks@, a_pos + 1, tail) implies arglist_yield(
                            toks@,
                            pos as int,
                            out@ + tail,
                        ) by {
                            let with_el = seq![ag] + tail;
                            assert(with_el.skip(1) =~= tail);
                            assert(arglist_yield(toks@, cur as int, with_el));
                            assert(out0 + with_el =~= out@ + tail);
                        };
                    }
                    cur = a_pos + 1;
                } else {
                    out.push(a);
                    proof {
                        let just_el = seq![ag];
                        assert(out@ =~= out0.push(ag));
                        assert(arglist_yield(toks@, cur as int, just_el));
                        assert(out0 + just_el =~= out@);
                        assert(arglist_end(toks@, cur as int) == a_pos as int);
                    }
                    cur = a_pos;
                    break;
                }
            },
        }
    }
    (out, cur)
}

impl Parse for Function {
    /// `fn name ( arguments ) block`.
    open spec fn accepts_at(toks: Seq<Token>, pos: int) -> bool {
        &&& expect_ok(toks, pos, TokenKind::Ident, seq!['f', 'n'])
        &&& 0 <= pos + 1 < toks.len() && toks[pos + 1]@.kind == TokenKind::Ident
        &&& expect_ok(toks, pos + 2, TokenKind::Punct, seq!['('])
        &&& expect_ok(toks, arglist_end(toks, pos + 3), TokenKind::Punct, seq![')'])
        &&& Block::accepts_at(toks, arglist_end(toks, pos + 3) + 1)
    }

    open spec fn end_at(toks: Seq<Token>, pos: int) -> int {
        Block::end_at(toks, arglist_end(toks, pos + 3) + 1)
    }

    open spec fn yields(toks: Seq<Token>, pos: int, out: Self) -> bool {
        &&& out.name.0@ == toks[pos + 1]@
        &&& arglist_yield(toks, pos + 3, out.arguments@)
        &&& Block::yields(toks, arglist_end(toks, pos + 3) + 1, out.body)
    }

    fn parse(toks: &Vec<Token>, pos: usize) -> (r: Result<(Self, usize), ParseError>) {
        let kw = vec!['f', 'n'];
        let open_paren = vec!['('];
        let close_paren = vec![')'];
        proof {
            assert(kw@ =~= seq!['f', 'n']);
            assert(open_paren@ =~= seq!['(']);
            assert(close_paren@ =~= seq![')']);
        }
        let p1 = toks.expect(pos, TokenKind::Ident, &kw)?;
        let (name, p2) = Ident::parse(toks, p1)?;
        let p3 = toks.expect(p2, TokenKind::Punct, &open_paren)?;
        let (arguments, p4) = parse_arglist(toks, p3);
        let p5 = toks.expect(p4, TokenKind::Punct, &close_paren)?;
        let (body, p6) = Block::parse(toks, p5)?;
        Ok((Function::new(name, arguments, body), p6))
    }
}

// --- top level ---------------------------------------------------------

impl Parse for TopLevel {
    /// A function, or else a let-binding, tried in that order from the
    /// same position.
    open spec fn accepts_at(toks: Seq<Token>, pos: int) -> bool {
        Function::accepts_at(toks, pos) || LetBinding::accepts_at(toks, pos)
    }

    open spec fn end_at(toks: Seq<Token>, pos: int) -> int {
        if Function::accepts_at(toks, pos) {
            Function::end_at(toks, pos)
        } else {
            LetBinding::end_at(toks, pos)
        }
    }

    open spec fn yields(toks: Seq<Token>, pos: int, out: Self) -> bool {
        if Function::accepts_at(toks, pos) {
            out matches TopLevel::Function(f) && Function::yields(toks, pos, f)
        } else {
            out matches TopLevel::LetBinding(b) && LetBinding::yields(toks, pos, b)
        }
    }

    /// A function is tried first; on its failure the let-binding is tried
    /// from the same position.
    fn parse(toks: &Vec<Token>, pos: usize) -> (r: Result<(Self, usize), ParseError>) {
        match Function::parse(toks, pos) {
            Ok((f, p)) => Ok((TopLevel::Function(f), p)),
            Err(_) => {
                let (b, p) = LetBinding::parse(toks, pos)?;
                Ok((TopLevel::LetBinding(b), p))
            },
        }
    }
}

impl Parse for File {
    /// Zero or more top-level items; never fails.
    open spec fn accepts_at(toks: Seq<Token>, pos: int) -> bool {
        true
    }

    open spec fn end_at(toks: Seq<Token>, pos: int) -> int {
        star_end::<TopLevel>(toks, pos)
    }

    open spec fn yields(toks: Seq<Token>, pos: int, out: Self) -> bool {
        star_yields::<TopLevel>(toks, pos, out.0@)
    }

    fn parse(toks: &Vec<Token>, pos: usize) -> (r: Result<(Self, usize), ParseError>) {
        let (toplevels, p) = Vec::<TopLevel>::parse(toks, pos)?;
        Ok((File::new(toplevels), p))
    }
}

} // verus!
