use lark::lexer::lex;
use lark::token::{Token, TokenKind};
use lark::parse::{Expect, Parse, Parser, TokenIteratorExt};
use lark::combinators::{FirstOf, List, Mapped, OrElse, Within};
use lark::syn::{Block, Expr, File, Function, Ident, LetBinding, Statement, TopLevel};

fn chars(s: &str) -> Vec<char> {
    s.chars().collect()
}

fn toks(s: &str) -> Vec<Token> {
    lex(&chars(s)).unwrap()
}

#[test]
fn expect_token_matches() {
    let ts = toks("let x");
    assert_eq!(ts.expect(0, TokenKind::Ident, &chars("let")), Ok(1));
    assert!(ts.expect(1, TokenKind::Ident, &chars("let")).is_err());
    assert!(ts.expect(0, TokenKind::Punct, &chars("let")).is_err());
    assert!(ts.expect(2, TokenKind::Ident, &chars("x")).is_err());
}

#[test]
fn expect_parser_yields_the_token() {
    let ts = toks("+ x");
    let p = Expect::new(TokenKind::Punct, chars("+"));
    let (t, rest) = p.parse(&ts, 0).unwrap();
    assert_eq!(*t.spelling(), chars("+"));
    assert_eq!(rest, 1);
    assert!(p.parse(&ts, 1).is_err());
}

#[test]
fn list_of_zero_elements_consumes_nothing() {
    let ts = toks("+ -");
    let p = List::new(Ident::parser(), Expect::new(TokenKind::Punct, chars(",")));
    let (out, rest) = p.parse(&ts, 0).unwrap();
    assert_eq!(out.len(), 0);
    assert_eq!(rest, 0);
}

#[test]
fn list_collects_separated_elements() {
    let ts = toks("a, b, c");
    let p = List::new(Ident::parser(), Expect::new(TokenKind::Punct, chars(",")));
    let (out, rest) = p.parse(&ts, 0).unwrap();
    assert_eq!(out.len(), 3);
    assert_eq!(*out[2].0.spelling(), chars("c"));
    assert_eq!(rest, 5);
}

#[test]
fn list_tolerates_trailing_separator() {
    let ts = toks("a, b,");
    let p = List::new(Ident::parser(), Expect::new(TokenKind::Punct, chars(",")));
    let (out, rest) = p.parse(&ts, 0).unwrap();
    assert_eq!(out.len(), 2);
    assert_eq!(rest, 4);
}

#[test]
fn or_else_retries_from_original_position() {
    // the left branch matches `let x` and then fails on the missing `=`;
    // the right branch must still see the whole input from position 0
    let ts = toks("let x x");
    let p = OrElse::new(
        Mapped::new(LetBinding::parser(), |_b: LetBinding| 0u32),
        Mapped::new(Ident::parser(), |_i: Ident| 1u32),
    );
    let (out, rest) = p.parse(&ts, 0).unwrap();
    assert_eq!(out, 1u32);
    assert_eq!(rest, 1);
}

#[test]
fn or_else_prefers_the_left_branch() {
    let ts = toks("let x = 1");
    let p = OrElse::new(
        Mapped::new(LetBinding::parser(), |_b: LetBinding| 0u32),
        Mapped::new(Ident::parser(), |_i: Ident| 1u32),
    );
    let (out, rest) = p.parse(&ts, 0).unwrap();
    assert_eq!(out, 0u32);
    assert_eq!(rest, 4);
}

#[test]
fn mapped_passes_failure_through() {
    let ts = toks("+");
    let p = Mapped::new(Ident::parser(), |i: Ident| i);
    assert!(p.parse(&ts, 0).is_err());
}

#[test]
fn within_keeps_only_the_inner_output() {
    let ts = toks("( x )");
    let p = Within::new(
        Ident::parser(),
        Expect::new(TokenKind::Punct, chars("(")),
        Expect::new(TokenKind::Punct, chars(")")),
    );
    let (out, rest) = p.parse(&ts, 0).unwrap();
    assert_eq!(*out.0.spelling(), chars("x"));
    assert_eq!(rest, 3);
}

#[test]
fn within_fails_on_missing_close() {
    let ts = toks("( x");
    let p = Within::new(
        Ident::parser(),
        Expect::new(TokenKind::Punct, chars("(")),
        Expect::new(TokenKind::Punct, chars(")")),
    );
    assert!(p.parse(&ts, 0).is_err());
}

#[test]
fn first_of_takes_the_first_match() {
    let ts = toks("b");
    let p = FirstOf::new(vec![
        Expect::new(TokenKind::Ident, chars("a")),
        Expect::new(TokenKind::Ident, chars("b")),
    ]);
    let (out, rest) = p.parse(&ts, 0).unwrap();
    assert_eq!(*out.spelling(), chars("b"));
    assert_eq!(rest, 1);
}

#[test]
fn first_of_fails_when_all_fail() {
    let ts = toks("+");
    let p = FirstOf::new(vec![
        Expect::new(TokenKind::Ident, chars("a")),
        Expect::new(TokenKind::Ident, chars("b")),
    ]);
    assert!(p.parse(&ts, 0).is_err());
}

#[test]
fn vec_parse_collects_until_failure() {
    let ts = toks("a b + c");
    let (out, rest) = Vec::<Ident>::parse(&ts, 0).unwrap();
    assert_eq!(out.len(), 2);
    assert_eq!(rest, 2);
}

#[test]
fn let_binding_parses_end_to_end() {
    let ts = toks("let x = 1");
    let (b, rest) = LetBinding::parse(&ts, 0).unwrap();
    assert_eq!(rest, 4);
    assert_eq!(*b.name.0.spelling(), chars("x"));
    match b.value {
        Expr::LitInt(t) => assert_eq!(*t.spelling(), chars("1")),
        _ => panic!("expected an integer literal"),
    }
}

#[test]
fn let_binding_rejects_missing_equals() {
    let ts = toks("let x 1");
    assert!(LetBinding::parse(&ts, 0).is_err());
}

#[test]
fn call_with_trailing_comma_parses() {
    let ts = toks("foo(a, b,)");
    let (e, rest) = Expr::parse_at(&ts, 0).unwrap();
    assert_eq!(rest, 7);
    match e {
        Expr::Call(name, args) => {
            assert_eq!(*name.0.spelling(), chars("foo"));
            assert_eq!(args.len(), 2);
            match &*args[0] {
                Expr::Name(id) => assert_eq!(*id.0.spelling(), chars("a")),
                _ => panic!("expected a name"),
            }
            match &*args[1] {
                Expr::Name(id) => assert_eq!(*id.0.spelling(), chars("b")),
                _ => panic!("expected a name"),
            }
        },
        _ => panic!("expected a call"),
    }
}

#[test]
fn call_with_no_arguments() {
    let ts = toks("foo()");
    let (e, rest) = Expr::parse_at(&ts, 0).unwrap();
    assert_eq!(rest, 3);
    match e {
        Expr::Call(_, args) => assert_eq!(args.len(), 0),
        _ => panic!("expected a call"),
    }
}

#[test]
fn nested_call_arguments() {
    let ts = toks("f(g(1), x)");
    let (e, _) = Expr::parse_at(&ts, 0).unwrap();
    match e {
        Expr::Call(name, args) => {
            assert_eq!(*name.0.spelling(), chars("f"));
            assert_eq!(args.len(), 2);
            match &*args[0] {
                Expr::Call(inner, inner_args) => {
                    assert_eq!(*inner.0.spelling(), chars("g"));
                    assert_eq!(inner_args.len(), 1);
                },
                _ => panic!("expected a nested call"),
            }
        },
        _ => panic!("expected a call"),
    }
}

#[test]
fn bare_name_when_no_parenthesis() {
    let ts = toks("foo bar");
    let (e, rest) = Expr::parse_at(&ts, 0).unwrap();
    assert_eq!(rest, 1);
    match e {
        Expr::Name(id) => assert_eq!(*id.0.spelling(), chars("foo")),
        _ => panic!("expected a name"),
    }
}

#[test]
fn string_literal_expression() {
    let ts = toks("\"hi\"");
    let (e, _) = Expr::parse_at(&ts, 0).unwrap();
    match e {
        Expr::LitString(t) => assert_eq!(*t.spelling(), chars("hi")),
        _ => panic!("expected a string literal"),
    }
}

#[test]
fn expression_fails_on_punctuation() {
    let ts = toks("+");
    assert!(Expr::parse_at(&ts, 0).is_err());
}

#[test]
fn return_statement_parses() {
    let ts = toks("return x");
    let (s, rest) = Statement::parse(&ts, 0).unwrap();
    assert_eq!(rest, 2);
    assert!(matches!(s, Statement::Return(_)));
}

#[test]
fn empty_block_parses() {
    let ts = toks("do end");
    let (b, rest) = Block::parse(&ts, 0).unwrap();
    assert_eq!(rest, 2);
    assert_eq!(b.0.len(), 0);
}

#[test]
fn block_with_statements() {
    let ts = toks("do let y = 1 return y end");
    let (b, rest) = Block::parse(&ts, 0).unwrap();
    assert_eq!(rest, 8);
    assert_eq!(b.0.len(), 2);
    assert!(matches!(b.0[0], Statement::LetBinding(_)));
    assert!(matches!(b.0[1], Statement::Return(_)));
}

#[test]
fn function_parses_end_to_end() {
    let ts = toks("fn f(a, b) do return a end");
    let (f, rest) = Function::parse(&ts, 0).unwrap();
    assert_eq!(rest, ts.len());
    assert_eq!(*f.name.0.spelling(), chars("f"));
    assert_eq!(f.arguments.len(), 2);
    assert_eq!(*f.arguments[1].0.spelling(), chars("b"));
    assert_eq!(f.body.0.len(), 1);
}

#[test]
fn file_parses_let_binding() {
    let ts = toks("let x = 1");
    let (file, rest) = File::parse(&ts, 0).unwrap();
    assert_eq!(rest, 4);
    assert_eq!(file.0.len(), 1);
    match &file.0[0] {
        TopLevel::LetBinding(b) => {
            assert_eq!(*b.name.0.spelling(), chars("x"));
            assert!(matches!(b.value, Expr::LitInt(_)));
        },
        _ => panic!("expected a let binding"),
    }
}

#[test]
fn file_parses_function_and_binding() {
    let ts = toks("fn f() do end\nlet x = f()");
    let (file, rest) = File::parse(&ts, 0).unwrap();
    assert_eq!(rest, ts.len());
    assert_eq!(file.0.len(), 2);
    assert!(matches!(file.0[0], TopLevel::Function(_)));
    assert!(matches!(file.0[1], TopLevel::LetBinding(_)));
}

#[test]
fn file_of_no_items_is_empty() {
    let ts = toks("");
    let (file, rest) = File::parse(&ts, 0).unwrap();
    assert_eq!(rest, 0);
    assert_eq!(file.0.len(), 0);
}

#[test]
fn file_stops_at_unparseable_tail() {
    let ts = toks("let x = 1 +");
    let (file, rest) = File::parse(&ts, 0).unwrap();
    assert_eq!(file.0.len(), 1);
    assert_eq!(rest, 4);
}
