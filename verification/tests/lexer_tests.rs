use lark::lexer::{lex, tokens};
use lark::lexing::Lexing;
use lark::line_lexer::LineLexer;
use lark::token::{LexError, TokenKind};

fn chars(s: &str) -> Vec<char> {
    s.chars().collect()
}

#[test]
fn whitespace_only_lexes_empty() {
    let toks = lex(&chars("   \t  \r\n \t\t  \n   ")).unwrap();
    assert_eq!(toks.len(), 0);
}

#[test]
fn empty_text_lexes_empty() {
    let toks = lex(&chars("")).unwrap();
    assert_eq!(toks.len(), 0);
}

#[test]
fn identifier_run_is_one_token() {
    let toks = lex(&chars("abc1 x+")).unwrap();
    assert_eq!(toks.len(), 3);
    assert_eq!(toks[0].kind(), TokenKind::Ident);
    assert_eq!(*toks[0].spelling(), chars("abc1"));
    assert_eq!(toks[1].kind(), TokenKind::Ident);
    assert_eq!(*toks[1].spelling(), chars("x"));
    assert_eq!(toks[2].kind(), TokenKind::Punct);
    assert_eq!(*toks[2].spelling(), chars("+"));
}

#[test]
fn identifier_with_underscore_and_digits() {
    let toks = lex(&chars("_a9_z")).unwrap();
    assert_eq!(toks.len(), 1);
    assert_eq!(toks[0].kind(), TokenKind::Ident);
    assert_eq!(*toks[0].spelling(), chars("_a9_z"));
}

#[test]
fn integer_literal() {
    let toks = lex(&chars("123")).unwrap();
    assert_eq!(toks.len(), 1);
    assert_eq!(toks[0].kind(), TokenKind::LitInt);
    assert_eq!(*toks[0].spelling(), chars("123"));
}

#[test]
fn string_spelling_excludes_quotes() {
    let toks = lex(&chars("\"abc\"")).unwrap();
    assert_eq!(toks.len(), 1);
    assert_eq!(toks[0].kind(), TokenKind::LitString);
    assert_eq!(*toks[0].spelling(), chars("abc"));
}

#[test]
fn escaped_quote_does_not_terminate() {
    // the source line is "a\"b" — the escape is consumed verbatim
    let toks = lex(&chars("\"a\\\"b\"")).unwrap();
    assert_eq!(toks.len(), 1);
    assert_eq!(toks[0].kind(), TokenKind::LitString);
    assert_eq!(*toks[0].spelling(), chars("a\\\"b"));
}

#[test]
fn single_quoted_string() {
    let toks = lex(&chars("'ab'")).unwrap();
    assert_eq!(toks.len(), 1);
    assert_eq!(toks[0].kind(), TokenKind::LitString);
    assert_eq!(*toks[0].spelling(), chars("ab"));
}

#[test]
fn empty_string_literal() {
    let toks = lex(&chars("\"\"")).unwrap();
    assert_eq!(toks.len(), 1);
    assert_eq!(toks[0].kind(), TokenKind::LitString);
    assert_eq!(*toks[0].spelling(), chars(""));
}

#[test]
fn unclosed_string_is_an_error() {
    let r = lex(&chars("\"abc"));
    assert_eq!(r.unwrap_err(), LexError::UnclosedString('"'));
}

#[test]
fn unclosed_single_quote() {
    let r = lex(&chars("'ab"));
    assert_eq!(r.unwrap_err(), LexError::UnclosedString('\''));
}

#[test]
fn escape_at_line_end_is_unclosed() {
    let r = lex(&chars("\"ab\\"));
    assert_eq!(r.unwrap_err(), LexError::UnclosedString('"'));
}

#[test]
fn string_does_not_span_lines() {
    let r = lex(&chars("\"ab\ncd\""));
    assert_eq!(r.unwrap_err(), LexError::UnclosedString('"'));
}

#[test]
fn bad_character_is_an_error() {
    let r = lex(&chars("@"));
    assert_eq!(r.unwrap_err(), LexError::BadCharacter('@'));
}

#[test]
fn bad_character_after_tokens() {
    let r = lex(&chars("x + @"));
    assert_eq!(r.unwrap_err(), LexError::BadCharacter('@'));
}

#[test]
fn double_equals_is_two_tokens() {
    let toks = lex(&chars("==")).unwrap();
    assert_eq!(toks.len(), 2);
    assert_eq!(*toks[0].spelling(), chars("="));
    assert_eq!(*toks[1].spelling(), chars("="));
}

#[test]
fn line_numbers_are_one_based() {
    let toks = lex(&chars("let x = 1\ny")).unwrap();
    assert_eq!(toks.len(), 5);
    assert_eq!(toks[0].location().line, 1);
    assert_eq!(toks[3].location().line, 1);
    assert_eq!(toks[4].location().line, 2);
}

#[test]
fn column_comes_from_leader() {
    let toks = lex(&chars("  x 12")).unwrap();
    assert_eq!(toks[0].location().column, 3);
    assert_eq!(toks[1].location().column, 5);
}

#[test]
fn let_line_lexes_as_expected() {
    let toks = lex(&chars("let x = 1")).unwrap();
    assert_eq!(toks.len(), 4);
    assert_eq!(toks[0].kind(), TokenKind::Ident);
    assert_eq!(*toks[0].spelling(), chars("let"));
    assert_eq!(toks[1].kind(), TokenKind::Ident);
    assert_eq!(*toks[1].spelling(), chars("x"));
    assert_eq!(toks[2].kind(), TokenKind::Punct);
    assert_eq!(*toks[2].spelling(), chars("="));
    assert_eq!(toks[3].kind(), TokenKind::LitInt);
    assert_eq!(*toks[3].spelling(), chars("1"));
}

#[test]
fn lazy_stream_matches_eager_lex() {
    let src = chars("fn f(a) do return a end");
    let eager = lex(&src).unwrap();
    let mut stream = tokens(&src);
    let mut n = 0;
    while let Some(item) = stream.next() {
        let t = item.unwrap();
        assert_eq!(t.kind(), eager[n].kind());
        assert_eq!(t.spelling(), eager[n].spelling());
        n += 1;
    }
    assert_eq!(n, eager.len());
}

#[test]
fn stream_ends_at_first_error() {
    let src = chars("x @ y");
    let mut stream = tokens(&src);
    let first = stream.next().unwrap().unwrap();
    assert_eq!(*first.spelling(), chars("x"));
    let second = stream.next().unwrap();
    assert_eq!(second.unwrap_err(), LexError::BadCharacter('@'));
    assert!(stream.next().is_none());
}

#[test]
fn token_expect_checks_kind() {
    let toks = lex(&chars("x")).unwrap();
    let t = toks[0].clone();
    assert!(t.expect(TokenKind::Ident).is_some());
    let t2 = toks[0].clone();
    assert!(t2.expect(TokenKind::LitInt).is_none());
}

#[test]
fn cursor_get_and_consume() {
    let c = Lexing::new(chars("ab"));
    let (ch, c2) = c.get().unwrap();
    assert_eq!(ch, 'a');
    let (m, rest) = c2.consume();
    assert_eq!(m.leader, chars(""));
    assert_eq!(m.spelling, chars("a"));
    let (ch2, _) = rest.get().unwrap();
    assert_eq!(ch2, 'b');
}

#[test]
fn cursor_get_at_end_is_none() {
    let c = Lexing::new(chars(""));
    assert!(c.get().is_none());
}

#[test]
fn cursor_take_bounds() {
    let c = Lexing::new(chars("abc"));
    assert!(c.take(4).is_none());
    let c = Lexing::new(chars("abc"));
    let c2 = c.take(2).unwrap();
    let (m, _) = c2.consume();
    assert_eq!(m.spelling, chars("ab"));
}

#[test]
fn cursor_take_while_matches_run() {
    let c = Lexing::new(chars("12ab"));
    let c2 = c.take_while(|ch| ch.is_ascii_digit()).unwrap();
    let (m, _) = c2.consume();
    assert_eq!(m.spelling, chars("12"));
}

#[test]
fn cursor_take_while_zero_match_is_none() {
    let c = Lexing::new(chars("ab"));
    assert!(c.take_while(|ch| ch.is_ascii_digit()).is_none());
}

#[test]
fn cursor_discard_skips_match() {
    let c = Lexing::new(chars("  x"));
    let c2 = c.take_while(|ch| ch == ' ').unwrap();
    let c3 = c2.discard();
    let (ch, _) = c3.get().unwrap();
    assert_eq!(ch, 'x');
}

#[test]
fn string_token_column_points_at_quote() {
    let toks = lex(&chars(" \"ab\"")).unwrap();
    assert_eq!(toks.len(), 1);
    // the leader ends before the opening quote
    assert_eq!(toks[0].location().column, 2);
    assert_eq!(toks[0].location().line, 1);
}

#[test]
fn comma_is_punctuation() {
    let toks = lex(&chars("a,b")).unwrap();
    assert_eq!(toks.len(), 3);
    assert_eq!(toks[1].kind(), TokenKind::Punct);
    assert_eq!(*toks[1].spelling(), chars(","));
}

#[test]
fn unicode_whitespace_only_lexes_empty() {
    let toks = lex(&chars("\u{000B}\u{000C}\u{0085}\u{00A0}\u{1680}\u{2003}\u{200A}\u{2028}\u{2029}\u{202F}\u{205F}\u{3000}")).unwrap();
    assert_eq!(toks.len(), 0);
}

#[test]
fn unicode_whitespace_separates_tokens() {
    let toks = lex(&chars("a\u{00A0}b")).unwrap();
    assert_eq!(toks.len(), 2);
    assert_eq!(*toks[0].spelling(), chars("a"));
    assert_eq!(*toks[1].spelling(), chars("b"));
    assert_eq!(toks[1].location().column, 3);
}

#[test]
fn stream_stays_ended_after_last_token() {
    let src = chars("x  ");
    let mut stream = tokens(&src);
    assert!(stream.next().is_some());
    assert!(stream.next().is_none());
    assert!(stream.next().is_none());
}

#[test]
fn line_lexer_stays_exhausted() {
    let mut ll = LineLexer::new(chars("x  "), 1);
    assert!(ll.next().is_some());
    assert!(ll.next().is_none());
    assert!(ll.next().is_none());
}
