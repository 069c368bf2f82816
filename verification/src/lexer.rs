//! The document-level token stream: splits source text into lines, drives
//! one `LineLexer` per line, and concatenates the results into one ordered,
//! fallible sequence of tokens that ends at the first lexical error.

use vstd::prelude::*;
use crate::token::{Token, TokenV, TokenKind, LexError, clone_chars};
use crate::lexing::copy_range;
use crate::line_lexer::{LineLexer, LexStep, lex_step, lemma_step_in_range, ws, ws_p, lemma_run_end_from};

verus! {

// --- the model ---------------------------------------------------------

/// The token a scanning step describes, as a mathematical value.
pub open spec fn step_token(line: Seq<char>, num: nat, kind: TokenKind, lead: int, lo: int, hi: int) -> TokenV {
    TokenV { kind, line: num, leader: line.subrange(0, lead), spelling: line.subrange(lo, hi) }
}

/// The items one line's tokenizer yields from position `pos` on: its
/// tokens in order, with an error (if any) as the final item.
pub open spec fn line_items(line: Seq<char>, num: nat, pos: int) -> Seq<Result<TokenV, LexError>>
    decreases line.len() - pos,
{
    match lex_step(line, pos) {
        LexStep::End => seq![],
        LexStep::Fail(e) => seq![Err(e)],
        LexStep::Next { kind, lead, lo, hi, next } => {
            if pos < next <= line.len() {
                seq![Ok(step_token(line, num, kind, lead, lo, hi))] + line_items(line, num, next)
            } else {
                seq![Ok(step_token(line, num, kind, lead, lo, hi))]
            }
        },
    }
}

/// Whether an item sequence was cut short by an error.
pub open spec fn ends_in_err(items: Seq<Result<TokenV, LexError>>) -> bool {
    items.len() > 0 && items.last() is Err
}

/// The items of a whole document from line index `i` on, 1-based line
/// numbers attached; the stream ends at the first error.
pub open spec fn doc_items(lines: Seq<Seq<char>>, i: int) -> Seq<Result<TokenV, LexError>>
    decreases lines.len() - i,
{
    if 0 <= i < lines.len() {
        let its = line_items(lines[i], (i + 1) as nat, 0);
        if ends_in_err(its) {
            its
        } else {
            its + doc_items(lines, i + 1)
        }
    } else {
        seq![]
    }
}

/// The first newline at or after `i`, or the text's length.
pub open spec fn nl_at(src: Seq<char>, i: int) -> int
    decreases src.len() - i,
{
    if i < src.len() {
        if src[i] == '\n' {
            i
        } else {
            nl_at(src, i + 1)
        }
    } else {
        i
    }
}

/// The lines of the text from `from` on, split at each newline; the
/// newline characters belong to no line.
pub open spec fn split_lines_from(src: Seq<char>, from: int) -> Seq<Seq<char>>
    decreases src.len() - from,
{
    let k = nl_at(src, from);
    if from <= k < src.len() {
        seq![src.subrange(from, k)] + split_lines_from(src, k + 1)
    } else {
        seq![src.subrange(from, src.len() as int)]
    }
}

/// The lines of a source text.
pub open spec fn split_lines(src: Seq<char>) -> Seq<Seq<char>> {
    split_lines_from(src, 0)
}

/// Every item the lexer yields for a source text, in order.
pub open spec fn lex_items(src: Seq<char>) -> Seq<Result<TokenV, LexError>> {
    doc_items(split_lines(src), 0)
}

/// The eager lex of a whole text: all its tokens, or the first error.
pub open spec fn lex_spec(src: Seq<char>) -> Result<Seq<TokenV>, LexError> {
    let its = lex_items(src);
    if ends_in_err(its) {
        Err(its.last()->Err_0)
    } else {
        Ok(its.map_values(|it: Result<TokenV, LexError>| it->Ok_0))
    }
}

/// In a line's item sequence, every item but the last is a token.
pub proof fn lemma_line_items_ok_front(line: Seq<char>, num: nat, pos: int)
    requires
        0 <= pos <= line.len(),
    ensures
        forall|j: int|
            0 <= j < line_items(line, num, pos).len() - 1 ==> line_items(line, num, pos)[j] is Ok,
    decreases line.len() - pos,
{
    let its = line_items(line, num, pos);
    match lex_step(line, pos) {
        LexStep::End => {},
        LexStep::Fail(e) => {},
        LexStep::Next { kind, lead, lo, hi, next } => {
            lemma_step_in_range(line, pos);
            lemma_line_items_ok_front(line, num, next);
            let rest = line_items(line, num, next);
            assert forall|j: int| 0 <= j < its.len() - 1 implies its[j] is Ok by {
                if j > 0 {
                    assert(its[j] == rest[j - 1]);
                }
            };
        },
    }
}

/// In a document's item sequence, every item but the last is a token.
pub proof fn lemma_doc_items_ok_front(lines: Seq<Seq<char>>, i: int)
    ensures
        forall|j: int|
            0 <= j < doc_items(lines, i).len() - 1 ==> doc_items(lines, i)[j] is Ok,
    decreases lines.len() - i,
{
    if 0 <= i < lines.len() {
        let its = line_items(lines[i], (i + 1) as nat, 0);
        let whole = doc_items(lines, i);
        lemma_line_items_ok_front(lines[i], (i + 1) as nat, 0);
        if !ends_in_err(its) {
            lemma_doc_items_ok_front(lines, i + 1);
            let rest = doc_items(lines, i + 1);
            assert forall|j: int| 0 <= j < whole.len() - 1 implies whole[j] is Ok by {
                if j < its.len() {
                    assert(whole[j] == its[j]);
                } else {
                    assert(whole[j] == rest[j - its.len()]);
                }
            };
        }
    }
}

proof fn lemma_nl_at_bounds(src: Seq<char>, i: int)
    requires
        0 <= i <= src.len(),
    ensures
        i <= nl_at(src, i) <= src.len(),
    decreases src.len() - i,
{
    if i < src.len() && src[i] != '\n' {
        lemma_nl_at_bounds(src, i + 1);
    }
}

/// A line of nothing but whitespace yields no items at all.
proof fn lemma_ws_line(line: Seq<char>, num: nat)
    requires
        forall|i: int| 0 <= i < line.len() ==> ws(line[i]),
    ensures
        line_items(line, num, 0) == Seq::<Result<TokenV, LexError>>::empty(),
{
    assert forall|i: int| 0 <= i < line.len() implies ws_p()(line[i]) by {
        assert(ws(line[i]));
    };
    lemma_run_end_from(line, 0, line.len() as int, ws_p());
    assert(line_items(line, num, 0) =~= Seq::<Result<TokenV, LexError>>::empty());
}

/// Splitting whitespace-only text yields whitespace-only lines.
proof fn lemma_split_all_ws(src: Seq<char>, from: int)
    requires
        0 <= from <= src.len(),
        forall|i: int| 0 <= i < src.len() ==> ws(src[i]),
    ensures
        forall|li: int, j: int|
            0 <= li < split_lines_from(src, from).len() && 0 <= j < split_lines_from(
                src,
                from,
            )[li].len() ==> ws(#[trigger] split_lines_from(src, from)[li][j]),
    decreases src.len() - from,
{
    let k = nl_at(src, from);
    lemma_nl_at_bounds(src, from);
    let lines = split_lines_from(src, from);
    if from <= k < src.len() {
        lemma_split_all_ws(src, k + 1);
        let rest = split_lines_from(src, k + 1);
        assert forall|li: int, j: int|
            0 <= li < lines.len() && 0 <= j < lines[li].len() implies ws(
            #[trigger] lines[li][j],
        ) by {
            if li == 0 {
                assert(lines[0] == src.subrange(from, k));
                assert(lines[0][j] == src[from + j]);
            } else {
                assert(lines[li] == rest[li - 1]);
            }
        };
    } else {
        assert forall|li: int, j: int|
            0 <= li < lines.len() && 0 <= j < lines[li].len() implies ws(
            #[trigger] lines[li][j],
        ) by {
            assert(lines[0] == src.subrange(from, src.len() as int));
            assert(lines[0][j] == src[from + j]);
        };
    }
}

/// Whitespace-only lines yield an empty document stream.
proof fn lemma_ws_doc_items(lines: Seq<Seq<char>>, i: int)
    requires
        forall|li: int, j: int|
            0 <= li < lines.len() && 0 <= j < lines[li].len() ==> ws(#[trigger] lines[li][j]),
    ensures
        doc_items(lines, i) == Seq::<Result<TokenV, LexError>>::empty(),
    decreases lines.len() - i,
{
    if 0 <= i < lines.len() {
        assert forall|j: int| 0 <= j < lines[i].len() implies ws(lines[i][j]) by {
            assert(ws(lines[i][j]));
        };
        lemma_ws_line(lines[i], (i + 1) as nat);
        lemma_ws_doc_items(lines, i + 1);
        assert(doc_items(lines, i) =~= Seq::<Result<TokenV, LexError>>::empty());
    }
}

/// Law of whitespace: text containing only whitespace lexes eagerly to an
/// empty token list.
pub proof fn lemma_whitespace_only_lexes_empty(src: Seq<char>)
    requires
        forall|i: int| 0 <= i < src.len() ==> ws(src[i]),
    ensures
        lex_spec(src) == Ok::<Seq<TokenV>, LexError>(Seq::<TokenV>::empty()),
{
    lemma_split_all_ws(src, 0);
    lemma_ws_doc_items(split_lines(src), 0);
    assert(!ends_in_err(lex_items(src)));
    assert(lex_items(src).map_values(|it: Result<TokenV, LexError>| it->Ok_0) =~= Seq::<
        TokenV,
    >::empty());
}

// --- the stream --------------------------------------------------------

/// A token item as a mathematical value.
pub open spec fn item_v(it: Result<Token, LexError>) -> Result<TokenV, LexError> {
    match it {
        Ok(t) => Ok(t@),
        Err(e) => Err(e),
    }
}

/// The mathematical content of a sequence of token items.
pub open spec fn items_view(s: Seq<Result<Token, LexError>>) -> Seq<Result<TokenV, LexError>> {
    s.map_values(|it: Result<Token, LexError>| item_v(it))
}

/// The ordered token stream of one source document, yielding each token or
/// the first error once, then nothing more.
pub struct Tokens {
    items: Vec<Result<Token, LexError>>,
    pos: usize,
}

impl Tokens {
    /// The items still to be yielded.
    pub closed spec fn stream(&self) -> Seq<Result<TokenV, LexError>> {
        items_view(self.items@).skip(self.pos as int)
    }

    pub closed spec fn wf(&self) -> bool {
        self.pos <= self.items@.len()
    }

    /// Tokenizes the whole document, line by line; the resulting stream is
    /// exactly `lex_items` of the text.
    pub fn new(src: &Vec<char>) -> (r: Tokens)
        ensures
            r.wf(),
            r.stream() == lex_items(src@),
    {
        let lines = split_from(src, 0);
        let ghost linesv = lines@.map_values(|l: Vec<char>| l@);
        let mut items: Vec<Result<Token, LexError>> = Vec::new();
        let mut li: usize = 0;
        let mut doc_failed = false;
        loop
            invariant
                linesv == lines@.map_values(|l: Vec<char>| l@),
                linesv == split_lines(src@),
                li <= lines@.len(),
                !doc_failed ==> doc_items(linesv, 0) == items_view(items@) + doc_items(
                    linesv,
                    li as int,
                ),
                doc_failed ==> doc_items(linesv, 0) == items_view(items@),
            ensures
                doc_failed || li as int >= linesv.len(),
                !doc_failed ==> doc_items(linesv, 0) == items_view(items@) + doc_items(
                    linesv,
                    li as int,
                ),
                doc_failed ==> doc_items(linesv, 0) == items_view(items@),
            decreases lines@.len() - li,
        {
            if doc_failed || li >= lines.len() {
                break;
            }
            let line = clone_chars(&lines[li]);
            let ghost lv = linesv[li as int];
            let mut ll = LineLexer::new(line, li + 1);
            let ghost num = ll.line_no();
            let ghost items0 = items@;
            loop
                invariant_except_break
                    ll.text() == lv,
                    ll.line_no() == num,
                    ll.wf(),
                    ll.inv(),
                    !ll.failed(),
                    items0.len() <= items@.len(),
                    items_view(items@) + line_items(lv, num, ll.pos()) == items_view(items0)
                        + line_items(lv, num, 0),
                    forall|j: int| items0.len() <= j < items@.len() ==> items@[j] is Ok,
                ensures
                    items0.len() <= items@.len(),
                    items_view(items@) == items_view(items0) + line_items(lv, num, 0),
                    ll.text() == lv,
                    ll.failed() == ends_in_err(line_items(lv, num, 0)),
                decreases lv.len() - ll.pos(),
            {
                let ghost pre = ll.pos();
                let ghost before = items@;
                proof {
                    lemma_step_in_range(lv, pre);
                }
                match ll.next() {
                    None => {
                        proof {
                            assert(line_items(lv, num, pre) =~= Seq::<
                                Result<TokenV, LexError>,
                            >::empty());
                            assert(items_view(items@) =~= items_view(items0) + line_items(
                                lv,
                                num,
                                0,
                            ));
                            let its = line_items(lv, num, 0);
                            if its.len() > 0 {
                                let k = items0.len() + its.len() - 1;
                                assert(items_view(items@)[k] == its[its.len() - 1]);
                                assert(items@[k] is Ok);
                            }
                            assert(!ends_in_err(its));
                        }
                        break;
                    },
                    Some(item) => {
                        let ghost stepped = lex_step(lv, pre);
                        let ghost iv = item_v(item);
                        let failed_now = ll.check_failed();
                        items.push(item);
                        proof {
                            assert(items_view(items@) =~= items_view(before) + seq![iv]);
                            match stepped {
                                LexStep::Next { kind, lead, lo, hi, next } => {
                                    assert(iv == Ok::<TokenV, LexError>(
                                        step_token(lv, num, kind, lead, lo, hi),
                                    ));
                                    assert(line_items(lv, num, pre) == seq![iv] + line_items(
                                        lv,
                                        num,
                                        next,
                                    ));
                                    assert(items_view(items@) + line_items(lv, num, next)
                                        =~= items_view(items0) + line_items(lv, num, 0));
                                },
                                LexStep::Fail(e) => {
                                    assert(iv == Err::<TokenV, LexError>(e));
                                    assert(line_items(lv, num, pre) == seq![iv]);
                                    assert(items_view(items@) =~= items_view(items0) + line_items(
                                        lv,
                                        num,
                                        0,
                                    ));
                                    let its = line_items(lv, num, 0);
                                    assert(its[its.len() - 1] == items_view(items@)[items@.len()
                                        - 1]);
                                    assert(ends_in_err(its));
                                },
                                LexStep::End => {
                                    assert(false);
                                },
                            }
                        }
                        if failed_now {
                            break;
                        }
                    },
                }
            }
            proof {
                assert(doc_items(linesv, li as int) == (if ends_in_err(line_items(lv, num, 0)) {
                    line_items(lv, num, 0)
                } else {
                    line_items(lv, num, 0) + doc_items(linesv, li as int + 1)
                }));
            }
            if ll.check_failed() {
                doc_failed = true;
                proof {
                    assert(doc_items(linesv, 0) =~= items_view(items@));
                }
            } else {
                proof {
                    assert(doc_items(linesv, 0) =~= items_view(items@) + doc_items(
                        linesv,
                        li as int + 1,
                    ));
                }
            }
            li = li + 1;
        }
        proof {
            if !doc_failed {
                assert(doc_items(linesv, li as int) =~= Seq::<Result<TokenV, LexError>>::empty());
            }
            assert(doc_items(linesv, 0) =~= items_view(items@));
        }
        let r = Tokens { items, pos: 0 };
        proof {
            assert(r.stream() =~= items_view(r.items@));
        }
        r
    }

    /// Yields the next item of the stream, or `None` once it has ended.
    pub fn next(&mut self) -> (r: Option<Result<Token, LexError>>)
        requires
            old(self).wf(),
        ensures
            final(self).wf(),
            old(self).stream().len() == 0 ==> r is None && final(self).stream()
                == old(self).stream(),
            old(self).stream().len() > 0 ==> (r matches Some(item) && item_v(item)
                == old(self).stream()[0] && final(self).stream()
                == old(self).stream().drop_first()),
    {
        if self.pos < self.items.len() {
            let it = match &self.items[self.pos] {
                Ok(t) => Ok(t.clone()),
                Err(e) => Err(*e),
            };
            self.pos = self.pos + 1;
            proof {
                assert(self.stream() =~= old(self).stream().drop_first());
            }
            Some(it)
        } else {
            None
        }
    }
}

/// The lazy per-document token producer.
pub fn tokens(src: &Vec<char>) -> (r: Tokens)
    ensures
        r.wf(),
        r.stream() == lex_items(src@),
{
    Tokens::new(src)
}

/// The eager lex of a document: every token of the text in order, or the
/// first lexical error.
pub fn lex(src: &Vec<char>) -> (r: Result<Vec<Token>, LexError>)
    ensures
        match r {
            Ok(v) => lex_spec(src@) == Ok::<Seq<TokenV>, LexError>(v@.map_values(|t: Token| t@)),
            Err(e) => lex_spec(src@) == Err::<Seq<TokenV>, LexError>(e),
        },
{
    let mut ts = Tokens::new(src);
    let mut out: Vec<Token> = Vec::new();
    loop
        invariant
            ts.wf(),
            lex_items(src@) == out@.map_values(|t: Token| Ok::<TokenV, LexError>(t@))
                + ts.stream(),
            forall|j: int| 0 <= j < out@.len() ==> #[trigger] lex_items(src@)[j] is Ok,
        decreases ts.stream().len(),
    {
        let ghost pre = ts.stream();
        let ghost outv = out@.map_values(|t: Token| Ok::<TokenV, LexError>(t@));
        match ts.next() {
            None => {
                proof {
                    assert(lex_items(src@) =~= outv);
                    if lex_items(src@).len() > 0 {
                        assert(lex_items(src@)[lex_items(src@).len() - 1] is Ok);
                    }
                    assert(!ends_in_err(lex_items(src@)));
                    assert(lex_items(src@).map_values(|it: Result<TokenV, LexError>| it->Ok_0)
                        =~= out@.map_values(|t: Token| t@));
                }
                return Ok(out);
            },
            Some(item) => match item {
                Ok(t) => {
                    let ghost tval = t;
                    let ghost out0 = out@;
                    proof {
                        assert(pre[0] == Ok::<TokenV, LexError>(tval@));
                        assert(lex_items(src@)[out0.len() as int] == pre[0]);
                    }
                    out.push(t);
                    proof {
                        assert(out@ == out0.push(tval));
                        assert(out@.map_values(|t: Token| Ok::<TokenV, LexError>(t@)) =~= outv
                            + seq![Ok::<TokenV, LexError>(tval@)]);
                        assert(lex_items(src@) =~= (outv + seq![Ok::<TokenV, LexError>(tval@)])
                            + pre.drop_first());
                        assert forall|j: int| 0 <= j < out@.len() implies #[trigger] lex_items(
                            src@,
                        )[j] is Ok by {
                            if j == out0.len() {
                                assert(lex_items(src@)[j] == pre[0]);
                            }
                        };
                    }
                },
                Err(e) => {
                    proof {
                        let k = outv.len() as int;
                        assert(lex_items(src@)[k] == pre[0]);
                        lemma_doc_items_ok_front(split_lines(src@), 0);
                        assert(k == lex_items(src@).len() - 1);
                        assert(ends_in_err(lex_items(src@)));
                        assert(lex_items(src@).last() == Err::<TokenV, LexError>(e));
                    }
                    return Err(e);
                },
            },
        }
    }
}

// --- splitting ---------------------------------------------------------

/// Splits the text from `from` on into its lines, as `split_lines_from`
/// describes.
pub fn split_from(src: &Vec<char>, from: usize) -> (r: Vec<Vec<char>>)
    requires
        from <= src@.len(),
    ensures
        r@.map_values(|l: Vec<char>| l@) == split_lines_from(src@, from as int),
    decreases src@.len() - from,
{
    let mut k = from;
    loop
        invariant
            from <= k <= src@.len(),
            nl_at(src@, from as int) == nl_at(src@, k as int),
        ensures
            from <= k <= src@.len(),
            k as int == nl_at(src@, from as int),
        decreases src@.len() - k,
    {
        if k < src.len() {
            if src[k] == '\n' {
                break;
            } else {
                k = k + 1;
            }
        } else {
            break;
        }
    }
    if k < src.len() {
        let head = copy_range(src, from, k);
        let mut rest = split_from(src, k + 1);
        let mut r: Vec<Vec<char>> = Vec::new();
        r.push(head);
        r.append(&mut rest);
        proof {
            assert(r@.map_values(|l: Vec<char>| l@) =~= split_lines_from(src@, from as int));
        }
        r
    } else {
        let head = copy_range(src, from, src.len());
        let mut r: Vec<Vec<char>> = Vec::new();
        r.push(head);
        proof {
            assert(r@.map_values(|l: Vec<char>| l@) =~= split_lines_from(src@, from as int));
        }
        r
    }
}

} // verus!
