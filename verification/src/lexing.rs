//! The scan cursor over a single line of text. A `Lexing` value tracks a
//! frozen match start and an advancing match end; every operation is a pure
//! value transformation that yields a new cursor.

use vstd::prelude::*;

verus! {

/// What one consume step yields: the unmatched text preceding the lexeme
/// (`leader`) and the lexeme itself (`spelling`).
pub struct LexMatch {
    pub leader: Vec<char>,
    pub spelling: Vec<char>,
}

/// A scan position over one line: the line's characters, the start of the
/// current match (frozen since the previous consume) and its end (advanced
/// by scanning).
pub struct Lexing {
    line: Vec<char>,
    start: usize,
    end: usize,
}

impl Lexing {
    /// The characters of the line being scanned.
    pub closed spec fn text(&self) -> Seq<char> {
        self.line@
    }

    /// Where the current match begins.
    pub closed spec fn lo(&self) -> int {
        self.start as int
    }

    /// Where the current match ends; this is the scan position.
    pub closed spec fn hi(&self) -> int {
        self.end as int
    }

    /// The cursor's invariant: the match is a well-formed range of the line.
    pub open spec fn wf(&self) -> bool {
        0 <= self.lo() <= self.hi() <= self.text().len()
    }

    /// A fresh cursor at the beginning of a line.
    pub fn new(line: Vec<char>) -> (r: Lexing)
        ensures
            r.text() == line@,
            r.lo() == 0,
            r.hi() == 0,
            r.wf(),
    {
        Lexing { line, start: 0, end: 0 }
    }

    /// Splits the line into the leader before the match and the matched
    /// spelling, and resets the cursor so the next match starts here.
    pub fn consume(self) -> (r: (LexMatch, Lexing))
        requires
            self.wf(),
        ensures
            r.0.leader@ == self.text().subrange(0, self.lo()),
            r.0.spelling@ == self.text().subrange(self.lo(), self.hi()),
            r.1.text() == self.text(),
            r.1.lo() == self.hi(),
            r.1.hi() == self.hi(),
            r.1.wf(),
    {
        let leader = copy_range(&self.line, 0, self.start);
        let spelling = copy_range(&self.line, self.start, self.end);
        let mat = LexMatch { leader, spelling };
        let rest = Lexing { line: self.line, start: self.end, end: self.end };
        (mat, rest)
    }

    /// Drops the current match and resets the cursor, used to skip
    /// whitespace.
    pub fn discard(self) -> (r: Lexing)
        requires
            self.wf(),
        ensures
            r.text() == self.text(),
            r.lo() == self.hi(),
            r.hi() == self.hi(),
            r.wf(),
    {
        let (_, rest) = self.consume();
        rest
    }

    /// Peeks the next character past the match end, yielding it together
    /// with a cursor whose match includes it; `None` at end of line.
    pub fn get(self) -> (r: Option<(char, Lexing)>)
        requires
            self.wf(),
        ensures
            self.hi() < self.text().len() ==> (r matches Some(p)
                && p.0 == self.text()[self.hi()]
                && p.1.text() == self.text()
                && p.1.lo() == self.lo()
                && p.1.hi() == self.hi() + 1
                && p.1.wf()),
            self.hi() == self.text().len() ==> r is None,
    {
        if self.end < self.line.len() {
            let ch = self.line[self.end];
            let next = Lexing { line: self.line, start: self.start, end: self.end + 1 };
            Some((ch, next))
        } else {
            None
        }
    }

    /// Advances the match end by exactly `n` characters when that stays in
    /// bounds, `None` otherwise.
    pub fn take(self, n: usize) -> (r: Option<Lexing>)
        requires
            self.wf(),
        ensures
            self.hi() + n <= self.text().len() ==> (r matches Some(l)
                && l.text() == self.text()
                && l.lo() == self.lo()
                && l.hi() == self.hi() + n
                && l.wf()),
            self.hi() + n > self.text().len() ==> r is None,
    {
        if n <= self.line.len() - self.end {
            Some(Lexing { line: self.line, start: self.start, end: self.end + n })
        } else {
            None
        }
    }

    /// Consumes characters while the predicate holds of them, yielding the
    /// cursor positioned after the last accepted character, or `None` when
    /// zero characters matched: a zero-length match is distinguished from a
    /// successful one.
    pub fn take_while<F: Fn(char) -> bool>(self, pred: F) -> (r: Option<Lexing>)
        requires
            self.wf(),
            forall|c: char| #[trigger] pred.requires((c,)),
        ensures
            (r matches Some(l) ==> l.text() == self.text()
                && l.lo() == self.lo()
                && self.hi() < l.hi() <= self.text().len()
                && (forall|i: int| self.hi() <= i < l.hi() ==> pred.ensures((self.text()[i],), true))
                && (l.hi() == self.text().len() || pred.ensures((self.text()[l.hi()],), false))
                && l.wf()),
            (r is None ==> self.hi() == self.text().len()
                || pred.ensures((self.text()[self.hi()],), false)),
    {
        let mut end = self.end;
        loop
            invariant
                self.wf(),
                self.hi() <= end <= self.text().len(),
                forall|i: int| self.hi() <= i < end ==> pred.ensures((self.text()[i],), true),
                forall|c: char| #[trigger] pred.requires((c,)),
            ensures
                self.hi() <= end <= self.text().len(),
                forall|i: int| self.hi() <= i < end ==> pred.ensures((self.text()[i],), true),
                end == self.text().len() || pred.ensures((self.text()[end as int],), false),
            decreases self.text().len() - end,
        {
            if end < self.line.len() {
                let c = self.line[end];
                if pred(c) {
                    end = end + 1;
                } else {
                    break;
                }
            } else {
                break;
            }
        }
        if end > self.end {
            Some(Lexing { line: self.line, start: self.start, end })
        } else {
            None
        }
    }
}

impl Clone for Lexing {
    /// A cursor copy scans the same text at the same position.
    fn clone(&self) -> (r: Self)
        ensures
            r.text() == self.text(),
            r.lo() == self.lo(),
            r.hi() == self.hi(),
    {
        Lexing {
            line: copy_range(&self.line, 0, self.line.len()),
            start: self.start,
            end: self.end,
        }
    }
}

/// Copies the characters of `v` between `lo` and `hi` into a fresh vector.
pub fn copy_range(v: &Vec<char>, lo: usize, hi: usize) -> (r: Vec<char>)
    requires
        lo <= hi <= v@.len(),
    ensures
        r@ == v@.subrange(lo as int, hi as int),
{
    let mut r: Vec<char> = Vec::new();
    let mut i: usize = lo;
    while i < hi
        invariant
            lo <= i <= hi <= v@.len(),
            r@ == v@.subrange(lo as int, i as int),
        decreases hi - i,
    {
        r.push(v[i]);
        i = i + 1;
        assert(r@ == v@.subrange(lo as int, i as int));
    }
    r
}

} // verus!
