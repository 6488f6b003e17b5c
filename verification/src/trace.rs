//! Which cells a text reads.

use vstd::prelude::*;

use crate::ascii::{
    alphas_end, is_alpha, is_ascii_alphabetic, is_ascii_digit, lemma_alphas_end, skip_alphas,
    to_ascii_uppercase, COLON, COMMA, DOT, EQUALS, LPAREN, MINUS, PLUS, RPAREN, SLASH, STAR,
    UPPER_A,
};
use crate::formula::{
    argument_at, comparison_at, factor_at, formula, function_named, lookup, name_at, reads,
    sum_at, sum_rest, term_at, term_rest, text_reads, Aggregate, Binary, Expr, Function, Parser,
};
use crate::grid::{
    idx, lemma_row_cells_push, max_of, min_of, rect_cells, row_cells, COLS, NCELLS, ROWS,
};
use crate::number::{lemma_number_at, read_number};

verus! {

/// Whether a list names cell `c`.
pub open spec fn names(list: Seq<usize>, c: int) -> bool {
    exists|k: int| 0 <= k < list.len() && #[trigger] list[k] == c
}

/// Whether the list grew by just the cells that what was parsed reads, if
/// anything was.
spec fn traced(
    parsed: Option<(Expr, int)>,
    before: Seq<usize>,
    after: Seq<usize>,
    ok: bool,
    end: int,
) -> bool {
    match parsed {
        Some((e, q)) => {
            &&& ok
            &&& q == end
            &&& forall|c: int| #[trigger] names(after, c) <==> names(before, c) || reads(e, c)
        },
        None => !ok,
    }
}

proof fn lemma_names_push(list: Seq<usize>, x: usize)
    ensures
        forall|c: int| #[trigger] names(list.push(x), c) <==> names(list, c) || c == x,
{
    let more = list.push(x);
    assert forall|c: int| #[trigger] names(more, c) <==> names(list, c) || c == x by {
        if names(list, c) {
            let k = choose|k: int| 0 <= k < list.len() && #[trigger] list[k] == c;
            assert(more[k] == c);
        }
        if c == x {
            assert(more[list.len() as int] == c);
        }
        if names(more, c) {
            let k = choose|k: int| 0 <= k < more.len() && #[trigger] more[k] == c;
            if k < list.len() {
                assert(list[k] == c);
            }
        }
    }
}

/// A formula's text being followed for the cells that it reads. The values
/// that the parser carries are not looked at.
struct Trace<'a> {
    p: Parser<'a>,
    cells: Vec<usize>,
}

impl<'a> Trace<'a> {
    spec fn wf(&self) -> bool {
        self.p.wf()
    }

    /// A comparison.
    fn comparison(&mut self) -> (ok: bool)
        requires
            old(self).wf(),
        ensures
            final(self).wf(),
            final(self).p.same_input(&old(self).p),
            traced(
                comparison_at(old(self).p.b@, old(self).p.pos as int),
                old(self).cells@,
                final(self).cells@,
                ok,
                final(self).p.pos as int,
            ),
            ok ==> final(self).p.pos > old(self).p.pos,
        decreases old(self).p.b@.len() - old(self).p.pos, 5nat,
    {
        if !self.expr() {
            return false;
        }
        self.p.skip_ws();
        match self.p.relation() {
            None => true,
            Some(_) => self.expr(),
        }
    }

    /// Terms joined by `+` and `-`.
    fn expr(&mut self) -> (ok: bool)
        requires
            old(self).wf(),
        ensures
            final(self).wf(),
            final(self).p.same_input(&old(self).p),
            traced(
                sum_at(old(self).p.b@, old(self).p.pos as int),
                old(self).cells@,
                final(self).cells@,
                ok,
                final(self).p.pos as int,
            ),
            ok ==> final(self).p.pos > old(self).p.pos,
        decreases old(self).p.b@.len() - old(self).p.pos, 4nat,
    {
        if !self.term() {
            return false;
        }
        let ghost mut e: Expr = (term_at(self.p.b@, old(self).p.pos as int)->Some_0).0;
        loop
            invariant
                self.wf(),
                self.p.same_input(&old(self).p),
                self.p.pos > old(self).p.pos,
                sum_at(self.p.b@, old(self).p.pos as int) == sum_rest(
                    self.p.b@,
                    e,
                    self.p.pos as int,
                ),
                forall|c: int| #[trigger]
                    names(self.cells@, c) <==> names(old(self).cells@, c) || reads(e, c),
            decreases self.p.b@.len() - self.p.pos,
        {
            self.p.skip_ws();
            let op: Option<u8> = self.p.peek();
            if op != Some(PLUS) && op != Some(MINUS) {
                return true;
            }
            let ghost q = self.p.pos as int;
            let ghost e0 = e;
            self.p.pos += 1;
            if !self.term() {
                return false;
            }
            proof {
                e = Expr::Two(
                    if op == Some(PLUS) {
                        Binary::Add
                    } else {
                        Binary::Sub
                    },
                    Box::new(e0),
                    Box::new((term_at(self.p.b@, q + 1)->Some_0).0),
                );
            }
        }
    }

    /// Factors joined by `*` and `/`.
    fn term(&mut self) -> (ok: bool)
        requires
            old(self).wf(),
        ensures
            final(self).wf(),
            final(self).p.same_input(&old(self).p),
            traced(
                term_at(old(self).p.b@, old(self).p.pos as int),
                old(self).cells@,
                final(self).cells@,
                ok,
                final(self).p.pos as int,
            ),
            ok ==> final(self).p.pos > old(self).p.pos,
        decreases old(self).p.b@.len() - old(self).p.pos, 3nat,
    {
        if !self.factor() {
            return false;
        }
        let ghost mut e: Expr = (factor_at(self.p.b@, old(self).p.pos as int)->Some_0).0;
        loop
            invariant
                self.wf(),
                self.p.same_input(&old(self).p),
                self.p.pos > old(self).p.pos,
                term_at(self.p.b@, old(self).p.pos as int) == term_rest(
                    self.p.b@,
                    e,
                    self.p.pos as int,
                ),
                forall|c: int| #[trigger]
                    names(self.cells@, c) <==> names(old(self).cells@, c) || reads(e, c),
            decreases self.p.b@.len() - self.p.pos,
        {
            self.p.skip_ws();
            let op: Option<u8> = self.p.peek();
            if op != Some(STAR) && op != Some(SLASH) {
                return true;
            }
            let ghost q = self.p.pos as int;
            let ghost e0 = e;
            self.p.pos += 1;
            if !self.factor() {
                return false;
            }
            proof {
                e = Expr::Two(
                    if op == Some(STAR) {
                        Binary::Mul
                    } else {
                        Binary::Div
                    },
                    Box::new(e0),
                    Box::new((factor_at(self.p.b@, q + 1)->Some_0).0),
                );
            }
        }
    }

    /// A number, a name, a comparison in brackets, or a signed factor.
    fn factor(&mut self) -> (ok: bool)
        requires
            old(self).wf(),
        ensures
            final(self).wf(),
            final(self).p.same_input(&old(self).p),
            traced(
                factor_at(old(self).p.b@, old(self).p.pos as int),
                old(self).cells@,
                final(self).cells@,
                ok,
                final(self).p.pos as int,
            ),
            ok ==> final(self).p.pos > old(self).p.pos,
        decreases old(self).p.b@.len() - old(self).p.pos, 2nat,
    {
        self.p.skip_ws();
        match self.p.peek() {
            None => false,
            Some(c) => {
                if c == LPAREN {
                    self.p.pos += 1;
                    self.argument(RPAREN)
                } else if c == MINUS || c == PLUS {
                    self.p.pos += 1;
                    self.factor()
                } else if is_ascii_digit(c) || c == DOT {
                    proof {
                        lemma_number_at(self.p.b@, self.p.pos as int);
                    }
                    read_number(self.p.b, &mut self.p.pos).is_some()
                } else if is_ascii_alphabetic(c) {
                    self.name()
                } else {
                    false
                }
            },
        }
    }

    /// A comparison and the byte `ch` that closes it.
    fn argument(&mut self, ch: u8) -> (ok: bool)
        requires
            old(self).wf(),
        ensures
            final(self).wf(),
            final(self).p.same_input(&old(self).p),
            traced(
                argument_at(old(self).p.b@, old(self).p.pos as int, ch),
                old(self).cells@,
                final(self).cells@,
                ok,
                final(self).p.pos as int,
            ),
            ok ==> final(self).p.pos > old(self).p.pos,
        decreases old(self).p.b@.len() - old(self).p.pos, 6nat,
    {
        if !self.comparison() {
            return false;
        }
        self.p.eat(ch).is_some()
    }

    /// The call of a function, or a cell.
    fn name(&mut self) -> (ok: bool)
        requires
            old(self).wf(),
        ensures
            final(self).wf(),
            final(self).p.same_input(&old(self).p),
            traced(
                name_at(old(self).p.b@, old(self).p.pos as int),
                old(self).cells@,
                final(self).cells@,
                ok,
                final(self).p.pos as int,
            ),
            ok ==> final(self).p.pos > old(self).p.pos,
        decreases old(self).p.b@.len() - old(self).p.pos, 1nat,
    {
        let start: usize = self.p.pos;
        self.p.pos = skip_alphas(self.p.b, start);
        let word: &[u8] = vstd::slice::slice_subrange(self.p.b, start, self.p.pos);
        if self.p.peek() == Some(LPAREN) {
            self.p.pos += 1;
            return match lookup(word) {
                None => false,
                Some(f) => self.call(f, start),
            };
        }
        if word.len() != 1 {
            return false;
        }
        proof {
            lemma_alphas_end(self.p.b@, start as int);
            assert(is_alpha(self.p.b@[start as int]));
        }
        let col: usize = (to_ascii_uppercase(word[0]) - UPPER_A) as usize;
        match self.p.read_row() {
            None => false,
            Some(row) => {
                if row >= ROWS {
                    return false;
                }
                let i: usize = idx(col, row);
                proof {
                    lemma_names_push(self.cells@, i);
                }
                self.cells.push(i);
                true
            },
        }
    }

    /// The arguments of a call, up to its closing bracket.
    fn call(&mut self, f: Function, start: usize) -> (ok: bool)
        requires
            old(self).wf(),
            start < old(self).p.pos,
            ({
                let w = alphas_end(old(self).p.b@, start as int);
                &&& old(self).p.pos == w + 1
                &&& w < old(self).p.b@.len()
                &&& old(self).p.b@[w] == LPAREN
                &&& function_named(old(self).p.b@.subrange(start as int, w)) == Some(f)
            }),
        ensures
            final(self).wf(),
            final(self).p.same_input(&old(self).p),
            traced(
                name_at(old(self).p.b@, start as int),
                old(self).cells@,
                final(self).cells@,
                ok,
                final(self).p.pos as int,
            ),
            ok ==> final(self).p.pos > old(self).p.pos,
        decreases old(self).p.b@.len() - old(self).p.pos, 7nat,
    {
        match f {
            Function::If => self.argument(COMMA) && self.argument(COMMA) && self.argument(RPAREN),
            Function::Abs => self.argument(RPAREN),
            Function::Round => self.argument(RPAREN),
            Function::Int => self.argument(RPAREN),
            Function::Mod => self.argument(COMMA) && self.argument(RPAREN),
            Function::Over(_) => self.range(),
        }
    }

    /// A range and its closing bracket.
    fn range(&mut self) -> (ok: bool)
        requires
            old(self).wf(),
        ensures
            final(self).wf(),
            final(self).p.same_input(&old(self).p),
            forall|over: Aggregate| #[trigger]
                traced(
                    crate::formula::range_at(old(self).p.b@, old(self).p.pos as int, over),
                    old(self).cells@,
                    final(self).cells@,
                    ok,
                    final(self).p.pos as int,
                ),
            ok ==> final(self).p.pos > old(self).p.pos,
    {
        match self.p.cellref_coords() {
            None => false,
            Some((c0, r0)) => {
                if self.p.eat(COLON).is_none() {
                    return false;
                }
                match self.p.cellref_coords() {
                    None => false,
                    Some((c1, r1)) => {
                        if self.p.eat(RPAREN).is_none() {
                            return false;
                        }
                        self.push_rect(
                            min_of(c0, c1),
                            min_of(r0, r1),
                            max_of(c0, c1),
                            max_of(r0, r1),
                        );
                        true
                    },
                }
            },
        }
    }

    /// Append every cell of a rectangle.
    fn push_rect(&mut self, ca: usize, ra: usize, cb: usize, rb: usize)
        requires
            old(self).wf(),
            ca <= cb < COLS,
            ra <= rb < ROWS,
        ensures
            final(self).p == old(self).p,
            forall|c: int| #[trigger]
                names(final(self).cells@, c) <==> names(old(self).cells@, c) || rect_cells(
                    ca as int,
                    ra as int,
                    cb as int,
                    rb as int,
                ).contains(c),
    {
        let ghost mut seen: Seq<int> = seq![];
        let mut row: usize = ra;
        while row <= rb
            invariant
                self.p == old(self).p,
                ca <= cb < COLS,
                ra <= row <= rb + 1,
                rb < ROWS,
                seen == rect_cells(ca as int, ra as int, cb as int, row - 1),
                forall|c: int| #[trigger]
                    names(self.cells@, c) <==> names(old(self).cells@, c) || seen.contains(c),
            decreases rb + 1 - row,
        {
            let ghost above = seen;
            assert(above =~= above + row_cells(ca as int, ca - 1, row as int));
            let mut col: usize = ca;
            while col <= cb
                invariant
                    self.p == old(self).p,
                    ca <= col <= cb + 1,
                    cb < COLS,
                    row <= rb < ROWS,
                    seen == above + row_cells(ca as int, col - 1, row as int),
                    forall|c: int| #[trigger]
                        names(self.cells@, c) <==> names(old(self).cells@, c) || seen.contains(c),
                decreases cb + 1 - col,
            {
                let i: usize = idx(col, row);
                proof {
                    lemma_row_cells_push(ca as int, col as int, row as int);
                    let next = seen.push(i as int);
                    assert(next =~= above + row_cells(ca as int, col as int, row as int));
                    lemma_names_push(self.cells@, i);
                    assert forall|c: int| next.contains(c) <==> seen.contains(c) || c == i by {
                        if seen.contains(c) {
                            let k = choose|k: int| 0 <= k < seen.len() && seen[k] == c;
                            assert(next[k] == c);
                        }
                        assert(next[seen.len() as int] == i);
                    }
                    seen = next;
                }
                self.cells.push(i);
                col += 1;
            }
            row += 1;
        }
    }
}

/// The cells that a text reads. The values of the snapshot do not matter.
pub fn cells_read(raw: &[u8], snap: &[i64], nums: &[bool]) -> (cells: Vec<usize>)
    requires
        snap@.len() >= NCELLS,
        nums@.len() >= NCELLS,
    ensures
        forall|c: int| #[trigger] names(cells@, c) <==> text_reads(raw@, c),
{
    if raw.len() == 0 || raw[0] != EQUALS {
        return Vec::new();
    }
    let body: &[u8] = vstd::slice::slice_subrange(raw, 1, raw.len());
    let mut t = Trace { p: Parser { b: body, pos: 0, snap, nums }, cells: Vec::new() };
    t.p.skip_ws();
    if !t.comparison() {
        return Vec::new();
    }
    t.p.skip_ws();
    if t.p.pos == body.len() {
        t.cells
    } else {
        Vec::new()
    }
}

} // verus!
