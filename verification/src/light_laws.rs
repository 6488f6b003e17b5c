//! Laws of colours, and of the cells that light up while a formula is typed.

use vstd::prelude::*;

use crate::ascii::{
    alphas_end, digits_end, is_alpha, is_digit, lemma_alphas_end, lemma_digits_end,
    lemma_digits_value_same, row_number, upper, upper_all, COLON, LPAREN,
};
use crate::formula::row_at;
use crate::grid::on_grid;
use crate::highlights::{
    covers, far_corner, named_cell, scanned, spanned, tint_from, Rect, HIGHLIGHTS,
};
use crate::labels::{cell_name, range_name};
use crate::meaning::lemma_name_read;
use crate::screen_laws::law_toward_zero;
use crate::theme::{blended, inked, slice_color_of, Rgb};

verus! {

// ---------------------------------------------------------------------------
// Cells that light up
// ---------------------------------------------------------------------------

/// The rectangle of one cell.
pub open spec fn one_cell(col: int, row: int) -> Rect {
    (col as u8, row as u8, col as u8, row as u8)
}

proof fn lemma_name_found(src: Seq<u8>, i: int, col: int, row: int)
    requires
        on_grid(col, row),
        0 <= i,
        i + cell_name(col, row).len() <= src.len(),
        src.subrange(i, i + cell_name(col, row).len()) == cell_name(col, row),
        i + cell_name(col, row).len() == src.len() || !is_digit(
            src[i + cell_name(col, row).len()],
        ),
    ensures
        is_alpha(src[i]),
        alphas_end(src, i) == i + 1,
        named_cell(src, i, i + 1) == Some((col as u8, row as u8)),
        digits_end(src, i + 1) == i + cell_name(col, row).len(),
{
    lemma_name_read(src, i, col, row);
    assert(row_at(src, i + 1) == Some((row, i + cell_name(col, row).len())));
    assert(row_number(src, i + 1, digits_end(src, i + 1)) == row + 1);
}

/// What was found before stays, in front.
proof fn lemma_found_stays(src: Seq<u8>, i: int, found: Seq<Rect>)
    requires
        0 <= i <= src.len(),
    ensures
        found.len() <= scanned(src, i, found).len(),
        scanned(src, i, found).take(found.len() as int) == found,
    decreases src.len() - i,
{
    let all = scanned(src, i, found);
    if i >= src.len() || found.len() >= HIGHLIGHTS {
        assert(all.take(found.len() as int) =~= found);
    } else if !is_alpha(src[i]) {
        lemma_found_stays(src, i + 1, found);
    } else {
        let j = alphas_end(src, i);
        lemma_alphas_end(src, i);
        lemma_alphas_end(src, i + 1);
        assert(j > i);
        if j != i + 1 {
            lemma_found_stays(src, j, found);
        } else {
            let k = digits_end(src, j);
            lemma_digits_end(src, j);
            match named_cell(src, i, j) {
                None => {
                    lemma_found_stays(src, k, found);
                },
                Some(near) => match far_corner(src, k) {
                    None => {
                        let more = found.push(spanned(near, near));
                        lemma_found_stays(src, k, more);
                        assert(all.take(found.len() as int) =~= all.take(more.len() as int).take(
                            found.len() as int,
                        ));
                        assert(more.take(found.len() as int) =~= found);
                    },
                    Some((far, end)) => {
                        lemma_digits_end(src, k + 2);
                        let more = found.push(spanned(near, far));
                        lemma_found_stays(src, end, more);
                        assert(all.take(found.len() as int) =~= all.take(more.len() as int).take(
                            found.len() as int,
                        ));
                        assert(more.take(found.len() as int) =~= found);
                    },
                },
            }
        }
    }
}

proof fn lemma_no_letters(src: Seq<u8>, i: int, j: int, found: Seq<Rect>)
    requires
        0 <= i <= j <= src.len(),
        found.len() < HIGHLIGHTS,
        forall|k: int| i <= k < j ==> !is_alpha(#[trigger] src[k]),
    ensures
        scanned(src, i, found) == scanned(src, j, found),
    decreases j - i,
{
    if i < j {
        assert(!is_alpha(src[i]));
        lemma_no_letters(src, i + 1, j, found);
    }
}

/// A byte that neither goes on with a cell's name nor makes it a range.
pub open spec fn ends_name(rest: Seq<u8>) -> bool {
    rest.len() == 0 || (!is_digit(rest[0]) && rest[0] != COLON)
}

/// A cell named in what is typed, with no letter before it, is the first to
/// light up.
pub proof fn law_reference_lights_up(before: Seq<u8>, col: int, row: int, rest: Seq<u8>)
    requires
        on_grid(col, row),
        forall|k: int| 0 <= k < before.len() ==> !is_alpha(#[trigger] before[k]),
        ends_name(rest),
    ensures
        ({
            let lit = scanned(before + cell_name(col, row) + rest, 0, Seq::empty());
            &&& lit.len() > 0
            &&& lit[0] == one_cell(col, row)
            &&& (forall|k: int| 0 <= k < rest.len() ==> !is_alpha(#[trigger] rest[k])) ==> lit
                == seq![one_cell(col, row)]
        }),
{
    let src = before + cell_name(col, row) + rest;
    let none = Seq::<Rect>::empty();
    let i = before.len() as int;
    let k = i + cell_name(col, row).len();
    assert forall|m: int| 0 <= m < i implies !is_alpha(#[trigger] src[m]) by {
        assert(src[m] == before[m]);
    }
    lemma_no_letters(src, 0, i, none);
    assert(src.subrange(i, k) =~= cell_name(col, row));
    if rest.len() > 0 {
        assert(src[k] == rest[0]);
    }
    lemma_name_found(src, i, col, row);
    assert(far_corner(src, k) is None);
    let cell = (col as u8, row as u8);
    let one = none.push(spanned(cell, cell));
    assert(scanned(src, i, none) == scanned(src, k, one));
    lemma_found_stays(src, k, one);
    let all = scanned(src, k, one);
    assert(all[0] == all.take(1)[0]);
    if forall|m: int| 0 <= m < rest.len() ==> !is_alpha(#[trigger] rest[m]) {
        assert forall|m: int| k <= m < src.len() implies !is_alpha(#[trigger] src[m]) by {
            assert(src[m] == rest[m - k]);
        }
        lemma_no_letters(src, k, src.len() as int, one);
        assert(one =~= seq![one_cell(col, row)]);
    }
}

/// A range named in what is typed, with no letter before it, lights up as one
/// rectangle with its corners in order.
pub proof fn law_range_lights_up(
    before: Seq<u8>,
    ca: int,
    ra: int,
    cb: int,
    rb: int,
    rest: Seq<u8>,
)
    requires
        on_grid(ca, ra),
        on_grid(cb, rb),
        forall|k: int| 0 <= k < before.len() ==> !is_alpha(#[trigger] before[k]),
        rest.len() == 0 || !is_digit(rest[0]),
    ensures
        ({
            let lit = scanned(before + range_name(ca, ra, cb, rb) + rest, 0, Seq::empty());
            &&& lit.len() > 0
            &&& forall|col: int, row: int| #[trigger]
                covers(lit[0], col, row) <==> crate::ranges::spans(ca, ra, cb, rb, col, row)
        }),
{
    let near = cell_name(ca, ra);
    let far = cell_name(cb, rb);
    let src = before + range_name(ca, ra, cb, rb) + rest;
    let none = Seq::<Rect>::empty();
    let i = before.len() as int;
    let k = i + near.len();
    let end = k + 1 + far.len();
    assert forall|m: int| 0 <= m < i implies !is_alpha(#[trigger] src[m]) by {
        assert(src[m] == before[m]);
    }
    lemma_no_letters(src, 0, i, none);
    assert(src.subrange(i, k) =~= near);
    assert(src[k] == COLON);
    lemma_name_found(src, i, ca, ra);
    assert(src.subrange(k + 1, end) =~= far);
    if rest.len() > 0 {
        assert(src[end] == rest[0]);
    }
    lemma_name_found(src, k + 1, cb, rb);
    let a = (ca as u8, ra as u8);
    let b = (cb as u8, rb as u8);
    assert(far_corner(src, k) == Some((b, end)));
    let one = none.push(spanned(a, b));
    assert(scanned(src, i, none) == scanned(src, end, one));
    lemma_found_stays(src, end, one);
    let all = scanned(src, end, one);
    assert(all[0] == all.take(1)[0]);
    assert(all[0] == spanned(a, b));
}

/// The name of a function lights up nothing: what follows it does.
pub proof fn law_function_name_stays_dark(word: Seq<u8>, rest: Seq<u8>, found: Seq<Rect>)
    requires
        word.len() > 1,
        forall|k: int| 0 <= k < word.len() ==> is_alpha(#[trigger] word[k]),
        found.len() < HIGHLIGHTS,
    ensures
        scanned(word + seq![LPAREN] + rest, 0, found) == scanned(
            word + seq![LPAREN] + rest,
            word.len() as int + 1,
            found,
        ),
{
    let src = word + seq![LPAREN] + rest;
    let w = word.len() as int;
    assert forall|k: int| 0 <= k < w implies is_alpha(#[trigger] src[k]) by {
        assert(src[k] == word[k]);
    }
    assert(src[w] == LPAREN);
    crate::repoint::lemma_alphas_from(src, 0, w);
    assert(alphas_end(src, w) == w);
    assert(is_alpha(src[0]));
    assert(scanned(src, 0, found) == scanned(src, w, found));
}

/// Two cells named with one byte between them both light up, the first first.
pub proof fn law_two_references_light_up(
    before: Seq<u8>,
    c0: int,
    r0: int,
    between: u8,
    c1: int,
    r1: int,
)
    requires
        on_grid(c0, r0),
        on_grid(c1, r1),
        forall|k: int| 0 <= k < before.len() ==> !is_alpha(#[trigger] before[k]),
        !is_alpha(between) && !is_digit(between) && between != COLON,
    ensures
        scanned(
            before + cell_name(c0, r0) + seq![between] + cell_name(c1, r1),
            0,
            Seq::empty(),
        ) == seq![one_cell(c0, r0), one_cell(c1, r1)],
{
    let near = cell_name(c0, r0);
    let far = cell_name(c1, r1);
    let src = before + near + seq![between] + far;
    let none = Seq::<Rect>::empty();
    let i = before.len() as int;
    let k = i + near.len();
    let end = k + 1 + far.len();
    assert forall|m: int| 0 <= m < i implies !is_alpha(#[trigger] src[m]) by {
        assert(src[m] == before[m]);
    }
    lemma_no_letters(src, 0, i, none);
    assert(src.subrange(i, k) =~= near);
    assert(src[k] == between);
    lemma_name_found(src, i, c0, r0);
    assert(far_corner(src, k) is None);
    assert(src.subrange(k + 1, end) =~= far);
    lemma_name_found(src, k + 1, c1, r1);
    let a = (c0 as u8, r0 as u8);
    let b = (c1 as u8, r1 as u8);
    let one = none.push(spanned(a, a));
    let two = one.push(spanned(b, b));
    assert(scanned(src, i, none) == scanned(src, k, one));
    lemma_no_letters(src, k, k + 1, one);
    assert(far_corner(src, end) is None);
    assert(scanned(src, k + 1, one) == scanned(src, end, two));
    assert(two =~= seq![one_cell(c0, r0), one_cell(c1, r1)]);
}

/// A cell has the colour of the first rectangle that it lies in, and none if it
/// lies in none.
pub proof fn law_first_rectangle_colours(rects: Seq<Rect>, i: int, col: int, row: int)
    requires
        0 <= i <= rects.len(),
    ensures
        match tint_from(rects, i, col, row) {
            Some(c) => exists|k: int|
                {
                    &&& i <= k < rects.len()
                    &&& #[trigger] covers(rects[k], col, row)
                    &&& c == slice_color_of(k)
                    &&& forall|j: int| i <= j < k ==> !#[trigger] covers(rects[j], col, row)
                },
            None => forall|k: int| i <= k < rects.len() ==> !#[trigger] covers(rects[k], col, row),
        },
    decreases rects.len() - i,
{
    if i < rects.len() {
        if covers(rects[i], col, row) {
        } else {
            law_first_rectangle_colours(rects, i + 1, col, row);
            if tint_from(rects, i + 1, col, row) is Some {
                let c = tint_from(rects, i + 1, col, row)->Some_0;
                let k = choose|k: int|
                    {
                        &&& i + 1 <= k < rects.len()
                        &&& #[trigger] covers(rects[k], col, row)
                        &&& c == slice_color_of(k)
                        &&& forall|j: int|
                            i + 1 <= j < k ==> !#[trigger] covers(rects[j], col, row)
                    };
                assert(covers(rects[k], col, row));
            }
        }
    }
}

// ---------------------------------------------------------------------------
// Colours
// ---------------------------------------------------------------------------

/// A blended channel has gone its part of the way, cut off to whole steps.
pub proof fn law_blend_in_proportion(x: u8, y: u8, num: int, den: int)
    requires
        0 <= num <= den,
        den >= 1,
    ensures
        ({
            let way = if y >= x {
                y - x
            } else {
                x - y
            };
            let gone = if y >= x {
                blended(x, y, num, den) - x
            } else {
                x - blended(x, y, num, den)
            };
            gone * den <= way * num < (gone + 1) * den
        }),
{
    let a = (y - x) * num;
    law_toward_zero(a, den);
    assert(y >= x ==> a >= 0) by (nonlinear_arith)
        requires
            a == (y - x) * num,
            num >= 0,
    ;
    assert(y < x ==> a <= 0 && (x - y) * num == -a) by (nonlinear_arith)
        requires
            a == (y - x) * num,
            num >= 0,
    ;
}

/// The colours of slices differ within eight, and start over after the eighth.
pub proof fn law_slice_colours_differ(i: int, j: int)
    requires
        0 <= i < j,
    ensures
        slice_color_of(i + 8) == slice_color_of(i),
        j < i + 8 ==> slice_color_of(i) != slice_color_of(j),
{
    assert((i + 8) % 8 == i % 8);
}

/// A text's tint is half of its colour.
pub proof fn law_ink_is_half(c: Rgb)
    ensures
        2 * inked(c).0 <= c.0 <= 2 * inked(c).0 + 1,
        2 * inked(c).1 <= c.1 <= 2 * inked(c).1 + 1,
        2 * inked(c).2 <= c.2 <= 2 * inked(c).2 + 1,
{
}

// ---------------------------------------------------------------------------
// Small and capital letters
// ---------------------------------------------------------------------------

proof fn lemma_case_ends(s: Seq<u8>, p: int)
    requires
        0 <= p <= s.len(),
    ensures
        alphas_end(upper_all(s), p) == alphas_end(s, p),
        digits_end(upper_all(s), p) == digits_end(s, p),
    decreases s.len() - p,
{
    if p < s.len() {
        assert(upper_all(s)[p] == upper(s[p]));
        lemma_case_ends(s, p + 1);
    }
}

proof fn lemma_case_named(s: Seq<u8>, letter: int, p: int)
    requires
        0 <= letter < s.len(),
        0 <= p <= s.len(),
    ensures
        named_cell(upper_all(s), letter, p) == named_cell(s, letter, p),
{
    let u = upper_all(s);
    let end = digits_end(s, p);
    lemma_case_ends(s, p);
    lemma_digits_end(s, p);
    assert(upper(u[letter]) == upper(s[letter]));
    assert forall|m: int| 0 <= m < end - p implies #[trigger] u[p + m] == s[p + m] by {
        assert(is_digit(s[p + m]));
    }
    lemma_digits_value_same(u, p, end, s, p);
}

proof fn lemma_case_corner(s: Seq<u8>, i: int)
    requires
        0 <= i <= s.len(),
    ensures
        far_corner(upper_all(s), i) == far_corner(s, i),
{
    if i + 1 < s.len() {
        assert(upper_all(s)[i] == upper(s[i]));
        assert(upper_all(s)[i + 1] == upper(s[i + 1]));
        lemma_case_named(s, i + 1, i + 2);
        lemma_case_ends(s, i + 2);
    }
}

/// Small letters name cells as capitals do.
pub proof fn law_highlights_ignore_case(s: Seq<u8>, i: int, found: Seq<Rect>)
    requires
        0 <= i <= s.len(),
    ensures
        scanned(upper_all(s), i, found) == scanned(s, i, found),
    decreases s.len() - i,
{
    let u = upper_all(s);
    if i < s.len() && found.len() < HIGHLIGHTS {
        assert(u[i] == upper(s[i]));
        if !is_alpha(s[i]) {
            law_highlights_ignore_case(s, i + 1, found);
        } else {
            let j = alphas_end(s, i);
            lemma_case_ends(s, i);
            lemma_alphas_end(s, i);
            lemma_alphas_end(s, i + 1);
            assert(j > i);
            if j != i + 1 {
                law_highlights_ignore_case(s, j, found);
            } else {
                let k = digits_end(s, j);
                lemma_case_ends(s, j);
                lemma_digits_end(s, j);
                lemma_case_named(s, i, j);
                lemma_case_corner(s, k);
                match named_cell(s, i, j) {
                    None => {
                        law_highlights_ignore_case(s, k, found);
                    },
                    Some(near) => match far_corner(s, k) {
                        None => {
                            law_highlights_ignore_case(s, k, found.push(spanned(near, near)));
                        },
                        Some((far, end)) => {
                            lemma_digits_end(s, k + 2);
                            law_highlights_ignore_case(s, end, found.push(spanned(near, far)));
                        },
                    },
                }
            }
        }
    }
}

/// No more than four rectangles light up.
pub proof fn law_four_light_up_at_most(s: Seq<u8>, i: int, found: Seq<Rect>)
    requires
        0 <= i <= s.len(),
        found.len() <= 4,
    ensures
        scanned(s, i, found).len() <= 4,
    decreases s.len() - i,
{
    if i < s.len() && found.len() < HIGHLIGHTS {
        if !is_alpha(s[i]) {
            law_four_light_up_at_most(s, i + 1, found);
        } else {
            let j = alphas_end(s, i);
            lemma_alphas_end(s, i);
            lemma_alphas_end(s, i + 1);
            assert(j > i);
            if j != i + 1 {
                law_four_light_up_at_most(s, j, found);
            } else {
                let k = digits_end(s, j);
                lemma_digits_end(s, j);
                match named_cell(s, i, j) {
                    None => {
                        law_four_light_up_at_most(s, k, found);
                    },
                    Some(near) => match far_corner(s, k) {
                        None => {
                            law_four_light_up_at_most(s, k, found.push(spanned(near, near)));
                        },
                        Some((far, end)) => {
                            lemma_digits_end(s, k + 2);
                            law_four_light_up_at_most(s, end, found.push(spanned(near, far)));
                        },
                    },
                }
            }
        }
    }
}

} // verus!
