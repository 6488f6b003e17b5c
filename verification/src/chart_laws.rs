//! Laws of the charts: what is drawn is in proportion to what is plotted.

use vstd::prelude::*;

use crate::canvas::{circle_point, Mark};
use crate::chart::{
    areas, axes, bar, bars, chart_points, extent, highest, law_pie_is_whole, law_plot_stays_inside,
    lemma_part_of_height, lowest, magnitudes, markers, part_of_height, plot_y, point_step, point_x,
    scaled, segments, series, slice_end, slices, tick, tick_value, ticks, wedges, Extent,
    MAX_POINTS, PIE_TOP, SPAN_MAX,
};
use crate::decimal::dec;
use crate::editor::Desk;
use crate::fixed::{magnitude, saturated};
use crate::grid::Kind;
use crate::labels::{range_name, utf8};
use crate::modes::{kind_label, ChartKind};
use crate::number::{fitted_text, lemma_fitted_text_short};
use crate::refs::truncated;
use crate::screen_laws::{is_fill, is_text, law_toward_zero, lemma_text_joined, shows_text};
use crate::theme::{slice_color_of, Rgb, Theme};

verus! {

/// How far a value is from zero.
pub open spec fn size_of(x: i64) -> int {
    if x < 0 {
        -x
    } else {
        x as int
    }
}

/// The sizes of all values together.
pub open spec fn sizes(v: Seq<i64>) -> int {
    v.fold_left(0int, |sum: int, x: i64| sum + size_of(x))
}

proof fn lemma_sizes(v: Seq<i64>)
    ensures
        sizes(v) == magnitudes(v),
        sizes(v) >= 0,
    decreases v.len(),
{
    reveal_with_fuel(Seq::fold_left, 2);
    if v.len() > 0 {
        lemma_sizes(v.drop_last());
    }
}

proof fn lemma_sizes_split(v: Seq<i64>, i: int)
    requires
        0 <= i < v.len(),
    ensures
        magnitudes(v.take(i + 1)) == magnitudes(v.take(i)) + size_of(v[i]),
        magnitudes(v.take(i + 1)) <= magnitudes(v),
    decreases v.len() - i,
{
    assert(v.take(i + 1).drop_last() =~= v.take(i));
    assert(v.take(i + 1).last() == v[i]);
    if i + 1 < v.len() {
        lemma_sizes_split(v, i + 1);
        lemma_sizes(seq![v[i + 1]]);
    } else {
        assert(v.take(i + 1) =~= v);
    }
}

/// A slice but the last is cut off at its share, and no slice so far has gone
/// beyond what the values so far take of the circle.
proof fn lemma_slice(v: Seq<i64>, i: int)
    requires
        magnitudes(v) > 0,
        0 <= i < v.len() - 1,
    ensures
        slice_end(v, i) - slice_end(v, i - 1) == size_of(v[i]) * 4096 / magnitudes(v),
        slice_end(v, i) * magnitudes(v) <= 4096 * magnitudes(v.take(i + 1)),
    decreases i,
{
    let t = magnitudes(v);
    let m = size_of(v[i]);
    let before = slice_end(v, i - 1);
    if i > 0 {
        lemma_slice(v, i - 1);
    } else {
        assert(v.take(0) =~= seq![]);
        assert(before * t == 0) by (nonlinear_arith)
            requires
                before == 0,
        ;
    }
    lemma_sizes_split(v, i);
    let w = m * 4096 / t;
    assert(w * t <= m * 4096) by (nonlinear_arith)
        requires
            w == m * 4096 / t,
            t > 0,
    ;
    assert((before + w) * t == before * t + w * t) by (nonlinear_arith);
    let part = magnitudes(v.take(i + 1));
    assert(before + w <= 4096) by (nonlinear_arith)
        requires
            (before + w) * t <= 4096 * part,
            part <= t,
            t > 0,
    ;
}

/// Each slice of a pie but the last takes as much of the circle, in whole parts
/// of 4096, as its value takes of all values together; the last takes at least
/// that much.
pub proof fn law_slice_is_share(v: Seq<i64>, i: int)
    requires
        sizes(v) > 0,
        0 <= i < v.len(),
    ensures
        ({
            let w = slice_end(v, i) - slice_end(v, i - 1);
            &&& i < v.len() - 1 ==> w * sizes(v) <= size_of(v[i]) * 4096 < (w + 1) * sizes(v)
            &&& i == v.len() - 1 ==> size_of(v[i]) * 4096 <= w * sizes(v)
        }),
{
    lemma_sizes(v);
    let t = magnitudes(v);
    let m = size_of(v[i]);
    let w = slice_end(v, i) - slice_end(v, i - 1);
    if i < v.len() - 1 {
        lemma_slice(v, i);
        assert(w * t <= m * 4096 < (w + 1) * t) by (nonlinear_arith)
            requires
                w == m * 4096 / t,
                t > 0,
        ;
    } else {
        lemma_sizes_split(v, i);
        assert(v.take(i + 1) =~= v);
        let before = slice_end(v, i - 1);
        if i > 0 {
            lemma_slice(v, i - 1);
            assert(v.take(i - 1 + 1) =~= v.take(i));
        } else {
            assert(v.take(0) =~= seq![]);
            assert(before * t == 0) by (nonlinear_arith)
                requires
                    before == 0,
            ;
        }
        assert((4096 - before) * t == 4096 * t - before * t) by (nonlinear_arith);
    }
}

/// A wedge of the pie, from one angle to another, in a colour.
pub open spec fn is_wedge(m: Mark, a: int, b: int, c: Rgb) -> bool {
    m matches Mark::Wedge { cx, cy, r, a: from, b: to, c: colour } && cx == 104 && cy == 118 && r
        == 74 && from == a && to == b && colour == c
}

/// Marks that cover the angles from `a` to `end` without a gap: `turns` says
/// where each of them starts.
pub open spec fn covers(marks: Seq<Mark>, turns: Seq<int>, a: int, end: int, c: Rgb) -> bool {
    &&& turns.len() == marks.len() + 1
    &&& turns[0] == a
    &&& turns[marks.len() as int] == end
    &&& forall|k: int|
        0 <= k < marks.len() ==> is_wedge(#[trigger] marks[k], turns[k], turns[k + 1], c)
            && turns[k] < turns[k + 1] <= turns[k] + 64
}

proof fn lemma_wedges(a: int, end: int, c: Rgb) -> (turns: Seq<int>)
    requires
        0 <= a <= end <= u32::MAX,
    ensures
        covers(wedges(a, end, c), turns, a, end, c),
    decreases end - a,
{
    if a >= end {
        let turns = seq![a];
        assert(wedges(a, end, c).len() == 0);
        assert(covers(wedges(a, end, c), turns, a, end, c));
        turns
    } else {
        let b = if a + 64 <= end {
            a + 64
        } else {
            end
        };
        let rest = wedges(b, end, c);
        let later = lemma_wedges(b, end, c);
        let turns = seq![a] + later;
        let marks = wedges(a, end, c);
        assert(marks.len() == rest.len() + 1);
        assert(marks[0] == Mark::Wedge { cx: 104, cy: 118, r: 74, a: a as u32, b: b as u32, c });
        assert forall|k: int| 0 <= k < marks.len() implies is_wedge(
            #[trigger] marks[k],
            turns[k],
            turns[k + 1],
            c,
        ) && turns[k] < turns[k + 1] <= turns[k] + 64 by {
            if k > 0 {
                assert(marks[k] == rest[k - 1]);
                assert(turns[k] == later[k - 1]);
                assert(turns[k + 1] == later[k]);
            } else {
                assert(turns[1] == later[0]);
            }
        }
        assert(turns[marks.len() as int] == later[rest.len() as int]);
        assert(turns.len() == marks.len() + 1);
        assert(turns[0] == a);
        assert(covers(marks, turns, a, end, c));
        turns
    }
}

/// The pie is drawn slice after slice: each covers, without a gap and in the
/// colour of its own, the angles from where the one before it ended.
pub proof fn law_pie_draws_slices(v: Seq<i64>, i: int) -> (turns: Seq<int>)
    requires
        sizes(v) > 0,
        0 <= i < v.len(),
    ensures
        slices(v, 0).len() == 0,
        slices(v, i).len() <= slices(v, i + 1).len(),
        slices(v, i + 1).take(slices(v, i).len() as int) == slices(v, i),
        covers(
            slices(v, i + 1).skip(slices(v, i).len() as int),
            turns,
            3072 + slice_end(v, i - 1),
            3072 + slice_end(v, i),
            slice_color_of(i),
        ),
{
    lemma_sizes(v);
    law_pie_is_whole(v, i);
    let a = PIE_TOP + slice_end(v, i - 1);
    let end = PIE_TOP + slice_end(v, i);
    let turns = lemma_wedges(a, end, slice_color_of(i));
    let before = slices(v, i);
    let added = wedges(a, end, slice_color_of(i));
    assert(slices(v, i + 1) == before + added);
    assert((before + added).take(before.len() as int) =~= before);
    assert((before + added).skip(before.len() as int) =~= added);
    turns
}

// ---------------------------------------------------------------------------
// Heights
// ---------------------------------------------------------------------------

/// A value's height above the bottom of the plot is to the height of the plot
/// as the value's distance from the least is to the whole range, cut off to
/// whole pixels.
pub proof fn law_height_in_proportion(e: Extent, v: int)
    requires
        e.lo < e.hi,
        e.lo <= v <= e.hi,
        e.hi - e.lo <= SPAN_MAX,
    ensures
        ({
            let h = 188 - plot_y(e, v);
            let span = e.hi - e.lo;
            h * span <= (v - e.lo) * 160 < (h + 1) * span
        }),
{
    let span = e.hi - e.lo;
    let d = v - e.lo;
    let h = 188 - plot_y(e, v);
    assert(saturated(d) == d);
    assert(saturated(span) == span);
    if d > 0 {
        let q = d * 160 / span;
        assert(q * span <= d * 160 < (q + 1) * span && 0 <= q <= 160) by (nonlinear_arith)
            requires
                q == d * 160 / span,
                span > 0,
                0 <= d <= span,
        ;
        assert(h == q);
    } else {
        assert(h == 0);
        assert((h + 1) * span == span) by (nonlinear_arith)
            requires
                h == 0,
        ;
        assert(h * span == 0) by (nonlinear_arith)
            requires
                h == 0,
        ;
    }
}

proof fn lemma_part_grows(d1: int, d2: int, s: int, h: int)
    requires
        0 <= d1 <= d2,
        0 < s,
        0 <= h,
    ensures
        part_of_height(d1, s, h) <= part_of_height(d2, s, h),
    decreases s,
{
    if s > SPAN_MAX {
        lemma_part_grows(d1 / 2, d2 / 2, s / 2, h);
    } else {
        assert(d1 * h / s <= d2 * h / s) by (nonlinear_arith)
            requires
                0 <= d1 <= d2,
                0 < s,
                0 <= h,
        ;
    }
}

/// A greater value is never drawn lower.
pub proof fn law_greater_is_not_lower(e: Extent, v: int, w: int)
    requires
        e.lo < e.hi,
        v <= w,
    ensures
        plot_y(e, w) <= plot_y(e, v),
{
    let span = saturated(e.hi - e.lo) as int;
    let d1 = saturated(v - e.lo) as int;
    let d2 = saturated(w - e.lo) as int;
    if d1 > 0 {
        lemma_part_grows(d1, d2, span, 160);
    } else if d2 > 0 {
        lemma_part_of_height(d2, span, 160);
    }
}

/// A span too large to be worked out as it is gives the height that half of
/// the offset has in half of the span.
pub proof fn law_large_span_is_halved(d: int, s: int, h: int)
    requires
        s > SPAN_MAX,
        d > 1,
    ensures
        scaled(d, s, h) == scaled(d / 2, s / 2, h),
{
}

/// The range of the values reaches no farther than zero and the values, but
/// for the one step that keeps it from being empty.
pub proof fn law_extent_is_tight(v: Seq<i64>)
    ensures
        extent(v).lo == 0 || exists|i: int| 0 <= i < v.len() && extent(v).lo == #[trigger] v[i],
        extent(v).hi == 0 || (exists|i: int| 0 <= i < v.len() && extent(v).hi == #[trigger] v[i])
            || (extent(v).hi == 1 && forall|i: int| 0 <= i < v.len() ==> #[trigger] v[i] == 0),
{
    lemma_extremes(v);
    crate::chart::law_extent_holds_all(v);
}

proof fn lemma_extremes(v: Seq<i64>)
    ensures
        lowest(v) == 0 || exists|i: int| 0 <= i < v.len() && lowest(v) == #[trigger] v[i],
        highest(v) == 0 || exists|i: int| 0 <= i < v.len() && highest(v) == #[trigger] v[i],
        lowest(v) <= 0 <= highest(v),
        forall|i: int| 0 <= i < v.len() ==> lowest(v) <= #[trigger] v[i] <= highest(v),
    decreases v.len(),
{
    if v.len() > 0 {
        let less = v.drop_last();
        let n = v.len() as int;
        lemma_extremes(less);
        assert(v.last() == v[n - 1]);
        assert forall|i: int| 0 <= i < n implies lowest(v) <= #[trigger] v[i] <= highest(v) by {
            if i < n - 1 {
                assert(less[i] == v[i]);
            }
        }
        if lowest(v) != 0 && lowest(v) != v[n - 1] {
            let i = choose|i: int| 0 <= i < less.len() && lowest(less) == #[trigger] less[i];
            assert(v[i] == less[i]);
        }
        if highest(v) != 0 && highest(v) != v[n - 1] {
            let i = choose|i: int| 0 <= i < less.len() && highest(less) == #[trigger] less[i];
            assert(v[i] == less[i]);
        }
    }
}

/// The marks beside the axis stand at quarters of the range, from its low end
/// to its high end.
pub proof fn law_ticks_quarter_the_range(e: Extent, i: int)
    requires
        e.lo < e.hi,
        0 <= i <= 4,
    ensures
        tick_value(e, 0) == e.lo,
        tick_value(e, 4) == e.hi,
        4 * (tick_value(e, i) - e.lo) <= (e.hi - e.lo) * i < 4 * (tick_value(e, i) - e.lo) + 4,
{
    let d = e.hi - e.lo;
    assert(d * 0 / 4 == 0 && d * 4 / 4 == d);
}

// ---------------------------------------------------------------------------
// Places along the axis
// ---------------------------------------------------------------------------

/// As many steps as there are points fit the axis, and one pixel more to each
/// would not.
pub proof fn law_steps_fill_axis(n: int)
    requires
        0 < n <= MAX_POINTS,
    ensures
        1 <= point_step(n),
        n * point_step(n) <= 262 < n * (point_step(n) + 1),
{
    let q = 262int / n;
    assert(n * q <= 262 < n * (q + 1)) by (nonlinear_arith)
        requires
            q == 262int / n,
            n > 0,
    ;
    assert(q >= 1) by (nonlinear_arith)
        requires
            262 < n * (q + 1),
            0 < n <= 64,
    ;
}

/// A bar reaches from the zero line to its value, and is a pixel high where
/// these fall together; it starts in the step of its point and ends before the
/// next one.
pub proof fn law_bar_reaches_value(t: Theme, e: Extent, v: Seq<i64>, i: int)
    requires
        e.lo < e.hi,
        0 <= i < v.len() <= MAX_POINTS,
    ensures
        ({
            let step = point_step(v.len() as int);
            let y0 = plot_y(e, 0);
            let yv = plot_y(e, v[i] as int);
            let marks = bar(t, e, v, step, i);
            &&& marks.len() > 0
            &&& marks[0] matches Mark::Fill { x, y, w, h, c } && {
                &&& c == t.accent
                &&& y <= y0 && y <= yv
                &&& y == y0 || y == yv
                &&& y0 != yv ==> (y + h == y0 || y + h == yv) && h > 0
                &&& y0 == yv ==> h == 1
                &&& x == 45 + i * step
                &&& 1 <= w
                &&& x + w <= 45 + (i + 1) * step
            }
        }),
{
    let n = v.len() as int;
    let step = point_step(n);
    law_steps_fill_axis(n);
    law_plot_stays_inside(e, 0);
    law_plot_stays_inside(e, v[i] as int);
    assert(0 <= i * step && (i + 1) * step == i * step + step && (i + 1) * step <= n * step)
        by (nonlinear_arith)
        requires
            0 <= i < n,
            1 <= step,
    ;
}

/// Points stand in the middle of their steps, one step apart.
pub proof fn law_points_one_step_apart(step: int, i: int)
    requires
        0 <= i,
        1 <= step,
    ensures
        point_x(step, i + 1) - point_x(step, i) == step,
        44 + i * step <= point_x(step, i) < 44 + (i + 1) * step,
        step - 1 <= 2 * (point_x(step, i) - (44 + i * step)) <= step,
{
    assert((i + 1) * step == i * step + step) by (nonlinear_arith);
}

// ---------------------------------------------------------------------------
// What is plotted
// ---------------------------------------------------------------------------

/// Whether a chart has a point for a result: it is a number, and for a pie not
/// zero.
pub open spec fn plots(result: (i64, Kind), pie: bool) -> bool {
    result.1 == Kind::Num && (pie ==> result.0 != 0)
}

/// The points are found at `places` among the cells.
pub open spec fn found_at(points: Seq<int>, cells: Seq<int>, places: Seq<int>) -> bool {
    &&& places.len() == points.len()
    &&& forall|k: int|
        0 <= k < places.len() ==> 0 <= #[trigger] places[k] < cells.len() && cells[places[k]]
            == points[k]
    &&& forall|j: int, k: int|
        0 <= j < k < places.len() ==> #[trigger] places[j] < #[trigger] places[k]
}

/// A chart's points are cells of its range that hold numbers, in the order of
/// the range. None is left out before the last point, and none at all unless
/// there are sixty-four.
pub proof fn law_points_are_the_numbers(
    cells: Seq<int>,
    results: Seq<(i64, Kind)>,
    pie: bool,
) -> (places: Seq<int>)
    ensures
        ({
            let points = chart_points(cells, results, pie);
            &&& points.len() <= 64
            &&& found_at(points, cells, places)
            &&& forall|k: int|
                0 <= k < points.len() ==> plots(results[#[trigger] points[k]], pie)
            &&& forall|j: int|
                0 <= j < cells.len() && plots(results[#[trigger] cells[j]], pie) ==> (
                places.contains(j) || (points.len() == 64 && places[63] < j))
        }),
    decreases cells.len(),
{
    if cells.len() == 0 {
        seq![]
    } else {
        let less = cells.drop_last();
        let n = cells.len() as int;
        let before = chart_points(less, results, pie);
        let earlier = law_points_are_the_numbers(less, results, pie);
        let points = chart_points(cells, results, pie);
        assert(forall|j: int| 0 <= j < n - 1 ==> #[trigger] less[j] == cells[j]);
        if before.len() < MAX_POINTS && plots(results[cells[n - 1]], pie) {
            let places = earlier.push(n - 1);
            assert(points == before.push(cells[n - 1]));
            assert forall|j: int|
                0 <= j < n && plots(results[#[trigger] cells[j]], pie) implies places.contains(j)
                || (points.len() == 64 && places[63] < j) by {
                if j < n - 1 {
                    assert(less[j] == cells[j]);
                    assert(earlier.contains(j));
                    let k = choose|k: int| 0 <= k < earlier.len() && earlier[k] == j;
                    assert(places[k] == j);
                } else {
                    assert(places[places.len() - 1] == j);
                }
            }
            assert forall|k: int| 0 <= k < points.len() implies plots(
                results[#[trigger] points[k]],
                pie,
            ) by {
                if k < before.len() {
                    assert(points[k] == before[k]);
                }
            }
            places
        } else {
            assert(points == before);
            assert forall|j: int|
                0 <= j < n && plots(results[#[trigger] cells[j]], pie) implies earlier.contains(j)
                || (points.len() == 64 && earlier[63] < j) by {
                if j < n - 1 {
                    assert(less[j] == cells[j]);
                } else {
                    assert(0 <= earlier[63] < less.len());
                }
            }
            earlier
        }
    }
}

// ---------------------------------------------------------------------------
// Lines, areas and labels
// ---------------------------------------------------------------------------

/// The points of a chart with `n` values lie on the screen.
proof fn lemma_point_on_screen(n: int, k: int)
    requires
        0 < n <= MAX_POINTS,
        0 <= k < n,
    ensures
        44 <= point_x(point_step(n), k) < 306,
{
    law_steps_fill_axis(n);
    let step = point_step(n);
    law_points_one_step_apart(step, k);
    assert((k + 1) * step <= n * step && 0 <= k * step) by (nonlinear_arith)
        requires
            0 <= k < n,
            1 <= step,
    ;
}

/// A line chart joins each point to the next one: as many lines as there are
/// steps between points, each from the place of one value to that of the next.
pub proof fn law_line_joins_points(t: Theme, e: Extent, v: Seq<i64>, n: int, k: int)
    requires
        e.lo < e.hi,
        0 <= k < n < v.len() <= MAX_POINTS,
    ensures
        ({
            let step = point_step(v.len() as int);
            let lines = segments(t, e, v, step, n);
            &&& lines.len() == n
            &&& lines[k] matches Mark::Line { x0, y0, x1, y1, c } && {
                &&& x0 == point_x(step, k) && y0 == plot_y(e, v[k] as int)
                &&& x1 == point_x(step, k + 1) && y1 == plot_y(e, v[k + 1] as int)
                &&& c == t.accent
            }
        }),
    decreases n,
{
    let step = point_step(v.len() as int);
    lemma_segments_len(t, e, v, step, n);
    lemma_segments_len(t, e, v, step, n - 1);
    if k < n - 1 {
        law_line_joins_points(t, e, v, n - 1, k);
    } else {
        lemma_point_on_screen(v.len() as int, k);
        lemma_point_on_screen(v.len() as int, k + 1);
        law_plot_stays_inside(e, v[k] as int);
        law_plot_stays_inside(e, v[k + 1] as int);
    }
}

proof fn lemma_segments_len(t: Theme, e: Extent, v: Seq<i64>, step: int, n: int)
    requires
        0 <= n,
    ensures
        segments(t, e, v, step, n).len() == n,
        areas(t, e, v, step, n).len() == n,
        markers(t, e, v, step, n).len() == n,
    decreases n,
{
    if n > 0 {
        lemma_segments_len(t, e, v, step, n - 1);
    }
}

/// An area chart fills what lies between the line and zero.
pub proof fn law_area_reaches_zero(t: Theme, e: Extent, v: Seq<i64>, n: int, k: int)
    requires
        e.lo < e.hi,
        0 <= k < n < v.len() <= MAX_POINTS,
    ensures
        ({
            let step = point_step(v.len() as int);
            let parts = areas(t, e, v, step, n);
            &&& parts.len() == n
            &&& parts[k] matches Mark::Quad { xa, ya, xb, yb, y0, c } && {
                &&& xa == point_x(step, k) && ya == plot_y(e, v[k] as int)
                &&& xb == point_x(step, k + 1) && yb == plot_y(e, v[k + 1] as int)
                &&& y0 == plot_y(e, 0)
            }
        }),
    decreases n,
{
    let step = point_step(v.len() as int);
    lemma_segments_len(t, e, v, step, n);
    lemma_segments_len(t, e, v, step, n - 1);
    if k < n - 1 {
        law_area_reaches_zero(t, e, v, n - 1, k);
    } else {
        lemma_point_on_screen(v.len() as int, k);
        lemma_point_on_screen(v.len() as int, k + 1);
        law_plot_stays_inside(e, v[k] as int);
        law_plot_stays_inside(e, v[k + 1] as int);
        law_plot_stays_inside(e, 0);
    }
}

/// Every point of a line has a mark of three by three pixels with the point in
/// its middle.
pub proof fn law_points_are_marked(t: Theme, e: Extent, v: Seq<i64>, n: int, k: int)
    requires
        e.lo < e.hi,
        0 <= k < n <= v.len() <= MAX_POINTS,
    ensures
        ({
            let step = point_step(v.len() as int);
            let dots = markers(t, e, v, step, n);
            &&& dots.len() == n
            &&& dots[k] matches Mark::Fill { x, y, w, h, c } && {
                &&& w == 3 && h == 3
                &&& x + 1 == point_x(step, k)
                &&& y + 1 == plot_y(e, v[k] as int)
            }
        }),
    decreases n,
{
    let step = point_step(v.len() as int);
    lemma_segments_len(t, e, v, step, n);
    lemma_segments_len(t, e, v, step, n - 1);
    if k < n - 1 {
        law_points_are_marked(t, e, v, n - 1, k);
    } else {
        lemma_point_on_screen(v.len() as int, k);
        law_plot_stays_inside(e, v[k] as int);
    }
}

/// A mark beside the axis is the text of its value, which ends four pixels
/// before the axis, at the height of the value; all but the lowest have a line
/// across the plot there.
pub proof fn law_tick_stands_at_value(t: Theme, e: Extent, i: int)
    requires
        e.lo < e.hi,
        0 <= i <= 4,
    ensures
        ({
            let v = tick_value(e, i);
            let marks = tick(t, e, i);
            let s = fitted_text(v, 7);
            let last = marks[marks.len() - 1];
            &&& marks.len() == if i > 0 {
                2int
            } else {
                1
            }
            &&& last matches Mark::Text { x, y, s: text, scale, tint } && {
                &&& text == s
                &&& x + 5 * s.len() == 40
                &&& y + 4 == plot_y(e, v)
            }
            &&& i > 0 ==> (marks[0] matches Mark::Fill { x, y, w, h, c } && y == plot_y(e, v) && h
                == 1 && x == 45 && w == 261)
        }),
{
    let v = tick_value(e, i);
    law_ticks_quarter_the_range(e, i);
    law_plot_stays_inside(e, v);
    let d = e.hi - e.lo;
    assert(e.lo <= v <= e.hi) by {
        assert(d * i <= d * 4) by (nonlinear_arith)
            requires
                0 <= i <= 4,
                d > 0,
        ;
        assert(0 <= d * i) by (nonlinear_arith)
            requires
                0 <= i,
                d > 0,
        ;
    }
    lemma_fitted_text_short(v as i64, 7);
}

/// A point's label under the axis is the text left of the value's own cell, as
/// much of it as leaves one character free in the point's step, with its
/// middle under the point; a value with no text to its left has none.
pub proof fn law_category_is_text_beside(d: Desk, i: int)
    requires
        d.wf(),
        0 <= i < d.points(false).len() <= MAX_POINTS,
        0 <= d.points(false)[i] < 1300,
        point_step(d.points(false).len() as int) >= 20,
    ensures
        ({
            let n = d.points(false).len() as int;
            let p = d.points(false)[i];
            let step = point_step(n);
            let marks = d.category(step, i);
            let labelled = p % 26 > 0 && d.grid.results[p - 1].1 == Kind::Text;
            &&& !labelled ==> marks.len() == 0
            &&& labelled ==> marks.len() == 1 && (marks[0] matches Mark::Text {
                x,
                y,
                s,
                scale,
                tint,
            } && {
                &&& s.is_prefix_of(d.grid.texts[p - 1])
                &&& 5 * (s.len() + 1) <= step
                &&& s.len() == d.grid.texts[p - 1].len() || step < 5 * (s.len() + 2)
                &&& 2 * x + 5 * s.len() == 2 * point_x(step, i) || 2 * x + 5 * s.len() == 2
                    * point_x(step, i) + 1
            })
        }),
{
    let n = d.points(false).len() as int;
    let p = d.points(false)[i];
    let step = point_step(n);
    lemma_point_on_screen(n, i);
    law_steps_fill_axis(n);
    assert(step <= 262) by (nonlinear_arith)
        requires
            n * step <= 262,
            n >= 1,
            step >= 1,
    ;
    if p % 26 > 0 && d.grid.results[p - 1].1 == Kind::Text {
        let text = d.grid.texts[p - 1];
        let s = truncated(text, step / 5 - 1);
        assert(s.is_prefix_of(text));
        assert(text.len() <= 24);
    }
}

/// Each slice has its entry in the legend, one below the other: a square in
/// the slice's colour and, as far as it fits, the text left of the value's
/// cell, or the value where there is no text.
pub proof fn law_legend_names_slices(d: Desk, i: int)
    requires
        d.wf(),
        0 <= i < d.points(true).len(),
    ensures
        ({
            let marks = d.legend_entry(i);
            let p = d.points(true)[i];
            let labelled = p % 26 > 0 && d.grid.results[p - 1].1 == Kind::Text;
            let name = if labelled {
                d.grid.texts[p - 1]
            } else {
                fitted_text(d.grid.results[p].0 as int, 10)
            };
            &&& i <= 12 <==> marks.len() == 2
            &&& i > 12 <==> marks.len() == 0
            &&& i <= 12 ==> {
                &&& marks[0] matches Mark::Fill { x, y, w, h, c } && y == 26 + 14 * i && c
                    == slice_color_of(i) && x == 196 && w == 8 && h == 8
                &&& marks[1] matches Mark::Text { x, y, s, scale, tint } && y == 26 + 14 * i && x
                    == 208 && s == if name.len() <= 12 {
                    name
                } else {
                    name.take(12)
                }
            }
        }),
{
}

/// A pie's point on the circle: as far from the middle, each way, as the cosine
/// and the sine say, cut off toward it.
pub proof fn law_circle_point(cx: int, cy: int, r: int, cos: int, sin: int)
    requires
        0 <= r,
        -4096 <= cos <= 4096,
        -4096 <= sin <= 4096,
    ensures
        ({
            let p = circle_point(cx, cy, r, cos, sin);
            &&& magnitude(p.0 - cx) * 4096 <= magnitude(cos * r) < (magnitude(p.0 - cx) + 1) * 4096
            &&& magnitude(p.1 - cy) * 4096 <= magnitude(sin * r) < (magnitude(p.1 - cy) + 1) * 4096
            &&& p.0 != cx ==> (p.0 < cx <==> cos * r < 0)
            &&& p.1 != cy ==> (p.1 < cy <==> sin * r < 0)
        }),
{
    law_toward_zero(cos * r, 4096);
    law_toward_zero(sin * r, 4096);
}

// ---------------------------------------------------------------------------
// Kinds of charts
// ---------------------------------------------------------------------------

proof fn lemma_bars_upto(t: Theme, e: Extent, v: Seq<i64>, step: int, n: int, i: int)
    requires
        0 <= i < n,
    ensures
        bars(t, e, v, step, n).contains(bar(t, e, v, step, i)[0]),
        bars(t, e, v, step, n).len() >= n,
    decreases n,
{
    let before = bars(t, e, v, step, n - 1);
    let last = bar(t, e, v, step, n - 1);
    let all = before + last;
    assert(last.len() >= 1);
    if i < n - 1 {
        lemma_bars_upto(t, e, v, step, n - 1, i);
        let k = choose|k: int| 0 <= k < before.len() && before[k] == bar(t, e, v, step, i)[0];
        assert(all[k] == before[k]);
    } else {
        assert(all[before.len() as int] == last[0]);
    }
    if n > 1 {
        lemma_bars_upto(t, e, v, step, n - 1, 0);
    }
}

/// A bar chart has the bar of every value; a line chart a line from each point
/// to the next and a mark on each point; an area chart these, and an area under
/// each line before them.
pub proof fn law_kinds_of_chart(t: Theme, e: Extent, v: Seq<i64>, i: int)
    requires
        0 <= i < v.len(),
    ensures
        ({
            let n = v.len() as int;
            let step = point_step(n);
            let line = series(t, e, v, ChartKind::Line);
            let area = series(t, e, v, ChartKind::Area);
            &&& series(t, e, v, ChartKind::Bar).contains(bar(t, e, v, step, i)[0])
            &&& line.len() == 2 * n - 1
            &&& i < n - 1 ==> line[i] == segments(t, e, v, step, n - 1)[i]
            &&& line[n - 1 + i] == markers(t, e, v, step, n)[i]
            &&& area.len() == 3 * n - 2
            &&& i < n - 1 ==> area[i] == areas(t, e, v, step, n - 1)[i]
            &&& area.skip(n - 1) == line
        }),
{
    let n = v.len() as int;
    let step = point_step(n);
    lemma_bars_upto(t, e, v, step, n, i);
    lemma_segments_len(t, e, v, step, n - 1);
    lemma_segments_len(t, e, v, step, n);
    assert(series(t, e, v, ChartKind::Area).skip(n - 1) =~= series(t, e, v, ChartKind::Line));
}

/// The axes stand left of the plot and under it, and where values are below
/// zero a line at zero.
pub proof fn law_axes_and_zero_line(t: Theme, e: Extent)
    requires
        e.lo < e.hi,
    ensures
        ({
            let marks = axes(t, e);
            &&& is_fill(marks[0], 44, 28, 1, 160)
            &&& is_fill(marks[1], 44, plot_y(e, e.lo as int), 262, 1)
            &&& e.lo < 0 ==> marks.len() == 3 && is_fill(marks[2], 44, plot_y(e, 0), 262, 1)
            &&& e.lo >= 0 ==> marks.len() == 2
        }),
{
    law_plot_stays_inside(e, 0);
}

/// A range without numbers has a message in place of a chart; any other is
/// drawn as the kind says, a pie without an axis.
pub proof fn law_chart_screen(d: Desk, label_w: int)
    requires
        d.wf(),
    ensures
        ({
            let title = d.chart_title(label_w);
            let all = d.chart_screen(label_w);
            let rest = all.skip(title.len() as int);
            &&& all.take(title.len() as int) == title
            &&& d.points(false).len() == 0 ==> rest.len() == 1 && is_text(
                rest[0],
                80,
                110,
                utf8("NO NUMERIC DATA"),
            )
            &&& d.points(false).len() > 0 && d.chart_kind == ChartKind::Pie ==> rest == d.pie()
            &&& d.points(false).len() > 0 && d.chart_kind != ChartKind::Pie ==> rest == d.plot()
            &&& is_text(title[4], 120, 2, utf8("n=") + dec(d.points(false).len()))
            &&& is_text(
                title[2],
                52,
                2,
                range_name(
                    d.chart_range.0 as int,
                    d.chart_range.1 as int,
                    d.chart_range.2 as int,
                    d.chart_range.3 as int,
                ),
            )
            &&& 0 <= label_w <= 300 ==> is_text(
                title[3],
                314 - label_w,
                2,
                kind_label(d.chart_kind),
            )
        }),
{
    reveal(Desk::chart_screen);
    let title = d.chart_title(label_w);
    let all = d.chart_screen(label_w);
    let rest = all.skip(title.len() as int);
    assert(all.take(title.len() as int) =~= title);
    if d.points(false).len() == 0 {
        assert(rest =~= seq![
            crate::canvas::text_mark(80, 110, utf8("NO NUMERIC DATA"), d.theme().dim),
        ]);
    } else if d.chart_kind == ChartKind::Pie {
        assert(rest =~= d.pie());
    } else {
        assert(rest =~= d.plot());
    }
}

/// A plot has the marks beside the axis, the axes, the labels where steps are
/// wide enough, and the values last.
pub proof fn law_plot_ends_with_values(d: Desk)
    requires
        d.points(false).len() > 0,
    ensures
        ({
            let v = d.values(false);
            let n = v.len() as int;
            let drawn = series(d.theme(), extent(v), v, d.chart_kind);
            let all = d.plot();
            &&& drawn.len() <= all.len()
            &&& all.skip(all.len() - drawn.len()) == drawn
            &&& n == d.points(false).len()
            &&& forall|k: int|
                0 <= k < n ==> #[trigger] v[k] == d.grid.results[d.points(false)[k]].0
        }),
{
    reveal(Desk::plot);
    let v = d.values(false);
    let drawn = series(d.theme(), extent(v), v, d.chart_kind);
    let all = d.plot();
    assert(all.skip(all.len() - drawn.len()) =~= drawn);
}

/// A pie draws its slices and then its legend; with nothing to share it says
/// so.
pub proof fn law_pie_has_slices_and_legend(d: Desk)
    ensures
        ({
            let v = d.values(true);
            let n = v.len() as int;
            &&& sizes(v) > 0 ==> d.pie() == slices(v, n) + d.legend(n)
            &&& sizes(v) == 0 ==> d.pie().len() == 1 && is_text(
                d.pie()[0],
                80,
                110,
                utf8("NO DATA"),
            )
        }),
{
    reveal(Desk::pie);
    lemma_sizes(d.values(true));
}

/// A bar has its value written above it, or inside its top where there is no
/// room above, in the middle of its step; only where the step is wide enough
/// for the text.
pub proof fn law_bar_has_its_value(t: Theme, e: Extent, v: Seq<i64>, i: int)
    requires
        e.lo < e.hi,
        0 <= i < v.len() <= MAX_POINTS,
    ensures
        ({
            let step = point_step(v.len() as int);
            let room = if step >= 5 {
                step / 5
            } else {
                1
            };
            let s = fitted_text(v[i] as int, room);
            let marks = bar(t, e, v, step, i);
            let y0 = plot_y(e, 0);
            let yv = plot_y(e, v[i] as int);
            let top = if yv <= y0 {
                yv
            } else {
                y0
            };
            let tall = yv - y0 >= 10 || y0 - yv >= 10;
            let wide = step >= 5 * s.len() + 2;
            &&& marks.len() == 2 <==> wide && (top >= 37 || tall)
            &&& marks.len() == 1 <==> !(wide && (top >= 37 || tall))
            &&& marks.len() == 2 ==> (marks[1] matches Mark::Text { x, y, s: text, scale, tint } && {
                &&& text == s
                &&& y == if top >= 37 {
                    top - 9
                } else {
                    top + 1
                }
                &&& step - 2 <= 2 * (x - (45 + i * step)) + 5 * s.len() <= step - 1
            })
        }),
{
    let n = v.len() as int;
    let step = point_step(n);
    law_steps_fill_axis(n);
    law_plot_stays_inside(e, 0);
    law_plot_stays_inside(e, v[i] as int);
    assert(0 <= i * step && (i + 1) * step == i * step + step && (i + 1) * step <= n * step)
        by (nonlinear_arith)
        requires
            0 <= i < n,
            1 <= step,
    ;
}

proof fn lemma_ticks_upto(t: Theme, e: Extent, i: int, n: int, x: int, y: int, s: Seq<u8>)
    requires
        0 <= i < n,
        shows_text(tick(t, e, i), x, y, s),
    ensures
        shows_text(ticks(t, e, n), x, y, s),
    decreases n,
{
    if i < n - 1 {
        lemma_ticks_upto(t, e, i, n - 1, x, y, s);
    }
    lemma_text_joined(ticks(t, e, n - 1), tick(t, e, n - 1), x, y, s);
}

/// All five marks stand beside the axis of a plot.
pub proof fn law_plot_has_its_ticks(d: Desk, i: int)
    requires
        d.wf(),
        0 <= i <= 4,
    ensures
        ({
            let e = extent(d.values(false));
            let s = fitted_text(tick_value(e, i), 7);
            shows_text(d.plot(), 40 - 5 * s.len(), plot_y(e, tick_value(e, i)) - 4, s)
        }),
{
    reveal(Desk::plot);
    let t = d.theme();
    let v = d.values(false);
    let e = extent(v);
    let n = v.len() as int;
    let step = point_step(n);
    crate::chart::law_extent_holds_all(v);
    law_tick_stands_at_value(t, e, i);
    let s = fitted_text(tick_value(e, i), 7);
    let x = 40 - 5 * s.len();
    let y = plot_y(e, tick_value(e, i)) - 4;
    let marks = tick(t, e, i);
    assert(is_text(marks[marks.len() - 1], x, y, s));
    lemma_ticks_upto(t, e, i, 5, x, y, s);
    let a = ticks(t, e, 5);
    let b = axes(t, e);
    let c = if step >= 20 {
        d.categories(step, n)
    } else {
        seq![]
    };
    let f = series(t, e, v, d.chart_kind);
    lemma_text_joined(a, b, x, y, s);
    lemma_text_joined(a + b, c, x, y, s);
    lemma_text_joined(a + b + c, f, x, y, s);
}

} // verus!
