//! Charts of a range: bars, lines, areas and pies.

use vstd::prelude::*;

use crate::canvas::{circle_point, fill_mark, text_mark, Canvas, Mark};
use crate::decimal::{dec, push_dec};
use crate::editor::{span_cells, Desk, Editor};
use crate::fixed::{magnitude, saturated, unsigned_abs};
use crate::grid::{
    idx, lemma_rect_cells_on_grid, lemma_row_cells_push, rect_cells, row_cells, Kind,
    COLS, NCELLS, ROWS,
};
use crate::labels::{bytes, clip, copied, range_name, range_ref, utf8};
use crate::modes::{kind_label, ChartKind};
use crate::number::{fitted_text, lemma_fitted_text_short, write_value_fit};
use crate::panels::GW;
use crate::refs::truncated;
use crate::sheet::Cell;
use crate::theme::{blend, mix, slice_color, slice_color_of, Rgb, Theme};

verus! {

/// Data points that a chart plots at most.
pub const MAX_POINTS: usize = 64;

/// The angle of the top of a circle: rows count downwards, so that angles grow
/// clockwise, from the right.
pub const PIE_TOP: u32 = 3072;

/// The largest span that a pixel height is worked out from as it is.
pub const SPAN_MAX: u64 = 0x100_0000_0000;

/// The first cells, as many as a chart plots, that hold a number; for a pie
/// only numbers other than zero.
pub open spec fn chart_points(
    cells: Seq<int>,
    results: Seq<(i64, Kind)>,
    pie: bool,
) -> Seq<int>
    decreases cells.len(),
{
    if cells.len() == 0 {
        seq![]
    } else {
        let before = chart_points(cells.drop_last(), results, pie);
        let (v, kind) = results[cells.last()];
        if before.len() < MAX_POINTS && kind == Kind::Num && (pie ==> v != 0) {
            before.push(cells.last())
        } else {
            before
        }
    }
}

/// The least of the values and zero.
pub open spec fn lowest(v: Seq<i64>) -> i64
    decreases v.len(),
{
    if v.len() == 0 {
        0
    } else if v.last() < lowest(v.drop_last()) {
        v.last()
    } else {
        lowest(v.drop_last())
    }
}

/// The greatest of the values and zero.
pub open spec fn highest(v: Seq<i64>) -> i64
    decreases v.len(),
{
    if v.len() == 0 {
        0
    } else if v.last() > highest(v.drop_last()) {
        v.last()
    } else {
        highest(v.drop_last())
    }
}

/// The part `d/s` of a height of `h` pixels, no more than all of it. A very
/// large span is halved first, trading a pixel of precision.
pub open spec fn part_of_height(d: int, s: int, h: int) -> int
    decreases s,
{
    if s > SPAN_MAX {
        part_of_height(d / 2, s / 2, h)
    } else if d * h / s < h {
        d * h / s
    } else {
        h
    }
}

/// The pixel height of an offset within a span.
pub open spec fn scaled(delta: int, span: int, h: int) -> int {
    if span <= 0 || delta <= 0 {
        0
    } else {
        part_of_height(delta, span, h)
    }
}

/// The values' range, always with zero in it, and never empty.
pub struct Extent {
    pub lo: i64,
    pub hi: i64,
}

pub open spec fn extent(v: Seq<i64>) -> Extent {
    let lo = lowest(v);
    Extent {
        lo,
        hi: if highest(v) == lo {
            (lo + 1) as i64
        } else {
            highest(v)
        },
    }
}

/// The pixel row of a value in the plot.
pub open spec fn plot_y(e: Extent, v: int) -> int {
    188 - scaled(saturated(v - e.lo) as int, saturated(e.hi - e.lo) as int, 160)
}

/// The value at tick `i` of the four quarters of the range.
pub open spec fn tick_value(e: Extent, i: int) -> int {
    e.lo + (e.hi - e.lo) * i / 4
}

/// A gridline, but for the lowest, and its value.
pub open spec fn tick(t: Theme, e: Extent, i: int) -> Seq<Mark> {
    let v = tick_value(e, i);
    let y = plot_y(e, v);
    let s = fitted_text(v, 7);
    (if i > 0 {
        seq![fill_mark(45, y, 261, 1, t.sep)]
    } else {
        seq![]
    }) + seq![text_mark(40 - s.len() * 5, y - 4, s, t.dim)]
}

/// The first `n` gridlines.
pub open spec fn ticks(t: Theme, e: Extent, n: int) -> Seq<Mark>
    decreases n,
{
    if n <= 0 {
        seq![]
    } else {
        ticks(t, e, n - 1) + tick(t, e, n - 1)
    }
}

/// The axes, and the zero line if there are values below it.
pub open spec fn axes(t: Theme, e: Extent) -> Seq<Mark> {
    seq![fill_mark(44, 28, 1, 160, t.dim), fill_mark(44, 188, 262, 1, t.dim)] + if e.lo < 0 {
        seq![fill_mark(44, plot_y(e, 0), 262, 1, t.hot)]
    } else {
        seq![]
    }
}

/// Pixels from one data point to the next.
pub open spec fn point_step(n: int) -> int {
    if 262int / n >= 1 {
        262int / n
    } else {
        1
    }
}

/// The middle of data point `i`.
pub open spec fn point_x(step: int, i: int) -> int {
    44 + i * step + step / 2
}

/// The bar of data point `i`, with its value above it, or inside its top if
/// there is no room above, where the column is wide enough.
pub open spec fn bar(t: Theme, e: Extent, v: Seq<i64>, step: int, i: int) -> Seq<Mark> {
    let y0 = plot_y(e, 0);
    let yv = plot_y(e, v[i] as int);
    let x = 45 + i * step;
    let top = if yv <= y0 {
        yv
    } else {
        y0
    };
    let size = if yv <= y0 {
        y0 - yv
    } else {
        yv - y0
    };
    let h = if size >= 1 {
        size
    } else {
        1
    };
    let w = if step - 2 >= 1 {
        step - 2
    } else {
        1
    };
    let s = fitted_text(
        v[i] as int,
        if step / 5 >= 1 {
            step / 5
        } else {
            1
        },
    );
    let sw = s.len() * 5;
    let lx = x + (step - 1 - sw) / 2;
    seq![fill_mark(x, top, w, h, t.accent)] + if step < sw + 2 {
        seq![]
    } else if top - 28 >= 9 {
        seq![text_mark(lx, top - 9, s, t.hot)]
    } else if h >= 10 {
        seq![text_mark(lx, top + 1, s, t.accent_text)]
    } else {
        seq![]
    }
}

/// The first `n` bars.
pub open spec fn bars(t: Theme, e: Extent, v: Seq<i64>, step: int, n: int) -> Seq<Mark>
    decreases n,
{
    if n <= 0 {
        seq![]
    } else {
        bars(t, e, v, step, n - 1) + bar(t, e, v, step, n - 1)
    }
}

/// The first `n` areas under the line, down to zero.
pub open spec fn areas(t: Theme, e: Extent, v: Seq<i64>, step: int, n: int) -> Seq<Mark>
    decreases n,
{
    if n <= 0 {
        seq![]
    } else {
        areas(t, e, v, step, n - 1).push(
            Mark::Quad {
                xa: point_x(step, n - 1) as i16,
                ya: plot_y(e, v[n - 1] as int) as i16,
                xb: point_x(step, n) as i16,
                yb: plot_y(e, v[n] as int) as i16,
                y0: plot_y(e, 0) as i16,
                c: blend(t.accent, t.bg, 1, 2),
            },
        )
    }
}

/// The first `n` segments of the line.
pub open spec fn segments(t: Theme, e: Extent, v: Seq<i64>, step: int, n: int) -> Seq<Mark>
    decreases n,
{
    if n <= 0 {
        seq![]
    } else {
        segments(t, e, v, step, n - 1).push(
            Mark::Line {
                x0: point_x(step, n - 1) as i16,
                y0: plot_y(e, v[n - 1] as int) as i16,
                x1: point_x(step, n) as i16,
                y1: plot_y(e, v[n] as int) as i16,
                c: t.accent,
            },
        )
    }
}

/// The first `n` markers on the line.
pub open spec fn markers(t: Theme, e: Extent, v: Seq<i64>, step: int, n: int) -> Seq<Mark>
    decreases n,
{
    if n <= 0 {
        seq![]
    } else {
        markers(t, e, v, step, n - 1).push(
            fill_mark(
                point_x(step, n - 1) - 1,
                plot_y(e, v[n - 1] as int) - 1,
                3,
                3,
                t.hot,
            ),
        )
    }
}

/// The values as bars, as a line, or as an area under a line.
pub open spec fn series(t: Theme, e: Extent, v: Seq<i64>, kind: ChartKind) -> Seq<Mark> {
    let n = v.len() as int;
    let step = point_step(n);
    match kind {
        ChartKind::Bar => bars(t, e, v, step, n),
        ChartKind::Area => areas(t, e, v, step, n - 1) + segments(t, e, v, step, n - 1) + markers(
            t,
            e,
            v,
            step,
            n,
        ),
        _ => segments(t, e, v, step, n - 1) + markers(t, e, v, step, n),
    }
}

/// The sum of the magnitudes.
pub open spec fn magnitudes(v: Seq<i64>) -> int
    decreases v.len(),
{
    if v.len() == 0 {
        0
    } else {
        magnitudes(v.drop_last()) + magnitude(v.last() as int)
    }
}

/// Where slice `i` of a pie ends, in parts of 4096: in proportion to the
/// magnitudes, and the last at the full circle.
pub open spec fn slice_end(v: Seq<i64>, i: int) -> int
    decreases i + 1,
{
    if i < 0 {
        0
    } else {
        let end = slice_end(v, i - 1) + magnitude(v[i] as int) * 4096 / magnitudes(v);
        if i == v.len() - 1 || end > 4096 {
            4096
        } else {
            end
        }
    }
}

/// The triangles of a slice from angle `a` to `end`.
pub open spec fn wedges(a: int, end: int, c: Rgb) -> Seq<Mark>
    decreases end - a,
{
    if a >= end {
        seq![]
    } else {
        let b = if a + 64 <= end {
            a + 64
        } else {
            end
        };
        seq![Mark::Wedge { cx: 104, cy: 118, r: 74, a: a as u32, b: b as u32, c }] + wedges(
            b,
            end,
            c,
        )
    }
}

/// The first `n` slices of a pie, from the top clockwise.
pub open spec fn slices(v: Seq<i64>, n: int) -> Seq<Mark>
    decreases n,
{
    if n <= 0 {
        seq![]
    } else {
        slices(v, n - 1) + wedges(
            PIE_TOP + slice_end(v, n - 2),
            PIE_TOP + slice_end(v, n - 1),
            slice_color_of(n - 1),
        )
    }
}

impl Desk {
    /// The cells that the chart plots.
    pub open spec fn points(self, pie: bool) -> Seq<int> {
        chart_points(span_cells(self.chart_range), self.grid.results, pie)
    }

    /// The values that the chart plots.
    pub open spec fn values(self, pie: bool) -> Seq<i64> {
        let p = self.points(pie);
        Seq::new(p.len(), |k: int| self.grid.results[p[k]].0)
    }

    /// The label of data point `i` under the axis: the text left of the value's
    /// own cell, as much as fits.
    pub open spec fn category(self, step: int, i: int) -> Seq<Mark> {
        let p = self.points(false)[i];
        let beside = p - 1;
        if p % COLS as int > 0 && self.grid.results[beside].1 == Kind::Text {
            let s = truncated(self.grid.texts[beside], step / 5 - 1);
            seq![
                text_mark(
                    point_x(step, i) - s.len() as int * 5 / 2,
                    192,
                    s,
                    self.theme().dim,
                ),
            ]
        } else {
            seq![]
        }
    }

    /// The first `n` labels under the axis.
    pub open spec fn categories(self, step: int, n: int) -> Seq<Mark>
        decreases n,
    {
        if n <= 0 {
            seq![]
        } else {
            self.categories(step, n - 1) + self.category(step, n - 1)
        }
    }

    /// The title bar: the range, the kind, whose text is `label_w` wide, and
    /// how many points there are.
    pub open spec fn chart_title(self, label_w: int) -> Seq<Mark> {
        let t = self.theme();
        let (c0, r0, c1, r1) = self.chart_range;
        seq![
            fill_mark(0, 0, 320, 12, t.panel),
            text_mark(4, 2, utf8("CHART"), t.good),
            text_mark(52, 2, range_name(c0 as int, r0 as int, c1 as int, r1 as int), t.text),
            text_mark(320 - label_w - 6, 2, kind_label(self.chart_kind), t.hot),
            text_mark(120, 2, utf8("n=") + dec(self.points(false).len()), t.dim),
        ]
    }

    /// The axes and what is plotted against them.
    #[verifier::opaque]
    pub open spec fn plot(self) -> Seq<Mark> {
        let t = self.theme();
        let v = self.values(false);
        let n = v.len() as int;
        let e = extent(v);
        let step = point_step(n);
        ticks(t, e, 5) + axes(t, e) + (if step >= 20 {
            self.categories(step, n)
        } else {
            seq![]
        }) + series(t, e, v, self.chart_kind)
    }

    /// What the legend says of slice `i`: the text left of the value, or the
    /// value.
    pub open spec fn slice_label(self, i: int) -> Seq<u8> {
        let p = self.points(true)[i];
        let beside = p - 1;
        if p % COLS as int > 0 && self.grid.results[beside].1 == Kind::Text {
            self.grid.texts[beside]
        } else {
            fitted_text(self.grid.results[p].0 as int, 10)
        }
    }

    /// The legend's entry for slice `i`, if it is on the screen.
    pub open spec fn legend_entry(self, i: int) -> Seq<Mark> {
        let y = 26 + 14 * i;
        if y > 196 {
            seq![]
        } else {
            seq![
                fill_mark(196, y, 8, 8, slice_color_of(i)),
                text_mark(208, y, truncated(self.slice_label(i), 12), self.theme().text),
            ]
        }
    }

    /// The first `n` entries of the legend.
    pub open spec fn legend(self, n: int) -> Seq<Mark>
        decreases n,
    {
        if n <= 0 {
            seq![]
        } else {
            self.legend(n - 1) + self.legend_entry(n - 1)
        }
    }

    /// The pie and its legend.
    #[verifier::opaque]
    pub open spec fn pie(self) -> Seq<Mark> {
        let v = self.values(true);
        let n = v.len() as int;
        if magnitudes(v) == 0 {
            seq![text_mark(80, 110, utf8("NO DATA"), self.theme().dim)]
        } else {
            slices(v, n) + self.legend(n)
        }
    }

    /// The chart of the selected range.
    #[verifier::opaque]
    pub open spec fn chart_screen(self, label_w: int) -> Seq<Mark> {
        self.chart_title(label_w) + if self.points(false).len() == 0 {
            seq![text_mark(80, 110, utf8("NO NUMERIC DATA"), self.theme().dim)]
        } else if self.chart_kind == ChartKind::Pie {
            self.pie()
        } else {
            self.plot()
        }
    }
}

// ---------------------------------------------------------------------------
// Facts
// ---------------------------------------------------------------------------

pub proof fn lemma_part_of_height(d: int, s: int, h: int)
    requires
        0 <= d,
        0 < s,
        0 <= h,
    ensures
        0 <= part_of_height(d, s, h) <= h,
    decreases s,
{
    if s > SPAN_MAX {
        lemma_part_of_height(d / 2, s / 2, h);
    } else {
        assert(0 <= d * h / s) by (nonlinear_arith)
            requires
                0 <= d,
                0 <= h,
                0 < s,
        ;
    }
}

/// The whole of a span takes the whole height.
proof fn lemma_whole_height(s: int, h: int)
    requires
        0 < s,
        0 <= h,
    ensures
        part_of_height(s, s, h) == h,
    decreases s,
{
    if s > SPAN_MAX {
        lemma_whole_height(s / 2, h);
    } else {
        assert(s * h / s == h) by (nonlinear_arith)
            requires
                0 < s,
        ;
    }
}

/// A value's pixel row lies in the plot; the range's ends lie at its edges.
pub proof fn law_plot_stays_inside(e: Extent, v: int)
    requires
        e.lo < e.hi,
    ensures
        28 <= plot_y(e, v) <= 188,
        plot_y(e, e.lo as int) == 188,
        plot_y(e, e.hi as int) == 28,
{
    lemma_whole_height(saturated(e.hi - e.lo) as int, 160);
    let span = saturated(e.hi - e.lo) as int;
    let delta = saturated(v - e.lo) as int;
    if delta > 0 {
        lemma_part_of_height(delta, span, 160);
    }
}

/// The range of the values holds zero and every value.
pub proof fn law_extent_holds_all(v: Seq<i64>)
    ensures
        extent(v).lo <= 0 <= extent(v).hi,
        extent(v).lo < extent(v).hi,
        forall|i: int| 0 <= i < v.len() ==> extent(v).lo <= #[trigger] v[i] <= extent(v).hi,
{
    lemma_lowest(v);
}

proof fn lemma_lowest(v: Seq<i64>)
    ensures
        lowest(v) <= 0 <= highest(v),
        forall|i: int| 0 <= i < v.len() ==> lowest(v) <= #[trigger] v[i] <= highest(v),
    decreases v.len(),
{
    if v.len() > 0 {
        let less = v.drop_last();
        lemma_lowest(less);
        assert forall|i: int| 0 <= i < v.len() implies lowest(v) <= #[trigger] v[i] <= highest(
            v,
        ) by {
            if i < v.len() - 1 {
                assert(less[i] == v[i]);
            }
        }
    }
}

proof fn lemma_magnitudes(v: Seq<i64>, i: int)
    requires
        0 <= i < v.len(),
    ensures
        magnitude(v[i] as int) <= magnitudes(v),
    decreases v.len(),
{
    lemma_magnitudes_nonneg(v.drop_last());
    if i < v.len() - 1 {
        lemma_magnitudes(v.drop_last(), i);
        assert(v.drop_last()[i] == v[i]);
    }
}

proof fn lemma_magnitudes_nonneg(v: Seq<i64>)
    ensures
        0 <= magnitudes(v) <= v.len() * 0x8000_0000_0000_0000,
    decreases v.len(),
{
    if v.len() > 0 {
        lemma_magnitudes_nonneg(v.drop_last());
    }
}

/// A pie's slices, their angles counted from the top, start at zero, each where
/// the last one ended, and close the circle.
pub proof fn law_pie_is_whole(v: Seq<i64>, i: int)
    requires
        magnitudes(v) > 0,
        0 <= i < v.len(),
    ensures
        slice_end(v, -1) == 0,
        0 <= slice_end(v, i - 1) <= slice_end(v, i) <= 4096,
        slice_end(v, v.len() - 1) == 4096,
    decreases i,
{
    if i > 0 {
        law_pie_is_whole(v, i - 1);
    }
    let total = magnitudes(v);
    let m = magnitude(v[i] as int);
    assert(0 <= m * 4096 / total) by (nonlinear_arith)
        requires
            0 <= m,
            0 < total,
    ;
}

/// The slices start at the top of the circle, and go on to its right.
pub proof fn law_pie_starts_at_top(v: Seq<i64>)
    ensures
        PIE_TOP + slice_end(v, -1) == 3072,
        circle_point(104, 118, 74, 0, -4096) == (104int, 44int),
        (PIE_TOP + 1024) % 4096 == 0,
        circle_point(104, 118, 74, 4096, 0) == (178int, 118int),
{
}

proof fn lemma_points(cells: Seq<int>, results: Seq<(i64, Kind)>, pie: bool)
    requires
        forall|k: int| 0 <= k < cells.len() ==> 0 <= #[trigger] cells[k] < NCELLS,
    ensures
        chart_points(cells, results, pie).len() <= MAX_POINTS,
        forall|k: int|
            0 <= k < chart_points(cells, results, pie).len() ==> 0 <= #[trigger] chart_points(
                cells,
                results,
                pie,
            )[k] < NCELLS,
    decreases cells.len(),
{
    if cells.len() > 0 {
        let less = cells.drop_last();
        assert forall|k: int| 0 <= k < less.len() implies 0 <= #[trigger] less[k] < NCELLS by {
            assert(less[k] == cells[k]);
        }
        lemma_points(less, results, pie);
        assert(cells.last() == cells[cells.len() - 1]);
    }
}

// ---------------------------------------------------------------------------
// Drawing
// ---------------------------------------------------------------------------

/// Map a value offset `delta` (0..=`span`) to a pixel height in
/// `[0, plot_h]`.
pub fn scale_px(delta: i64, span: i64, plot_h: i16) -> (px: i16)
    requires
        0 <= plot_h,
    ensures
        px == scaled(delta as int, span as int, plot_h as int),
        0 <= px <= plot_h,
{
    if span <= 0 || delta <= 0 {
        return 0;
    }
    let mut d: u64 = delta as u64;
    let mut s: u64 = span as u64;
    proof {
        lemma_part_of_height(d as int, s as int, plot_h as int);
    }
    while s > SPAN_MAX
        invariant
            s > 0,
            part_of_height(d as int, s as int, plot_h as int) == part_of_height(
                delta as int,
                span as int,
                plot_h as int,
            ),
        decreases s,
    {
        d = d / 2;
        s = s / 2;
    }
    let h: u128 = plot_h as u128;
    assert(d as u128 * h <= 0xffff_ffff_ffff_ffff * 0x7fff) by (nonlinear_arith)
        requires
            d <= 0xffff_ffff_ffff_ffff,
            0 <= h <= 0x7fff,
    ;
    let part: u128 = d as u128 * h / s as u128;
    if part < h {
        part as i16
    } else {
        plot_h
    }
}

/// The pixel row of a value in the plot.
fn y_of(e: &Extent, v: i64) -> (y: i16)
    requires
        e.lo < e.hi,
    ensures
        y == plot_y(*e, v as int),
        28 <= y <= 188,
{
    let span: i64 = saturating_difference(e.hi, e.lo);
    let delta: i64 = saturating_difference(v, e.lo);
    188 - scale_px(delta, span, 160)
}

/// Subtract, holding the difference at the ends of the range.
fn saturating_difference(a: i64, b: i64) -> (r: i64)
    ensures
        r == saturated(a - b),
{
    match a.checked_sub(b) {
        Some(d) => d,
        None => if a < 0 {
            i64::MIN
        } else {
            i64::MAX
        },
    }
}

/// The values' range.
fn find_extent(v: &Vec<i64>) -> (e: Extent)
    ensures
        e == extent(v@),
        e.lo < e.hi,
        e.lo <= 0 <= e.hi,
{
    let mut lo: i64 = 0;
    let mut hi: i64 = 0;
    let mut i: usize = 0;
    assert(v@.take(0) =~= Seq::<i64>::empty());
    while i < v.len()
        invariant
            i <= v@.len(),
            lo == lowest(v@.take(i as int)),
            hi == highest(v@.take(i as int)),
        decreases v@.len() - i,
    {
        assert(v@.take(i + 1).drop_last() =~= v@.take(i as int));
        assert(v@.take(i + 1).last() == v@[i as int]);
        if v[i] < lo {
            lo = v[i];
        }
        if v[i] > hi {
            hi = v[i];
        }
        i += 1;
    }
    assert(v@.take(v@.len() as int) =~= v@);
    proof {
        lemma_lowest(v@);
    }
    if hi == lo {
        // Avoid a zero span for a series of zeros.
        hi = lo + 1;
    }
    Extent { lo, hi }
}

/// Gridlines with tick labels at quarters of the range, so that a bar can be
/// read off the chart.
fn draw_ticks(cv: &mut Canvas, t: &Theme, e: &Extent)
    requires
        e.lo < e.hi,
    ensures
        final(cv)@ == old(cv)@ + ticks(*t, *e, 5),
{
    let ghost head = cv@;
    assert(head + ticks(*t, *e, 0) =~= head);
    let mut i: i16 = 0;
    while i < 5
        invariant
            0 <= i <= 5,
            e.lo < e.hi,
            cv@ == head + ticks(*t, *e, i as int),
        decreases 5 - i,
    {
        let ghost before = cv@;
        let range: i128 = e.hi as i128 - e.lo as i128;
        assert(0 <= range * i <= range * 4) by (nonlinear_arith)
            requires
                0 <= range,
                0 <= i <= 4,
        ;
        let wide: i128 = range * i as i128;
        let v: i64 = (e.lo as i128 + wide / 4) as i64;
        assert(v == tick_value(*e, i as int));
        let y: i16 = y_of(e, v);
        if i > 0 {
            cv.fill(45, y, 261, 1, t.sep);
        }
        let s: Vec<u8> = write_value_fit(v, 7);
        proof {
            lemma_fitted_text_short(v, 7);
        }
        cv.text(40 - s.len() as i16 * GW, y - 4, s.as_slice(), t.dim);
        assert(cv@ =~= before + tick(*t, *e, i as int));
        i += 1;
        assert(cv@ =~= head + ticks(*t, *e, i as int));
    }
}

/// The axes, and the zero line if there are values below it.
fn draw_axes(cv: &mut Canvas, t: &Theme, e: &Extent)
    requires
        e.lo < e.hi,
    ensures
        final(cv)@ == old(cv)@ + axes(*t, *e),
{
    cv.fill(44, 28, 1, 160, t.dim);
    cv.fill(44, 188, 262, 1, t.dim);
    if e.lo < 0 {
        cv.fill(44, y_of(e, 0), 262, 1, t.hot);
    }
    assert(cv@ =~= old(cv)@ + axes(*t, *e));
}

/// The middle of data point `i`.
fn x_of(step: i16, i: usize) -> (x: i16)
    requires
        1 <= step <= 262,
        i < MAX_POINTS,
        i * step <= 262,
    ensures
        x == point_x(step as int, i as int),
        44 <= x <= 500,
{
    44 + i as i16 * step + step / 2
}

/// Every data point lies within the plot's width.
proof fn lemma_steps_fit(n: int, step: int, i: int)
    requires
        1 <= n <= MAX_POINTS,
        step == point_step(n),
        0 <= i <= n,
    ensures
        1 <= step <= 262,
        0 <= i * step <= 262,
{
    assert(n * (262int / n) <= 262) by (nonlinear_arith)
        requires
            n >= 1,
    ;
    assert(262int / n >= 1 && 262int / n <= 262) by (nonlinear_arith)
        requires
            1 <= n <= 64,
    ;
    assert(0 <= i * step <= n * step) by (nonlinear_arith)
        requires
            0 <= i <= n,
            step >= 1,
    ;
}

fn draw_bar(cv: &mut Canvas, t: &Theme, e: &Extent, v: &Vec<i64>, step: i16, i: usize)
    requires
        e.lo < e.hi,
        i < v@.len() <= MAX_POINTS,
        1 <= step <= 262,
        0 <= i * step <= 262,
    ensures
        final(cv)@ == old(cv)@ + bar(*t, *e, v@, step as int, i as int),
{
    let y0: i16 = y_of(e, 0);
    let yv: i16 = y_of(e, v[i]);
    let x: i16 = 45 + i as i16 * step;
    let (top, size): (i16, i16) = if yv <= y0 {
        (yv, y0 - yv)
    } else {
        (y0, yv - y0)
    };
    let h: i16 = if size >= 1 {
        size
    } else {
        1
    };
    let w: i16 = if step - 2 >= 1 {
        step - 2
    } else {
        1
    };
    cv.fill(x, top, w as u16, h as u16, t.accent);
    // Value label on the bar, when the column is wide enough.
    let width: usize = if step / GW >= 1 {
        (step / GW) as usize
    } else {
        1
    };
    let s: Vec<u8> = write_value_fit(v[i], width);
    proof {
        lemma_fitted_text_short(v@[i as int], width as nat);
    }
    let sw: i16 = s.len() as i16 * GW;
    if step >= sw + 2 {
        let lx: i16 = x + (step - 1 - sw) / 2;
        if top - 28 >= 9 {
            cv.text(lx, top - 9, s.as_slice(), t.hot);
        } else if h >= 10 {
            cv.text(lx, top + 1, s.as_slice(), t.accent_text);
        }
    }
    assert(cv@ =~= old(cv)@ + bar(*t, *e, v@, step as int, i as int));
}

fn draw_bars(cv: &mut Canvas, t: &Theme, e: &Extent, v: &Vec<i64>, step: i16)
    requires
        e.lo < e.hi,
        1 <= v@.len() <= MAX_POINTS,
        step == point_step(v@.len() as int),
    ensures
        final(cv)@ == old(cv)@ + bars(*t, *e, v@, step as int, v@.len() as int),
{
    let ghost head = cv@;
    assert(head + bars(*t, *e, v@, step as int, 0) =~= head);
    let mut i: usize = 0;
    while i < v.len()
        invariant
            i <= v@.len(),
            e.lo < e.hi,
            1 <= v@.len() <= MAX_POINTS,
            step == point_step(v@.len() as int),
            cv@ == head + bars(*t, *e, v@, step as int, i as int),
        decreases v@.len() - i,
    {
        proof {
            lemma_steps_fit(v@.len() as int, step as int, i as int);
        }
        draw_bar(cv, t, e, v, step, i);
        i += 1;
        assert(cv@ =~= head + bars(*t, *e, v@, step as int, i as int));
    }
}

/// Fill the region under the line down to zero.
fn draw_areas(cv: &mut Canvas, t: &Theme, e: &Extent, v: &Vec<i64>, step: i16)
    requires
        e.lo < e.hi,
        1 <= v@.len() <= MAX_POINTS,
        step == point_step(v@.len() as int),
    ensures
        final(cv)@ == old(cv)@ + areas(*t, *e, v@, step as int, v@.len() - 1),
{
    let ghost head = cv@;
    assert(head + areas(*t, *e, v@, step as int, 0) =~= head);
    let y0: i16 = y_of(e, 0);
    let c: Rgb = mix(t.accent, t.bg);
    let mut i: usize = 0;
    while i + 1 < v.len()
        invariant
            i < v@.len(),
            e.lo < e.hi,
            1 <= v@.len() <= MAX_POINTS,
            step == point_step(v@.len() as int),
            y0 == plot_y(*e, 0),
            c == blend(t.accent, t.bg, 1, 2),
            cv@ == head + areas(*t, *e, v@, step as int, i as int),
        decreases v@.len() - i,
    {
        proof {
            lemma_steps_fit(v@.len() as int, step as int, i as int);
            lemma_steps_fit(v@.len() as int, step as int, i + 1);
        }
        cv.quad(x_of(step, i), y_of(e, v[i]), x_of(step, i + 1), y_of(e, v[i + 1]), y0, c);
        i += 1;
        assert(cv@ =~= head + areas(*t, *e, v@, step as int, i as int));
    }
}

/// The line and its markers.
fn draw_line(cv: &mut Canvas, t: &Theme, e: &Extent, v: &Vec<i64>, step: i16)
    requires
        e.lo < e.hi,
        1 <= v@.len() <= MAX_POINTS,
        step == point_step(v@.len() as int),
    ensures
        final(cv)@ == old(cv)@ + (segments(*t, *e, v@, step as int, v@.len() - 1) + markers(
            *t,
            *e,
            v@,
            step as int,
            v@.len() as int,
        )),
{
    let ghost head = cv@;
    assert(head + segments(*t, *e, v@, step as int, 0) =~= head);
    let mut i: usize = 0;
    while i + 1 < v.len()
        invariant
            i < v@.len(),
            e.lo < e.hi,
            1 <= v@.len() <= MAX_POINTS,
            step == point_step(v@.len() as int),
            cv@ == head + segments(*t, *e, v@, step as int, i as int),
        decreases v@.len() - i,
    {
        proof {
            lemma_steps_fit(v@.len() as int, step as int, i as int);
            lemma_steps_fit(v@.len() as int, step as int, i + 1);
        }
        cv.line(x_of(step, i), y_of(e, v[i]), x_of(step, i + 1), y_of(e, v[i + 1]), t.accent);
        i += 1;
        assert(cv@ =~= head + segments(*t, *e, v@, step as int, i as int));
    }
    let ghost lined = cv@;
    assert(lined + markers(*t, *e, v@, step as int, 0) =~= lined);
    let mut k: usize = 0;
    while k < v.len()
        invariant
            k <= v@.len(),
            e.lo < e.hi,
            1 <= v@.len() <= MAX_POINTS,
            step == point_step(v@.len() as int),
            cv@ == lined + markers(*t, *e, v@, step as int, k as int),
        decreases v@.len() - k,
    {
        proof {
            lemma_steps_fit(v@.len() as int, step as int, k as int);
        }
        cv.fill(x_of(step, k) - 1, y_of(e, v[k]) - 1, 3, 3, t.hot);
        k += 1;
        assert(cv@ =~= lined + markers(*t, *e, v@, step as int, k as int));
    }
    assert(cv@ =~= head + (segments(*t, *e, v@, step as int, v@.len() - 1) + markers(
        *t,
        *e,
        v@,
        step as int,
        v@.len() as int,
    )));
}

/// The values as the chart's kind shows them.
fn draw_series(cv: &mut Canvas, t: &Theme, e: &Extent, v: &Vec<i64>, step: i16, kind: ChartKind)
    requires
        e.lo < e.hi,
        1 <= v@.len() <= MAX_POINTS,
        step == point_step(v@.len() as int),
    ensures
        final(cv)@ == old(cv)@ + series(*t, *e, v@, kind),
{
    match kind {
        ChartKind::Bar => {
            draw_bars(cv, t, e, v, step);
        },
        ChartKind::Area => {
            draw_areas(cv, t, e, v, step);
            draw_line(cv, t, e, v, step);
            assert(cv@ =~= old(cv)@ + series(*t, *e, v@, kind));
        },
        _ => {
            draw_line(cv, t, e, v, step);
        },
    }
}

/// The triangles of a slice.
fn draw_slice(cv: &mut Canvas, a0: u32, a1: u32, c: Rgb)
    requires
        a1 <= PIE_TOP + 4096,
        a0 <= a1,
    ensures
        final(cv)@ == old(cv)@ + wedges(a0 as int, a1 as int, c),
{
    let ghost first = cv@;
    let mut a: u32 = a0;
    while a < a1
        invariant
            a0 <= a <= a1 <= PIE_TOP + 4096,
            cv@ + wedges(a as int, a1 as int, c) == first + wedges(a0 as int, a1 as int, c),
        decreases a1 - a,
    {
        let ghost before = cv@;
        let b: u32 = if a + 64 <= a1 {
            a + 64
        } else {
            a1
        };
        cv.wedge(104, 118, 74, a, b, c);
        assert(cv@ + wedges(b as int, a1 as int, c) =~= before + wedges(a as int, a1 as int, c));
        a = b;
    }
    assert(cv@ =~= cv@ + wedges(a as int, a1 as int, c));
}

/// The slices, from the top clockwise.
fn draw_slices(cv: &mut Canvas, v: &Vec<i64>, total: u128)
    requires
        1 <= v@.len() <= MAX_POINTS,
        total == magnitudes(v@),
        total > 0,
    ensures
        final(cv)@ == old(cv)@ + slices(v@, v@.len() as int),
{
    let ghost head = cv@;
    assert(head + slices(v@, 0) =~= head);
    let mut a0: u32 = 0;
    let mut i: usize = 0;
    while i < v.len()
        invariant
            i <= v@.len() <= MAX_POINTS,
            total == magnitudes(v@),
            total > 0,
            a0 == slice_end(v@, i - 1),
            a0 <= 4096,
            cv@ == head + slices(v@, i as int),
        decreases v@.len() - i,
    {
        proof {
            law_pie_is_whole(v@, i as int);
            lemma_magnitudes(v@, i as int);
        }
        let m: u128 = unsigned_abs(v[i]) as u128;
        assert(m * 4096 / total as int <= 4096) by (nonlinear_arith)
            requires
                0 <= m <= total,
                total > 0,
        ;
        let frac: u32 = (m * 4096 / total) as u32;
        let a1: u32 = if i == v.len() - 1 || a0 + frac > 4096 {
            4096
        } else {
            a0 + frac
        };
        draw_slice(cv, PIE_TOP + a0, PIE_TOP + a1, slice_color(i));
        a0 = a1;
        i += 1;
        assert(cv@ =~= head + slices(v@, i as int));
    }
}

impl Editor {
    /// The cells that the chart plots: those in its range that hold a number,
    /// row after row, at most [`MAX_POINTS`].
    fn collect_points(&self, pie: bool) -> (p: Vec<usize>)
        requires
            self.wf(),
        ensures
            p@.len() == self@.points(pie).len(),
            p@.len() <= MAX_POINTS,
            forall|k: int| 0 <= k < p@.len() ==> #[trigger] p@[k] == self@.points(pie)[k],
            forall|k: int| 0 <= k < p@.len() ==> #[trigger] p@[k] < NCELLS,
    {
        let (c0, r0, c1, r1) = self.chart_range;
        let ghost results = self@.grid.results;
        proof {
            lemma_rect_cells_on_grid(c0 as int, r0 as int, c1 as int, r1 as int);
            lemma_points(span_cells(self@.chart_range), results, pie);
        }
        let mut p: Vec<usize> = Vec::new();
        let ghost mut seen: Seq<int> = seq![];
        let mut row: usize = r0;
        while row <= r1
            invariant
                self.wf(),
                results == self@.grid.results,
                (c0, r0, c1, r1) == self@.chart_range,
                r0 <= row <= r1 + 1,
                c0 <= c1 < COLS,
                r1 < ROWS,
                seen == rect_cells(c0 as int, r0 as int, c1 as int, row - 1),
                p@.len() == chart_points(seen, results, pie).len(),
                forall|k: int|
                    0 <= k < p@.len() ==> #[trigger] p@[k] == chart_points(seen, results, pie)[k],
            decreases r1 + 1 - row,
        {
            let ghost above = seen;
            let mut col: usize = c0;
            while col <= c1
                invariant
                    self.wf(),
                    results == self@.grid.results,
                    c0 <= col <= c1 + 1,
                    c1 < COLS,
                    r0 <= row <= r1 < ROWS,
                    above == rect_cells(c0 as int, r0 as int, c1 as int, row - 1),
                    seen == above + row_cells(c0 as int, col - 1, row as int),
                    p@.len() == chart_points(seen, results, pie).len(),
                    forall|k: int|
                        0 <= k < p@.len() ==> #[trigger] p@[k] == chart_points(
                            seen,
                            results,
                            pie,
                        )[k],
                decreases c1 + 1 - col,
            {
                let i: usize = idx(col, row);
                proof {
                    lemma_row_cells_push(c0 as int, col as int, row as int);
                    let next = seen.push(i as int);
                    assert(next =~= above + row_cells(c0 as int, col as int, row as int));
                    assert(next.drop_last() =~= seen);
                    assert(results[i as int] == self.sheet.cells@[i as int].result());
                    seen = next;
                }
                if p.len() < MAX_POINTS && self.sheet.cells[i].kind == Kind::Num && (!pie
                    || self.sheet.cells[i].value != 0) {
                    p.push(i);
                }
                col += 1;
            }
            row += 1;
        }
        p
    }

    /// The values of some cells.
    fn values_at(&self, p: &Vec<usize>) -> (v: Vec<i64>)
        requires
            self.wf(),
            forall|k: int| 0 <= k < p@.len() ==> #[trigger] p@[k] < NCELLS,
        ensures
            v@.len() == p@.len(),
            forall|k: int|
                0 <= k < v@.len() ==> #[trigger] v@[k] == self@.grid.results[p@[k] as int].0,
    {
        let mut v: Vec<i64> = Vec::new();
        let mut i: usize = 0;
        while i < p.len()
            invariant
                self.wf(),
                i <= p@.len(),
                v@.len() == i,
                forall|k: int| 0 <= k < p@.len() ==> #[trigger] p@[k] < NCELLS,
                forall|k: int|
                    0 <= k < i ==> #[trigger] v@[k] == self@.grid.results[p@[k] as int].0,
            decreases p@.len() - i,
        {
            assert(p@[i as int] < NCELLS);
            assert(self@.grid.results[p@[i as int] as int]
                == self.sheet.cells@[p@[i as int] as int].result());
            v.push(self.sheet.cells[p[i]].value);
            i += 1;
        }
        v
    }

    /// Gather the numeric values in the chart range.
    pub fn collect_values(&self) -> (v: Vec<i64>)
        requires
            self.wf(),
        ensures
            v@ == self@.values(false),
            v@.len() <= MAX_POINTS,
    {
        let p: Vec<usize> = self.collect_points(false);
        let v: Vec<i64> = self.values_at(&p);
        assert(v@ =~= self@.values(false));
        v
    }

    /// The title bar, whose kind label is `label_w` wide.
    fn draw_chart_title(&self, cv: &mut Canvas, n: usize, label_w: i16)
        requires
            self.wf(),
            0 <= label_w <= 320,
            n == self@.points(false).len(),
        ensures
            final(cv)@ == old(cv)@ + self@.chart_title(label_w as int),
    {
        let t: Theme = self.palette();
        cv.fill(0, 0, 320, 12, t.panel);
        let (c0, r0, c1, r1) = self.chart_range;
        let range: Vec<u8> = range_ref(c0, r0, c1, r1);
        cv.label(4, 2, "CHART", t.good);
        cv.text(52, 2, range.as_slice(), t.text);
        cv.label(320 - label_w - 6, 2, self.chart_kind.label(), t.hot);
        // Point count in the title bar, clear of the category labels.
        let mut count: Vec<u8> = bytes("n=");
        push_dec(&mut count, n as u64);
        cv.text(120, 2, count.as_slice(), t.dim);
        assert(cv@ =~= old(cv)@ + self@.chart_title(label_w as int));
    }

    /// The label under data point `i`, whose cell is `k`.
    fn draw_category(&self, cv: &mut Canvas, step: i16, i: usize, k: usize)
        requires
            self.wf(),
            20 <= step <= 262,
            i < MAX_POINTS,
            0 <= i * step <= 262,
            k < NCELLS,
            k == self@.points(false)[i as int],
        ensures
            final(cv)@ == old(cv)@ + self@.category(step as int, i as int),
    {
        if k % COLS == 0 {
            assert(cv@ =~= old(cv)@ + self@.category(step as int, i as int));
            return;
        }
        let beside: Cell = self.sheet.cells[k - 1];
        assert(self@.grid.texts[k - 1] == beside.text());
        assert(self@.grid.results[k - 1] == beside.result());
        if beside.kind != Kind::Text {
            assert(cv@ =~= old(cv)@ + self@.category(step as int, i as int));
            return;
        }
        let t: Theme = self.palette();
        let s: Vec<u8> = clip(beside.raw(), (step / GW) as usize - 1);
        let x: i16 = x_of(step, i) - s.len() as i16 * GW / 2;
        cv.text(x, 192, s.as_slice(), t.dim);
        assert(cv@ =~= old(cv)@ + self@.category(step as int, i as int));
    }

    /// Category labels under the axis, each from the text beside its value.
    fn draw_categories(&self, cv: &mut Canvas, step: i16, n: usize)
        requires
            self.wf(),
            20 <= step,
            1 <= n <= MAX_POINTS,
            n == self@.points(false).len(),
            step == point_step(n as int),
        ensures
            final(cv)@ == old(cv)@ + self@.categories(step as int, n as int),
    {
        let p: Vec<usize> = self.collect_points(false);
        let ghost head = cv@;
        assert(head + self@.categories(step as int, 0) =~= head);
        let mut i: usize = 0;
        while i < n
            invariant
                self.wf(),
                20 <= step,
                1 <= n <= MAX_POINTS,
                n == p@.len(),
                forall|k: int| 0 <= k < p@.len() ==> #[trigger] p@[k] == self@.points(false)[k],
                forall|k: int| 0 <= k < p@.len() ==> #[trigger] p@[k] < NCELLS,
                step == point_step(n as int),
                i <= n,
                cv@ == head + self@.categories(step as int, i as int),
            decreases n - i,
        {
            proof {
                lemma_steps_fit(n as int, step as int, i as int);
                assert(p@[i as int] < NCELLS);
            }
            self.draw_category(cv, step, i, p[i]);
            i += 1;
            assert(cv@ =~= head + self@.categories(step as int, i as int));
        }
    }

    /// The axes and what is plotted against them.
    #[verifier::rlimit(40)]
    fn draw_plot(&self, cv: &mut Canvas, v: &Vec<i64>)
        requires
            self.wf(),
            v@ == self@.values(false),
            1 <= v@.len() <= MAX_POINTS,
            self.chart_kind != ChartKind::Pie,
        ensures
            final(cv)@ == old(cv)@ + self@.plot(),
    {
        proof {
            reveal(Desk::plot);
        }
        let t: Theme = self.palette();
        let e: Extent = find_extent(v);
        let n: usize = v.len();
        let ghost start = cv@;
        draw_ticks(cv, &t, &e);
        let ghost a = ticks(t, e, 5);
        draw_axes(cv, &t, &e);
        let ghost b = axes(t, e);
        proof {
            lemma_steps_fit(n as int, point_step(n as int), 0);
        }
        let wide: i16 = 262 / n as i16;
        let step: i16 = if wide >= 1 {
            wide
        } else {
            1
        };
        let ghost c: Seq<Mark> = if step >= 20 {
            self@.categories(step as int, n as int)
        } else {
            seq![]
        };
        if step >= 4 * GW {
            self.draw_categories(cv, step, n);
        }
        assert(cv@ =~= start + a + b + c);
        draw_series(cv, &t, &e, v, step, self.chart_kind);
        assert(cv@ =~= start + self@.plot());
    }

    /// What the legend says of slice `i`.
    fn legend_text(&self, p: &Vec<usize>, i: usize) -> (s: Vec<u8>)
        requires
            self.wf(),
            i < p@.len(),
            p@[i as int] < NCELLS,
            p@.len() == self@.points(true).len(),
            p@[i as int] == self@.points(true)[i as int],
        ensures
            s@ == self@.slice_label(i as int),
    {
        let k: usize = p[i];
        assert(self@.grid.results[k as int] == self.sheet.cells@[k as int].result());
        if k % COLS > 0 {
            let beside: Cell = self.sheet.cells[k - 1];
            assert(self@.grid.results[k - 1] == beside.result());
            assert(self@.grid.texts[k - 1] == beside.text());
            if beside.kind == Kind::Text {
                return copied(beside.raw());
            }
        }
        write_value_fit(self.sheet.cells[k].value, 10)
    }

    /// The legend beside the pie.
    fn draw_legend(&self, cv: &mut Canvas, p: &Vec<usize>)
        requires
            self.wf(),
            p@.len() == self@.points(true).len(),
            p@.len() <= MAX_POINTS,
            forall|k: int| 0 <= k < p@.len() ==> #[trigger] p@[k] == self@.points(true)[k],
            forall|k: int| 0 <= k < p@.len() ==> #[trigger] p@[k] < NCELLS,
        ensures
            final(cv)@ == old(cv)@ + self@.legend(p@.len() as int),
    {
        let t: Theme = self.palette();
        let ghost head = cv@;
        assert(head + self@.legend(0) =~= head);
        let mut i: usize = 0;
        while i < p.len()
            invariant
                self.wf(),
                t == self@.theme(),
                i <= p@.len() <= MAX_POINTS,
                p@.len() == self@.points(true).len(),
                forall|k: int| 0 <= k < p@.len() ==> #[trigger] p@[k] == self@.points(true)[k],
                forall|k: int| 0 <= k < p@.len() ==> #[trigger] p@[k] < NCELLS,
                cv@ == head + self@.legend(i as int),
            decreases p@.len() - i,
        {
            let y: i16 = 26 + 14 * i as i16;
            if y <= 196 {
                assert(p@[i as int] < NCELLS);
                let label: Vec<u8> = self.legend_text(p, i);
                let shown: Vec<u8> = clip(label.as_slice(), 12);
                cv.fill(196, y, 8, 8, slice_color(i));
                cv.text(208, y, shown.as_slice(), t.text);
            }
            i += 1;
            assert(cv@ =~= head + self@.legend(i as int));
        }
    }

    /// Pie chart of the selected range: slice angles proportional to each
    /// value's magnitude, with a colour legend.
    pub fn draw_pie(&self, cv: &mut Canvas)
        requires
            self.wf(),
        ensures
            final(cv)@ == old(cv)@ + self@.pie(),
    {
        proof {
            reveal(Desk::pie);
        }
        let p: Vec<usize> = self.collect_points(true);
        let v: Vec<i64> = self.values_at(&p);
        assert(v@ =~= self@.values(true));
        let mut total: u128 = 0;
        let mut i: usize = 0;
        assert(v@.take(0) =~= Seq::<i64>::empty());
        while i < v.len()
            invariant
                i <= v@.len() <= MAX_POINTS,
                total == magnitudes(v@.take(i as int)),
                total <= i * 0x8000_0000_0000_0000,
            decreases v@.len() - i,
        {
            assert(v@.take(i + 1).drop_last() =~= v@.take(i as int));
            total += unsigned_abs(v[i]) as u128;
            i += 1;
        }
        assert(v@.take(v@.len() as int) =~= v@);
        if total == 0 {
            let t: Theme = self.palette();
            cv.label(80, 110, "NO DATA", t.dim);
            assert(cv@ =~= old(cv)@ + self@.pie());
            return;
        }
        draw_slices(cv, &v, total);
        self.draw_legend(cv, &p);
        assert(cv@ =~= old(cv)@ + self@.pie());
    }

    /// Full-screen chart of the selected range. `label_w` is the width of the
    /// kind's label in pixels.
    pub fn draw_chart(&self, cv: &mut Canvas, label_w: i16)
        requires
            self.wf(),
            0 <= label_w <= 320,
        ensures
            final(cv)@ == old(cv)@ + self@.chart_screen(label_w as int),
    {
        proof {
            reveal(Desk::chart_screen);
        }
        let v: Vec<i64> = self.collect_values();
        self.draw_chart_title(cv, v.len(), label_w);
        if v.len() == 0 {
            let t: Theme = self.palette();
            cv.label(80, 110, "NO NUMERIC DATA", t.dim);
            assert(cv@ =~= old(cv)@ + self@.chart_screen(label_w as int));
            return;
        }
        // Pie is a circular view; the others share an axis-based plot.
        if self.chart_kind == ChartKind::Pie {
            self.draw_pie(cv);
        } else {
            self.draw_plot(cv, &v);
        }
        assert(cv@ =~= old(cv)@ + self@.chart_screen(label_w as int));
    }
}

} // verus!
