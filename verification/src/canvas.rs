//! A frame as a list of things to draw, in order.

use vstd::prelude::*;

use crate::labels::{bytes, copied, utf8};
use crate::theme::{ink, inked, toward_zero, Palette, Rgb};

verus! {

/// One thing to draw. Colours of texts are tints, all others are screen
/// colours.
pub enum Draw {
    /// A flat rectangle.
    Fill { x: i16, y: i16, w: u16, h: u16, c: Rgb },
    /// A text, its glyphs `scale` times as large.
    Text { x: i16, y: i16, s: Vec<u8>, scale: u8, tint: Rgb },
    /// A flat four-cornered area between two points and the line `y0`.
    Quad { xa: i16, ya: i16, xb: i16, yb: i16, y0: i16, c: Rgb },
    /// A line of one pixel.
    Line { x0: i16, y0: i16, x1: i16, y1: i16, c: Rgb },
    /// A triangle from the centre of a circle to the points at two angles,
    /// which are parts of 4096.
    Wedge { cx: i16, cy: i16, r: i16, a: u32, b: u32, c: Rgb },
    /// Clip what follows to the rows `y0..=y1` of the screen.
    Band { y0: i16, y1: i16 },
    /// Clip what follows to the whole screen.
    Whole,
    /// The on-screen keyboard, with the hint on its panel.
    Keyboard { colors: Palette, hint: Vec<u8> },
}

/// What is drawn, with the text as a sequence.
pub enum Mark {
    Fill { x: i16, y: i16, w: u16, h: u16, c: Rgb },
    Text { x: i16, y: i16, s: Seq<u8>, scale: u8, tint: Rgb },
    Quad { xa: i16, ya: i16, xb: i16, yb: i16, y0: i16, c: Rgb },
    Line { x0: i16, y0: i16, x1: i16, y1: i16, c: Rgb },
    Wedge { cx: i16, cy: i16, r: i16, a: u32, b: u32, c: Rgb },
    Band { y0: i16, y1: i16 },
    Whole,
    Keyboard { colors: Palette, hint: Seq<u8> },
}

impl View for Draw {
    type V = Mark;

    open spec fn view(&self) -> Mark {
        match *self {
            Draw::Fill { x, y, w, h, c } => Mark::Fill { x, y, w, h, c },
            Draw::Text { x, y, s, scale, tint } => Mark::Text { x, y, s: s@, scale, tint },
            Draw::Quad { xa, ya, xb, yb, y0, c } => Mark::Quad { xa, ya, xb, yb, y0, c },
            Draw::Line { x0, y0, x1, y1, c } => Mark::Line { x0, y0, x1, y1, c },
            Draw::Wedge { cx, cy, r, a, b, c } => Mark::Wedge { cx, cy, r, a, b, c },
            Draw::Band { y0, y1 } => Mark::Band { y0, y1 },
            Draw::Whole => Mark::Whole,
            Draw::Keyboard { colors, hint } => Mark::Keyboard { colors, hint: hint@ },
        }
    }
}

/// A rectangle in a screen colour.
pub open spec fn fill_mark(x: int, y: int, w: int, h: int, c: Rgb) -> Mark {
    Mark::Fill { x: x as i16, y: y as i16, w: w as u16, h: h as u16, c }
}

/// A text in a palette colour.
pub open spec fn text_mark(x: int, y: int, s: Seq<u8>, c: Rgb) -> Mark {
    Mark::Text { x: x as i16, y: y as i16, s, scale: 1, tint: inked(c) }
}

/// A frame being drawn.
pub struct Canvas {
    pub ops: Vec<Draw>,
}

impl View for Canvas {
    type V = Seq<Mark>;

    open spec fn view(&self) -> Seq<Mark> {
        Seq::new(self.ops@.len(), |i: int| self.ops@[i]@)
    }
}

impl Canvas {
    /// Nothing drawn yet.
    pub fn new() -> (cv: Canvas)
        ensures
            cv@ == Seq::<Mark>::empty(),
    {
        let cv = Canvas { ops: Vec::new() };
        assert(cv@ =~= Seq::<Mark>::empty());
        cv
    }

    fn put(&mut self, d: Draw)
        ensures
            final(self)@ == old(self)@.push(d@),
    {
        self.ops.push(d);
        assert(self@ =~= old(self)@.push(d@));
    }

    /// Fill a screen rectangle with a flat colour.
    pub fn fill(&mut self, x: i16, y: i16, w: u16, h: u16, c: Rgb)
        ensures
            final(self)@ == old(self)@.push(fill_mark(x as int, y as int, w as int, h as int, c)),
    {
        self.put(Draw::Fill { x, y, w, h, c });
    }

    /// Draw text in a palette colour, halved as [`ink`] does.
    pub fn text(&mut self, x: i16, y: i16, s: &[u8], c: Rgb)
        ensures
            final(self)@ == old(self)@.push(text_mark(x as int, y as int, s@, c)),
    {
        self.put(Draw::Text { x, y, s: copied(s), scale: 1, tint: ink(c) });
    }

    /// Draw a fixed text in a palette colour.
    pub fn label(&mut self, x: i16, y: i16, s: &str, c: Rgb)
        ensures
            final(self)@ == old(self)@.push(text_mark(x as int, y as int, utf8(s), c)),
    {
        self.put(Draw::Text { x, y, s: bytes(s), scale: 1, tint: ink(c) });
    }

    /// Draw a fixed text at an integer scale.
    pub fn text_scaled(&mut self, x: i16, y: i16, s: &str, scale: u8, c: Rgb)
        ensures
            final(self)@ == old(self)@.push(
                Mark::Text { x, y, s: utf8(s), scale, tint: inked(c) },
            ),
    {
        self.put(Draw::Text { x, y, s: bytes(s), scale, tint: ink(c) });
    }

    /// Fill the area between two points and the line `y0`.
    pub fn quad(&mut self, xa: i16, ya: i16, xb: i16, yb: i16, y0: i16, c: Rgb)
        ensures
            final(self)@ == old(self)@.push(Mark::Quad { xa, ya, xb, yb, y0, c }),
    {
        self.put(Draw::Quad { xa, ya, xb, yb, y0, c });
    }

    /// Draw a line segment.
    pub fn line(&mut self, x0: i16, y0: i16, x1: i16, y1: i16, c: Rgb)
        ensures
            final(self)@ == old(self)@.push(Mark::Line { x0, y0, x1, y1, c }),
    {
        self.put(Draw::Line { x0, y0, x1, y1, c });
    }

    /// Fill a triangle of a pie.
    pub fn wedge(&mut self, cx: i16, cy: i16, r: i16, a: u32, b: u32, c: Rgb)
        ensures
            final(self)@ == old(self)@.push(Mark::Wedge { cx, cy, r, a, b, c }),
    {
        self.put(Draw::Wedge { cx, cy, r, a, b, c });
    }

    /// Clip drawing to a horizontal band of the screen.
    pub fn scissor_band(&mut self, y0: i16, y1: i16)
        ensures
            final(self)@ == old(self)@.push(Mark::Band { y0, y1 }),
    {
        self.put(Draw::Band { y0, y1 });
    }

    /// Clip drawing to the whole screen again.
    pub fn scissor_reset(&mut self)
        ensures
            final(self)@ == old(self)@.push(Mark::Whole),
    {
        self.put(Draw::Whole);
    }

    /// Draw the on-screen keyboard.
    pub fn keyboard(&mut self, colors: Palette, hint: &str)
        ensures
            final(self)@ == old(self)@.push(Mark::Keyboard { colors, hint: utf8(hint) }),
    {
        self.put(Draw::Keyboard { colors, hint: bytes(hint) });
    }
}

/// The rows of a frame buffer that lies at row `base`, for a band of the
/// screen.
pub fn band_rows(base: i16, y0: i16, y1: i16) -> (r: (u16, u16))
    requires
        0 <= base + y0 <= i16::MAX,
        0 <= base + y1 <= i16::MAX,
    ensures
        r.0 == base + y0,
        r.1 == base + y1,
{
    ((base + y0) as u16, (base + y1) as u16)
}

/// The part of a turn that an angle stands for, whole turns left out.
pub fn angle_index(angle: u32) -> (a: u16)
    ensures
        a == angle as int % 4096,
{
    (angle % 4096) as u16
}

/// The point on a circle whose angle has the given cosine and sine, in parts
/// of 4096.
pub open spec fn circle_point(cx: int, cy: int, r: int, cos: int, sin: int) -> (int, int) {
    (cx + toward_zero(cos * r, 4096), cy + toward_zero(sin * r, 4096))
}

/// A point on a circle of radius `r` about `(cx, cy)`, given the cosine and
/// the sine of its angle in parts of 4096.
pub fn pie_point(cx: i16, cy: i16, r: i16, cos: i32, sin: i32) -> (p: (i16, i16))
    requires
        0 <= r,
        -4096 <= cos <= 4096,
        -4096 <= sin <= 4096,
        i16::MIN <= cx - r,
        cx + r <= i16::MAX,
        i16::MIN <= cy - r,
        cy + r <= i16::MAX,
    ensures
        (p.0 as int, p.1 as int) == circle_point(
            cx as int,
            cy as int,
            r as int,
            cos as int,
            sin as int,
        ),
{
    let rr: i32 = r as i32;
    assert(-4096 * rr <= cos * rr <= 4096 * rr && -4096 * rr <= sin * rr <= 4096 * rr)
        by (nonlinear_arith)
        requires
            0 <= rr,
            -4096 <= cos <= 4096,
            -4096 <= sin <= 4096,
    ;
    let px: i32 = cos * rr;
    let py: i32 = sin * rr;
    let dx: i32 = px / 4096;
    let dy: i32 = py / 4096;
    assert(dx == toward_zero(px as int, 4096));
    assert(dy == toward_zero(py as int, 4096));
    ((cx as i32 + dx) as i16, (cy as i32 + dy) as i16)
}

} // verus!
