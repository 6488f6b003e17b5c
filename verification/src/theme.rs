//! Colour themes. A compact semantic palette keeps both the dark and the light
//! variant readable and lets every draw call pull from one place.

use vstd::prelude::*;

verus! {

/// A literal screen colour: red, green, blue.
pub type Rgb = (u8, u8, u8);

pub open spec fn inked(c: Rgb) -> Rgb {
    (c.0 / 2, c.1 / 2, c.2 / 2)
}

/// Convert a palette colour into a text tint.
///
/// Glyphs are white texels that the hardware modulates as
/// `texel * tint / 128`, so a tint shows at twice its value. Halving makes one
/// palette mean the same for text as it does for flat rectangles.
pub fn ink(c: Rgb) -> (t: Rgb)
    ensures
        t == inked(c),
{
    (c.0 / 2, c.1 / 2, c.2 / 2)
}

#[derive(Copy, Clone)]
pub struct Theme {
    /// Screen background.
    pub bg: Rgb,
    /// Formula bar, header and keyboard backdrops.
    pub panel: Rgb,
    /// Keyboard key face.
    pub key: Rgb,
    /// Cursor cell and selected key.
    pub accent: Rgb,
    /// Text drawn over `accent`.
    pub accent_text: Rgb,
    /// Primary text.
    pub text: Rgb,
    /// Headers, hints, secondary text.
    pub dim: Rgb,
    /// Cell reference tag and formula result.
    pub good: Rgb,
    /// Errors.
    pub bad: Rgb,
    /// Highlighted header, active toggle key.
    pub hot: Rgb,
    /// Grid separators.
    pub sep: Rgb,
}

/// The colours of the on-screen keyboard: faces as they are, texts as tints.
#[derive(Copy, Clone)]
pub struct Palette {
    pub panel: Rgb,
    pub key: Rgb,
    pub hot: Rgb,
    pub accent: Rgb,
    pub accent_text: Rgb,
    pub text: Rgb,
    pub dim: Rgb,
}

/// The keyboard palette of a theme.
pub open spec fn osk_of(t: Theme) -> Palette {
    Palette {
        panel: t.panel,
        key: t.key,
        hot: t.hot,
        accent: t.accent,
        accent_text: inked(t.accent_text),
        text: inked(t.text),
        dim: inked(t.dim),
    }
}

impl Theme {
    /// The keyboard palette of this theme. The keyboard fills with `panel`,
    /// `key`, `hot` and `accent`, and tints text with the other three, so only
    /// those get the [`ink`] halving.
    pub fn osk(&self) -> (p: Palette)
        ensures
            p == osk_of(*self),
    {
        Palette {
            panel: self.panel,
            key: self.key,
            hot: self.hot,
            accent: self.accent,
            accent_text: ink(self.accent_text),
            text: ink(self.text),
            dim: ink(self.dim),
        }
    }
}

/// Green chrome on a near-black background, with a gold highlight for the
/// active header and a mint result echo.
pub open spec fn dark_theme() -> Theme {
    Theme {
        bg: (10, 16, 13),
        panel: (20, 34, 26),
        key: (38, 54, 44),
        accent: (34, 150, 82),
        accent_text: (255, 255, 255),
        text: (224, 230, 224),
        dim: (128, 150, 134),
        good: (150, 235, 168),
        bad: (240, 110, 110),
        hot: (245, 214, 120),
        sep: (30, 48, 38),
    }
}

/// The same on a near-white background.
pub open spec fn light_theme() -> Theme {
    Theme {
        bg: (236, 243, 238),
        panel: (198, 224, 206),
        key: (240, 246, 241),
        accent: (30, 140, 74),
        accent_text: (255, 255, 255),
        text: (22, 34, 26),
        dim: (86, 112, 94),
        good: (22, 110, 52),
        bad: (188, 42, 42),
        hot: (150, 110, 20),
        sep: (176, 198, 182),
    }
}

pub open spec fn theme_of(dark: bool) -> Theme {
    if dark {
        dark_theme()
    } else {
        light_theme()
    }
}

/// Which theme is active.
#[derive(Copy, Clone, PartialEq, Eq, Structural)]
pub struct ThemeMode {
    pub dark: bool,
}

/// The active theme.
pub fn theme(mode: &ThemeMode) -> (t: Theme)
    ensures
        t == theme_of(mode.dark),
{
    if mode.dark {
        Theme {
            bg: (10, 16, 13),
            panel: (20, 34, 26),
            key: (38, 54, 44),
            accent: (34, 150, 82),
            accent_text: (255, 255, 255),
            text: (224, 230, 224),
            dim: (128, 150, 134),
            good: (150, 235, 168),
            bad: (240, 110, 110),
            hot: (245, 214, 120),
            sep: (30, 48, 38),
        }
    } else {
        Theme {
            bg: (236, 243, 238),
            panel: (198, 224, 206),
            key: (240, 246, 241),
            accent: (30, 140, 74),
            accent_text: (255, 255, 255),
            text: (22, 34, 26),
            dim: (86, 112, 94),
            good: (22, 110, 52),
            bad: (188, 42, 42),
            hot: (150, 110, 20),
            sep: (176, 198, 182),
        }
    }
}

pub fn is_dark(mode: &ThemeMode) -> (dark: bool)
    ensures
        dark == mode.dark,
{
    mode.dark
}

pub fn set_dark(mode: &mut ThemeMode, on: bool)
    ensures
        final(mode).dark == on,
{
    mode.dark = on;
}

// ---------------------------------------------------------------------------
// Blending
// ---------------------------------------------------------------------------

/// Division that rounds toward zero.
pub open spec fn toward_zero(a: int, b: int) -> int {
    if a < 0 {
        -((-a) / b)
    } else {
        a / b
    }
}

/// One channel `num/den` of the way from `x` to `y`; at least a whole way has
/// one step, and no more than the whole way is gone.
pub open spec fn blended(x: u8, y: u8, num: int, den: int) -> int {
    let n = if num <= den {
        num
    } else {
        den
    };
    let d = if den >= 1 {
        den
    } else {
        1
    };
    x + toward_zero((y - x) * n, d)
}

pub open spec fn blend(a: Rgb, b: Rgb, num: int, den: int) -> Rgb {
    (
        blended(a.0, b.0, num, den) as u8,
        blended(a.1, b.1, num, den) as u8,
        blended(a.2, b.2, num, den) as u8,
    )
}

/// A blended channel lies between its two ends.
pub proof fn law_blend_stays_between(x: u8, y: u8, num: int, den: int)
    requires
        0 <= num,
        0 <= den,
    ensures
        x <= y ==> x <= blended(x, y, num, den) <= y,
        y <= x ==> y <= blended(x, y, num, den) <= x,
{
    let n = if num <= den {
        num
    } else {
        den
    };
    let d = if den >= 1 {
        den
    } else {
        1
    };
    let s: int = if y >= x {
        y - x
    } else {
        x - y
    };
    assert(0 <= s * n <= s * d) by (nonlinear_arith)
        requires
            0 <= n <= d,
            0 <= s,
    ;
    assert(0 <= (s * n) / d <= s) by (nonlinear_arith)
        requires
            0 <= s * n <= s * d,
            d >= 1,
    ;
    if y < x {
        assert((y - x) * n == -(s * n)) by (nonlinear_arith)
            requires
                s == x - y,
        ;
    } else {
        assert((y - x) * n == s * n);
    }
}

/// No step leaves the first colour as it is, and the last step is the second.
pub proof fn law_blend_ends(a: Rgb, b: Rgb, den: int)
    requires
        den >= 1,
    ensures
        blend(a, b, 0, den) == a,
        blend(a, b, den, den) == b,
{
    lemma_blend_ends(a.0, b.0, den);
    lemma_blend_ends(a.1, b.1, den);
    lemma_blend_ends(a.2, b.2, den);
}

proof fn lemma_blend_ends(x: u8, y: u8, den: int)
    requires
        den >= 1,
    ensures
        blended(x, y, 0, den) == x,
        blended(x, y, den, den) == y,
{
    assert((y - x) * 0 == 0) by (nonlinear_arith);
    assert(0int / den == 0) by (nonlinear_arith)
        requires
            den >= 1,
    ;
    assert(((y - x) * den) / den == y - x && ((x - y) * den) / den == x - y) by (nonlinear_arith)
        requires
            den >= 1,
    ;
    assert(-((y - x) * den) == (x - y) * den) by (nonlinear_arith);
    assert(y >= x ==> (y - x) * den >= 0) by (nonlinear_arith)
        requires
            den >= 1,
    ;
    assert(y < x ==> (y - x) * den < 0) by (nonlinear_arith)
        requires
            den >= 1,
    ;
}

fn blend_channel(x: u8, y: u8, num: i32, den: i32) -> (c: u8)
    requires
        0 <= num <= 65535,
        0 <= den <= 65535,
    ensures
        c == blended(x, y, num as int, den as int),
{
    let n: i32 = if num <= den {
        num
    } else {
        den
    };
    let d: i32 = if den >= 1 {
        den
    } else {
        1
    };
    let diff: i32 = y as i32 - x as i32;
    proof {
        law_blend_stays_between(x, y, num as int, den as int);
    }
    assert(-255 * 65535 <= diff * n <= 255 * 65535) by (nonlinear_arith)
        requires
            -255 <= diff <= 255,
            0 <= n <= 65535,
    ;
    let p: i32 = diff * n;
    let q: i32 = p / d;
    assert(q == toward_zero(p as int, d as int));
    (x as i32 + q) as u8
}

/// Blend `num/den` of the way from `a` to `b`. There is no cheap alpha for
/// flat rectangles, so every fade and pulse is a blend against the opaque
/// thing behind it.
pub fn lerp(a: Rgb, b: Rgb, num: u16, den: u16) -> (c: Rgb)
    ensures
        c == blend(a, b, num as int, den as int),
{
    let n: i32 = num as i32;
    let d: i32 = den as i32;
    (
        blend_channel(a.0, b.0, n, d),
        blend_channel(a.1, b.1, n, d),
        blend_channel(a.2, b.2, n, d),
    )
}

/// Average two colours.
pub fn mix(a: Rgb, b: Rgb) -> (c: Rgb)
    ensures
        c == blend(a, b, 1, 2),
{
    lerp(a, b, 1, 2)
}

/// Distinct slice and series colours, readable on both themes; after the
/// eighth they start over.
pub open spec fn slice_color_of(i: int) -> Rgb {
    let k = i % 8;
    if k == 0 {
        (46, 170, 96)
    } else if k == 1 {
        (240, 200, 70)
    } else if k == 2 {
        (80, 150, 225)
    } else if k == 3 {
        (232, 112, 92)
    } else if k == 4 {
        (156, 100, 208)
    } else if k == 5 {
        (90, 205, 185)
    } else if k == 6 {
        (206, 146, 74)
    } else {
        (126, 196, 66)
    }
}

/// The colour of slice or series `i`.
pub fn slice_color(i: usize) -> (c: Rgb)
    ensures
        c == slice_color_of(i as int),
{
    let k: usize = i % 8;
    if k == 0 {
        (46, 170, 96)
    } else if k == 1 {
        (240, 200, 70)
    } else if k == 2 {
        (80, 150, 225)
    } else if k == 3 {
        (232, 112, 92)
    } else if k == 4 {
        (156, 100, 208)
    } else if k == 5 {
        (90, 205, 185)
    } else if k == 6 {
        (206, 146, 74)
    } else {
        (126, 196, 66)
    }
}

} // verus!
