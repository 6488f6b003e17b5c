//! Colours: blending, tints and themes.

use psxcel::theme::{ink, is_dark, lerp, mix, set_dark, slice_color, theme, ThemeMode};

fn plain(a: (u8, u8, u8), b: (u8, u8, u8), num: u16, den: u16) -> (u8, u8, u8) {
    let (num, den) = (num.min(den) as i32, den.max(1) as i32);
    let ch = |x: u8, y: u8| (x as i32 + (y as i32 - x as i32) * num / den) as u8;
    (ch(a.0, b.0), ch(a.1, b.1), ch(a.2, b.2))
}

#[test]
fn shared_lerp_preserves_zero_denominator() {
    for num in [0, 1, 40, u16::MAX] {
        let a = (1, 128, 254);
        let b = (255, 0, 7);
        assert_eq!(lerp(a, b, num, 0), plain(a, b, num, 0));
    }
}

#[test]
fn shared_lerp_preserves_channel_boundaries_and_rounding() {
    for x in 0..=255u8 {
        for y in 0..=255u8 {
            let a = (x, y, 255 - x);
            let b = (y, x, 255 - y);
            for den in [1, 2, 3, 32, 40, u16::MAX] {
                for num in [0, 1, den / 2, den, den.saturating_add(1), u16::MAX] {
                    assert_eq!(lerp(a, b, num, den), plain(a, b, num, den));
                }
            }
        }
    }
}

#[test]
fn blends_have_their_ends_and_middle() {
    let (a, b) = ((10, 200, 0), (20, 100, 255));
    assert_eq!(lerp(a, b, 0, 7), a);
    assert_eq!(lerp(a, b, 7, 7), b);
    assert_eq!(lerp(a, b, 9, 7), b);
    assert_eq!(mix(a, b), (15, 150, 127));
    assert_eq!(lerp((10, 0, 0), (0, 0, 0), 1, 3), (7, 0, 0));
}

#[test]
fn ink_halves_each_channel() {
    assert_eq!(ink((255, 3, 0)), (127, 1, 0));
}

#[test]
fn the_theme_switches() {
    let mut mode = ThemeMode { dark: true };
    assert_eq!(theme(&mode).bg, (10, 16, 13));
    set_dark(&mut mode, false);
    assert!(!is_dark(&mode));
    let t = theme(&mode);
    assert_eq!(t.bg, (236, 243, 238));
    let p = t.osk();
    assert_eq!(p.panel, t.panel);
    assert_eq!(p.key, (240, 246, 241));
    assert_eq!(p.text, (11, 17, 13));
    assert_eq!(p.accent_text, (127, 127, 127));
    assert_eq!(p.dim, (43, 56, 47));
}

#[test]
fn slice_colours_start_over_after_the_eighth() {
    assert_eq!(slice_color(0), (46, 170, 96));
    assert_eq!(slice_color(7), (126, 196, 66));
    assert_eq!(slice_color(8), slice_color(0));
}
