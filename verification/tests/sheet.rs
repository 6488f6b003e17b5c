//! The sheet: formulas, formatting, references, structure and saves.

use psxcel::fixed::{fint, fmod, fmul, round_int, ONE, TRUE_V};
use psxcel::formula::{classify, Parser};
use psxcel::grid::{idx, Kind, NCELLS};
use psxcel::number::{fmt_value, fmt_value_fit, parse_number_full, read_number};
use psxcel::refs::{rewrite_refs, Shift};
use psxcel::sheet::Sheet;
use psxcel::trace::cells_read;

fn eval(expr: &str) -> (i64, Kind) {
    classify(expr.as_bytes(), &[0i64; NCELLS], &[false; NCELLS])
}

#[test]
fn numbers_and_arithmetic() {
    assert_eq!(eval("12.5").0, 12 * ONE + ONE / 2);
    assert_eq!(eval("=2+3").0, 5 * ONE);
    assert_eq!(eval("=2*3.5").0, 7 * ONE);
    assert_eq!(eval("=10/4").0, 5 * ONE / 2); // 2.5
    assert_eq!(eval("=(1+2)*3").0, 9 * ONE);
    assert_eq!(eval("=-5+2").0, -3 * ONE);
    assert_eq!(eval("=100000*5").0, 500_000 * ONE);
    assert!(matches!(eval("hello").1, Kind::Text));
    assert!(matches!(eval("=1/0").1, Kind::Error));
}

#[test]
fn comparisons_and_conditionals() {
    assert_eq!(eval("=2<3").0, TRUE_V);
    assert_eq!(eval("=3<2").0, 0);
    assert_eq!(eval("=5=5").0, TRUE_V);
    assert_eq!(eval("=5<>5").0, 0);
    assert_eq!(eval("=3>=3").0, TRUE_V);
    assert_eq!(eval("=4<=3").0, 0);
    assert_eq!(eval("=IF(1,10,20)").0, 10 * ONE);
    assert_eq!(eval("=IF(0,10,20)").0, 20 * ONE);
    assert_eq!(eval("=IF(2>1,100,200)").0, 100 * ONE);
    assert_eq!(eval("=IF(2>3,100,200)").0, 200 * ONE);
    // Case-insensitive + nested arithmetic in branches.
    assert_eq!(eval("=if(1<0, 1+1, 3*2)").0, 6 * ONE);
}

#[test]
fn abs_and_round() {
    assert_eq!(eval("=ABS(-5)").0, 5 * ONE);
    assert_eq!(eval("=ABS(5)").0, 5 * ONE);
    assert_eq!(eval("=ROUND(2.7)").0, 3 * ONE);
    assert_eq!(eval("=ROUND(2.4)").0, 2 * ONE);
    assert_eq!(eval("=ROUND(2.5)").0, 3 * ONE);
    assert_eq!(eval("=ROUND(-2.6)").0, -3 * ONE);
    // Composes with the rest of the grammar.
    assert_eq!(eval("=ABS(3-8)+1").0, 6 * ONE);
}

#[test]
fn int_and_mod() {
    assert_eq!(eval("=INT(2.7)").0, 2 * ONE);
    assert_eq!(eval("=INT(-2.5)").0, -3 * ONE); // floor toward -inf
    assert_eq!(eval("=INT(5)").0, 5 * ONE);
    assert_eq!(eval("=MOD(7,3)").0, ONE); // 1
    assert_eq!(eval("=MOD(5.5,2)").0, 3 * ONE / 2); // 1.5
    assert_eq!(eval("=MOD(-3,2)").0, ONE); // sign of divisor -> 1
    assert_eq!(eval("=MOD(3,-2)").0, -ONE); // -> -1
    assert!(matches!(eval("=MOD(5,0)").1, Kind::Error));
}

#[test]
fn count_numeric_cells() {
    let mut snap = [0i64; NCELLS];
    let mut nums = [false; NCELLS];
    // A1=1 (num), A2 text, A3=3 (num), A4 empty.
    snap[idx(0, 0)] = ONE;
    nums[idx(0, 0)] = true;
    snap[idx(0, 2)] = 3 * ONE;
    nums[idx(0, 2)] = true;
    let mut p = Parser {
        b: b"COUNT(A1:A4)",
        pos: 0,
        snap: &snap,
        nums: &nums,
    };
    assert_eq!(p.parse_full(), Some(2 * ONE)); // two numeric cells
}

#[test]
fn fit_formatting() {
    let mut b = [0u8; 16];
    // Fits: returned as-is.
    assert_eq!(fmt_value_fit(12 * ONE + ONE / 2, 6, &mut b), "12.5");
    assert_eq!(fmt_value_fit(999_999 * ONE, 6, &mut b), "999999");
    // Too wide -> compact scientific (never a truncated wrong number).
    assert_eq!(fmt_value_fit(1_000_000 * ONE, 6, &mut b), "1e6");
    assert_eq!(fmt_value_fit(123_456_789 * ONE, 6, &mut b), "1.23e8");
    assert_eq!(fmt_value_fit(-(123_456_789 * ONE), 6, &mut b), "-1.2e8");
    // All results stay within the width.
    for v in [1_i64, 50, 999, 1_000_000, 123_456_789, -987_654_321] {
        assert!(fmt_value_fit(v * ONE, 6, &mut b).len() <= 6);
    }
}

#[test]
fn refs_and_ranges() {
    let mut snap = [0i64; NCELLS];
    snap[idx(0, 0)] = ONE; // A1 = 1
    snap[idx(0, 1)] = 2 * ONE; // A2 = 2
    snap[idx(0, 2)] = 3 * ONE; // A3 = 3
    let mut p = Parser {
        b: b"A1+A2*A3",
        pos: 0,
        snap: &snap,
        nums: &[false; NCELLS],
    };
    assert_eq!(p.parse_full(), Some(7 * ONE)); // 1 + 2*3
    let mut p = Parser {
        b: b"SUM(A1:A3)",
        pos: 0,
        snap: &snap,
        nums: &[false; NCELLS],
    };
    assert_eq!(p.parse_full(), Some(6 * ONE));
    let mut p = Parser {
        b: b"AVG(A1:A3)",
        pos: 0,
        snap: &snap,
        nums: &[false; NCELLS],
    };
    assert_eq!(p.parse_full(), Some(2 * ONE));
}

#[test]
fn case_insensitive_refs_and_funcs() {
    let mut snap = [0i64; NCELLS];
    snap[idx(0, 0)] = 5 * ONE; // A1 = 5
    snap[idx(0, 1)] = 3 * ONE; // A2 = 3
    let mut p = Parser {
        b: b"a1+a2",
        pos: 0,
        snap: &snap,
        nums: &[false; NCELLS],
    };
    assert_eq!(p.parse_full(), Some(8 * ONE));
    let mut p = Parser {
        b: b"sum(a1:a2)",
        pos: 0,
        snap: &snap,
        nums: &[false; NCELLS],
    };
    assert_eq!(p.parse_full(), Some(8 * ONE));
}

fn adj(src: &str, dc: i32, dr: i32) -> String {
    rw(src, Shift::Fill { dcol: dc, drow: dr })
}

fn rw(src: &str, shift: Shift) -> String {
    let mut out = [0u8; 32];
    let n = rewrite_refs(src.as_bytes(), shift, &mut out);
    String::from_utf8(out[..n].to_vec()).unwrap()
}

fn raw_at(sh: &Sheet, col: usize, row: usize) -> String {
    String::from_utf8(sh.cells[idx(col, row)].raw().to_vec()).unwrap()
}

#[test]
fn relative_ref_adjust() {
    assert_eq!(adj("=B2*C2", 0, 1), "=B3*C3");
    assert_eq!(adj("=A1+5", 1, 0), "=B1+5");
    assert_eq!(adj("=SUM(A1:A3)", 0, 2), "=SUM(A3:A5)");
    assert_eq!(adj("=IF(D5>5,1,0)", 1, 0), "=IF(E5>5,1,0)");
    // Clamped at the grid edge instead of going negative.
    assert_eq!(adj("=A1", -1, 0), "=A1");
    // Row digit growth (9 -> 12) is handled.
    assert_eq!(adj("=A9+A9", 0, 3), "=A12+A12");
}

#[test]
fn fill_down_shifts_refs() {
    let mut sh = Sheet::new();
    sh.set(1, 1, b"3"); // B2
    sh.set(2, 1, b"1.50"); // C2
    sh.set(1, 2, b"2"); // B3
    sh.set(2, 2, b"2.25"); // C3
    sh.set(3, 1, b"=B2*C2"); // D2 = 4.5
    // Fill D2's formula down into D2:D3.
    sh.fill(3, 1, b"=B2*C2", 3, 1, 3, 2);
    assert_eq!(sh.cells[idx(3, 1)].raw(), b"=B2*C2");
    assert_eq!(sh.cells[idx(3, 1)].value, 9 * ONE / 2); // 4.5
    assert_eq!(sh.cells[idx(3, 2)].raw(), b"=B3*C3"); // shifted
    assert_eq!(sh.cells[idx(3, 2)].value, 9 * ONE / 2); // 2 * 2.25
}

#[test]
fn row_insert_shifts_refs_below() {
    assert_eq!(rw("=A5+A2", Shift::Rows { at: 3, delta: 1 }), "=A6+A2");
    assert_eq!(rw("=SUM(A4:A9)", Shift::Rows { at: 3, delta: 1 }), "=SUM(A5:A10)");
    // A reference above the inserted line is untouched.
    assert_eq!(rw("=A1", Shift::Rows { at: 3, delta: 1 }), "=A1");
}

#[test]
fn row_delete_invalidates_refs_to_that_row() {
    // Rows below the deletion follow their data up...
    assert_eq!(rw("=A9", Shift::Rows { at: 3, delta: -1 }), "=A8");
    // ...and a reference to the deleted row itself becomes unparseable.
    assert_eq!(rw("=A4", Shift::Rows { at: 3, delta: -1 }), "=A0");
    assert!(matches!(eval("=A0").1, Kind::Error));
}

#[test]
fn col_insert_and_delete_shift_refs() {
    assert_eq!(rw("=C1+A1", Shift::Cols { at: 1, delta: 1 }), "=D1+A1");
    assert_eq!(rw("=C1", Shift::Cols { at: 1, delta: -1 }), "=B1");
    assert_eq!(rw("=B1", Shift::Cols { at: 1, delta: -1 }), "=B0"); // deleted
}

#[test]
fn insert_row_moves_data_and_repoints_formulas() {
    let mut sh = Sheet::new();
    sh.set(0, 0, b"10"); // A1
    sh.set(0, 1, b"20"); // A2
    sh.set(1, 1, b"=A2*2"); // B2 -> 40
    sh.insert_row(1); // blank row between A1 and the old A2
    assert_eq!(raw_at(&sh, 0, 0), "10"); // A1 stayed
    assert!(sh.cells[idx(0, 1)].is_empty()); // A2 is the new blank row
    assert_eq!(raw_at(&sh, 0, 2), "20"); // data slid to A3
    assert_eq!(raw_at(&sh, 1, 2), "=A3*2"); // formula followed its data
    assert_eq!(sh.cells[idx(1, 2)].value, 40 * ONE);
}

#[test]
fn delete_row_pulls_up_and_repoints_formulas() {
    let mut sh = Sheet::new();
    sh.set(0, 0, b"1");
    sh.set(0, 1, b"2");
    sh.set(0, 2, b"3");
    sh.set(1, 0, b"=A3"); // B1 -> 3
    sh.delete_row(1); // remove the "2"
    assert_eq!(raw_at(&sh, 0, 1), "3"); // pulled up to A2
    assert_eq!(raw_at(&sh, 1, 0), "=A2"); // still points at the 3
    assert_eq!(sh.cells[idx(1, 0)].value, 3 * ONE);
}

#[test]
fn delete_column_orphans_a_reference_to_it() {
    let mut sh = Sheet::new();
    sh.set(1, 0, b"7"); // B1
    sh.set(2, 0, b"=B1"); // C1 -> 7
    sh.delete_col(1); // B is gone; the formula slides into B1
    assert_eq!(raw_at(&sh, 1, 0), "=B0");
    assert!(matches!(sh.cells[idx(1, 0)].kind, Kind::Error));
}

#[test]
fn stats_ignore_non_numeric_cells() {
    let mut sh = Sheet::new();
    sh.set(0, 0, b"10");
    sh.set(0, 1, b"NAME"); // text: contributes nothing
    sh.set(0, 2, b"20");
    // A4 left empty.
    let (sum, count) = sh.stats(0, 0, 0, 3);
    assert_eq!(sum, 30 * ONE);
    assert_eq!(count, 2); // so AVG = 15, not 7.5
    assert_eq!(sum / count as i64, 15 * ONE);
}

#[test]
fn preview_evaluates_without_storing() {
    let mut sh = Sheet::new();
    sh.set(0, 0, b"6");
    let (v, kind) = sh.preview(b"=A1*7");
    assert_eq!(v, 42 * ONE);
    assert!(matches!(kind, Kind::Num));
    // The sheet is untouched: B1 is still empty.
    assert!(sh.cells[idx(1, 0)].is_empty());
    // A half-typed formula reports an error, which is what greys out the readout.
    assert!(matches!(sh.preview(b"=A1*").1, Kind::Error));
}

#[test]
fn clear_rect_empties_only_the_rectangle() {
    let mut sh = Sheet::new();
    for row in 0..4 {
        sh.set(0, row, b"1");
        sh.set(1, row, b"2");
    }
    sh.clear_rect(0, 1, 0, 2); // A2:A3
    assert_eq!(raw_at(&sh, 0, 0), "1");
    assert!(sh.cells[idx(0, 1)].is_empty());
    assert!(sh.cells[idx(0, 2)].is_empty());
    assert_eq!(raw_at(&sh, 0, 3), "1");
    assert_eq!(raw_at(&sh, 1, 1), "2"); // column B untouched
}

#[test]
fn serialize_roundtrip() {
    let mut a = Sheet::new();
    a.set(0, 0, b"ITEM");
    a.set(1, 1, b"3");
    a.set(2, 1, b"1.50");
    a.set(3, 1, b"=B2*C2");
    a.set(25, 49, b"corner");
    let mut buf = [0u8; 2048];
    let n = a.serialize(&mut buf).unwrap();

    let mut b = Sheet::new();
    assert!(b.deserialize(&buf[..n]));
    assert_eq!(b.cells[idx(0, 0)].raw(), b"ITEM");
    assert_eq!(b.cells[idx(3, 1)].raw(), b"=B2*C2");
    assert_eq!(b.cells[idx(3, 1)].value, 9 * ONE / 2); // 4.5, recomputed after load
    assert_eq!(b.cells[idx(25, 49)].raw(), b"corner");
    // Cells not saved come back empty.
    assert!(b.cells[idx(5, 5)].is_empty());
}

#[test]
fn serialize_out_of_space() {
    let mut a = Sheet::new();
    a.set(0, 0, b"hello");
    let mut tiny = [0u8; 4];
    assert!(a.serialize(&mut tiny).is_none());
}

#[test]
fn formatting() {
    let mut b = [0u8; 16];
    assert_eq!(fmt_value(12 * ONE + ONE / 2, &mut b), "12.5");
    assert_eq!(fmt_value(12 * ONE, &mut b), "12");
    assert_eq!(fmt_value(-(3 * ONE + ONE / 20), &mut b), "-3.05"); // 0.05 = ONE/20
    assert_eq!(fmt_value(0, &mut b), "0");
    // A four-decimal value round-trips through the formatter.
    assert_eq!(fmt_value(ONE / 8, &mut b), "0.125"); // 0.1250 -> "0.125"
    assert_eq!(fmt_value(1_234_567 * ONE, &mut b), "1234567");
}

// -------------------------------------------------------------------------
// Edges
// -------------------------------------------------------------------------

#[test]
fn overflow_is_an_error_and_not_a_wrapped_number() {
    assert!(matches!(eval("=900000000000*900000000000").1, Kind::Error));
    assert!(matches!(eval("=922337203685477+1").1, Kind::Error));
    assert!(matches!(eval("=922337203685477.5+0").1, Kind::Num));
    assert_eq!(fmul(i64::MAX, i64::MAX), None);
    assert_eq!(fmul(3 * ONE, -2 * ONE), Some(-6 * ONE));
    assert_eq!(round_int(i64::MAX), None);
    assert_eq!(fint(i64::MIN), None);
    assert_eq!(fint(-1), Some(-ONE));
    assert_eq!(fmod(-1, 3), Some(2));
    assert_eq!(parse_number_full(b"99999999999999999999"), None);
}

#[test]
fn malformed_formulas_are_errors() {
    for f in [
        "=", "=1+", "=(1", "=1)", "=SUM(A1)", "=SUM(A1:A0)", "=NOPE(1)", "=AB1", "=A51", "=A",
        "=A99999999999999999999", "=1 2", "=IF(1,2)", "=$",
    ] {
        assert!(matches!(eval(f).1, Kind::Error), "{}", f);
    }
    assert!(eval("=  1 +  2 ") == (3 * ONE, Kind::Num));
    assert!(eval("") == (0, Kind::Empty));
    assert_eq!(eval("=+-+5").0, -5 * ONE);
    assert_eq!(eval("=.5").0, ONE / 2);
    assert!(matches!(eval("=.").1, Kind::Error));
}

#[test]
fn a_branch_not_taken_must_still_have_a_value() {
    assert!(matches!(eval("=IF(1,2,1/0)").1, Kind::Error));
}

#[test]
fn range_functions_take_the_corners_in_any_order() {
    let mut sh = Sheet::new();
    sh.set(0, 0, b"4");
    sh.set(1, 0, b"-9");
    sh.set(0, 1, b"x");
    sh.set(1, 1, b"2");
    assert_eq!(sh.preview(b"=SUM(B2:A1)").0, -3 * ONE);
    assert_eq!(sh.preview(b"=MIN(A2:B1)").0, -9 * ONE);
    assert_eq!(sh.preview(b"=MAX(A1:B2)").0, 4 * ONE);
    assert_eq!(sh.preview(b"=COUNT(A1:B2)").0, 3 * ONE);
    assert_eq!(sh.preview(b"=AVG(A1:B2)").0, -3 * ONE / 4);
}

#[test]
fn a_long_chain_settles_at_once() {
    // A1 = 1 and each next cell, down one column and on to the next, is one
    // more: a chain far longer than a column.
    let mut sh = Sheet::new();
    for n in (1..120usize).rev() {
        let (col, row) = (n / 50, n % 50);
        let (pc, pr) = ((n - 1) / 50, (n - 1) % 50);
        let text = format!("={}{}+1", (b'A' + pc as u8) as char, pr + 1);
        sh.set(col, row, text.as_bytes());
    }
    sh.set(0, 0, b"1");
    assert_eq!(sh.cells[idx(119 / 50, 119 % 50)].value, 120 * ONE);
    sh.set(0, 0, b"1001");
    assert_eq!(sh.cells[idx(119 / 50, 119 % 50)].value, 1120 * ONE);
}

#[test]
fn a_circle_stops_and_keeps_its_last_values() {
    let mut sh = Sheet::new();
    sh.set(0, 0, b"=A1+1");
    assert_eq!(sh.cells[idx(0, 0)].value, 52 * ONE);
    assert!(sh.cells[idx(0, 0)].kind == Kind::Num);
}

#[test]
fn count_follows_a_cell_that_turns_into_a_zero() {
    let mut sh = Sheet::new();
    sh.set(1, 0, b"=COUNT(A1:A3)");
    sh.set(0, 0, b"0");
    assert_eq!(sh.cells[idx(1, 0)].value, ONE);
    sh.set(0, 0, b"zero");
    assert_eq!(sh.cells[idx(1, 0)].value, 0);
}

#[test]
fn a_long_text_is_cut_to_the_cell() {
    let mut sh = Sheet::new();
    sh.set(0, 0, b"abcdefghijklmnopqrstuvwxyz");
    assert_eq!(raw_at(&sh, 0, 0), "abcdefghijklmnopqrstuvwx");
    // A rewritten formula is cut as well.
    sh.set_shifted(0, 1, b"=A9+A9+A9+A9+A9+A9+A9+A9", 0, 1);
    assert_eq!(raw_at(&sh, 0, 1), "=A10+A10+A10+A10+A10+A10");
    // Off the grid nothing is written.
    sh.set_shifted(26, 0, b"1", 0, 0);
    assert!(sh.cells[idx(0, 1)].raw().starts_with(b"=A10"));
}

#[test]
fn inserting_at_the_end_or_beyond() {
    let mut sh = Sheet::new();
    sh.set(0, 49, b"last");
    sh.insert_row(50);
    assert_eq!(raw_at(&sh, 0, 49), "last");
    sh.insert_row(49);
    assert!(sh.cells[idx(0, 49)].is_empty());
    sh.set(25, 3, b"edge");
    sh.insert_col(26);
    assert_eq!(raw_at(&sh, 25, 3), "edge");
    sh.insert_col(0);
    assert!(sh.cells[idx(25, 3)].is_empty());
}

#[test]
fn deleting_what_was_inserted_restores_the_sheet() {
    let mut sh = Sheet::new();
    sh.set(0, 0, b"5");
    sh.set(1, 3, b"=A1*A1");
    sh.set(2, 4, b"=SUM(A1:B4)");
    sh.insert_row(2);
    assert_eq!(raw_at(&sh, 2, 5), "=SUM(A1:B5)");
    sh.delete_row(2);
    assert_eq!(raw_at(&sh, 2, 4), "=SUM(A1:B4)");
    sh.insert_col(1);
    assert_eq!(raw_at(&sh, 3, 4), "=SUM(A1:C4)");
    sh.delete_col(1);
    assert_eq!(raw_at(&sh, 1, 3), "=A1*A1");
    assert_eq!(sh.cells[idx(2, 4)].value, 30 * ONE);
}

#[test]
fn a_lost_reference_stays_lost_when_rows_move_again() {
    let mut sh = Sheet::new();
    sh.set(0, 4, b"9");
    sh.set(1, 0, b"=a5+1");
    sh.delete_row(4);
    assert_eq!(raw_at(&sh, 1, 0), "=A0+1");
    assert!(matches!(sh.cells[idx(1, 0)].kind, Kind::Error));
    sh.insert_row(2);
    assert_eq!(raw_at(&sh, 1, 0), "=A0+1");
    assert!(matches!(sh.cells[idx(1, 0)].kind, Kind::Error));
}

#[test]
fn a_truncated_stream_leaves_a_cleared_sheet() {
    let mut a = Sheet::new();
    a.set(0, 0, b"one");
    a.set(1, 0, b"two");
    let data = a.stream(4096).unwrap();
    let mut b = Sheet::new();
    b.set(4, 4, b"old");
    assert!(!b.deserialize(&data[..data.len() - 1]));
    assert!(b.cells[idx(0, 0)].is_empty());
    assert!(b.cells[idx(4, 4)].is_empty());
    assert!(!b.deserialize(&[]));
    assert!(b.deserialize(&[0, 0]));
    // What stands behind the stream does not matter.
    let mut padded = data.clone();
    padded.extend_from_slice(&[7; 100]);
    assert!(b.deserialize(&padded));
    assert_eq!(raw_at(&b, 1, 0), "two");
    // A record of a cell that does not exist is skipped.
    assert!(b.deserialize(&[2, 0, 99, 0, 1, b'x', 1, 0, 1, b'y']));
    assert_eq!(raw_at(&b, 1, 0), "y");
    assert!(b.cells[idx(0, 0)].is_empty());
}

#[test]
fn a_stream_has_its_bytes_in_order() {
    let mut a = Sheet::new();
    a.set(2, 1, b"hi");
    let mut buf = [9u8; 12];
    assert_eq!(a.serialize(&mut buf), Some(7));
    assert_eq!(buf, [1, 0, 2, 1, 2, b'h', b'i', 9, 9, 9, 9, 9]);
    assert!(a.stream(6).is_none());
    assert_eq!(a.stream(7).unwrap(), vec![1, 0, 2, 1, 2, b'h', b'i']);
}

#[test]
fn written_values_read_back() {
    let mut b = [0u8; 24];
    for v in [0, 1, -1, ONE, -ONE, 12_345, -9_999_999, i64::MAX, i64::MIN + 1] {
        let s = fmt_value(v, &mut b).to_string();
        assert_eq!(parse_number_full(s.as_bytes()), Some(v), "{}", s);
    }
    assert_eq!(fmt_value(i64::MIN, &mut b), "-922337203685477.5808");
}

#[test]
fn statistics_hold_at_the_ends_of_the_range() {
    let mut sh = Sheet::new();
    sh.set(0, 0, b"922337203685477");
    sh.set(0, 1, b"922337203685477");
    assert_eq!(sh.stats(0, 0, 0, 1), (i64::MAX, 2));
    assert_eq!(sh.stats(5, 5, 4, 4), (0, 0));
    assert_eq!(sh.stats(0, 0, 900, 900).1, 2);
}

#[test]
fn moving_lines_keeps_values() {
    let mut sh = Sheet::new();
    sh.set(0, 0, b"3");
    sh.set(0, 1, b"4");
    sh.set(1, 4, b"= a1*A2 + SUM(A1:A2)");
    assert_eq!(sh.cells[idx(1, 4)].value, 19 * ONE);
    sh.insert_row(0);
    assert_eq!(raw_at(&sh, 1, 5), "= A2*A3 + SUM(A2:A3)");
    assert_eq!(sh.cells[idx(1, 5)].value, 19 * ONE);
    sh.insert_col(0);
    assert_eq!(raw_at(&sh, 2, 5), "= B2*B3 + SUM(B2:B3)");
    assert_eq!(sh.cells[idx(2, 5)].value, 19 * ONE);
    sh.delete_col(0);
    sh.delete_row(0);
    assert_eq!(raw_at(&sh, 1, 4), "= A1*A2 + SUM(A1:A2)");
    assert_eq!(sh.cells[idx(1, 4)].value, 19 * ONE);
}

#[test]
fn a_parser_takes_up_anywhere() {
    let snap = [0i64; NCELLS];
    let mut p = Parser { b: b"x+ 4/8", pos: 2, snap: &snap, nums: &[false; NCELLS] };
    assert_eq!(p.parse_full(), Some(ONE / 2));
    let mut p = Parser { b: b"4", pos: 1, snap: &snap, nums: &[false; NCELLS] };
    assert_eq!(p.parse_full(), None);
}

#[test]
fn products_are_cut_toward_zero() {
    assert_eq!(fmul(15_000, 3), Some(4));
    assert_eq!(fmul(-15_000, 3), Some(-4));
    assert_eq!(round_int(-25_000), Some(-30_000));
    assert_eq!(fint(-1), Some(-ONE));
    assert_eq!(fmod(-7 * ONE, -3 * ONE), Some(-ONE));
}

#[test]
fn a_wide_value_below_one_shows_its_magnitude() {
    let mut b = [0u8; 24];
    assert_eq!(fmt_value_fit(1234, 6, &mut b), "0.1234");
    assert_eq!(fmt_value_fit(1234, 5, &mut b), "1e-1");
    assert_eq!(fmt_value_fit(1234, 4, &mut b), "1e-1");
    assert_eq!(fmt_value_fit(-1234, 6, &mut b), "-1e-1");
    assert_eq!(fmt_value_fit(-56, 5, &mut b), "-5e-3");
    assert_eq!(fmt_value_fit(9, 4, &mut b), "9e-4");
    assert_eq!(fmt_value_fit(ONE + 2345, 5, &mut b), "1e0");
    assert_eq!(fmt_value_fit(12 * ONE + 3456, 5, &mut b), "1.2e1");
}

#[test]
fn a_number_leaves_its_place_in_the_text() {
    let read = |b: &[u8]| {
        let mut p = 0usize;
        let v = read_number(b, &mut p);
        (v, p)
    };
    assert_eq!(read(b"-12.345678"), (Some(-123456), 10));
    assert_eq!(read(b"3.25)"), (Some(32500), 4));
    assert_eq!(read(b"-."), (None, 0));
    assert_eq!(read(b"x1"), (None, 0));
    assert_eq!(read(b"+"), (None, 0));
    // Nineteen nines: the last one is too much.
    assert_eq!(read(b"9999999999999999999"), (None, 18));
    // The whole part fits, the scaled value does not.
    assert_eq!(read(b"1000000000000000.5x"), (None, 18));
}

#[test]
fn case_never_changes_a_result() {
    for s in ["=if(a1<b2, round(2.5), -mod(7,c3))", "=sum(a1:b2)+count(a1:c9)", "=foo(1)", "abc", "=a"] {
        let up = s.to_ascii_uppercase();
        assert!(eval(s) == eval(&up));
    }
    assert_eq!(eval("=round(2.5)").0, 3 * ONE);
}

#[test]
fn relations_are_opposites() {
    for (x, y) in [("1+2 ", " 3"), ("(1<2)", "0"), ("-.5", "ABS(-2)"), ("2*3", "MAX(A1:A2)")] {
        let c = |op: &str| eval(&format!("={}{}{}", x, op, y)).0;
        assert!(c("<") == 0 || c("<") == ONE);
        assert_eq!(c("<") + c(">="), ONE);
        assert_eq!(c("<=") + c(">"), ONE);
        assert_eq!(c("=") + c("<>"), ONE);
        assert_eq!(c("<=") == ONE, c("<") == ONE || c("=") == ONE);
    }
}

#[test]
fn a_preview_is_what_a_commit_shows() {
    let mut sh = Sheet::new();
    sh.set(0, 0, b"6");
    sh.set(1, 0, b"=A1*7");
    for raw in ["=B1+1", "=B1/0", "12.5", "text", ""] {
        let before = sh.preview(raw.as_bytes());
        let mut there = Sheet::new();
        there.set(0, 0, b"6");
        there.set(1, 0, b"=A1*7");
        there.set(3, 3, raw.as_bytes());
        let c = &there.cells[idx(3, 3)];
        assert!((c.value, c.kind) == before);
        assert_eq!(there.cells[idx(1, 0)].value, 42 * ONE);
    }
}

#[test]
fn deleting_the_inserted_line_gives_back_the_texts() {
    let mut sh = Sheet::new();
    sh.set(0, 0, b"=SUM(B1:C9)+A49");
    sh.set(3, 9, b"=Y10-MOD(A9,2)");
    sh.set(2, 4, b"b7");
    for at in [0usize, 9, 49] {
        sh.insert_row(at);
        sh.delete_row(at);
        assert_eq!(raw_at(&sh, 0, 0), "=SUM(B1:C9)+A49");
        assert_eq!(raw_at(&sh, 3, 9), "=Y10-MOD(A9,2)");
        assert_eq!(raw_at(&sh, 2, 4), "b7");
    }
    for at in [0usize, 2, 25] {
        sh.insert_col(at);
        sh.delete_col(at);
        assert_eq!(raw_at(&sh, 0, 0), "=SUM(B1:C9)+A49");
        assert_eq!(raw_at(&sh, 3, 9), "=Y10-MOD(A9,2)");
        assert_eq!(raw_at(&sh, 2, 4), "b7");
    }
}

#[test]
fn a_circle_that_would_settle_later_stops_at_the_cap() {
    let mut sh = Sheet::new();
    sh.set(0, 0, b"=IF(A1<100,A1+1,A1)");
    assert_eq!(sh.cells[idx(0, 0)].value, 52 * ONE);
    // One that settles in time is settled.
    let mut sh = Sheet::new();
    sh.set(0, 0, b"=IF(A1<10,A1+1,A1)");
    assert_eq!(sh.cells[idx(0, 0)].value, 10 * ONE);
}

#[test]
fn a_deep_chain_resolves_beside_a_circle() {
    let mut sh = Sheet::new();
    // A1..A50 and on into B1..B50: a hundred cells, each one more than the last.
    for k in (0..100usize).rev() {
        let text = if k == 0 {
            String::from("1")
        } else {
            format!("={}{}+1", (b'A' + ((k - 1) / 50) as u8) as char, (k - 1) % 50 + 1)
        };
        sh.set(k / 50, k % 50, text.as_bytes());
    }
    assert_eq!(sh.cells[idx(1, 49)].value, 100 * ONE);
    sh.set(2, 0, b"=C1+1");
    sh.set(3, 0, b"=C1+A1");
    let stopped = sh.cells[idx(2, 0)].value;
    assert!(stopped != 0);
    sh.set(0, 0, b"1001");
    assert_eq!(sh.cells[idx(0, 49)].value, 1050 * ONE);
    assert_eq!(sh.cells[idx(1, 49)].value, 1100 * ONE);
    // The circle goes on for the cap's sweeps at each edit.
    assert_eq!(sh.cells[idx(2, 0)].value, stopped + 52 * ONE);
    assert_eq!(sh.cells[idx(3, 0)].value, stopped + 51 * ONE + 1001 * ONE);
    // A formula that is malformed reads nothing, so it is on no circle.
    sh.set(0, 0, b"=A1+");
    assert_eq!(sh.cells[idx(1, 49)].value, 99 * ONE);
}

#[test]
fn the_cells_that_a_text_reads() {
    let snap = [0i64; NCELLS];
    let nums = [false; NCELLS];
    let read = |s: &str| {
        let mut c = cells_read(s.as_bytes(), &snap, &nums);
        c.sort();
        c.dedup();
        c
    };
    assert_eq!(read("=a1+IF(B2>0, -C3, ABS(D4))"), vec![0, 27, 54, 81]);
    assert_eq!(read("= SUM( B2 : A1 ) * 2"), vec![0, 1, 26, 27]);
    assert_eq!(read("=MOD(A1,A2)/0"), vec![0, 26]);
    assert!(read("=A1+").is_empty());
    assert!(read("=A51").is_empty());
    assert!(read("A1").is_empty());
    assert!(read("12").is_empty());
}

#[test]
fn a_comparison_ends_where_its_text_does() {
    let snap = [0i64; NCELLS];
    let nums = [false; NCELLS];
    let mut p = Parser { b: b" 1 + 2 <= 3 ", pos: 0, snap: &snap, nums: &nums };
    assert_eq!(p.comparison(), Some(ONE));
    assert_eq!(p.pos, 12);
    let mut p = Parser { b: b" 1 + 2 ", pos: 0, snap: &snap, nums: &nums };
    assert_eq!(p.expr(), Some(3 * ONE));
    assert_eq!(p.pos, 7);
}
