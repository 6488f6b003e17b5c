//! Sample sheets, offered on the start menu.

use vstd::prelude::*;

use crate::grid::ROWS;
use crate::labels::utf8;
use crate::modes::ChartKind;
use crate::sheet::{Grid, Sheet};

verus! {

/// How many sample sheets there are.
pub const SAMPLES: usize = 7;

/// A rectangle of cells: left, top, right, bottom.
pub type Span = (usize, usize, usize, usize);

/// The sheet with the first `n` rows of a table typed into columns A and B,
/// from row `row0` on.
pub open spec fn rows_typed(g: Grid, table: Seq<(&str, &str)>, row0: int, n: int) -> Grid
    decreases n,
{
    if n <= 0 {
        g
    } else {
        rows_typed(g, table, row0, n - 1).set(0, row0 + n - 1, utf8(table[n - 1].0)).set(
            1,
            row0 + n - 1,
            utf8(table[n - 1].1),
        )
    }
}

/// Type a table into columns A and B.
fn type_rows(sh: &mut Sheet, table: &[(&str, &str)], row0: usize)
    requires
        old(sh).wf(),
        row0 + table@.len() <= ROWS,
    ensures
        final(sh).wf(),
        final(sh)@ == rows_typed(old(sh)@, table@, row0 as int, table@.len() as int),
{
    let mut i: usize = 0;
    while i < table.len()
        invariant
            sh.wf(),
            i <= table@.len(),
            row0 + table@.len() <= ROWS,
            sh@ == rows_typed(old(sh)@, table@, row0 as int, i as int),
        decreases table@.len() - i,
    {
        let (label, value) = table[i];
        sh.set(0, row0 + i, label.as_bytes());
        sh.set(1, row0 + i, value.as_bytes());
        i += 1;
    }
}

pub fn sample_blank(sh: &mut Sheet)
    ensures
        final(sh).wf(),
        final(sh)@ == Grid::blank(),
{
    sh.reset();
}

pub open spec fn budget() -> Grid {
    Grid::blank().set(0, 0, utf8("ITEM")).set(1, 0, utf8("QTY")).set(2, 0, utf8("PRICE")).set(
        3,
        0,
        utf8("TOTAL"),
    ).set(0, 1, utf8("APPLE")).set(1, 1, utf8("3")).set(2, 1, utf8("1.50")).set(
        3,
        1,
        utf8("=B2*C2"),
    ).set(0, 2, utf8("BREAD")).set(1, 2, utf8("2")).set(2, 2, utf8("2.25")).set(
        3,
        2,
        utf8("=B3*C3"),
    ).set(0, 3, utf8("MILK")).set(1, 3, utf8("1")).set(2, 3, utf8("1.20")).set(
        3,
        3,
        utf8("=B4*C4"),
    ).set(0, 5, utf8("TOTAL")).set(3, 5, utf8("=SUM(D2:D4)"))
}

/// A small shopping list with per-row totals and a SUM.
pub fn sample_budget(sh: &mut Sheet)
    ensures
        final(sh).wf(),
        final(sh)@ == budget(),
{
    sh.reset();
    sh.set(0, 0, "ITEM".as_bytes());
    sh.set(1, 0, "QTY".as_bytes());
    sh.set(2, 0, "PRICE".as_bytes());
    sh.set(3, 0, "TOTAL".as_bytes());
    sh.set(0, 1, "APPLE".as_bytes());
    sh.set(1, 1, "3".as_bytes());
    sh.set(2, 1, "1.50".as_bytes());
    sh.set(3, 1, "=B2*C2".as_bytes());
    sh.set(0, 2, "BREAD".as_bytes());
    sh.set(1, 2, "2".as_bytes());
    sh.set(2, 2, "2.25".as_bytes());
    sh.set(3, 2, "=B3*C3".as_bytes());
    sh.set(0, 3, "MILK".as_bytes());
    sh.set(1, 3, "1".as_bytes());
    sh.set(2, 3, "1.20".as_bytes());
    sh.set(3, 3, "=B4*C4".as_bytes());
    sh.set(0, 5, "TOTAL".as_bytes());
    sh.set(3, 5, "=SUM(D2:D4)".as_bytes());
}

pub open spec fn months() -> Seq<(&'static str, &'static str)> {
    seq![
        ("JAN", "12"),
        ("FEB", "19"),
        ("MAR", "28"),
        ("APR", "22"),
        ("MAY", "35"),
        ("JUN", "41"),
        ("JUL", "38"),
        ("AUG", "45"),
        ("SEP", "33"),
        ("OCT", "29"),
        ("NOV", "24"),
        ("DEC", "31"),
    ]
}

pub open spec fn sales() -> Grid {
    rows_typed(
        Grid::blank().set(0, 0, utf8("MONTH")).set(1, 0, utf8("SALES")),
        months(),
        1,
        12,
    ).set(0, 13, utf8("TOTAL")).set(1, 13, utf8("=SUM(B2:B13)"))
}

/// Twelve months of numbers, ready to chart.
pub fn sample_sales(sh: &mut Sheet)
    ensures
        final(sh).wf(),
        final(sh)@ == sales(),
{
    sh.reset();
    sh.set(0, 0, "MONTH".as_bytes());
    sh.set(1, 0, "SALES".as_bytes());
    let table: [(&str, &str); 12] = [
        ("JAN", "12"),
        ("FEB", "19"),
        ("MAR", "28"),
        ("APR", "22"),
        ("MAY", "35"),
        ("JUN", "41"),
        ("JUL", "38"),
        ("AUG", "45"),
        ("SEP", "33"),
        ("OCT", "29"),
        ("NOV", "24"),
        ("DEC", "31"),
    ];
    assert(table@ =~= months());
    type_rows(sh, table.as_slice(), 1);
    sh.set(0, 13, "TOTAL".as_bytes());
    sh.set(1, 13, "=SUM(B2:B13)".as_bytes());
}

pub open spec fn function_rows() -> Seq<(&'static str, &'static str)> {
    seq![
        ("SUM", "=SUM(D1:D3)"),
        ("AVG", "=AVG(D1:D3)"),
        ("COUNT", "=COUNT(D1:D3)"),
        ("IF>50", "=IF(B1>50,1,0)"),
        ("MOD", "=MOD(17,5)"),
        ("ROUND", "=ROUND(3.14159)"),
        ("BIG", "=100000*100000"),
    ]
}

pub open spec fn functions() -> Grid {
    rows_typed(
        Grid::blank().set(3, 0, utf8("10")).set(3, 1, utf8("20")).set(3, 2, utf8("30")),
        function_rows(),
        0,
        7,
    )
}

/// A cheat-sheet showing the built-in functions at work.
pub fn sample_functions(sh: &mut Sheet)
    ensures
        final(sh).wf(),
        final(sh)@ == functions(),
{
    sh.reset();
    sh.set(3, 0, "10".as_bytes());
    sh.set(3, 1, "20".as_bytes());
    sh.set(3, 2, "30".as_bytes());
    let table: [(&str, &str); 7] = [
        ("SUM", "=SUM(D1:D3)"),
        ("AVG", "=AVG(D1:D3)"),
        ("COUNT", "=COUNT(D1:D3)"),
        ("IF>50", "=IF(B1>50,1,0)"),
        ("MOD", "=MOD(17,5)"),
        ("ROUND", "=ROUND(3.14159)"),
        ("BIG", "=100000*100000"),
    ];
    assert(table@ =~= function_rows());
    type_rows(sh, table.as_slice(), 0);
}

pub open spec fn expense_rows() -> Seq<(&'static str, &'static str)> {
    seq![("RENT", "800"), ("FOOD", "400"), ("CAR", "250"), ("FUN", "150"), ("MISC", "100")]
}

pub open spec fn expenses() -> Grid {
    rows_typed(Grid::blank(), expense_rows(), 0, 5).set(0, 6, utf8("TOTAL")).set(
        1,
        6,
        utf8("=SUM(B1:B5)"),
    )
}

/// Monthly expenses by category.
pub fn sample_expenses(sh: &mut Sheet)
    ensures
        final(sh).wf(),
        final(sh)@ == expenses(),
{
    sh.reset();
    let table: [(&str, &str); 5] = [
        ("RENT", "800"),
        ("FOOD", "400"),
        ("CAR", "250"),
        ("FUN", "150"),
        ("MISC", "100"),
    ];
    assert(table@ =~= expense_rows());
    type_rows(sh, table.as_slice(), 0);
    sh.set(0, 6, "TOTAL".as_bytes());
    sh.set(1, 6, "=SUM(B1:B5)".as_bytes());
}

pub open spec fn grade_rows() -> Seq<(&'static str, &'static str)> {
    seq![("ANA", "85"), ("BEN", "72"), ("CAI", "58"), ("DOT", "91"), ("EVE", "64")]
}

pub open spec fn grades() -> Grid {
    rows_typed(
        Grid::blank().set(0, 0, utf8("NAME")).set(1, 0, utf8("SCORE")).set(2, 0, utf8("PASS")),
        grade_rows(),
        1,
        5,
    ).set(2, 1, utf8("=IF(B2>=60,1,0)")).filled(
        2,
        1,
        utf8("=IF(B2>=60,1,0)"),
        2,
        1,
        2,
        5,
    ).recalculated().set(0, 7, utf8("AVG")).set(1, 7, utf8("=AVG(B2:B6)"))
}

/// A gradebook: scores, a pass/fail column filled with a relative IF, and AVG.
pub fn sample_grades(sh: &mut Sheet)
    ensures
        final(sh).wf(),
        final(sh)@ == grades(),
{
    sh.reset();
    sh.set(0, 0, "NAME".as_bytes());
    sh.set(1, 0, "SCORE".as_bytes());
    sh.set(2, 0, "PASS".as_bytes());
    let table: [(&str, &str); 5] = [
        ("ANA", "85"),
        ("BEN", "72"),
        ("CAI", "58"),
        ("DOT", "91"),
        ("EVE", "64"),
    ];
    assert(table@ =~= grade_rows());
    type_rows(sh, table.as_slice(), 1);
    // Fill the pass/fail check down the column (relative refs shift per row).
    sh.set(2, 1, "=IF(B2>=60,1,0)".as_bytes());
    sh.fill(2, 1, "=IF(B2>=60,1,0)".as_bytes(), 2, 1, 2, 5);
    sh.set(0, 7, "AVG".as_bytes());
    sh.set(1, 7, "=AVG(B2:B6)".as_bytes());
}

pub open spec fn fibonacci() -> Grid {
    Grid::blank().set(0, 0, utf8("FIB")).set(0, 1, utf8("1")).set(0, 2, utf8("1")).set(
        0,
        3,
        utf8("=A2+A3"),
    ).filled(0, 3, utf8("=A2+A3"), 0, 3, 0, 41).recalculated()
}

/// The Fibonacci sequence: each cell is the sum of the two above it.
pub fn sample_fibonacci(sh: &mut Sheet)
    ensures
        final(sh).wf(),
        final(sh)@ == fibonacci(),
{
    sh.reset();
    sh.set(0, 0, "FIB".as_bytes());
    sh.set(0, 1, "1".as_bytes());
    sh.set(0, 2, "1".as_bytes());
    sh.set(0, 3, "=A2+A3".as_bytes());
    sh.fill(0, 3, "=A2+A3".as_bytes(), 0, 3, 0, 41);
}

pub open spec fn sample_label(i: int) -> Seq<u8> {
    if i == 0 {
        utf8("Blank")
    } else if i == 1 {
        utf8("Budget")
    } else if i == 2 {
        utf8("Sales chart")
    } else if i == 3 {
        utf8("Expenses")
    } else if i == 4 {
        utf8("Grades")
    } else if i == 5 {
        utf8("Fibonacci")
    } else {
        utf8("Functions")
    }
}

/// The start-menu text of a sample.
pub fn sample_name(i: usize) -> (s: &'static str)
    requires
        i < SAMPLES,
    ensures
        utf8(s) == sample_label(i as int),
{
    match i {
        0 => "Blank",
        1 => "Budget",
        2 => "Sales chart",
        3 => "Expenses",
        4 => "Grades",
        5 => "Fibonacci",
        _ => "Functions",
    }
}

pub open spec fn sample_grid(i: int) -> Grid {
    if i == 0 {
        Grid::blank()
    } else if i == 1 {
        budget()
    } else if i == 2 {
        sales()
    } else if i == 3 {
        expenses()
    } else if i == 4 {
        grades()
    } else if i == 5 {
        fibonacci()
    } else {
        functions()
    }
}

/// Make `sh` the sample's sheet.
pub fn fill_sample(i: usize, sh: &mut Sheet)
    requires
        i < SAMPLES,
    ensures
        final(sh).wf(),
        final(sh)@ == sample_grid(i as int),
{
    match i {
        0 => sample_blank(sh),
        1 => sample_budget(sh),
        2 => sample_sales(sh),
        3 => sample_expenses(sh),
        4 => sample_grades(sh),
        5 => sample_fibonacci(sh),
        _ => sample_functions(sh),
    }
}

/// The chart that a sample opens with: its kind and data range.
pub open spec fn opening_chart(i: int) -> Option<(ChartKind, Span)> {
    if i == 2 {
        Some((ChartKind::Bar, (1, 1, 1, 12)))
    } else if i == 3 {
        Some((ChartKind::Pie, (1, 0, 1, 4)))
    } else {
        None
    }
}

/// The chart that a sample opens with.
pub fn sample_chart(i: usize) -> (r: Option<(ChartKind, Span)>)
    ensures
        r == opening_chart(i as int),
{
    match i {
        2 => Some((ChartKind::Bar, (1, 1, 1, 12))),
        3 => Some((ChartKind::Pie, (1, 0, 1, 4))),
        _ => None,
    }
}

} // verus!
