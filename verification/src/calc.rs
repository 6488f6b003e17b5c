//! Recalculation: what the results of a sheet's cells are, given their texts.

use vstd::prelude::*;

use crate::formula::{classified, lemma_classified_local, text_reads};
use crate::grammar::law_text_reads_grid;
use crate::grid::{Kind, NCELLS, ROWS};

verus! {

/// The sweeps after which a cell that reads a circle stops.
pub const SWEEP_CAP: usize = ROWS + 2;

/// Every cell's value.
pub open spec fn vals(results: Seq<(i64, Kind)>) -> Seq<i64> {
    Seq::new(results.len(), |i: int| results[i].0)
}

/// Which cells hold a number.
pub open spec fn nums(results: Seq<(i64, Kind)>) -> Seq<bool> {
    Seq::new(results.len(), |i: int| results[i].1 == Kind::Num)
}

/// Every cell evaluated against the same earlier results.
pub open spec fn sweep(texts: Seq<Seq<u8>>, results: Seq<(i64, Kind)>) -> Seq<(i64, Kind)> {
    Seq::new(texts.len(), |i: int| classified(texts[i], vals(results), nums(results)))
}

/// The results after `n` sweeps.
pub open spec fn sweeps(texts: Seq<Seq<u8>>, results: Seq<(i64, Kind)>, n: nat) -> Seq<(i64, Kind)>
    decreases n,
{
    if n == 0 {
        results
    } else {
        sweep(texts, sweeps(texts, results, (n - 1) as nat))
    }
}

/// Whether another sweep changes nothing.
pub open spec fn is_settled(texts: Seq<Seq<u8>>, results: Seq<(i64, Kind)>) -> bool {
    sweep(texts, results) == results
}

/// Whether cell `k` of a path reads the next one.
pub open spec fn goes_on(texts: Seq<Seq<u8>>, path: Seq<int>, k: int) -> bool {
    0 <= path[k] < texts.len() && text_reads(texts[path[k]], path[k + 1])
}

/// Whether each cell of a path reads the next one.
pub open spec fn leads(texts: Seq<Seq<u8>>, path: Seq<int>) -> bool {
    forall|k: int| 0 <= k < path.len() - 1 ==> #[trigger] goes_on(texts, path, k)
}

/// Whether a path starts at cell `i` and comes to some cell twice.
pub open spec fn comes_round(texts: Seq<Seq<u8>>, i: int, path: Seq<int>) -> bool {
    &&& path.len() > 0
    &&& path[0] == i
    &&& leads(texts, path)
    &&& exists|a: int, b: int| 0 <= a < b < path.len() && #[trigger] path[a] == #[trigger] path[b]
}

/// Whether cell `i` reads a circle: directly or through others it comes to a
/// cell that reads itself so.
pub open spec fn reads_circle(texts: Seq<Seq<u8>>, i: int) -> bool {
    exists|path: Seq<int>| #[trigger] comes_round(texts, i, path)
}

/// The results of recalculating a sheet that showed `results`. A cell that
/// reads no circle has the value at which the sweeps settle, however deep the
/// chain behind it; one that reads a circle stops at the cap and keeps its last
/// value.
pub open spec fn settled(texts: Seq<Seq<u8>>, results: Seq<(i64, Kind)>) -> Seq<(i64, Kind)> {
    Seq::new(
        texts.len(),
        |i: int|
            if reads_circle(texts, i) {
                sweeps(texts, results, SWEEP_CAP as nat)[i]
            } else {
                sweeps(texts, results, NCELLS as nat)[i]
            },
    )
}

/// Once a sweep changes nothing, no later one does.
pub proof fn lemma_sweeps_stay(texts: Seq<Seq<u8>>, results: Seq<(i64, Kind)>, n: nat, m: nat)
    requires
        n <= m,
        is_settled(texts, sweeps(texts, results, n)),
    ensures
        sweeps(texts, results, m) == sweeps(texts, results, n),
    decreases m - n,
{
    if n < m {
        lemma_sweeps_stay(texts, results, n, (m - 1) as nat);
    }
}

/// Results that are settled stay as they are.
pub proof fn law_settled_stays(texts: Seq<Seq<u8>>, results: Seq<(i64, Kind)>)
    requires
        is_settled(texts, results),
    ensures
        settled(texts, results) == results,
{
    lemma_sweeps_stay(texts, results, 0, NCELLS as nat);
    lemma_sweeps_stay(texts, results, 0, SWEEP_CAP as nat);
    assert(sweep(texts, results).len() == texts.len());
    assert(settled(texts, results) =~= results);
}

// ---------------------------------------------------------------------------
// Circles
// ---------------------------------------------------------------------------

/// Whether every path from cell `i` has fewer than `n` steps.
pub open spec fn bounded(texts: Seq<Seq<u8>>, i: int, n: nat) -> bool
    decreases n,
{
    n > 0 && forall|j: int| #[trigger]
        text_reads(texts[i], j) ==> bounded(texts, j, (n - 1) as nat)
}

pub proof fn lemma_bounded_more(texts: Seq<Seq<u8>>, i: int, n: nat, m: nat)
    requires
        n <= m,
        bounded(texts, i, n),
    ensures
        bounded(texts, i, m),
    decreases n,
{
    assert forall|j: int| #[trigger] text_reads(texts[i], j) implies bounded(
        texts,
        j,
        (m - 1) as nat,
    ) by {
        lemma_bounded_more(texts, j, (n - 1) as nat, (m - 1) as nat);
    }
}

/// What a bound says of the cells further on.
proof fn lemma_bounded_path(texts: Seq<Seq<u8>>, path: Seq<int>, n: nat, k: int)
    requires
        leads(texts, path),
        0 <= k < path.len(),
        bounded(texts, path[0], n),
    ensures
        k < n,
        bounded(texts, path[k], (n - k) as nat),
    decreases k,
{
    if k > 0 {
        lemma_bounded_path(texts, path, n, k - 1);
        assert(goes_on(texts, path, k - 1));
        assert(text_reads(texts[path[k - 1]], path[k]));
        let left = (n - (k - 1)) as nat;
        assert(bounded(texts, path[k], (left - 1) as nat));
        assert((left - 1) as nat > 0);
    }
}

/// A cell that a path comes back to is not bounded.
proof fn lemma_no_return(texts: Seq<Seq<u8>>, path: Seq<int>, n: nat)
    requires
        leads(texts, path),
        path.len() >= 2,
        path[0] == path.last(),
    ensures
        !bounded(texts, path[0], n),
    decreases n,
{
    if bounded(texts, path[0], n) {
        let k = path.len() - 1;
        lemma_bounded_path(texts, path, n, k);
        lemma_no_return(texts, path, (n - k) as nat);
    }
}

/// A bounded cell reads no circle.
proof fn lemma_bounded_is_free(texts: Seq<Seq<u8>>, i: int, n: nat)
    requires
        bounded(texts, i, n),
    ensures
        !reads_circle(texts, i),
{
    if reads_circle(texts, i) {
        let path = choose|path: Seq<int>| #[trigger] comes_round(texts, i, path);
        let (a, b) = choose|a: int, b: int|
            0 <= a < b < path.len() && #[trigger] path[a] == #[trigger] path[b];
        lemma_bounded_path(texts, path, n, a);
        let round = path.subrange(a, b + 1);
        assert forall|k: int| 0 <= k < round.len() - 1 implies #[trigger] goes_on(
            texts,
            round,
            k,
        ) by {
            assert(goes_on(texts, path, a + k));
        }
        lemma_no_return(texts, round, (n - a) as nat);
    }
}

/// From a cell that is not bounded there is a path of that many steps.
proof fn lemma_long_path(texts: Seq<Seq<u8>>, i: int, n: nat) -> (path: Seq<int>)
    requires
        texts.len() == NCELLS,
        0 <= i < NCELLS,
        !bounded(texts, i, n),
    ensures
        path.len() == n + 1,
        path[0] == i,
        leads(texts, path),
        forall|k: int| 0 <= k < path.len() ==> 0 <= #[trigger] path[k] < NCELLS,
    decreases n,
{
    if n == 0 {
        seq![i]
    } else {
        let j = choose|j: int| #[trigger]
            text_reads(texts[i], j) && !bounded(texts, j, (n - 1) as nat);
        law_text_reads_grid(texts[i], j);
        let rest = lemma_long_path(texts, j, (n - 1) as nat);
        let path = seq![i] + rest;
        assert forall|k: int| 0 <= k < path.len() - 1 implies #[trigger] goes_on(
            texts,
            path,
            k,
        ) by {
            if k > 0 {
                assert(goes_on(texts, rest, k - 1));
                assert(path[k] == rest[k - 1] && path[k + 1] == rest[k]);
            } else {
                assert(path[1] == rest[0]);
            }
        }
        assert forall|k: int| 0 <= k < path.len() implies 0 <= #[trigger] path[k] < NCELLS by {
            if k > 0 {
                assert(path[k] == rest[k - 1]);
            }
        }
        path
    }
}

/// More cells than there are come to one twice.
proof fn lemma_twice(path: Seq<int>)
    requires
        path.len() > NCELLS,
        forall|k: int| 0 <= k < path.len() ==> 0 <= #[trigger] path[k] < NCELLS,
    ensures
        exists|a: int, b: int| 0 <= a < b < path.len() && #[trigger] path[a] == #[trigger] path[b],
{
    if path.no_duplicates() {
        let all = vstd::set_lib::set_int_range(0, NCELLS as int);
        vstd::set_lib::lemma_int_range(0, NCELLS as int);
        path.unique_seq_to_set();
        assert(path.to_set().subset_of(all));
        vstd::set_lib::lemma_len_subset(path.to_set(), all);
    } else {
        let (a, b) = choose|a: int, b: int|
            0 <= a < path.len() && 0 <= b < path.len() && a != b && path[a] == path[b];
        if a < b {
            assert(path[a] == path[b]);
        } else {
            assert(path[b] == path[a]);
        }
    }
}

/// A cell reads no circle just if its paths have fewer steps than the grid has
/// cells.
pub proof fn lemma_free_is_bounded(texts: Seq<Seq<u8>>, i: int)
    requires
        texts.len() == NCELLS,
        0 <= i < NCELLS,
    ensures
        reads_circle(texts, i) <==> !bounded(texts, i, NCELLS as nat),
{
    if bounded(texts, i, NCELLS as nat) {
        lemma_bounded_is_free(texts, i, NCELLS as nat);
    } else {
        let path = lemma_long_path(texts, i, NCELLS as nat);
        lemma_twice(path);
        assert(comes_round(texts, i, path));
    }
}

/// Once another step bounds no more cells, none ever does.
pub proof fn lemma_bounds_rest(texts: Seq<Seq<u8>>, i: int, n: nat, m: nat)
    requires
        texts.len() == NCELLS,
        0 <= i < NCELLS,
        n <= m,
        forall|j: int|
            0 <= j < NCELLS ==> (#[trigger] bounded(texts, j, n + 1) ==> bounded(texts, j, n)),
    ensures
        bounded(texts, i, m) ==> bounded(texts, i, n),
    decreases m - n,
{
    if n < m && bounded(texts, i, m) {
        assert forall|j: int| #[trigger] text_reads(texts[i], j) implies bounded(texts, j, n) by {
            law_text_reads_grid(texts[i], j);
            lemma_bounds_rest(texts, j, n, (m - 1) as nat);
        }
        assert(bounded(texts, i, n + 1));
    }
}

/// After as many sweeps as bound it, a cell no longer changes, nor depends on
/// what the sheet showed before.
pub proof fn lemma_bounded_agree(
    texts: Seq<Seq<u8>>,
    x: Seq<(i64, Kind)>,
    y: Seq<(i64, Kind)>,
    i: int,
    n: nat,
    k: nat,
    m: nat,
)
    requires
        texts.len() == NCELLS,
        0 <= i < NCELLS,
        bounded(texts, i, n),
        n <= k,
        n <= m,
    ensures
        sweeps(texts, x, k)[i] == sweeps(texts, y, m)[i],
    decreases n,
{
    let a = sweeps(texts, x, (k - 1) as nat);
    let b = sweeps(texts, y, (m - 1) as nat);
    assert forall|j: int| #[trigger] text_reads(texts[i], j) implies vals(a)[j] == vals(b)[j]
        && nums(a)[j] == nums(b)[j] by {
        law_text_reads_grid(texts[i], j);
        assert(bounded(texts, j, (n - 1) as nat));
        assert((n - 1) as nat > 0);
        lemma_bounded_agree(
            texts,
            x,
            y,
            j,
            (n - 1) as nat,
            (k - 1) as nat,
            (m - 1) as nat,
        );
        assert(a == sweep(texts, sweeps(texts, x, (k - 2) as nat)));
        assert(b == sweep(texts, sweeps(texts, y, (m - 2) as nat)));
    }
    lemma_classified_local(texts[i], vals(a), nums(a), vals(b), nums(b));
}

/// Recalculation resolves every cell that reads no circle, through a dependency
/// chain of any depth and whatever circles the sheet holds elsewhere: its
/// result is the value of its text against the final results.
pub proof fn law_cell_without_circle_resolves(
    texts: Seq<Seq<u8>>,
    results: Seq<(i64, Kind)>,
    i: int,
)
    requires
        texts.len() == NCELLS,
        0 <= i < NCELLS,
        !reads_circle(texts, i),
    ensures
        settled(texts, results)[i] == classified(
            texts[i],
            vals(settled(texts, results)),
            nums(settled(texts, results)),
        ),
{
    let n = NCELLS as nat;
    let done = settled(texts, results);
    let last = sweeps(texts, results, n);
    lemma_free_is_bounded(texts, i);
    lemma_bounded_agree(texts, results, results, i, n, n, n + 1);
    assert(sweeps(texts, results, n + 1) == sweep(texts, last));
    assert(last == sweep(texts, sweeps(texts, results, (n - 1) as nat)));
    assert forall|j: int| #[trigger] text_reads(texts[i], j) implies vals(done)[j] == vals(last)[j]
        && nums(done)[j] == nums(last)[j] by {
        law_text_reads_grid(texts[i], j);
        lemma_bounded_more(texts, j, (n - 1) as nat, n);
        lemma_free_is_bounded(texts, j);
    }
    lemma_classified_local(texts[i], vals(done), nums(done), vals(last), nums(last));
}

/// The result of a cell that reads no circle does not depend on what the sheet
/// showed before.
pub proof fn law_cell_without_circle_unique(
    texts: Seq<Seq<u8>>,
    results: Seq<(i64, Kind)>,
    others: Seq<(i64, Kind)>,
    i: int,
)
    requires
        texts.len() == NCELLS,
        0 <= i < NCELLS,
        !reads_circle(texts, i),
    ensures
        settled(texts, results)[i] == settled(texts, others)[i],
{
    let n = NCELLS as nat;
    lemma_free_is_bounded(texts, i);
    lemma_bounded_agree(texts, results, others, i, n, n, n);
}

// ---------------------------------------------------------------------------
// Sheets without circles
// ---------------------------------------------------------------------------

/// Whether `rank` puts every cell behind all the cells that it reads.
pub open spec fn ranks(texts: Seq<Seq<u8>>, rank: spec_fn(int) -> nat) -> bool {
    forall|i: int, j: int|
        0 <= i < texts.len() && #[trigger] text_reads(texts[i], j) ==> rank(j) < rank(i)
}

/// No cell reads itself, directly or through others: the cells can be ranked.
pub open spec fn acyclic(texts: Seq<Seq<u8>>) -> bool {
    exists|rank: spec_fn(int) -> nat| ranks(texts, rank)
}

/// Ranks fall along a path.
proof fn lemma_ranks_fall(
    texts: Seq<Seq<u8>>,
    rank: spec_fn(int) -> nat,
    path: Seq<int>,
    a: int,
    b: int,
)
    requires
        ranks(texts, rank),
        leads(texts, path),
        0 <= a < b < path.len(),
    ensures
        rank(path[b]) < rank(path[a]),
    decreases b - a,
{
    assert(goes_on(texts, path, b - 1));
    assert(text_reads(texts[path[b - 1]], path[b]));
    if a < b - 1 {
        lemma_ranks_fall(texts, rank, path, a, b - 1);
    }
}

/// On a sheet whose cells can be ranked no cell reads a circle.
pub proof fn law_acyclic_has_no_circle(texts: Seq<Seq<u8>>, i: int)
    requires
        acyclic(texts),
    ensures
        !reads_circle(texts, i),
{
    let rank = choose|rank: spec_fn(int) -> nat| ranks(texts, rank);
    if reads_circle(texts, i) {
        let path = choose|path: Seq<int>| #[trigger] comes_round(texts, i, path);
        let (a, b) = choose|a: int, b: int|
            0 <= a < b < path.len() && #[trigger] path[a] == #[trigger] path[b];
        lemma_ranks_fall(texts, rank, path, a, b);
    }
}

/// On a sheet without circles the results are settled, each the value of its
/// text against all the others.
pub proof fn law_acyclic_settles(texts: Seq<Seq<u8>>, results: Seq<(i64, Kind)>)
    requires
        texts.len() == NCELLS,
        results.len() == NCELLS,
        acyclic(texts),
    ensures
        is_settled(texts, settled(texts, results)),
{
    let done = settled(texts, results);
    assert forall|i: int| 0 <= i < NCELLS implies #[trigger] sweep(texts, done)[i] == done[i] by {
        law_acyclic_has_no_circle(texts, i);
        law_cell_without_circle_resolves(texts, results, i);
    }
    assert(sweep(texts, done) =~= done);
}

/// On a sheet without circles there is one settled set of results, so what the
/// sheet showed before makes no difference.
pub proof fn law_acyclic_unique(
    texts: Seq<Seq<u8>>,
    results: Seq<(i64, Kind)>,
    others: Seq<(i64, Kind)>,
)
    requires
        texts.len() == NCELLS,
        results.len() == NCELLS,
        others.len() == NCELLS,
        acyclic(texts),
    ensures
        settled(texts, results) == settled(texts, others),
        is_settled(texts, others) ==> settled(texts, results) == others,
{
    let a = settled(texts, results);
    let b = settled(texts, others);
    assert forall|i: int| 0 <= i < NCELLS implies a[i] == b[i] by {
        law_acyclic_has_no_circle(texts, i);
        law_cell_without_circle_unique(texts, results, others, i);
    }
    assert(a =~= b);
    if is_settled(texts, others) {
        law_settled_stays(texts, others);
    }
}

} // verus!
