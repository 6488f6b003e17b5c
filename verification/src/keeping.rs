//! Laws of saves: what stands where in a sheet's stream, and what becomes of a
//! typed name.

use vstd::prelude::*;

use crate::ascii::{is_alpha, is_digit, upper};
use crate::card::{
    filename, has_prefix, lemma_prefix_len, offers_saves, save_prefix, saves_among, shown_name,
    usable,
};
use crate::grid::{index_of, COLS, INPUT_CAP, NCELLS, ROWS};
use crate::refs::truncated;
use crate::save::{
    decode_records, decoded, encoded, lemma_record_count, lemma_records_prefix, record,
    record_count, records,
};
use crate::sheet::Grid;

verus! {

// ---------------------------------------------------------------------------
// Streams
// ---------------------------------------------------------------------------

/// The stream of a sheet holds each cell's text once, behind the cell's column,
/// its row and the text's length; the texts stand in the order of the cells,
/// row after row.
pub proof fn law_save_holds_texts(texts: Seq<Seq<u8>>, i: int, j: int) -> (at: (int, int))
    requires
        texts.len() == NCELLS,
        forall|k: int| 0 <= k < NCELLS ==> (#[trigger] texts[k]).len() <= INPUT_CAP,
        0 <= i < j < NCELLS,
        texts[i].len() > 0,
        texts[j].len() > 0,
    ensures
        ({
            let data = encoded(texts);
            &&& 2 <= at.0
            &&& at.0 + 3 + texts[i].len() <= at.1
            &&& at.1 + 3 + texts[j].len() <= data.len()
            &&& data[at.0] == i % 26 && data[at.0 + 1] == i / 26
            &&& data[at.0 + 2] == texts[i].len()
            &&& data.subrange(at.0 + 3, at.0 + 3 + texts[i].len()) == texts[i]
            &&& data[at.1] == j % 26 && data[at.1 + 1] == j / 26
            &&& data[at.1 + 2] == texts[j].len()
            &&& data.subrange(at.1 + 3, at.1 + 3 + texts[j].len()) == texts[j]
        }),
{
    lemma_record_stands(texts, i);
    lemma_record_stands(texts, j);
    lemma_records_prefix(texts, (i + 1) as nat, j as nat);
    (2 + records(texts, i as nat).len() as int, 2 + records(texts, j as nat).len() as int)
}

proof fn lemma_record_stands(texts: Seq<Seq<u8>>, i: int)
    requires
        texts.len() == NCELLS,
        forall|k: int| 0 <= k < NCELLS ==> (#[trigger] texts[k]).len() <= INPUT_CAP,
        0 <= i < NCELLS,
        texts[i].len() > 0,
    ensures
        ({
            let data = encoded(texts);
            let p = 2 + records(texts, i as nat).len() as int;
            &&& p + 3 + texts[i].len() <= data.len()
            &&& data[p] == i % 26 && data[p + 1] == i / 26 && data[p + 2] == texts[i].len()
            &&& data.subrange(p + 3, p + 3 + texts[i].len()) == texts[i]
            &&& records(texts, (i + 1) as nat).len() == records(texts, i as nat).len() + 3
                + texts[i].len()
        }),
{
    let data = encoded(texts);
    let all = records(texts, NCELLS as nat);
    let before = records(texts, i as nat);
    let upto = records(texts, (i + 1) as nat);
    let text = texts[i];
    let rec = record(i, text);
    let p = 2 + before.len() as int;
    assert(upto == before + rec);
    lemma_records_prefix(texts, (i + 1) as nat, NCELLS as nat);
    assert forall|k: int| 0 <= k < rec.len() implies #[trigger] data[p + k] == rec[k] by {
        assert(data[p + k] == all[before.len() + k]);
        assert(all[before.len() + k] == upto[before.len() + k]);
    }
    assert(data[p + 0] == rec[0]);
    assert(data[p + 1] == rec[1]);
    assert(data[p + 2] == rec[2]);
    assert(data.subrange(p + 3, p + 3 + text.len()) =~= text) by {
        assert forall|k: int| 0 <= k < text.len() implies data[p + 3 + k] == text[k] by {
            assert(data[p + (3 + k)] == rec[3 + k]);
        }
    }
}

/// How many records a stream announces.
pub open spec fn announced(data: Seq<u8>) -> int {
    data[0] + 256 * data[1]
}

/// A sheet without text is saved as two bytes that announce nothing; a text put
/// into an empty cell adds one to what is announced, and its own length and
/// three bytes to the stream.
pub proof fn law_save_grows_by_record(texts: Seq<Seq<u8>>, i: int, text: Seq<u8>)
    requires
        texts.len() == NCELLS,
        0 <= i < NCELLS,
        texts[i].len() == 0,
        text.len() > 0,
    ensures
        encoded(Grid::blank().texts).len() == 2,
        announced(encoded(Grid::blank().texts)) == 0,
        announced(encoded(texts.update(i, text))) == announced(encoded(texts)) + 1,
        encoded(texts.update(i, text)).len() == encoded(texts).len() + 3 + text.len(),
{
    let more = texts.update(i, text);
    let n = NCELLS as nat;
    lemma_blank(n);
    lemma_one_more(texts, i, text, n);
    lemma_record_count(texts, n);
    lemma_record_count(more, n);
    let a = record_count(texts, n);
    let b = record_count(more, n);
    assert(encoded(texts)[0] == (a % 256) as u8 && encoded(texts)[1] == (a / 256) as u8);
    assert(encoded(more)[0] == (b % 256) as u8 && encoded(more)[1] == (b / 256) as u8);
    let none = encoded(Grid::blank().texts);
    assert(none[0] == 0 && none[1] == 0);
}

proof fn lemma_blank(n: nat)
    requires
        n <= NCELLS,
    ensures
        record_count(Grid::blank().texts, n) == 0,
        records(Grid::blank().texts, n).len() == 0,
    decreases n,
{
    if n > 0 {
        lemma_blank((n - 1) as nat);
    }
}

proof fn lemma_one_more(texts: Seq<Seq<u8>>, i: int, text: Seq<u8>, n: nat)
    requires
        0 <= i < texts.len(),
        n <= texts.len(),
        texts[i].len() == 0,
        text.len() > 0,
    ensures
        record_count(texts.update(i, text), n) == record_count(texts, n) + if i < n {
            1int
        } else {
            0
        },
        records(texts.update(i, text), n).len() == records(texts, n).len() + if i < n {
            3 + text.len() as int
        } else {
            0
        },
    decreases n,
{
    if n > 0 {
        lemma_one_more(texts, i, text, (n - 1) as nat);
    }
}

/// A stream of one record holds that text alone, in the cell that the record
/// names; nothing, if there is no such cell or the text is too long for one.
/// A stream that ends within its record holds no sheet.
pub proof fn law_record_loads(col: u8, row: u8, len: u8, text: Seq<u8>)
    ensures
        ({
            let data = seq![1u8, 0u8, col, row, len] + text;
            let blank = Grid::blank().texts;
            &&& text.len() < len ==> decoded(data) is None
            &&& text.len() >= len && col < 26 && row < 50 && len <= 24 ==> decoded(data) == Some(
                blank.update(26 * row + col, text.take(len as int)),
            )
            &&& text.len() >= len && (col >= 26 || row >= 50 || len > 24) ==> decoded(data)
                == Some(blank)
        }),
{
    let data = seq![1u8, 0u8, col, row, len] + text;
    let blank = Grid::blank().texts;
    assert(data[0] == 1 && data[1] == 0 && data[2] == col && data[3] == row && data[4] == len);
    assert(decoded(data) == decode_records(data, 2, 1, blank));
    if text.len() >= len {
        let end = 5 + len as int;
        assert(data.subrange(5, end) =~= text.take(len as int));
        let next = if col < COLS && row < ROWS && len <= INPUT_CAP {
            blank.update(index_of(col as int, row as int), text.take(len as int))
        } else {
            blank
        };
        assert(decode_records(data, end, 0, next) == Some(next));
    }
}

/// Of two records that name the same cell the later one counts.
pub proof fn law_later_record_counts(
    col: u8,
    row: u8,
    first: Seq<u8>,
    second: Seq<u8>,
)
    requires
        col < COLS,
        row < ROWS,
        first.len() <= INPUT_CAP,
        second.len() <= INPUT_CAP,
    ensures
        decoded(
            seq![2u8, 0u8, col, row, first.len() as u8] + first + seq![
                col,
                row,
                second.len() as u8,
            ] + second,
        ) == Some(Grid::blank().texts.update(26 * row + col, second)),
{
    let data = seq![2u8, 0u8, col, row, first.len() as u8] + first + seq![
        col,
        row,
        second.len() as u8,
    ] + second;
    let blank = Grid::blank().texts;
    let i = index_of(col as int, row as int);
    let p = 5 + first.len() as int;
    let end = p + 3 + second.len();
    assert(data[0] == 2 && data[1] == 0 && data[2] == col && data[3] == row);
    assert(data[4] == first.len());
    assert(data[p] == col && data[p + 1] == row && data[p + 2] == second.len());
    assert(data.subrange(5, p) =~= first);
    assert(data.subrange(p + 3, end) =~= second);
    assert(decoded(data) == decode_records(data, 2, 2, blank));
    let once = blank.update(i, first);
    let twice = once.update(i, second);
    assert(decode_records(data, 2, 2, blank) == decode_records(data, p, 1, once));
    assert(decode_records(data, p, 1, once) == decode_records(data, end, 0, twice));
    assert(twice =~= blank.update(i, second));
}

// ---------------------------------------------------------------------------
// Names
// ---------------------------------------------------------------------------

/// Nothing but capital letters and digits.
pub open spec fn is_plain_name(name: Seq<u8>) -> bool {
    forall|i: int|
        0 <= i < name.len() ==> (is_alpha(#[trigger] name[i]) || is_digit(name[i])) && upper(
            name[i],
        ) == name[i]
}

proof fn lemma_usable_plain(name: Seq<u8>)
    requires
        is_plain_name(name),
    ensures
        usable(name) == name,
    decreases name.len(),
{
    if name.len() > 0 {
        let less = name.drop_last();
        assert forall|i: int| 0 <= i < less.len() implies (is_alpha(#[trigger] less[i])
            || is_digit(less[i])) && upper(less[i]) == less[i] by {
            assert(less[i] == name[i]);
        }
        lemma_usable_plain(less);
        assert(name.last() == name[name.len() - 1]);
        assert(less.push(name.last()) =~= name);
    } else {
        assert(name =~= seq![]);
    }
}

/// A name of capital letters and digits is shown as it was typed, cut to the
/// thirteen characters that a file name leaves for it.
pub proof fn law_plain_name_is_shown(name: Seq<u8>)
    requires
        is_plain_name(name),
        name.len() > 0,
    ensures
        filename(name) matches Some(f) && shown_name(f) == if name.len() <= 13 {
            name
        } else {
            name.take(13)
        },
{
    lemma_prefix_len();
    lemma_usable_plain(name);
    let f = filename(name)->Some_0;
    let kept = truncated(name, 13);
    assert(f == save_prefix() + kept);
    assert(save_prefix().is_prefix_of(f));
    assert(f.skip(7) =~= kept);
}

proof fn lemma_usable_joined(a: Seq<u8>, b: Seq<u8>)
    ensures
        usable(a + b) == usable(a) + usable(b),
    decreases b.len(),
{
    if b.len() == 0 {
        assert(a + b =~= a);
        assert(usable(a) + usable(b) =~= usable(a));
    } else {
        lemma_usable_joined(a, b.drop_last());
        assert((a + b).drop_last() =~= a + b.drop_last());
        assert((a + b).last() == b.last());
        assert(usable(a + b) =~= usable(a) + usable(b));
    }
}

/// A character that is neither letter nor digit is left out of the file name,
/// and letters count as capitals.
pub proof fn law_name_keeps_letters_and_digits(a: Seq<u8>, c: u8, b: Seq<u8>)
    ensures
        !is_alpha(c) && !is_digit(c) ==> filename(a + seq![c] + b) == filename(a + b),
        filename(a + seq![c] + b) == filename(a + seq![upper(c)] + b),
        filename(a) is None <==> forall|i: int|
            0 <= i < a.len() ==> !is_alpha(#[trigger] a[i]) && !is_digit(a[i]),
{
    lemma_usable_joined(a, seq![c]);
    lemma_usable_joined(a + seq![c], b);
    lemma_usable_joined(a, b);
    lemma_usable_joined(a, seq![upper(c)]);
    lemma_usable_joined(a + seq![upper(c)], b);
    let none = Seq::<u8>::empty();
    assert(seq![c].drop_last() =~= none);
    assert(seq![upper(c)].drop_last() =~= none);
    assert(usable(none) =~= none);
    assert(upper(upper(c)) == upper(c));
    assert(usable(seq![c]) == usable(seq![upper(c)]));
    if !is_alpha(c) && !is_digit(c) {
        assert(usable(seq![c]) =~= none);
        assert(usable(a) + none =~= usable(a));
    }
    lemma_usable_none(a);
}

proof fn lemma_usable_none(a: Seq<u8>)
    ensures
        usable(a).len() == 0 <==> forall|i: int|
            0 <= i < a.len() ==> !is_alpha(#[trigger] a[i]) && !is_digit(a[i]),
    decreases a.len(),
{
    if a.len() > 0 {
        let less = a.drop_last();
        lemma_usable_none(less);
        assert(forall|i: int| 0 <= i < less.len() ==> #[trigger] less[i] == a[i]);
        assert(a.last() == a[a.len() - 1]);
        assert(forall|i: int| 0 <= i < less.len() ==> less[i] == #[trigger] a[i]);
    }
}

/// The saves picked from a directory are found at `places` of it.
pub open spec fn picked_at(
    saves: Seq<(Seq<u8>, u16)>,
    entries: Seq<(Seq<u8>, u16)>,
    places: Seq<int>,
) -> bool {
    &&& places.len() == saves.len()
    &&& forall|k: int|
        0 <= k < places.len() ==> 0 <= #[trigger] places[k] < entries.len() && entries[places[k]]
            == saves[k]
    &&& forall|j: int, k: int|
        0 <= j < k < places.len() ==> #[trigger] places[j] < #[trigger] places[k]
}

/// The saves listed are files of the card whose names have the prefix, in the
/// order of its directory. None is left out, unless fifteen stand before it.
pub proof fn law_saves_are_picked(entries: Seq<(Seq<u8>, u16)>) -> (places: Seq<int>)
    ensures
        ({
            let saves = saves_among(entries);
            &&& saves.len() <= 15
            &&& picked_at(saves, entries, places)
            &&& forall|k: int| 0 <= k < saves.len() ==> has_prefix((#[trigger] saves[k]).0)
            &&& forall|j: int|
                0 <= j < entries.len() && has_prefix((#[trigger] entries[j]).0) ==> (
                places.contains(j) || (saves.len() == 15 && places[14] < j))
        }),
    decreases entries.len(),
{
    if entries.len() == 0 {
        seq![]
    } else {
        let less = entries.drop_last();
        let n = entries.len() as int;
        let before = saves_among(less);
        let earlier = law_saves_are_picked(less);
        let saves = saves_among(entries);
        assert(forall|j: int| 0 <= j < n - 1 ==> #[trigger] less[j] == entries[j]);
        if before.len() < 15 && has_prefix(entries[n - 1].0) {
            let places = earlier.push(n - 1);
            assert(saves == before.push(entries[n - 1]));
            assert forall|j: int|
                0 <= j < n && has_prefix((#[trigger] entries[j]).0) implies places.contains(j) || (
            saves.len() == 15 && places[14] < j) by {
                if j < n - 1 {
                    assert(less[j] == entries[j]);
                    assert(earlier.contains(j));
                    let k = choose|k: int| 0 <= k < earlier.len() && earlier[k] == j;
                    assert(places[k] == j);
                } else {
                    assert(places[places.len() - 1] == j);
                }
            }
            assert forall|k: int| 0 <= k < saves.len() implies has_prefix(
                (#[trigger] saves[k]).0,
            ) by {
                if k < before.len() {
                    assert(saves[k] == before[k]);
                }
            }
            places
        } else {
            assert(saves == before);
            assert forall|j: int|
                0 <= j < n && has_prefix((#[trigger] entries[j]).0) implies earlier.contains(j) || (
            saves.len() == 15 && earlier[14] < j) by {
                if j < n - 1 {
                    assert(less[j] == entries[j]);
                } else {
                    assert(0 <= earlier[14] < less.len());
                }
            }
            earlier
        }
    }
}

/// Saves are offered exactly where some would be listed.
pub proof fn law_saves_are_offered_if_listed(entries: Seq<(Seq<u8>, u16)>)
    ensures
        offers_saves(entries) <==> saves_among(entries).len() > 0,
{
    let places = law_saves_are_picked(entries);
    let saves = saves_among(entries);
    if offers_saves(entries) {
        let i = choose|i: int| 0 <= i < entries.len() && has_prefix((#[trigger] entries[i]).0);
        assert(places.contains(i) || saves.len() == 15);
    }
    if saves.len() > 0 {
        assert(has_prefix(saves[0].0));
        assert(entries[places[0]] == saves[0]);
    }
}

} // verus!
