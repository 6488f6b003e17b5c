//! A sheet as a stream of bytes, for a memory-card save: a little-endian count
//! of records, then `column, row, length, text` for each cell that holds text.

use vstd::prelude::*;

use crate::grid::{idx, index_of, COLS, INPUT_CAP, NCELLS, ROWS};
use crate::number::overlaid;
use crate::refs::truncated;
use crate::sheet::{Cell, Grid, Sheet};

verus! {

/// How many of the first `n` cells hold text.
pub open spec fn record_count(texts: Seq<Seq<u8>>, n: nat) -> nat
    decreases n,
{
    if n == 0 {
        0
    } else {
        record_count(texts, (n - 1) as nat) + if texts[n - 1].len() == 0 {
            0nat
        } else {
            1
        }
    }
}

/// The record of cell `i`.
pub open spec fn record(i: int, text: Seq<u8>) -> Seq<u8> {
    seq![(i % COLS as int) as u8, (i / COLS as int) as u8, text.len() as u8] + text
}

/// The records of the first `n` cells.
pub open spec fn records(texts: Seq<Seq<u8>>, n: nat) -> Seq<u8>
    decreases n,
{
    if n == 0 {
        seq![]
    } else if texts[n - 1].len() == 0 {
        records(texts, (n - 1) as nat)
    } else {
        records(texts, (n - 1) as nat) + record(n - 1, texts[n - 1])
    }
}

/// The low byte of a count, then the high byte.
pub open spec fn count_bytes(count: nat) -> Seq<u8> {
    seq![(count % 256) as u8, (count / 256) as u8]
}

/// The stream of a whole sheet.
pub open spec fn encoded(texts: Seq<Seq<u8>>) -> Seq<u8> {
    count_bytes(record_count(texts, texts.len())) + records(texts, texts.len())
}

/// How many of the first `n` cells can be written to a stream of `room` bytes
/// before one has no room for its record.
pub open spec fn cells_that_fit(texts: Seq<Seq<u8>>, n: nat, room: int) -> nat
    decreases n,
{
    if n == 0 {
        0
    } else {
        let k = cells_that_fit(texts, (n - 1) as nat, room);
        if k == n - 1 && 2 + records(texts, n).len() <= room {
            n
        } else {
            k
        }
    }
}

/// A buffer with `text` written over it from `p` on.
pub open spec fn overlaid_at(buf: Seq<u8>, p: int, text: Seq<u8>) -> Seq<u8> {
    buf.take(p) + text + buf.skip(p + text.len())
}

/// Read `n` records from `p` on into the texts. A record whose cell does not
/// exist, or whose text is too long for a cell, is skipped. `None` if the
/// stream ends before the records do.
pub open spec fn decode_records(
    data: Seq<u8>,
    p: int,
    n: nat,
    texts: Seq<Seq<u8>>,
) -> Option<Seq<Seq<u8>>>
    decreases n,
{
    if n == 0 {
        Some(texts)
    } else if p + 3 > data.len() || p + 3 + data[p + 2] > data.len() {
        None
    } else {
        let col = data[p];
        let row = data[p + 1];
        let end = p + 3 + data[p + 2];
        let text = data.subrange(p + 3, end);
        let next = if col < COLS && row < ROWS && text.len() <= INPUT_CAP {
            texts.update(index_of(col as int, row as int), text)
        } else {
            texts
        };
        decode_records(data, end, (n - 1) as nat, next)
    }
}

/// The texts of the sheet that a stream holds; `None` for one that is
/// truncated.
pub open spec fn decoded(data: Seq<u8>) -> Option<Seq<Seq<u8>>> {
    if data.len() < 2 {
        None
    } else {
        decode_records(data, 2, (data[0] + 256 * data[1]) as nat, Grid::blank().texts)
    }
}

/// The sheet that loading a stream leaves: the one that it holds, or a blank
/// one.
pub open spec fn loaded(data: Seq<u8>) -> Grid {
    match decoded(data) {
        Some(texts) => Grid { texts, results: Grid::blank().results }.recalculated(),
        None => Grid::blank(),
    }
}

pub proof fn lemma_record_count(texts: Seq<Seq<u8>>, n: nat)
    ensures
        record_count(texts, n) <= n,
    decreases n,
{
    if n > 0 {
        lemma_record_count(texts, (n - 1) as nat);
    }
}

/// The records of fewer cells start the records of more.
pub proof fn lemma_records_prefix(texts: Seq<Seq<u8>>, k: nat, n: nat)
    requires
        k <= n,
    ensures
        records(texts, k).is_prefix_of(records(texts, n)),
        record_count(texts, k) <= record_count(texts, n),
    decreases n,
{
    if k < n {
        lemma_records_prefix(texts, k, (n - 1) as nat);
    }
}

/// No more cells fit once one did not.
proof fn lemma_fit_stops(texts: Seq<Seq<u8>>, k: nat, n: nat, room: int)
    requires
        k < n,
        cells_that_fit(texts, k, room) == k,
        2 + records(texts, k + 1).len() > room,
    ensures
        cells_that_fit(texts, n, room) == k,
        2 + records(texts, n).len() > room,
    decreases n,
{
    lemma_records_prefix(texts, k + 1, n);
    if k + 1 < n {
        lemma_fit_stops(texts, k, (n - 1) as nat, room);
    }
}

/// The first `k` texts, and no text in the cells behind them.
spec fn first_texts(texts: Seq<Seq<u8>>, k: int) -> Seq<Seq<u8>> {
    Seq::new(
        texts.len(),
        |i: int|
            if i < k {
                texts[i]
            } else {
                Seq::<u8>::empty()
            },
    )
}

proof fn lemma_decode_rest(texts: Seq<Seq<u8>>, k: nat)
    requires
        k <= NCELLS,
        texts.len() == NCELLS,
        forall|i: int| 0 <= i < NCELLS ==> (#[trigger] texts[i]).len() <= INPUT_CAP,
    ensures
        decode_records(
            encoded(texts),
            2 + records(texts, k).len() as int,
            (record_count(texts, NCELLS as nat) - record_count(texts, k)) as nat,
            first_texts(texts, k as int),
        ) == Some(texts),
    decreases NCELLS - k,
{
    let data = encoded(texts);
    let p: int = 2 + records(texts, k).len() as int;
    lemma_records_prefix(texts, k, NCELLS as nat);
    if k == NCELLS {
        assert(first_texts(texts, k as int) =~= texts);
    } else {
        lemma_decode_rest(texts, k + 1);
        lemma_records_prefix(texts, k + 1, NCELLS as nat);
        let text = texts[k as int];
        let now = first_texts(texts, k as int);
        let next = first_texts(texts, k as int + 1);
        if text.len() == 0 {
            assert(text =~= Seq::<u8>::empty());
            assert(next =~= now);
        } else {
            let all = records(texts, NCELLS as nat);
            let upto = records(texts, k + 1);
            let rec = record(k as int, text);
            assert(upto == records(texts, k) + rec);
            assert forall|j: int| 0 <= j < rec.len() implies #[trigger] data[p + j] == rec[j] by {
                assert(data[p + j] == all[records(texts, k).len() + j]);
                assert(all[records(texts, k).len() + j] == upto[records(texts, k).len() + j]);
            }
            assert(data[p + 0] == rec[0]);
            assert(data[p + 1] == rec[1]);
            assert(data[p + 2] == rec[2]);
            assert(data.len() >= p + rec.len());
            let end = p + 3 + data[p + 2];
            assert(data.subrange(p + 3, end) =~= text) by {
                assert forall|j: int| 0 <= j < text.len() implies data[p + 3 + j] == text[j] by {
                    assert(data[p + (3 + j)] == rec[3 + j]);
                }
            }
            assert(index_of(data[p] as int, data[p + 1] as int) == k);
            assert(next =~= now.update(k as int, text));
            lemma_records_prefix(texts, k + 1, NCELLS as nat);
        }
    }
}

/// Loading what was saved gives back every cell's text.
pub proof fn law_load_gives_back_save(texts: Seq<Seq<u8>>)
    requires
        texts.len() == NCELLS,
        forall|i: int| 0 <= i < NCELLS ==> (#[trigger] texts[i]).len() <= INPUT_CAP,
    ensures
        decoded(encoded(texts)) == Some(texts),
        loaded(encoded(texts)).texts == texts,
{
    lemma_decode_rest(texts, 0);
    lemma_record_count(texts, NCELLS as nat);
    assert(first_texts(texts, 0) =~= Grid::blank().texts);
    let c = record_count(texts, NCELLS as nat);
    assert(encoded(texts)[0] == (c % 256) as u8);
    assert(encoded(texts)[1] == (c / 256) as u8);
}

/// Two sheets are saved as the same stream only if their texts are the same.
pub proof fn law_save_tells_sheets_apart(a: Seq<Seq<u8>>, b: Seq<Seq<u8>>)
    requires
        a.len() == NCELLS,
        b.len() == NCELLS,
        forall|i: int| 0 <= i < NCELLS ==> (#[trigger] a[i]).len() <= INPUT_CAP,
        forall|i: int| 0 <= i < NCELLS ==> (#[trigger] b[i]).len() <= INPUT_CAP,
        encoded(a) == encoded(b),
    ensures
        a == b,
{
    law_load_gives_back_save(a);
    law_load_gives_back_save(b);
}

/// Bytes behind the stream of a sheet do not change what it holds: a file as
/// long as whole card blocks loads as what was saved into it.
pub proof fn law_padding_is_ignored(data: Seq<u8>, more: Seq<u8>)
    requires
        decoded(data) is Some,
    ensures
        decoded(data + more) == decoded(data),
{
    let all = data + more;
    assert(all[0] == data[0] && all[1] == data[1]);
    lemma_decode_padding(
        data,
        more,
        2,
        (data[0] + 256 * data[1]) as nat,
        Grid::blank().texts,
    );
}

proof fn lemma_decode_padding(
    data: Seq<u8>,
    more: Seq<u8>,
    p: int,
    n: nat,
    texts: Seq<Seq<u8>>,
)
    requires
        0 <= p,
        decode_records(data, p, n, texts) is Some,
    ensures
        decode_records(data + more, p, n, texts) == decode_records(data, p, n, texts),
    decreases n,
{
    if n > 0 {
        let all = data + more;
        assert(all[p] == data[p] && all[p + 1] == data[p + 1] && all[p + 2] == data[p + 2]);
        let end = p + 3 + data[p + 2];
        assert(all.subrange(p + 3, end) =~= data.subrange(p + 3, end));
        let text = data.subrange(p + 3, end);
        let next = if data[p] < COLS && data[p + 1] < ROWS && text.len() <= INPUT_CAP {
            texts.update(index_of(data[p] as int, data[p + 1] as int), text)
        } else {
            texts
        };
        lemma_decode_padding(data, more, end, (n - 1) as nat, next);
    }
}

impl Sheet {
    /// Write the cells that hold text into `out`. Returns the byte length, or
    /// `None` if `out` is too small.
    pub fn serialize(&self, out: &mut [u8]) -> (r: Option<usize>)
        requires
            self.wf(),
        ensures
            match r {
                Some(n) => n == encoded(self@.texts).len() && n <= old(out)@.len()
                    && final(out)@ == overlaid(old(out)@, encoded(self@.texts)),
                None => encoded(self@.texts).len() > old(out)@.len() && final(out)@ == if old(
                    out,
                )@.len() < 2 {
                    old(out)@
                } else {
                    overlaid_at(
                        old(out)@,
                        2,
                        records(
                            self@.texts,
                            cells_that_fit(self@.texts, NCELLS as nat, old(out)@.len() as int),
                        ),
                    )
                },
            },
    {
        if out.len() < 2 {
            return None;
        }
        let ghost texts = self@.texts;
        let room: usize = out.len();
        let mut p: usize = 2;
        let mut count: u16 = 0;
        let mut i: usize = 0;
        assert(out@ =~= overlaid_at(old(out)@, 2, records(texts, 0)));
        while i < NCELLS
            invariant
                self.wf(),
                texts == self@.texts,
                room == old(out)@.len() == out@.len(),
                room >= 2,
                i <= NCELLS,
                p == 2 + records(texts, i as nat).len(),
                p <= room,
                count == record_count(texts, i as nat),
                count <= i,
                cells_that_fit(texts, i as nat, room as int) == i,
                out@ == overlaid_at(old(out)@, 2, records(texts, i as nat)),
            decreases NCELLS - i,
        {
            let c: Cell = self.cells[i];
            assert(texts[i as int] == c.text());
            if c.len != 0 {
                let len: usize = c.len as usize;
                let ghost rec = record(i as int, c.text());
                let ghost done = records(texts, i as nat);
                assert(records(texts, (i + 1) as nat) == done + rec);
                if room - p < 3 + len {
                    proof {
                        lemma_fit_stops(texts, i as nat, NCELLS as nat, room as int);
                    }
                    return None;
                }
                out[p] = (i % COLS) as u8;
                out[p + 1] = (i / COLS) as u8;
                out[p + 2] = c.len;
                assert(out@ =~= overlaid_at(old(out)@, 2, done + rec.take(3)));
                let mut j: usize = 0;
                while j < len
                    invariant
                        self.wf(),
                        c.wf(),
                        len == c.len,
                        j <= len,
                        room == old(out)@.len() == out@.len(),
                        p == 2 + done.len(),
                        p + 3 + len <= room,
                        rec == record(i as int, c.text()),
                        out@ == overlaid_at(old(out)@, 2, done + rec.take(3 + j)),
                    decreases len - j,
                {
                    out[p + 3 + j] = c.buf[j];
                    j += 1;
                    assert(rec[3 + j - 1] == c.text()[j - 1]);
                    assert(out@ =~= overlaid_at(old(out)@, 2, done + rec.take(3 + j)));
                }
                assert(rec.take(3 + len) =~= rec);
                p = p + 3 + len;
                count += 1;
            }
            i += 1;
        }
        out[0] = (count % 256) as u8;
        out[1] = (count / 256) as u8;
        assert(out@ =~= overlaid(old(out)@, encoded(texts)));
        Some(p)
    }

    /// The sheet's stream, if it takes no more than `cap` bytes.
    pub fn stream(&self, cap: usize) -> (r: Option<Vec<u8>>)
        requires
            self.wf(),
        ensures
            match r {
                Some(v) => v@ == encoded(self@.texts) && v@.len() <= cap,
                None => encoded(self@.texts).len() > cap,
            },
    {
        let mut buf: Vec<u8> = vec![0;cap];
        match self.serialize(buf.as_mut_slice()) {
            Some(n) => {
                buf.truncate(n);
                assert(buf@ =~= encoded(self@.texts));
                Some(buf)
            },
            None => None,
        }
    }

    /// Replace the whole sheet from a [`Sheet::serialize`] byte stream, then
    /// recalculate. Returns `false` on a truncated stream, and leaves the
    /// sheet cleared.
    pub fn deserialize(&mut self, data: &[u8]) -> (r: bool)
        ensures
            final(self).wf(),
            r == decoded(data@) is Some,
            final(self)@ == loaded(data@),
    {
        self.reset();
        if data.len() < 2 {
            return false;
        }
        let count: usize = data[0] as usize + 256 * data[1] as usize;
        let mut p: usize = 2;
        let mut k: usize = 0;
        while k < count
            invariant
                self.wf(),
                2 <= data@.len() <= usize::MAX,
                p <= data@.len(),
                k <= count,
                self@.results == Grid::blank().results,
                decoded(data@) == decode_records(
                    data@,
                    p as int,
                    (count - k) as nat,
                    self@.texts,
                ),
            decreases count - k,
        {
            if data.len() - p < 3 {
                self.reset();
                return false;
            }
            let col: usize = data[p] as usize;
            let row: usize = data[p + 1] as usize;
            let len: usize = data[p + 2] as usize;
            if data.len() - p - 3 < len {
                self.reset();
                return false;
            }
            let text: &[u8] = vstd::slice::slice_subrange(data, p + 3, p + 3 + len);
            if col < COLS && row < ROWS && len <= INPUT_CAP {
                self.put(idx(col, row), text);
                assert(truncated(text@, INPUT_CAP as int) =~= text@);
            }
            p = p + 3 + len;
            k += 1;
        }
        self.recalc();
        true
    }
}

} // verus!
