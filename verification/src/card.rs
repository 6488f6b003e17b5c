//! Saves on a memory card: their names, and what can go wrong.

use vstd::prelude::*;

use crate::ascii::{
    is_alpha, is_ascii_alphabetic, is_ascii_digit, is_digit, to_ascii_uppercase, upper,
};
use crate::labels::{bytes, copied, lemma_utf8_ascii, utf8};
use crate::refs::truncated;

verus! {

/// A card holds at most 15 files, one for each block.
pub const MAX_FILES: usize = 15;

/// The longest file name.
pub const NAME_CAP: usize = 20;

/// The prefix that tells the saves of this program from others.
pub open spec fn save_prefix() -> Seq<u8> {
    utf8("PSXCEL-")
}

/// One file of a card's directory.
pub struct SaveEntry {
    pub name: Vec<u8>,
    pub blocks: u16,
}

impl View for SaveEntry {
    type V = (Seq<u8>, u16);

    open spec fn view(&self) -> (Seq<u8>, u16) {
        (self.name@, self.blocks)
    }
}

/// The view of a directory.
pub open spec fn entries_view(entries: Seq<SaveEntry>) -> Seq<(Seq<u8>, u16)> {
    Seq::new(entries.len(), |i: int| entries[i]@)
}

/// What a memory card can answer instead of doing what it was asked.
#[derive(Copy, Clone, PartialEq, Eq, Structural)]
pub enum CardError {
    NoCard,
    NotFound,
    NoSpace,
    BadChecksum,
    Protocol,
    BufferTooSmall,
    BadName,
    Other,
}

/// Short on-screen text for a memory-card error.
pub open spec fn error_text(e: CardError) -> Seq<u8> {
    match e {
        CardError::NoCard => utf8("NO CARD"),
        CardError::NotFound => utf8("NO SAVE FOUND"),
        CardError::NoSpace => utf8("CARD FULL"),
        CardError::BadChecksum => utf8("CARD CHECKSUM"),
        CardError::Protocol => utf8("CARD ERROR"),
        CardError::BufferTooSmall => utf8("SAVE TOO BIG"),
        CardError::BadName => utf8("BAD NAME"),
        CardError::Other => utf8("CARD FAULT"),
    }
}

/// Short on-screen text for a memory-card error.
pub fn mc_err(e: CardError) -> (s: &'static str)
    ensures
        utf8(s) == error_text(e),
{
    match e {
        CardError::NoCard => "NO CARD",
        CardError::NotFound => "NO SAVE FOUND",
        CardError::NoSpace => "CARD FULL",
        CardError::BadChecksum => "CARD CHECKSUM",
        CardError::Protocol => "CARD ERROR",
        CardError::BufferTooSmall => "SAVE TOO BIG",
        CardError::BadName => "BAD NAME",
        CardError::Other => "CARD FAULT",
    }
}

/// The letters and digits of a typed name, in uppercase.
pub open spec fn usable(name: Seq<u8>) -> Seq<u8>
    decreases name.len(),
{
    if name.len() == 0 {
        seq![]
    } else {
        let c = upper(name.last());
        if is_alpha(c) || is_digit(c) {
            usable(name.drop_last()).push(c)
        } else {
            usable(name.drop_last())
        }
    }
}

/// The file name for a typed save name: the prefix, and as many of its letters
/// and digits as fit. `None` if it has none.
pub open spec fn filename(name: Seq<u8>) -> Option<Seq<u8>> {
    if usable(name).len() == 0 {
        None
    } else {
        Some(save_prefix() + truncated(usable(name), NAME_CAP - save_prefix().len()))
    }
}

pub proof fn lemma_prefix_len()
    ensures
        save_prefix().len() == 7,
{
    reveal_strlit("PSXCEL-");
    lemma_utf8_ascii("PSXCEL-");
}

/// A file name fits a directory and starts with the prefix.
pub proof fn law_filename_is_ours(name: Seq<u8>)
    ensures
        filename(name) matches Some(f) ==> save_prefix().len() < f.len() <= NAME_CAP && has_prefix(
            f,
        ),
{
    lemma_prefix_len();
    if let Some(f) = filename(name) {
        assert(f.take(save_prefix().len() as int) =~= save_prefix());
    }
}

/// Build a card file name from a typed save name. `None` if nothing usable
/// remains.
pub fn make_filename(name: &[u8]) -> (f: Option<Vec<u8>>)
    ensures
        match f {
            Some(v) => filename(name@) == Some(v@),
            None => filename(name@) is None,
        },
{
    proof {
        lemma_prefix_len();
    }
    let mut out: Vec<u8> = bytes("PSXCEL-");
    let base: usize = out.len();
    let mut i: usize = 0;
    let ghost mut kept: Seq<u8> = seq![];
    assert(name@.take(0) =~= Seq::<u8>::empty());
    while i < name.len()
        invariant
            base == save_prefix().len() == 7,
            i <= name@.len(),
            kept == usable(name@.take(i as int)),
            out@ == save_prefix() + truncated(kept, NAME_CAP - base),
        decreases name@.len() - i,
    {
        let c: u8 = to_ascii_uppercase(name[i]);
        assert(name@.take(i + 1).drop_last() =~= name@.take(i as int));
        if is_ascii_alphabetic(c) || is_ascii_digit(c) {
            let ghost next = kept.push(c);
            if out.len() < NAME_CAP {
                out.push(c);
            } else {
                assert(truncated(next, NAME_CAP - base) =~= truncated(kept, NAME_CAP - base));
            }
            assert(out@ =~= save_prefix() + truncated(next, NAME_CAP - base));
            proof {
                kept = next;
            }
        }
        i += 1;
    }
    assert(name@.take(name@.len() as int) =~= name@);
    if out.len() == base {
        None
    } else {
        Some(out)
    }
}

/// Whether a file's name marks it as a save of this program.
pub open spec fn has_prefix(name: Seq<u8>) -> bool {
    save_prefix().is_prefix_of(name)
}

/// A save's name without the prefix.
pub open spec fn shown_name(name: Seq<u8>) -> Seq<u8> {
    if has_prefix(name) {
        name.skip(save_prefix().len() as int)
    } else {
        name
    }
}

/// Whether a file's name marks it as a save of this program.
pub fn is_save(name: &[u8]) -> (r: bool)
    ensures
        r == has_prefix(name@),
{
    let prefix: &[u8] = "PSXCEL-".as_bytes();
    if name.len() < prefix.len() {
        return false;
    }
    let mut i: usize = 0;
    while i < prefix.len()
        invariant
            prefix@ == save_prefix(),
            i <= prefix@.len() <= name@.len(),
            forall|k: int| 0 <= k < i ==> #[trigger] prefix@[k] == name@[k],
        decreases prefix@.len() - i,
    {
        if prefix[i] != name[i] {
            return false;
        }
        i += 1;
    }
    assert(has_prefix(name@)) by {
        assert(prefix@ =~= name@.subrange(0, prefix@.len() as int));
    }
    true
}

/// A card file's name as it is shown: without the prefix.
pub fn display_name(entry: &SaveEntry) -> (s: Vec<u8>)
    ensures
        s@ == shown_name(entry.name@),
{
    let name: &[u8] = entry.name.as_slice();
    if is_save(name) {
        proof {
            lemma_prefix_len();
        }
        let s: Vec<u8> = copied(vstd::slice::slice_subrange(name, 7, name.len()));
        assert(s@ =~= shown_name(entry.name@));
        s
    } else {
        copied(name)
    }
}

/// The first 15 of the directory's files that are saves of this program.
pub open spec fn saves_among(entries: Seq<(Seq<u8>, u16)>) -> Seq<(Seq<u8>, u16)>
    decreases entries.len(),
{
    if entries.len() == 0 {
        seq![]
    } else {
        let before = saves_among(entries.drop_last());
        if has_prefix(entries.last().0) && before.len() < MAX_FILES {
            before.push(entries.last())
        } else {
            before
        }
    }
}

/// Pick the saves of this program out of a card's directory.
pub fn pick_saves(entries: &Vec<SaveEntry>) -> (saves: Vec<SaveEntry>)
    ensures
        entries_view(saves@) == saves_among(entries_view(entries@)),
        saves@.len() <= MAX_FILES,
{
    let mut saves: Vec<SaveEntry> = Vec::new();
    let mut i: usize = 0;
    let ghost all = entries_view(entries@);
    assert(all.take(0) =~= Seq::<(Seq<u8>, u16)>::empty());
    assert(entries_view(saves@) =~= Seq::<(Seq<u8>, u16)>::empty());
    while i < entries.len()
        invariant
            all == entries_view(entries@),
            i <= entries@.len(),
            entries_view(saves@) == saves_among(all.take(i as int)),
            saves@.len() <= MAX_FILES,
        decreases entries@.len() - i,
    {
        assert(all.take(i + 1).drop_last() =~= all.take(i as int));
        let e: &SaveEntry = &entries[i];
        assert(all.take(i + 1).last() == e@);
        if is_save(e.name.as_slice()) && saves.len() < MAX_FILES {
            let ghost before = entries_view(saves@);
            let kept = SaveEntry { name: copied(e.name.as_slice()), blocks: e.blocks };
            saves.push(kept);
            assert(entries_view(saves@) =~= before.push(e@));
        }
        i += 1;
    }
    assert(all.take(all.len() as int) =~= all);
    saves
}

/// Whether any file of a directory is a save of this program.
pub open spec fn offers_saves(entries: Seq<(Seq<u8>, u16)>) -> bool {
    exists|i: int| 0 <= i < entries.len() && has_prefix((#[trigger] entries[i]).0)
}

/// Whether any file of a directory is a save of this program.
pub fn any_save(entries: &Vec<SaveEntry>) -> (r: bool)
    ensures
        r == offers_saves(entries_view(entries@)),
        r == exists|i: int| 0 <= i < entries@.len() && has_prefix(#[trigger] entries@[i].name@),
{
    let ghost all = entries_view(entries@);
    let mut i: usize = 0;
    while i < entries.len()
        invariant
            i <= entries@.len(),
            all == entries_view(entries@),
            forall|k: int| 0 <= k < i ==> !has_prefix(#[trigger] entries@[k].name@),
        decreases entries@.len() - i,
    {
        if is_save(entries[i].name.as_slice()) {
            assert(has_prefix(all[i as int].0));
            return true;
        }
        i += 1;
    }
    assert forall|k: int| 0 <= k < all.len() implies !has_prefix((#[trigger] all[k]).0) by {
        assert(!has_prefix(entries@[k].name@));
    }
    false
}

} // verus!
