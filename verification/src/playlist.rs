//! The ordered now-playing queue: a named list of track paths with a cursor
//! marking the entry considered current.
//!
//! The cursor is moved only by completion events (through [`Playlist::next`])
//! or by explicit user selection (through [`Playlist::nextEntry`] and
//! [`Playlist::replaceWith`]); a fresh queue has no current entry yet, so the
//! first advance lands on the first entry.

use vstd::prelude::*;

use crate::paths::TrackPath;
use crate::paths::displaySpec;

verus! {

/// An ordered queue of track paths with a cursor.
pub struct Playlist {
    name: String,
    entries: Vec<TrackPath>,
    currentEntry: Option<usize>,
}

/// The cursor after one advance of a queue of `len` entries.
pub open spec fn advancedCursor(len: nat, cursor: Option<usize>) -> Option<usize> {
    if len == 0 {
        cursor
    } else {
        match cursor {
            Option::None => Option::Some(0usize),
            Option::Some(i) => if (i as nat) < len {
                Option::Some((i + 1) as usize)
            } else {
                Option::Some(i)
            },
        }
    }
}

/// What one advance of the queue returns: the new current entry, or nothing
/// once the queue is exhausted (or empty).
pub open spec fn advancedEntry(
    entries: Seq<Seq<Seq<char>>>,
    cursor: Option<usize>,
) -> Option<Seq<Seq<char>>> {
    if entries.len() == 0 {
        Option::None
    } else {
        match advancedCursor(entries.len(), cursor) {
            Option::Some(j) => if (j as nat) < entries.len() {
                Option::Some(entries[j as int])
            } else {
                Option::None
            },
            Option::None => Option::None,
        }
    }
}

impl Playlist {
    /// The queue's entries, as component paths.
    pub closed spec fn entriesSpec(self) -> Seq<Seq<Seq<char>>> {
        Seq::new(self.entries@.len(), |i: int| self.entries@[i]@)
    }

    /// The queue's name.
    pub closed spec fn nameSpec(self) -> Seq<char> {
        self.name@
    }

    /// The cursor, if any entry has become current yet.
    pub closed spec fn cursorSpec(self) -> Option<usize> {
        self.currentEntry
    }

    /// A fresh, empty queue with no current entry.
    pub fn new(name: String) -> (r: Playlist)
        ensures
            r.nameSpec() == name@,
            r.entriesSpec() =~= Seq::<Seq<Seq<char>>>::empty(),
            r.cursorSpec() is None,
    {
        Playlist { name, entries: Vec::new(), currentEntry: None }
    }

    /// The queue's name.
    pub fn name(&self) -> (r: &str)
        ensures
            r@ == self.nameSpec(),
    {
        self.name.as_str()
    }

    /// Append a track to the end of the queue.
    pub fn add(&mut self, fileName: &TrackPath)
        ensures
            final(self).entriesSpec() =~= old(self).entriesSpec() + seq![fileName@],
            final(self).nameSpec() == old(self).nameSpec(),
            final(self).cursorSpec() == old(self).cursorSpec(),
    {
        let ghost oldEntries = self.entries@;
        self.entries.push(fileName.duplicate());
        proof {
            assert forall|j: int| 0 <= j < self.entriesSpec().len() implies self.entriesSpec()[j]
                == (old(self).entriesSpec() + seq![fileName@])[j] by {
                if j < oldEntries.len() {
                    assert(self.entries@[j] == oldEntries[j]);
                }
            }
        }
    }

    /// Throw the queue away and start it afresh with the one given track,
    /// which becomes current.
    pub fn replaceWith(&mut self, fileName: &TrackPath)
        ensures
            final(self).entriesSpec() =~= seq![fileName@],
            final(self).nameSpec() == old(self).nameSpec(),
            final(self).cursorSpec() == Option::Some(0usize),
    {
        self.entries.clear();
        self.currentEntry = Some(0);
        self.add(fileName);
    }

    /// The display text of every entry, in order.
    pub fn contents(&self) -> (r: Vec<String>)
        ensures
            r@.len() == self.entriesSpec().len(),
            forall|i: int|
                0 <= i < r@.len() ==> r@[i]@ == displaySpec(#[trigger] self.entriesSpec()[i]),
    {
        let mut out: Vec<String> = Vec::new();
        let mut i: usize = 0;
        while i < self.entries.len()
            invariant
                i <= self.entries@.len(),
                out@.len() == i,
                forall|j: int|
                    0 <= j < i ==> out@[j]@ == displaySpec(#[trigger] self.entriesSpec()[j]),
            decreases self.entries@.len() - i,
        {
            out.push(self.entries[i].display());
            i = i + 1;
        }
        out
    }

    /// How many entries the queue holds.
    pub fn entryCount(&self) -> (r: usize)
        ensures
            r == self.entriesSpec().len(),
    {
        self.entries.len()
    }

    /// Borrow the entry at `index`.
    pub fn entry(&self, index: usize) -> (r: &TrackPath)
        requires
            index < self.entriesSpec().len(),
        ensures
            r@ == self.entriesSpec()[index as int],
    {
        &self.entries[index]
    }

    /// Make the entry at `index` the current one.
    pub fn nextEntry(&mut self, index: usize)
        ensures
            final(self).entriesSpec() == old(self).entriesSpec(),
            final(self).nameSpec() == old(self).nameSpec(),
            final(self).cursorSpec() == Option::Some(index),
    {
        self.currentEntry = Some(index);
    }

    /// The index of the current entry, or 0 while none has become current.
    pub fn currentEntry(&self) -> (r: usize)
        ensures
            r == match self.cursorSpec() {
                Option::Some(i) => i,
                Option::None => 0usize,
            },
    {
        match self.currentEntry {
            Some(i) => i,
            None => 0,
        }
    }

    /// Advance the cursor on a completion event and hand back the new
    /// current entry; an empty or exhausted queue yields nothing.
    pub fn next(&mut self) -> (r: Option<TrackPath>)
        ensures
            final(self).entriesSpec() == old(self).entriesSpec(),
            final(self).nameSpec() == old(self).nameSpec(),
            final(self).cursorSpec() == advancedCursor(
                old(self).entriesSpec().len(),
                old(self).cursorSpec(),
            ),
            match r {
                Option::Some(p) => advancedEntry(old(self).entriesSpec(), old(self).cursorSpec())
                    == Option::Some(p@),
                Option::None => advancedEntry(old(self).entriesSpec(), old(self).cursorSpec())
                    is None,
            },
    {
        if self.entries.len() == 0 {
            return None;
        }
        let count = self.entries.len();
        let cursor: usize = match self.currentEntry {
            None => 0,
            Some(i) => {
                if i < count {
                    i + 1
                } else {
                    i
                }
            },
        };
        self.currentEntry = Some(cursor);
        if cursor >= count {
            return None;
        }
        Some(self.entries[cursor].duplicate())
    }
}

/// Law: advancing an empty queue returns nothing and leaves the cursor
/// alone, whatever the cursor was.
pub proof fn emptyQueueAdvanceLaw(cursor: Option<usize>)
    ensures
        advancedEntry(Seq::<Seq<Seq<char>>>::empty(), cursor) is None,
        advancedCursor(0, cursor) == cursor,
{
}

/// Law: on a fresh queue (no current entry yet) with at least one entry,
/// each advance returns the entries in order until the queue is exhausted.
pub proof fn freshQueueAdvanceLaw(entries: Seq<Seq<Seq<char>>>)
    requires
        entries.len() > 0,
        entries.len() <= usize::MAX,
    ensures
        advancedEntry(entries, Option::None) == Option::Some(entries[0]),
        forall|i: usize|
            (i as nat) + 1 < entries.len() ==> advancedEntry(entries, Option::Some(i))
                == Option::Some(entries[i + 1]),
        forall|i: usize|
            (i as nat) + 1 >= entries.len() ==> advancedEntry(
                entries,
                Option::Some(i),
            ) is None,
{
}

} // verus!
