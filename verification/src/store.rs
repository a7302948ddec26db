//! The scrape store: a single slot holding the raw text of the most recent
//! completed scrape cycle. A commit replaces the slot; a read returns the
//! whole committed entry or nothing, never part of one. Readers own the
//! snapshot they get, so no read outlives the slot it came from. Callers that
//! share a store across tasks wrap it in a mutual-exclusion lock scoped to
//! the single read or commit.

use vstd::prelude::*;

verus! {

/// The latest-snapshot slot. Empty until the first commit; afterwards it
/// always holds the most recently committed entry.
#[derive(Debug)]
pub struct ScrapeStore {
    slot: Option<String>,
}

impl View for ScrapeStore {
    type V = Option<Seq<char>>;

    closed spec fn view(&self) -> Option<Seq<char>> {
        match self.slot {
            Some(ref s) => Some(s@),
            None => None,
        }
    }
}

impl ScrapeStore {
    /// A store that has seen no commit yet.
    pub fn new() -> (s: Self)
        ensures
            s@ is None,
    {
        ScrapeStore { slot: None }
    }

    /// Publishes `entry` as the latest scrape, superseding any earlier one.
    /// Every later read returns `entry` until the next commit.
    pub fn commit(&mut self, entry: String)
        ensures
            final(self)@ == Some(entry@),
    {
        self.slot = Some(entry);
    }

    /// The most recently committed entry, or `None` before the first commit.
    /// The caller gets its own copy: later commits do not touch it.
    pub fn latest(&self) -> (r: Option<String>)
        ensures
            match r {
                Some(t) => self@ == Some(t@),
                None => self@ is None,
            },
    {
        match &self.slot {
            Some(s) => Some(s.clone()),
            None => None,
        }
    }
}

} // verus!
