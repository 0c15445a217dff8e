//! Rows of a game title catalogue and the search over them.

use crate::title::{contains_seq, contains_text, lower_of};
use vstd::prelude::*;

verus! {

/// One row of a game title catalogue.
#[derive(Debug, Clone, Default)]
pub struct TitleEntry {
    pub id: String,
    pub title: String,
    pub developer: String,
    pub genre: String,
    pub language: String,
    pub publisher: String,
    pub region: String,
    pub release_date: String,
}

/// A row answers a query when the query, lower-cased, occurs in its
/// lower-cased id or in its lower-cased title.
pub open spec fn answers_query(e: TitleEntry, query: Seq<char>) -> bool {
    contains_seq(lower_of(e.id@), lower_of(query)) || contains_seq(
        lower_of(e.title@),
        lower_of(query),
    )
}

/// Tells whether `entry` answers `query`, ignoring case.
pub fn title_entry_matches(entry: &TitleEntry, query: &str) -> (r: bool)
    ensures
        r == answers_query(*entry, query@),
{
    let q = crate::title::to_lower(query);
    let id = crate::title::to_lower(entry.id.as_str());
    if contains_text(id.as_str(), q.as_str()) {
        return true;
    }
    let title = crate::title::to_lower(entry.title.as_str());
    contains_text(title.as_str(), q.as_str())
}

fn entry_copy(e: &TitleEntry) -> (r: TitleEntry)
    ensures
        r == *e,
{
    TitleEntry {
        id: e.id.clone(),
        title: e.title.clone(),
        developer: e.developer.clone(),
        genre: e.genre.clone(),
        language: e.language.clone(),
        publisher: e.publisher.clone(),
        region: e.region.clone(),
        release_date: e.release_date.clone(),
    }
}

/// The rows of `entries` that answer `query`, in order.
pub fn search_title_entries(entries: &Vec<TitleEntry>, query: &str) -> (r: Vec<TitleEntry>)
    ensures
        r@ == entries@.filter(|e: TitleEntry| answers_query(e, query@)),
{
    let ghost keep = |e: TitleEntry| answers_query(e, query@);
    let mut found: Vec<TitleEntry> = Vec::new();
    let mut i: usize = 0;
    proof {
        assert(entries@.subrange(0, 0).filter(keep) =~= Seq::<TitleEntry>::empty());
    }
    while i < entries.len()
        invariant
            i <= entries@.len(),
            keep == (|e: TitleEntry| answers_query(e, query@)),
            found@ == entries@.subrange(0, i as int).filter(keep),
        decreases entries@.len() - i,
    {
        let e = &entries[i];
        proof {
            entries@.subrange(0, i as int).lemma_filter_push(*e, keep);
            assert(entries@.subrange(0, i + 1) =~= entries@.subrange(0, i as int).push(*e));
        }
        if title_entry_matches(e, query) {
            found.push(entry_copy(e));
        }
        i = i + 1;
    }
    proof {
        assert(entries@.subrange(0, i as int) =~= entries@);
    }
    found
}

} // verus!
