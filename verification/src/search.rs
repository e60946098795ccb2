//! Filtering a list of entries by a query.

use vstd::prelude::*;
use crate::entry::{entry_views, ClipboardEntry, CliphistError, EntryView};
use crate::matcher::{fuzzy_match, query_matches};
use crate::parser::{parse_cliphist_list, parsed, preview_entries, previews};

verus! {

/// The test an entry passes when `query` matches its content.
pub open spec fn content_matches(query: Seq<char>) -> spec_fn(EntryView) -> bool {
    |e: EntryView| query_matches(e.content, query)
}

/// The entries whose content `query` matches, in their order in `entries`.
/// An empty query keeps them all.
pub fn search_entries(entries: &Vec<ClipboardEntry>, query: &str) -> (r: Vec<ClipboardEntry>)
    ensures
        entry_views(r@) == entry_views(entries@).filter(content_matches(query@)),
        query@.len() == 0 ==> entry_views(r@) == entry_views(entries@),
{
    let ghost keep = content_matches(query@);
    let mut out: Vec<ClipboardEntry> = Vec::new();
    let mut i: usize = 0;
    assert(entry_views(entries@.take(0)) =~= Seq::<EntryView>::empty());
    assert(entry_views(out@) =~= Seq::<EntryView>::empty());
    assert(Seq::<EntryView>::empty().filter(keep) =~= Seq::<EntryView>::empty()) by {
        reveal(Seq::filter);
    }
    while i < entries.len()
        invariant
            i <= entries@.len(),
            keep == content_matches(query@),
            entry_views(out@) == entry_views(entries@.take(i as int)).filter(keep),
            query@.len() == 0 ==> entry_views(out@) == entry_views(entries@.take(i as int)),
        decreases entries@.len() - i,
    {
        let e = &entries[i];
        let ghost seen = entry_views(entries@.take(i as int));
        let ghost kept = out@;
        proof {
            assert(entries@.take(i + 1) =~= entries@.take(i as int).push(*e));
            assert(entry_views(entries@.take(i + 1)) =~= seen.push(e@));
            seen.lemma_filter_push(e@, keep);
        }
        if fuzzy_match(e.content.as_str(), query) {
            let copy = e.clone();
            out.push(copy);
            assert(entry_views(out@) =~= entry_views(kept).push(e@));
        }
        i += 1;
    }
    assert(entries@.take(entries@.len() as int) =~= entries@);
    out
}

/// The history as it is shown: the entries of the listing, newest first as
/// the tool printed them, each with its content cut to a preview.
pub fn history_from_listing(output: &str) -> (r: Result<Vec<ClipboardEntry>, CliphistError>)
    ensures
        r is Ok,
        entry_views(r->Ok_0@) == previews(parsed(output@)),
{
    match parse_cliphist_list(output) {
        Ok(entries) => Ok(preview_entries(&entries)),
        Err(e) => Err(e),
    }
}

/// The entries of the listing that `query` matches, in the listing's order.
/// The query is held against the whole content, so that text beyond the
/// preview's cut is found too; the entries returned carry the preview.
pub fn search_listing(output: &str, query: &str) -> (r: Result<Vec<ClipboardEntry>, CliphistError>)
    ensures
        r is Ok,
        entry_views(r->Ok_0@) == previews(parsed(output@).filter(content_matches(query@))),
        query@.len() == 0 ==> entry_views(r->Ok_0@) == previews(parsed(output@)),
{
    match parse_cliphist_list(output) {
        Ok(entries) => {
            let found = search_entries(&entries, query);
            Ok(preview_entries(&found))
        },
        Err(e) => Err(e),
    }
}

} // verus!
