//! The records the library hands out: one clipboard-history entry, and the
//! single error shape every failing operation collapses into.

use vstd::prelude::*;

verus! {

/// What an entry is, as plain sequences of characters.
pub struct EntryView {
    pub id: Seq<char>,
    pub content: Seq<char>,
    pub content_type: Seq<char>,
}

/// One clipboard-history record: the history tool's handle for it, its text
/// (whole or as a preview), and a classification tag.
#[derive(Debug)]
pub struct ClipboardEntry {
    pub id: String,
    pub content: String,
    pub content_type: String,
}

impl View for ClipboardEntry {
    type V = EntryView;

    open spec fn view(&self) -> EntryView {
        EntryView { id: self.id@, content: self.content@, content_type: self.content_type@ }
    }
}

impl Clone for ClipboardEntry {
    fn clone(&self) -> (r: Self)
        ensures
            r@ == self@,
    {
        ClipboardEntry {
            id: self.id.clone(),
            content: self.content.clone(),
            content_type: self.content_type.clone(),
        }
    }
}

/// The views of a list of entries, in order.
pub open spec fn entry_views(entries: Seq<ClipboardEntry>) -> Seq<EntryView> {
    entries.map_values(|e: ClipboardEntry| e@)
}

/// A failure, carried as a human-readable message.
#[derive(Debug)]
pub struct CliphistError {
    pub message: String,
}

impl View for CliphistError {
    type V = Seq<char>;

    open spec fn view(&self) -> Seq<char> {
        self.message@
    }
}

impl Clone for CliphistError {
    fn clone(&self) -> (r: Self)
        ensures
            r@ == self@,
    {
        CliphistError { message: self.message.clone() }
    }
}

} // verus!
