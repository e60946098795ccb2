//! The output parser: turns the history tool's listing into entries.
//!
//! Each line of the listing is an id, a tab, and the content, which may hold
//! further tabs. A line ends at a line feed; a carriage return just before
//! that line feed belongs to the line ending. A line without a tab yields no
//! entry.

use vstd::prelude::*;
use crate::entry::{entry_views, ClipboardEntry, CliphistError, EntryView};
use crate::text::{chars_of, string_of_range};

verus! {

/// The number of characters a preview may show.
pub const PREVIEW_CHARS: usize = 100;

/// The position of the first `c` in `s`, or the length of `s` if it holds none.
pub open spec fn index_of(s: Seq<char>, c: char) -> int
    decreases s.len(),
{
    if s.len() == 0 || s[0] == c {
        0
    } else {
        1 + index_of(s.drop_first(), c)
    }
}

/// `index_of` is the one position before which no `c` stands and at which
/// `s` holds `c` or ends.
pub proof fn lemma_index_of(s: Seq<char>, c: char, i: int)
    requires
        0 <= i <= s.len(),
        forall|j: int| 0 <= j < i ==> s[j] != c,
        i == s.len() || s[i] == c,
    ensures
        index_of(s, c) == i,
    decreases s.len(),
{
    if i > 0 {
        let t = s.drop_first();
        assert forall|j: int| 0 <= j < i - 1 implies t[j] != c by {
            assert(t[j] == s[j + 1]);
        }
        lemma_index_of(t, c, i - 1);
    }
}

/// A line without the carriage return at its end, if it has one.
pub open spec fn strip_cr(line: Seq<char>) -> Seq<char> {
    if line.len() > 0 && line.last() == '\r' {
        line.drop_last()
    } else {
        line
    }
}

/// The first line of a non-empty listing, without its line ending.
pub open spec fn first_line(s: Seq<char>) -> Seq<char> {
    let n = index_of(s, '\n');
    if 0 <= n < s.len() {
        strip_cr(s.take(n))
    } else {
        s
    }
}

/// What follows the first line and its line ending.
pub open spec fn after_first_line(s: Seq<char>) -> Seq<char> {
    let n = index_of(s, '\n');
    if 0 <= n < s.len() {
        s.skip(n + 1)
    } else {
        Seq::empty()
    }
}

/// The tag every parsed entry carries.
pub open spec fn text_tag() -> Seq<char> {
    "text"@
}

/// The entry a line stands for: the id is what precedes the first tab, the
/// content all that follows it. A line without a tab stands for none.
pub open spec fn line_entry(line: Seq<char>) -> Option<EntryView> {
    let t = index_of(line, '\t');
    if 0 <= t < line.len() {
        Some(EntryView { id: line.take(t), content: line.skip(t + 1), content_type: text_tag() })
    } else {
        None
    }
}

/// The entries of a listing, in the order of its lines.
pub open spec fn parsed(s: Seq<char>) -> Seq<EntryView>
    decreases s.len(),
{
    if s.len() == 0 {
        Seq::empty()
    } else {
        let rest = parsed(after_first_line(s));
        match line_entry(first_line(s)) {
            Some(e) => seq![e] + rest,
            None => rest,
        }
    }
}

/// The content as a preview shows it: whole if it fits the budget, else cut
/// so that the cut text and the three dots of the marker fill the budget.
pub open spec fn preview_of(s: Seq<char>) -> Seq<char> {
    if s.len() > PREVIEW_CHARS {
        s.take(PREVIEW_CHARS - 3) + seq!['.', '.', '.']
    } else {
        s
    }
}

/// An entry with its content replaced by the preview of it.
pub open spec fn preview_entry(e: EntryView) -> EntryView {
    EntryView { id: e.id, content: preview_of(e.content), content_type: e.content_type }
}

/// No `c` stands before `index_of`, which lies within `s` or at its end.
pub proof fn lemma_index_of_first(s: Seq<char>, c: char)
    ensures
        0 <= index_of(s, c) <= s.len(),
        index_of(s, c) < s.len() ==> s[index_of(s, c)] == c,
        forall|j: int| 0 <= j < index_of(s, c) ==> s[j] != c,
    decreases s.len(),
{
    if s.len() > 0 && s[0] != c {
        let t = s.drop_first();
        lemma_index_of_first(t, c);
        assert forall|j: int| 0 <= j < index_of(s, c) implies s[j] != c by {
            if j > 0 {
                assert(s[j] == t[j - 1]);
            }
        }
    }
}

/// What every parsed entry looks like: its id holds neither a tab nor a line
/// feed, its content holds no line feed, and its tag is the text tag.
pub open spec fn entry_shape(e: EntryView) -> bool {
    &&& forall|k: int| 0 <= k < e.id.len() ==> e.id[k] != '\t' && e.id[k] != '\n'
    &&& forall|k: int| 0 <= k < e.content.len() ==> e.content[k] != '\n'
    &&& e.content_type == text_tag()
}

/// Every parsed entry has the shape of an entry.
pub proof fn lemma_parsed_entry_shape(s: Seq<char>)
    ensures
        forall|i: int| 0 <= i < parsed(s).len() ==> entry_shape(#[trigger] parsed(s)[i]),
    decreases s.len(),
{
    if s.len() > 0 {
        let rest = parsed(after_first_line(s));
        lemma_parsed_entry_shape(after_first_line(s));
        let line = first_line(s);
        lemma_index_of_first(s, '\n');
        lemma_index_of_first(line, '\t');
        assert forall|k: int| 0 <= k < line.len() implies line[k] != '\n' by {
            assert(line[k] == s[k]);
        }
        match line_entry(line) {
            Some(e) => {
                let t = index_of(line, '\t');
                assert forall|k: int| 0 <= k < e.id.len() implies e.id[k] != '\t' && e.id[k] != '\n' by {
                    assert(e.id[k] == line[k]);
                }
                assert forall|k: int| 0 <= k < e.content.len() implies e.content[k] != '\n' by {
                    assert(e.content[k] == line[k + t + 1]);
                }
                assert(entry_shape(e));
                assert forall|i: int| 0 <= i < parsed(s).len() implies entry_shape(#[trigger] parsed(s)[i]) by {
                    if i > 0 {
                        assert(parsed(s)[i] == rest[i - 1]);
                    }
                }
            },
            None => {},
        }
    }
}

/// A line without a tab yields no entry: a listing that starts with such a
/// line parses to what the rest of it parses to.
pub proof fn lemma_line_without_tab_dropped(line: Seq<char>, rest: Seq<char>)
    requires
        forall|i: int| 0 <= i < line.len() ==> line[i] != '\t' && line[i] != '\n',
    ensures
        parsed(line + seq!['\n'] + rest) == parsed(rest),
        parsed(line) == Seq::<EntryView>::empty(),
{
    let s = line + seq!['\n'] + rest;
    let n = line.len() as int;
    lemma_index_of(s, '\n', n);
    assert(s.take(n) =~= line);
    assert(s.skip(n + 1) =~= rest);
    let stripped = strip_cr(line);
    lemma_index_of(stripped, '\t', stripped.len() as int);
    assert(line_entry(first_line(s)) is None);
    if line.len() > 0 {
        lemma_index_of(line, '\n', n);
        lemma_index_of(line, '\t', n);
        assert(first_line(line) == line);
        assert(parsed(after_first_line(line)) == Seq::<EntryView>::empty());
    }
}

/// A line with a tab yields one entry: the id is what stands before the
/// first tab, and the content is all that follows it, further tabs included.
pub proof fn lemma_line_with_tab_parsed(id: Seq<char>, content: Seq<char>, rest: Seq<char>)
    requires
        forall|i: int| 0 <= i < id.len() ==> id[i] != '\t' && id[i] != '\n',
        forall|i: int| 0 <= i < content.len() ==> content[i] != '\n',
        content.len() == 0 || content.last() != '\r',
    ensures
        parsed(id + seq!['\t'] + content + seq!['\n'] + rest) == seq![
            EntryView { id: id, content: content, content_type: text_tag() },
        ] + parsed(rest),
        parsed(id + seq!['\t'] + content) == seq![
            EntryView { id: id, content: content, content_type: text_tag() },
        ],
{
    let line = id + seq!['\t'] + content;
    let s = line + seq!['\n'] + rest;
    let n = line.len() as int;
    let t = id.len() as int;
    lemma_index_of(s, '\n', n);
    lemma_index_of(line, '\n', n);
    lemma_index_of(line, '\t', t);
    assert(s.take(n) =~= line);
    assert(s.skip(n + 1) =~= rest);
    assert(line.last() != '\r');
    assert(strip_cr(line) == line);
    assert(line.take(t) =~= id);
    assert(line.skip(t + 1) =~= content);
    assert(first_line(s) == line);
    assert(first_line(line) == line);
    assert(parsed(after_first_line(line)) == Seq::<EntryView>::empty());
    let e = EntryView { id: id, content: content, content_type: text_tag() };
    assert(line_entry(line) == Some(e));
    assert(seq![e] + Seq::<EntryView>::empty() =~= seq![e]);
}

/// A carriage return just before the line feed belongs to the line ending,
/// not to the content.
pub proof fn lemma_crlf_line_parsed(id: Seq<char>, content: Seq<char>, rest: Seq<char>)
    requires
        forall|i: int| 0 <= i < id.len() ==> id[i] != '\t' && id[i] != '\n',
        forall|i: int| 0 <= i < content.len() ==> content[i] != '\n',
    ensures
        parsed(id + seq!['\t'] + content + seq!['\r', '\n'] + rest) == seq![
            EntryView { id: id, content: content, content_type: text_tag() },
        ] + parsed(rest),
{
    let line = id + seq!['\t'] + content;
    let s = line + seq!['\r', '\n'] + rest;
    let n = line.len() as int + 1;
    let t = id.len() as int;
    lemma_index_of(s, '\n', n);
    lemma_index_of(line, '\t', t);
    assert(s.take(n) =~= line.push('\r'));
    assert(line.push('\r').drop_last() =~= line);
    assert(s.skip(n + 1) =~= rest);
    assert(line.take(t) =~= id);
    assert(line.skip(t + 1) =~= content);
    assert(first_line(s) == line);
}

/// A preview never shows more than the budget, and a content that fits the
/// budget is its own preview.
pub proof fn lemma_preview_within_budget(s: Seq<char>)
    ensures
        preview_of(s).len() <= PREVIEW_CHARS,
        s.len() <= PREVIEW_CHARS ==> preview_of(s) == s,
        s.len() > PREVIEW_CHARS ==> preview_of(s).len() == PREVIEW_CHARS,
        preview_of(preview_of(s)) == preview_of(s),
{
}

/// The entries, each with its content replaced by the preview of it.
pub open spec fn previews(entries: Seq<EntryView>) -> Seq<EntryView> {
    entries.map_values(|e: EntryView| preview_entry(e))
}

/// The position of the first `c` in `v[from..to]`, or `to` if there is none.
pub fn find_char(v: &Vec<char>, from: usize, to: usize, c: char) -> (r: usize)
    requires
        from <= to <= v@.len(),
    ensures
        from <= r <= to,
        r - from == index_of(v@.subrange(from as int, to as int), c),
{
    let mut i: usize = from;
    while i < to && v[i] != c
        invariant
            from <= i <= to <= v@.len(),
            forall|j: int| from <= j < i ==> v@[j] != c,
        decreases to - i,
    {
        i += 1;
    }
    proof {
        lemma_index_of(v@.subrange(from as int, to as int), c, i - from);
    }
    i
}

/// Parses the history tool's listing. Every line with a tab yields one entry,
/// in the order of the lines; the other lines are passed over. There is no
/// input on which this fails.
pub fn parse_cliphist_list(output: &str) -> (r: Result<Vec<ClipboardEntry>, CliphistError>)
    ensures
        r is Ok,
        entry_views(r->Ok_0@) == parsed(output@),
        output@.len() == 0 ==> r->Ok_0@.len() == 0,
        forall|i: int| 0 <= i < r->Ok_0@.len() ==> entry_shape((#[trigger] r->Ok_0@[i])@),
{
    let chars = chars_of(output);
    let n: usize = chars.len();
    let mut entries: Vec<ClipboardEntry> = Vec::new();
    let mut pos: usize = 0;
    assert(chars@.skip(0) =~= chars@);
    assert(entry_views(entries@) + parsed(chars@) =~= parsed(chars@));
    while pos < n
        invariant
            n == chars@.len(),
            pos <= n,
            parsed(chars@) == entry_views(entries@) + parsed(chars@.skip(pos as int)),
        decreases n - pos,
    {
        let ghost rest = chars@.skip(pos as int);
        let ghost before = entries@;
        assert(rest =~= chars@.subrange(pos as int, n as int));
        let nl = find_char(&chars, pos, n, '\n');
        let mut end: usize = nl;
        if nl < n && end > pos && chars[end - 1] == '\r' {
            end -= 1;
        }
        let ghost line = chars@.subrange(pos as int, end as int);
        let next: usize = if nl < n {
            nl + 1
        } else {
            n
        };
        proof {
            if nl < n {
                assert(rest.take(nl - pos) =~= chars@.subrange(pos as int, nl as int));
                assert(strip_cr(rest.take(nl - pos)) =~= line);
                assert(rest.skip(nl - pos + 1) =~= chars@.skip(next as int));
            } else {
                assert(line =~= rest);
                assert(chars@.skip(next as int) =~= Seq::<char>::empty());
            }
            assert(first_line(rest) == line);
            assert(after_first_line(rest) == chars@.skip(next as int));
        }
        let tab = find_char(&chars, pos, end, '\t');
        if tab < end {
            let id = string_of_range(&chars, pos, tab);
            let content = string_of_range(&chars, tab + 1, end);
            let entry = ClipboardEntry { id, content, content_type: "text".to_owned() };
            proof {
                assert(line.take(tab - pos) =~= chars@.subrange(pos as int, tab as int));
                assert(line.skip(tab - pos + 1) =~= chars@.subrange(tab + 1, end as int));
                assert(line_entry(line) == Some(entry@));
            }
            entries.push(entry);
            proof {
                assert(entry_views(entries@) =~= entry_views(before).push(entry@));
                assert(entry_views(entries@) + parsed(chars@.skip(next as int)) =~= entry_views(before) + (
                seq![entry@] + parsed(chars@.skip(next as int))));
            }
        } else {
            assert(line_entry(line) is None);
        }
        pos = next;
    }
    assert(parsed(chars@.skip(pos as int)) =~= Seq::<EntryView>::empty());
    assert(entry_views(entries@) + Seq::<EntryView>::empty() =~= entry_views(entries@));
    proof {
        lemma_parsed_entry_shape(output@);
        assert forall|i: int| 0 <= i < entries@.len() implies entry_shape((#[trigger] entries@[i])@) by {
            assert(entries@[i]@ == entry_views(entries@)[i]);
        }
    }
    Ok(entries)
}

/// The content as a preview shows it: at most `PREVIEW_CHARS` characters,
/// cut between characters, and ending in three dots where it was cut.
pub fn truncate_preview(content: &str) -> (r: String)
    ensures
        r@ == preview_of(content@),
        r@.len() <= PREVIEW_CHARS,
        content@.len() <= PREVIEW_CHARS ==> r@ == content@,
        content@.len() > PREVIEW_CHARS ==> r@.len() == PREVIEW_CHARS,
{
    let chars = chars_of(content);
    if chars.len() > PREVIEW_CHARS {
        let mut s = string_of_range(&chars, 0, PREVIEW_CHARS - 3);
        s.push('.');
        s.push('.');
        s.push('.');
        assert(s@ =~= preview_of(content@));
        s
    } else {
        content.to_owned()
    }
}

/// The same entries, each with its content cut to a preview.
pub fn preview_entries(entries: &Vec<ClipboardEntry>) -> (r: Vec<ClipboardEntry>)
    ensures
        entry_views(r@) == previews(entry_views(entries@)),
{
    let mut out: Vec<ClipboardEntry> = Vec::new();
    let mut i: usize = 0;
    while i < entries.len()
        invariant
            i <= entries@.len(),
            out@.len() == i,
            forall|k: int| 0 <= k < i ==> (#[trigger] out@[k])@ == preview_entry(entries@[k]@),
        decreases entries@.len() - i,
    {
        let e = &entries[i];
        let entry = ClipboardEntry {
            id: e.id.clone(),
            content: truncate_preview(e.content.as_str()),
            content_type: e.content_type.clone(),
        };
        out.push(entry);
        i += 1;
    }
    assert(entry_views(out@) =~= previews(entry_views(entries@)));
    out
}

} // verus!
