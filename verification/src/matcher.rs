//! The fuzzy matcher: whether a free-text query matches an entry's content.
//!
//! A query matches when it is empty, when its case-folded form occurs in the
//! case-folded content, or when every token of the folded query occurs inside
//! some token of the folded content. A token is a maximal run of alphanumeric
//! characters.

use vstd::prelude::*;
use crate::text::{alphanumeric, chars_of, lowercase};

verus! {

/// `needle` stands in `hay` at position `i`.
pub open spec fn occurs_at(hay: Seq<char>, needle: Seq<char>, i: int) -> bool {
    &&& 0 <= i
    &&& i + needle.len() <= hay.len()
    &&& hay.subrange(i, i + needle.len()) == needle
}

/// `needle` occurs in `hay` as a contiguous run.
pub open spec fn is_substring(hay: Seq<char>, needle: Seq<char>) -> bool {
    exists|i: int| occurs_at(hay, needle, i)
}

/// For each character of `s`, whether it is alphanumeric.
pub open spec fn word_flags(s: Seq<char>) -> Seq<bool> {
    Seq::new(s.len(), |i: int| alphanumeric(s[i]))
}

/// The positions `a..b` hold a token: a non-empty run of word characters that
/// cannot be extended on either side.
pub open spec fn is_token(word: Seq<bool>, a: int, b: int) -> bool {
    &&& 0 <= a < b <= word.len()
    &&& forall|k: int| a <= k < b ==> word[k]
    &&& (a == 0 || !word[a - 1])
    &&& (b == word.len() || !word[b])
}

/// `r` lists the tokens of a text with the word flags `word`: each of them,
/// nothing else, from left to right.
pub open spec fn lists_tokens(word: Seq<bool>, r: Seq<(usize, usize)>) -> bool {
    &&& forall|i: int| 0 <= i < r.len() ==> is_token(word, (#[trigger] r[i]).0 as int, r[i].1 as int)
    &&& forall|a: int, b: int| #[trigger]
        is_token(word, a, b) ==> exists|i: int|
            0 <= i < r.len() && (#[trigger] r[i]).0 == a && r[i].1 == b
    &&& forall|i: int, j: int| 0 <= i < j < r.len() ==> (#[trigger] r[i]).1 < (#[trigger] r[j]).0
}

/// Some token of `content` contains `token`.
pub open spec fn token_found(content: Seq<char>, content_word: Seq<bool>, token: Seq<char>) -> bool {
    exists|c: int, d: int| #[trigger]
        is_token(content_word, c, d) && is_substring(content.subrange(c, d), token)
}

/// Every token of `query` is contained in some token of `content`.
pub open spec fn tokens_match(
    content: Seq<char>,
    content_word: Seq<bool>,
    query: Seq<char>,
    query_word: Seq<bool>,
) -> bool {
    forall|a: int, b: int| #[trigger]
        is_token(query_word, a, b) ==> token_found(content, content_word, query.subrange(a, b))
}

/// The match on texts that are already case-folded and classified.
pub open spec fn folded_match(
    content: Seq<char>,
    content_word: Seq<bool>,
    query: Seq<char>,
    query_word: Seq<bool>,
) -> bool {
    is_substring(content, query) || tokens_match(content, content_word, query, query_word)
}

/// Whether `query` matches `content`.
pub open spec fn query_matches(content: Seq<char>, query: Seq<char>) -> bool {
    query.len() == 0 || folded_match(
        lowercase(content),
        word_flags(lowercase(content)),
        lowercase(query),
        word_flags(lowercase(query)),
    )
}

/// Whether `needle[ns..ne]` occurs in `hay[hs..he]`.
pub fn range_contains(
    hay: &Vec<char>,
    hs: usize,
    he: usize,
    needle: &Vec<char>,
    ns: usize,
    ne: usize,
) -> (r: bool)
    requires
        hs <= he <= hay@.len(),
        ns <= ne <= needle@.len(),
    ensures
        r == is_substring(hay@.subrange(hs as int, he as int), needle@.subrange(ns as int, ne as int)),
{
    let n: usize = he - hs;
    let m: usize = ne - ns;
    let ghost h = hay@.subrange(hs as int, he as int);
    let ghost nd = needle@.subrange(ns as int, ne as int);
    if m > n {
        assert(forall|j: int| !occurs_at(h, nd, j));
        return false;
    }
    let mut i: usize = 0;
    while i <= n - m
        invariant
            hs <= he <= hay@.len(),
            ns <= ne <= needle@.len(),
            n == he - hs,
            m == ne - ns,
            m <= n,
            i <= n - m + 1,
            h == hay@.subrange(hs as int, he as int),
            nd == needle@.subrange(ns as int, ne as int),
            forall|j: int| 0 <= j < i ==> !occurs_at(h, nd, j),
        decreases n - m + 1 - i,
    {
        let mut k: usize = 0;
        while k < m && hay[hs + i + k] == needle[ns + k]
            invariant
                hs <= he <= hay@.len(),
                ns <= ne <= needle@.len(),
                n == he - hs,
                m == ne - ns,
                i <= n - m,
                k <= m,
                h == hay@.subrange(hs as int, he as int),
                nd == needle@.subrange(ns as int, ne as int),
                forall|t: int| 0 <= t < k ==> h[i + t] == nd[t],
            decreases m - k,
        {
            k += 1;
        }
        if k == m {
            assert(h.subrange(i as int, i + m) =~= nd);
            assert(occurs_at(h, nd, i as int));
            return true;
        }
        assert(!occurs_at(h, nd, i as int)) by {
            if occurs_at(h, nd, i as int) {
                assert(h.subrange(i as int, i + m)[k as int] == nd[k as int]);
            }
        }
        i += 1;
    }
    assert(forall|j: int| !occurs_at(h, nd, j));
    false
}

/// Whether `needle` occurs in `hay`.
pub fn contains(hay: &Vec<char>, needle: &Vec<char>) -> (r: bool)
    ensures
        r == is_substring(hay@, needle@),
{
    assert(hay@.subrange(0, hay@.len() as int) =~= hay@);
    assert(needle@.subrange(0, needle@.len() as int) =~= needle@);
    range_contains(hay, 0, hay.len(), needle, 0, needle.len())
}

/// Classifies each character of `s` as alphanumeric or not.
pub fn classify(s: &Vec<char>) -> (word: Vec<bool>)
    ensures
        word@ == word_flags(s@),
{
    let mut word: Vec<bool> = Vec::new();
    let mut i: usize = 0;
    while i < s.len()
        invariant
            i <= s@.len(),
            word@.len() == i,
            forall|k: int| 0 <= k < i ==> word@[k] == alphanumeric(s@[k]),
        decreases s@.len() - i,
    {
        word.push(s[i].is_alphanumeric());
        i += 1;
    }
    assert(word@ =~= word_flags(s@));
    word
}

/// The tokens of a text with the word flags `word`, as position ranges.
pub fn token_ranges(word: &Vec<bool>) -> (r: Vec<(usize, usize)>)
    ensures
        lists_tokens(word@, r@),
{
    let n: usize = word.len();
    let mut r: Vec<(usize, usize)> = Vec::new();
    let mut i: usize = 0;
    while i < n
        invariant
            n == word@.len(),
            i <= n,
            i == 0 || i == n || !word@[i - 1] || !word@[i as int],
            forall|t: int| 0 <= t < r@.len() ==> is_token(word@, (#[trigger] r@[t]).0 as int, r@[t].1 as int)
                && r@[t].1 <= i,
            forall|a: int, b: int| #[trigger]
                is_token(word@, a, b) && a < i ==> exists|t: int|
                    0 <= t < r@.len() && (#[trigger] r@[t]).0 == a && r@[t].1 == b,
            forall|t: int, u: int| 0 <= t < u < r@.len() ==> (#[trigger] r@[t]).1 < (#[trigger] r@[u]).0,
        decreases n - i,
    {
        if !word[i] {
            i += 1;
        } else {
            let start: usize = i;
            while i < n && word[i]
                invariant
                    n == word@.len(),
                    start <= i <= n,
                    forall|k: int| start <= k < i ==> word@[k],
                decreases n - i,
            {
                i += 1;
            }
            let ghost before = r@;
            r.push((start, i));
            assert(is_token(word@, start as int, i as int));
            assert forall|a: int, b: int| #[trigger] is_token(word@, a, b) && a < i implies exists|t: int|
                0 <= t < r@.len() && (#[trigger] r@[t]).0 == a && r@[t].1 == b by {
                if a < start {
                    let t = choose|t: int|
                        0 <= t < before.len() && (#[trigger] before[t]).0 == a && before[t].1 == b;
                    assert(r@[t] == before[t]);
                } else {
                    assert(word@[a]);
                    assert(a == start) by {
                        if a > start {
                            assert(word@[a - 1]);
                        }
                    }
                    assert(b == i) by {
                        if b < i {
                            assert(word@[b]);
                        }
                        if b > i {
                            assert(word@[i as int]);
                        }
                    }
                    assert(r@[before.len() as int] == (start, i));
                }
            }
        }
    }
    r
}

/// Whether some token of `content` contains `query[a..b]`.
fn find_token(
    content: &Vec<char>,
    Ghost(content_word): Ghost<Seq<bool>>,
    content_tokens: &Vec<(usize, usize)>,
    query: &Vec<char>,
    a: usize,
    b: usize,
) -> (r: bool)
    requires
        content_word.len() == content@.len(),
        lists_tokens(content_word, content_tokens@),
        a <= b <= query@.len(),
    ensures
        r == token_found(content@, content_word, query@.subrange(a as int, b as int)),
{
    let ghost token = query@.subrange(a as int, b as int);
    let mut t: usize = 0;
    while t < content_tokens.len()
        invariant
            t <= content_tokens@.len(),
            content_word.len() == content@.len(),
            lists_tokens(content_word, content_tokens@),
            a <= b <= query@.len(),
            token == query@.subrange(a as int, b as int),
            forall|j: int| 0 <= j < t ==> !is_substring(
                content@.subrange((#[trigger] content_tokens@[j]).0 as int, content_tokens@[j].1 as int),
                token,
            ),
        decreases content_tokens@.len() - t,
    {
        let (c, d) = content_tokens[t];
        assert(is_token(content_word, content_tokens@[t as int].0 as int, content_tokens@[t as int].1 as int));
        if range_contains(content, c, d, query, a, b) {
            return true;
        }
        t += 1;
    }
    assert(!token_found(content@, content_word, token)) by {
        assert forall|c: int, d: int| #[trigger] is_token(content_word, c, d) implies !is_substring(
            content@.subrange(c, d),
            token,
        ) by {
            let j = choose|j: int|
                0 <= j < content_tokens@.len() && (#[trigger] content_tokens@[j]).0 == c
                    && content_tokens@[j].1 == d;
        }
    }
    false
}

/// The match on texts that are already case-folded, each with its word flags.
pub fn match_folded(
    content: &Vec<char>,
    content_word: &Vec<bool>,
    query: &Vec<char>,
    query_word: &Vec<bool>,
) -> (r: bool)
    requires
        content_word@.len() == content@.len(),
        query_word@.len() == query@.len(),
    ensures
        r == folded_match(content@, content_word@, query@, query_word@),
{
    if contains(content, query) {
        return true;
    }
    let content_tokens = token_ranges(content_word);
    let query_tokens = token_ranges(query_word);
    let mut q: usize = 0;
    while q < query_tokens.len()
        invariant
            q <= query_tokens@.len(),
            content_word@.len() == content@.len(),
            query_word@.len() == query@.len(),
            lists_tokens(content_word@, content_tokens@),
            lists_tokens(query_word@, query_tokens@),
            !is_substring(content@, query@),
            forall|j: int| 0 <= j < q ==> token_found(
                content@,
                content_word@,
                query@.subrange((#[trigger] query_tokens@[j]).0 as int, query_tokens@[j].1 as int),
            ),
        decreases query_tokens@.len() - q,
    {
        let (a, b) = query_tokens[q];
        assert(is_token(query_word@, query_tokens@[q as int].0 as int, query_tokens@[q as int].1 as int));
        if !find_token(content, Ghost(content_word@), &content_tokens, query, a, b) {
            assert(is_token(query_word@, a as int, b as int));
            assert(!token_found(content@, content_word@, query@.subrange(a as int, b as int)));
            return false;
        }
        q += 1;
    }
    assert(tokens_match(content@, content_word@, query@, query_word@)) by {
        assert forall|a: int, b: int| #[trigger] is_token(query_word@, a, b) implies token_found(
            content@,
            content_word@,
            query@.subrange(a, b),
        ) by {
            let j = choose|j: int|
                0 <= j < query_tokens@.len() && (#[trigger] query_tokens@[j]).0 == a
                    && query_tokens@[j].1 == b;
        }
    }
    true
}

/// Whether `query` matches `content`, ignoring case.
pub fn fuzzy_match(content: &str, query: &str) -> (r: bool)
    ensures
        r == query_matches(content@, query@),
        query@.len() == 0 ==> r,
        is_substring(lowercase(content@), lowercase(query@)) ==> r,
{
    if query.is_empty() {
        return true;
    }
    let content_lower = content.to_lowercase();
    let query_lower = query.to_lowercase();
    let content_chars = chars_of(content_lower.as_str());
    let query_chars = chars_of(query_lower.as_str());
    let content_word = classify(&content_chars);
    let query_word = classify(&query_chars);
    match_folded(&content_chars, &content_word, &query_chars, &query_word)
}

/// An empty query matches every content.
pub proof fn lemma_empty_query_matches(content: Seq<char>)
    ensures
        query_matches(content, Seq::<char>::empty()),
{
}

/// A query whose case-folded form occurs in the case-folded content matches.
pub proof fn lemma_folded_substring_matches(content: Seq<char>, query: Seq<char>)
    requires
        is_substring(lowercase(content), lowercase(query)),
    ensures
        query_matches(content, query),
{
}

/// The start of the run of word characters that holds position `p`.
proof fn lemma_run_start(word: Seq<bool>, p: int) -> (c: int)
    requires
        0 <= p < word.len(),
        word[p],
    ensures
        0 <= c <= p,
        forall|k: int| c <= k <= p ==> word[k],
        c == 0 || !word[c - 1],
    decreases p,
{
    if p == 0 || !word[p - 1] {
        p
    } else {
        lemma_run_start(word, p - 1)
    }
}

/// The end of the run of word characters that holds position `p`.
proof fn lemma_run_end(word: Seq<bool>, p: int) -> (d: int)
    requires
        0 <= p < word.len(),
        word[p],
    ensures
        p < d <= word.len(),
        forall|k: int| p <= k < d ==> word[k],
        d == word.len() || !word[d],
    decreases word.len() - p,
{
    if p + 1 == word.len() || !word[p + 1] {
        p + 1
    } else {
        lemma_run_end(word, p + 1)
    }
}

/// A non-empty run of alphanumeric characters stands inside some token of a
/// content exactly when it occurs in the content at all: an occurrence cannot
/// reach across a separator.
pub proof fn lemma_token_found_iff_substring(content: Seq<char>, token: Seq<char>)
    requires
        token.len() > 0,
        forall|k: int| 0 <= k < token.len() ==> alphanumeric(token[k]),
    ensures
        token_found(content, word_flags(content), token) <==> is_substring(content, token),
{
    let word = word_flags(content);
    let m = token.len() as int;
    if token_found(content, word, token) {
        let (c, d) = choose|c: int, d: int| #[trigger]
            is_token(word, c, d) && is_substring(content.subrange(c, d), token);
        let i = choose|i: int| occurs_at(content.subrange(c, d), token, i);
        assert(content.subrange(c + i, c + i + m) =~= content.subrange(c, d).subrange(i, i + m));
        assert(occurs_at(content, token, c + i));
    }
    if is_substring(content, token) {
        let p = choose|p: int| occurs_at(content, token, p);
        assert forall|k: int| p <= k < p + m implies word[k] by {
            assert(content.subrange(p, p + m)[k - p] == content[k]);
            assert(alphanumeric(token[k - p]));
        }
        let c = lemma_run_start(word, p);
        let d = lemma_run_end(word, p + m - 1);
        assert(is_token(word, c, d));
        assert(content.subrange(c, d).subrange(p - c, p - c + m) =~= content.subrange(p, p + m));
        assert(occurs_at(content.subrange(c, d), token, p - c));
    }
}

/// The tokens of a query are all found in tokens of a content exactly when
/// each of them occurs in the content.
pub proof fn lemma_tokens_match_by_substring(content: Seq<char>, query: Seq<char>)
    ensures
        tokens_match(content, word_flags(content), query, word_flags(query)) <==> (forall|a: int, b: int| #[trigger]
            is_token(word_flags(query), a, b) ==> is_substring(content, query.subrange(a, b))),
{
    let qword = word_flags(query);
    assert forall|a: int, b: int| #[trigger] is_token(qword, a, b) implies (token_found(
        content,
        word_flags(content),
        query.subrange(a, b),
    ) <==> is_substring(content, query.subrange(a, b))) by {
        let token = query.subrange(a, b);
        assert forall|k: int| 0 <= k < token.len() implies alphanumeric(token[k]) by {
            assert(qword[a + k]);
        }
        lemma_token_found_iff_substring(content, token);
    }
}

/// A query with a token longer than the whole content does not match it.
pub proof fn lemma_longer_token_fails(content: Seq<char>, query: Seq<char>, a: int, b: int)
    requires
        query.len() > 0,
        is_token(word_flags(lowercase(query)), a, b),
        b - a > lowercase(content).len(),
    ensures
        !query_matches(content, query),
{
    let c = lowercase(content);
    let q = lowercase(query);
    let token = q.subrange(a, b);
    assert(forall|i: int| !occurs_at(c, q, i));
    assert forall|x: int, y: int| #[trigger] is_token(word_flags(c), x, y) implies !is_substring(
        c.subrange(x, y),
        token,
    ) by {
        assert(forall|i: int| !occurs_at(c.subrange(x, y), token, i));
    }
    assert(!token_found(c, word_flags(c), token));
}

/// Only the case-folded forms of the content and of a non-empty query count.
pub proof fn lemma_case_insensitive(c1: Seq<char>, q1: Seq<char>, c2: Seq<char>, q2: Seq<char>)
    requires
        lowercase(c1) == lowercase(c2),
        lowercase(q1) == lowercase(q2),
        q1.len() > 0,
        q2.len() > 0,
    ensures
        query_matches(c1, q1) == query_matches(c2, q2),
{
}

} // verus!
