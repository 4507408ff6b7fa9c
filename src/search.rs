//! Relevance helpers for the local page search.

use vstd::prelude::*;
use vstd::string::StringExecFns;
use crate::agent::{lower_of, lowercase};
use crate::text::{
    chars_of, find_first, first_index, occurs, occurs_in, slice_chars, span_ok, trim, trimmed, word_spans, words_of,
};

verus! {

/// A page found by a search.
#[derive(Debug, PartialEq, Eq)]
pub struct SearchResult {
    pub url: String,
    pub title: String,
    pub snippet: String,
    pub score: usize,
    pub cached_at: i64,
}

/// How many of `ws` occur in `text`, counting repeats.
pub open spec fn count_present(ws: Seq<Seq<char>>, text: Seq<char>) -> nat
    decreases ws.len(),
{
    if ws.len() == 0 {
        0
    } else {
        count_present(ws.drop_last(), text) + if occurs(text, ws.last()) {
            1nat
        } else {
            0nat
        }
    }
}

/// The number of words of `query` that occur in `text`.
pub fn count_matches(text: &str, query: &str) -> (r: usize)
    ensures
        r == count_present(words_of(query@), text@),
{
    let t = chars_of(text);
    let q = chars_of(query);
    let spans = word_spans(&q);
    let ghost ws = words_of(query@);
    let mut matches: usize = 0;
    let mut k: usize = 0;
    assert(ws.subrange(0, 0) =~= Seq::<Seq<char>>::empty());
    while k < spans.len()
        invariant
            k <= spans@.len(),
            q@ == query@,
            t@ == text@,
            crate::text::spans_are_words(q@, spans@, ws),
            matches == count_present(ws.subrange(0, k as int), text@),
            matches <= k,
        decreases spans@.len() - k,
    {
        let (a, b) = spans[k];
        assert(span_ok(q@, spans@[k as int], ws[k as int]));
        let word = slice_chars(&q, a, b);
        assert(ws.subrange(0, k + 1).drop_last() =~= ws.subrange(0, k as int));
        if occurs_in(&t, &word) {
            matches += 1;
        }
        k += 1;
    }
    assert(ws.subrange(0, spans@.len() as int) =~= ws);
    matches
}

/// Where the first of the words `lws` (taken in order) that occurs in
/// `lowered` is found, or 0 where none is.
pub open spec fn first_word_pos(lowered: Seq<char>, lws: Seq<Seq<char>>) -> int
    decreases lws.len(),
{
    if lws.len() == 0 {
        0
    } else if occurs(lowered, lws[0]) {
        first_index(lowered, lws[0])
    } else {
        first_word_pos(lowered, lws.drop_first())
    }
}

/// The snippet window `[from, to)` of a text of `n` characters around
/// `start`: a third of `max` before it and `max` from it.
pub open spec fn window(start: int, max: nat, n: nat) -> (int, int) {
    let to = if start + max < n { start + max } else { n as int };
    let from0 = if start >= max / 3 { start - max / 3 } else { 0 };
    let from = if from0 <= to { from0 } else { to };
    (from, to)
}

/// The snippet of `content` around the first query word found in the
/// lowercase text, "..." marking each cut end, trimmed.
pub open spec fn snippet_of(content: Seq<char>, lowered: Seq<char>, lws: Seq<Seq<char>>, max: nat) -> Seq<char> {
    let (from, to) = window(first_word_pos(lowered, lws), max, content.len());
    let body = content.subrange(from, to);
    let with_head = if from > 0 { "..."@ + body } else { body };
    trim(if to < content.len() { with_head + "..."@ } else { with_head })
}

/// The snippet of `content` around the first of `lowered_words` found in
/// `lowered_content`; positions and lengths count characters.
pub fn snippet_from(content: &str, lowered_content: &str, lowered_words: &Vec<String>, max_length: usize) -> (r: String)
    ensures
        r@ == snippet_of(content@, lowered_content@, lowered_words@.map_values(|s: String| s@), max_length as nat),
{
    let lc = chars_of(lowered_content);
    let ghost lws = lowered_words@.map_values(|s: String| s@);
    let mut k: usize = 0;
    let mut start: usize = 0;
    let mut found = false;
    assert(lws.subrange(0, lws.len() as int) =~= lws);
    while k < lowered_words.len() && !found
        invariant
            k <= lowered_words@.len(),
            lws == lowered_words@.map_values(|s: String| s@),
            lc@ == lowered_content@,
            found ==> start as int == first_word_pos(lc@, lws),
            !found ==> start == 0,
            !found ==> first_word_pos(lc@, lws.subrange(k as int, lws.len() as int)) == first_word_pos(lc@, lws),
        decreases lowered_words@.len() - k + if found { 0int } else { 1int },
    {
        let w = chars_of(lowered_words[k].as_str());
        let ghost rest = lws.subrange(k as int, lws.len() as int);
        assert(rest[0] == lws[k as int]);
        assert(lws[k as int] == lowered_words@[k as int]@);
        assert(w@ == rest[0]);
        assert(rest.drop_first() =~= lws.subrange(k + 1, lws.len() as int));
        match find_first(&lc, &w) {
            Some(p) => {
                assert(first_word_pos(lc@, rest) == p as int);
                start = p;
                found = true;
            },
            None => {},
        }
        k += 1;
    }
    if !found {
        assert(lws.subrange(k as int, lws.len() as int) =~= Seq::<Seq<char>>::empty());
        assert(first_word_pos(lc@, Seq::<Seq<char>>::empty()) == 0);
    }
    let n = content.unicode_len();
    let to = if start < n && max_length < n - start { start + max_length } else { n };
    let third = max_length / 3;
    let from0 = if start >= third { start - third } else { 0 };
    let from = if from0 <= to { from0 } else { to };
    let mut out = if from > 0 { String::from_str("...") } else { String::from_str("") };
    proof {
        reveal_strlit("");
    }
    out.append(content.substring_char(from, to));
    if to < n {
        out.append("...");
    }
    trimmed(out.as_str())
}

/// The snippet of `content` around the first word of `query` it contains,
/// ignoring case, at most `max_length` characters from that word on.
pub fn extract_snippet(content: &str, query: &str, max_length: usize) -> (r: String)
    ensures
        r@ == snippet_of(content@, lower_of(content@), words_of(lower_of(query@)), max_length as nat),
{
    let lowered_content = lowercase(content);
    let lowered_query = lowercase(query);
    let q = chars_of(lowered_query.as_str());
    let spans = word_spans(&q);
    let ghost ws = words_of(lowered_query@);
    let mut words: Vec<String> = Vec::new();
    let mut k: usize = 0;
    while k < spans.len()
        invariant
            k <= spans@.len(),
            q@ == lowered_query@,
            crate::text::spans_are_words(lowered_query@, spans@, ws),
            words@.len() == k,
            forall|j: int| 0 <= j < k ==> (#[trigger] words@[j])@ == ws[j],
        decreases spans@.len() - k,
    {
        let (a, b) = spans[k];
        assert(span_ok(lowered_query@, spans@[k as int], ws[k as int]));
        words.push(String::from_str(lowered_query.as_str().substring_char(a, b)));
        k += 1;
    }
    assert(words@.map_values(|s: String| s@) =~= ws);
    snippet_from(content, lowered_content.as_str(), &words, max_length)
}

} // verus!
