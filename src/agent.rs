//! Keyword selection for the research agent.

use vstd::prelude::*;
use vstd::string::StringExecFns;
use crate::text::{chars_of, occurs, span_ok, str_occurs, utf8_len, word_spans, words_of};

verus! {

/// What `str::to_lowercase` makes of a text.
pub uninterp spec fn lower_of(s: Seq<char>) -> Seq<char>;

/// Relies on `str::to_lowercase`: the lowercase form depends on the
/// characters alone.
#[verifier::external_body]
pub(crate) fn lowercase(s: &str) -> (r: String)
    ensures
        r@ == lower_of(s@),
{
    s.to_lowercase()
}

/// Most keywords kept.
pub const MAX_KEYWORDS: usize = 5;

/// Of the words `ws`, those longer than three bytes whose lowercase form
/// `lws[i]` occurs in `lowered_text`, in order.
pub open spec fn picked(ws: Seq<Seq<char>>, lws: Seq<Seq<char>>, lowered_text: Seq<char>) -> Seq<Seq<char>>
    decreases ws.len(),
{
    if ws.len() == 0 {
        ws
    } else {
        let rest = picked(ws.drop_last(), lws.subrange(0, ws.len() - 1), lowered_text);
        if utf8_len(ws.last()) > 3 && occurs(lowered_text, lws[ws.len() - 1]) {
            rest.push(ws.last())
        } else {
            rest
        }
    }
}

/// At most the first five of `s`.
pub open spec fn first_five(s: Seq<Seq<char>>) -> Seq<Seq<char>> {
    if s.len() <= MAX_KEYWORDS {
        s
    } else {
        s.subrange(0, MAX_KEYWORDS as int)
    }
}

/// Keeps the words longer than three bytes whose lowercase form (given in
/// `lowered`) occurs in the lowercase text, at most five of them.
pub fn pick_keywords(words: &Vec<String>, lowered: &Vec<String>, lowered_text: &str) -> (r: Vec<String>)
    requires
        words@.len() == lowered@.len(),
    ensures
        r@.map_values(|s: String| s@) == first_five(
            picked(words@.map_values(|s: String| s@), lowered@.map_values(|s: String| s@), lowered_text@),
        ),
{
    let ghost ws = words@.map_values(|s: String| s@);
    let ghost lws = lowered@.map_values(|s: String| s@);
    let mut out: Vec<String> = Vec::new();
    let mut k: usize = 0;
    assert(ws.subrange(0, 0) =~= Seq::<Seq<char>>::empty());
    while k < words.len()
        invariant
            k <= words@.len(),
            words@.len() == lowered@.len(),
            ws == words@.map_values(|s: String| s@),
            lws == lowered@.map_values(|s: String| s@),
            out@.map_values(|s: String| s@) == picked(ws.subrange(0, k as int), lws.subrange(0, k as int), lowered_text@),
        decreases words@.len() - k,
    {
        assert(ws.subrange(0, k + 1).drop_last() =~= ws.subrange(0, k as int));
        assert(lws.subrange(0, k + 1).subrange(0, k as int) =~= lws.subrange(0, k as int));
        let w = words[k].as_str();
        if w.len() > 3 && str_occurs(lowered_text, lowered[k].as_str()) {
            let ghost before = out@.map_values(|s: String| s@);
            out.push(words[k].clone());
            assert(out@.map_values(|s: String| s@) =~= before.push(ws[k as int]));
        }
        k += 1;
    }
    assert(ws.subrange(0, words@.len() as int) =~= ws);
    assert(lws.subrange(0, words@.len() as int) =~= lws);
    let ghost all = out@.map_values(|s: String| s@);
    out.truncate(MAX_KEYWORDS);
    assert(out@.map_values(|s: String| s@) =~= first_five(all));
    out
}

/// The words of `query` longer than three bytes that occur in `text`,
/// ignoring case, at most five of them.
pub fn extract_keywords(query: &str, text: &str) -> (r: Vec<String>)
    ensures
        r@.map_values(|s: String| s@) == first_five(
            picked(words_of(query@), words_of(query@).map_values(|w: Seq<char>| lower_of(w)), lower_of(text@)),
        ),
{
    let q = chars_of(query);
    let spans = word_spans(&q);
    let ghost ws = words_of(query@);
    let mut words: Vec<String> = Vec::new();
    let mut lowered: Vec<String> = Vec::new();
    let mut k: usize = 0;
    while k < spans.len()
        invariant
            k <= spans@.len(),
            q@ == query@,
            crate::text::spans_are_words(query@, spans@, ws),
            words@.len() == k,
            lowered@.len() == k,
            forall|j: int| 0 <= j < k ==> (#[trigger] words@[j])@ == ws[j] && lowered@[j]@ == lower_of(ws[j]),
        decreases spans@.len() - k,
    {
        let (a, b) = spans[k];
        assert(span_ok(query@, spans@[k as int], ws[k as int]));
        let w = query.substring_char(a, b);
        words.push(String::from_str(w));
        lowered.push(lowercase(w));
        k += 1;
    }
    assert(words@.map_values(|s: String| s@) =~= ws);
    assert(lowered@.map_values(|s: String| s@) =~= ws.map_values(|w: Seq<char>| lower_of(w)));
    let lt = lowercase(text);
    pick_keywords(&words, &lowered, lt.as_str())
}

} // verus!
