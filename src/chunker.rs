//! Splits text into pieces of a few kilobytes for language-model
//! processing, deterministically.

use vstd::prelude::*;
use vstd::string::StringExecFns;
use crate::text::{
    utf8_len,
    chars_of, join_spans, join_words, keep_not_blank, keep_not_blank_spans, piece_spans, pieces_of, span_ok,
    spans_are_words, trim, trim_span, trimmed, word_spans, words_of,
};

verus! {

/// Texts up to this many bytes stay whole.
pub const CHUNK_SIZE: usize = 3500;

/// Overlap between consecutive pieces, in bytes.
pub const OVERLAP: usize = 200;

/// Words per piece, at an estimated five bytes a word.
pub const WORDS_PER_CHUNK: usize = 700;

/// Words shared by consecutive pieces.
pub const OVERLAP_WORDS: usize = 40;

/// One piece of a text, with its position among `total` pieces.
pub struct Chunk {
    pub text: String,
    pub index: usize,
    pub total: usize,
}

impl Clone for Chunk {
    fn clone(&self) -> (r: Self)
        ensures
            r == *self,
    {
        Chunk { text: self.text.clone(), index: self.index, total: self.total }
    }
}

/// `r` holds the texts `t` in order, each numbered and counted.
pub open spec fn chunks_are(r: Seq<Chunk>, t: Seq<Seq<char>>) -> bool {
    &&& r.len() == t.len()
    &&& forall|k: int|
        0 <= k < r.len() ==> (#[trigger] r[k]).text@ == t[k] && r[k].index == k && r[k].total == r.len()
}

/// Windows of 700 words from word `start` on, each starting 40 words
/// before the previous one ended, the last one reaching the final word.
pub open spec fn windows(w: Seq<Seq<char>>, start: int) -> Seq<Seq<char>>
    decreases w.len() - start,
{
    if start < 0 || start >= w.len() {
        Seq::empty()
    } else {
        let end = if start + WORDS_PER_CHUNK < w.len() {
            start + WORDS_PER_CHUNK
        } else {
            w.len() as int
        };
        let piece = join_words(w.subrange(start, end));
        if end == w.len() {
            seq![piece]
        } else {
            seq![piece] + windows(w, end - OVERLAP_WORDS)
        }
    }
}

/// The pieces of `text`: the text itself where it is at most 3500 bytes,
/// else its word windows, each joined with single spaces.
pub open spec fn chunk_texts(text: Seq<char>) -> Seq<Seq<char>> {
    if utf8_len(text) <= CHUNK_SIZE {
        seq![text]
    } else {
        windows(words_of(text), 0)
    }
}

fn number_chunks(texts: Vec<String>) -> (r: Vec<Chunk>)
    ensures
        chunks_are(r@, texts@.map_values(|s: String| s@)),
{
    let total = texts.len();
    let mut out: Vec<Chunk> = Vec::new();
    let mut k: usize = 0;
    while k < total
        invariant
            total == texts@.len(),
            k <= total,
            out@.len() == k,
            forall|j: int|
                0 <= j < k ==> (#[trigger] out@[j]).text@ == texts@[j]@ && out@[j].index == j && out@[j].total
                    == total,
        decreases total - k,
    {
        out.push(Chunk { text: texts[k].clone(), index: k, total });
        k += 1;
    }
    out
}

/// Splits `text` into pieces of about 3500 bytes with a 200-byte overlap.
pub fn chunk_text(text: &str) -> (r: Vec<Chunk>)
    ensures
        chunks_are(r@, chunk_texts(text@)),
{
    if text.len() <= CHUNK_SIZE {
        let whole = Chunk { text: String::from_str(text), index: 0, total: 1 };
        let r = vec![whole];
        assert(chunks_are(r@, seq![text@]));
        return r;
    }
    let chars = chars_of(text);
    let spans = word_spans(&chars);
    let n = spans.len();
    let ghost w = words_of(text@);
    let mut texts: Vec<String> = Vec::new();
    let mut start: usize = 0;
    assert(texts@.map_values(|s: String| s@) + windows(w, 0) =~= windows(w, 0));
    while start < n
        invariant
            n == w.len(),
            crate::text::spans_are_words(text@, spans@, w),
            start <= n,
            texts@.map_values(|s: String| s@) + windows(w, start as int) == windows(w, 0),
        decreases n - start,
    {
        let end = if n - start > WORDS_PER_CHUNK {
            start + WORDS_PER_CHUNK
        } else {
            n
        };
        let piece = join_spans(text, &spans, start, end, Ghost(w));
        let ghost before = texts@.map_values(|s: String| s@);
        texts.push(piece);
        assert(texts@.map_values(|s: String| s@) =~= before.push(piece@));
        if end == n {
            start = n;
            assert(windows(w, n as int) =~= Seq::<Seq<char>>::empty());
            assert(texts@.map_values(|s: String| s@) + windows(w, start as int) =~= before + windows(w, 0).subrange(before.len() as int, windows(w, 0).len() as int));
        } else {
            start = end - OVERLAP_WORDS;
        }
        assert(texts@.map_values(|s: String| s@) + windows(w, start as int) =~= windows(w, 0));
    }
    assert(windows(w, start as int) =~= Seq::<Seq<char>>::empty());
    assert(texts@.map_values(|s: String| s@) =~= windows(w, 0));
    number_chunks(texts)
}

/// The sentences of `text`: the pieces between '.', '!' and '?' that are
/// not blank.
pub open spec fn sentences_of(text: Seq<char>) -> Seq<Seq<char>> {
    keep_not_blank(pieces_of(text, false))
}

/// Packs sentences, each trimmed and followed by ". ", into pieces: a new
/// piece starts where adding the sentence would pass `max` bytes. Gives
/// the finished pieces (trimmed) and the piece under way.
pub open spec fn pack_sentences(ss: Seq<Seq<char>>, max: usize) -> (Seq<Seq<char>>, Seq<char>)
    decreases ss.len(),
{
    if ss.len() == 0 {
        (Seq::empty(), Seq::empty())
    } else {
        let (done, cur) = pack_sentences(ss.drop_last(), max);
        let piece = trim(ss.last()) + ". "@;
        if utf8_len(cur) as int + utf8_len(piece) as int > max as int && cur.len() > 0 {
            (done.push(trim(cur)), piece)
        } else {
            (done, cur + piece)
        }
    }
}

/// The pieces `chunk_by_sentences` makes of `text`.
pub open spec fn sentence_chunk_texts(text: Seq<char>, max: usize) -> Seq<Seq<char>> {
    if utf8_len(text) <= max || sentences_of(text).len() == 0 {
        seq![text]
    } else {
        let (done, cur) = pack_sentences(sentences_of(text), max);
        if trim(cur).len() > 0 {
            done.push(trim(cur))
        } else {
            done
        }
    }
}

/// Splits `text` at sentence ends into pieces of at most about `max` bytes;
/// a text that fits, or has no sentence, stays whole.
pub fn chunk_by_sentences(text: &str, max_chunk_size: usize) -> (r: Vec<Chunk>)
    ensures
        chunks_are(r@, sentence_chunk_texts(text@, max_chunk_size)),
{
    if text.len() <= max_chunk_size {
        let r = vec![Chunk { text: String::from_str(text), index: 0, total: 1 }];
        assert(chunks_are(r@, seq![text@]));
        return r;
    }
    let c = chars_of(text);
    let all = piece_spans(&c, false);
    let kept = keep_not_blank_spans(&c, &all, Ghost(pieces_of(text@, false)));
    let ghost ss = sentences_of(text@);
    if kept.len() == 0 {
        let r = vec![Chunk { text: String::from_str(text), index: 0, total: 1 }];
        assert(chunks_are(r@, seq![text@]));
        return r;
    }
    let mut texts: Vec<String> = Vec::new();
    let mut current = String::from_str("");
    let mut k: usize = 0;
    proof {
        reveal_strlit("");
        assert(ss.subrange(0, 0) =~= Seq::<Seq<char>>::empty());
    }
    while k < kept.len()
        invariant
            k <= kept@.len(),
            c@ == text@,
            spans_are_words(text@, kept@, ss),
            texts@.map_values(|x: String| x@) == pack_sentences(ss.subrange(0, k as int), max_chunk_size).0,
            current@ == pack_sentences(ss.subrange(0, k as int), max_chunk_size).1,
        decreases kept@.len() - k,
    {
        let (a, b) = kept[k];
        assert(span_ok(text@, kept@[k as int], ss[k as int]));
        assert(ss.subrange(0, k + 1).drop_last() =~= ss.subrange(0, k as int));
        let (x, y) = trim_span(&c, a, b);
        let mut piece = String::from_str(text.substring_char(x, y));
        piece.append(". ");
        let cur_len = current.as_str().len();
        let piece_len = piece.as_str().len();
        if cur_len as u128 + piece_len as u128 > max_chunk_size as u128 && current.unicode_len() > 0 {
            let ghost before = texts@.map_values(|x: String| x@);
            texts.push(trimmed(current.as_str()));
            assert(texts@.map_values(|x: String| x@) =~= before.push(trim(current@)));
            current = piece;
        } else {
            current.append(piece.as_str());
        }
        k += 1;
    }
    assert(ss.subrange(0, kept@.len() as int) =~= ss);
    let last = trimmed(current.as_str());
    if last.unicode_len() > 0 {
        let ghost before = texts@.map_values(|x: String| x@);
        texts.push(last);
        assert(texts@.map_values(|x: String| x@) =~= before.push(trim(current@)));
    }
    number_chunks(texts)
}

} // verus!
