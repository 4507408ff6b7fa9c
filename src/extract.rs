//! Title and text helpers for the page-extraction command.

use vstd::prelude::*;
use vstd::string::StringExecFns;
use crate::page_extractor::{decode_basic, title_span};
use crate::text::{
    find_first, first_index, slice_chars,
    chars_of, keep_not_blank, keep_not_blank_spans, piece_spans, pieces_of, replace_all, replace_str,
    span_ok, spans_are_words, trim, trim_span, trimmed,
};

verus! {

/// A page reduced to its text, with the time of extraction.
#[derive(Debug, PartialEq, Eq)]
pub struct ExtractedPage {
    pub url: String,
    pub title: String,
    pub text: String,
    pub html_hash: String,
    pub word_count: usize,
    pub extracted_at: String,
}

/// The basic entities, then `&copy;` and `&reg;`, decoded.
pub open spec fn decode_full(s: Seq<char>) -> Seq<char> {
    replace_all(replace_all(decode_basic(s), "&copy;"@, "\u{a9}"@), "&reg;"@, "\u{ae}"@)
}

/// Decodes the common HTML entities, the copyright and registered signs
/// included.
pub fn decode_html_entities(text: &str) -> (r: String)
    ensures
        r@ == decode_full(text@),
{
    proof {
        reveal_strlit("&copy;");
        reveal_strlit("&reg;");
    }
    let basic = crate::page_extractor::decode_html_entities(text);
    let a = replace_str(basic.as_str(), "&copy;", "\u{a9}");
    replace_str(a.as_str(), "&reg;", "\u{ae}")
}

/// Lines joined with line breaks, each trimmed.
pub open spec fn join_lines(ls: Seq<Seq<char>>) -> Seq<char>
    decreases ls.len(),
{
    if ls.len() == 0 {
        Seq::empty()
    } else if ls.len() == 1 {
        trim(ls[0])
    } else {
        join_lines(ls.drop_last()) + "\n"@ + trim(ls.last())
    }
}

/// The non-blank lines of `text`, trimmed, one per line.
pub open spec fn clean_lines(text: Seq<char>) -> Seq<char> {
    join_lines(keep_not_blank(pieces_of(text, true)))
}

/// Trims every line and drops the blank ones.
pub fn clean_text(text: &str) -> (r: String)
    ensures
        r@ == clean_lines(text@),
{
    let c = chars_of(text);
    let all = piece_spans(&c, true);
    let kept = keep_not_blank_spans(&c, &all, Ghost(pieces_of(text@, true)));
    let ghost ls = keep_not_blank(pieces_of(text@, true));
    let mut out = String::from_str("");
    let mut k: usize = 0;
    proof {
        reveal_strlit("");
        assert(ls.subrange(0, 0) =~= Seq::<Seq<char>>::empty());
    }
    while k < kept.len()
        invariant
            k <= kept@.len(),
            c@ == text@,
            spans_are_words(text@, kept@, ls),
            out@ == join_lines(ls.subrange(0, k as int)),
        decreases kept@.len() - k,
    {
        let (a, b) = kept[k];
        assert(span_ok(text@, kept@[k as int], ls[k as int]));
        let (x, y) = trim_span(&c, a, b);
        if k > 0 {
            out.append("\n");
        }
        out.append(text.substring_char(x, y));
        assert(ls.subrange(0, k + 1).drop_last() =~= ls.subrange(0, k as int));
        proof {
            if k == 0 {
                assert(ls.subrange(0, 1) =~= seq![ls[0]]);
                assert(out@ =~= trim(ls[0]));
            } else {
                assert(out@ =~= join_lines(ls.subrange(0, k as int)) + "\n"@ + trim(ls[k as int]));
            }
        }
        k += 1;
    }
    assert(ls.subrange(0, kept@.len() as int) =~= ls);
    out
}

/// The text of the first closed `<h1 ...>` element, cleaned line by line.
pub open spec fn heading_of(html: Seq<char>) -> Option<Seq<char>> {
    let s = first_index(html, "<h1"@);
    if s >= 0 {
        let cs = first_index(html.subrange(s, html.len() as int), ">"@);
        if cs >= 0 {
            let e = first_index(html.subrange(s + cs, html.len() as int), "</h1>"@);
            if e >= 0 {
                Some(clean_lines(html.subrange(s + cs + 1, s + cs + e)))
            } else {
                None
            }
        } else {
            None
        }
    } else {
        None
    }
}

/// The title: the first closed `<title>` element, trimmed and decoded,
/// else the first closed `<h1>` heading.
pub open spec fn page_title_of(html: Seq<char>) -> Option<Seq<char>> {
    let s = first_index(html, "<title>"@);
    if s >= 0 && first_index(html.subrange(s, html.len() as int), "</title>"@) >= 0 {
        Some(decode_full(trim(html.subrange(s + 7, s + first_index(html.subrange(s, html.len() as int), "</title>"@)))))
    } else {
        heading_of(html)
    }
}

fn heading_span(c: &Vec<char>) -> (r: Option<(usize, usize)>)
    ensures
        match r {
            Some((a, b)) => {
                let s = first_index(c@, "<h1"@);
                let cs = first_index(c@.subrange(s, c@.len() as int), ">"@);
                &&& s >= 0 && cs >= 0
                &&& first_index(c@.subrange(s + cs, c@.len() as int), "</h1>"@) >= 0
                &&& a == s + cs + 1
                &&& b == s + cs + first_index(c@.subrange(s + cs, c@.len() as int), "</h1>"@)
                &&& a <= b <= c@.len()
            },
            None => heading_of(c@).is_none(),
        },
{
    let open = chars_of("<h1");
    let gt = chars_of(">");
    let close = chars_of("</h1>");
    proof {
        reveal_strlit("<h1");
        reveal_strlit(">");
        reveal_strlit("</h1>");
    }
    let n = c.len();
    match find_first(c, &open) {
        None => None,
        Some(s) => {
            let rest = slice_chars(c, s, n);
            match find_first(&rest, &gt) {
                None => None,
                Some(cs) => {
                    let rest2 = slice_chars(c, s + cs, n);
                    assert(rest2@ =~= c@.subrange(s + cs, n as int));
                    match find_first(&rest2, &close) {
                        None => None,
                        Some(e) => {
                            proof {
                                assert(rest@[cs as int] == gt@[0]);
                                assert(rest2@[0] == rest@[cs as int]);
                                assert(rest2@[e as int] == close@[0]);
                            }
                            Some((s + cs + 1, s + cs + e))
                        },
                    }
                },
            }
        },
    }
}

/// The page title, from `<title>` or else from the first `<h1>`.
pub fn extract_title(html: &str) -> (r: Option<String>)
    ensures
        match r {
            Some(t) => page_title_of(html@) == Some(t@),
            None => page_title_of(html@).is_none(),
        },
{
    let c = chars_of(html);
    match title_span(&c) {
        Some((a, b)) => {
            let t = trimmed(html.substring_char(a, b));
            return Some(decode_html_entities(t.as_str()));
        },
        None => {},
    }
    match heading_span(&c) {
        Some((a, b)) => Some(clean_text(html.substring_char(a, b))),
        None => None,
    }
}

} // verus!
