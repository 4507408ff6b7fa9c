//! Title and readable text from a page's HTML, without a parser.

use vstd::prelude::*;
use vstd::string::StringExecFns;
use crate::text::{
    find_first, first_index, lemma_first_index_occurs, occurs, occurs_at, slice_chars,
    chars_of, is_space, join_spans, join_words, replace_all, replace_str, space, string_from_chars, trim, trimmed,
    word_spans, words_of,
};

verus! {

/// A page reduced to its text.
#[derive(Debug, PartialEq, Eq)]
pub struct ExtractedPage {
    pub url: String,
    pub title: String,
    pub text: String,
    pub html_hash: String,
    pub word_count: usize,
}

/// The six basic entities decoded, in this order: `&amp;`, `&lt;`, `&gt;`,
/// `&quot;`, `&#39;`, `&nbsp;`.
pub open spec fn decode_basic(s: Seq<char>) -> Seq<char> {
    replace_all(
        replace_all(
            replace_all(
                replace_all(replace_all(replace_all(s, "&amp;"@, "&"@), "&lt;"@, "<"@), "&gt;"@, ">"@),
                "&quot;"@,
                "\""@,
            ),
            "&#39;"@,
            "'"@,
        ),
        "&nbsp;"@,
        " "@,
    )
}

/// Decodes the six basic HTML entities.
pub fn decode_html_entities(text: &str) -> (r: String)
    ensures
        r@ == decode_basic(text@),
{
    proof {
        reveal_strlit("&amp;");
        reveal_strlit("&lt;");
        reveal_strlit("&gt;");
        reveal_strlit("&quot;");
        reveal_strlit("&#39;");
        reveal_strlit("&nbsp;");
    }
    let a = replace_str(text, "&amp;", "&");
    let b = replace_str(a.as_str(), "&lt;", "<");
    let c = replace_str(b.as_str(), "&gt;", ">");
    let d = replace_str(c.as_str(), "&quot;", "\"");
    let e = replace_str(d.as_str(), "&#39;", "'");
    replace_str(e.as_str(), "&nbsp;", " ")
}

/// The text of the first `<title>` element, trimmed and decoded, where the
/// element is closed.
pub open spec fn title_of(html: Seq<char>) -> Option<Seq<char>> {
    let s = first_index(html, "<title>"@);
    if s >= 0 {
        let e = first_index(html.subrange(s, html.len() as int), "</title>"@);
        if e >= 0 {
            Some(decode_basic(trim(html.subrange(s + 7, s + e))))
        } else {
            None
        }
    } else {
        None
    }
}

/// Where the first closed `<title>` element's text lies in `c`.
pub fn title_span(c: &Vec<char>) -> (r: Option<(usize, usize)>)
    ensures
        match r {
            Some((a, b)) => {
                let s = first_index(c@, "<title>"@);
                &&& s >= 0
                &&& first_index(c@.subrange(s, c@.len() as int), "</title>"@) >= 0
                &&& a == s + 7
                &&& b == s + first_index(c@.subrange(s, c@.len() as int), "</title>"@)
                &&& a <= b <= c@.len()
            },
            None => {
                let s = first_index(c@, "<title>"@);
                s < 0 || first_index(c@.subrange(s, c@.len() as int), "</title>"@) < 0
            },
        },
{
    let open = chars_of("<title>");
    let close = chars_of("</title>");
    proof {
        reveal_strlit("<title>");
        reveal_strlit("</title>");
    }
    match find_first(c, &open) {
        None => None,
        Some(s) => {
            let n = c.len();
            let rest = slice_chars(c, s, n);
            match find_first(&rest, &close) {
                None => None,
                Some(e) => {
                    proof {
                        assert(rest@.subrange(0, 7) =~= open@) by {
                            assert(c@.subrange(s as int, s + 7) =~= open@);
                        }
                        assert(rest@.subrange(e as int, e + 8) == close@);
                        if e < 7 {
                            assert(rest@[e as int] == close@[0]);
                            assert(rest@[e + 1] == close@[1]);
                            assert(rest@[e as int] == open@[e as int]);
                            assert(rest@[e + 1] == open@[e + 1] || e + 1 == 7);
                        }
                    }
                    Some((s + 7, s + e))
                },
            }
        },
    }
}

/// The page title, if the HTML has a closed `<title>` element.
pub fn extract_title(html: &str) -> (r: Option<String>)
    ensures
        match r {
            Some(t) => title_of(html@) == Some(t@),
            None => title_of(html@).is_none(),
        },
{
    let c = chars_of(html);
    match title_span(&c) {
        None => None,
        Some((a, b)) => {
            let t = trimmed(html.substring_char(a, b));
            Some(decode_html_entities(t.as_str()))
        },
    }
}

/// `t` with each block from the first `open` to the next `close`
/// (inclusive) removed, repeatedly, until no closed block is left.
pub open spec fn strip_blocks(t: Seq<char>, open: Seq<char>, close: Seq<char>) -> Seq<char>
    decreases t.len(),
    via strip_blocks_decreases
{
    let s = first_index(t, open);
    if s >= 0 && close.len() > 0 {
        let e = first_index(t.subrange(s, t.len() as int), close);
        if e >= 0 {
            strip_blocks(t.subrange(0, s) + t.subrange(s + e + close.len(), t.len() as int), open, close)
        } else {
            t
        }
    } else {
        t
    }
}

#[via_fn]
proof fn strip_blocks_decreases(t: Seq<char>, open: Seq<char>, close: Seq<char>) {
    let s = first_index(t, open);
    if s >= 0 && close.len() > 0 {
        lemma_first_index_occurs(t, open);
        let rest = t.subrange(s, t.len() as int);
        let e = first_index(rest, close);
        if e >= 0 {
            lemma_first_index_occurs(rest, close);
            assert(occurs_at(rest, close, e));
            assert((t.subrange(0, s) + t.subrange(s + e + close.len(), t.len() as int)).len() < t.len());
        }
    }
}

/// State of the tag-stripping scan: the text so far, whether inside a tag,
/// and whether the last character kept was text.
pub struct TagScan {
    pub out: Seq<char>,
    pub in_tag: bool,
    pub in_text: bool,
}

/// One character through the scan: tags are dropped, a tag or a run of
/// white space after text becomes one space.
pub open spec fn tag_step(st: TagScan, ch: char) -> TagScan {
    if ch == '<' {
        TagScan { out: if st.in_text { st.out.push(' ') } else { st.out }, in_tag: true, in_text: false }
    } else if ch == '>' {
        TagScan { in_tag: false, in_text: true, ..st }
    } else if !st.in_tag {
        if is_space(ch) {
            if st.in_text {
                TagScan { out: st.out.push(' '), in_text: false, ..st }
            } else {
                st
            }
        } else {
            TagScan { out: st.out.push(ch), in_text: true, ..st }
        }
    } else {
        st
    }
}

pub open spec fn tag_scan(s: Seq<char>) -> TagScan
    decreases s.len(),
{
    if s.len() == 0 {
        TagScan { out: Seq::empty(), in_tag: false, in_text: false }
    } else {
        tag_step(tag_scan(s.drop_last()), s.last())
    }
}

/// The readable text of `html`: scripts and styles removed, tags stripped,
/// the words joined by single spaces.
pub open spec fn clean_text_of(html: Seq<char>) -> Seq<char> {
    join_words(
        words_of(
            tag_scan(strip_blocks(strip_blocks(html, "<script"@, "</script>"@), "<style"@, "</style>"@)).out,
        ),
    )
}

/// `t` with every closed `open` .. `close` block removed.
fn strip_all_blocks(t: Vec<char>, open: &Vec<char>, close: &Vec<char>) -> (r: Vec<char>)
    ensures
        r@ == strip_blocks(t@, open@, close@),
{
    let mut cur = t;
    if close.len() == 0 {
        return cur;
    }
    loop
        invariant
            close@.len() > 0,
            strip_blocks(cur@, open@, close@) == strip_blocks(t@, open@, close@),
        decreases cur@.len(),
    {
        match find_first(&cur, open) {
            None => {
                return cur;
            },
            Some(s) => {
                let n = cur.len();
                let rest = slice_chars(&cur, s, n);
                match find_first(&rest, close) {
                    None => {
                        return cur;
                    },
                    Some(e) => {
                        let mut head = slice_chars(&cur, 0, s);
                        let mut tail = slice_chars(&cur, s + e + close.len(), n);
                        head.append(&mut tail);
                        cur = head;
                    },
                }
            },
        }
    }
}

/// Runs the tag-stripping scan over `c`.
fn strip_tags(c: &Vec<char>) -> (r: Vec<char>)
    ensures
        r@ == tag_scan(c@).out,
{
    let mut out: Vec<char> = Vec::new();
    let mut in_tag = false;
    let mut in_text = false;
    let mut i: usize = 0;
    assert(c@.subrange(0, 0) =~= Seq::<char>::empty());
    while i < c.len()
        invariant
            i <= c@.len(),
            tag_scan(c@.subrange(0, i as int)) == (TagScan { out: out@, in_tag, in_text }),
        decreases c@.len() - i,
    {
        assert(c@.subrange(0, i + 1).drop_last() =~= c@.subrange(0, i as int));
        let ch = c[i];
        if ch == '<' {
            in_tag = true;
            if in_text {
                out.push(' ');
                in_text = false;
            }
        } else if ch == '>' {
            in_tag = false;
            in_text = true;
        } else if !in_tag {
            if space(ch) {
                if in_text {
                    out.push(' ');
                    in_text = false;
                }
            } else {
                out.push(ch);
                in_text = true;
            }
        }
        i += 1;
    }
    assert(c@.subrange(0, c@.len() as int) =~= c@);
    out
}

/// The readable text of `html`.
pub fn extract_clean_text(html: &str) -> (r: String)
    ensures
        r@ == clean_text_of(html@),
{
    let c = chars_of(html);
    let no_script = strip_all_blocks(c, &chars_of("<script"), &chars_of("</script>"));
    let no_style = strip_all_blocks(no_script, &chars_of("<style"), &chars_of("</style>"));
    let kept = strip_tags(&no_style);
    let spans = word_spans(&kept);
    let text = string_from_chars(&kept);
    let n = spans.len();
    let r = join_spans(text.as_str(), &spans, 0, n, Ghost(words_of(kept@)));
    assert(words_of(kept@).subrange(0, n as int) =~= words_of(kept@));
    r
}

} // verus!
