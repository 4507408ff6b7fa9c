//! Character-level helpers shared by the text functions: Unicode white
//! space, reading a string's characters, splitting into words, joining.

use vstd::prelude::*;
use vstd::string::{StrSliceExecFns, StringExecFns};

verus! {

/// The Unicode `White_Space` property, as `char::is_whitespace` reports it.
pub open spec fn is_space(c: char) -> bool {
    let u = c as u32;
    (0x9 <= u <= 0xd) || u == 0x20 || u == 0x85 || u == 0xa0 || u == 0x1680 || (0x2000 <= u <= 0x200a)
        || u == 0x2028 || u == 0x2029 || u == 0x202f || u == 0x205f || u == 0x3000
}

pub fn space(c: char) -> (r: bool)
    ensures
        r == is_space(c),
{
    let u = c as u32;
    (0x9 <= u && u <= 0xd) || u == 0x20 || u == 0x85 || u == 0xa0 || u == 0x1680 || (0x2000 <= u && u
        <= 0x200a) || u == 0x2028 || u == 0x2029 || u == 0x202f || u == 0x205f || u == 0x3000
}

/// The characters of `s`, one by one.
pub fn chars_of(s: &str) -> (r: Vec<char>)
    ensures
        r@ == s@,
{
    let n = s.unicode_len();
    let mut out: Vec<char> = Vec::new();
    let mut i: usize = 0;
    while i < n
        invariant
            n == s@.len(),
            i <= n,
            out@ == s@.subrange(0, i as int),
        decreases n - i,
    {
        out.push(s.get_char(i));
        i += 1;
        assert(out@ =~= s@.subrange(0, i as int));
    }
    assert(out@ =~= s@);
    out
}

/// Left-to-right word scan: the words closed so far and the word under way.
pub open spec fn scan_words(s: Seq<char>) -> (Seq<Seq<char>>, Seq<char>)
    decreases s.len(),
{
    if s.len() == 0 {
        (Seq::empty(), Seq::empty())
    } else {
        let (w, cur) = scan_words(s.drop_last());
        let c = s.last();
        if is_space(c) {
            if cur.len() > 0 {
                (w.push(cur), Seq::empty())
            } else {
                (w, cur)
            }
        } else {
            (w, cur.push(c))
        }
    }
}

/// The maximal runs of non-space characters of `s`, in order, as
/// `str::split_whitespace` yields them.
pub open spec fn words_of(s: Seq<char>) -> Seq<Seq<char>> {
    let (w, cur) = scan_words(s);
    if cur.len() > 0 {
        w.push(cur)
    } else {
        w
    }
}

pub open spec fn span_ok(s: Seq<char>, sp: (usize, usize), word: Seq<char>) -> bool {
    sp.0 <= sp.1 <= s.len() && word == s.subrange(sp.0 as int, sp.1 as int)
}

/// Where the words of `s` lie: the `k`-th word is `s[spans[k].0 .. spans[k].1]`.
pub open spec fn spans_are_words(s: Seq<char>, spans: Seq<(usize, usize)>, w: Seq<Seq<char>>) -> bool {
    &&& spans.len() == w.len()
    &&& forall|k: int|
        0 <= k < spans.len() ==> span_ok(s, #[trigger] spans[k], w[k])
}

proof fn lemma_spans_push(s: Seq<char>, spans: Seq<(usize, usize)>, w: Seq<Seq<char>>, a: usize, b: usize)
    requires
        spans_are_words(s, spans, w),
        a <= b <= s.len(),
    ensures
        spans_are_words(s, spans.push((a, b)), w.push(s.subrange(a as int, b as int))),
{
    let sp = spans.push((a, b));
    let ww = w.push(s.subrange(a as int, b as int));
    assert forall|k: int| 0 <= k < sp.len() implies span_ok(s, #[trigger] sp[k], ww[k]) by {
        if k < spans.len() {
            assert(ww[k] == w[k]);
            assert(sp[k] == spans[k]);
        }
    }
    assert(sp.len() == ww.len());
    assert(spans_are_words(s, sp, ww));
}

/// Start and end positions of the words of `s`.
pub fn word_spans(s: &Vec<char>) -> (r: Vec<(usize, usize)>)
    ensures
        spans_are_words(s@, r@, words_of(s@)),
{
    let n = s.len();
    let mut spans: Vec<(usize, usize)> = Vec::new();
    let mut start: usize = 0;
    let mut in_word = false;
    let mut i: usize = 0;
    while i < n
        invariant
            n == s@.len(),
            i <= n,
            start <= i,
            spans_are_words(s@, spans@, scan_words(s@.subrange(0, i as int)).0),
            in_word ==> scan_words(s@.subrange(0, i as int)).1 == s@.subrange(start as int, i as int)
                && start < i,
            !in_word ==> scan_words(s@.subrange(0, i as int)).1.len() == 0,
        decreases n - i,
    {
        let ghost pre = s@.subrange(0, i as int);
        assert(s@.subrange(0, i + 1).drop_last() =~= pre);
        let c = s[i];
        if space(c) {
            if in_word {
                proof {
                    lemma_spans_push(s@, spans@, scan_words(pre).0, start, i);
                }
                spans.push((start, i));
                in_word = false;
            }
        } else {
            if !in_word {
                start = i;
                in_word = true;
            }
            assert(s@.subrange(start as int, i + 1) =~= s@.subrange(start as int, i as int).push(c));
        }
        i += 1;
    }
    assert(s@.subrange(0, n as int) =~= s@);
    if in_word {
        proof {
            lemma_spans_push(s@, spans@, scan_words(s@).0, start, n);
        }
        spans.push((start, n));
    }
    spans
}

/// `ws` joined with single spaces.
pub open spec fn join_words(ws: Seq<Seq<char>>) -> Seq<char>
    decreases ws.len(),
{
    if ws.len() == 0 {
        Seq::empty()
    } else if ws.len() == 1 {
        ws[0]
    } else {
        join_words(ws.drop_last()) + " "@ + ws.last()
    }
}

/// The words `from .. to` of `text`, given by `spans`, joined with single
/// spaces.
pub fn join_spans(text: &str, spans: &Vec<(usize, usize)>, from: usize, to: usize, words: Ghost<Seq<Seq<char>>>) -> (r: String)
    requires
        from <= to <= spans@.len(),
        spans_are_words(text@, spans@, words@),
    ensures
        r@ == join_words(words@.subrange(from as int, to as int)),
{
    let mut out = String::from_str("");
    let mut j: usize = from;
    proof {
        reveal_strlit("");
        assert(words@.subrange(from as int, from as int) =~= Seq::<Seq<char>>::empty());
    }
    while j < to
        invariant
            from <= j <= to,
            to <= spans@.len(),
            spans_are_words(text@, spans@, words@),
            out@ == join_words(words@.subrange(from as int, j as int)),
        decreases to - j,
    {
        let (a, b) = spans[j];
        assert(span_ok(text@, spans@[j as int], words@[j as int]));
        if j > from {
            out.append(" ");
        }
        out.append(text.substring_char(a, b));
        assert(words@.subrange(from as int, j + 1).drop_last() =~= words@.subrange(from as int, j as int));
        proof {
            reveal_strlit(" ");
            if j == from {
                assert(words@.subrange(from as int, j + 1) =~= seq![words@[j as int]]);
                assert(out@ =~= words@[j as int]);
            } else {
                assert(out@ =~= join_words(words@.subrange(from as int, j as int)) + " "@ + words@[j as int]);
            }
        }
        j += 1;
    }
    out
}

/// `s` without leading white space.
pub open spec fn trim_start(s: Seq<char>) -> Seq<char>
    decreases s.len(),
{
    if s.len() > 0 && is_space(s[0]) {
        trim_start(s.drop_first())
    } else {
        s
    }
}

/// `s` without trailing white space.
pub open spec fn trim_end(s: Seq<char>) -> Seq<char>
    decreases s.len(),
{
    if s.len() > 0 && is_space(s.last()) {
        trim_end(s.drop_last())
    } else {
        s
    }
}

/// `s` without white space at either end, as `str::trim` gives it.
pub open spec fn trim(s: Seq<char>) -> Seq<char> {
    trim_end(trim_start(s))
}

/// Where the trimmed part of `c[from .. to]` lies.
pub fn trim_span(c: &Vec<char>, from: usize, to: usize) -> (r: (usize, usize))
    requires
        from <= to <= c@.len(),
    ensures
        from <= r.0 <= r.1 <= to,
        c@.subrange(r.0 as int, r.1 as int) == trim(c@.subrange(from as int, to as int)),
{
    let mut a = from;
    while a < to && space(c[a])
        invariant
            from <= a <= to,
            to <= c@.len(),
            trim_start(c@.subrange(a as int, to as int)) == trim_start(c@.subrange(from as int, to as int)),
        decreases to - a,
    {
        assert(c@.subrange(a as int, to as int).drop_first() =~= c@.subrange(a + 1, to as int));
        a += 1;
    }
    let ghost st = c@.subrange(a as int, to as int);
    assert(trim_start(st) == st);
    let mut b = to;
    assert(c@.subrange(a as int, b as int) =~= st);
    while b > a && space(c[b - 1])
        invariant
            a <= b <= to,
            to <= c@.len(),
            trim_end(c@.subrange(a as int, b as int)) == trim_end(st),
        decreases b - a,
    {
        assert(c@.subrange(a as int, b as int).drop_last() =~= c@.subrange(a as int, b - 1));
        b -= 1;
    }
    (a, b)
}

/// `s` trimmed.
pub fn trimmed(s: &str) -> (r: String)
    ensures
        r@ == trim(s@),
{
    let c = chars_of(s);
    let (a, b) = trim_span(&c, 0, c.len());
    assert(c@.subrange(0, c@.len() as int) =~= s@);
    String::from_str(s.substring_char(a, b))
}

/// The characters that end a sentence.
pub open spec fn is_terminator(c: char) -> bool {
    c == '.' || c == '!' || c == '?'
}

/// The separator of a split: a line break where `lines`, else a sentence
/// end.
pub open spec fn is_separator(lines: bool, c: char) -> bool {
    if lines {
        c == '\n'
    } else {
        is_terminator(c)
    }
}

/// Left-to-right scan for `str::split` on separators: the pieces closed so
/// far and the piece under way.
pub open spec fn scan_pieces(s: Seq<char>, lines: bool) -> (Seq<Seq<char>>, Seq<char>)
    decreases s.len(),
{
    if s.len() == 0 {
        (Seq::empty(), Seq::empty())
    } else {
        let (w, cur) = scan_pieces(s.drop_last(), lines);
        if is_separator(lines, s.last()) {
            (w.push(cur), Seq::empty())
        } else {
            (w, cur.push(s.last()))
        }
    }
}

/// The pieces of `s` between separators, empty ones included.
pub open spec fn pieces_of(s: Seq<char>, lines: bool) -> Seq<Seq<char>> {
    scan_pieces(s, lines).0.push(scan_pieces(s, lines).1)
}

/// Start and end positions of the pieces of `s`.
pub fn piece_spans(s: &Vec<char>, lines: bool) -> (r: Vec<(usize, usize)>)
    ensures
        spans_are_words(s@, r@, pieces_of(s@, lines)),
{
    let n = s.len();
    let mut spans: Vec<(usize, usize)> = Vec::new();
    let mut start: usize = 0;
    let mut i: usize = 0;
    assert(s@.subrange(0, 0) =~= Seq::<char>::empty());
    while i < n
        invariant
            n == s@.len(),
            start <= i <= n,
            spans_are_words(s@, spans@, scan_pieces(s@.subrange(0, i as int), lines).0),
            scan_pieces(s@.subrange(0, i as int), lines).1 == s@.subrange(start as int, i as int),
        decreases n - i,
    {
        let ghost pre = s@.subrange(0, i as int);
        assert(s@.subrange(0, i + 1).drop_last() =~= pre);
        let c = s[i];
        let sep = if lines {
            c == '\n'
        } else {
            c == '.' || c == '!' || c == '?'
        };
        if sep {
            proof {
                lemma_spans_push(s@, spans@, scan_pieces(pre, lines).0, start, i);
            }
            spans.push((start, i));
            start = i + 1;
            assert(s@.subrange(start as int, i + 1) =~= Seq::<char>::empty());
        } else {
            assert(s@.subrange(start as int, i + 1) =~= s@.subrange(start as int, i as int).push(c));
        }
        i += 1;
    }
    assert(s@.subrange(0, n as int) =~= s@);
    proof {
        lemma_spans_push(s@, spans@, scan_pieces(s@, lines).0, start, n);
    }
    spans.push((start, n));
    spans
}

/// `s` holds a character other than white space.
pub open spec fn not_blank(s: Seq<char>) -> bool {
    trim(s).len() > 0
}

/// The pieces that are not blank, in order.
pub open spec fn keep_not_blank(ps: Seq<Seq<char>>) -> Seq<Seq<char>>
    decreases ps.len(),
{
    if ps.len() == 0 {
        ps
    } else if not_blank(ps.last()) {
        keep_not_blank(ps.drop_last()).push(ps.last())
    } else {
        keep_not_blank(ps.drop_last())
    }
}

/// The spans of `all` whose pieces are not blank.
pub fn keep_not_blank_spans(c: &Vec<char>, all: &Vec<(usize, usize)>, ps: Ghost<Seq<Seq<char>>>) -> (r: Vec<(usize, usize)>)
    requires
        spans_are_words(c@, all@, ps@),
    ensures
        spans_are_words(c@, r@, keep_not_blank(ps@)),
{
    let mut out: Vec<(usize, usize)> = Vec::new();
    let mut k: usize = 0;
    assert(ps@.subrange(0, 0) =~= Seq::<Seq<char>>::empty());
    while k < all.len()
        invariant
            k <= all@.len(),
            spans_are_words(c@, all@, ps@),
            spans_are_words(c@, out@, keep_not_blank(ps@.subrange(0, k as int))),
        decreases all@.len() - k,
    {
        let (a, b) = all[k];
        assert(span_ok(c@, all@[k as int], ps@[k as int]));
        assert(ps@.subrange(0, k + 1).drop_last() =~= ps@.subrange(0, k as int));
        let (x, y) = trim_span(c, a, b);
        if x < y {
            proof {
                lemma_spans_push(c@, out@, keep_not_blank(ps@.subrange(0, k as int)), a, b);
            }
            out.push((a, b));
        }
        k += 1;
    }
    assert(ps@.subrange(0, all@.len() as int) =~= ps@);
    out
}

/// Relies on `FromIterator<char>` for `String`: collecting characters
/// gives the string of exactly those characters, in order.
#[verifier::external_body]
pub fn string_from_chars(v: &Vec<char>) -> (r: String)
    ensures
        r@ == v@,
{
    v.iter().collect()
}

/// `s` with every occurrence of `p` replaced by `r`, scanning left to right
/// without overlaps, as `str::replace` does.
pub open spec fn replace_all(s: Seq<char>, p: Seq<char>, r: Seq<char>) -> Seq<char>
    decreases s.len(),
{
    if s.len() == 0 {
        s
    } else if p.len() > 0 && p.len() <= s.len() && s.subrange(0, p.len() as int) == p {
        r + replace_all(s.subrange(p.len() as int, s.len() as int), p, r)
    } else {
        seq![s[0]] + replace_all(s.drop_first(), p, r)
    }
}

/// `s` with every occurrence of the non-empty `p` replaced by `r`.
pub fn replace_str(s: &str, p: &str, r: &str) -> (out: String)
    requires
        p@.len() > 0,
    ensures
        out@ == replace_all(s@, p@, r@),
{
    let c = chars_of(s);
    let pc = chars_of(p);
    let n = c.len();
    let m = pc.len();
    let mut out = String::from_str("");
    let mut run: usize = 0;
    let mut i: usize = 0;
    proof {
        reveal_strlit("");
        assert(c@.subrange(0, n as int) =~= c@);
        assert(c@.subrange(0, 0) =~= Seq::<char>::empty());
        assert(out@ + c@.subrange(run as int, i as int) =~= Seq::<char>::empty());
    }
    while i < n
        invariant
            n == c@.len(),
            m == pc@.len(),
            m > 0,
            c@ == s@,
            pc@ == p@,
            run <= i <= n,
            out@ + c@.subrange(run as int, i as int) + replace_all(c@.subrange(i as int, n as int), p@, r@)
                == replace_all(s@, p@, r@),
        decreases n - i,
    {
        let ghost rest = c@.subrange(i as int, n as int);
        if m <= n - i && matches_at(&c, &pc, i) {
            assert(rest.subrange(0, m as int) =~= c@.subrange(i as int, i + m));
            assert(rest.subrange(m as int, rest.len() as int) =~= c@.subrange(i + m, n as int));
            let ghost before = out@ + c@.subrange(run as int, i as int);
            out.append(s.substring_char(run, i));
            out.append(r);
            i = i + m;
            run = i;
            assert(c@.subrange(run as int, i as int) =~= Seq::<char>::empty());
            assert(out@ + c@.subrange(run as int, i as int) =~= before + r@);
        } else {
            assert(rest.drop_first() =~= c@.subrange(i + 1, n as int));
            if m <= n - i {
                assert(rest.subrange(0, m as int) =~= c@.subrange(i as int, i + m));
                assert(!occurs_at(c@, pc@, i as int));
            }
            assert(c@.subrange(run as int, i + 1) =~= c@.subrange(run as int, i as int) + seq![c@[i as int]]);
            i += 1;
        }
    }
    out.append(s.substring_char(run, n));
    assert(c@.subrange(n as int, n as int) =~= Seq::<char>::empty());
    out
}

/// Byte length of the UTF-8 encoding of `s`, as `str::len` reports it.
pub open spec fn utf8_len(s: Seq<char>) -> usize {
    vstd::utf8::encode_utf8(s).len() as usize
}

/// `needle` occurs in `hay` starting at `i`.
pub open spec fn occurs_at(hay: Seq<char>, needle: Seq<char>, i: int) -> bool {
    0 <= i && i + needle.len() <= hay.len() && hay.subrange(i, i + needle.len()) == needle
}

/// `needle` occurs somewhere in `hay`, as `str::contains` finds it.
pub open spec fn occurs(hay: Seq<char>, needle: Seq<char>) -> bool {
    exists|i: int| occurs_at(hay, needle, i)
}

pub fn matches_at(hay: &Vec<char>, needle: &Vec<char>, i: usize) -> (r: bool)
    requires
        i + needle@.len() <= hay@.len(),
    ensures
        r == occurs_at(hay@, needle@, i as int),
{
    let mut j: usize = 0;
    while j < needle.len() && hay[i + j] == needle[j]
        invariant
            i + needle@.len() <= hay@.len(),
            hay@.len() == hay.len(),
            j <= needle@.len(),
            forall|q: int| 0 <= q < j ==> hay@[i + q] == needle@[q],
        decreases needle@.len() - j,
    {
        j += 1;
    }
    if j == needle.len() {
        assert(hay@.subrange(i as int, i + needle@.len()) =~= needle@);
        return true;
    }
    assert(!occurs_at(hay@, needle@, i as int)) by {
        if occurs_at(hay@, needle@, i as int) {
            assert(hay@.subrange(i as int, i + needle@.len())[j as int] == needle@[j as int]);
        }
    }
    false
}

pub fn occurs_in(hay: &Vec<char>, needle: &Vec<char>) -> (r: bool)
    ensures
        r == occurs(hay@, needle@),
{
    if needle.len() > hay.len() {
        return false;
    }
    let last = hay.len() - needle.len();
    let mut i: usize = 0;
    while i < last
        invariant
            last == hay@.len() - needle@.len(),
            needle@.len() <= hay@.len(),
            i <= last,
            forall|p: int| 0 <= p < i ==> !occurs_at(hay@, needle@, p),
        decreases last - i,
    {
        if matches_at(hay, needle, i) {
            return true;
        }
        i += 1;
    }
    matches_at(hay, needle, last)
}

/// Whether `s` occurs in `hay`.
pub fn str_occurs(hay: &str, s: &str) -> (r: bool)
    ensures
        r == occurs(hay@, s@),
{
    let h = chars_of(hay);
    let n = chars_of(s);
    occurs_in(&h, &n)
}

/// The first position where `needle` occurs in `hay`, or -1.
#[verifier::opaque]
pub open spec fn first_index(hay: Seq<char>, needle: Seq<char>) -> int {
    if occurs(hay, needle) {
        choose|i: int| occurs_at(hay, needle, i) && forall|j: int| 0 <= j < i ==> !occurs_at(hay, needle, j)
    } else {
        -1
    }
}

proof fn lemma_first_index(hay: Seq<char>, needle: Seq<char>, i: int)
    requires
        occurs_at(hay, needle, i),
        forall|j: int| 0 <= j < i ==> !occurs_at(hay, needle, j),
    ensures
        first_index(hay, needle) == i,
{
    reveal(first_index);
    let f = first_index(hay, needle);
    assert(occurs(hay, needle));
    assert(occurs_at(hay, needle, f) && forall|j: int| 0 <= j < f ==> !occurs_at(hay, needle, j));
    if f < i {
        assert(!occurs_at(hay, needle, f));
    }
    if i < f {
        assert(!occurs_at(hay, needle, i));
    }
}

proof fn lemma_least_occurrence(hay: Seq<char>, needle: Seq<char>, i: int)
    requires
        occurs_at(hay, needle, i),
    ensures
        exists|k: int| occurs_at(hay, needle, k) && forall|j: int| 0 <= j < k ==> !occurs_at(hay, needle, j),
    decreases i,
{
    if exists|j: int| 0 <= j < i && occurs_at(hay, needle, j) {
        let j = choose|j: int| 0 <= j < i && occurs_at(hay, needle, j);
        lemma_least_occurrence(hay, needle, j);
    } else {
        assert(occurs_at(hay, needle, i) && forall|j: int| 0 <= j < i ==> !occurs_at(hay, needle, j));
    }
}

/// Where `needle` occurs, and only there, `first_index` names an
/// occurrence.
pub proof fn lemma_first_index_occurs(hay: Seq<char>, needle: Seq<char>)
    requires
        occurs(hay, needle) || first_index(hay, needle) >= 0,
    ensures
        first_index(hay, needle) >= 0,
        occurs_at(hay, needle, first_index(hay, needle)),
{
    reveal(first_index);
    assert(occurs(hay, needle));
    let i = choose|i: int| occurs_at(hay, needle, i);
    lemma_least_occurrence(hay, needle, i);
}

/// The first position where `needle` occurs in `hay`, as `str::find` gives
/// it in characters.
pub fn find_first(hay: &Vec<char>, needle: &Vec<char>) -> (r: Option<usize>)
    ensures
        match r {
            Some(i) => first_index(hay@, needle@) == i as int && occurs_at(hay@, needle@, i as int) && occurs(hay@, needle@),
            None => first_index(hay@, needle@) == -1 && !occurs(hay@, needle@),
        },
{
    if needle.len() > hay.len() {
        proof {
            reveal(first_index);
        }
        return None;
    }
    let last = hay.len() - needle.len();
    let mut i: usize = 0;
    while i < last
        invariant
            last == hay@.len() - needle@.len(),
            needle@.len() <= hay@.len(),
            i <= last,
            forall|p: int| 0 <= p < i ==> !occurs_at(hay@, needle@, p),
        decreases last - i,
    {
        if matches_at(hay, needle, i) {
            proof {
                lemma_first_index(hay@, needle@, i as int);
            }
            return Some(i);
        }
        i += 1;
    }
    if matches_at(hay, needle, last) {
        proof {
            lemma_first_index(hay@, needle@, last as int);
        }
        return Some(last);
    }
    assert(!occurs(hay@, needle@)) by {
        if occurs(hay@, needle@) {
            let p = choose|p: int| occurs_at(hay@, needle@, p);
            assert(p <= last);
        }
    }
    proof {
        reveal(first_index);
    }
    None
}

/// The characters `v[from .. to]`.
pub fn slice_chars(v: &Vec<char>, from: usize, to: usize) -> (r: Vec<char>)
    requires
        from <= to <= v@.len(),
    ensures
        r@ == v@.subrange(from as int, to as int),
{
    let mut out: Vec<char> = Vec::new();
    let mut i = from;
    while i < to
        invariant
            from <= i <= to,
            to <= v@.len(),
            out@ == v@.subrange(from as int, i as int),
        decreases to - i,
    {
        out.push(v[i]);
        i += 1;
        assert(out@ =~= v@.subrange(from as int, i as int));
    }
    out
}

} // verus!
