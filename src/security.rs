//! Sanitising text that arrives over IPC.

use vstd::prelude::*;
use vstd::utf8::{encode_scalar, encode_utf8};
use crate::text::string_from_chars;

verus! {

/// Longest sanitised text, in bytes.
pub const MAX_SANITIZED_BYTES: usize = 10000;

/// The Unicode control characters (general category Cc), as
/// `char::is_control` reports them.
pub open spec fn is_control(c: char) -> bool {
    let u = c as u32;
    u <= 0x1f || (0x7f <= u <= 0x9f)
}

/// Characters that survive sanitising: all but controls, line breaks and
/// tabs excepted.
pub open spec fn keeps(c: char) -> bool {
    !is_control(c) || c == '\n' || c == '\r' || c == '\t'
}

/// The characters of `s` that survive, in order.
pub open spec fn kept_chars(s: Seq<char>) -> Seq<char>
    decreases s.len(),
{
    if s.len() == 0 {
        s
    } else if keeps(s.last()) {
        kept_chars(s.drop_last()).push(s.last())
    } else {
        kept_chars(s.drop_last())
    }
}

/// The longest prefix of `s` whose UTF-8 encoding fits `limit` bytes.
pub open spec fn fit_bytes(s: Seq<char>, limit: nat) -> Seq<char>
    decreases s.len(),
{
    if encode_utf8(s).len() <= limit || s.len() == 0 {
        s
    } else {
        fit_bytes(s.drop_last(), limit)
    }
}

/// What `sanitize_string` makes of `s`.
pub open spec fn sanitized(s: Seq<char>) -> Seq<char> {
    fit_bytes(kept_chars(s), MAX_SANITIZED_BYTES as nat)
}

proof fn lemma_encode_push(a: Seq<char>, c: char)
    ensures
        encode_utf8(a.push(c)).len() == encode_utf8(a).len() + encode_scalar(c as u32).len(),
    decreases a.len(),
{
    if a.len() == 0 {
        assert(a.push(c).drop_first() =~= Seq::<char>::empty());
        assert(encode_utf8(Seq::<char>::empty()).len() == 0);
    } else {
        assert(a.push(c).drop_first() =~= a.drop_first().push(c));
        lemma_encode_push(a.drop_first(), c);
    }
}

proof fn lemma_fit_prefix(s: Seq<char>, k: int, limit: nat)
    requires
        0 <= k <= s.len(),
        encode_utf8(s.subrange(0, k)).len() <= limit,
        forall|j: int| k < j <= s.len() ==> encode_utf8(#[trigger] s.subrange(0, j)).len() > limit,
    ensures
        fit_bytes(s, limit) == s.subrange(0, k),
    decreases s.len() - k,
{
    if k == s.len() {
        assert(s.subrange(0, k) =~= s);
    } else {
        assert(s.subrange(0, s.len() as int) =~= s);
        assert(encode_utf8(s.subrange(0, s.len() as int)).len() > limit);
        let t = s.drop_last();
        assert forall|j: int| k < j <= t.len() implies encode_utf8(#[trigger] t.subrange(0, j)).len() > limit by {
            assert(t.subrange(0, j) =~= s.subrange(0, j));
        }
        assert(t.subrange(0, k) =~= s.subrange(0, k));
        lemma_fit_prefix(t, k, limit);
    }
}

/// Bytes in the UTF-8 encoding of `c`.
fn utf8_width(c: char) -> (r: usize)
    ensures
        r == encode_scalar(c as u32).len(),
        1 <= r <= 4,
{
    proof {
        vstd::utf8::char_is_scalar(c);
    }
    let u = c as u32;
    if u <= 0x7f {
        1
    } else if u <= 0x7ff {
        2
    } else if u <= 0xffff {
        3
    } else {
        4
    }
}

/// Removes control characters other than line breaks and tabs, then keeps
/// the longest run of whole characters that fits in 10,000 bytes.
pub fn sanitize_string(input: &str) -> (r: String)
    ensures
        r@ == sanitized(input@),
{
    let c = crate::text::chars_of(input);
    let mut kept: Vec<char> = Vec::new();
    let mut i: usize = 0;
    assert(c@.subrange(0, 0) =~= Seq::<char>::empty());
    while i < c.len()
        invariant
            i <= c@.len(),
            kept@ == kept_chars(c@.subrange(0, i as int)),
        decreases c@.len() - i,
    {
        assert(c@.subrange(0, i + 1).drop_last() =~= c@.subrange(0, i as int));
        let ch = c[i];
        let u = ch as u32;
        let control = u <= 0x1f || (0x7f <= u && u <= 0x9f);
        if !control || ch == '\n' || ch == '\r' || ch == '\t' {
            kept.push(ch);
        }
        i += 1;
    }
    assert(c@.subrange(0, c@.len() as int) =~= input@);
    let ghost s = kept@;
    let mut k: usize = 0;
    let mut bytes: usize = 0;
    assert(s.subrange(0, 0) =~= Seq::<char>::empty());
    while k < kept.len() && utf8_width(kept[k]) <= MAX_SANITIZED_BYTES - bytes
        invariant
            s == kept@,
            k <= s.len(),
            bytes <= MAX_SANITIZED_BYTES,
            bytes == encode_utf8(s.subrange(0, k as int)).len(),
        decreases s.len() - k,
    {
        proof {
            assert(s.subrange(0, k + 1) =~= s.subrange(0, k as int).push(s[k as int]));
            lemma_encode_push(s.subrange(0, k as int), s[k as int]);
        }
        bytes = bytes + utf8_width(kept[k]);
        k += 1;
    }
    proof {
        if k < s.len() {
            assert(s.subrange(0, k + 1) =~= s.subrange(0, k as int).push(s[k as int]));
            lemma_encode_push(s.subrange(0, k as int), s[k as int]);
            assert forall|j: int| k < j <= s.len() implies encode_utf8(#[trigger] s.subrange(0, j)).len() > MAX_SANITIZED_BYTES by {
                lemma_prefix_grows(s, k + 1, j);
            }
        }
        lemma_fit_prefix(s, k as int, MAX_SANITIZED_BYTES as nat);
    }
    let mut out: Vec<char> = Vec::new();
    let mut j: usize = 0;
    while j < k
        invariant
            k <= kept@.len(),
            j <= k,
            out@ == kept@.subrange(0, j as int),
        decreases k - j,
    {
        out.push(kept[j]);
        j += 1;
        assert(out@ =~= kept@.subrange(0, j as int));
    }
    string_from_chars(&out)
}

proof fn lemma_prefix_grows(s: Seq<char>, a: int, b: int)
    requires
        0 <= a <= b <= s.len(),
    ensures
        encode_utf8(s.subrange(0, a)).len() <= encode_utf8(s.subrange(0, b)).len(),
    decreases b - a,
{
    if a < b {
        assert(s.subrange(0, b) =~= s.subrange(0, b - 1).push(s[b - 1]));
        lemma_encode_push(s.subrange(0, b - 1), s[b - 1]);
        lemma_prefix_grows(s, a, b - 1);
    }
}

} // verus!
