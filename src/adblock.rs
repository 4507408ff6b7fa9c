//! Request interception: a list-based matcher for ad and tracker URLs and
//! the handler that consults it before a resource loads.

use vstd::prelude::*;
use vstd::string::{StrSliceExecFns, StringExecFns};
use crate::text::{chars_of, find_first, first_index, matches_at, occurs, occurs_at, occurs_in, str_occurs};

verus! {

/// Any of `list` occurs in `hay`.
pub open spec fn any_occurs(hay: Seq<char>, list: Seq<Seq<char>>) -> bool {
    exists|k: int| 0 <= k < list.len() && occurs(hay, #[trigger] list[k])
}

fn any_in(hay: &Vec<char>, list: &Vec<String>) -> (r: bool)
    ensures
        r == any_occurs(hay@, list@.map_values(|s: String| s@)),
{
    let ghost l = list@.map_values(|s: String| s@);
    let mut k: usize = 0;
    while k < list.len()
        invariant
            l == list@.map_values(|s: String| s@),
            k <= list@.len(),
            forall|p: int| 0 <= p < k ==> !occurs(hay@, #[trigger] l[p]),
        decreases list@.len() - k,
    {
        let needle = chars_of(list[k].as_str());
        if occurs_in(hay, &needle) {
            assert(occurs(hay@, l[k as int]));
            return true;
        }
        k += 1;
    }
    false
}

/// Resource types the matcher may block.
pub open spec fn blockable_type(t: Seq<char>) -> bool {
    t == "image"@ || t == "script"@ || t == "xhr"@
}

fn str_eq(a: &str, b: &str) -> (r: bool)
    ensures
        r == (a@ == b@),
{
    String::from_str(a) == String::from_str(b)
}

/// `s` begins with "||".
pub open spec fn starts_with_bars(s: Seq<char>) -> bool {
    s.len() >= 2 && s[0] == '|' && s[1] == '|'
}

/// `s` with every leading "||" removed.
pub open spec fn strip_bars(s: Seq<char>) -> Seq<char>
    decreases s.len(),
{
    if starts_with_bars(s) {
        strip_bars(s.subrange(2, s.len() as int))
    } else {
        s
    }
}

/// The part of `s` before its first '/'.
pub open spec fn until_slash(s: Seq<char>) -> Seq<char>
    decreases s.len(),
{
    if s.len() == 0 {
        s
    } else if s[0] == '/' {
        Seq::empty()
    } else {
        seq![s[0]] + until_slash(s.drop_first())
    }
}

/// One filter line applied: "||domain/..." adds the domain where it is not
/// empty; a line with '*' adds itself as a pattern; others are ignored.
pub open spec fn apply_filter(v: MatcherView, f: Seq<char>) -> MatcherView {
    if starts_with_bars(f) {
        let d = until_slash(strip_bars(f));
        if d.len() > 0 {
            MatcherView { domains: v.domains.push(d), ..v }
        } else {
            v
        }
    } else if occurs(f, "*"@) {
        MatcherView { patterns: v.patterns.push(f), ..v }
    } else {
        v
    }
}

/// Filter lines applied in order.
pub open spec fn apply_filters(v: MatcherView, fs: Seq<Seq<char>>) -> MatcherView
    decreases fs.len(),
{
    if fs.len() == 0 {
        v
    } else {
        apply_filter(apply_filters(v, fs.drop_last()), fs.last())
    }
}

/// Where the domain of a "||" filter lies in `c`.
fn domain_span(c: &Vec<char>) -> (r: (usize, usize))
    ensures
        r.0 <= r.1 <= c@.len(),
        c@.subrange(r.0 as int, r.1 as int) == until_slash(strip_bars(c@)),
{
    let n = c.len();
    let mut a: usize = 0;
    assert(c@.subrange(0, n as int) =~= c@);
    while n - a >= 2 && c[a] == '|' && c[a + 1] == '|'
        invariant
            n == c@.len(),
            a <= n,
            strip_bars(c@.subrange(a as int, n as int)) == strip_bars(c@),
        decreases n - a,
    {
        assert(c@.subrange(a as int, n as int).subrange(2, n - a) =~= c@.subrange(a + 2, n as int));
        a += 2;
    }
    assert(strip_bars(c@.subrange(a as int, n as int)) == c@.subrange(a as int, n as int));
    let b = slash_end(c, a);
    (a, b)
}

/// The end of the run of characters from `a` that holds no '/'.
fn slash_end(c: &Vec<char>, a: usize) -> (b: usize)
    requires
        a <= c@.len(),
    ensures
        a <= b <= c@.len(),
        c@.subrange(a as int, b as int) == until_slash(c@.subrange(a as int, c@.len() as int)),
{
    let n = c.len();
    let mut b: usize = a;
    assert(c@.subrange(a as int, a as int) =~= Seq::<char>::empty());
    assert(until_slash(c@.subrange(a as int, n as int)) =~= c@.subrange(a as int, b as int) + until_slash(c@.subrange(b as int, n as int)));
    while b < n && c[b] != '/'
        invariant
            n == c@.len(),
            a <= b <= n,
            until_slash(c@.subrange(a as int, n as int)) == c@.subrange(a as int, b as int) + until_slash(c@.subrange(b as int, n as int)),
        decreases n - b,
    {
        assert(c@.subrange(b as int, n as int).drop_first() =~= c@.subrange(b + 1, n as int));
        assert(c@.subrange(a as int, b + 1) =~= c@.subrange(a as int, b as int) + seq![c@[b as int]]);
        b += 1;
    }
    assert(until_slash(c@.subrange(b as int, n as int)) =~= Seq::<char>::empty());
    assert(c@.subrange(a as int, b as int) + Seq::<char>::empty() =~= c@.subrange(a as int, b as int));
    b
}

/// The text "://" that ends a URL's scheme.
pub open spec fn scheme_sep() -> Seq<char> {
    seq![':', '/', '/']
}

/// The host part of a URL: what follows the first "://" up to the next '/',
/// or the whole text where there is no "://".
pub open spec fn domain_of(url: Seq<char>) -> Seq<char> {
    if occurs(url, scheme_sep()) {
        until_slash(url.subrange(first_index(url, scheme_sep()) + 3, url.len() as int))
    } else {
        url
    }
}

/// The host part of `url`.
pub fn extract_domain(url: &str) -> (r: String)
    ensures
        r@ == domain_of(url@),
{
    let c = chars_of(url);
    let sep = vec![':', '/', '/'];
    assert(sep@ =~= scheme_sep());
    match find_first(&c, &sep) {
        None => String::from_str(url),
        Some(i) => {
            let n = c.len();
            assert(i + 3 <= n);
            let a = i + 3;
            let b = slash_end(&c, a);
            let r = String::from_str(url.substring_char(a, b));
            assert(r@ == until_slash(url@.subrange(a as int, url@.len() as int)));
            r
        },
    }
}

/// The built-in domain entries.
pub open spec fn default_domains() -> Seq<Seq<char>> {
    seq![
        "doubleclick.net"@,
        "googleadservices.com"@,
        "googlesyndication.com"@,
        "facebook.com/tr"@,
        "analytics.js"@,
        "adsystem.com"@,
    ]
}

/// The built-in path patterns.
pub open spec fn default_patterns() -> Seq<Seq<char>> {
    seq!["/ads/"@, "/advertisement"@, "/tracking"@, "?utm_"@]
}

/// What a matcher blocks: domain entries and path patterns, both matched as
/// substrings of the URL.
pub struct MatcherView {
    pub domains: Seq<Seq<char>>,
    pub patterns: Seq<Seq<char>>,
}

/// Whether a URL of the given resource type is blocked under `v`.
pub open spec fn blocks(v: MatcherView, url: Seq<char>, resource_type: Seq<char>) -> bool {
    blockable_type(resource_type) && (any_occurs(url, v.domains) || any_occurs(url, v.patterns))
}

/// A blocking decision for a URL and resource type.
pub trait AdblockMatcher {
    fn should_block(&self, url: &str, resource_type: &str) -> bool;

    fn update_filters(&mut self, filters: Vec<String>);
}

/// A matcher over plain lists of entries.
pub struct RustAdblockMatcher {
    blocked_domains: Vec<String>,
    blocked_patterns: Vec<String>,
}

impl View for RustAdblockMatcher {
    type V = MatcherView;

    closed spec fn view(&self) -> MatcherView {
        MatcherView {
            domains: self.blocked_domains@.map_values(|s: String| s@),
            patterns: self.blocked_patterns@.map_values(|s: String| s@),
        }
    }
}

fn push_entry(v: &mut Vec<String>, s: &str)
    ensures
        final(v)@.map_values(|x: String| x@) == old(v)@.map_values(|x: String| x@).push(s@),
{
    v.push(String::from_str(s));
    assert(v@.map_values(|x: String| x@) =~= old(v)@.map_values(|x: String| x@).push(s@));
}

impl RustAdblockMatcher {
    /// A matcher holding the built-in entries.
    pub fn new() -> (r: Self)
        ensures
            r@ == (MatcherView { domains: default_domains(), patterns: default_patterns() }),
    {
        let mut m = RustAdblockMatcher { blocked_domains: Vec::new(), blocked_patterns: Vec::new() };
        assert(m@.domains =~= Seq::<Seq<char>>::empty());
        assert(m@.patterns =~= Seq::<Seq<char>>::empty());
        m.load_default_filters();
        m
    }

    fn load_default_filters(&mut self)
        ensures
            final(self)@ == (MatcherView {
                domains: old(self)@.domains + default_domains(),
                patterns: old(self)@.patterns + default_patterns(),
            }),
    {
        push_entry(&mut self.blocked_domains, "doubleclick.net");
        push_entry(&mut self.blocked_domains, "googleadservices.com");
        push_entry(&mut self.blocked_domains, "googlesyndication.com");
        push_entry(&mut self.blocked_domains, "facebook.com/tr");
        push_entry(&mut self.blocked_domains, "analytics.js");
        push_entry(&mut self.blocked_domains, "adsystem.com");
        push_entry(&mut self.blocked_patterns, "/ads/");
        push_entry(&mut self.blocked_patterns, "/advertisement");
        push_entry(&mut self.blocked_patterns, "/tracking");
        push_entry(&mut self.blocked_patterns, "?utm_");
        assert(self@.domains =~= old(self)@.domains + default_domains());
        assert(self@.patterns =~= old(self)@.patterns + default_patterns());
    }

    /// Adds entries from filter lines: "||domain/..." gives a domain entry,
    /// a line holding '*' a pattern; other lines are ignored.
    pub fn update_filters(&mut self, filters: Vec<String>)
        ensures
            final(self)@ == apply_filters(old(self)@, filters@.map_values(|s: String| s@)),
    {
        let ghost fs = filters@.map_values(|s: String| s@);
        let mut k: usize = 0;
        assert(fs.subrange(0, 0) =~= Seq::<Seq<char>>::empty());
        while k < filters.len()
            invariant
                fs == filters@.map_values(|s: String| s@),
                k <= filters@.len(),
                self@ == apply_filters(old(self)@, fs.subrange(0, k as int)),
            decreases filters@.len() - k,
        {
            let f = filters[k].as_str();
            let c = chars_of(f);
            assert(fs.subrange(0, k + 1).drop_last() =~= fs.subrange(0, k as int));
            assert(fs[k as int] == f@);
            proof {
                reveal_strlit("*");
            }
            if c.len() >= 2 && c[0] == '|' && c[1] == '|' {
                let (a, b) = domain_span(&c);
                if a < b {
                    push_entry(&mut self.blocked_domains, f.substring_char(a, b));
                }
            } else if str_occurs(f, "*") {
                push_entry(&mut self.blocked_patterns, f);
            }
            k += 1;
        }
        assert(fs.subrange(0, k as int) =~= fs);
    }

    /// Images, scripts and XHRs are blocked when the URL contains a domain
    /// entry or a pattern; other resource types never are.
    pub fn should_block(&self, url: &str, resource_type: &str) -> (r: bool)
        ensures
            r == blocks(self@, url@, resource_type@),
    {
        proof {
            reveal_strlit("image");
            reveal_strlit("script");
            reveal_strlit("xhr");
        }
        if str_eq(resource_type, "image") || str_eq(resource_type, "script") || str_eq(resource_type, "xhr") {
            let u = chars_of(url);
            if any_in(&u, &self.blocked_domains) {
                return true;
            }
            if any_in(&u, &self.blocked_patterns) {
                return true;
            }
        }
        false
    }
}

impl AdblockMatcher for RustAdblockMatcher {
    fn should_block(&self, url: &str, resource_type: &str) -> bool {
        RustAdblockMatcher::should_block(self, url, resource_type)
    }

    fn update_filters(&mut self, filters: Vec<String>) {
        RustAdblockMatcher::update_filters(self, filters)
    }
}

/// Decides, before each resource load, whether to block it.
pub struct CefRequestHandler {
    pub adblock_enabled: bool,
    pub adblock_matcher: RustAdblockMatcher,
}

impl CefRequestHandler {
    pub fn new(adblock_enabled: bool) -> (r: Self)
        ensures
            r.adblock_enabled == adblock_enabled,
            r.adblock_matcher@ == (MatcherView { domains: default_domains(), patterns: default_patterns() }),
    {
        CefRequestHandler { adblock_enabled, adblock_matcher: RustAdblockMatcher::new() }
    }

    /// True where the load is to be blocked: blocking is on and the matcher
    /// blocks the URL.
    pub fn on_before_resource_load(&self, url: &str, resource_type: &str) -> (r: bool)
        ensures
            r == (self.adblock_enabled && blocks(self.adblock_matcher@, url@, resource_type@)),
    {
        if !self.adblock_enabled {
            return false;
        }
        self.adblock_matcher.should_block(url, resource_type)
    }
}

} // verus!
