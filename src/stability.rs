//! Stability guards: crash counting for safe mode, idle-tab freezing with a
//! low-memory setting, and the watchdog's timing.

use vstd::prelude::*;
use vstd::string::StringExecFns;
use crate::clock::unix_now_secs;
use crate::text::{chars_of, matches_at, slice_chars, piece_spans, pieces_of, span_ok, spans_are_words, word_spans, words_of};

verus! {

/// Counts crashes and switches safe mode on at a threshold.
#[derive(Debug, Clone, Copy, PartialEq, Eq, Structural)]
pub struct SafeMode {
    enabled: bool,
    crash_count: u32,
    max_crashes: u32,
}

pub struct SafeModeView {
    pub enabled: bool,
    pub crash_count: u32,
    pub max_crashes: u32,
}

impl View for SafeMode {
    type V = SafeModeView;

    closed spec fn view(&self) -> SafeModeView {
        SafeModeView { enabled: self.enabled, crash_count: self.crash_count, max_crashes: self.max_crashes }
    }
}

impl SafeMode {
    pub fn new(max_crashes: u32) -> (r: Self)
        ensures
            r@ == (SafeModeView { enabled: false, crash_count: 0, max_crashes }),
    {
        SafeMode { enabled: false, crash_count: 0, max_crashes }
    }

    /// Whether the crash count has reached the threshold.
    pub fn should_enable(&self) -> (r: bool)
        ensures
            r == (self@.crash_count >= self@.max_crashes),
    {
        self.crash_count >= self.max_crashes
    }

    /// Counts one crash (saturating); reaching the threshold enables safe
    /// mode.
    pub fn record_crash(&mut self)
        ensures
            final(self)@.crash_count == if old(self)@.crash_count < u32::MAX {
                (old(self)@.crash_count + 1) as u32
            } else {
                old(self)@.crash_count
            },
            final(self)@.enabled == (old(self)@.enabled || final(self)@.crash_count >= old(self)@.max_crashes),
            final(self)@.max_crashes == old(self)@.max_crashes,
    {
        if self.crash_count < u32::MAX {
            self.crash_count = self.crash_count + 1;
        }
        if self.crash_count >= self.max_crashes {
            self.enabled = true;
        }
    }

    pub fn is_enabled(&self) -> (r: bool)
        ensures
            r == self@.enabled,
    {
        self.enabled
    }

    /// Clears the crash count and disables safe mode.
    pub fn reset_crash_count(&mut self)
        ensures
            final(self)@ == (SafeModeView { enabled: false, crash_count: 0, max_crashes: old(self)@.max_crashes }),
    {
        self.crash_count = 0;
        self.enabled = false;
    }

    pub fn get_crash_count(&self) -> (r: u32)
        ensures
            r == self@.crash_count,
    {
        self.crash_count
    }
}

/// Tab limit in low-memory mode.
pub const LOW_RAM_MAX_TABS: u32 = 5;

/// Tab limit otherwise.
pub const NORMAL_MAX_TABS: u32 = 15;

/// Decides when idle tabs are frozen; low-memory mode halves both
/// thresholds.
#[derive(Debug, Clone, Copy, PartialEq, Eq, Structural)]
pub struct MemoryGuard {
    pub freeze_threshold_secs: u64,
    pub memory_threshold: u64,
    pub low_ram_mode: bool,
}

/// The freeze threshold in force, in seconds.
pub open spec fn freeze_threshold(g: MemoryGuard) -> u64 {
    if g.low_ram_mode {
        g.freeze_threshold_secs / 2
    } else {
        g.freeze_threshold_secs
    }
}

/// Whether a tab last active at `last_active` is due to be frozen at `now`:
/// never the active tab, otherwise once idle longer than the threshold.
pub open spec fn freeze_due(g: MemoryGuard, last_active: i64, is_active: bool, now: i64) -> bool {
    !is_active && (now as int) - (last_active as int) > freeze_threshold(g) as int
}

impl MemoryGuard {
    pub fn new(freeze_threshold_secs: u64, memory_threshold: u64) -> (r: Self)
        ensures
            r == (MemoryGuard { freeze_threshold_secs, memory_threshold, low_ram_mode: false }),
    {
        MemoryGuard { freeze_threshold_secs, memory_threshold, low_ram_mode: false }
    }

    pub fn set_low_ram_mode(&mut self, enabled: bool)
        ensures
            *final(self) == (MemoryGuard { low_ram_mode: enabled, ..*old(self) }),
    {
        self.low_ram_mode = enabled;
    }

    pub fn get_low_ram_mode(&self) -> (r: bool)
        ensures
            r == self.low_ram_mode,
    {
        self.low_ram_mode
    }

    /// The freeze threshold in seconds, halved in low-memory mode.
    pub fn get_freeze_threshold(&self) -> (r: u64)
        ensures
            r == freeze_threshold(*self),
    {
        if self.low_ram_mode {
            self.freeze_threshold_secs / 2
        } else {
            self.freeze_threshold_secs
        }
    }

    /// The memory threshold in bytes, halved in low-memory mode.
    pub fn get_memory_threshold(&self) -> (r: u64)
        ensures
            r == if self.low_ram_mode {
                self.memory_threshold / 2
            } else {
                self.memory_threshold
            },
    {
        if self.low_ram_mode {
            self.memory_threshold / 2
        } else {
            self.memory_threshold
        }
    }

    /// Whether a tab is due to be frozen at time `now` (Unix seconds).
    pub fn should_freeze_tab_at(&self, last_active: i64, is_active: bool, now: i64) -> (r: bool)
        ensures
            r == freeze_due(*self, last_active, is_active, now),
    {
        if is_active {
            return false;
        }
        let idle: i128 = now as i128 - last_active as i128;
        idle > self.get_freeze_threshold() as i128
    }

    /// Whether a tab is due to be frozen now; the active tab never is.
    pub fn should_freeze_tab(&self, last_active: i64, is_active: bool) -> (r: bool)
        ensures
            is_active ==> !r,
            exists|now: i64| r == #[trigger] freeze_due(*self, last_active, is_active, now),
    {
        let now = unix_now_secs();
        self.should_freeze_tab_at(last_active, is_active, now)
    }

    /// The most tabs to keep open: 5 in low-memory mode, else 15.
    pub fn get_max_tabs(&self) -> (r: u32)
        ensures
            r == if self.low_ram_mode {
                LOW_RAM_MAX_TABS
            } else {
                NORMAL_MAX_TABS
            },
    {
        if self.low_ram_mode {
            LOW_RAM_MAX_TABS
        } else {
            NORMAL_MAX_TABS
        }
    }
}

/// Timing of the responsiveness watchdog, in milliseconds.
#[derive(Debug, Clone, Copy, PartialEq, Eq, Structural)]
pub struct Watchdog {
    pub check_interval_ms: u64,
    pub response_timeout_ms: u64,
}

impl Watchdog {
    pub fn new(check_interval_ms: u64, response_timeout_ms: u64) -> (r: Self)
        ensures
            r == (Watchdog { check_interval_ms, response_timeout_ms }),
    {
        Watchdog { check_interval_ms, response_timeout_ms }
    }

    pub fn get_check_interval(&self) -> (r: u64)
        ensures
            r == self.check_interval_ms,
    {
        self.check_interval_ms
    }

    pub fn get_response_timeout(&self) -> (r: u64)
        ensures
            r == self.response_timeout_ms,
    {
        self.response_timeout_ms
    }
}

/// The value of a decimal digit.
pub open spec fn digit_of(c: char) -> nat {
    (c as int - '0' as int) as nat
}

/// The value of a string of decimal digits.
pub open spec fn digits_value(s: Seq<char>) -> nat
    decreases s.len(),
{
    if s.len() == 0 {
        0
    } else {
        digits_value(s.drop_last()) * 10 + digit_of(s.last())
    }
}

pub open spec fn all_digits(s: Seq<char>) -> bool {
    forall|i: int| 0 <= i < s.len() ==> '0' <= #[trigger] s[i] <= '9'
}

/// `s` read as a `u64` the way `str::parse::<u64>` reads it: an optional
/// '+', then at least one decimal digit, within range.
pub open spec fn parse_u64(s: Seq<char>) -> Option<u64> {
    let d = if s.len() > 0 && s[0] == '+' { s.drop_first() } else { s };
    if d.len() > 0 && all_digits(d) && digits_value(d) <= u64::MAX {
        Some(digits_value(d) as u64)
    } else {
        None
    }
}

/// The total memory in bytes that one meminfo line gives: a line starting
/// "MemTotal:" whose second word is a number of kilobytes.
pub open spec fn line_total(line: Seq<char>) -> Option<u64> {
    if line.len() >= 9 && line.subrange(0, 9) == "MemTotal:"@ && words_of(line).len() >= 2 {
        match parse_u64(words_of(line)[1]) {
            Some(kb) => if kb as nat * 1024 <= u64::MAX {
                Some((kb * 1024) as u64)
            } else {
                None
            },
            None => None,
        }
    } else {
        None
    }
}

/// The first line that gives a total.
pub open spec fn first_total(lines: Seq<Seq<char>>) -> Option<u64>
    decreases lines.len(),
{
    if lines.len() == 0 {
        None
    } else {
        match line_total(lines[0]) {
            Some(v) => Some(v),
            None => first_total(lines.drop_first()),
        }
    }
}

fn parse_u64_chars(s: &Vec<char>) -> (r: Option<u64>)
    ensures
        r == parse_u64(s@),
{
    let n = s.len();
    let start: usize = if n > 0 && s[0] == '+' { 1 } else { 0 };
    let ghost d = s@.subrange(start as int, n as int);
    assert(d =~= (if s@.len() > 0 && s@[0] == '+' { s@.drop_first() } else { s@ }));
    assert(parse_u64(s@) == (if d.len() > 0 && all_digits(d) && digits_value(d) <= u64::MAX {
        Some(digits_value(d) as u64)
    } else {
        None::<u64>
    }));
    if start == n {
        return None;
    }
    let mut value: u64 = 0;
    let mut i: usize = start;
    assert(d.subrange(0, 0) =~= Seq::<char>::empty());
    while i < n
        invariant
            start <= i <= n,
            n == s@.len(),
            d == s@.subrange(start as int, n as int),
            parse_u64(s@) == (if d.len() > 0 && all_digits(d) && digits_value(d) <= u64::MAX {
                Some(digits_value(d) as u64)
            } else {
                None::<u64>
            }),
            d.len() > 0,
            all_digits(d.subrange(0, i - start)),
            value as nat == digits_value(d.subrange(0, i - start)),
        decreases n - i,
    {
        let ch = s[i];
        assert(d.subrange(0, i - start + 1).drop_last() =~= d.subrange(0, i - start));
        if ch < '0' || ch > '9' {
            assert(!all_digits(d)) by {
                assert(d[i - start] == ch);
            }
            return None;
        }
        let digit = (ch as u32 - '0' as u32) as u64;
        if value > (u64::MAX - digit) / 10 {
            assert(digits_value(d.subrange(0, i - start + 1)) > u64::MAX) by (nonlinear_arith)
                requires
                    digits_value(d.subrange(0, i - start + 1)) == value as nat * 10 + digit as nat,
                    value > (u64::MAX - digit) / 10,
                    digit <= 9,
            ;
            proof {
                if all_digits(d) {
                    lemma_digits_grow(d, i - start + 1);
                }
            }
            return None;
        }
        value = value * 10 + digit;
        i += 1;
    }
    assert(d.subrange(0, n - start) =~= d);
    Some(value)
}

proof fn lemma_digits_grow(d: Seq<char>, k: int)
    requires
        0 <= k <= d.len(),
        all_digits(d),
    ensures
        digits_value(d.subrange(0, k)) <= digits_value(d),
    decreases d.len() - k,
{
    if k < d.len() {
        let t = d.subrange(0, k + 1);
        assert(t.drop_last() =~= d.subrange(0, k));
        assert('0' <= d[k] <= '9');
        lemma_digits_grow(d, k + 1);
    } else {
        assert(d.subrange(0, k) =~= d);
    }
}

fn line_total_of(line: &Vec<char>) -> (r: Option<u64>)
    ensures
        r == line_total(line@),
{
    let key = chars_of("MemTotal:");
    proof {
        reveal_strlit("MemTotal:");
    }
    if line.len() < 9 || !matches_at(line, &key, 0) {
        proof {
            if line@.len() >= 9 {
                assert(line@.subrange(0, 9) != "MemTotal:"@);
            }
        }
        return None;
    }
    let spans = word_spans(line);
    if spans.len() < 2 {
        return None;
    }
    let (a, b) = spans[1];
    assert(span_ok(line@, spans@[1], words_of(line@)[1]));
    let word = slice_chars(line, a, b);
    match parse_u64_chars(&word) {
        None => None,
        Some(kb) => if kb <= u64::MAX / 1024 {
            Some(kb * 1024)
        } else {
            None
        },
    }
}

/// The total memory in bytes that the text of `/proc/meminfo` gives, from
/// the first "MemTotal:" line whose second word is a number of kilobytes.
pub fn parse_mem_total(contents: &str) -> (r: Result<u64, String>)
    ensures
        match first_total(pieces_of(contents@, true)) {
            Some(v) => r == Ok::<u64, String>(v),
            None => r.is_err() && r->Err_0@ == "Could not parse /proc/meminfo"@,
        },
{
    let c = chars_of(contents);
    let spans = piece_spans(&c, true);
    let ghost ls = pieces_of(contents@, true);
    let mut k: usize = 0;
    assert(ls.subrange(0, ls.len() as int) =~= ls);
    while k < spans.len()
        invariant
            k <= spans@.len(),
            c@ == contents@,
            ls == pieces_of(contents@, true),
            spans_are_words(contents@, spans@, ls),
            first_total(ls.subrange(k as int, ls.len() as int)) == first_total(ls),
        decreases spans@.len() - k,
    {
        let (a, b) = spans[k];
        assert(span_ok(contents@, spans@[k as int], ls[k as int]));
        let line = slice_chars(&c, a, b);
        assert(ls.subrange(k as int, ls.len() as int).drop_first() =~= ls.subrange(k + 1, ls.len() as int));
        assert(ls.subrange(k as int, ls.len() as int)[0] == ls[k as int]);
        assert(line@ == ls[k as int]);
        match line_total_of(&line) {
            Some(v) => {
                assert(first_total(ls.subrange(k as int, ls.len() as int)) == Some(v));
                return Ok(v);
            },
            None => {},
        }
        k += 1;
    }
    assert(ls.subrange(k as int, ls.len() as int) =~= Seq::<Seq<char>>::empty());
    Err(String::from_str("Could not parse /proc/meminfo"))
}

} // verus!
