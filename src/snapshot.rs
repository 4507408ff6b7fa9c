//! The tiered tab-snapshot store: a count-bounded hot tier kept in
//! least-recently-used order, a byte-budgeted first-in-first-out cold tier,
//! and a flat context map beside them.

use vstd::prelude::*;
use vstd::string::StringExecFns;
use serde_json::Value;
use crate::keyed::{unique, index_of, lemma_index_of};

verus! {

#[verifier::external_type_specification]
#[verifier::external_body]
pub struct ExValue(serde_json::Value);

/// Relies on the derived `Clone` of `serde_json::Value`, which copies the
/// value variant by variant, so the copy equals its source.
pub assume_specification[ <serde_json::Value as Clone>::clone ](v: &serde_json::Value) -> (r:
    serde_json::Value)
    ensures
        r == *v,
;

/// Relies on `serde_json::to_string`: the JSON text of `v`, or `None` where
/// serialisation fails. Nothing is promised of the text.
#[verifier::external_body]
fn json_text(v: &Value) -> (r: Option<String>) {
    serde_json::to_string(v).ok()
}

/// The size of a state: the byte length of its JSON text, or 0 where it
/// cannot be serialised.
fn approximate_size(v: &Value) -> (r: usize) {
    match json_text(v) {
        Some(text) => text.as_str().len(),
        None => 0,
    }
}

/// Smallest cold-tier budget, in bytes, the store accepts.
pub const MIN_COLD_BUDGET_BYTES: usize = 1_000_000;

/// What a caller hands in to be captured: an opaque state and optional
/// descriptive metadata, both kept verbatim.
pub struct SnapshotPayload {
    pub state: Value,
    pub meta: Option<Value>,
}

/// A captured tab state.
pub struct SnapshotRecord {
    pub tab_id: String,
    pub captured_at: u64,
    pub approx_size_bytes: usize,
    pub hits: u32,
    pub state: Value,
    pub meta: Option<Value>,
}

/// A value saved under a key beside the snapshot tiers.
pub struct ContextRecord {
    pub key: String,
    pub updated_at: u64,
    pub value: Value,
}

fn clone_meta(m: &Option<Value>) -> (r: Option<Value>)
    ensures
        r == *m,
{
    match m {
        Some(v) => Some(v.clone()),
        None => None,
    }
}

impl Clone for ContextRecord {
    fn clone(&self) -> (r: Self)
        ensures
            r == *self,
    {
        ContextRecord { key: self.key.clone(), updated_at: self.updated_at, value: self.value.clone() }
    }
}

/// Outcome of a capture.
pub struct SnapshotResult {
    pub tab_id: String,
    pub stored_in: String,
    pub evicted: Option<String>,
    pub hot_entries: usize,
    pub cold_entries: usize,
    pub cold_bytes: usize,
}

/// Where a restored state was found.
#[derive(Debug, Clone, Copy, PartialEq, Eq, Structural)]
pub enum RestoreSource {
    Hot,
    ColdPromoted,
    ColdPromotedWithEviction,
}

impl RestoreSource {
    /// The tag of the source: "hot", "cold.promoted" or
    /// "cold.promoted-with-eviction".
    pub fn as_str(&self) -> (r: &'static str)
        ensures
            *self == RestoreSource::Hot ==> r@ == "hot"@,
            *self == RestoreSource::ColdPromoted ==> r@ == "cold.promoted"@,
            *self == RestoreSource::ColdPromotedWithEviction ==> r@ == "cold.promoted-with-eviction"@,
    {
        match self {
            RestoreSource::Hot => "hot",
            RestoreSource::ColdPromoted => "cold.promoted",
            RestoreSource::ColdPromotedWithEviction => "cold.promoted-with-eviction",
        }
    }
}

/// A restored state.
pub struct RestoreResult {
    pub tab_id: String,
    pub state: Value,
    pub meta: Option<Value>,
    pub source: RestoreSource,
}

/// The store's counters.
#[derive(Debug, Clone, Copy, PartialEq, Eq, Structural)]
pub struct RuntimeStats {
    pub hot_entries: usize,
    pub cold_entries: usize,
    pub cold_bytes: usize,
    pub max_hot_entries: usize,
    pub cold_budget_bytes: usize,
    pub eviction_count: u64,
}

// ---------------------------------------------------------------- model

/// The store seen as values: the hot tier in recency order (least recent
/// first, so it is also the LRU list), the cold tier in demotion order
/// (oldest first), the context records, and the counters.
pub struct StoreView {
    pub max_hot: nat,
    pub cold_budget: nat,
    pub hot: Seq<SnapshotRecord>,
    pub cold: Seq<SnapshotRecord>,
    pub contexts: Seq<ContextRecord>,
    pub evictions: u64,
}

pub open spec fn keys_of(s: Seq<SnapshotRecord>) -> Seq<Seq<char>> {
    s.map_values(|r: SnapshotRecord| r.tab_id@)
}

pub open spec fn context_keys(s: Seq<ContextRecord>) -> Seq<Seq<char>> {
    s.map_values(|r: ContextRecord| r.key@)
}

/// `s` without the record stored under `key`.
pub open spec fn remove_key(s: Seq<SnapshotRecord>, key: Seq<char>) -> Seq<SnapshotRecord> {
    let i = index_of(keys_of(s), key);
    if i >= 0 {
        s.remove(i)
    } else {
        s
    }
}

/// Total of `approx_size_bytes` over `s`.
pub open spec fn sum_sizes(s: Seq<SnapshotRecord>) -> nat
    decreases s.len(),
{
    if s.len() == 0 {
        0
    } else {
        s[0].approx_size_bytes as nat + sum_sizes(s.drop_first())
    }
}

/// Drops records from the oldest end until the total fits `budget`.
pub open spec fn trim(cold: Seq<SnapshotRecord>, budget: nat) -> Seq<SnapshotRecord>
    decreases cold.len(),
{
    if cold.len() == 0 || sum_sizes(cold) <= budget {
        cold
    } else {
        trim(cold.drop_first(), budget)
    }
}

pub open spec fn sat_inc(n: u64) -> u64 {
    if n < u64::MAX {
        (n + 1) as u64
    } else {
        n
    }
}

pub open spec fn sat_inc32(n: u32) -> u32 {
    if n < u32::MAX {
        (n + 1) as u32
    } else {
        n
    }
}

pub open spec fn overflows(v: StoreView) -> bool {
    v.hot.len() > v.max_hot
}

/// Resolves a hot overflow: the least recent hot record goes to the newest
/// end of the cold tier, which is then trimmed to its budget.
pub open spec fn settle(v: StoreView) -> StoreView {
    if overflows(v) {
        StoreView {
            hot: v.hot.drop_first(),
            cold: trim(v.cold.push(v.hot[0]), v.cold_budget),
            evictions: sat_inc(v.evictions),
            ..v
        }
    } else {
        v
    }
}

/// Key of the record that `settle` demotes, if any.
pub open spec fn demoted(v: StoreView) -> Option<Seq<char>> {
    if overflows(v) {
        Some(v.hot[0].tab_id@)
    } else {
        None
    }
}

pub open spec fn new_record(tab_id: String, payload: SnapshotPayload, size: usize, now_ms: u64) -> SnapshotRecord {
    SnapshotRecord {
        tab_id,
        captured_at: now_ms,
        approx_size_bytes: size,
        hits: 0,
        state: payload.state,
        meta: payload.meta,
    }
}

/// `rec` placed at the most recent end of the hot tier, any earlier record
/// under its key dropped from both tiers.
pub open spec fn with_record(v: StoreView, rec: SnapshotRecord) -> StoreView {
    StoreView {
        hot: remove_key(v.hot, rec.tab_id@).push(rec),
        cold: remove_key(v.cold, rec.tab_id@),
        ..v
    }
}

pub open spec fn capture_view(v: StoreView, rec: SnapshotRecord) -> StoreView {
    settle(with_record(v, rec))
}

/// Hot record `i` counted as hit and moved to the most recent end.
pub open spec fn touched(v: StoreView, i: int) -> StoreView {
    StoreView {
        hot: v.hot.remove(i).push(SnapshotRecord { hits: sat_inc32(v.hot[i].hits), ..v.hot[i] }),
        ..v
    }
}

/// Cold record `j` moved to the most recent end of the hot tier.
pub open spec fn promoted(v: StoreView, j: int) -> StoreView {
    StoreView { hot: v.hot.push(v.cold[j]), cold: v.cold.remove(j), ..v }
}

pub open spec fn hot_index(v: StoreView, key: Seq<char>) -> int {
    index_of(keys_of(v.hot), key)
}

pub open spec fn cold_index(v: StoreView, key: Seq<char>) -> int {
    index_of(keys_of(v.cold), key)
}

pub open spec fn restore_view(v: StoreView, key: Seq<char>) -> StoreView {
    if hot_index(v, key) >= 0 {
        touched(v, hot_index(v, key))
    } else if cold_index(v, key) >= 0 {
        settle(promoted(v, cold_index(v, key)))
    } else {
        v
    }
}

/// The record a restore of `key` hands back, with its source, if any.
pub open spec fn restored(v: StoreView, key: Seq<char>) -> Option<(SnapshotRecord, RestoreSource)> {
    if hot_index(v, key) >= 0 {
        Some((v.hot[hot_index(v, key)], RestoreSource::Hot))
    } else if cold_index(v, key) >= 0 {
        let p = promoted(v, cold_index(v, key));
        Some((
            v.cold[cold_index(v, key)],
            if overflows(p) {
                RestoreSource::ColdPromotedWithEviction
            } else {
                RestoreSource::ColdPromoted
            },
        ))
    } else {
        None
    }
}

pub open spec fn save_view(v: StoreView, rec: ContextRecord) -> StoreView {
    let i = index_of(context_keys(v.contexts), rec.key@);
    StoreView {
        contexts: if i >= 0 {
            v.contexts.update(i, rec)
        } else {
            v.contexts.push(rec)
        },
        ..v
    }
}

/// The store emptied, its bounds kept.
pub open spec fn cleared(v: StoreView) -> StoreView {
    StoreView { hot: Seq::empty(), cold: Seq::empty(), contexts: Seq::empty(), evictions: 0, ..v }
}

/// The invariants of the store, all but the hot bound.
pub open spec fn tiers_ok(v: StoreView) -> bool {
    &&& v.max_hot >= 1
    &&& v.cold_budget >= MIN_COLD_BUDGET_BYTES
    &&& unique(keys_of(v.hot))
    &&& unique(keys_of(v.cold))
    &&& forall|k: Seq<char>| keys_of(v.hot).contains(k) ==> !keys_of(v.cold).contains(k)
    &&& sum_sizes(v.cold) <= v.cold_budget
    &&& unique(context_keys(v.contexts))
}

/// The invariants of the store: each key in one tier at most, the hot tier
/// within its count, the cold tier within its byte budget.
pub open spec fn store_ok(v: StoreView) -> bool {
    tiers_ok(v) && v.hot.len() <= v.max_hot
}

// --------------------------------------------------------------- lemmas

proof fn lemma_sum_push(s: Seq<SnapshotRecord>, x: SnapshotRecord)
    ensures
        sum_sizes(s.push(x)) == sum_sizes(s) + x.approx_size_bytes,
    decreases s.len(),
{
    if s.len() > 0 {
        assert(s.push(x).drop_first() =~= s.drop_first().push(x));
        lemma_sum_push(s.drop_first(), x);
    } else {
        assert(s.push(x).drop_first() =~= Seq::<SnapshotRecord>::empty());
        assert(sum_sizes(s.push(x).drop_first()) == 0);
        assert(sum_sizes(s) == 0);
    }
}

proof fn lemma_sum_remove(s: Seq<SnapshotRecord>, j: int)
    requires
        0 <= j < s.len(),
    ensures
        sum_sizes(s.remove(j)) + s[j].approx_size_bytes == sum_sizes(s),
    decreases s.len(),
{
    if j == 0 {
        assert(s.remove(0) =~= s.drop_first());
    } else {
        assert(s.remove(j).drop_first() =~= s.drop_first().remove(j - 1));
        lemma_sum_remove(s.drop_first(), j - 1);
    }
}

/// What `trim` leaves is a suffix of its input that fits the budget.
proof fn lemma_trim(cold: Seq<SnapshotRecord>, budget: nat)
    ensures
        sum_sizes(trim(cold, budget)) <= budget || trim(cold, budget).len() == 0,
        exists|d: int| 0 <= d <= cold.len() && trim(cold, budget) == cold.subrange(d, cold.len() as int),
    decreases cold.len(),
{
    if cold.len() == 0 || sum_sizes(cold) <= budget {
        assert(cold.subrange(0, cold.len() as int) =~= cold);
    } else {
        lemma_trim(cold.drop_first(), budget);
        let d = choose|d: int|
            0 <= d <= cold.drop_first().len() && trim(cold.drop_first(), budget)
                == cold.drop_first().subrange(d, cold.drop_first().len() as int);
        assert(cold.drop_first().subrange(d, cold.drop_first().len() as int) =~= cold.subrange(
            d + 1,
            cold.len() as int,
        ));
    }
}

proof fn lemma_remove_keys(s: Seq<SnapshotRecord>, i: int)
    requires
        0 <= i < s.len(),
        unique(keys_of(s)),
    ensures
        keys_of(s.remove(i)) == keys_of(s).remove(i),
        unique(keys_of(s.remove(i))),
        !keys_of(s.remove(i)).contains(s[i].tab_id@),
        forall|k: Seq<char>| keys_of(s.remove(i)).contains(k) ==> keys_of(s).contains(k),
{
    assert(keys_of(s.remove(i)) =~= keys_of(s).remove(i));
    let ks = keys_of(s);
    assert(ks[i] == s[i].tab_id@);
    assert forall|k: Seq<char>| keys_of(s.remove(i)).contains(k) implies ks.contains(k) && k != s[i].tab_id@ by {
        let p = choose|p: int| 0 <= p < ks.remove(i).len() && ks.remove(i)[p] == k;
        if p < i {
            assert(ks[p] == k);
        } else {
            assert(ks[p + 1] == k);
        }
    }
}

proof fn lemma_push_keys(s: Seq<SnapshotRecord>, x: SnapshotRecord)
    ensures
        keys_of(s.push(x)) == keys_of(s).push(x.tab_id@),
        unique(keys_of(s)) && !keys_of(s).contains(x.tab_id@) ==> unique(keys_of(s.push(x))),
{
    assert(keys_of(s.push(x)) =~= keys_of(s).push(x.tab_id@));
    let ks = keys_of(s);
    if unique(ks) && !ks.contains(x.tab_id@) {
        assert forall|i: int, j: int|
            0 <= i < ks.push(x.tab_id@).len() && 0 <= j < ks.push(x.tab_id@).len() && ks.push(
                x.tab_id@,
            )[i] == ks.push(x.tab_id@)[j] implies i == j by {
            if i < ks.len() && j == ks.len() {
                assert(ks.contains(x.tab_id@));
            }
            if j < ks.len() && i == ks.len() {
                assert(ks.contains(x.tab_id@));
            }
        }
    }
}

proof fn lemma_suffix_keys(s: Seq<SnapshotRecord>, d: int)
    requires
        0 <= d <= s.len(),
        unique(keys_of(s)),
    ensures
        unique(keys_of(s.subrange(d, s.len() as int))),
        forall|k: Seq<char>| keys_of(s.subrange(d, s.len() as int)).contains(k) ==> keys_of(s).contains(k),
{
    let t = s.subrange(d, s.len() as int);
    assert(keys_of(t) =~= keys_of(s).subrange(d, s.len() as int));
    assert forall|k: Seq<char>| keys_of(t).contains(k) implies keys_of(s).contains(k) by {
        let p = choose|p: int| 0 <= p < keys_of(t).len() && keys_of(t)[p] == k;
        assert(keys_of(s)[p + d] == k);
    }
}

// ---------------------------------------------------------------- store

/// The snapshot store.
pub struct RedixRuntime {
    max_hot_entries: usize,
    cold_budget_bytes: usize,
    hot: Vec<SnapshotRecord>,
    cold: Vec<SnapshotRecord>,
    cold_bytes: usize,
    contexts: Vec<ContextRecord>,
    eviction_count: u64,
}

impl View for RedixRuntime {
    type V = StoreView;

    closed spec fn view(&self) -> StoreView {
        StoreView {
            max_hot: self.max_hot_entries as nat,
            cold_budget: self.cold_budget_bytes as nat,
            hot: self.hot@,
            cold: self.cold@,
            contexts: self.contexts@,
            evictions: self.eviction_count,
        }
    }
}

fn find_record(v: &Vec<SnapshotRecord>, key: &String) -> (r: Option<usize>)
    requires
        unique(keys_of(v@)),
    ensures
        match r {
            Some(i) => i < v@.len() && index_of(keys_of(v@), key@) == i as int,
            None => index_of(keys_of(v@), key@) == -1,
        },
{
    let mut i: usize = 0;
    while i < v.len()
        invariant
            i <= v@.len(),
            forall|j: int| 0 <= j < i ==> v@[j].tab_id@ != key@,
            unique(keys_of(v@)),
        decreases v@.len() - i,
    {
        if v[i].tab_id == *key {
            proof {
                lemma_index_of(keys_of(v@), key@, i as int);
            }
            return Some(i);
        }
        i += 1;
    }
    assert(!keys_of(v@).contains(key@)) by {
        if keys_of(v@).contains(key@) {
            let j = choose|j: int| 0 <= j < keys_of(v@).len() && keys_of(v@)[j] == key@;
            assert(v@[j].tab_id@ == key@);
        }
    }
    None
}

fn find_context(v: &Vec<ContextRecord>, key: &String) -> (r: Option<usize>)
    requires
        unique(context_keys(v@)),
    ensures
        match r {
            Some(i) => i < v@.len() && index_of(context_keys(v@), key@) == i as int,
            None => index_of(context_keys(v@), key@) == -1,
        },
{
    let mut i: usize = 0;
    while i < v.len()
        invariant
            i <= v@.len(),
            forall|j: int| 0 <= j < i ==> v@[j].key@ != key@,
            unique(context_keys(v@)),
        decreases v@.len() - i,
    {
        if v[i].key == *key {
            proof {
                lemma_index_of(context_keys(v@), key@, i as int);
            }
            return Some(i);
        }
        i += 1;
    }
    assert(!context_keys(v@).contains(key@)) by {
        if context_keys(v@).contains(key@) {
            let j = choose|j: int| 0 <= j < context_keys(v@).len() && context_keys(v@)[j] == key@;
            assert(v@[j].key@ == key@);
        }
    }
    None
}

impl RedixRuntime {
    /// The store's invariants, and the running byte total of the cold tier.
    pub closed spec fn wf(&self) -> bool {
        store_ok(self@) && self.cold_bytes as nat == sum_sizes(self.cold@)
    }

    closed spec fn wf_unsettled(&self) -> bool {
        tiers_ok(self@) && self@.hot.len() <= self@.max_hot + 1 && self.cold_bytes as nat == sum_sizes(
            self.cold@,
        )
    }

    /// An empty store; a hot bound below 1 counts as 1 and a cold budget
    /// below 1,000,000 bytes counts as 1,000,000.
    pub fn new(max_hot_entries: usize, cold_budget_bytes: usize) -> (r: Self)
        ensures
            r.wf(),
            r@.max_hot == if max_hot_entries < 1 { 1 } else { max_hot_entries as nat },
            r@.cold_budget == if cold_budget_bytes < MIN_COLD_BUDGET_BYTES {
                MIN_COLD_BUDGET_BYTES as nat
            } else {
                cold_budget_bytes as nat
            },
            r@.hot.len() == 0,
            r@.cold.len() == 0,
            r@.contexts.len() == 0,
            r@.evictions == 0,
    {
        let hot_cap = if max_hot_entries < 1 { 1 } else { max_hot_entries };
        let cold_cap = if cold_budget_bytes < MIN_COLD_BUDGET_BYTES {
            MIN_COLD_BUDGET_BYTES
        } else {
            cold_budget_bytes
        };
        let r = RedixRuntime {
            max_hot_entries: hot_cap,
            cold_budget_bytes: cold_cap,
            hot: Vec::new(),
            cold: Vec::new(),
            cold_bytes: 0,
            contexts: Vec::new(),
            eviction_count: 0,
        };
        proof {
            assert(keys_of(r.hot@) =~= Seq::<Seq<char>>::empty());
            assert(keys_of(r.cold@) =~= Seq::<Seq<char>>::empty());
            assert(context_keys(r.contexts@) =~= Seq::<Seq<char>>::empty());
        }
        r
    }

    /// Drops cold records from the oldest end until the total fits the
    /// budget; `total` is the cold tier's exact byte total on entry.
    fn trim_cold_budget(&mut self, total: u128)
        requires
            total == sum_sizes(old(self).cold@),
        ensures
            final(self).cold@ == trim(old(self).cold@, old(self)@.cold_budget),
            final(self).cold_bytes as nat == sum_sizes(final(self).cold@),
            final(self).hot == old(self).hot,
            final(self).contexts == old(self).contexts,
            final(self).max_hot_entries == old(self).max_hot_entries,
            final(self).cold_budget_bytes == old(self).cold_budget_bytes,
            final(self).eviction_count == old(self).eviction_count,
    {
        let mut total = total;
        while total > self.cold_budget_bytes as u128 && self.cold.len() > 0
            invariant
                total == sum_sizes(self.cold@),
                trim(self.cold@, self@.cold_budget) == trim(old(self).cold@, old(self)@.cold_budget),
                self.hot == old(self).hot,
                self.contexts == old(self).contexts,
                self.max_hot_entries == old(self).max_hot_entries,
                self.cold_budget_bytes == old(self).cold_budget_bytes,
                self.eviction_count == old(self).eviction_count,
            decreases self.cold@.len(),
        {
            let ghost before = self.cold@;
            let entry = self.cold.remove(0);
            proof {
                assert(before.remove(0) =~= before.drop_first());
            }
            total = total - entry.approx_size_bytes as u128;
        }
        proof {
            lemma_trim(self.cold@, self@.cold_budget);
        }
        self.cold_bytes = total as usize;
    }

    /// Demotes the least recent hot record where the hot tier is over its
    /// bound, then trims the cold tier; returns the demoted key.
    fn settle(&mut self) -> (r: Option<String>)
        requires
            old(self).wf_unsettled(),
        ensures
            final(self).wf(),
            final(self)@ == settle(old(self)@),
            match r {
                Some(k) => demoted(old(self)@) == Some(k@),
                None => demoted(old(self)@).is_none(),
            },
    {
        if self.hot.len() <= self.max_hot_entries {
            return None;
        }
        let ghost v = self@;
        let oldest = self.hot.remove(0);
        let oldest_id = oldest.tab_id.clone();
        let total: u128 = self.cold_bytes as u128 + oldest.approx_size_bytes as u128;
        proof {
            assert(v.hot.remove(0) =~= v.hot.drop_first());
            lemma_remove_keys(v.hot, 0);
            lemma_sum_push(v.cold, v.hot[0]);
            assert(keys_of(v.hot)[0] == v.hot[0].tab_id@);
            assert(!keys_of(v.cold).contains(v.hot[0].tab_id@));
            lemma_push_keys(v.cold, v.hot[0]);
        }
        self.cold.push(oldest);
        if self.eviction_count < u64::MAX {
            self.eviction_count = self.eviction_count + 1;
        }
        let ghost pushed = self.cold@;
        self.trim_cold_budget(total);
        proof {
            lemma_trim(pushed, v.cold_budget);
            let d = choose|d: int| 0 <= d <= pushed.len() && trim(pushed, v.cold_budget) == pushed.subrange(d, pushed.len() as int);
            lemma_suffix_keys(pushed, d);
            let w = self@;
            assert forall|k: Seq<char>| keys_of(w.hot).contains(k) implies !keys_of(w.cold).contains(k) by {
                if keys_of(w.cold).contains(k) {
                    assert(keys_of(pushed).contains(k));
                    assert(keys_of(v.hot).contains(k));
                    if k == v.hot[0].tab_id@ {
                        assert(!keys_of(v.hot.remove(0)).contains(v.hot[0].tab_id@));
                    } else {
                        let p = choose|p: int| 0 <= p < keys_of(pushed).len() && keys_of(pushed)[p] == k;
                        assert(p < v.cold.len());
                        assert(keys_of(v.cold)[p] == k);
                    }
                }
            }
            assert(self@ =~= settle(v));
        }
        Some(oldest_id)
    }
    /// Captures `payload` under `tab_id` with the given serialised size: the
    /// record goes to the most recent end of the hot tier, replacing any
    /// record under that key in either tier, and a hot overflow is resolved.
    pub fn snapshot_tab_sized(&mut self, tab_id: String, payload: SnapshotPayload, size: usize, now_ms: u64) -> (r: SnapshotResult)
        requires
            old(self).wf(),
        ensures
            final(self).wf(),
            final(self)@ == capture_view(old(self)@, new_record(tab_id, payload, size, now_ms)),
            r.tab_id == tab_id,
            r.stored_in@ == "hot"@,
            match r.evicted {
                Some(k) => demoted(with_record(old(self)@, new_record(tab_id, payload, size, now_ms))) == Some(k@),
                None => demoted(with_record(old(self)@, new_record(tab_id, payload, size, now_ms))).is_none(),
            },
            r.hot_entries == final(self)@.hot.len(),
            r.cold_entries == final(self)@.cold.len(),
            r.cold_bytes == sum_sizes(final(self)@.cold),
    {
        let ghost v = self@;
        let ghost rec = new_record(tab_id, payload, size, now_ms);
        let record = SnapshotRecord {
            tab_id: tab_id.clone(),
            captured_at: now_ms,
            approx_size_bytes: size,
            hits: 0,
            state: payload.state,
            meta: payload.meta,
        };
        assert(record == rec);
        let k = Ghost(tab_id@);
        if let Some(i) = find_record(&self.hot, &tab_id) {
            proof {
                lemma_remove_keys(v.hot, i as int);
                assert(keys_of(v.hot)[i as int] == k@);
            }
            self.hot.remove(i);
        } else {
            proof {
                assert(!keys_of(v.hot).contains(k@));
            }
        }
        assert(self.hot@ == remove_key(v.hot, k@));
        assert(!keys_of(self.hot@).contains(k@));
        if let Some(j) = find_record(&self.cold, &tab_id) {
            proof {
                lemma_remove_keys(v.cold, j as int);
                lemma_sum_remove(v.cold, j as int);
            }
            let gone = self.cold.remove(j);
            self.cold_bytes = self.cold_bytes - gone.approx_size_bytes;
        }
        assert(self.cold@ == remove_key(v.cold, k@));
        let ghost h1 = self.hot@;
        proof {
            lemma_push_keys(h1, rec);
            let w = with_record(v, rec);
            assert forall|q: Seq<char>| keys_of(w.hot).contains(q) implies !keys_of(w.cold).contains(q) by {
                if q != k@ {
                    let p = choose|p: int| 0 <= p < keys_of(w.hot).len() && keys_of(w.hot)[p] == q;
                    assert(keys_of(h1)[p] == q);
                    assert(keys_of(h1).contains(q));
                    assert(keys_of(v.hot).contains(q));
                }
            }
        }
        self.hot.push(record);
        assert(self@ == with_record(v, rec));
        let evicted = self.settle();
        SnapshotResult {
            tab_id,
            stored_in: String::from_str("hot"),
            evicted,
            hot_entries: self.hot.len(),
            cold_entries: self.cold.len(),
            cold_bytes: self.cold_bytes,
        }
    }

    /// Captures `payload` under `tab_id`, sized as the byte length of the
    /// JSON text of its state.
    pub fn snapshot_tab(&mut self, tab_id: String, payload: SnapshotPayload, now_ms: u64) -> (r: SnapshotResult)
        requires
            old(self).wf(),
        ensures
            final(self).wf(),
            exists|size: usize|
                final(self)@ == capture_view(old(self)@, #[trigger] new_record(tab_id, payload, size, now_ms))
                && match r.evicted {
                    Some(k) => demoted(with_record(old(self)@, new_record(tab_id, payload, size, now_ms))) == Some(k@),
                    None => demoted(with_record(old(self)@, new_record(tab_id, payload, size, now_ms))).is_none(),
                },
            r.tab_id == tab_id,
            r.stored_in@ == "hot"@,
            r.hot_entries == final(self)@.hot.len(),
            r.cold_entries == final(self)@.cold.len(),
            r.cold_bytes == sum_sizes(final(self)@.cold),
    {
        let size = approximate_size(&payload.state);
        self.snapshot_tab_sized(tab_id, payload, size, now_ms)
    }

    /// Restores the state captured under `tab_id`: a hot record counts a hit
    /// and becomes the most recent; a cold one is promoted back to the hot
    /// tier, which may demote another. `None` where the key is unknown.
    pub fn restore_tab(&mut self, tab_id: String) -> (r: Option<RestoreResult>)
        requires
            old(self).wf(),
        ensures
            final(self).wf(),
            final(self)@ == restore_view(old(self)@, tab_id@),
            match restored(old(self)@, tab_id@) {
                Some((rec, source)) => r == Some(
                    (RestoreResult { tab_id, state: rec.state, meta: rec.meta, source }),
                ),
                None => r.is_none(),
            },
    {
        let ghost v = self@;
        let k = Ghost(tab_id@);
        if let Some(i) = find_record(&self.hot, &tab_id) {
            proof {
                lemma_remove_keys(v.hot, i as int);
                assert(keys_of(v.hot)[i as int] == k@);
            }
            let mut record = self.hot.remove(i);
            if record.hits < u32::MAX {
                record.hits = record.hits + 1;
            }
            let state = record.state.clone();
            let meta = clone_meta(&record.meta);
            proof {
                lemma_push_keys(self.hot@, record);
                let w = touched(v, i as int);
                assert forall|q: Seq<char>| keys_of(w.hot).contains(q) implies !keys_of(w.cold).contains(q) by {
                    let p = choose|p: int| 0 <= p < keys_of(w.hot).len() && keys_of(w.hot)[p] == q;
                    if p < w.hot.len() - 1 {
                        assert(keys_of(self.hot@)[p] == q);
                        assert(keys_of(self.hot@).contains(q));
                    } else {
                        assert(keys_of(v.hot)[i as int] == q);
                    }
                    assert(keys_of(v.hot).contains(q));
                }
            }
            self.hot.push(record);
            assert(self@ == touched(v, i as int));
            return Some(RestoreResult { tab_id, state, meta, source: RestoreSource::Hot });
        }
        if let Some(j) = find_record(&self.cold, &tab_id) {
            proof {
                lemma_remove_keys(v.cold, j as int);
                lemma_sum_remove(v.cold, j as int);
                assert(keys_of(v.cold)[j as int] == k@);
                assert(!keys_of(v.hot).contains(k@));
                lemma_push_keys(v.hot, v.cold[j as int]);
            }
            let record = self.cold.remove(j);
            self.cold_bytes = self.cold_bytes - record.approx_size_bytes;
            let state = record.state.clone();
            let meta = clone_meta(&record.meta);
            self.hot.push(record);
            proof {
                let w = promoted(v, j as int);
                assert(self@ == w);
                assert forall|q: Seq<char>| keys_of(w.hot).contains(q) implies !keys_of(w.cold).contains(q) by {
                    if q != k@ {
                        let p = choose|p: int| 0 <= p < keys_of(w.hot).len() && keys_of(w.hot)[p] == q;
                        assert(keys_of(v.hot)[p] == q);
                        assert(keys_of(v.hot).contains(q));
                    }
                }
            }
            let evicted = self.settle();
            let source = if evicted.is_some() {
                RestoreSource::ColdPromotedWithEviction
            } else {
                RestoreSource::ColdPromoted
            };
            return Some(RestoreResult { tab_id, state, meta, source });
        }
        None
    }

    /// Saves `value` under `key`, overwriting any earlier value.
    pub fn save_context(&mut self, key: String, value: Value, now_ms: u64)
        requires
            old(self).wf(),
        ensures
            final(self).wf(),
            final(self)@ == save_view(old(self)@, ContextRecord { key, updated_at: now_ms, value }),
    {
        let ghost v = self@;
        let ghost rec = ContextRecord { key, updated_at: now_ms, value };
        let found = find_context(&self.contexts, &key);
        let record = ContextRecord { key, updated_at: now_ms, value };
        match found {
            Some(i) => {
                self.contexts.set(i, record);
                proof {
                    assert(context_keys(self.contexts@) =~= context_keys(v.contexts));
                }
            },
            None => {
                self.contexts.push(record);
                proof {
                    let ks = context_keys(v.contexts);
                    assert(context_keys(self.contexts@) =~= ks.push(rec.key@));
                    assert forall|i: int, j: int|
                        0 <= i < ks.push(rec.key@).len() && 0 <= j < ks.push(rec.key@).len()
                            && ks.push(rec.key@)[i] == ks.push(rec.key@)[j] implies i == j by {
                        if i < ks.len() && j == ks.len() {
                            assert(ks.contains(rec.key@));
                        }
                        if j < ks.len() && i == ks.len() {
                            assert(ks.contains(rec.key@));
                        }
                    }
                }
            },
        }
        assert(self@ =~= save_view(v, rec));
    }

    /// The record saved under `key`, if any.
    pub fn fetch_context(&self, key: &String) -> (r: Option<ContextRecord>)
        requires
            self.wf(),
        ensures
            index_of(context_keys(self@.contexts), key@) >= 0 ==> r == Some(
                self@.contexts[index_of(context_keys(self@.contexts), key@)],
            ),
            index_of(context_keys(self@.contexts), key@) < 0 ==> r.is_none(),
    {
        match find_context(&self.contexts, key) {
            Some(i) => Some(self.contexts[i].clone()),
            None => None,
        }
    }

    pub fn stats(&self) -> (r: RuntimeStats)
        requires
            self.wf(),
        ensures
            r.hot_entries == self@.hot.len(),
            r.cold_entries == self@.cold.len(),
            r.cold_bytes == sum_sizes(self@.cold),
            r.max_hot_entries == self@.max_hot,
            r.cold_budget_bytes == self@.cold_budget,
            r.eviction_count == self@.evictions,
    {
        RuntimeStats {
            hot_entries: self.hot.len(),
            cold_entries: self.cold.len(),
            cold_bytes: self.cold_bytes,
            max_hot_entries: self.max_hot_entries,
            cold_budget_bytes: self.cold_budget_bytes,
            eviction_count: self.eviction_count,
        }
    }

    /// Empties both tiers and the context map and resets the eviction
    /// count; the bounds stay.
    pub fn clear(&mut self)
        requires
            old(self).wf(),
        ensures
            final(self).wf(),
            final(self)@ == cleared(old(self)@),
    {
        self.hot.clear();
        self.cold.clear();
        self.cold_bytes = 0;
        self.contexts.clear();
        self.eviction_count = 0;
        proof {
            assert(keys_of(self.hot@) =~= Seq::<Seq<char>>::empty());
            assert(keys_of(self.cold@) =~= Seq::<Seq<char>>::empty());
            assert(context_keys(self.contexts@) =~= Seq::<Seq<char>>::empty());
            assert(self@ =~= cleared(old(self)@));
        }
    }
}

// ----------------------------------------------------------------- laws

/// Every key held by the store is in exactly one tier.
pub proof fn lemma_one_tier(v: StoreView, k: Seq<char>)
    requires
        store_ok(v),
        keys_of(v.hot).contains(k) || keys_of(v.cold).contains(k),
    ensures
        keys_of(v.hot).contains(k) != keys_of(v.cold).contains(k),
{
}

/// The hot tier holds at most `max_hot` records and the cold tier's bytes
/// stay within the budget.
pub proof fn lemma_bounds(v: StoreView)
    requires
        store_ok(v),
    ensures
        v.hot.len() <= v.max_hot,
        sum_sizes(v.cold) <= v.cold_budget,
{
}

/// The LRU list (the hot keys in recency order) has one entry per hot
/// record, and its entries are exactly the hot keys.
pub proof fn lemma_lru_matches_hot(v: StoreView)
    requires
        store_ok(v),
    ensures
        keys_of(v.hot).len() == v.hot.len(),
        keys_of(v.hot).to_set() == Set::new(|k: Seq<char>| exists|i: int| 0 <= i < v.hot.len() && v.hot[i].tab_id@ == k),
{
    assert forall|k: Seq<char>| keys_of(v.hot).to_set().contains(k) <==> (exists|i: int| 0 <= i < v.hot.len() && v.hot[i].tab_id@ == k) by {
        if keys_of(v.hot).contains(k) {
            let i = choose|i: int| 0 <= i < keys_of(v.hot).len() && keys_of(v.hot)[i] == k;
            assert(v.hot[i].tab_id@ == k);
        }
        if exists|i: int| 0 <= i < v.hot.len() && v.hot[i].tab_id@ == k {
            let i = choose|i: int| 0 <= i < v.hot.len() && v.hot[i].tab_id@ == k;
            assert(keys_of(v.hot)[i] == k);
        }
    }
    assert(keys_of(v.hot).to_set() =~= Set::new(|k: Seq<char>| exists|i: int| 0 <= i < v.hot.len() && v.hot[i].tab_id@ == k));
}

proof fn lemma_settle_keeps_last(v: StoreView)
    requires
        v.hot.len() >= 1,
        v.max_hot >= 1,
        v.hot.len() <= v.max_hot + 1,
    ensures
        settle(v).hot.len() >= 1,
        settle(v).hot.last() == v.hot.last(),
        keys_of(settle(v).hot).len() == settle(v).hot.len(),
{
}

/// A restore never lowers the hit count of the record it hands back: a hot
/// hit raises it by one (saturating), a promotion keeps it, and the record
/// ends up the most recent hot one.
pub proof fn lemma_restore_hits(v: StoreView, k: Seq<char>)
    requires
        store_ok(v),
        restored(v, k).is_some(),
    ensures
        restore_view(v, k).hot.len() >= 1,
        restore_view(v, k).hot.last().tab_id == restored(v, k).unwrap().0.tab_id,
        restore_view(v, k).hot.last().hits >= restored(v, k).unwrap().0.hits,
        hot_index(v, k) >= 0 ==> restore_view(v, k).hot.last().hits == sat_inc32(restored(v, k).unwrap().0.hits),
        hot_index(v, k) < 0 ==> restore_view(v, k).hot.last() == restored(v, k).unwrap().0,
{
    if hot_index(v, k) < 0 {
        lemma_settle_keeps_last(promoted(v, cold_index(v, k)));
    }
}

/// The eviction count moves only on a demotion, by exactly one (saturating
/// at the top of `u64`), and never goes down.
pub proof fn lemma_eviction_count(v: StoreView)
    ensures
        settle(v).evictions == if demoted(v).is_some() {
            sat_inc(v.evictions)
        } else {
            v.evictions
        },
        settle(v).evictions >= v.evictions,
        v.evictions < u64::MAX && demoted(v).is_some() ==> settle(v).evictions == v.evictions + 1,
{
}

/// Restoring right after a capture hands back the captured record from the
/// hot tier.
pub proof fn lemma_capture_then_restore(v: StoreView, rec: SnapshotRecord)
    requires
        store_ok(v),
    ensures
        restored(capture_view(v, rec), rec.tab_id@) == Some((rec, RestoreSource::Hot)),
{
    let k = rec.tab_id@;
    let w = with_record(v, rec);
    let h1 = remove_key(v.hot, k);
    if hot_index(v, k) >= 0 {
        lemma_remove_keys(v.hot, hot_index(v, k));
        assert(keys_of(v.hot)[hot_index(v, k)] == k);
    }
    assert(!keys_of(h1).contains(k));
    lemma_push_keys(h1, rec);
    assert(unique(keys_of(w.hot)));
    lemma_settle_keeps_last(w);
    let c = capture_view(v, rec);
    let n = c.hot.len() - 1;
    if overflows(w) {
        assert(c.hot == w.hot.drop_first());
        assert(keys_of(c.hot) =~= keys_of(w.hot).drop_first());
    }
    assert(unique(keys_of(c.hot)));
    assert(keys_of(c.hot)[n] == k);
    lemma_index_of(keys_of(c.hot), k, n);
}

/// After `clear` every counter reads zero and the bounds are kept.
pub proof fn lemma_clear_zeroes(v: StoreView)
    ensures
        cleared(v).hot.len() == 0,
        cleared(v).cold.len() == 0,
        sum_sizes(cleared(v).cold) == 0,
        cleared(v).evictions == 0,
        cleared(v).max_hot == v.max_hot,
        cleared(v).cold_budget == v.cold_budget,
{
}

proof fn lemma_sum_at_least(s: Seq<SnapshotRecord>, i: int)
    requires
        0 <= i < s.len(),
    ensures
        sum_sizes(s) >= s[i].approx_size_bytes,
    decreases s.len(),
{
    if i > 0 {
        lemma_sum_at_least(s.drop_first(), i - 1);
    }
}

/// A demoted record larger than the whole cold budget is dropped at once by
/// the trim, and the trim ends with an empty cold tier.
pub proof fn lemma_oversized_dropped(v: StoreView)
    requires
        overflows(v),
        v.hot[0].approx_size_bytes > v.cold_budget,
    ensures
        settle(v).cold.len() == 0,
{
    let pushed = v.cold.push(v.hot[0]);
    lemma_trim(pushed, v.cold_budget);
    let d = choose|d: int| 0 <= d <= pushed.len() && trim(pushed, v.cold_budget) == pushed.subrange(d, pushed.len() as int);
    let t = trim(pushed, v.cold_budget);
    if t.len() > 0 {
        lemma_sum_at_least(t, t.len() - 1);
        assert(t[t.len() - 1] == v.hot[0]);
    }
}

/// Restoring a key that neither tier holds returns nothing and changes
/// nothing.
pub proof fn lemma_restore_unknown(v: StoreView, k: Seq<char>)
    requires
        !keys_of(v.hot).contains(k),
        !keys_of(v.cold).contains(k),
    ensures
        restored(v, k).is_none(),
        restore_view(v, k) == v,
{
}

/// `r` is a record of either tier of `v`.
pub open spec fn holds(v: StoreView, r: SnapshotRecord) -> bool {
    v.hot.contains(r) || v.cold.contains(r)
}

proof fn lemma_contains_remove(s: Seq<SnapshotRecord>, i: int, r: SnapshotRecord)
    requires
        0 <= i < s.len(),
        s.remove(i).contains(r),
    ensures
        s.contains(r),
{
    let p = choose|p: int| 0 <= p < s.remove(i).len() && s.remove(i)[p] == r;
    if p < i {
        assert(s[p] == r);
    } else {
        assert(s[p + 1] == r);
    }
}

proof fn lemma_contains_push(s: Seq<SnapshotRecord>, x: SnapshotRecord, r: SnapshotRecord)
    requires
        s.push(x).contains(r),
    ensures
        s.contains(r) || r == x,
{
    let p = choose|p: int| 0 <= p < s.push(x).len() && s.push(x)[p] == r;
    if p < s.len() {
        assert(s[p] == r);
    }
}

proof fn lemma_contains_suffix(s: Seq<SnapshotRecord>, d: int, r: SnapshotRecord)
    requires
        0 <= d <= s.len(),
        s.subrange(d, s.len() as int).contains(r),
    ensures
        s.contains(r),
{
    let p = choose|p: int| 0 <= p < s.subrange(d, s.len() as int).len() && s.subrange(d, s.len() as int)[p] == r;
    assert(s[p + d] == r);
}

proof fn lemma_contains_remove_key(s: Seq<SnapshotRecord>, k: Seq<char>, r: SnapshotRecord)
    requires
        remove_key(s, k).contains(r),
    ensures
        s.contains(r),
{
    let i = index_of(keys_of(s), k);
    if i >= 0 {
        assert(keys_of(s).contains(k));
        lemma_contains_remove(s, i, r);
    }
}

proof fn lemma_settle_keeps_records(v: StoreView, r: SnapshotRecord)
    requires
        holds(settle(v), r),
    ensures
        holds(v, r),
{
    if overflows(v) {
        if settle(v).hot.contains(r) {
            let p = choose|p: int| 0 <= p < settle(v).hot.len() && settle(v).hot[p] == r;
            assert(v.hot[p + 1] == r);
        } else {
            let pushed = v.cold.push(v.hot[0]);
            lemma_trim(pushed, v.cold_budget);
            let d = choose|d: int| 0 <= d <= pushed.len() && trim(pushed, v.cold_budget) == pushed.subrange(d, pushed.len() as int);
            lemma_contains_suffix(pushed, d, r);
            lemma_contains_push(v.cold, v.hot[0], r);
            if r == v.hot[0] {
                assert(v.hot.contains(r));
            }
        }
    }
}

/// A capture alters no record: what the store holds afterwards is the
/// captured record or a record it held before, hit count included.
pub proof fn lemma_capture_keeps_records(v: StoreView, rec: SnapshotRecord, r: SnapshotRecord)
    requires
        holds(capture_view(v, rec), r),
    ensures
        r == rec || holds(v, r),
{
    let w = with_record(v, rec);
    lemma_settle_keeps_records(w, r);
    if w.hot.contains(r) {
        lemma_contains_push(remove_key(v.hot, rec.tab_id@), rec, r);
        if r != rec {
            lemma_contains_remove_key(v.hot, rec.tab_id@, r);
        }
    } else {
        lemma_contains_remove_key(v.cold, rec.tab_id@, r);
    }
}

/// A restore alters one record at most: what the store holds afterwards is
/// a record it held before, or the restored hot record with its hit count
/// raised by one (saturating). So no hit count ever goes down.
pub proof fn lemma_restore_keeps_records(v: StoreView, k: Seq<char>, r: SnapshotRecord)
    requires
        holds(restore_view(v, k), r),
    ensures
        holds(v, r) || (hot_index(v, k) >= 0 && r == (SnapshotRecord {
            hits: sat_inc32(v.hot[hot_index(v, k)].hits),
            ..v.hot[hot_index(v, k)]
        }) && r.hits >= v.hot[hot_index(v, k)].hits),
{
    let i = hot_index(v, k);
    let j = cold_index(v, k);
    if i >= 0 {
        assert(keys_of(v.hot).contains(k));
        let t = SnapshotRecord { hits: sat_inc32(v.hot[i].hits), ..v.hot[i] };
        if restore_view(v, k).hot.contains(r) {
            lemma_contains_push(v.hot.remove(i), t, r);
            if r != t {
                lemma_contains_remove(v.hot, i, r);
            }
        }
    } else if j >= 0 {
        assert(keys_of(v.cold).contains(k));
        let p = promoted(v, j);
        lemma_settle_keeps_records(p, r);
        if p.hot.contains(r) {
            lemma_contains_push(v.hot, v.cold[j], r);
            if r == v.cold[j] {
                assert(v.cold.contains(r));
            }
        } else {
            lemma_contains_remove(v.cold, j, r);
        }
    }
}

/// A capture counts one eviction exactly when it demotes a record, and a
/// restore exactly when its promotion demotes one (its source then says
/// so); nothing else moves the count.
pub proof fn lemma_evictions_per_demotion(v: StoreView, rec: SnapshotRecord, k: Seq<char>)
    ensures
        capture_view(v, rec).evictions == if demoted(with_record(v, rec)).is_some() {
            sat_inc(v.evictions)
        } else {
            v.evictions
        },
        restored(v, k).is_some() && restored(v, k).unwrap().1 == RestoreSource::ColdPromotedWithEviction
            ==> restore_view(v, k).evictions == sat_inc(v.evictions),
        !(restored(v, k).is_some() && restored(v, k).unwrap().1 == RestoreSource::ColdPromotedWithEviction)
            ==> restore_view(v, k).evictions == v.evictions,
{
}

} // verus!
