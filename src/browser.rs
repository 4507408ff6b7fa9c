//! Tab bookkeeping: the set of open tabs, which one is active, and the
//! per-tab flags the shell toggles.

use vstd::prelude::*;
use vstd::string::StringExecFns;
use crate::clock::{new_uuid_text, unix_now_secs};
use crate::keyed::{unique, index_of, lemma_index_of, lemma_push_unique};
use crate::state::{AppMode, PrivacyMode};

verus! {

/// An open tab.
#[derive(Debug)]
pub struct Tab {
    pub id: String,
    pub url: String,
    pub title: String,
    pub favicon: Option<String>,
    pub created_at: i64,
    pub last_active_at: i64,
    pub is_active: bool,
    pub is_pinned: bool,
    pub is_sleeping: bool,
    pub privacy_mode: String,
    pub app_mode: String,
    pub crash_count: u32,
}

fn clone_opt_string(s: &Option<String>) -> (r: Option<String>)
    ensures
        r == *s,
{
    match s {
        Some(v) => Some(v.clone()),
        None => None,
    }
}

impl Clone for Tab {
    fn clone(&self) -> (r: Self)
        ensures
            r == *self,
    {
        Tab {
            id: self.id.clone(),
            url: self.url.clone(),
            title: self.title.clone(),
            favicon: clone_opt_string(&self.favicon),
            created_at: self.created_at,
            last_active_at: self.last_active_at,
            is_active: self.is_active,
            is_pinned: self.is_pinned,
            is_sleeping: self.is_sleeping,
            privacy_mode: self.privacy_mode.clone(),
            app_mode: self.app_mode.clone(),
            crash_count: self.crash_count,
        }
    }
}

/// The changes `update_tab` applies; `None` leaves a field as it is.
#[derive(Debug)]
pub struct TabUpdate {
    pub url: Option<String>,
    pub title: Option<String>,
    pub favicon: Option<String>,
    pub is_pinned: Option<bool>,
    pub is_sleeping: Option<bool>,
    pub privacy_mode: Option<PrivacyMode>,
}

impl TabUpdate {
    pub fn new() -> (r: Self)
        ensures
            r == (TabUpdate {
                url: None,
                title: None,
                favicon: None,
                is_pinned: None,
                is_sleeping: None,
                privacy_mode: None,
            }),
    {
        TabUpdate { url: None, title: None, favicon: None, is_pinned: None, is_sleeping: None, privacy_mode: None }
    }

    pub fn with_url(self, url: String) -> (r: Self)
        ensures
            r == (TabUpdate { url: Some(url), ..self }),
    {
        TabUpdate { url: Some(url), ..self }
    }

    pub fn with_title(self, title: String) -> (r: Self)
        ensures
            r == (TabUpdate { title: Some(title), ..self }),
    {
        TabUpdate { title: Some(title), ..self }
    }

    pub fn with_favicon(self, favicon: String) -> (r: Self)
        ensures
            r == (TabUpdate { favicon: Some(favicon), ..self }),
    {
        TabUpdate { favicon: Some(favicon), ..self }
    }

    pub fn with_pinned(self, pinned: bool) -> (r: Self)
        ensures
            r == (TabUpdate { is_pinned: Some(pinned), ..self }),
    {
        TabUpdate { is_pinned: Some(pinned), ..self }
    }

    pub fn with_sleeping(self, sleeping: bool) -> (r: Self)
        ensures
            r == (TabUpdate { is_sleeping: Some(sleeping), ..self }),
    {
        TabUpdate { is_sleeping: Some(sleeping), ..self }
    }

    pub fn with_privacy_mode(self, mode: PrivacyMode) -> (r: Self)
        ensures
            r == (TabUpdate { privacy_mode: Some(mode), ..self }),
    {
        TabUpdate { privacy_mode: Some(mode), ..self }
    }
}

/// The tag a tab carries for its privacy mode.
pub open spec fn privacy_tag(m: PrivacyMode) -> Seq<char> {
    match m {
        PrivacyMode::Normal => "normal"@,
        PrivacyMode::Private => "private"@,
        PrivacyMode::GhostMode => "ghost"@,
    }
}

/// The tag a tab carries for its application mode.
pub open spec fn app_mode_tag(m: AppMode) -> Seq<char> {
    match m {
        AppMode::Browse => "Browse"@,
        AppMode::Research => "Research"@,
        AppMode::Trade => "Trade"@,
        AppMode::Games => "Games"@,
        AppMode::Docs => "Docs"@,
        AppMode::Images => "Images"@,
        AppMode::Threats => "Threats"@,
        AppMode::GraphMind => "GraphMind"@,
    }
}

fn privacy_tag_str(m: PrivacyMode) -> (r: &'static str)
    ensures
        r@ == privacy_tag(m),
{
    match m {
        PrivacyMode::Normal => "normal",
        PrivacyMode::Private => "private",
        PrivacyMode::GhostMode => "ghost",
    }
}

fn app_mode_tag_str(m: AppMode) -> (r: &'static str)
    ensures
        r@ == app_mode_tag(m),
{
    match m {
        AppMode::Browse => "Browse",
        AppMode::Research => "Research",
        AppMode::Trade => "Trade",
        AppMode::Games => "Games",
        AppMode::Docs => "Docs",
        AppMode::Images => "Images",
        AppMode::Threats => "Threats",
        AppMode::GraphMind => "GraphMind",
    }
}

/// The error text for an unknown tab.
pub open spec fn not_found_msg(id: Seq<char>) -> Seq<char> {
    "Tab "@ + id + " not found"@
}

fn not_found(id: &str) -> (r: String)
    ensures
        r@ == not_found_msg(id@),
{
    let mut s = String::from_str("Tab ");
    s.append(id);
    s.append(" not found");
    s
}

pub open spec fn tab_ids(s: Seq<Tab>) -> Seq<Seq<char>> {
    s.map_values(|t: Tab| t.id@)
}

/// Every tab with its active flag cleared.
pub open spec fn deactivate_all(s: Seq<Tab>) -> Seq<Tab> {
    s.map_values(|t: Tab| Tab { is_active: false, ..t })
}

/// The tabs seen as values, in the order they were opened.
pub struct TabsView {
    pub tabs: Seq<Tab>,
    pub active_tab_id: Option<Seq<char>>,
    pub max_crash_count: u32,
}

pub open spec fn tab_index(v: TabsView, id: Seq<char>) -> int {
    index_of(tab_ids(v.tabs), id)
}

/// Tab `i` replaced by `t`, everything else kept.
pub open spec fn with_tab(v: TabsView, i: int, t: Tab) -> TabsView {
    TabsView { tabs: v.tabs.update(i, t), ..v }
}

/// `new` is `t` with `u` applied; the time of the last activity aside.
pub open spec fn is_updated(new: Tab, t: Tab, u: TabUpdate) -> bool {
    &&& new.id == t.id
    &&& new.url == (match u.url {
        Some(x) => x,
        None => t.url,
    })
    &&& new.title == (match u.title {
        Some(x) => x,
        None => t.title,
    })
    &&& new.favicon == (match u.favicon {
        Some(x) => Some(x),
        None => t.favicon,
    })
    &&& new.is_pinned == (match u.is_pinned {
        Some(x) => x,
        None => t.is_pinned,
    })
    &&& new.is_sleeping == (match u.is_sleeping {
        Some(x) => x,
        None => t.is_sleeping,
    })
    &&& match u.privacy_mode {
        Some(m) => new.privacy_mode@ == privacy_tag(m),
        None => new.privacy_mode == t.privacy_mode,
    }
    &&& new.created_at == t.created_at
    &&& new.is_active == t.is_active
    &&& new.app_mode == t.app_mode
    &&& new.crash_count == t.crash_count
}

/// A tab as `create_tab` opens it.
pub open spec fn is_fresh_tab(t: Tab, id: String, url: String, pm: PrivacyMode, am: AppMode, now: i64) -> bool {
    &&& t.id == id
    &&& t.url == url
    &&& t.title@ == "New Tab"@
    &&& t.favicon.is_none()
    &&& t.created_at == now
    &&& t.last_active_at == now
    &&& t.is_active
    &&& !t.is_pinned
    &&& !t.is_sleeping
    &&& t.privacy_mode@ == privacy_tag(pm)
    &&& t.app_mode@ == app_mode_tag(am)
    &&& t.crash_count == 0
}

/// `t` added as the only active tab, in place of any tab with its id.
pub open spec fn opened(v: TabsView, t: Tab) -> TabsView {
    let d = deactivate_all(v.tabs);
    let i = index_of(tab_ids(d), t.id@);
    TabsView {
        tabs: if i >= 0 {
            d.update(i, t)
        } else {
            d.push(t)
        },
        active_tab_id: Some(t.id@),
        ..v
    }
}

/// Tab `i` made the only active tab, awake, touched at `now`.
pub open spec fn activated(v: TabsView, i: int, now: i64) -> TabsView {
    TabsView {
        tabs: deactivate_all(v.tabs).update(
            i,
            Tab { is_active: true, last_active_at: now, is_sleeping: false, ..v.tabs[i] },
        ),
        active_tab_id: Some(v.tabs[i].id@),
        ..v
    }
}

/// What deleting tab `i` leaves: where it was active, the first remaining
/// tab becomes the active one.
pub open spec fn after_delete(v: TabsView, i: int) -> TabsView {
    let rest = v.tabs.remove(i);
    if v.tabs[i].is_active {
        if rest.len() > 0 {
            TabsView {
                tabs: rest.update(0, Tab { is_active: true, ..rest[0] }),
                active_tab_id: Some(rest[0].id@),
                ..v
            }
        } else {
            TabsView { tabs: rest, active_tab_id: None, ..v }
        }
    } else {
        TabsView { tabs: rest, ..v }
    }
}

/// `t` stored under its id: in place of a tab with that id, else at the end.
pub open spec fn insert_tab(s: Seq<Tab>, t: Tab) -> Seq<Tab> {
    let i = index_of(tab_ids(s), t.id@);
    if i >= 0 {
        s.update(i, t)
    } else {
        s.push(t)
    }
}

/// The tabs of `ts` stored one after another, starting from none.
pub open spec fn insert_all(ts: Seq<Tab>) -> Seq<Tab>
    decreases ts.len(),
{
    if ts.len() == 0 {
        Seq::empty()
    } else {
        insert_tab(insert_all(ts.drop_last()), ts.last())
    }
}

/// A saved session put back: the saved tabs replace the open ones; a saved
/// active id becomes the active one and its tab, if present, is marked
/// active; without one the active id stays as it was.
pub open spec fn restored_session(v: TabsView, ts: Seq<Tab>, active: Option<Seq<char>>) -> TabsView {
    let all = insert_all(ts);
    match active {
        Some(a) => {
            let i = index_of(tab_ids(all), a);
            TabsView {
                tabs: if i >= 0 {
                    all.update(i, Tab { is_active: true, ..all[i] })
                } else {
                    all
                },
                active_tab_id: Some(a),
                ..v
            }
        },
        None => TabsView { tabs: all, ..v },
    }
}

/// The tab manager.
pub struct TabManager {
    tabs: Vec<Tab>,
    active_tab_id: Option<String>,
    max_crash_count: u32,
}

impl View for TabManager {
    type V = TabsView;

    closed spec fn view(&self) -> TabsView {
        TabsView {
            tabs: self.tabs@,
            active_tab_id: match self.active_tab_id {
                Some(s) => Some(s@),
                None => None,
            },
            max_crash_count: self.max_crash_count,
        }
    }
}

fn find_tab(v: &Vec<Tab>, id: &String) -> (r: Option<usize>)
    requires
        unique(tab_ids(v@)),
    ensures
        match r {
            Some(i) => i < v@.len() && index_of(tab_ids(v@), id@) == i as int,
            None => index_of(tab_ids(v@), id@) == -1,
        },
{
    let mut i: usize = 0;
    while i < v.len()
        invariant
            i <= v@.len(),
            forall|j: int| 0 <= j < i ==> v@[j].id@ != id@,
            unique(tab_ids(v@)),
        decreases v@.len() - i,
    {
        if v[i].id == *id {
            proof {
                lemma_index_of(tab_ids(v@), id@, i as int);
            }
            return Some(i);
        }
        i += 1;
    }
    assert(!tab_ids(v@).contains(id@)) by {
        if tab_ids(v@).contains(id@) {
            let j = choose|j: int| 0 <= j < tab_ids(v@).len() && tab_ids(v@)[j] == id@;
            assert(v@[j].id@ == id@);
        }
    }
    None
}

proof fn lemma_ids_update(s: Seq<Tab>, i: int, t: Tab)
    requires
        0 <= i < s.len(),
        t.id@ == s[i].id@,
    ensures
        tab_ids(s.update(i, t)) == tab_ids(s),
{
    assert(tab_ids(s.update(i, t)) =~= tab_ids(s));
}

proof fn lemma_ids_remove(s: Seq<Tab>, i: int)
    requires
        0 <= i < s.len(),
        unique(tab_ids(s)),
    ensures
        unique(tab_ids(s.remove(i))),
{
    assert(tab_ids(s.remove(i)) =~= tab_ids(s).remove(i));
}

proof fn lemma_ids_deactivate(s: Seq<Tab>)
    ensures
        tab_ids(deactivate_all(s)) == tab_ids(s),
{
    assert(tab_ids(deactivate_all(s)) =~= tab_ids(s));
}

impl TabManager {
    /// Tab ids are unique.
    pub closed spec fn wf(&self) -> bool {
        unique(tab_ids(self.tabs@))
    }

    pub fn new(max_crash_count: u32) -> (r: Self)
        ensures
            r.wf(),
            r@ == (TabsView { tabs: Seq::empty(), active_tab_id: None, max_crash_count }),
    {
        let r = TabManager { tabs: Vec::new(), active_tab_id: None, max_crash_count };
        assert(tab_ids(r.tabs@) =~= Seq::<Seq<char>>::empty());
        r
    }

    fn deactivate(&mut self)
        requires
            old(self).wf(),
        ensures
            final(self).wf(),
            final(self)@ == (TabsView { tabs: deactivate_all(old(self)@.tabs), ..old(self)@ }),
    {
        let mut i: usize = 0;
        while i < self.tabs.len()
            invariant
                i <= self.tabs@.len(),
                self.tabs@.len() == old(self).tabs@.len(),
                forall|j: int| 0 <= j < i ==> self.tabs@[j] == (Tab { is_active: false, ..old(self).tabs@[j] }),
                forall|j: int| i <= j < self.tabs@.len() ==> self.tabs@[j] == old(self).tabs@[j],
                self.active_tab_id == old(self).active_tab_id,
                self.max_crash_count == old(self).max_crash_count,
            decreases self.tabs@.len() - i,
        {
            let mut t = self.tabs[i].clone();
            t.is_active = false;
            self.tabs.set(i, t);
            i += 1;
        }
        assert(self.tabs@ =~= deactivate_all(old(self).tabs@));
        proof {
            lemma_ids_deactivate(old(self).tabs@);
        }
    }

    /// Opens a tab with the given id at time `now`: it becomes the only
    /// active tab and replaces any tab with the same id.
    pub fn create_tab_with(&mut self, id: String, url: String, privacy_mode: PrivacyMode, app_mode: AppMode, now: i64) -> (r: String)
        requires
            old(self).wf(),
        ensures
            final(self).wf(),
            r == id,
            exists|t: Tab| #[trigger] is_fresh_tab(t, id, url, privacy_mode, app_mode, now) && final(self)@ == opened(old(self)@, t),
    {
        self.deactivate();
        let tab = Tab {
            id: id.clone(),
            url,
            title: String::from_str("New Tab"),
            favicon: None,
            created_at: now,
            last_active_at: now,
            is_active: true,
            is_pinned: false,
            is_sleeping: false,
            privacy_mode: String::from_str(privacy_tag_str(privacy_mode)),
            app_mode: String::from_str(app_mode_tag_str(app_mode)),
            crash_count: 0,
        };
        let ghost t = tab;
        let ghost d = self.tabs@;
        match find_tab(&self.tabs, &id) {
            Some(i) => {
                proof {
                    assert(tab_ids(d)[i as int] == id@);
                    lemma_ids_update(d, i as int, t);
                }
                self.tabs.set(i, tab);
            },
            None => {
                proof {
                    lemma_push_unique(tab_ids(d), id@);
                    assert(tab_ids(d.push(t)) =~= tab_ids(d).push(id@));
                }
                self.tabs.push(tab);
            },
        }
        self.active_tab_id = Some(id.clone());
        assert(is_fresh_tab(t, id, url, privacy_mode, app_mode, now));
        assert(self@ == opened(old(self)@, t));
        id
    }

    /// Opens a tab with a fresh random id, "tab-" followed by a UUID, at
    /// the current time; it becomes the only active tab.
    pub fn create_tab(&mut self, url: String, privacy_mode: PrivacyMode, app_mode: AppMode) -> (r: Result<String, String>)
        requires
            old(self).wf(),
        ensures
            final(self).wf(),
            r.is_ok(),
            r->Ok_0@.len() >= 4 && r->Ok_0@.subrange(0, 4) == "tab-"@,
            exists|t: Tab, now: i64| #[trigger] is_fresh_tab(t, r->Ok_0, url, privacy_mode, app_mode, now) && final(self)@ == opened(old(self)@, t),
    {
        let mut id = String::from_str("tab-");
        let uuid = new_uuid_text();
        id.append(uuid.as_str());
        proof {
            reveal_strlit("tab-");
            assert(id@.subrange(0, 4) =~= "tab-"@);
        }
        let now = unix_now_secs();
        let ghost gid = id;
        let ghost gurl = url;
        let new_id = self.create_tab_with(id, url, privacy_mode, app_mode, now);
        let res: Result<String, String> = Ok(new_id);
        proof {
            let t = choose|t: Tab| #[trigger] is_fresh_tab(t, gid, gurl, privacy_mode, app_mode, now) && self@ == opened(old(self)@, t);
            assert(is_fresh_tab(t, res->Ok_0, gurl, privacy_mode, app_mode, now));
        }
        res
    }

    /// Closes tab `id`; where it was active the first remaining tab takes
    /// its place.
    pub fn delete_tab(&mut self, id: &str) -> (r: Result<(), String>)
        requires
            old(self).wf(),
        ensures
            final(self).wf(),
            tab_index(old(self)@, id@) < 0 ==> r.is_err() && r->Err_0@ == not_found_msg(id@) && final(self)@ == old(self)@,
            tab_index(old(self)@, id@) >= 0 ==> r.is_ok() && final(self)@ == after_delete(old(self)@, tab_index(old(self)@, id@)),
    {
        let key = String::from_str(id);
        match find_tab(&self.tabs, &key) {
            None => Err(not_found(id)),
            Some(i) => {
                let ghost v = self@;
                proof {
                    lemma_ids_remove(v.tabs, i as int);
                }
                let removed = self.tabs.remove(i);
                if removed.is_active {
                    if self.tabs.len() > 0 {
                        let mut first = self.tabs[0].clone();
                        first.is_active = true;
                        self.active_tab_id = Some(first.id.clone());
                        proof {
                            lemma_ids_update(self.tabs@, 0, first);
                        }
                        self.tabs.set(0, first);
                    } else {
                        self.active_tab_id = None;
                    }
                }
                assert(self@ == after_delete(v, i as int));
                Ok(())
            },
        }
    }

    /// Applies `updates` to tab `id` and records `now` as its last activity.
    pub fn update_tab_at(&mut self, id: &str, updates: TabUpdate, now: i64) -> (r: Result<(), String>)
        requires
            old(self).wf(),
        ensures
            final(self).wf(),
            tab_index(old(self)@, id@) < 0 ==> r.is_err() && r->Err_0@ == not_found_msg(id@) && final(self)@ == old(self)@,
            tab_index(old(self)@, id@) >= 0 ==> {
                let i = tab_index(old(self)@, id@);
                &&& r.is_ok()
                &&& final(self)@ == with_tab(old(self)@, i, final(self)@.tabs[i])
                &&& is_updated(final(self)@.tabs[i], old(self)@.tabs[i], updates)
                &&& final(self)@.tabs[i].last_active_at == now
            },
    {
        let key = String::from_str(id);
        match find_tab(&self.tabs, &key) {
            None => Err(not_found(id)),
            Some(i) => {
                let mut t = self.tabs[i].clone();
                match updates.url {
                    Some(u) => t.url = u,
                    None => {},
                }
                match updates.title {
                    Some(x) => t.title = x,
                    None => {},
                }
                match updates.favicon {
                    Some(f) => t.favicon = Some(f),
                    None => {},
                }
                match updates.is_pinned {
                    Some(p) => t.is_pinned = p,
                    None => {},
                }
                match updates.is_sleeping {
                    Some(z) => t.is_sleeping = z,
                    None => {},
                }
                match updates.privacy_mode {
                    Some(m) => t.privacy_mode = String::from_str(privacy_tag_str(m)),
                    None => {},
                }
                t.last_active_at = now;
                proof {
                    lemma_ids_update(self.tabs@, i as int, t);
                }
                self.tabs.set(i, t);
                Ok(())
            },
        }
    }

    /// Applies `updates` to tab `id` and records the current time as its
    /// last activity.
    pub fn update_tab(&mut self, id: &str, updates: TabUpdate) -> (r: Result<(), String>)
        requires
            old(self).wf(),
        ensures
            final(self).wf(),
            tab_index(old(self)@, id@) < 0 ==> r.is_err() && r->Err_0@ == not_found_msg(id@) && final(self)@ == old(self)@,
            tab_index(old(self)@, id@) >= 0 ==> {
                let i = tab_index(old(self)@, id@);
                &&& r.is_ok()
                &&& final(self)@ == with_tab(old(self)@, i, final(self)@.tabs[i])
                &&& is_updated(final(self)@.tabs[i], old(self)@.tabs[i], updates)
            },
    {
        let now = unix_now_secs();
        self.update_tab_at(id, updates, now)
    }

    /// Makes tab `id` the only active tab, wakes it and records `now` as its
    /// last activity.
    pub fn set_active_tab_at(&mut self, id: &str, now: i64) -> (r: Result<(), String>)
        requires
            old(self).wf(),
        ensures
            final(self).wf(),
            tab_index(old(self)@, id@) < 0 ==> r.is_err() && r->Err_0@ == not_found_msg(id@) && final(self)@ == old(self)@,
            tab_index(old(self)@, id@) >= 0 ==> r.is_ok() && final(self)@ == activated(old(self)@, tab_index(old(self)@, id@), now),
    {
        let key = String::from_str(id);
        match find_tab(&self.tabs, &key) {
            None => Err(not_found(id)),
            Some(i) => {
                let ghost v = self@;
                self.deactivate();
                let mut t = self.tabs[i].clone();
                t.is_active = true;
                t.last_active_at = now;
                t.is_sleeping = false;
                proof {
                    lemma_ids_update(self.tabs@, i as int, t);
                }
                self.tabs.set(i, t);
                self.active_tab_id = Some(key);
                assert(self@ == activated(v, i as int, now));
                Ok(())
            },
        }
    }

    /// Makes tab `id` the only active tab and wakes it, at the current time.
    pub fn set_active_tab(&mut self, id: &str) -> (r: Result<(), String>)
        requires
            old(self).wf(),
        ensures
            final(self).wf(),
            tab_index(old(self)@, id@) < 0 ==> r.is_err() && r->Err_0@ == not_found_msg(id@) && final(self)@ == old(self)@,
            tab_index(old(self)@, id@) >= 0 ==> r.is_ok() && exists|now: i64|
                final(self)@ == #[trigger] activated(old(self)@, tab_index(old(self)@, id@), now),
    {
        let now = unix_now_secs();
        self.set_active_tab_at(id, now)
    }

    pub fn list_tabs(&self) -> (r: Vec<Tab>)
        ensures
            r@ == self@.tabs,
    {
        let mut out: Vec<Tab> = Vec::new();
        let mut i: usize = 0;
        while i < self.tabs.len()
            invariant
                i <= self.tabs@.len(),
                out@ == self.tabs@.subrange(0, i as int),
            decreases self.tabs@.len() - i,
        {
            out.push(self.tabs[i].clone());
            i += 1;
            assert(out@ =~= self.tabs@.subrange(0, i as int));
        }
        assert(out@ =~= self.tabs@);
        out
    }

    pub fn get_tab(&self, id: &str) -> (r: Option<Tab>)
        requires
            self.wf(),
        ensures
            tab_index(self@, id@) >= 0 ==> r == Some(self@.tabs[tab_index(self@, id@)]),
            tab_index(self@, id@) < 0 ==> r.is_none(),
    {
        let key = String::from_str(id);
        match find_tab(&self.tabs, &key) {
            Some(i) => Some(self.tabs[i].clone()),
            None => None,
        }
    }

    /// The tab recorded as active, if it is still open.
    pub fn get_active_tab(&self) -> (r: Option<Tab>)
        requires
            self.wf(),
        ensures
            match self@.active_tab_id {
                Some(a) => {
                    &&& tab_index(self@, a) >= 0 ==> r == Some(self@.tabs[tab_index(self@, a)])
                    &&& tab_index(self@, a) < 0 ==> r.is_none()
                },
                None => r.is_none(),
            },
    {
        match &self.active_tab_id {
            Some(a) => match find_tab(&self.tabs, a) {
                Some(i) => Some(self.tabs[i].clone()),
                None => None,
            },
            None => None,
        }
    }

    pub fn freeze_tab(&mut self, id: &str) -> (r: Result<(), String>)
        requires
            old(self).wf(),
        ensures
            final(self).wf(),
            tab_index(old(self)@, id@) < 0 ==> r.is_err() && r->Err_0@ == not_found_msg(id@) && final(self)@ == old(self)@,
            tab_index(old(self)@, id@) >= 0 ==> r.is_ok() && final(self)@ == with_tab(old(self)@, tab_index(old(self)@, id@),
                Tab { is_sleeping: true, ..old(self)@.tabs[tab_index(old(self)@, id@)] }),
    {
        let key = String::from_str(id);
        match find_tab(&self.tabs, &key) {
            None => Err(not_found(id)),
            Some(i) => {
                let mut t = self.tabs[i].clone();
                t.is_sleeping = true;
                proof {
                    lemma_ids_update(self.tabs@, i as int, t);
                }
                self.tabs.set(i, t);
                Ok(())
            },
        }
    }

    pub fn unfreeze_tab(&mut self, id: &str) -> (r: Result<(), String>)
        requires
            old(self).wf(),
        ensures
            final(self).wf(),
            tab_index(old(self)@, id@) < 0 ==> r.is_err() && r->Err_0@ == not_found_msg(id@) && final(self)@ == old(self)@,
            tab_index(old(self)@, id@) >= 0 ==> r.is_ok() && final(self)@ == with_tab(old(self)@, tab_index(old(self)@, id@),
                Tab { is_sleeping: false, ..old(self)@.tabs[tab_index(old(self)@, id@)] }),
    {
        let key = String::from_str(id);
        match find_tab(&self.tabs, &key) {
            None => Err(not_found(id)),
            Some(i) => {
                let mut t = self.tabs[i].clone();
                t.is_sleeping = false;
                proof {
                    lemma_ids_update(self.tabs@, i as int, t);
                }
                self.tabs.set(i, t);
                Ok(())
            },
        }
    }

    /// Counts a crash of tab `id` (saturating) and reports whether the count
    /// has reached the safe-mode threshold.
    pub fn record_tab_crash(&mut self, id: &str) -> (r: Result<bool, String>)
        requires
            old(self).wf(),
        ensures
            final(self).wf(),
            tab_index(old(self)@, id@) < 0 ==> r.is_err() && r->Err_0@ == not_found_msg(id@) && final(self)@ == old(self)@,
            tab_index(old(self)@, id@) >= 0 ==> {
                let i = tab_index(old(self)@, id@);
                let c = old(self)@.tabs[i].crash_count;
                let n = if c < u32::MAX { (c + 1) as u32 } else { c };
                &&& final(self)@ == with_tab(old(self)@, i, Tab { crash_count: n, ..old(self)@.tabs[i] })
                &&& r == Ok::<bool, String>(n >= old(self)@.max_crash_count)
            },
    {
        let key = String::from_str(id);
        match find_tab(&self.tabs, &key) {
            None => Err(not_found(id)),
            Some(i) => {
                let mut t = self.tabs[i].clone();
                if t.crash_count < u32::MAX {
                    t.crash_count = t.crash_count + 1;
                }
                let reached = t.crash_count >= self.max_crash_count;
                proof {
                    lemma_ids_update(self.tabs@, i as int, t);
                }
                self.tabs.set(i, t);
                Ok(reached)
            },
        }
    }

    pub fn reset_crash_count(&mut self, id: &str) -> (r: Result<(), String>)
        requires
            old(self).wf(),
        ensures
            final(self).wf(),
            tab_index(old(self)@, id@) < 0 ==> r.is_err() && r->Err_0@ == not_found_msg(id@) && final(self)@ == old(self)@,
            tab_index(old(self)@, id@) >= 0 ==> r.is_ok() && final(self)@ == with_tab(old(self)@, tab_index(old(self)@, id@),
                Tab { crash_count: 0, ..old(self)@.tabs[tab_index(old(self)@, id@)] }),
    {
        let key = String::from_str(id);
        match find_tab(&self.tabs, &key) {
            None => Err(not_found(id)),
            Some(i) => {
                let mut t = self.tabs[i].clone();
                t.crash_count = 0;
                proof {
                    lemma_ids_update(self.tabs@, i as int, t);
                }
                self.tabs.set(i, t);
                Ok(())
            },
        }
    }

    pub fn pin_tab(&mut self, id: &str, pinned: bool) -> (r: Result<(), String>)
        requires
            old(self).wf(),
        ensures
            final(self).wf(),
            tab_index(old(self)@, id@) < 0 ==> r.is_err() && r->Err_0@ == not_found_msg(id@) && final(self)@ == old(self)@,
            tab_index(old(self)@, id@) >= 0 ==> r.is_ok() && final(self)@ == with_tab(old(self)@, tab_index(old(self)@, id@),
                Tab { is_pinned: pinned, ..old(self)@.tabs[tab_index(old(self)@, id@)] }),
    {
        let key = String::from_str(id);
        match find_tab(&self.tabs, &key) {
            None => Err(not_found(id)),
            Some(i) => {
                let mut t = self.tabs[i].clone();
                t.is_pinned = pinned;
                proof {
                    lemma_ids_update(self.tabs@, i as int, t);
                }
                self.tabs.set(i, t);
                Ok(())
            },
        }
    }
    /// Puts back a saved session: `tabs` replace the open tabs, and a saved
    /// active id is made active again.
    pub fn restore_tabs(&mut self, tabs: Vec<Tab>, active_id: Option<String>)
        requires
            old(self).wf(),
        ensures
            final(self).wf(),
            final(self)@ == restored_session(
                old(self)@,
                tabs@,
                match active_id {
                    Some(a) => Some(a@),
                    None => None,
                },
            ),
    {
        let mut all: Vec<Tab> = Vec::new();
        let mut k: usize = 0;
        assert(tabs@.subrange(0, 0) =~= Seq::<Tab>::empty());
        assert(tab_ids(all@) =~= Seq::<Seq<char>>::empty());
        while k < tabs.len()
            invariant
                k <= tabs@.len(),
                all@ == insert_all(tabs@.subrange(0, k as int)),
                unique(tab_ids(all@)),
            decreases tabs@.len() - k,
        {
            let t = tabs[k].clone();
            assert(tabs@.subrange(0, k + 1).drop_last() =~= tabs@.subrange(0, k as int));
            let ghost before = all@;
            match find_tab(&all, &t.id) {
                Some(i) => {
                    proof {
                        assert(tab_ids(before)[i as int] == t.id@);
                        lemma_ids_update(before, i as int, t);
                    }
                    all.set(i, t);
                },
                None => {
                    proof {
                        lemma_push_unique(tab_ids(before), t.id@);
                        assert(tab_ids(before.push(t)) =~= tab_ids(before).push(t.id@));
                    }
                    all.push(t);
                },
            }
            k += 1;
        }
        assert(tabs@.subrange(0, tabs@.len() as int) =~= tabs@);
        self.tabs = all;
        match active_id {
            Some(a) => {
                match find_tab(&self.tabs, &a) {
                    Some(i) => {
                        let mut t = self.tabs[i].clone();
                        t.is_active = true;
                        proof {
                            lemma_ids_update(self.tabs@, i as int, t);
                        }
                        self.tabs.set(i, t);
                    },
                    None => {},
                }
                self.active_tab_id = Some(a);
            },
            None => {},
        }
    }
}

} // verus!
