//! The explorer's workspace: panes of tabs, each tab a directory view with
//! its own back/forward history, path editor and in-directory filter, plus
//! the recently visited folders and the bookmarks.
//!
//! Reading directories and persisting lists are left to the caller: every
//! operation here takes what was read and says what changed.

use vstd::prelude::*;
use crate::path::{same_path, paths_equal, path_starts_with, path_has_prefix, join, join_path, expand_home, expand_path};
use crate::text::{trim, trim_str, drop_last_char, without_last_char, append_text, lowercase, to_lowercase, chars_of};
use crate::score::{FindRank, find_score, find_rank_is};
use crate::order::{RankKey, KeyView, views, ranked, rank_ids, rank_order, idx_leq, law_rank_order, text_lt};
use crate::layout::{
    layout, lemma_layout_ok, after_removal, can_close, closed_layout, lemma_close_ok,
    can_move, moved_layout, move_resets_split, lemma_move_ok, MAX_PANES,
};

verus! {

/// Most recent folders kept in the sidebar.
pub const RECENTS_CAP: usize = 12;

/// One row of a directory listing.
pub struct Entry {
    pub name: String,
    pub is_dir: bool,
    pub size: u64,
    /// Modification time as seconds and nanoseconds from the Unix epoch.
    pub modified: Option<(i64, u32)>,
}

pub fn copy_entry(e: &Entry) -> (r: Entry)
    ensures
        r == *e,
{
    Entry { name: e.name.clone(), is_dir: e.is_dir, size: e.size, modified: e.modified }
}

/// One open tab: a directory view with its own history, path editor and
/// filter. `ui` is what the caller keeps per tab (scroll state).
pub struct Tab<H> {
    pub current_dir: String,
    pub entries: Vec<Entry>,
    /// Back/forward history and the position in it.
    pub history: Vec<String>,
    pub hist_pos: usize,
    /// The deepest directory visited along the current lineage; the
    /// breadcrumb keeps showing its tail while the tab is at an ancestor.
    pub deepest: Option<String>,
    /// Text of the path bar while it is being edited.
    pub editing_path: Option<String>,
    /// Query of the in-directory filter while it is open, and the matching
    /// entry positions, best first.
    pub find_query: Option<String>,
    pub find_results: Vec<usize>,
    pub ui: H,
}

impl<H> Tab<H> {
    /// History position is valid and names the current directory.
    pub open spec fn wf(&self) -> bool {
        &&& self.hist_pos < self.history@.len()
        &&& self.history@[self.hist_pos as int]@ == self.current_dir@
    }

    /// A tab opened on `dir` with its listing `entries`.
    pub fn new(dir: String, entries: Vec<Entry>, ui: H) -> (r: Tab<H>)
        ensures
            r.wf(),
            r.current_dir@ == dir@,
            r.entries@ == entries@,
            r.history@.len() == 1,
            r.history@[0]@ == dir@,
            r.hist_pos == 0,
            r.deepest matches Some(d) && d@ == dir@,
            r.editing_path is None,
            r.find_query is None,
            r.find_results@.len() == 0,
            r.ui == ui,
    {
        let mut history: Vec<String> = Vec::new();
        history.push(dir.clone());
        Tab {
            current_dir: dir.clone(),
            entries,
            history,
            hist_pos: 0,
            deepest: Some(dir),
            editing_path: None,
            find_query: None,
            find_results: Vec::new(),
            ui,
        }
    }

    /// Whether the back arrow is live.
    pub fn can_go_back(&self) -> (r: bool)
        ensures
            r == (self.hist_pos > 0),
    {
        self.hist_pos > 0
    }

    /// Whether the forward arrow is live.
    pub fn can_go_forward(&self) -> (r: bool)
        requires
            self.wf(),
        ensures
            r == (self.hist_pos + 1 < self.history@.len()),
    {
        self.hist_pos < self.history.len() - 1
    }
}

/// A column of the canvas holding a stack of tabs.
pub struct Pane<H> {
    pub tabs: Vec<Tab<H>>,
    pub active: usize,
}

impl<H> Pane<H> {
    pub open spec fn wf(&self) -> bool {
        &&& self.tabs@.len() >= 1
        &&& self.active < self.tabs@.len()
        &&& forall|t: int| 0 <= t < self.tabs@.len() ==> (#[trigger] self.tabs@[t]).wf()
    }

    pub fn new(tab: Tab<H>) -> (r: Pane<H>)
        requires
            tab.wf(),
        ensures
            r.wf(),
            r.tabs@ == seq![tab],
            r.active == 0,
    {
        let mut tabs = Vec::new();
        tabs.push(tab);
        proof {
            assert(tabs@ =~= seq![tab]);
        }
        Pane { tabs, active: 0 }
    }

    pub fn active_tab(&self) -> (r: &Tab<H>)
        requires
            self.wf(),
        ensures
            *r == self.tabs@[self.active as int],
    {
        &self.tabs[self.active]
    }
}

/// An open right-click menu: the pane it acts on and the entry it targets
/// (`None` on empty space).
pub struct ContextMenu {
    pub pane: usize,
    pub target: Option<(String, bool)>,
}

/// The texts of a list of strings.
pub open spec fn texts_of(v: Seq<String>) -> Seq<Seq<char>> {
    v.map_values(|s: String| s@)
}

/// The recents list after visiting `dir`: `dir` first, then the earlier
/// entries that are not the same path, at most `RECENTS_CAP` in all.
pub open spec fn remember(list: Seq<Seq<char>>, dir: Seq<char>) -> Seq<Seq<char>> {
    let kept = seq![dir] + list.filter(|p: Seq<char>| !same_path(p, dir));
    if kept.len() > RECENTS_CAP {
        kept.take(RECENTS_CAP as int)
    } else {
        kept
    }
}

/// The workspace: one or more panes side by side, the recents and the
/// bookmarks of the sidebar, and an optional context menu.
pub struct Workspace<H> {
    panes: Vec<Pane<H>>,
    active_pane: usize,
    recents: Vec<String>,
    bookmarks: Vec<String>,
    context_menu: Option<ContextMenu>,
}

impl<H> Workspace<H> {
    pub closed spec fn spec_panes(&self) -> Seq<Pane<H>> {
        self.panes@
    }

    pub closed spec fn spec_active_pane(&self) -> usize {
        self.active_pane
    }

    pub closed spec fn spec_recents(&self) -> Seq<Seq<char>> {
        texts_of(self.recents@)
    }

    pub closed spec fn spec_bookmarks(&self) -> Seq<Seq<char>> {
        texts_of(self.bookmarks@)
    }

    pub closed spec fn spec_context_menu(&self) -> Option<ContextMenu> {
        self.context_menu
    }

    /// One or two panes, each with at least one tab, active indices in
    /// range, and every tab's history naming its current directory.
    pub open spec fn wf(&self) -> bool {
        &&& 1 <= self.spec_panes().len() <= MAX_PANES
        &&& self.spec_active_pane() < self.spec_panes().len()
        &&& forall|p: int| 0 <= p < self.spec_panes().len() ==> (#[trigger] self.spec_panes()[p]).wf()
    }

    /// The tab shown in pane `p`.
    pub open spec fn shown(&self, p: int) -> Tab<H> {
        self.spec_panes()[p].tabs@[self.spec_panes()[p].active as int]
    }

    /// A workspace with a single pane showing `tab`; `recents` and
    /// `bookmarks` as read from disk.
    pub fn new(tab: Tab<H>, recents: Vec<String>, bookmarks: Vec<String>) -> (r: Workspace<H>)
        requires
            tab.wf(),
        ensures
            r.wf(),
            r.spec_panes().len() == 1,
            r.spec_panes()[0].tabs@ == seq![tab],
            r.spec_active_pane() == 0,
            r.spec_recents() == texts_of(recents@),
            r.spec_bookmarks() == texts_of(bookmarks@),
            r.spec_context_menu() is None,
    {
        let mut panes = Vec::new();
        panes.push(Pane::new(tab));
        Workspace { panes, active_pane: 0, recents, bookmarks, context_menu: None }
    }

    pub fn pane_count(&self) -> (r: usize)
        ensures
            r == self.spec_panes().len(),
    {
        self.panes.len()
    }

    pub fn active_pane(&self) -> (r: usize)
        ensures
            r == self.spec_active_pane(),
    {
        self.active_pane
    }

    pub fn pane(&self, ix: usize) -> (r: &Pane<H>)
        requires
            ix < self.spec_panes().len(),
        ensures
            *r == self.spec_panes()[ix as int],
    {
        &self.panes[ix]
    }

    /// The tab shown in pane `pane`.
    pub fn tab(&self, pane: usize) -> (r: &Tab<H>)
        requires
            self.wf(),
            pane < self.spec_panes().len(),
        ensures
            *r == self.shown(pane as int),
    {
        let p = &self.panes[pane];
        proof {
            assert(p.wf());
        }
        p.active_tab()
    }

    /// The tab shown in the active pane.
    pub fn active_tab(&self) -> (r: &Tab<H>)
        requires
            self.wf(),
        ensures
            *r == self.shown(self.spec_active_pane() as int),
    {
        self.tab(self.active_pane)
    }

    pub fn recents(&self) -> (r: &Vec<String>)
        ensures
            texts_of(r@) == self.spec_recents(),
    {
        &self.recents
    }

    pub fn bookmarks(&self) -> (r: &Vec<String>)
        ensures
            texts_of(r@) == self.spec_bookmarks(),
    {
        &self.bookmarks
    }

    pub fn context_menu(&self) -> (r: &Option<ContextMenu>)
        ensures
            *r == self.spec_context_menu(),
    {
        &self.context_menu
    }
}


/// `list` with `dir` recorded as the most recent folder.
pub fn remember_dir(list: &Vec<String>, dir: &String) -> (r: Vec<String>)
    ensures
        texts_of(r@) == remember(texts_of(list@), dir@),
{
    let ghost pred = |p: Seq<char>| !same_path(p, dir@);
    let mut out: Vec<String> = Vec::new();
    out.push(dir.clone());
    let ghost l = texts_of(list@);
    proof {
        assert(l.take(0) =~= Seq::<Seq<char>>::empty());
        assert(Seq::<Seq<char>>::empty().filter(pred) =~= Seq::<Seq<char>>::empty()) by {
            reveal_with_fuel(Seq::<_>::filter, 1);
        }
        assert(texts_of(out@) =~= seq![dir@] + l.take(0).filter(pred));
    }
    let mut i: usize = 0;
    while i < list.len()
        invariant
            i <= list@.len(),
            l == texts_of(list@),
            pred == (|p: Seq<char>| !same_path(p, dir@)),
            texts_of(out@) == seq![dir@] + l.take(i as int).filter(pred),
        decreases list.len() - i,
    {
        let same = paths_equal(list[i].as_str(), dir.as_str());
        proof {
            assert(l.take(i as int + 1) =~= l.take(i as int).push(l[i as int]));
            l.take(i as int).lemma_filter_push(l[i as int], pred);
        }
        if !same {
            let ghost before = out@;
            out.push(list[i].clone());
            proof {
                assert(texts_of(out@) =~= texts_of(before).push(list@[i as int]@));
            }
        }
        i = i + 1;
    }
    proof {
        assert(l.take(list@.len() as int) =~= l);
    }
    if out.len() > RECENTS_CAP {
        let ghost before = out@;
        out.truncate(RECENTS_CAP);
        proof {
            assert(texts_of(out@) =~= texts_of(before).take(RECENTS_CAP as int));
        }
    }
    out
}

/// The shown tab of a pane after loading `dir` with listing `entries`
/// (history aside): the breadcrumb tail kept when `dir` is an ancestor of
/// it, editors closed.
pub open spec fn loaded<H>(old: Tab<H>, new: Tab<H>, dir: Seq<char>, entries: Seq<Entry>) -> bool {
    &&& new.current_dir@ == dir
    &&& new.entries@ == entries
    &&& (match old.deepest {
        Some(d) if path_starts_with(d@, dir) => new.deepest == old.deepest,
        _ => new.deepest matches Some(nd) && nd@ == dir,
    })
    &&& new.editing_path is None
    &&& new.find_query is None
    &&& new.find_results@.len() == 0
    &&& new.ui == old.ui
}

impl<H> Tab<H> {
    /// Loads `dir` into this tab (listing, breadcrumb tail, editors); the
    /// history is the caller's.
    fn load(&mut self, dir: &String, entries: Vec<Entry>)
        ensures
            loaded(*old(self), *final(self), dir@, entries@),
            final(self).history == old(self).history,
            final(self).hist_pos == old(self).hist_pos,
    {
        self.entries = entries;
        let keep = match &self.deepest {
            Some(d) => path_has_prefix(d.as_str(), dir.as_str()),
            None => false,
        };
        if !keep {
            self.deepest = Some(dir.clone());
        }
        self.current_dir = dir.clone();
        self.editing_path = None;
        self.find_query = None;
        self.find_results = Vec::new();
    }
}

impl<H> Workspace<H> {
    /// Pane `p` with its shown tab taken out.
    fn pop_shown(&mut self, p: usize) -> (r: (Pane<H>, Tab<H>))
        requires
            old(self).wf(),
            p < old(self).spec_panes().len(),
        ensures
            final(self).spec_panes() == old(self).spec_panes().remove(p as int),
            r.0.active == old(self).spec_panes()[p as int].active,
            r.0.tabs@ == old(self).spec_panes()[p as int].tabs@.remove(r.0.active as int),
            r.1 == old(self).shown(p as int),
            final(self).spec_active_pane() == old(self).spec_active_pane(),
            final(self).spec_recents() == old(self).spec_recents(),
            final(self).spec_bookmarks() == old(self).spec_bookmarks(),
            final(self).spec_context_menu() == old(self).spec_context_menu(),
    {
        let mut pane = self.panes.remove(p);
        proof {
            assert(pane.wf());
        }
        let a = pane.active;
        let tab = pane.tabs.remove(a);
        (pane, tab)
    }

    /// Puts `pane` back at `p` with `tab` shown again.
    fn push_shown(&mut self, p: usize, pane: Pane<H>, tab: Tab<H>)
        requires
            p <= old(self).spec_panes().len(),
            pane.active <= pane.tabs@.len(),
        ensures
            final(self).spec_panes().len() == old(self).spec_panes().len() + 1,
            final(self).spec_panes().remove(p as int) == old(self).spec_panes(),
            final(self).spec_panes()[p as int].tabs@ == pane.tabs@.insert(pane.active as int, tab),
            final(self).spec_panes()[p as int].active == pane.active,
            final(self).spec_active_pane() == old(self).spec_active_pane(),
            final(self).spec_recents() == old(self).spec_recents(),
            final(self).spec_bookmarks() == old(self).spec_bookmarks(),
            final(self).spec_context_menu() == old(self).spec_context_menu(),
    {
        let mut pane = pane;
        let a = pane.active;
        pane.tabs.insert(a, tab);
        let ghost before = self.panes@;
        self.panes.insert(p, pane);
        proof {
            assert(self.panes@.remove(p as int) =~= before);
        }
    }
}

/// `new` is `old` with the shown tab of pane `p` replaced by `tab`.
pub open spec fn replaced_shown<H>(old: Seq<Pane<H>>, new: Seq<Pane<H>>, p: int, tab: Tab<H>) -> bool {
    &&& new.len() == old.len()
    &&& forall|i: int| 0 <= i < old.len() && i != p ==> #[trigger] new[i] == old[i]
    &&& new[p].active == old[p].active
    &&& new[p].tabs@ == old[p].tabs@.update(old[p].active as int, tab)
}

proof fn lemma_pop_push<H>(
    orig: Seq<Pane<H>>,
    fin: Seq<Pane<H>>,
    p: int,
    rest: Seq<Tab<H>>,
    a: int,
    tab: Tab<H>,
)
    requires
        0 <= p < orig.len(),
        fin.len() == orig.len(),
        fin.remove(p) == orig.remove(p),
        a == orig[p].active,
        0 <= a < orig[p].tabs@.len(),
        rest == orig[p].tabs@.remove(a),
        fin[p].tabs@ == rest.insert(a, tab),
        fin[p].active == a,
    ensures
        replaced_shown(orig, fin, p, tab),
{
    assert forall|i: int| 0 <= i < orig.len() && i != p implies #[trigger] fin[i] == orig[i] by {
        if i < p {
            assert(fin.remove(p)[i] == fin[i]);
            assert(orig.remove(p)[i] == orig[i]);
        } else {
            assert(fin.remove(p)[i - 1] == fin[i]);
            assert(orig.remove(p)[i - 1] == orig[i]);
        }
    }
    assert(fin[p].tabs@ =~= orig[p].tabs@.update(a, tab));
}

/// Replacing a shown tab by a well-formed one keeps the workspace well formed.
proof fn lemma_replaced_wf<H>(orig: Seq<Pane<H>>, fin: Seq<Pane<H>>, p: int, tab: Tab<H>)
    requires
        replaced_shown(orig, fin, p, tab),
        0 <= p < orig.len(),
        forall|q: int| 0 <= q < orig.len() ==> (#[trigger] orig[q]).wf(),
        tab.wf(),
    ensures
        forall|q: int| 0 <= q < fin.len() ==> (#[trigger] fin[q]).wf(),
{
    assert forall|q: int| 0 <= q < fin.len() implies (#[trigger] fin[q]).wf() by {
        if q == p {
            assert(orig[p].wf());
            assert forall|t: int| 0 <= t < fin[p].tabs@.len() implies (#[trigger] fin[p].tabs@[t]).wf() by {
                if t != orig[p].active {
                    assert(fin[p].tabs@[t] == orig[p].tabs@[t]);
                }
            }
        } else {
            assert(fin[q] == orig[q]);
        }
    }
}


/// Pane `pane` of `new` shows `old`'s tab moved to `dir` with its history
/// changed as `history`/`pos` say; the other tabs, the bookmarks and the
/// menu are as before, the recents remember `dir`, and `pane` is active.
pub open spec fn moved_to<H>(
    old: Workspace<H>,
    new: Workspace<H>,
    pane: int,
    dir: Seq<char>,
    entries: Seq<Entry>,
    history: Seq<Seq<char>>,
    pos: int,
) -> bool {
    let o = old.shown(pane);
    let n = new.shown(pane);
    &&& replaced_shown(old.spec_panes(), new.spec_panes(), pane, n)
    &&& loaded(o, n, dir, entries)
    &&& texts_of(n.history@) == history
    &&& n.hist_pos == pos
    &&& new.spec_active_pane() == pane
    &&& new.spec_recents() == remember(old.spec_recents(), dir)
    &&& new.spec_bookmarks() == old.spec_bookmarks()
    &&& new.spec_context_menu() == old.spec_context_menu()
}

/// `new` is `old` with pane `pane` made active.
pub open spec fn only_activated<H>(old: Workspace<H>, new: Workspace<H>, pane: int) -> bool {
    &&& new.spec_panes() == old.spec_panes()
    &&& new.spec_active_pane() == pane
    &&& new.spec_recents() == old.spec_recents()
    &&& new.spec_bookmarks() == old.spec_bookmarks()
    &&& new.spec_context_menu() == old.spec_context_menu()
}

/// The new history of a navigation: the forward part dropped, `dir` added.
pub open spec fn pushed_history(h: Seq<Seq<char>>, pos: int, dir: Seq<char>) -> Seq<Seq<char>> {
    h.take(pos + 1).push(dir)
}

impl<H> Workspace<H> {
    /// Whether pane `pane` already shows `dir` (component-wise equal).
    pub fn is_current_dir(&self, pane: usize, dir: &str) -> (r: bool)
        requires
            self.wf(),
            pane < self.spec_panes().len(),
        ensures
            r == same_path(self.shown(pane as int).current_dir@, dir@),
    {
        paths_equal(self.tab(pane).current_dir.as_str(), dir)
    }

    /// Navigates pane `pane` into `dir` (listed as `entries`) when `dir` is a
    /// directory other than the one shown: the forward history is dropped
    /// and `dir` becomes its tip. Returns whether it navigated.
    pub fn navigate_in(&mut self, pane: usize, dir: String, dir_is_dir: bool, entries: Vec<Entry>) -> (r: bool)
        requires
            old(self).wf(),
            pane < old(self).spec_panes().len(),
        ensures
            final(self).wf(),
            r == (dir_is_dir && !same_path(dir@, old(self).shown(pane as int).current_dir@)),
            !r ==> *final(self) == *old(self),
            r ==> moved_to(
                *old(self),
                *final(self),
                pane as int,
                dir@,
                entries@,
                pushed_history(
                    texts_of(old(self).shown(pane as int).history@),
                    old(self).shown(pane as int).hist_pos as int,
                    dir@,
                ),
                old(self).shown(pane as int).hist_pos + 1,
            ),
    {
        if !dir_is_dir {
            return false;
        }
        let same = paths_equal(dir.as_str(), self.tab(pane).current_dir.as_str());
        if same {
            return false;
        }
        let ghost w0 = *self;
        let ghost orig = self.spec_panes();
        self.active_pane = pane;
        let (pane_v, mut tab) = self.pop_shown(pane);
        let ghost t0 = tab;
        proof {
            assert(orig[pane as int].wf());
            assert(tab.wf());
        }
        let hl = tab.history.len();
        assert(tab.hist_pos < hl);
        tab.history.truncate(tab.hist_pos + 1);
        tab.history.push(dir.clone());
        tab.hist_pos = tab.history.len() - 1;
        tab.load(&dir, entries);
        proof {
            assert(texts_of(tab.history@) =~= pushed_history(
                texts_of(t0.history@),
                t0.hist_pos as int,
                dir@,
            ));
        }
        self.push_shown(pane, pane_v, tab);
        proof {
            lemma_pop_push(orig, self.spec_panes(), pane as int, pane_v.tabs@, pane_v.active as int, tab);
            lemma_replaced_wf(orig, self.spec_panes(), pane as int, tab);
        }
        self.recents = remember_dir(&self.recents, &dir);
        true
    }

    /// The directory the back arrow of pane `pane` leads to.
    pub fn back_target(&self, pane: usize) -> (r: Option<String>)
        requires
            self.wf(),
            pane < self.spec_panes().len(),
        ensures
            r is Some == (self.shown(pane as int).hist_pos > 0),
            r matches Some(d) ==> d == self.shown(pane as int).history@[self.shown(
                pane as int,
            ).hist_pos - 1],
    {
        let t = self.tab(pane);
        if t.hist_pos == 0 {
            None
        } else {
            Some(t.history[t.hist_pos - 1].clone())
        }
    }

    /// The directory the forward arrow of pane `pane` leads to.
    pub fn forward_target(&self, pane: usize) -> (r: Option<String>)
        requires
            self.wf(),
            pane < self.spec_panes().len(),
        ensures
            r is Some == (self.shown(pane as int).hist_pos + 1 < self.shown(
                pane as int,
            ).history@.len()),
            r matches Some(d) ==> d == self.shown(pane as int).history@[self.shown(
                pane as int,
            ).hist_pos + 1],
    {
        let t = self.tab(pane);
        if t.hist_pos < t.history.len() - 1 {
            Some(t.history[t.hist_pos + 1].clone())
        } else {
            None
        }
    }

    /// Goes back one step in pane `pane`'s history, loading the earlier
    /// directory (listed as `entries`). The pane becomes active either way.
    /// Returns whether it moved.
    pub fn go_back(&mut self, pane: usize, entries: Vec<Entry>) -> (r: bool)
        requires
            old(self).wf(),
            pane < old(self).spec_panes().len(),
        ensures
            final(self).wf(),
            r == (old(self).shown(pane as int).hist_pos > 0),
            !r ==> only_activated(*old(self), *final(self), pane as int),
            r ==> moved_to(
                *old(self),
                *final(self),
                pane as int,
                old(self).shown(pane as int).history@[old(self).shown(pane as int).hist_pos
                    - 1]@,
                entries@,
                texts_of(old(self).shown(pane as int).history@),
                old(self).shown(pane as int).hist_pos - 1,
            ),
    {
        self.active_pane = pane;
        if self.tab(pane).hist_pos == 0 {
            return false;
        }
        let ghost orig = self.spec_panes();
        let (pane_v, mut tab) = self.pop_shown(pane);
        tab.hist_pos = tab.hist_pos - 1;
        let dir = tab.history[tab.hist_pos].clone();
        tab.load(&dir, entries);
        self.push_shown(pane, pane_v, tab);
        proof {
            lemma_pop_push(orig, self.spec_panes(), pane as int, pane_v.tabs@, pane_v.active as int, tab);
            lemma_replaced_wf(orig, self.spec_panes(), pane as int, tab);
        }
        self.recents = remember_dir(&self.recents, &dir);
        true
    }

    /// Goes forward one step in pane `pane`'s history, loading the later
    /// directory (listed as `entries`). The pane becomes active either way.
    /// Returns whether it moved.
    pub fn go_forward(&mut self, pane: usize, entries: Vec<Entry>) -> (r: bool)
        requires
            old(self).wf(),
            pane < old(self).spec_panes().len(),
        ensures
            final(self).wf(),
            r == (old(self).shown(pane as int).hist_pos + 1 < old(self).shown(
                pane as int,
            ).history@.len()),
            !r ==> only_activated(*old(self), *final(self), pane as int),
            r ==> moved_to(
                *old(self),
                *final(self),
                pane as int,
                old(self).shown(pane as int).history@[old(self).shown(pane as int).hist_pos
                    + 1]@,
                entries@,
                texts_of(old(self).shown(pane as int).history@),
                old(self).shown(pane as int).hist_pos + 1,
            ),
    {
        self.active_pane = pane;
        {
            let t = self.tab(pane);
            if t.hist_pos >= t.history.len() - 1 {
                return false;
            }
        }
        let ghost orig = self.spec_panes();
        let (pane_v, mut tab) = self.pop_shown(pane);
        tab.hist_pos = tab.hist_pos + 1;
        let dir = tab.history[tab.hist_pos].clone();
        tab.load(&dir, entries);
        self.push_shown(pane, pane_v, tab);
        proof {
            lemma_pop_push(orig, self.spec_panes(), pane as int, pane_v.tabs@, pane_v.active as int, tab);
            lemma_replaced_wf(orig, self.spec_panes(), pane as int, tab);
        }
        self.recents = remember_dir(&self.recents, &dir);
        true
    }
}


/// After going back, going forward returns the pane to the directory it
/// was in, at the same history position, with the history untouched.
pub proof fn law_back_then_forward<H>(
    w0: Workspace<H>,
    w1: Workspace<H>,
    w2: Workspace<H>,
    pane: int,
    e1: Seq<Entry>,
    e2: Seq<Entry>,
)
    requires
        w0.wf(),
        0 <= pane < w0.spec_panes().len(),
        w0.shown(pane).hist_pos > 0,
        moved_to(
            w0,
            w1,
            pane,
            w0.shown(pane).history@[w0.shown(pane).hist_pos - 1]@,
            e1,
            texts_of(w0.shown(pane).history@),
            w0.shown(pane).hist_pos - 1,
        ),
        moved_to(
            w1,
            w2,
            pane,
            w1.shown(pane).history@[w1.shown(pane).hist_pos + 1]@,
            e2,
            texts_of(w1.shown(pane).history@),
            w1.shown(pane).hist_pos + 1,
        ),
    ensures
        w1.shown(pane).hist_pos + 1 < w1.shown(pane).history@.len(),
        w2.shown(pane).current_dir@ == w0.shown(pane).current_dir@,
        w2.shown(pane).hist_pos == w0.shown(pane).hist_pos,
        texts_of(w2.shown(pane).history@) == texts_of(w0.shown(pane).history@),
{
    let t0 = w0.shown(pane);
    assert(w0.spec_panes()[pane].wf());
    assert(t0.wf());
    let t1 = w1.shown(pane);
    assert(texts_of(t1.history@).len() == t1.history@.len());
    assert(texts_of(t0.history@).len() == t0.history@.len());
    assert(texts_of(t1.history@)[t0.hist_pos as int] == t1.history@[t0.hist_pos as int]@);
    assert(texts_of(t0.history@)[t0.hist_pos as int] == t0.history@[t0.hist_pos as int]@);
}

/// Navigating somewhere and going back returns to where the pane was, and
/// leaves exactly one step forward: the directory just left.
pub proof fn law_navigate_then_back<H>(
    w0: Workspace<H>,
    w1: Workspace<H>,
    w2: Workspace<H>,
    pane: int,
    dir: Seq<char>,
    e1: Seq<Entry>,
    e2: Seq<Entry>,
)
    requires
        w0.wf(),
        0 <= pane < w0.spec_panes().len(),
        moved_to(
            w0,
            w1,
            pane,
            dir,
            e1,
            pushed_history(texts_of(w0.shown(pane).history@), w0.shown(pane).hist_pos as int, dir),
            w0.shown(pane).hist_pos + 1,
        ),
        moved_to(
            w1,
            w2,
            pane,
            w1.shown(pane).history@[w1.shown(pane).hist_pos - 1]@,
            e2,
            texts_of(w1.shown(pane).history@),
            w1.shown(pane).hist_pos - 1,
        ),
    ensures
        w2.shown(pane).current_dir@ == w0.shown(pane).current_dir@,
        w2.shown(pane).hist_pos == w0.shown(pane).hist_pos,
        w2.shown(pane).history@.len() == w0.shown(pane).hist_pos + 2,
        w2.shown(pane).history@[w2.shown(pane).hist_pos + 1]@ == dir,
{
    let t0 = w0.shown(pane);
    assert(w0.spec_panes()[pane].wf());
    assert(t0.wf());
    let t1 = w1.shown(pane);
    let t2 = w2.shown(pane);
    assert(texts_of(t2.history@).len() == t2.history@.len());
    assert(texts_of(t2.history@)[t0.hist_pos as int] == t2.history@[t0.hist_pos as int]@);
    assert(texts_of(t2.history@)[t0.hist_pos + 1] == t2.history@[t0.hist_pos + 1]@);
    assert(texts_of(t0.history@)[t0.hist_pos as int] == t0.history@[t0.hist_pos as int]@);
}

/// Visiting a folder puts it first in the recents, keeps no other entry for
/// the same path, never holds more than `RECENTS_CAP`, and keeps the
/// earlier entries in their order.
pub proof fn law_recents(list: Seq<Seq<char>>, dir: Seq<char>)
    ensures
        remember(list, dir).len() >= 1,
        remember(list, dir)[0] == dir,
        remember(list, dir).len() <= RECENTS_CAP,
        forall|i: int| 1 <= i < remember(list, dir).len() ==> !same_path(#[trigger] remember(list, dir)[i], dir),
        remember(list, dir).drop_first().is_prefix_of(list.filter(|p: Seq<char>| !same_path(p, dir))),
{
    let pred = |p: Seq<char>| !same_path(p, dir);
    let f = list.filter(pred);
    f.filter_lemma(pred);
    list.filter_lemma(pred);
    let kept = seq![dir] + f;
    let r = remember(list, dir);
    assert forall|i: int| 1 <= i < r.len() implies !same_path(#[trigger] r[i], dir) by {
        assert(r[i] == kept[i]);
        assert(kept[i] == f[i - 1]);
        assert(pred(list.filter(pred)[i - 1]));
    }
    assert(r.drop_first() =~= f.take(r.len() - 1));
}


/// Every pane but `pane` is the same in `after` as in `before`.
pub open spec fn others_kept<H>(before: Seq<Pane<H>>, after: Seq<Pane<H>>, pane: int) -> bool {
    forall|q: int| 0 <= q < before.len() && q != pane ==> #[trigger] after[q] == before[q]
}

impl<H> Workspace<H> {
    /// Opens a new tab in pane `pane` on that pane's current directory
    /// (listed as `entries`), shows it and makes the pane active.
    pub fn new_tab_in(&mut self, pane: usize, entries: Vec<Entry>, ui: H)
        requires
            old(self).wf(),
            pane < old(self).spec_panes().len(),
        ensures
            final(self).wf(),
            final(self).spec_active_pane() == pane,
            final(self).spec_panes().len() == old(self).spec_panes().len(),
            others_kept(old(self).spec_panes(), final(self).spec_panes(), pane as int),
            final(self).spec_panes()[pane as int].tabs@.len() == old(self).spec_panes()[pane as int].tabs@.len() + 1,
            final(self).spec_panes()[pane as int].tabs@.drop_last() == old(self).spec_panes()[pane as int].tabs@,
            final(self).spec_panes()[pane as int].active == old(self).spec_panes()[pane as int].tabs@.len(),
            ({
                let t = final(self).shown(pane as int);
                &&& t.current_dir@ == old(self).shown(pane as int).current_dir@
                &&& t.entries@ == entries@
                &&& t.history@.len() == 1
                &&& t.history@[0]@ == old(self).shown(pane as int).current_dir@
                &&& t.hist_pos == 0
                &&& t.deepest matches Some(d) && d@ == old(self).shown(pane as int).current_dir@
                &&& t.editing_path is None
                &&& t.find_query is None
                &&& t.find_results@.len() == 0
                &&& t.ui == ui
            }),
            final(self).spec_recents() == old(self).spec_recents(),
            final(self).spec_bookmarks() == old(self).spec_bookmarks(),
            final(self).spec_context_menu() == old(self).spec_context_menu(),
    {
        let dir = self.tab(pane).current_dir.clone();
        let tab = Tab::new(dir, entries, ui);
        let mut p = self.panes.remove(pane);
        let ghost before = self.panes@;
        p.tabs.push(tab);
        p.active = p.tabs.len() - 1;
        self.panes.insert(pane, p);
        self.active_pane = pane;
        proof {
            assert forall|q: int| 0 <= q < self.panes@.len() implies (#[trigger] self.panes@[q]).wf() by {
                if q != pane {
                    if q < pane {
                        assert(self.panes@[q] == before[q]);
                    } else {
                        assert(self.panes@[q] == before[q - 1]);
                    }
                } else {
                    assert(p.tabs@.drop_last() =~= old(self).panes@[pane as int].tabs@);
                    assert(old(self).panes@[pane as int].wf());
                    assert forall|t: int| 0 <= t < p.tabs@.len() implies (#[trigger] p.tabs@[t]).wf() by {
                        if t < p.tabs@.len() - 1 {
                            assert(p.tabs@[t] == old(self).panes@[pane as int].tabs@[t]);
                        }
                    }
                }
            }
            assert forall|q: int| 0 <= q < old(self).panes@.len() && q != pane implies #[trigger] self.panes@[q] == old(self).panes@[q] by {
                if q < pane {
                    assert(self.panes@[q] == before[q]);
                } else {
                    assert(self.panes@[q] == before[q - 1]);
                }
            }
            assert(p.tabs@.drop_last() =~= old(self).panes@[pane as int].tabs@);
        }
    }

    /// Shows tab `tab` of pane `pane` (when it exists) and makes the pane
    /// active.
    pub fn select_tab(&mut self, pane: usize, tab: usize)
        requires
            old(self).wf(),
            pane < old(self).spec_panes().len(),
        ensures
            final(self).wf(),
            final(self).spec_active_pane() == pane,
            final(self).spec_panes().len() == old(self).spec_panes().len(),
            others_kept(old(self).spec_panes(), final(self).spec_panes(), pane as int),
            final(self).spec_panes()[pane as int].tabs == old(self).spec_panes()[pane as int].tabs,
            final(self).spec_panes()[pane as int].active == if tab < old(self).spec_panes()[pane as int].tabs@.len() {
                tab
            } else {
                old(self).spec_panes()[pane as int].active
            },
            final(self).spec_recents() == old(self).spec_recents(),
            final(self).spec_bookmarks() == old(self).spec_bookmarks(),
            final(self).spec_context_menu() == old(self).spec_context_menu(),
    {
        self.active_pane = pane;
        let mut p = self.panes.remove(pane);
        let ghost before = self.panes@;
        proof {
            assert(old(self).panes@[pane as int].wf());
        }
        if tab < p.tabs.len() {
            p.active = tab;
        }
        self.panes.insert(pane, p);
        proof {
            assert forall|q: int| 0 <= q < old(self).panes@.len() && q != pane implies #[trigger] self.panes@[q] == old(self).panes@[q] by {
                if q < pane {
                    assert(self.panes@[q] == before[q]);
                } else {
                    assert(self.panes@[q] == before[q - 1]);
                }
            }
            assert forall|q: int| 0 <= q < self.panes@.len() implies (#[trigger] self.panes@[q]).wf() by {
                if q != pane {
                    assert(self.panes@[q] == old(self).panes@[q]);
                }
            }
        }
    }
}

/// Payload of a tab drag: which tab of which pane is dragged.
pub struct TabDrag {
    pub pane: usize,
    pub tab: usize,
}

/// What closing or moving a tab did to the arrangement.
pub struct LayoutChange {
    /// Whether anything changed.
    pub changed: bool,
    /// Whether the divider between two panes goes back to the middle.
    pub reset_split: bool,
}

impl<H> Workspace<H> {
    /// Closes tab `tab` of pane `pane`. A pane's last tab takes the pane with
    /// it; the last tab of the only pane stays. The active pane is kept, or
    /// moved to the last pane when it no longer exists.
    pub fn close_tab(&mut self, pane: usize, tab: usize) -> (r: LayoutChange)
        requires
            old(self).wf(),
        ensures
            final(self).wf(),
            r.changed == can_close(layout(old(self).spec_panes()), pane as int, tab as int),
            !r.changed ==> *final(self) == *old(self),
            r.changed ==> layout(final(self).spec_panes()) == closed_layout(
                layout(old(self).spec_panes()),
                pane as int,
                tab as int,
            ),
            r.changed ==> final(self).spec_active_pane() == if old(self).spec_active_pane()
                < final(self).spec_panes().len() {
                old(self).spec_active_pane() as int
            } else {
                final(self).spec_panes().len() - 1
            },
            r.reset_split == (r.changed && old(self).spec_panes()[pane as int].tabs@.len() == 1),
            final(self).spec_recents() == old(self).spec_recents(),
            final(self).spec_bookmarks() == old(self).spec_bookmarks(),
            final(self).spec_context_menu() == old(self).spec_context_menu(),
    {
        if pane >= self.panes.len() || tab >= self.panes[pane].tabs.len() {
            return LayoutChange { changed: false, reset_split: false };
        }
        let ghost l = layout(self.panes@);
        proof {
            lemma_layout_ok(self.panes@);
            assert(self.panes@[pane as int].wf());
        }
        let reset;
        if self.panes[pane].tabs.len() > 1 {
            let mut p = self.panes.remove(pane);
            let ghost before = self.panes@;
            p.tabs.remove(tab);
            if p.active >= p.tabs.len() {
                p.active = p.tabs.len() - 1;
            } else if tab < p.active {
                p.active = p.active - 1;
            }
            self.panes.insert(pane, p);
            proof {
                assert(layout(self.panes@) =~= l.update(
                    pane as int,
                    after_removal(l[pane as int].0, l[pane as int].1, tab as int),
                ));
            }
            reset = false;
        } else if self.panes.len() > 1 {
            self.panes.remove(pane);
            proof {
                assert(layout(self.panes@) =~= l.remove(pane as int));
            }
            reset = true;
        } else {
            return LayoutChange { changed: false, reset_split: false };
        }
        if self.active_pane >= self.panes.len() {
            self.active_pane = self.panes.len() - 1;
        }
        proof {
            lemma_close_ok(l, pane as int, tab as int);
            lemma_layout_ok(self.panes@);
        }
        LayoutChange { changed: true, reset_split: reset }
    }

    /// Drops the dragged tab `from` at position `to_index` of pane
    /// `to_pane`; `to_pane` at or past the pane count opens a new pane on
    /// the right with that tab (unless two panes are already shown, when the
    /// drop does nothing). An emptied source pane is removed, and the
    /// pane that received the tab becomes active, showing it.
    #[verifier::spinoff_prover]
    #[verifier::rlimit(50)]
    pub fn move_tab(&mut self, from: TabDrag, to_pane: usize, to_index: usize) -> (r: LayoutChange)
        requires
            old(self).wf(),
        ensures
            final(self).wf(),
            r.changed == can_move(layout(old(self).spec_panes()), from.pane as int, from.tab as int, to_pane as int),
            !r.changed ==> *final(self) == *old(self),
            r.changed ==> (layout(final(self).spec_panes()), final(self).spec_active_pane() as int) == moved_layout(
                layout(old(self).spec_panes()),
                from.pane as int,
                from.tab as int,
                to_pane as int,
                to_index as int,
            ),
            r.reset_split == (r.changed && move_resets_split(
                layout(old(self).spec_panes()),
                from.pane as int,
                from.tab as int,
                to_pane as int,
            )),
            final(self).spec_recents() == old(self).spec_recents(),
            final(self).spec_bookmarks() == old(self).spec_bookmarks(),
            final(self).spec_context_menu() == old(self).spec_context_menu(),
    {
        if from.pane >= self.panes.len() || from.tab >= self.panes[from.pane].tabs.len() {
            return LayoutChange { changed: false, reset_split: false };
        }
        let splitting = to_pane >= self.panes.len();
        if splitting && self.panes[from.pane].tabs.len() == 1 && self.panes.len() == 1 {
            return LayoutChange { changed: false, reset_split: false };
        }
        // Two panes are as many as are shown side by side.
        if splitting && self.panes.len() >= MAX_PANES {
            return LayoutChange { changed: false, reset_split: false };
        }
        let ghost l = layout(self.panes@);
        proof {
            lemma_layout_ok(self.panes@);
            assert(self.panes@[from.pane as int].wf());
            lemma_move_ok(l, from.pane as int, from.tab as int, to_pane as int, to_index as int);
        }
        let ghost src_v = after_removal(l[from.pane as int].0, l[from.pane as int].1, from.tab as int);
        let mut src = self.panes.remove(from.pane);
        let tab = src.tabs.remove(from.tab);
        if src.tabs.len() > 0 {
            if src.active >= src.tabs.len() {
                src.active = src.tabs.len() - 1;
            } else if from.tab < src.active {
                src.active = src.active - 1;
            }
        }
        let src_empty = src.tabs.len() == 0;
        self.panes.insert(from.pane, src);
        let ghost l1 = l.update(from.pane as int, src_v);
        proof {
            assert(layout(self.panes@) =~= l1);
        }
        if splitting {
            let mut tabs: Vec<Tab<H>> = Vec::new();
            tabs.push(tab);
            self.panes.push(Pane { tabs, active: 0 });
            proof {
                assert(layout(self.panes@) =~= l1.push((seq![l[from.pane as int].0[from.tab as int]], 0int)));
            }
            if src_empty {
                let ghost l2 = layout(self.panes@);
                self.panes.remove(from.pane);
                proof {
                    assert(layout(self.panes@) =~= l2.remove(from.pane as int));
                }
            }
            self.active_pane = self.panes.len() - 1;
            proof {
                lemma_layout_ok(self.panes@);
            }
            LayoutChange { changed: true, reset_split: true }
        } else {
            let mut idx = to_index;
            if to_pane == from.pane && from.tab < to_index {
                idx = idx - 1;
            }
            let mut dst = self.panes.remove(to_pane);
            let at = if idx < dst.tabs.len() {
                idx
            } else {
                dst.tabs.len()
            };
            dst.tabs.insert(at, tab);
            dst.active = at;
            self.panes.insert(to_pane, dst);
            proof {
                assert(layout(self.panes@) =~= l1.update(
                    to_pane as int,
                    (l1[to_pane as int].0.insert(at as int, l[from.pane as int].0[from.tab as int]), at as int),
                ));
            }
            let mut d = to_pane;
            let mut reset = false;
            if src_empty && from.pane != to_pane {
                let ghost l2 = layout(self.panes@);
                self.panes.remove(from.pane);
                proof {
                    assert(layout(self.panes@) =~= l2.remove(from.pane as int));
                }
                if from.pane < to_pane {
                    d = to_pane - 1;
                }
                reset = true;
            }
            self.active_pane = d;
            proof {
                lemma_layout_ok(self.panes@);
            }
            LayoutChange { changed: true, reset_split: reset }
        }
    }
}

/// An edit of a line of text: delete the last character, paste (trimmed),
/// or type.
pub enum TextEdit {
    Backspace,
    Paste(String),
    Type(String),
}

/// The text after an edit.
pub open spec fn edited(s: Seq<char>, e: TextEdit) -> Seq<char> {
    match e {
        TextEdit::Backspace => drop_last_char(s),
        TextEdit::Paste(t) => s + trim(t@),
        TextEdit::Type(t) => s + t@,
    }
}

pub fn apply_edit(s: &str, e: &TextEdit) -> (r: String)
    ensures
        r@ == edited(s@, *e),
{
    match e {
        TextEdit::Backspace => without_last_char(s),
        TextEdit::Paste(t) => {
            let tt = trim_str(t.as_str());
            append_text(s, tt.as_str())
        },
        TextEdit::Type(t) => append_text(s, t.as_str()),
    }
}

/// Backspace takes back one typed character.
pub proof fn law_backspace_undoes_typing(s: Seq<char>, t: String)
    requires
        t@.len() == 1,
    ensures
        edited(edited(s, TextEdit::Type(t)), TextEdit::Backspace) == s,
{
    assert((s + t@).drop_last() =~= s);
}

/// Two tabs agree on everything but the path editor.
pub open spec fn same_but_editor<H>(a: Tab<H>, b: Tab<H>) -> bool {
    &&& a.current_dir == b.current_dir
    &&& a.entries == b.entries
    &&& a.history == b.history
    &&& a.hist_pos == b.hist_pos
    &&& a.deepest == b.deepest
    &&& a.find_query == b.find_query
    &&& a.find_results == b.find_results
    &&& a.ui == b.ui
}

/// Two tabs agree on everything but the filter.
pub open spec fn same_but_filter<H>(a: Tab<H>, b: Tab<H>) -> bool {
    &&& a.current_dir == b.current_dir
    &&& a.entries == b.entries
    &&& a.history == b.history
    &&& a.hist_pos == b.hist_pos
    &&& a.deepest == b.deepest
    &&& a.editing_path == b.editing_path
    &&& a.ui == b.ui
}

/// Pane `pane` of `new` shows `tab` in place of `old`'s shown tab; nothing
/// else but the active pane differs.
pub open spec fn shown_replaced<H>(old: Workspace<H>, new: Workspace<H>, pane: int, tab: Tab<H>) -> bool {
    &&& replaced_shown(old.spec_panes(), new.spec_panes(), pane, tab)
    &&& new.spec_recents() == old.spec_recents()
    &&& new.spec_bookmarks() == old.spec_bookmarks()
    &&& new.spec_context_menu() == old.spec_context_menu()
}

/// Every entry position of a listing, in order.
pub open spec fn all_positions(n: nat) -> Seq<usize> {
    Seq::new(n, |i: int| i as usize)
}

/// The positions of the entries that have a score.
pub open spec fn scored_positions(scores: Seq<Option<i32>>) -> Seq<usize> {
    all_positions(scores.len()).filter(|i: usize| scores[i as int] is Some)
}

/// The filter's sort key of entry `i`: the score, then directories, then the
/// lowercased name.
pub open spec fn filter_key(scores: Seq<Option<i32>>, entries: Seq<Entry>, i: usize) -> KeyView {
    (
        scores[i as int]->Some_0 as int,
        if entries[i as int].is_dir {
            1int
        } else {
            0int
        },
        lowercase(entries[i as int].name@),
    )
}

/// The filter's results: the scored entries, best score first, then
/// directories, then by lowercased name, ties in listing order.
pub open spec fn filter_order(scores: Seq<Option<i32>>, entries: Seq<Entry>) -> Seq<usize> {
    let ids = scored_positions(scores);
    ranked(ids.map_values(|i: usize| filter_key(scores, entries, i)), ids)
}

/// The results of a filter with query `q` over `entries` scored `scores`:
/// everything when the trimmed query is blank, else the ranked matches.
pub open spec fn filter_results(q: Seq<char>, scores: Seq<Option<i32>>, entries: Seq<Entry>) -> Seq<usize> {
    if trim(q).len() == 0 {
        all_positions(entries.len())
    } else {
        filter_order(scores, entries)
    }
}

fn positions_upto(n: usize) -> (r: Vec<usize>)
    ensures
        r@ == all_positions(n as nat),
{
    let mut r: Vec<usize> = Vec::new();
    let mut i: usize = 0;
    while i < n
        invariant
            i <= n,
            r@ == all_positions(i as nat),
        decreases n - i,
    {
        r.push(i);
        proof {
            assert(all_positions(i as nat + 1) =~= all_positions(i as nat).push(i));
        }
        i = i + 1;
    }
    r
}

/// The ranked filter results for the given scores (one per entry).
pub fn rank_filter(scores: &Vec<Option<i32>>, entries: &Vec<Entry>) -> (r: Vec<usize>)
    requires
        scores@.len() == entries@.len(),
    ensures
        r@ == filter_order(scores@, entries@),
{
    let ghost pred = |i: usize| scores@[i as int] is Some;
    let mut ids: Vec<usize> = Vec::new();
    let mut keys: Vec<RankKey> = Vec::new();
    let mut i: usize = 0;
    proof {
        assert(all_positions(0).filter(pred) =~= Seq::<usize>::empty()) by {
            reveal_with_fuel(Seq::<_>::filter, 1);
        }
    }
    while i < scores.len()
        invariant
            i <= scores@.len(),
            scores@.len() == entries@.len(),
            pred == (|i: usize| scores@[i as int] is Some),
            ids@ == all_positions(i as nat).filter(pred),
            views(keys@) == ids@.map_values(|j: usize| filter_key(scores@, entries@, j)),
        decreases scores.len() - i,
    {
        proof {
            assert(all_positions(i as nat + 1) =~= all_positions(i as nat).push(i));
            all_positions(i as nat).lemma_filter_push(i, pred);
        }
        match scores[i] {
            Some(s) => {
                let ghost kv = keys@;
                let ghost iv = ids@;
                let name = to_lowercase(entries[i].name.as_str());
                let key = RankKey {
                    primary: s as i128,
                    secondary: if entries[i].is_dir {
                        1
                    } else {
                        0
                    },
                    name: chars_of(name.as_str()),
                };
                keys.push(key);
                ids.push(i);
                proof {
                    assert(views(keys@) =~= views(kv).push(key@));
                    assert(ids@.map_values(|j: usize| filter_key(scores@, entries@, j)) =~= iv.map_values(
                        |j: usize| filter_key(scores@, entries@, j),
                    ).push(filter_key(scores@, entries@, i)));
                }
            },
            None => {},
        }
        i = i + 1;
    }
    proof {
        assert(views(keys@).len() == keys@.len());
    }
    rank_ids(&keys, &ids)
}

impl<H> Tab<H> {
    /// Sets the filter's results: every entry while the trimmed query is
    /// blank, else the entries with a score, ranked.
    pub fn recompute_filter(&mut self, scores: &Vec<Option<i32>>)
        requires
            scores@.len() == old(self).entries@.len(),
        ensures
            same_but_filter(*old(self), *final(self)),
            final(self).find_query == old(self).find_query,
            old(self).find_query is None ==> final(self).find_results == old(self).find_results,
            old(self).find_query matches Some(q) ==> final(self).find_results@ == filter_results(
                q@,
                scores@,
                old(self).entries@,
            ),
    {
        let blank = match &self.find_query {
            None => {
                return;
            },
            Some(q) => trim_str(q.as_str()).as_str().is_empty(),
        };
        if blank {
            self.find_results = positions_upto(self.entries.len());
        } else {
            self.find_results = rank_filter(scores, &self.entries);
        }
    }
}

impl<H> Workspace<H> {
    /// Puts pane `p` back with `tab` shown in place of the tab taken out.
    fn restore_shown(&mut self, p: usize, pane: Pane<H>, tab: Tab<H>, Ghost(orig): Ghost<Seq<Pane<H>>>)
        requires
            0 <= p < orig.len(),
            old(self).spec_panes() == orig.remove(p as int),
            pane.active == orig[p as int].active,
            pane.tabs@ == orig[p as int].tabs@.remove(pane.active as int),
            forall|q: int| 0 <= q < orig.len() ==> (#[trigger] orig[q]).wf(),
            tab.wf(),
        ensures
            replaced_shown(orig, final(self).spec_panes(), p as int, tab),
            forall|q: int| 0 <= q < final(self).spec_panes().len() ==> (#[trigger] final(self).spec_panes()[q]).wf(),
            final(self).spec_active_pane() == old(self).spec_active_pane(),
            final(self).spec_recents() == old(self).spec_recents(),
            final(self).spec_bookmarks() == old(self).spec_bookmarks(),
            final(self).spec_context_menu() == old(self).spec_context_menu(),
    {
        proof {
            assert(orig[p as int].wf());
        }
        let ghost rest = pane.tabs@;
        let ghost a = pane.active as int;
        self.push_shown(p, pane, tab);
        proof {
            lemma_pop_push(orig, self.spec_panes(), p as int, rest, a, tab);
            lemma_replaced_wf(orig, self.spec_panes(), p as int, tab);
        }
    }

    /// Opens the right-click menu on pane `pane` (the last pane when out of
    /// range), which becomes active, for `target` (`None`: empty space).
    pub fn open_context_menu(&mut self, pane: usize, target: Option<(String, bool)>)
        requires
            old(self).wf(),
        ensures
            final(self).wf(),
            final(self).spec_panes() == old(self).spec_panes(),
            final(self).spec_active_pane() == if pane < old(self).spec_panes().len() {
                pane as int
            } else {
                old(self).spec_panes().len() - 1
            },
            final(self).spec_context_menu() == Some(
                ContextMenu { pane: final(self).spec_active_pane(), target },
            ),
            final(self).spec_recents() == old(self).spec_recents(),
            final(self).spec_bookmarks() == old(self).spec_bookmarks(),
    {
        let last = self.panes.len() - 1;
        self.active_pane = if pane < last {
            pane
        } else {
            last
        };
        self.context_menu = Some(ContextMenu { pane: self.active_pane, target });
    }

    /// Makes pane `pane` the active one (a click or a scroll in it); a pane
    /// that does not exist changes nothing.
    pub fn activate_pane(&mut self, pane: usize)
        requires
            old(self).wf(),
        ensures
            final(self).wf(),
            pane < old(self).spec_panes().len() ==> only_activated(*old(self), *final(self), pane as int),
            pane >= old(self).spec_panes().len() ==> *final(self) == *old(self),
    {
        if pane < self.panes.len() {
            self.active_pane = pane;
        }
    }

    /// Closes the right-click menu; returns whether one was open.
    pub fn close_context_menu(&mut self) -> (r: bool)
        ensures
            r == old(self).spec_context_menu() is Some,
            final(self).spec_context_menu() is None,
            final(self).spec_panes() == old(self).spec_panes(),
            final(self).spec_active_pane() == old(self).spec_active_pane(),
            final(self).spec_recents() == old(self).spec_recents(),
            final(self).spec_bookmarks() == old(self).spec_bookmarks(),
    {
        let was = self.context_menu.is_some();
        self.context_menu = None;
        was
    }

    /// Replaces the listing of pane `pane`'s shown tab with `entries`, read
    /// again after a change on disk.
    pub fn refresh_pane(&mut self, pane: usize, entries: Vec<Entry>)
        requires
            old(self).wf(),
            pane < old(self).spec_panes().len(),
        ensures
            final(self).wf(),
            shown_replaced(*old(self), *final(self), pane as int, final(self).shown(pane as int)),
            final(self).spec_active_pane() == old(self).spec_active_pane(),
            final(self).shown(pane as int) == (Tab { entries, ..old(self).shown(pane as int) }),
    {
        let ghost orig = self.spec_panes();
        let (pv, mut tab) = self.pop_shown(pane);
        tab.entries = entries;
        self.restore_shown(pane, pv, tab, Ghost(orig));
    }

    /// Pins the active tab's directory to the bookmarks unless a bookmark
    /// for the same path exists; returns whether it was added.
    pub fn add_bookmark(&mut self) -> (r: bool)
        requires
            old(self).wf(),
        ensures
            final(self).wf(),
            final(self).spec_bookmarks() == bookmarked(
                old(self).spec_bookmarks(),
                old(self).shown(old(self).spec_active_pane() as int).current_dir@,
            ),
            r == (final(self).spec_bookmarks() != old(self).spec_bookmarks()),
            final(self).spec_panes() == old(self).spec_panes(),
            final(self).spec_active_pane() == old(self).spec_active_pane(),
            final(self).spec_recents() == old(self).spec_recents(),
            final(self).spec_context_menu() == old(self).spec_context_menu(),
    {
        let dir = self.active_tab().current_dir.clone();
        let ghost l = texts_of(self.bookmarks@);
        let mut i: usize = 0;
        while i < self.bookmarks.len()
            invariant
                i <= self.bookmarks@.len(),
                *self == *old(self),
                self.wf(),
                dir@ == self.shown(self.spec_active_pane() as int).current_dir@,
                l == texts_of(self.bookmarks@),
                forall|k: int| 0 <= k < i ==> !same_path(#[trigger] l[k], dir@),
            decreases self.bookmarks.len() - i,
        {
            if paths_equal(self.bookmarks[i].as_str(), dir.as_str()) {
                proof {
                    assert(same_path(l[i as int], dir@));
                }
                return false;
            }
            i = i + 1;
        }
        let ghost before = self.bookmarks@;
        self.bookmarks.push(dir);
        proof {
            assert(texts_of(self.bookmarks@) =~= l.push(dir@));
            assert(texts_of(self.bookmarks@).len() != l.len());
        }
        true
    }
}

/// The bookmarks after pinning `dir`: unchanged when some bookmark is the
/// same path, else `dir` added at the end.
pub open spec fn bookmarked(list: Seq<Seq<char>>, dir: Seq<char>) -> Seq<Seq<char>> {
    if exists|k: int| 0 <= k < list.len() && same_path(#[trigger] list[k], dir) {
        list
    } else {
        list.push(dir)
    }
}

/// Pinning a folder twice is the same as pinning it once, and afterwards a
/// bookmark for it exists.
pub proof fn law_bookmark_idempotent(list: Seq<Seq<char>>, dir: Seq<char>)
    ensures
        bookmarked(bookmarked(list, dir), dir) == bookmarked(list, dir),
        exists|k: int| 0 <= k < bookmarked(list, dir).len() && same_path(#[trigger] bookmarked(list, dir)[k], dir),
{
    let b = bookmarked(list, dir);
    if !(exists|k: int| 0 <= k < list.len() && same_path(#[trigger] list[k], dir)) {
        assert(b[list.len() as int] == dir);
        assert(same_path(b[list.len() as int], dir));
    }
}

impl<H> Workspace<H> {
    /// Turns pane `pane`'s path bar into an editor holding its current
    /// directory; the pane becomes active.
    pub fn begin_path_edit(&mut self, pane: usize)
        requires
            old(self).wf(),
            pane < old(self).spec_panes().len(),
        ensures
            final(self).wf(),
            shown_replaced(*old(self), *final(self), pane as int, final(self).shown(pane as int)),
            final(self).spec_active_pane() == pane,
            same_but_editor(old(self).shown(pane as int), final(self).shown(pane as int)),
            final(self).shown(pane as int).editing_path matches Some(t) && t@ == old(self).shown(
                pane as int,
            ).current_dir@,
    {
        self.active_pane = pane;
        let ghost orig = self.spec_panes();
        let (pv, mut tab) = self.pop_shown(pane);
        tab.editing_path = Some(tab.current_dir.clone());
        self.restore_shown(pane, pv, tab, Ghost(orig));
    }

    /// Closes pane `pane`'s path editor without navigating.
    pub fn cancel_path_edit(&mut self, pane: usize)
        requires
            old(self).wf(),
            pane < old(self).spec_panes().len(),
        ensures
            final(self).wf(),
            shown_replaced(*old(self), *final(self), pane as int, final(self).shown(pane as int)),
            final(self).spec_active_pane() == old(self).spec_active_pane(),
            same_but_editor(old(self).shown(pane as int), final(self).shown(pane as int)),
            final(self).shown(pane as int).editing_path is None,
    {
        let ghost orig = self.spec_panes();
        let (pv, mut tab) = self.pop_shown(pane);
        tab.editing_path = None;
        self.restore_shown(pane, pv, tab, Ghost(orig));
    }

    /// Applies `e` to the text of pane `pane`'s path editor, when open.
    pub fn edit_path(&mut self, pane: usize, e: &TextEdit)
        requires
            old(self).wf(),
            pane < old(self).spec_panes().len(),
        ensures
            final(self).wf(),
            shown_replaced(*old(self), *final(self), pane as int, final(self).shown(pane as int)),
            final(self).spec_active_pane() == old(self).spec_active_pane(),
            same_but_editor(old(self).shown(pane as int), final(self).shown(pane as int)),
            match old(self).shown(pane as int).editing_path {
                None => final(self).shown(pane as int).editing_path is None,
                Some(t) => final(self).shown(pane as int).editing_path matches Some(n) && n@ == edited(
                    t@,
                    *e,
                ),
            },
    {
        let ghost orig = self.spec_panes();
        let (pv, mut tab) = self.pop_shown(pane);
        let next = match &tab.editing_path {
            Some(t) => Some(apply_edit(t.as_str(), e)),
            None => None,
        };
        tab.editing_path = next;
        self.restore_shown(pane, pv, tab, Ghost(orig));
    }

    /// Closes pane `pane`'s path editor and returns the typed path, trimmed
    /// and with a leading `~` expanded against `home`; `None` when no editor
    /// was open. Navigating there is the caller's, if it is a directory.
    pub fn commit_path_edit(&mut self, pane: usize, home: &str) -> (r: Option<String>)
        requires
            old(self).wf(),
            pane < old(self).spec_panes().len(),
        ensures
            final(self).wf(),
            shown_replaced(*old(self), *final(self), pane as int, final(self).shown(pane as int)),
            final(self).spec_active_pane() == old(self).spec_active_pane(),
            same_but_editor(old(self).shown(pane as int), final(self).shown(pane as int)),
            final(self).shown(pane as int).editing_path is None,
            match old(self).shown(pane as int).editing_path {
                None => r is None,
                Some(t) => r matches Some(p) && p@ == expand_home(trim(t@), home@),
            },
    {
        let ghost orig = self.spec_panes();
        let (pv, mut tab) = self.pop_shown(pane);
        let r = match &tab.editing_path {
            Some(t) => {
                let tt = trim_str(t.as_str());
                Some(expand_path(tt.as_str(), home))
            },
            None => None,
        };
        tab.editing_path = None;
        self.restore_shown(pane, pv, tab, Ghost(orig));
        r
    }

    /// Opens pane `pane`'s filter with an empty query, showing every entry;
    /// the pane becomes active.
    pub fn open_filter(&mut self, pane: usize)
        requires
            old(self).wf(),
            pane < old(self).spec_panes().len(),
        ensures
            final(self).wf(),
            shown_replaced(*old(self), *final(self), pane as int, final(self).shown(pane as int)),
            final(self).spec_active_pane() == pane,
            same_but_filter(old(self).shown(pane as int), final(self).shown(pane as int)),
            final(self).shown(pane as int).find_query matches Some(q) && q@.len() == 0,
            final(self).shown(pane as int).find_results@ == all_positions(
                old(self).shown(pane as int).entries@.len(),
            ),
    {
        self.active_pane = pane;
        let ghost orig = self.spec_panes();
        let (pv, mut tab) = self.pop_shown(pane);
        tab.find_query = Some(String::new());
        tab.find_results = positions_upto(tab.entries.len());
        self.restore_shown(pane, pv, tab, Ghost(orig));
    }

    /// Closes pane `pane`'s filter.
    pub fn close_filter(&mut self, pane: usize)
        requires
            old(self).wf(),
            pane < old(self).spec_panes().len(),
        ensures
            final(self).wf(),
            shown_replaced(*old(self), *final(self), pane as int, final(self).shown(pane as int)),
            final(self).spec_active_pane() == old(self).spec_active_pane(),
            same_but_filter(old(self).shown(pane as int), final(self).shown(pane as int)),
            final(self).shown(pane as int).find_query is None,
            final(self).shown(pane as int).find_results@.len() == 0,
    {
        let ghost orig = self.spec_panes();
        let (pv, mut tab) = self.pop_shown(pane);
        tab.find_query = None;
        tab.find_results = Vec::new();
        self.restore_shown(pane, pv, tab, Ghost(orig));
    }

    /// Applies `e` to pane `pane`'s filter query, when open; the results are
    /// recomputed separately.
    pub fn edit_filter(&mut self, pane: usize, e: &TextEdit)
        requires
            old(self).wf(),
            pane < old(self).spec_panes().len(),
        ensures
            final(self).wf(),
            shown_replaced(*old(self), *final(self), pane as int, final(self).shown(pane as int)),
            final(self).spec_active_pane() == old(self).spec_active_pane(),
            same_but_filter(old(self).shown(pane as int), final(self).shown(pane as int)),
            final(self).shown(pane as int).find_results == old(self).shown(pane as int).find_results,
            match old(self).shown(pane as int).find_query {
                None => final(self).shown(pane as int).find_query is None,
                Some(t) => final(self).shown(pane as int).find_query matches Some(n) && n@ == edited(
                    t@,
                    *e,
                ),
            },
    {
        let ghost orig = self.spec_panes();
        let (pv, mut tab) = self.pop_shown(pane);
        let next = match &tab.find_query {
            Some(t) => Some(apply_edit(t.as_str(), e)),
            None => None,
        };
        tab.find_query = next;
        self.restore_shown(pane, pv, tab, Ghost(orig));
    }

    /// How the trimmed filter query of pane `pane` (empty when closed) rates
    /// each entry of the shown listing.
    pub fn filter_ranks(&self, pane: usize) -> (r: Vec<FindRank>)
        requires
            self.wf(),
            pane < self.spec_panes().len(),
        ensures
            r@.len() == self.shown(pane as int).entries@.len(),
            forall|i: int|
                0 <= i < r@.len() ==> find_rank_is(
                    #[trigger] r@[i],
                    trim(
                        match self.shown(pane as int).find_query {
                            Some(q) => q@,
                            None => Seq::empty(),
                        },
                    ),
                    self.shown(pane as int).entries@[i].name@,
                ),
    {
        let tab = self.tab(pane);
        let q = match &tab.find_query {
            Some(q) => trim_str(q.as_str()),
            None => trim_str(""),
        };
        proof {
            reveal_strlit("");
            assert(q@ == trim(
                match self.shown(pane as int).find_query {
                    Some(q) => q@,
                    None => Seq::empty(),
                },
            ));
        }
        let mut r: Vec<FindRank> = Vec::new();
        let mut i: usize = 0;
        while i < tab.entries.len()
            invariant
                i <= tab.entries@.len(),
                r@.len() == i,
                forall|k: int| 0 <= k < i ==> find_rank_is(#[trigger] r@[k], q@, tab.entries@[k].name@),
            decreases tab.entries.len() - i,
        {
            r.push(find_score(q.as_str(), tab.entries[i].name.as_str()));
            i = i + 1;
        }
        r
    }

    /// Recomputes pane `pane`'s filter results from one score per entry
    /// (`None`: no match).
    pub fn recompute_filter(&mut self, pane: usize, scores: &Vec<Option<i32>>)
        requires
            old(self).wf(),
            pane < old(self).spec_panes().len(),
            scores@.len() == old(self).shown(pane as int).entries@.len(),
        ensures
            final(self).wf(),
            shown_replaced(*old(self), *final(self), pane as int, final(self).shown(pane as int)),
            final(self).spec_active_pane() == old(self).spec_active_pane(),
            same_but_filter(old(self).shown(pane as int), final(self).shown(pane as int)),
            final(self).shown(pane as int).find_query == old(self).shown(pane as int).find_query,
            old(self).shown(pane as int).find_query is None ==> final(self).shown(pane as int).find_results
                == old(self).shown(pane as int).find_results,
            old(self).shown(pane as int).find_query matches Some(q) ==> final(self).shown(
                pane as int,
            ).find_results@ == filter_results(q@, scores@, old(self).shown(pane as int).entries@),
    {
        let ghost orig = self.spec_panes();
        let (pv, mut tab) = self.pop_shown(pane);
        tab.recompute_filter(scores);
        self.restore_shown(pane, pv, tab, Ghost(orig));
    }

    /// Enter in pane `pane`'s filter: with a result, closes the filter and
    /// returns the top match's path and whether it is a directory (opening it
    /// is the caller's); with none, changes nothing.
    pub fn filter_enter(&mut self, pane: usize) -> (r: Option<(String, bool)>)
        requires
            old(self).wf(),
            pane < old(self).spec_panes().len(),
            old(self).shown(pane as int).find_results@.len() > 0 ==> old(self).shown(
                pane as int,
            ).find_results@[0] < old(self).shown(pane as int).entries@.len(),
        ensures
            final(self).wf(),
            old(self).shown(pane as int).find_results@.len() == 0 ==> r is None && *final(self)
                == *old(self),
            old(self).shown(pane as int).find_results@.len() > 0 ==> {
                let t = old(self).shown(pane as int);
                let e = t.entries@[t.find_results@[0] as int];
                &&& r matches Some((p, d)) && p@ == join(t.current_dir@, e.name@) && d == e.is_dir
                &&& shown_replaced(*old(self), *final(self), pane as int, final(self).shown(pane as int))
                &&& final(self).spec_active_pane() == old(self).spec_active_pane()
                &&& same_but_filter(t, final(self).shown(pane as int))
                &&& final(self).shown(pane as int).find_query is None
                &&& final(self).shown(pane as int).find_results@.len() == 0
            },
    {
        let target = {
            let tab = self.tab(pane);
            if tab.find_results.len() == 0 {
                return None;
            }
            let i = tab.find_results[0];
            let e = &tab.entries[i];
            (join_path(tab.current_dir.as_str(), e.name.as_str()), e.is_dir)
        };
        self.close_filter(pane);
        Some(target)
    }
}

/// A listing's sort key: directories first, then by lowercased name.
pub open spec fn entry_key(e: Entry) -> KeyView {
    (
        if e.is_dir {
            1int
        } else {
            0int
        },
        0int,
        lowercase(e.name@),
    )
}

/// A listing in display order: directories first, then by lowercased name,
/// ties in the order read.
pub open spec fn sorted_listing(entries: Seq<Entry>) -> Seq<Entry> {
    ranked(entries.map_values(|e: Entry| entry_key(e)), entries)
}

/// Puts a directory's entries, as read, in display order.
pub fn sort_entries(entries: Vec<Entry>) -> (r: Vec<Entry>)
    ensures
        r@ == sorted_listing(entries@),
{
    let mut keys: Vec<RankKey> = Vec::new();
    let mut i: usize = 0;
    while i < entries.len()
        invariant
            i <= entries@.len(),
            views(keys@) == entries@.take(i as int).map_values(|e: Entry| entry_key(e)),
        decreases entries.len() - i,
    {
        let name = to_lowercase(entries[i].name.as_str());
        let key = RankKey {
            primary: if entries[i].is_dir {
                1
            } else {
                0
            },
            secondary: 0,
            name: chars_of(name.as_str()),
        };
        let ghost kv = keys@;
        keys.push(key);
        proof {
            assert(views(keys@) =~= views(kv).push(key@));
            assert(entries@.take(i as int + 1).map_values(|e: Entry| entry_key(e)) =~= entries@.take(
                i as int,
            ).map_values(|e: Entry| entry_key(e)).push(entry_key(entries@[i as int])));
        }
        i = i + 1;
    }
    proof {
        assert(entries@.take(entries@.len() as int) =~= entries@);
    }
    let pos = crate::order::rank_positions(&keys);
    let ghost order = crate::order::rank_order(views(keys@));
    let mut r: Vec<Entry> = Vec::new();
    let mut j: usize = 0;
    while j < pos.len()
        invariant
            j <= pos@.len(),
            pos@ == order,
            pos@.len() == entries@.len(),
            forall|k: int| 0 <= k < pos@.len() ==> pos@[k] < entries@.len(),
            r@ == order.take(j as int).map_values(|k: usize| entries@[k as int]),
        decreases pos.len() - j,
    {
        let e = copy_entry(&entries[pos[j]]);
        r.push(e);
        proof {
            assert(order.take(j as int + 1).map_values(|k: usize| entries@[k as int]) =~= order.take(
                j as int,
            ).map_values(|k: usize| entries@[k as int]).push(entries@[order[j as int] as int]));
        }
        j = j + 1;
    }
    proof {
        assert(order.take(order.len() as int) =~= order);
    }
    r
}

proof fn lemma_positions_filter(m: nat, pred: spec_fn(usize) -> bool)
    requires
        m <= usize::MAX + 1,
    ensures
        forall|k: int|
            0 <= k < all_positions(m).filter(pred).len() ==> (#[trigger] all_positions(m).filter(pred)[k]) < m
                && pred(all_positions(m).filter(pred)[k]),
        forall|i: usize| i < m && pred(i) ==> #[trigger] all_positions(m).filter(pred).contains(i),
        all_positions(m).filter(pred).no_duplicates(),
    decreases m,
{
    let f = all_positions(m).filter(pred);
    if m == 0 {
        assert(all_positions(0) =~= Seq::<usize>::empty());
        assert(f =~= Seq::<usize>::empty()) by {
            reveal_with_fuel(Seq::<_>::filter, 1);
        }
    } else {
        let m1 = (m - 1) as nat;
        let x = m1 as usize;
        lemma_positions_filter(m1, pred);
        let g = all_positions(m1).filter(pred);
        assert(all_positions(m) =~= all_positions(m1).push(x));
        all_positions(m1).lemma_filter_push(x, pred);
        if pred(x) {
            assert(f == g.push(x));
            assert forall|i: usize| i < m && pred(i) implies #[trigger] f.contains(i) by {
                if i == x {
                    assert(f[g.len() as int] == x);
                } else {
                    assert(g.contains(i));
                    let k = choose|k: int| 0 <= k < g.len() && g[k] == i;
                    assert(f[k] == i);
                }
            }
            assert forall|a: int, b: int| 0 <= a < f.len() && 0 <= b < f.len() && a != b implies f[a] != f[b] by {
                if a < g.len() && b < g.len() {
                    assert(f[a] == g[a] && f[b] == g[b]);
                } else if a < g.len() {
                    assert(f[a] == g[a]);
                    assert(g[a] < m1);
                } else {
                    assert(f[b] == g[b]);
                    assert(g[b] < m1);
                }
            }
        } else {
            assert(f == g);
        }
    }
}

/// With a non-blank query the filter shows exactly the entries that have a
/// score, each once, the best score first.
pub proof fn law_filter_best_first(q: Seq<char>, scores: Seq<Option<i32>>, entries: Seq<Entry>)
    requires
        trim(q).len() > 0,
        scores.len() == entries.len(),
        entries.len() <= usize::MAX,
    ensures
        filter_results(q, scores, entries).no_duplicates(),
        forall|k: int|
            0 <= k < filter_results(q, scores, entries).len() ==> (#[trigger] filter_results(q, scores, entries)[k])
                < entries.len() && scores[filter_results(q, scores, entries)[k] as int] is Some,
        forall|i: usize|
            i < entries.len() && scores[i as int] is Some ==> #[trigger] filter_results(q, scores, entries).contains(i),
        forall|a: int, b: int|
            0 <= a < b < filter_results(q, scores, entries).len() ==> scores[(#[trigger] filter_results(
                q,
                scores,
                entries,
            )[a]) as int]->Some_0 >= scores[(#[trigger] filter_results(q, scores, entries)[b]) as int]->Some_0,
{
    let pred = |i: usize| scores[i as int] is Some;
    let ids = scored_positions(scores);
    assert(ids == all_positions(scores.len()).filter(pred));
    lemma_positions_filter(scores.len(), pred);
    let kf = |i: usize| filter_key(scores, entries, i);
    let keys = ids.map_values(kf);
    let o = rank_order(keys);
    let r = filter_results(q, scores, entries);
    assert(ids.len() <= scores.len()) by {
        all_positions(scores.len()).lemma_filter_len(pred);
    }
    law_rank_order(keys);
    assert(r == o.map_values(|k: usize| ids[k as int]));
    assert forall|k: int| 0 <= k < r.len() implies (#[trigger] r[k]) < entries.len() && scores[r[k] as int] is Some by {
        assert(o[k] < keys.len());
        assert(r[k] == ids[o[k] as int]);
    }
    assert forall|i: usize| i < entries.len() && scores[i as int] is Some implies #[trigger] r.contains(i) by {
        assert(ids.contains(i));
        let m = choose|m: int| 0 <= m < ids.len() && ids[m] == i;
        assert(o.contains(m as usize));
        let k = choose|k: int| 0 <= k < o.len() && o[k] == m as usize;
        assert(r[k] == i);
    }
    assert forall|a: int, b: int| 0 <= a < r.len() && 0 <= b < r.len() && a != b implies r[a] != r[b] by {
        assert(r[a] == ids[o[a] as int]);
        assert(r[b] == ids[o[b] as int]);
        assert(o[a] != o[b]);
    }
    assert forall|a: int, b: int| 0 <= a < b < r.len() implies scores[(#[trigger] r[a]) as int]->Some_0
        >= scores[(#[trigger] r[b]) as int]->Some_0 by {
        assert(idx_leq(keys, o[a], o[b]));
        assert(keys[o[a] as int] == filter_key(scores, entries, ids[o[a] as int]));
        assert(keys[o[b] as int] == filter_key(scores, entries, ids[o[b] as int]));
        assert(r[a] == ids[o[a] as int]);
        assert(r[b] == ids[o[b] as int]);
    }
}

/// In a sorted listing no file comes before a directory, and among
/// directories, as among files, the lowercased names ascend.
pub proof fn law_listing_dirs_first(entries: Seq<Entry>)
    requires
        entries.len() <= usize::MAX,
    ensures
        sorted_listing(entries).len() == entries.len(),
        forall|a: int, b: int|
            0 <= a < b < entries.len() && (#[trigger] sorted_listing(entries)[b]).is_dir
                ==> (#[trigger] sorted_listing(entries)[a]).is_dir,
        forall|a: int, b: int|
            0 <= a < b < entries.len() && (#[trigger] sorted_listing(entries)[a]).is_dir == (
            #[trigger] sorted_listing(entries)[b]).is_dir ==> {
                let x = lowercase(sorted_listing(entries)[a].name@);
                let y = lowercase(sorted_listing(entries)[b].name@);
                text_lt(x, y) || x == y
            },
{
    let keys = entries.map_values(|e: Entry| entry_key(e));
    let o = rank_order(keys);
    law_rank_order(keys);
    let s = sorted_listing(entries);
    assert(s == o.map_values(|k: usize| entries[k as int]));
    assert forall|a: int, b: int|
        0 <= a < b < entries.len() && (#[trigger] s[b]).is_dir implies (#[trigger] s[a]).is_dir by {
        assert(idx_leq(keys, o[a], o[b]));
        assert(keys[o[a] as int] == entry_key(entries[o[a] as int]));
        assert(keys[o[b] as int] == entry_key(entries[o[b] as int]));
    }
    assert forall|a: int, b: int|
        0 <= a < b < entries.len() && (#[trigger] s[a]).is_dir == (#[trigger] s[b]).is_dir implies {
            let x = lowercase(s[a].name@);
            let y = lowercase(s[b].name@);
            text_lt(x, y) || x == y
        } by {
        assert(idx_leq(keys, o[a], o[b]));
        assert(keys[o[a] as int] == entry_key(entries[o[a] as int]));
        assert(keys[o[b] as int] == entry_key(entries[o[b] as int]));
    }
}

} // verus!
