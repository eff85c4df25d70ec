//! The command palette (Cmd+P): its query, its rows and the selection.
//!
//! An empty query shows the commands; a query starting with `/` or `~`
//! browses a directory; any other query searches by name. Listing a
//! directory and searching are the caller's: `refresh` says which to do, and
//! the `show_*` methods take what came back.

use vstd::prelude::*;
use crate::text::{trim, trim_str, chars_of, lowercase, to_lowercase};
use crate::path::{join, join_path, parent, path_parent, split_query, split_path_query};
use crate::order::{RankKey, KeyView, views, rank_order, rank_positions};
use crate::workspace::{TextEdit, edited, apply_edit};

verus! {

/// Rows shown in the palette before it scrolls.
pub const PALETTE_MAX_ROWS: usize = 7;

/// Most rows a directory listing yields.
pub const LISTING_CAP: usize = 50;

/// What activating a row does.
pub enum Action {
    /// Open a path (go into it when it is a directory, else to its parent).
    Open(String, bool),
    /// Copy the current directory's path.
    CopyDir,
    /// Open the Settings window.
    OpenSettings,
    /// Nothing ("path not found").
    Inert,
}

pub enum ActionView {
    Open(Seq<char>, bool),
    CopyDir,
    OpenSettings,
    Inert,
}

impl View for Action {
    type V = ActionView;

    open spec fn view(&self) -> ActionView {
        match self {
            Action::Open(p, d) => ActionView::Open(p@, *d),
            Action::CopyDir => ActionView::CopyDir,
            Action::OpenSettings => ActionView::OpenSettings,
            Action::Inert => ActionView::Inert,
        }
    }
}

/// One row: a title, a gray subtitle, what it does, and whether it stands
/// for a directory.
pub struct PaletteItem {
    pub title: String,
    pub subtitle: String,
    pub action: Action,
    pub is_dir: bool,
}

pub type ItemView = (Seq<char>, Seq<char>, ActionView, bool);

impl View for PaletteItem {
    type V = ItemView;

    open spec fn view(&self) -> ItemView {
        (self.title@, self.subtitle@, self.action@, self.is_dir)
    }
}

pub open spec fn items_view(items: Seq<PaletteItem>) -> Seq<ItemView> {
    items.map_values(|i: PaletteItem| i@)
}

/// The row that opens `path`, titled `title`.
pub open spec fn open_row(title: Seq<char>, path: Seq<char>, is_dir: bool) -> ItemView {
    (title, path, ActionView::Open(path, is_dir), is_dir)
}

/// The rows shown for an empty query.
pub open spec fn command_rows(current_dir: Seq<char>) -> Seq<ItemView> {
    seq![("Copy current directory"@, current_dir, ActionView::CopyDir, true)]
}

/// The Settings row, shown ahead of search results when the query names it.
pub open spec fn settings_rows(hit: bool) -> Seq<ItemView> {
    if hit {
        seq![("Settings"@, "Open Shuffle settings"@, ActionView::OpenSettings, false)]
    } else {
        Seq::empty()
    }
}

/// The row shown when a browsed directory does not exist.
pub open spec fn not_found_rows(base: Seq<char>) -> Seq<ItemView> {
    seq![("Path not found"@, base, ActionView::Inert, false)]
}

/// Sort key of a listed name: with a partial name, the score then
/// directories; without, directories; then the lowercased name.
pub open spec fn listing_key(blank: bool, e: (i32, String, bool)) -> KeyView {
    let d = if e.2 {
        1int
    } else {
        0int
    };
    if blank {
        (d, 0, lowercase(e.1@))
    } else {
        (e.0 as int, d, lowercase(e.1@))
    }
}

/// The rows of a directory listing: the names of `base` ranked, at most
/// `LISTING_CAP` of them, each opening `base` joined with the name.
pub open spec fn listing_rows(base: Seq<char>, blank: bool, scored: Seq<(i32, String, bool)>) -> Seq<ItemView> {
    let order = rank_order(scored.map_values(|e: (i32, String, bool)| listing_key(blank, e)));
    let top = if order.len() > LISTING_CAP {
        order.take(LISTING_CAP as int)
    } else {
        order
    };
    top.map_values(|k: usize| open_row(scored[k as int].1@, join(base, scored[k as int].1@), scored[k as int].2))
}

/// The rows of a search: each hit `(name, path, is_dir)` opening its path.
pub open spec fn hit_rows(hits: Seq<(String, String, bool)>) -> Seq<ItemView> {
    hits.map_values(|h: (String, String, bool)| open_row(h.0@, h.1@, h.2))
}

/// `x` limited to `lo..=hi`.
pub open spec fn clamp(x: int, lo: int, hi: int) -> int {
    if x < lo {
        lo
    } else if x > hi {
        hi
    } else {
        x
    }
}

/// What the caller does after the query changed.
pub enum Refresh {
    /// Nothing: the rows are already set.
    Done,
    /// List directory `base` (show "path not found" when it is not one) and
    /// rank its names against `partial`.
    ListDir { base: String, partial: String },
    /// Search the file index for `query`; the answer carries `generation`.
    Search { query: String, generation: u64 },
}

/// The palette's query, whether it starts a directory browse.
pub open spec fn is_path_query(q: Seq<char>) -> bool {
    q.len() > 0 && (q[0] == '/' || q[0] == '~')
}

/// A palette query browses directories exactly when it starts with `/` (an
/// absolute path) or `~` (the home directory); anything else, the empty
/// query included, is a name search or the command list.
pub proof fn law_path_queries(q: Seq<char>)
    ensures
        q.len() > 0 && q[0] == '/' ==> is_path_query(q),
        q.len() > 0 && q[0] == '~' ==> is_path_query(q),
        q.len() == 0 || (q[0] != '/' && q[0] != '~') ==> !is_path_query(q),
{
}

/// The directory an open row leads to: the path itself for a directory,
/// else its parent (or the path when it has none).
pub open spec fn open_target(p: Seq<char>, is_dir: bool) -> Seq<char> {
    if is_dir {
        p
    } else {
        match parent(p) {
            Some(q) => q,
            None => p,
        }
    }
}

/// What activating a row asks of the caller.
pub enum Activation {
    /// Go to this directory in the active pane.
    Navigate(String),
    /// Put this text on the clipboard.
    Copy(String),
    /// Open the Settings window.
    Settings,
    /// Nothing.
    Nothing,
}

pub struct Palette {
    pub open: bool,
    pub query: String,
    pub items: Vec<PaletteItem>,
    pub selected: usize,
    /// Counts refreshes, so that a search answered late is dropped.
    pub search_gen: u64,
}

fn text(s: &str) -> (r: String)
    ensures
        r@ == s@,
{
    s.to_owned()
}

fn open_item(title: &str, path: String, is_dir: bool) -> (r: PaletteItem)
    ensures
        r@ == open_row(title@, path@, is_dir),
{
    PaletteItem { title: text(title), subtitle: path.clone(), action: Action::Open(path, is_dir), is_dir }
}

/// The rows for an empty query.
pub fn default_commands(current_dir: &str) -> (r: Vec<PaletteItem>)
    ensures
        items_view(r@) == command_rows(current_dir@),
{
    let mut r: Vec<PaletteItem> = Vec::new();
    r.push(
        PaletteItem {
            title: text("Copy current directory"),
            subtitle: text(current_dir),
            action: Action::CopyDir,
            is_dir: true,
        },
    );
    proof {
        assert(items_view(r@) =~= command_rows(current_dir@));
    }
    r
}

/// The command rows ahead of search results: Settings when `hit`.
pub fn command_items(hit: bool) -> (r: Vec<PaletteItem>)
    ensures
        items_view(r@) == settings_rows(hit),
{
    let mut r: Vec<PaletteItem> = Vec::new();
    if hit {
        r.push(
            PaletteItem {
                title: text("Settings"),
                subtitle: text("Open Shuffle settings"),
                action: Action::OpenSettings,
                is_dir: false,
            },
        );
    }
    proof {
        assert(items_view(r@) =~= settings_rows(hit));
    }
    r
}

/// The ranked rows of a directory listing.
pub fn listing_items(base: &str, partial: &str, scored: &Vec<(i32, String, bool)>) -> (r: Vec<PaletteItem>)
    ensures
        items_view(r@) == listing_rows(base@, partial@.len() == 0, scored@),
{
    let blank = partial.is_empty();
    let ghost keyf = |e: (i32, String, bool)| listing_key(blank, e);
    let mut keys: Vec<RankKey> = Vec::new();
    let mut i: usize = 0;
    while i < scored.len()
        invariant
            i <= scored@.len(),
            keyf == (|e: (i32, String, bool)| listing_key(blank, e)),
            views(keys@) == scored@.take(i as int).map_values(keyf),
        decreases scored.len() - i,
    {
        let e = &scored[i];
        let name = to_lowercase(e.1.as_str());
        let d: i128 = if e.2 {
            1
        } else {
            0
        };
        let key = if blank {
            RankKey { primary: d, secondary: 0, name: chars_of(name.as_str()) }
        } else {
            RankKey { primary: e.0 as i128, secondary: d, name: chars_of(name.as_str()) }
        };
        let ghost kv = keys@;
        keys.push(key);
        proof {
            assert(views(keys@) =~= views(kv).push(key@));
            assert(scored@.take(i as int + 1).map_values(keyf) =~= scored@.take(i as int).map_values(
                keyf,
            ).push(keyf(scored@[i as int])));
        }
        i = i + 1;
    }
    proof {
        assert(scored@.take(scored@.len() as int) =~= scored@);
    }
    let pos = rank_positions(&keys);
    let n = if pos.len() > LISTING_CAP {
        LISTING_CAP
    } else {
        pos.len()
    };
    let ghost order = rank_order(scored@.map_values(keyf));
    let ghost rowf = |k: usize|
        open_row(scored@[k as int].1@, join(base@, scored@[k as int].1@), scored@[k as int].2);
    let mut r: Vec<PaletteItem> = Vec::new();
    let mut j: usize = 0;
    while j < n
        invariant
            j <= n <= pos@.len(),
            pos@ == order,
            pos@.len() == scored@.len(),
            forall|k: int| 0 <= k < pos@.len() ==> pos@[k] < scored@.len(),
            rowf == (|k: usize|
                open_row(scored@[k as int].1@, join(base@, scored@[k as int].1@), scored@[k as int].2)),
            items_view(r@) == order.take(j as int).map_values(rowf),
        decreases n - j,
    {
        let e = &scored[pos[j]];
        let path = join_path(base, e.1.as_str());
        let item = open_item(e.1.as_str(), path, e.2);
        let ghost rv = r@;
        r.push(item);
        proof {
            assert(items_view(r@) =~= items_view(rv).push(item@));
            assert(order.take(j as int + 1).map_values(rowf) =~= order.take(j as int).map_values(
                rowf,
            ).push(rowf(order[j as int])));
        }
        j = j + 1;
    }
    proof {
        if order.len() <= LISTING_CAP {
            assert(order.take(order.len() as int) =~= order);
        }
    }
    r
}

/// The rows of a search: each hit opening its path.
pub fn hit_items(hits: Vec<(String, String, bool)>) -> (r: Vec<PaletteItem>)
    ensures
        items_view(r@) == hit_rows(hits@),
{
    let mut r: Vec<PaletteItem> = Vec::new();
    let mut i: usize = 0;
    while i < hits.len()
        invariant
            i <= hits@.len(),
            items_view(r@) == hit_rows(hits@.take(i as int)),
        decreases hits.len() - i,
    {
        let h = &hits[i];
        let item = open_item(h.0.as_str(), h.1.clone(), h.2);
        let ghost rv = r@;
        r.push(item);
        proof {
            assert(items_view(r@) =~= items_view(rv).push(item@));
            assert(hit_rows(hits@.take(i as int + 1)) =~= hit_rows(hits@.take(i as int)).push(
                open_row(hits@[i as int].0@, hits@[i as int].1@, hits@[i as int].2),
            ));
        }
        i = i + 1;
    }
    proof {
        assert(hits@.take(hits@.len() as int) =~= hits@);
    }
    r
}

fn append_items(dst: &mut Vec<PaletteItem>, src: Vec<PaletteItem>)
    ensures
        items_view(final(dst)@) == items_view(old(dst)@) + items_view(src@),
{
    let ghost start = items_view(dst@);
    let mut src = src;
    let ghost s0 = src@;
    let mut moved: Vec<PaletteItem> = Vec::new();
    // Take the rows off the end and put them back in order.
    while src.len() > 0
        invariant
            items_view(src@) + items_view(moved@).reverse() == items_view(s0),
        decreases src.len(),
    {
        let ghost sv = src@;
        let ghost mv = moved@;
        let it = src.pop().unwrap();
        moved.push(it);
        proof {
            assert(items_view(sv) =~= items_view(src@).push(it@));
            assert(items_view(moved@) =~= items_view(mv).push(it@));
            assert(items_view(moved@).reverse() =~= seq![it@] + items_view(mv).reverse());
        }
    }
    proof {
        assert(items_view(src@) =~= Seq::<ItemView>::empty());
        assert(items_view(moved@).reverse() =~= items_view(s0));
    }
    while moved.len() > 0
        invariant
            items_view(dst@) + items_view(moved@).reverse() == start + items_view(s0),
        decreases moved.len(),
    {
        let ghost mv = moved@;
        let ghost dv = dst@;
        let it = moved.pop().unwrap();
        dst.push(it);
        proof {
            assert(items_view(mv) =~= items_view(moved@).push(it@));
            assert(items_view(mv).reverse() =~= seq![it@] + items_view(moved@).reverse());
            assert(items_view(dst@) =~= items_view(dv).push(it@));
        }
    }
    proof {
        assert(items_view(moved@) =~= Seq::<ItemView>::empty());
        assert(items_view(dst@) =~= start + items_view(s0));
    }
}

impl Palette {
    pub fn new() -> (r: Palette)
        ensures
            !r.open,
            r.query@.len() == 0,
            r.items@.len() == 0,
            r.selected == 0,
            r.search_gen == 0,
    {
        Palette { open: false, query: String::new(), items: Vec::new(), selected: 0, search_gen: 0 }
    }

    /// Opens or closes the palette; opening clears the query and the
    /// selection (the caller then refreshes). Returns whether it is open.
    pub fn toggle(&mut self) -> (r: bool)
        ensures
            r == final(self).open,
            final(self).open == !old(self).open,
            final(self).open ==> final(self).query@.len() == 0 && final(self).selected == 0,
            !final(self).open ==> final(self).query == old(self).query && final(self).selected
                == old(self).selected,
            final(self).items == old(self).items,
            final(self).search_gen == old(self).search_gen,
    {
        self.open = !self.open;
        if self.open {
            self.query = String::new();
            self.selected = 0;
        }
        self.open
    }

    pub fn close(&mut self)
        ensures
            !final(self).open,
            final(self).query == old(self).query,
            final(self).items == old(self).items,
            final(self).selected == old(self).selected,
            final(self).search_gen == old(self).search_gen,
    {
        self.open = false;
    }

    /// Applies an edit to the query (the caller then refreshes).
    pub fn edit_query(&mut self, e: &TextEdit)
        ensures
            final(self).query@ == edited(old(self).query@, *e),
            final(self).open == old(self).open,
            final(self).items == old(self).items,
            final(self).selected == old(self).selected,
            final(self).search_gen == old(self).search_gen,
    {
        self.query = apply_edit(self.query.as_str(), e);
    }

    /// Starts over for the current query: bumps the generation, resets the
    /// selection, and either sets the rows (empty query: the commands on
    /// `current_dir`) or says what to list or search. A query starting with
    /// `/` or `~` is split into a base directory and a partial name, `~`
    /// standing for `home`.
    pub fn refresh(&mut self, current_dir: &str, home: &str) -> (r: Refresh)
        ensures
            final(self).search_gen == old(self).search_gen.wrapping_add(1),
            final(self).selected == 0,
            final(self).open == old(self).open,
            final(self).query == old(self).query,
            ({
                let q = trim(old(self).query@);
                if q.len() == 0 {
                    &&& r is Done
                    &&& items_view(final(self).items@) == command_rows(current_dir@)
                } else if is_path_query(q) {
                    &&& r matches Refresh::ListDir { base, partial } && (base@, partial@) == split_query(
                        q,
                        home@,
                    )
                    &&& final(self).items == old(self).items
                } else {
                    &&& r matches Refresh::Search { query, generation } && query@ == q
                        && generation == final(self).search_gen
                    &&& final(self).items == old(self).items
                }
            }),
            ({
                let q = trim(old(self).query@);
                &&& q.len() > 0 && q[0] == '/' ==> (r matches Refresh::ListDir { base, partial } && (
                base@,
                partial@,
                ) == split_query(q, home@))
                &&& q.len() > 0 && q[0] == '~' ==> (r matches Refresh::ListDir { base, partial } && (
                base@,
                partial@,
                ) == split_query(q, home@))
                &&& q.len() > 0 && q[0] != '/' && q[0] != '~' ==> r is Search
            }),
    {
        self.search_gen = self.search_gen.wrapping_add(1);
        self.selected = 0;
        let q = trim_str(self.query.as_str());
        let qc = chars_of(q.as_str());
        if qc.len() == 0 {
            self.items = default_commands(current_dir);
            return Refresh::Done;
        }
        if qc[0] == '/' || qc[0] == '~' {
            let (base, partial) = split_path_query(q.as_str(), home);
            return Refresh::ListDir { base, partial };
        }
        Refresh::Search { query: q, generation: self.search_gen }
    }

    /// Shows that the browsed directory `base` does not exist.
    pub fn show_not_found(&mut self, base: &str)
        ensures
            items_view(final(self).items@) == not_found_rows(base@),
            final(self).open == old(self).open,
            final(self).query == old(self).query,
            final(self).selected == old(self).selected,
            final(self).search_gen == old(self).search_gen,
    {
        let mut r: Vec<PaletteItem> = Vec::new();
        r.push(
            PaletteItem { title: text("Path not found"), subtitle: text(base), action: Action::Inert, is_dir: false },
        );
        proof {
            assert(items_view(r@) =~= not_found_rows(base@));
        }
        self.items = r;
    }

    /// Shows the names of `base` with their scores against `partial`
    /// (`(score, name, is_dir)`; the score is not used for a blank partial).
    pub fn show_listing(&mut self, base: &str, partial: &str, scored: &Vec<(i32, String, bool)>)
        ensures
            items_view(final(self).items@) == listing_rows(base@, partial@.len() == 0, scored@),
            final(self).open == old(self).open,
            final(self).query == old(self).query,
            final(self).selected == old(self).selected,
            final(self).search_gen == old(self).search_gen,
    {
        self.items = listing_items(base, partial, scored);
    }

    /// Shows the command rows of a search at once: Settings when `hit`.
    pub fn show_commands(&mut self, hit: bool)
        ensures
            items_view(final(self).items@) == settings_rows(hit),
            final(self).selected == 0,
            final(self).open == old(self).open,
            final(self).query == old(self).query,
            final(self).search_gen == old(self).search_gen,
    {
        self.items = command_items(hit);
        self.selected = 0;
    }

    /// Takes the answer of the search started at `generation`: when no
    /// refresh came since, shows the command rows (Settings when `hit`)
    /// followed by the hits, selects the first, and returns true; a stale
    /// answer changes nothing.
    pub fn show_results(&mut self, generation: u64, hit: bool, hits: Vec<(String, String, bool)>) -> (r: bool)
        ensures
            r == (generation == old(self).search_gen),
            !r ==> *final(self) == *old(self),
            r ==> items_view(final(self).items@) == settings_rows(hit) + hit_rows(hits@),
            r ==> final(self).selected == 0,
            final(self).open == old(self).open,
            final(self).query == old(self).query,
            final(self).search_gen == old(self).search_gen,
    {
        if generation != self.search_gen {
            return false;
        }
        let mut items = command_items(hit);
        append_items(&mut items, hit_items(hits));
        self.items = items;
        self.selected = 0;
        true
    }

    /// Moves the selection by `delta` rows, staying on the list; nothing
    /// happens to an empty list.
    pub fn move_selection(&mut self, delta: i64)
        ensures
            old(self).items@.len() == 0 ==> final(self).selected == old(self).selected,
            old(self).items@.len() > 0 ==> final(self).selected == clamp(
                old(self).selected + delta,
                0,
                old(self).items@.len() - 1,
            ),
            final(self).open == old(self).open,
            final(self).query == old(self).query,
            final(self).items == old(self).items,
            final(self).search_gen == old(self).search_gen,
    {
        let n = self.items.len();
        if n == 0 {
            return;
        }
        let next = self.selected as i128 + delta as i128;
        let last = (n - 1) as i128;
        self.selected = if next < 0 {
            0
        } else if next > last {
            n - 1
        } else {
            next as usize
        };
    }

    /// Selects row `i` (a click on it).
    pub fn select(&mut self, i: usize)
        ensures
            final(self).selected == i,
            final(self).open == old(self).open,
            final(self).query == old(self).query,
            final(self).items == old(self).items,
            final(self).search_gen == old(self).search_gen,
    {
        self.selected = i;
    }

    /// Activates the selected row: an open row closes the palette and goes
    /// to its directory (a file's parent, or the path itself when it has
    /// none); the copy row closes it and copies `current_dir`; the Settings
    /// row closes it and opens Settings; an inert row, or no row, does
    /// nothing.
    pub fn activate(&mut self, current_dir: &str) -> (r: Activation)
        ensures
            final(self).query == old(self).query,
            final(self).items == old(self).items,
            final(self).selected == old(self).selected,
            final(self).search_gen == old(self).search_gen,
            old(self).selected >= old(self).items@.len() ==> r is Nothing && final(self).open == old(
                self,
            ).open,
            old(self).selected < old(self).items@.len() ==> match old(self).items@[old(
                self,
            ).selected as int].action@ {
                ActionView::Open(p, d) => !final(self).open && (r matches Activation::Navigate(t)
                    && t@ == open_target(p, d)),
                ActionView::CopyDir => !final(self).open && (r matches Activation::Copy(t) && t@
                    == current_dir@),
                ActionView::OpenSettings => !final(self).open && r is Settings,
                ActionView::Inert => final(self).open == old(self).open && r is Nothing,
            },
    {
        if self.selected >= self.items.len() {
            return Activation::Nothing;
        }
        let r = match &self.items[self.selected].action {
            Action::Open(p, d) => {
                let t = if *d {
                    p.clone()
                } else {
                    match path_parent(p.as_str()) {
                        Some(q) => q,
                        None => p.clone(),
                    }
                };
                Activation::Navigate(t)
            },
            Action::CopyDir => Activation::Copy(text(current_dir)),
            Action::OpenSettings => Activation::Settings,
            Action::Inert => {
                return Activation::Nothing;
            },
        };
        self.open = false;
        r
    }

    /// How many rows show before the list scrolls.
    pub fn visible_rows(&self) -> (r: usize)
        ensures
            r == if self.items@.len() < PALETTE_MAX_ROWS {
                self.items@.len()
            } else {
                PALETTE_MAX_ROWS as nat
            },
    {
        if self.items.len() < PALETTE_MAX_ROWS {
            self.items.len()
        } else {
            PALETTE_MAX_ROWS
        }
    }
}

/// The icon beside a palette row.
pub enum RowIcon {
    /// The gear of the Settings command.
    Gear,
    /// The icon of the path in the subtitle, drawn as a folder when `true`.
    Path(bool),
}

/// Settings shows a gear; every other row the icon of its subtitle's path,
/// as a folder for directories and for the copy command.
pub fn row_icon(item: &PaletteItem) -> (r: RowIcon)
    ensures
        match item.action@ {
            ActionView::OpenSettings => r is Gear,
            ActionView::CopyDir => r matches RowIcon::Path(d) && d,
            _ => r matches RowIcon::Path(d) && d == item.is_dir,
        },
{
    match item.action {
        Action::OpenSettings => RowIcon::Gear,
        Action::CopyDir => RowIcon::Path(true),
        _ => RowIcon::Path(item.is_dir),
    }
}

} // verus!
