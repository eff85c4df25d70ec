//! What the window shows, decided from the workspace: the breadcrumb of a
//! pane, the rows of its listing, its tab strip, the sidebar and the
//! right-click menu. Drawing it is the caller's.

use vstd::prelude::*;
use crate::text::string_of;
use crate::path::{
    components, texts, path_components, join, join_chars, join_path, path_starts_with, path_has_prefix,
    same_path, paths_equal, parent, path_parent, path_label, label_of_path, root_text, cur_text, up_text,
};
use crate::workspace::{Tab, Workspace};

verus! {

// ----- breadcrumb -----------------------------------------------------------

/// One breadcrumb segment: its label, the path it leads to, and whether it
/// is part of the current directory (bright) or of the forward tail (gray).
pub struct Crumb {
    pub label: String,
    pub full: String,
    pub active: bool,
}

pub type CrumbView = (Seq<char>, Seq<char>, bool);

pub open spec fn crumbs_view(c: Seq<Crumb>) -> Seq<CrumbView> {
    c.map_values(|x: Crumb| (x.label@, x.full@, x.active))
}

/// A component shown in the breadcrumb: the root or a name.
pub open spec fn shows(c: Seq<char>) -> bool {
    c != cur_text() && c != up_text()
}

/// The path the shown components among `comps` build up.
pub open spec fn crumb_path(comps: Seq<Seq<char>>) -> Seq<char>
    decreases comps.len(),
{
    if comps.len() == 0 {
        Seq::empty()
    } else if shows(comps.last()) {
        join(crumb_path(comps.drop_last()), comps.last())
    } else {
        crumb_path(comps.drop_last())
    }
}

/// The segments for components `comps`, with `current` the directory shown.
pub open spec fn crumb_trail(comps: Seq<Seq<char>>, current: Seq<char>) -> Seq<CrumbView>
    decreases comps.len(),
{
    if comps.len() == 0 {
        Seq::empty()
    } else if shows(comps.last()) {
        let full = crumb_path(comps);
        let label = if comps.last() == root_text() {
            "Macintosh HD"@
        } else {
            comps.last()
        };
        crumb_trail(comps.drop_last(), current).push((label, full, path_starts_with(current, full)))
    } else {
        crumb_trail(comps.drop_last(), current)
    }
}

/// The path the breadcrumb spells out: the deepest directory visited when
/// the current one is an ancestor of it, else the current one.
pub open spec fn crumb_display<H>(t: Tab<H>) -> Seq<char> {
    match t.deepest {
        Some(d) if path_starts_with(d@, t.current_dir@) => d@,
        _ => t.current_dir@,
    }
}

/// The breadcrumb of a tab.
pub fn breadcrumb<H>(t: &Tab<H>) -> (r: Vec<Crumb>)
    ensures
        crumbs_view(r@) == crumb_trail(components(crumb_display(*t)), t.current_dir@),
{
    let display = match &t.deepest {
        Some(d) => if path_has_prefix(d.as_str(), t.current_dir.as_str()) {
            d.clone()
        } else {
            t.current_dir.clone()
        },
        None => t.current_dir.clone(),
    };
    let comps = path_components(display.as_str());
    let ghost cs = texts(comps@);
    let mut acc: Vec<char> = Vec::new();
    let mut r: Vec<Crumb> = Vec::new();
    let mut i: usize = 0;
    while i < comps.len()
        invariant
            i <= comps@.len(),
            cs == texts(comps@),
            acc@ == crumb_path(cs.take(i as int)),
            crumbs_view(r@) == crumb_trail(cs.take(i as int), t.current_dir@),
        decreases comps.len() - i,
    {
        let c = &comps[i];
        proof {
            assert(cs.take(i as int + 1).drop_last() =~= cs.take(i as int));
            assert(cs.take(i as int + 1).last() == c@);
        }
        let is_root = c.len() == 1 && c[0] == '/';
        let is_cur = c.len() == 1 && c[0] == '.';
        let is_up = c.len() == 2 && c[0] == '.' && c[1] == '.';
        proof {
            assert(is_root == (c@ == root_text())) by {
                if c@ == root_text() {
                    assert(c@.len() == 1 && c@[0] == '/');
                }
                if is_root {
                    assert(c@ =~= root_text());
                }
            }
            assert(is_cur == (c@ == cur_text())) by {
                if c@ == cur_text() {
                    assert(c@.len() == 1 && c@[0] == '.');
                }
                if is_cur {
                    assert(c@ =~= cur_text());
                }
            }
            assert(is_up == (c@ == up_text())) by {
                if c@ == up_text() {
                    assert(c@.len() == 2 && c@[0] == '.' && c@[1] == '.');
                }
                if is_up {
                    assert(c@ =~= up_text());
                }
            }
        }
        if !is_cur && !is_up {
            acc = join_chars(&acc, c);
            let full = string_of(acc.as_slice());
            let label = if is_root {
                "Macintosh HD".to_owned()
            } else {
                string_of(c.as_slice())
            };
            let active = path_has_prefix(t.current_dir.as_str(), full.as_str());
            let ghost rv = r@;
            let crumb = Crumb { label, full, active };
            r.push(crumb);
            proof {
                assert(crumbs_view(r@) =~= crumbs_view(rv).push((crumb.label@, crumb.full@, crumb.active)));
            }
        }
        i = i + 1;
    }
    proof {
        assert(cs.take(cs.len() as int) =~= cs);
    }
    r
}

// ----- listing rows ---------------------------------------------------------

/// Whether the listing of a tab starts with a `..` row: only without an
/// open filter, and only when the directory has a parent.
pub open spec fn has_up_row<H>(t: Tab<H>) -> bool {
    t.find_query is None && parent(t.current_dir@) is Some
}

/// The rows of a tab's listing: the filter's results while it is open,
/// else every entry plus the `..` row.
pub open spec fn row_total<H>(t: Tab<H>) -> int {
    if t.find_query is Some {
        t.find_results@.len() as int
    } else {
        t.entries@.len() + if has_up_row(t) {
            1int
        } else {
            0int
        }
    }
}

pub fn row_count<H>(t: &Tab<H>) -> (r: usize)
    requires
        t.entries@.len() < usize::MAX,
    ensures
        r == row_total(*t),
{
    if t.find_query.is_some() {
        return t.find_results.len();
    }
    match path_parent(t.current_dir.as_str()) {
        Some(_) => t.entries.len() + 1,
        None => t.entries.len(),
    }
}

/// What a listing row shows.
pub enum Row {
    /// The `..` row, leading to this parent directory.
    Up(String),
    /// The entry at this position of the listing.
    Entry(usize),
}

/// Row `ix` of a tab's listing: the `..` row first when there is one, then
/// the entries (through the filter's results while it is open).
pub fn row_at<H>(t: &Tab<H>, ix: usize) -> (r: Row)
    requires
        ix < row_total(*t),
    ensures
        match r {
            Row::Up(p) => has_up_row(*t) && ix == 0 && parent(t.current_dir@) == Some(p@),
            Row::Entry(i) => !(has_up_row(*t) && ix == 0) && i == if t.find_query is Some {
                t.find_results@[ix as int] as int
            } else if has_up_row(*t) {
                ix - 1
            } else {
                ix as int
            },
        },
{
    if t.find_query.is_some() {
        return Row::Entry(t.find_results[ix]);
    }
    match path_parent(t.current_dir.as_str()) {
        Some(p) => {
            if ix == 0 {
                Row::Up(p)
            } else {
                Row::Entry(ix - 1)
            }
        },
        None => Row::Entry(ix),
    }
}

// ----- tab strip --------------------------------------------------------------

/// One tab in a pane's strip: its label and whether it is the active tab of
/// the active pane.
pub struct Chip {
    pub label: String,
    pub active: bool,
}

/// The tab strip of pane `pane`.
pub fn tab_chips<H>(w: &Workspace<H>, pane: usize) -> (r: Vec<Chip>)
    requires
        w.wf(),
        pane < w.spec_panes().len(),
    ensures
        r@.len() == w.spec_panes()[pane as int].tabs@.len(),
        forall|i: int|
            0 <= i < r@.len() ==> {
                &&& (#[trigger] r@[i]).label@ == path_label(w.spec_panes()[pane as int].tabs@[i].current_dir@)
                &&& r@[i].active == (i == w.spec_panes()[pane as int].active && pane == w.spec_active_pane())
            },
{
    let p = w.pane(pane);
    let active_pane = w.active_pane();
    let mut r: Vec<Chip> = Vec::new();
    let mut i: usize = 0;
    while i < p.tabs.len()
        invariant
            i <= p.tabs@.len(),
            *p == w.spec_panes()[pane as int],
            active_pane == w.spec_active_pane(),
            r@.len() == i,
            forall|k: int|
                0 <= k < i ==> {
                    &&& (#[trigger] r@[k]).label@ == path_label(p.tabs@[k].current_dir@)
                    &&& r@[k].active == (k == p.active && pane == active_pane)
                },
        decreases p.tabs.len() - i,
    {
        let label = label_of_path(p.tabs[i].current_dir.as_str());
        r.push(Chip { label, active: i == p.active && pane == active_pane });
        i = i + 1;
    }
    r
}

// ----- sidebar ---------------------------------------------------------------

/// A sidebar item: its label, where it leads, and whether that is where the
/// active tab is.
pub struct NavItem {
    pub label: String,
    pub target: String,
    pub active: bool,
}

pub type NavView = (Seq<char>, Seq<char>, bool);

pub open spec fn navs_view(v: Seq<NavItem>) -> Seq<NavView> {
    v.map_values(|n: NavItem| (n.label@, n.target@, n.active))
}

/// A sidebar item for `target`, active when it is `current`.
pub open spec fn nav(label: Seq<char>, target: Seq<char>, current: Seq<char>) -> NavView {
    (label, target, same_path(target, current))
}

/// The items of a list of folders (recents or bookmarks), labeled by name.
pub open spec fn folder_navs(list: Seq<Seq<char>>, current: Seq<char>) -> Seq<NavView> {
    list.map_values(|p: Seq<char>| nav(path_label(p), p, current))
}

/// The favorites: Applications, then Pictures, Documents and Downloads in
/// the home directory.
pub open spec fn favorite_navs(home: Seq<char>, current: Seq<char>) -> Seq<NavView> {
    seq![
        nav("Applications"@, "/Applications"@, current),
        nav("Pictures"@, join(home, "Pictures"@), current),
        nav("Documents"@, join(home, "Documents"@), current),
        nav("Downloads"@, join(home, "Downloads"@), current),
    ]
}

/// The locations: the disk's root and the home directory, labeled with
/// the user's name.
pub open spec fn location_navs(home: Seq<char>, user: Seq<char>, current: Seq<char>) -> Seq<NavView> {
    seq![nav("Macintosh HD"@, "/"@, current), nav(user, home, current)]
}

fn nav_item(label: String, target: String, current: &str) -> (r: NavItem)
    ensures
        (r.label@, r.target@, r.active) == nav(label@, target@, current@),
{
    let active = paths_equal(target.as_str(), current);
    NavItem { label, target, active }
}

/// The sidebar items for a list of folders.
pub fn folder_items(list: &Vec<String>, current: &str) -> (r: Vec<NavItem>)
    ensures
        navs_view(r@) == folder_navs(crate::workspace::texts_of(list@), current@),
{
    let ghost l = crate::workspace::texts_of(list@);
    let mut r: Vec<NavItem> = Vec::new();
    let mut i: usize = 0;
    while i < list.len()
        invariant
            i <= list@.len(),
            l == crate::workspace::texts_of(list@),
            navs_view(r@) == folder_navs(l.take(i as int), current@),
        decreases list.len() - i,
    {
        let label = label_of_path(list[i].as_str());
        let item = nav_item(label, list[i].clone(), current);
        let ghost rv = r@;
        r.push(item);
        proof {
            assert(navs_view(r@) =~= navs_view(rv).push((item.label@, item.target@, item.active)));
            assert(folder_navs(l.take(i as int + 1), current@) =~= folder_navs(l.take(i as int), current@).push(
                nav(path_label(l[i as int]), l[i as int], current@),
            ));
        }
        i = i + 1;
    }
    proof {
        assert(l.take(l.len() as int) =~= l);
    }
    r
}

pub fn favorite_items(home: &str, current: &str) -> (r: Vec<NavItem>)
    ensures
        navs_view(r@) == favorite_navs(home@, current@),
{
    let mut r: Vec<NavItem> = Vec::new();
    r.push(nav_item("Applications".to_owned(), "/Applications".to_owned(), current));
    r.push(nav_item("Pictures".to_owned(), join_path(home, "Pictures"), current));
    r.push(nav_item("Documents".to_owned(), join_path(home, "Documents"), current));
    r.push(nav_item("Downloads".to_owned(), join_path(home, "Downloads"), current));
    proof {
        assert(navs_view(r@) =~= favorite_navs(home@, current@));
    }
    r
}

pub fn location_items(home: &str, user: &str, current: &str) -> (r: Vec<NavItem>)
    ensures
        navs_view(r@) == location_navs(home@, user@, current@),
{
    let mut r: Vec<NavItem> = Vec::new();
    r.push(nav_item("Macintosh HD".to_owned(), "/".to_owned(), current));
    r.push(nav_item(user.to_owned(), home.to_owned(), current));
    proof {
        assert(navs_view(r@) =~= location_navs(home@, user@, current@));
    }
    r
}

/// The sidebar's four sections.
pub struct Sidebar {
    pub recent: Vec<NavItem>,
    pub bookmarks: Vec<NavItem>,
    pub favorites: Vec<NavItem>,
    pub locations: Vec<NavItem>,
}

/// The sidebar for the workspace, with `home` the home directory and `user`
/// the user's name; an item is active when it is the active tab's directory.
pub fn sidebar<H>(w: &Workspace<H>, home: &str, user: &str) -> (r: Sidebar)
    requires
        w.wf(),
    ensures
        ({
            let current = w.shown(w.spec_active_pane() as int).current_dir@;
            &&& navs_view(r.recent@) == folder_navs(w.spec_recents(), current)
            &&& navs_view(r.bookmarks@) == folder_navs(w.spec_bookmarks(), current)
            &&& navs_view(r.favorites@) == favorite_navs(home@, current)
            &&& navs_view(r.locations@) == location_navs(home@, user@, current)
        }),
{
    let current = w.active_tab().current_dir.as_str();
    Sidebar {
        recent: folder_items(w.recents(), current),
        bookmarks: folder_items(w.bookmarks(), current),
        favorites: favorite_items(home, current),
        locations: location_items(home, user, current),
    }
}

// ----- context menu ------------------------------------------------------------

/// A line of the right-click menu.
pub enum MenuLine {
    Open,
    Reveal,
    CopyPath,
    Trash,
    Separator,
    NewFolder,
    NewFile,
}

/// The menu's lines: for an entry, open / reveal / copy path / trash and a
/// separator; then, always, new folder and new file.
pub open spec fn menu_spec(on_entry: bool) -> Seq<MenuLine> {
    if on_entry {
        seq![
            MenuLine::Open,
            MenuLine::Reveal,
            MenuLine::CopyPath,
            MenuLine::Trash,
            MenuLine::Separator,
            MenuLine::NewFolder,
            MenuLine::NewFile,
        ]
    } else {
        seq![MenuLine::NewFolder, MenuLine::NewFile]
    }
}

pub fn menu_lines(on_entry: bool) -> (r: Vec<MenuLine>)
    ensures
        r@ == menu_spec(on_entry),
{
    let mut r: Vec<MenuLine> = Vec::new();
    if on_entry {
        r.push(MenuLine::Open);
        r.push(MenuLine::Reveal);
        r.push(MenuLine::CopyPath);
        r.push(MenuLine::Trash);
        r.push(MenuLine::Separator);
    }
    r.push(MenuLine::NewFolder);
    r.push(MenuLine::NewFile);
    proof {
        assert(r@ =~= menu_spec(on_entry));
    }
    r
}

/// The text of a menu line (empty for the separator).
pub open spec fn menu_text(l: MenuLine) -> Seq<char> {
    match l {
        MenuLine::Open => "Open"@,
        MenuLine::Reveal => "Reveal in Finder"@,
        MenuLine::CopyPath => "Copy Path"@,
        MenuLine::Trash => "Move to Trash"@,
        MenuLine::Separator => Seq::empty(),
        MenuLine::NewFolder => "New Folder"@,
        MenuLine::NewFile => "New File"@,
    }
}

pub fn menu_label(l: &MenuLine) -> (r: String)
    ensures
        r@ == menu_text(*l),
{
    match l {
        MenuLine::Open => "Open".to_owned(),
        MenuLine::Reveal => "Reveal in Finder".to_owned(),
        MenuLine::CopyPath => "Copy Path".to_owned(),
        MenuLine::Trash => "Move to Trash".to_owned(),
        MenuLine::Separator => {
            let r = String::new();
            proof {
                assert(r@ =~= Seq::<char>::empty());
            }
            r
        },
        MenuLine::NewFolder => "New Folder".to_owned(),
        MenuLine::NewFile => "New File".to_owned(),
    }
}

/// The four resizable columns of the listing.
#[derive(Clone, Copy, PartialEq, Eq, Structural)]
pub enum Column {
    Name,
    Kind,
    Date,
    Size,
}

impl Column {
    /// A stable number for each column (its position).
    pub fn key(self) -> (r: usize)
        ensures
            r == match self {
                Column::Name => 0usize,
                Column::Kind => 1,
                Column::Date => 2,
                Column::Size => 3,
            },
    {
        match self {
            Column::Name => 0,
            Column::Kind => 1,
            Column::Date => 2,
            Column::Size => 3,
        }
    }
}

} // verus!
