use shuffle::kind::{child_candidate, decimal_text, icon_key, kind_label};
use shuffle::view::{
    breadcrumb, favorite_items, location_items, menu_label, menu_lines, row_at, row_count, sidebar, tab_chips,
    Column, MenuLine, Row,
};
use shuffle::workspace::{Entry, Tab, Workspace};

fn entry(name: &str, is_dir: bool) -> Entry {
    Entry { name: name.to_string(), is_dir, size: 0, modified: None }
}

#[test]
fn kinds_by_extension() {
    assert_eq!(kind_label("Reports", true), "Directory");
    assert_eq!(kind_label("budget.XLSX", false), "Microsoft Excel");
    assert_eq!(kind_label("notes.md", false), "Text Document");
    assert_eq!(kind_label("photo.jpeg", false), "JPEG Image");
    assert_eq!(kind_label("shot.Png", false), "PNG Image");
    assert_eq!(kind_label("clip.mkv", false), "MKV Video");
    assert_eq!(kind_label("song.flac", false), "FLAC Audio");
    assert_eq!(kind_label("backup.tar.gz", false), "GZ Archive");
    assert_eq!(kind_label("main.rs", false), "Source Code");
    assert_eq!(kind_label("Shuffle.app", false), "Application");
    assert_eq!(kind_label("model.stl", false), "STL File");
    assert_eq!(kind_label("Makefile", false), "Document");
    assert_eq!(kind_label(".bashrc", false), "Document");
    assert_eq!(kind_label("odd.", false), " File");
}

#[test]
fn icon_keys_are_lowercased_extensions() {
    assert_eq!(icon_key("/a/B.PDF"), Some("pdf".to_string()));
    assert_eq!(icon_key("/a/README"), None);
    assert_eq!(icon_key("/a/odd."), None);
}

#[test]
fn new_entry_names_count_up() {
    assert_eq!(decimal_text(0), vec!['0']);
    assert_eq!(decimal_text(1203), vec!['1', '2', '0', '3']);
    assert_eq!(child_candidate("/u/docs", "untitled folder", 1), "/u/docs/untitled folder");
    assert_eq!(child_candidate("/u/docs", "untitled folder", 2), "/u/docs/untitled folder 2");
    assert_eq!(child_candidate("/", "untitled file", 13), "/untitled file 13");
}

#[test]
fn breadcrumbs_keep_the_forward_tail() {
    let mut t = Tab::new("/Users/me".to_string(), Vec::new(), ());
    t.deepest = Some("/Users/me/src/app".to_string());
    let c = breadcrumb(&t);
    let labels: Vec<&str> = c.iter().map(|x| x.label.as_str()).collect();
    assert_eq!(labels, vec!["Macintosh HD", "Users", "me", "src", "app"]);
    let fulls: Vec<&str> = c.iter().map(|x| x.full.as_str()).collect();
    assert_eq!(fulls, vec!["/", "/Users", "/Users/me", "/Users/me/src", "/Users/me/src/app"]);
    let active: Vec<bool> = c.iter().map(|x| x.active).collect();
    assert_eq!(active, vec![true, true, true, false, false]);
    t.deepest = Some("/tmp/x".to_string());
    assert_eq!(breadcrumb(&t).len(), 3);
}

#[test]
fn listing_rows_start_with_the_parent() {
    let mut t = Tab::new("/a".to_string(), vec![entry("x", true), entry("y", false)], ());
    assert_eq!(row_count(&t), 3);
    assert!(matches!(row_at(&t, 0), Row::Up(p) if p == "/"));
    assert!(matches!(row_at(&t, 2), Row::Entry(1)));
    t.find_query = Some("y".to_string());
    t.find_results = vec![1];
    assert_eq!(row_count(&t), 1);
    assert!(matches!(row_at(&t, 0), Row::Entry(1)));
    let root = Tab::new("/".to_string(), vec![entry("x", true)], ());
    assert_eq!(row_count(&root), 1);
    assert!(matches!(row_at(&root, 0), Row::Entry(0)));
}

#[test]
fn tab_chips_mark_the_active_tab_of_the_active_pane() {
    let mut w = Workspace::new(Tab::new("/".to_string(), Vec::new(), ()), Vec::new(), Vec::new());
    w.new_tab_in(0, Vec::new(), ());
    w.navigate_in(0, "/Users/me/Music".to_string(), true, Vec::new());
    let chips = tab_chips(&w, 0);
    assert_eq!(chips.len(), 2);
    assert_eq!(chips[0].label, "Macintosh HD");
    assert!(!chips[0].active);
    assert_eq!(chips[1].label, "Music");
    assert!(chips[1].active);
}

#[test]
fn the_sidebar_highlights_where_the_active_tab_is() {
    let mut w = Workspace::new(
        Tab::new("/Users/me".to_string(), Vec::new(), ()),
        vec!["/Users/me/".to_string(), "/tmp".to_string()],
        vec!["/Applications".to_string()],
    );
    let s = sidebar(&w, "/Users/me", "me");
    assert_eq!(s.recent.len(), 2);
    assert_eq!(s.recent[0].label, "me");
    assert!(s.recent[0].active);
    assert!(!s.recent[1].active);
    assert_eq!(s.bookmarks[0].label, "Applications");
    assert_eq!(s.favorites.len(), 4);
    assert_eq!(s.favorites[1].target, "/Users/me/Pictures");
    assert_eq!(s.locations[0].label, "Macintosh HD");
    assert_eq!(s.locations[1].label, "me");
    assert!(s.locations[1].active);
    w.navigate_in(0, "/Applications".to_string(), true, Vec::new());
    let s = sidebar(&w, "/Users/me", "me");
    assert!(s.bookmarks[0].active);
    assert!(s.favorites[0].active);
    assert!(!s.locations[1].active);
    assert_eq!(favorite_items("/h", "/x")[3].target, "/h/Downloads");
    assert_eq!(location_items("/h", "u", "/")[0].target, "/");
    assert!(location_items("/h", "u", "/")[0].active);
}

#[test]
fn the_context_menu() {
    let lines = menu_lines(true);
    let labels: Vec<String> = lines.iter().map(menu_label).collect();
    assert_eq!(
        labels,
        vec!["Open", "Reveal in Finder", "Copy Path", "Move to Trash", "", "New Folder", "New File"]
    );
    assert!(matches!(lines[4], MenuLine::Separator));
    let bare = menu_lines(false);
    assert_eq!(bare.len(), 2);
    assert!(matches!(bare[0], MenuLine::NewFolder));
}

#[test]
fn column_keys() {
    assert_eq!(Column::Name.key(), 0);
    assert_eq!(Column::Size.key(), 3);
}
