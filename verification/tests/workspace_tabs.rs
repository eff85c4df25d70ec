use shuffle::workspace::{apply_edit, sort_entries, Entry, Tab, TabDrag, TextEdit, Workspace, RECENTS_CAP};

fn entry(name: &str, is_dir: bool) -> Entry {
    Entry { name: name.to_string(), is_dir, size: 0, modified: None }
}

fn listing() -> Vec<Entry> {
    vec![entry("b", true), entry("a.txt", false)]
}

fn ws(dir: &str) -> Workspace<()> {
    Workspace::new(Tab::new(dir.to_string(), listing(), ()), Vec::new(), Vec::new())
}

fn dirs(w: &Workspace<()>, pane: usize) -> Vec<String> {
    w.pane(pane).tabs.iter().map(|t| t.current_dir.clone()).collect()
}

#[test]
fn navigating_pushes_history_and_recents() {
    let mut w = ws("/a");
    assert!(w.navigate_in(0, "/a/b".to_string(), true, listing()));
    let t = w.tab(0);
    assert_eq!(t.current_dir, "/a/b");
    assert_eq!(t.history, vec!["/a".to_string(), "/a/b".to_string()]);
    assert_eq!(t.hist_pos, 1);
    assert_eq!(t.deepest, Some("/a/b".to_string()));
    assert_eq!(w.recents(), &vec!["/a/b".to_string()]);
}

#[test]
fn navigating_to_the_same_place_or_a_file_does_nothing() {
    let mut w = ws("/a");
    assert!(!w.navigate_in(0, "/a/".to_string(), true, listing()));
    assert!(!w.navigate_in(0, "/a/x.txt".to_string(), false, listing()));
    assert_eq!(w.tab(0).history.len(), 1);
    assert!(w.recents().is_empty());
}

#[test]
fn back_then_forward_returns_to_the_same_directory() {
    let mut w = ws("/a");
    w.navigate_in(0, "/a/b".to_string(), true, listing());
    assert_eq!(w.back_target(0), Some("/a".to_string()));
    assert!(w.go_back(0, listing()));
    assert_eq!(w.tab(0).current_dir, "/a");
    assert_eq!(w.tab(0).hist_pos, 0);
    // The forward tail stays visible in the breadcrumb.
    assert_eq!(w.tab(0).deepest, Some("/a/b".to_string()));
    assert!(w.tab(0).can_go_forward());
    assert!(!w.tab(0).can_go_back());
    assert!(w.go_forward(0, listing()));
    assert_eq!(w.tab(0).current_dir, "/a/b");
    assert_eq!(w.tab(0).hist_pos, 1);
    assert!(!w.go_forward(0, listing()));
    assert_eq!(w.recents(), &vec!["/a/b".to_string(), "/a".to_string()]);
}

#[test]
fn going_back_at_the_start_only_activates_the_pane() {
    let mut w = ws("/a");
    assert!(!w.go_back(0, listing()));
    assert_eq!(w.tab(0).current_dir, "/a");
    assert_eq!(w.back_target(0), None);
    assert_eq!(w.forward_target(0), None);
}

#[test]
fn new_navigation_drops_the_forward_history() {
    let mut w = ws("/a");
    w.navigate_in(0, "/a/b".to_string(), true, listing());
    w.go_back(0, listing());
    w.navigate_in(0, "/a/c".to_string(), true, listing());
    assert_eq!(w.tab(0).history, vec!["/a".to_string(), "/a/c".to_string()]);
    assert_eq!(w.tab(0).deepest, Some("/a/c".to_string()));
}

#[test]
fn recents_are_unique_most_recent_first_and_capped() {
    let mut w = ws("/start");
    for i in 0..15 {
        w.navigate_in(0, format!("/d{i}"), true, Vec::new());
    }
    w.navigate_in(0, "/d3/".to_string(), true, Vec::new());
    let r = w.recents();
    assert_eq!(r.len(), RECENTS_CAP);
    assert_eq!(r[0], "/d3/");
    assert_eq!(r[1], "/d14");
    assert!(!r[1..].iter().any(|p| p == "/d3"));
}

#[test]
fn bookmarking_twice_is_bookmarking_once() {
    let mut w = ws("/a");
    assert!(w.add_bookmark());
    assert!(!w.add_bookmark());
    assert_eq!(w.bookmarks(), &vec!["/a".to_string()]);
    w.navigate_in(0, "/a/b/".to_string(), true, Vec::new());
    assert!(w.add_bookmark());
    w.navigate_in(0, "/a".to_string(), true, Vec::new());
    w.navigate_in(0, "/a/b".to_string(), true, Vec::new());
    assert!(!w.add_bookmark());
    assert_eq!(w.bookmarks().len(), 2);
}

#[test]
fn new_and_selected_tabs() {
    let mut w = ws("/a");
    w.new_tab_in(0, listing(), ());
    assert_eq!(dirs(&w, 0), vec!["/a".to_string(), "/a".to_string()]);
    assert_eq!(w.pane(0).active, 1);
    w.select_tab(0, 0);
    assert_eq!(w.pane(0).active, 0);
    w.select_tab(0, 9);
    assert_eq!(w.pane(0).active, 0);
}

#[test]
fn closing_tabs_and_panes() {
    let mut w = ws("/a");
    // The only tab of the only pane stays.
    let c = w.close_tab(0, 0);
    assert!(!c.changed);
    assert_eq!(w.pane_count(), 1);
    w.new_tab_in(0, listing(), ());
    w.new_tab_in(0, listing(), ());
    w.select_tab(0, 2);
    let c = w.close_tab(0, 0);
    assert!(c.changed && !c.reset_split);
    assert_eq!(w.pane(0).tabs.len(), 2);
    assert_eq!(w.pane(0).active, 1);
    assert!(!w.close_tab(0, 5).changed);
    assert!(!w.close_tab(3, 0).changed);
}

#[test]
fn closing_the_last_tab_of_a_pane_removes_the_pane() {
    let mut w = ws("/a");
    w.new_tab_in(0, listing(), ());
    let m = w.move_tab(TabDrag { pane: 0, tab: 1 }, 1, 0);
    assert!(m.changed && m.reset_split);
    assert_eq!(w.pane_count(), 2);
    assert_eq!(w.active_pane(), 1);
    let c = w.close_tab(1, 0);
    assert!(c.changed && c.reset_split);
    assert_eq!(w.pane_count(), 1);
    assert_eq!(w.active_pane(), 0);
}

#[test]
fn dragging_within_a_pane_reorders() {
    let mut w = ws("/a");
    w.navigate_in(0, "/a/b".to_string(), true, listing());
    w.new_tab_in(0, listing(), ());
    w.navigate_in(0, "/c".to_string(), true, listing());
    // tabs: [/a/b, /c], drag /a/b behind /c.
    let m = w.move_tab(TabDrag { pane: 0, tab: 0 }, 0, 2);
    assert!(m.changed && !m.reset_split);
    assert_eq!(dirs(&w, 0), vec!["/c".to_string(), "/a/b".to_string()]);
    assert_eq!(w.pane(0).active, 1);
    assert_eq!(w.active_pane(), 0);
}

#[test]
fn a_lone_tab_cannot_split_itself() {
    let mut w = ws("/a");
    let m = w.move_tab(TabDrag { pane: 0, tab: 0 }, 1, 0);
    assert!(!m.changed);
    assert_eq!(w.pane_count(), 1);
    assert!(!w.move_tab(TabDrag { pane: 0, tab: 4 }, 0, 0).changed);
}

#[test]
fn dragging_a_pane_s_last_tab_away_drops_that_pane() {
    let mut w = ws("/a");
    w.new_tab_in(0, listing(), ());
    w.navigate_in(0, "/x".to_string(), true, listing());
    w.move_tab(TabDrag { pane: 0, tab: 1 }, 1, 0);
    // panes: [/a] [/x]; move /a into the right pane at the end.
    let m = w.move_tab(TabDrag { pane: 0, tab: 0 }, 1, 7);
    assert!(m.changed && m.reset_split);
    assert_eq!(w.pane_count(), 1);
    assert_eq!(dirs(&w, 0), vec!["/x".to_string(), "/a".to_string()]);
    assert_eq!(w.active_pane(), 0);
    assert_eq!(w.pane(0).active, 1);
}

#[test]
fn context_menu_goes_to_an_existing_pane() {
    let mut w = ws("/a");
    w.open_context_menu(5, Some(("/a/x".to_string(), false)));
    let m = w.context_menu().as_ref().unwrap();
    assert_eq!(m.pane, 0);
    assert_eq!(m.target, Some(("/a/x".to_string(), false)));
    assert!(w.close_context_menu());
    assert!(!w.close_context_menu());
}

#[test]
fn path_editor_edits_and_expands() {
    let mut w = ws("/a");
    w.begin_path_edit(0);
    assert_eq!(w.tab(0).editing_path, Some("/a".to_string()));
    w.edit_path(0, &TextEdit::Backspace);
    w.edit_path(0, &TextEdit::Backspace);
    w.edit_path(0, &TextEdit::Type("~".to_string()));
    w.edit_path(0, &TextEdit::Paste("  /Music \n".to_string()));
    assert_eq!(w.tab(0).editing_path, Some("~/Music".to_string()));
    assert_eq!(w.commit_path_edit(0, "/Users/me"), Some("/Users/me/Music".to_string()));
    assert_eq!(w.tab(0).editing_path, None);
    assert_eq!(w.commit_path_edit(0, "/Users/me"), None);
    w.begin_path_edit(0);
    w.cancel_path_edit(0);
    assert_eq!(w.tab(0).editing_path, None);
}

#[test]
fn filter_shows_everything_until_a_query_is_typed() {
    let mut w = Workspace::new(
        Tab::new("/p".to_string(), vec![entry("zeta", false), entry("Alpha", true), entry("alps", false)], ()),
        Vec::new(),
        Vec::new(),
    );
    w.open_filter(0);
    assert_eq!(w.tab(0).find_query, Some(String::new()));
    assert_eq!(w.tab(0).find_results, vec![0, 1, 2]);
    w.edit_filter(0, &TextEdit::Type("al".to_string()));
    let ranks = w.filter_ranks(0);
    assert_eq!(ranks.len(), 3);
    let scores: Vec<Option<i32>> = ranks
        .iter()
        .map(|r| match r {
            shuffle::score::FindRank::Scored(s) => Some(*s),
            _ => None,
        })
        .collect();
    assert_eq!(scores, vec![None, Some(49999), Some(49999)]);
    w.recompute_filter(0, &scores);
    // Equal scores: the directory first.
    assert_eq!(w.tab(0).find_results, vec![1, 2]);
    assert_eq!(w.filter_enter(0), Some(("/p/Alpha".to_string(), true)));
    assert_eq!(w.tab(0).find_query, None);
    assert!(w.tab(0).find_results.is_empty());
}

#[test]
fn filter_enter_without_results_keeps_the_filter() {
    let mut w = ws("/a");
    w.open_filter(0);
    w.edit_filter(0, &TextEdit::Type("q".to_string()));
    w.recompute_filter(0, &vec![None, None]);
    assert!(w.tab(0).find_results.is_empty());
    assert_eq!(w.filter_enter(0), None);
    assert_eq!(w.tab(0).find_query, Some("q".to_string()));
    w.close_filter(0);
    assert_eq!(w.tab(0).find_query, None);
}

#[test]
fn listings_show_directories_first_then_names_ignoring_case() {
    let sorted = sort_entries(vec![
        entry("b.txt", false),
        entry("Zed", true),
        entry("A.txt", false),
        entry("apple", true),
    ]);
    let names: Vec<&str> = sorted.iter().map(|e| e.name.as_str()).collect();
    assert_eq!(names, vec!["apple", "Zed", "A.txt", "b.txt"]);
}

#[test]
fn refreshing_replaces_the_listing() {
    let mut w = ws("/a");
    w.refresh_pane(0, vec![entry("new folder", true)]);
    assert_eq!(w.tab(0).entries.len(), 1);
    assert_eq!(w.tab(0).entries[0].name, "new folder");
}

fn tab_total(w: &Workspace<()>) -> usize {
    (0..w.pane_count()).map(|p| w.pane(p).tabs.len()).sum()
}

#[test]
fn moving_keeps_every_tab_and_shows_the_moved_one() {
    let mut w = ws("/a");
    w.new_tab_in(0, listing(), ());
    w.navigate_in(0, "/b".to_string(), true, listing());
    w.new_tab_in(0, listing(), ());
    w.navigate_in(0, "/c".to_string(), true, listing());
    w.move_tab(TabDrag { pane: 0, tab: 2 }, 1, 0);
    let before = tab_total(&w);
    for (pane, tab, to_pane, to_index) in [(0, 0, 1, 1), (1, 1, 0, 0), (0, 1, 0, 0), (1, 0, 2, 0)] {
        if pane >= w.pane_count() || tab >= w.pane(pane).tabs.len() {
            continue;
        }
        let moved = w.pane(pane).tabs[tab].current_dir.clone();
        let r = w.move_tab(TabDrag { pane, tab }, to_pane, to_index);
        if r.changed {
            let a = w.active_pane();
            let shown = &w.pane(a).tabs[w.pane(a).active];
            assert_eq!(shown.current_dir, moved);
        }
        assert_eq!(tab_total(&w), before);
    }
}

#[test]
fn closing_takes_out_exactly_one_tab() {
    let mut w = ws("/a");
    w.new_tab_in(0, listing(), ());
    w.new_tab_in(0, listing(), ());
    w.move_tab(TabDrag { pane: 0, tab: 0 }, 1, 0);
    let before = tab_total(&w);
    assert!(w.close_tab(1, 0).changed);
    assert_eq!(tab_total(&w), before - 1);
    assert!(w.close_tab(0, 1).changed);
    assert_eq!(tab_total(&w), before - 2);
    assert!(!w.close_tab(0, 0).changed);
    assert_eq!(tab_total(&w), 1);
}

#[test]
fn backspace_takes_back_a_typed_character() {
    let typed = apply_edit("docs", &TextEdit::Type("é".to_string()));
    assert_eq!(typed, "docsé");
    assert_eq!(apply_edit(&typed, &TextEdit::Backspace), "docs");
    assert_eq!(apply_edit("", &TextEdit::Backspace), "");
}

fn all_dirs(w: &Workspace<()>) -> Vec<String> {
    (0..w.pane_count()).flat_map(|p| dirs(w, p)).collect()
}

#[test]
fn a_split_with_two_panes_shown_changes_nothing() {
    let mut w = ws("/a");
    w.new_tab_in(0, listing(), ());
    w.navigate_in(0, "/b".to_string(), true, listing());
    w.new_tab_in(0, listing(), ());
    w.navigate_in(0, "/c".to_string(), true, listing());
    w.move_tab(TabDrag { pane: 0, tab: 2 }, 1, 0);
    assert_eq!(w.pane_count(), 2);
    let before = all_dirs(&w);
    let m = w.move_tab(TabDrag { pane: 0, tab: 0 }, 2, 0);
    assert!(!m.changed && !m.reset_split);
    assert_eq!(w.pane_count(), 2);
    assert_eq!(all_dirs(&w), before);
}

#[test]
fn moving_a_tab_keeps_the_others_in_order() {
    let mut w = ws("/a");
    for d in ["/b", "/c", "/d"] {
        w.new_tab_in(0, listing(), ());
        w.navigate_in(0, d.to_string(), true, listing());
    }
    w.move_tab(TabDrag { pane: 0, tab: 3 }, 1, 0);
    // panes: [/a /b /c] [/d]; drop /a after /d.
    let m = w.move_tab(TabDrag { pane: 0, tab: 0 }, 1, 1);
    assert!(m.changed);
    assert_eq!(dirs(&w, 0), vec!["/b".to_string(), "/c".to_string()]);
    assert_eq!(dirs(&w, 1), vec!["/d".to_string(), "/a".to_string()]);
    let mut rest = all_dirs(&w);
    rest.retain(|d| d != "/a");
    assert_eq!(rest, vec!["/b".to_string(), "/c".to_string(), "/d".to_string()]);
}

#[test]
fn a_new_tab_starts_fresh_on_the_current_directory() {
    let mut w = ws("/a");
    w.navigate_in(0, "/a/b".to_string(), true, listing());
    w.new_tab_in(0, listing(), ());
    let t = &w.pane(0).tabs[1];
    assert_eq!(w.pane(0).active, 1);
    assert_eq!(t.current_dir, "/a/b");
    assert_eq!(t.history, vec!["/a/b".to_string()]);
    assert_eq!(t.hist_pos, 0);
    assert_eq!(t.deepest, Some("/a/b".to_string()));
    assert!(t.find_results.is_empty());
    assert!(t.find_query.is_none());
}
