use shuffle::palette::{
    row_icon, RowIcon, command_items, default_commands, hit_items, listing_items, Action, Activation, Palette, Refresh, LISTING_CAP,
    PALETTE_MAX_ROWS,
};
use shuffle::workspace::TextEdit;

fn typed(p: &mut Palette, s: &str) {
    p.edit_query(&TextEdit::Type(s.to_string()));
}

#[test]
fn toggling_clears_the_query() {
    let mut p = Palette::new();
    assert!(p.toggle());
    typed(&mut p, "abc");
    p.move_selection(1);
    assert!(!p.toggle());
    assert_eq!(p.query, "abc");
    assert!(p.toggle());
    assert_eq!(p.query, "");
    assert_eq!(p.selected, 0);
    p.close();
    assert!(!p.open);
}

#[test]
fn an_empty_query_lists_the_commands() {
    let mut p = Palette::new();
    p.toggle();
    typed(&mut p, "   ");
    let before = p.search_gen;
    assert!(matches!(p.refresh("/Users/me/src", "/Users/me"), Refresh::Done));
    assert_eq!(p.search_gen, before + 1);
    assert_eq!(p.items.len(), 1);
    assert_eq!(p.items[0].title, "Copy current directory");
    assert_eq!(p.items[0].subtitle, "/Users/me/src");
    assert!(matches!(p.items[0].action, Action::CopyDir));
    assert!(p.items[0].is_dir);
}

#[test]
fn path_queries_browse_a_directory() {
    let mut p = Palette::new();
    typed(&mut p, " ~/Doc ");
    match p.refresh("/x", "/Users/me") {
        Refresh::ListDir { base, partial } => {
            assert_eq!(base, "/Users/me");
            assert_eq!(partial, "Doc");
        }
        _ => panic!("expected a directory listing"),
    }
}

#[test]
fn other_queries_search_with_the_current_generation() {
    let mut p = Palette::new();
    typed(&mut p, "report ");
    match p.refresh("/x", "/Users/me") {
        Refresh::Search { query, generation } => {
            assert_eq!(query, "report");
            assert_eq!(generation, p.search_gen);
        }
        _ => panic!("expected a search"),
    }
}

#[test]
fn late_search_answers_are_dropped() {
    let mut p = Palette::new();
    typed(&mut p, "rep");
    let g = match p.refresh("/x", "/h") {
        Refresh::Search { generation, .. } => generation,
        _ => panic!(),
    };
    p.show_commands(false);
    typed(&mut p, "o");
    p.refresh("/x", "/h");
    assert!(!p.show_results(g, false, vec![("a".to_string(), "/a".to_string(), false)]));
    assert!(p.items.is_empty());
    let g2 = p.search_gen;
    assert!(p.show_results(g2, true, vec![("report.txt".to_string(), "/h/report.txt".to_string(), false)]));
    assert_eq!(p.items.len(), 2);
    assert_eq!(p.items[0].title, "Settings");
    assert!(matches!(p.items[0].action, Action::OpenSettings));
    assert_eq!(p.items[1].subtitle, "/h/report.txt");
}

#[test]
fn missing_directories_show_one_inert_row() {
    let mut p = Palette::new();
    p.show_not_found("/nope");
    assert_eq!(p.items.len(), 1);
    assert_eq!(p.items[0].title, "Path not found");
    assert_eq!(p.items[0].subtitle, "/nope");
    assert!(matches!(p.items[0].action, Action::Inert));
    p.open = true;
    assert!(matches!(p.activate("/x"), Activation::Nothing));
    assert!(p.open);
}

#[test]
fn listings_without_a_partial_put_directories_first() {
    let scored = vec![
        (0, "zeta".to_string(), false),
        (0, "Beta".to_string(), true),
        (0, "alpha".to_string(), false),
        (0, "Apps".to_string(), true),
    ];
    let rows = listing_items("/Users", "", &scored);
    let titles: Vec<&str> = rows.iter().map(|r| r.title.as_str()).collect();
    assert_eq!(titles, vec!["Apps", "Beta", "alpha", "zeta"]);
    assert_eq!(rows[0].subtitle, "/Users/Apps");
    match &rows[0].action {
        Action::Open(p, d) => {
            assert_eq!(p, "/Users/Apps");
            assert!(*d);
        }
        _ => panic!(),
    }
}

#[test]
fn listings_with_a_partial_put_the_best_match_first() {
    let scored = vec![
        (10, "b".to_string(), false),
        (30, "c".to_string(), false),
        (30, "a".to_string(), true),
        (-5, "d".to_string(), true),
    ];
    let rows = listing_items("/", "x", &scored);
    let titles: Vec<&str> = rows.iter().map(|r| r.title.as_str()).collect();
    assert_eq!(titles, vec!["a", "c", "b", "d"]);
    assert_eq!(rows[1].subtitle, "/c");
}

#[test]
fn listings_are_capped() {
    let scored: Vec<(i32, String, bool)> = (0..70).map(|i| (i, format!("f{i:02}"), false)).collect();
    let rows = listing_items("/d", "f", &scored);
    assert_eq!(rows.len(), LISTING_CAP);
    assert_eq!(rows[0].title, "f69");
    assert_eq!(rows[49].title, "f20");
}

#[test]
fn selection_stays_on_the_list() {
    let mut p = Palette::new();
    p.move_selection(3);
    assert_eq!(p.selected, 0);
    p.items = hit_items(vec![
        ("a".to_string(), "/a".to_string(), true),
        ("b".to_string(), "/b".to_string(), false),
        ("c".to_string(), "/c".to_string(), false),
    ]);
    p.move_selection(1);
    assert_eq!(p.selected, 1);
    p.move_selection(10);
    assert_eq!(p.selected, 2);
    p.move_selection(-7);
    assert_eq!(p.selected, 0);
    assert_eq!(p.visible_rows(), 3);
}

#[test]
fn activating_rows() {
    let mut p = Palette::new();
    p.items = hit_items(vec![
        ("docs".to_string(), "/u/docs".to_string(), true),
        ("a.txt".to_string(), "/u/docs/a.txt".to_string(), false),
    ]);
    p.open = true;
    match p.activate("/cur") {
        Activation::Navigate(t) => assert_eq!(t, "/u/docs"),
        _ => panic!(),
    }
    assert!(!p.open);
    p.open = true;
    p.select(1);
    match p.activate("/cur") {
        Activation::Navigate(t) => assert_eq!(t, "/u/docs"),
        _ => panic!(),
    }
    p.items = default_commands("/cur");
    p.select(0);
    p.open = true;
    match p.activate("/cur") {
        Activation::Copy(t) => assert_eq!(t, "/cur"),
        _ => panic!(),
    }
    assert!(!p.open);
    p.items = command_items(true);
    p.open = true;
    assert!(matches!(p.activate("/cur"), Activation::Settings));
    assert!(!p.open);
    p.select(4);
    p.open = true;
    assert!(matches!(p.activate("/cur"), Activation::Nothing));
    assert!(p.open);
    assert!(command_items(false).is_empty());
}

#[test]
fn at_most_seven_rows_show_at_once() {
    let mut p = Palette::new();
    p.items = hit_items((0..20).map(|i| (format!("n{i}"), format!("/n{i}"), false)).collect());
    assert_eq!(p.visible_rows(), PALETTE_MAX_ROWS);
}

#[test]
fn row_icons() {
    assert!(matches!(row_icon(&command_items(true)[0]), RowIcon::Gear));
    assert!(matches!(row_icon(&default_commands("/x")[0]), RowIcon::Path(true)));
    let hits = hit_items(vec![("f".to_string(), "/f".to_string(), false)]);
    assert!(matches!(row_icon(&hits[0]), RowIcon::Path(false)));
}
