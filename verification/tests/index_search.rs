use shuffle::index::{keep_child, rank_spotlight, FileIndex, Walked, SPOTLIGHT_HITS};
use shuffle::score::Rank;

fn walked(depth: usize, path: &str, is_dir: bool) -> Walked {
    let name = path.rsplit('/').next().unwrap().to_string();
    Walked { depth, name, path: path.to_string(), is_dir }
}

fn sample() -> FileIndex {
    FileIndex::build(vec![
        walked(0, "/Users/guzma", true),
        walked(1, "/Users/guzma/Documents", true),
        walked(1, "/Users/guzma/Downloads", true),
        walked(1, "/Users/guzma/Music", true),
        walked(5, "/Users/guzma/go/pkg/mod/x/spec-example-documents", true),
        walked(3, "/Users/guzma/Documents/foo/DocumentSummaryInformation", false),
        walked(2, "/Users/guzma/Documents/report.docx", false),
    ])
}

/// The score the palette gives each rank (the similarity part in floats).
fn scores(ranks: &[Rank]) -> Vec<Option<i32>> {
    ranks
        .iter()
        .map(|r| match r {
            Rank::Scored(s) => Some(*s),
            Rank::Similar { overlap, adjust } => {
                let sim = 2.0 * overlap.shared as f32 / (overlap.size_a + overlap.size_b) as f32;
                if sim < 0.5 {
                    None
                } else {
                    Some((sim * 1500.0) as i32 + adjust)
                }
            }
        })
        .collect()
}

fn search(index: &FileIndex, q: &str, limit: usize) -> Vec<String> {
    let s = scores(&index.rank_all(q));
    index.top_hits(q, &s, limit).into_iter().map(|h| h.0).collect()
}

#[test]
fn the_walk_skips_noise_directories() {
    assert!(keep_child("src", true, true));
    assert!(!keep_child("node_modules", true, true));
    assert!(!keep_child("Library", true, true));
    assert!(keep_child("Library", false, true));
    assert!(!keep_child("x", false, false));
}

#[test]
fn the_index_leaves_out_the_root() {
    let index = sample();
    assert_eq!(index.entries.len(), 6);
    assert_eq!(index.entries[0].name, "Documents");
    assert!(index.entries[0].is_dir);
}

#[test]
fn exact_names_rank_first() {
    let index = sample();
    assert_eq!(search(&index, "documents", 3), vec!["Documents", "DocumentSummaryInformation", "spec-example-documents"]);
    let s = scores(&index.rank_all("documents"));
    assert_eq!(s[0], Some(105059));
    assert_eq!(s[4], Some(4935));
}

#[test]
fn typos_still_find_the_folder() {
    let index = sample();
    assert_eq!(search(&index, "dcouments", 3), vec!["Documents"]);
    assert_eq!(search(&index, "documnets", 3), vec!["Documents"]);
    assert_eq!(search(&index, "dwnloads", 3), vec!["Downloads"]);
    assert_eq!(search(&index, "musc", 3), vec!["Music"]);
    let s = scores(&index.rank_all("dcouments"));
    assert_eq!(s[0], Some(945));
}

#[test]
fn an_empty_query_finds_nothing() {
    let index = sample();
    assert!(index.rank_all("").is_empty());
    assert!(index.top_hits("", &Vec::new(), 10).is_empty());
}

#[test]
fn equal_scores_prefer_shorter_names() {
    let index = FileIndex::build(vec![walked(1, "/bbbb", false), walked(1, "/aa", false), walked(1, "/cc", false)]);
    let hits = index.top_hits("x", &vec![Some(5), Some(5), Some(9)], 10);
    let names: Vec<String> = hits.into_iter().map(|h| h.0).collect();
    assert_eq!(names, vec!["cc", "aa", "bbbb"]);
    let few = index.top_hits("x", &vec![Some(5), None, Some(9)], 1);
    assert_eq!(few.len(), 1);
    assert_eq!(few[0].1, "/cc");
}

#[test]
fn spotlight_answers_are_ranked_and_capped() {
    let lines: Vec<String> = vec![
        "/x/rep".to_string(),
        "".to_string(),
        "/Users/guzma/Documents/report.docx".to_string(),
        "/prep.md".to_string(),
        "/".to_string(),
        "/zzz".to_string(),
    ];
    let hits = rank_spotlight("REP", &lines);
    assert_eq!(
        hits,
        vec![
            ("rep".to_string(), "/x/rep".to_string()),
            ("report.docx".to_string(), "/Users/guzma/Documents/report.docx".to_string()),
            ("prep.md".to_string(), "/prep.md".to_string()),
        ]
    );
    let many: Vec<String> = (0..100).map(|i| format!("/d/rep{i}")).collect();
    assert_eq!(rank_spotlight("rep", &many).len(), SPOTLIGHT_HITS);
}
