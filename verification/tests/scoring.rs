use shuffle::score::{
    bigrams_of, command_alias_checks, dice_overlap, find_score, fuzzy_score, index_score, is_word_boundary,
    lower_chars, match_score, name_bigram_dice, overlap_count, query_chars, rank_entry, score_entry, FindRank,
    Overlap, Rank,
};

fn similarity(o: &Overlap) -> f32 {
    2.0 * o.shared as f32 / (o.size_a + o.size_b) as f32
}

#[test]
fn word_boundaries() {
    for c in ['/', ' ', '_', '-', '.'] {
        assert!(is_word_boundary(c));
    }
    assert!(!is_word_boundary('a'));
}

#[test]
fn fuzzy_rewards_runs_and_word_starts() {
    assert_eq!(fuzzy_score("doc", "Documents"), Some(21));
    assert_eq!(fuzzy_score("dmt", "Documents"), Some(7));
    assert_eq!(fuzzy_score("rm", "read_me.md"), Some(18));
    assert_eq!(fuzzy_score("xyz", "Documents"), None);
    assert_eq!(fuzzy_score("", "abc"), Some(0));
}

#[test]
fn index_score_is_ascii_case_insensitive() {
    assert_eq!(index_score(&vec!['d', 'o', 'c'], "my-Documents"), Some(20));
    assert_eq!(index_score(&vec!['x', 'z'], "abc"), None);
    assert_eq!(index_score(&vec![], "abc"), Some(0));
}

#[test]
fn exact_names_win_the_index_ranking() {
    let q: Vec<char> = "documents".chars().collect();
    assert_eq!(score_entry(&q, "Documents", "/Users/me/Documents", true), Some(105059));
    let r: Vec<char> = "report".chars().collect();
    assert_eq!(score_entry(&r, "report.docx", "/Users/me/report.docx", false), Some(64986));
    let p: Vec<char> = "rep".chars().collect();
    assert_eq!(score_entry(&p, "my-report.txt", "/a/my-report.txt", false), Some(1456));
    assert_eq!(score_entry(&q, "Music", "/Users/me/Music", true), None);
}

#[test]
fn filter_scores_exact_prefix_and_subsequence() {
    assert!(matches!(find_score("documents", "Documents"), FindRank::Scored(100000)));
    assert!(matches!(find_score("doc", "Documents"), FindRank::Scored(49998)));
    assert!(matches!(find_score("dcm", "Documents"), FindRank::Scored(10006)));
}

#[test]
fn filter_falls_back_on_bigrams_for_typos() {
    match find_score("dcouments", "Documents") {
        FindRank::Similar { overlap, penalty } => {
            assert_eq!((overlap.shared, overlap.size_a, overlap.size_b), (5, 8, 8));
            assert_eq!(penalty, 2);
            let d = similarity(&overlap);
            assert!(d >= 0.5);
            assert_eq!((d * 5000.0) as i32 - penalty, 3123);
        }
        _ => panic!("expected a similarity fallback"),
    }
    assert!(matches!(find_score("zz", "Documents"), FindRank::Similar { .. }));
    assert!(matches!(find_score("z", "Documents"), FindRank::Miss));
}

#[test]
fn palette_match_score_parts() {
    let m = match_score("doc", "Documents");
    assert_eq!(m.base, 6319);
    let o = m.overlap.expect("overlap for a non-empty partial");
    assert_eq!((o.shared, o.size_a, o.size_b), (2, 2, 8));
    assert_eq!(m.base + (similarity(&o) * 2000.0) as i32, 7119);
    let e = match_score("", "x");
    assert_eq!(e.base, 0);
    assert!(e.overlap.is_none());
}

#[test]
fn dice_counts_shared_bigrams_once() {
    let o = dice_overlap("aaa", "aa");
    assert_eq!((o.shared, o.size_a, o.size_b), (1, 2, 1));
    let same = dice_overlap("a", "a");
    assert_eq!(similarity(&same), 1.0);
    let differ = dice_overlap("a", "b");
    assert_eq!(similarity(&differ), 0.0);
    let a = bigrams_of(&vec!['a', 'b', 'a', 'b']);
    let b = bigrams_of(&vec!['b', 'a', 'b']);
    assert_eq!(a, vec![('a', 'b'), ('b', 'a'), ('a', 'b')]);
    assert_eq!(overlap_count(&a, &b), 2);
}

#[test]
fn settings_aliases() {
    let c = command_alias_checks("SET");
    assert_eq!(c.len(), 3);
    assert!(c[0].0);
    assert!(!c[1].0);
    assert!(!c[2].0);
    let t = command_alias_checks("setings");
    assert!(!t[0].0);
    assert!(similarity(&t[0].1) >= 0.6);
}

#[test]
fn query_characters_are_lowercased_one_by_one() {
    assert_eq!(query_chars("DocS"), vec!['d', 'o', 'c', 's']);
    assert_eq!(query_chars("İ"), vec!['i', '\u{307}']);
    assert_eq!(lower_chars("ABC"), vec!['a', 'b', 'c']);
}

#[test]
fn index_ranks_typos_by_similarity() {
    let q = query_chars("dcouments");
    let qb = bigrams_of(&q);
    match rank_entry(&q, &qb, "Documents", "/Users/me/Documents", true) {
        Rank::Similar { overlap, adjust } => {
            assert_eq!((overlap.shared, overlap.size_a, overlap.size_b), (5, 8, 8));
            assert_eq!(adjust, 8);
            assert_eq!((similarity(&overlap) * 1500.0) as i32 + adjust, 945);
        }
        Rank::Scored(_) => panic!("not a subsequence"),
    }
    let nb = name_bigram_dice(&vec![('a', 'b')], "x");
    assert_eq!(nb.shared, 0);
    assert_eq!(similarity(&nb), 0.0);
}

#[test]
fn dice_is_symmetric_and_one_on_equal_strings() {
    let o = dice_overlap("dcouments", "documents");
    assert_eq!((o.shared, o.size_a, o.size_b), (5, 8, 8));
    assert_eq!(similarity(&o), 0.625);
    let back = dice_overlap("documents", "dcouments");
    assert_eq!(similarity(&back), similarity(&o));
    let uneven = dice_overlap("music", "musc");
    let uneven_back = dice_overlap("musc", "music");
    assert_eq!(uneven.shared, uneven_back.shared);
    assert_eq!(similarity(&uneven), similarity(&uneven_back));
    for s in ["", "a", "ab", "documents", "aaaa"] {
        assert_eq!(similarity(&dice_overlap(s, s)), 1.0);
    }
}

#[test]
fn an_exact_name_outranks_shallower_prefix_matches() {
    let q: Vec<char> = "report".chars().collect();
    let exact = score_entry(&q, "Report", "/a/b/c/d/e/f/g/h/Report", false).unwrap();
    let stem = score_entry(&q, "report.docx", "/report.docx", true).unwrap();
    let prefix = score_entry(&q, "reports", "/reports", true).unwrap();
    assert!(exact > stem);
    assert!(exact > prefix);
}

#[test]
fn scores_exist_only_for_subsequences() {
    assert!(fuzzy_score("dcm", "Documents").is_some());
    assert!(fuzzy_score("mcd", "Documents").is_none());
    assert!(index_score(&vec!['d', 'c', 'm'], "Documents").is_some());
    assert!(index_score(&vec!['m', 'c', 'd'], "Documents").is_none());
}

fn scored(r: FindRank) -> Option<i32> {
    match r {
        FindRank::Scored(s) => Some(s),
        _ => None,
    }
}

#[test]
fn filter_tiers_never_mix() {
    let exact = scored(find_score("doc", "DOC")).unwrap();
    let prefix = scored(find_score("doc", "docs")).unwrap();
    let subseq = scored(find_score("doc", "d_o_c_with_a_long_tail.txt")).unwrap();
    assert!(exact > prefix && prefix > subseq && subseq > 5000);
    assert!(matches!(find_score("documents", "dcouments"), FindRank::Similar { .. }));
    assert!(matches!(find_score("a", "zzz"), FindRank::Miss));
}
