use optionfiles::fs::{compare_entries, compare_entries_lowered, Entry, SortMode};
use optionfiles::search::{filter_entries, filter_lowered, fuzzy_score};

fn named(name: &str, dir: bool) -> Entry {
    Entry { path: format!("/d/{name}"), name: name.to_string(), is_dir: dir, is_symlink: false, size: 0, modified: None }
}

#[test]
fn fuzzy_ranks_better_matches_first() {
    let mut scored: Vec<(i64, &str)> = ["draft-notes.txt", "draft.txt", "notes-draft.txt"]
        .iter()
        .filter_map(|name| fuzzy_score(name, &["drft"]).map(|score| (score, *name)))
        .collect();
    scored.sort_by(|a, b| b.0.cmp(&a.0));
    assert_eq!(scored[0].1, "draft.txt");

    // Multi-term query requires all terms present as subsequences.
    assert!(fuzzy_score("draft-notes.txt", &["src", "main"]).is_none());
    assert!(fuzzy_score("source-main.rs", &["src", "main"]).is_some());
}

#[test]
fn fuzzy_prefers_earlier_and_boundary_matches() {
    let a = fuzzy_score("xxconfigxx", &["conf"]).unwrap();
    let b = fuzzy_score("configxx", &["conf"]).unwrap();
    assert!(b > a, "earlier match should rank higher");
}

#[test]
fn fuzzy_scores_are_exact() {
    // "conf" in "configxx": consecutive (+100), boundary at 0 (+10), starts at 0,
    // one term (-8), length 8 (-4).
    assert_eq!(fuzzy_score("configxx", &["conf"]), Some(98));
    // No boundary bonus in the middle of a word; length 10 costs 5.
    assert_eq!(fuzzy_score("xxconfigxx", &["conf"]), Some(87));
    assert_eq!(fuzzy_score("abc", &[]), Some(-1));
    assert_eq!(fuzzy_score("abc", &["", "b"]), Some(100 - 16 - 1));
    assert_eq!(fuzzy_score("abc", &["d"]), None);
}

#[test]
fn filtering_after_lowering() {
    let entries = vec![named("Alpha.txt", false), named("beta.TXT", false), named("gamma", false)];
    let lows: Vec<String> = vec!["alpha.txt".into(), "beta.txt".into(), "gamma".into()];
    let names = |v: Vec<Entry>| v.into_iter().map(|e| e.name).collect::<Vec<_>>();
    assert_eq!(names(filter_lowered(entries.clone(), &lows, "txt")), vec!["Alpha.txt", "beta.TXT"]);
    assert_eq!(names(filter_lowered(entries.clone(), &lows, "zz q")), Vec::<String>::new());
    assert_eq!(names(filter_lowered(entries.clone(), &lows, "ga")), vec!["gamma"]);
    assert_eq!(names(filter_entries(entries.clone(), "TXT")), vec!["Alpha.txt", "beta.TXT"]);
    // The names given as lowercase are what the filter reads.
    let other: Vec<String> = vec!["zzz".into(), "zzz".into(), "txt".into()];
    assert_eq!(names(filter_lowered(entries, &other, "txt")), vec!["gamma"]);
}

#[test]
fn name_order_after_lowering() {
    let (a, b) = (named("apple", false), named("Banana", false));
    assert_eq!(compare_entries_lowered(&a, &b, SortMode::Name, "apple", "banana"), -1);
    assert_eq!(compare_entries_lowered(&a, &b, SortMode::Name, "zebra", "banana"), 1);
    assert_eq!(compare_entries_lowered(&a, &a, SortMode::Name, "x", "x"), 0);
    assert_eq!(compare_entries(&a, &b, SortMode::Name), -1);
    assert_eq!(compare_entries(&named("z", true), &a, SortMode::Name), -1);
}
