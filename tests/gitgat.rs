use gitgat::record::{has_prefix, is_excluded, same_text};
use gitgat::walk::{author_matches, commit_pairs};
use gitgat::{Commit, DiffLine, History, LineKind, Opts, Revision, Stats};

fn line(path: &str, kind: LineKind) -> DiffLine {
    DiffLine { path: path.to_string(), kind }
}

fn lines(path: &str, added: usize, deleted: usize) -> Vec<DiffLine> {
    let mut v = Vec::new();
    for _ in 0..added {
        v.push(line(path, LineKind::Addition));
    }
    for _ in 0..deleted {
        v.push(line(path, LineKind::Deletion));
    }
    v
}

fn rev(hash: &str, author: Option<&str>, summary: &str, lines: Vec<DiffLine>) -> Revision {
    Revision {
        hash: hash.to_string(),
        author: author.map(|a| a.to_string()),
        summary: Some(summary.to_string()),
        lines,
    }
}

fn opts<'a>(author: &'a str, excluded: Vec<&'a str>) -> Opts<'a> {
    Opts { repo: ".", author, excluded_dirs: excluded }
}

/// History A(root) -> B -> C, walked newest first: C, B, A.
fn three_commits() -> Vec<Revision> {
    let mut c_lines = lines("vendor/y", 3, 1);
    c_lines.extend(lines("src/z", 1, 0));
    vec![
        rev("c", Some("Alice"), "third", c_lines),
        rev("b", Some("Alice"), "second", lines("src/x", 10, 2)),
        rev("a", Some("Bob"), "first", Vec::new()),
    ]
}

#[test]
fn scenario_three_commits() {
    let revs = three_commits();
    let history = History::from_log(&revs, &opts("Alice", vec!["vendor"]));
    let stats = history.stats();
    assert_eq!(stats.commits, 2);
    assert_eq!(stats.additions, 11);
    assert_eq!(stats.deletions, 2);
    let top = stats.top.unwrap();
    assert_eq!(top.hash, "b");
    assert_eq!(top.summary, "second");
    assert_eq!(top.size(), 10);
}

#[test]
fn records_in_walk_order() {
    let revs = three_commits();
    let history = History::from_log(&revs, &opts("Alice", vec!["vendor"]));
    assert_eq!(history.commits.len(), 2);
    assert_eq!(history.commits[0].hash, "c");
    assert_eq!(history.commits[0].additions, 1);
    assert_eq!(history.commits[0].deletions, 0);
    assert_eq!(history.commits[1].hash, "b");
    assert_eq!(history.commits[1].additions, 10);
    assert_eq!(history.commits[1].deletions, 2);
}

#[test]
fn totals_are_sums_of_commits_alone() {
    let revs = three_commits();
    let o = opts("Alice", vec!["vendor"]);
    let history = History::from_log(&revs, &o);
    let stats = history.stats();
    let mut added: u64 = 0;
    let mut deleted: u64 = 0;
    for r in revs.iter().take(2) {
        let c = Commit::summarize(r.hash.clone(), r.summary.clone(), &r.lines, &o.excluded_dirs);
        added += c.additions as u64;
        deleted += c.deletions as u64;
    }
    assert_eq!(stats.additions, added);
    assert_eq!(stats.deletions, deleted);
    assert_eq!((added, deleted), (11, 2));
}

#[test]
fn more_exclusions_never_count_more() {
    let revs = three_commits();
    let none = History::from_log(&revs, &opts("Alice", vec![]));
    let some = History::from_log(&revs, &opts("Alice", vec!["vendor"]));
    let (a, b) = (none.stats(), some.stats());
    assert_eq!((a.additions, a.deletions), (14, 3));
    assert_eq!((b.additions, b.deletions), (11, 2));
    assert!(b.additions <= a.additions && b.deletions <= a.deletions);
    assert_eq!(none.commits[0].size(), 4);
    assert_eq!(some.commits[0].size(), 1);
}

#[test]
fn no_matching_author_is_empty() {
    let revs = three_commits();
    let history = History::from_log(&revs, &opts("Carol", vec![]));
    let stats = history.stats();
    assert_eq!(stats.commits, 0);
    assert_eq!(stats.additions, 0);
    assert_eq!(stats.deletions, 0);
    assert!(stats.top.is_none());
}

#[test]
fn author_match_is_exact() {
    let revs = three_commits();
    let history = History::from_log(&revs, &opts("alice", vec![]));
    assert_eq!(history.stats().commits, 0);
    assert!(author_matches(Some("Alice"), "Alice"));
    assert!(!author_matches(Some("Alice "), "Alice"));
    assert!(!author_matches(Some("ALICE"), "Alice"));
    assert!(!author_matches(None, "Alice"));
    assert!(author_matches(Some("Jürgen"), "Jürgen"));
    assert!(!author_matches(Some("Jürgen"), "Jurgen"));
}

#[test]
fn commit_without_author_never_counts() {
    let revs = vec![
        rev("b", None, "second", lines("src/x", 2, 2)),
        rev("a", None, "first", Vec::new()),
    ];
    let history = History::from_log(&revs, &opts("", vec![]));
    assert_eq!(history.stats().commits, 0);
}

#[test]
fn root_alone_counts_nothing() {
    let revs = vec![rev("a", Some("Alice"), "first", lines("src/x", 5, 0))];
    let history = History::from_log(&revs, &opts("Alice", vec![]));
    let stats = history.stats();
    assert_eq!(stats.commits, 0);
    assert_eq!(stats.additions, 0);
    assert!(stats.top.is_none());
}

#[test]
fn root_is_never_counted() {
    let revs = vec![
        rev("b", Some("Alice"), "second", lines("src/x", 1, 0)),
        rev("a", Some("Alice"), "first", lines("src/x", 5, 0)),
    ];
    let history = History::from_log(&revs, &opts("Alice", vec![]));
    let stats = history.stats();
    assert_eq!(stats.commits, 1);
    assert_eq!(stats.additions, 1);
    assert_eq!(stats.top.unwrap().hash, "b");
}

#[test]
fn empty_walk_is_empty() {
    let history = History::from_log(&Vec::new(), &opts("Alice", vec![]));
    let stats = history.stats();
    assert_eq!((stats.commits, stats.additions, stats.deletions), (0, 0, 0));
    assert!(stats.top.is_none());
}

#[test]
fn tie_keeps_first_commit() {
    let revs = vec![
        rev("c", Some("Alice"), "third", lines("src/x", 5, 0)),
        rev("b", Some("Alice"), "second", lines("src/x", 0, 5)),
        rev("a", Some("Alice"), "first", Vec::new()),
    ];
    let history = History::from_log(&revs, &opts("Alice", vec![]));
    let stats = history.stats();
    assert_eq!(stats.commits, 2);
    assert_eq!(stats.top.unwrap().hash, "c");
}

#[test]
fn larger_later_commit_replaces() {
    let first = Commit { hash: "x".to_string(), summary: "s".to_string(), additions: 3, deletions: 1, binary: 0 };
    let second = Commit { hash: "y".to_string(), summary: "t".to_string(), additions: 1, deletions: 4, binary: 0 };
    let third = Commit { hash: "z".to_string(), summary: "u".to_string(), additions: 4, deletions: 4, binary: 0 };
    let stats = Stats::new().update(&first).update(&second).update(&third);
    assert_eq!(stats.commits, 3);
    assert_eq!(stats.additions, 8);
    assert_eq!(stats.deletions, 9);
    assert_eq!(stats.top.unwrap().hash, "y");
}

#[test]
fn update_on_empty_takes_the_record() {
    let c = Commit::new("h".to_string(), "s".to_string());
    let stats = Stats::new().update(&c);
    assert_eq!(stats.commits, 1);
    assert_eq!(stats.top.unwrap().hash, "h");
}

#[test]
fn history_push_then_stats() {
    let mut h = History::new();
    h.push(Commit { hash: "x".to_string(), summary: "s".to_string(), additions: 2, deletions: 7, binary: 1 });
    h.push(Commit { hash: "y".to_string(), summary: "t".to_string(), additions: 6, deletions: 0, binary: 2 });
    let stats = h.stats();
    assert_eq!(stats.commits, 2);
    assert_eq!(stats.additions, 8);
    assert_eq!(stats.deletions, 7);
    assert_eq!(stats.binary, 3);
    assert_eq!(stats.top.unwrap().hash, "x");
}

#[test]
fn size_is_larger_count() {
    let c = Commit { hash: String::new(), summary: String::new(), additions: 3, deletions: 9, binary: 20 };
    assert_eq!(c.size(), 9);
    let d = Commit { hash: String::new(), summary: String::new(), additions: 12, deletions: 9, binary: 0 };
    assert_eq!(d.size(), 12);
}

#[test]
fn binary_changes_are_kept_apart() {
    let v = vec![
        line("img/a.png", LineKind::Binary),
        line("src/a.rs", LineKind::Addition),
        line("src/a.rs", LineKind::Other),
        line("img/b.png", LineKind::Binary),
    ];
    let c = Commit::summarize("h".to_string(), Some("s".to_string()), &v, &vec![]);
    assert_eq!((c.additions, c.deletions, c.binary), (1, 0, 2));
    assert_eq!(c.size(), 1);
    let d = Commit::summarize("h".to_string(), None, &v, &vec!["img"]);
    assert_eq!((d.additions, d.deletions, d.binary), (1, 0, 0));
}

#[test]
fn missing_summary_gets_placeholder() {
    let c = Commit::from_metadata("h".to_string(), None);
    assert_eq!(c.summary, "<unknown summary>");
    assert_eq!(c.hash, "h");
    let d = Commit::from_metadata("h".to_string(), Some("fix".to_string()));
    assert_eq!(d.summary, "fix");
    assert_eq!((d.additions, d.deletions, d.binary), (0, 0, 0));
}

#[test]
fn count_line_skips_excluded() {
    let excluded = vec!["docs"];
    let mut c = Commit::new("h".to_string(), "s".to_string());
    c.count_line("src/a.rs", LineKind::Addition, &excluded);
    c.count_line("src/a.rs", LineKind::Deletion, &excluded);
    c.count_line("docs/a.md", LineKind::Addition, &excluded);
    c.count_line("docs2/b.md", LineKind::Deletion, &excluded);
    c.count_line("src/b.rs", LineKind::Other, &excluded);
    assert_eq!((c.additions, c.deletions, c.binary), (1, 1, 0));
}

#[test]
fn exclusion_is_a_text_prefix() {
    assert!(is_excluded("docs2/x", &vec!["docs"]));
    assert!(is_excluded("docs/x", &vec!["docs"]));
    assert!(is_excluded("vendor/y", &vec!["src", "vendor"]));
    assert!(!is_excluded("src/docs/x", &vec!["docs"]));
    assert!(!is_excluded("do", &vec!["docs"]));
    assert!(!is_excluded("src/x", &vec![]));
    assert!(is_excluded("anything", &vec![""]));
}

#[test]
fn prefix_and_equality_on_text() {
    assert!(has_prefix("vendor/y", "vendor"));
    assert!(has_prefix("abc", "abc"));
    assert!(!has_prefix("ab", "abc"));
    assert!(has_prefix("über/x", "über"));
    assert!(!has_prefix("uber/x", "über"));
    assert!(same_text("", ""));
    assert!(!same_text("a", "b"));
    assert!(!same_text("a", "ab"));
}

#[test]
fn origin_markers_classify() {
    assert_eq!(LineKind::from_origin('+'), LineKind::Addition);
    assert_eq!(LineKind::from_origin('-'), LineKind::Deletion);
    assert_eq!(LineKind::from_origin('B'), LineKind::Binary);
    assert_eq!(LineKind::from_origin(' '), LineKind::Other);
    assert_eq!(LineKind::from_origin('F'), LineKind::Other);
}

#[test]
fn pairs_of_commit_and_predecessor() {
    assert!(commit_pairs(0).is_empty());
    assert!(commit_pairs(1).is_empty());
    assert_eq!(commit_pairs(4), vec![(0, 1), (1, 2), (2, 3)]);
}
