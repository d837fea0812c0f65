use features_cli::checks::{check_duplicate_names, run_checks};
use features_cli::commits::{
    commit_counts_for_feature, commit_stats, filter_changes, history_for_directory, Change,
    CommitRecord,
};
use features_cli::coverage::{CoverageStats, FileCoverageStats};
use features_cli::owner::{collect_feature_info, extract_unique_owners, find_owner_for_path};
use features_cli::tree::{build_feature_tree, DirNode, FileEntry, Manifest};

fn dir(name: &str, dirs: Vec<DirNode>) -> DirNode {
    DirNode {
        name: name.to_string(),
        manifest: None,
        flagged: false,
        files: Vec::new(),
        dirs,
        decisions: Vec::new(),
        history: Vec::new(),
    }
}

fn files(n: usize, lines: usize, todos: usize) -> Vec<FileEntry> {
    (0..n)
        .map(|i| FileEntry {
            name: format!("f{}.rs", i),
            lines,
            todos,
        })
        .collect()
}

fn owned(owner: &str) -> Option<Manifest> {
    Some(Manifest {
        title: None,
        owner: owner.to_string(),
        description: String::new(),
    })
}

fn change(hash: &str, author: &str, title: &str, date: &str) -> Change {
    Change {
        title: title.to_string(),
        author_name: author.to_string(),
        author_email: format!("{}@example.com", author),
        description: String::new(),
        date: date.to_string(),
        hash: hash.to_string(),
    }
}

fn two_level_tree() -> DirNode {
    let mut f2 = dir("f2", Vec::new());
    f2.files = files(5, 3, 1);
    let mut f1 = dir("f1", vec![dir("features", vec![f2])]);
    f1.manifest = owned("team-x");
    f1.files = files(10, 2, 0);
    dir("root", vec![dir("features", vec![f1])])
}

#[test]
fn owner_inherited_from_enclosing_feature() {
    let features = build_feature_tree(&two_level_tree(), "");
    assert_eq!(features.len(), 1);
    let f1 = &features[0];
    assert_eq!(f1.path, "features/f1");
    assert_eq!(f1.owner, "team-x");
    assert!(!f1.is_owner_inherited);
    assert_eq!(f1.features.len(), 1);
    let f2 = &f1.features[0];
    assert_eq!(f2.path, "features/f1/features/f2");
    assert_eq!(f2.owner, "team-x");
    assert!(f2.is_owner_inherited);
}

#[test]
fn owner_stays_empty_without_owned_ancestor() {
    let root = dir("root", vec![dir("features", vec![dir("f0", Vec::new())])]);
    let features = build_feature_tree(&root, "");
    assert_eq!(features[0].owner, "");
    assert!(!features[0].is_owner_inherited);
}

#[test]
fn counts_exclude_nested_feature_files() {
    let features = build_feature_tree(&two_level_tree(), "");
    let stats = features[0].stats.as_ref().unwrap();
    assert_eq!(stats.files_count, Some(10));
    assert_eq!(stats.lines_count, Some(20));
    assert_eq!(stats.todos_count, Some(0));
    let nested = features[0].features[0].stats.as_ref().unwrap();
    assert_eq!(nested.files_count, Some(5));
    assert_eq!(nested.lines_count, Some(15));
    assert_eq!(nested.todos_count, Some(5));
}

#[test]
fn documentation_directories_are_not_features() {
    let mut docs = dir("docs", vec![dir("features", vec![dir("x", Vec::new())])]);
    docs.flagged = true;
    let root = dir("root", vec![docs, dir("features", vec![dir("Docs", Vec::new())])]);
    assert!(build_feature_tree(&root, "").is_empty());
}

#[test]
fn flagged_directory_becomes_nested_feature() {
    let mut ui = dir("ui", Vec::new());
    ui.flagged = true;
    let mut lib = dir("lib", vec![ui]);
    lib.files = files(2, 1, 0);
    let root = dir("root", vec![dir("features", vec![dir("app", vec![lib])])]);
    let features = build_feature_tree(&root, "");
    assert_eq!(features[0].features.len(), 1);
    assert_eq!(features[0].features[0].path, "features/app/lib/ui");
    assert_eq!(features[0].stats.as_ref().unwrap().files_count, Some(2));
}

#[test]
fn commit_only_in_nested_feature_is_excluded() {
    let nested = vec!["src/features/f1/features/f2".to_string()];
    let inner_only = vec!["src/features/f1/features/f2/a.ts".to_string()];
    let touches_parent = vec![
        "src/features/f1/features/f2/a.ts".to_string(),
        "src/features/f1/b.ts".to_string(),
    ];
    let feature = "src/features/f1".to_string();
    assert!(!commit_counts_for_feature(&inner_only, &feature, &nested));
    assert!(commit_counts_for_feature(&touches_parent, &feature, &nested));

    let records = vec![
        CommitRecord {
            change: change("a1", "ann", "feat: nested", "2024-01-01 10:00:00"),
            affected: inner_only,
        },
        CommitRecord {
            change: change("b2", "bob", "fix: parent", "2024-01-02 10:00:00"),
            affected: touches_parent,
        },
    ];
    let kept = filter_changes(&records, &feature, &nested);
    assert_eq!(kept.len(), 1);
    assert_eq!(kept[0].hash, "b2");
}

#[test]
fn history_of_tree_skips_nested_only_commits() {
    let mut tree = two_level_tree();
    let records = vec![
        CommitRecord {
            change: change("a1", "ann", "feat: nested", "2024-01-01 10:00:00"),
            affected: vec!["repo/features/f1/features/f2/f0.rs".to_string()],
        },
        CommitRecord {
            change: change("b2", "bob", "fix: parent", "2024-01-02 10:00:00"),
            affected: vec!["repo/features/f1/f0.rs".to_string()],
        },
    ];
    tree.dirs[0].dirs[0].history = records;
    let features = build_feature_tree(&tree, "repo");
    assert_eq!(features[0].changes.len(), 1);
    assert_eq!(features[0].changes[0].hash, "b2");
    let commits = &features[0].stats.as_ref().unwrap().commits;
    assert_eq!(commits.total_commits, 1);
    assert_eq!(commits.types, vec!["fix".to_string()]);
}

#[test]
fn commit_stats_tallies() {
    let changes = vec![
        change("1", "ann", "feat(x): a", "2024-01-01 00:00:00"),
        change("2", "bob", "fix: b", "2024-01-02 00:00:00"),
        change("3", "ann", "random", "2024-01-03 00:00:00"),
        change("4", "ann", "FEAT: c", "2024-01-04 00:00:00"),
    ];
    let s = commit_stats(&changes);
    assert_eq!(s.total_commits, 4);
    assert_eq!(s.authors, vec!["ann".to_string(), "bob".to_string()]);
    assert_eq!(s.author_counts, vec![3, 1]);
    assert_eq!(s.types, vec!["feat".to_string(), "fix".to_string(), "other".to_string()]);
    assert_eq!(s.type_counts, vec![2, 1, 1]);
    assert_eq!(s.first_commit_date.as_deref(), Some("2024-01-01 00:00:00"));
    assert_eq!(s.last_commit_date.as_deref(), Some("2024-01-04 00:00:00"));
}

#[test]
fn find_owner_reports_most_specific_feature() {
    let features = build_feature_tree(&two_level_tree(), "");
    let inner = find_owner_for_path("features/f1/features/f2/f0.rs", &features).unwrap();
    assert_eq!(inner.feature_path, "features/f1/features/f2");
    assert_eq!(inner.owner, "team-x");
    assert!(inner.inherited);
    let outer = find_owner_for_path("features/f1/f3.rs", &features).unwrap();
    assert_eq!(outer.feature_path, "features/f1");
    assert!(!outer.inherited);
    assert!(find_owner_for_path("tests", &features).is_none());
    assert!(find_owner_for_path("features/f10", &features).is_none());
}

#[test]
fn feature_info_in_preorder() {
    let features = build_feature_tree(&two_level_tree(), "");
    let mut infos = Vec::new();
    collect_feature_info(&features, None, &mut infos);
    let paths: Vec<&str> = infos.iter().map(|i| i.path.as_str()).collect();
    assert_eq!(paths, vec!["features/f1", "features/f1/features/f2"]);
    assert_eq!(infos[0].name, "f1");
}

#[test]
fn duplicate_names_are_reported() {
    let mut a = dir("api", Vec::new());
    a.manifest = Some(Manifest {
        title: Some("Shared".to_string()),
        owner: String::new(),
        description: String::new(),
    });
    let mut b = dir("web", Vec::new());
    b.manifest = Some(Manifest {
        title: Some("Shared".to_string()),
        owner: String::new(),
        description: String::new(),
    });
    let root = dir("root", vec![dir("features", vec![a, b, dir("solo", Vec::new())])]);
    let features = build_feature_tree(&root, "");
    let groups = check_duplicate_names(&features);
    assert_eq!(groups.len(), 1);
    assert_eq!(groups[0].name, "Shared");
    assert_eq!(groups[0].paths, vec!["features/api".to_string(), "features/web".to_string()]);
    assert_eq!(run_checks(&features), Err(1));
    assert_eq!(run_checks(&build_feature_tree(&two_level_tree(), "")), Ok(()));
}

#[test]
fn merged_coverage_sums_line_counts() {
    let file = "src/features/feature-1/lib.rs".to_string();
    let mut a = CoverageStats::new();
    a.lines_total = 5;
    a.lines_covered = 4;
    a.lines_missed = 1;
    let mut fa = FileCoverageStats::new();
    fa.lines_total = 5;
    fa.lines_covered = 4;
    a.files.push((file.clone(), fa));
    let mut b = CoverageStats::new();
    b.lines_total = 5;
    b.lines_covered = 3;
    b.lines_missed = 2;
    b.branches_total = Some(4);
    b.branches_covered = Some(1);
    let mut fb = FileCoverageStats::new();
    fb.lines_total = 5;
    fb.lines_covered = 3;
    b.files.push((file.clone(), fb));
    a.merge(&b);
    assert_eq!(a.lines_total, 10);
    assert_eq!(a.lines_covered, 7);
    assert_eq!(a.lines_missed, 3);
    assert_eq!(a.branches_total, Some(4));
    assert_eq!(a.branches_covered, Some(1));
    assert_eq!(a.files.len(), 1);
    assert_eq!(a.files[0].1.lines_covered, 3);
}

#[test]
fn directory_history_holds_commits_below_it() {
    let records = vec![
        CommitRecord {
            change: change("a", "ann", "feat: a", "2024-01-01 00:00:00"),
            affected: vec!["src/features/api/x.ts".to_string()],
        },
        CommitRecord {
            change: change("b", "bob", "fix: b", "2024-01-02 00:00:00"),
            affected: vec!["src/features/api-v2/y.ts".to_string(), "README.md".to_string()],
        },
        CommitRecord {
            change: change("c", "cy", "docs: c", "2024-01-03 00:00:00"),
            affected: vec!["src/features/api".to_string()],
        },
    ];
    let api: Vec<String> = history_for_directory(&records, "src/features/api")
        .iter()
        .map(|r| r.change.hash.clone())
        .collect();
    assert_eq!(api, vec!["a".to_string()]);
    let src: Vec<String> = history_for_directory(&records, "src")
        .iter()
        .map(|r| r.change.hash.clone())
        .collect();
    assert_eq!(src, vec!["a".to_string(), "b".to_string(), "c".to_string()]);
    assert!(history_for_directory(&records, "").is_empty());
}

#[test]
fn unique_owners_listed_once() {
    let mut other = dir("g", Vec::new());
    other.manifest = owned("team-y");
    let mut tree = two_level_tree();
    tree.dirs[0].dirs.push(other);
    let features = build_feature_tree(&tree, "");
    assert_eq!(extract_unique_owners(&features), vec!["team-x".to_string(), "team-y".to_string()]);
}
