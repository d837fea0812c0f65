use features_cli::coverage::{map_coverage_to_features, merge_file_coverage, CoverageStats};
use features_cli::readme::find_features_toml;
use features_cli::reports::{parse_cobertura_xml, parse_lcov};
use features_cli::tree::Feature;

fn create_cobertura_xml() -> String {
    r#"<?xml version="1.0" ?>
<coverage version="1.0" timestamp="1704067200000" lines-valid="100" lines-covered="80" line-rate="0.80" branches-valid="20" branches-covered="15" branch-rate="0.75" complexity="0">
    <sources>
        <source>/path/to/project</source>
    </sources>
    <packages>
        <package name="feature1" line-rate="0.85" branch-rate="0.80" complexity="0">
            <classes>
                <class name="lib.rs" filename="src/features/feature-1/lib.rs" line-rate="0.90" branch-rate="0.85" complexity="0">
                    <methods/>
                    <lines>
                        <line number="1" hits="10"/>
                        <line number="2" hits="10"/>
                        <line number="3" hits="10"/>
                        <line number="4" hits="10"/>
                        <line number="5" hits="0"/>
                    </lines>
                </class>
            </classes>
        </package>
        <package name="feature2" line-rate="0.75" branch-rate="0.70" complexity="0">
            <classes>
                <class name="main.rs" filename="src/features/feature-2/main.rs" line-rate="0.75" branch-rate="0.70" complexity="0">
                    <methods/>
                    <lines>
                        <line number="1" hits="5"/>
                        <line number="2" hits="5"/>
                        <line number="3" hits="0"/>
                        <line number="4" hits="5"/>
                    </lines>
                </class>
            </classes>
        </package>
    </packages>
</coverage>"#
        .to_string()
}

fn create_lcov_info() -> String {
    r#"TN:
SF:src/features/feature-1/lib.rs
FN:1,feature1_init
FNDA:10,feature1_init
FNF:1
FNH:1
DA:1,10
DA:2,10
DA:3,10
DA:4,10
DA:5,0
LH:4
LF:5
end_of_record
TN:
SF:src/features/feature-2/main.rs
FN:1,feature2_main
FNDA:5,feature2_main
FNF:1
FNH:1
DA:1,5
DA:2,5
DA:3,0
DA:4,5
BRDA:2,0,0,3
BRDA:2,0,1,2
LH:3
LF:4
BRH:2
BRF:2
end_of_record"#
        .to_string()
}

fn entry_for<'a>(map: &'a [(String, CoverageStats)], key: &str) -> &'a CoverageStats {
    &map.iter().find(|(k, _)| k == key).expect("entry present").1
}

fn percent(covered: usize, total: usize) -> f64 {
    (covered as f64 / total as f64) * 100.0
}

#[test]
fn test_parse_cobertura_xml() {
    let mut coverage_map: Vec<(String, CoverageStats)> = Vec::new();
    merge_file_coverage(&mut coverage_map, &parse_cobertura_xml(&create_cobertura_xml()));

    let coverage = entry_for(&coverage_map, "src/features/feature-1/lib.rs");
    assert_eq!(coverage.lines_total, 5);
    assert_eq!(coverage.lines_covered, 4);
    assert_eq!(coverage.lines_missed, 1);
    assert_eq!(percent(coverage.lines_covered, coverage.lines_total), 80.0);

    let coverage = entry_for(&coverage_map, "src/features/feature-2/main.rs");
    assert_eq!(coverage.lines_total, 4);
    assert_eq!(coverage.lines_covered, 3);
    assert_eq!(coverage.lines_missed, 1);
    assert_eq!(percent(coverage.lines_covered, coverage.lines_total), 75.0);
}

#[test]
fn test_parse_lcov() {
    let mut coverage_map: Vec<(String, CoverageStats)> = Vec::new();
    merge_file_coverage(&mut coverage_map, &parse_lcov(&create_lcov_info()));

    let coverage = entry_for(&coverage_map, "src/features/feature-1/lib.rs");
    assert_eq!(coverage.lines_total, 5);
    assert_eq!(coverage.lines_covered, 4);

    let coverage = entry_for(&coverage_map, "src/features/feature-2/main.rs");
    assert_eq!(coverage.lines_total, 4);
    assert_eq!(coverage.lines_covered, 3);
    assert_eq!(coverage.branches_total, Some(2));
    assert_eq!(coverage.branches_covered, Some(2));
    assert_eq!(
        percent(coverage.branches_covered.unwrap(), coverage.branches_total.unwrap()),
        100.0
    );
}

#[test]
fn test_merge_multiple_coverage_files() {
    let mut coverage_map: Vec<(String, CoverageStats)> = Vec::new();
    merge_file_coverage(&mut coverage_map, &parse_cobertura_xml(&create_cobertura_xml()));
    merge_file_coverage(&mut coverage_map, &parse_lcov(&create_lcov_info()));

    let coverage = entry_for(&coverage_map, "src/features/feature-1/lib.rs");
    assert_eq!(coverage.lines_total, 10);
    assert_eq!(coverage.lines_covered, 8);
}

fn create_test_feature(name: &str, path: &str) -> Feature {
    Feature {
        name: name.to_string(),
        description: String::new(),
        owner: "Test Owner".to_string(),
        is_owner_inherited: false,
        path: path.to_string(),
        features: Vec::new(),
        changes: Vec::new(),
        decisions: Vec::new(),
        stats: None,
        dependencies: Vec::new(),
    }
}

#[test]
fn test_map_coverage_to_features() {
    let features = vec![
        create_test_feature("Feature 1", "./src/features/feature-1"),
        create_test_feature("Feature 2", "./src/features/feature-2"),
    ];

    let mut cov1 = CoverageStats::new();
    cov1.lines_total = 100;
    cov1.lines_covered = 85;
    let mut cov2 = CoverageStats::new();
    cov2.lines_total = 50;
    cov2.lines_covered = 40;
    let coverage_map = vec![
        ("src/features/feature-1/lib.rs".to_string(), cov1),
        ("src/features/feature-2/main.rs".to_string(), cov2),
    ];

    let feature_coverage = map_coverage_to_features(&features, &coverage_map);

    let f1 = entry_for(&feature_coverage, "Feature 1");
    assert_eq!(f1.lines_total, 100);
    assert_eq!(f1.lines_covered, 85);
    assert_eq!(percent(f1.lines_covered, f1.lines_total), 85.0);

    let f2 = entry_for(&feature_coverage, "Feature 2");
    assert_eq!(f2.lines_total, 50);
    assert_eq!(f2.lines_covered, 40);
    assert_eq!(percent(f2.lines_covered, f2.lines_total), 80.0);
}

#[test]
fn test_nested_features_coverage() {
    let child_feature = create_test_feature("Child Feature", "./src/features/parent/features/child");
    let mut parent_feature = create_test_feature("Parent Feature", "./src/features/parent");
    parent_feature.features = vec![child_feature];
    let features = vec![parent_feature];

    let mut parent_cov = CoverageStats::new();
    parent_cov.lines_total = 100;
    parent_cov.lines_covered = 90;
    let mut child_cov = CoverageStats::new();
    child_cov.lines_total = 50;
    child_cov.lines_covered = 45;
    let coverage_map = vec![
        ("src/features/parent/lib.rs".to_string(), parent_cov),
        ("src/features/parent/features/child/lib.rs".to_string(), child_cov),
    ];

    let feature_coverage = map_coverage_to_features(&features, &coverage_map);

    assert!(feature_coverage.iter().any(|(k, _)| k == "Parent Feature"));
    assert!(feature_coverage.iter().any(|(k, _)| k == "Child Feature"));
    assert_eq!(entry_for(&feature_coverage, "Parent Feature").lines_total, 100);
    assert_eq!(entry_for(&feature_coverage, "Child Feature").lines_total, 50);
}

#[test]
fn test_coverage_stats_merge() {
    let mut stats1 = CoverageStats::new();
    stats1.lines_total = 100;
    stats1.lines_covered = 80;
    stats1.branches_total = Some(20);
    stats1.branches_covered = Some(15);

    let mut stats2 = CoverageStats::new();
    stats2.lines_total = 50;
    stats2.lines_covered = 45;
    stats2.branches_total = Some(10);
    stats2.branches_covered = Some(9);

    stats1.merge(&stats2);

    assert_eq!(stats1.lines_total, 150);
    assert_eq!(stats1.lines_covered, 125);
    assert_eq!(stats1.lines_missed, 25);
    assert_eq!(percent(stats1.lines_covered, stats1.lines_total), (125.0 / 150.0) * 100.0);

    assert_eq!(stats1.branches_total, Some(30));
    assert_eq!(stats1.branches_covered, Some(24));
    assert_eq!(
        percent(stats1.branches_covered.unwrap(), stats1.branches_total.unwrap()),
        (24.0 / 30.0) * 100.0
    );
}

#[test]
fn test_find_features_toml() {
    let names = vec!["FEATURES.toml".to_string()];
    let found = find_features_toml("/tmp/project", &names);
    assert!(found.is_some());
    assert_eq!(found.unwrap(), "/tmp/project/FEATURES.toml");
}

#[test]
fn test_find_features_toml_not_found() {
    let found = find_features_toml("/tmp/project", &Vec::new());
    assert!(found.is_none());
}
