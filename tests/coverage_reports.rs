use features_cli::coverage::{map_coverage_to_features, merge_file_coverage, normalize_path, CoverageStats};
use features_cli::config::ScanConfig;
use features_cli::reports::{extract_attribute, parse_cobertura_xml, parse_condition_coverage, parse_lcov};
use features_cli::tree::{build_feature_tree, DirNode};

fn dir(name: &str, dirs: Vec<DirNode>) -> DirNode {
    DirNode {
        name: name.to_string(),
        manifest: None,
        flagged: false,
        files: Vec::new(),
        dirs,
        decisions: Vec::new(),
        history: Vec::new(),
    }
}

const LCOV: &str = "TN:\nSF:src/features/feature-1/lib.rs\nDA:1,1\nDA:2,0\nDA:3,5\nBRDA:1,0,0,1\nBRDA:1,0,1,-\nend_of_record\nSF:src/features/feature-2/main.rs\nLF:10\nLH:10\nend_of_record\n";

const COBERTURA: &str = r#"<?xml version="1.0" ?>
<coverage line-rate="0.8">
  <packages>
    <package name="p">
      <classes>
        <class name="lib" filename="src/features/feature-1/lib.rs" line-rate="0.8">
          <lines>
            <line number="1" hits="1"/>
            <line number="2" hits="0"/>
            <line number="3" hits="2" branch="true" condition-coverage="50% (1/2)"/>
          </lines>
        </class>
      </classes>
    </package>
  </packages>
</coverage>
"#;

#[test]
fn lcov_records() {
    let files = parse_lcov(LCOV);
    assert_eq!(files.len(), 2);
    assert_eq!(files[0].path, "src/features/feature-1/lib.rs");
    assert_eq!(files[0].lines_total, 3);
    assert_eq!(files[0].lines_covered, 2);
    assert_eq!(files[0].branches_total, 2);
    assert_eq!(files[0].branches_covered, 1);
    assert_eq!(files[1].lines_total, 10);
    assert_eq!(files[1].lines_covered, 10);
}

#[test]
fn cobertura_records() {
    let files = parse_cobertura_xml(COBERTURA);
    assert_eq!(files.len(), 1);
    assert_eq!(files[0].path, "src/features/feature-1/lib.rs");
    assert_eq!(files[0].lines_total, 3);
    assert_eq!(files[0].lines_covered, 2);
    assert_eq!(files[0].branches_total, 2);
    assert_eq!(files[0].branches_covered, 1);
    assert_eq!(extract_attribute("<line hits=\"4\"/>", "hits"), Some("4".to_string()));
    assert_eq!(extract_attribute("<line hits=4/>", "hits"), None);
    assert_eq!(parse_condition_coverage("75% (3/4)"), Some((3, 4)));
    assert_eq!(parse_condition_coverage("75%"), None);
}

#[test]
fn two_reports_for_one_file_are_summed() {
    let mut by_file: Vec<(String, CoverageStats)> = Vec::new();
    merge_file_coverage(&mut by_file, &parse_lcov("SF:src/a.rs\nLF:5\nLH:4\nend_of_record\n"));
    merge_file_coverage(&mut by_file, &parse_lcov("SF:src/a.rs\nLF:5\nLH:3\nend_of_record\n"));
    assert_eq!(by_file.len(), 1);
    assert_eq!(by_file[0].1.lines_total, 10);
    assert_eq!(by_file[0].1.lines_covered, 7);
    assert_eq!(by_file[0].1.lines_missed, 3);
}

#[test]
fn coverage_goes_to_most_specific_feature() {
    let root = dir(
        "src",
        vec![dir(
            "features",
            vec![dir("parent", vec![dir("features", vec![dir("child", Vec::new())])])],
        )],
    );
    let features = build_feature_tree(&root, "");
    let mut by_file: Vec<(String, CoverageStats)> = Vec::new();
    merge_file_coverage(
        &mut by_file,
        &parse_lcov("SF:./features/parent/lib.rs\nLF:100\nLH:90\nend_of_record\nSF:features/parent/features/child/lib.rs\nLF:50\nLH:45\nend_of_record\nSF:other/x.rs\nLF:1\nLH:1\nend_of_record\n"),
    );
    let by_feature = map_coverage_to_features(&features, &by_file);
    assert_eq!(by_feature.len(), 2);
    assert_eq!(by_feature[0].0, "parent");
    assert_eq!(by_feature[0].1.lines_total, 100);
    assert_eq!(by_feature[0].1.lines_covered, 90);
    assert_eq!(by_feature[1].0, "child");
    assert_eq!(by_feature[1].1.lines_covered, 45);
    assert_eq!(normalize_path("./a\\b.rs"), "a/b.rs");
}

#[test]
fn coverage_directories_searched() {
    let config = ScanConfig::new("/work").project_dir("/proj");
    assert_eq!(
        config.coverage_search_dirs("/repo/src"),
        vec![
            "/repo/src/.coverage".to_string(),
            "/repo/src/coverage".to_string(),
            "/work/.coverage".to_string(),
            "/work/coverage".to_string(),
            "/proj/.coverage".to_string(),
            "/proj/coverage".to_string(),
        ]
    );
    let fixed = ScanConfig::new("/work").coverage_dir("/cov");
    assert_eq!(fixed.coverage_search_dirs("/repo"), vec!["/cov".to_string()]);
}
