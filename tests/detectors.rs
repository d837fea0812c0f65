use features_cli::commits::extract_commit_type;
use features_cli::config::{list_build_files, ScanConfig};
use features_cli::dependency::{determine_dependency_type, DependencyType};
use features_cli::import_detector::{
    extract_javascript_import, extract_python_import, extract_quoted_string, extract_rust_import,
};
use features_cli::metadata::{
    check_line_for_feature_metadata, extract_comment_content, parse_properties, CommentPattern,
};

#[test]
fn test_list_build_files() {
    let files = list_build_files();
    assert!(files.contains(&"features.json".to_string()));
}

#[test]
fn test_determine_dependency_type_child() {
    let source = "/project/features/parent";
    let target = "/project/features/parent/child";
    assert!(matches!(
        determine_dependency_type(source, target),
        DependencyType::Child
    ));
}

#[test]
fn test_determine_dependency_type_parent() {
    let source = "/project/features/parent/child";
    let target = "/project/features/parent";
    assert!(matches!(
        determine_dependency_type(source, target),
        DependencyType::Parent
    ));
}

#[test]
fn test_determine_dependency_type_sibling() {
    let source = "/project/features/feature-a";
    let target = "/project/features/feature-b";
    assert!(matches!(
        determine_dependency_type(source, target),
        DependencyType::Sibling
    ));
}

#[test]
fn test_extract_comment_content_single_line() {
    let patterns = vec![CommentPattern::LineComment("//")];
    let line = "// This is a comment";
    assert_eq!(
        extract_comment_content(line, &patterns),
        Some("This is a comment".to_string())
    );
}

#[test]
fn test_extract_comment_content_block() {
    let patterns = vec![CommentPattern::BlockComment("/*", "*/")];
    let line = "/* This is a block comment */";
    assert_eq!(
        extract_comment_content(line, &patterns),
        Some("This is a block comment".to_string())
    );
}

#[test]
fn test_extract_comment_content_hash() {
    let patterns = vec![CommentPattern::LineComment("#")];
    let line = "# This is a Python comment";
    assert_eq!(
        extract_comment_content(line, &patterns),
        Some("This is a Python comment".to_string())
    );
}

#[test]
fn test_parse_properties() {
    let content = "feature:feature-1, type: experiment, owner: #owner, introduced_on: 2025-12-31";
    let props = parse_properties(content);

    assert_eq!(props.get("feature"), Some(&"feature-1".to_string()));
    assert_eq!(props.get("type"), Some(&"experiment".to_string()));
    assert_eq!(props.get("owner"), Some(&"#owner".to_string()));
    assert_eq!(props.get("introduced_on"), Some(&"2025-12-31".to_string()));
}

#[test]
fn test_check_line_for_feature_metadata_js_style() {
    let patterns = vec![CommentPattern::BlockComment("/*", "*/")];
    let line = "/** --feature-flag feature:feature-1, type: experiment, owner: #owner */";

    let result = check_line_for_feature_metadata(line, &patterns);
    assert!(result.is_some());

    let (metadata_key, props) = result.unwrap();
    assert_eq!(metadata_key, "flag");
    assert_eq!(props.get("feature"), Some(&"feature-1".to_string()));
    assert_eq!(props.get("type"), Some(&"experiment".to_string()));
}

#[test]
fn test_check_line_for_feature_metadata_rust_style() {
    let patterns = vec![CommentPattern::LineComment("//")];
    let line = "// --feature-flag feature:my-feature, enabled: true";

    let result = check_line_for_feature_metadata(line, &patterns);
    assert!(result.is_some());

    let (metadata_key, props) = result.unwrap();
    assert_eq!(metadata_key, "flag");
    assert_eq!(props.get("feature"), Some(&"my-feature".to_string()));
    assert_eq!(props.get("enabled"), Some(&"true".to_string()));
}

#[test]
fn test_check_line_for_feature_metadata_python_style() {
    let patterns = vec![CommentPattern::LineComment("#")];
    let line = "# --feature-flag feature:analytics, team: data-team";

    let result = check_line_for_feature_metadata(line, &patterns);
    assert!(result.is_some());

    let (metadata_key, props) = result.unwrap();
    assert_eq!(metadata_key, "flag");
    assert_eq!(props.get("feature"), Some(&"analytics".to_string()));
    assert_eq!(props.get("team"), Some(&"data-team".to_string()));
}

#[test]
fn test_no_feature_metadata_in_regular_comment() {
    let patterns = vec![CommentPattern::LineComment("//")];
    let line = "// This is just a regular comment";

    assert!(check_line_for_feature_metadata(line, &patterns).is_none());
}

#[test]
fn test_different_metadata_keys() {
    let patterns = vec![CommentPattern::LineComment("//")];

    let line1 = "// --feature-experiment feature:test-feature, status: active";
    let result1 = check_line_for_feature_metadata(line1, &patterns);
    assert!(result1.is_some());
    let (metadata_key1, _) = result1.unwrap();
    assert_eq!(metadata_key1, "experiment");

    let line2 = "// --feature-toggle feature:another-feature, enabled: true";
    let result2 = check_line_for_feature_metadata(line2, &patterns);
    assert!(result2.is_some());
    let (metadata_key2, _) = result2.unwrap();
    assert_eq!(metadata_key2, "toggle");
}

#[test]
fn test_extract_commit_type() {
    assert_eq!(extract_commit_type("feat: add new feature"), "feat");
    assert_eq!(extract_commit_type("fix: resolve bug"), "fix");
    assert_eq!(extract_commit_type("docs: update README"), "docs");
    assert_eq!(extract_commit_type("style: format code"), "style");
    assert_eq!(extract_commit_type("refactor: improve structure"), "refactor");
    assert_eq!(extract_commit_type("perf: optimize performance"), "perf");
    assert_eq!(extract_commit_type("test: add unit tests"), "test");
    assert_eq!(extract_commit_type("build: update dependencies"), "build");
    assert_eq!(extract_commit_type("ci: fix CI pipeline"), "ci");
    assert_eq!(extract_commit_type("chore: update gitignore"), "chore");
    assert_eq!(extract_commit_type("revert: undo previous commit"), "revert");

    assert_eq!(extract_commit_type("feat(auth): add login"), "feat");
    assert_eq!(extract_commit_type("fix(api): resolve endpoint issue"), "fix");
    assert_eq!(extract_commit_type("docs(readme): update instructions"), "docs");

    assert_eq!(extract_commit_type("FEAT: uppercase type"), "feat");
    assert_eq!(extract_commit_type("Fix: mixed case"), "fix");
    assert_eq!(extract_commit_type("DOCS: all caps"), "docs");

    assert_eq!(extract_commit_type("random commit message"), "other");
    assert_eq!(extract_commit_type("update: not conventional"), "other");
    assert_eq!(extract_commit_type("feature: close but not standard"), "other");
    assert_eq!(extract_commit_type("no colon here"), "other");
    assert_eq!(extract_commit_type(""), "other");

    assert_eq!(extract_commit_type("feat:no space after colon"), "feat");
    assert_eq!(extract_commit_type("feat  : extra spaces"), "feat");
    assert_eq!(extract_commit_type("feat(scope)(weird): nested parens"), "feat");
}

#[test]
fn test_extract_rust_import() {
    assert_eq!(
        extract_rust_import("use crate::models::Feature;"),
        Some("crate::models::Feature".to_string())
    );
    assert_eq!(
        extract_rust_import("use super::helper;"),
        Some("super::helper".to_string())
    );
    assert_eq!(
        extract_rust_import("use self::utils;"),
        Some("self::utils".to_string())
    );
}

#[test]
fn test_extract_javascript_import() {
    assert_eq!(
        extract_javascript_import("import { Feature } from './models';"),
        Some("./models".to_string())
    );
    assert_eq!(
        extract_javascript_import("const x = require('../utils');"),
        Some("../utils".to_string())
    );
    assert_eq!(
        extract_javascript_import("export { Feature } from './models';"),
        Some("./models".to_string())
    );
}

#[test]
fn test_extract_python_import() {
    assert_eq!(
        extract_python_import("from .models import Feature"),
        Some(".models".to_string())
    );
    assert_eq!(
        extract_python_import("from ..utils import helper"),
        Some("..utils".to_string())
    );
}

#[test]
fn test_extract_quoted_string() {
    assert_eq!(
        extract_quoted_string("\"./path/to/file\""),
        Some("./path/to/file".to_string())
    );
    assert_eq!(
        extract_quoted_string("'./path/to/file'"),
        Some("./path/to/file".to_string())
    );
}

#[test]
fn test_scan_config_builder() {
    let current_dir = "/tmp";
    let project_dir = "/project";

    let config = ScanConfig::new(current_dir)
        .skip_changes(true)
        .with_coverage(true)
        .project_dir(project_dir);

    assert!(config.skip_changes);
    assert!(config.should_add_coverage);
    assert!(config.project_dir.is_some());
}

#[test]
fn test_scan_config_defaults() {
    let current_dir = "/tmp";
    let config = ScanConfig::new(current_dir);

    assert!(!config.skip_changes);
    assert!(!config.should_add_coverage);
    assert!(config.coverage_dir_override.is_none());
    assert!(config.project_dir.is_none());
}
