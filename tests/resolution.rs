use features_cli::dependency::{owning_feature, resolve_feature_dependencies, DependencyType};
use features_cli::import_detector::{
    extract_c_include, extract_css_import, extract_go_import, extract_import,
    extract_javalike_import, extract_php_include, extract_ruby_require, extract_shell_source,
    get_import_pattern, ImportPattern, ImportStatement,
};
use features_cli::metadata::get_comment_patterns;
use features_cli::paths::{file_extension, path_starts_with};
use features_cli::readme::{
    extract_first_title, find_features_toml, is_decision_record, parse_readme, read_readme_content,
    split_commit_message,
};
use features_cli::resolver::resolve_import_path;
use features_cli::sources::{
    count_todo_lines, infer_feature_path_from_file, merge_metadata, metadata_for_feature,
    metadata_groups, scan_file_for_imports, scan_file_for_metadata,
};

fn strings(v: &[&str]) -> Vec<String> {
    v.iter().map(|s| s.to_string()).collect()
}

#[test]
fn relative_import_resolves_to_sibling_file() {
    let files = strings(&["features/a/index.ts", "features/a/sibling.ts"]);
    assert_eq!(
        resolve_import_path("./sibling", "features/a/index.ts", &files, None),
        Some("features/a/sibling.ts".to_string())
    );
    assert_eq!(resolve_import_path("./missing", "features/a/index.ts", &files, None), None);
}

#[test]
fn relative_import_resolution_order() {
    let files = strings(&[
        "features/a/index.ts",
        "features/b/index.js",
        "features/b.tsx",
        "features/c/mod.rs",
        "lib/x.go",
    ]);
    assert_eq!(
        resolve_import_path("../b", "features/a/index.ts", &files, None),
        Some("features/b/index.js".to_string())
    );
    assert_eq!(
        resolve_import_path("./../c", "features/a/index.ts", &files, None),
        Some("features/c/mod.rs".to_string())
    );
    assert_eq!(resolve_import_path("../../../x", "features/a/index.ts", &files, None), None);
    assert_eq!(
        resolve_import_path("lib/x", "features/a/index.ts", &files, None),
        Some("lib/x.go".to_string())
    );
    assert_eq!(resolve_import_path("react", "features/a/index.ts", &files, None), None);
}

#[test]
fn rust_module_paths_resolve() {
    let files = strings(&["src/models.rs", "src/net/mod.rs", "src/a/b.rs", "src/a/c.rs"]);
    assert_eq!(
        resolve_import_path("crate::models", "src/main.rs", &files, Some("src")),
        Some("src/models.rs".to_string())
    );
    assert_eq!(
        resolve_import_path("crate::net", "src/main.rs", &files, Some("src")),
        Some("src/net/mod.rs".to_string())
    );
    assert_eq!(
        resolve_import_path("super::a::c", "src/a/b.rs", &files, None),
        Some("src/a/c.rs".to_string())
    );
    assert_eq!(resolve_import_path("crate::models", "src/main.rs", &files, None), None);
}

#[test]
fn dependencies_between_features() {
    let files = strings(&[
        "features/parent/index.ts",
        "features/parent/util.ts",
        "features/parent/features/child/index.ts",
        "features/other/index.ts",
    ]);
    let features = strings(&["features/parent", "features/parent/features/child", "features/other"]);
    assert_eq!(
        owning_feature(&features, "features/parent/features/child/index.ts"),
        Some("features/parent/features/child".to_string())
    );
    let imp = |line: usize, path: &str| ImportStatement {
        file_path: "features/parent/index.ts".to_string(),
        line_number: line,
        line_content: format!("import x from '{}';", path),
        imported_path: path.to_string(),
    };
    let imports = vec![
        imp(1, "./features/child"),
        imp(2, "../other"),
        imp(3, "./util"),
        imp(4, "./missing"),
        imp(2, "../other/index"),
    ];
    let deps = resolve_feature_dependencies("features/parent", &imports, &features, &files, None);
    assert_eq!(deps.len(), 2);
    assert_eq!(deps[0].feature_path, "features/parent/features/child");
    assert_eq!(deps[0].target_filename, "features/parent/features/child/index.ts");
    assert!(matches!(deps[0].dependency_type, DependencyType::Child));
    assert_eq!(deps[1].feature_path, "features/other");
    assert_eq!(deps[1].line, 2);
    assert!(matches!(deps[1].dependency_type, DependencyType::Sibling));
}

#[test]
fn component_wise_containment() {
    assert!(path_starts_with("features/api/x.ts", "features/api"));
    assert!(!path_starts_with("features/api-v2/x.ts", "features/api"));
    assert!(path_starts_with("anything", ""));
    assert_eq!(file_extension("a/b/c.test.ts"), "ts");
    assert_eq!(file_extension("a/.env"), "");
    assert_eq!(file_extension("Makefile"), "");
}

#[test]
fn other_language_extractors() {
    assert_eq!(extract_go_import("import \"example.com/pkg/util\""), Some("example.com/pkg/util".to_string()));
    assert_eq!(extract_javalike_import("import com.example.Foo;"), Some("com.example.Foo".to_string()));
    assert_eq!(extract_javalike_import("import static com.example.Foo.bar;"), None);
    assert_eq!(extract_javalike_import("using System.Text;"), Some("System.Text".to_string()));
    assert_eq!(extract_javalike_import("using x = System.Text;"), None);
    assert_eq!(extract_c_include("#include \"local/file.h\""), Some("local/file.h".to_string()));
    assert_eq!(extract_c_include("#include <sys/types.h>"), Some("sys/types.h".to_string()));
    assert_eq!(extract_c_include("#include <stdio.h>"), None);
    assert_eq!(extract_ruby_require("require_relative 'lib/a'"), Some("lib/a".to_string()));
    assert_eq!(extract_ruby_require("require './b'"), Some("./b".to_string()));
    assert_eq!(extract_ruby_require("require 'json'"), None);
    assert_eq!(extract_php_include("require_once 'lib/a.php';"), Some("lib/a.php".to_string()));
    assert_eq!(extract_php_include("include \"b.php\";"), Some("b.php".to_string()));
    assert_eq!(extract_shell_source("source ./env.sh"), Some("./env.sh".to_string()));
    assert_eq!(extract_shell_source(". \"./lib.sh\""), Some("./lib.sh".to_string()));
    assert_eq!(extract_css_import("@import 'theme/base.css';"), Some("theme/base.css".to_string()));
    assert_eq!(extract_import("use crate::a::{B, C};", ImportPattern::Rust), Some("crate::a::".to_string()));
    assert_eq!(extract_import("import x from 'y';", ImportPattern::Python), None);
    assert_eq!(get_import_pattern("tsx"), Some(ImportPattern::JavaScript));
    assert_eq!(get_import_pattern("md"), None);
}

#[test]
fn scans_file_imports_with_line_numbers() {
    let lines = strings(&["// header", "  import { a } from './a';  ", "", "const b = require(\"../b\");"]);
    let imports = scan_file_for_imports("features/x/index.ts", &lines);
    assert_eq!(imports.len(), 2);
    assert_eq!(imports[0].line_number, 2);
    assert_eq!(imports[0].line_content, "import { a } from './a';");
    assert_eq!(imports[0].imported_path, "./a");
    assert_eq!(imports[1].line_number, 4);
    assert!(scan_file_for_imports("notes.md", &lines).is_empty());
}

#[test]
fn metadata_comment_lands_in_feature() {
    let lines = strings(&["const x = 1;", "// --feature-flag feature:f1, type: experiment"]);
    let entries = scan_file_for_metadata("features/f1/index.ts", &lines);
    assert_eq!(entries.len(), 1);
    assert_eq!(entries[0].0, "f1");
    assert_eq!(entries[0].1.metadata_key, "flag");
    assert_eq!(entries[0].1.line_number, 2);
    assert_eq!(entries[0].1.properties.get("feature"), Some(&"f1".to_string()));
    assert_eq!(entries[0].1.properties.get("type"), Some(&"experiment".to_string()));
    assert_eq!(metadata_for_feature(&entries, "features/f1"), vec![0]);
    assert!(metadata_for_feature(&entries, "features/f2").is_empty());
}

#[test]
fn metadata_without_feature_property_uses_location() {
    let lines = strings(&["# --feature-toggle status: on"]);
    let entries = scan_file_for_metadata("src/features/auth/run.py", &lines);
    assert_eq!(entries.len(), 1);
    assert_eq!(entries[0].0, "src/features/auth");
    assert!(scan_file_for_metadata("src/components/run.py", &lines).is_empty());
    assert_eq!(
        infer_feature_path_from_file("libs/features/api-v2/utils.ts"),
        Some("libs/features/api-v2".to_string())
    );
    assert_eq!(infer_feature_path_from_file("src/components/Button.tsx"), None);
    assert_eq!(get_comment_patterns("unknown").len(), 3);
}

#[test]
fn readme_title_and_description() {
    let text = "---\nowner: team-x\nfeature: true\n---\n# Payments\n\nHandles payments.\n## More\ntext\n";
    let r = parse_readme(text);
    assert_eq!(r.front_matter.as_deref(), Some("owner: team-x\nfeature: true"));
    assert_eq!(r.title.as_deref(), Some("Payments"));
    assert_eq!(r.description, "Handles payments.\n## More\ntext");
    assert_eq!(extract_first_title("intro\n#\n## Real title\n"), Some("Real title".to_string()));
    assert_eq!(extract_first_title("no heading"), None);
    assert_eq!(read_readme_content("# T\r\nline one\r\n"), "line one");
    assert_eq!(read_readme_content("nothing"), "");
}

#[test]
fn features_toml_lookup() {
    let names = strings(&["README.md", "FEATURES.toml"]);
    assert_eq!(find_features_toml("features/a", &names), Some("features/a/FEATURES.toml".to_string()));
    assert_eq!(find_features_toml("features/a", &strings(&["README.md"])), None);
}

#[test]
fn todo_lines_are_counted_case_insensitively() {
    let lines = strings(&["// TODO: a", "// todo b", "fine", "ToDo twice todo"]);
    assert_eq!(count_todo_lines(&lines), 3);
}

#[test]
fn metadata_grouped_by_key() {
    let lines = strings(&[
        "// --feature-flag feature:f1, type: experiment",
        "// --feature-owner feature:f1, team: core",
        "// --feature-flag feature:f1, type: stable",
        "// --feature-flag feature:f2, type: other",
    ]);
    let entries = scan_file_for_metadata("features/f1/a.ts", &lines);
    assert_eq!(entries.len(), 4);
    let groups = metadata_groups(&entries, "features/f1");
    assert_eq!(groups.len(), 2);
    assert_eq!(groups[0].key, "flag");
    assert_eq!(groups[0].entries, vec![0, 2]);
    assert_eq!(groups[1].key, "owner");
    assert_eq!(groups[1].entries, vec![1]);
}

#[test]
fn content_types_by_extension() {
    assert_eq!(features_cli::config::get_content_type("index.HTML"), "text/html; charset=utf-8");
    assert_eq!(features_cli::config::get_content_type("a/b/logo.jpeg"), "image/jpeg");
    assert_eq!(features_cli::config::get_content_type("fonts/x.woff2"), "font/woff2");
    assert_eq!(features_cli::config::get_content_type("archive.tar.gz"), "application/octet-stream");
    assert_eq!(features_cli::config::get_content_type("README"), "application/octet-stream");
}

#[test]
fn decision_records_are_markdown_files() {
    assert!(is_decision_record("0001-use-rust.md"));
    assert!(!is_decision_record("README.md"));
    assert!(!is_decision_record("notes.txt"));
}

#[test]
fn nearest_features_folder_wins() {
    assert_eq!(
        infer_feature_path_from_file("features/a/features/b/x.ts"),
        Some("features/a/features/b".to_string())
    );
    assert_eq!(infer_feature_path_from_file("src/features"), None);
}

#[test]
fn commit_message_title_and_description() {
    assert_eq!(
        split_commit_message("feat: add x\n\n  Body line one\nline two\n"),
        ("feat: add x".to_string(), "Body line one\nline two".to_string())
    );
    assert_eq!(split_commit_message("fix: only"), ("fix: only".to_string(), String::new()));
    assert_eq!(split_commit_message(""), (String::new(), String::new()));
}

#[test]
fn directory_import_tries_only_index_files() {
    let files = strings(&["features/utils/helpers.ts", "features/utils.ts", "features/a.ts"]);
    assert_eq!(resolve_import_path("./utils", "features/a.ts", &files, None), None);
    assert_eq!(
        resolve_import_path("./utils/helpers", "features/a.ts", &files, None),
        Some("features/utils/helpers.ts".to_string())
    );
    let with_index = strings(&["features/utils/index.ts", "features/utils.ts"]);
    assert_eq!(
        resolve_import_path("./utils", "features/a.ts", &with_index, None),
        Some("features/utils/index.ts".to_string())
    );
}

#[test]
fn comment_metadata_merges_after_declared_keys() {
    let lines = strings(&[
        "// --feature-flag feature:f1, type: experiment",
        "// --feature-owner feature:f1, team: core",
    ]);
    let entries = scan_file_for_metadata("features/f1/a.ts", &lines);
    let groups = metadata_groups(&entries, "features/f1");
    let slots = merge_metadata(&strings(&["status", "flag"]), &groups);
    assert_eq!(slots.len(), 3);
    assert_eq!((slots[0].key.as_str(), slots[0].existing), ("status", Some(0)));
    assert!(slots[0].entries.is_empty());
    assert_eq!((slots[1].key.as_str(), slots[1].existing), ("flag", Some(1)));
    assert_eq!(slots[1].entries, vec![0]);
    assert_eq!((slots[2].key.as_str(), slots[2].existing), ("owner", None));
    assert_eq!(slots[2].entries, vec![1]);
}
