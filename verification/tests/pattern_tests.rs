use file_tools::collect::{discover_by_glob, discover_by_walk};
use file_tools::pattern::{
    extract_base_path, extract_glob_pattern, matches_pattern, normalize_glob_pattern,
    split_for_walk,
};
use file_tools::pathparse::parse_path_components;
use file_tools::errors::CollectError;

#[test]
fn test_glob_pattern_matching() {
    // Test that different glob patterns return different results
    let pattern1 = "src/*.rs";
    let pattern2 = "Cargo.*";

    let files1 = discover_by_glob(pattern1, false, &Vec::new()).unwrap_or_default();
    let files2 = discover_by_glob(pattern2, false, &Vec::new()).unwrap_or_default();

    let mut paths1 = files1.clone();
    let mut paths2 = files2.clone();
    paths1.sort();
    paths2.sort();

    println!("Pattern '{}' returned {} files", pattern1, paths1.len());
    println!("Pattern '{}' returned {} files", pattern2, paths2.len());

    assert_ne!(
        paths1, paths2,
        "Different patterns '{}' and '{}' should return different file lists",
        pattern1, pattern2
    );
}

#[test]
fn discovery_strategies_agree_on_flat_tree() {
    let excludes: Vec<String> = Vec::new();
    let mut by_glob = discover_by_glob("src/*.rs", false, &excludes).unwrap();
    let mut by_walk = discover_by_walk("src/*.rs", false, true, &excludes).unwrap();
    by_glob.sort();
    by_walk.sort();
    assert!(!by_glob.is_empty(), "the library's own sources should match");
    assert_eq!(by_glob, by_walk);
    // for this clean base the walker happens to yield paths under it
    assert!(by_walk.iter().all(|p| p.starts_with("src")));
}

#[test]
fn discovery_is_stable_on_an_unchanged_tree() {
    let excludes: Vec<String> = Vec::new();
    let first = discover_by_glob("src/*.rs", false, &excludes).unwrap();
    let second = discover_by_glob("src/*.rs", false, &excludes).unwrap();
    assert_eq!(first, second, "expansion order is stable within one filesystem state");
}

#[test]
fn empty_match_is_not_an_error() {
    let excludes: Vec<String> = Vec::new();
    let by_glob = discover_by_glob("nonexistent_dir/*.xyz", false, &excludes).unwrap();
    assert!(by_glob.is_empty());
    let by_walk = discover_by_walk("nonexistent_dir/*.xyz", false, true, &excludes).unwrap();
    assert!(by_walk.is_empty());
}

#[test]
fn malformed_patterns_are_fatal_to_the_query() {
    let excludes: Vec<String> = Vec::new();
    assert!(matches!(
        discover_by_glob("[", false, &excludes),
        Err(CollectError::InvalidPattern)
    ));
    assert!(matches!(
        discover_by_walk("[", false, true, &excludes),
        Err(CollectError::InvalidPattern)
    ));
}

#[test]
fn case_insensitive_discovery_folds_both_sides() {
    let excludes: Vec<String> = Vec::new();
    let mut by_glob = discover_by_glob("src/*.RS", true, &excludes).unwrap();
    let mut by_walk = discover_by_walk("src/*.RS", true, true, &excludes).unwrap();
    by_glob.sort();
    by_walk.sort();
    assert!(!by_glob.is_empty(), "case folding should still match the sources");
    assert_eq!(by_glob, by_walk);
    // case-sensitive, the same pattern matches nothing
    let strict = discover_by_glob("src/*.RS", false, &excludes).unwrap();
    assert!(strict.is_empty());
}

#[test]
fn normalize_appends_wildcard_after_recursive_marker() {
    assert_eq!(normalize_glob_pattern("/path/**"), "/path/**/*");
    assert_eq!(normalize_glob_pattern("dir\\**"), "dir\\**\\*");
    assert_eq!(normalize_glob_pattern("src/*.rs"), "src/*.rs");
    assert_eq!(normalize_glob_pattern("a/**/b"), "a/**/b");
    assert_eq!(normalize_glob_pattern(""), "");
}

#[test]
fn base_path_stops_at_first_glob_character() {
    assert_eq!(extract_base_path("src/*.rs"), "src");
    assert_eq!(extract_base_path("/a/b/*.txt"), "/a/b");
    assert_eq!(extract_base_path("*.rs"), ".");
    assert_eq!(extract_base_path("/x*"), "/");
    assert_eq!(extract_base_path("plain/path"), "plain/path");
    assert_eq!(extract_glob_pattern("src/*.rs"), "src/*.rs");
}

#[test]
fn split_for_walk_roots_the_traversal() {
    assert_eq!(split_for_walk("src/*.rs"), ("src".to_string(), "src/*.rs".to_string()));
    assert_eq!(split_for_walk("**/x"), (".".to_string(), "**/x".to_string()));
    assert_eq!(split_for_walk("/home/**"), ("/home".to_string(), "/home/**".to_string()));
    assert_eq!(split_for_walk("name"), (".".to_string(), "name".to_string()));
    assert_eq!(split_for_walk("/**"), ("/".to_string(), "/**".to_string()));
    // the base never holds a glob metacharacter: the deepest glob-free
    // ancestor roots the walk
    assert_eq!(split_for_walk("a*/b.txt"), (".".to_string(), "a*/b.txt".to_string()));
    assert_eq!(split_for_walk("/a/b*/c"), ("/a".to_string(), "/a/b*/c".to_string()));
}

#[test]
fn simplified_matcher_handles_three_shapes() {
    // one recursive marker: prefix and suffix around it
    assert!(matches_pattern("src/a/b.rs", "src/**"));
    assert!(matches_pattern("deep/tree/file.txt", "**/file.txt"));
    assert!(!matches_pattern("deep/tree/file.md", "**/file.txt"));
    // one wildcard: prefix and suffix around it
    assert!(matches_pattern("src/lib.rs", "src/*.rs"));
    assert!(!matches_pattern("src/lib.md", "src/*.rs"));
    // no wildcard: exact equality
    assert!(matches_pattern("Cargo.toml", "Cargo.toml"));
    assert!(!matches_pattern("Cargo.toml", "Cargo.tom"));
}

#[test]
fn test_path_parsing() {
    // Test basic path parsing functionality
    let result = parse_path_components("archive.tar.gz");
    assert!(result.is_ok(), "Should successfully parse simple filename");

    let components = result.unwrap();
    assert_eq!(components.name, "archive.tar.gz");
    assert_eq!(components.stem, "archive.tar");
    assert_eq!(components.suffix, ".gz");
    assert_eq!(components.suffixes, vec![".tar", ".gz"]);
    assert!(!components.is_absolute);

    // Test absolute path
    let result = parse_path_components("/home/user/file.txt");
    assert!(result.is_ok(), "Should successfully parse absolute path");

    let components = result.unwrap();
    assert_eq!(components.name, "file.txt");
    assert_eq!(components.suffix, ".txt");
    assert_eq!(components.suffixes, vec![".txt"]);
    assert_eq!(components.parts, vec!["home", "user", "file.txt"]);
    assert_eq!(components.root, "/");
    assert!(components.is_absolute);

    // Test empty string
    let result = parse_path_components("");
    assert!(result.is_ok(), "Should handle empty string");
    let components = result.unwrap();
    assert_eq!(components.name, "");
    assert!(!components.is_absolute);
}

#[test]
fn parent_and_anchor_compose() {
    let c = parse_path_components("/home/user/file.txt").unwrap();
    assert_eq!(c.parent, "/home/user");
    assert_eq!(c.anchor, "/");
    assert_eq!(c.drive, "");
    let c = parse_path_components("file.txt").unwrap();
    assert_eq!(c.parent, "");
    let c = parse_path_components("/file.txt").unwrap();
    assert_eq!(c.parent, "/");
    let c = parse_path_components(".hidden").unwrap();
    assert_eq!(c.stem, ".hidden");
    assert_eq!(c.suffix, "");
    assert!(c.suffixes.is_empty());
}
