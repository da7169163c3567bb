use tinyvector::github::{Document, GitHubParser, Source, Tree, TreeResponse, TreeType};
use tinyvector::text::{has_prefix, has_suffix, same_text};

fn source(ext: &[&str], allowed: &[&str], ignored: &[&str]) -> Source {
    Source {
        id: 1,
        collection_id: 1,
        owner: "hashicorp".to_string(),
        repo: "terraform-provider-aws".to_string(),
        branch: "main".to_string(),
        allowed_ext: ext.iter().map(|s| s.to_string()).collect(),
        allowed_dirs: allowed.iter().map(|s| s.to_string()).collect(),
        ignored_dirs: ignored.iter().map(|s| s.to_string()).collect(),
    }
}

fn entry(path: &str, tree_type: TreeType) -> Tree {
    Tree {
        path: path.to_string(),
        mode: "100644".to_string(),
        tree_type,
        sha: String::new(),
        size: None,
        url: String::new(),
    }
}

#[test]
fn prefix_and_suffix() {
    assert!(has_prefix("website/docs/r/x.md", "website/"));
    assert!(has_prefix("abc", ""));
    assert!(has_prefix("abc", "abc"));
    assert!(!has_prefix("abc", "abcd"));
    assert!(!has_prefix("abc", "b"));
    assert!(has_suffix("x.html.markdown", ".markdown"));
    assert!(has_suffix("abc", ""));
    assert!(!has_suffix("abc", "ab"));
    assert!(!has_suffix("bc", "abc"));
    assert!(has_prefix("ñandú", "ñ"));
    assert!(has_suffix("ñandú", "ú"));
}

#[test]
fn same_text_compares_whole_texts() {
    assert!(same_text("default", "default"));
    assert!(same_text("", ""));
    assert!(!same_text("default", "defaul"));
    assert!(!same_text("default", "defaulT"));
    assert!(!same_text("a", ""));
    assert!(same_text("ñandú", "ñandú"));
    assert!(!same_text("ñandú", "nandu"));
}

#[test]
fn target_file_rules() {
    let s = source(&[".md", ".markdown"], &["website/"], &["website/docs/d"]);
    let p = GitHubParser::new(1, &s);
    assert!(p.is_target_file("website/docs/r/xray_group.html.markdown"));
    assert!(p.is_target_file("website/index.md"));
    assert!(!p.is_target_file("website/docs/d/acm.html.markdown"));
    assert!(!p.is_target_file("internal/readme.md"));
    assert!(!p.is_target_file("website/docs/r/main.go"));
}

#[test]
fn target_file_without_rules_accepts_everything() {
    let s = source(&[], &[], &[]);
    let p = GitHubParser::new(1, &s);
    assert!(p.is_target_file("anything"));
    assert!(p.is_target_file(""));
}

#[test]
fn target_file_must_lie_under_every_allowed_directory() {
    let s = source(&[], &["a/", "a/b/"], &[]);
    let p = GitHubParser::new(1, &s);
    assert!(p.is_target_file("a/b/c.md"));
    assert!(!p.is_target_file("a/c.md"));
}

#[test]
fn filter_paths_keeps_order() {
    let s = source(&[".md"], &[], &["skip/"]);
    let files = vec![
        "b.md".to_string(),
        "skip/a.md".to_string(),
        "a.txt".to_string(),
        "a.md".to_string(),
    ];
    let p = GitHubParser::new(1, &s);
    assert_eq!(p.filter_paths(files), vec!["b.md".to_string(), "a.md".to_string()]);
    assert_eq!(p.filter_paths(Vec::new()), Vec::<String>::new());
}

#[test]
fn target_paths_leave_directories_out() {
    let s = source(&[".md"], &[], &[]);
    let listing = TreeResponse {
        sha: "abc".to_string(),
        url: String::new(),
        tree: vec![
            entry("docs.md", TreeType::Tree),
            entry("docs.md/a.md", TreeType::Blob),
            entry("main.rs", TreeType::Blob),
            entry("z.md", TreeType::Blob),
        ],
        truncated: false,
    };
    let p = GitHubParser::new(1, &s);
    assert_eq!(p.target_paths(&listing), vec!["docs.md/a.md".to_string(), "z.md".to_string()]);
}

#[test]
fn routes_of_a_source() {
    let s = source(&[], &[], &[]);
    let p = GitHubParser::new(7, &s);
    assert_eq!(
        p.tree_route(),
        "/repos/hashicorp/terraform-provider-aws/git/trees/main?recursive='true'"
    );
    assert_eq!(
        p.content_url("website/docs/r/xray_group.html.markdown"),
        "https://raw.githubusercontent.com/hashicorp/terraform-provider-aws/main/website/docs/r/xray_group.html.markdown"
    );
}

#[test]
fn document_carries_the_checksum_of_its_data() {
    let mut s = source(&[], &[], &[]);
    s.id = 42;
    let p = GitHubParser::new(7, &s);
    let d = p.document("a.md".to_string(), "123456789".to_string(), 3);
    assert_eq!(d.id, 0);
    assert_eq!(d.source_id, 42);
    assert_eq!(d.collection_id, 7);
    assert_eq!(d.path, "a.md");
    assert_eq!(d.checksum, 0xcbf4_3926);
    assert_eq!(d.tokens_len, 3);
    assert_eq!(d.data, "123456789");
    let empty = p.document("b.md".to_string(), String::new(), 0);
    assert_eq!(empty.checksum, 0);
    let made = Document::new(1, 2, "p".to_string(), 5, 6, "d".to_string());
    assert_eq!((made.id, made.source_id, made.collection_id, made.checksum, made.tokens_len), (0, 1, 2, 5, 6));
}
