use ripsync::error::{Error, FilterError};
use ripsync::filter::{Filter, FilterBuilder};

fn excluded(f: &Filter, rel: &str, is_dir: bool) -> bool {
    f.is_excluded(rel, is_dir)
}

#[test]
fn empty_includes_everything() {
    let f = Filter::none();
    assert!(!excluded(&f, "a/b.txt", false));
}

#[test]
fn include_only_idiom() {
    let mut b = FilterBuilder::default();
    b.add_include("*.rs");
    b.exclude("*");
    let f = b.build().unwrap();
    assert!(!excluded(&f, "src/main.rs", false));
    assert!(excluded(&f, "src/notes.txt", false));
    assert!(!excluded(&f, "src", true)); // dirs always kept
}

#[test]
fn exclude_subtree() {
    let mut b = FilterBuilder::default();
    b.exclude("node_modules");
    let f = b.build().unwrap();
    assert!(excluded(&f, "node_modules/pkg/index.js", false));
    assert!(excluded(&f, "a/node_modules/x.js", false));
    assert!(!excluded(&f, "src/index.js", false));
}

#[test]
fn filter_rules_ordered() {
    let mut b = FilterBuilder::default();
    b.filter_rule("+ keep.log").unwrap();
    b.filter_rule("- *.log").unwrap();
    let f = b.build().unwrap();
    assert!(!excluded(&f, "keep.log", false));
    assert!(excluded(&f, "other.log", false));
}

#[test]
fn files_from_allowlist() {
    let mut b = FilterBuilder::default();
    b.files_from(vec!["a/keep.txt".to_string()]);
    let f = b.build().unwrap();
    assert!(!excluded(&f, "a/keep.txt", false));
    assert!(excluded(&f, "a/drop.txt", false));
    assert!(!excluded(&f, "a", true));
}

#[test]
fn filter_rules_outrank_includes_and_excludes() {
    let mut b = FilterBuilder::default();
    b.exclude("*.txt");
    b.add_include("*.txt");
    b.filter_rule("- secret.txt").unwrap();
    let f = b.build().unwrap();
    assert!(excluded(&f, "secret.txt", false));
    assert!(!excluded(&f, "notes.txt", false));
    assert!(!f.is_empty());
    assert!(Filter::none().is_empty());
    assert!(FilterBuilder::default().build().unwrap().is_empty());
}

#[test]
fn malformed_filter_rules_are_refused() {
    let mut b = FilterBuilder::default();
    assert!(matches!(b.filter_rule("keep.log"), Err(Error::Filter(FilterError::MissingPattern(_)))));
    assert!(matches!(b.filter_rule("* keep.log"), Err(Error::Filter(FilterError::BadSign(_)))));
    assert!(matches!(b.filter_rule("   "), Err(Error::Filter(FilterError::MissingPattern(_)))));
    // A refused rule leaves the builder as it was.
    assert!(b.build().unwrap().is_empty());
}

#[test]
fn invalid_glob_fails_the_build() {
    let mut b = FilterBuilder::default();
    b.exclude("a[");
    assert!(matches!(b.build(), Err(Error::Filter(FilterError::InvalidPattern(_)))));
}

#[test]
fn excluded_parent_directory_excludes_what_is_below() {
    let mut b = FilterBuilder::default();
    b.exclude("build");
    let f = b.build().unwrap();
    assert!(excluded(&f, "build", false));
    assert!(excluded(&f, "build/out/x.o", false));
    assert!(!excluded(&f, "builds/x", false));
    assert!(!excluded(&f, "build", true));
}

#[test]
fn exclude_set_matches_at_the_root_and_nested() {
    let ex = ripsync::filter::build_excludes(&vec!["*.log".to_string(), "target".to_string()]).unwrap();
    assert!(ex.matches("skip.log"));
    assert!(ex.matches("nested/deep.log"));
    assert!(ex.matches("target"));
    assert!(ex.matches("a/target"));
    assert!(!ex.matches("keep.txt"));
    // Only the entry itself matches, not what lies below it.
    assert!(!ex.matches("target/debug"));
    let none = ripsync::filter::build_excludes(&Vec::new()).unwrap();
    assert!(!none.matches("anything"));
}

#[test]
fn exclude_set_names_a_bad_glob() {
    match ripsync::filter::build_excludes(&vec!["ok".to_string(), "a[".to_string()]) {
        Err(Error::Filter(FilterError::InvalidPattern(g))) => assert_eq!(g, "a["),
        other => panic!("expected an invalid pattern, got {:?}", other.err()),
    }
}

#[test]
fn files_from_lists_one_path_per_line() {
    use_list("a/keep.txt\n\n# comment\n  b  \r\nc", &["a/keep.txt", "b", "c"]);
    use_list("", &[]);
    use_list("\n\n", &[]);
    use_list("only\n", &["only"]);
    use_list("  #not a comment?\nx # y\n", &["x # y"]);
}

fn use_list(text: &str, expected: &[&str]) {
    let got = ripsync::filter::files_from_list(text);
    assert_eq!(got, expected.iter().map(|s| s.to_string()).collect::<Vec<_>>(), "{text:?}");
}

#[test]
fn files_from_trims_unicode_whitespace() {
    let ws: Vec<char> = (0u32..0x3001).filter_map(char::from_u32).filter(|c| c.is_whitespace()).collect();
    for c in ws {
        let text = format!("{c}a b{c}\n{c}\n");
        assert_eq!(ripsync::filter::files_from_list(&text), vec!["a b".to_string()], "{:?}", c);
    }
    assert_eq!(ripsync::filter::files_from_list("\u{200b}x\n"), vec!["\u{200b}x".to_string()]);
}

#[test]
fn allowlist_compares_as_paths() {
    let mut b = FilterBuilder::default();
    let many: Vec<String> = (0..500).map(|i| format!("d{i}/f.txt")).collect();
    b.files_from(many);
    let f = b.build().unwrap();
    assert!(!excluded(&f, "d7/f.txt", false));
    assert!(!excluded(&f, "d7//f.txt", false));
    assert!(!excluded(&f, "d499/f.txt/", false));
    assert!(excluded(&f, "d500/f.txt", false));
    assert!(excluded(&f, "d7/f.tx", false));
}
