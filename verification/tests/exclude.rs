use std::path::Path;
use tokei::exclude::ExcludeMatcher;

fn excludes(patterns: &[&str], path: &str) -> bool {
    let matcher = ExcludeMatcher::new(patterns);
    let excluded = matcher.is_excluded(Path::new(path));
    assert_eq!(matcher.keeps(Path::new(path)), !excluded);
    excluded
}

fn strings(texts: &[&str]) -> Vec<String> {
    texts.iter().map(|text| text.to_string()).collect()
}

#[test]
fn names_are_excluded_at_every_level() {
    assert!(excludes(&["vendor"], "vendor"));
    assert!(excludes(&["vendor"], "src/vendor/lib.rs"));
    assert!(excludes(&["vendor"], "/home/Vendor/src"));
    assert!(!excludes(&["vendor"], "src/vendors/lib.rs"));
}

#[test]
fn wildcards_apply_to_single_components() {
    assert!(excludes(&["test_*"], "src/test_foo/main.rs"));
    assert!(!excludes(&["s*s"], "src/tests_a/main"));
    assert!(excludes(&["*.rs"], "src/main.rs"));
}

#[test]
fn patterns_with_a_slash_apply_to_the_whole_path() {
    assert!(excludes(&["*/vendor"], "src/vendor"));
    assert!(!excludes(&["*/vendor"], "src/vendor/lib.rs"));
    assert!(excludes(&["src/*.rs"], "src/a/b.rs"));
    assert!(!excludes(&["src/*.rs"], "./src/a.rs"));
}

#[test]
fn leading_slashes_of_a_pattern_are_dropped() {
    assert!(excludes(&["/src/*"], "src/main.rs"));
    assert!(excludes(&["///src/*"], "src/main.rs"));
    assert!(excludes(&["/src"], "src"));
    assert!(!excludes(&["/src"], "lib/src"));
    assert!(!excludes(&["/src"], "/src"));
    assert!(!excludes(&["/"], "src"));
}

#[test]
fn each_pattern_counts_in_any_order() {
    assert!(excludes(&["a", "x/y", "b"], "c/b"));
    assert!(excludes(&["b", "a", "x/y"], "c/b"));
    assert!(excludes(&["a", "x/y", "b"], "x/y"));
    assert!(!excludes(&["a", "x/y"], "c/b"));
    assert!(!excludes(&[], "c/b"));
}

#[test]
fn components_are_normalised() {
    assert!(!excludes(&["."], "a/./b"));
    assert!(excludes(&["."], "./a"));
    assert!(excludes(&[".."], "a/../b"));
    assert!(!excludes(&["?*"], ""));
}

#[test]
fn components_and_text_are_looked_at_as_given() {
    let matcher = ExcludeMatcher::new(&["vendor", "a/*"]);
    assert!(matcher.excludes(&strings(&["x", "VENDOR"]), ""));
    assert!(matcher.excludes(&strings(&["x"]), "A/b"));
    assert!(!matcher.excludes(&strings(&["x", "a/b"]), "vendor"));
    assert!(!matcher.excludes(&strings(&[]), "b/a"));
}

#[test]
fn case_matters_nowhere() {
    assert_eq!(excludes(&["Src/*", "LIB"], "sRC/Main.rs"), excludes(&["src/*", "lib"], "src/main.rs"));
    assert!(excludes(&["Src/*", "LIB"], "sRC/Main.rs"));
    assert!(excludes(&["Src/*", "LIB"], "x/lIb"));
}
