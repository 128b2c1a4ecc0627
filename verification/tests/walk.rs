use std::collections::BTreeMap;
use std::io::Write;
use std::path::{Path, PathBuf};
use tempfile::{Builder, TempDir};
use tokei::config::{Config, LanguageType};
use tokei::path::get_extension;
use tokei::tally::{process, Language};
use tokei::walk::{build_walker, hands_on, IGNORE_FILE};

const FILE_CONTENTS: &[u8] = b"fn main() {}";
const FILE_NAME: &str = "main.rs";
const IGNORE_PATTERN: &[u8] = b"*.rs";
const LANGUAGE: &LanguageType = &1;

type Languages = BTreeMap<LanguageType, Language<PathBuf>>;

fn create_dir(parent: &Path, name: &str) -> PathBuf {
    Builder::new()
        .prefix(name)
        .rand_bytes(0)
        .tempdir_in(parent)
        .expect("Couldn't create dir")
        .keep()
}

fn write(parent: &Path, name: &str, contents: &[u8]) {
    let mut file = Builder::new()
        .prefix(name)
        .rand_bytes(0)
        .tempfile_in(parent)
        .expect("Couldn't create file");
    file.write_all(contents).expect("Couldn't write file");
    file.keep().expect("Couldn't keep file");
}

fn recognise(path: &Path) -> Option<LanguageType> {
    match get_extension(path) {
        Some(extension) if extension == "rs" => Some(*LANGUAGE),
        _ => None,
    }
}

fn get_all_files_under(roots: &[PathBuf], ignored: &[&str], languages: &mut Languages, config: &Config) {
    for entry in build_walker(roots, ignored, config).build() {
        let entry = entry.expect("Couldn't read entry");
        if hands_on(entry.file_type().map(|kind| kind.is_file())) {
            if let Some(language) = config.select(recognise(entry.path())) {
                let result = Ok::<PathBuf, ()>(entry.into_path());
                process(languages, language, result, false)
                    .expect("Couldn't enter report");
            }
        }
    }
}

fn get_all_files(dir: &Path, ignored: &[&str], languages: &mut Languages, config: &Config) {
    get_all_files_under(&[dir.to_path_buf()], ignored, languages, config);
}

#[test]
fn ignore_directory_with_extension() {
    let mut languages = Languages::new();
    let tmp_dir = TempDir::new().expect("Couldn't create temp dir");
    create_dir(tmp_dir.path(), "directory.rs");

    get_all_files(tmp_dir.path(), &[], &mut languages, &Config::default());

    assert!(languages.get(LANGUAGE).is_none());
}

#[test]
fn hidden() {
    let dir = TempDir::new().expect("Couldn't create temp dir.");
    let mut config = Config::default();
    let mut languages = Languages::new();

    write(dir.path(), ".hidden.rs", FILE_CONTENTS);

    get_all_files(dir.path(), &[], &mut languages, &config);
    assert!(languages.get(LANGUAGE).is_none());

    config.hidden = Some(true);

    get_all_files(dir.path(), &[], &mut languages, &config);
    assert!(languages.get(LANGUAGE).is_some());
}

#[test]
fn no_ignore_implies_dot() {
    let dir = TempDir::new().expect("Couldn't create temp dir.");
    let mut config = Config::default();
    let mut languages = Languages::new();

    write(dir.path(), ".ignore", IGNORE_PATTERN);
    write(dir.path(), FILE_NAME, FILE_CONTENTS);

    get_all_files(dir.path(), &[], &mut languages, &config);
    assert!(languages.get(LANGUAGE).is_none());

    config.no_ignore = Some(true);

    get_all_files(dir.path(), &[], &mut languages, &config);
    assert!(languages.get(LANGUAGE).is_some());
}

#[test]
fn no_ignore_implies_vcs_gitignore() {
    let dir = TempDir::new().expect("Couldn't create temp dir.");
    let mut config = Config::default();
    let mut languages = Languages::new();

    create_dir(dir.path(), ".git");
    write(dir.path(), ".gitignore", IGNORE_PATTERN);
    write(dir.path(), FILE_NAME, FILE_CONTENTS);

    get_all_files(dir.path(), &[], &mut languages, &config);
    assert!(languages.get(LANGUAGE).is_none());

    config.no_ignore = Some(true);

    get_all_files(dir.path(), &[], &mut languages, &config);
    assert!(languages.get(LANGUAGE).is_some());
}

#[test]
fn no_ignore_parent() {
    let parent_dir = TempDir::new().expect("Couldn't create temp dir.");
    let mut config = Config::default();
    let mut languages = Languages::new();

    create_dir(parent_dir.path(), "child");
    let child_dir = parent_dir.path().join("child/");
    write(parent_dir.path(), ".ignore", IGNORE_PATTERN);
    write(&child_dir, FILE_NAME, FILE_CONTENTS);

    get_all_files(&child_dir, &[], &mut languages, &config);
    assert!(languages.get(LANGUAGE).is_none());

    config.no_ignore_parent = Some(true);

    get_all_files(&child_dir, &[], &mut languages, &config);
    assert!(languages.get(LANGUAGE).is_some());
}

#[test]
fn no_ignore_dot() {
    let dir = TempDir::new().expect("Couldn't create temp dir.");
    let mut config = Config::default();
    let mut languages = Languages::new();

    write(dir.path(), ".ignore", IGNORE_PATTERN);
    write(dir.path(), FILE_NAME, FILE_CONTENTS);

    get_all_files(dir.path(), &[], &mut languages, &config);
    assert!(languages.get(LANGUAGE).is_none());

    config.no_ignore_dot = Some(true);

    get_all_files(dir.path(), &[], &mut languages, &config);
    assert!(languages.get(LANGUAGE).is_some());
}

#[test]
fn no_ignore_dot_still_vcs_gitignore() {
    let dir = TempDir::new().expect("Couldn't create temp dir.");
    let mut config = Config::default();
    let mut languages = Languages::new();

    create_dir(dir.path(), ".git");
    write(dir.path(), ".gitignore", IGNORE_PATTERN);
    write(dir.path(), FILE_NAME, FILE_CONTENTS);

    config.no_ignore_dot = Some(true);

    get_all_files(dir.path(), &[], &mut languages, &config);
    assert!(languages.get(LANGUAGE).is_none());
}

#[test]
fn no_ignore_dot_includes_custom_ignore() {
    let dir = TempDir::new().expect("Couldn't create temp dir.");
    let mut config = Config::default();
    let mut languages = Languages::new();

    write(dir.path(), IGNORE_FILE, IGNORE_PATTERN);
    write(dir.path(), FILE_NAME, FILE_CONTENTS);

    get_all_files(dir.path(), &[], &mut languages, &config);
    assert!(languages.get(LANGUAGE).is_none());

    config.no_ignore_dot = Some(true);

    get_all_files(dir.path(), &[], &mut languages, &config);
    assert!(languages.get(LANGUAGE).is_some());
}

#[test]
fn no_ignore_vcs_gitignore() {
    let dir = TempDir::new().expect("Couldn't create temp dir.");
    let mut config = Config::default();
    let mut languages = Languages::new();

    create_dir(dir.path(), ".git");
    write(dir.path(), ".gitignore", IGNORE_PATTERN);
    write(dir.path(), FILE_NAME, FILE_CONTENTS);

    get_all_files(dir.path(), &[], &mut languages, &config);
    assert!(languages.get(LANGUAGE).is_none());

    config.no_ignore_vcs = Some(true);

    get_all_files(dir.path(), &[], &mut languages, &config);
    assert!(languages.get(LANGUAGE).is_some());
}

#[test]
fn no_ignore_vcs_gitignore_still_dot() {
    let dir = TempDir::new().expect("Couldn't create temp dir.");
    let mut config = Config::default();
    let mut languages = Languages::new();

    write(dir.path(), ".ignore", IGNORE_PATTERN);
    write(dir.path(), FILE_NAME, FILE_CONTENTS);

    config.no_ignore_vcs = Some(true);

    get_all_files(dir.path(), &[], &mut languages, &config);
    assert!(languages.get(LANGUAGE).is_none());
}

#[test]
fn no_ignore_vcs_gitexclude() {
    let dir = TempDir::new().expect("Couldn't create temp dir.");
    let mut config = Config::default();
    let mut languages = Languages::new();

    let git_dir = create_dir(dir.path(), ".git");
    let info_dir = create_dir(&git_dir, "info");
    write(&info_dir, "exclude", IGNORE_PATTERN);
    write(dir.path(), FILE_NAME, FILE_CONTENTS);

    get_all_files(dir.path(), &[], &mut languages, &config);
    assert!(languages.get(LANGUAGE).is_none());

    config.no_ignore_vcs = Some(true);

    get_all_files(dir.path(), &[], &mut languages, &config);
    assert!(languages.get(LANGUAGE).is_some());
}

#[test]
fn custom_ignore() {
    let dir = TempDir::new().expect("Couldn't create temp dir.");
    let config = Config::default();
    let mut languages = Languages::new();

    create_dir(dir.path(), ".git");
    let ignore_file = Builder::new().prefix(IGNORE_FILE).rand_bytes(0).tempfile_in(dir.path());
    let mut ignore_file = ignore_file.expect("Couldn't create ignore file");
    ignore_file.write_all(IGNORE_PATTERN).expect("Couldn't write ignore file");
    write(dir.path(), FILE_NAME, FILE_CONTENTS);

    get_all_files(dir.path(), &[], &mut languages, &config);
    assert!(languages.get(LANGUAGE).is_none());

    ignore_file.close().expect("Couldn't remove ignore file");

    get_all_files(dir.path(), &[], &mut languages, &config);
    assert!(languages.get(LANGUAGE).is_some());
}

#[test]
fn exclude_single_directory() {
    let dir = TempDir::new().expect("Couldn't create temp dir.");
    let config = Config::default();
    let mut languages = Languages::new();

    let vendor_dir = create_dir(dir.path(), "vendor");
    write(dir.path(), FILE_NAME, FILE_CONTENTS);
    write(&vendor_dir, FILE_NAME, FILE_CONTENTS);

    get_all_files(dir.path(), &["vendor"], &mut languages, &config);

    let rust = languages.get(LANGUAGE).expect("Rust should exist");
    assert_eq!(rust.reports.len(), 1);
    assert!(rust.reports[0].parent().unwrap() == dir.path());
}

#[test]
fn exclude_multiple_directories() {
    let dir = TempDir::new().expect("Couldn't create temp dir.");
    let config = Config::default();
    let mut languages = Languages::new();

    let vendor_dir = create_dir(dir.path(), "vendor");
    let node_modules_dir = create_dir(dir.path(), "node_modules");
    write(dir.path(), FILE_NAME, FILE_CONTENTS);
    write(&vendor_dir, FILE_NAME, FILE_CONTENTS);
    write(&node_modules_dir, FILE_NAME, FILE_CONTENTS);

    get_all_files(dir.path(), &["vendor", "node_modules"], &mut languages, &config);

    let rust = languages.get(LANGUAGE).expect("Rust should exist");
    assert_eq!(rust.reports.len(), 1);
    assert!(rust.reports[0].parent().unwrap() == dir.path());
}

#[test]
fn exclude_nested_directory() {
    let dir = TempDir::new().expect("Couldn't create temp dir.");
    let config = Config::default();
    let mut languages = Languages::new();

    let src_dir = create_dir(dir.path(), "src");
    let nested_vendor = create_dir(&src_dir, "vendor");
    write(dir.path(), FILE_NAME, FILE_CONTENTS);
    write(&src_dir, FILE_NAME, FILE_CONTENTS);
    write(&nested_vendor, FILE_NAME, FILE_CONTENTS);

    get_all_files(dir.path(), &["vendor"], &mut languages, &config);

    let rust = languages.get(LANGUAGE).expect("Rust should exist");
    assert_eq!(rust.reports.len(), 2);
    for report in &rust.reports {
        assert!(!report.components().any(|c| c.as_os_str() == "vendor"));
    }
}

#[test]
fn exclude_nonexistent_directory() {
    let dir = TempDir::new().expect("Couldn't create temp dir.");
    let config = Config::default();
    let mut languages = Languages::new();

    write(dir.path(), FILE_NAME, FILE_CONTENTS);

    get_all_files(dir.path(), &["nonexistent"], &mut languages, &config);

    assert!(languages.get(LANGUAGE).is_some());
}

#[test]
fn exclude_case_insensitive() {
    let dir = TempDir::new().expect("Couldn't create temp dir.");
    let config = Config::default();
    let mut languages = Languages::new();

    let vendor_dir = create_dir(dir.path(), "Vendor");
    write(dir.path(), FILE_NAME, FILE_CONTENTS);
    write(&vendor_dir, FILE_NAME, FILE_CONTENTS);

    get_all_files(dir.path(), &["vendor"], &mut languages, &config);

    let rust = languages.get(LANGUAGE).expect("Rust should exist");
    assert_eq!(rust.reports.len(), 1);
}

#[test]
fn exclude_glob_prefix() {
    let dir = TempDir::new().expect("Couldn't create temp dir.");
    let config = Config::default();
    let mut languages = Languages::new();

    let test_foo_dir = create_dir(dir.path(), "test_foo");
    let test_bar_dir = create_dir(dir.path(), "test_bar");
    let src_dir = create_dir(dir.path(), "src");
    write(dir.path(), FILE_NAME, FILE_CONTENTS);
    write(&test_foo_dir, FILE_NAME, FILE_CONTENTS);
    write(&test_bar_dir, FILE_NAME, FILE_CONTENTS);
    write(&src_dir, FILE_NAME, FILE_CONTENTS);

    get_all_files(dir.path(), &["test_*"], &mut languages, &config);

    let rust = languages.get(LANGUAGE).expect("Rust should exist");
    assert_eq!(rust.reports.len(), 2);
    for report in &rust.reports {
        assert!(!report.file_name().unwrap().to_string_lossy().starts_with("test_"));
    }
}

#[test]
fn exclude_glob_suffix() {
    let dir = TempDir::new().expect("Couldn't create temp dir.");
    let config = Config::default();
    let mut languages = Languages::new();

    let foo_test_dir = create_dir(dir.path(), "foo_test");
    let bar_test_dir = create_dir(dir.path(), "bar_test");
    let src_dir = create_dir(dir.path(), "src");
    write(dir.path(), FILE_NAME, FILE_CONTENTS);
    write(&foo_test_dir, FILE_NAME, FILE_CONTENTS);
    write(&bar_test_dir, FILE_NAME, FILE_CONTENTS);
    write(&src_dir, FILE_NAME, FILE_CONTENTS);

    get_all_files(dir.path(), &["*_test"], &mut languages, &config);

    let rust = languages.get(LANGUAGE).expect("Rust should exist");
    assert_eq!(rust.reports.len(), 2);
    for report in &rust.reports {
        assert!(!report.file_name().unwrap().to_string_lossy().ends_with("_test"));
    }
}

#[test]
fn exclude_glob_single_char() {
    let dir = TempDir::new().expect("Couldn't create temp dir.");
    let config = Config::default();
    let mut languages = Languages::new();

    let test1_dir = create_dir(dir.path(), "test1");
    let test2_dir = create_dir(dir.path(), "test2");
    let test_dir = create_dir(dir.path(), "test");
    write(dir.path(), FILE_NAME, FILE_CONTENTS);
    write(&test1_dir, FILE_NAME, FILE_CONTENTS);
    write(&test2_dir, FILE_NAME, FILE_CONTENTS);
    write(&test_dir, FILE_NAME, FILE_CONTENTS);

    get_all_files(dir.path(), &["test?"], &mut languages, &config);

    let rust = languages.get(LANGUAGE).expect("Rust should exist");
    assert_eq!(rust.reports.len(), 2);
}

#[test]
fn exclude_glob_path_pattern() {
    let dir = TempDir::new().expect("Couldn't create temp dir.");
    let config = Config::default();
    let mut languages = Languages::new();

    let src_dir = create_dir(dir.path(), "src");
    let lib_dir = create_dir(dir.path(), "lib");
    let src_vendor_dir = create_dir(&src_dir, "vendor");
    let lib_vendor_dir = create_dir(&lib_dir, "vendor");
    write(dir.path(), FILE_NAME, FILE_CONTENTS);
    write(&src_dir, FILE_NAME, FILE_CONTENTS);
    write(&lib_dir, FILE_NAME, FILE_CONTENTS);
    write(&src_vendor_dir, FILE_NAME, FILE_CONTENTS);
    write(&lib_vendor_dir, FILE_NAME, FILE_CONTENTS);

    get_all_files(dir.path(), &["*/vendor"], &mut languages, &config);

    let rust = languages.get(LANGUAGE).expect("Rust should exist");
    assert_eq!(rust.reports.len(), 3);
    for report in &rust.reports {
        let path_str = report.to_string_lossy();
        assert!(!path_str.contains("vendor"));
    }
}

#[test]
fn exclude_glob_nested_all_levels() {
    let dir = TempDir::new().expect("Couldn't create temp dir.");
    let config = Config::default();
    let mut languages = Languages::new();

    let src_dir = create_dir(dir.path(), "src");
    let lib_dir = create_dir(&src_dir, "lib");
    let node_modules1 = create_dir(dir.path(), "node_modules");
    let node_modules2 = create_dir(&src_dir, "node_modules");
    let node_modules3 = create_dir(&lib_dir, "node_modules");
    write(dir.path(), FILE_NAME, FILE_CONTENTS);
    write(&src_dir, FILE_NAME, FILE_CONTENTS);
    write(&node_modules1, FILE_NAME, FILE_CONTENTS);
    write(&node_modules2, FILE_NAME, FILE_CONTENTS);
    write(&node_modules3, FILE_NAME, FILE_CONTENTS);

    get_all_files(dir.path(), &["node_modules"], &mut languages, &config);

    let rust = languages.get(LANGUAGE).expect("Rust should exist");
    assert_eq!(rust.reports.len(), 2);
    for report in &rust.reports {
        assert!(!report.components().any(|c| c.as_os_str() == "node_modules"));
    }
}

#[test]
fn every_root_is_walked() {
    let dir = TempDir::new().expect("Couldn't create temp dir.");
    let mut languages = Languages::new();

    let roots = vec![
        create_dir(dir.path(), "one"),
        create_dir(dir.path(), "two"),
        create_dir(dir.path(), "three"),
    ];
    for root in &roots {
        write(root, FILE_NAME, FILE_CONTENTS);
    }

    get_all_files_under(&roots, &[], &mut languages, &Config::default());

    let expected: Vec<PathBuf> = roots.iter().map(|root| root.join(FILE_NAME)).collect();
    assert_eq!(languages[LANGUAGE].reports, expected);
}

#[test]
fn only_files_are_handed_on() {
    assert!(hands_on(Some(true)));
    assert!(!hands_on(Some(false)));
    assert!(!hands_on(None));
}

#[test]
fn only_listed_languages_are_counted() {
    let dir = TempDir::new().expect("Couldn't create temp dir.");
    let mut config = Config::default();
    let mut languages = Languages::new();

    write(dir.path(), FILE_NAME, FILE_CONTENTS);

    config.types = Some(vec![2]);
    get_all_files(dir.path(), &[], &mut languages, &config);
    assert!(languages.is_empty());

    config.types = Some(vec![2, *LANGUAGE]);
    get_all_files(dir.path(), &[], &mut languages, &config);
    assert_eq!(languages[LANGUAGE].reports.len(), 1);
}

#[test]
fn exclusions_take_out_what_they_cover() {
    let dir = TempDir::new().expect("Couldn't create temp dir.");
    let config = Config::default();

    let src_dir = create_dir(dir.path(), "src");
    let vendor_dir = create_dir(&src_dir, "vendor");
    let deep_dir = create_dir(&vendor_dir, "deep");
    write(dir.path(), FILE_NAME, FILE_CONTENTS);
    write(&src_dir, FILE_NAME, FILE_CONTENTS);
    write(&vendor_dir, FILE_NAME, FILE_CONTENTS);
    write(&deep_dir, FILE_NAME, FILE_CONTENTS);

    let reports = |ignored: &[&str]| {
        let mut languages = Languages::new();
        get_all_files(dir.path(), ignored, &mut languages, &config);
        let mut reports = languages.remove(LANGUAGE).expect("Rust should exist").reports;
        reports.sort();
        reports
    };

    let everything = reports(&[]);
    assert_eq!(everything.len(), 4);
    assert_eq!(reports(&["nonexistent", "no/such"]), everything);

    // The path pattern matches the directory alone, and hides what lies below it.
    let rest: Vec<PathBuf> =
        everything.iter().filter(|path| !path.starts_with(&vendor_dir)).cloned().collect();
    assert_eq!(rest.len(), 2);
    assert_eq!(reports(&["*/vendor"]), rest);
    assert_eq!(reports(&["vendor"]), rest);
}

#[test]
fn roots_are_not_held_against_the_patterns() {
    let dir = TempDir::new().expect("Couldn't create temp dir.");
    let mut languages = Languages::new();

    write(dir.path(), FILE_NAME, FILE_CONTENTS);

    let root = dir.path().join(FILE_NAME);
    get_all_files(&root, &[FILE_NAME], &mut languages, &Config::default());

    assert_eq!(languages[LANGUAGE].reports, vec![root]);
}
