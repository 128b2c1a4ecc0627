use std::collections::BTreeMap;
use tokei::config::LanguageType;
use tokei::tally::{process, Language};

const RUST: LanguageType = 1;
const TOML: LanguageType = 2;

type Languages = BTreeMap<LanguageType, Language<u64>>;

fn enter(languages: &mut Languages, language: LanguageType, result: Result<u64, &'static str>) {
    let _ = process(languages, language, result, false);
}

#[test]
fn reports_are_kept_by_language() {
    let mut languages = Languages::new();
    enter(&mut languages, RUST, Ok(10));
    enter(&mut languages, TOML, Ok(20));
    enter(&mut languages, RUST, Ok(30));

    assert_eq!(languages.len(), 2);
    assert_eq!(languages[&RUST].reports, vec![10, 30]);
    assert!(!languages[&RUST].inaccurate);
    assert_eq!(languages[&TOML].reports, vec![20]);
}

#[test]
fn a_failure_marks_its_language() {
    let mut languages = Languages::new();
    enter(&mut languages, RUST, Ok(10));
    let outcome = process(&mut languages, TOML, Err::<u64, &str>("denied"), false);

    assert_eq!(outcome, Err("denied"));
    assert!(languages[&TOML].inaccurate);
    assert!(languages[&TOML].reports.is_empty());
    assert!(!languages[&RUST].inaccurate);

    enter(&mut languages, TOML, Ok(20));
    assert!(languages[&TOML].inaccurate);
    assert_eq!(languages[&TOML].reports, vec![20]);
}

#[test]
fn a_report_is_shown_once_and_a_failure_never() {
    let mut languages = Languages::new();

    assert_eq!(process(&mut languages, RUST, Ok::<u64, &str>(10), true), Ok(Some(10)));
    assert_eq!(process(&mut languages, TOML, Err("denied"), true), Err("denied"));
    assert_eq!(process(&mut languages, TOML, Ok::<u64, &str>(20), true), Ok(Some(20)));
    assert_eq!(process(&mut languages, TOML, Ok::<u64, &str>(30), false), Ok(None));

    assert_eq!(languages[&RUST].reports, vec![10]);
    assert_eq!(languages[&TOML].reports, vec![20, 30]);
}

#[test]
fn what_is_shown_is_what_is_added() {
    let mut languages = Languages::new();
    let mut shown: Vec<(LanguageType, u64)> = Vec::new();
    for (language, result) in [(RUST, Ok(10)), (TOML, Err("denied")), (TOML, Ok(10)), (RUST, Ok(10))] {
        if let Ok(Some(report)) = process(&mut languages, language, result, true) {
            shown.push((language, report));
        }
    }

    assert_eq!(shown, vec![(RUST, 10), (TOML, 10), (RUST, 10)]);
    assert_eq!(languages[&RUST].reports, vec![10, 10]);
    assert_eq!(languages[&TOML].reports, vec![10]);
}

#[test]
fn the_order_of_files_changes_only_the_order_of_reports() {
    let files = vec![(RUST, Ok(10)), (TOML, Err("denied")), (RUST, Ok(30)), (RUST, Ok(20))];
    let mut forward = Languages::new();
    let mut backward = Languages::new();
    for (language, result) in files.iter() {
        enter(&mut forward, *language, *result);
    }
    for (language, result) in files.iter().rev() {
        enter(&mut backward, *language, *result);
    }

    assert_eq!(forward[&RUST].reports, vec![10, 30, 20]);
    assert_eq!(backward[&RUST].reports, vec![20, 30, 10]);
    assert!(forward[&TOML].inaccurate && backward[&TOML].inaccurate);
    assert_eq!(forward.len(), backward.len());
}

#[test]
fn a_new_language_is_empty() {
    let mut language: Language<u64> = Language::new();
    assert!(language.reports.is_empty());
    assert!(!language.inaccurate);
    language.add_report(7);
    assert_eq!(language.reports, vec![7]);
    assert!(!language.inaccurate);
    language.mark_inaccurate();
    assert_eq!(language.reports, vec![7]);
    assert!(language.inaccurate);
}
