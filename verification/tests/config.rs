use tokei::config::{Config, LanguageType, WalkRules};

const RUST: LanguageType = 1;
const TOML: LanguageType = 2;

fn rules(
    no_ignore: Option<bool>,
    no_ignore_dot: Option<bool>,
    no_ignore_vcs: Option<bool>,
    no_ignore_parent: Option<bool>,
    hidden: Option<bool>,
) -> WalkRules {
    Config { hidden, no_ignore, no_ignore_dot, no_ignore_parent, no_ignore_vcs, types: None }.rules()
}

const ALL: WalkRules = WalkRules {
    custom_ignore: true,
    git_exclude: true,
    git_global: true,
    git_ignore: true,
    hidden: true,
    ignore: true,
    parents: true,
};

#[test]
fn every_rule_holds_by_default() {
    assert_eq!(Config::default().rules(), ALL);
    let off = Some(false);
    assert_eq!(rules(off, off, off, off, off), ALL);
}

#[test]
fn no_ignore_drops_every_kind_of_ignore_file() {
    let none = WalkRules {
        custom_ignore: false,
        git_exclude: false,
        git_global: false,
        git_ignore: false,
        hidden: true,
        ignore: false,
        parents: false,
    };
    assert_eq!(rules(Some(true), None, None, None, None), none);
    assert_eq!(rules(Some(true), Some(false), Some(false), Some(false), None), none);
    assert_eq!(
        rules(Some(true), None, None, None, Some(true)),
        WalkRules { hidden: false, ..none }
    );
}

#[test]
fn each_setting_drops_its_own_rules() {
    assert_eq!(
        rules(None, Some(true), None, None, None),
        WalkRules { custom_ignore: false, ignore: false, ..ALL }
    );
    assert_eq!(
        rules(None, None, Some(true), None, None),
        WalkRules { git_exclude: false, git_global: false, git_ignore: false, ..ALL }
    );
    assert_eq!(rules(None, None, None, Some(true), None), WalkRules { parents: false, ..ALL });
    assert_eq!(rules(None, None, None, None, Some(true)), WalkRules { hidden: false, ..ALL });
}

#[test]
fn languages_are_selected_by_the_list() {
    let mut config = Config::default();
    assert_eq!(config.select(Some(RUST)), Some(RUST));
    assert_eq!(config.select(None), None);

    config.types = Some(vec![TOML]);
    assert_eq!(config.select(Some(RUST)), None);
    assert_eq!(config.select(Some(TOML)), Some(TOML));
    assert_eq!(config.select(None), None);

    config.types = Some(vec![]);
    assert_eq!(config.select(Some(RUST)), None);
}
