//! The settings of a run, and the ignore rules that follow from them.

use vstd::prelude::*;

verus! {

/// A language, by its place in the table of languages.
pub type LanguageType = u32;

/// The settings of a run. `None` leaves a setting at its default.
pub struct Config {
    /// Counts hidden files and directories too. Off by default.
    pub hidden: Option<bool>,
    /// Obeys no ignore files at all. Off by default.
    pub no_ignore: Option<bool>,
    /// Obeys no `.ignore` and `.tokeignore` files. Off by default.
    pub no_ignore_dot: Option<bool>,
    /// Obeys no ignore files of parent directories. Off by default.
    pub no_ignore_parent: Option<bool>,
    /// Obeys no ignore files of version control. Off by default.
    pub no_ignore_vcs: Option<bool>,
    /// Counts only these languages. All by default.
    pub types: Option<Vec<LanguageType>>,
}

/// The rules that decide which entries a walk passes over.
#[derive(Clone, Copy, Debug, PartialEq, Eq, Structural)]
pub struct WalkRules {
    /// Obeys `.tokeignore` files.
    pub custom_ignore: bool,
    /// Obeys `.git/info/exclude`.
    pub git_exclude: bool,
    /// Obeys git's global ignore file.
    pub git_global: bool,
    /// Obeys `.gitignore` files.
    pub git_ignore: bool,
    /// Passes over hidden entries.
    pub hidden: bool,
    /// Obeys `.ignore` files.
    pub ignore: bool,
    /// Obeys the ignore files of parent directories.
    pub parents: bool,
}

/// The ignore rules for the given settings. Ignore files are obeyed unless
/// `no_ignore` is set, those of a kind unless the setting for the kind is set too,
/// and hidden entries are passed over unless `hidden` is set.
pub open spec fn walk_rules(config: Config) -> WalkRules {
    let ignore = config.no_ignore != Some(true);
    let dot = ignore && config.no_ignore_dot != Some(true);
    let vcs = ignore && config.no_ignore_vcs != Some(true);
    WalkRules {
        custom_ignore: dot,
        git_exclude: vcs,
        git_global: vcs,
        git_ignore: vcs,
        hidden: config.hidden != Some(true),
        ignore: dot,
        parents: ignore && config.no_ignore_parent != Some(true),
    }
}

/// Whether files of a language are counted: where languages are listed, those listed.
pub open spec fn counts_language(config: Config, language: LanguageType) -> bool {
    match config.types {
        Some(types) => types@.contains(language),
        None => true,
    }
}

/// The language that a file is parsed as, given the language that it was recognised
/// as: nothing for a file that was not recognised or whose language is not counted.
pub open spec fn selected_language(
    config: Config,
    recognised: Option<LanguageType>,
) -> Option<LanguageType> {
    match recognised {
        Some(language) => if counts_language(config, language) {
            Some(language)
        } else {
            None
        },
        None => None,
    }
}

/// Tells whether a setting is off.
fn is_off(setting: Option<bool>) -> (off: bool)
    ensures
        off == (setting != Some(true)),
{
    match setting {
        Some(on) => !on,
        None => true,
    }
}

/// Tells whether a language is among some languages.
fn lists(types: &Vec<LanguageType>, language: LanguageType) -> (listed: bool)
    ensures
        listed == types@.contains(language),
{
    for i in 0..types.len()
        invariant
            forall|j: int| 0 <= j < i ==> types@[j] != language,
    {
        if types[i] == language {
            return true;
        }
    }
    false
}

impl Default for Config {
    /// Every setting at its default.
    fn default() -> (config: Self)
        ensures
            config.hidden is None,
            config.no_ignore is None,
            config.no_ignore_dot is None,
            config.no_ignore_parent is None,
            config.no_ignore_vcs is None,
            config.types is None,
    {
        Config {
            hidden: None,
            no_ignore: None,
            no_ignore_dot: None,
            no_ignore_parent: None,
            no_ignore_vcs: None,
            types: None,
        }
    }
}

impl Config {
    /// The ignore rules for these settings.
    pub fn rules(&self) -> (rules: WalkRules)
        ensures
            rules == walk_rules(*self),
    {
        let ignore = is_off(self.no_ignore);
        let ignore_dot = ignore && is_off(self.no_ignore_dot);
        let ignore_vcs = ignore && is_off(self.no_ignore_vcs);
        WalkRules {
            custom_ignore: ignore_dot,
            git_exclude: ignore_vcs,
            git_global: ignore_vcs,
            git_ignore: ignore_vcs,
            hidden: is_off(self.hidden),
            ignore: ignore_dot,
            parents: ignore && is_off(self.no_ignore_parent),
        }
    }

    /// The language to parse a file as, given the language that it was recognised as:
    /// nothing for a file that was not recognised or whose language is not counted.
    pub fn select(&self, recognised: Option<LanguageType>) -> (selected: Option<LanguageType>)
        ensures
            selected == selected_language(*self, recognised),
            selected is Some ==> selected == recognised,
            selected is Some <==> recognised is Some && (self.types is Some
                ==> self.types->0@.contains(recognised->0)),
    {
        let language: LanguageType = match recognised {
            Some(language) => language,
            None => {
                return None;
            },
        };
        match &self.types {
            Some(types) => if lists(types, language) {
                Some(language)
            } else {
                None
            },
            None => Some(language),
        }
    }
}

/// `no_ignore` turns off every kind of ignore file, whatever the other settings, and
/// has no say in hidden entries.
pub proof fn law_no_ignore_implies_all(config: Config)
    requires
        config.no_ignore == Some(true),
    ensures
        !walk_rules(config).custom_ignore,
        !walk_rules(config).git_exclude,
        !walk_rules(config).git_global,
        !walk_rules(config).git_ignore,
        !walk_rules(config).ignore,
        !walk_rules(config).parents,
        walk_rules(config).hidden == (config.hidden != Some(true)),
{
}

/// `no_ignore_dot` turns off the `.ignore` and `.tokeignore` files and nothing else.
pub proof fn law_no_ignore_dot_touches_dot_files_only(config: Config, flag: Option<bool>)
    ensures
        walk_rules(Config { no_ignore_dot: Some(true), ..config }) == (WalkRules {
            custom_ignore: false,
            ignore: false,
            ..walk_rules(Config { no_ignore_dot: flag, ..config })
        }),
{
}

/// `no_ignore_vcs` turns off the ignore files of version control and nothing else.
pub proof fn law_no_ignore_vcs_touches_git_only(config: Config, flag: Option<bool>)
    ensures
        walk_rules(Config { no_ignore_vcs: Some(true), ..config }) == (WalkRules {
            git_exclude: false,
            git_global: false,
            git_ignore: false,
            ..walk_rules(Config { no_ignore_vcs: flag, ..config })
        }),
{
}

/// `no_ignore_parent` turns off the ignore files of parent directories and nothing else.
pub proof fn law_no_ignore_parent_touches_parents_only(config: Config, flag: Option<bool>)
    ensures
        walk_rules(Config { no_ignore_parent: Some(true), ..config }) == (WalkRules {
            parents: false,
            ..walk_rules(Config { no_ignore_parent: flag, ..config })
        }),
{
}

/// `hidden` lets hidden entries in and changes nothing else.
pub proof fn law_hidden_touches_hidden_only(config: Config, flag: Option<bool>)
    ensures
        walk_rules(Config { hidden: Some(true), ..config }) == (WalkRules {
            hidden: false,
            ..walk_rules(Config { hidden: flag, ..config })
        }),
{
}

/// A setting given as off has the same effect as one that is not given.
pub proof fn law_off_is_the_default(config: Config)
    ensures
        walk_rules(Config { no_ignore: Some(false), ..config }) == walk_rules(
            Config { no_ignore: None, ..config },
        ),
        walk_rules(Config { no_ignore_dot: Some(false), ..config }) == walk_rules(
            Config { no_ignore_dot: None, ..config },
        ),
        walk_rules(Config { no_ignore_vcs: Some(false), ..config }) == walk_rules(
            Config { no_ignore_vcs: None, ..config },
        ),
        walk_rules(Config { no_ignore_parent: Some(false), ..config }) == walk_rules(
            Config { no_ignore_parent: None, ..config },
        ),
        walk_rules(Config { hidden: Some(false), ..config }) == walk_rules(
            Config { hidden: None, ..config },
        ),
{
}

/// Custom ignore files and `.ignore` files are obeyed or not together.
pub proof fn law_custom_ignore_follows_dot(config: Config)
    ensures
        walk_rules(config).custom_ignore == walk_rules(config).ignore,
{
}

/// Where languages are listed, however many, a file is parsed exactly when the language
/// it was recognised as is an element of the list, and then as that language.
pub proof fn law_listed_languages_are_selected(
    config: Config,
    types: Vec<LanguageType>,
    language: LanguageType,
)
    requires
        config.types == Some(types),
    ensures
        types@.contains(language) ==> selected_language(config, Some(language)) == Some(language),
        !types@.contains(language) ==> selected_language(config, Some(language)) is None,
{
}

/// Where no languages are listed, every recognised file is parsed as what it was
/// recognised as.
pub proof fn law_all_languages_are_selected_by_default(config: Config, language: LanguageType)
    requires
        config.types is None,
    ensures
        selected_language(config, Some(language)) == Some(language),
{
}

/// A file that was not recognised is not parsed, whatever the settings.
pub proof fn law_unrecognised_files_are_not_selected(config: Config)
    ensures
        selected_language(config, None) is None,
{
}

/// `.ignore` and `.tokeignore` files are obeyed exactly where neither `no_ignore` nor
/// `no_ignore_dot` is on, whatever the other settings.
pub proof fn law_when_dot_files_are_obeyed(config: Config)
    ensures
        config.no_ignore == Some(true) || config.no_ignore_dot == Some(true)
            ==> !walk_rules(config).ignore && !walk_rules(config).custom_ignore,
        config.no_ignore != Some(true) && config.no_ignore_dot != Some(true)
            ==> walk_rules(config).ignore && walk_rules(config).custom_ignore,
{
}

/// The ignore files of version control are obeyed, all three kinds alike, exactly where
/// neither `no_ignore` nor `no_ignore_vcs` is on, whatever the other settings.
pub proof fn law_when_git_files_are_obeyed(config: Config)
    ensures
        config.no_ignore == Some(true) || config.no_ignore_vcs == Some(true)
            ==> !walk_rules(config).git_ignore && !walk_rules(config).git_exclude
            && !walk_rules(config).git_global,
        config.no_ignore != Some(true) && config.no_ignore_vcs != Some(true)
            ==> walk_rules(config).git_ignore && walk_rules(config).git_exclude
            && walk_rules(config).git_global,
{
}

/// The ignore files of parent directories are obeyed exactly where neither `no_ignore`
/// nor `no_ignore_parent` is on, whatever the other settings.
pub proof fn law_when_parents_are_obeyed(config: Config)
    ensures
        config.no_ignore == Some(true) || config.no_ignore_parent == Some(true)
            ==> !walk_rules(config).parents,
        config.no_ignore != Some(true) && config.no_ignore_parent != Some(true)
            ==> walk_rules(config).parents,
{
}

/// Hidden entries are passed over exactly where `hidden` is not on, whatever the other
/// settings.
pub proof fn law_when_hidden_entries_are_passed_over(config: Config)
    ensures
        config.hidden == Some(true) ==> !walk_rules(config).hidden,
        config.hidden != Some(true) ==> walk_rules(config).hidden,
{
}

} // verus!
