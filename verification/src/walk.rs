//! The directory walker, set up for the settings of a run.

use crate::config::{walk_rules, Config, WalkRules};
use crate::exclude::{
    exclusions, law_no_pattern_excludes_nothing, slice_texts, ExcludeMatcher, Exclusions,
};
use ignore::WalkBuilder;
use std::path::PathBuf;
use vstd::prelude::*;

verus! {

/// The name of the ignore files that only this program reads.
pub const IGNORE_FILE: &'static str = ".tokeignore";

/// The builder of directory walkers of the `ignore` crate, opaque to the verifier.
#[verifier::external_type_specification]
#[verifier::external_body]
pub struct ExWalkBuilder(ignore::WalkBuilder);

/// What a builder of walkers holds, as far as this library sets it.
#[verifier::ext_equal]
pub struct WalkSettings {
    /// Where the walk starts, in the order added.
    pub roots: Seq<PathBuf>,
    /// The patterns by which entries below the roots are passed over and not descended
    /// into. The roots themselves are not held against them.
    pub exclusions: Option<Exclusions>,
    /// The names of custom ignore files, in the order added.
    pub custom_ignore_files: Seq<Seq<char>>,
    /// Whether `.git/info/exclude` is obeyed.
    pub git_exclude: bool,
    /// Whether git's global ignore file is obeyed.
    pub git_global: bool,
    /// Whether `.gitignore` files are obeyed.
    pub git_ignore: bool,
    /// Whether hidden entries are passed over.
    pub hidden: bool,
    /// Whether `.ignore` files are obeyed.
    pub ignore: bool,
    /// Whether the ignore files of parent directories are obeyed.
    pub parents: bool,
}

/// What a builder of walkers holds.
pub uninterp spec fn walk_settings(walker: WalkBuilder) -> WalkSettings;

/// The settings of a walk that starts at `roots`, leaves out below them what `patterns`
/// match, where there are any, and obeys `rules`.
pub open spec fn settings_for(
    roots: Seq<PathBuf>,
    patterns: Seq<Seq<char>>,
    rules: WalkRules,
) -> WalkSettings {
    WalkSettings {
        roots,
        exclusions: if patterns.len() > 0 {
            Some(exclusions(patterns))
        } else {
            None
        },
        custom_ignore_files: if rules.custom_ignore {
            seq![IGNORE_FILE@]
        } else {
            seq![]
        },
        git_exclude: rules.git_exclude,
        git_global: rules.git_global,
        git_ignore: rules.git_ignore,
        hidden: rules.hidden,
        ignore: rules.ignore,
        parents: rules.parents,
    }
}

/// `WalkBuilder::new`: a builder with one root, no filter, no custom ignore files and
/// all standard filters on.
#[verifier::external_body]
fn new_walker(root: &PathBuf) -> (walker: WalkBuilder)
    ensures
        walk_settings(walker) == (WalkSettings {
            roots: seq![*root],
            exclusions: None,
            custom_ignore_files: seq![],
            git_exclude: true,
            git_global: true,
            git_ignore: true,
            hidden: true,
            ignore: true,
            parents: true,
        }),
{
    WalkBuilder::new(root)
}

/// `WalkBuilder::add`: one more root behind those that are there.
#[verifier::external_body]
fn add_root(walker: &mut WalkBuilder, root: &PathBuf)
    ensures
        walk_settings(*final(walker)) == (WalkSettings {
            roots: walk_settings(*old(walker)).roots.push(*root),
            ..walk_settings(*old(walker))
        }),
{
    walker.add(root);
}

/// `WalkBuilder::filter_entry`: from now on the walk yields, below the roots, only
/// entries whose path the matcher keeps, and descends into no others there. An earlier
/// filter is forgotten.
#[verifier::external_body]
fn set_filter(walker: &mut WalkBuilder, matcher: ExcludeMatcher)
    ensures
        walk_settings(*final(walker)) == (WalkSettings {
            exclusions: Some(matcher@),
            ..walk_settings(*old(walker))
        }),
{
    walker.filter_entry(move |entry| matcher.keeps(entry.path()));
}

/// `WalkBuilder::add_custom_ignore_filename`: one more custom ignore file name behind
/// those that are there.
#[verifier::external_body]
fn add_custom_ignore_file(walker: &mut WalkBuilder, name: &str)
    ensures
        walk_settings(*final(walker)) == (WalkSettings {
            custom_ignore_files: walk_settings(*old(walker)).custom_ignore_files.push(name@),
            ..walk_settings(*old(walker))
        }),
{
    walker.add_custom_ignore_filename(name);
}

/// `WalkBuilder::git_exclude`: sets whether `.git/info/exclude` is obeyed.
#[verifier::external_body]
fn set_git_exclude(walker: &mut WalkBuilder, yes: bool)
    ensures
        walk_settings(*final(walker)) == (WalkSettings {
            git_exclude: yes,
            ..walk_settings(*old(walker))
        }),
{
    walker.git_exclude(yes);
}

/// `WalkBuilder::git_global`: sets whether git's global ignore file is obeyed.
#[verifier::external_body]
fn set_git_global(walker: &mut WalkBuilder, yes: bool)
    ensures
        walk_settings(*final(walker)) == (WalkSettings {
            git_global: yes,
            ..walk_settings(*old(walker))
        }),
{
    walker.git_global(yes);
}

/// `WalkBuilder::git_ignore`: sets whether `.gitignore` files are obeyed.
#[verifier::external_body]
fn set_git_ignore(walker: &mut WalkBuilder, yes: bool)
    ensures
        walk_settings(*final(walker)) == (WalkSettings {
            git_ignore: yes,
            ..walk_settings(*old(walker))
        }),
{
    walker.git_ignore(yes);
}

/// `WalkBuilder::hidden`: sets whether hidden entries are passed over.
#[verifier::external_body]
fn set_hidden(walker: &mut WalkBuilder, yes: bool)
    ensures
        walk_settings(*final(walker)) == (WalkSettings {
            hidden: yes,
            ..walk_settings(*old(walker))
        }),
{
    walker.hidden(yes);
}

/// `WalkBuilder::ignore`: sets whether `.ignore` files are obeyed.
#[verifier::external_body]
fn set_ignore(walker: &mut WalkBuilder, yes: bool)
    ensures
        walk_settings(*final(walker)) == (WalkSettings {
            ignore: yes,
            ..walk_settings(*old(walker))
        }),
{
    walker.ignore(yes);
}

/// `WalkBuilder::parents`: sets whether the ignore files of parent directories are
/// obeyed.
#[verifier::external_body]
fn set_parents(walker: &mut WalkBuilder, yes: bool)
    ensures
        walk_settings(*final(walker)) == (WalkSettings {
            parents: yes,
            ..walk_settings(*old(walker))
        }),
{
    walker.parents(yes);
}

/// Sets up the walk of a run: it starts at each of `paths`, leaves out below them what
/// one of the patterns `ignored_directories` matches, and obeys the ignore rules of
/// `config`.
pub fn build_walker(
    paths: &[PathBuf],
    ignored_directories: &[&str],
    config: &Config,
) -> (walker: WalkBuilder)
    requires
        paths@.len() > 0,
    ensures
        walk_settings(walker) == settings_for(
            paths@,
            slice_texts(ignored_directories@),
            walk_rules(*config),
        ),
        walk_settings(walker).roots == paths@,
        walk_settings(walker).exclusions is Some <==> ignored_directories@.len() > 0,
        walk_settings(walker).git_exclude == walk_rules(*config).git_exclude,
        walk_settings(walker).git_global == walk_rules(*config).git_global,
        walk_settings(walker).git_ignore == walk_rules(*config).git_ignore,
        walk_settings(walker).hidden == walk_rules(*config).hidden,
        walk_settings(walker).ignore == walk_rules(*config).ignore,
        walk_settings(walker).parents == walk_rules(*config).parents,
{
    let mut walker = new_walker(&paths[0]);
    let ghost fresh = walk_settings(walker);
    assert(fresh.roots =~= paths@.take(1));
    for i in 1..paths.len()
        invariant
            paths@.len() > 0,
            walk_settings(walker) == (WalkSettings { roots: paths@.take(i as int), ..fresh }),
    {
        add_root(&mut walker, &paths[i]);
        assert(paths@.take(i as int).push(paths@[i as int]) =~= paths@.take(i + 1));
    }
    assert(paths@.take(paths@.len() as int) =~= paths@);
    if ignored_directories.len() > 0 {
        set_filter(&mut walker, ExcludeMatcher::new(ignored_directories));
    }
    let rules = config.rules();
    if rules.custom_ignore {
        add_custom_ignore_file(&mut walker, IGNORE_FILE);
    }
    set_git_exclude(&mut walker, rules.git_exclude);
    set_git_global(&mut walker, rules.git_global);
    set_git_ignore(&mut walker, rules.git_ignore);
    set_hidden(&mut walker, rules.hidden);
    set_ignore(&mut walker, rules.ignore);
    set_parents(&mut walker, rules.parents);
    walker
}

/// Whether an entry of the walk is handed on to be counted: only files are, and
/// nothing whose kind is not known.
pub open spec fn is_handed_on(is_file: Option<bool>) -> bool {
    is_file == Some(true)
}

/// Tells whether an entry of the walk is handed on to be counted.
pub fn hands_on(is_file: Option<bool>) -> (handed_on: bool)
    ensures
        handed_on == is_handed_on(is_file),
        handed_on <==> is_file == Some(true),
{
    match is_file {
        Some(file) => file,
        None => false,
    }
}

/// The ignore rules of a walk are those that the settings give, rule by rule, whatever
/// the roots and the patterns: a walk with other roots and without patterns obeys the
/// same.
pub proof fn law_patterns_leave_the_ignore_rules_alone(
    roots: Seq<PathBuf>,
    patterns: Seq<Seq<char>>,
    other_roots: Seq<PathBuf>,
    rules: WalkRules,
)
    ensures
        ({
            let with = settings_for(roots, patterns, rules);
            let without = settings_for(other_roots, Seq::empty(), rules);
            &&& with.git_exclude == rules.git_exclude
            &&& without.git_exclude == rules.git_exclude
            &&& with.git_global == rules.git_global
            &&& without.git_global == rules.git_global
            &&& with.git_ignore == rules.git_ignore
            &&& without.git_ignore == rules.git_ignore
            &&& with.hidden == rules.hidden
            &&& without.hidden == rules.hidden
            &&& with.ignore == rules.ignore
            &&& without.ignore == rules.ignore
            &&& with.parents == rules.parents
            &&& without.parents == rules.parents
            &&& with.custom_ignore_files == without.custom_ignore_files
        }),
{
}

/// A walk reads `.tokeignore` files, and no other custom ignore files, where the rules
/// have it obey custom ignore files, and else none.
pub proof fn law_custom_ignore_file(
    roots: Seq<PathBuf>,
    patterns: Seq<Seq<char>>,
    rules: WalkRules,
)
    ensures
        rules.custom_ignore ==> settings_for(roots, patterns, rules).custom_ignore_files == seq![
            seq!['.', 't', 'o', 'k', 'e', 'i', 'g', 'n', 'o', 'r', 'e'],
        ],
        !rules.custom_ignore ==> settings_for(roots, patterns, rules).custom_ignore_files.len()
            == 0,
{
    reveal_strlit(".tokeignore");
    assert(IGNORE_FILE@ =~= seq!['.', 't', 'o', 'k', 'e', 'i', 'g', 'n', 'o', 'r', 'e']);
}

/// A walk starts at the given roots, all of them and in their order, whatever else is
/// set.
pub proof fn law_every_root_is_walked(
    roots: Seq<PathBuf>,
    patterns: Seq<Seq<char>>,
    rules: WalkRules,
)
    ensures
        settings_for(roots, patterns, rules).roots == roots,
{
}

/// A walk leaves out of the paths below its roots exactly those that the patterns leave
/// out, whatever the roots and the ignore rules.
pub proof fn law_patterns_reach_the_walk(
    roots: Seq<PathBuf>,
    patterns: Seq<Seq<char>>,
    rules: WalkRules,
    components: Seq<Seq<char>>,
    text: Seq<char>,
)
    ensures
        (settings_for(roots, patterns, rules).exclusions matches Some(e) && e.excludes(
            components,
            text,
        )) <==> exclusions(patterns).excludes(components, text),
{
    if patterns.len() == 0 {
        assert(patterns =~= Seq::empty());
        law_no_pattern_excludes_nothing(components, text);
    }
}

/// The ignore rules of a walk follow from the settings of the run alone.
pub proof fn law_settings_decide_the_ignore_rules(
    roots: Seq<PathBuf>,
    patterns: Seq<Seq<char>>,
    config: Config,
)
    ensures
        ({
            let walk = settings_for(roots, patterns, walk_rules(config));
            let no_ignore = config.no_ignore == Some(true);
            let no_dot = no_ignore || config.no_ignore_dot == Some(true);
            let no_vcs = no_ignore || config.no_ignore_vcs == Some(true);
            &&& walk.git_exclude != no_vcs
            &&& walk.git_global != no_vcs
            &&& walk.git_ignore != no_vcs
            &&& walk.ignore != no_dot
            &&& walk.custom_ignore_files.len() == if no_dot { 0int } else { 1int }
            &&& walk.parents != (no_ignore || config.no_ignore_parent == Some(true))
            &&& walk.hidden != (config.hidden == Some(true))
        }),
{
}

/// Files are handed on, other entries and those of unknown kind are not.
pub proof fn law_only_files_are_handed_on(file: bool)
    ensures
        is_handed_on(Some(file)) == file,
        !is_handed_on(None),
{
}

} // verus!
