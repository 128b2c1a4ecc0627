//! What a whole run comes to, given the entries that lie below its roots.

use crate::config::{selected_language, walk_rules, Config, LanguageType};
use crate::exclude::{exclusions, is_left_out, law_no_pattern_excludes_nothing, Place};
use crate::tally::{
    law_what_is_gathered, reports_of, shown_reports, tally_of, with_file, with_files, Parsed, Tally,
};
use crate::walk::{is_handed_on, settings_for, WalkSettings};
use std::path::PathBuf;
use vstd::prelude::*;

verus! {

/// An entry of a walk: whether it is a file, where that is known, the language that it
/// was recognised as, and the report that parsing it gives, if it can be read.
pub struct Found<R> {
    pub is_file: Option<bool>,
    pub recognised: Option<LanguageType>,
    pub report: Option<R>,
}

/// What an entry comes to: a parsed file if it is handed on and its language selected,
/// else nothing.
pub open spec fn counted<R>(config: Config, found: Found<R>) -> Option<Parsed<R>> {
    match selected_language(config, found.recognised) {
        Some(language) if is_handed_on(found.is_file) => Some(
            Parsed { language, report: found.report },
        ),
        _ => None,
    }
}

/// The files that the entries of a walk come to.
pub open spec fn counted_files<R>(config: Config, found: Seq<Found<R>>) -> Seq<Parsed<R>> {
    found.filter_map(|entry: Found<R>| counted(config, entry))
}

/// What an observer gets to see of an entry: its report with its language, if it is
/// handed on, its language selected and the file readable, else nothing.
pub open spec fn shown_of<R>(config: Config, found: Found<R>) -> Option<(LanguageType, R)> {
    match (selected_language(config, found.recognised), found.report) {
        (Some(language), Some(report)) if is_handed_on(found.is_file) => Some((language, report)),
        _ => None,
    }
}

/// An entry of a directory tree that no ignore rule passes over: its place and those of
/// the directories above it up to the root of the walk, without the root, and what it
/// comes to if the walk yields it.
pub struct Entry<R> {
    pub chain: Seq<Place>,
    pub found: Found<R>,
}

/// Whether a walk with the given settings yields an entry: not if the entry, or a
/// directory that the walk would have to descend into to reach it, is excluded.
pub open spec fn yields(settings: WalkSettings, chain: Seq<Place>) -> bool {
    settings.exclusions matches Some(e) ==> !is_left_out(e, chain)
}

/// What a walk with the given settings yields of the entries below its roots.
pub open spec fn yielded<R>(settings: WalkSettings, entries: Seq<Entry<R>>) -> Seq<Found<R>> {
    entries.filter_map(
        |entry: Entry<R>|
            if yields(settings, entry.chain) {
                Some(entry.found)
            } else {
                None
            },
    )
}

/// What a run gathers that starts with the tallies `all`: it walks from `roots`, leaves
/// out what `patterns` exclude, and counts what it is yielded of `entries`.
pub open spec fn gathered<R>(
    roots: Seq<PathBuf>,
    patterns: Seq<Seq<char>>,
    config: Config,
    all: Map<LanguageType, Tally<R>>,
    entries: Seq<Entry<R>>,
) -> Map<LanguageType, Tally<R>> {
    with_files(
        all,
        counted_files(config, yielded(settings_for(roots, patterns, walk_rules(config)), entries)),
    )
}

/// The entries that patterns do not leave out.
pub open spec fn not_left_out<R>(
    patterns: Seq<Seq<char>>,
    entries: Seq<Entry<R>>,
) -> Seq<Entry<R>> {
    entries.filter(|entry: Entry<R>| !is_left_out(exclusions(patterns), entry.chain))
}

/// One entry more adds the file that it comes to, if it comes to one, and else nothing.
pub proof fn law_one_entry_more<R>(
    config: Config,
    all: Map<LanguageType, Tally<R>>,
    found: Seq<Found<R>>,
    entry: Found<R>,
)
    ensures
        with_files(all, counted_files(config, found.push(entry))) == (match counted(config, entry) {
            Some(file) => with_file(with_files(all, counted_files(config, found)), file),
            None => with_files(all, counted_files(config, found)),
        }),
{
    lemma_counted_with_one_more(config, found, entry);
    if let Some(file) = counted(config, entry) {
        assert(counted_files(config, found).push(file).drop_last() =~= counted_files(
            config,
            found,
        ));
    }
}

proof fn lemma_counted_with_one_more<R>(config: Config, found: Seq<Found<R>>, entry: Found<R>)
    ensures
        counted_files(config, found.push(entry)) == (match counted(config, entry) {
            Some(file) => counted_files(config, found).push(file),
            None => counted_files(config, found),
        }),
{
    assert(found.push(entry).drop_last() =~= found);
    if let Some(file) = counted(config, entry) {
        assert(counted_files(config, found) + seq![file] =~= counted_files(config, found).push(
            file,
        ));
    }
}

proof fn lemma_yielded_with_one_more<R>(
    settings: WalkSettings,
    entries: Seq<Entry<R>>,
    entry: Entry<R>,
)
    ensures
        yielded(settings, entries.push(entry)) == (if yields(settings, entry.chain) {
            yielded(settings, entries).push(entry.found)
        } else {
            yielded(settings, entries)
        }),
{
    assert(entries.push(entry).drop_last() =~= entries);
    assert(yielded(settings, entries) + seq![entry.found] =~= yielded(settings, entries).push(
        entry.found,
    ));
}

/// A walk passes over an entry exactly when the patterns leave it out.
proof fn lemma_yields_what_is_not_left_out(
    roots: Seq<PathBuf>,
    patterns: Seq<Seq<char>>,
    config: Config,
    chain: Seq<Place>,
)
    ensures
        yields(settings_for(roots, patterns, walk_rules(config)), chain) == !is_left_out(
            exclusions(patterns),
            chain,
        ),
{
    if patterns.len() == 0 {
        assert(patterns =~= Seq::empty());
        assert forall|i: int| 0 <= i < chain.len() implies !exclusions(patterns).excludes(
            (#[trigger] chain[i]).components,
            chain[i].text,
        ) by {
            law_no_pattern_excludes_nothing(chain[i].components, chain[i].text);
        }
    }
}

proof fn lemma_yielded_is_not_left_out<R>(
    roots: Seq<PathBuf>,
    patterns: Seq<Seq<char>>,
    config: Config,
    entries: Seq<Entry<R>>,
)
    ensures
        yielded(settings_for(roots, patterns, walk_rules(config)), entries) == yielded(
            settings_for(roots, Seq::empty(), walk_rules(config)),
            not_left_out(patterns, entries),
        ),
    decreases entries.len(),
{
    reveal(Seq::filter);
    let with = settings_for(roots, patterns, walk_rules(config));
    let without = settings_for(roots, Seq::empty(), walk_rules(config));
    if entries.len() > 0 {
        let earlier = entries.drop_last();
        let last = entries.last();
        lemma_yielded_is_not_left_out(roots, patterns, config, earlier);
        lemma_yields_what_is_not_left_out(roots, patterns, config, last.chain);
        assert(entries =~= earlier.push(last));
        lemma_yielded_with_one_more(with, earlier, last);
        lemma_yielded_with_one_more(without, not_left_out(patterns, earlier), last);
    } else {
        assert(not_left_out(patterns, entries).len() == 0);
    }
}

/// Exclusions take out of a run exactly what they cover: with them it gathers what it
/// gathers without them from the entries that neither are excluded nor lie below one
/// that is.
pub proof fn law_exclusions_take_out_what_they_cover<R>(
    roots: Seq<PathBuf>,
    patterns: Seq<Seq<char>>,
    config: Config,
    all: Map<LanguageType, Tally<R>>,
    entries: Seq<Entry<R>>,
)
    ensures
        gathered(roots, patterns, config, all, entries) == gathered(
            roots,
            Seq::empty(),
            config,
            all,
            not_left_out(patterns, entries),
        ),
{
    lemma_yielded_is_not_left_out(roots, patterns, config, entries);
}

/// Patterns that exclude nothing on the way to any entry change nothing.
pub proof fn law_exclusions_that_match_nothing_change_nothing<R>(
    roots: Seq<PathBuf>,
    patterns: Seq<Seq<char>>,
    config: Config,
    all: Map<LanguageType, Tally<R>>,
    entries: Seq<Entry<R>>,
)
    requires
        forall|i: int|
            0 <= i < entries.len() ==> !is_left_out(
                exclusions(patterns),
                (#[trigger] entries[i]).chain,
            ),
    ensures
        gathered(roots, patterns, config, all, entries) == gathered(
            roots,
            Seq::empty(),
            config,
            all,
            entries,
        ),
{
    lemma_nothing_left_out(patterns, entries);
    law_exclusions_take_out_what_they_cover(roots, patterns, config, all, entries);
}

proof fn lemma_nothing_left_out<R>(patterns: Seq<Seq<char>>, entries: Seq<Entry<R>>)
    requires
        forall|i: int|
            0 <= i < entries.len() ==> !is_left_out(
                exclusions(patterns),
                (#[trigger] entries[i]).chain,
            ),
    ensures
        not_left_out(patterns, entries) == entries,
    decreases entries.len(),
{
    reveal(Seq::filter);
    if entries.len() > 0 {
        let earlier = entries.drop_last();
        assert forall|i: int| 0 <= i < earlier.len() implies !is_left_out(
            exclusions(patterns),
            (#[trigger] earlier[i]).chain,
        ) by {
            assert(earlier[i] == entries[i]);
        }
        lemma_nothing_left_out(patterns, earlier);
        assert(entries[entries.len() - 1] == entries.last());
        assert(entries =~= earlier.push(entries.last()));
    }
}

proof fn lemma_reports_without_what_is_left_out<R>(
    roots: Seq<PathBuf>,
    patterns: Seq<Seq<char>>,
    config: Config,
    entries: Seq<Entry<R>>,
    keeps: spec_fn(R) -> bool,
    language: LanguageType,
)
    requires
        forall|i: int|
            0 <= i < entries.len() && (#[trigger] entries[i]).found.report is Some ==> keeps(
                entries[i].found.report->0,
            ) == !is_left_out(exclusions(patterns), entries[i].chain),
    ensures
        reports_of(
            counted_files(
                config,
                yielded(settings_for(roots, patterns, walk_rules(config)), entries),
            ),
            language,
        ) == reports_of(
            counted_files(
                config,
                yielded(settings_for(roots, Seq::empty(), walk_rules(config)), entries),
            ),
            language,
        ).filter(keeps),
    decreases entries.len(),
{
    reveal(Seq::filter);
    if entries.len() > 0 {
        let with = settings_for(roots, patterns, walk_rules(config));
        let without = settings_for(roots, Seq::empty(), walk_rules(config));
        let earlier = entries.drop_last();
        let last = entries.last();
        assert forall|i: int|
            0 <= i < earlier.len() && (#[trigger] earlier[i]).found.report is Some implies keeps(
            earlier[i].found.report->0,
        ) == !is_left_out(exclusions(patterns), earlier[i].chain) by {
            assert(earlier[i] == entries[i]);
        }
        lemma_reports_without_what_is_left_out(roots, patterns, config, earlier, keeps, language);
        assert(entries[entries.len() - 1] == last);
        assert(entries =~= earlier.push(last));
        lemma_yields_what_is_not_left_out(roots, patterns, config, last.chain);
        lemma_yielded_with_one_more(with, earlier, last);
        lemma_yielded_with_one_more(without, earlier, last);
        lemma_counted_with_one_more(config, yielded(with, earlier), last.found);
        lemma_counted_with_one_more(config, yielded(without, earlier), last.found);
        let kept_before = counted_files(config, yielded(with, earlier));
        let before = counted_files(config, yielded(without, earlier));
        if let Some(file) = counted(config, last.found) {
            assert(kept_before.push(file).drop_last() =~= kept_before);
            assert(before.push(file).drop_last() =~= before);
            if let Some(report) = file.report {
                assert(reports_of(before, language).push(report).drop_last() =~= reports_of(
                    before,
                    language,
                ));
            }
        }
    }
}

/// Where a report tells whether its entry is left out, as one that holds its path does,
/// a run with exclusions adds of the reports that a run without them gathers exactly
/// those whose entry is not left out.
pub proof fn law_reports_less_what_is_left_out<R>(
    roots: Seq<PathBuf>,
    patterns: Seq<Seq<char>>,
    config: Config,
    all: Map<LanguageType, Tally<R>>,
    entries: Seq<Entry<R>>,
    keeps: spec_fn(R) -> bool,
    language: LanguageType,
)
    requires
        forall|i: int|
            0 <= i < entries.len() && (#[trigger] entries[i]).found.report is Some ==> keeps(
                entries[i].found.report->0,
            ) == !is_left_out(exclusions(patterns), entries[i].chain),
    ensures
        tally_of(gathered(roots, patterns, config, all, entries), language).reports == tally_of(
            all,
            language,
        ).reports + tally_of(
            gathered(roots, Seq::empty(), config, Map::empty(), entries),
            language,
        ).reports.filter(keeps),
{
    let with = settings_for(roots, patterns, walk_rules(config));
    let without = settings_for(roots, Seq::empty(), walk_rules(config));
    let none = Map::<LanguageType, Tally<R>>::empty();
    lemma_reports_without_what_is_left_out(roots, patterns, config, entries, keeps, language);
    law_what_is_gathered(all, counted_files(config, yielded(with, entries)), language);
    law_what_is_gathered(none, counted_files(config, yielded(without, entries)), language);
    assert(tally_of(none, language).reports + reports_of(
        counted_files(config, yielded(without, entries)),
        language,
    ) =~= reports_of(counted_files(config, yielded(without, entries)), language));
}

/// The observer sees each entry of a walk once if it is handed on, selected and
/// readable, with its language and its report, and sees nothing of any other entry.
pub proof fn law_each_entry_is_shown_at_most_once<R>(config: Config, found: Seq<Found<R>>)
    ensures
        shown_reports(counted_files(config, found)) == found.filter_map(
            |entry: Found<R>| shown_of(config, entry),
        ),
    decreases found.len(),
{
    if found.len() > 0 {
        let earlier = found.drop_last();
        let last = found.last();
        law_each_entry_is_shown_at_most_once(config, earlier);
        let files = counted_files(config, found);
        match counted(config, last) {
            Some(file) => {
                assert(files =~= counted_files(config, earlier).push(file));
                assert(files.drop_last() =~= counted_files(config, earlier));
            },
            None => {
                assert(files == counted_files(config, earlier));
            },
        }
        assert(shown_reports(files) =~= found.filter_map(
            |entry: Found<R>| shown_of(config, entry),
        ));
    }
}

/// An entry is counted exactly when it is a file of a recognised language that is listed,
/// where languages are listed, and then under that language and with its own report.
pub proof fn law_what_is_counted<R>(config: Config, found: Found<R>, language: LanguageType)
    ensures
        found.is_file != Some(true) ==> counted(config, found) is None,
        found.recognised is None ==> counted(config, found) is None,
        found.is_file == Some(true) && found.recognised == Some(language) ==> (counted(
            config,
            found,
        ) is Some <==> (config.types is None || config.types->0@.contains(language))),
        counted(config, found) matches Some(file) ==> found.recognised == Some(file.language)
            && file.report == found.report,
{
}

/// A walk yields an entry exactly when the patterns leave out neither the entry nor any
/// directory on the way to it from the root.
pub proof fn law_what_is_yielded(
    roots: Seq<PathBuf>,
    patterns: Seq<Seq<char>>,
    config: Config,
    chain: Seq<Place>,
)
    ensures
        yields(settings_for(roots, patterns, walk_rules(config)), chain) <==> forall|i: int|
            0 <= i < chain.len() ==> !exclusions(patterns).excludes(
                (#[trigger] chain[i]).components,
                chain[i].text,
            ),
{
    lemma_yields_what_is_not_left_out(roots, patterns, config, chain);
}

} // verus!
