//! What a run gathers: the reports of each language, and whether they are complete.

use crate::config::{counts_language, Config, LanguageType};
use std::collections::BTreeMap;
use vstd::prelude::*;

verus! {

/// What has been gathered for a language. A report is of any type the caller likes.
pub struct Language<R> {
    /// The reports of the files that could be read, in the order they came in.
    pub reports: Vec<R>,
    /// Whether a file could not be read.
    pub inaccurate: bool,
}

/// The mathematical content of a `Language`.
#[verifier::ext_equal]
pub struct Tally<R> {
    pub reports: Seq<R>,
    pub inaccurate: bool,
}

impl<R> View for Language<R> {
    type V = Tally<R>;

    open spec fn view(&self) -> Tally<R> {
        Tally { reports: self.reports@, inaccurate: self.inaccurate }
    }
}

/// The tally that every language starts with.
pub open spec fn fresh_tally<R>() -> Tally<R> {
    Tally { reports: seq![], inaccurate: false }
}

/// The tallies of a map of languages.
pub open spec fn tallies<R>(languages: Map<LanguageType, Language<R>>) -> Map<LanguageType, Tally<R>> {
    languages.map_values(|language: Language<R>| language@)
}

/// The tally of a language, which is fresh where there is none yet.
pub open spec fn tally_of<R>(all: Map<LanguageType, Tally<R>>, language: LanguageType) -> Tally<R> {
    if all.contains_key(language) {
        all[language]
    } else {
        fresh_tally()
    }
}

/// What parsing one file came to: its language, and its report where it could be read.
pub struct Parsed<R> {
    pub language: LanguageType,
    pub report: Option<R>,
}

/// A tally with one more file in it.
pub open spec fn tally_with<R>(tally: Tally<R>, report: Option<R>) -> Tally<R> {
    match report {
        Some(report) => Tally { reports: tally.reports.push(report), ..tally },
        None => Tally { inaccurate: true, ..tally },
    }
}

/// The tallies with one more file in them.
pub open spec fn with_file<R>(
    all: Map<LanguageType, Tally<R>>,
    file: Parsed<R>,
) -> Map<LanguageType, Tally<R>> {
    all.insert(file.language, tally_with(tally_of(all, file.language), file.report))
}

/// The tallies with some more files in them, one after the other.
pub open spec fn with_files<R>(
    all: Map<LanguageType, Tally<R>>,
    files: Seq<Parsed<R>>,
) -> Map<LanguageType, Tally<R>>
    decreases files.len(),
{
    if files.len() == 0 {
        all
    } else {
        with_file(with_files(all, files.drop_last()), files.last())
    }
}

/// The reports that the files of one language gave, in the order of the files.
pub open spec fn reports_of<R>(files: Seq<Parsed<R>>, language: LanguageType) -> Seq<R>
    decreases files.len(),
{
    if files.len() == 0 {
        seq![]
    } else {
        let before = reports_of(files.drop_last(), language);
        match files.last().report {
            Some(report) if files.last().language == language => before.push(report),
            _ => before,
        }
    }
}

/// Whether one of the files is of the language.
pub open spec fn has_language<R>(files: Seq<Parsed<R>>, language: LanguageType) -> bool {
    exists|i: int| 0 <= i < files.len() && (#[trigger] files[i]).language == language
}

/// Whether one of the files of the language could not be read.
pub open spec fn has_failure<R>(files: Seq<Parsed<R>>, language: LanguageType) -> bool {
    exists|i: int|
        0 <= i < files.len() && (#[trigger] files[i]).language == language
            && files[i].report is None
}

/// What an observer gets to see of the files, each report with its language: one for
/// each file that could be read, in the order of the files.
pub open spec fn shown_reports<R>(files: Seq<Parsed<R>>) -> Seq<(LanguageType, R)>
    decreases files.len(),
{
    if files.len() == 0 {
        seq![]
    } else {
        let before = shown_reports(files.drop_last());
        match files.last().report {
            Some(report) => before.push((files.last().language, report)),
            None => before,
        }
    }
}

impl<R> Language<R> {
    /// A language without reports.
    pub fn new() -> (language: Self)
        ensures
            language@ == fresh_tally::<R>(),
            language.reports@.len() == 0,
            !language.inaccurate,
    {
        Language { reports: Vec::new(), inaccurate: false }
    }

    /// Adds the report of a file.
    pub fn add_report(&mut self, report: R)
        ensures
            final(self)@ == tally_with(old(self)@, Some(report)),
            final(self).reports@ == old(self).reports@.push(report),
            final(self).inaccurate == old(self).inaccurate,
    {
        self.reports.push(report);
    }

    /// Notes that a file could not be read.
    pub fn mark_inaccurate(&mut self)
        ensures
            final(self)@ == tally_with(old(self)@, None),
            final(self).reports@ == old(self).reports@,
            final(self).inaccurate,
    {
        self.inaccurate = true;
    }
}

/// What a parsed file adds to the tallies.
pub open spec fn parsed<R, E>(language: LanguageType, result: Result<R, E>) -> Parsed<R> {
    Parsed {
        language,
        report: match result {
            Ok(report) => Some(report),
            Err(_) => None,
        },
    }
}

/// Whether `shown` is what an observer gets to see of a report: a copy of it if there
/// is an observer, else nothing.
pub open spec fn is_shown<R: Clone>(observed: bool, report: R, shown: Option<R>) -> bool {
    if observed {
        shown matches Some(copy) && cloned(report, copy)
    } else {
        shown is None
    }
}

/// Enters the result of parsing a file of `language` into `languages`, where the
/// language gets a place if it has none yet. A report is added, and a single copy of it
/// handed back to be shown if the run is `observed`. A failure marks the language as
/// inaccurate and is handed back, with nothing to be shown.
pub fn process<R: Clone, E>(
    languages: &mut BTreeMap<LanguageType, Language<R>>,
    language: LanguageType,
    result: Result<R, E>,
    observed: bool,
) -> (outcome: Result<Option<R>, E>)
    ensures
        tallies(final(languages)@) == with_file(
            tallies(old(languages)@),
            parsed(language, result),
        ),
        match result {
            Ok(report) => outcome matches Ok(shown) && is_shown(observed, report, shown),
            Err(error) => outcome == Err::<Option<R>, E>(error),
        },
        outcome is Ok <==> result is Ok,
        outcome matches Ok(shown) ==> (shown is Some <==> observed),
        outcome matches Ok(Some(copy)) ==> cloned(result->Ok_0, copy),
        final(languages)@.contains_key(language),
        result matches Ok(report) ==> final(languages)@[language].reports@ == (
        if old(languages)@.contains_key(language) {
            old(languages)@[language].reports@.push(report)
        } else {
            seq![report]
        }),
        result is Ok ==> final(languages)@[language].inaccurate == (old(languages)@.contains_key(
            language,
        ) && old(languages)@[language].inaccurate),
        result is Err ==> final(languages)@[language].inaccurate,
        result is Err ==> final(languages)@[language].reports@ == (if old(
            languages,
        )@.contains_key(language) {
            old(languages)@[language].reports@
        } else {
            seq![]
        }),
        final(languages)@.remove(language) == old(languages)@.remove(language),
{
    let shown = match &result {
        Ok(report) => if observed {
            Some(report.clone())
        } else {
            None
        },
        Err(_) => None,
    };
    let mut entry: Language<R> = match languages.remove(&language) {
        Some(entry) => entry,
        None => Language::new(),
    };
    let outcome = match result {
        Ok(report) => {
            entry.add_report(report);
            Ok(shown)
        },
        Err(error) => {
            entry.mark_inaccurate();
            Err(error)
        },
    };
    languages.insert(language, entry);
    assert(languages@.remove(language) =~= old(languages)@.remove(language));
    proof {
        assert(tallies(languages@) =~= with_file(
            tallies(old(languages)@),
            parsed(language, result),
        ));
        law_a_result_is_entered(old(languages)@, languages@, language, result);
    }
    outcome
}

/// What a run gathers for each language: a place if it had one or a file is of it,
/// the earlier reports followed by those of its files in their order, and the mark as
/// inaccurate if it was there or one of its files could not be read.
pub proof fn law_what_is_gathered<R>(
    all: Map<LanguageType, Tally<R>>,
    files: Seq<Parsed<R>>,
    language: LanguageType,
)
    ensures
        with_files(all, files).contains_key(language) <==> all.contains_key(language)
            || has_language(files, language),
        tally_of(with_files(all, files), language).reports == tally_of(all, language).reports
            + reports_of(files, language),
        tally_of(with_files(all, files), language).inaccurate <==> tally_of(
            all,
            language,
        ).inaccurate || has_failure(files, language),
    decreases files.len(),
{
    if files.len() == 0 {
        assert(tally_of(all, language).reports + reports_of(files, language) =~= tally_of(
            all,
            language,
        ).reports);
    } else {
        let earlier = files.drop_last();
        let last = files.last();
        law_what_is_gathered(all, earlier, language);
        assert forall|i: int| 0 <= i < earlier.len() implies earlier[i] == #[trigger] files[i] by {}
        if has_language(earlier, language) {
            let i = choose|i: int|
                0 <= i < earlier.len() && (#[trigger] earlier[i]).language == language;
            assert(files[i].language == language);
        }
        if has_failure(earlier, language) {
            let i = choose|i: int|
                0 <= i < earlier.len() && (#[trigger] earlier[i]).language == language
                    && earlier[i].report is None;
            assert(files[i].language == language && files[i].report is None);
        }
        assert(files[files.len() - 1] == last);
        assert(tally_of(with_files(all, files), language).reports =~= tally_of(
            all,
            language,
        ).reports + reports_of(files, language));
    }
}

/// A language that no file is of keeps its tally as it was, or stays without one.
pub proof fn law_other_languages_stay<R>(
    all: Map<LanguageType, Tally<R>>,
    files: Seq<Parsed<R>>,
    language: LanguageType,
)
    requires
        !has_language(files, language),
    ensures
        with_files(all, files).contains_key(language) == all.contains_key(language),
        tally_of(with_files(all, files), language) == tally_of(all, language),
    decreases files.len(),
{
    if files.len() > 0 {
        let earlier = files.drop_last();
        assert(files[files.len() - 1].language != language);
        assert forall|i: int| 0 <= i < earlier.len() implies (#[trigger] earlier[i]).language
            != language by {
            assert(earlier[i] == files[i]);
        }
        law_other_languages_stay(all, earlier, language);
    }
}

/// Where only files of counted languages come in, no other language gets a place.
pub proof fn law_only_counted_languages_appear<R>(
    config: Config,
    all: Map<LanguageType, Tally<R>>,
    files: Seq<Parsed<R>>,
    language: LanguageType,
)
    requires
        forall|i: int|
            0 <= i < files.len() ==> counts_language(config, (#[trigger] files[i]).language),
        with_files(all, files).contains_key(language),
    ensures
        all.contains_key(language) || counts_language(config, language),
{
    law_what_is_gathered(all, files, language);
}

proof fn lemma_reports_of_concatenation<R>(
    a: Seq<Parsed<R>>,
    b: Seq<Parsed<R>>,
    language: LanguageType,
)
    ensures
        reports_of(a + b, language) == reports_of(a, language) + reports_of(b, language),
    decreases b.len(),
{
    if b.len() == 0 {
        assert(a + b =~= a);
        assert(reports_of(a, language) + reports_of(b, language) =~= reports_of(a, language));
    } else {
        lemma_reports_of_concatenation(a, b.drop_last(), language);
        assert((a + b).drop_last() =~= a + b.drop_last());
        assert((a + b).last() == b.last());
        assert(reports_of(a + b, language) =~= reports_of(a, language) + reports_of(b, language));
    }
}

/// Taking a file out takes its report out, wherever it stood.
proof fn lemma_reports_without<R>(files: Seq<Parsed<R>>, i: int, language: LanguageType)
    requires
        0 <= i < files.len(),
    ensures
        reports_of(files, language).to_multiset() == reports_of(
            files.remove(i),
            language,
        ).to_multiset().add(reports_of(seq![files[i]], language).to_multiset()),
{
    let before = files.take(i);
    let file = seq![files[i]];
    let after = files.skip(i + 1);
    let x = reports_of(before, language);
    let y = reports_of(file, language);
    let z = reports_of(after, language);
    assert(files =~= before + file + after);
    assert(files.remove(i) =~= before + after);
    lemma_reports_of_concatenation(before, file, language);
    lemma_reports_of_concatenation(before + file, after, language);
    lemma_reports_of_concatenation(before, after, language);
    vstd::seq_lib::lemma_multiset_commutative(x, y);
    vstd::seq_lib::lemma_multiset_commutative(x + y, z);
    vstd::seq_lib::lemma_multiset_commutative(x, z);
    assert(reports_of(files, language).to_multiset() =~= reports_of(
        files.remove(i),
        language,
    ).to_multiset().add(y.to_multiset()));
}

proof fn lemma_reports_of_permutation<R>(
    files: Seq<Parsed<R>>,
    permuted: Seq<Parsed<R>>,
    language: LanguageType,
)
    requires
        files.to_multiset() == permuted.to_multiset(),
    ensures
        reports_of(files, language).to_multiset() == reports_of(permuted, language).to_multiset(),
    decreases files.len(),
{
    broadcast use vstd::seq_lib::group_to_multiset_ensures;

    assert(files.len() == files.to_multiset().len());
    assert(permuted.len() == permuted.to_multiset().len());
    if files.len() > 0 {
        let last = files.len() - 1;
        let file = files[last];
        assert(files.contains(file));
        assert(files.to_multiset().count(file) > 0);
        assert(permuted.contains(file));
        let i = choose|i: int| 0 <= i < permuted.len() && permuted[i] == file;
        assert(files.remove(last).to_multiset() =~= files.to_multiset().remove(file));
        assert(permuted.remove(i).to_multiset() =~= permuted.to_multiset().remove(file));
        lemma_reports_of_permutation(files.remove(last), permuted.remove(i), language);
        lemma_reports_without(files, last, language);
        lemma_reports_without(permuted, i, language);
    } else {
        assert(files =~= permuted);
    }
}

/// The order in which files come in does not matter but for the order of the reports:
/// the same languages get a place, with the same reports and the same mark.
pub proof fn law_order_does_not_matter<R>(
    all: Map<LanguageType, Tally<R>>,
    files: Seq<Parsed<R>>,
    permuted: Seq<Parsed<R>>,
    language: LanguageType,
)
    requires
        files.to_multiset() == permuted.to_multiset(),
    ensures
        with_files(all, files).contains_key(language) == with_files(all, permuted).contains_key(
            language,
        ),
        tally_of(with_files(all, files), language).inaccurate == tally_of(
            with_files(all, permuted),
            language,
        ).inaccurate,
        tally_of(with_files(all, files), language).reports.to_multiset() == tally_of(
            with_files(all, permuted),
            language,
        ).reports.to_multiset(),
{
    broadcast use vstd::seq_lib::group_to_multiset_ensures;

    law_what_is_gathered(all, files, language);
    law_what_is_gathered(all, permuted, language);
    lemma_reports_of_permutation(files, permuted, language);
    let earlier = tally_of(all, language).reports;
    vstd::seq_lib::lemma_multiset_commutative(earlier, reports_of(files, language));
    vstd::seq_lib::lemma_multiset_commutative(earlier, reports_of(permuted, language));
    assert forall|file: Parsed<R>| files.contains(file) == permuted.contains(file) by {
        assert(files.contains(file) <==> files.to_multiset().count(file) > 0);
        assert(permuted.contains(file) <==> permuted.to_multiset().count(file) > 0);
    }
    lemma_same_members(files, permuted, language);
    lemma_same_members(permuted, files, language);
}

proof fn lemma_same_members<R>(
    files: Seq<Parsed<R>>,
    others: Seq<Parsed<R>>,
    language: LanguageType,
)
    requires
        forall|file: Parsed<R>| files.contains(file) ==> others.contains(file),
    ensures
        has_language(files, language) ==> has_language(others, language),
        has_failure(files, language) ==> has_failure(others, language),
{
    assert forall|i: int| 0 <= i < files.len() implies exists|j: int|
        0 <= j < others.len() && others[j] == #[trigger] files[i] by {
        assert(files.contains(files[i]));
    }
}

proof fn lemma_shown_and_added<R>(files: Seq<Parsed<R>>, language: LanguageType, report: R)
    ensures
        shown_reports(files).to_multiset().count((language, report)) == reports_of(
            files,
            language,
        ).to_multiset().count(report),
    decreases files.len(),
{
    broadcast use vstd::seq_lib::group_to_multiset_ensures;

    if files.len() == 0 {
        assert(!shown_reports(files).contains((language, report)));
        assert(!reports_of(files, language).contains(report));
    } else {
        lemma_shown_and_added(files.drop_last(), language, report);
    }
}

/// The observer gets to see exactly what is added: each report, with its language, as
/// often as it comes to the reports of that language.
pub proof fn law_what_is_shown_is_what_is_added<R>(
    all: Map<LanguageType, Tally<R>>,
    files: Seq<Parsed<R>>,
    language: LanguageType,
    report: R,
)
    ensures
        tally_of(with_files(all, files), language).reports.to_multiset().count(report) == tally_of(
            all,
            language,
        ).reports.to_multiset().count(report) + shown_reports(files).to_multiset().count(
            (language, report),
        ),
{
    law_what_is_gathered(all, files, language);
    lemma_shown_and_added(files, language, report);
    vstd::seq_lib::lemma_multiset_commutative(
        tally_of(all, language).reports,
        reports_of(files, language),
    );
}

/// Entering the result of a file touches the language of the file and no other. A report
/// goes behind the earlier reports of that language, and a failure marks it and leaves
/// its reports as they were. Either way the language has a place afterwards.
pub proof fn law_a_result_is_entered<R, E>(
    before: Map<LanguageType, Language<R>>,
    after: Map<LanguageType, Language<R>>,
    language: LanguageType,
    result: Result<R, E>,
)
    requires
        tallies(after) == with_file(tallies(before), parsed(language, result)),
    ensures
        after.contains_key(language),
        result matches Ok(report) ==> after[language].reports@ == (if before.contains_key(language) {
            before[language].reports@.push(report)
        } else {
            seq![report]
        }),
        result is Ok ==> after[language].inaccurate == (before.contains_key(language)
            && before[language].inaccurate),
        result is Err ==> after[language].inaccurate,
        result is Err ==> after[language].reports@ == (if before.contains_key(language) {
            before[language].reports@
        } else {
            seq![]
        }),
        forall|other: LanguageType|
            other != language ==> (#[trigger] after.contains_key(other) <==> before.contains_key(
                other,
            )),
        forall|other: LanguageType|
            other != language && #[trigger] after.contains_key(other) ==> after[other].reports@
                == before[other].reports@ && after[other].inaccurate == before[other].inaccurate,
{
    let old_tallies = tallies(before);
    let new_tallies = tallies(after);
    assert(new_tallies.contains_key(language));
    assert(new_tallies[language] == after[language]@);
    if before.contains_key(language) {
        assert(old_tallies[language] == before[language]@);
    }
    if result is Ok {
        assert(after[language].reports@ =~= (if before.contains_key(language) {
            before[language].reports@.push(result->Ok_0)
        } else {
            seq![result->Ok_0]
        }));
    }
    assert forall|other: LanguageType| other != language implies (
    #[trigger] after.contains_key(other) <==> before.contains_key(other)) by {
        assert(new_tallies.contains_key(other) <==> old_tallies.contains_key(other));
    }
    assert forall|other: LanguageType|
        other != language && #[trigger] after.contains_key(other) implies after[other].reports@
        == before[other].reports@ && after[other].inaccurate == before[other].inaccurate by {
        assert(new_tallies[other] == old_tallies[other]);
        assert(new_tallies[other] == after[other]@);
        assert(old_tallies[other] == before[other]@);
    }
}

/// An observed report is shown as a copy, and without an observer nothing is shown.
pub proof fn law_observers_see_copies<R: Clone>(report: R, shown: Option<R>)
    ensures
        is_shown(true, report, shown) <==> shown is Some && cloned(report, shown->0),
        is_shown(false, report, shown) <==> shown is None,
{
}

/// The reports of a language are those of its files that could be read, in the order of
/// the files.
pub proof fn law_reports_come_from_the_files<R>(files: Seq<Parsed<R>>, language: LanguageType)
    ensures
        reports_of(files, language) == files.filter_map(
            |file: Parsed<R>|
                if file.language == language {
                    file.report
                } else {
                    None
                },
        ),
    decreases files.len(),
{
    if files.len() > 0 {
        law_reports_come_from_the_files(files.drop_last(), language);
        assert(reports_of(files, language) =~= files.filter_map(
            |file: Parsed<R>|
                if file.language == language {
                    file.report
                } else {
                    None
                },
        ));
    }
}

/// What is shown comes from the files that could be read, each with its own language, in
/// the order of the files.
pub proof fn law_what_is_shown_comes_from_the_files<R>(files: Seq<Parsed<R>>)
    ensures
        shown_reports(files) == files.filter_map(
            |file: Parsed<R>|
                match file.report {
                    Some(report) => Some((file.language, report)),
                    None => None,
                },
        ),
    decreases files.len(),
{
    if files.len() > 0 {
        law_what_is_shown_comes_from_the_files(files.drop_last());
        assert(shown_reports(files) =~= files.filter_map(
            |file: Parsed<R>|
                match file.report {
                    Some(report) => Some((file.language, report)),
                    None => None,
                },
        ));
    }
}

/// Files enter the tallies one after the other.
pub proof fn law_files_enter_one_by_one<R>(
    all: Map<LanguageType, Tally<R>>,
    files: Seq<Parsed<R>>,
    file: Parsed<R>,
)
    ensures
        with_files(all, Seq::empty()) == all,
        with_files(all, files.push(file)) == with_file(with_files(all, files), file),
{
    assert(files.push(file).drop_last() =~= files);
}

} // verus!
