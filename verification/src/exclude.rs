//! The patterns by which files and directories are left out of a walk.

use crate::glob::{
    chars_of, fold, folded, glob_matches, is_literal, law_case_does_not_matter,
    law_literal_by_characters, law_literal_matches_itself, wildcard_match,
};
use crate::path::{component_texts, lossy_text, part_texts, path_parts, path_text, texts};
use std::path::Path;
use vstd::prelude::*;
use vstd::string::StrSliceExecFns;

verus! {

/// Patterns sorted by what they are held against: those without a slash against each
/// component of a path, the others against the path as a whole.
#[verifier::ext_equal]
pub struct Exclusions {
    pub component_patterns: Seq<Seq<char>>,
    pub path_patterns: Seq<Seq<char>>,
}

/// Whether a pattern is held against whole paths.
pub open spec fn is_path_pattern(pattern: Seq<char>) -> bool {
    pattern.contains('/')
}

/// A pattern without the slashes that it begins with.
pub open spec fn without_leading_slashes(pattern: Seq<char>) -> Seq<char>
    decreases pattern.len(),
{
    if pattern.len() > 0 && pattern[0] == '/' {
        without_leading_slashes(pattern.drop_first())
    } else {
        pattern
    }
}

/// The given patterns, sorted, each kind in the order given.
pub open spec fn exclusions(patterns: Seq<Seq<char>>) -> Exclusions {
    Exclusions {
        component_patterns: patterns.filter(|p: Seq<char>| !is_path_pattern(p)),
        path_patterns: patterns.filter(|p: Seq<char>| is_path_pattern(p)).map_values(
            |p: Seq<char>| without_leading_slashes(p),
        ),
    }
}

/// Whether one of `patterns` matches `text`.
pub open spec fn some_pattern_matches(patterns: Seq<Seq<char>>, text: Seq<char>) -> bool {
    exists|i: int| 0 <= i < patterns.len() && glob_matches(#[trigger] patterns[i], text)
}

impl Exclusions {
    /// Whether one of `components`, at any place among them, matches a component pattern.
    pub open spec fn excludes_component(self, components: Seq<Seq<char>>) -> bool {
        exists|i: int|
            0 <= i < components.len() && some_pattern_matches(
                self.component_patterns,
                #[trigger] components[i],
            )
    }

    /// Whether a path with the given components and the given text is left out.
    pub open spec fn excludes(self, components: Seq<Seq<char>>, text: Seq<char>) -> bool {
        self.excludes_component(components) || some_pattern_matches(self.path_patterns, text)
    }
}

/// Whether a single pattern, by itself, leaves a path out.
pub open spec fn pattern_excludes(
    pattern: Seq<char>,
    components: Seq<Seq<char>>,
    text: Seq<char>,
) -> bool {
    if is_path_pattern(pattern) {
        glob_matches(without_leading_slashes(pattern), text)
    } else {
        exists|i: int| 0 <= i < components.len() && glob_matches(pattern, #[trigger] components[i])
    }
}

/// What the patterns are held against of a path: its components and its text.
#[verifier::ext_equal]
pub struct Place {
    pub components: Seq<Seq<char>>,
    pub text: Seq<char>,
}

/// What the patterns are held against of the given path.
pub open spec fn place_of(path: &Path) -> Place {
    Place { components: part_texts(path_parts(path)), text: path_text(path) }
}

/// Whether an entry of a directory tree is left out. `chain` holds the places of the
/// entry and of all directories above it up to the root of the walk, without the root.
/// One that is excluded hides the entry.
pub open spec fn is_left_out(e: Exclusions, chain: Seq<Place>) -> bool {
    exists|i: int|
        0 <= i < chain.len() && e.excludes((#[trigger] chain[i]).components, chain[i].text)
}

/// The texts of string slices.
pub open spec fn slice_texts(strings: Seq<&str>) -> Seq<Seq<char>> {
    strings.map_values(|s: &str| s@)
}

/// Decides which paths are left out.
pub struct ExcludeMatcher {
    component_patterns: Vec<String>,
    path_patterns: Vec<String>,
}

impl View for ExcludeMatcher {
    type V = Exclusions;

    closed spec fn view(&self) -> Exclusions {
        Exclusions {
            component_patterns: texts(self.component_patterns@),
            path_patterns: texts(self.path_patterns@),
        }
    }
}

/// Tells whether a text holds a slash.
fn has_slash(chars: &Vec<char>) -> (found: bool)
    ensures
        found == chars@.contains('/'),
{
    for i in 0..chars.len()
        invariant
            forall|j: int| 0 <= j < i ==> chars@[j] != '/',
    {
        if chars[i] == '/' {
            return true;
        }
    }
    false
}

/// Removes the slashes that a pattern begins with.
fn trim_leading_slashes(pattern: &str) -> (trimmed: String)
    ensures
        trimmed@ == without_leading_slashes(pattern@),
{
    let chars = chars_of(pattern);
    let mut from: usize = 0;
    assert(pattern@.skip(0) =~= pattern@);
    while from < chars.len() && chars[from] == '/'
        invariant
            from <= chars@.len(),
            chars@ == pattern@,
            without_leading_slashes(pattern@.skip(from as int)) == without_leading_slashes(pattern@),
        decreases chars@.len() - from,
    {
        assert(pattern@.skip(from as int).drop_first() =~= pattern@.skip(from + 1));
        from = from + 1;
    }
    pattern.substring_char(from, chars.len()).to_string()
}

/// Tells whether one of some patterns matches a text.
fn any_matches(patterns: &Vec<String>, text: &str) -> (found: bool)
    ensures
        found == some_pattern_matches(texts(patterns@), text@),
{
    for i in 0..patterns.len()
        invariant
            forall|j: int| 0 <= j < i ==> !glob_matches(#[trigger] texts(patterns@)[j], text@),
    {
        if wildcard_match(patterns[i].as_str(), text) {
            assert(glob_matches(texts(patterns@)[i as int], text@));
            return true;
        }
    }
    false
}

impl ExcludeMatcher {
    /// Sorts patterns into those for single components and those for whole paths. A
    /// pattern with a slash is for whole paths and loses the slashes it begins with.
    pub fn new(patterns: &[&str]) -> (matcher: Self)
        ensures
            matcher@ == exclusions(slice_texts(patterns@)),
    {
        let mut component_patterns: Vec<String> = Vec::new();
        let mut path_patterns: Vec<String> = Vec::new();
        let ghost all = slice_texts(patterns@);
        proof {
            reveal(Seq::filter);
            assert(texts(component_patterns@) =~= exclusions(all.take(0)).component_patterns);
            assert(texts(path_patterns@) =~= exclusions(all.take(0)).path_patterns);
        }
        for i in 0..patterns.len()
            invariant
                all == slice_texts(patterns@),
                texts(component_patterns@) == exclusions(all.take(i as int)).component_patterns,
                texts(path_patterns@) == exclusions(all.take(i as int)).path_patterns,
        {
            let pattern = patterns[i];
            let ghost before = exclusions(all.take(i as int));
            let ghost after = exclusions(all.take(i + 1));
            proof {
                reveal(Seq::filter);
                assert(all.take(i + 1).drop_last() =~= all.take(i as int));
                assert(all.take(i + 1).last() == pattern@);
            }
            if has_slash(&chars_of(pattern)) {
                path_patterns.push(trim_leading_slashes(pattern));
                assert(after.component_patterns =~= before.component_patterns);
                assert(after.path_patterns =~= before.path_patterns.push(
                    without_leading_slashes(pattern@),
                ));
                assert(texts(path_patterns@) =~= after.path_patterns);
            } else {
                component_patterns.push(pattern.to_string());
                assert(after.component_patterns =~= before.component_patterns.push(pattern@));
                assert(after.path_patterns =~= before.path_patterns);
                assert(texts(component_patterns@) =~= after.component_patterns);
            }
        }
        assert(all.take(patterns@.len() as int) =~= all);
        ExcludeMatcher { component_patterns, path_patterns }
    }

    /// Tells whether a path with the given components and the given text is left out.
    pub fn excludes(&self, components: &[String], text: &str) -> (excluded: bool)
        ensures
            excluded == self@.excludes(texts(components@), text@),
    {
        for i in 0..components.len()
            invariant
                forall|j: int|
                    0 <= j < i ==> !some_pattern_matches(
                        self@.component_patterns,
                        #[trigger] texts(components@)[j],
                    ),
        {
            if any_matches(&self.component_patterns, components[i].as_str()) {
                assert(some_pattern_matches(
                    self@.component_patterns,
                    texts(components@)[i as int],
                ));
                return true;
            }
        }
        any_matches(&self.path_patterns, text)
    }

    /// Tells whether a path is left out.
    pub fn is_excluded(&self, path: &Path) -> (excluded: bool)
        ensures
            excluded == self@.excludes(place_of(path).components, place_of(path).text),
    {
        let components = component_texts(path);
        let text = lossy_text(path);
        self.excludes(components.as_slice(), text.as_str())
    }

    /// Tells whether a path is not left out.
    pub fn keeps(&self, path: &Path) -> (kept: bool)
        ensures
            kept == !self@.excludes(place_of(path).components, place_of(path).text),
    {
        !self.is_excluded(path)
    }
}

/// Each pattern leaves paths out on its own: a path is left out exactly when one of
/// the patterns, by itself, leaves it out.
pub proof fn law_each_pattern_counts(
    patterns: Seq<Seq<char>>,
    components: Seq<Seq<char>>,
    text: Seq<char>,
)
    ensures
        exclusions(patterns).excludes(components, text) <==> exists|k: int|
            0 <= k < patterns.len() && pattern_excludes(#[trigger] patterns[k], components, text),
{
    broadcast use vstd::seq_lib::group_filter_ensures;

    let for_component = |p: Seq<char>| !is_path_pattern(p);
    let for_path = |p: Seq<char>| is_path_pattern(p);
    let e = exclusions(patterns);
    let kept_path = patterns.filter(for_path);
    assert(e.component_patterns == patterns.filter(for_component));
    if e.excludes_component(components) {
        let i = choose|i: int|
            0 <= i < components.len() && some_pattern_matches(
                e.component_patterns,
                #[trigger] components[i],
            );
        let j = choose|j: int|
            0 <= j < e.component_patterns.len() && glob_matches(
                #[trigger] e.component_patterns[j],
                components[i],
            );
        let p = e.component_patterns[j];
        assert(e.component_patterns.contains(p));
        patterns.lemma_filter_contains_rev(for_component, p);
        let k = choose|k: int| 0 <= k < patterns.len() && patterns[k] == p;
        assert(for_component(p));
        assert(pattern_excludes(patterns[k], components, text));
    }
    if some_pattern_matches(e.path_patterns, text) {
        let j = choose|j: int|
            0 <= j < e.path_patterns.len() && glob_matches(#[trigger] e.path_patterns[j], text);
        let p = kept_path[j];
        assert(kept_path.contains(p));
        patterns.lemma_filter_contains_rev(for_path, p);
        let k = choose|k: int| 0 <= k < patterns.len() && patterns[k] == p;
        assert(for_path(p));
        assert(pattern_excludes(patterns[k], components, text));
    }
    assert forall|k: int|
        0 <= k < patterns.len() && pattern_excludes(
            #[trigger] patterns[k],
            components,
            text,
        ) implies e.excludes(components, text) by {
        let p = patterns[k];
        if is_path_pattern(p) {
            assert(for_path(p));
            assert(kept_path.contains(p));
            let j = choose|j: int| 0 <= j < kept_path.len() && kept_path[j] == p;
            assert(e.path_patterns[j] == without_leading_slashes(p));
        } else {
            assert(for_component(p));
            assert(e.component_patterns.contains(p));
            let j = choose|j: int|
                0 <= j < e.component_patterns.len() && e.component_patterns[j] == p;
            let i = choose|i: int|
                0 <= i < components.len() && glob_matches(p, #[trigger] components[i]);
            assert(glob_matches(e.component_patterns[j], components[i]));
            assert(some_pattern_matches(e.component_patterns, components[i]));
        }
    }
}

/// More patterns leave out no fewer paths, and neither the order of the patterns nor
/// how often one is given matters.
pub proof fn law_more_patterns_exclude_more(
    fewer: Seq<Seq<char>>,
    more: Seq<Seq<char>>,
    components: Seq<Seq<char>>,
    text: Seq<char>,
)
    requires
        forall|p: Seq<char>| fewer.contains(p) ==> more.contains(p),
    ensures
        exclusions(fewer).excludes(components, text) ==> exclusions(more).excludes(components, text),
{
    law_each_pattern_counts(fewer, components, text);
    law_each_pattern_counts(more, components, text);
    if exclusions(fewer).excludes(components, text) {
        let k = choose|k: int|
            0 <= k < fewer.len() && pattern_excludes(#[trigger] fewer[k], components, text);
        assert(fewer.contains(fewer[k]));
        let m = choose|m: int| 0 <= m < more.len() && more[m] == fewer[k];
        assert(pattern_excludes(more[m], components, text));
    }
}

/// Without patterns no path is left out.
pub proof fn law_no_pattern_excludes_nothing(components: Seq<Seq<char>>, text: Seq<char>)
    ensures
        !exclusions(Seq::empty()).excludes(components, text),
{
    law_each_pattern_counts(Seq::empty(), components, text);
}

/// What a component pattern leaves out is left out with all that lies below it, at
/// any depth.
pub proof fn law_descendants_are_excluded(
    e: Exclusions,
    above: Seq<Seq<char>>,
    below: Seq<Seq<char>>,
    text: Seq<char>,
)
    requires
        e.excludes_component(above),
    ensures
        e.excludes(above + below, text),
{
    let i = choose|i: int|
        0 <= i < above.len() && some_pattern_matches(e.component_patterns, #[trigger] above[i]);
    assert((above + below)[i] == above[i]);
}

/// What lies below an entry that is left out is left out too, whichever kind of pattern
/// it is that excludes.
pub proof fn law_left_out_with_all_below(e: Exclusions, above: Seq<Place>, below: Seq<Place>)
    requires
        is_left_out(e, above),
    ensures
        is_left_out(e, above + below),
{
    let i = choose|i: int|
        0 <= i < above.len() && e.excludes((#[trigger] above[i]).components, above[i].text);
    assert((above + below)[i] == above[i]);
}

/// A single name as the pattern leaves out exactly the paths that have the name as a
/// component, at any level, but for ASCII case.
pub proof fn law_name_excludes_at_every_level(
    name: Seq<char>,
    components: Seq<Seq<char>>,
    text: Seq<char>,
)
    requires
        is_literal(name),
        !is_path_pattern(name),
    ensures
        exclusions(seq![name]).excludes(components, text) <==> exists|i: int|
            0 <= i < components.len() && folded(#[trigger] components[i]) == folded(name),
{
    law_each_pattern_counts(seq![name], components, text);
    assert forall|i: int| 0 <= i < components.len() implies (glob_matches(
        name,
        #[trigger] components[i],
    ) <==> folded(components[i]) == folded(name)) by {
        law_literal_matches_itself(name, components[i]);
    }
    if exclusions(seq![name]).excludes(components, text) {
        assert(pattern_excludes(name, components, text));
    }
    if exists|i: int| 0 <= i < components.len() && folded(#[trigger] components[i]) == folded(name) {
        assert(pattern_excludes(seq![name][0], components, text));
    }
}

/// A slash before a pattern for whole paths changes nothing.
pub proof fn law_leading_slash_changes_nothing(
    pattern: Seq<char>,
    components: Seq<Seq<char>>,
    text: Seq<char>,
)
    requires
        is_path_pattern(pattern),
    ensures
        pattern_excludes(seq!['/'] + pattern, components, text) == pattern_excludes(
            pattern,
            components,
            text,
        ),
{
    let longer = seq!['/'] + pattern;
    assert(longer[0] == '/');
    assert(longer.contains('/'));
    assert(longer.drop_first() =~= pattern);
}

/// Whether two lists of texts are equal but for ASCII case.
pub open spec fn same_but_for_case(a: Seq<Seq<char>>, b: Seq<Seq<char>>) -> bool {
    &&& a.len() == b.len()
    &&& forall|i: int| 0 <= i < a.len() ==> folded(#[trigger] a[i]) == folded(b[i])
}

proof fn lemma_trimming_ignores_case(p: Seq<char>, q: Seq<char>)
    requires
        folded(p) == folded(q),
    ensures
        is_path_pattern(p) ==> is_path_pattern(q),
        folded(without_leading_slashes(p)) == folded(without_leading_slashes(q)),
    decreases p.len(),
{
    assert(folded(p).len() == p.len() && folded(q).len() == q.len());
    assert forall|i: int| 0 <= i < p.len() implies fold(p[i]) == fold(q[i]) by {
        assert(folded(p)[i] == fold(p[i]) && folded(q)[i] == fold(q[i]));
    }
    if is_path_pattern(p) {
        let i = choose|i: int| 0 <= i < p.len() && p[i] == '/';
        assert(fold(p[i]) == fold(q[i]));
        assert(q[i] == '/');
    }
    if p.len() > 0 {
        assert(fold(p[0]) == fold(q[0]));
        assert(folded(p.drop_first()) =~= folded(p).drop_first());
        assert(folded(q.drop_first()) =~= folded(q).drop_first());
        lemma_trimming_ignores_case(p.drop_first(), q.drop_first());
    }
}

proof fn lemma_exclusion_carries_over(
    patterns: Seq<Seq<char>>,
    others: Seq<Seq<char>>,
    components: Seq<Seq<char>>,
    other_components: Seq<Seq<char>>,
    text: Seq<char>,
    other_text: Seq<char>,
)
    requires
        same_but_for_case(patterns, others),
        same_but_for_case(components, other_components),
        folded(text) == folded(other_text),
        exclusions(patterns).excludes(components, text),
    ensures
        exclusions(others).excludes(other_components, other_text),
{
    law_each_pattern_counts(patterns, components, text);
    law_each_pattern_counts(others, other_components, other_text);
    let k = choose|k: int|
        0 <= k < patterns.len() && pattern_excludes(#[trigger] patterns[k], components, text);
    let p = patterns[k];
    let q = others[k];
    lemma_trimming_ignores_case(p, q);
    lemma_trimming_ignores_case(q, p);
    if is_path_pattern(p) {
        law_case_does_not_matter(
            without_leading_slashes(p),
            text,
            without_leading_slashes(q),
            other_text,
        );
    } else {
        let i = choose|i: int|
            0 <= i < components.len() && glob_matches(p, #[trigger] components[i]);
        law_case_does_not_matter(p, components[i], q, other_components[i]);
        assert(glob_matches(q, other_components[i]));
    }
    assert(pattern_excludes(others[k], other_components, other_text));
}

/// ASCII case matters neither in the patterns nor in the paths.
pub proof fn law_exclusion_ignores_case(
    patterns: Seq<Seq<char>>,
    others: Seq<Seq<char>>,
    components: Seq<Seq<char>>,
    other_components: Seq<Seq<char>>,
    text: Seq<char>,
    other_text: Seq<char>,
)
    requires
        same_but_for_case(patterns, others),
        same_but_for_case(components, other_components),
        folded(text) == folded(other_text),
    ensures
        exclusions(patterns).excludes(components, text) == exclusions(others).excludes(
            other_components,
            other_text,
        ),
{
    if exclusions(patterns).excludes(components, text) {
        lemma_exclusion_carries_over(
            patterns,
            others,
            components,
            other_components,
            text,
            other_text,
        );
    }
    if exclusions(others).excludes(other_components, other_text) {
        lemma_exclusion_carries_over(
            others,
            patterns,
            other_components,
            components,
            other_text,
            text,
        );
    }
}

/// The patterns of two lists together leave out what those of either list leave out.
pub proof fn law_pattern_lists_add_up(
    a: Seq<Seq<char>>,
    b: Seq<Seq<char>>,
    components: Seq<Seq<char>>,
    text: Seq<char>,
)
    ensures
        exclusions(a + b).excludes(components, text) <==> exclusions(a).excludes(components, text)
            || exclusions(b).excludes(components, text),
{
    law_each_pattern_counts(a, components, text);
    law_each_pattern_counts(b, components, text);
    law_each_pattern_counts(a + b, components, text);
    if exclusions(a).excludes(components, text) {
        let k = choose|k: int|
            0 <= k < a.len() && pattern_excludes(#[trigger] a[k], components, text);
        assert((a + b)[k] == a[k]);
    }
    if exclusions(b).excludes(components, text) {
        let k = choose|k: int|
            0 <= k < b.len() && pattern_excludes(#[trigger] b[k], components, text);
        assert((a + b)[a.len() + k] == b[k]);
    }
    if exclusions(a + b).excludes(components, text) {
        let k = choose|k: int|
            0 <= k < (a + b).len() && pattern_excludes(#[trigger] (a + b)[k], components, text);
        if k < a.len() {
            assert(a[k] == (a + b)[k]);
        } else {
            assert(b[k - a.len()] == (a + b)[k]);
        }
    }
}

/// A pattern that holds no slash, whatever else it holds, leaves out exactly the paths
/// with a component that it matches, whatever their text.
pub proof fn law_pattern_without_slash(
    pattern: Seq<char>,
    components: Seq<Seq<char>>,
    text: Seq<char>,
)
    requires
        !pattern.contains('/'),
    ensures
        exclusions(seq![pattern]).excludes(components, text) <==> exists|i: int|
            0 <= i < components.len() && glob_matches(pattern, #[trigger] components[i]),
{
    law_each_pattern_counts(seq![pattern], components, text);
    assert(seq![pattern][0] == pattern);
    if exclusions(seq![pattern]).excludes(components, text) {
        assert(pattern_excludes(pattern, components, text));
    }
    if exists|i: int| 0 <= i < components.len() && glob_matches(pattern, #[trigger] components[i]) {
        assert(pattern_excludes(seq![pattern][0], components, text));
    }
}

proof fn lemma_slashes_are_trimmed(slashes: Seq<char>, rest: Seq<char>)
    requires
        forall|i: int| 0 <= i < slashes.len() ==> #[trigger] slashes[i] == '/',
        rest.len() > 0 ==> rest[0] != '/',
    ensures
        without_leading_slashes(slashes + rest) == rest,
    decreases slashes.len(),
{
    if slashes.len() == 0 {
        assert(slashes + rest =~= rest);
    } else {
        assert((slashes + rest)[0] == slashes[0]);
        assert((slashes + rest).drop_first() =~= slashes.drop_first() + rest);
        lemma_slashes_are_trimmed(slashes.drop_first(), rest);
    }
}

/// A pattern that holds a slash leaves out exactly the paths whose text as a whole is
/// matched by what follows the slashes it begins with, whatever their components.
pub proof fn law_pattern_with_slash(
    slashes: Seq<char>,
    rest: Seq<char>,
    components: Seq<Seq<char>>,
    text: Seq<char>,
)
    requires
        forall|i: int| 0 <= i < slashes.len() ==> #[trigger] slashes[i] == '/',
        rest.len() > 0 ==> rest[0] != '/',
        (slashes + rest).contains('/'),
    ensures
        exclusions(seq![slashes + rest]).excludes(components, text) <==> glob_matches(rest, text),
{
    let pattern = slashes + rest;
    law_each_pattern_counts(seq![pattern], components, text);
    lemma_slashes_are_trimmed(slashes, rest);
    assert(seq![pattern][0] == pattern);
    if exclusions(seq![pattern]).excludes(components, text) {
        assert(pattern_excludes(pattern, components, text));
    }
    if glob_matches(rest, text) {
        assert(pattern_excludes(seq![pattern][0], components, text));
    }
}

/// A plain name as the pattern leaves out exactly the paths that have a component with
/// the same characters, place by place, or the same ASCII letters in the other case.
pub proof fn law_name_by_characters(
    name: Seq<char>,
    components: Seq<Seq<char>>,
    text: Seq<char>,
)
    requires
        !name.contains('*'),
        !name.contains('?'),
        !name.contains('/'),
    ensures
        exclusions(seq![name]).excludes(components, text) <==> exists|k: int|
            0 <= k < components.len() && name.len() == (#[trigger] components[k]).len() && forall|
                i: int,
            |
                0 <= i < name.len() ==> (#[trigger] name[i] == components[k][i] || ('A' <= name[i]
                    && name[i] <= 'Z' && components[k][i] as int == name[i] as int + 32) || ('A'
                    <= components[k][i] && components[k][i] <= 'Z' && name[i] as int
                    == components[k][i] as int + 32)),
{
    law_pattern_without_slash(name, components, text);
    assert forall|k: int| 0 <= k < components.len() implies (glob_matches(
        name,
        #[trigger] components[k],
    ) <==> name.len() == components[k].len() && forall|i: int|
        0 <= i < name.len() ==> (#[trigger] name[i] == components[k][i] || ('A' <= name[i]
            && name[i] <= 'Z' && components[k][i] as int == name[i] as int + 32) || ('A'
            <= components[k][i] && components[k][i] <= 'Z' && name[i] as int
            == components[k][i] as int + 32))) by {
        law_literal_by_characters(name, components[k]);
    }
}

/// Every given string counts as a pattern, in its place and with all its characters.
pub proof fn law_every_string_counts(strings: Seq<&str>)
    ensures
        slice_texts(strings).len() == strings.len(),
        forall|i: int| 0 <= i < strings.len() ==> #[trigger] slice_texts(strings)[i] == strings[i]@,
{
}

/// The patterns are held against every component of a path, in its place, and against
/// the whole of its text.
pub proof fn law_the_whole_path_counts(path: &Path)
    ensures
        place_of(path).text == path_text(path),
        place_of(path).components.len() == path_parts(path).len(),
        forall|i: int|
            0 <= i < path_parts(path).len() ==> #[trigger] place_of(path).components[i]
                == path_parts(path)[i].text,
{
}

} // verus!
