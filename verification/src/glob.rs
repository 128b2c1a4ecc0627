//! Wildcard patterns: `*` stands for any run of characters, `?` for any single
//! character, and every other character for itself, whatever the case of an
//! ASCII letter.

use vstd::prelude::*;

verus! {

/// The character with an ASCII capital letter replaced by the small one.
pub open spec fn fold(c: char) -> char {
    if 'A' <= c && c <= 'Z' {
        (c as u32 + 32) as char
    } else {
        c
    }
}

/// A text with every ASCII capital letter replaced by the small one.
pub open spec fn folded(text: Seq<char>) -> Seq<char> {
    text.map_values(|c: char| fold(c))
}

/// Whether pattern character `p`, which is not `*`, stands for text character `c`.
pub open spec fn stands_for(p: char, c: char) -> bool {
    p == '?' || fold(p) == fold(c)
}

/// Whether `pattern` matches the whole of `text`, read from the left.
pub open spec fn glob_matches(pattern: Seq<char>, text: Seq<char>) -> bool
    decreases pattern.len() + text.len(),
{
    if pattern.len() == 0 {
        text.len() == 0
    } else if pattern[0] == '*' {
        ||| glob_matches(pattern.drop_first(), text)
        ||| text.len() > 0 && glob_matches(pattern, text.drop_first())
    } else {
        &&& text.len() > 0
        &&& stands_for(pattern[0], text[0])
        &&& glob_matches(pattern.drop_first(), text.drop_first())
    }
}

/// Whether no character of `pattern` is a wildcard.
pub open spec fn is_literal(pattern: Seq<char>) -> bool {
    !pattern.contains('*') && !pattern.contains('?')
}

/// Whether `cuts` lays `pattern` over `text`: pattern character `i` covers the
/// text from `cuts[i]` up to `cuts[i + 1]`.
pub open spec fn is_layout(pattern: Seq<char>, text: Seq<char>, cuts: Seq<int>) -> bool {
    &&& cuts.len() == pattern.len() + 1
    &&& cuts[0] == 0
    &&& cuts[pattern.len() as int] == text.len()
    &&& forall|i: int|
        0 <= i < pattern.len() ==> covers(#[trigger] pattern[i], text, cuts[i], cuts[i + 1])
}

/// Whether pattern character `p` may cover the text from `from` up to `to`.
pub open spec fn covers(p: char, text: Seq<char>, from: int, to: int) -> bool {
    if p == '*' {
        0 <= from <= to <= text.len()
    } else {
        0 <= from < text.len() && to == from + 1 && stands_for(p, text[from])
    }
}

/// Two patterns that match two texts match, put together, the texts put together.
pub proof fn law_concatenation_matches(p: Seq<char>, q: Seq<char>, a: Seq<char>, b: Seq<char>)
    requires
        glob_matches(p, a),
        glob_matches(q, b),
    ensures
        glob_matches(p + q, a + b),
    decreases p.len() + a.len(),
{
    let t = a + b;
    if p.len() == 0 {
        assert(p + q =~= q);
        assert(t =~= b);
    } else {
        assert((p + q).drop_first() =~= p.drop_first() + q);
        if a.len() > 0 {
            assert(t.drop_first() =~= a.drop_first() + b);
        }
        if p[0] == '*' {
            if glob_matches(p.drop_first(), a) {
                law_concatenation_matches(p.drop_first(), q, a, b);
            } else {
                law_concatenation_matches(p, q, a.drop_first(), b);
            }
        } else {
            law_concatenation_matches(p.drop_first(), q, a.drop_first(), b);
        }
    }
}

/// A text that two patterns put together match falls into a part that the first
/// matches and a part that the second matches.
pub proof fn law_concatenation_splits(p: Seq<char>, q: Seq<char>, t: Seq<char>) -> (at: int)
    requires
        glob_matches(p + q, t),
    ensures
        0 <= at <= t.len(),
        glob_matches(p, t.take(at)),
        glob_matches(q, t.skip(at)),
    decreases p.len() + t.len(),
{
    if p.len() == 0 {
        assert(p + q =~= q);
        assert(t.skip(0) =~= t);
        0
    } else {
        assert((p + q).drop_first() =~= p.drop_first() + q);
        if p[0] == '*' && glob_matches(p.drop_first() + q, t) {
            law_concatenation_splits(p.drop_first(), q, t)
        } else {
            let at = if p[0] == '*' {
                law_concatenation_splits(p, q, t.drop_first())
            } else {
                law_concatenation_splits(p.drop_first(), q, t.drop_first())
            };
            assert(t.take(at + 1).drop_first() =~= t.drop_first().take(at));
            assert(t.skip(at + 1) =~= t.drop_first().skip(at));
            at + 1
        }
    }
}

/// The pattern `*` matches every text.
pub proof fn law_star_matches_everything(t: Seq<char>)
    ensures
        glob_matches(seq!['*'], t),
    decreases t.len(),
{
    if t.len() == 0 {
        assert(glob_matches(seq!['*'].drop_first(), t));
    } else {
        law_star_matches_everything(t.drop_first());
    }
}

/// A pattern of one character other than `*` matches the texts of one character
/// that it stands for.
proof fn lemma_single(c: char, t: Seq<char>)
    requires
        c != '*',
    ensures
        glob_matches(seq![c], t) <==> t.len() == 1 && stands_for(c, t[0]),
{
    assert(seq![c].drop_first().len() == 0);
    if t.len() > 0 {
        assert(glob_matches(seq![c].drop_first(), t.drop_first()) <==> t.drop_first().len() == 0);
    }
}

/// A pattern that ends in `*` matches the texts that begin with a text which the
/// pattern without that `*` matches.
pub proof fn law_trailing_star(p: Seq<char>, t: Seq<char>)
    ensures
        glob_matches(p.push('*'), t) <==> exists|at: int|
            0 <= at <= t.len() && glob_matches(p, #[trigger] t.take(at)),
{
    assert(p.push('*') =~= p + seq!['*']);
    if glob_matches(p.push('*'), t) {
        let at = law_concatenation_splits(p, seq!['*'], t);
        assert(glob_matches(p, t.take(at)));
    }
    if exists|at: int| 0 <= at <= t.len() && glob_matches(p, #[trigger] t.take(at)) {
        let at = choose|at: int| 0 <= at <= t.len() && glob_matches(p, #[trigger] t.take(at));
        law_star_matches_everything(t.skip(at));
        law_concatenation_matches(p, seq!['*'], t.take(at), t.skip(at));
        assert(t.take(at) + t.skip(at) =~= t);
    }
}

/// A pattern that begins with `*` matches the texts that end in a text which the
/// pattern without that `*` matches.
pub proof fn law_leading_star(p: Seq<char>, t: Seq<char>)
    ensures
        glob_matches(seq!['*'] + p, t) <==> exists|at: int|
            0 <= at <= t.len() && glob_matches(p, #[trigger] t.skip(at)),
{
    if glob_matches(seq!['*'] + p, t) {
        let at = law_concatenation_splits(seq!['*'], p, t);
        assert(glob_matches(p, t.skip(at)));
    }
    if exists|at: int| 0 <= at <= t.len() && glob_matches(p, #[trigger] t.skip(at)) {
        let at = choose|at: int| 0 <= at <= t.len() && glob_matches(p, #[trigger] t.skip(at));
        law_star_matches_everything(t.take(at));
        law_concatenation_matches(seq!['*'], p, t.take(at), t.skip(at));
        assert(t.take(at) + t.skip(at) =~= t);
    }
}

/// A pattern's last character, other than `*`, takes the text's last character.
proof fn lemma_last_single(p: Seq<char>, c: char, t: Seq<char>)
    requires
        c != '*',
    ensures
        glob_matches(p.push(c), t) <==> t.len() > 0 && stands_for(c, t.last()) && glob_matches(
            p,
            t.drop_last(),
        ),
{
    assert(p.push(c) =~= p + seq![c]);
    if glob_matches(p.push(c), t) {
        let at = law_concatenation_splits(p, seq![c], t);
        lemma_single(c, t.skip(at));
        assert(t.skip(at)[0] == t[at]);
        assert(t.take(at) =~= t.drop_last());
    }
    if t.len() > 0 && stands_for(c, t.last()) && glob_matches(p, t.drop_last()) {
        lemma_single(c, seq![t.last()]);
        law_concatenation_matches(p, seq![c], t.drop_last(), seq![t.last()]);
        assert(t.drop_last() + seq![t.last()] =~= t);
    }
}

/// A pattern's last `*` takes nothing, or at least the text's last character.
proof fn lemma_last_star(p: Seq<char>, t: Seq<char>)
    ensures
        glob_matches(p.push('*'), t) <==> glob_matches(p, t) || (t.len() > 0 && glob_matches(
            p.push('*'),
            t.drop_last(),
        )),
{
    law_trailing_star(p, t);
    if t.len() > 0 {
        law_trailing_star(p, t.drop_last());
    }
    assert(t.take(t.len() as int) =~= t);
    assert forall|at: int| 0 <= at < t.len() implies #[trigger] t.take(at)
        =~= t.drop_last().take(at) by {}
    if glob_matches(p.push('*'), t) {
        let at = choose|at: int| 0 <= at <= t.len() && glob_matches(p, #[trigger] t.take(at));
        if at < t.len() {
            assert(glob_matches(p, t.drop_last().take(at)));
        }
    }
    if t.len() > 0 && glob_matches(p.push('*'), t.drop_last()) {
        let at = choose|at: int|
            0 <= at <= t.drop_last().len() && glob_matches(p, #[trigger] t.drop_last().take(at));
        assert(glob_matches(p, t.take(at)));
    }
    if glob_matches(p, t) {
        assert(glob_matches(p, t.take(t.len() as int)));
    }
}

/// A pattern matches a text exactly when its characters can be laid over the text
/// from end to end, each over what it may cover.
pub proof fn law_matches_by_layout(pattern: Seq<char>, text: Seq<char>)
    ensures
        glob_matches(pattern, text) <==> exists|cuts: Seq<int>| is_layout(pattern, text, cuts),
{
    if glob_matches(pattern, text) {
        let cuts = lemma_layout_of_match(pattern, text);
        assert(is_layout(pattern, text, cuts));
    }
    if exists|cuts: Seq<int>| is_layout(pattern, text, cuts) {
        let cuts = choose|cuts: Seq<int>| is_layout(pattern, text, cuts);
        lemma_match_of_layout(pattern, text, cuts);
    }
}

proof fn lemma_layout_of_match(pattern: Seq<char>, text: Seq<char>) -> (cuts: Seq<int>)
    requires
        glob_matches(pattern, text),
    ensures
        is_layout(pattern, text, cuts),
    decreases pattern.len(),
{
    if pattern.len() == 0 {
        seq![0int]
    } else {
        let p = pattern.drop_last();
        assert(pattern =~= p.push(pattern.last()));
        if pattern.last() == '*' {
            law_trailing_star(p, text);
            let at = choose|at: int|
                0 <= at <= text.len() && glob_matches(p, #[trigger] text.take(at));
            let before = lemma_layout_of_match(p, text.take(at));
            let cuts = before.push(text.len() as int);
            assert forall|i: int| 0 <= i < pattern.len() implies covers(
                #[trigger] pattern[i],
                text,
                cuts[i],
                cuts[i + 1],
            ) by {
                if i < p.len() {
                    assert(covers(p[i], text.take(at), before[i], before[i + 1]));
                }
            }
            cuts
        } else {
            lemma_last_single(p, pattern.last(), text);
            let before = lemma_layout_of_match(p, text.drop_last());
            let cuts = before.push(text.len() as int);
            assert forall|i: int| 0 <= i < pattern.len() implies covers(
                #[trigger] pattern[i],
                text,
                cuts[i],
                cuts[i + 1],
            ) by {
                if i < p.len() {
                    assert(covers(p[i], text.drop_last(), before[i], before[i + 1]));
                }
            }
            cuts
        }
    }
}

/// A layout's cuts lie within the text and never go back.
proof fn lemma_cuts_ascend(pattern: Seq<char>, text: Seq<char>, cuts: Seq<int>, i: int)
    requires
        is_layout(pattern, text, cuts),
        0 <= i <= pattern.len(),
    ensures
        forall|j: int| 0 <= j <= i ==> 0 <= #[trigger] cuts[j] <= cuts[i],
    decreases i,
{
    if i > 0 {
        lemma_cuts_ascend(pattern, text, cuts, i - 1);
        assert(covers(pattern[i - 1], text, cuts[i - 1], cuts[i - 1 + 1]));
    }
}

proof fn lemma_match_of_layout(pattern: Seq<char>, text: Seq<char>, cuts: Seq<int>)
    requires
        is_layout(pattern, text, cuts),
    ensures
        glob_matches(pattern, text),
    decreases pattern.len(),
{
    if pattern.len() > 0 {
        let last = pattern.len() - 1;
        let p = pattern.drop_last();
        let at = cuts[last];
        assert(pattern =~= p.push(pattern.last()));
        assert(covers(pattern[last], text, cuts[last], cuts[last + 1]));
        let before = cuts.drop_last();
        lemma_cuts_ascend(pattern, text, cuts, last);
        assert forall|i: int| 0 <= i < p.len() implies covers(
            #[trigger] p[i],
            text.take(at),
            before[i],
            before[i + 1],
        ) by {
            assert(covers(pattern[i], text, cuts[i], cuts[i + 1]));
            assert(0 <= cuts[i + 1] <= cuts[last]);
        }
        lemma_match_of_layout(p, text.take(at), before);
        if pattern.last() == '*' {
            law_trailing_star(p, text);
        } else {
            assert(text.take(at) =~= text.drop_last());
            lemma_last_single(p, pattern.last(), text);
        }
    }
}

/// ASCII case does not matter, in the pattern or in the text.
pub proof fn law_case_does_not_matter(p: Seq<char>, t: Seq<char>, p2: Seq<char>, t2: Seq<char>)
    requires
        folded(p) == folded(p2),
        folded(t) == folded(t2),
    ensures
        glob_matches(p, t) == glob_matches(p2, t2),
    decreases p.len() + t.len(),
{
    assert(folded(p).len() == p.len() && folded(p2).len() == p2.len());
    assert(folded(t).len() == t.len() && folded(t2).len() == t2.len());
    if p.len() > 0 {
        assert(folded(p)[0] == fold(p[0]) && folded(p2)[0] == fold(p2[0]));
        assert(folded(p.drop_first()) =~= folded(p).drop_first());
        assert(folded(p2.drop_first()) =~= folded(p2).drop_first());
        if t.len() > 0 {
            assert(folded(t)[0] == fold(t[0]) && folded(t2)[0] == fold(t2[0]));
            assert(folded(t.drop_first()) =~= folded(t).drop_first());
            assert(folded(t2.drop_first()) =~= folded(t2).drop_first());
            law_case_does_not_matter(p.drop_first(), t.drop_first(), p2.drop_first(), t2.drop_first());
            law_case_does_not_matter(p, t.drop_first(), p2, t2.drop_first());
        }
        law_case_does_not_matter(p.drop_first(), t, p2.drop_first(), t2);
    }
}

/// A pattern without `*` matches only texts of its own length, and those in which
/// each of its characters stands for the one in the same place.
pub proof fn law_without_star(p: Seq<char>, t: Seq<char>)
    requires
        !p.contains('*'),
    ensures
        glob_matches(p, t) <==> p.len() == t.len() && forall|i: int|
            0 <= i < p.len() ==> stands_for(#[trigger] p[i], t[i]),
    decreases p.len(),
{
    if p.len() > 0 {
        let rest = p.drop_first();
        assert(p[0] != '*');
        assert forall|i: int| 0 <= i < rest.len() implies #[trigger] rest[i] != '*' by {
            assert(rest[i] == p[i + 1]);
        }
        if t.len() > 0 {
            law_without_star(rest, t.drop_first());
            if glob_matches(p, t) {
                assert forall|i: int| 0 <= i < p.len() implies stands_for(#[trigger] p[i], t[i]) by {
                    if i > 0 {
                        assert(stands_for(rest[i - 1], t.drop_first()[i - 1]));
                    }
                }
            }
            if p.len() == t.len() && forall|i: int|
                0 <= i < p.len() ==> stands_for(#[trigger] p[i], t[i]) {
                assert forall|i: int| 0 <= i < rest.len() implies stands_for(
                    #[trigger] rest[i],
                    t.drop_first()[i],
                ) by {
                    assert(stands_for(p[i + 1], t[i + 1]));
                }
                assert(stands_for(p[0], t[0]));
            }
        }
    }
}

/// A pattern without wildcards matches exactly the texts that equal it but for ASCII case.
pub proof fn law_literal_matches_itself(p: Seq<char>, t: Seq<char>)
    requires
        is_literal(p),
    ensures
        glob_matches(p, t) <==> folded(p) == folded(t),
{
    law_without_star(p, t);
    assert(folded(p).len() == p.len() && folded(t).len() == t.len());
    if glob_matches(p, t) {
        assert forall|i: int| 0 <= i < p.len() implies folded(p)[i] == folded(t)[i] by {
            assert(p[i] != '?');
            assert(stands_for(p[i], t[i]));
        }
        assert(folded(p) =~= folded(t));
    }
    if folded(p) == folded(t) {
        assert forall|i: int| 0 <= i < p.len() implies stands_for(#[trigger] p[i], t[i]) by {
            assert(folded(p)[i] == fold(p[i]) && folded(t)[i] == fold(t[i]));
        }
    }
}

/// A literal with `*` behind it matches exactly the texts that begin with the
/// literal, but for ASCII case.
pub proof fn law_literal_prefix(p: Seq<char>, t: Seq<char>)
    requires
        is_literal(p),
    ensures
        glob_matches(p.push('*'), t) <==> p.len() <= t.len() && folded(p) == folded(
            t.take(p.len() as int),
        ),
{
    law_trailing_star(p, t);
    if glob_matches(p.push('*'), t) {
        let at = choose|at: int| 0 <= at <= t.len() && glob_matches(p, #[trigger] t.take(at));
        law_without_star(p, t.take(at));
        law_literal_matches_itself(p, t.take(at));
    }
    if p.len() <= t.len() {
        law_literal_matches_itself(p, t.take(p.len() as int));
    }
}

/// A literal with `*` before it matches exactly the texts that end in the literal,
/// but for ASCII case.
pub proof fn law_literal_suffix(p: Seq<char>, t: Seq<char>)
    requires
        is_literal(p),
    ensures
        glob_matches(seq!['*'] + p, t) <==> p.len() <= t.len() && folded(p) == folded(
            t.skip(t.len() - p.len()),
        ),
{
    law_leading_star(p, t);
    if glob_matches(seq!['*'] + p, t) {
        let at = choose|at: int| 0 <= at <= t.len() && glob_matches(p, #[trigger] t.skip(at));
        law_without_star(p, t.skip(at));
        law_literal_matches_itself(p, t.skip(at));
    }
    if p.len() <= t.len() {
        law_literal_matches_itself(p, t.skip(t.len() - p.len()));
    }
}

/// The empty pattern matches the empty text and no other.
pub proof fn law_empty_pattern(t: Seq<char>)
    ensures
        glob_matches(Seq::empty(), t) <==> t.len() == 0,
{
}

/// `?` matches every text of one character, whichever it is, and no other text.
pub proof fn law_question_mark(t: Seq<char>)
    ensures
        glob_matches(seq!['?'], t) <==> t.len() == 1,
{
    lemma_single('?', t);
}

/// A run of `?` matches exactly the texts of its own length.
pub proof fn law_question_marks(marks: Seq<char>, t: Seq<char>)
    requires
        forall|i: int| 0 <= i < marks.len() ==> #[trigger] marks[i] == '?',
    ensures
        glob_matches(marks, t) <==> marks.len() == t.len(),
{
    law_without_star(marks, t);
}

/// A character that is no wildcard matches itself and, if it is an ASCII letter, the
/// same letter in the other case, and nothing else.
pub proof fn law_plain_character(p: char, t: Seq<char>)
    requires
        p != '*',
        p != '?',
    ensures
        glob_matches(seq![p], t) <==> t.len() == 1 && (p == t[0] || ('A' <= p && p <= 'Z'
            && t[0] as int == p as int + 32) || ('A' <= t[0] && t[0] <= 'Z' && p as int == t[0] as int
            + 32)),
{
    lemma_single(p, t);
}

/// A pattern put together from two matches exactly the texts that fall into one which
/// the first matches and one which the second matches.
pub proof fn law_concatenation(p: Seq<char>, q: Seq<char>, t: Seq<char>)
    ensures
        glob_matches(p + q, t) <==> exists|at: int|
            0 <= at <= t.len() && glob_matches(p, #[trigger] t.take(at)) && glob_matches(
                q,
                t.skip(at),
            ),
{
    if glob_matches(p + q, t) {
        let at = law_concatenation_splits(p, q, t);
        assert(glob_matches(p, t.take(at)) && glob_matches(q, t.skip(at)));
    }
    if exists|at: int|
        0 <= at <= t.len() && glob_matches(p, #[trigger] t.take(at)) && glob_matches(q, t.skip(at)) {
        let at = choose|at: int|
            0 <= at <= t.len() && glob_matches(p, #[trigger] t.take(at)) && glob_matches(
                q,
                t.skip(at),
            );
        law_concatenation_matches(p, q, t.take(at), t.skip(at));
        assert(t.take(at) + t.skip(at) =~= t);
    }
}

/// A pattern without wildcards matches exactly the texts of its length that hold, place
/// by place, the same character or the same ASCII letter in the other case.
pub proof fn law_literal_by_characters(p: Seq<char>, t: Seq<char>)
    requires
        !p.contains('*'),
        !p.contains('?'),
    ensures
        glob_matches(p, t) <==> p.len() == t.len() && forall|i: int|
            0 <= i < p.len() ==> (#[trigger] p[i] == t[i] || ('A' <= p[i] && p[i] <= 'Z'
                && t[i] as int == p[i] as int + 32) || ('A' <= t[i] && t[i] <= 'Z' && p[i] as int
                == t[i] as int + 32)),
{
    law_without_star(p, t);
    assert forall|i: int| 0 <= i < p.len() && p.len() == t.len() implies (stands_for(
        #[trigger] p[i],
        t[i],
    ) <==> (p[i] == t[i] || ('A' <= p[i] && p[i] <= 'Z' && t[i] as int == p[i] as int + 32) || (
    'A' <= t[i] && t[i] <= 'Z' && p[i] as int == t[i] as int + 32))) by {
        assert(p[i] != '?');
    }
}

/// The characters of a string, one by one.
pub(crate) fn chars_of(text: &str) -> (chars: Vec<char>)
    ensures
        chars@ == text@,
{
    let mut chars: Vec<char> = Vec::new();
    for c in rest: text.chars()
        invariant
            rest.seq() == text@,
            chars@ == text@.take(rest.index() as int),
    {
        chars.push(c);
    }
    chars
}

/// Whether pattern character `p`, which is not `*`, stands for text character `c`.
fn accepts(p: char, c: char) -> (accepted: bool)
    ensures
        accepted == stands_for(p, c),
{
    p == '?' || folded_code(p) == folded_code(c)
}

/// The code point of a character's folded form.
fn folded_code(c: char) -> (code: u32)
    ensures
        code == fold(c) as u32,
{
    let code: u32 = c as u32;
    if 'A' <= c && c <= 'Z' {
        code + 32
    } else {
        code
    }
}

/// Tells whether a pattern matches the whole of a text. `*` stands for any run of
/// characters, also for none, `?` for any one character, and every other character
/// for itself, whatever the case of an ASCII letter.
pub fn wildcard_match(pattern: &str, text: &str) -> (matched: bool)
    ensures
        matched == glob_matches(pattern@, text@),
{
    let p = chars_of(pattern);
    let t = chars_of(text);
    // After `i` rounds, `none` tells whether the first `i` pattern characters match
    // the empty text, and `row[j]` whether they match the first `j + 1` characters.
    let mut none: bool = true;
    let mut row: Vec<bool> = Vec::new();
    for j in 0..t.len()
        invariant
            row@.len() == j,
            j <= t@.len(),
            forall|k: int| 0 <= k < j ==> #[trigger] row@[k] == false,
    {
        row.push(false);
    }
    proof {
        assert(p@.take(0).len() == 0);
        assert(glob_matches(p@.take(0), t@.take(0)));
        assert forall|j: int| 0 <= j < t@.len() implies #[trigger] row@[j] == glob_matches(
            p@.take(0),
            t@.take(j + 1),
        ) by {}
    }
    for i in 0..p.len()
        invariant
            p@ == pattern@,
            t@ == text@,
            row@.len() == t@.len(),
            none == glob_matches(p@.take(i as int), t@.take(0)),
            forall|j: int|
                0 <= j < t@.len() ==> #[trigger] row@[j] == glob_matches(
                    p@.take(i as int),
                    t@.take(j + 1),
                ),
    {
        let c = p[i];
        let ghost before = p@.take(i as int);
        let ghost after = p@.take(i + 1);
        proof {
            assert(after =~= before.push(c));
            if c == '*' {
                lemma_last_star(before, t@.take(0));
            } else {
                lemma_last_single(before, c, t@.take(0));
            }
        }
        let none_after: bool = c == '*' && none;
        let mut row_after: Vec<bool> = Vec::new();
        for j in 0..t.len()
            invariant
                i < p@.len(),
                c == p@[i as int],
                before == p@.take(i as int),
                after == before.push(c),
                row@.len() == t@.len(),
                row_after@.len() == j,
                none == glob_matches(before, t@.take(0)),
                none_after == glob_matches(after, t@.take(0)),
                forall|k: int|
                    0 <= k < t@.len() ==> #[trigger] row@[k] == glob_matches(before, t@.take(k + 1)),
                forall|k: int|
                    0 <= k < j ==> #[trigger] row_after@[k] == glob_matches(after, t@.take(k + 1)),
        {
            let ghost prefix = t@.take(j + 1);
            proof {
                assert(prefix.drop_last() =~= t@.take(j as int));
                assert(prefix.last() == t@[j as int]);
                if c == '*' {
                    lemma_last_star(before, prefix);
                } else {
                    lemma_last_single(before, c, prefix);
                }
            }
            let matched: bool = if c == '*' {
                row[j] || if j == 0 { none_after } else { row_after[j - 1] }
            } else if accepts(c, t[j]) {
                if j == 0 { none } else { row[j - 1] }
            } else {
                false
            };
            row_after.push(matched);
        }
        none = none_after;
        row = row_after;
    }
    assert(p@.take(p@.len() as int) =~= pattern@);
    assert(t@.take(t@.len() as int) =~= text@);
    if t.len() == 0 {
        none
    } else {
        row[t.len() - 1]
    }
}

} // verus!
