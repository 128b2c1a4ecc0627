//! What the library reads of a file system path: its components and its text.

use std::path::{Components, Path};
use vstd::prelude::*;

verus! {

/// A file system path of the standard library, opaque to the verifier.
#[verifier::external_type_specification]
#[verifier::external_body]
pub struct ExPath(std::path::Path);

/// An owned file system path of the standard library, opaque to the verifier.
#[verifier::external_type_specification]
#[verifier::external_body]
pub struct ExPathBuf(std::path::PathBuf);

/// The standard library's iterator over the components of a path, opaque to the
/// verifier.
#[verifier::external_type_specification]
#[verifier::external_body]
pub struct ExComponents<'a>(std::path::Components<'a>);

/// One component of a path: its text, with U+FFFD for what is not Unicode, and
/// whether it is a plain name, as opposed to a prefix, the root, `.` or `..`.
pub struct PathPart {
    pub normal: bool,
    pub text: Seq<char>,
}

/// The components of a path, from the first to the last.
pub uninterp spec fn path_parts(path: &Path) -> Seq<PathPart>;

/// The text of a path as a whole, with U+FFFD for what is not Unicode.
pub uninterp spec fn path_text(path: &Path) -> Seq<char>;

/// The components that an iterator has not handed out yet.
pub uninterp spec fn parts_left(rest: Components<'_>) -> Seq<PathPart>;

/// The text of `str::to_lowercase`.
pub uninterp spec fn lowercase(text: Seq<char>) -> Seq<char>;

/// The texts of some components.
pub open spec fn part_texts(parts: Seq<PathPart>) -> Seq<Seq<char>> {
    parts.map_values(|part: PathPart| part.text)
}

/// The file name of a path with the given components: the last one, where that is
/// a plain name.
pub open spec fn file_name(parts: Seq<PathPart>) -> Option<Seq<char>> {
    if parts.len() > 0 && parts.last().normal {
        Some(parts.last().text)
    } else {
        None
    }
}

/// The place of the last dot of a name, or -1 where it has none.
pub open spec fn last_dot(name: Seq<char>) -> int
    decreases name.len(),
{
    if name.len() == 0 {
        -1
    } else if name.last() == '.' {
        name.len() - 1
    } else {
        last_dot(name.drop_last())
    }
}

/// The part of a file name behind its last dot. A name without a dot has none, and
/// neither has a name whose last dot comes first.
pub open spec fn extension(name: Seq<char>) -> Option<Seq<char>> {
    if last_dot(name) > 0 {
        Some(name.skip(last_dot(name) + 1))
    } else {
        None
    }
}

/// The extension of the file name, where there is a file name and it has one.
pub open spec fn file_extension(parts: Seq<PathPart>) -> Option<Seq<char>> {
    match file_name(parts) {
        Some(name) => extension(name),
        None => None,
    }
}

/// The texts of strings.
pub open spec fn texts(strings: Seq<String>) -> Seq<Seq<char>> {
    strings.map_values(|s: String| s@)
}

/// A lower-case copy of a text, where there is one.
pub open spec fn lowercase_of(text: Option<Seq<char>>) -> Option<Seq<char>> {
    match text {
        Some(text) => Some(lowercase(text)),
        None => None,
    }
}

/// The text of a string, where there is one.
pub open spec fn text_of(string: Option<String>) -> Option<Seq<char>> {
    match string {
        Some(string) => Some(string@),
        None => None,
    }
}

/// `Path::components`: the iterator that it returns has all components of the path
/// still to hand out.
#[verifier::external_body]
fn components(path: &Path) -> (rest: Components<'_>)
    ensures
        parts_left(rest) == path_parts(path),
{
    path.components()
}

/// `Components::next`: hands out the first component that is left, as its lossy
/// text, or nothing where none is left.
#[verifier::external_body]
fn next_part(rest: &mut Components<'_>) -> (part: Option<String>)
    ensures
        parts_left(*old(rest)).len() == 0 ==> part is None && parts_left(*final(rest)).len() == 0,
        parts_left(*old(rest)).len() > 0 ==> part is Some && part->0@ == parts_left(
            *old(rest),
        )[0].text && parts_left(*final(rest)) == parts_left(*old(rest)).drop_first(),
{
    rest.next().map(|part| part.as_os_str().to_string_lossy().into_owned())
}

/// `Path::to_string_lossy`: the text of the path as a whole.
#[verifier::external_body]
pub(crate) fn lossy_text(path: &Path) -> (text: String)
    ensures
        text@ == path_text(path),
{
    path.to_string_lossy().into_owned()
}

/// `Path::file_name`: the lossy text of the last component where that is a plain
/// name, else nothing.
#[verifier::external_body]
fn lossy_file_name(path: &Path) -> (name: Option<String>)
    ensures
        text_of(name) == file_name(path_parts(path)),
{
    path.file_name().map(|name| name.to_string_lossy().into_owned())
}

/// `Path::extension`: the lossy text of what stands behind the last dot of the file
/// name, unless that dot comes first or there is none.
#[verifier::external_body]
fn lossy_extension(path: &Path) -> (found: Option<String>)
    ensures
        text_of(found) == file_extension(path_parts(path)),
{
    path.extension().map(|found| found.to_string_lossy().into_owned())
}

/// `str::to_lowercase`: the text that `lowercase` names, which depends on the
/// characters of the string alone.
pub assume_specification[ str::to_lowercase ](text: &str) -> (lower: String)
    ensures
        lower@ == lowercase(text@),
;

/// The texts of a path's components, from the first to the last.
pub fn component_texts(path: &Path) -> (found: Vec<String>)
    ensures
        texts(found@) == part_texts(path_parts(path)),
        found@.len() == path_parts(path).len(),
        forall|i: int|
            0 <= i < found@.len() ==> (#[trigger] found@[i])@ == path_parts(path)[i].text,
{
    let mut rest = components(path);
    let mut found: Vec<String> = Vec::new();
    loop
        invariant
            found@.len() + parts_left(rest).len() == path_parts(path).len(),
            parts_left(rest) == path_parts(path).skip(found@.len() as int),
            texts(found@) == part_texts(path_parts(path)).take(found@.len() as int),
        ensures
            texts(found@) == part_texts(path_parts(path)),
        decreases parts_left(rest).len(),
    {
        match next_part(&mut rest) {
            Some(part) => {
                found.push(part);
            },
            None => {
                break;
            },
        }
    }
    proof {
        law_strings_by_place(found@);
        law_components_by_place(path_parts(path));
        assert forall|i: int| 0 <= i < found@.len() implies (#[trigger] found@[i])@ == path_parts(
            path,
        )[i].text by {
            assert(texts(found@)[i] == part_texts(path_parts(path))[i]);
        }
    }
    found
}

/// The extension of a path's file name, in lower case.
pub fn get_extension(path: &Path) -> (found: Option<String>)
    ensures
        text_of(found) == lowercase_of(file_extension(path_parts(path))),
        found is Some <==> file_extension(path_parts(path)) is Some,
        found is Some ==> found->0@ == lowercase(file_extension(path_parts(path))->0),
{
    match lossy_extension(path) {
        Some(found) => Some(found.as_str().to_lowercase()),
        None => None,
    }
}

/// The file name of a path, in lower case.
pub fn get_filename(path: &Path) -> (name: Option<String>)
    ensures
        text_of(name) == lowercase_of(file_name(path_parts(path))),
        name is Some <==> file_name(path_parts(path)) is Some,
        name is Some ==> name->0@ == lowercase(file_name(path_parts(path))->0),
{
    match lossy_file_name(path) {
        Some(name) => Some(name.as_str().to_lowercase()),
        None => None,
    }
}

proof fn lemma_last_dot(name: Seq<char>)
    ensures
        -1 <= last_dot(name) < name.len(),
        last_dot(name) >= 0 ==> name[last_dot(name)] == '.',
        forall|i: int| last_dot(name) < i < name.len() ==> #[trigger] name[i] != '.',
    decreases name.len(),
{
    if name.len() > 0 && name.last() != '.' {
        lemma_last_dot(name.drop_last());
        assert forall|i: int| last_dot(name) < i < name.len() implies #[trigger] name[i] != '.' by {
            if i < name.len() - 1 {
                assert(name.drop_last()[i] != '.');
            }
        }
    }
}

/// Behind a stem that is not empty and a dot, a text without dots is the extension.
pub proof fn law_extension_is_found(stem: Seq<char>, ext: Seq<char>)
    requires
        stem.len() > 0,
        !ext.contains('.'),
    ensures
        extension(stem + seq!['.'] + ext) == Some(ext),
{
    let name = stem + seq!['.'] + ext;
    lemma_last_dot(name);
    assert(name[stem.len() as int] == '.');
    if last_dot(name) > stem.len() {
        assert(ext[last_dot(name) - stem.len() - 1] == '.');
    }
    assert(name.skip(stem.len() as int + 1) =~= ext);
}

/// A name that has an extension consists of a stem that is not empty, a dot and the
/// extension, which holds no dot.
pub proof fn law_extension_is_a_tail(name: Seq<char>)
    requires
        extension(name) is Some,
    ensures
        name == name.take(last_dot(name)) + seq!['.'] + extension(name)->0,
        0 < last_dot(name) < name.len(),
        !(extension(name)->0).contains('.'),
{
    lemma_last_dot(name);
    let ext = extension(name)->0;
    assert(name =~= name.take(last_dot(name)) + seq!['.'] + ext);
    assert forall|i: int| 0 <= i < ext.len() implies ext[i] != '.' by {
        assert(ext[i] == name[last_dot(name) + 1 + i]);
    }
}

/// The texts of strings are those of each string in its place.
pub proof fn law_strings_by_place(strings: Seq<String>)
    ensures
        texts(strings).len() == strings.len(),
        forall|i: int| 0 <= i < strings.len() ==> #[trigger] texts(strings)[i] == strings[i]@,
{
}

/// The texts of components are those of each component in its place.
pub proof fn law_components_by_place(parts: Seq<PathPart>)
    ensures
        part_texts(parts).len() == parts.len(),
        forall|i: int| 0 <= i < parts.len() ==> #[trigger] part_texts(parts)[i] == parts[i].text,
{
}

/// A path that ends in a plain name has that name, whatever comes before it and
/// whatever the name holds. A path that ends in anything else, or has no components,
/// has no file name.
pub proof fn law_file_name_is_the_last_plain_name(before: Seq<PathPart>, last: PathPart)
    ensures
        last.normal ==> file_name(before.push(last)) == Some(last.text),
        !last.normal ==> file_name(before.push(last)) is None,
        file_name(Seq::empty()) is None,
{
}

/// A name without a dot has no extension, and neither has one that begins with its only
/// dot.
pub proof fn law_names_without_extension(name: Seq<char>)
    requires
        !name.contains('.'),
    ensures
        extension(name) is None,
        extension(seq!['.'] + name) is None,
{
    lemma_last_dot(name);
    let hidden = seq!['.'] + name;
    lemma_last_dot(hidden);
    if last_dot(hidden) > 0 {
        assert(name[last_dot(hidden) - 1] == '.');
    }
}

/// A path that ends in a plain name with a stem, a dot and a text without dots has that
/// text as its extension, whatever comes before the name.
pub proof fn law_extension_of_a_path(before: Seq<PathPart>, stem: Seq<char>, ext: Seq<char>)
    requires
        stem.len() > 0,
        !ext.contains('.'),
    ensures
        file_extension(
            before.push(PathPart { normal: true, text: stem + seq!['.'] + ext }),
        ) == Some(ext),
{
    law_extension_is_found(stem, ext);
}

/// A path has no extension where it ends in no plain name, or in one without a dot or
/// with its only dot first.
pub proof fn law_paths_without_extension(before: Seq<PathPart>, last: PathPart, name: Seq<char>)
    requires
        !name.contains('.'),
        last.normal ==> last.text == name || last.text == seq!['.'] + name,
    ensures
        file_extension(before.push(last)) is None,
        file_extension(Seq::empty()) is None,
{
    law_names_without_extension(name);
}

} // verus!
