//! The path templater: the three values derived from a changed path, and
//! their literal substitution into command arguments.

use crate::text::{lemma_replaced_without_occurrence, occurs_at, replace_chars, replaced, to_chars, to_text};
use vstd::prelude::*;

verus! {

/// The final component of a path, as `std::path::Path::file_name` gives it
/// under the path syntax of the platform the library is built for; `None`
/// where the path has no such component.
pub uninterp spec fn path_final_component(path: Seq<char>) -> Option<Seq<char>>;

/// The path without its final component, as `std::path::Path::parent` gives
/// it under the path syntax of the platform the library is built for; `None`
/// where the path has no parent.
pub uninterp spec fn path_parent(path: Seq<char>) -> Option<Seq<char>>;

/// Calls `std::path::Path::file_name` on `path`. The contract only names the
/// result: it is a function of the path's text.
#[verifier::external_body]
fn final_component(path: &str) -> (name: Option<String>)
    ensures
        name.deep_view() == path_final_component(path@),
{
    match std::path::Path::new(path).file_name() {
        Some(name) => name.to_str().map(str::to_owned),
        None => None,
    }
}

/// Calls `std::path::Path::parent` on `path`. The contract only names the
/// result: it is a function of the path's text.
#[verifier::external_body]
fn parent_dir(path: &str) -> (dir: Option<String>)
    ensures
        dir.deep_view() == path_parent(path@),
{
    match std::path::Path::new(path).parent() {
        Some(dir) => dir.to_str().map(str::to_owned),
        None => None,
    }
}

/// The placeholder for the final path component.
pub open spec fn file_placeholder() -> Seq<char> {
    "{file}"@
}

/// The placeholder for the final path component without its extension.
pub open spec fn file_name_placeholder() -> Seq<char> {
    "{file_name}"@
}

/// The placeholder for the parent directory.
pub open spec fn file_dir_placeholder() -> Seq<char> {
    "{file_dir}"@
}

/// Position of the last `.` in `name`, or -1 where it has none.
pub open spec fn last_dot(name: Seq<char>) -> int
    decreases name.len(),
{
    if name.len() == 0 {
        -1
    } else if name.last() == '.' {
        name.len() - 1
    } else {
        last_dot(name.drop_last())
    }
}

/// A file name without its extension: what stands before the last `.`.
/// A name without a `.`, or whose only `.` is its first character, is its
/// own stem.
pub open spec fn stem(name: Seq<char>) -> Seq<char> {
    if last_dot(name) <= 0 {
        name
    } else {
        name.take(last_dot(name))
    }
}

/// The last `.` of a name is a `.`, and none follows it.
pub proof fn lemma_last_dot(name: Seq<char>)
    ensures
        -1 <= last_dot(name) < name.len(),
        last_dot(name) >= 0 ==> name[last_dot(name)] == '.',
        forall|j: int| last_dot(name) < j < name.len() ==> name[j] != '.',
    decreases name.len(),
{
    if name.len() > 0 && name.last() != '.' {
        let front = name.drop_last();
        lemma_last_dot(front);
        assert forall|j: int| last_dot(name) < j < name.len() implies name[j] != '.' by {
            if j < front.len() {
                assert(front[j] == name[j]);
            }
        }
    }
}

/// Removes the extension from a file name.
pub fn file_stem(name: &str) -> (out: String)
    ensures
        out@ == stem(name@),
{
    let chars = to_chars(name);
    let mut i: usize = chars.len();
    assert(chars@.take(i as int) == chars@);
    while i > 0 && chars[i - 1] != '.'
        invariant
            i <= chars.len(),
            last_dot(chars@) == last_dot(chars@.take(i as int)),
        decreases i,
    {
        assert(chars@.take(i as int).drop_last() == chars@.take(i - 1));
        i -= 1;
    }
    if i <= 1 {
        assert(last_dot(chars@.take(i as int)) <= 0) by {
            lemma_last_dot(chars@.take(i as int));
        }
        to_text(&chars)
    } else {
        let mut kept: Vec<char> = Vec::new();
        let mut k: usize = 0;
        while k < i - 1
            invariant
                1 < i <= chars.len(),
                k <= i - 1,
                kept@ == chars@.take(k as int),
            decreases i - k,
        {
            kept.push(chars[k]);
            k += 1;
            assert(chars@.take(k as int) == chars@.take(k - 1).push(chars@[k - 1]));
        }
        to_text(&kept)
    }
}

/// What the templater derives from a changed path. A component that the
/// path does not have is `None`.
#[derive(Debug)]
pub struct PathParts {
    /// The final path component.
    pub file: Option<String>,
    /// The final path component without its extension.
    pub file_name: Option<String>,
    /// The parent directory.
    pub file_dir: Option<String>,
}

/// The mathematical value of a `PathParts`.
pub struct PathPartsView {
    pub file: Option<Seq<char>>,
    pub file_name: Option<Seq<char>>,
    pub file_dir: Option<Seq<char>>,
}

impl View for PathParts {
    type V = PathPartsView;

    open spec fn view(&self) -> PathPartsView {
        PathPartsView {
            file: self.file.deep_view(),
            file_name: self.file_name.deep_view(),
            file_dir: self.file_dir.deep_view(),
        }
    }
}

/// The parts of `path`: its final component, that component's stem, and its
/// parent.
pub open spec fn parts_of(path: Seq<char>) -> PathPartsView {
    PathPartsView {
        file: path_final_component(path),
        file_name: match path_final_component(path) {
            Some(name) => Some(stem(name)),
            None => None,
        },
        file_dir: path_parent(path),
    }
}

/// `arg` with each placeholder replaced by its value: first `{file}`, then
/// `{file_name}`, then `{file_dir}`. A placeholder whose value is `None`
/// stays in the text as it is written.
pub open spec fn substituted(arg: Seq<char>, parts: PathPartsView) -> Seq<char> {
    let with_file = match parts.file {
        Some(file) => replaced(arg, file_placeholder(), file),
        None => arg,
    };
    let with_name = match parts.file_name {
        Some(name) => replaced(with_file, file_name_placeholder(), name),
        None => with_file,
    };
    match parts.file_dir {
        Some(dir) => replaced(with_name, file_dir_placeholder(), dir),
        None => with_name,
    }
}

/// Whether one of the three placeholders stands somewhere in `arg`.
pub open spec fn holds_placeholder(arg: Seq<char>) -> bool {
    exists|at: int|
        occurs_at(arg, file_placeholder(), at) || occurs_at(arg, file_name_placeholder(), at)
            || occurs_at(arg, file_dir_placeholder(), at)
}

/// An argument that holds no placeholder passes through unchanged, whatever
/// the path is.
pub proof fn lemma_plain_argument_unchanged(arg: Seq<char>, parts: PathPartsView)
    requires
        !holds_placeholder(arg),
    ensures
        substituted(arg, parts) == arg,
{
    assert forall|at: int| !occurs_at(arg, file_placeholder(), at) by {}
    assert forall|at: int| !occurs_at(arg, file_name_placeholder(), at) by {}
    assert forall|at: int| !occurs_at(arg, file_dir_placeholder(), at) by {}
    if parts.file is Some {
        lemma_replaced_without_occurrence(arg, file_placeholder(), parts.file->0);
    }
    if parts.file_name is Some {
        lemma_replaced_without_occurrence(arg, file_name_placeholder(), parts.file_name->0);
    }
    if parts.file_dir is Some {
        lemma_replaced_without_occurrence(arg, file_dir_placeholder(), parts.file_dir->0);
    }
}

impl PathParts {
    /// Derives the three template values from a path.
    pub fn of(path: &str) -> (parts: PathParts)
        ensures
            parts@ == parts_of(path@),
    {
        let file = final_component(path);
        let file_name = match &file {
            Some(name) => Some(file_stem(name.as_str())),
            None => None,
        };
        let file_dir = parent_dir(path);
        PathParts { file, file_name, file_dir }
    }
}

/// Replaces `placeholder` in `chars` by `value` where there is one.
fn fill(chars: Vec<char>, placeholder: &str, value: &Option<String>) -> (out: Vec<char>)
    ensures
        out@ == match value.deep_view() {
            Some(v) => replaced(chars@, placeholder@, v),
            None => chars@,
        },
{
    match value {
        Some(v) => replace_chars(&chars, &to_chars(placeholder), &to_chars(v.as_str())),
        None => chars,
    }
}

/// Substitutes the placeholders of one argument.
pub fn substitute(arg: &str, parts: &PathParts) -> (out: String)
    ensures
        out@ == substituted(arg@, parts@),
{
    let with_file = fill(to_chars(arg), "{file}", &parts.file);
    let with_name = fill(with_file, "{file_name}", &parts.file_name);
    let with_dir = fill(with_name, "{file_dir}", &parts.file_dir);
    to_text(&with_dir)
}

} // verus!
