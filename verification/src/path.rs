//! The paths of files that an inline comment may be anchored to.

use crate::text::chars_of;
use vstd::prelude::*;

verus! {

/// Why a file path is not accepted.
#[derive(Clone, Copy, Debug, PartialEq, Eq, Structural)]
pub enum FilePathError {
    Empty,
    ParentComponent,
    Absolute,
}

impl FilePathError {
    /// What the message of the error says.
    pub open spec fn message_text(self) -> Seq<char> {
        match self {
            FilePathError::Empty => "file_path must not be empty"@,
            FilePathError::ParentComponent =>
                "file_path must not contain a '..' path component"@,
            FilePathError::Absolute => "file_path must not be absolute"@,
        }
    }

    /// The error in words.
    pub fn message(&self) -> (text: String)
        ensures
            text@ == self.message_text(),
    {
        match self {
            FilePathError::Empty => "file_path must not be empty".to_owned(),
            FilePathError::ParentComponent =>
                "file_path must not contain a '..' path component".to_owned(),
            FilePathError::Absolute => "file_path must not be absolute".to_owned(),
        }
    }
}

/// The characters that part the components of a path.
pub open spec fn is_separator(c: char) -> bool {
    c == '/' || c == '\\'
}

/// The components of a path: what stands between its separators.
pub open spec fn components(path: Seq<char>) -> Seq<Seq<char>>
    decreases path.len(),
{
    if path.len() == 0 {
        seq![Seq::empty()]
    } else if is_separator(path.last()) {
        components(path.drop_last()).push(Seq::empty())
    } else {
        let front = components(path.drop_last());
        front.update(front.len() - 1, front.last().push(path.last()))
    }
}

/// Whether one of the components is `..`.
pub open spec fn has_parent_component(path: Seq<char>) -> bool {
    components(path).contains(seq!['.', '.'])
}

/// What is wrong with a path, in the order in which it is looked at.
pub open spec fn file_path_error(path: Seq<char>) -> Option<FilePathError> {
    if path.len() == 0 {
        Some(FilePathError::Empty)
    } else if has_parent_component(path) {
        Some(FilePathError::ParentComponent)
    } else if is_separator(path[0]) {
        Some(FilePathError::Absolute)
    } else {
        None
    }
}

/// Checks the path of a file for an inline comment: it is not empty, it is
/// relative, and no component of it is `..`.
pub fn validate_file_path(path: &str) -> (result: Result<(), FilePathError>)
    ensures
        match file_path_error(path@) {
            Some(error) => result == Err::<(), FilePathError>(error),
            None => result is Ok,
        },
{
    let chars = chars_of(path);
    if chars.len() == 0 {
        return Err(FilePathError::Empty);
    }
    // How long the component that is being read is, and whether it is all dots.
    let mut length: usize = 0;
    let mut dots: bool = true;
    let mut parent: bool = false;
    let ghost dot_dot: Seq<char> = seq!['.', '.'];
    let mut i: usize = 0;
    proof {
        lemma_components(chars@.take(0));
    }
    while i < chars.len()
        invariant
            i <= chars@.len(),
            length <= i,
            dot_dot == seq!['.', '.'],
            components(chars@.take(i as int)).len() > 0,
            length == components(chars@.take(i as int)).last().len(),
            dots == forall|j: int|
                0 <= j < length ==> components(chars@.take(i as int)).last()[j] == '.',
            parent == components(chars@.take(i as int)).drop_last().contains(dot_dot),
        decreases chars@.len() - i,
    {
        let ghost before = components(chars@.take(i as int));
        let ghost after = components(chars@.take(i + 1));
        proof {
            assert(chars@.take(i + 1).drop_last() =~= chars@.take(i as int));
            assert(dots && length == 2 ==> before.last() =~= dot_dot);
            assert(before =~= before.drop_last().push(before.last()));
        }
        if chars[i] == '/' || chars[i] == '\\' {
            proof {
                assert(after.drop_last() =~= before);
                if parent {
                    let k = choose|k: int| 0 <= k < before.drop_last().len()
                        && before.drop_last()[k] == dot_dot;
                    assert(before[k] == dot_dot);
                }
                if before.last() == dot_dot {
                    assert(before[before.len() - 1] == dot_dot);
                }
                if before.contains(dot_dot) && !parent {
                    let k = choose|k: int| 0 <= k < before.len() && before[k] == dot_dot;
                    if k < before.len() - 1 {
                        assert(before.drop_last()[k] == dot_dot);
                    }
                }
            }
            if dots && length == 2 {
                parent = true;
            }
            length = 0;
            dots = true;
        } else {
            proof {
                assert(after.drop_last() =~= before.drop_last());
                assert(after.last() == before.last().push(chars@[i as int]));
                if dots && chars@[i as int] != '.' {
                    assert(after.last()[length as int] != '.');
                }
                if !dots {
                    let j = choose|j: int| 0 <= j < length && before.last()[j] != '.';
                    assert(after.last()[j] != '.');
                }
            }
            if chars[i] != '.' {
                dots = false;
            }
            length = length + 1;
        }
        i = i + 1;
    }
    proof {
        assert(chars@.take(i as int) =~= chars@);
        let all = components(chars@);
        if parent {
            let k = choose|k: int| 0 <= k < all.drop_last().len()
                && all.drop_last()[k] == dot_dot;
            assert(all[k] == dot_dot);
        }
        if dots && length == 2 {
            assert(all.last() =~= dot_dot);
            assert(all[all.len() - 1] == dot_dot);
        }
        if all.contains(dot_dot) && !parent {
            let k = choose|k: int| 0 <= k < all.len() && all[k] == dot_dot;
            if k < all.len() - 1 {
                assert(all.drop_last()[k] == dot_dot);
            }
            assert(all.last() == dot_dot);
        }
    }
    if parent || (dots && length == 2) {
        return Err(FilePathError::ParentComponent);
    }
    if chars[0] == '/' || chars[0] == '\\' {
        return Err(FilePathError::Absolute);
    }
    Ok(())
}

proof fn lemma_components(path: Seq<char>)
    ensures
        components(path).len() > 0,
    decreases path.len(),
{
    if path.len() > 0 {
        lemma_components(path.drop_last());
    }
}

/// At index `at` of the path stands `..`, with the path's ends or separators on both
/// sides of it.
pub open spec fn parent_stands_at(path: Seq<char>, at: int) -> bool {
    &&& 0 <= at && at + 2 <= path.len()
    &&& path[at] == '.' && path[at + 1] == '.'
    &&& at == 0 || path[at - 1] == '/' || path[at - 1] == '\\'
    &&& at + 2 == path.len() || path[at + 2] == '/' || path[at + 2] == '\\'
}

/// The last component is what stands behind the last separator, and the others hold `..`
/// where one stands before a separator.
proof fn lemma_components_stand_in_path(path: Seq<char>)
    ensures
        ({
            let parts = components(path);
            let start = path.len() - parts.last().len();
            &&& parts.len() > 0
            &&& 0 <= start
            &&& start == 0 || is_separator(path[start - 1])
            &&& forall|j: int| start <= j < path.len() ==> !is_separator(#[trigger] path[j])
            &&& parts.last() == path.skip(start)
            &&& parts.drop_last().contains(seq!['.', '.']) <==> exists|at: int|
                at + 2 < path.len() && #[trigger] parent_stands_at(path, at)
        }),
    decreases path.len(),
{
    let dot_dot: Seq<char> = seq!['.', '.'];
    let parts = components(path);
    if path.len() == 0 {
        assert(parts.drop_last() =~= Seq::<Seq<char>>::empty());
        assert(parts.last() =~= path.skip(0));
    } else {
        let front = path.drop_last();
        let c = path.last();
        let before = components(front);
        let start = front.len() - before.last().len();
        lemma_components_stand_in_path(front);
        assert forall|at: int| at + 2 < front.len() implies #[trigger] parent_stands_at(front, at)
            == parent_stands_at(path, at) by {}
        assert(before =~= before.drop_last().push(before.last()));
        if is_separator(c) {
            assert(parts.drop_last() =~= before);
            assert(parts.last() =~= path.skip(path.len() as int));
            let at = front.len() - 2;
            if before.last() == dot_dot {
                assert(front[start] == front.skip(start)[0]);
                assert(front[start + 1] == front.skip(start)[1]);
                assert(parent_stands_at(path, at));
                assert(before[before.len() - 1] == dot_dot);
            }
            if parent_stands_at(path, at) {
                assert(!is_separator(front[at]) && !is_separator(front[at + 1]));
                if start < at {
                    assert(!is_separator(front[at - 1]));
                }
                assert(start == at);
                assert(front.skip(start) =~= dot_dot);
                assert(before[before.len() - 1] == dot_dot);
            }
            if before.drop_last().contains(dot_dot) {
                let k = choose|k: int| 0 <= k < before.drop_last().len()
                    && before.drop_last()[k] == dot_dot;
                assert(before[k] == dot_dot);
            }
            if before.contains(dot_dot) {
                let k = choose|k: int| 0 <= k < before.len() && before[k] == dot_dot;
                if k < before.len() - 1 {
                    assert(before.drop_last()[k] == dot_dot);
                    let place = choose|place: int|
                        place + 2 < front.len() && #[trigger] parent_stands_at(front, place);
                    assert(parent_stands_at(path, place));
                }
            }
            if exists|at: int| at + 2 < path.len() && #[trigger] parent_stands_at(path, at) {
                let place = choose|place: int|
                    place + 2 < path.len() && #[trigger] parent_stands_at(path, place);
                if place + 2 < front.len() {
                    assert(parent_stands_at(front, place));
                }
            }
        } else {
            assert(parts.drop_last() =~= before.drop_last());
            assert(parts.last() =~= path.skip(start));
            assert forall|j: int| start <= j < path.len() implies !is_separator(
                #[trigger] path[j],
            ) by {
                if j < front.len() {
                    assert(path[j] == front[j]);
                }
            }
            if exists|at: int| at + 2 < path.len() && #[trigger] parent_stands_at(path, at) {
                let place = choose|place: int|
                    place + 2 < path.len() && #[trigger] parent_stands_at(path, place);
                assert(parent_stands_at(front, place));
            }
            if exists|at: int| at + 2 < front.len() && #[trigger] parent_stands_at(front, at) {
                let place = choose|place: int|
                    place + 2 < front.len() && #[trigger] parent_stands_at(front, place);
                assert(parent_stands_at(path, place));
            }
        }
    }
}

/// A component is `..` exactly where one stands in the path.
pub proof fn lemma_parent_component(path: Seq<char>)
    ensures
        has_parent_component(path) <==> exists|at: int| #[trigger] parent_stands_at(path, at),
{
    let dot_dot: Seq<char> = seq!['.', '.'];
    let parts = components(path);
    let start = path.len() - parts.last().len();
    lemma_components_stand_in_path(path);
    if parts.contains(dot_dot) {
        let k = choose|k: int| 0 <= k < parts.len() && parts[k] == dot_dot;
        if k < parts.len() - 1 {
            assert(parts.drop_last()[k] == dot_dot);
        } else {
            assert(path[start] == path.skip(start)[0]);
            assert(path[start + 1] == path.skip(start)[1]);
            assert(parent_stands_at(path, start));
        }
    }
    if exists|at: int| #[trigger] parent_stands_at(path, at) {
        let at = choose|at: int| #[trigger] parent_stands_at(path, at);
        if at + 2 < path.len() {
            let k = choose|k: int| 0 <= k < parts.drop_last().len()
                && parts.drop_last()[k] == dot_dot;
            assert(parts[k] == dot_dot);
        } else {
            assert(!is_separator(path[at]) && !is_separator(path[at + 1]));
            if start < at {
                assert(!is_separator(path[at - 1]));
            }
            assert(path.skip(start) =~= dot_dot);
            assert(parts[parts.len() - 1] == dot_dot);
        }
    }
}

/// The path names a file below the directory that it is taken from: it says something,
/// does not start at a root, and nowhere in it stands a `..` that leads up.
pub open spec fn leads_down(path: Seq<char>) -> bool {
    &&& path.len() > 0
    &&& path[0] != '/' && path[0] != '\\'
    &&& forall|at: int| !#[trigger] parent_stands_at(path, at)
}

/// A path is accepted exactly where it leads down. One that is not is empty, or holds a
/// `..` on its own between separators, or starts with a separator, and the first of these
/// is what is reported.
pub proof fn law_paths_that_lead_down_are_accepted(path: &str, result: Result<(), FilePathError>)
    requires
        call_ensures(validate_file_path, (path,), result),
    ensures
        result is Ok <==> leads_down(path@),
        result == Err::<(), FilePathError>(FilePathError::Empty) <==> path@.len() == 0,
        result == Err::<(), FilePathError>(FilePathError::ParentComponent) <==> exists|at: int|
            #[trigger] parent_stands_at(path@, at),
        result == Err::<(), FilePathError>(FilePathError::Absolute) <==> {
            &&& path@.len() > 0
            &&& path@[0] == '/' || path@[0] == '\\'
            &&& forall|at: int| !#[trigger] parent_stands_at(path@, at)
        },
{
    lemma_parent_component(path@);
}

/// What is said of a path that is not accepted.
pub proof fn law_path_errors_in_words(error: FilePathError, text: String)
    requires
        call_ensures(FilePathError::message, (&error,), text),
    ensures
        error == FilePathError::Empty ==> text@ == "file_path must not be empty"@,
        error == FilePathError::ParentComponent ==> text@
            == "file_path must not contain a '..' path component"@,
        error == FilePathError::Absolute ==> text@ == "file_path must not be absolute"@,
{
}

} // verus!
