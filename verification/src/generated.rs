//! Keeping a directory of generated code in step with what was generated:
//! which files to rewrite and which files to remove.

use crate::order::texts;
use crate::text::text_eq;
use vstd::prelude::*;

verus! {

/// A generated file is rewritten unless its current content is exactly the
/// generated one.
pub fn needs_write(current: Option<&str>, content: &str) -> (write: bool)
    ensures
        write == !(current matches Some(c) && c@ == content@),
{
    match current {
        Some(c) => !text_eq(c, content),
        None => true,
    }
}

/// The two paths, given by their components, are the same path.
pub open spec fn same_path(a: Seq<Seq<char>>, b: Seq<Seq<char>>) -> bool {
    a == b
}

/// `path` is one of the generated paths `expected`.
pub open spec fn is_generated(path: Seq<Seq<char>>, expected: Seq<Seq<Seq<char>>>) -> bool {
    exists|i: int| 0 <= i < expected.len() && same_path(#[trigger] expected[i], path)
}

/// A path is one of the generated ones exactly when some generated path has
/// as many components and agrees with it in every component.
pub proof fn lemma_generated_componentwise(path: Seq<Seq<char>>, expected: Seq<Seq<Seq<char>>>)
    ensures
        is_generated(path, expected) <==> exists|i: int|
            0 <= i < expected.len() && (#[trigger] expected[i]).len() == path.len() && forall|k: int|
                0 <= k < path.len() ==> expected[i][k] == path[k],
{
    assert forall|i: int| 0 <= i < expected.len() implies same_path(#[trigger] expected[i], path)
        <==> (expected[i].len() == path.len() && forall|k: int|
        0 <= k < path.len() ==> expected[i][k] == path[k]) by {
        if expected[i].len() == path.len() && forall|k: int|
            0 <= k < path.len() ==> expected[i][k] == path[k] {
            assert(expected[i] =~= path);
        }
    }
}

/// The components of each path in `paths`.
pub open spec fn component_texts(paths: Seq<Vec<String>>) -> Seq<Seq<Seq<char>>> {
    paths.map_values(|p: Vec<String>| texts(p@))
}

fn same_components(a: &[String], b: &[String]) -> (same: bool)
    ensures
        same == (texts(a@) == texts(b@)),
        same == (a@.len() == b@.len() && forall|k: int| 0 <= k < a@.len() ==> a@[k]@ == b@[k]@),
{
    if a.len() != b.len() {
        assert(texts(a@).len() != texts(b@).len());
        return false;
    }
    for i in 0..a.len()
        invariant
            a@.len() == b@.len(),
            forall|j: int| 0 <= j < i ==> a@[j]@ == b@[j]@,
    {
        if !text_eq(a[i].as_str(), b[i].as_str()) {
            assert(texts(a@)[i as int] != texts(b@)[i as int]);
            return false;
        }
    }
    assert(texts(a@) =~= texts(b@));
    true
}

/// A file found under the directory, by its path relative to the directory,
/// stays when it is one of the generated files; every other file is removed.
pub fn keep_file(path: &[String], expected: &[Vec<String>]) -> (keep: bool)
    ensures
        keep == is_generated(texts(path@), component_texts(expected@)),
        keep == exists|i: int|
            0 <= i < expected@.len() && (#[trigger] expected@[i])@.len() == path@.len() && forall|
                k: int,
            | 0 <= k < path@.len() ==> expected@[i]@[k]@ == path@[k]@,
{
    let ghost all = component_texts(expected@);
    for i in 0..expected.len()
        invariant
            all == component_texts(expected@),
            forall|j: int| 0 <= j < i ==> !same_path(#[trigger] all[j], texts(path@)),
            forall|j: int|
                0 <= j < i ==> !((#[trigger] expected@[j])@.len() == path@.len() && forall|k: int|
                    0 <= k < path@.len() ==> expected@[j]@[k]@ == path@[k]@),
    {
        if same_components(expected[i].as_slice(), path) {
            assert(same_path(all[i as int], texts(path@)));
            assert(expected@[i as int]@ == expected[i as int]@);
            return true;
        }
    }
    false
}

} // verus!
