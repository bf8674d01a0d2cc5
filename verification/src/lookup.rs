//! Lookup by identifier in a list where a later item replaces an earlier
//! one with the same identifier.

use vstd::prelude::*;
use crate::text::same_chars;

verus! {

/// The position of the last element of `ids` equal to `id`, if there is one.
pub open spec fn last_with(ids: Seq<Seq<char>>, id: Seq<char>) -> Option<int>
    decreases ids.len(),
{
    if ids.len() == 0 {
        None
    } else if ids.last() == id {
        Some(ids.len() - 1)
    } else {
        last_with(ids.drop_last(), id)
    }
}

/// `last_with` finds a position that holds `id` and is followed by no
/// other; it finds none exactly when `id` does not occur.
pub proof fn lemma_last_with(ids: Seq<Seq<char>>, id: Seq<char>)
    ensures
        match last_with(ids, id) {
            Some(i) => 0 <= i < ids.len() && ids[i] == id && forall|j: int|
                i < j < ids.len() ==> ids[j] != id,
            None => forall|j: int| 0 <= j < ids.len() ==> ids[j] != id,
        },
    decreases ids.len(),
{
    if ids.len() > 0 && ids.last() != id {
        lemma_last_with(ids.drop_last(), id);
        assert forall|j: int| 0 <= j < ids.len() - 1 implies ids[j] == ids.drop_last()[j] by {}
    }
}

/// A position that holds `id` and is followed by no other is the one
/// `last_with` finds.
pub proof fn lemma_last_with_unique(ids: Seq<Seq<char>>, id: Seq<char>, i: int)
    requires
        0 <= i < ids.len(),
        ids[i] == id,
        forall|j: int| i < j < ids.len() ==> ids[j] != id,
    ensures
        last_with(ids, id) == Some(i),
    decreases ids.len(),
{
    if i < ids.len() - 1 {
        lemma_last_with_unique(ids.drop_last(), id, i);
    }
}

/// The character sequences of a list of character vectors.
pub open spec fn id_views(ids: Seq<Vec<char>>) -> Seq<Seq<char>> {
    ids.map_values(|v: Vec<char>| v@)
}

/// Finds the last position of `ids` that holds `id`.
pub fn find_last(ids: &Vec<Vec<char>>, id: &Vec<char>) -> (r: Option<usize>)
    ensures
        match r {
            Some(i) => last_with(id_views(ids@), id@) == Some(i as int),
            None => last_with(id_views(ids@), id@) is None,
        },
{
    let ghost views = id_views(ids@);
    let mut i: usize = ids.len();
    while i > 0
        invariant
            i <= ids.len(),
            views == id_views(ids@),
            forall|j: int| i <= j < ids.len() ==> views[j] != id@,
        decreases i,
    {
        i = i - 1;
        if same_chars(&ids[i], id) {
            proof {
                lemma_last_with_unique(views, id@, i as int);
            }
            return Some(i);
        }
    }
    proof {
        lemma_last_with(views, id@);
    }
    None
}

} // verus!
