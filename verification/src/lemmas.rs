//! General facts about sequences used across the library.

use vstd::prelude::*;

verus! {

/// A vector of characters and its deep view hold the same characters.
pub broadcast proof fn lemma_chars_deep_view(v: Vec<char>)
    ensures
        #[trigger] v.deep_view() == v@,
{
    assert(v.deep_view() =~= v@);
}

/// Pushing onto a vector of character vectors pushes the new element's
/// characters onto the deep view.
pub proof fn lemma_push_deep_view(v: Vec<Vec<char>>, w: Vec<Vec<char>>, x: Vec<char>)
    requires
        w@ == v@.push(x),
    ensures
        w.deep_view() == v.deep_view().push(x@),
{
    lemma_chars_deep_view(x);
    assert forall|i: int| 0 <= i < v@.len() implies w.deep_view()[i] == v.deep_view()[i] by {
        assert(w@[i] == v@[i]);
    }
    assert(w.deep_view() =~= v.deep_view().push(x@));
}

/// Popping from a vector of character vectors drops the last element of
/// the deep view.
pub proof fn lemma_pop_deep_view(v: Vec<Vec<char>>, w: Vec<Vec<char>>)
    requires
        v@.len() > 0,
        w@ == v@.drop_last(),
    ensures
        w.deep_view() == v.deep_view().drop_last(),
{
    assert(w.deep_view() =~= v.deep_view().drop_last());
}

} // verus!
