//! Relating the deep views of nested vectors to the views of their elements.

use vstd::prelude::*;

verus! {

/// The views of the byte vectors in a sequence.
pub open spec fn views_of(s: Seq<Vec<u8>>) -> Seq<Seq<u8>> {
    s.map_values(|v: Vec<u8>| v@)
}

/// The deep view of a byte vector is its plain view.
pub broadcast proof fn lemma_u8_vec_deep_view(v: Vec<u8>)
    ensures
        #[trigger] v.deep_view() == v@,
{
    assert(v.deep_view() =~= v@);
}

/// The deep view of a vector of byte vectors is the sequence of the
/// elements' views.
pub broadcast proof fn lemma_deep_view_is_views(v: Vec<Vec<u8>>)
    ensures
        #[trigger] v.deep_view() == views_of(v@),
{
    assert forall|i: int| 0 <= i < v@.len() implies v.deep_view()[i] == views_of(v@)[i] by {
        assert(v@[i].deep_view() =~= v@[i]@);
    }
    assert(v.deep_view() =~= views_of(v@));
}

/// Indexing the deep view of a vector is the deep view of the element.
pub broadcast proof fn lemma_vec_deep_view_index<T: DeepView>(v: Vec<T>, i: int)
    requires
        0 <= i < v@.len(),
    ensures
        #[trigger] v.deep_view()[i] == v@[i].deep_view(),
{
}

/// The deep view of a vector has the vector's length.
pub broadcast proof fn lemma_deep_view_len<T: DeepView>(v: Vec<T>)
    ensures
        (#[trigger] v.deep_view()).len() == v@.len(),
{
}

/// Pushing a vector onto the sequence pushes its view onto the views.
pub broadcast proof fn lemma_views_of_push(s: Seq<Vec<u8>>, x: Vec<u8>)
    ensures
        #[trigger] views_of(s.push(x)) == views_of(s).push(x@),
{
    assert(views_of(s.push(x)) =~= views_of(s).push(x@));
}

} // verus!
