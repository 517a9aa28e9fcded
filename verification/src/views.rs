//! Bridging lemmas between the plain and the deep views of nested vectors.

use vstd::prelude::*;

verus! {

/// The deep view of a scalar vector is its plain view.
pub proof fn row_deep(v: Vec<i64>)
    ensures
        v.deep_view() == v@,
{
    assert(v.deep_view() =~= v@);
}

/// The deep view of a vector of rows, read entry by entry.
pub proof fn mat_deep(m: Vec<Vec<i64>>)
    ensures
        m.deep_view().len() == m@.len(),
        forall|j: int| 0 <= j < m@.len() ==> #[trigger] m.deep_view()[j] == m@[j]@,
{
    assert forall|j: int| 0 <= j < m@.len() implies #[trigger] m.deep_view()[j] == m@[j]@ by {
        assert(m.deep_view()[j] =~= m@[j]@);
    }
}

/// The deep view of a vector of matrices, read down to the rows.
pub proof fn cube_deep(c: Vec<Vec<Vec<i64>>>)
    ensures
        c.deep_view().len() == c@.len(),
        forall|j: int| 0 <= j < c@.len() ==> #[trigger] c.deep_view()[j] == c@[j].deep_view(),
        forall|j: int|
            0 <= j < c@.len() ==> (#[trigger] c.deep_view()[j]).len() == c@[j]@.len(),
        forall|j: int, o: int|
            0 <= j < c@.len() && 0 <= o < c@[j]@.len() ==> #[trigger] c.deep_view()[j][o]
                == c@[j]@[o]@,
{
    assert forall|j: int| 0 <= j < c@.len() implies #[trigger] c.deep_view()[j]
        == c@[j].deep_view() by {
        assert(c.deep_view()[j] =~= c@[j].deep_view());
    }
    assert forall|j: int, o: int|
        0 <= j < c@.len() && 0 <= o < c@[j]@.len() implies #[trigger] c.deep_view()[j][o]
        == c@[j]@[o]@ by {
        assert(c.deep_view()[j][o] =~= c@[j]@[o]@);
    }
}

} // verus!
