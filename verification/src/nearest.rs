//! Picking the smallest of a list of measurements.

use vstd::prelude::*;

use crate::scalar::Scalar;

verus! {

/// Where the smallest admitted measurement stands: the first one, where several
/// are equally small.
pub open spec fn closest(distances: Seq<Scalar>, admitted: Seq<bool>) -> Option<int>
    decreases distances.len(),
{
    if distances.len() == 0 {
        None
    } else {
        let before = closest(distances.drop_last(), admitted.drop_last());
        let last = distances.len() - 1;
        if !admitted[last] {
            before
        } else {
            match before {
                None => Some(last),
                Some(i) => if distances[last].below(distances[i]) {
                    Some(last)
                } else {
                    Some(i)
                },
            }
        }
    }
}

/// Whatever is picked was admitted, and something is picked where anything was.
pub proof fn closest_is_admitted(distances: Seq<Scalar>, admitted: Seq<bool>)
    requires
        distances.len() == admitted.len(),
    ensures
        match closest(distances, admitted) {
            Some(i) => 0 <= i < distances.len() && admitted[i],
            None => forall|j: int| 0 <= j < distances.len() ==> !#[trigger] admitted[j],
        },
    decreases distances.len(),
{
    if distances.len() > 0 {
        closest_is_admitted(distances.drop_last(), admitted.drop_last());
        assert(forall|j: int|
            0 <= j < distances.len() - 1 ==> admitted.drop_last()[j] == #[trigger] admitted[j]);
    }
}

/// What is picked is no larger than anything admitted, and smaller than
/// everything admitted before it.
pub proof fn closest_is_smallest(distances: Seq<Scalar>, admitted: Seq<bool>)
    requires
        distances.len() == admitted.len(),
        forall|j: int|
            0 <= j < distances.len() && #[trigger] admitted[j] ==> !distances[j].nan(),
    ensures
        closest(distances, admitted) matches Some(i) ==> {
            &&& forall|j: int|
                0 <= j < distances.len() && #[trigger] admitted[j] ==> distances[i].at_most(
                    distances[j],
                )
            &&& forall|j: int|
                0 <= j < i && #[trigger] admitted[j] ==> distances[i].below(distances[j])
        },
    decreases distances.len(),
{
    if distances.len() > 0 {
        let d = distances.drop_last();
        let a = admitted.drop_last();
        assert forall|j: int| 0 <= j < d.len() && #[trigger] a[j] implies !d[j].nan() by {
            assert(admitted[j]);
        }
        closest_is_smallest(d, a);
        closest_is_admitted(d, a);
        closest_is_admitted(distances, admitted);
        if let Some(i) = closest(distances, admitted) {
            assert forall|j: int|
                0 <= j < distances.len() && #[trigger] admitted[j] implies distances[i].at_most(
                distances[j],
            ) by {
                if j < distances.len() - 1 {
                    assert(a[j]);
                }
            }
            assert forall|j: int|
                0 <= j < i && #[trigger] admitted[j] implies distances[i].below(
                distances[j],
            ) by {
                assert(a[j]);
            }
        }
    }
}

/// Picks the smallest admitted measurement.
pub fn closest_of(distances: &[Scalar], admitted: &[bool]) -> (r: Option<usize>)
    requires
        distances@.len() == admitted@.len(),
    ensures
        match r {
            Some(i) => closest(distances@, admitted@) == Some(i as int) && i < distances@.len()
                && admitted@[i as int],
            None => closest(distances@, admitted@) is None,
        },
{
    let mut best: Option<usize> = None;
    let mut i: usize = 0;
    while i < distances.len()
        invariant
            i <= distances@.len(),
            distances@.len() == admitted@.len(),
            match best {
                Some(b) => closest(distances@.take(i as int), admitted@.take(i as int)) == Some(
                    b as int,
                ) && b < i && admitted@[b as int],
                None => closest(distances@.take(i as int), admitted@.take(i as int)) is None,
            },
        decreases distances@.len() - i,
    {
        proof {
            assert(distances@.take(i + 1).drop_last() =~= distances@.take(i as int));
            assert(admitted@.take(i + 1).drop_last() =~= admitted@.take(i as int));
        }
        if admitted[i] {
            match best {
                Some(b) => {
                    if distances[i].lt(distances[b]) {
                        best = Some(i);
                    }
                },
                None => {
                    best = Some(i);
                },
            }
        }
        i = i + 1;
    }
    proof {
        assert(distances@.take(i as int) =~= distances@);
        assert(admitted@.take(i as int) =~= admitted@);
    }
    best
}

} // verus!
