use vstd::prelude::*;
use vstd::std_specs::cmp::PartialOrdSpec;
use vstd::seq_lib::to_multiset_update;
use core::cmp::Ordering;

verus! {

/// `a` orders no higher than `b` under the element type's own comparison.
pub open spec fn le_under<T: PartialOrd>(a: T, b: T) -> bool {
    a.partial_cmp_spec(&b) matches Some(Ordering::Less | Ordering::Equal)
}

/// The element type's comparison is a lawful total order: every pair is
/// comparable, opposite comparisons mirror each other, and ordering is
/// transitive. The integer types qualify; a type with incomparable values
/// does not.
pub open spec fn lawful_total_order<T: PartialOrd>() -> bool {
    &&& forall|a: T, b: T| (#[trigger] a.partial_cmp_spec(&b)) is Some
    &&& forall|a: T, b: T|
        ((#[trigger] a.partial_cmp_spec(&b)) == Some(Ordering::Less) <==> b.partial_cmp_spec(&a)
            == Some(Ordering::Greater))
    &&& forall|a: T, b: T|
        ((#[trigger] a.partial_cmp_spec(&b)) == Some(Ordering::Equal) <==> b.partial_cmp_spec(&a)
            == Some(Ordering::Equal))
    &&& forall|a: T, b: T, c: T| #[trigger] le_under(a, b) && #[trigger] le_under(b, c)
        ==> le_under(a, c)
}

/// Every element orders no higher than each element after it.
pub open spec fn sorted_under<T: PartialOrd>(s: Seq<T>) -> bool {
    forall|i: int, j: int| 0 <= i < j < s.len() ==> le_under(#[trigger] s[i], #[trigger] s[j])
}

/// Exchange the elements at positions `j` and `j + 1`, keeping everything
/// else in place; the collection as a multiset is unchanged.
fn swap_adjacent<T>(arr: &mut Vec<T>, j: usize)
    requires
        j + 1 < old(arr)@.len(),
        old(arr)@.len() <= usize::MAX,
    ensures
        final(arr)@ == old(arr)@.update(j as int, old(arr)@[j as int + 1]).update(
            j as int + 1,
            old(arr)@[j as int],
        ),
        final(arr)@.len() == old(arr)@.len(),
        final(arr)@.to_multiset() == old(arr)@.to_multiset(),
{
    broadcast use to_multiset_update;
    broadcast use vstd::seq_lib::group_to_multiset_ensures;
    broadcast use vstd::multiset::group_multiset_axioms;

    let slice = arr.as_mut_slice();
    let (left, right) = slice.split_at_mut(j + 1);
    match (left.last_mut(), right.first_mut()) {
        (Some(x), Some(y)) => {
            core::mem::swap(x, y);
        },
        _ => {
            vstd::pervasive::unreached::<()>()
        },
    }
    proof {
        let v = old(arr)@;
        let a = v[j as int];
        let b = v[j as int + 1];
        assert(final(arr)@ =~= v.update(j as int, b).update(j as int + 1, a));
        assert(v.contains(a));
        assert(v.update(j as int, b)[j as int + 1] == b);
        assert(v.update(j as int, b).to_multiset() == v.to_multiset().insert(b).remove(a));
        assert(final(arr)@.to_multiset() == v.to_multiset().insert(b).remove(a).insert(a).remove(
            b,
        ));
        assert(final(arr)@.to_multiset() =~= v.to_multiset());
    }
}

/// Sort the vector in place by repeatedly comparing adjacent elements and
/// swapping each pair that is out of order; after each pass one more element
/// has bubbled into its final place at the back.
///
/// The element type's `partial_cmp` must agree with its specification-level
/// ordering (`obeys_partial_cmp_spec`) and be a lawful total order — an
/// incomparable pair would be a fatal error, not a silent misordering. The
/// result is sorted and holds exactly the elements it started with.
pub fn bubble_sort<T: PartialOrd>(arr: &mut Vec<T>)
    requires
        T::obeys_partial_cmp_spec(),
        lawful_total_order::<T>(),
    ensures
        sorted_under::<T>(final(arr)@),
        final(arr)@.to_multiset() == old(arr)@.to_multiset(),
        final(arr)@.len() == old(arr)@.len(),
{
    let len = arr.len();
    let mut i: usize = 0;
    while i < len
        invariant
            T::obeys_partial_cmp_spec(),
            lawful_total_order::<T>(),
            arr@.len() == len,
            i <= len,
            arr@.to_multiset() == old(arr)@.to_multiset(),
            forall|p: int, q: int|
                0 <= p < q < len && len - i <= q ==> le_under(#[trigger] arr@[p], #[trigger] arr@[q]),
        decreases len - i,
    {
        let mut j: usize = 0;
        while j + 1 + i < len
            invariant
                T::obeys_partial_cmp_spec(),
                lawful_total_order::<T>(),
                arr@.len() == len,
                i < len,
                j + i < len,
                arr@.to_multiset() == old(arr)@.to_multiset(),
                forall|p: int, q: int|
                    0 <= p < q < len && len - i <= q ==> le_under(
                        #[trigger] arr@[p],
                        #[trigger] arr@[q],
                    ),
                forall|k: int| 0 <= k < j ==> le_under(#[trigger] arr@[k], arr@[j as int]),
            decreases len - i - j,
    {
            let ghost pre = arr@;
            match arr[j].partial_cmp(&arr[j + 1]) {
                Some(Ordering::Greater) => {
                    proof {
                        assert(pre[j as int + 1].partial_cmp_spec(&pre[j as int]) == Some(
                            Ordering::Less,
                        ));
                    }
                    swap_adjacent(arr, j);
                },
                Some(_) => {
                },
                None => {
                    vstd::pervasive::unreached::<()>()
                },
            }
            proof {
                assert(le_under(arr@[j as int], arr@[j as int + 1]));
                assert forall|k: int| 0 <= k <= j implies le_under(
                    #[trigger] arr@[k],
                    arr@[j as int + 1],
                ) by {
                    if k < j {
                        assert(le_under(pre[k], pre[j as int]));
                    }
                }
                assert forall|p: int, q: int|
                    0 <= p < q < len && len - i <= q implies le_under(
                    #[trigger] arr@[p],
                    #[trigger] arr@[q],
                ) by {
                    assert(le_under(pre[p], pre[q]));
                    assert(le_under(pre[j as int], pre[q]) && le_under(pre[j as int + 1], pre[q]));
                }
            }
            j = j + 1;
        }
        i = i + 1;
    }
}

} // verus!
