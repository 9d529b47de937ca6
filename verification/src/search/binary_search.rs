use vstd::prelude::*;
use vstd::std_specs::cmp::PartialOrdSpec;
use core::cmp::Ordering;

verus! {

/// The slice is ordered with respect to the needle: right of any element
/// comparing below the needle everything still compares no lower, and left
/// of any element comparing above it everything still compares no higher.
/// Any slice sorted under a lawful total order satisfies this.
pub open spec fn ordered_about<T: PartialOrd>(s: Seq<T>, needle: T) -> bool {
    forall|i: int, j: int|
        #![trigger s[i].partial_cmp_spec(&needle), s[j].partial_cmp_spec(&needle)]
        0 <= i < j < s.len() ==> {
            &&& (s[j].partial_cmp_spec(&needle) == Some(Ordering::Less) ==> s[i].partial_cmp_spec(
                &needle,
            ) == Some(Ordering::Less))
            &&& (s[i].partial_cmp_spec(&needle) == Some(Ordering::Greater)
                ==> s[j].partial_cmp_spec(&needle) == Some(Ordering::Greater))
        }
}

/// Searches an ordered slice by repeated halving and reports whether some
/// element compares equal to `needle`.
///
/// The element type's `partial_cmp` must agree with its specification-level
/// ordering (`obeys_partial_cmp_spec`, true of the integer types), and every
/// element must be comparable with the needle — an incomparable pair would
/// be a fatal error, not a miss.
pub fn binary_search<T: PartialOrd>(haystack: &[T], needle: T) -> (r: bool)
    requires
        T::obeys_partial_cmp_spec(),
        forall|k: int|
            0 <= k < haystack@.len() ==> (#[trigger] haystack@[k].partial_cmp_spec(
                &needle,
            )) is Some,
        ordered_about(haystack@, needle),
    ensures
        r == exists|k: int|
            0 <= k < haystack@.len() && #[trigger] haystack@[k].partial_cmp_spec(&needle) == Some(
                Ordering::Equal,
            ),
{
    let mut low: usize = 0;
    let mut high: usize = haystack.len();
    let mut mid: usize;
    while low < high
        invariant
            T::obeys_partial_cmp_spec(),
            forall|k: int|
                0 <= k < haystack@.len() ==> (#[trigger] haystack@[k].partial_cmp_spec(
                    &needle,
                )) is Some,
            ordered_about(haystack@, needle),
            low <= high <= haystack@.len(),
            forall|k: int|
                0 <= k < low ==> #[trigger] haystack@[k].partial_cmp_spec(&needle) == Some(
                    Ordering::Less,
                ),
            forall|k: int|
                high <= k < haystack@.len() ==> #[trigger] haystack@[k].partial_cmp_spec(&needle)
                    == Some(Ordering::Greater),
        decreases high - low,
    {
        mid = low + (high - low) / 2;
        match haystack[mid].partial_cmp(&needle) {
            Some(Ordering::Equal) => {
                return true;
            },
            Some(Ordering::Less) => {
                low = mid + 1;
            },
            Some(Ordering::Greater) => {
                high = mid;
            },
            None => {
                return vstd::pervasive::unreached();
            },
        }
    }
    false
}

} // verus!
