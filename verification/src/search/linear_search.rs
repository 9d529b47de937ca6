use vstd::prelude::*;
use vstd::std_specs::cmp::PartialEqSpec;

verus! {

/// Scans `haystack` from front to back and reports whether some element
/// equals `needle`.
///
/// The element type's `==` must agree with its specification-level equality
/// (`obeys_eq_spec`), which holds for the integer and boolean types.
pub fn linear_search<T: PartialEq>(haystack: &[T], needle: T) -> (r: bool)
    requires
        T::obeys_eq_spec(),
    ensures
        r == exists|k: int| 0 <= k < haystack@.len() && #[trigger] haystack@[k].eq_spec(&needle),
{
    let mut i: usize = 0;
    while i < haystack.len()
        invariant
            T::obeys_eq_spec(),
            0 <= i <= haystack@.len(),
            forall|k: int| 0 <= k < i ==> !(#[trigger] haystack@[k].eq_spec(&needle)),
        decreases haystack@.len() - i,
    {
        if haystack[i] == needle {
            return true;
        }
        i = i + 1;
    }
    false
}

} // verus!
