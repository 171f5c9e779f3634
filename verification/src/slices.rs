use vstd::prelude::*;

verus! {

/// Calls std's `TryFrom<&[T]>` for `&[T; N]`, which succeeds exactly on a
/// slice of `N` elements and then refers to the same elements. Trusted: both
/// are claimed.
#[verifier::external_body]
fn as_array_ref<const N: usize, T>(slice: &[T]) -> (r: Option<&[T; N]>)
    ensures
        r is Some <==> slice@.len() == N,
        r matches Some(array) ==> array@ == slice@,
{
    match <&[T; N]>::try_from(slice) {
        Ok(array) => Some(array),
        Err(_) => None,
    }
}

/// Splits a slice into its first `N` elements, as an array, and the rest.
pub fn split_array_ref<const N: usize, T>(slice: &[T]) -> (r: (&[T; N], &[T]))
    requires
        N <= slice@.len(),
    ensures
        r.0@ == slice@.subrange(0, N as int),
        r.1@ == slice@.subrange(N as int, slice@.len() as int),
{
    let (a, b) = slice.split_at(N);
    match as_array_ref::<N, T>(a) {
        Some(array) => (array, b),
        None => vstd::pervasive::unreached(),
    }
}

} // verus!
