use vstd::prelude::*;

verus! {

/// The iterator of mutable references that a slice hands out.
#[verifier::external_type_specification]
#[verifier::external_body]
#[verifier::reject_recursive_types(V)]
pub struct ExIterMut<'a, V: 'a>(std::slice::IterMut<'a, V>);

/// Relies on `IntoIterator` for `&mut [V]`: it borrows the slice for as long
/// as the iterator lives. Nothing is stated of the iterator itself.
pub assume_specification<'a, V>[ <&'a mut [V] as std::iter::IntoIterator>::into_iter ](
    s: &'a mut [V],
) -> std::slice::IterMut<'a, V>;

} // verus!
