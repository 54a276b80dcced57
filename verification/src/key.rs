use vstd::prelude::*;

verus! {

/// A value that can serve as the key of a [`crate::table::Table`].
///
/// Two keys are the same key exactly when their views are equal; `same`
/// decides that at run time and `duplicate` makes a second key with the same
/// view.
pub trait Key: View + Sized {
    fn same(&self, other: &Self) -> (r: bool)
        ensures
            r == (self@ == other@),
    ;

    fn duplicate(&self) -> (r: Self)
        ensures
            r@ == self@,
    ;
}

} // verus!
