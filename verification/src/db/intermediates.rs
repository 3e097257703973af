use vstd::prelude::*;

verus! {

/// The result row of a `COUNT` query.
pub struct Count {
    pub count: u32,
}

} // verus!
