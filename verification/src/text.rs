use vstd::prelude::*;

verus! {

/// Whether `a` and `b` hold the same text.
pub fn str_equal(a: &str, b: &str) -> (res: bool)
    ensures
        res == (a@ == b@),
{
    a.to_owned() == b.to_owned()
}

} // verus!
