//! Filling the fixed-size text fields of a balloon notification.

use vstd::prelude::*;

verus! {

/// `dst` after copying as many of `units` as fit while keeping room for a
/// trailing NUL, then the NUL.
pub open spec fn filled(dst: Seq<u16>, units: Seq<u16>) -> Seq<u16> {
    let n = if units.len() < dst.len() - 1 {
        units.len() as int
    } else {
        dst.len() - 1
    };
    Seq::new(
        dst.len(),
        |i: int|
            if i < n {
                units[i]
            } else if i == n {
                0u16
            } else {
                dst[i]
            },
    )
}

/// Copies UTF-16 `units` into `dst`, always leaving a trailing NUL.
pub fn fill_wide(dst: &mut Vec<u16>, units: &Vec<u16>)
    requires
        old(dst)@.len() > 0,
    ensures
        final(dst)@ == filled(old(dst)@, units@),
{
    let ghost d0 = dst@;
    let mut i: usize = 0;
    while i < units.len() && i + 1 < dst.len()
        invariant
            d0.len() > 0,
            dst@.len() == d0.len(),
            i <= units.len(),
            i < d0.len(),
            forall|j: int| 0 <= j < i ==> dst@[j] == units@[j],
            forall|j: int| i <= j < d0.len() ==> dst@[j] == d0[j],
        decreases units.len() - i,
    {
        dst.set(i, units[i]);
        i = i + 1;
    }
    dst.set(i, 0);
    assert(dst@ =~= filled(d0, units@));
}

} // verus!
