//! BKZ cost model: log2 bit-operation cost of a reduction with a given
//! block size, in millibits (thousandths of a bit), with `None` standing
//! for the infeasible (unbounded) cost at the sentinel block size.

use vstd::prelude::*;

verus! {

/// Cost coefficient of the aggressive sieving variant: 0.265 bits per unit
/// of block size, in millibits.
pub const COST_SIEVING_MILLIBITS: u64 = 265;

/// Cost coefficient of the conservative default variant: 0.292 bits per
/// unit of block size, in millibits.
pub const COST_DEFAULT_MILLIBITS: u64 = 292;

/// The modelled cost in millibits: 0 below block size 2, unbounded (`None`)
/// from the sentinel 10000 upward, otherwise linear in the block size.
pub open spec fn spec_bkz_cost(beta: int, sieving: bool) -> Option<u64> {
    if beta < 2 {
        Some(0u64)
    } else if beta >= 10000 {
        None
    } else if sieving {
        Some((COST_SIEVING_MILLIBITS * beta) as u64)
    } else {
        Some((COST_DEFAULT_MILLIBITS * beta) as u64)
    }
}

/// At and beyond the sentinel block size the modelled cost is unbounded,
/// whichever cost variant is chosen.
pub proof fn lemma_cost_unbounded_at_sentinel(beta: int, sieving: bool)
    requires
        beta >= 10000,
    ensures
        spec_bkz_cost(beta, sieving) is None,
{
}

/// Cost of a BKZ reduction with block size `beta`, in millibits of log2
/// bit-operations; `None` means computationally infeasible and is returned
/// exactly for the sentinel range `beta >= 10000`.
pub fn bkz_cost(beta: usize, sieving: bool) -> (r: Option<u64>)
    ensures
        r == spec_bkz_cost(beta as int, sieving),
        r is None <==> beta >= 10000,
        beta < 2 ==> r == Some(0u64),
        2 <= beta < 10000 && sieving ==> r == Some((265 * beta) as u64),
        2 <= beta < 10000 && !sieving ==> r == Some((292 * beta) as u64),
{
    if beta < 2 {
        return Some(0);
    }
    if beta >= 10000 {
        return None;
    }
    if sieving {
        Some(COST_SIEVING_MILLIBITS * (beta as u64))
    } else {
        Some(COST_DEFAULT_MILLIBITS * (beta as u64))
    }
}

} // verus!
