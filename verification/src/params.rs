//! Public group parameters: two generators of a prime-order subgroup of the
//! multiplicative group modulo `p`, shared by client and server.

use vstd::prelude::*;
use vstd::arithmetic::power::pow;
use crate::math::mod_exp;

verus! {

/// Fixed public description of the group: generators `alpha` and `beta` of
/// order `q` inside the multiplicative group modulo the prime `p`.
#[derive(Clone, Copy, PartialEq, Eq, Structural, Debug)]
pub struct GroupParameters {
    pub alpha: u64,
    pub beta: u64,
    pub p: u64,
    pub q: u64,
}

impl GroupParameters {
    /// Well-formedness: the moduli are meaningful, the generators are
    /// nonzero residues, and both have order dividing `q`, i.e.
    /// `g^q mod p == 1`.
    pub open spec fn wf(self) -> bool {
        &&& self.p > 1
        &&& self.q > 0
        &&& 0 < self.alpha < self.p
        &&& 0 < self.beta < self.p
        &&& pow(self.alpha as int, self.q as nat) % (self.p as int) == 1
        &&& pow(self.beta as int, self.q as nat) % (self.p as int) == 1
    }

    /// Checks a candidate set of parameters at startup; returns them only
    /// when they are well formed.
    pub fn new(alpha: u64, beta: u64, p: u64, q: u64) -> (r: Option<GroupParameters>)
        ensures
            r matches Some(g) ==> g == (GroupParameters { alpha, beta, p, q }) && g.wf(),
            r is None ==> !(GroupParameters { alpha, beta, p, q }).wf(),
    {
        if p > 1 && q > 0 && 0 < alpha && alpha < p && 0 < beta && beta < p
            && mod_exp(alpha, q, p) == 1 && mod_exp(beta, q, p) == 1 {
            Some(GroupParameters { alpha, beta, p, q })
        } else {
            None
        }
    }

    /// The small demonstration group baked into client and server: the
    /// subgroup of order 11 generated by 4 and 9 modulo the prime 23.
    pub fn get_constants() -> (r: GroupParameters)
        ensures
            r.wf(),
            r.alpha == 4,
            r.beta == 9,
            r.p == 23,
            r.q == 11,
    {
        proof {
            reveal_with_fuel(pow, 12);
            assert(pow(4, 11) % 23 == 1);
            assert(pow(9, 11) % 23 == 1);
        }
        GroupParameters { alpha: 4, beta: 9, p: 23, q: 11 }
    }
}

} // verus!
