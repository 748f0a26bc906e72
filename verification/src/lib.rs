//! Chaum-Pedersen zero-knowledge-proof authentication.
//!
//! A client proves knowledge of a secret exponent `x` without revealing it:
//! it registers the commitment pair `(alpha^x mod p, beta^x mod p)`, then
//! answers a random server challenge `c` with `s = (k - c*x) mod q`, which the
//! server checks against the commitments of the ephemeral secret `k`.

pub mod laws;
pub mod math;
pub mod params;
pub mod rng;
pub mod server;
pub mod store;
