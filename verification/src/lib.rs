//! Building blocks for anonymous-credential-style systems: probabilistic
//! prime and safe-prime generation, Pedersen commitments over a prime-order
//! group, Schnorr proofs of knowledge of a commitment opening (with a
//! linear-relation variant), and Camenisch-Lysyanskaya-style multi-message
//! signatures with selective disclosure.

pub mod bigint;
pub mod cl;
pub mod group;
pub mod modmath;
pub mod pedersen;
pub mod primes;
pub mod schnorr;
