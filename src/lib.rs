//! A small number-theory toolkit: modular exponentiation, a prime sieve,
//! trial-division primality and the Fermat probabilistic primality test.

pub mod mod_exp;
pub mod primes;
pub mod number_theory;
