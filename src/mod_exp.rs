//! Modular exponentiation over the primitive integer types.

use vstd::arithmetic::div_mod::{lemma_mul_mod_noop_left, lemma_small_mod};
use vstd::arithmetic::power::{lemma_pow_mod_noop, pow};
use vstd::prelude::*;

verus! {

/// Computes `base^exponent mod modulus` on 128-bit operands: the base is
/// reduced modulo `modulus` first, then multiplied in once per unit of the
/// exponent, with a reduction after every step.
pub fn mod_exp_u128(base: u128, exponent: u128, modulus: u128) -> (r: u128)
    requires
        modulus > 0,
        exponent > 0 ==> (modulus - 1) * (modulus - 1) <= u128::MAX,
    ensures
        r == pow(base as int, exponent as nat) % (modulus as int),
        r < modulus,
{
    if modulus == 1 {
        return 0;
    }
    let b: u128 = base % modulus;
    let mut result: u128 = 1;
    let mut i: u128 = 0;
    proof {
        reveal(pow);
        lemma_small_mod(1, modulus as nat);
    }
    while i < exponent
        invariant
            i <= exponent,
            modulus > 1,
            b < modulus,
            exponent > 0 ==> (modulus - 1) * (modulus - 1) <= u128::MAX,
            result < modulus,
            result == pow(b as int, i as nat) % (modulus as int),
        decreases exponent - i,
    {
        proof {
            assert(result * b <= (modulus - 1) * (modulus - 1)) by (nonlinear_arith)
                requires
                    result < modulus,
                    b < modulus,
            ;
            lemma_mul_mod_noop_left(pow(b as int, i as nat), b as int, modulus as int);
            reveal(pow);
            assert(pow(b as int, (i + 1) as nat) == b * pow(b as int, i as nat));
        }
        result = (result * b) % modulus;
        i = i + 1;
    }
    proof {
        lemma_pow_mod_noop(base as int, exponent as nat, modulus as int);
    }
    result
}

/// Integer types on which modular exponentiation is available.
///
/// Each implementing type gives the mathematical value of its elements and
/// converts non-negative values to and from `u128`, where the computation
/// itself is carried out once for every type.
pub trait ModExp: Sized + Copy {
    /// The mathematical value of `self`.
    spec fn value(self) -> int;

    /// The largest value of the type.
    spec fn max_value() -> int;

    /// No value of the type exceeds its maximum.
    proof fn lemma_value_bounded(x: Self)
        ensures
            x.value() <= Self::max_value(),
    ;

    /// Widens a non-negative value to `u128`.
    fn to_u128(self) -> (r: u128)
        requires
            self.value() >= 0,
        ensures
            r as int == self.value(),
    ;

    /// Narrows a `u128` that fits in the type.
    fn from_u128(v: u128) -> (r: Self)
        requires
            v <= Self::max_value(),
        ensures
            r.value() == v as int,
    ;

    /// Computes `base^exponent mod modulus`.
    ///
    /// A modulus of one gives zero; otherwise an exponent of zero gives one.
    /// The base is reduced modulo `modulus` first, and every intermediate
    /// product of two residues is formed on 128 bits, so with a positive
    /// exponent `(modulus - 1)^2` must fit there.
    fn mod_exp(base: Self, exponent: Self, modulus: Self) -> (r: Self)
        requires
            base.value() >= 0,
            exponent.value() >= 0,
            modulus.value() > 0,
            exponent.value() > 0 ==> (modulus.value() - 1) * (modulus.value() - 1) <= u128::MAX,
        ensures
            r.value() == pow(base.value(), exponent.value() as nat) % modulus.value(),
            modulus.value() == 1 ==> r.value() == 0,
            modulus.value() > 1 && exponent.value() == 0 ==> r.value() == 1,
    {
        let b = base.to_u128();
        let e = exponent.to_u128();
        let m = modulus.to_u128();
        let r = mod_exp_u128(b, e, m);
        proof {
            Self::lemma_value_bounded(modulus);
            reveal(pow);
            if m > 1 {
                lemma_small_mod(1, m as nat);
            }
        }
        Self::from_u128(r)
    }
}

impl ModExp for i8 {
    open spec fn value(self) -> int {
        self as int
    }

    open spec fn max_value() -> int {
        i8::MAX as int
    }

    proof fn lemma_value_bounded(x: i8) {
        assert(<i8 as ModExp>::max_value() == i8::MAX as int);
    }

    fn to_u128(self) -> u128 {
        self as u128
    }

    fn from_u128(v: u128) -> i8 {
        assert(<i8 as ModExp>::max_value() == i8::MAX as int);
        v as i8
    }
}

impl ModExp for i16 {
    open spec fn value(self) -> int {
        self as int
    }

    open spec fn max_value() -> int {
        i16::MAX as int
    }

    proof fn lemma_value_bounded(x: i16) {
        assert(<i16 as ModExp>::max_value() == i16::MAX as int);
    }

    fn to_u128(self) -> u128 {
        self as u128
    }

    fn from_u128(v: u128) -> i16 {
        assert(<i16 as ModExp>::max_value() == i16::MAX as int);
        v as i16
    }
}

impl ModExp for i32 {
    open spec fn value(self) -> int {
        self as int
    }

    open spec fn max_value() -> int {
        i32::MAX as int
    }

    proof fn lemma_value_bounded(x: i32) {
        assert(<i32 as ModExp>::max_value() == i32::MAX as int);
    }

    fn to_u128(self) -> u128 {
        self as u128
    }

    fn from_u128(v: u128) -> i32 {
        assert(<i32 as ModExp>::max_value() == i32::MAX as int);
        v as i32
    }
}

impl ModExp for i64 {
    open spec fn value(self) -> int {
        self as int
    }

    open spec fn max_value() -> int {
        i64::MAX as int
    }

    proof fn lemma_value_bounded(x: i64) {
        assert(<i64 as ModExp>::max_value() == i64::MAX as int);
    }

    fn to_u128(self) -> u128 {
        self as u128
    }

    fn from_u128(v: u128) -> i64 {
        assert(<i64 as ModExp>::max_value() == i64::MAX as int);
        v as i64
    }
}

impl ModExp for i128 {
    open spec fn value(self) -> int {
        self as int
    }

    open spec fn max_value() -> int {
        i128::MAX as int
    }

    proof fn lemma_value_bounded(x: i128) {
        assert(<i128 as ModExp>::max_value() == i128::MAX as int);
    }

    fn to_u128(self) -> u128 {
        self as u128
    }

    fn from_u128(v: u128) -> i128 {
        assert(<i128 as ModExp>::max_value() == i128::MAX as int);
        v as i128
    }
}

impl ModExp for isize {
    open spec fn value(self) -> int {
        self as int
    }

    open spec fn max_value() -> int {
        isize::MAX as int
    }

    proof fn lemma_value_bounded(x: isize) {
        assert(<isize as ModExp>::max_value() == isize::MAX as int);
    }

    fn to_u128(self) -> u128 {
        self as u128
    }

    fn from_u128(v: u128) -> isize {
        assert(<isize as ModExp>::max_value() == isize::MAX as int);
        v as isize
    }
}

impl ModExp for u8 {
    open spec fn value(self) -> int {
        self as int
    }

    open spec fn max_value() -> int {
        u8::MAX as int
    }

    proof fn lemma_value_bounded(x: u8) {
        assert(<u8 as ModExp>::max_value() == u8::MAX as int);
    }

    fn to_u128(self) -> u128 {
        self as u128
    }

    fn from_u128(v: u128) -> u8 {
        assert(<u8 as ModExp>::max_value() == u8::MAX as int);
        v as u8
    }
}

impl ModExp for u16 {
    open spec fn value(self) -> int {
        self as int
    }

    open spec fn max_value() -> int {
        u16::MAX as int
    }

    proof fn lemma_value_bounded(x: u16) {
        assert(<u16 as ModExp>::max_value() == u16::MAX as int);
    }

    fn to_u128(self) -> u128 {
        self as u128
    }

    fn from_u128(v: u128) -> u16 {
        assert(<u16 as ModExp>::max_value() == u16::MAX as int);
        v as u16
    }
}

impl ModExp for u32 {
    open spec fn value(self) -> int {
        self as int
    }

    open spec fn max_value() -> int {
        u32::MAX as int
    }

    proof fn lemma_value_bounded(x: u32) {
        assert(<u32 as ModExp>::max_value() == u32::MAX as int);
    }

    fn to_u128(self) -> u128 {
        self as u128
    }

    fn from_u128(v: u128) -> u32 {
        assert(<u32 as ModExp>::max_value() == u32::MAX as int);
        v as u32
    }
}

impl ModExp for u64 {
    open spec fn value(self) -> int {
        self as int
    }

    open spec fn max_value() -> int {
        u64::MAX as int
    }

    proof fn lemma_value_bounded(x: u64) {
        assert(<u64 as ModExp>::max_value() == u64::MAX as int);
    }

    fn to_u128(self) -> u128 {
        self as u128
    }

    fn from_u128(v: u128) -> u64 {
        assert(<u64 as ModExp>::max_value() == u64::MAX as int);
        v as u64
    }
}

impl ModExp for u128 {
    open spec fn value(self) -> int {
        self as int
    }

    open spec fn max_value() -> int {
        u128::MAX as int
    }

    proof fn lemma_value_bounded(x: u128) {
        assert(<u128 as ModExp>::max_value() == u128::MAX as int);
    }

    fn to_u128(self) -> u128 {
        self as u128
    }

    fn from_u128(v: u128) -> u128 {
        assert(<u128 as ModExp>::max_value() == u128::MAX as int);
        v as u128
    }
}

impl ModExp for usize {
    open spec fn value(self) -> int {
        self as int
    }

    open spec fn max_value() -> int {
        usize::MAX as int
    }

    proof fn lemma_value_bounded(x: usize) {
        assert(<usize as ModExp>::max_value() == usize::MAX as int);
    }

    fn to_u128(self) -> u128 {
        self as u128
    }

    fn from_u128(v: u128) -> usize {
        assert(<usize as ModExp>::max_value() == usize::MAX as int);
        v as usize
    }
}

} // verus!
