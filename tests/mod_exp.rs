use numbers::mod_exp::{mod_exp_u128, ModExp};

#[test]
fn modular_exponentiation_of_4_13_and_497_should_be_equal_445() {
    let base = 4;
    let exponent = 13;
    let modulus = 497;

    let ans: i32 = ModExp::mod_exp(base, exponent, modulus);

    assert_eq!(ans, 445);
}

#[test]
fn modular_exponentiation_of_5_3_and_13_should_be_equal_8() {
    let base = 5;
    let exponent = 3;
    let modulus = 13;

    let ans: i32 = ModExp::mod_exp(base, exponent, modulus);

    assert_eq!(ans, 8);
}

#[test]
fn zero_exponent_gives_one() {
    assert_eq!(<u32 as ModExp>::mod_exp(12345, 0, 7), 1);
    assert_eq!(<i64 as ModExp>::mod_exp(0, 0, 2), 1);
    assert_eq!(<u8 as ModExp>::mod_exp(255, 0, 255), 1);
}

#[test]
fn modulus_one_gives_zero() {
    assert_eq!(<u64 as ModExp>::mod_exp(9, 4, 1), 0);
    assert_eq!(<i16 as ModExp>::mod_exp(3, 0, 1), 0);
    assert_eq!(<usize as ModExp>::mod_exp(0, 0, 1), 0);
}

#[test]
fn mod_exp_on_every_width() {
    assert_eq!(<u8 as ModExp>::mod_exp(250, 3, 251), 250);
    assert_eq!(<i8 as ModExp>::mod_exp(3, 4, 100), 81);
    assert_eq!(<u16 as ModExp>::mod_exp(2, 15, 60000), 32768);
    assert_eq!(<i32 as ModExp>::mod_exp(7, 2, 10), 9);
    assert_eq!(<u128 as ModExp>::mod_exp(2, 10, 1000), 24);
    assert_eq!(<i128 as ModExp>::mod_exp(10, 3, 7), 6);
    assert_eq!(<isize as ModExp>::mod_exp(2, 5, 31), 1);
}

#[test]
fn mod_exp_with_base_above_modulus() {
    assert_eq!(<u32 as ModExp>::mod_exp(17, 2, 5), 4);
}

#[test]
fn mod_exp_with_large_operands() {
    let m: u128 = u64::MAX as u128;
    assert_eq!(mod_exp_u128(m - 1, 2, m), 1);
    assert_eq!(mod_exp_u128(3, 5, 1), 0);
}

#[test]
fn mod_exp_reduces_a_large_base_first() {
    assert_eq!(<u128 as ModExp>::mod_exp(u128::MAX, 0, 3), 1);
    assert_eq!(<u128 as ModExp>::mod_exp(u128::MAX, 5, 3), 0);
    assert_eq!(<u128 as ModExp>::mod_exp(u128::MAX, 1, 7), 3);
    assert_eq!(<u128 as ModExp>::mod_exp(u128::MAX, 2, 7), 2);
    assert_eq!(mod_exp_u128(u128::MAX, 2, 7), 2);
}
