use numbers::primes::{
    fermat_primality_test, fermat_round, fermat_test_with_witnesses, generate, is_prime_trial,
};

#[test]
fn primes_upto_thirty_should_be_generated_correctly() {
    let expected_prime_numbers = vec![2, 3, 5, 7, 11, 13, 17, 19, 23, 29];

    let actual_generated_prime_numbers = generate(30);

    assert_eq!(actual_generated_prime_numbers, expected_prime_numbers);
}

#[test]
fn all_is_prime() {
    let prime_numbers = vec![2, 3, 5, 7, 11, 13, 17, 19, 23, 29];

    let is_every_number_in_vector_prime = prime_numbers.into_iter().all(|x| is_prime_trial(x));

    assert!(is_every_number_in_vector_prime);
}

#[test]
fn all_is_not_prime() {
    let not_prime_numbers = vec![1, 4, 6, 8, 9, 10, 12, 14, 15, 16, 18, 20, 21, 22];

    let is_every_number_in_vector_not_prime =
        not_prime_numbers.into_iter().all(|x| !is_prime_trial(x));

    assert!(is_every_number_in_vector_not_prime);
}

#[test]
fn zero_is_not_prime() {
    let not_prime_number = 0;

    let is_prime_number = is_prime_trial(not_prime_number);

    assert_eq!(is_prime_number, false);
}

#[test]
fn one_is_not_prime() {
    let not_prime_number = 1;

    let is_prime_number = is_prime_trial(not_prime_number);

    assert_eq!(is_prime_number, false);
}

#[test]
fn zero_is_not_prime_fermat() {
    let not_prime_number = 0;

    let is_prime_number = fermat_primality_test(not_prime_number, 10);

    assert_eq!(is_prime_number, false, "Fermat primality test counted 0 as prime number");
}

#[test]
fn all_is_prime_fermat() {
    let prime_numbers = vec![2, 3, 5, 7, 11, 13, 17, 19, 23, 29];

    let is_every_number_in_vector_prime =
        prime_numbers.into_iter().all(|n| fermat_primality_test(n, 100));

    assert!(
        is_every_number_in_vector_prime,
        "Fermat primality test counted some number in the given vector as a composite"
    );
}

#[test]
fn all_is_not_prime_fermat() {
    let not_prime_numbers = vec![1, 4, 6, 8, 9, 10, 12, 14, 15, 16, 18, 20, 21, 22];

    let is_every_number_in_vector_not_prime =
        not_prime_numbers.into_iter().all(|n| !fermat_primality_test(n, 100));

    assert!(
        is_every_number_in_vector_not_prime,
        "Fermat primality test counted some number in the given vector as a prime"
    );
}

#[test]
fn generate_below_two_is_empty() {
    assert_eq!(generate(0), Vec::<usize>::new());
    assert_eq!(generate(1), Vec::<usize>::new());
    assert_eq!(generate(2), vec![2]);
}

#[test]
fn generate_includes_a_prime_bound() {
    assert_eq!(generate(13), vec![2, 3, 5, 7, 11, 13]);
}

#[test]
fn trial_division_agrees_with_sieve_up_to_ten_thousand() {
    let primes = generate(10000);
    assert_eq!(primes.len(), 1229);
    for n in 0..=10000u64 {
        assert_eq!(is_prime_trial(n), primes.contains(&(n as usize)), "disagreement at {}", n);
    }
}

#[test]
fn generate_twice_gives_the_same_primes() {
    assert_eq!(generate(1000), generate(1000));
}

#[test]
fn trial_division_on_squares_of_primes() {
    assert!(!is_prime_trial(49));
    assert!(!is_prime_trial(10403));
    assert!(!is_prime_trial(4294967291 * 3));
    assert!(is_prime_trial(4294967291));
    assert!(is_prime_trial(1000000007));
}

#[test]
fn fermat_never_rejects_primes() {
    for n in 2..200u64 {
        if is_prime_trial(n) {
            for _ in 0..5 {
                assert!(fermat_primality_test(n, 10), "prime {} rejected", n);
            }
        }
    }
}

#[test]
fn fermat_with_no_rounds_accepts() {
    assert!(fermat_primality_test(15, 0));
    assert!(fermat_primality_test(2, 0));
    assert!(!fermat_primality_test(1, 0));
}

#[test]
fn fermat_rejects_a_base_two_pseudoprime() {
    // 341 = 11 * 31 passes the round with witness two, but most witnesses expose it.
    assert!(fermat_round(341, 2));
    assert!(!fermat_primality_test(341, 100));
}

#[test]
fn fermat_round_values() {
    assert!(!fermat_round(15, 2));
    assert!(fermat_round(7, 3));
    assert!(fermat_round(13, 12));
}

#[test]
fn fermat_with_given_witnesses() {
    assert!(!fermat_test_with_witnesses(0, &vec![]));
    assert!(!fermat_test_with_witnesses(1, &vec![2]));
    assert!(fermat_test_with_witnesses(2, &vec![]));
    assert!(fermat_test_with_witnesses(3, &vec![5]));
    assert!(fermat_test_with_witnesses(15, &vec![]));
    assert!(!fermat_test_with_witnesses(15, &vec![4, 2]));
    assert!(fermat_test_with_witnesses(15, &vec![4, 11]));
    assert!(fermat_test_with_witnesses(29, &vec![2, 3, 27]));
}

#[test]
fn fermat_is_fooled_by_a_carmichael_number() {
    // 561 = 3 * 11 * 17 passes for every witness coprime to it.
    assert!(fermat_test_with_witnesses(561, &vec![2, 5, 7, 13]));
    assert!(!fermat_test_with_witnesses(561, &vec![3]));
}
