use data_gen::arith::{comb, perm, power, solve};
use data_gen::task::MOD;

#[test]
fn testcase() {
    assert_eq!(12, solve(1, 1, MOD));
    assert_eq!(37440, solve(3, 4, MOD));
    assert_eq!(221760, solve(5, 2, MOD));
    assert_eq!(0, solve(1, 10, MOD));
    assert_eq!(448039733, solve(1998, 2000, MOD));
    assert_eq!(579403511, solve(1579, 1452, MOD));
}

#[test]
fn solve_zero_beyond_boundary() {
    assert_eq!(0, solve(1, 5, MOD));
    assert_eq!(0, solve(2, 6, MOD));
    assert_eq!(0, solve(10, 14, MOD));
}

#[test]
fn solve_nonzero_at_boundary() {
    // m == n + 3 still admits arrangements: only m > n + 3 forces zero
    assert_eq!(144, solve(1, 4, MOD));
}

#[test]
fn perm_values() {
    assert_eq!(20, perm(5, 2, MOD));
    assert_eq!(0, perm(1, 2, MOD));
    assert_eq!(1, perm(7, 0, MOD));
    assert_eq!(120, perm(5, 5, MOD));
}

#[test]
fn comb_values() {
    assert_eq!(6, comb(4, 2, MOD));
    assert_eq!(0, comb(2, 3, MOD));
    assert_eq!(1, comb(9, 0, MOD));
    assert_eq!(10, comb(5, 2, MOD));
}

#[test]
fn power_values() {
    assert_eq!(1024, power(2, 10, MOD));
    assert_eq!(1, power(5, 0, MOD));
    assert_eq!(0, power(0, 3, MOD));
    // Fermat: a^(p-1) == 1 mod p for a not divisible by the prime p
    assert_eq!(1, power(123456, MOD - 1, MOD));
}
