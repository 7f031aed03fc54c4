use soundex::factorial::iterative_factorial;
use soundex::factorial::recursive_factorial;

#[test]
fn test_iterative_factorial_0() {
    assert_eq!(iterative_factorial(0), 1);
}

#[test]
fn test_iterative_factorial_1() {
    assert_eq!(iterative_factorial(1), 1);
}

#[test]
fn test_factorial_0() {
    assert_eq!(recursive_factorial(0), 1);
}

#[test]
fn test_factorial_1() {
    assert_eq!(recursive_factorial(1), 1);
}

#[test]
fn test_factorial_2() {
    assert_eq!(recursive_factorial(2), 2);
    assert_eq!(recursive_factorial(3), 6);
    assert_eq!(recursive_factorial(4), 24);
    assert_eq!(recursive_factorial(5), 120);
}

#[test]
fn test_factorial_forms_agree() {
    for n in 0..10u64 {
        assert_eq!(recursive_factorial(n), iterative_factorial(n));
    }
}
