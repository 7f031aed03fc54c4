use soundex::fact::fact;

#[test]
fn test_fact_0_is_1() {
    assert_eq!(fact(0), 1);
}

#[test]
fn test_fact_1_is_1() {
    assert_eq!(fact(1), 1);
}

#[test]
fn test_fact_2_is_2() {
    // 2! = 1 * 2 = 2
    assert_eq!(fact(2), 2);
}

#[test]
fn test_fact_3_5() {
    assert_eq!(fact(3), 6);
    assert_eq!(fact(4), 24);
    assert_eq!(fact(5), 120);
}
