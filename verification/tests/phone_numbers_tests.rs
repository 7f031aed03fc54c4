use soundex::phone_numbers::build_database;
use soundex::phone_numbers::is_consistent;
use soundex::phone_numbers::is_number_contained_by_element_of_database;
use soundex::phone_numbers::parse_line;

#[test]
fn test_parse_line() {
    let input_line = "o) Bob 91 12 54 26";
    let expected_result = "91125426";
    assert_eq!(parse_line(input_line), expected_result);
    assert_eq!(parse_line("Alice 97 625 992"), "97625992");
    assert_eq!(parse_line("Emergency 911"), "911");
}

#[test]
fn test_build_database() {
    let input = "o) Bob 91 12 54 26\nAlice 97 625 992\nEmergency 911";
    let expected_result = vec![
        "911".to_string(),
        "91125426".to_string(),
        "97625992".to_string(),
    ];
    assert_eq!(build_database(input), expected_result);
}

#[test]
fn test_build_database_sorted() {
    let input = "o) Bob 91 12 54 26\nAlice 97 625 992\nEmergency 911";
    let expected_result = vec![
        "911".to_string(),
        "91125426".to_string(),
        "97625992".to_string(),
    ];
    assert_eq!(build_database(input), expected_result);
}

#[test]
fn test_is_number_contained_by_element_of_database() {
    let input = "o) Bob 91 12 54 26\nAlice 97 625 992\nEmergency 911";
    let database = build_database(input);
    assert_eq!(
        is_number_contained_by_element_of_database("911", &database),
        true
    );
    assert_eq!(
        is_number_contained_by_element_of_database("912", &database),
        false
    );
}

#[test]
fn test_is_consistent() {
    let database = build_database("o) Bob 91 12 54 26\nEmergency 911");
    assert_eq!(is_consistent(&database), false);
    let database = build_database("o) Bob 91 12 54 26\non-Emergency 912");
    assert_eq!(is_consistent(&database), true);
}

#[test]
fn test_parse_line_without_digits() {
    assert_eq!(parse_line(""), "");
    assert_eq!(parse_line("no digits here"), "");
}

#[test]
fn test_is_consistent_empty_and_single() {
    assert_eq!(is_consistent(&vec![]), true);
    assert_eq!(is_consistent(&vec!["911".to_string()]), true);
}

#[test]
fn test_is_consistent_equal_entries() {
    // An entry is a prefix of an equal later entry.
    let database = vec!["911".to_string(), "911".to_string()];
    assert_eq!(is_consistent(&database), false);
}
