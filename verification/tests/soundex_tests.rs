use soundex::encoder::soundex;

#[test]
fn test_1_retain_first_letter_of_one_letter_word() {
    let test_word = "A";
    assert_eq!(
        soundex(test_word)
            .unwrap()
            .chars()
            .next()
            .unwrap()
            .to_string(),
        test_word.chars().next().unwrap().to_string()
    );
}

#[test]
fn test_2_pad_one_letter_word_with_zeros() {
    let test_word = "A";
    let test_result = "A000";
    assert_eq!(soundex(test_word).unwrap(), test_result);
}

#[test]
fn test_3_encode_second_letter_encode_to_1() {
    assert_eq!(soundex("Ab").unwrap(), "A100");
    assert_eq!(soundex("Af").unwrap(), "A100");
    assert_eq!(soundex("Ap").unwrap(), "A100");
    assert_eq!(soundex("Av").unwrap(), "A100");
}

#[test]
fn test_4_encode_second_letter_c_g_j_k_q_s_x_z_encode_to_2() {
    assert_eq!(soundex("Ac").unwrap(), "A200");
    assert_eq!(soundex("Ag").unwrap(), "A200");
    assert_eq!(soundex("Aj").unwrap(), "A200");
    assert_eq!(soundex("Ak").unwrap(), "A200");
    assert_eq!(soundex("Aq").unwrap(), "A200");
    assert_eq!(soundex("As").unwrap(), "A200");
    assert_eq!(soundex("Ax").unwrap(), "A200");
    assert_eq!(soundex("Az").unwrap(), "A200");
}

#[test]
fn test_5_encode_second_letter_d_t_encode_to_3() {
    assert_eq!(soundex("Ad").unwrap(), "A300");
    assert_eq!(soundex("At").unwrap(), "A300");
}

#[test]
fn test_drop_vowels() {
    assert_eq!(soundex("Aaeiou").unwrap(), "A000");
    assert_eq!(soundex("AaTeiou").unwrap(), "A300");
    assert_eq!(soundex("Ae").unwrap(), "A000");
    assert_eq!(soundex("Ao").unwrap(), "A000");
    assert_eq!(soundex("Ay").unwrap(), "A000");
    assert_eq!(soundex("Ah").unwrap(), "A000");
    assert_eq!(soundex("Aw").unwrap(), "A000");
}

#[test]
fn test_6_encode_second_letter_l_encode_to_4() {
    assert_eq!(soundex("Al").unwrap(), "A400");
}

#[test]
fn test_7_encode_second_letter_m_n_encode_to_5() {
    assert_eq!(soundex("Am").unwrap(), "A500");
    assert_eq!(soundex("An").unwrap(), "A500");
}

#[test]
fn test_8_encode_second_letter_r_encode_to_6() {
    assert_eq!(soundex("Ar").unwrap(), "A600");
}

#[test]
fn test_9_encode_second_other_second_letter_encode_to_itself() {
    assert_eq!(soundex("Ar").unwrap(), "A600");
}

#[test]
fn test_10_encode_repeated_adjacent_letters_to_same_number() {
    assert_eq!(soundex("ab").unwrap(), "A100");
    assert_eq!(soundex("abfcgdt").unwrap(), "A123");
    assert_eq!(soundex("abbfcgdt").unwrap(), "A123");
}

#[test]
fn test_11_check_capitalization_of_first_letter() {
    assert_eq!(soundex("a").unwrap(), "A000");
    assert_eq!(soundex("A").unwrap(), "A000");
}

#[test]
fn test_12_drop_h_w_between_two_like_digits() {
    assert_eq!(soundex("Abhfchq").unwrap(), "A120");
}

#[test]
fn test_13_drop_vowel_between_two_like_digits_and_double_encode_digits() {
    assert_eq!(soundex("Abyfcaq").unwrap(), "A112");
}

#[test]
fn test_14_double_encode_duplicate_digit_after_first_letter() {
    // When the second letter shares the first letter's digit, it is doubled
    // only if a vowel stands between the two consonants.
    assert_eq!(soundex("Bab").unwrap(), "B100");
    assert_eq!(soundex("Aab").unwrap(), "A100");
}
