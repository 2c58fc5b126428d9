use phraze::{calculate_number_words_needed, convert_minimum_entropy_to_number_of_words};

#[test]
fn can_accurately_calculate_the_number_of_words_to_put_in_a_passphrase_given_a_desired_number_of_words()
{
    assert_eq!(calculate_number_words_needed(Some(8), None, 0, 4000), 8);
}

#[test]
fn can_accurately_calculate_the_number_of_words_to_put_in_a_passphrase_given_a_strength_count() {
    // 100 / 13 is a little over 7, so 8 words are needed
    assert_eq!(calculate_number_words_needed(None, None, 1, 8192), 8);
    // 120 / 13 is a little over 9, so 10 words are needed
    assert_eq!(calculate_number_words_needed(None, None, 2, 8192), 10);
}

#[test]
fn can_accurately_calculate_the_number_of_words_to_put_in_a_passphrase_given_a_desired_minimum_entropy()
{
    assert_eq!(calculate_number_words_needed(None, Some(102), 0, 8192), 8);
    assert_eq!(calculate_number_words_needed(None, Some(106), 0, 8192), 9);
}

#[test]
fn can_calculate_number_of_words_to_use_given_minimum_entropy() {
    // A list of 8192 (2^13) words gives exactly 13 bits per word, so four
    // words give 52 bits, enough for 51.
    let list_length = 8192;
    let desired_minimum_entropy = 51;
    assert_eq!(
        convert_minimum_entropy_to_number_of_words(desired_minimum_entropy, list_length),
        4
    );
}

#[test]
fn default_strength_uses_eighty_bits() {
    // ceil(80 / 13) == 7
    assert_eq!(calculate_number_words_needed(None, None, 0, 8192), 7);
}

#[test]
fn explicit_word_count_wins_over_everything() {
    assert_eq!(calculate_number_words_needed(Some(3), Some(500), 4, 2), 3);
    assert_eq!(calculate_number_words_needed(Some(1), None, 0, 0), 1);
}

#[test]
fn strength_and_minimum_entropy_take_the_larger() {
    // strength 1 asks for 100 bits; 130 bits is more
    assert_eq!(calculate_number_words_needed(None, Some(130), 1, 8192), 10);
    // strength 2 asks for 120 bits; 50 bits is less
    assert_eq!(calculate_number_words_needed(None, Some(50), 2, 8192), 10);
}

#[test]
fn exact_powers_need_no_extra_word() {
    // 13 bits per word: 52 bits are met by exactly four words
    assert_eq!(convert_minimum_entropy_to_number_of_words(52, 8192), 4);
    assert_eq!(convert_minimum_entropy_to_number_of_words(53, 8192), 5);
    // one bit per word
    assert_eq!(convert_minimum_entropy_to_number_of_words(1000, 2), 1000);
    assert_eq!(convert_minimum_entropy_to_number_of_words(0, 10), 0);
}

#[test]
fn lists_whose_length_is_not_a_power_of_two() {
    // log2(7776) is about 12.92: six words give 77.5 bits, seven give 90.5
    assert_eq!(convert_minimum_entropy_to_number_of_words(80, 7776), 7);
    // log2(17576) is about 14.10: five words give 70.5 bits, six give 84.6
    assert_eq!(convert_minimum_entropy_to_number_of_words(80, 17576), 6);
    // log2(1633) is about 10.67: 7 words give 74.7 bits, 8 give 85.4
    assert_eq!(convert_minimum_entropy_to_number_of_words(80, 1633), 8);
    // 3^5 = 243 < 256 = 2^8 <= 729 = 3^6
    assert_eq!(convert_minimum_entropy_to_number_of_words(8, 3), 6);
}

#[test]
fn large_lists_and_large_entropies() {
    // 2^64 - 1 words: each word gives just under 64 bits
    assert_eq!(convert_minimum_entropy_to_number_of_words(64, usize::MAX), 2);
    assert_eq!(convert_minimum_entropy_to_number_of_words(63, usize::MAX), 1);
    // 1296 = 6^4: 10.34 bits per word, 500 bits need 49 words
    assert_eq!(convert_minimum_entropy_to_number_of_words(500, 1296), 49);
}
