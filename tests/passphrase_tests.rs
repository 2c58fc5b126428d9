use phraze::cli::{validate_settings, parse_list_choice, Args, ListChoice};
use phraze::error::PhrazeError;
use phraze::passphrase::assemble_passphrase;
use phraze::word_list::WordSource;
use phraze::{calculate_number_words_needed, generate_a_passphrase, generate_passphrases};

fn numbered_list(n: usize) -> WordSource {
    WordSource::Custom((0..n).map(|i| format!("w{}", i)).collect())
}

fn settings() -> Args {
    Args {
        strength_count: 0,
        minimum_entropy: None,
        number_of_words: None,
        n_passphrases: 1,
        separator: "-".to_string(),
        list_choice: ListChoice::Medium,
        custom_list_file_path: None,
        title_case: false,
        verbose: false,
    }
}

#[test]
fn assemble_joins_picked_words_with_separators() {
    let source = WordSource::Custom(vec!["alpha".to_string(), "BETA".to_string()]);
    let seps = vec!["1".to_string(), "+".to_string()];
    assert_eq!(assemble_passphrase(&source, &[1, 0, 1], &seps, false), "BETA1alpha+BETA");
    assert_eq!(assemble_passphrase(&source, &[1, 0, 1], &seps, true), "Beta1Alpha+Beta");
    assert_eq!(assemble_passphrase(&source, &[0], &[], false), "alpha");
    assert_eq!(assemble_passphrase(&source, &[], &[], false), "");
}

#[test]
fn passphrase_has_one_separator_fewer_than_words() {
    let mut rng = rand::rng();
    let list = WordSource::Custom(vec!["ab".to_string(), "cd".to_string()]);
    for count in 1..8 {
        let p = generate_a_passphrase(count, "_n", false, &list, &mut rng).unwrap();
        let digits = p.chars().filter(|c| c.is_ascii_digit()).count();
        let letters = p.chars().filter(|c| c.is_ascii_lowercase()).count();
        assert_eq!(digits, count - 1);
        assert_eq!(letters, 2 * count);
    }
    let single = generate_a_passphrase(1, "-", false, &list, &mut rng).unwrap();
    assert!(single == "ab" || single == "cd");
    assert_eq!(generate_a_passphrase(0, "-", false, &list, &mut rng), Ok(String::new()));
}

#[test]
fn title_case_passphrase_words() {
    let mut rng = rand::rng();
    let list = WordSource::Custom(vec!["mIxEd".to_string()]);
    let p = generate_a_passphrase(3, " ", true, &list, &mut rng).unwrap();
    assert_eq!(p, "Mixed Mixed Mixed");
}

#[test]
fn empty_word_source_is_refused() {
    let mut rng = rand::rng();
    let list = WordSource::Custom(vec![]);
    assert_eq!(generate_a_passphrase(3, "-", false, &list, &mut rng), Err(PhrazeError::EmptyList));
    assert_eq!(generate_a_passphrase(0, "-", false, &list, &mut rng), Err(PhrazeError::EmptyList));
}

#[test]
fn default_settings_on_a_medium_sized_list_give_seven_words() {
    let mut rng = rand::rng();
    let list = numbered_list(8192);
    let words = calculate_number_words_needed(None, None, 0, list.len());
    assert_eq!(words, 7);
    // 7 * 13 = 91 bits: at least 80, and under 80 + 13
    assert!(words * 13 >= 80 && words * 13 < 93);
    let p = generate_a_passphrase(words, "-", false, &list, &mut rng).unwrap();
    assert_eq!(p.split('-').count(), 7);
    assert!(p.split('-').all(|w| w.starts_with('w')));
}

#[test]
fn generate_passphrases_makes_as_many_as_asked() {
    let mut rng = rand::rng();
    let list = numbered_list(8192);
    let mut opt = settings();
    opt.n_passphrases = 4;
    opt.strength_count = 1;
    let all = generate_passphrases(&opt, &list, &mut rng).unwrap();
    assert_eq!(all.len(), 4);
    for p in &all {
        assert_eq!(p.split('-').count(), 8);
    }
    opt.number_of_words = Some(2);
    opt.n_passphrases = 0;
    assert_eq!(generate_passphrases(&opt, &list, &mut rng), Ok(vec![]));
}

#[test]
fn list_choices_parse_in_either_case() {
    assert_eq!(parse_list_choice("m"), Ok(ListChoice::Medium));
    assert_eq!(parse_list_choice("L"), Ok(ListChoice::Long));
    assert_eq!(parse_list_choice("e"), Ok(ListChoice::Eff));
    assert_eq!(parse_list_choice("N"), Ok(ListChoice::Mnemonicode));
    assert_eq!(parse_list_choice("s"), Ok(ListChoice::Effshort));
    assert_eq!(parse_list_choice("q"), Ok(ListChoice::Qwerty));
    assert_eq!(parse_list_choice("A"), Ok(ListChoice::Alpha));
    assert_eq!(parse_list_choice("x"), Err(PhrazeError::UnknownList));
    assert_eq!(parse_list_choice("mm"), Err(PhrazeError::UnknownList));
    assert_eq!(parse_list_choice(""), Err(PhrazeError::UnknownList));
}

#[test]
fn custom_list_needs_a_separator_or_title_case() {
    let mut opt = settings();
    assert_eq!(validate_settings(&opt), Ok(()));
    opt.custom_list_file_path = Some("words.txt".to_string());
    assert_eq!(validate_settings(&opt), Ok(()));
    opt.separator = String::new();
    assert_eq!(validate_settings(&opt), Err(PhrazeError::SeparatorOrTitleCaseNeeded));
    opt.title_case = true;
    assert_eq!(validate_settings(&opt), Ok(()));
}

#[test]
fn built_in_lists_have_their_known_lengths() {
    assert_eq!(ListChoice::Long.expected_length(), 17576);
    assert_eq!(ListChoice::Medium.expected_length(), 8192);
    assert_eq!(ListChoice::Eff.expected_length(), 7776);
    assert_eq!(ListChoice::Mnemonicode.expected_length(), 1633);
    assert_eq!(ListChoice::Effshort.expected_length(), 1296);
    assert_eq!(ListChoice::Qwerty.expected_length(), 1296);
    assert_eq!(ListChoice::Alpha.expected_length(), 1296);
}
