use phraze::unicode_normalization_check::{
    detect_form, uniform_forms, uniform_unicode_normalization, NormalizationForm,
};

#[test]
fn can_detect_non_uniform_unicode_normalization_in_a_given_list() {
    let normalization_type_1 = "s\u{e9}cr\u{e9}ter";
    let normalization_type_2 = "se\u{301}cre\u{301}ter";
    let non_uniform_list = vec![
        normalization_type_1.to_string(),
        normalization_type_2.to_string(),
    ];
    assert!(!uniform_unicode_normalization(&non_uniform_list));

    let uniform_list = vec![
        "alpha".to_string(),
        "beta".to_string(),
        "charlie".to_string(),
    ];
    assert!(uniform_unicode_normalization(&uniform_list));

    let uniform_list2 = vec![
        "alpha".to_string(),
        "beta".to_string(),
        normalization_type_1.to_string(),
        "charlie".to_string(),
        normalization_type_1.to_string(),
    ];
    assert!(uniform_unicode_normalization(&uniform_list2));
}

#[test]
fn forms_of_composed_and_decomposed_words() {
    assert_eq!(detect_form("caf\u{e9}"), Some(NormalizationForm::Nfc));
    assert_eq!(detect_form("cafe\u{301}"), Some(NormalizationForm::Nfd));
    assert_eq!(detect_form("cafe"), Some(NormalizationForm::Nfc));
}

#[test]
fn uniform_forms_refuses_only_two_different_forms() {
    assert!(uniform_forms(&[Some(NormalizationForm::Nfc), None, Some(NormalizationForm::Nfc)]));
    assert!(!uniform_forms(&[Some(NormalizationForm::Nfc), Some(NormalizationForm::Nfd)]));
    assert!(uniform_forms(&[None, None]));
    assert!(uniform_forms(&[]));
    assert!(uniform_forms(&[None, Some(NormalizationForm::Nfd)]));
}

#[test]
fn lists_without_two_forms_are_uniform() {
    let empty: Vec<String> = vec![];
    assert!(uniform_unicode_normalization(&empty));
    let ascii = vec!["plain".to_string(), "WORDS".to_string(), "".to_string()];
    assert!(uniform_unicode_normalization(&ascii));
}
