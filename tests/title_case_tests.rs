use phraze::case::{capitalize_first, make_title_case};

#[test]
fn can_make_word_title_case() {
    let test_word = "alpha";
    assert_eq!(make_title_case(test_word), "Alpha".to_string());
    let test_word = "ALPHA";
    assert_eq!(make_title_case(test_word), "Alpha".to_string());
    let test_word = "aLPHA";
    assert_eq!(make_title_case(test_word), "Alpha".to_string());
    let test_word = "aLPhA";
    assert_eq!(make_title_case(test_word), "Alpha".to_string());
}

#[test]
fn title_case_handles_non_ascii_first_letters() {
    assert_eq!(make_title_case("éCOLE"), "École".to_string());
    assert_eq!(make_title_case("ΣΟΦΊΑ"), "Σοφία".to_string());
    assert_eq!(make_title_case(""), "".to_string());
    assert_eq!(make_title_case("x"), "X".to_string());
}

#[test]
fn capitalize_first_changes_only_the_first_character() {
    assert_eq!(capitalize_first("alPHA"), "AlPHA".to_string());
    // the upper case of ß is two characters
    assert_eq!(capitalize_first("ßa"), "SSa".to_string());
    assert_eq!(capitalize_first(""), "".to_string());
}
