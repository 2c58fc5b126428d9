use phraze::separators::{digit_separator, make_separator, number_or_symbol, symbol_separator};

const SYMBOLS: &str = "!@#$%&*(){}[]\\:;'<>?,./_-+=";

fn is_digit(s: &str) -> bool {
    s.chars().count() == 1 && s.chars().all(|c| c.is_ascii_digit())
}

fn is_symbol(s: &str) -> bool {
    s.chars().count() == 1 && s.chars().all(|c| SYMBOLS.contains(c))
}

#[test]
fn digits_and_symbols_by_index() {
    assert_eq!(digit_separator(0), "0");
    assert_eq!(digit_separator(7), "7");
    assert_eq!(symbol_separator(0), "!");
    assert_eq!(symbol_separator(13), "\\");
    assert_eq!(symbol_separator(26), "=");
}

#[test]
fn literal_separators_stand_for_themselves() {
    let mut rng = rand::rng();
    assert_eq!(make_separator(&mut rng, "-"), "-");
    assert_eq!(make_separator(&mut rng, ""), "");
    assert_eq!(make_separator(&mut rng, "_x"), "_x");
    assert_eq!(make_separator(&mut rng, "_nn"), "_nn");
}

#[test]
fn random_tokens_resolve_to_digits_and_symbols() {
    let mut rng = rand::rng();
    let mut saw_digit = false;
    let mut saw_symbol = false;
    for _ in 0..500 {
        assert!(is_digit(&make_separator(&mut rng, "_n")));
        assert!(is_symbol(&make_separator(&mut rng, "_s")));
        let either = make_separator(&mut rng, "_b");
        assert!(is_digit(&either) || is_symbol(&either));
        saw_digit |= is_digit(&either);
        saw_symbol |= is_symbol(&either);
    }
    assert!(saw_digit && saw_symbol);
}

#[test]
fn coin_picks_digit_or_symbol() {
    assert_eq!(number_or_symbol(0, 5, 3), "5");
    assert_eq!(number_or_symbol(1, 5, 3), "$");
    assert_eq!(number_or_symbol(1, 9, 22), "/");
}
