//! The text placed between the words of a passphrase: a literal string, or a
//! token that asks for a random digit, a random symbol, or either.
use rand::rngs::ThreadRng;
use rand::Rng;
use vstd::prelude::*;

verus! {

#[verifier::external_type_specification]
#[verifier::external_body]
pub struct ExThreadRng(ThreadRng);

/// Relies on rand's `Rng::random_range`: it returns a uniformly drawn value of
/// the range `0..n`, and panics only when that range is empty.
#[verifier::external_body]
pub(crate) fn random_below(rng: &mut ThreadRng, n: usize) -> (r: usize)
    requires
        n > 0,
    ensures
        r < n,
{
    rng.random_range(0..n)
}

/// The decimal digits, in order.
pub open spec fn decimal_digits() -> Seq<char> {
    seq!['0', '1', '2', '3', '4', '5', '6', '7', '8', '9']
}

/// The symbols a random symbol separator is drawn from, in order.
pub open spec fn separator_symbols() -> Seq<char> {
    seq![
        '!', '@', '#', '$', '%', '&', '*', '(', ')', '{', '}', '[', ']', '\\', ':', ';', '\'',
        '<', '>', '?', ',', '.', '/', '_', '-', '+', '=',
    ]
}

/// The special separator made of an underscore and `code`.
pub open spec fn token(code: char) -> Seq<char> {
    seq!['_', code]
}

/// `s` is one decimal digit.
pub open spec fn is_digit_separator(s: Seq<char>) -> bool {
    s.len() == 1 && decimal_digits().contains(s[0])
}

/// `s` is one symbol of the separator symbols.
pub open spec fn is_symbol_separator(s: Seq<char>) -> bool {
    s.len() == 1 && separator_symbols().contains(s[0])
}

/// `r` is a possible resolution of the separator setting `sep`: `_n` gives a
/// digit, `_s` a symbol, `_b` either, and anything else stands for itself.
pub open spec fn is_separator_outcome(sep: Seq<char>, r: Seq<char>) -> bool {
    if sep == token('n') {
        is_digit_separator(r)
    } else if sep == token('s') {
        is_symbol_separator(r)
    } else if sep == token('b') {
        is_digit_separator(r) || is_symbol_separator(r)
    } else {
        r == sep
    }
}

/// `sep` is one of the tokens that ask for a random separator.
pub open spec fn is_random_token(sep: Seq<char>) -> bool {
    sep == token('n') || sep == token('s') || sep == token('b')
}

/// Whether `sep` is the special separator made of an underscore and `code`.
fn is_token(sep: &str, code: char) -> (r: bool)
    ensures
        r == (sep@ == token(code)),
{
    let n = sep.unicode_len();
    if n != 2 {
        return false;
    }
    let r = sep.get_char(0) == '_' && sep.get_char(1) == code;
    proof {
        if r {
            assert(sep@ =~= token(code));
        }
    }
    r
}

/// The separator made of the digit `d`.
pub fn digit_separator(d: usize) -> (r: String)
    requires
        d < 10,
    ensures
        r@ == seq![decimal_digits()[d as int]],
{
    let digits = "0123456789";
    proof {
        reveal_strlit("0123456789");
        assert(digits@ =~= decimal_digits());
    }
    let s = digits.substring_char(d, d + 1);
    proof {
        assert(s@ =~= seq![decimal_digits()[d as int]]);
    }
    String::from_str(s)
}

/// The separator made of the symbol at `i` of the separator symbols.
pub fn symbol_separator(i: usize) -> (r: String)
    requires
        i < separator_symbols().len(),
    ensures
        r@ == seq![separator_symbols()[i as int]],
{
    let symbols = "!@#$%&*(){}[]\\:;'<>?,./_-+=";
    proof {
        reveal_strlit("!@#$%&*(){}[]\\:;'<>?,./_-+=");
        assert(symbols@ =~= separator_symbols());
    }
    let s = symbols.substring_char(i, i + 1);
    proof {
        assert(s@ =~= seq![separator_symbols()[i as int]]);
    }
    String::from_str(s)
}

/// Resolves the separator setting `sep` for one gap between two words. Each
/// call draws anew for a random token.
pub fn make_separator(rng: &mut ThreadRng, sep: &str) -> (r: String)
    ensures
        is_separator_outcome(sep@, r@),
        !is_random_token(sep@) ==> *final(rng) == *old(rng),
{
    if is_token(sep, 'n') {
        get_random_number(rng)
    } else if is_token(sep, 's') {
        get_random_symbol(rng)
    } else if is_token(sep, 'b') {
        get_random_number_or_symbol(rng)
    } else {
        String::from_str(sep)
    }
}

/// The separator that the draws `coin`, `d` and `s` give: the symbol at `s`
/// when the coin shows one, else the digit `d`.
pub fn number_or_symbol(coin: usize, d: usize, s: usize) -> (r: String)
    requires
        coin < 2,
        d < 10,
        s < separator_symbols().len(),
    ensures
        r@ == (if coin == 1 {
            seq![separator_symbols()[s as int]]
        } else {
            seq![decimal_digits()[d as int]]
        }),
{
    if coin == 1 {
        symbol_separator(s)
    } else {
        digit_separator(d)
    }
}

/// A random digit or a random symbol, each kind with even odds.
fn get_random_number_or_symbol(rng: &mut ThreadRng) -> (r: String)
    ensures
        is_digit_separator(r@) || is_symbol_separator(r@),
{
    let coin = random_below(rng, 2);
    let d = random_below(rng, 10);
    let s = random_below(rng, 27);
    let r = number_or_symbol(coin, d, s);
    proof {
        if coin == 1 {
            assert(separator_symbols().contains(r@[0]));
        } else {
            assert(decimal_digits().contains(r@[0]));
        }
    }
    r
}

/// A random symbol of the separator symbols.
fn get_random_symbol(rng: &mut ThreadRng) -> (r: String)
    ensures
        is_symbol_separator(r@),
{
    let i = random_below(rng, 27);
    let r = symbol_separator(i);
    proof {
        assert(separator_symbols().contains(r@[0]));
    }
    r
}

/// A random decimal digit.
fn get_random_number(rng: &mut ThreadRng) -> (r: String)
    ensures
        is_digit_separator(r@),
{
    let d = random_below(rng, 10);
    let r = digit_separator(d);
    proof {
        assert(decimal_digits().contains(r@[0]));
    }
    r
}

} // verus!
