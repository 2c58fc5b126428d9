//! Composing passphrases: words drawn from a word source, each optionally put
//! in title case, joined by resolved separators.
use crate::case::{make_title_case, title_case_of};
use crate::cli::Args;
use crate::entropy::{calculate_number_words_needed, planned_words};
use crate::error::PhrazeError;
use crate::separators::{is_separator_outcome, make_separator, random_below};
use crate::word_list::{word_views, WordSource};
use rand::rngs::ThreadRng;
use vstd::prelude::*;

verus! {

/// A word as it stands in a passphrase: in title case when asked for, else
/// unchanged.
pub open spec fn styled(word: Seq<char>, title_case: bool) -> Seq<char> {
    if title_case {
        title_case_of(word)
    } else {
        word
    }
}

/// The words of `words` with `seps[i]` between word `i` and word `i + 1`.
pub open spec fn joined(words: Seq<Seq<char>>, seps: Seq<Seq<char>>) -> Seq<char>
    decreases words.len(),
{
    if words.len() == 0 {
        Seq::empty()
    } else if words.len() == 1 {
        words[0]
    } else {
        joined(words.drop_last(), seps) + seps[words.len() - 2] + words.last()
    }
}

/// The words of `source` at the indices `picks`, styled.
pub open spec fn picked_words(source: Seq<Seq<char>>, picks: Seq<usize>, title_case: bool) -> Seq<
    Seq<char>,
> {
    picks.map_values(|i: usize| styled(source[i as int], title_case))
}

/// The number of separators between `n` words.
pub open spec fn gaps(n: nat) -> nat {
    if n == 0 {
        0
    } else {
        (n - 1) as nat
    }
}

/// `p` is a passphrase that `count` words drawn from `source` can make, with
/// separators resolved from `sep`: `count` words of the source, each styled,
/// and between each two a possible resolution of `sep`.
pub open spec fn is_passphrase_outcome(
    source: Seq<Seq<char>>,
    count: nat,
    sep: Seq<char>,
    title_case: bool,
    p: Seq<char>,
) -> bool {
    exists|picks: Seq<usize>, seps: Seq<Seq<char>>|
        {
            &&& picks.len() == count
            &&& seps.len() == gaps(count)
            &&& forall|i: int| 0 <= i < picks.len() ==> #[trigger] picks[i] < source.len()
            &&& forall|j: int| 0 <= j < seps.len() ==> is_separator_outcome(sep, #[trigger] seps[j])
            &&& p == joined(picked_words(source, picks, title_case), seps)
        }
}

/// Builds a passphrase from the words of `source` at the indices `picks`, with
/// `separators[i]` between word `i` and word `i + 1`.
pub fn assemble_passphrase(
    source: &WordSource,
    picks: &[usize],
    separators: &[String],
    title_case: bool,
) -> (r: String)
    requires
        forall|i: int| 0 <= i < picks@.len() ==> #[trigger] picks@[i] < source@.len(),
        separators@.len() == gaps(picks@.len()),
    ensures
        r@ == joined(picked_words(source@, picks@, title_case), word_views(separators@)),
{
    let ghost words = picked_words(source@, picks@, title_case);
    let ghost seps = word_views(separators@);
    let mut out = String::new();
    let mut i: usize = 0;
    while i < picks.len()
        invariant
            0 <= i <= picks@.len(),
            forall|k: int| 0 <= k < picks@.len() ==> #[trigger] picks@[k] < source@.len(),
            separators@.len() == gaps(picks@.len()),
            words == picked_words(source@, picks@, title_case),
            seps == word_views(separators@),
            out@ == joined(words.take(i as int), seps),
        decreases picks@.len() - i,
    {
        let word = source.word_at(picks[i]);
        let shown = if title_case {
            make_title_case(word)
        } else {
            String::from_str(word)
        };
        if i > 0 {
            out.append(separators[i - 1].as_str());
        }
        out.append(shown.as_str());
        proof {
            let next = words.take(i + 1);
            assert(next.drop_last() =~= words.take(i as int));
            assert(next.last() == shown@);
            if i == 0 {
                assert(words.take(0) =~= Seq::<Seq<char>>::empty());
                assert(out@ =~= next[0]);
            } else {
                assert(seps[i - 1] == separators@[i - 1]@);
                assert(out@ =~= joined(words.take(i as int), seps) + seps[i - 1] + shown@);
            }
        }
        i = i + 1;
    }
    proof {
        assert(words.take(picks@.len() as int) =~= words);
    }
    out
}

/// Generates one passphrase of `number_of_words` words drawn at random, with
/// repeats allowed, from `list`. Between each two words stands `separator`,
/// resolved anew for each gap. Refused when the list has no word.
pub fn generate_a_passphrase(
    number_of_words: usize,
    separator: &str,
    title_case: bool,
    list: &WordSource,
    rng: &mut ThreadRng,
) -> (r: Result<String, PhrazeError>)
    ensures
        list@.len() == 0 <==> r == Err::<String, PhrazeError>(PhrazeError::EmptyList),
        list@.len() > 0 ==> r is Ok,
        r matches Ok(p) ==> is_passphrase_outcome(
            list@,
            number_of_words as nat,
            separator@,
            title_case,
            p@,
        ),
{
    let n = list.len();
    if n == 0 {
        return Err(PhrazeError::EmptyList);
    }
    let mut picks: Vec<usize> = Vec::new();
    let mut separators: Vec<String> = Vec::new();
    let mut i: usize = 0;
    while i < number_of_words
        invariant
            n == list@.len(),
            n > 0,
            0 <= i <= number_of_words,
            picks@.len() == i,
            separators@.len() == gaps(i as nat),
            forall|k: int| 0 <= k < picks@.len() ==> #[trigger] picks@[k] < n,
            forall|j: int|
                0 <= j < separators@.len() ==> is_separator_outcome(
                    separator@,
                    #[trigger] separators@[j]@,
                ),
        decreases number_of_words - i,
    {
        if i > 0 {
            let s = make_separator(rng, separator);
            separators.push(s);
        }
        let k = random_below(rng, n);
        picks.push(k);
        i = i + 1;
    }
    let p = assemble_passphrase(list, picks.as_slice(), separators.as_slice(), title_case);
    proof {
        let seps = word_views(separators@);
        assert(forall|j: int|
            0 <= j < seps.len() ==> is_separator_outcome(separator@, #[trigger] seps[j]));
    }
    Ok(p)
}

/// Generates the passphrases that `opt` asks for from `list`: as many as it
/// asks for, each with the number of words its settings plan for this list.
pub fn generate_passphrases(opt: &Args, list: &WordSource, rng: &mut ThreadRng) -> (r: Result<
    Vec<String>,
    PhrazeError,
>)
    requires
        opt.number_of_words is None ==> list@.len() >= 2,
    ensures
        list@.len() == 0 <==> r == Err::<Vec<String>, PhrazeError>(PhrazeError::EmptyList),
        list@.len() > 0 ==> r is Ok,
        r matches Ok(v) ==> {
            &&& v@.len() == opt.n_passphrases
            &&& exists|w: nat|
                {
                    &&& planned_words(
                        opt.number_of_words,
                        opt.minimum_entropy,
                        opt.strength_count,
                        list@.len(),
                        w,
                    )
                    &&& forall|i: int|
                        0 <= i < v@.len() ==> is_passphrase_outcome(
                            list@,
                            w,
                            opt.separator@,
                            opt.title_case,
                            #[trigger] v@[i]@,
                        )
                }
        },
{
    if list.len() == 0 {
        return Err(PhrazeError::EmptyList);
    }
    let words = calculate_number_words_needed(
        opt.number_of_words,
        opt.minimum_entropy,
        opt.strength_count,
        list.len(),
    );
    let mut out: Vec<String> = Vec::new();
    let mut i: usize = 0;
    while i < opt.n_passphrases
        invariant
            0 <= i <= opt.n_passphrases,
            out@.len() == i,
            list@.len() > 0,
            forall|k: int|
                0 <= k < out@.len() ==> is_passphrase_outcome(
                    list@,
                    words as nat,
                    opt.separator@,
                    opt.title_case,
                    #[trigger] out@[k]@,
                ),
        decreases opt.n_passphrases - i,
    {
        match generate_a_passphrase(words, opt.separator.as_str(), opt.title_case, list, rng) {
            Ok(p) => out.push(p),
            Err(e) => return Err(e),
        }
        i = i + 1;
    }
    Ok(out)
}

} // verus!
