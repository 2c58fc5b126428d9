//! Word lists: the source that words are drawn from, and the validation of a
//! list that a user supplies.
use crate::error::PhrazeError;
use crate::unicode_normalization_check::{forms_of, at_most_one_form, uniform_unicode_normalization};
use vstd::prelude::*;
use vstd::seq_lib::{lemma_seq_contains_after_push, to_multiset_contains};

verus! {

/// The words a passphrase is drawn from: a list built into the program, or a
/// validated list that the user supplied.
pub enum WordSource {
    BuiltIn(&'static [&'static str]),
    Custom(Vec<String>),
}

impl View for WordSource {
    type V = Seq<Seq<char>>;

    open spec fn view(&self) -> Seq<Seq<char>> {
        match self {
            WordSource::BuiltIn(words) => words@.map_values(|w: &str| w@),
            WordSource::Custom(words) => word_views(words@),
        }
    }
}

impl WordSource {
    /// The number of words.
    pub fn len(&self) -> (r: usize)
        ensures
            r == self@.len(),
    {
        match self {
            WordSource::BuiltIn(words) => words.len(),
            WordSource::Custom(words) => words.len(),
        }
    }

    /// The word at `i`.
    pub fn word_at(&self, i: usize) -> (r: &str)
        requires
            i < self@.len(),
        ensures
            r@ == self@[i as int],
    {
        match self {
            WordSource::BuiltIn(words) => words[i],
            WordSource::Custom(words) => words[i].as_str(),
        }
    }
}

/// The characters of each string of `words`.
pub open spec fn word_views(words: Seq<String>) -> Seq<Seq<char>> {
    words.map_values(|w: String| w@)
}

/// `c` has the Unicode White_Space property.
pub open spec fn is_white_space(c: char) -> bool {
    let u = c as u32;
    ||| 0x09 <= u <= 0x0d
    ||| u == 0x20
    ||| u == 0x85
    ||| u == 0xa0
    ||| u == 0x1680
    ||| 0x2000 <= u <= 0x200a
    ||| u == 0x2028
    ||| u == 0x2029
    ||| u == 0x202f
    ||| u == 0x205f
    ||| u == 0x3000
}

/// `r` is `s` without its leading and trailing white space: a middle part of
/// `s` with white space only around it, and no white space at either end.
pub open spec fn is_trim_of(s: Seq<char>, r: Seq<char>) -> bool {
    exists|i: int, j: int|
        {
            &&& 0 <= i <= j <= s.len()
            &&& r == s.subrange(i, j)
            &&& forall|k: int| 0 <= k < i ==> is_white_space(#[trigger] s[k])
            &&& forall|k: int| j <= k < s.len() ==> is_white_space(#[trigger] s[k])
            &&& i < j ==> !is_white_space(s[i]) && !is_white_space(s[j - 1])
        }
}

/// A string has one trimmed form.
proof fn lemma_trim_unique(s: Seq<char>, a: Seq<char>, b: Seq<char>)
    requires
        is_trim_of(s, a),
        is_trim_of(s, b),
    ensures
        a == b,
{
    let (i1, j1) = choose|i: int, j: int|
        {
            &&& 0 <= i <= j <= s.len()
            &&& a == s.subrange(i, j)
            &&& forall|k: int| 0 <= k < i ==> is_white_space(#[trigger] s[k])
            &&& forall|k: int| j <= k < s.len() ==> is_white_space(#[trigger] s[k])
            &&& i < j ==> !is_white_space(s[i]) && !is_white_space(s[j - 1])
        };
    let (i2, j2) = choose|i: int, j: int|
        {
            &&& 0 <= i <= j <= s.len()
            &&& b == s.subrange(i, j)
            &&& forall|k: int| 0 <= k < i ==> is_white_space(#[trigger] s[k])
            &&& forall|k: int| j <= k < s.len() ==> is_white_space(#[trigger] s[k])
            &&& i < j ==> !is_white_space(s[i]) && !is_white_space(s[j - 1])
        };
    if i1 < j1 && i2 < j2 {
        if i1 < i2 {
            assert(is_white_space(s[i1]));
        }
        if i2 < i1 {
            assert(is_white_space(s[i2]));
        }
        if j1 < j2 {
            assert(is_white_space(s[j2 - 1]));
        }
        if j2 < j1 {
            assert(is_white_space(s[j1 - 1]));
        }
    } else if i1 < j1 {
        assert(i2 == j2);
        if i1 < i2 {
            assert(is_white_space(s[i1]));
        } else {
            assert(is_white_space(s[i1]));
        }
    } else if i2 < j2 {
        if i2 < i1 {
            assert(is_white_space(s[i2]));
        } else {
            assert(is_white_space(s[i2]));
        }
    } else {
        assert(a =~= b);
    }
}

/// Relies on `str::trim`: the string without its leading and trailing
/// characters of the Unicode White_Space property.
#[verifier::external_body]
fn trim<'a>(s: &'a str) -> (r: &'a str)
    ensures
        is_trim_of(s@, r@),
{
    s.trim()
}

/// `a` comes strictly before `b` in the order of strings: the first character
/// where they differ decides, by its code point, and a proper prefix comes
/// first.
pub open spec fn word_lt(a: Seq<char>, b: Seq<char>) -> bool
    decreases a.len(),
{
    if a.len() == 0 {
        b.len() > 0
    } else if b.len() == 0 {
        false
    } else if a[0] != b[0] {
        (a[0] as u32) < (b[0] as u32)
    } else {
        word_lt(a.drop_first(), b.drop_first())
    }
}

/// `a` equals `b` or comes before it.
pub open spec fn word_le(a: Seq<char>, b: Seq<char>) -> bool {
    a == b || word_lt(a, b)
}

/// Each word is at most the next one.
pub open spec fn sorted_words(s: Seq<Seq<char>>) -> bool {
    forall|i: int| 0 <= i < s.len() - 1 ==> word_le(#[trigger] s[i], s[i + 1])
}

/// Each word comes strictly before the next one: sorted, with no word twice.
pub open spec fn strictly_sorted_words(s: Seq<Seq<char>>) -> bool {
    forall|i: int| 0 <= i < s.len() - 1 ==> word_lt(#[trigger] s[i], s[i + 1])
}

/// Relies on `slice::sort`: the same strings, in the order of `String`, which
/// compares the UTF-8 bytes and so the code points.
#[verifier::external_body]
fn sort_words(v: &mut Vec<String>)
    ensures
        word_views(final(v)@).to_multiset() == word_views(old(v)@).to_multiset(),
        sorted_words(word_views(final(v)@)),
{
    v.sort();
}

/// `w` is a word of `lines`: some line, without its leading and trailing white
/// space, is `w`, and `w` is not empty.
pub open spec fn is_list_word(lines: Seq<String>, w: Seq<char>) -> bool {
    w.len() > 0 && exists|i: int| 0 <= i < lines.len() && #[trigger] is_trim_of(lines[i]@, w)
}

proof fn lemma_list_word_push(lines: Seq<String>, x: String, w: Seq<char>)
    ensures
        is_list_word(lines.push(x), w) <==> (is_list_word(lines, w) || (w.len() > 0
            && is_trim_of(x@, w))),
{
    let next = lines.push(x);
    if is_list_word(lines, w) {
        let j = choose|j: int| 0 <= j < lines.len() && #[trigger] is_trim_of(lines[j]@, w);
        assert(next[j] == lines[j]);
        assert(is_trim_of(next[j]@, w));
    }
    if w.len() > 0 && is_trim_of(x@, w) {
        assert(next[lines.len() as int] == x);
        assert(is_trim_of(next[lines.len() as int]@, w));
    }
    if is_list_word(next, w) {
        let j = choose|j: int| 0 <= j < next.len() && #[trigger] is_trim_of(next[j]@, w);
        if j < lines.len() {
            assert(next[j] == lines[j]);
            assert(is_trim_of(lines[j]@, w));
        }
    }
}

/// The trimmed lines of `lines` that are not empty, in order.
fn trimmed_words(lines: &[String]) -> (r: Vec<String>)
    ensures
        forall|w: Seq<char>| word_views(r@).contains(w) <==> is_list_word(lines@, w),
{
    let mut kept: Vec<String> = Vec::new();
    let mut i: usize = 0;
    proof {
        assert(word_views(kept@) =~= Seq::<Seq<char>>::empty());
        assert(lines@.subrange(0, 0) =~= Seq::<String>::empty());
    }
    while i < lines.len()
        invariant
            0 <= i <= lines@.len(),
            forall|w: Seq<char>|
                word_views(kept@).contains(w) <==> is_list_word(lines@.subrange(0, i as int), w),
        decreases lines@.len() - i,
    {
        let t = trim(lines[i].as_str());
        let ghost before = kept@;
        let ghost prefix = lines@.subrange(0, i as int);
        let ghost next = lines@.subrange(0, i + 1);
        if t.unicode_len() > 0 {
            kept.push(String::from_str(t));
        }
        proof {
            assert(next =~= prefix.push(lines@[i as int]));
            if t@.len() > 0 {
                assert(word_views(kept@) =~= word_views(before).push(t@));
            } else {
                assert(kept@ == before);
            }
            assert(is_trim_of(lines@[i as int]@, t@));
            assert forall|w: Seq<char>|
                word_views(kept@).contains(w) <==> is_list_word(next, w) by {
                lemma_list_word_push(prefix, lines@[i as int], w);
                if is_trim_of(lines@[i as int]@, w) {
                    lemma_trim_unique(lines@[i as int]@, t@, w);
                }
                if t@.len() > 0 {
                    lemma_seq_contains_after_push(word_views(before), t@, w);
                    assert(word_views(kept@).contains(w) <==> (word_views(before).contains(w) || w
                        == t@));
                } else {
                    assert(word_views(kept@) == word_views(before));
                }
                assert(word_views(before).contains(w) <==> is_list_word(prefix, w));
            }
        }
        i = i + 1;
    }
    proof {
        assert(lines@.subrange(0, lines@.len() as int) =~= lines@);
    }
    kept
}

/// Keeps the first word of each run of equal words in a sorted list.
fn dedup_sorted(sorted: &Vec<String>) -> (r: Vec<String>)
    requires
        sorted_words(word_views(sorted@)),
    ensures
        strictly_sorted_words(word_views(r@)),
        forall|w: Seq<char>| word_views(r@).contains(w) <==> word_views(sorted@).contains(w),
{
    let ghost sv = word_views(sorted@);
    let mut out: Vec<String> = Vec::new();
    let mut i: usize = 0;
    proof {
        assert(word_views(out@) =~= Seq::<Seq<char>>::empty());
        assert(sv.subrange(0, 0) =~= Seq::<Seq<char>>::empty());
    }
    while i < sorted.len()
        invariant
            0 <= i <= sorted@.len(),
            sv == word_views(sorted@),
            sorted_words(sv),
            strictly_sorted_words(word_views(out@)),
            forall|w: Seq<char>|
                word_views(out@).contains(w) <==> sv.subrange(0, i as int).contains(w),
            i == 0 <==> out@.len() == 0,
            i > 0 ==> out@[out@.len() - 1]@ == sv[i - 1],
        decreases sorted@.len() - i,
    {
        let ghost before = word_views(out@);
        let ghost prefix = sv.subrange(0, i as int);
        let ghost next = sv.subrange(0, i + 1);
        let fresh = out.len() == 0 || out[out.len() - 1] != sorted[i];
        if fresh {
            out.push(sorted[i].clone());
        }
        proof {
            assert(next =~= prefix.push(sv[i as int]));
            if fresh {
                assert(word_views(out@) =~= before.push(sv[i as int]));
                if i > 0 {
                    assert(word_le(sv[i - 1], sv[i as int]));
                    assert(before[before.len() - 1] == sv[i - 1]);
                }
            } else {
                assert(word_views(out@) == before);
                assert(before[before.len() - 1] == sv[i as int]);
                assert(before.contains(sv[i as int]));
            }
            assert forall|w: Seq<char>| word_views(out@).contains(w) <==> next.contains(w) by {
                lemma_seq_contains_after_push(prefix, sv[i as int], w);
                assert(next.contains(w) <==> (prefix.contains(w) || w == sv[i as int]));
                assert(before.contains(w) <==> prefix.contains(w));
                if fresh {
                    lemma_seq_contains_after_push(before, sv[i as int], w);
                    assert(word_views(out@).contains(w) <==> (before.contains(w) || w == sv[i as int]));
                }
            }
        }
        i = i + 1;
    }
    proof {
        assert(sv.subrange(0, sv.len() as int) =~= sv);
    }
    out
}

/// Validates a list of lines supplied as a word list. Each line is trimmed,
/// empty lines are dropped, and the words are sorted with no word twice. The
/// list is refused when no word is left; otherwise the result also tells
/// whether the words share one Unicode normalization form.
pub fn validate_word_list(lines: &[String]) -> (r: Result<(Vec<String>, bool), PhrazeError>)
    ensures
        match r {
            Ok((words, uniform)) => {
                &&& words@.len() > 0
                &&& strictly_sorted_words(word_views(words@))
                &&& forall|w: Seq<char>| word_views(words@).contains(w) <==> is_list_word(lines@, w)
                &&& uniform == at_most_one_form(forms_of(words@))
            },
            Err(e) => e == PhrazeError::EmptyList && forall|w: Seq<char>| !is_list_word(lines@, w),
        },
{
    let mut kept = trimmed_words(lines);
    let ghost unsorted = word_views(kept@);
    sort_words(&mut kept);
    proof {
        assert forall|w: Seq<char>| word_views(kept@).contains(w) <==> unsorted.contains(w) by {
            to_multiset_contains(word_views(kept@), w);
            to_multiset_contains(unsorted, w);
        }
    }
    let words = dedup_sorted(&kept);
    if words.len() == 0 {
        proof {
            assert forall|w: Seq<char>| !is_list_word(lines@, w) by {
                if is_list_word(lines@, w) {
                    assert(word_views(words@).contains(w));
                }
            }
        }
        return Err(PhrazeError::EmptyList);
    }
    let uniform = uniform_unicode_normalization(words.as_slice());
    Ok((words, uniform))
}

} // verus!
