//! Whether the words of a list share one Unicode normalization form.
//!
//! A list that mixes forms may hold two encodings of what a reader sees as
//! the same word, which the rest of the library would count as two words.
use unicode_normalization::{is_nfc_quick, is_nfd_quick, is_nfkc_quick, is_nfkd_quick, IsNormalized};
use vstd::prelude::*;

verus! {

/// The four Unicode normalization forms.
#[derive(Clone, Copy, Debug, PartialEq, Eq, Structural)]
pub enum NormalizationForm {
    Nfc,
    Nfd,
    Nfkc,
    Nfkd,
}

/// Whether the quick check of unicode-normalization answers a definite yes
/// for NFC.
pub uninterp spec fn nfc_quick_yes(s: Seq<char>) -> bool;

/// Whether the quick check of unicode-normalization answers a definite yes
/// for NFD.
pub uninterp spec fn nfd_quick_yes(s: Seq<char>) -> bool;

/// Whether the quick check of unicode-normalization answers a definite yes
/// for NFKC.
pub uninterp spec fn nfkc_quick_yes(s: Seq<char>) -> bool;

/// Whether the quick check of unicode-normalization answers a definite yes
/// for NFKD.
pub uninterp spec fn nfkd_quick_yes(s: Seq<char>) -> bool;

/// Relies on `unicode_normalization::is_nfc_quick`, a function of the
/// characters alone; `Yes` is the definite answer, and a string of ASCII
/// characters only gets it.
#[verifier::external_body]
fn quick_nfc(s: &str) -> (r: bool)
    ensures
        r == nfc_quick_yes(s@),
        all_ascii(s@) ==> r,
{
    match is_nfc_quick(s.chars()) {
        IsNormalized::Yes => true,
        IsNormalized::No => false,
        IsNormalized::Maybe => false,
    }
}

/// Relies on `unicode_normalization::is_nfd_quick`, a function of the
/// characters alone; `Yes` is the definite answer.
#[verifier::external_body]
fn quick_nfd(s: &str) -> (r: bool)
    ensures
        r == nfd_quick_yes(s@),
{
    match is_nfd_quick(s.chars()) {
        IsNormalized::Yes => true,
        IsNormalized::No => false,
        IsNormalized::Maybe => false,
    }
}

/// Relies on `unicode_normalization::is_nfkc_quick`, a function of the
/// characters alone; `Yes` is the definite answer.
#[verifier::external_body]
fn quick_nfkc(s: &str) -> (r: bool)
    ensures
        r == nfkc_quick_yes(s@),
{
    match is_nfkc_quick(s.chars()) {
        IsNormalized::Yes => true,
        IsNormalized::No => false,
        IsNormalized::Maybe => false,
    }
}

/// Relies on `unicode_normalization::is_nfkd_quick`, a function of the
/// characters alone; `Yes` is the definite answer.
#[verifier::external_body]
fn quick_nfkd(s: &str) -> (r: bool)
    ensures
        r == nfkd_quick_yes(s@),
{
    match is_nfkd_quick(s.chars()) {
        IsNormalized::Yes => true,
        IsNormalized::No => false,
        IsNormalized::Maybe => false,
    }
}

/// Every character of `s` is ASCII.
pub open spec fn all_ascii(s: Seq<char>) -> bool {
    forall|i: int| 0 <= i < s.len() ==> (#[trigger] s[i] as u32) < 128
}

/// The form a word is taken to be in: the first of NFC, NFD, NFKC and NFKD
/// that the quick check confirms, or none.
pub open spec fn form_of(s: Seq<char>) -> Option<NormalizationForm> {
    if nfc_quick_yes(s) {
        Some(NormalizationForm::Nfc)
    } else if nfd_quick_yes(s) {
        Some(NormalizationForm::Nfd)
    } else if nfkc_quick_yes(s) {
        Some(NormalizationForm::Nfkc)
    } else if nfkd_quick_yes(s) {
        Some(NormalizationForm::Nfkd)
    } else {
        None
    }
}

/// No two forms occur among `forms`: all the entries that have a form have
/// the same one.
pub open spec fn at_most_one_form(forms: Seq<Option<NormalizationForm>>) -> bool {
    forall|i: int, j: int|
        0 <= i < forms.len() && 0 <= j < forms.len() && #[trigger] forms[i] is Some
            && #[trigger] forms[j] is Some ==> forms[i] == forms[j]
}

/// The forms of the words of `words`, in order.
pub open spec fn forms_of(words: Seq<String>) -> Seq<Option<NormalizationForm>> {
    words.map_values(|w: String| form_of(w@))
}

/// Finds the form of one word.
pub fn detect_form(s: &str) -> (r: Option<NormalizationForm>)
    ensures
        r == form_of(s@),
        all_ascii(s@) ==> r == Some(NormalizationForm::Nfc),
{
    if quick_nfc(s) {
        Some(NormalizationForm::Nfc)
    } else if quick_nfd(s) {
        Some(NormalizationForm::Nfd)
    } else if quick_nfkc(s) {
        Some(NormalizationForm::Nfkc)
    } else if quick_nfkd(s) {
        Some(NormalizationForm::Nfkd)
    } else {
        None
    }
}

/// Whether no two forms occur among `forms`.
pub fn uniform_forms(forms: &[Option<NormalizationForm>]) -> (r: bool)
    ensures
        r == at_most_one_form(forms@),
{
    let mut seen: Option<NormalizationForm> = None;
    let ghost mut at: int = 0;
    let mut i: usize = 0;
    while i < forms.len()
        invariant
            0 <= i <= forms@.len(),
            seen is None ==> forall|k: int| 0 <= k < i ==> #[trigger] forms@[k] is None,
            seen is Some ==> 0 <= at < i && forms@[at] == seen,
            seen is Some ==> forall|k: int|
                0 <= k < i ==> (#[trigger] forms@[k] is None || forms@[k] == seen),
        decreases forms@.len() - i,
    {
        if let Some(g) = forms[i] {
            match seen {
                None => {
                    seen = Some(g);
                    proof {
                        at = i as int;
                    }
                },
                Some(f) => {
                    if f != g {
                        proof {
                            assert(forms@[at] is Some && forms@[i as int] is Some);
                        }
                        return false;
                    }
                },
            }
        }
        i = i + 1;
    }
    proof {
        assert forall|x: int, y: int|
            0 <= x < forms@.len() && 0 <= y < forms@.len() && #[trigger] forms@[x] is Some
                && #[trigger] forms@[y] is Some implies forms@[x] == forms@[y] by {
            assert(forms@[x] is None || forms@[x] == seen);
            assert(forms@[y] is None || forms@[y] == seen);
        }
    }
    true
}

/// Whether the words of `list` share one normalization form: no two words
/// have different forms. Words with no definite form, and an empty list, mix
/// no forms.
pub fn uniform_unicode_normalization(list: &[String]) -> (r: bool)
    ensures
        r == at_most_one_form(forms_of(list@)),
        (forall|i: int| 0 <= i < list@.len() ==> all_ascii(#[trigger] list@[i]@)) ==> r,
{
    let mut forms: Vec<Option<NormalizationForm>> = Vec::new();
    let mut i: usize = 0;
    while i < list.len()
        invariant
            0 <= i <= list@.len(),
            forms@ =~= forms_of(list@).subrange(0, i as int),
            forall|k: int|
                0 <= k < i && all_ascii(list@[k]@) ==> #[trigger] forms@[k] == Some(
                    NormalizationForm::Nfc,
                ),
        decreases list@.len() - i,
    {
        forms.push(detect_form(list[i].as_str()));
        i = i + 1;
    }
    proof {
        assert(forms@ =~= forms_of(list@));
        if forall|i: int| 0 <= i < list@.len() ==> all_ascii(#[trigger] list@[i]@) {
            assert forall|x: int, y: int|
                0 <= x < forms@.len() && 0 <= y < forms@.len() && #[trigger] forms@[x] is Some
                    && #[trigger] forms@[y] is Some implies forms@[x] == forms@[y] by {
                assert(all_ascii(list@[x]@));
                assert(all_ascii(list@[y]@));
            }
        }
    }
    uniform_forms(forms.as_slice())
}

} // verus!
