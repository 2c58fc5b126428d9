//! The settings of a request for passphrases, and the names of the built-in
//! word lists.
use crate::case::{lower_of, lowercase};
use crate::error::PhrazeError;
use vstd::prelude::*;

verus! {

/// The word lists built into the program.
#[derive(Clone, Copy, Debug, PartialEq, Eq, Structural)]
pub enum ListChoice {
    Long,
    Medium,
    Eff,
    Mnemonicode,
    Effshort,
    Qwerty,
    Alpha,
}

impl ListChoice {
    /// The number of words in the built-in list.
    pub fn expected_length(self) -> (r: usize)
        ensures
            r == built_in_length(self),
    {
        match self {
            ListChoice::Long => 17576,
            ListChoice::Medium => 8192,
            ListChoice::Eff => 7776,
            ListChoice::Mnemonicode => 1633,
            ListChoice::Effshort => 1296,
            ListChoice::Qwerty => 1296,
            ListChoice::Alpha => 1296,
        }
    }
}

/// The number of words in each built-in list.
pub open spec fn built_in_length(choice: ListChoice) -> nat {
    match choice {
        ListChoice::Long => 17576,
        ListChoice::Medium => 8192,
        ListChoice::Eff => 7776,
        ListChoice::Mnemonicode => 1633,
        ListChoice::Effshort => 1296,
        ListChoice::Qwerty => 1296,
        ListChoice::Alpha => 1296,
    }
}

/// What a caller asks for.
#[derive(Debug)]
pub struct Args {
    /// Each level adds 20 bits to the default minimum entropy.
    pub strength_count: u8,
    /// Minimum entropy of each passphrase, in bits.
    pub minimum_entropy: Option<usize>,
    /// Exact number of words of each passphrase.
    pub number_of_words: Option<usize>,
    /// How many passphrases to generate.
    pub n_passphrases: usize,
    /// The separator setting: a literal, or one of `_n`, `_s`, `_b`.
    pub separator: String,
    /// The built-in list to draw from.
    pub list_choice: ListChoice,
    /// A file holding a custom list to draw from instead.
    pub custom_list_file_path: Option<String>,
    /// Whether to put each word in title case.
    pub title_case: bool,
    /// Whether to report the entropy of the passphrases.
    pub verbose: bool,
}

/// The built-in list that a letter, in lower case, names.
pub open spec fn list_choice_of_letter(c: char) -> Option<ListChoice> {
    match c {
        'l' => Some(ListChoice::Long),
        'm' => Some(ListChoice::Medium),
        'e' => Some(ListChoice::Eff),
        'n' => Some(ListChoice::Mnemonicode),
        's' => Some(ListChoice::Effshort),
        'q' => Some(ListChoice::Qwerty),
        'a' => Some(ListChoice::Alpha),
        _ => None,
    }
}

/// The built-in list that a one-letter code, already in lower case, names.
pub open spec fn list_choice_of(code: Seq<char>) -> Option<ListChoice> {
    if code.len() == 1 {
        list_choice_of_letter(code[0])
    } else {
        None
    }
}

/// The built-in list that a one-letter code, already in lower case, names.
pub fn list_choice_for_code(code: &str) -> (r: Option<ListChoice>)
    ensures
        r == list_choice_of(code@),
{
    if code.unicode_len() != 1 {
        return None;
    }
    match code.get_char(0) {
        'l' => Some(ListChoice::Long),
        'm' => Some(ListChoice::Medium),
        'e' => Some(ListChoice::Eff),
        'n' => Some(ListChoice::Mnemonicode),
        's' => Some(ListChoice::Effshort),
        'q' => Some(ListChoice::Qwerty),
        'a' => Some(ListChoice::Alpha),
        _ => None,
    }
}

/// The built-in list that a one-letter code names, in either case.
pub fn parse_list_choice(list_choice: &str) -> (r: Result<ListChoice, PhrazeError>)
    ensures
        match list_choice_of(lower_of(list_choice@)) {
            Some(c) => r == Ok::<ListChoice, PhrazeError>(c),
            None => r == Err::<ListChoice, PhrazeError>(PhrazeError::UnknownList),
        },
{
    let lowered = lowercase(list_choice);
    match list_choice_for_code(lowered.as_str()) {
        Some(c) => Ok(c),
        None => Err(PhrazeError::UnknownList),
    }
}

/// The settings run words together: a custom list with an empty separator
/// and no title case.
pub open spec fn runs_words_together(opt: Args) -> bool {
    opt.custom_list_file_path is Some && opt.separator@.len() == 0 && !opt.title_case
}

/// Refuses settings under which the words of a passphrase would run together.
pub fn validate_settings(opt: &Args) -> (r: Result<(), PhrazeError>)
    ensures
        runs_words_together(*opt) <==> r == Err::<(), PhrazeError>(
            PhrazeError::SeparatorOrTitleCaseNeeded,
        ),
        !runs_words_together(*opt) <==> r is Ok,
{
    let custom = match &opt.custom_list_file_path {
        Some(_) => true,
        None => false,
    };
    if custom && opt.separator.as_str().unicode_len() == 0 && !opt.title_case {
        Err(PhrazeError::SeparatorOrTitleCaseNeeded)
    } else {
        Ok(())
    }
}

} // verus!
