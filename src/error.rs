//! The ways a request for passphrases can fail.
use vstd::prelude::*;

verus! {

/// Why a word list or a setting was refused.
#[derive(Clone, Copy, Debug, PartialEq, Eq, Structural)]
pub enum PhrazeError {
    /// No usable word is left in the list.
    EmptyList,
    /// The name of a built-in list is not known.
    UnknownList,
    /// A custom list is used with neither a separator nor title case, so the
    /// words would run together.
    SeparatorOrTitleCaseNeeded,
}

} // verus!
