//! Passphrase generation: planning how many words a passphrase needs, picking
//! words and separators, and validating custom word lists.
pub mod case;
pub mod cli;
pub mod entropy;
pub mod error;
pub mod passphrase;
pub mod separators;
pub mod unicode_normalization_check;
pub mod word_list;

pub use entropy::{calculate_number_words_needed, convert_minimum_entropy_to_number_of_words};
pub use passphrase::{generate_a_passphrase, generate_passphrases};
