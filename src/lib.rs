//! Conversion of non-negative integers to a compact base-64 text form,
//! meant for short identifiers that are safe to put in a URL.
//!
//! The digit alphabet is `0`-`9`, `A`-`Z`, `a`-`z`, `-`, `_`: the symbol at
//! position `d` stands for the digit value `d`.

mod alphabet;
mod bound;
mod codec;
mod random;

pub use alphabet::{digit_char, digit_symbol, in_alphabet, lemma_symbol_value_inverts, symbol_value};
pub use bound::{lemma_max_value_boundary, lemma_pow64_monotonic, max_value_for_letters, pow64};
pub use codec::{
    decoding, encode, encoding, lemma_encoding_in_alphabet, lemma_encoding_len_monotonic,
    lemma_encoding_nonempty, lemma_no_leading_zero, lemma_round_trip,
};
pub use random::generate;
