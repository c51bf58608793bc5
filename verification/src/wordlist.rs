//! The fixed English wordlist that unknown words range over, supplied by the
//! `bip39` crate.

use vstd::prelude::*;

verus! {

/// The word at index `i` of the BIP39 English wordlist. The list is a fixed
/// table, so the word is a function of the index alone, stable across runs.
pub uninterp spec fn english_word(i: int) -> Seq<char>;

/// Relies on `bip39::Language::word_list`: a reference to the fixed English
/// table of 2048 words; indexing it below 2048 cannot fail and yields the
/// same word for the same index on every run.
#[verifier::external_body]
pub(crate) fn word_at(i: u16) -> (r: String)
    requires
        i < 2048,
    ensures
        r@ == english_word(i as int),
{
    bip39::Language::English.word_list()[i as usize].to_string()
}

} // verus!
