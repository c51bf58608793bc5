//! The checksum filter: a complete phrase either is a structurally valid
//! mnemonic — right word count, every word in the wordlist, checksum bits
//! matching — or it is discarded. Validation and seed derivation are the
//! `bip39` crate's; the filter's calling contract is stated here.

use vstd::prelude::*;
use crate::enumerate::candidate_phrase;
use crate::offset::Offset;
use crate::template::{count_wildcards, PartialSeed};

verus! {

/// Whether a phrase is a valid English mnemonic under the BIP39 checksum.
/// A function of the phrase alone, the same on every run.
pub uninterp spec fn is_valid_mnemonic(phrase: Seq<char>) -> bool;

/// The 64 seed bytes that a valid phrase derives with an empty passphrase.
/// A function of the phrase alone, the same on every run.
pub uninterp spec fn seed_bytes_of(phrase: Seq<char>) -> Seq<u8>;

/// Relies on `bip39::Mnemonic::parse_in_normalized`, which returns `Ok`
/// exactly on checksum-valid English phrases, and on
/// `bip39::Mnemonic::to_seed_normalized`, the 64-byte PBKDF2 seed of the
/// phrase with an empty passphrase. Both read only the phrase; neither
/// panics.
#[verifier::external_body]
pub(crate) fn checked_seed(phrase: &str) -> (r: Option<Vec<u8>>)
    ensures
        r is Some <==> is_valid_mnemonic(phrase@),
        r matches Some(s) ==> s@ == seed_bytes_of(phrase@) && s@.len() == 64,
{
    match bip39::Mnemonic::parse_in_normalized(bip39::Language::English, phrase) {
        Ok(m) => Some(m.to_seed_normalized("").to_vec()),
        Err(_) => None,
    }
}

/// A candidate that passed the checksum, with the seed bytes it derives.
/// Produced once per passing candidate; the balance check consumes it.
pub struct VerifiedSeed {
    pub phrase: String,
    pub seed: Vec<u8>,
}

impl VerifiedSeed {
    pub open spec fn wf(&self) -> bool {
        &&& is_valid_mnemonic(self.phrase@)
        &&& self.seed@ == seed_bytes_of(self.phrase@)
        &&& self.seed@.len() == 64
    }
}

/// Filter one complete phrase: `Some` with its seed exactly when the phrase
/// satisfies the mnemonic checksum, `None` otherwise. Rejection is the
/// normal, non-exceptional outcome.
pub fn filter_phrase(phrase: String) -> (r: Option<VerifiedSeed>)
    ensures
        r is Some <==> is_valid_mnemonic(phrase@),
        r matches Some(v) ==> v.phrase@ == phrase@ && v.wf(),
{
    match checked_seed(phrase.as_str()) {
        Some(seed) => Some(VerifiedSeed { phrase, seed }),
        None => None,
    }
}

impl PartialSeed {
    /// Evaluate the candidate that `off` names: enumerate it, then filter it
    /// against the checksum. `Some` exactly when the resolved phrase is a
    /// valid mnemonic, carrying that phrase and its seed bytes.
    pub fn evaluate(&self, off: &Offset) -> (r: Option<VerifiedSeed>)
        requires
            off.wf(),
            off.width() == count_wildcards(self@),
        ensures
            r is Some <==> is_valid_mnemonic(candidate_phrase(self@, off.digits@)),
            r matches Some(v) ==> v.phrase@ == candidate_phrase(self@, off.digits@) && v.wf(),
    {
        let phrase = self.guess_seed(off);
        filter_phrase(phrase)
    }
}

} // verus!
