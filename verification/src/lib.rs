//! Recovery of a partially known BIP39 mnemonic phrase: deterministic
//! enumeration of candidate completions from an integer offset, checksum
//! filtering through the `bip39` crate, and the bookkeeping of a resumable,
//! bounded-concurrency search that stops at the first funded match.

pub mod checksum;
pub mod derivation;
pub mod enumerate;
pub mod laws;
pub mod offset;
pub mod search;
pub mod template;
pub mod wordlist;
